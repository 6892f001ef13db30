//! The tool registry's data model: parameter descriptions and the typed
//! argument shapes of the built-in tools.
use vstd::prelude::*;

pub mod apply_patch;
pub mod list_files;
pub mod read_file;
pub mod run_command;

verus! {

/// The kind of a tool parameter.
#[derive(Debug, Clone)]
pub enum ParamType {
    String,
    Choice(&'static [&'static str]),
    Number,
    Boolean,
}

/// One declared parameter of a tool.
#[derive(Clone)]
pub struct Param {
    pub name: &'static str,
    pub desc: &'static str,
    pub param_type: ParamType,
    pub required: bool,
}

} // verus!
