//! The file-listing tool's argument shape and description.
use vstd::prelude::*;

use crate::tools::{Param, ParamType};

verus! {

/// Arguments of the file-listing tool.
pub struct Args {
    pub path: String,
    pub max_depth: usize,
}

/// The default listing root: the current directory.
pub fn default_dot() -> (r: String)
    ensures
        r@ == "."@,
{
    String::from_str(".")
}

/// The default recursion depth: only the given directory.
pub fn default_depth() -> (r: usize)
    ensures
        r == 0,
{
    0
}

/// Directories whose contents a listing skips: common build outputs.
pub fn is_excluded_dir(name: &str) -> (r: bool)
    ensures
        r == (name@ == "target"@ || name@ == "node_modules"@ || name@ == "dist"@ || name@
            == "build"@ || name@ == "lib"@ || name@ == "out"@),
{
    let v = crate::chars::to_chars(name);
    let t1 = crate::chars::to_chars("target");
    let t2 = crate::chars::to_chars("node_modules");
    let t3 = crate::chars::to_chars("dist");
    let t4 = crate::chars::to_chars("build");
    let t5 = crate::chars::to_chars("lib");
    let t6 = crate::chars::to_chars("out");
    crate::chars::chars_eq(v.as_slice(), t1.as_slice()) || crate::chars::chars_eq(
        v.as_slice(),
        t2.as_slice(),
    ) || crate::chars::chars_eq(v.as_slice(), t3.as_slice()) || crate::chars::chars_eq(
        v.as_slice(),
        t4.as_slice(),
    ) || crate::chars::chars_eq(v.as_slice(), t5.as_slice()) || crate::chars::chars_eq(
        v.as_slice(),
        t6.as_slice(),
    )
}

/// The name, description and parameters of the file-listing tool.
pub fn describe() -> (r: (&'static str, &'static str, Vec<Param>))
    ensures
        r.0@ == "list_files"@,
        r.2@.len() == 2,
{
    let mut params: Vec<Param> = Vec::new();
    params.push(
        Param {
            name: "path",
            desc: "Root path; defaults to current directory",
            param_type: ParamType::String,
            required: false,
        },
    );
    params.push(
        Param {
            name: "max_depth",
            desc: "Max recursion depth; default 0, just the given directory",
            param_type: ParamType::Number,
            required: false,
        },
    );
    ("list_files", "List files under a path recursively with optional depth", params)
}

} // verus!
