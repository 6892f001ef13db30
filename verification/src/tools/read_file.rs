//! The file-reading tool's argument shape and description.
use vstd::prelude::*;

use crate::tools::{Param, ParamType};

verus! {

/// Arguments of the file-reading tool.
pub struct Args {
    pub path: String,
    pub max_bytes: usize,
}

/// The default byte budget for reading a file.
pub fn default_max_bytes() -> (r: usize)
    ensures
        r == 524288,
{
    512 * 1024
}

/// The name, description and parameters of the file-reading tool.
pub fn describe() -> (r: (&'static str, &'static str, Vec<Param>))
    ensures
        r.0@ == "read_file"@,
        r.2@.len() == 2,
{
    let mut params: Vec<Param> = Vec::new();
    params.push(
        Param {
            name: "path",
            desc: "Absolute or relative path to file",
            param_type: ParamType::String,
            required: true,
        },
    );
    params.push(
        Param {
            name: "max_bytes",
            desc: "Maximum number of bytes to read; default 524288",
            param_type: ParamType::Number,
            required: false,
        },
    );
    ("read_file", "Read a file's content with a byte limit", params)
}

} // verus!
