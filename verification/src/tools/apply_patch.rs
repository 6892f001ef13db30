//! The patch tool's argument shape and description.
use vstd::prelude::*;

use crate::tools::{Param, ParamType};

verus! {

/// Arguments of the patch tool: an optional overwrite target and the patch or
/// content text.
pub struct Args {
    pub path: Option<String>,
    pub patch: Option<String>,
}

/// The name, description and parameters of the patch tool.
pub fn describe() -> (r: (&'static str, &'static str, Vec<Param>))
    ensures
        r.0@ == "apply_patch"@,
        r.2@.len() == 2,
{
    let mut params: Vec<Param> = Vec::new();
    params.push(
        Param {
            name: "path",
            desc: "Target file path for simple overwrite (ignored for patch mode)",
            param_type: ParamType::String,
            required: false,
        },
    );
    params.push(
        Param {
            name: "patch",
            desc: "Either raw content (overwrite) or a marker-framed patch",
            param_type: ParamType::String,
            required: true,
        },
    );
    (
        "apply_patch",
        "Apply edits via marker-framed patch text or overwrite without markers; append a no-newline comment line to suppress the trailing newline",
        params,
    )
}

} // verus!
