//! The command-running tool's argument shape and description.
use vstd::prelude::*;

use crate::tools::{Param, ParamType};

verus! {

/// Arguments of the command-running tool: the program and its arguments.
pub struct Args {
    pub argv: Vec<String>,
}

/// The name, description and parameters of the command-running tool.
pub fn describe() -> (r: (&'static str, &'static str, Vec<Param>))
    ensures
        r.0@ == "run_command"@,
        r.2@.len() == 1,
{
    let mut params: Vec<Param> = Vec::new();
    params.push(
        Param {
            name: "argv",
            desc: "Argument vector: [program, ...args]",
            param_type: ParamType::String,
            required: true,
        },
    );
    ("run_command", "Run a command by argv: first element is program, rest are args", params)
}

} // verus!
