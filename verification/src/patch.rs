//! The patch tool's data model: add, update and delete operations, each hunk
//! a pair of old and new line blocks.
use vstd::prelude::*;

pub mod applying;
pub mod parsing;
pub mod preview;
pub mod text;

verus! {

/// One hunk of an update: the lines to find and the lines to put in their
/// place.
#[derive(Debug)]
pub struct Hunk {
    pub old_lines: Vec<String>,
    pub new_lines: Vec<String>,
}

/// Mathematical view of a hunk.
pub struct HunkV {
    pub old_lines: Seq<Seq<char>>,
    pub new_lines: Seq<Seq<char>>,
}

/// The views of a line vector, in order.
pub open spec fn lines_view(v: Seq<String>) -> Seq<Seq<char>> {
    v.map_values(|s: String| s@)
}

impl View for Hunk {
    type V = HunkV;

    open spec fn view(&self) -> HunkV {
        HunkV { old_lines: lines_view(self.old_lines@), new_lines: lines_view(self.new_lines@) }
    }
}

impl Default for Hunk {
    /// An empty hunk.
    fn default() -> (r: Hunk)
        ensures
            r@.old_lines == Seq::<Seq<char>>::empty(),
            r@.new_lines == Seq::<Seq<char>>::empty(),
    {
        let r = Hunk { old_lines: Vec::new(), new_lines: Vec::new() };
        proof {
            assert(r@.old_lines =~= Seq::<Seq<char>>::empty());
            assert(r@.new_lines =~= Seq::<Seq<char>>::empty());
        }
        r
    }
}

/// One operation of a parsed patch.
#[derive(Debug)]
pub enum PatchOp {
    Update { path: String, hunks: Vec<Hunk>, no_newline: bool },
    Add { path: String, content: String, no_newline: bool },
    Delete { path: String },
}

/// Mathematical view of an operation.
pub enum PatchOpV {
    Update { path: Seq<char>, hunks: Seq<HunkV>, no_newline: bool },
    Add { path: Seq<char>, content: Seq<char>, no_newline: bool },
    Delete { path: Seq<char> },
}

/// The views of a hunk vector, in order.
pub open spec fn hunks_view(v: Seq<Hunk>) -> Seq<HunkV> {
    v.map_values(|h: Hunk| h@)
}

impl View for PatchOp {
    type V = PatchOpV;

    open spec fn view(&self) -> PatchOpV {
        match self {
            PatchOp::Update { path, hunks, no_newline } => PatchOpV::Update {
                path: path@,
                hunks: hunks_view(hunks@),
                no_newline: *no_newline,
            },
            PatchOp::Add { path, content, no_newline } => PatchOpV::Add {
                path: path@,
                content: content@,
                no_newline: *no_newline,
            },
            PatchOp::Delete { path } => PatchOpV::Delete { path: path@ },
        }
    }
}

/// The views of an operation vector, in order.
pub open spec fn ops_view(v: Seq<PatchOp>) -> Seq<PatchOpV> {
    v.map_values(|o: PatchOp| o@)
}

} // verus!
