//! Unified-diff-style preview of a proposed patch, shown to the user before
//! the edits are approved.
use vstd::prelude::*;

use crate::chars::{chars_eq, extend_chars, to_chars, to_string_vec};
use crate::patch::parsing::{has_patch_markers, contains_patch_markers, lines_spec, parse_patch_spec, parse_patch_ops};
use crate::patch::text::charlines_view;
use crate::patch::{ops_view, Hunk, HunkV, PatchOp, PatchOpV};

verus! {

/// Lines each under a sign character, newline-terminated.
pub open spec fn sign_lines(ls: Seq<Seq<char>>, sign: char) -> Seq<char>
    decreases ls.len(),
{
    if ls.len() == 0 {
        Seq::empty()
    } else {
        seq![sign] + ls[0] + seq!['\n'] + sign_lines(ls.drop_first(), sign)
    }
}

/// The paired parts of a hunk: equal lines as context, differing lines as a
/// removal and an addition.
pub open spec fn hunk_pairs(old: Seq<Seq<char>>, new: Seq<Seq<char>>, k: int) -> Seq<char>
    decreases old.len() - k when k >= 0
{
    let n = if old.len() <= new.len() {
        old.len() as int
    } else {
        new.len() as int
    };
    if k >= n {
        Seq::empty()
    } else {
        (if old[k] == new[k] {
            seq![' '] + old[k] + seq!['\n']
        } else {
            seq!['-'] + old[k] + seq!['\n'] + seq!['+'] + new[k] + seq!['\n']
        }) + hunk_pairs(old, new, k + 1)
    }
}

/// The preview of one hunk: a boundary, the paired parts, the leftover
/// removals, the leftover additions, a blank line.
pub open spec fn hunk_preview(h: HunkV) -> Seq<char> {
    let n = if h.old_lines.len() <= h.new_lines.len() {
        h.old_lines.len() as int
    } else {
        h.new_lines.len() as int
    };
    seq!['@', '@', '\n'] + hunk_pairs(h.old_lines, h.new_lines, 0) + sign_lines(
        h.old_lines.skip(n),
        '-',
    ) + sign_lines(h.new_lines.skip(n), '+') + seq!['\n']
}

/// The previews of all hunks, in order.
pub open spec fn hunks_preview(hs: Seq<HunkV>) -> Seq<char>
    decreases hs.len(),
{
    if hs.len() == 0 {
        Seq::empty()
    } else {
        hunk_preview(hs[0]) + hunks_preview(hs.drop_first())
    }
}

/// The diff header `--- `.
pub open spec fn minus_header() -> Seq<char> {
    seq!['-', '-', '-', ' ']
}

/// The diff header `+++ `.
pub open spec fn plus_header() -> Seq<char> {
    seq!['+', '+', '+', ' ']
}

/// The absent-file name `/dev/null` with a newline.
pub open spec fn dev_null_nl() -> Seq<char> {
    seq!['/', 'd', 'e', 'v', '/', 'n', 'u', 'l', 'l', '\n']
}

/// The preview of one operation.
pub open spec fn op_preview(op: PatchOpV) -> Seq<char> {
    match op {
        PatchOpV::Add { path, content, .. } => minus_header() + dev_null_nl() + plus_header()
            + path + seq!['\n'] + seq!['@', '@', '\n'] + sign_lines(lines_spec(content), '+')
            + seq!['\n'],
        PatchOpV::Delete { path } => minus_header() + path + seq!['\n'] + plus_header()
            + dev_null_nl() + seq!['@', '@', '\n', '\n'],
        PatchOpV::Update { path, hunks, .. } => minus_header() + path + seq!['\n'] + plus_header()
            + path + seq!['\n'] + hunks_preview(hunks),
    }
}

/// The previews of all operations, in order.
pub open spec fn ops_preview(ops: Seq<PatchOpV>) -> Seq<char>
    decreases ops.len(),
{
    if ops.len() == 0 {
        Seq::empty()
    } else {
        op_preview(ops[0]) + ops_preview(ops.drop_first())
    }
}

/// What the preview of a proposed patch shows: without markers the raw text
/// itself (overwrite mode); with markers the operation previews, or nothing
/// when the patch does not parse.
pub open spec fn summarize_spec(raw: Seq<char>) -> Option<Seq<char>> {
    if !has_patch_markers(raw) {
        Some(raw)
    } else {
        match parse_patch_spec(raw) {
            Ok(ops) => Some(ops_preview(ops)),
            Err(_) => None,
        }
    }
}

/// Push lines under a sign character.
fn push_sign_lines(out: &mut Vec<char>, ls: &[String], sign: char)
    ensures
        final(out)@ == old(out)@ + sign_lines(crate::patch::lines_view(ls@), sign),
{
    let mut i: usize = 0;
    proof {
        assert(crate::patch::lines_view(ls@).skip(0) =~= crate::patch::lines_view(ls@));
    }
    while i < ls.len()
        invariant
            i <= ls@.len(),
            out@ + sign_lines(crate::patch::lines_view(ls@).skip(i as int), sign) == old(out)@
                + sign_lines(crate::patch::lines_view(ls@), sign),
        decreases ls@.len() - i,
    {
        let ghost lv = crate::patch::lines_view(ls@);
        let ghost rest = lv.skip(i as int);
        out.push(sign);
        let cs = to_chars(ls[i].as_str());
        extend_chars(out, cs.as_slice());
        out.push('\n');
        proof {
            assert(rest[0] == lv[i as int]);
            assert(lv[i as int] == ls@[i as int]@);
            assert(rest.drop_first() =~= lv.skip(i + 1));
            assert(sign_lines(rest, sign) == seq![sign] + rest[0] + seq!['\n'] + sign_lines(
                lv.skip(i + 1),
                sign,
            ));
            assert(out@ + sign_lines(lv.skip(i + 1), sign) =~= old(out)@ + sign_lines(lv, sign));
        }
        i = i + 1;
    }
    proof {
        let lv = crate::patch::lines_view(ls@);
        assert(lv.skip(lv.len() as int) =~= Seq::<Seq<char>>::empty());
        assert(sign_lines(Seq::<Seq<char>>::empty(), '-') =~= Seq::<char>::empty());
        assert(sign_lines(Seq::<Seq<char>>::empty(), '+') =~= Seq::<char>::empty());
        assert(sign_lines(Seq::<Seq<char>>::empty(), sign) =~= Seq::<char>::empty());
        assert(out@ =~= old(out)@ + sign_lines(lv, sign));
    }
}

/// Push the preview of one hunk.
fn push_hunk_preview(out: &mut Vec<char>, h: &Hunk)
    ensures
        final(out)@ == old(out)@ + hunk_preview(h@),
{
    let header = to_chars("@@\n");
    proof {
        reveal_strlit("@@\n");
        assert(header@ =~= seq!['@', '@', '\n']);
    }
    extend_chars(out, header.as_slice());
    let n: usize = if h.old_lines.len() <= h.new_lines.len() {
        h.old_lines.len()
    } else {
        h.new_lines.len()
    };
    let mut k: usize = 0;
    let ghost base = out@;
    proof {
        assert(out@ =~= base + hunk_pairs(h@.old_lines, h@.new_lines, 0).take(0));
    }
    while k < n
        invariant
            k <= n,
            n == if h@.old_lines.len() <= h@.new_lines.len() {
                h@.old_lines.len() as int
            } else {
                h@.new_lines.len() as int
            },
            out@ + hunk_pairs(h@.old_lines, h@.new_lines, k as int) == base + hunk_pairs(
                h@.old_lines,
                h@.new_lines,
                0,
            ),
        decreases n - k,
    {
        let ghost pre = out@;
        let oldl = to_chars(h.old_lines[k].as_str());
        let newl = to_chars(h.new_lines[k].as_str());
        proof {
            assert(h@.old_lines[k as int] == h.old_lines@[k as int]@);
            assert(h@.new_lines[k as int] == h.new_lines@[k as int]@);
        }
        if chars_eq(oldl.as_slice(), newl.as_slice()) {
            out.push(' ');
            extend_chars(out, oldl.as_slice());
            out.push('\n');
            proof {
                assert(out@ =~= pre + (seq![' '] + h@.old_lines[k as int] + seq!['\n']));
            }
        } else {
            out.push('-');
            extend_chars(out, oldl.as_slice());
            out.push('\n');
            out.push('+');
            extend_chars(out, newl.as_slice());
            out.push('\n');
            proof {
                assert(out@ =~= pre + (seq!['-'] + h@.old_lines[k as int] + seq!['\n'] + seq!['+']
                    + h@.new_lines[k as int] + seq!['\n']));
            }
        }
        proof {
            assert(hunk_pairs(h@.old_lines, h@.new_lines, k as int) == (if h@.old_lines[k as int]
                == h@.new_lines[k as int] {
                seq![' '] + h@.old_lines[k as int] + seq!['\n']
            } else {
                seq!['-'] + h@.old_lines[k as int] + seq!['\n'] + seq!['+'] + h@.new_lines[k as int]
                    + seq!['\n']
            }) + hunk_pairs(h@.old_lines, h@.new_lines, k + 1));
            assert(out@ + hunk_pairs(h@.old_lines, h@.new_lines, k + 1) =~= base + hunk_pairs(
                h@.old_lines,
                h@.new_lines,
                0,
            ));
        }
        k = k + 1;
    }
    proof {
        assert(hunk_pairs(h@.old_lines, h@.new_lines, n as int) =~= Seq::<char>::empty());
        assert(out@ =~= base + hunk_pairs(h@.old_lines, h@.new_lines, 0));
    }
    let extra_old: Vec<String> = tail_lines(h.old_lines.as_slice(), n);
    let extra_new: Vec<String> = tail_lines(h.new_lines.as_slice(), n);
    proof {
        assert(crate::patch::lines_view(extra_old@) == h@.old_lines.skip(n as int));
        assert(crate::patch::lines_view(extra_new@) == h@.new_lines.skip(n as int));
    }
    push_sign_lines(out, extra_old.as_slice(), '-');
    push_sign_lines(out, extra_new.as_slice(), '+');
    out.push('\n');
    proof {
        assert(out@ =~= old(out)@ + hunk_preview(h@));
    }
}

/// The lines from position `n` on.
fn tail_lines(ls: &[String], n: usize) -> (r: Vec<String>)
    requires
        n <= ls@.len(),
    ensures
        crate::patch::lines_view(r@) == crate::patch::lines_view(ls@).skip(n as int),
{
    let mut r: Vec<String> = Vec::new();
    let mut i: usize = n;
    while i < ls.len()
        invariant
            n <= i <= ls@.len(),
            r@.len() == i - n,
            forall|j: int| 0 <= j < i - n ==> (#[trigger] r@[j])@ == ls@[n + j]@,
        decreases ls@.len() - i,
    {
        r.push(ls[i].clone());
        i = i + 1;
    }
    proof {
        assert forall|j: int|
            0 <= j < r@.len() implies crate::patch::lines_view(r@)[j] == crate::patch::lines_view(
            ls@,
        ).skip(n as int)[j] by {
            assert(crate::patch::lines_view(r@)[j] == r@[j]@);
            assert(crate::patch::lines_view(ls@)[n + j] == ls@[n + j]@);
        }
        assert(crate::patch::lines_view(r@) =~= crate::patch::lines_view(ls@).skip(n as int));
    }
    r
}

/// Produce a diff-like preview for a proposed patch, as `summarize_spec`
/// describes: the raw content in overwrite mode, per-operation diffs in patch
/// mode, nothing when the patch does not parse.
pub fn summarize_patch_for_preview(raw: &str) -> (r: Option<String>)
    ensures
        match r {
            Some(p) => summarize_spec(raw@) == Some(p@),
            None => summarize_spec(raw@) is None,
        },
{
    if !contains_patch_markers(raw) {
        let v = to_chars(raw);
        return Some(to_string_vec(v.as_slice()));
    }
    let ops = match parse_patch_ops(raw) {
        Ok(ops) => ops,
        Err(_) => {
            return None;
        },
    };
    let mut out: Vec<char> = Vec::new();
    let mut i: usize = 0;
    proof {
        assert(ops_view(ops@).skip(0) =~= ops_view(ops@));
        assert(out@ + ops_preview(ops_view(ops@).skip(0)) =~= ops_preview(ops_view(ops@)));
    }
    while i < ops.len()
        invariant
            i <= ops@.len(),
            out@ + ops_preview(ops_view(ops@).skip(i as int)) == ops_preview(ops_view(ops@)),
        decreases ops@.len() - i,
    {
        let ghost ov = ops_view(ops@);
        let ghost rest = ov.skip(i as int);
        let ghost pre = out@;
        proof {
            assert(rest[0] == ov[i as int]);
            assert(ov[i as int] == ops@[i as int]@);
            assert(rest.drop_first() =~= ov.skip(i + 1));
        }
        match &ops[i] {
            PatchOp::Add { path, content, .. } => {
                let head = to_chars("--- /dev/null\n+++ ");
                proof {
                    reveal_strlit("--- /dev/null\n+++ ");
                    assert(head@ =~= minus_header() + dev_null_nl() + plus_header());
                }
                extend_chars(&mut out, head.as_slice());
                let p = to_chars(path.as_str());
                extend_chars(&mut out, p.as_slice());
                let mid = to_chars("\n@@\n");
                proof {
                    reveal_strlit("\n@@\n");
                    assert(mid@ =~= seq!['\n'] + seq!['@', '@', '\n']);
                }
                extend_chars(&mut out, mid.as_slice());
                let cv = to_chars(content.as_str());
                let content_lines = crate::patch::parsing::lines_exec(cv.as_slice());
                push_sign_lines(&mut out, content_lines.as_slice(), '+');
                out.push('\n');
                proof {
                    assert(out@ =~= pre + op_preview(ov[i as int]));
                }
            },
            PatchOp::Delete { path } => {
                let head = to_chars("--- ");
                proof {
                    reveal_strlit("--- ");
                    assert(head@ =~= minus_header());
                }
                extend_chars(&mut out, head.as_slice());
                let p = to_chars(path.as_str());
                extend_chars(&mut out, p.as_slice());
                let tail = to_chars("\n+++ /dev/null\n@@\n\n");
                proof {
                    reveal_strlit("\n+++ /dev/null\n@@\n\n");
                    assert(tail@ =~= seq!['\n'] + plus_header() + dev_null_nl() + seq![
                        '@',
                        '@',
                        '\n',
                        '\n',
                    ]);
                }
                extend_chars(&mut out, tail.as_slice());
                proof {
                    assert(out@ =~= pre + op_preview(ov[i as int]));
                }
            },
            PatchOp::Update { path, hunks, .. } => {
                let head = to_chars("--- ");
                proof {
                    reveal_strlit("--- ");
                    assert(head@ =~= minus_header());
                }
                extend_chars(&mut out, head.as_slice());
                let p = to_chars(path.as_str());
                extend_chars(&mut out, p.as_slice());
                let mid = to_chars("\n+++ ");
                proof {
                    reveal_strlit("\n+++ ");
                    assert(mid@ =~= seq!['\n'] + plus_header());
                }
                extend_chars(&mut out, mid.as_slice());
                extend_chars(&mut out, p.as_slice());
                out.push('\n');
                let ghost base = out@;
                let mut k: usize = 0;
                proof {
                    assert(crate::patch::hunks_view(hunks@).skip(0) =~= crate::patch::hunks_view(
                        hunks@,
                    ));
                    assert(out@ + hunks_preview(crate::patch::hunks_view(hunks@).skip(0))
                        =~= base + hunks_preview(crate::patch::hunks_view(hunks@)));
                }
                while k < hunks.len()
                    invariant
                        k <= hunks@.len(),
                        out@ + hunks_preview(crate::patch::hunks_view(hunks@).skip(k as int))
                            == base + hunks_preview(crate::patch::hunks_view(hunks@)),
                    decreases hunks@.len() - k,
                {
                    let ghost hv = crate::patch::hunks_view(hunks@);
                    let ghost hrest = hv.skip(k as int);
                    proof {
                        assert(hrest[0] == hv[k as int]);
                        assert(hv[k as int] == hunks@[k as int]@);
                        assert(hrest.drop_first() =~= hv.skip(k + 1));
                    }
                    push_hunk_preview(&mut out, &hunks[k]);
                    k = k + 1;
                }
                proof {
                    let hv = crate::patch::hunks_view(hunks@);
                    assert(hv.skip(hv.len() as int) =~= Seq::<HunkV>::empty());
                    assert(hunks_preview(Seq::<HunkV>::empty()) =~= Seq::<char>::empty());
                    assert(out@ =~= pre + op_preview(ov[i as int]));
                }
            },
        }
        proof {
            assert(ops_preview(ops_view(ops@).skip(i as int)) == op_preview(
                ops_view(ops@)[i as int],
            ) + ops_preview(ops_view(ops@).skip(i + 1)));
            assert(out@ + ops_preview(ops_view(ops@).skip(i + 1)) =~= ops_preview(ops_view(ops@)));
        }
        i = i + 1;
    }
    proof {
        let ov = ops_view(ops@);
        assert(ov.skip(ov.len() as int) =~= Seq::<PatchOpV>::empty());
        assert(ops_preview(Seq::<PatchOpV>::empty()) =~= Seq::<char>::empty());
        assert(out@ =~= ops_preview(ov));
    }
    Some(to_string_vec(out.as_slice()))
}

} // verus!
