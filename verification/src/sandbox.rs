//! Workspace path sandbox: the path algebra that confines user-supplied paths
//! to the workspace root. Paths are modeled as their `/`-separated segments;
//! following symlinks on disk is the caller's part, and its result is checked
//! here again by the same prefix test.
use vstd::prelude::*;

use crate::chars::{chars_eq, count_leading, lemma_count_leading, subrange_vec, to_chars, to_string_vec};
use crate::patch::lines_view;

verus! {

/// The error message for a path that climbs out of the workspace.
pub open spec fn above_root_msg() -> Seq<char> {
    seq![
        'p',
        'a',
        't',
        'h',
        ' ',
        'a',
        't',
        't',
        'e',
        'm',
        'p',
        't',
        's',
        ' ',
        't',
        'o',
        ' ',
        'n',
        'a',
        'v',
        'i',
        'g',
        'a',
        't',
        'e',
        ' ',
        'a',
        'b',
        'o',
        'v',
        'e',
        ' ',
        't',
        'h',
        'e',
        ' ',
        'w',
        'o',
        'r',
        'k',
        's',
        'p',
        'a',
        'c',
        'e',
        ' ',
        'r',
        'o',
        'o',
        't',
    ]
}

/// A path split at every slash; empty pieces stand for repeated separators
/// and are dropped by the collapse.
pub open spec fn split_slash(s: Seq<char>) -> Seq<Seq<char>>
    decreases s.len() via split_slash_decreases
{
    let i = count_leading(s, |c: char| c != '/');
    if i == s.len() {
        seq![s]
    } else {
        seq![s.take(i)] + split_slash(s.skip(i + 1))
    }
}

#[via_fn]
proof fn split_slash_decreases(s: Seq<char>) {
    lemma_count_leading(s, |c: char| c != '/');
}

/// Split a path at every slash, computed.
pub fn split_path(s: &str) -> (r: Vec<String>)
    ensures
        lines_view(r@) == split_slash(s@),
{
    let v = to_chars(s);
    let total: usize = v.len();
    let mut r: Vec<String> = Vec::new();
    let mut pos: usize = 0;
    proof {
        assert(v@.skip(0) =~= v@);
        assert(lines_view(r@) + split_slash(v@.skip(0)) =~= split_slash(v@));
    }
    loop
        invariant_except_break
            pos <= total,
            total == v@.len(),
            split_slash(v@) == lines_view(r@) + split_slash(v@.skip(pos as int)),
        ensures
            lines_view(r@) == split_slash(v@),
        decreases total - pos,
    {
        let ghost rest = v@.skip(pos as int);
        let ghost rpre = lines_view(r@);
        let ghost p = |c: char| c != '/';
        let mut i: usize = pos;
        while i < total && v[i] != '/'
            invariant
                pos <= i <= total,
                total == v@.len(),
                p == (|c: char| c != '/'),
                forall|t: int| pos <= t < i ==> p(v@[t]),
            decreases total - i,
        {
            i = i + 1;
        }
        proof {
            lemma_count_leading(rest, p);
            let cl = count_leading(rest, p);
            assert(forall|t: int| 0 <= t < rest.len() ==> rest[t] == v@[pos + t]);
            if i - pos < cl {
                assert(p(rest[i - pos as int]));
                assert(false);
            }
            if cl < i - pos {
                assert(p(rest[cl]));
                assert(p(v@[pos + cl]));
                assert(false);
            }
        }
        let piece = to_string_vec(subrange_vec(v.as_slice(), pos, i).as_slice());
        proof {
            assert(piece@ =~= rest.take(i - pos as int));
        }
        if i == total {
            r.push(piece);
            proof {
                assert(count_leading(rest, p) == rest.len());
                assert(split_slash(rest) == seq![rest]);
                assert(rest.take(i - pos as int) =~= rest);
                assert(lines_view(r@) =~= rpre.push(rest));
                assert(lines_view(r@) =~= split_slash(v@));
            }
            break ;
        }
        r.push(piece);
        proof {
            assert(count_leading(rest, p) == i - pos);
            assert(split_slash(rest) == seq![rest.take(i - pos as int)] + split_slash(
                rest.skip(i - pos + 1),
            ));
            assert(rest.skip(i - pos + 1) =~= v@.skip(i + 1));
            assert(lines_view(r@) =~= rpre.push(rest.take(i - pos as int)));
            assert(lines_view(r@) + split_slash(v@.skip(i + 1)) =~= rpre + split_slash(rest));
        }
        pos = i + 1;
    }
    r
}

/// Is the path absolute: does it start with a slash?
pub fn is_absolute_path(s: &str) -> (r: bool)
    ensures
        r == (s@.len() > 0 && s@[0] == '/'),
{
    let v = to_chars(s);
    v.len() > 0 && v[0] == '/'
}

/// The collapse of relative path segments onto a stack: empty pieces and `.`
/// are dropped, `..` pops one segment, and popping past the root is a
/// permission error.
pub open spec fn collapse_spec(segs: Seq<Seq<char>>, acc: Seq<Seq<char>>) -> Option<Seq<Seq<char>>>
    decreases segs.len(),
{
    if segs.len() == 0 {
        Some(acc)
    } else {
        let s = segs[0];
        if s.len() == 0 || s == seq!['.'] {
            collapse_spec(segs.drop_first(), acc)
        } else if s == seq!['.', '.'] {
            if acc.len() == 0 {
                None
            } else {
                collapse_spec(segs.drop_first(), acc.drop_last())
            }
        } else {
            collapse_spec(segs.drop_first(), acc.push(s))
        }
    }
}

/// Collapse a relative path into workspace-relative segments; a path that
/// climbs above the root is a permission error.
pub fn collapse_relative(path: &str) -> (r: Result<Vec<String>, String>)
    ensures
        match r {
            Ok(segs) => collapse_spec(split_slash(path@), Seq::empty()) == Some(
                lines_view(segs@),
            ),
            Err(e) => collapse_spec(split_slash(path@), Seq::empty()) is None && e@
                == above_root_msg(),
        },
{
    let segs = split_path(path);
    let dot = to_chars(".");
    let dotdot = to_chars("..");
    proof {
        reveal_strlit(".");
        reveal_strlit("..");
        assert(dot@ =~= seq!['.']);
        assert(dotdot@ =~= seq!['.', '.']);
    }
    let mut acc: Vec<String> = Vec::new();
    let mut i: usize = 0;
    proof {
        assert(lines_view(segs@).skip(0) =~= lines_view(segs@));
        assert(lines_view(acc@) =~= Seq::<Seq<char>>::empty());
    }
    while i < segs.len()
        invariant
            i <= segs@.len(),
            dot@ == seq!['.'],
            dotdot@ == seq!['.', '.'],
            lines_view(segs@) == split_slash(path@),
            collapse_spec(split_slash(path@), Seq::empty()) == collapse_spec(
                lines_view(segs@).skip(i as int),
                lines_view(acc@),
            ),
        decreases segs@.len() - i,
    {
        let ghost sv = lines_view(segs@);
        let ghost rest = sv.skip(i as int);
        proof {
            assert(rest[0] == sv[i as int]);
            assert(sv[i as int] == segs@[i as int]@);
            assert(rest.drop_first() =~= sv.skip(i + 1));
        }
        let seg = to_chars(segs[i].as_str());
        if seg.len() == 0 || chars_eq(seg.as_slice(), dot.as_slice()) {
        } else if chars_eq(seg.as_slice(), dotdot.as_slice()) {
            if acc.len() == 0 {
                let msg = to_chars("path attempts to navigate above the workspace root");
                proof {
                    reveal_strlit("path attempts to navigate above the workspace root");
                    assert(msg@ =~= above_root_msg());
                }
                return Err(to_string_vec(msg.as_slice()));
            }
            let ghost pre = lines_view(acc@);
            let _ = acc.pop();
            proof {
                assert(lines_view(acc@) =~= pre.drop_last());
            }
        } else {
            let ghost pre = lines_view(acc@);
            acc.push(segs[i].clone());
            proof {
                assert(lines_view(acc@) =~= pre.push(segs@[i as int]@));
            }
        }
        i = i + 1;
    }
    proof {
        assert(lines_view(segs@).skip(segs@.len() as int) =~= Seq::<Seq<char>>::empty());
    }
    Ok(acc)
}

/// Segment-wise prefix: every segment of `root` stands at the front of
/// `actual`.
pub open spec fn seg_prefix(root: Seq<Seq<char>>, actual: Seq<Seq<char>>) -> bool {
    root.len() <= actual.len() && forall|j: int| 0 <= j < root.len() ==> actual[j] == root[j]
}

/// Does `actual` start with `root`, segment by segment?
pub fn path_starts_with(actual: &[String], root: &[String]) -> (r: bool)
    ensures
        r == seg_prefix(lines_view(root@), lines_view(actual@)),
{
    if root.len() > actual.len() {
        proof {
            assert(!seg_prefix(lines_view(root@), lines_view(actual@)));
        }
        return false;
    }
    let mut j: usize = 0;
    while j < root.len()
        invariant
            j <= root@.len() <= actual@.len(),
            forall|t: int|
                0 <= t < j ==> lines_view(actual@)[t] == #[trigger] lines_view(root@)[t],
        decreases root@.len() - j,
    {
        let a = to_chars(actual[j].as_str());
        let b = to_chars(root[j].as_str());
        if !chars_eq(a.as_slice(), b.as_slice()) {
            proof {
                assert(lines_view(actual@)[j as int] != lines_view(root@)[j as int]);
            }
            return false;
        }
        j = j + 1;
    }
    true
}

/// The segments of `actual` after its `root` prefix: the workspace-relative
/// remainder.
pub fn strip_seg_prefix(actual: &[String], root: &[String]) -> (r: Vec<String>)
    requires
        seg_prefix(lines_view(root@), lines_view(actual@)),
    ensures
        lines_view(r@) == lines_view(actual@).skip(root@.len() as int),
{
    let mut r: Vec<String> = Vec::new();
    let mut i: usize = root.len();
    while i < actual.len()
        invariant
            root@.len() <= i <= actual@.len(),
            r@.len() == i - root@.len(),
            forall|j: int| 0 <= j < r@.len() ==> (#[trigger] r@[j])@ == actual@[root@.len() + j]@,
        decreases actual@.len() - i,
    {
        r.push(actual[i].clone());
        i = i + 1;
    }
    proof {
        assert forall|j: int|
            0 <= j < r@.len() implies lines_view(r@)[j] == lines_view(actual@).skip(
            root@.len() as int,
        )[j] by {
            assert(lines_view(r@)[j] == r@[j]@);
            assert(lines_view(actual@)[root@.len() + j] == actual@[root@.len() + j]@);
        }
        assert(lines_view(r@) =~= lines_view(actual@).skip(root@.len() as int));
    }
    r
}

/// Law: when a resolved path passes the containment test, joining the
/// returned workspace-relative remainder back under the root reproduces
/// exactly the canonicalized path, which therefore starts with the root.
pub proof fn lemma_sandbox_containment(root: Seq<Seq<char>>, actual: Seq<Seq<char>>)
    requires
        seg_prefix(root, actual),
    ensures
        root + actual.skip(root.len() as int) == actual,
{
    assert(root + actual.skip(root.len() as int) =~= actual);
}

/// Law: a collapsed relative path never holds a `..` segment and never
/// reaches above the stack it started from: every segment of the result
/// beyond the original stack came from the input as a plain segment.
pub proof fn lemma_collapse_no_escape(segs: Seq<Seq<char>>, acc: Seq<Seq<char>>)
    requires
        collapse_spec(segs, acc) is Some,
        forall|j: int| 0 <= j < acc.len() ==> acc[j] != seq!['.', '.'],
    ensures
        forall|j: int|
            0 <= j < collapse_spec(segs, acc)->0.len() ==> collapse_spec(segs, acc)->0[j] != seq![
                '.',
                '.',
            ],
    decreases segs.len(),
{
    if segs.len() == 0 {
    } else {
        let s = segs[0];
        if s.len() == 0 || s == seq!['.'] {
            lemma_collapse_no_escape(segs.drop_first(), acc);
        } else if s == seq!['.', '.'] {
            assert(forall|j: int|
                0 <= j < acc.drop_last().len() ==> acc.drop_last()[j] == acc[j]);
            lemma_collapse_no_escape(segs.drop_first(), acc.drop_last());
        } else {
            assert(forall|j: int|
                0 <= j < acc.push(s).len() ==> acc.push(s)[j] != seq!['.', '.']);
            lemma_collapse_no_escape(segs.drop_first(), acc.push(s));
        }
    }
}

} // verus!
