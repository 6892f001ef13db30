//! Tolerant parser for the patch format: `*** Begin Patch` / `*** End Patch`
//! markers, per-file headers, fenced or bare bodies, prefix-classified hunk
//! lines, and `no newline` commentary.
use vstd::prelude::*;

use crate::chars::{
    contains_sub, count_leading, find_subseq, first_match, lemma_first_match, lower_seq,
    skip_ws, skip_ws_spec, starts_with, starts_with_spec, subrange_vec, to_chars, to_lower,
    to_string_vec, trim, trim_spec,
};
use crate::patch::text::{charlines_view, join_nl, split_nl, split_newlines, normalize_eol, normalize_eol_spec};
use crate::patch::{hunks_view, lines_view, Hunk, HunkV, PatchOp, PatchOpV};

verus! {

/// The marker prefix `***`.
pub open spec fn stars_seq() -> Seq<char> {
    seq!['*', '*', '*']
}

/// The word `begin`.
pub open spec fn begin_word() -> Seq<char> {
    seq!['b', 'e', 'g', 'i', 'n']
}

/// The word `end`.
pub open spec fn end_word() -> Seq<char> {
    seq!['e', 'n', 'd']
}

/// The word `patch`.
pub open spec fn patch_word() -> Seq<char> {
    seq!['p', 'a', 't', 'c', 'h']
}

/// A code fence.
pub open spec fn fence_seq() -> Seq<char> {
    seq!['`', '`', '`']
}

/// The hunk boundary `@@`.
pub open spec fn at_at_seq() -> Seq<char> {
    seq!['@', '@']
}

/// The header keyword `update file`.
pub open spec fn kw_update() -> Seq<char> {
    seq!['u', 'p', 'd', 'a', 't', 'e', ' ', 'f', 'i', 'l', 'e']
}

/// The header keyword `add file`.
pub open spec fn kw_add() -> Seq<char> {
    seq!['a', 'd', 'd', ' ', 'f', 'i', 'l', 'e']
}

/// The header keyword `delete file`.
pub open spec fn kw_delete() -> Seq<char> {
    seq!['d', 'e', 'l', 'e', 't', 'e', ' ', 'f', 'i', 'l', 'e']
}

/// A line is a begin or end marker: after trimming and lowercasing it starts
/// with `***` and contains `begin` (or `end`) and `patch`.
pub open spec fn is_marker_line(line: Seq<char>, want_end: bool) -> bool {
    let lower = lower_seq(trim_spec(line));
    &&& starts_with_spec(lower, stars_seq())
    &&& first_match(lower, if want_end {
        end_word()
    } else {
        begin_word()
    }) is Some
    &&& first_match(lower, patch_word()) is Some
}

/// The first marker line at or after `i`, if any.
pub open spec fn find_marker_from(lines: Seq<Seq<char>>, i: int, want_end: bool) -> Option<int>
    decreases lines.len() - i when 0 <= i
{
    if i >= lines.len() {
        None
    } else if is_marker_line(lines[i], want_end) {
        Some(i)
    } else {
        find_marker_from(lines, i + 1, want_end)
    }
}

/// Is this line a marker, computed.
fn is_marker_exec(line: &[char], want_end: bool) -> (r: bool)
    ensures
        r == is_marker_line(line@, want_end),
{
    let t = trim(line);
    let lower = to_lower(t.as_slice());
    let stars = to_chars("***");
    let begin = to_chars("begin");
    let endw = to_chars("end");
    let patch = to_chars("patch");
    proof {
        reveal_strlit("***");
        reveal_strlit("begin");
        reveal_strlit("end");
        reveal_strlit("patch");
        assert(stars@ =~= stars_seq());
        assert(begin@ =~= begin_word());
        assert(endw@ =~= end_word());
        assert(patch@ =~= patch_word());
    }
    let has_stars = starts_with(lower.as_slice(), stars.as_slice());
    let has_word = if want_end {
        contains_sub(lower.as_slice(), endw.as_slice())
    } else {
        contains_sub(lower.as_slice(), begin.as_slice())
    };
    let has_patch = contains_sub(lower.as_slice(), patch.as_slice());
    has_stars && has_word && has_patch
}

/// Find the first marker line at or after `i`, computed.
fn find_marker(lines: &Vec<Vec<char>>, i: usize, want_end: bool) -> (r: Option<usize>)
    requires
        i <= lines@.len(),
    ensures
        match r {
            Some(k) => find_marker_from(charlines_view(lines@), i as int, want_end) == Some(
                k as int,
            ) && i <= k < lines@.len(),
            None => find_marker_from(charlines_view(lines@), i as int, want_end) is None,
        },
    decreases lines@.len() - i,
{
    if i >= lines.len() {
        return None;
    }
    if is_marker_exec(lines[i].as_slice(), want_end) {
        proof {
            assert(charlines_view(lines@)[i as int] == lines@[i as int]@);
        }
        Some(i)
    } else {
        proof {
            assert(charlines_view(lines@)[i as int] == lines@[i as int]@);
        }
        find_marker(lines, i + 1, want_end)
    }
}

/// Characters that are not a space, kept.
pub open spec fn remove_spaces(s: Seq<char>) -> Seq<char> {
    s.filter(|c: char| c != ' ')
}

/// Remove every space, computed.
fn remove_spaces_exec(v: &[char]) -> (r: Vec<char>)
    ensures
        r@ == remove_spaces(v@),
{
    broadcast use vstd::seq_lib::group_filter_ensures;

    let mut r: Vec<char> = Vec::new();
    let mut i: usize = 0;
    proof {
        reveal(Seq::filter);
        assert(r@ =~= v@.take(0).filter(|c: char| c != ' '));
    }
    while i < v.len()
        invariant
            i <= v@.len(),
            r@ == v@.take(i as int).filter(|c: char| c != ' '),
        decreases v@.len() - i,
    {
        let ghost pre = r@;
        if v[i] != ' ' {
            r.push(v[i]);
        }
        proof {
            reveal(Seq::filter);
            let p = |c: char| c != ' ';
            let t = v@.take(i as int).push(v@[i as int]);
            assert(v@.take(i + 1) =~= t);
            assert(t.drop_last() =~= v@.take(i as int));
            assert(t.last() == v@[i as int]);
            assert(t.filter(p) == if p(t.last()) {
                t.drop_last().filter(p).push(t.last())
            } else {
                t.drop_last().filter(p)
            });
            assert(r@ =~= v@.take(i + 1).filter(p));
        }
        i = i + 1;
    }
    proof {
        assert(v@.take(v@.len() as int) =~= v@);
    }
    r
}

/// The quote-stripped text: leading and trailing double quotes removed.
pub open spec fn strip_quotes(s: Seq<char>) -> Seq<char> {
    let a = count_leading(s, |c: char| c == '"');
    if a == s.len() {
        Seq::empty()
    } else {
        s.subrange(a, s.len() - count_leading(s.reverse(), |c: char| c == '"'))
    }
}

/// Strip leading and trailing double quotes, computed.
fn strip_quotes_exec(v: &[char]) -> (r: Vec<char>)
    ensures
        r@ == strip_quotes(v@),
{
    let a = crate::chars::leading_char_len(v, '"');
    if a == v.len() {
        proof {
            assert(strip_quotes(v@) =~= Seq::<char>::empty());
        }
        return Vec::new();
    }
    let b = crate::chars::trailing_char_len(v, '"');
    proof {
        crate::chars::lemma_count_leading(v@, |c: char| c == '"');
        crate::chars::lemma_count_trailing(v@, |c: char| c == '"');
        crate::chars::lemma_count_leading(v@.reverse(), |c: char| c == '"');
        let p = |c: char| c == '"';
        let cl = count_leading(v@.reverse(), p);
        let ct = crate::chars::count_trailing(v@, p);
        assert(forall|t: int| 0 <= t < v@.len() ==> v@.reverse()[t] == v@[v@.len() - 1 - t]);
        if cl < ct {
            assert(p(v@[v@.len() - cl - 1]));
            assert(!p(v@.reverse()[cl]));
            assert(false);
        }
        if ct < cl {
            assert(p(v@.reverse()[ct]));
            assert(!p(v@[v@.len() - ct - 1]));
            assert(false);
        }
        if v@.len() - b <= a {
            assert(p(v@[a as int]));
            assert(false);
        }
    }
    subrange_vec(v, a, v.len() - b)
}

/// The path of a header line matching the given keyword: stars stripped, the
/// keyword matched case-insensitively with optional spaces, the path after an
/// optional colon, quotes trimmed; an empty path is no header.
pub open spec fn parse_header_path_spec(line: Seq<char>, kw: Seq<char>) -> Option<Seq<char>> {
    let l = trim_spec(line.skip(count_leading(line, |c: char| c == '*')));
    let lower = lower_seq(l);
    if !(starts_with_spec(lower, kw) || starts_with_spec(remove_spaces(lower), remove_spaces(kw))) {
        None
    } else {
        let after = match first_match(l, seq![':']) {
            Some(pos) => l.skip(pos + 1),
            None => if kw.len() <= l.len() {
                l.skip(kw.len() as int)
            } else {
                Seq::empty()
            },
        };
        let path = strip_quotes(trim_spec(after));
        if path.len() == 0 {
            None
        } else {
            Some(path)
        }
    }
}

/// Parse a header line against a keyword, computed. The input is the already
/// trimmed line.
fn parse_header_path(line: &[char], kw: &[char]) -> (r: Option<String>)
    ensures
        match r {
            Some(p) => parse_header_path_spec(line@, kw@) == Some(p@),
            None => parse_header_path_spec(line@, kw@) is None,
        },
{
    let a = crate::chars::leading_char_len(line, '*');
    let l = trim(subrange_vec(line, a, line.len()).as_slice());
    proof {
        assert(line@.subrange(a as int, line@.len() as int) =~= line@.skip(
            count_leading(line@, |c: char| c == '*'),
        ));
    }
    let lower = to_lower(l.as_slice());
    let lower_nospace = remove_spaces_exec(lower.as_slice());
    let kw_nospace = remove_spaces_exec(kw);
    let matched = starts_with(lower.as_slice(), kw) || starts_with(
        lower_nospace.as_slice(),
        kw_nospace.as_slice(),
    );
    if !matched {
        return None;
    }
    let colon = to_chars(":");
    proof {
        reveal_strlit(":");
        assert(colon@ =~= seq![':']);
    }
    let ln: usize = l.len();
    let after: Vec<char> = match find_subseq(l.as_slice(), colon.as_slice()) {
        Some(pos) => {
            proof {
                lemma_first_match(l@, seq![':']);
            }
            subrange_vec(l.as_slice(), pos + 1, ln)
        },
        None => {
            if kw.len() > l.len() {
                Vec::new()
            } else {
                subrange_vec(l.as_slice(), kw.len(), l.len())
            }
        },
    };
    proof {
        assert(after@ =~= (match first_match(l@, seq![':']) {
            Some(pos) => l@.skip(pos + 1),
            None => if kw@.len() <= l@.len() {
                l@.skip(kw@.len() as int)
            } else {
                Seq::empty()
            },
        }));
    }
    let path = strip_quotes_exec(trim(after.as_slice()).as_slice());
    if path.len() == 0 {
        None
    } else {
        Some(to_string_vec(path.as_slice()))
    }
}

/// A tolerant `no newline at end of file` commentary line: optionally
/// backslash-prefixed, the words `no`, `new` and `line` appearing in order,
/// case-insensitively.
pub open spec fn nnl_comment(s: Seq<char>) -> bool {
    let t0 = trim_spec(s);
    let t = if starts_with_spec(t0, seq!['\\']) {
        trim_spec(t0.skip(1))
    } else {
        t0
    };
    let lower = lower_seq(t);
    match first_match(lower, seq!['n', 'o']) {
        None => false,
        Some(p1) => match first_match(lower.skip(p1 + 2), seq!['n', 'e', 'w']) {
            None => false,
            Some(p2) => first_match(
                lower.skip(p1 + 2).skip(p2 + 3),
                seq!['l', 'i', 'n', 'e'],
            ) is Some,
        },
    }
}

/// Detect a `no newline` commentary line, as `nnl_comment` describes.
pub fn is_no_newline_comment_line(s: &str) -> (r: bool)
    ensures
        r == nnl_comment(s@),
{
    let v = to_chars(s);
    let t0 = trim(v.as_slice());
    let backslash = to_chars("\\");
    proof {
        reveal_strlit("\\");
        assert(backslash@ =~= seq!['\\']);
    }
    let t: Vec<char> = if starts_with(t0.as_slice(), backslash.as_slice()) {
        trim(subrange_vec(t0.as_slice(), 1, t0.len()).as_slice())
    } else {
        subrange_vec(t0.as_slice(), 0, t0.len())
    };
    proof {
        if starts_with_spec(t0@, seq!['\\']) {
            assert(t0@.subrange(1, t0@.len() as int) =~= t0@.skip(1));
        } else {
            assert(t0@.subrange(0, t0@.len() as int) =~= t0@);
        }
    }
    let lower = to_lower(t.as_slice());
    let no_w = to_chars("no");
    let new_w = to_chars("new");
    let line_w = to_chars("line");
    proof {
        reveal_strlit("no");
        reveal_strlit("new");
        reveal_strlit("line");
        assert(no_w@ =~= seq!['n', 'o']);
        assert(new_w@ =~= seq!['n', 'e', 'w']);
        assert(line_w@ =~= seq!['l', 'i', 'n', 'e']);
    }
    match find_subseq(lower.as_slice(), no_w.as_slice()) {
        None => false,
        Some(p1) => {
            proof {
                lemma_first_match(lower@, seq!['n', 'o']);
            }
            let lowern: usize = lower.len();
            let rest1 = subrange_vec(lower.as_slice(), p1 + 2, lowern);
            proof {
                assert(rest1@ =~= lower@.skip(p1 + 2));
            }
            match find_subseq(rest1.as_slice(), new_w.as_slice()) {
                None => false,
                Some(p2) => {
                    proof {
                        lemma_first_match(rest1@, seq!['n', 'e', 'w']);
                    }
                    let rest1n: usize = rest1.len();
                    let rest2 = subrange_vec(rest1.as_slice(), p2 + 3, rest1n);
                    proof {
                        assert(rest2@ =~= rest1@.skip(p2 + 3));
                    }
                    match find_subseq(rest2.as_slice(), line_w.as_slice()) {
                        None => false,
                        Some(_) => true,
                    }
                },
            }
        },
    }
}

/// One step of the update-body scan: stars or a fence end the body, `@@`
/// closes the current hunk, and other lines are classified by their prefix.
pub open spec fn upd_scan(
    lines: Seq<Seq<char>>,
    i: int,
    end: int,
    cur_old: Seq<Seq<char>>,
    cur_new: Seq<Seq<char>>,
    have: bool,
    nn: bool,
    hunks: Seq<HunkV>,
) -> (Seq<HunkV>, bool, int)
    decreases end - i when i <= end
{
    let done = if have {
        hunks.push(HunkV { old_lines: cur_old, new_lines: cur_new })
    } else {
        hunks
    };
    if i >= end {
        (done, nn, i)
    } else {
        let raw = lines[i];
        let t = skip_ws_spec(raw);
        if starts_with_spec(t, stars_seq()) {
            (done, nn, i)
        } else if starts_with_spec(t, fence_seq()) {
            (done, nn, i + 1)
        } else if starts_with_spec(t, at_at_seq()) {
            if have {
                upd_scan(
                    lines,
                    i + 1,
                    end,
                    Seq::empty(),
                    Seq::empty(),
                    false,
                    nn,
                    hunks.push(HunkV { old_lines: cur_old, new_lines: cur_new }),
                )
            } else {
                upd_scan(lines, i + 1, end, cur_old, cur_new, have, nn, hunks)
            }
        } else if starts_with_spec(raw, seq!['+', ' ']) {
            upd_scan(lines, i + 1, end, cur_old, cur_new.push(raw.skip(2)), true, nn, hunks)
        } else if starts_with_spec(raw, seq!['-', ' ']) {
            upd_scan(lines, i + 1, end, cur_old.push(raw.skip(2)), cur_new, true, nn, hunks)
        } else if starts_with_spec(raw, seq!['+']) {
            upd_scan(lines, i + 1, end, cur_old, cur_new.push(raw.skip(1)), true, nn, hunks)
        } else if starts_with_spec(raw, seq!['-']) {
            upd_scan(lines, i + 1, end, cur_old.push(raw.skip(1)), cur_new, true, nn, hunks)
        } else if starts_with_spec(raw, seq![' ']) {
            upd_scan(
                lines,
                i + 1,
                end,
                cur_old.push(raw.skip(1)),
                cur_new.push(raw.skip(1)),
                true,
                nn,
                hunks,
            )
        } else if nnl_comment(raw) {
            upd_scan(lines, i + 1, end, cur_old, cur_new, have, true, hunks)
        } else {
            upd_scan(lines, i + 1, end, cur_old.push(raw), cur_new.push(raw), true, nn, hunks)
        }
    }
}

/// The whole update body: an optional opening fence, the scan, an optional
/// closing fence.
pub open spec fn upd_parse(lines: Seq<Seq<char>>, i0: int, end: int) -> (Seq<HunkV>, bool, int) {
    let i1 = if i0 < end && starts_with_spec(skip_ws_spec(lines[i0]), fence_seq()) {
        i0 + 1
    } else {
        i0
    };
    let scanned = upd_scan(lines, i1, end, Seq::empty(), Seq::empty(), false, false, Seq::empty());
    let i2 = scanned.2;
    let i3 = if i2 < end && starts_with_spec(skip_ws_spec(lines[i2]), fence_seq()) {
        i2 + 1
    } else {
        i2
    };
    (scanned.0, scanned.1, i3)
}

/// The update-body scan, computed.
fn upd_scan_exec(
    lines: &Vec<Vec<char>>,
    i: usize,
    end: usize,
    cur_old: Vec<String>,
    cur_new: Vec<String>,
    have: bool,
    nn: bool,
    hunks: Vec<Hunk>,
) -> (r: (Vec<Hunk>, bool, usize))
    requires
        i <= end <= lines@.len(),
    ensures
        ({
            let s = upd_scan(
                charlines_view(lines@),
                i as int,
                end as int,
                lines_view(cur_old@),
                lines_view(cur_new@),
                have,
                nn,
                hunks_view(hunks@),
            );
            hunks_view(r.0@) == s.0 && r.1 == s.1 && r.2 == s.2 && i <= r.2 <= end
        }),
    decreases end - i,
{
    let ghost lv = charlines_view(lines@);
    if i >= end {
        let mut hunks = hunks;
        if have {
            let ghost pre = hunks_view(hunks@);
            hunks.push(Hunk { old_lines: cur_old, new_lines: cur_new });
            proof {
                assert(hunks_view(hunks@) =~= pre.push(hunks@.last()@));
            }
        }
        return (hunks, nn, i);
    }
    proof {
        assert(lv[i as int] == lines@[i as int]@);
    }
    let raw = lines[i].as_slice();
    let t = skip_ws(raw);
    let stars = to_chars("***");
    let fence = to_chars("```");
    let atat = to_chars("@@");
    let plus_sp = to_chars("+ ");
    let minus_sp = to_chars("- ");
    let plus = to_chars("+");
    let minus = to_chars("-");
    let space = to_chars(" ");
    proof {
        reveal_strlit("***");
        reveal_strlit("```");
        reveal_strlit("@@");
        reveal_strlit("+ ");
        reveal_strlit("- ");
        reveal_strlit("+");
        reveal_strlit("-");
        reveal_strlit(" ");
        assert(stars@ =~= stars_seq());
        assert(fence@ =~= fence_seq());
        assert(atat@ =~= at_at_seq());
        assert(plus_sp@ =~= seq!['+', ' ']);
        assert(minus_sp@ =~= seq!['-', ' ']);
        assert(plus@ =~= seq!['+']);
        assert(minus@ =~= seq!['-']);
        assert(space@ =~= seq![' ']);
    }
    if starts_with(t.as_slice(), stars.as_slice()) {
        let mut hunks = hunks;
        if have {
            let ghost pre = hunks_view(hunks@);
            hunks.push(Hunk { old_lines: cur_old, new_lines: cur_new });
            proof {
                assert(hunks_view(hunks@) =~= pre.push(hunks@.last()@));
            }
        }
        return (hunks, nn, i);
    }
    if starts_with(t.as_slice(), fence.as_slice()) {
        let mut hunks = hunks;
        if have {
            let ghost pre = hunks_view(hunks@);
            hunks.push(Hunk { old_lines: cur_old, new_lines: cur_new });
            proof {
                assert(hunks_view(hunks@) =~= pre.push(hunks@.last()@));
            }
        }
        return (hunks, nn, i + 1);
    }
    if starts_with(t.as_slice(), atat.as_slice()) {
        if have {
            let mut hunks = hunks;
            let ghost pre = hunks_view(hunks@);
            hunks.push(Hunk { old_lines: cur_old, new_lines: cur_new });
            proof {
                assert(hunks_view(hunks@) =~= pre.push(hunks@.last()@));
            }
            proof {
                assert(lines_view(Seq::<String>::empty()) =~= Seq::<Seq<char>>::empty());
            }
            return upd_scan_exec(lines, i + 1, end, Vec::new(), Vec::new(), false, nn, hunks);
        }
        return upd_scan_exec(lines, i + 1, end, cur_old, cur_new, have, nn, hunks);
    }
    if starts_with(raw, plus_sp.as_slice()) {
        let mut cur_new = cur_new;
        let ghost pre = lines_view(cur_new@);
        cur_new.push(to_string_vec(subrange_vec(raw, 2, raw.len()).as_slice()));
        proof {
            assert(lines_view(cur_new@) =~= pre.push(lines@[i as int]@.skip(2)));
        }
        return upd_scan_exec(lines, i + 1, end, cur_old, cur_new, true, nn, hunks);
    }
    if starts_with(raw, minus_sp.as_slice()) {
        let mut cur_old = cur_old;
        let ghost pre = lines_view(cur_old@);
        cur_old.push(to_string_vec(subrange_vec(raw, 2, raw.len()).as_slice()));
        proof {
            assert(lines_view(cur_old@) =~= pre.push(lines@[i as int]@.skip(2)));
        }
        return upd_scan_exec(lines, i + 1, end, cur_old, cur_new, true, nn, hunks);
    }
    if starts_with(raw, plus.as_slice()) {
        let mut cur_new = cur_new;
        let ghost pre = lines_view(cur_new@);
        cur_new.push(to_string_vec(subrange_vec(raw, 1, raw.len()).as_slice()));
        proof {
            assert(lines_view(cur_new@) =~= pre.push(lines@[i as int]@.skip(1)));
        }
        return upd_scan_exec(lines, i + 1, end, cur_old, cur_new, true, nn, hunks);
    }
    if starts_with(raw, minus.as_slice()) {
        let mut cur_old = cur_old;
        let ghost pre = lines_view(cur_old@);
        cur_old.push(to_string_vec(subrange_vec(raw, 1, raw.len()).as_slice()));
        proof {
            assert(lines_view(cur_old@) =~= pre.push(lines@[i as int]@.skip(1)));
        }
        return upd_scan_exec(lines, i + 1, end, cur_old, cur_new, true, nn, hunks);
    }
    if starts_with(raw, space.as_slice()) {
        let mut cur_old = cur_old;
        let mut cur_new = cur_new;
        let ghost pre_o = lines_view(cur_old@);
        let ghost pre_n = lines_view(cur_new@);
        cur_old.push(to_string_vec(subrange_vec(raw, 1, raw.len()).as_slice()));
        cur_new.push(to_string_vec(subrange_vec(raw, 1, raw.len()).as_slice()));
        proof {
            assert(lines_view(cur_old@) =~= pre_o.push(lines@[i as int]@.skip(1)));
            assert(lines_view(cur_new@) =~= pre_n.push(lines@[i as int]@.skip(1)));
        }
        return upd_scan_exec(lines, i + 1, end, cur_old, cur_new, true, nn, hunks);
    }
    let raw_str = to_string_vec(raw);
    if is_no_newline_comment_line(raw_str.as_str()) {
        return upd_scan_exec(lines, i + 1, end, cur_old, cur_new, have, true, hunks);
    }
    let mut cur_old = cur_old;
    let mut cur_new = cur_new;
    let ghost pre_o = lines_view(cur_old@);
    let ghost pre_n = lines_view(cur_new@);
    cur_old.push(to_string_vec(raw));
    cur_new.push(to_string_vec(raw));
    proof {
        assert(lines_view(cur_old@) =~= pre_o.push(lines@[i as int]@));
        assert(lines_view(cur_new@) =~= pre_n.push(lines@[i as int]@));
    }
    upd_scan_exec(lines, i + 1, end, cur_old, cur_new, true, nn, hunks)
}

/// The whole update body, computed.
fn upd_parse_exec(lines: &Vec<Vec<char>>, i0: usize, end: usize) -> (r: (Vec<Hunk>, bool, usize))
    requires
        i0 <= end <= lines@.len(),
    ensures
        ({
            let s = upd_parse(charlines_view(lines@), i0 as int, end as int);
            hunks_view(r.0@) == s.0 && r.1 == s.1 && r.2 == s.2 && i0 <= r.2 <= end + 1
        }),
{
    let fence = to_chars("```");
    proof {
        reveal_strlit("```");
        assert(fence@ =~= fence_seq());
    }
    let mut i1 = i0;
    if i0 < end {
        let t = skip_ws(lines[i0].as_slice());
        proof {
            assert(charlines_view(lines@)[i0 as int] == lines@[i0 as int]@);
        }
        if starts_with(t.as_slice(), fence.as_slice()) {
            i1 = i0 + 1;
        }
    }
    let (hunks, nn, i2) = upd_scan_exec(lines, i1, end, Vec::new(), Vec::new(), false, false, Vec::new());
    proof {
        assert(lines_view(Seq::<String>::empty()) =~= Seq::<Seq<char>>::empty());
        assert(hunks_view(Seq::<Hunk>::empty()) =~= Seq::<HunkV>::empty());
    }
    let mut i3 = i2;
    if i2 < end {
        let t = skip_ws(lines[i2].as_slice());
        proof {
            assert(charlines_view(lines@)[i2 as int] == lines@[i2 as int]@);
        }
        if starts_with(t.as_slice(), fence.as_slice()) {
            i3 = i2 + 1;
        }
    }
    (hunks, nn, i3)
}

/// Collect the lines of a fenced add body: everything until a closing fence.
pub open spec fn add_scan_fenced(lines: Seq<Seq<char>>, i: int, end: int, acc: Seq<Seq<char>>) -> (
    Seq<Seq<char>>,
    int,
)
    decreases end - i when i <= end
{
    if i >= end {
        (acc, i)
    } else if starts_with_spec(skip_ws_spec(lines[i]), fence_seq()) {
        (acc, i + 1)
    } else {
        add_scan_fenced(lines, i + 1, end, acc.push(lines[i]))
    }
}

/// Collect the lines of a bare add body: everything until the next marker.
pub open spec fn add_scan_plain(lines: Seq<Seq<char>>, i: int, end: int, acc: Seq<Seq<char>>) -> (
    Seq<Seq<char>>,
    int,
)
    decreases end - i when i <= end
{
    if i >= end {
        (acc, i)
    } else if starts_with_spec(skip_ws_spec(lines[i]), stars_seq()) {
        (acc, i)
    } else {
        add_scan_plain(lines, i + 1, end, acc.push(lines[i]))
    }
}

/// Trailing cleanup of an add body: empty lines are dropped, then one
/// `no newline` commentary line flips the flag.
pub open spec fn add_trim(out: Seq<Seq<char>>) -> (Seq<Seq<char>>, bool)
    decreases out.len(),
{
    if out.len() == 0 {
        (out, false)
    } else if trim_spec(out.last()).len() == 0 {
        add_trim(out.drop_last())
    } else if nnl_comment(trim_spec(out.last())) {
        (out.drop_last(), true)
    } else {
        (out, false)
    }
}

/// The whole add body: fenced or bare collection, trailing cleanup, lines
/// joined.
pub open spec fn add_parse(lines: Seq<Seq<char>>, i0: int, end: int) -> (Seq<char>, bool, int) {
    let fenced = i0 < end && starts_with_spec(skip_ws_spec(lines[i0]), fence_seq());
    let collected = if fenced {
        add_scan_fenced(lines, i0 + 1, end, Seq::empty())
    } else {
        add_scan_plain(lines, i0, end, Seq::empty())
    };
    let trimmed = add_trim(collected.0);
    (join_nl(trimmed.0), trimmed.1, collected.1)
}

/// Collect a fenced add body, computed.
fn add_scan_fenced_exec(lines: &Vec<Vec<char>>, i: usize, end: usize, acc: Vec<String>) -> (r: (
    Vec<String>,
    usize,
))
    requires
        i <= end <= lines@.len(),
    ensures
        ({
            let s = add_scan_fenced(charlines_view(lines@), i as int, end as int, lines_view(acc@));
            lines_view(r.0@) == s.0 && r.1 == s.1 && i <= r.1 <= end
        }),
    decreases end - i,
{
    if i >= end {
        return (acc, i);
    }
    proof {
        assert(charlines_view(lines@)[i as int] == lines@[i as int]@);
    }
    let fence = to_chars("```");
    proof {
        reveal_strlit("```");
        assert(fence@ =~= fence_seq());
    }
    let t = skip_ws(lines[i].as_slice());
    if starts_with(t.as_slice(), fence.as_slice()) {
        return (acc, i + 1);
    }
    let mut acc = acc;
    let ghost pre = lines_view(acc@);
    acc.push(to_string_vec(lines[i].as_slice()));
    proof {
        assert(lines_view(acc@) =~= pre.push(lines@[i as int]@));
    }
    add_scan_fenced_exec(lines, i + 1, end, acc)
}

/// Collect a bare add body, computed.
fn add_scan_plain_exec(lines: &Vec<Vec<char>>, i: usize, end: usize, acc: Vec<String>) -> (r: (
    Vec<String>,
    usize,
))
    requires
        i <= end <= lines@.len(),
    ensures
        ({
            let s = add_scan_plain(charlines_view(lines@), i as int, end as int, lines_view(acc@));
            lines_view(r.0@) == s.0 && r.1 == s.1 && i <= r.1 <= end
        }),
    decreases end - i,
{
    if i >= end {
        return (acc, i);
    }
    proof {
        assert(charlines_view(lines@)[i as int] == lines@[i as int]@);
    }
    let stars = to_chars("***");
    proof {
        reveal_strlit("***");
        assert(stars@ =~= stars_seq());
    }
    let t = skip_ws(lines[i].as_slice());
    if starts_with(t.as_slice(), stars.as_slice()) {
        return (acc, i);
    }
    let mut acc = acc;
    let ghost pre = lines_view(acc@);
    acc.push(to_string_vec(lines[i].as_slice()));
    proof {
        assert(lines_view(acc@) =~= pre.push(lines@[i as int]@));
    }
    add_scan_plain_exec(lines, i + 1, end, acc)
}

/// Trailing cleanup of an add body, computed.
fn add_trim_exec(out: Vec<String>) -> (r: (Vec<String>, bool))
    ensures
        ({
            let s = add_trim(lines_view(out@));
            lines_view(r.0@) == s.0 && r.1 == s.1
        }),
    decreases out@.len(),
{
    if out.len() == 0 {
        return (out, false);
    }
    let lastv = to_chars(out[out.len() - 1].as_str());
    let t = trim(lastv.as_slice());
    proof {
        assert(lines_view(out@).last() == out@.last()@);
    }
    if t.len() == 0 {
        let mut out = out;
        let ghost pre = lines_view(out@);
        let _ = out.pop();
        proof {
            assert(lines_view(out@) =~= pre.drop_last());
        }
        return add_trim_exec(out);
    }
    let t_str = to_string_vec(t.as_slice());
    if is_no_newline_comment_line(t_str.as_str()) {
        let mut out = out;
        let ghost pre = lines_view(out@);
        let _ = out.pop();
        proof {
            assert(lines_view(out@) =~= pre.drop_last());
        }
        return (out, true);
    }
    (out, false)
}

/// The whole add body, computed.
fn add_parse_exec(lines: &Vec<Vec<char>>, i0: usize, end: usize) -> (r: (String, bool, usize))
    requires
        i0 <= end <= lines@.len(),
    ensures
        ({
            let s = add_parse(charlines_view(lines@), i0 as int, end as int);
            r.0@ == s.0 && r.1 == s.1 && r.2 == s.2 && i0 <= r.2 <= end
        }),
{
    let fence = to_chars("```");
    proof {
        reveal_strlit("```");
        assert(fence@ =~= fence_seq());
    }
    let mut fenced = false;
    if i0 < end {
        proof {
            assert(charlines_view(lines@)[i0 as int] == lines@[i0 as int]@);
        }
        let t = skip_ws(lines[i0].as_slice());
        fenced = starts_with(t.as_slice(), fence.as_slice());
    }
    proof {
        assert(lines_view(Seq::<String>::empty()) =~= Seq::<Seq<char>>::empty());
    }
    let (collected, i1) = if fenced {
        add_scan_fenced_exec(lines, i0 + 1, end, Vec::new())
    } else {
        add_scan_plain_exec(lines, i0, end, Vec::new())
    };
    let (trimmed, nn) = add_trim_exec(collected);
    let cl = crate::patch::text::strings_to_charlines(trimmed.as_slice());
    let joined = crate::patch::text::join_newlines(&cl);
    (to_string_vec(joined.as_slice()), nn, i1)
}

/// The operations between the begin and end markers: blank lines are skipped,
/// headers open updates, adds and deletes, and anything else is ignored.
pub open spec fn ops_scan(lines: Seq<Seq<char>>, i: int, end: int) -> Seq<PatchOpV>
    decreases end - i when 0 <= i
{
    if i >= end {
        Seq::empty()
    } else {
        let line = trim_spec(lines[i]);
        if line.len() == 0 {
            ops_scan(lines, i + 1, end)
        } else {
            match parse_header_path_spec(line, kw_update()) {
                Some(path) => {
                    let u = upd_parse(lines, i + 1, end);
                    let next = if u.2 < i + 1 {
                        i + 1
                    } else if u.2 > end {
                        end as int
                    } else {
                        u.2
                    };
                    seq![
                        PatchOpV::Update { path, hunks: u.0, no_newline: u.1 },
                    ] + ops_scan(lines, next, end)
                },
                None => match parse_header_path_spec(line, kw_add()) {
                    Some(path) => {
                        let a = add_parse(lines, i + 1, end);
                        let next = if a.2 < i + 1 {
                            i + 1
                        } else if a.2 > end {
                            end as int
                        } else {
                            a.2
                        };
                        seq![
                            PatchOpV::Add { path, content: a.0, no_newline: a.1 },
                        ] + ops_scan(lines, next, end)
                    },
                    None => match parse_header_path_spec(line, kw_delete()) {
                        Some(path) => seq![PatchOpV::Delete { path }] + ops_scan(
                            lines,
                            i + 1,
                            end,
                        ),
                        None => ops_scan(lines, i + 1, end),
                    },
                },
            }
        }
    }
}

/// The views of an operation vector, re-exported shape.
pub open spec fn ops_view(v: Seq<PatchOp>) -> Seq<PatchOpV> {
    crate::patch::ops_view(v)
}

/// The operation scan, computed.
fn ops_scan_exec(lines: &Vec<Vec<char>>, i: usize, end: usize) -> (r: Vec<PatchOp>)
    requires
        i <= end <= lines@.len(),
    ensures
        ops_view(r@) == ops_scan(charlines_view(lines@), i as int, end as int),
    decreases end - i,
{
    let ghost lv = charlines_view(lines@);
    if i >= end {
        let r: Vec<PatchOp> = Vec::new();
        proof {
            assert(ops_view(r@) =~= ops_scan(lv, i as int, end as int));
        }
        return r;
    }
    proof {
        assert(lv[i as int] == lines@[i as int]@);
    }
    let line = trim(lines[i].as_slice());
    if line.len() == 0 {
        return ops_scan_exec(lines, i + 1, end);
    }
    let upd_kw = to_chars("update file");
    let add_kw = to_chars("add file");
    let del_kw = to_chars("delete file");
    proof {
        reveal_strlit("update file");
        reveal_strlit("add file");
        reveal_strlit("delete file");
        assert(upd_kw@ =~= kw_update());
        assert(add_kw@ =~= kw_add());
        assert(del_kw@ =~= kw_delete());
    }
    if let Some(path) = parse_header_path(line.as_slice(), upd_kw.as_slice()) {
        let (hunks, nn, i2) = upd_parse_exec(lines, i + 1, end);
        let next: usize = if i2 > end {
            end
        } else {
            i2
        };
        let rest = ops_scan_exec(lines, next, end);
        let mut r: Vec<PatchOp> = Vec::new();
        r.push(PatchOp::Update { path, hunks, no_newline: nn });
        let mut k: usize = 0;
        let ghost first_op = r@[0]@;
        while k < rest.len()
            invariant
                k <= rest@.len(),
                r@.len() == k + 1,
                r@[0]@ == first_op,
                forall|j: int| 0 <= j < k ==> r@[j + 1]@ == (#[trigger] rest@[j])@,
            decreases rest@.len() - k,
        {
            r.push(clone_op(&rest[k]));
            k = k + 1;
        }
        proof {
            assert forall|j: int| 0 <= j < r@.len() implies ops_view(r@)[j] == (seq![first_op]
                + ops_view(rest@))[j] by {
                assert(ops_view(r@)[j] == r@[j]@);
                if j > 0 {
                    assert(r@[(j - 1) + 1]@ == rest@[j - 1]@);
                    assert(ops_view(rest@)[j - 1] == rest@[j - 1]@);
                }
            }
            assert(ops_view(r@) =~= seq![first_op] + ops_view(rest@));
        }
        return r;
    }
    if let Some(path) = parse_header_path(line.as_slice(), add_kw.as_slice()) {
        let (content, nn, i2) = add_parse_exec(lines, i + 1, end);
        let next: usize = if i2 > end {
            end
        } else {
            i2
        };
        let rest = ops_scan_exec(lines, next, end);
        let mut r: Vec<PatchOp> = Vec::new();
        r.push(PatchOp::Add { path, content, no_newline: nn });
        let mut k: usize = 0;
        let ghost first_op = r@[0]@;
        while k < rest.len()
            invariant
                k <= rest@.len(),
                r@.len() == k + 1,
                r@[0]@ == first_op,
                forall|j: int| 0 <= j < k ==> r@[j + 1]@ == (#[trigger] rest@[j])@,
            decreases rest@.len() - k,
        {
            r.push(clone_op(&rest[k]));
            k = k + 1;
        }
        proof {
            assert forall|j: int| 0 <= j < r@.len() implies ops_view(r@)[j] == (seq![first_op]
                + ops_view(rest@))[j] by {
                assert(ops_view(r@)[j] == r@[j]@);
                if j > 0 {
                    assert(r@[(j - 1) + 1]@ == rest@[j - 1]@);
                    assert(ops_view(rest@)[j - 1] == rest@[j - 1]@);
                }
            }
            assert(ops_view(r@) =~= seq![first_op] + ops_view(rest@));
        }
        return r;
    }
    if let Some(path) = parse_header_path(line.as_slice(), del_kw.as_slice()) {
        let rest = ops_scan_exec(lines, i + 1, end);
        let mut r: Vec<PatchOp> = Vec::new();
        r.push(PatchOp::Delete { path });
        let mut k: usize = 0;
        let ghost first_op = r@[0]@;
        while k < rest.len()
            invariant
                k <= rest@.len(),
                r@.len() == k + 1,
                r@[0]@ == first_op,
                forall|j: int| 0 <= j < k ==> r@[j + 1]@ == (#[trigger] rest@[j])@,
            decreases rest@.len() - k,
        {
            r.push(clone_op(&rest[k]));
            k = k + 1;
        }
        proof {
            assert forall|j: int| 0 <= j < r@.len() implies ops_view(r@)[j] == (seq![first_op]
                + ops_view(rest@))[j] by {
                assert(ops_view(r@)[j] == r@[j]@);
                if j > 0 {
                    assert(r@[(j - 1) + 1]@ == rest@[j - 1]@);
                    assert(ops_view(rest@)[j - 1] == rest@[j - 1]@);
                }
            }
            assert(ops_view(r@) =~= seq![first_op] + ops_view(rest@));
        }
        return r;
    }
    ops_scan_exec(lines, i + 1, end)
}

/// Copy one operation.
fn clone_op(o: &PatchOp) -> (r: PatchOp)
    ensures
        r@ == o@,
{
    match o {
        PatchOp::Update { path, hunks, no_newline } => {
            let mut hs: Vec<Hunk> = Vec::new();
            let mut k: usize = 0;
            while k < hunks.len()
                invariant
                    k <= hunks@.len(),
                    hs@.len() == k as int,
                    forall|j: int| 0 <= j < k ==> (#[trigger] hs@[j])@ == hunks@[j]@,
                decreases hunks@.len() - k,
            {
                hs.push(clone_hunk(&hunks[k]));
                k = k + 1;
            }
            proof {
                assert(hunks_view(hs@) =~= hunks_view(hunks@));
            }
            PatchOp::Update { path: path.clone(), hunks: hs, no_newline: *no_newline }
        },
        PatchOp::Add { path, content, no_newline } => PatchOp::Add {
            path: path.clone(),
            content: content.clone(),
            no_newline: *no_newline,
        },
        PatchOp::Delete { path } => PatchOp::Delete { path: path.clone() },
    }
}

/// Copy one hunk.
fn clone_hunk(h: &Hunk) -> (r: Hunk)
    ensures
        r@ == h@,
{
    let old_lines = clone_strings(h.old_lines.as_slice());
    let new_lines = clone_strings(h.new_lines.as_slice());
    Hunk { old_lines, new_lines }
}

/// Copy a vector of strings.
fn clone_strings(v: &[String]) -> (r: Vec<String>)
    ensures
        lines_view(r@) == lines_view(v@),
{
    let mut r: Vec<String> = Vec::new();
    let mut i: usize = 0;
    while i < v.len()
        invariant
            i <= v@.len(),
            r@.len() == i as int,
            forall|j: int| 0 <= j < i ==> (#[trigger] r@[j])@ == v@[j]@,
        decreases v@.len() - i,
    {
        r.push(v[i].clone());
        i = i + 1;
    }
    proof {
        assert(lines_view(r@) =~= lines_view(v@));
    }
    r
}

/// The lines of a text, as the line iterator sees them: split at newlines,
/// without a trailing empty piece after a final newline.
pub open spec fn lines_spec(s: Seq<char>) -> Seq<Seq<char>> {
    if s.len() == 0 {
        Seq::empty()
    } else if s.last() == '\n' {
        split_nl(s.take(s.len() - 1))
    } else {
        split_nl(s)
    }
}

/// The lines of a text, computed.
fn lines_of(v: &[char]) -> (r: Vec<Vec<char>>)
    ensures
        charlines_view(r@) == lines_spec(v@),
{
    if v.len() == 0 {
        let r: Vec<Vec<char>> = Vec::new();
        proof {
            assert(charlines_view(r@) =~= lines_spec(v@));
        }
        return r;
    }
    if v[v.len() - 1] == '\n' {
        let cut = subrange_vec(v, 0, v.len() - 1);
        proof {
            assert(cut@ =~= v@.take(v@.len() - 1));
        }
        split_newlines(cut.as_slice())
    } else {
        split_newlines(v)
    }
}

/// The lines of a text as strings, computed.
pub(crate) fn lines_exec(v: &[char]) -> (r: Vec<String>)
    ensures
        lines_view(r@) == lines_spec(v@),
{
    let cl = lines_of(v);
    crate::patch::text::charlines_to_strings(&cl)
}

/// The error text for a patch without a begin marker.
pub open spec fn missing_begin_seq() -> Seq<char> {
    seq![
        'M',
        'i',
        's',
        's',
        'i',
        'n',
        'g',
        ' ',
        '*',
        '*',
        '*',
        ' ',
        'B',
        'e',
        'g',
        'i',
        'n',
        ' ',
        'P',
        'a',
        't',
        'c',
        'h',
    ]
}

/// The error text for a patch without an end marker.
pub open spec fn missing_end_seq() -> Seq<char> {
    seq![
        'M',
        'i',
        's',
        's',
        'i',
        'n',
        'g',
        ' ',
        '*',
        '*',
        '*',
        ' ',
        'E',
        'n',
        'd',
        ' ',
        'P',
        'a',
        't',
        'c',
        'h',
    ]
}

/// What parsing a whole patch yields: line endings normalized, the begin and
/// end markers found, and the operations between them scanned.
pub open spec fn parse_patch_spec(raw: Seq<char>) -> Result<Seq<PatchOpV>, Seq<char>> {
    let lines = lines_spec(normalize_eol_spec(raw));
    match find_marker_from(lines, 0, false) {
        None => Err(missing_begin_seq()),
        Some(b) => match find_marker_from(lines, b + 1, true) {
            None => Err(missing_end_seq()),
            Some(e) => Ok(ops_scan(lines, b + 1, e)),
        },
    }
}

/// Parse a patch into its operations, as `parse_patch_spec` describes.
pub fn parse_patch_ops(raw: &str) -> (r: Result<Vec<PatchOp>, String>)
    ensures
        match r {
            Ok(ops) => parse_patch_spec(raw@) == Ok::<Seq<PatchOpV>, Seq<char>>(ops_view(ops@)),
            Err(e) => parse_patch_spec(raw@) == Err::<Seq<PatchOpV>, Seq<char>>(e@),
        },
{
    let src = normalize_eol(raw);
    let sv = to_chars(src.as_str());
    let lines = lines_of(sv.as_slice());
    let line_count: usize = lines.len();
    let begin = match find_marker(&lines, 0, false) {
        Some(b) => b,
        None => {
            let msg = to_chars("Missing *** Begin Patch");
            proof {
                reveal_strlit("Missing *** Begin Patch");
                assert(msg@ =~= missing_begin_seq());
            }
            return Err(to_string_vec(msg.as_slice()));
        },
    };
    let end = match find_marker(&lines, begin + 1, true) {
        Some(e) => e,
        None => {
            let msg = to_chars("Missing *** End Patch");
            proof {
                reveal_strlit("Missing *** End Patch");
                assert(msg@ =~= missing_end_seq());
            }
            return Err(to_string_vec(msg.as_slice()));
        },
    };
    Ok(ops_scan_exec(&lines, begin + 1, end))
}

/// A text is in patch mode when it holds a begin marker with an end marker
/// somewhere after it.
pub open spec fn has_patch_markers(raw: Seq<char>) -> bool {
    let lines = lines_spec(normalize_eol_spec(raw));
    match find_marker_from(lines, 0, false) {
        None => false,
        Some(b) => find_marker_from(lines, b + 1, true) is Some,
    }
}

/// Decide patch mode, as `has_patch_markers` describes.
pub fn contains_patch_markers(s: &str) -> (r: bool)
    ensures
        r == has_patch_markers(s@),
{
    let src = normalize_eol(s);
    let sv = to_chars(src.as_str());
    let lines = lines_of(sv.as_slice());
    let line_count: usize = lines.len();
    match find_marker(&lines, 0, false) {
        None => false,
        Some(b) => match find_marker(&lines, b + 1, true) {
            Some(_) => true,
            None => false,
        },
    }
}

} // verus!
