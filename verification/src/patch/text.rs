//! Line-oriented text helpers for the patch tool: end-of-line normalization,
//! trailing-newline control, relaxed line matching, and previews.
use vstd::prelude::*;

use crate::chars::{
    chars_eq, count_leading, count_trailing, extend_chars, lemma_count_leading,
    rtrim, rtrim_spec, subrange_vec, to_chars, to_string_vec, trailing_char_len,
};
use crate::patch::lines_view;

verus! {

/// Carriage returns folded away: `\r\n` and bare `\r` both become `\n`.
pub open spec fn normalize_eol_spec(s: Seq<char>) -> Seq<char>
    decreases s.len(),
{
    if s.len() == 0 {
        Seq::empty()
    } else if s.len() >= 2 && s[0] == '\r' && s[1] == '\n' {
        seq!['\n'] + normalize_eol_spec(s.skip(2))
    } else if s[0] == '\r' {
        seq!['\n'] + normalize_eol_spec(s.skip(1))
    } else {
        seq![s[0]] + normalize_eol_spec(s.skip(1))
    }
}

/// Fold CR and CRLF line endings to LF.
pub fn normalize_eol(s: &str) -> (r: String)
    ensures
        r@ == normalize_eol_spec(s@),
{
    let v = to_chars(s);
    let mut out: Vec<char> = Vec::new();
    let mut i: usize = 0;
    proof {
        assert(v@.skip(0) =~= v@);
        assert(out@ + normalize_eol_spec(v@.skip(0)) =~= normalize_eol_spec(v@));
    }
    while i < v.len()
        invariant
            i <= v@.len(),
            normalize_eol_spec(v@) == out@ + normalize_eol_spec(v@.skip(i as int)),
        decreases v@.len() - i,
    {
        let ghost pre = out@;
        let ghost rest = v@.skip(i as int);
        if v[i] == '\r' && i + 1 < v.len() && v[i + 1] == '\n' {
            out.push('\n');
            proof {
                assert(rest[0] == '\r' && rest[1] == '\n');
                assert(rest.skip(2) =~= v@.skip(i + 2));
                assert(normalize_eol_spec(rest) == seq!['\n'] + normalize_eol_spec(v@.skip(i + 2)));
                assert(out@ + normalize_eol_spec(v@.skip(i + 2)) =~= pre + normalize_eol_spec(
                    rest,
                ));
            }
            i = i + 2;
        } else if v[i] == '\r' {
            out.push('\n');
            proof {
                assert(rest[0] == '\r');
                assert(rest.skip(1) =~= v@.skip(i + 1));
                assert(normalize_eol_spec(rest) == seq!['\n'] + normalize_eol_spec(v@.skip(i + 1)));
                assert(out@ + normalize_eol_spec(v@.skip(i + 1)) =~= pre + normalize_eol_spec(
                    rest,
                ));
            }
            i = i + 1;
        } else {
            out.push(v[i]);
            proof {
                assert(rest[0] == v@[i as int] && rest[0] != '\r');
                assert(rest.skip(1) =~= v@.skip(i + 1));
                assert(normalize_eol_spec(rest) == seq![rest[0]] + normalize_eol_spec(
                    v@.skip(i + 1),
                ));
                assert(out@ + normalize_eol_spec(v@.skip(i + 1)) =~= pre + normalize_eol_spec(
                    rest,
                ));
            }
            i = i + 1;
        }
    }
    proof {
        assert(v@.skip(v@.len() as int) =~= Seq::<char>::empty());
        assert(normalize_eol_spec(Seq::<char>::empty()) =~= Seq::<char>::empty());
        assert(out@ =~= normalize_eol_spec(v@));
    }
    to_string_vec(out.as_slice())
}

/// The text with its trailing newlines removed and, when asked for, exactly
/// one put back.
pub open spec fn set_trailing_newline_spec(s: Seq<char>, want_newline: bool) -> Seq<char> {
    let t = s.take(s.len() - count_trailing(s, |c: char| c == '\n'));
    if want_newline {
        t + seq!['\n']
    } else {
        t
    }
}

/// Enforce the trailing-newline property of a text.
pub fn set_trailing_newline(s: &str, want_newline: bool) -> (r: String)
    ensures
        r@ == set_trailing_newline_spec(s@, want_newline),
{
    let v = to_chars(s);
    let b: usize = trailing_char_len(v.as_slice(), '\n');
    let mut t = subrange_vec(v.as_slice(), 0, v.len() - b);
    if want_newline {
        t.push('\n');
        proof {
            assert(t@ =~= set_trailing_newline_spec(s@, want_newline));
        }
    }
    to_string_vec(t.as_slice())
}

/// Two lines are relaxed-equal when they agree after trailing whitespace is
/// removed.
pub fn eq_line_relaxed(a: &str, b: &str) -> (r: bool)
    ensures
        r == (rtrim_spec(a@) == rtrim_spec(b@)),
{
    let av = to_chars(a);
    let bv = to_chars(b);
    let at = rtrim(av.as_slice());
    let bt = rtrim(bv.as_slice());
    chars_eq(at.as_slice(), bt.as_slice())
}

/// The text split at every newline; like the splitter itself, a trailing
/// newline yields a trailing empty piece.
pub open spec fn split_nl(s: Seq<char>) -> Seq<Seq<char>>
    decreases s.len() via split_nl_decreases
{
    let i = count_leading(s, |c: char| c != '\n');
    if i == s.len() {
        seq![s]
    } else {
        seq![s.take(i)] + split_nl(s.skip(i + 1))
    }
}

#[via_fn]
proof fn split_nl_decreases(s: Seq<char>) {
    lemma_count_leading(s, |c: char| c != '\n');
}

/// The views of a vector of character lines.
pub open spec fn charlines_view(v: Seq<Vec<char>>) -> Seq<Seq<char>> {
    v.map_values(|l: Vec<char>| l@)
}

/// Leading run of characters other than `\n`, computed.
fn leading_non_nl(v: &[char], from: usize) -> (r: usize)
    requires
        from <= v@.len(),
    ensures
        r as int == count_leading(v@.skip(from as int), |c: char| c != '\n'),
        r + from <= v@.len(),
{
    let ghost p = |c: char| c != '\n';
    let mut i: usize = from;
    while i < v.len() && v[i] != '\n'
        invariant
            from <= i <= v@.len(),
            p == (|c: char| c != '\n'),
            forall|t: int| from <= t < i ==> p(v@[t]),
        decreases v@.len() - i,
    {
        i = i + 1;
    }
    proof {
        let rest = v@.skip(from as int);
        lemma_count_leading(rest, p);
        let cl = count_leading(rest, p);
        assert(forall|t: int| 0 <= t < rest.len() ==> rest[t] == v@[from + t]);
        if i - from < cl {
            assert(p(rest[i - from as int]));
            assert(false);
        }
        if cl < i - from {
            assert(p(rest[cl]));
            assert(p(v@[from + cl]));
            assert(false);
        }
    }
    i - from
}

/// Split a text at every newline, computed.
pub(crate) fn split_newlines(v: &[char]) -> (r: Vec<Vec<char>>)
    ensures
        charlines_view(r@) == split_nl(v@),
{
    let mut r: Vec<Vec<char>> = Vec::new();
    let total: usize = v.len();
    let mut pos: usize = 0;
    proof {
        assert(total == v@.len());
        assert(v@.skip(0) =~= v@);
        assert(charlines_view(r@) + split_nl(v@.skip(0)) =~= split_nl(v@));
    }
    loop
        invariant_except_break
            pos <= total,
            total == v@.len(),
            split_nl(v@) == charlines_view(r@) + split_nl(v@.skip(pos as int)),
        ensures
            charlines_view(r@) == split_nl(v@),
        decreases v@.len() - pos,
    {
        let ghost rest = v@.skip(pos as int);
        let ghost rpre = r@;
        let n = leading_non_nl(v, pos);
        let piece = subrange_vec(v, pos, pos + n);
        proof {
            assert(piece@ =~= rest.take(n as int));
        }
        if pos + n == v.len() {
            r.push(piece);
            proof {
                assert(count_leading(rest, |c: char| c != '\n') == rest.len());
                assert(split_nl(rest) == seq![rest]);
                assert(rest.take(n as int) =~= rest);
                assert(charlines_view(r@) =~= charlines_view(rpre).push(rest));
                assert(charlines_view(r@) =~= split_nl(v@));
            }
            break ;
        }
        r.push(piece);
        proof {
            assert(count_leading(rest, |c: char| c != '\n') == n as int);
            assert(n < rest.len());
            assert(split_nl(rest) == seq![rest.take(n as int)] + split_nl(rest.skip(n + 1)));
            assert(rest.skip(n + 1) =~= v@.skip(pos + n + 1));
            assert(charlines_view(r@) =~= charlines_view(rpre).push(rest.take(n as int)));
            assert(charlines_view(r@) + split_nl(v@.skip(pos + n + 1)) =~= charlines_view(rpre)
                + split_nl(rest));
        }
        pos = pos + n + 1;
    }
    r
}

/// The pieces joined with a newline between each pair.
pub open spec fn join_nl(ls: Seq<Seq<char>>) -> Seq<char>
    decreases ls.len(),
{
    if ls.len() == 0 {
        Seq::empty()
    } else if ls.len() == 1 {
        ls[0]
    } else {
        ls[0] + seq!['\n'] + join_nl(ls.drop_first())
    }
}

/// Joining one more piece on the right.
pub proof fn lemma_join_nl_snoc(ls: Seq<Seq<char>>, x: Seq<char>)
    ensures
        join_nl(ls.push(x)) == if ls.len() == 0 {
            x
        } else {
            join_nl(ls) + seq!['\n'] + x
        },
    decreases ls.len(),
{
    if ls.len() == 0 {
        assert(ls.push(x).len() == 1);
        assert(ls.push(x)[0] == x);
    } else if ls.len() == 1 {
        assert(ls.push(x)[0] == ls[0]);
        assert(ls.push(x).drop_first() =~= seq![x]);
        assert(join_nl(seq![x]) == x);
    } else {
        assert(ls.push(x)[0] == ls[0]);
        assert(ls.push(x).drop_first() =~= ls.drop_first().push(x));
        lemma_join_nl_snoc(ls.drop_first(), x);
        assert(join_nl(ls.push(x)) =~= join_nl(ls) + seq!['\n'] + x);
    }
}

/// Join character lines with newlines, computed.
pub(crate) fn join_newlines(ls: &Vec<Vec<char>>) -> (r: Vec<char>)
    ensures
        r@ == join_nl(charlines_view(ls@)),
{
    let mut out: Vec<char> = Vec::new();
    let mut i: usize = 0;
    proof {
        assert(charlines_view(ls@).take(0) =~= Seq::<Seq<char>>::empty());
        assert(out@ =~= join_nl(charlines_view(ls@).take(0)));
    }
    while i < ls.len()
        invariant
            i <= ls@.len(),
            out@ == join_nl(charlines_view(ls@).take(i as int)),
        decreases ls@.len() - i,
    {
        let ghost lv = charlines_view(ls@);
        if i > 0 {
            out.push('\n');
        }
        extend_chars(&mut out, ls[i].as_slice());
        proof {
            assert(lv.take(i + 1) =~= lv.take(i as int).push(lv[i as int]));
            lemma_join_nl_snoc(lv.take(i as int), lv[i as int]);
            assert(lv[i as int] == ls@[i as int]@);
            assert(out@ =~= join_nl(lv.take(i + 1)));
        }
        i = i + 1;
    }
    proof {
        assert(charlines_view(ls@).take(ls@.len() as int) =~= charlines_view(ls@));
    }
    out
}

/// String lines as character vectors.
pub(crate) fn strings_to_charlines(ls: &[String]) -> (r: Vec<Vec<char>>)
    ensures
        charlines_view(r@) == lines_view(ls@),
{
    let mut r: Vec<Vec<char>> = Vec::new();
    let mut i: usize = 0;
    while i < ls.len()
        invariant
            i <= ls@.len(),
            r@.len() == i as int,
            forall|j: int| 0 <= j < i ==> (#[trigger] r@[j])@ == ls@[j]@,
        decreases ls@.len() - i,
    {
        r.push(to_chars(ls[i].as_str()));
        i = i + 1;
    }
    proof {
        assert forall|j: int| 0 <= j < ls@.len() implies charlines_view(r@)[j] == lines_view(
            ls@,
        )[j] by {
            assert(charlines_view(r@)[j] == r@[j]@);
            assert(lines_view(ls@)[j] == ls@[j]@);
        }
        assert(charlines_view(r@) =~= lines_view(ls@));
    }
    r
}

/// A window of `b` at position `i` matches `o` line by line, ignoring
/// trailing whitespace.
pub open spec fn window_at(b: Seq<Seq<char>>, o: Seq<Seq<char>>, i: int) -> bool {
    0 <= i && i + o.len() <= b.len() && forall|k: int|
        0 <= k < o.len() ==> rtrim_spec(#[trigger] b[i + k]) == rtrim_spec(o[k])
}

/// The first matching window at or after `from`, if any.
pub open spec fn first_window_from(b: Seq<Seq<char>>, o: Seq<Seq<char>>, from: int) -> Option<int>
    decreases b.len() - from when 0 <= from && o.len() > 0
{
    if from + o.len() > b.len() {
        None
    } else if window_at(b, o, from) {
        Some(from)
    } else {
        first_window_from(b, o, from + 1)
    }
}

/// Where `find_lines_window` finds its window: the first relaxed match, or
/// nothing when the old block is empty or longer than the text.
pub open spec fn find_window_spec(b: Seq<Seq<char>>, o: Seq<Seq<char>>) -> Option<int> {
    if o.len() == 0 || b.len() < o.len() {
        None
    } else {
        first_window_from(b, o, 0)
    }
}

/// Does the window of `b` at `i` match `o`, ignoring trailing whitespace?
fn check_window_at(b: &Vec<Vec<char>>, o: &Vec<Vec<char>>, i: usize) -> (r: bool)
    requires
        i + o@.len() <= b@.len(),
    ensures
        r == window_at(charlines_view(b@), charlines_view(o@), i as int),
{
    let n: usize = b.len();
    let mut k: usize = 0;
    while k < o.len()
        invariant
            k <= o@.len(),
            n == b@.len(),
            i + o@.len() <= n,
            forall|t: int|
                0 <= t < k ==> rtrim_spec(#[trigger] charlines_view(b@)[i + t]) == rtrim_spec(
                    charlines_view(o@)[t],
                ),
        decreases o@.len() - k,
    {
        let bt = rtrim(b[i + k].as_slice());
        let ot = rtrim(o[k].as_slice());
        if !chars_eq(bt.as_slice(), ot.as_slice()) {
            proof {
                assert(rtrim_spec(charlines_view(b@)[i + k as int]) != rtrim_spec(
                    charlines_view(o@)[k as int],
                ));
            }
            return false;
        }
        k = k + 1;
    }
    true
}

/// Find the first window of `before` that matches `old` line by line,
/// ignoring trailing whitespace; the result is the window's start and end.
pub fn find_lines_window(before: &[String], old: &[String]) -> (r: Option<(usize, usize)>)
    ensures
        match r {
            Some((s, e)) => find_window_spec(lines_view(before@), lines_view(old@)) == Some(
                s as int,
            ) && e == s + old@.len() && window_at(lines_view(before@), lines_view(old@), s as int),
            None => find_window_spec(lines_view(before@), lines_view(old@)) is None,
        },
{
    if old.len() == 0 || before.len() < old.len() {
        return None;
    }
    let bn: usize = before.len();
    let b = strings_to_charlines(before);
    let o = strings_to_charlines(old);
    let count: usize = before.len() - old.len() + 1;
    let mut i: usize = 0;
    proof {
        assert(charlines_view(b@) == lines_view(before@));
        assert(charlines_view(o@) == lines_view(old@));
    }
    while i < count
        invariant
            i <= count,
            o@.len() == old@.len() >= 1,
            b@.len() == before@.len(),
            charlines_view(b@) == lines_view(before@),
            charlines_view(o@) == lines_view(old@),
            count == b@.len() - o@.len() + 1,
            bn == before@.len(),
            find_window_spec(lines_view(before@), lines_view(old@)) == first_window_from(
                charlines_view(b@),
                charlines_view(o@),
                i as int,
            ),
        decreases count - i,
    {
        if check_window_at(&b, &o, i) {
            return Some((i, i + old.len()));
        }
        i = i + 1;
    }
    None
}

/// What one character contributes to a preview: a newline is escaped, other
/// characters stand as they are.
pub open spec fn preview_char(c: char) -> Seq<char> {
    if c == '\n' {
        seq!['\\', 'n']
    } else {
        seq![c]
    }
}

/// The newline-escaped text.
pub open spec fn escape_nl(s: Seq<char>) -> Seq<char>
    decreases s.len(),
{
    if s.len() == 0 {
        Seq::empty()
    } else {
        preview_char(s[0]) + escape_nl(s.drop_first())
    }
}

/// `escape_nl` distributes over concatenation.
pub proof fn lemma_escape_nl_add(a: Seq<char>, b: Seq<char>)
    ensures
        escape_nl(a + b) == escape_nl(a) + escape_nl(b),
    decreases a.len(),
{
    if a.len() == 0 {
        assert(a + b =~= b);
        assert(escape_nl(a) + escape_nl(b) =~= escape_nl(b));
    } else {
        assert((a + b).drop_first() =~= a.drop_first() + b);
        lemma_escape_nl_add(a.drop_first(), b);
        assert(escape_nl(a + b) =~= escape_nl(a) + escape_nl(b));
    }
}

/// A short view of a text: newlines escaped, cut off after 160 characters
/// with an ellipsis.
pub open spec fn preview_spec(s: Seq<char>) -> Seq<char> {
    let t = escape_nl(s);
    if t.len() > 160 {
        t.take(160).push('…')
    } else {
        t
    }
}

/// Preview a text for error messages, as `preview_spec` describes.
pub fn preview(s: &str) -> (r: String)
    ensures
        r@ == preview_spec(s@),
{
    let v = to_chars(s);
    let mut t: Vec<char> = Vec::new();
    let mut i: usize = 0;
    proof {
        assert(t@ =~= escape_nl(v@.take(0)));
    }
    while i < v.len()
        invariant
            i <= v@.len(),
            t@ == escape_nl(v@.take(i as int)),
        decreases v@.len() - i,
    {
        let ghost pre = t@;
        if v[i] == '\n' {
            t.push('\\');
            t.push('n');
        } else {
            t.push(v[i]);
        }
        proof {
            assert(v@.take(i + 1) =~= v@.take(i as int) + seq![v@[i as int]]);
            lemma_escape_nl_add(v@.take(i as int), seq![v@[i as int]]);
            assert(seq![v@[i as int]].drop_first() =~= Seq::<char>::empty());
            assert(escape_nl(Seq::<char>::empty()) =~= Seq::<char>::empty());
            assert(escape_nl(seq![v@[i as int]]) =~= preview_char(v@[i as int]));
            assert(t@ =~= pre + preview_char(v@[i as int]));
        }
        i = i + 1;
    }
    proof {
        assert(v@.take(v@.len() as int) =~= v@);
    }
    if t.len() > 160 {
        let mut cut = subrange_vec(t.as_slice(), 0, 160);
        cut.push('…');
        proof {
            assert(cut@ =~= preview_spec(s@));
        }
        return to_string_vec(cut.as_slice());
    }
    to_string_vec(t.as_slice())
}

/// Character lines as strings.
pub(crate) fn charlines_to_strings(ls: &Vec<Vec<char>>) -> (r: Vec<String>)
    ensures
        lines_view(r@) == charlines_view(ls@),
{
    let mut r: Vec<String> = Vec::new();
    let mut i: usize = 0;
    while i < ls.len()
        invariant
            i <= ls@.len(),
            r@.len() == i as int,
            forall|j: int| 0 <= j < i ==> (#[trigger] r@[j])@ == ls@[j]@,
        decreases ls@.len() - i,
    {
        r.push(to_string_vec(ls[i].as_slice()));
        i = i + 1;
    }
    proof {
        assert forall|j: int| 0 <= j < ls@.len() implies lines_view(r@)[j] == charlines_view(
            ls@,
        )[j] by {
            assert(lines_view(r@)[j] == r@[j]@);
            assert(charlines_view(ls@)[j] == ls@[j]@);
        }
        assert(lines_view(r@) =~= charlines_view(ls@));
    }
    r
}

} // verus!
