//! Character-sequence workhorse: conversions between `String` and `Vec<char>`,
//! substring search, prefix/suffix overlap, trimming, splitting and joining,
//! all specified over `Seq<char>`.
use vstd::prelude::*;

verus! {

/// Relies on String::push: appends the character to the end of the string.
#[verifier::external_body]
pub fn push_char(s: &mut String, c: char)
    ensures
        final(s)@ == old(s)@.push(c),
{
    s.push(c);
}

/// Collect the characters of a string slice into a vector.
pub fn to_chars(s: &str) -> (r: Vec<char>)
    ensures
        r@ == s@,
{
    let n: usize = s.unicode_len();
    let mut r: Vec<char> = Vec::new();
    let mut i: usize = 0;
    while i < n
        invariant
            i <= n,
            n == s@.len(),
            r@ == s@.subrange(0, i as int),
        decreases n - i,
    {
        r.push(s.get_char(i));
        i = i + 1;
        proof {
            assert(r@ =~= s@.subrange(0, i as int));
        }
    }
    proof {
        assert(r@ =~= s@);
    }
    r
}

/// Collect a character slice into an owned string.
pub fn to_string_vec(v: &[char]) -> (r: String)
    ensures
        r@ == v@,
{
    let mut r: String = String::new();
    let mut i: usize = 0;
    while i < v.len()
        invariant
            i <= v@.len(),
            r@ == v@.subrange(0, i as int),
        decreases v@.len() - i,
    {
        push_char(&mut r, v[i]);
        i = i + 1;
        proof {
            assert(r@ =~= v@.subrange(0, i as int));
        }
    }
    proof {
        assert(r@ =~= v@);
    }
    r
}

/// Element-wise equality of two character slices.
pub fn chars_eq(a: &[char], b: &[char]) -> (r: bool)
    ensures
        r == (a@ == b@),
{
    if a.len() != b.len() {
        proof {
            assert(a@ != b@) by {
                assert(a@.len() != b@.len());
            }
        }
        return false;
    }
    let mut i: usize = 0;
    while i < a.len()
        invariant
            i <= a@.len(),
            a@.len() == b@.len(),
            forall|j: int| 0 <= j < i ==> a@[j] == b@[j],
        decreases a@.len() - i,
    {
        if a[i] != b[i] {
            return false;
        }
        i = i + 1;
    }
    proof {
        assert(a@ =~= b@);
    }
    true
}

/// The pattern `pat` occurs in `s` starting at index `i`.
pub open spec fn occurs_at(s: Seq<char>, pat: Seq<char>, i: int) -> bool {
    0 <= i && i + pat.len() <= s.len() && s.subrange(i, i + pat.len() as int) == pat
}

/// Index of the first occurrence of `pat` in `s` at or after `from`, if any.
pub open spec fn first_match_from(s: Seq<char>, pat: Seq<char>, from: int) -> Option<int>
    decreases s.len() - from when 0 <= from
{
    if from + pat.len() > s.len() {
        None
    } else if pat.len() == 0 {
        Some(from)
    } else if occurs_at(s, pat, from) {
        Some(from)
    } else {
        first_match_from(s, pat, from + 1)
    }
}

/// Index of the first occurrence of `pat` in `s`, if any.
pub open spec fn first_match(s: Seq<char>, pat: Seq<char>) -> Option<int> {
    first_match_from(s, pat, 0)
}

/// What `first_match_from` returns: the least occurrence at or after `from`,
/// or nothing when there is no occurrence at or after `from`.
pub proof fn lemma_first_match_from(s: Seq<char>, pat: Seq<char>, from: int)
    requires
        0 <= from,
    ensures
        match first_match_from(s, pat, from) {
            Some(i) => occurs_at(s, pat, i) && from <= i && forall|j: int|
                from <= j < i ==> !occurs_at(s, pat, j),
            None => forall|j: int| from <= j ==> !occurs_at(s, pat, j),
        },
    decreases s.len() - from,
{
    if from + pat.len() > s.len() {
    } else if pat.len() == 0 {
        assert(s.subrange(from, from + pat.len() as int) =~= pat);
        assert(occurs_at(s, pat, from));
    } else if occurs_at(s, pat, from) {
    } else {
        lemma_first_match_from(s, pat, from + 1);
    }
}

/// What `first_match` returns: the least occurrence, or nothing.
pub proof fn lemma_first_match(s: Seq<char>, pat: Seq<char>)
    ensures
        match first_match(s, pat) {
            Some(i) => occurs_at(s, pat, i) && forall|j: int| 0 <= j < i ==> !occurs_at(s, pat, j),
            None => forall|j: int| !occurs_at(s, pat, j),
        },
{
    lemma_first_match_from(s, pat, 0);
    if first_match(s, pat) is None {
        assert(forall|j: int| j < 0 ==> !occurs_at(s, pat, j));
    }
}

/// Does `pat` occur at position `i` of `hay`?
fn check_occurs_at(hay: &[char], pat: &[char], i: usize) -> (r: bool)
    requires
        i + pat@.len() <= hay@.len(),
    ensures
        r == occurs_at(hay@, pat@, i as int),
{
    let n: usize = hay.len();
    let mut j: usize = 0;
    while j < pat.len()
        invariant
            j <= pat@.len(),
            n == hay@.len(),
            i + pat@.len() <= n,
            forall|k: int| 0 <= k < j ==> hay@[i + k] == pat@[k],
        decreases pat@.len() - j,
    {
        if hay[i + j] != pat[j] {
            proof {
                assert(hay@.subrange(i as int, i + pat@.len() as int) != pat@) by {
                    assert(hay@.subrange(i as int, i + pat@.len() as int)[j as int] != pat@[j as int]);
                }
            }
            return false;
        }
        j = j + 1;
    }
    proof {
        assert(hay@.subrange(i as int, i + pat@.len() as int) =~= pat@);
    }
    true
}

/// Find the first occurrence of `pat` in `hay`.
pub fn find_subseq(hay: &[char], pat: &[char]) -> (r: Option<usize>)
    ensures
        match r {
            Some(i) => first_match(hay@, pat@) == Some(i as int),
            None => first_match(hay@, pat@) == None::<int>,
        },
{
    if pat.len() > hay.len() {
        return None;
    }
    if pat.len() == 0 {
        proof {
            assert(hay@.subrange(0, 0) =~= pat@);
        }
        return Some(0);
    }
    let count: usize = hay.len() - pat.len() + 1;
    let mut i: usize = 0;
    while i < count
        invariant
            i <= count,
            pat@.len() >= 1,
            count == hay@.len() - pat@.len() + 1,
            first_match(hay@, pat@) == first_match_from(hay@, pat@, i as int),
        decreases count - i,
    {
        if check_occurs_at(hay, pat, i) {
            return Some(i);
        }
        i = i + 1;
    }
    None
}

/// Length of the longest suffix of `s`, no longer than `k`, that is a prefix
/// of `pat`.
pub open spec fn overlap_from(s: Seq<char>, pat: Seq<char>, k: int) -> int
    decreases k when k >= 0
{
    if k <= 0 {
        0
    } else if s.subrange(s.len() - k, s.len() as int) == pat.subrange(0, k) {
        k
    } else {
        overlap_from(s, pat, k - 1)
    }
}

/// Length of the longest suffix of `s` that is a prefix of `pat`.
pub open spec fn overlap_spec(s: Seq<char>, pat: Seq<char>) -> int {
    overlap_from(s, pat, if s.len() <= pat.len() { s.len() as int } else { pat.len() as int })
}

/// A suffix of `s` of length `k` equals the prefix of `pat` of length `k`.
pub open spec fn suffix_matches_prefix(s: Seq<char>, pat: Seq<char>, k: int) -> bool {
    0 <= k <= s.len() && k <= pat.len() && s.subrange(s.len() - k, s.len() as int) == pat.subrange(
        0,
        k,
    )
}

/// What `overlap_from` returns: the longest matching length at most `k`.
pub proof fn lemma_overlap_from(s: Seq<char>, pat: Seq<char>, k: int)
    requires
        0 <= k <= s.len(),
        k <= pat.len(),
    ensures
        suffix_matches_prefix(s, pat, overlap_from(s, pat, k)),
        forall|j: int| overlap_from(s, pat, k) < j <= k ==> !suffix_matches_prefix(s, pat, j),
        0 <= overlap_from(s, pat, k) <= k,
    decreases k,
{
    if k <= 0 {
        assert(s.subrange(s.len() - 0, s.len() as int) =~= pat.subrange(0, 0));
    } else if s.subrange(s.len() - k, s.len() as int) == pat.subrange(0, k) {
    } else {
        lemma_overlap_from(s, pat, k - 1);
    }
}

/// What `overlap_spec` returns: the longest suffix of `s` that is a prefix of
/// `pat`, and nothing longer matches.
pub proof fn lemma_overlap(s: Seq<char>, pat: Seq<char>)
    ensures
        suffix_matches_prefix(s, pat, overlap_spec(s, pat)),
        forall|j: int| overlap_spec(s, pat) < j ==> !suffix_matches_prefix(s, pat, j),
{
    let m: int = if s.len() <= pat.len() { s.len() as int } else { pat.len() as int };
    lemma_overlap_from(s, pat, m);
    assert forall|j: int| overlap_spec(s, pat) < j implies !suffix_matches_prefix(s, pat, j) by {
        if j <= m {
        } else {
            assert(j > s.len() || j > pat.len());
        }
    }
}

/// Longest suffix of `s` that is a prefix of `pat`, computed.
pub fn overlap(s: &[char], pat: &[char]) -> (r: usize)
    ensures
        r as int == overlap_spec(s@, pat@),
{
    let n: usize = s.len();
    let max: usize = if s.len() <= pat.len() { s.len() } else { pat.len() };
    let mut k: usize = max;
    while k > 0
        invariant
            k <= max,
            n == s@.len(),
            max == if s@.len() <= pat@.len() { s@.len() as int } else { pat@.len() as int },
            overlap_spec(s@, pat@) == overlap_from(s@, pat@, k as int),
        decreases k,
    {
        let mut ok: bool = true;
        let start: usize = n - k;
        let mut j: usize = 0;
        while j < k
            invariant
                j <= k,
                k <= n,
                n == s@.len(),
                k <= pat@.len(),
                start == n - k,
                ok == (forall|t: int| 0 <= t < j ==> s@[start + t] == pat@[t]),
            decreases k - j,
        {
            if s[start + j] != pat[j] {
                ok = false;
                proof {
                    assert(s@[start + j as int] != pat@[j as int]);
                }
                j = k;
            } else {
                j = j + 1;
            }
        }
        if ok {
            proof {
                assert(s@.subrange(s@.len() - k, s@.len() as int) =~= pat@.subrange(0, k as int));
            }
            return k;
        }
        proof {
            assert(s@.subrange(s@.len() - k, s@.len() as int) != pat@.subrange(0, k as int)) by {
                let t: int = choose|t: int| 0 <= t < k && s@[s@.len() - k + t] != pat@[t];
                assert(s@.subrange(s@.len() - k, s@.len() as int)[t] != pat@.subrange(0, k as int)[t]);
            }
        }
        k = k - 1;
    }
    0
}

/// The characters Rust's `char::is_whitespace` accepts: the Unicode
/// White_Space set.
pub open spec fn is_ws_char(c: char) -> bool {
    let u = c as u32;
    (9 <= u && u <= 13) || u == 0x20 || u == 0x85 || u == 0xA0 || u == 0x1680 || (0x2000 <= u
        && u <= 0x200A) || u == 0x2028 || u == 0x2029 || u == 0x202F || u == 0x205F || u == 0x3000
}

/// Whitespace test matching `is_ws_char`.
pub fn is_ws(c: char) -> (r: bool)
    ensures
        r == is_ws_char(c),
{
    let u: u32 = c as u32;
    (9 <= u && u <= 13) || u == 0x20 || u == 0x85 || u == 0xA0 || u == 0x1680 || (0x2000 <= u
        && u <= 0x200A) || u == 0x2028 || u == 0x2029 || u == 0x202F || u == 0x205F || u == 0x3000
}

/// How many leading characters of `s` satisfy `p`.
pub open spec fn count_leading(s: Seq<char>, p: spec_fn(char) -> bool) -> int
    decreases s.len(),
{
    if s.len() == 0 {
        0
    } else if p(s[0]) {
        1 + count_leading(s.drop_first(), p)
    } else {
        0
    }
}

/// How many trailing characters of `s` satisfy `p`.
pub open spec fn count_trailing(s: Seq<char>, p: spec_fn(char) -> bool) -> int
    decreases s.len(),
{
    if s.len() == 0 {
        0
    } else if p(s.last()) {
        1 + count_trailing(s.drop_last(), p)
    } else {
        0
    }
}

/// `count_leading` names the first index where `p` fails.
pub proof fn lemma_count_leading(s: Seq<char>, p: spec_fn(char) -> bool)
    ensures
        0 <= count_leading(s, p) <= s.len(),
        forall|t: int| 0 <= t < count_leading(s, p) ==> p(s[t]),
        count_leading(s, p) < s.len() ==> !p(s[count_leading(s, p)]),
    decreases s.len(),
{
    if s.len() == 0 {
    } else if p(s[0]) {
        lemma_count_leading(s.drop_first(), p);
        assert forall|t: int| 0 <= t < count_leading(s, p) implies p(s[t]) by {
            if t > 0 {
                assert(s.drop_first()[t - 1] == s[t]);
            }
        }
        if count_leading(s, p) < s.len() {
            assert(s.drop_first()[count_leading(s, p) - 1] == s[count_leading(s, p)]);
        }
    } else {
    }
}

/// `count_trailing` names the last index where `p` fails.
pub proof fn lemma_count_trailing(s: Seq<char>, p: spec_fn(char) -> bool)
    ensures
        0 <= count_trailing(s, p) <= s.len(),
        forall|t: int| s.len() - count_trailing(s, p) <= t < s.len() ==> p(s[t]),
        count_trailing(s, p) < s.len() ==> !p(s[s.len() - count_trailing(s, p) - 1]),
    decreases s.len(),
{
    if s.len() == 0 {
    } else if p(s.last()) {
        lemma_count_trailing(s.drop_last(), p);
        assert forall|t: int| s.len() - count_trailing(s, p) <= t < s.len() implies p(s[t]) by {
            if t < s.len() - 1 {
                assert(s.drop_last()[t] == s[t]);
            }
        }
        if count_trailing(s, p) < s.len() {
            let i0 = s.len() - count_trailing(s, p) - 1;
            assert(s.drop_last()[i0] == s[i0]);
        }
    } else {
    }
}

/// `s` without its leading whitespace.
pub open spec fn skip_ws_spec(s: Seq<char>) -> Seq<char> {
    s.skip(count_leading(s, |c: char| is_ws_char(c)))
}

/// `s` with leading and trailing whitespace removed.
pub open spec fn trim_spec(s: Seq<char>) -> Seq<char> {
    let a = count_leading(s, |c: char| is_ws_char(c));
    if a == s.len() {
        Seq::empty()
    } else {
        s.subrange(a, s.len() - count_trailing(s, |c: char| is_ws_char(c)))
    }
}

/// Index just past the leading run of characters satisfying `is_ws_char`,
/// computed; equal to `count_leading` with the whitespace predicate.
pub(crate) fn leading_ws_len(v: &[char]) -> (r: usize)
    ensures
        r as int == count_leading(v@, |c: char| is_ws_char(c)),
        r <= v@.len(),
{
    let ghost p = |c: char| is_ws_char(c);
    let mut i: usize = 0;
    while i < v.len() && is_ws(v[i])
        invariant
            i <= v@.len(),
            p == (|c: char| is_ws_char(c)),
            forall|t: int| 0 <= t < i ==> p(v@[t]),
        decreases v@.len() - i,
    {
        i = i + 1;
    }
    proof {
        lemma_count_leading(v@, p);
        let cl = count_leading(v@, p);
        if i < cl {
            assert(p(v@[i as int]));
            assert(false);
        }
        if cl < i {
            assert(p(v@[cl]));
            assert(false);
        }
    }
    i
}

/// Length of the trailing whitespace run, computed.
pub(crate) fn trailing_ws_len(v: &[char]) -> (r: usize)
    ensures
        r as int == count_trailing(v@, |c: char| is_ws_char(c)),
        r <= v@.len(),
{
    let ghost p = |c: char| is_ws_char(c);
    let n: usize = v.len();
    let mut i: usize = 0;
    while i < n && is_ws(v[n - 1 - i])
        invariant
            i <= n,
            n == v@.len(),
            p == (|c: char| is_ws_char(c)),
            forall|t: int| n - i <= t < n ==> p(v@[t]),
        decreases n - i,
    {
        i = i + 1;
    }
    proof {
        lemma_count_trailing(v@, p);
        let ct = count_trailing(v@, p);
        if i < ct {
            assert(p(v@[n - i - 1]));
            assert(false);
        }
        if ct < i {
            assert(p(v@[n - ct - 1]));
            assert(false);
        }
    }
    i
}

/// `v` without its leading whitespace.
pub fn skip_ws(v: &[char]) -> (r: Vec<char>)
    ensures
        r@ == skip_ws_spec(v@),
{
    let a: usize = leading_ws_len(v);
    subrange_vec(v, a, v.len())
}

/// `v` with leading and trailing whitespace removed.
pub fn trim(v: &[char]) -> (r: Vec<char>)
    ensures
        r@ == trim_spec(v@),
{
    let a: usize = leading_ws_len(v);
    if a == v.len() {
        proof {
            assert(trim_spec(v@) =~= Seq::empty());
        }
        return Vec::new();
    }
    let b: usize = trailing_ws_len(v);
    proof {
        let ghost p = |c: char| is_ws_char(c);
        lemma_count_leading(v@, p);
        lemma_count_trailing(v@, p);
        if v@.len() - b <= a {
            assert(p(v@[a as int]));
            assert(false);
        }
    }
    subrange_vec(v, a, v.len() - b)
}

/// Does `s` start with `p`?
pub open spec fn starts_with_spec(s: Seq<char>, p: Seq<char>) -> bool {
    p.len() <= s.len() && s.subrange(0, p.len() as int) == p
}

/// Prefix test matching `starts_with_spec`.
pub fn starts_with(v: &[char], p: &[char]) -> (r: bool)
    ensures
        r == starts_with_spec(v@, p@),
{
    if p.len() > v.len() {
        return false;
    }
    let r = check_occurs_at(v, p, 0);
    proof {
        assert(occurs_at(v@, p@, 0) == starts_with_spec(v@, p@));
    }
    r
}

/// Copy the elements of `v` in positions `[from, to)` into a new vector.
pub fn subrange_vec(v: &[char], from: usize, to: usize) -> (r: Vec<char>)
    requires
        from <= to <= v@.len(),
    ensures
        r@ == v@.subrange(from as int, to as int),
{
    let mut r: Vec<char> = Vec::new();
    let mut i: usize = from;
    while i < to
        invariant
            from <= i <= to <= v@.len(),
            r@ == v@.subrange(from as int, i as int),
        decreases to - i,
    {
        r.push(v[i]);
        i = i + 1;
        proof {
            assert(r@ =~= v@.subrange(from as int, i as int));
        }
    }
    r
}

/// Append all elements of `src` to `dst`.
pub fn extend_chars(dst: &mut Vec<char>, src: &[char])
    ensures
        final(dst)@ == old(dst)@ + src@,
{
    let mut i: usize = 0;
    while i < src.len()
        invariant
            i <= src@.len(),
            dst@ == old(dst)@ + src@.subrange(0, i as int),
        decreases src@.len() - i,
    {
        dst.push(src[i]);
        i = i + 1;
        proof {
            assert(dst@ =~= old(dst)@ + src@.subrange(0, i as int));
        }
    }
    proof {
        assert(dst@ =~= old(dst)@ + src@);
    }
}

/// Leading run of one repeated character, computed.
pub(crate) fn leading_char_len(v: &[char], c: char) -> (r: usize)
    ensures
        r as int == count_leading(v@, |x: char| x == c),
        r <= v@.len(),
{
    let ghost p = |x: char| x == c;
    let mut i: usize = 0;
    while i < v.len() && v[i] == c
        invariant
            i <= v@.len(),
            p == (|x: char| x == c),
            forall|t: int| 0 <= t < i ==> p(v@[t]),
        decreases v@.len() - i,
    {
        i = i + 1;
    }
    proof {
        lemma_count_leading(v@, p);
        let cl = count_leading(v@, p);
        if i < cl {
            assert(p(v@[i as int]));
            assert(false);
        }
        if cl < i {
            assert(p(v@[cl]));
            assert(false);
        }
    }
    i
}

/// Trailing run of one repeated character, computed.
pub(crate) fn trailing_char_len(v: &[char], c: char) -> (r: usize)
    ensures
        r as int == count_trailing(v@, |x: char| x == c),
        r <= v@.len(),
{
    let ghost p = |x: char| x == c;
    let n: usize = v.len();
    let mut i: usize = 0;
    while i < n && v[n - 1 - i] == c
        invariant
            i <= n,
            n == v@.len(),
            p == (|x: char| x == c),
            forall|t: int| n - i <= t < n ==> p(v@[t]),
        decreases n - i,
    {
        i = i + 1;
    }
    proof {
        lemma_count_trailing(v@, p);
        let ct = count_trailing(v@, p);
        if i < ct {
            assert(p(v@[n - i - 1]));
            assert(false);
        }
        if ct < i {
            assert(p(v@[n - ct - 1]));
            assert(false);
        }
    }
    i
}

/// Does `pat` occur anywhere in `hay`?
pub fn contains_sub(hay: &[char], pat: &[char]) -> (r: bool)
    ensures
        r == (first_match(hay@, pat@) is Some),
{
    match find_subseq(hay, pat) {
        Some(_) => true,
        None => false,
    }
}

/// ASCII lowercase of one character; other characters are unchanged.
pub open spec fn lower_char(c: char) -> char {
    if 65 <= c as u32 && c as u32 <= 90 {
        (((c as u32) + 32) as u8) as char
    } else {
        c
    }
}

/// The ASCII-lowercased text.
pub open spec fn lower_seq(s: Seq<char>) -> Seq<char> {
    s.map_values(|c: char| lower_char(c))
}

/// ASCII lowercase, computed.
pub fn to_lower(v: &[char]) -> (r: Vec<char>)
    ensures
        r@ == lower_seq(v@),
{
    let mut r: Vec<char> = Vec::new();
    let mut i: usize = 0;
    proof {
        assert(r@ =~= lower_seq(v@).take(0));
    }
    while i < v.len()
        invariant
            i <= v@.len(),
            r@ == lower_seq(v@).take(i as int),
        decreases v@.len() - i,
    {
        let c = v[i];
        let u: u32 = c as u32;
        if 65 <= u && u <= 90 {
            r.push(((u + 32) as u8) as char);
        } else {
            r.push(c);
        }
        i = i + 1;
        proof {
            assert(lower_seq(v@)[i - 1] == lower_char(v@[i - 1]));
            assert(r@ =~= lower_seq(v@).take(i as int));
        }
    }
    proof {
        assert(lower_seq(v@).take(v@.len() as int) =~= lower_seq(v@));
    }
    r
}

/// `s` without its trailing whitespace.
pub open spec fn rtrim_spec(s: Seq<char>) -> Seq<char> {
    s.take(s.len() - count_trailing(s, |c: char| is_ws_char(c)))
}

/// `v` without its trailing whitespace, computed.
pub fn rtrim(v: &[char]) -> (r: Vec<char>)
    ensures
        r@ == rtrim_spec(v@),
{
    let b: usize = trailing_ws_len(v);
    subrange_vec(v, 0, v.len() - b)
}

} // verus!
