//! Helpers around model weights: shard file naming, the repository table, and
//! the Content-Range header of a resumed download.
use vstd::prelude::*;

use crate::chars::{
    chars_eq, count_leading, count_trailing, extend_chars, first_match, lemma_count_leading,
    lemma_count_trailing, lemma_first_match, lower_seq, subrange_vec, to_chars, to_lower, to_string_vec, trim,
};
use crate::names::is_ascii_digit_char;

verus! {

/// The infix `-of-` of a shard index pattern.
pub open spec fn of_infix() -> Seq<char> {
    seq!['-', 'o', 'f', '-']
}

/// What stripping the shard index `-<n>-of-<m>` leaves: around the first
/// `-of-`, the digits before and after and the dash before them are removed;
/// a name without the full pattern is left alone.
pub open spec fn derive_multishard_spec(s: Seq<char>) -> Seq<char> {
    match first_match(s, of_infix()) {
        None => s,
        Some(of_pos) => {
            let back = count_trailing(s.take(of_pos), |c: char| is_ascii_digit_char(c));
            let fwd = count_leading(s.skip(of_pos + 4), |c: char| is_ascii_digit_char(c));
            if fwd == 0 {
                s
            } else if back == 0 {
                s
            } else if of_pos - back == 0 || s[of_pos - back - 1] != '-' {
                s
            } else {
                s.take(of_pos - back - 1) + s.skip(of_pos + 4 + fwd)
            }
        },
    }
}

/// Leading run of ASCII digits, computed.
fn leading_digits(v: &[char], from: usize) -> (r: usize)
    requires
        from <= v@.len(),
    ensures
        r as int == count_leading(v@.skip(from as int), |c: char| is_ascii_digit_char(c)),
        from + r <= v@.len(),
{
    let ghost p = |c: char| is_ascii_digit_char(c);
    let n: usize = v.len();
    let mut i: usize = from;
    loop
        invariant_except_break
            from <= i <= n,
            n == v@.len(),
            p == (|c: char| is_ascii_digit_char(c)),
            forall|t: int| from <= t < i ==> p(v@[t]),
        ensures
            from <= i <= n,
            n == v@.len(),
            p == (|c: char| is_ascii_digit_char(c)),
            forall|t: int| from <= t < i ==> p(v@[t]),
            i < n ==> !p(v@[i as int]),
        decreases n - i,
    {
        if i >= n {
            break ;
        }
        let u: u32 = v[i] as u32;
        if !(48 <= u && u <= 57) {
            break ;
        }
        i = i + 1;
    }
    proof {
        let rest = v@.skip(from as int);
        lemma_count_leading(rest, p);
        let cl = count_leading(rest, p);
        assert(forall|t: int| 0 <= t < rest.len() ==> rest[t] == v@[from + t]);
        if i - from < cl {
            assert(p(rest[i - from as int]));
            assert(false);
        }
        if cl < i - from {
            assert(p(rest[cl]));
            assert(p(v@[from + cl]));
            assert(false);
        }
    }
    i - from
}

/// Trailing run of ASCII digits, computed.
fn trailing_digits(v: &[char], upto: usize) -> (r: usize)
    requires
        upto <= v@.len(),
    ensures
        r as int == count_trailing(v@.take(upto as int), |c: char| is_ascii_digit_char(c)),
        r <= upto,
{
    let ghost p = |c: char| is_ascii_digit_char(c);
    let mut i: usize = 0;
    loop
        invariant_except_break
            i <= upto <= v@.len(),
            p == (|c: char| is_ascii_digit_char(c)),
            forall|t: int| upto - i <= t < upto ==> p(v@[t]),
        ensures
            i <= upto,
            upto <= v@.len(),
            p == (|c: char| is_ascii_digit_char(c)),
            forall|t: int| upto - i <= t < upto ==> p(v@[t]),
            i < upto ==> !p(v@[upto - i - 1]),
        decreases upto - i,
    {
        if i >= upto {
            break ;
        }
        let u: u32 = v[upto - 1 - i] as u32;
        if !(48 <= u && u <= 57) {
            break ;
        }
        i = i + 1;
    }
    proof {
        let pre = v@.take(upto as int);
        lemma_count_trailing(pre, p);
        let ct = count_trailing(pre, p);
        assert(forall|t: int| 0 <= t < pre.len() ==> pre[t] == v@[t]);
        if i < ct {
            assert(p(pre[upto - i - 1]));
            assert(false);
        }
        if ct < i {
            assert(p(pre[upto - ct - 1]));
            assert(false);
        }
    }
    i
}

/// Strip a `-<n>-of-<m>` shard index from a file name, as
/// `derive_multishard_spec` describes.
pub fn derive_multishard_target_name(shard_name: &str) -> (r: String)
    ensures
        r@ == derive_multishard_spec(shard_name@),
{
    let v = to_chars(shard_name);
    let infix = to_chars("-of-");
    proof {
        reveal_strlit("-of-");
        assert(infix@ =~= of_infix());
    }
    let of_pos = match crate::chars::find_subseq(v.as_slice(), infix.as_slice()) {
        Some(i) => i,
        None => {
            return to_string_vec(v.as_slice());
        },
    };
    let vn0: usize = v.len();
    proof {
        lemma_first_match(v@, of_infix());
        assert(of_pos + 4 <= vn0);
    }
    let back = trailing_digits(v.as_slice(), of_pos);
    let fwd = leading_digits(v.as_slice(), of_pos + 4);
    if fwd == 0 || back == 0 || of_pos - back == 0 {
        return to_string_vec(v.as_slice());
    }
    if v[of_pos - back - 1] != '-' {
        return to_string_vec(v.as_slice());
    }
    let mut out = subrange_vec(v.as_slice(), 0, of_pos - back - 1);
    let vn: usize = v.len();
    extend_chars(&mut out, subrange_vec(v.as_slice(), of_pos + 4 + fwd, vn).as_slice());
    proof {
        assert(out@ =~= derive_multishard_spec(shard_name@));
    }
    to_string_vec(out.as_slice())
}

/// A parsed Content-Range header; components that are absent or malformed
/// stay unknown.
pub struct ContentRange {
    pub start: Option<u64>,
    pub total: Option<u64>,
}

/// The digit part of a number text: an optional leading plus sign dropped.
pub open spec fn digits_of(s: Seq<char>) -> Seq<char> {
    if s.len() > 0 && s[0] == '+' {
        s.skip(1)
    } else {
        s
    }
}

/// Every character is an ASCII digit.
pub open spec fn all_digits(s: Seq<char>) -> bool {
    forall|t: int| 0 <= t < s.len() ==> is_ascii_digit_char(#[trigger] s[t])
}

/// The numeric value of a decimal text, when the whole text is an optional
/// plus sign followed by digits and the value fits.
pub open spec fn parse_u64_spec(s: Seq<char>) -> Option<int> {
    if digits_of(s).len() > 0 && all_digits(digits_of(s)) && digits_value(digits_of(s), 0)
        <= u64::MAX {
        Some(digits_value(digits_of(s), 0))
    } else {
        None
    }
}

/// The value of a digit text read left to right.
pub open spec fn digits_value(s: Seq<char>, acc: int) -> int
    decreases s.len(),
{
    if s.len() == 0 {
        acc
    } else {
        digits_value(s.drop_first(), acc * 10 + (s[0] as u32 - 48))
    }
}

/// The accumulated value only grows as digits are read.
proof fn lemma_digits_value_monotone(s: Seq<char>, acc: int)
    requires
        acc >= 0,
        forall|t: int| 0 <= t < s.len() ==> is_ascii_digit_char(#[trigger] s[t]),
    ensures
        digits_value(s, acc) >= acc,
    decreases s.len(),
{
    if s.len() > 0 {
        assert(is_ascii_digit_char(s[0]));
        assert(forall|t: int|
            0 <= t < s.drop_first().len() ==> is_ascii_digit_char(#[trigger] s.drop_first()[t]));
        lemma_digits_value_monotone(s.drop_first(), acc * 10 + (s[0] as u32 - 48));
    }
}

/// Parse a whole text as a decimal number, as `parse_u64_spec` describes.
pub fn parse_u64(s: &[char]) -> (r: Option<u64>)
    ensures
        match r {
            Some(n) => parse_u64_spec(s@) == Some(n as int),
            None => parse_u64_spec(s@) is None,
        },
{
    let plus = s.len() > 0 && s[0] == '+';
    let from: usize = if plus {
        1
    } else {
        0
    };
    let ghost digits = digits_of(s@);
    proof {
        if !plus {
            assert(s@.skip(0) =~= s@);
        }
        assert(digits == s@.skip(from as int));
        assert(forall|t: int| 0 <= t < digits.len() ==> digits[t] == s@[from + t]);
    }
    if from >= s.len() {
        proof {
            assert(digits.len() == 0);
        }
        return None;
    }
    let mut acc: u64 = 0;
    let mut k: usize = from;
    proof {
        assert(digits.skip(0) =~= digits);
    }
    while k < s.len()
        invariant
            from <= k <= s@.len(),
            digits == s@.skip(from as int),
            digits == digits_of(s@),
            forall|t: int| 0 <= t < digits.len() ==> digits[t] == s@[from + t],
            forall|t: int| from <= t < k ==> is_ascii_digit_char(#[trigger] s@[t]),
            acc <= u64::MAX,
            digits_value(digits, 0) == digits_value(digits.skip(k - from), acc as int),
        decreases s@.len() - k,
    {
        let ghost rest = digits.skip(k - from);
        proof {
            assert(rest[0] == digits[k - from]);
            assert(digits[k - from] == s@[k as int]);
            assert(rest.drop_first() =~= digits.skip(k - from + 1));
        }
        let u: u32 = s[k] as u32;
        if !(48 <= u && u <= 57) {
            proof {
                assert(!is_ascii_digit_char(digits_of(s@)[k - from]));
                assert(!all_digits(digits_of(s@)));
                assert(parse_u64_spec(s@) is None);
            }
            return None;
        }
        let d: u64 = (u - 48) as u64;
        if acc > (u64::MAX - d) / 10 {
            proof {
                assert(acc as int * 10 + d as int > u64::MAX as int) by (nonlinear_arith)
                    requires
                        acc > (u64::MAX - d) / 10,
                        d <= 9,
                        acc <= u64::MAX,
                ;
                if all_digits(digits_of(s@)) {
                    assert(forall|t: int|
                        0 <= t < digits.skip(k - from + 1).len() ==> is_ascii_digit_char(
                            #[trigger] digits.skip(k - from + 1)[t],
                        ));
                    lemma_digits_value_monotone(
                        digits.skip(k - from + 1),
                        acc as int * 10 + d as int,
                    );
                    assert(digits_value(rest, acc as int) == digits_value(
                        digits.skip(k - from + 1),
                        acc as int * 10 + d as int,
                    ));
                }
                if all_digits(digits_of(s@)) {
                    assert(forall|t: int|
                        0 <= t < digits.len() ==> is_ascii_digit_char(#[trigger] digits[t]));
                    assert(digits_value(digits_of(s@), 0) > u64::MAX);
                }
                assert(parse_u64_spec(s@) is None);
            }
            return None;
        }
        proof {
            assert(acc as int * 10 + d as int <= u64::MAX as int) by (nonlinear_arith)
                requires
                    acc <= (u64::MAX - d) / 10,
                    d <= 9,
            ;
        }
        acc = acc * 10 + d;
        k = k + 1;
    }
    proof {
        assert(digits.skip(k - from).len() == 0);
        assert(forall|t: int| 0 <= t < digits.len() ==> is_ascii_digit_char(#[trigger] digits[t]));
        assert(all_digits(digits_of(s@)));
        assert(digits.len() > 0);
    }
    Some(acc)
}

impl ContentRange {
    /// Parse a Content-Range header: the unit must be `bytes`, the part after
    /// it is `<start>-<end>/<total>`, and `*` leaves a component unknown.
    pub fn parse(header: &str) -> (r: ContentRange)
        ensures
            ({
                let t = crate::chars::trim_spec(header@);
                let tok1 = crate::harmony::first_token_spec(t);
                let tok2 = crate::harmony::first_token_spec(
                    crate::harmony::rest_after_token_spec(t),
                );
                if tok1 != seq!['b', 'y', 't', 'e', 's'] || tok2.len() == 0 {
                    r.start is None && r.total is None
                } else {
                    let slash = first_match(tok2, seq!['/']);
                    let range_part = match slash {
                        Some(i) => tok2.take(i),
                        None => tok2,
                    };
                    let total_part = match slash {
                        Some(i) => tok2.skip(i + 1),
                        None => Seq::<char>::empty(),
                    };
                    let total_ok = if total_part == seq!['*'] {
                        r.total is None
                    } else {
                        match parse_u64_spec(total_part) {
                            Some(n) => r.total == Some(n as u64),
                            None => r.total is None,
                        }
                    };
                    if range_part == seq!['*'] {
                        r.start is None && total_ok
                    } else {
                        let dash = first_match(range_part, seq!['-']);
                        let start_part = match dash {
                            Some(i) => range_part.take(i),
                            None => range_part,
                        };
                        let start_ok = match parse_u64_spec(start_part) {
                            Some(n) => r.start == Some(n as u64),
                            None => r.start is None,
                        };
                        start_ok && total_ok
                    }
                }
            }),
    {
        let hv = to_chars(header);
        let t = trim(hv.as_slice());
        let (tok1, rest) = crate::harmony::split_first_token(t.as_slice());
        let (tok2, _rest2) = crate::harmony::split_first_token(rest.as_slice());
        let bytes_word = to_chars("bytes");
        proof {
            reveal_strlit("bytes");
            assert(bytes_word@ =~= seq!['b', 'y', 't', 'e', 's']);
        }
        if !chars_eq(tok1.as_slice(), bytes_word.as_slice()) || tok2.len() == 0 {
            return ContentRange { start: None, total: None };
        }
        let slash = to_chars("/");
        let dash = to_chars("-");
        let star = to_chars("*");
        proof {
            reveal_strlit("/");
            reveal_strlit("-");
            reveal_strlit("*");
            assert(slash@ =~= seq!['/']);
            assert(dash@ =~= seq!['-']);
            assert(star@ =~= seq!['*']);
        }
        let tok2n: usize = tok2.len();
        let (range_part, total_part): (Vec<char>, Vec<char>) = match crate::chars::find_subseq(
            tok2.as_slice(),
            slash.as_slice(),
        ) {
            Some(i) => {
                proof {
                    lemma_first_match(tok2@, seq!['/']);
                }
                (
                    subrange_vec(tok2.as_slice(), 0, i),
                    subrange_vec(tok2.as_slice(), i + 1, tok2n),
                )
            },
            None => (subrange_vec(tok2.as_slice(), 0, tok2n), Vec::new()),
        };
        proof {
            assert(tok2@.subrange(0, tok2@.len() as int) =~= tok2@);
        }
        let total: Option<u64> = if chars_eq(total_part.as_slice(), star.as_slice()) {
            None
        } else {
            parse_u64(total_part.as_slice())
        };
        if chars_eq(range_part.as_slice(), star.as_slice()) {
            return ContentRange { start: None, total };
        }
        let rpn: usize = range_part.len();
        let start_part: Vec<char> = match crate::chars::find_subseq(
            range_part.as_slice(),
            dash.as_slice(),
        ) {
            Some(i) => {
                proof {
                    lemma_first_match(range_part@, seq!['-']);
                }
                subrange_vec(range_part.as_slice(), 0, i)
            },
            None => subrange_vec(range_part.as_slice(), 0, rpn),
        };
        proof {
            assert(range_part@.subrange(0, range_part@.len() as int) =~= range_part@);
        }
        let start = parse_u64(start_part.as_slice());
        ContentRange { start, total }
    }
}

/// The shard lists of the known repositories: the large model's three shards,
/// or the small model's single file; any unrecognized alias means the small
/// one.
pub fn pick_repository(which: Option<&str>) -> (r: (String, Vec<String>))
    ensures
        ({
            let key = normalize_alias_spec(
                crate::chars::trim_spec(
                    match which {
                        Some(s) => s@,
                        None => seq!['2', '0', 'b'],
                    },
                ),
            );
            if key =~= seq!['1', '2', '0', 'b'] || key =~= seq!['1', '2', '0'] || key =~= seq![
                'b',
                'i',
                'g',
            ] || key =~= seq!['l', 'a', 'r', 'g', 'e'] {
                r.0@ == "ggml-org/gpt-oss-120b-GGUF"@ && r.1@.len() == 3
            } else {
                r.0@ == "ggml-org/gpt-oss-20b-GGUF"@ && r.1@.len() == 1 && r.1@[0]@
                    == "gpt-oss-20b-mxfp4.gguf"@
            }
        }),
{
    let key_src: String = match which {
        Some(s) => String::from_str(s),
        None => {
            let d = to_chars("20b");
            proof {
                reveal_strlit("20b");
                assert(d@ =~= seq!['2', '0', 'b']);
            }
            to_string_vec(d.as_slice())
        },
    };
    let key = normalize_alias(key_src.as_str());
    let k120b = to_chars("120b");
    let k120 = to_chars("120");
    let kbig = to_chars("big");
    let klarge = to_chars("large");
    proof {
        reveal_strlit("120b");
        reveal_strlit("120");
        reveal_strlit("big");
        reveal_strlit("large");
        assert(k120b@ =~= seq!['1', '2', '0', 'b']);
        assert(k120@ =~= seq!['1', '2', '0']);
        assert(kbig@ =~= seq!['b', 'i', 'g']);
        assert(klarge@ =~= seq!['l', 'a', 'r', 'g', 'e']);
    }
    if chars_eq(key.as_slice(), k120b.as_slice()) || chars_eq(key.as_slice(), k120.as_slice())
        || chars_eq(key.as_slice(), kbig.as_slice()) || chars_eq(
        key.as_slice(),
        klarge.as_slice(),
    ) {
        let mut shards: Vec<String> = Vec::new();
        shards.push(String::from_str("gpt-oss-120b-mxfp4-00001-of-00003.gguf"));
        shards.push(String::from_str("gpt-oss-120b-mxfp4-00002-of-00003.gguf"));
        shards.push(String::from_str("gpt-oss-120b-mxfp4-00003-of-00003.gguf"));
        return (String::from_str("ggml-org/gpt-oss-120b-GGUF"), shards);
    }
    let mut shards: Vec<String> = Vec::new();
    shards.push(String::from_str("gpt-oss-20b-mxfp4.gguf"));
    (String::from_str("ggml-org/gpt-oss-20b-GGUF"), shards)
}

/// An alias with its decorations stripped: non-alphanumeric characters
/// trimmed from both ends, the rest lowercased.
pub open spec fn normalize_alias_spec(s: Seq<char>) -> Seq<char> {
    let t = trim_spec_alias(s);
    lower_seq(t)
}

/// Trim characters that are not ASCII alphanumerics from both ends.
pub open spec fn trim_spec_alias(s: Seq<char>) -> Seq<char> {
    let a = count_leading(s, |c: char| !crate::names::is_ascii_alnum(c));
    if a == s.len() {
        Seq::empty()
    } else {
        s.subrange(a, s.len() - count_trailing(s, |c: char| !crate::names::is_ascii_alnum(c)))
    }
}

/// Normalize a repository alias, as `normalize_alias_spec` describes. The
/// alias is also whitespace-trimmed first, which the symmetric trim of
/// non-alphanumerics subsumes.
fn normalize_alias(s: &str) -> (r: Vec<char>)
    ensures
        r@ == normalize_alias_spec(crate::chars::trim_spec(s@)),
{
    let v = to_chars(s);
    let t0 = trim(v.as_slice());
    let ghost p = |c: char| !crate::names::is_ascii_alnum(c);
    let n: usize = t0.len();
    let mut a: usize = 0;
    loop
        invariant_except_break
            a <= n,
            n == t0@.len(),
            p == (|c: char| !crate::names::is_ascii_alnum(c)),
            forall|t: int| 0 <= t < a ==> p(t0@[t]),
        ensures
            a <= n,
            n == t0@.len(),
            p == (|c: char| !crate::names::is_ascii_alnum(c)),
            forall|t: int| 0 <= t < a ==> p(t0@[t]),
            a < n ==> !p(t0@[a as int]),
        decreases n - a,
    {
        if a >= n {
            break ;
        }
        let u: u32 = t0[a] as u32;
        if (48 <= u && u <= 57) || (65 <= u && u <= 90) || (97 <= u && u <= 122) {
            break ;
        }
        a = a + 1;
    }
    proof {
        lemma_count_leading(t0@, p);
        let cl = count_leading(t0@, p);
        if a < cl {
            assert(p(t0@[a as int]));
            assert(false);
        }
        if cl < a {
            assert(p(t0@[cl]));
            assert(false);
        }
    }
    if a == n {
        proof {
            assert(trim_spec_alias(t0@) =~= Seq::<char>::empty());
            assert(normalize_alias_spec(t0@) =~= Seq::<char>::empty());
        }
        return Vec::new();
    }
    let mut b: usize = 0;
    loop
        invariant_except_break
            b <= n,
            n == t0@.len(),
            p == (|c: char| !crate::names::is_ascii_alnum(c)),
            forall|t: int| n - b <= t < n ==> p(t0@[t]),
        ensures
            b <= n,
            n == t0@.len(),
            p == (|c: char| !crate::names::is_ascii_alnum(c)),
            forall|t: int| n - b <= t < n ==> p(t0@[t]),
            b < n ==> !p(t0@[n - b - 1]),
        decreases n - b,
    {
        if b >= n {
            break ;
        }
        let u: u32 = t0[n - 1 - b] as u32;
        if (48 <= u && u <= 57) || (65 <= u && u <= 90) || (97 <= u && u <= 122) {
            break ;
        }
        b = b + 1;
    }
    proof {
        lemma_count_trailing(t0@, p);
        let ct = count_trailing(t0@, p);
        if b < ct {
            assert(p(t0@[n - b - 1]));
            assert(false);
        }
        if ct < b {
            assert(p(t0@[n - ct - 1]));
            assert(false);
        }
        if n - b <= a {
            assert(p(t0@[a as int]));
            assert(false);
        }
    }
    let core = subrange_vec(t0.as_slice(), a, n - b);
    proof {
        assert(core@ =~= trim_spec_alias(t0@));
    }
    to_lower(core.as_slice())
}

/// The resolve URL of a shard in a repository.
pub fn shard_url(repository: &str, shard: &str) -> (r: String)
    ensures
        r@ == "https://huggingface.co/"@ + repository@ + "/resolve/main/"@ + shard@,
{
    let mut out = to_chars("https://huggingface.co/");
    let repo = to_chars(repository);
    extend_chars(&mut out, repo.as_slice());
    let mid = to_chars("/resolve/main/");
    extend_chars(&mut out, mid.as_slice());
    let sh = to_chars(shard);
    extend_chars(&mut out, sh.as_slice());
    to_string_vec(out.as_slice())
}

/// Is this file name a gpt-oss weights file: its lowercase form contains
/// `gpt-oss` and ends with `.gguf`?
pub fn is_gpt_oss_gguf(file_name: &str) -> (r: bool)
    ensures
        r == ({
            let f = lower_seq(file_name@);
            &&& first_match(f, seq!['g', 'p', 't', '-', 'o', 's', 's']) is Some
            &&& f.len() >= 5 && f.skip(f.len() - 5) == seq!['.', 'g', 'g', 'u', 'f']
        }),
{
    let v = to_chars(file_name);
    let f = to_lower(v.as_slice());
    let needle = to_chars("gpt-oss");
    let ext = to_chars(".gguf");
    proof {
        reveal_strlit("gpt-oss");
        reveal_strlit(".gguf");
        assert(needle@ =~= seq!['g', 'p', 't', '-', 'o', 's', 's']);
        assert(ext@ =~= seq!['.', 'g', 'g', 'u', 'f']);
    }
    let has = crate::chars::contains_sub(f.as_slice(), needle.as_slice());
    if f.len() < 5 {
        return false;
    }
    let fn_len: usize = f.len();
    let tail = subrange_vec(f.as_slice(), fn_len - 5, fn_len);
    proof {
        assert(tail@ =~= lower_seq(file_name@).skip(lower_seq(file_name@).len() - 5));
    }
    has && chars_eq(tail.as_slice(), ext.as_slice())
}

} // verus!
