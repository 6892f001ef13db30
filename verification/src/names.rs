//! Bidirectional map between user-facing tool names and Harmony-safe names:
//! identifier sanitization, collision suffixes, and a reverse lookup that
//! restores the user name.
use vstd::prelude::*;

use crate::chars::{chars_eq, extend_chars, to_chars, to_string_vec};

verus! {

/// Whether a character has the Unicode XID_Start property.
pub uninterp spec fn xid_start(c: char) -> bool;

/// Whether a character has the Unicode XID_Continue property.
pub uninterp spec fn xid_continue(c: char) -> bool;

/// Relies on unicode_ident::is_xid_start: whether the character has the
/// XID_Start property, a function of the character alone.
pub assume_specification [ unicode_ident::is_xid_start ](ch: char) -> (r: bool)
    ensures
        r == xid_start(ch),
;

/// Relies on unicode_ident::is_xid_continue: whether the character has the
/// XID_Continue property, a function of the character alone.
pub assume_specification [ unicode_ident::is_xid_continue ](ch: char) -> (r: bool)
    ensures
        r == xid_continue(ch),
;

/// ASCII letters and digits.
pub open spec fn is_ascii_alnum(c: char) -> bool {
    let u = c as u32;
    (48 <= u && u <= 57) || (65 <= u && u <= 90) || (97 <= u && u <= 122)
}

/// ASCII digits.
pub open spec fn is_ascii_digit_char(c: char) -> bool {
    let u = c as u32;
    48 <= u && u <= 57
}

/// What one character of a user name contributes to the sanitized name:
/// space, dash and dot become an underscore; identifier-ish characters are
/// kept; everything else is dropped.
pub open spec fn mapped_char(c: char) -> Seq<char> {
    if c == ' ' || c == '-' || c == '.' {
        seq!['_']
    } else if c == '_' || c == '$' || is_ascii_alnum(c) || xid_start(c) || xid_continue(c) {
        seq![c]
    } else {
        Seq::empty()
    }
}

/// The concatenated contributions of every character.
pub open spec fn map_valid(s: Seq<char>) -> Seq<char>
    decreases s.len(),
{
    if s.len() == 0 {
        Seq::empty()
    } else {
        mapped_char(s[0]) + map_valid(s.drop_first())
    }
}

/// `map_valid` distributes over concatenation.
pub proof fn lemma_map_valid_add(a: Seq<char>, b: Seq<char>)
    ensures
        map_valid(a + b) == map_valid(a) + map_valid(b),
    decreases a.len(),
{
    if a.len() == 0 {
        assert(a + b =~= b);
        assert(map_valid(a) + map_valid(b) =~= map_valid(b));
    } else {
        assert((a + b).drop_first() =~= a.drop_first() + b);
        lemma_map_valid_add(a.drop_first(), b);
        assert(map_valid(a + b) =~= map_valid(a) + map_valid(b));
    }
}

/// The word used in place of a name whose characters were all dropped.
pub open spec fn unnamed_seq() -> Seq<char> {
    seq!['u', 'n', 'n', 'a', 'm', 'e', 'd']
}

/// The sanitized form of a user name: characters mapped, `unnamed` for an
/// empty result, and an underscore prefix when the result starts with a
/// digit.
pub open spec fn convert_spec(s: Seq<char>) -> Seq<char> {
    let out = map_valid(s);
    if out.len() == 0 {
        unnamed_seq()
    } else if is_ascii_digit_char(out[0]) {
        seq!['_'] + out
    } else {
        out
    }
}

/// The built-in tool names that pass through the map unchanged.
pub open spec fn is_builtin(s: Seq<char>) -> bool {
    ||| s =~= seq!['b', 'r', 'o', 'w', 's', 'e', 'r', '.', 'o', 'p', 'e', 'n']
    ||| s =~= seq!['b', 'r', 'o', 'w', 's', 'e', 'r', '.', 's', 'e', 'a', 'r', 'c', 'h']
    ||| s =~= seq!['b', 'r', 'o', 'w', 's', 'e', 'r', '.', 'f', 'i', 'n', 'd']
    ||| s =~= seq!['p', 'y', 't', 'h', 'o', 'n']
}

/// Decimal digit characters.
pub open spec fn digit_char(d: int) -> char {
    if d == 0 {
        '0'
    } else if d == 1 {
        '1'
    } else if d == 2 {
        '2'
    } else if d == 3 {
        '3'
    } else if d == 4 {
        '4'
    } else if d == 5 {
        '5'
    } else if d == 6 {
        '6'
    } else if d == 7 {
        '7'
    } else if d == 8 {
        '8'
    } else {
        '9'
    }
}

/// Decimal rendering of a natural number.
pub open spec fn dec_seq(n: nat) -> Seq<char>
    decreases n,
{
    if n < 10 {
        seq![digit_char(n as int)]
    } else {
        dec_seq(n / 10) + seq![digit_char((n % 10) as int)]
    }
}

/// A decimal rendering is never empty.
pub proof fn lemma_dec_seq_len(n: nat)
    ensures
        dec_seq(n).len() >= 1,
    decreases n,
{
    if n >= 10 {
        lemma_dec_seq_len(n / 10);
    }
}

/// Distinct numbers have distinct decimal renderings.
pub proof fn lemma_dec_seq_injective(a: nat, b: nat)
    requires
        dec_seq(a) == dec_seq(b),
    ensures
        a == b,
    decreases a + b,
{
    if a < 10 && b < 10 {
        assert(dec_seq(a) == seq![digit_char(a as int)]);
        assert(dec_seq(b) == seq![digit_char(b as int)]);
        assert(seq![digit_char(a as int)][0] == digit_char(a as int));
        assert(seq![digit_char(b as int)][0] == digit_char(b as int));
        assert(digit_char(a as int) == digit_char(b as int));
    } else if a < 10 && b >= 10 {
        lemma_dec_seq_len(b / 10);
        assert(dec_seq(b).len() >= 2);
    } else if a >= 10 && b < 10 {
        lemma_dec_seq_len(a / 10);
        assert(dec_seq(a).len() >= 2);
    } else {
        assert(dec_seq(a) == dec_seq(a / 10) + seq![digit_char((a % 10) as int)]);
        assert(dec_seq(b) == dec_seq(b / 10) + seq![digit_char((b % 10) as int)]);
        assert(dec_seq(a).last() == digit_char((a % 10) as int));
        assert(dec_seq(b).last() == digit_char((b % 10) as int));
        assert(a % 10 == b % 10);
        assert(dec_seq(a).drop_last() =~= dec_seq(a / 10));
        assert(dec_seq(b).drop_last() =~= dec_seq(b / 10));
        lemma_dec_seq_injective(a / 10, b / 10);
        vstd::arithmetic::div_mod::lemma_fundamental_div_mod(a as int, 10);
        vstd::arithmetic::div_mod::lemma_fundamental_div_mod(b as int, 10);
    }
}

/// The collision candidate `base_k`.
pub open spec fn cand_seq(base: Seq<char>, k: nat) -> Seq<char> {
    base + seq!['_'] + dec_seq(k)
}

/// For a fixed base, distinct counters give distinct candidates.
pub proof fn lemma_cand_injective(base: Seq<char>, k1: nat, k2: nat)
    requires
        cand_seq(base, k1) == cand_seq(base, k2),
    ensures
        k1 == k2,
{
    let c1 = cand_seq(base, k1);
    let c2 = cand_seq(base, k2);
    assert(c1.skip(base.len() as int + 1) =~= dec_seq(k1));
    assert(c2.skip(base.len() as int + 1) =~= dec_seq(k2));
    lemma_dec_seq_injective(k1, k2);
}

/// Decimal rendering, computed.
fn dec_vec(n: u128) -> (r: Vec<char>)
    ensures
        r@ == dec_seq(n as nat),
    decreases n,
{
    let d: u128 = n % 10;
    let c: char = if d == 0 {
        '0'
    } else if d == 1 {
        '1'
    } else if d == 2 {
        '2'
    } else if d == 3 {
        '3'
    } else if d == 4 {
        '4'
    } else if d == 5 {
        '5'
    } else if d == 6 {
        '6'
    } else if d == 7 {
        '7'
    } else if d == 8 {
        '8'
    } else {
        '9'
    };
    if n < 10 {
        let mut r: Vec<char> = Vec::new();
        r.push(c);
        proof {
            assert(r@ =~= dec_seq(n as nat));
        }
        r
    } else {
        let mut r = dec_vec(n / 10);
        r.push(c);
        proof {
            assert(r@ =~= dec_seq(n as nat));
        }
        r
    }
}

/// A harmony name occurs among the recorded pairs.
pub open spec fn harmony_taken(pairs: Seq<(Seq<char>, Seq<char>)>, h: Seq<char>) -> bool {
    exists|i: int| 0 <= i < pairs.len() && pairs[i].1 == h
}

/// The user name recorded for a harmony name, latest registration first.
pub open spec fn lookup_user(pairs: Seq<(Seq<char>, Seq<char>)>, h: Seq<char>) -> Option<
    Seq<char>,
>
    decreases pairs.len(),
{
    if pairs.len() == 0 {
        None
    } else if pairs.last().1 == h {
        Some(pairs.last().0)
    } else {
        lookup_user(pairs.drop_last(), h)
    }
}

/// The harmony name recorded for a user name, latest registration first.
pub open spec fn lookup_harmony(pairs: Seq<(Seq<char>, Seq<char>)>, u: Seq<char>) -> Option<
    Seq<char>,
>
    decreases pairs.len(),
{
    if pairs.len() == 0 {
        None
    } else if pairs.last().0 == u {
        Some(pairs.last().1)
    } else {
        lookup_harmony(pairs.drop_last(), u)
    }
}

/// Bidirectional map between user tool names and Harmony-safe names, kept as
/// the sequence of registrations in order.
#[derive(Debug)]
pub struct FunctionNameMap {
    pairs: Vec<(String, String)>,
}

impl FunctionNameMap {
    /// The registrations this map holds, in order: (user name, harmony name).
    pub closed spec fn view(&self) -> Seq<(Seq<char>, Seq<char>)> {
        self.pairs@.map_values(|p: (String, String)| (p.0@, p.1@))
    }

    /// Create an empty mapping.
    pub fn new() -> (r: FunctionNameMap)
        ensures
            r.view() == Seq::<(Seq<char>, Seq<char>)>::empty(),
    {
        let r = FunctionNameMap { pairs: Vec::new() };
        proof {
            assert(r.view() =~= Seq::<(Seq<char>, Seq<char>)>::empty());
        }
        r
    }

    /// Is this harmony name already recorded?
    fn taken(&self, h: &[char]) -> (r: bool)
        ensures
            r == harmony_taken(self.view(), h@),
    {
        let mut i: usize = 0;
        while i < self.pairs.len()
            invariant
                i <= self.pairs@.len(),
                forall|j: int| 0 <= j < i ==> self.view()[j].1 != h@,
            decreases self.pairs@.len() - i,
        {
            let hv = to_chars(self.pairs[i].1.as_str());
            if chars_eq(hv.as_slice(), h) {
                proof {
                    assert(self.view()[i as int].1 == h@);
                }
                return true;
            }
            i = i + 1;
        }
        proof {
            if harmony_taken(self.view(), h@) {
                let j = choose|j: int| 0 <= j < self.view().len() && self.view()[j].1 == h@;
                assert(false);
            }
        }
        false
    }

    /// Best-effort identifier-safe conversion, as `convert_spec` describes.
    pub fn convert_to_valid_chars(&self, user_function_name: &str) -> (r: String)
        ensures
            r@ == convert_spec(user_function_name@),
    {
        let cs = to_chars(user_function_name);
        let mut out: Vec<char> = Vec::new();
        let mut i: usize = 0;
        proof {
            assert(out@ =~= map_valid(cs@.take(0)));
        }
        while i < cs.len()
            invariant
                i <= cs@.len(),
                out@ == map_valid(cs@.take(i as int)),
            decreases cs@.len() - i,
        {
            let ghost pre = out@;
            let c = cs[i];
            if c == ' ' || c == '-' || c == '.' {
                out.push('_');
            } else {
                let u: u32 = c as u32;
                let alnum: bool = (48 <= u && u <= 57) || (65 <= u && u <= 90) || (97 <= u && u
                    <= 122);
                if c == '_' || c == '$' || alnum || unicode_ident::is_xid_start(c)
                    || unicode_ident::is_xid_continue(c) {
                    out.push(c);
                }
            }
            proof {
                assert(cs@.take(i + 1) =~= cs@.take(i as int) + seq![cs@[i as int]]);
                lemma_map_valid_add(cs@.take(i as int), seq![cs@[i as int]]);
                assert(seq![cs@[i as int]].drop_first() =~= Seq::<char>::empty());
                assert(map_valid(Seq::<char>::empty()) =~= Seq::<char>::empty());
                assert(map_valid(seq![cs@[i as int]]) =~= mapped_char(cs@[i as int]));
                assert(out@ =~= pre + mapped_char(cs@[i as int]));
            }
            i = i + 1;
        }
        proof {
            assert(cs@.take(cs@.len() as int) =~= cs@);
        }
        if out.len() == 0 {
            let un = to_chars("unnamed");
            proof {
                reveal_strlit("unnamed");
                assert(un@ =~= unnamed_seq());
            }
            return to_string_vec(un.as_slice());
        }
        let first: char = out[0];
        let u0: u32 = first as u32;
        if 48 <= u0 && u0 <= 57 {
            let mut with: Vec<char> = Vec::new();
            with.push('_');
            extend_chars(&mut with, out.as_slice());
            proof {
                assert(with@ =~= seq!['_'] + map_valid(cs@));
            }
            return to_string_vec(with.as_slice());
        }
        to_string_vec(out.as_slice())
    }

    /// Smallest free candidate: the sanitized base itself, else `base_2`,
    /// `base_3`, and so on; the result is never a harmony name this map
    /// already holds.
    fn derive_name(&self, user_function_name: &str) -> (r: String)
        ensures
            !harmony_taken(self.view(), r@),
            convert_spec(user_function_name@).is_prefix_of(r@),
            !harmony_taken(self.view(), convert_spec(user_function_name@)) ==> r@ == convert_spec(
                user_function_name@,
            ),
    {
        let base_s = self.convert_to_valid_chars(user_function_name);
        let base = to_chars(base_s.as_str());
        if !self.taken(base.as_slice()) {
            proof {
                assert(base@.is_prefix_of(base@));
            }
            return base_s;
        }
        let n: usize = self.pairs.len();
        proof {
            assert(self.view().len() == n as int);
        }
        let mut count: u128 = 2;
        let ghost mut witness: Map<int, int> = Map::empty();
        let ghost mut tried: Set<int> = Set::empty();
        loop
            invariant_except_break
                2 <= count,
                n == self.view().len(),
                tried.finite(),
                tried.len() == count - 2,
                forall|idx: int| #[trigger]
                    tried.contains(idx) ==> 0 <= idx < n && witness.contains_key(idx) && 2
                        <= witness[idx] < count && self.view()[idx].1 == cand_seq(
                        base@,
                        witness[idx] as nat,
                    ),
            ensures
                !harmony_taken(self.view(), cand_seq(base@, count as nat)),
                base@.is_prefix_of(cand_seq(base@, count as nat)),
            decreases n as int + 2 - count as int,
        {
            proof {
                let full = vstd::set_lib::set_int_range(0, n as int);
                assert(tried.subset_of(full));
                vstd::set_lib::lemma_int_range(0, n as int);
                vstd::set_lib::lemma_len_subset(tried, full);
                assert(count - 2 <= n);
            }
            let mut cand = subrange_vec_full(base.as_slice());
            cand.push('_');
            let digits = dec_vec(count);
            extend_chars(&mut cand, digits.as_slice());
            proof {
                assert(cand@ =~= cand_seq(base@, count as nat));
            }
            if !self.taken(cand.as_slice()) {
                proof {
                    assert(cand_seq(base@, count as nat).take(base@.len() as int) =~= base@);
                }
                break ;
            }
            proof {
                let idx = choose|i: int|
                    0 <= i < self.view().len() && self.view()[i].1 == cand_seq(
                        base@,
                        count as nat,
                    );
                if tried.contains(idx) {
                    lemma_cand_injective(base@, witness[idx] as nat, count as nat);
                    assert(false);
                }
                tried = tried.insert(idx);
                witness = witness.insert(idx, count as int);
                let full = vstd::set_lib::set_int_range(0, n as int);
                assert(tried.subset_of(full));
                vstd::set_lib::lemma_int_range(0, n as int);
                vstd::set_lib::lemma_len_subset(tried, full);
                assert(count - 1 <= n);
            }
            count = count + 1;
        }
        let mut cand = subrange_vec_full(base.as_slice());
        cand.push('_');
        let digits = dec_vec(count);
        extend_chars(&mut cand, digits.as_slice());
        proof {
            assert(cand@ =~= cand_seq(base@, count as nat));
        }
        to_string_vec(cand.as_slice())
    }

    /// Normalize and dedupe a user function name, recording both directions;
    /// built-in names pass through unchanged. The reverse lookup of the
    /// result returns exactly this user name, and a non-built-in result never
    /// reuses a harmony name recorded before.
    pub fn convert_and_add(&mut self, user_function_name: &str) -> (r: String)
        ensures
            final(self).view() == old(self).view().push((user_function_name@, r@)),
            lookup_user(final(self).view(), r@) == Some(user_function_name@),
            is_builtin(user_function_name@) ==> r@ == user_function_name@,
            !is_builtin(user_function_name@) ==> !harmony_taken(old(self).view(), r@)
                && convert_spec(user_function_name@).is_prefix_of(r@) && (!harmony_taken(
                old(self).view(),
                convert_spec(user_function_name@),
            ) ==> r@ == convert_spec(user_function_name@)),
    {
        let harmony: String = if is_builtin_name(user_function_name) {
            String::from_str(user_function_name)
        } else {
            self.derive_name(user_function_name)
        };
        let user_owned = String::from_str(user_function_name);
        let harmony_copy = harmony.clone();
        self.pairs.push((user_owned, harmony_copy));
        proof {
            assert(final(self).view() =~= old(self).view().push((user_function_name@, harmony@)));
            assert(final(self).view().last() == (user_function_name@, harmony@));
        }
        harmony
    }

    /// The user name recorded for a harmony name, or the harmony name itself
    /// when none was recorded.
    pub fn original_from_converted(&self, harmony_function_name: &str) -> (r: String)
        ensures
            r@ == match lookup_user(self.view(), harmony_function_name@) {
                Some(u) => u,
                None => harmony_function_name@,
            },
    {
        let h = to_chars(harmony_function_name);
        let mut i: usize = self.pairs.len();
        proof {
            assert(self.view().take(self.pairs@.len() as int) =~= self.view());
        }
        while i > 0
            invariant
                i <= self.pairs@.len(),
                h@ == harmony_function_name@,
                lookup_user(self.view(), harmony_function_name@) == lookup_user(
                    self.view().take(i as int),
                    harmony_function_name@,
                ),
            decreases i,
        {
            let hv = to_chars(self.pairs[i - 1].1.as_str());
            proof {
                assert(self.view().take(i as int).last() == self.view()[i - 1]);
                assert(self.view().take(i as int).drop_last() =~= self.view().take(i - 1));
            }
            if chars_eq(hv.as_slice(), h.as_slice()) {
                return String::from_str(self.pairs[i - 1].0.as_str());
            }
            i = i - 1;
        }
        proof {
            assert(self.view().take(0) =~= Seq::<(Seq<char>, Seq<char>)>::empty());
        }
        String::from_str(harmony_function_name)
    }

    /// The harmony name recorded for a user name, latest registration first,
    /// if any.
    pub fn converted_for_original(&self, user_function_name: &str) -> (r: Option<String>)
        ensures
            match r {
                Some(h) => lookup_harmony(self.view(), user_function_name@) == Some(h@),
                None => lookup_harmony(self.view(), user_function_name@) is None,
            },
    {
        let u = to_chars(user_function_name);
        let mut i: usize = self.pairs.len();
        proof {
            assert(self.view().take(self.pairs@.len() as int) =~= self.view());
        }
        while i > 0
            invariant
                i <= self.pairs@.len(),
                u@ == user_function_name@,
                lookup_harmony(self.view(), user_function_name@) == lookup_harmony(
                    self.view().take(i as int),
                    user_function_name@,
                ),
            decreases i,
        {
            let uv = to_chars(self.pairs[i - 1].0.as_str());
            proof {
                assert(self.view().take(i as int).last() == self.view()[i - 1]);
                assert(self.view().take(i as int).drop_last() =~= self.view().take(i - 1));
            }
            if chars_eq(uv.as_slice(), u.as_slice()) {
                return Some(String::from_str(self.pairs[i - 1].1.as_str()));
            }
            i = i - 1;
        }
        proof {
            assert(self.view().take(0) =~= Seq::<(Seq<char>, Seq<char>)>::empty());
        }
        None
    }
}

/// Copy a whole slice into a vector.
fn subrange_vec_full(v: &[char]) -> (r: Vec<char>)
    ensures
        r@ == v@,
{
    let r = crate::chars::subrange_vec(v, 0, v.len());
    proof {
        assert(v@.subrange(0, v@.len() as int) =~= v@);
    }
    r
}

/// Is this user name one of the built-in tool names?
fn is_builtin_name(user: &str) -> (r: bool)
    ensures
        r == is_builtin(user@),
{
    let u = to_chars(user);
    let b1 = to_chars("browser.open");
    let b2 = to_chars("browser.search");
    let b3 = to_chars("browser.find");
    let b4 = to_chars("python");
    proof {
        reveal_strlit("browser.open");
        reveal_strlit("browser.search");
        reveal_strlit("browser.find");
        reveal_strlit("python");
        assert(b1@ =~= seq!['b', 'r', 'o', 'w', 's', 'e', 'r', '.', 'o', 'p', 'e', 'n']);
        assert(b2@ =~= seq!['b', 'r', 'o', 'w', 's', 'e', 'r', '.', 's', 'e', 'a', 'r', 'c', 'h']);
        assert(b3@ =~= seq!['b', 'r', 'o', 'w', 's', 'e', 'r', '.', 'f', 'i', 'n', 'd']);
        assert(b4@ =~= seq!['p', 'y', 't', 'h', 'o', 'n']);
    }
    let r = chars_eq(u.as_slice(), b1.as_slice()) || chars_eq(u.as_slice(), b2.as_slice())
        || chars_eq(u.as_slice(), b3.as_slice()) || chars_eq(u.as_slice(), b4.as_slice());
    r
}

/// Law: once a user name has been converted, the reverse lookup of its
/// harmony name returns that user name, as long as no later registration
/// produced the same harmony name. Non-built-in registrations never do, by
/// `convert_and_add`'s contract.
pub proof fn lemma_reverse_lookup_preserved(
    pairs: Seq<(Seq<char>, Seq<char>)>,
    u: Seq<char>,
    h: Seq<char>,
    later: Seq<(Seq<char>, Seq<char>)>,
)
    requires
        forall|i: int| 0 <= i < later.len() ==> #[trigger] later[i].1 != h,
    ensures
        lookup_user(pairs.push((u, h)) + later, h) == Some(u),
    decreases later.len(),
{
    if later.len() == 0 {
        assert(pairs.push((u, h)) + later =~= pairs.push((u, h)));
        assert(lookup_user(pairs.push((u, h)), h) == Some(u));
    } else {
        let all = pairs.push((u, h)) + later;
        assert(all.last() == later.last());
        assert(all.last().1 != h);
        assert(all.drop_last() =~= pairs.push((u, h)) + later.drop_last());
        assert(forall|i: int|
            0 <= i < later.drop_last().len() ==> #[trigger] later.drop_last()[i] == later[i]);
        lemma_reverse_lookup_preserved(pairs, u, h, later.drop_last());
    }
}

/// Law: distinct user names registered in turn receive distinct harmony
/// names, whenever the later one is not built in: its harmony name is fresh
/// while the earlier one's is already recorded.
pub proof fn lemma_distinct_conversions(
    pairs: Seq<(Seq<char>, Seq<char>)>,
    h1: Seq<char>,
    h2: Seq<char>,
)
    requires
        harmony_taken(pairs, h1),
        !harmony_taken(pairs, h2),
    ensures
        h1 != h2,
{
}

} // verus!
