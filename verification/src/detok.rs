//! Incremental detokenizer: token bytes are buffered and only valid UTF-8 is
//! let through; an incomplete sequence waits for more bytes, and whatever is
//! left at end of stream becomes a single replacement character.
use vstd::prelude::*;

use vstd::utf8::{
    decode_utf8, is_continuation_byte, is_leading_byte_width_1, is_leading_byte_width_2,
    is_leading_byte_width_3, is_leading_byte_width_4, length_of_first_scalar, pop_first_scalar,
    valid_first_scalar, valid_utf8,
};

verus! {

/// The rest of the stream begins with a complete, well-formed scalar: the
/// state in which the detokenizer must not hold bytes back.
pub open spec fn starts_with_scalar(rest: Seq<u8>) -> bool {
    rest.len() > 0 && valid_first_scalar(rest)
}

/// A valid byte text followed by one more well-formed scalar is valid.
pub proof fn lemma_valid_utf8_append(a: Seq<u8>, b: Seq<u8>)
    requires
        valid_utf8(a),
        valid_first_scalar(b),
        length_of_first_scalar(b) == b.len(),
    ensures
        valid_utf8(a + b),
    decreases a.len(),
{
    if a.len() == 0 {
        assert(a + b =~= b);
        assert(pop_first_scalar(b) =~= Seq::<u8>::empty());
        assert(valid_utf8(Seq::<u8>::empty()));
        assert(valid_utf8(b));
    } else {
        let ab = a + b;
        assert(ab[0] == a[0]);
        assert(valid_first_scalar(a));
        assert(length_of_first_scalar(a) <= a.len());
        assert(forall|t: int| 0 <= t < a.len() ==> ab[t] == a[t]);
        assert(valid_first_scalar(ab));
        assert(length_of_first_scalar(ab) == length_of_first_scalar(a));
        assert(pop_first_scalar(ab) =~= pop_first_scalar(a) + b);
        lemma_valid_utf8_append(pop_first_scalar(a), b);
    }
}

/// Streamed bytes not yet emitted: the tail that is not yet a complete scalar.
pub struct Detokenizer {
    pending: Vec<u8>,
}

/// Classification of the next scalar in a byte text at a position: complete
/// and valid with its width, or not.
struct ScalarCheck {
    ok: bool,
    width: usize,
}

/// Check the bytes at `pos` for one complete well-formed scalar.
fn check_scalar(v: &[u8], pos: usize) -> (r: ScalarCheck)
    requires
        pos < v@.len(),
    ensures
        r.ok ==> pos + r.width <= v@.len() && valid_first_scalar(v@.skip(pos as int))
            && length_of_first_scalar(v@.skip(pos as int)) == r.width,
        !r.ok ==> !starts_with_scalar(v@.skip(pos as int)),
{
    let ghost rest = v@.skip(pos as int);
    proof {
        assert(rest.len() == v@.len() - pos);
        assert(forall|t: int| 0 <= t < rest.len() ==> rest[t] == v@[pos + t]);
    }
    let n: usize = v.len();
    let b0: u8 = v[pos];
    if b0 <= 0x7f {
        return ScalarCheck { ok: true, width: 1 };
    }
    if 0xc0 <= b0 && b0 <= 0xdf {
        if n - pos < 2 {
            return ScalarCheck { ok: false, width: 0 };
        }
        let b1: u8 = v[pos + 1];
        if !(0x80 <= b1 && b1 <= 0xbf) {
            return ScalarCheck { ok: false, width: 0 };
        }
        let cp: u32 = (((b0 & 0x1F) as u32) << 6) | ((b1 & 0x3f) as u32);
        if cp >= 0x80 {
            proof {
                assert((((b0 & 0x1F) as u32) << 6) | ((b1 & 0x3f) as u32) < 0x800u32)
                    by (bit_vector);
            }
            return ScalarCheck { ok: true, width: 2 };
        }
        return ScalarCheck { ok: false, width: 0 };
    }
    if 0xe0 <= b0 && b0 <= 0xef {
        if n - pos < 3 {
            return ScalarCheck { ok: false, width: 0 };
        }
        let b1: u8 = v[pos + 1];
        let b2: u8 = v[pos + 2];
        if !(0x80 <= b1 && b1 <= 0xbf) || !(0x80 <= b2 && b2 <= 0xbf) {
            return ScalarCheck { ok: false, width: 0 };
        }
        let cp: u32 = (((b0 & 0x0F) as u32) << 12) | (((b1 & 0x3f) as u32) << 6) | ((b2
            & 0x3f) as u32);
        if cp >= 0x800 && !(0xD800 <= cp && cp <= 0xDFFF) {
            return ScalarCheck { ok: true, width: 3 };
        }
        return ScalarCheck { ok: false, width: 0 };
    }
    if 0xf0 <= b0 && b0 <= 0xf7 {
        if n - pos < 4 {
            return ScalarCheck { ok: false, width: 0 };
        }
        let b1: u8 = v[pos + 1];
        let b2: u8 = v[pos + 2];
        let b3: u8 = v[pos + 3];
        if !(0x80 <= b1 && b1 <= 0xbf) || !(0x80 <= b2 && b2 <= 0xbf) || !(0x80 <= b3 && b3
            <= 0xbf) {
            return ScalarCheck { ok: false, width: 0 };
        }
        let cp: u32 = (((b0 & 0x07) as u32) << 18) | (((b1 & 0x3f) as u32) << 12) | (((b2
            & 0x3f) as u32) << 6) | ((b3 & 0x3f) as u32);
        if 0x10000 <= cp && cp <= 0x10ffff {
            return ScalarCheck { ok: true, width: 4 };
        }
        return ScalarCheck { ok: false, width: 0 };
    }
    ScalarCheck { ok: false, width: 0 }
}

impl Detokenizer {
    /// The bytes held back so far.
    pub closed spec fn pending_bytes(&self) -> Seq<u8> {
        self.pending@
    }

    /// A fresh detokenizer with nothing held back.
    pub fn new() -> (r: Detokenizer)
        ensures
            r.pending_bytes() == Seq::<u8>::empty(),
    {
        let r = Detokenizer { pending: Vec::new() };
        proof {
            assert(r.pending_bytes() =~= Seq::<u8>::empty());
        }
        r
    }

    /// Feed token bytes; the returned piece is valid UTF-8, together with the
    /// new tail it is exactly the bytes seen, and the tail never hides a
    /// complete scalar.
    pub fn feed(&mut self, bytes: &[u8]) -> (piece: Vec<u8>)
        ensures
            valid_utf8(piece@),
            piece@ + final(self).pending_bytes() == old(self).pending_bytes() + bytes@,
            !starts_with_scalar(final(self).pending_bytes()),
    {
        let mut total: Vec<u8> = Vec::new();
        let mut i: usize = 0;
        while i < self.pending.len()
            invariant
                i <= self.pending@.len(),
                total@ == self.pending@.take(i as int),
                self.pending@ == old(self).pending_bytes(),
            decreases self.pending@.len() - i,
        {
            total.push(self.pending[i]);
            i = i + 1;
            proof {
                assert(total@ =~= self.pending@.take(i as int));
            }
        }
        let mut j: usize = 0;
        while j < bytes.len()
            invariant
                j <= bytes@.len(),
                total@ == old(self).pending_bytes() + bytes@.take(j as int),
                self.pending@ == old(self).pending_bytes(),
            decreases bytes@.len() - j,
        {
            total.push(bytes[j]);
            j = j + 1;
            proof {
                assert(total@ =~= old(self).pending_bytes() + bytes@.take(j as int));
            }
        }
        proof {
            assert(old(self).pending_bytes().take(old(self).pending_bytes().len() as int)
                =~= old(self).pending_bytes());
            assert(bytes@.take(bytes@.len() as int) =~= bytes@);
            assert(total@ =~= old(self).pending_bytes() + bytes@);
        }
        let n: usize = total.len();
        let mut pos: usize = 0;
        proof {
            assert(total@.take(0) =~= Seq::<u8>::empty());
            assert(valid_utf8(total@.take(0)));
        }
        loop
            invariant_except_break
                pos <= n,
                n == total@.len(),
                valid_utf8(total@.take(pos as int)),
            ensures
                pos <= total@.len(),
                n == total@.len(),
                valid_utf8(total@.take(pos as int)),
                !starts_with_scalar(total@.skip(pos as int)),
            decreases n - pos,
        {
            if pos >= n {
                proof {
                    assert(total@.skip(pos as int).len() == 0);
                }
                break ;
            }
            let check = check_scalar(total.as_slice(), pos);
            if !check.ok {
                break ;
            }
            proof {
                let piece_pre = total@.take(pos as int);
                let scal = total@.subrange(pos as int, pos + check.width);
                let rest = total@.skip(pos as int);
                assert(forall|t: int| 0 <= t < scal.len() ==> scal[t] == rest[t]);
                assert(valid_first_scalar(scal));
                assert(length_of_first_scalar(scal) == scal.len());
                lemma_valid_utf8_append(piece_pre, scal);
                assert(piece_pre + scal =~= total@.take(pos + check.width));
            }
            pos = pos + check.width;
        }
        let piece = crate::detok::subrange_u8(total.as_slice(), 0, pos);
        self.pending = crate::detok::subrange_u8(total.as_slice(), pos, n);
        proof {
            assert(piece@ =~= total@.take(pos as int));
            assert(self.pending@ =~= total@.skip(pos as int));
            assert(piece@ + final(self).pending_bytes() =~= old(self).pending_bytes() + bytes@);
        }
        piece
    }

    /// End of stream: whatever incomplete bytes remain are replaced by one
    /// replacement character.
    pub fn finish(&mut self) -> (r: Option<Vec<u8>>)
        ensures
            final(self).pending_bytes() == Seq::<u8>::empty(),
            old(self).pending_bytes().len() == 0 <==> r is None,
            r matches Some(p) ==> p@ == seq![0xEFu8, 0xBFu8, 0xBDu8] && valid_utf8(p@),
    {
        if self.pending.len() == 0 {
            proof {
                assert(final(self).pending_bytes() =~= Seq::<u8>::empty());
            }
            return None;
        }
        self.pending = Vec::new();
        let mut p: Vec<u8> = Vec::new();
        p.push(0xEF);
        p.push(0xBF);
        p.push(0xBD);
        proof {
            assert(p@ =~= seq![0xEFu8, 0xBFu8, 0xBDu8]);
            assert((((0xEFu8 & 0x0F) as u32) << 12) | (((0xBFu8 & 0x3f) as u32) << 6) | ((0xBDu8
                & 0x3f) as u32) == 0xFFFDu32) by (bit_vector);
            assert(vstd::utf8::codepoint_width_3(0xEFu8, 0xBFu8, 0xBDu8) == 0xFFFDu32);
            assert(valid_first_scalar(p@));
            assert(pop_first_scalar(p@) =~= Seq::<u8>::empty());
            assert(valid_utf8(Seq::<u8>::empty()));
            assert(valid_utf8(p@));
            assert(final(self).pending_bytes() =~= Seq::<u8>::empty());
        }
        Some(p)
    }
}

/// Copy the bytes in positions `[from, to)`.
pub(crate) fn subrange_u8(v: &[u8], from: usize, to: usize) -> (r: Vec<u8>)
    requires
        from <= to <= v@.len(),
    ensures
        r@ == v@.subrange(from as int, to as int),
{
    let mut r: Vec<u8> = Vec::new();
    let mut i: usize = from;
    while i < to
        invariant
            from <= i <= to <= v@.len(),
            r@ == v@.subrange(from as int, i as int),
        decreases to - i,
    {
        r.push(v[i]);
        i = i + 1;
        proof {
            assert(r@ =~= v@.subrange(from as int, i as int));
        }
    }
    r
}

/// Relies on String::from_utf8: bytes that are valid UTF-8 become the string
/// of exactly the scalars they encode.
#[verifier::external_body]
pub fn utf8_to_string(bytes: Vec<u8>) -> (r: String)
    requires
        valid_utf8(bytes@),
    ensures
        r@ == decode_utf8(bytes@),
{
    String::from_utf8(bytes).unwrap_or_default()
}

} // verus!
