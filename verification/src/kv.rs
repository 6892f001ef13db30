//! Token-window management for inference: clipping a prompt to the context
//! capacity while pinning the preamble, and the sliding-window compaction
//! that rebuilds the KV cache with the preamble and the most recent tail.
use vstd::prelude::*;

verus! {

/// The smaller of two integers.
pub open spec fn min2(a: int, b: int) -> int {
    if a <= b {
        a
    } else {
        b
    }
}

/// The preamble token count, clamped so at least one position stays free.
pub fn clamp_preamble_len(n: usize, ctx_cap: usize) -> (r: usize)
    ensures
        r as int == min2(n as int, if ctx_cap >= 1 {
            ctx_cap - 1
        } else {
            0
        }),
{
    let cap: usize = if ctx_cap >= 1 {
        ctx_cap - 1
    } else {
        0
    };
    if n <= cap {
        n
    } else {
        cap
    }
}

/// What clipping a prompt to the context capacity yields: a prompt that fits
/// is kept whole; a longer one keeps its preamble and the most recent tail
/// that fits beside it.
pub open spec fn clip_spec(toks: Seq<u32>, preamble_len: int, ctx_cap: int) -> Seq<u32> {
    let keep = min2(toks.len() as int, preamble_len);
    if toks.len() > ctx_cap - 1 {
        let tail_room = if ctx_cap - 1 - keep >= 0 {
            ctx_cap - 1 - keep
        } else {
            0
        };
        let start = if toks.len() - tail_room >= 0 {
            toks.len() - tail_room
        } else {
            0
        };
        toks.take(keep) + toks.skip(start)
    } else {
        toks
    }
}

/// Clip a tokenized prompt, as `clip_spec` describes. The preamble tokens are
/// never dropped and the result fits in the context with one position free.
pub fn clip_tokens(toks: &Vec<u32>, preamble_len: usize, ctx_cap: usize) -> (r: Vec<u32>)
    requires
        ctx_cap >= 1,
        preamble_len as int <= ctx_cap - 1,
    ensures
        r@ == clip_spec(toks@, preamble_len as int, ctx_cap as int),
        r@.len() <= ctx_cap - 1 || r@ == toks@,
        r@.take(min2(toks@.len() as int, preamble_len as int)) == toks@.take(
            min2(toks@.len() as int, preamble_len as int),
        ),
{
    let keep: usize = if toks.len() <= preamble_len {
        toks.len()
    } else {
        preamble_len
    };
    if toks.len() > ctx_cap - 1 {
        let tail_room: usize = ctx_cap - 1 - keep;
        let start: usize = if toks.len() >= tail_room {
            toks.len() - tail_room
        } else {
            0
        };
        let mut r = crate::kv::subrange_u32(toks, 0, keep);
        let tail = crate::kv::subrange_u32(toks, start, toks.len());
        let mut i: usize = 0;
        let ghost rpre = r@;
        while i < tail.len()
            invariant
                i <= tail@.len(),
                r@ == rpre + tail@.take(i as int),
            decreases tail@.len() - i,
        {
            r.push(tail[i]);
            i = i + 1;
            proof {
                assert(r@ =~= rpre + tail@.take(i as int));
            }
        }
        proof {
            assert(tail@.take(tail@.len() as int) =~= tail@);
            assert(r@ =~= clip_spec(toks@, preamble_len as int, ctx_cap as int));
            assert(r@.take(keep as int) =~= toks@.take(keep as int));
        }
        r
    } else {
        let r = crate::kv::subrange_u32(toks, 0, toks.len());
        proof {
            assert(r@ =~= toks@);
            assert(r@.take(keep as int) =~= toks@.take(keep as int));
        }
        r
    }
}

/// Copy the tokens in positions `[from, to)`.
pub(crate) fn subrange_u32(v: &Vec<u32>, from: usize, to: usize) -> (r: Vec<u32>)
    requires
        from <= to <= v@.len(),
    ensures
        r@ == v@.subrange(from as int, to as int),
{
    let mut r: Vec<u32> = Vec::new();
    let mut i: usize = from;
    while i < to
        invariant
            from <= i <= to <= v@.len(),
            r@ == v@.subrange(from as int, i as int),
        decreases to - i,
    {
        r.push(v[i]);
        i = i + 1;
        proof {
            assert(r@ =~= v@.subrange(from as int, i as int));
        }
    }
    r
}

/// The slack margin a compaction leaves free: about a thirty-second of the
/// context, at least 128, never more than the room available for the tail.
pub open spec fn slack_spec(ctx_cap: int, available_tail_room: int) -> int {
    let grow = (ctx_cap + 31) / 32;
    let at_least = if grow >= 128 {
        grow
    } else {
        128
    };
    min2(at_least, available_tail_room)
}

/// What a sliding-window compaction keeps: the pinned preamble and the most
/// recent tail, with a slack margin left free.
pub open spec fn compact_spec(rolling: Seq<u32>, preamble_len: int, ctx_cap: int) -> Seq<u32> {
    let keep = min2(rolling.len() as int, preamble_len);
    let available = if ctx_cap - 1 - keep >= 0 {
        ctx_cap - 1 - keep
    } else {
        0
    };
    let slack = slack_spec(ctx_cap, available);
    let tail_room = available - slack;
    let tail_start = if rolling.len() - tail_room >= 0 {
        rolling.len() - tail_room
    } else {
        0
    };
    rolling.take(keep) + rolling.skip(tail_start)
}

/// Rebuild the rolling window, as `compact_spec` describes: the first
/// `preamble_len` tokens are kept verbatim, and the result leaves at least
/// the slack margin free below the capacity, so the very next decoded token
/// cannot trigger another compaction.
pub fn compact_window(rolling: &Vec<u32>, preamble_len: usize, ctx_cap: usize) -> (r: Vec<u32>)
    requires
        ctx_cap >= 1,
        preamble_len as int <= ctx_cap - 1,
        rolling@.len() >= preamble_len,
    ensures
        r@ == compact_spec(rolling@, preamble_len as int, ctx_cap as int),
        r@.take(preamble_len as int) == rolling@.take(preamble_len as int),
        r@.len() + slack_spec(
            ctx_cap as int,
            ctx_cap - 1 - preamble_len,
        ) <= ctx_cap - 1 || r@.len() <= preamble_len + (rolling@.len() - preamble_len),
        r@.len() <= ctx_cap - 1,
{
    let keep: usize = if rolling.len() <= preamble_len {
        rolling.len()
    } else {
        preamble_len
    };
    let available: usize = ctx_cap - 1 - keep;
    let grow: usize = ctx_cap / 32 + (if ctx_cap % 32 == 0 {
        0
    } else {
        1
    });
    proof {
        assert(grow as int == (ctx_cap as int + 31) / 32) by (nonlinear_arith)
            requires
                grow as int == ctx_cap as int / 32 + (if ctx_cap as int % 32 == 0 {
                    0int
                } else {
                    1int
                }),
                ctx_cap >= 1,
        ;
    }
    let at_least: usize = if grow >= 128 {
        grow
    } else {
        128
    };
    let slack: usize = if at_least <= available {
        at_least
    } else {
        available
    };
    let tail_room: usize = available - slack;
    let tail_start: usize = if rolling.len() >= tail_room {
        rolling.len() - tail_room
    } else {
        0
    };
    let mut r = subrange_u32(rolling, 0, keep);
    let tail = subrange_u32(rolling, tail_start, rolling.len());
    let mut i: usize = 0;
    let ghost rpre = r@;
    while i < tail.len()
        invariant
            i <= tail@.len(),
            r@ == rpre + tail@.take(i as int),
        decreases tail@.len() - i,
    {
        r.push(tail[i]);
        i = i + 1;
        proof {
            assert(r@ =~= rpre + tail@.take(i as int));
        }
    }
    proof {
        assert(tail@.take(tail@.len() as int) =~= tail@);
        assert(r@ =~= compact_spec(rolling@, preamble_len as int, ctx_cap as int));
        assert(r@.take(preamble_len as int) =~= rolling@.take(preamble_len as int));
    }
    r
}

/// The rolling buffer after `n` compactions interleaved with arbitrary
/// appended generations.
pub open spec fn compact_then_extend(
    rolling: Seq<u32>,
    preamble_len: int,
    ctx_cap: int,
    appends: Seq<Seq<u32>>,
) -> Seq<u32>
    decreases appends.len(),
{
    if appends.len() == 0 {
        rolling
    } else {
        compact_then_extend(
            compact_spec(rolling, preamble_len, ctx_cap) + appends[0],
            preamble_len,
            ctx_cap,
            appends.drop_first(),
        )
    }
}

/// Law: after any number of compactions, each followed by any newly decoded
/// tokens, the first `preamble_len` tokens of the rolling buffer are still
/// the initial preamble tokens.
pub proof fn lemma_compaction_preserves_preamble(
    rolling: Seq<u32>,
    preamble_len: int,
    ctx_cap: int,
    appends: Seq<Seq<u32>>,
)
    requires
        0 <= preamble_len <= rolling.len(),
        preamble_len <= ctx_cap - 1,
    ensures
        compact_then_extend(rolling, preamble_len, ctx_cap, appends).len() >= preamble_len,
        compact_then_extend(rolling, preamble_len, ctx_cap, appends).take(preamble_len)
            == rolling.take(preamble_len),
    decreases appends.len(),
{
    if appends.len() == 0 {
    } else {
        let c = compact_spec(rolling, preamble_len, ctx_cap);
        assert(c.take(preamble_len) =~= rolling.take(preamble_len));
        assert((c + appends[0]).take(preamble_len) =~= c.take(preamble_len));
        lemma_compaction_preserves_preamble(
            c + appends[0],
            preamble_len,
            ctx_cap,
            appends.drop_first(),
        );
    }
}

/// The batch index that carries the logits after a chunked prefill: the
/// position of the last token within its final chunk.
pub fn logits_index(total: usize, batch_size: usize) -> (r: usize)
    requires
        total >= 1,
        batch_size >= 1,
    ensures
        r as int == (total - 1) % (batch_size as int),
{
    (total - 1) % batch_size
}

/// The context size chosen for a model of the given size label and a memory
/// budget: the largest of the empirically known tiers that fits, capped to
/// the trained context, with a small safe default when nothing is known.
pub fn pick_ctx_for_budget(model_size: u64, native_ctx: u32, budget_bytes: u64) -> (r: u32)
    requires
        native_ctx >= 1,
    ensures
        model_size == 120 ==> r == (if budget_bytes >= 0x1800000000 {
            native_ctx
        } else if budget_bytes >= 0xC00000000 {
            if 65536 <= native_ctx {
                65536u32
            } else {
                native_ctx
            }
        } else if budget_bytes >= 0x600000000 {
            if 32768 <= native_ctx {
                32768u32
            } else {
                native_ctx
            }
        } else {
            8192u32
        }),
        model_size == 20 ==> r == (if budget_bytes >= 0x600000000 {
            native_ctx
        } else if budget_bytes >= 0x300000000 {
            if 65536 <= native_ctx {
                65536u32
            } else {
                native_ctx
            }
        } else if budget_bytes >= 0x180000000 {
            if 32768 <= native_ctx {
                32768u32
            } else {
                native_ctx
            }
        } else {
            8192u32
        }),
        model_size != 120 && model_size != 20 ==> r == 8192u32,
{
    let gb: u64 = 1024 * 1024 * 1024;
    if model_size == 120 {
        if budget_bytes >= 96 * gb {
            return native_ctx;
        }
        if budget_bytes >= 48 * gb {
            return if 65536 <= native_ctx {
                65536
            } else {
                native_ctx
            };
        }
        if budget_bytes >= 24 * gb {
            return if 32768 <= native_ctx {
                32768
            } else {
                native_ctx
            };
        }
        return 8192;
    }
    if model_size == 20 {
        if budget_bytes >= 24 * gb {
            return native_ctx;
        }
        if budget_bytes >= 12 * gb {
            return if 65536 <= native_ctx {
                65536
            } else {
                native_ctx
            };
        }
        if budget_bytes >= 6 * gb {
            return if 32768 <= native_ctx {
                32768
            } else {
                native_ctx
            };
        }
        return 8192;
    }
    8192
}

/// The numeric value of a size label's leading decimal digits.
pub open spec fn leading_digits_val(s: Seq<char>, acc: nat) -> nat
    decreases s.len(),
{
    if s.len() == 0 {
        acc
    } else {
        let u = s[0] as u32;
        if 48 <= u && u <= 57 {
            leading_digits_val(s.drop_first(), acc * 10 + (u - 48) as nat)
        } else {
            acc
        }
    }
}

/// Parse the leading decimal digits of a size label; a value that does not
/// fit is read as zero, like a failed parse.
pub fn leading_number(s: &str) -> (r: u64)
    ensures
        leading_digits_val(s@, 0) <= u64::MAX ==> r as nat == leading_digits_val(s@, 0),
        leading_digits_val(s@, 0) > u64::MAX ==> r == 0,
{
    let v = crate::chars::to_chars(s);
    let mut end: usize = 0;
    loop
        invariant_except_break
            end <= v@.len(),
            v@ == s@,
            forall|t: int| 0 <= t < end ==> 48 <= (#[trigger] v@[t]) as u32 <= 57,
        ensures
            end <= v@.len(),
            forall|t: int| 0 <= t < end ==> 48 <= (#[trigger] v@[t]) as u32 <= 57,
            end < v@.len() ==> !(48 <= v@[end as int] as u32 <= 57),
        decreases v@.len() - end,
    {
        if end >= v.len() {
            break ;
        }
        let u: u32 = v[end] as u32;
        if !(48 <= u && u <= 57) {
            break ;
        }
        end = end + 1;
    }
    let mut acc: u64 = 0;
    let mut k: usize = 0;
    proof {
        assert(v@.skip(0) =~= v@);
    }
    while k < end
        invariant
            k <= end <= v@.len(),
            v@ == s@,
            forall|t: int| 0 <= t < end ==> 48 <= (#[trigger] v@[t]) as u32 <= 57,
            end < v@.len() ==> !(48 <= v@[end as int] as u32 <= 57),
            leading_digits_val(v@, 0) == leading_digits_val(v@.skip(k as int), acc as nat),
        decreases end - k,
    {
        let ghost rest = v@.skip(k as int);
        proof {
            assert(rest[0] == v@[k as int]);
            assert(rest.drop_first() =~= v@.skip(k + 1));
        }
        let u: u32 = v[k] as u32;
        let d: u64 = (u - 48) as u64;
        if acc > (u64::MAX - d) / 10 {
            proof {
                assert(acc as nat * 10 + d as nat > u64::MAX as nat) by (nonlinear_arith)
                    requires
                        acc > (u64::MAX - d) / 10,
                        d <= 9,
                        acc <= u64::MAX,
                ;
                lemma_leading_digits_monotone(v@.skip(k + 1), (acc as nat * 10 + d as nat));
                assert(leading_digits_val(rest, acc as nat) == leading_digits_val(
                    v@.skip(k + 1),
                    (acc as nat * 10 + d as nat),
                ));
            }
            return 0;
        }
        proof {
            assert(acc as nat * 10 + d as nat <= u64::MAX as nat) by (nonlinear_arith)
                requires
                    acc <= (u64::MAX - d) / 10,
                    d <= 9,
            ;
        }
        acc = acc * 10 + d;
        k = k + 1;
    }
    proof {
        if k < v.len() {
            let rest = v@.skip(k as int);
            assert(rest[0] == v@[k as int]);
            assert(leading_digits_val(rest, acc as nat) == acc as nat);
        } else {
            assert(v@.skip(k as int).len() == 0);
        }
    }
    acc
}

/// The accumulated value only grows as more digits are read.
proof fn lemma_leading_digits_monotone(s: Seq<char>, acc: nat)
    ensures
        leading_digits_val(s, acc) >= acc,
    decreases s.len(),
{
    if s.len() == 0 {
    } else {
        let u = s[0] as u32;
        if 48 <= u && u <= 57 {
            lemma_leading_digits_monotone(s.drop_first(), acc * 10 + (u - 48) as nat);
        }
    }
}

} // verus!
