//! The chunk-boundary safety law of the streaming parser: feeding a byte
//! stream in any pieces yields the same parse as feeding it whole. Event
//! granularity may differ — content may arrive in more or fewer pieces — so
//! the statement compares traces, where every content event is flattened to
//! its characters.
use vstd::prelude::*;

use crate::chars::{
    first_match, lemma_first_match, lemma_overlap, occurs_at, overlap_spec,
    suffix_matches_prefix,
};
use crate::harmony::{
    call_tag, drain_model, earliest_terminator, end_tag, feed_model, step_model, EventV, HeaderV,
    ParserModel, ParserState,
};

verus! {

/// One flattened element of a parse: a message boundary, a header, or a
/// single content character.
pub enum TraceStepV {
    Start,
    Header(HeaderV),
    Ch(char),
    End,
}

/// One character as a trace item.
pub open spec fn ch_item(c: char) -> TraceStepV {
    TraceStepV::Ch(c)
}

/// The characters of a content piece as trace items.
pub open spec fn content_trace(c: Seq<char>) -> Seq<TraceStepV>
    decreases c.len(),
{
    if c.len() == 0 {
        Seq::empty()
    } else {
        seq![ch_item(c[0])] + content_trace(c.drop_first())
    }
}

/// A character trace is as long as its text, one item per character.
pub proof fn lemma_content_trace_len(c: Seq<char>)
    ensures
        content_trace(c).len() == c.len(),
    decreases c.len(),
{
    if c.len() > 0 {
        lemma_content_trace_len(c.drop_first());
    }
}

/// One unfolding of a non-empty character trace.
pub proof fn lemma_content_trace_unfold(c: Seq<char>)
    requires
        c.len() > 0,
    ensures
        content_trace(c) == seq![ch_item(c[0])] + content_trace(c.drop_first()),
{
}

/// The flattened form of one event.
pub open spec fn item_trace(ev: EventV) -> Seq<TraceStepV> {
    match ev {
        EventV::Start => seq![TraceStepV::Start],
        EventV::Header(h) => seq![TraceStepV::Header(h)],
        EventV::Content(c) => content_trace(c),
        EventV::End => seq![TraceStepV::End],
    }
}

/// The flattened form of an event sequence.
pub open spec fn trace_of(evs: Seq<EventV>) -> Seq<TraceStepV>
    decreases evs.len(),
{
    if evs.len() == 0 {
        Seq::empty()
    } else {
        item_trace(evs[0]) + trace_of(evs.drop_first())
    }
}

/// Traces concatenate.
pub proof fn lemma_trace_add(a: Seq<EventV>, b: Seq<EventV>)
    ensures
        trace_of(a + b) == trace_of(a) + trace_of(b),
    decreases a.len(),
{
    if a.len() == 0 {
        assert(a + b =~= b);
        assert(trace_of(a) + trace_of(b) =~= trace_of(b));
    } else {
        assert((a + b).drop_first() =~= a.drop_first() + b);
        lemma_trace_add(a.drop_first(), b);
        assert(trace_of(a + b) =~= trace_of(a) + trace_of(b));
    }
}

/// The first match, characterized: an occurrence with none earlier is the
/// first match.
pub proof fn lemma_first_match_exact(s: Seq<char>, pat: Seq<char>, i: int)
    requires
        occurs_at(s, pat, i),
        forall|j: int| 0 <= j < i ==> !occurs_at(s, pat, j),
    ensures
        first_match(s, pat) == Some(i),
{
    lemma_first_match(s, pat);
    match first_match(s, pat) {
        Some(k) => {
            if k < i {
                assert(occurs_at(s, pat, k));
                assert(false);
            }
            if i < k {
                assert(!occurs_at(s, pat, i));
                assert(false);
            }
        },
        None => {
            assert(!occurs_at(s, pat, i));
            assert(false);
        },
    }
}

/// A first match within a text stays the first match when more text follows.
pub proof fn lemma_first_match_extend(s: Seq<char>, pat: Seq<char>, b: Seq<char>, i: int)
    requires
        first_match(s, pat) == Some(i),
    ensures
        first_match(s + b, pat) == Some(i),
{
    lemma_first_match(s, pat);
    assert(occurs_at(s, pat, i));
    assert((s + b).subrange(i, i + pat.len() as int) =~= s.subrange(i, i + pat.len() as int));
    assert(occurs_at(s + b, pat, i));
    assert forall|j: int| 0 <= j < i implies !occurs_at(s + b, pat, j) by {
        if occurs_at(s + b, pat, j) {
            assert(j + pat.len() <= i + pat.len() <= s.len());
            assert((s + b).subrange(j, j + pat.len() as int) =~= s.subrange(
                j,
                j + pat.len() as int,
            ));
            assert(occurs_at(s, pat, j));
        }
    }
    lemma_first_match_exact(s + b, pat, i);
}

/// A tag that does not occur in a text occurs in an extension only where it
/// reaches past the old end.
pub proof fn lemma_late_occurrence(s: Seq<char>, pat: Seq<char>, b: Seq<char>, j: int)
    requires
        first_match(s, pat) is None,
        occurs_at(s + b, pat, j),
    ensures
        j + pat.len() > s.len(),
{
    lemma_first_match(s, pat);
    if j + pat.len() <= s.len() {
        assert((s + b).subrange(j, j + pat.len() as int) =~= s.subrange(j, j + pat.len() as int));
        assert(occurs_at(s, pat, j));
        assert(false);
    }
}

/// The terminator found in a buffer stays the terminator when more text
/// follows: a new occurrence of the other tag can only lie further right.
pub proof fn lemma_earliest_extend(acc: Seq<char>, b: Seq<char>, i: int, l: int)
    requires
        earliest_terminator(acc) == Some((i, l)),
    ensures
        earliest_terminator(acc + b) == Some((i, l)),
{
    let fe = first_match(acc, end_tag());
    let fc = first_match(acc, call_tag());
    lemma_first_match(acc, end_tag());
    lemma_first_match(acc, call_tag());
    match (fe, fc) {
        (Some(ie), Some(ic)) => {
            lemma_first_match_extend(acc, end_tag(), b, ie);
            lemma_first_match_extend(acc, call_tag(), b, ic);
        },
        (Some(ie), None) => {
            lemma_first_match_extend(acc, end_tag(), b, ie);
            lemma_first_match(acc + b, call_tag());
            match first_match(acc + b, call_tag()) {
                None => {},
                Some(jc) => {
                    lemma_late_occurrence(acc, call_tag(), b, jc);
                    assert(ie + end_tag().len() <= acc.len());
                    if jc == ie {
                        assert((acc + b).subrange(jc, jc + call_tag().len() as int)
                            == call_tag());
                        assert((acc + b).subrange(jc, jc + call_tag().len() as int)[2] == 'c');
                        assert(acc.subrange(ie, ie + end_tag().len() as int) == end_tag());
                        assert(acc.subrange(ie, ie + end_tag().len() as int)[2] == 'e');
                        assert((acc + b)[jc + 2] == acc[ie + 2]);
                        assert(false);
                    }
                    if jc < ie {
                        assert(jc + call_tag().len() > acc.len());
                        assert(ie + end_tag().len() <= acc.len());
                        assert(jc > acc.len() - 8 && ie <= acc.len() - 7);
                        assert(false);
                    }
                },
            }
        },
        (None, Some(ic)) => {
            lemma_first_match_extend(acc, call_tag(), b, ic);
            lemma_first_match(acc + b, end_tag());
            match first_match(acc + b, end_tag()) {
                None => {},
                Some(je) => {
                    lemma_late_occurrence(acc, end_tag(), b, je);
                    assert(ic + call_tag().len() <= acc.len());
                    if je == ic {
                        assert((acc + b).subrange(je, je + end_tag().len() as int) == end_tag());
                        assert((acc + b).subrange(je, je + end_tag().len() as int)[2] == 'e');
                        assert(acc.subrange(ic, ic + call_tag().len() as int) == call_tag());
                        assert(acc.subrange(ic, ic + call_tag().len() as int)[2] == 'c');
                        assert((acc + b)[je + 2] == acc[ic + 2]);
                        assert(false);
                    }
                    if je < ic {
                        assert(je + end_tag().len() > acc.len());
                        assert(ic + call_tag().len() <= acc.len());
                        assert(je > acc.len() - 7 && ic <= acc.len() - 8);
                        assert(false);
                    }
                },
            }
        },
        (None, None) => {},
    }
}

/// No tag occurrence in the emitted region: in a blocked content buffer with
/// no full terminator, an occurrence of a tag in the extended text never
/// starts before the retained suffix.
pub proof fn lemma_no_occurrence_in_emitted(acc: Seq<char>, b: Seq<char>, tag: Seq<char>, p: int)
    requires
        first_match(acc, tag) is None,
        overlap_spec(acc, tag) <= crate::harmony::retain_len(acc),
        0 <= p < acc.len() - crate::harmony::retain_len(acc),
    ensures
        !occurs_at(acc + b, tag, p),
{
    let k = crate::harmony::retain_len(acc);
    let n = acc.len() as int;
    lemma_first_match(acc, tag);
    lemma_overlap(acc, tag);
    if occurs_at(acc + b, tag, p) {
        if p + tag.len() <= n {
            assert((acc + b).subrange(p, p + tag.len() as int) =~= acc.subrange(
                p,
                p + tag.len() as int,
            ));
            assert(occurs_at(acc, tag, p));
            assert(false);
        } else {
            let q = n - p;
            assert(q < tag.len());
            assert(acc.subrange(n - q, n) =~= (acc + b).subrange(p, p + tag.len() as int).take(q));
            assert((acc + b).subrange(p, p + tag.len() as int).take(q) =~= tag.take(q));
            assert(acc.subrange(n - q, n) == tag.subrange(0, q));
            assert(suffix_matches_prefix(acc, tag, q));
            assert(q > k);
            assert(!suffix_matches_prefix(acc, tag, q));
            assert(false);
        }
    }
}

/// The flattened form of zero-or-one content events is the characters.
pub proof fn lemma_trace_content(c: Seq<char>)
    ensures
        trace_of(crate::harmony::content_events(c)) == content_trace(c),
{
    if c.len() == 0 {
        assert(crate::harmony::content_events(c) =~= Seq::<EventV>::empty());
        assert(trace_of(Seq::<EventV>::empty()) == Seq::<TraceStepV>::empty());
        assert(trace_of(crate::harmony::content_events(c)) =~= content_trace(c));
    } else {
        let evs = crate::harmony::content_events(c);
        assert(evs == seq![EventV::Content(c)]);
        assert(evs[0] == EventV::Content(c));
        assert(evs.drop_first() =~= Seq::<EventV>::empty());
        assert(trace_of(Seq::<EventV>::empty()) == Seq::<TraceStepV>::empty());
        assert(trace_of(evs) == item_trace(EventV::Content(c)) + trace_of(
            Seq::<EventV>::empty(),
        ));
        assert(content_trace(c) + Seq::<TraceStepV>::empty() =~= content_trace(c));
    }
}

/// Character flattening distributes over concatenation.
pub proof fn lemma_map_ch_add(a: Seq<char>, c: Seq<char>)
    ensures
        content_trace(a + c) == content_trace(a) + content_trace(c),
    decreases a.len(),
{
    if a.len() == 0 {
        assert(a + c =~= c);
        assert(content_trace(a) + content_trace(c) =~= content_trace(c));
    } else {
        assert((a + c).drop_first() =~= a.drop_first() + c);
        assert((a + c)[0] == a[0]);
        lemma_map_ch_add(a.drop_first(), c);
        lemma_content_trace_unfold(a + c);
        lemma_content_trace_unfold(a);
        assert(content_trace((a + c).drop_first()) == content_trace(a.drop_first() + c));
        assert(content_trace(a + c) == seq![ch_item(a[0])] + (content_trace(a.drop_first())
            + content_trace(c)));
        assert(seq![ch_item(a[0])] + (content_trace(a.drop_first()) + content_trace(c)) =~= (
        seq![ch_item(a[0])] + content_trace(a.drop_first())) + content_trace(c));
        assert(content_trace(a + c) =~= content_trace(a) + content_trace(c));
    }
}

/// When no occurrence starts in the prefix `e`, the first match in `e + x` is
/// the first match in `x`, shifted.
pub proof fn lemma_first_match_shift(e: Seq<char>, x: Seq<char>, tag: Seq<char>)
    requires
        forall|p: int| 0 <= p < e.len() ==> !occurs_at(e + x, tag, p),
    ensures
        match first_match(x, tag) {
            Some(j) => first_match(e + x, tag) == Some(e.len() + j),
            None => first_match(e + x, tag) is None,
        },
{
    lemma_first_match(x, tag);
    match first_match(x, tag) {
        Some(j) => {
            assert(occurs_at(x, tag, j));
            assert((e + x).subrange(e.len() + j, e.len() + j + tag.len() as int) =~= x.subrange(
                j,
                j + tag.len() as int,
            ));
            assert(occurs_at(e + x, tag, e.len() + j));
            assert forall|p: int| 0 <= p < e.len() + j implies !occurs_at(e + x, tag, p) by {
                if p >= e.len() && occurs_at(e + x, tag, p) {
                    assert((e + x).subrange(p, p + tag.len() as int) =~= x.subrange(
                        p - e.len(),
                        p - e.len() + tag.len() as int,
                    ));
                    assert(occurs_at(x, tag, p - e.len()));
                    assert(false);
                }
            }
            lemma_first_match_exact(e + x, tag, e.len() + j);
        },
        None => {
            lemma_first_match(e + x, tag);
            match first_match(e + x, tag) {
                None => {},
                Some(p) => {
                    assert(occurs_at(e + x, tag, p));
                    assert(p >= e.len());
                    assert((e + x).subrange(p, p + tag.len() as int) =~= x.subrange(
                        p - e.len(),
                        p - e.len() + tag.len() as int,
                    ));
                    assert(occurs_at(x, tag, p - e.len()));
                    assert(false);
                },
            }
        },
    }
}

/// Dropping an emitted prefix that cannot hold a tag suffix leaves the
/// overlap unchanged: the longest tag prefix at the end of the extended text
/// lies within the retained part.
pub proof fn lemma_overlap_emitted(acc: Seq<char>, b: Seq<char>, tag: Seq<char>, kk: int)
    requires
        overlap_spec(acc, tag) <= kk <= acc.len(),
    ensures
        overlap_spec(acc + b, tag) == overlap_spec(acc.skip(acc.len() - kk) + b, tag),
{
    let n = acc.len() as int;
    let total = acc + b;
    let x = acc.skip(n - kk) + b;
    lemma_overlap(acc, tag);
    assert(0 <= n - kk <= n);
    assert(x.len() == kk + b.len());
    assert(total.skip(n - kk).len() == kk + b.len());
    assert forall|i: int| 0 <= i < x.len() implies x[i] == total.skip(n - kk)[i] by {
        if i < kk {
            assert(x[i] == acc[n - kk + i]);
            assert(total.skip(n - kk)[i] == total[n - kk + i]);
            assert(total[n - kk + i] == acc[n - kk + i]);
        } else {
            assert(x[i] == b[i - kk]);
            assert(total.skip(n - kk)[i] == total[n - kk + i]);
            assert(total[n - kk + i] == b[i - kk]);
        }
    }
    assert(x =~= total.skip(n - kk));
    lemma_overlap(acc, tag);
    lemma_overlap(total, tag);
    lemma_overlap(x, tag);
    let k1 = overlap_spec(total, tag);
    let k2 = overlap_spec(x, tag);
    assert(suffix_matches_prefix(total, tag, k1));
    assert(suffix_matches_prefix(x, tag, k2));
    // k1 cannot reach past the retained part
    if k1 > kk + b.len() {
        let qa = k1 - b.len();
        assert(qa <= n);
        assert(qa <= tag.len());
        assert(acc.subrange(n - qa, n) =~= total.subrange(
            total.len() - k1,
            total.len() as int,
        ).take(qa));
        assert(total.subrange(total.len() - k1, total.len() as int).take(qa) =~= tag.subrange(
            0,
            k1,
        ).take(qa));
        assert(tag.subrange(0, k1).take(qa) =~= tag.subrange(0, qa));
        assert(suffix_matches_prefix(acc, tag, qa));
        assert(qa > overlap_spec(acc, tag));
        assert(false);
    }
    // suffixes within the retained part coincide
    assert(total.subrange(total.len() - k1, total.len() as int) =~= x.subrange(
        x.len() - k1,
        x.len() as int,
    ));
    assert(suffix_matches_prefix(x, tag, k1));
    if k1 > k2 {
        assert(!suffix_matches_prefix(x, tag, k1));
        assert(false);
    }
    assert(x.subrange(x.len() - k2, x.len() as int) =~= total.subrange(
        total.len() - k2,
        total.len() as int,
    ));
    assert(suffix_matches_prefix(total, tag, k2));
    if k2 > k1 {
        assert(!suffix_matches_prefix(total, tag, k2));
        assert(false);
    }
}

/// Draining with more text appended equals draining first and then draining
/// the quiescent buffer with the text appended: the retained-suffix rule
/// makes chunk boundaries invisible, up to content granularity.
pub proof fn lemma_drain_extend(m: ParserModel, b: Seq<char>)
    ensures
        ({
            let whole = drain_model(ParserModel { state: m.state, acc: m.acc + b });
            let part = drain_model(m);
            let rest = drain_model(ParserModel { state: part.0.state, acc: part.0.acc + b });
            whole.0 == rest.0 && trace_of(whole.1) == trace_of(part.1) + trace_of(rest.1)
        }),
    decreases m.acc.len(),
{
    let mb = ParserModel { state: m.state, acc: m.acc + b };
    let part = drain_model(m);
    let (m2, evs, cont) = step_model(m);
    match m.state {
        ParserState::LookingForMessageStart => {
            match first_match(m.acc, crate::harmony::start_tag()) {
                Some(i) => {
                    crate::chars::lemma_first_match(m.acc, crate::harmony::start_tag());
                    lemma_first_match_extend(m.acc, crate::harmony::start_tag(), b, i);
                    let tagl = crate::harmony::start_tag().len() as int;
                    assert((m.acc + b).skip(i + tagl) =~= m.acc.skip(i + tagl) + b);
                    assert(step_model(mb) == (
                        ParserModel { state: ParserState::ParsingHeader, acc: m2.acc + b },
                        evs,
                        true,
                    ));
                    lemma_drain_extend(m2, b);
                    lemma_trace_add(evs, drain_model(ParserModel { state: m2.state, acc: m2.acc + b }).1);
                    lemma_trace_add(evs, drain_model(m2).1);
                    assert(trace_of(evs) + trace_of(drain_model(m2).1) + trace_of(
                        drain_model(
                            ParserModel {
                                state: drain_model(m2).0.state,
                                acc: drain_model(m2).0.acc + b,
                            },
                        ).1,
                    ) =~= trace_of(drain_model(mb).1));
                },
                None => {
                    assert(part == (m, Seq::<EventV>::empty()));
                    assert(trace_of(Seq::<EventV>::empty()) == Seq::<TraceStepV>::empty());
                    assert(trace_of(drain_model(mb).1) =~= trace_of(part.1) + trace_of(
                        drain_model(ParserModel { state: part.0.state, acc: part.0.acc + b }).1,
                    ));
                },
            }
        },
        ParserState::ParsingHeader => {
            match first_match(m.acc, crate::harmony::message_tag()) {
                Some(i) => {
                    crate::chars::lemma_first_match(m.acc, crate::harmony::message_tag());
                    lemma_first_match_extend(m.acc, crate::harmony::message_tag(), b, i);
                    let tagl = crate::harmony::message_tag().len() as int;
                    assert((m.acc + b).skip(i + tagl) =~= m.acc.skip(i + tagl) + b);
                    assert((m.acc + b).take(i) =~= m.acc.take(i));
                    assert(step_model(mb) == (
                        ParserModel { state: ParserState::ParsingContent, acc: m2.acc + b },
                        evs,
                        true,
                    ));
                    lemma_drain_extend(m2, b);
                    lemma_trace_add(evs, drain_model(ParserModel { state: m2.state, acc: m2.acc + b }).1);
                    lemma_trace_add(evs, drain_model(m2).1);
                    assert(trace_of(evs) + trace_of(drain_model(m2).1) + trace_of(
                        drain_model(
                            ParserModel {
                                state: drain_model(m2).0.state,
                                acc: drain_model(m2).0.acc + b,
                            },
                        ).1,
                    ) =~= trace_of(drain_model(mb).1));
                },
                None => {
                    assert(part == (m, Seq::<EventV>::empty()));
                    assert(trace_of(Seq::<EventV>::empty()) == Seq::<TraceStepV>::empty());
                    assert(trace_of(drain_model(mb).1) =~= trace_of(part.1) + trace_of(
                        drain_model(ParserModel { state: part.0.state, acc: part.0.acc + b }).1,
                    ));
                },
            }
        },
        ParserState::ParsingContent => {
            crate::chars::lemma_first_match(m.acc, end_tag());
            crate::chars::lemma_first_match(m.acc, call_tag());
            match earliest_terminator(m.acc) {
                Some((i, l)) => {
                    lemma_earliest_extend(m.acc, b, i, l);
                    assert(0 <= i && i + l <= m.acc.len());
                    assert((m.acc + b).skip(i + l) =~= m.acc.skip(i + l) + b);
                    assert((m.acc + b).take(i) =~= m.acc.take(i));
                    assert(step_model(mb) == (
                        ParserModel { state: ParserState::LookingForMessageStart, acc: m2.acc + b },
                        evs,
                        true,
                    ));
                    lemma_drain_extend(m2, b);
                    lemma_trace_add(evs, drain_model(ParserModel { state: m2.state, acc: m2.acc + b }).1);
                    lemma_trace_add(evs, drain_model(m2).1);
                    assert(trace_of(evs) + trace_of(drain_model(m2).1) + trace_of(
                        drain_model(
                            ParserModel {
                                state: drain_model(m2).0.state,
                                acc: drain_model(m2).0.acc + b,
                            },
                        ).1,
                    ) =~= trace_of(drain_model(mb).1));
                },
                None => {
                    lemma_content_blocked(m, b);
                },
            }
        },
    }
}

/// The blocked-content case of `lemma_drain_extend`: the emitted prefix can
/// hold no part of a terminator, so draining the extended buffer emits it
/// first and then behaves exactly like draining the retained suffix with the
/// new text.
#[verifier::rlimit(80)]
proof fn lemma_content_blocked(m: ParserModel, b: Seq<char>)
    requires
        m.state is ParsingContent,
        earliest_terminator(m.acc) is None,
    ensures
        ({
            let whole = drain_model(ParserModel { state: m.state, acc: m.acc + b });
            let part = drain_model(m);
            let rest = drain_model(ParserModel { state: part.0.state, acc: part.0.acc + b });
            whole.0 == rest.0 && trace_of(whole.1) == trace_of(part.1) + trace_of(rest.1)
        }),
{
    let acc = m.acc;
    let n = acc.len() as int;
    let k = crate::harmony::retain_len(acc);
    crate::chars::lemma_first_match(acc, end_tag());
    crate::chars::lemma_first_match(acc, call_tag());
    crate::chars::lemma_overlap(acc, end_tag());
    crate::chars::lemma_overlap(acc, call_tag());
    assert(0 <= k <= n);
    let cut = n - k;
    let e = acc.take(cut);
    let r = acc.skip(cut);
    let x = r + b;
    assert(acc + b =~= e + x);
    let part = drain_model(m);
    assert(part.0 == (ParserModel { state: ParserState::ParsingContent, acc: r }));
    assert(part.1 == crate::harmony::content_events(e));

    // no tag occurrence starts in the emitted prefix
    assert forall|p: int| 0 <= p < e.len() implies !occurs_at(e + x, end_tag(), p) by {
        lemma_no_occurrence_in_emitted(acc, b, end_tag(), p);
        assert(acc + b =~= e + x);
    }
    assert forall|p: int| 0 <= p < e.len() implies !occurs_at(e + x, call_tag(), p) by {
        lemma_no_occurrence_in_emitted(acc, b, call_tag(), p);
        assert(acc + b =~= e + x);
    }
    lemma_first_match_shift(e, x, end_tag());
    lemma_first_match_shift(e, x, call_tag());

    let mbig = ParserModel { state: ParserState::ParsingContent, acc: e + x };
    let msmall = ParserModel { state: ParserState::ParsingContent, acc: x };
    match earliest_terminator(x) {
        Some((j, l)) => {
            assert(earliest_terminator(e + x) == Some((e.len() + j, l)));
            crate::chars::lemma_first_match(x, end_tag());
            crate::chars::lemma_first_match(x, call_tag());
            assert(0 <= j && j + l <= x.len());
            let next = ParserModel {
                state: ParserState::LookingForMessageStart,
                acc: x.skip(j + l),
            };
            assert((e + x).skip(e.len() + j + l) =~= x.skip(j + l));
            assert(step_model(mbig) == (
                next,
                crate::harmony::content_events((e + x).take(e.len() + j)).push(EventV::End),
                true,
            ));
            assert(step_model(msmall) == (
                next,
                crate::harmony::content_events(x.take(j)).push(EventV::End),
                true,
            ));
            let tailevs = drain_model(next).1;
            assert(drain_model(mbig).0 == drain_model(next).0);
            assert(drain_model(msmall).0 == drain_model(next).0);
            assert(drain_model(mbig).1 == crate::harmony::content_events(
                (e + x).take(e.len() + j),
            ).push(EventV::End) + tailevs);
            assert(drain_model(msmall).1 == crate::harmony::content_events(x.take(j)).push(
                EventV::End,
            ) + tailevs);
            assert((e + x).take(e.len() + j) =~= e + x.take(j));
            lemma_split_trace(e, x.take(j), tailevs);
        },
        None => {
            assert(earliest_terminator(e + x) is None);
            let k1 = crate::harmony::retain_len(e + x);
            let k2 = crate::harmony::retain_len(x);
            lemma_overlap_emitted(acc, b, end_tag(), k);
            lemma_overlap_emitted(acc, b, call_tag(), k);
            assert(acc.skip(acc.len() - k) + b =~= x);
            assert(crate::chars::overlap_spec(acc + b, end_tag()) == crate::chars::overlap_spec(
                x,
                end_tag(),
            ));
            assert(crate::chars::overlap_spec(acc + b, call_tag()) == crate::chars::overlap_spec(
                x,
                call_tag(),
            ));
            assert(e + x =~= acc + b);
            assert(k1 == k2);
            crate::chars::lemma_overlap(x, end_tag());
            crate::chars::lemma_overlap(x, call_tag());
            assert(0 <= k2 <= x.len());
            let next = ParserModel {
                state: ParserState::ParsingContent,
                acc: x.skip(x.len() - k2),
            };
            assert((e + x).skip((e + x).len() - k1) =~= x.skip(x.len() - k2));
            assert(step_model(mbig) == (
                next,
                crate::harmony::content_events((e + x).take((e + x).len() - k1)),
                false,
            ));
            assert(step_model(msmall) == (
                next,
                crate::harmony::content_events(x.take(x.len() - k2)),
                false,
            ));
            assert(drain_model(mbig) == (
                next,
                crate::harmony::content_events((e + x).take((e + x).len() - k1)),
            ));
            assert(drain_model(msmall) == (
                next,
                crate::harmony::content_events(x.take(x.len() - k2)),
            ));
            assert((e + x).take((e + x).len() - k1) =~= e + x.take(x.len() - k2));
            lemma_split_trace(e, x.take(x.len() - k2), Seq::<EventV>::empty());
            assert(trace_of(Seq::<EventV>::empty()) == Seq::<TraceStepV>::empty());
            assert(crate::harmony::content_events(e + x.take(x.len() - k2))
                + Seq::<EventV>::empty() =~= crate::harmony::content_events(
                e + x.take(x.len() - k2),
            ));
            assert(trace_of(drain_model(mbig).1) =~= trace_of(crate::harmony::content_events(e))
                + trace_of(drain_model(msmall).1));
        },
    }
}

/// The trace of content `e + c` followed by more events splits at the chunk
/// boundary.
proof fn lemma_split_trace(e: Seq<char>, c: Seq<char>, tail: Seq<EventV>)
    ensures
        trace_of(crate::harmony::content_events(e + c).push(EventV::End) + tail) == trace_of(
            crate::harmony::content_events(e),
        ) + trace_of(crate::harmony::content_events(c).push(EventV::End) + tail),
        trace_of(crate::harmony::content_events(e + c)) == trace_of(
            crate::harmony::content_events(e),
        ) + trace_of(crate::harmony::content_events(c)),
{
    lemma_trace_content(e + c);
    lemma_trace_content(e);
    lemma_trace_content(c);
    lemma_map_ch_add(e, c);
    let endtail = seq![EventV::End] + tail;
    assert(crate::harmony::content_events(e + c).push(EventV::End) + tail
        =~= crate::harmony::content_events(e + c) + endtail);
    assert(crate::harmony::content_events(c).push(EventV::End) + tail
        =~= crate::harmony::content_events(c) + endtail);
    lemma_trace_add(crate::harmony::content_events(e + c), endtail);
    lemma_trace_add(crate::harmony::content_events(c), endtail);
    assert(trace_of(crate::harmony::content_events(e + c) + endtail) =~= trace_of(
        crate::harmony::content_events(e),
    ) + trace_of(crate::harmony::content_events(c) + endtail));
}

/// Law: parser chunk-invariance for one split. Feeding `a` and then `b`
/// leaves the parser in the same state as feeding `a + b` at once, and the
/// traces of the two event streams concatenate to the trace of the whole.
pub proof fn lemma_chunk_invariance(m: ParserModel, a: Seq<char>, b: Seq<char>)
    ensures
        feed_model(feed_model(m, a).0, b).0 == feed_model(m, a + b).0,
        trace_of(feed_model(m, a).1) + trace_of(feed_model(feed_model(m, a).0, b).1) == trace_of(
            feed_model(m, a + b).1,
        ),
{
    let m1 = ParserModel { state: m.state, acc: m.acc + a };
    assert(m.acc + (a + b) =~= m1.acc + b);
    lemma_drain_extend(m1, b);
}

/// A partition of a text into chunks.
pub open spec fn concat_chunks(chunks: Seq<Seq<char>>) -> Seq<char>
    decreases chunks.len(),
{
    if chunks.len() == 0 {
        Seq::empty()
    } else {
        chunks[0] + concat_chunks(chunks.drop_first())
    }
}

/// The state and collected trace after feeding the chunks in order.
pub open spec fn feed_chunks(m: ParserModel, chunks: Seq<Seq<char>>) -> (
    ParserModel,
    Seq<TraceStepV>,
)
    decreases chunks.len(),
{
    if chunks.len() == 0 {
        (m, Seq::empty())
    } else {
        let first = feed_model(m, chunks[0]);
        let rest = feed_chunks(first.0, chunks.drop_first());
        (rest.0, trace_of(first.1) + rest.1)
    }
}

/// Law: parser chunk-invariance. For any byte text and any partition of it
/// into chunks, feeding the chunks in order yields the same final state and
/// the same flattened event trace as feeding the whole text at once.
pub proof fn lemma_chunk_invariance_partition(m: ParserModel, chunks: Seq<Seq<char>>)
    requires
        chunks.len() >= 1,
    ensures
        feed_chunks(m, chunks).0 == feed_model(m, concat_chunks(chunks)).0,
        feed_chunks(m, chunks).1 == trace_of(feed_model(m, concat_chunks(chunks)).1),
    decreases chunks.len(),
{
    let first = feed_model(m, chunks[0]);
    if chunks.len() == 1 {
        assert(chunks.drop_first().len() == 0);
        assert(concat_chunks(chunks.drop_first()) == Seq::<char>::empty());
        assert(chunks[0] + Seq::<char>::empty() =~= chunks[0]);
        assert(feed_chunks(first.0, chunks.drop_first()) == (
            first.0,
            Seq::<TraceStepV>::empty(),
        ));
        assert(feed_chunks(m, chunks).0 == first.0);
        assert(feed_chunks(m, chunks).1 =~= trace_of(first.1));
    } else {
        lemma_chunk_invariance_partition(first.0, chunks.drop_first());
        lemma_chunk_invariance(m, chunks[0], concat_chunks(chunks.drop_first()));
    }
}

/// One well-formed message on the wire: the header text between the start and
/// message tags, the body, and which terminator closes it.
pub struct WireMessageV {
    pub header: Seq<char>,
    pub body: Seq<char>,
    pub call_terminated: bool,
}

/// Well-formedness of a wire message: the header neither contains the message
/// tag nor ends in a prefix of it, and the body contains no terminator.
pub open spec fn wf_wire_message(m: WireMessageV) -> bool {
    &&& forall|p: int| !occurs_at(m.header, crate::harmony::message_tag(), p)
    &&& forall|q: int|
        1 <= q ==> !crate::chars::suffix_matches_prefix(
            m.header,
            crate::harmony::message_tag(),
            q,
        )
    &&& forall|p: int| !occurs_at(m.body, end_tag(), p)
    &&& forall|p: int| !occurs_at(m.body, call_tag(), p)
}

/// The terminator of a wire message.
pub open spec fn wire_terminator(m: WireMessageV) -> Seq<char> {
    if m.call_terminated {
        call_tag()
    } else {
        end_tag()
    }
}

/// The wire text of one message.
pub open spec fn wire_text(m: WireMessageV) -> Seq<char> {
    crate::harmony::start_tag() + m.header + crate::harmony::message_tag() + m.body
        + wire_terminator(m)
}

/// The events one well-formed message parses to.
pub open spec fn wire_events(m: WireMessageV) -> Seq<EventV> {
    seq![
        EventV::Start,
        EventV::Header(crate::harmony::parse_header_spec(m.header)),
    ] + crate::harmony::content_events(m.body) + seq![EventV::End]
}

/// A terminator tag holds its opening angle bracket only at its start.
proof fn lemma_tag_bracket_only_at_start(k: int)
    requires
        1 <= k,
    ensures
        k < end_tag().len() ==> end_tag()[k] != '<',
        k < call_tag().len() ==> call_tag()[k] != '<',
        end_tag()[0] == '<',
        call_tag()[0] == '<',
{
}

/// In `body + term + rest` with a terminator-free body, the earliest
/// terminator is exactly the one appended after the body.
proof fn lemma_terminator_position(m: WireMessageV, rest: Seq<char>)
    requires
        forall|p: int| !occurs_at(m.body, end_tag(), p),
        forall|p: int| !occurs_at(m.body, call_tag(), p),
    ensures
        earliest_terminator(m.body + wire_terminator(m) + rest) == Some(
            (m.body.len() as int, wire_terminator(m).len() as int),
        ),
{
    let body = m.body;
    let blen = body.len() as int;
    let term = wire_terminator(m);
    let s = body + term + rest;
    assert(s.subrange(blen, blen + term.len() as int) =~= term);
    assert(occurs_at(s, term, blen));
    // no occurrence of either tag starts inside the body
    assert forall|p: int| 0 <= p < blen implies !occurs_at(s, end_tag(), p) by {
        if occurs_at(s, end_tag(), p) {
            if p + end_tag().len() <= blen {
                assert(s.subrange(p, p + end_tag().len() as int) =~= body.subrange(
                    p,
                    p + end_tag().len() as int,
                ));
                assert(occurs_at(body, end_tag(), p));
                assert(false);
            } else {
                let q = blen - p;
                assert(1 <= q < end_tag().len());
                assert(s[p + q] == term[0]);
                assert(s.subrange(p, p + end_tag().len() as int)[q] == end_tag()[q]);
                assert(end_tag()[q] == '<');
                lemma_tag_bracket_only_at_start(q);
                assert(false);
            }
        }
    }
    assert forall|p: int| 0 <= p < blen implies !occurs_at(s, call_tag(), p) by {
        if occurs_at(s, call_tag(), p) {
            if p + call_tag().len() <= blen {
                assert(s.subrange(p, p + call_tag().len() as int) =~= body.subrange(
                    p,
                    p + call_tag().len() as int,
                ));
                assert(occurs_at(body, call_tag(), p));
                assert(false);
            } else {
                let q = blen - p;
                assert(1 <= q < call_tag().len());
                assert(s[p + q] == term[0]);
                assert(s.subrange(p, p + call_tag().len() as int)[q] == call_tag()[q]);
                assert(call_tag()[q] == '<');
                lemma_tag_bracket_only_at_start(q);
                assert(false);
            }
        }
    }
    // the two tags differ just past their shared opening, so no tie at blen
    if m.call_terminated {
        lemma_first_match_exact(s, call_tag(), blen);
        crate::chars::lemma_first_match(s, end_tag());
        match first_match(s, end_tag()) {
            None => {},
            Some(j) => {
                assert(occurs_at(s, end_tag(), j));
                assert(j >= blen);
                if j == blen {
                    assert(s.subrange(j, j + end_tag().len() as int)[2] == end_tag()[2]);
                    assert(s[blen + 2] == term[2]);
                    assert(end_tag()[2] == 'e' && call_tag()[2] == 'c');
                    assert(false);
                }
            },
        }
    } else {
        lemma_first_match_exact(s, end_tag(), blen);
        crate::chars::lemma_first_match(s, call_tag());
        match first_match(s, call_tag()) {
            None => {},
            Some(j) => {
                assert(occurs_at(s, call_tag(), j));
                assert(j >= blen);
                if j == blen {
                    assert(s.subrange(j, j + call_tag().len() as int)[2] == call_tag()[2]);
                    assert(s[blen + 2] == term[2]);
                    assert(end_tag()[2] == 'e' && call_tag()[2] == 'c');
                    assert(false);
                }
            },
        }
    }
}

/// Parsing one well-formed message followed by anything: the message's events
/// come out and the parser continues on the rest alone.
#[verifier::rlimit(80)]
pub proof fn lemma_parse_wire_message(m: WireMessageV, rest: Seq<char>)
    requires
        wf_wire_message(m),
    ensures
        ({
            let whole = drain_model(
                ParserModel {
                    state: ParserState::LookingForMessageStart,
                    acc: wire_text(m) + rest,
                },
            );
            let after = drain_model(
                ParserModel { state: ParserState::LookingForMessageStart, acc: rest },
            );
            whole.0 == after.0 && whole.1 == wire_events(m) + after.1
        }),
{
    let st = crate::harmony::start_tag();
    let mt = crate::harmony::message_tag();
    let term = wire_terminator(m);
    let acc0 = wire_text(m) + rest;
    let m0 = ParserModel { state: ParserState::LookingForMessageStart, acc: acc0 };

    // the start tag stands at the very front
    assert(acc0.subrange(0, st.len() as int) =~= st);
    assert(occurs_at(acc0, st, 0));
    lemma_first_match_exact(acc0, st, 0);
    let acc1 = m.header + mt + (m.body + term + rest);
    assert(acc0.skip(0 + st.len() as int) =~= acc1);
    let m1 = ParserModel { state: ParserState::ParsingHeader, acc: acc1 };
    assert(step_model(m0) == (m1, seq![EventV::Start], true));

    // the message tag follows the header
    let hl = m.header.len() as int;
    assert(acc1.subrange(hl, hl + mt.len() as int) =~= mt);
    assert(occurs_at(acc1, mt, hl));
    assert forall|p: int| 0 <= p < hl implies !occurs_at(acc1, mt, p) by {
        if occurs_at(acc1, mt, p) {
            if p + mt.len() <= hl {
                assert(acc1.subrange(p, p + mt.len() as int) =~= m.header.subrange(
                    p,
                    p + mt.len() as int,
                ));
                assert(occurs_at(m.header, mt, p));
                assert(false);
            } else {
                let q = hl - p;
                assert(1 <= q <= m.header.len());
                assert(q <= mt.len());
                assert(m.header.subrange(hl - q, hl) =~= acc1.subrange(
                    p,
                    p + mt.len() as int,
                ).take(q));
                assert(acc1.subrange(p, p + mt.len() as int).take(q) =~= mt.subrange(0, q));
                assert(crate::chars::suffix_matches_prefix(m.header, mt, q));
                assert(false);
            }
        }
    }
    lemma_first_match_exact(acc1, mt, hl);
    let acc2 = m.body + term + rest;
    assert(acc1.skip(hl + mt.len() as int) =~= acc2);
    assert(acc1.take(hl) =~= m.header);
    let m2 = ParserModel { state: ParserState::ParsingContent, acc: acc2 };
    assert(step_model(m1) == (
        m2,
        seq![EventV::Header(crate::harmony::parse_header_spec(m.header))],
        true,
    ));

    // the terminator closes the body
    lemma_terminator_position(m, rest);
    let blen = m.body.len() as int;
    assert(acc2.take(blen) =~= m.body);
    assert(acc2.skip(blen + term.len() as int) =~= rest);
    let m3 = ParserModel { state: ParserState::LookingForMessageStart, acc: rest };
    assert(step_model(m2) == (
        m3,
        crate::harmony::content_events(m.body).push(EventV::End),
        true,
    ));

    let tail = drain_model(m3).1;
    assert(drain_model(m2).1 == crate::harmony::content_events(m.body).push(EventV::End) + tail);
    assert(drain_model(m1).1 == seq![
        EventV::Header(crate::harmony::parse_header_spec(m.header)),
    ] + drain_model(m2).1);
    assert(drain_model(m0).1 == seq![EventV::Start] + drain_model(m1).1);
    assert(drain_model(m0).0 == drain_model(m3).0);
    assert(crate::harmony::content_events(m.body).push(EventV::End)
        =~= crate::harmony::content_events(m.body) + seq![EventV::End]);
    assert(drain_model(m0).1 =~= wire_events(m) + tail);
}

/// The wire text of a message sequence.
pub open spec fn wire_texts(ms: Seq<WireMessageV>) -> Seq<char>
    decreases ms.len(),
{
    if ms.len() == 0 {
        Seq::empty()
    } else {
        wire_text(ms[0]) + wire_texts(ms.drop_first())
    }
}

/// The events a message sequence parses to.
pub open spec fn wire_events_all(ms: Seq<WireMessageV>) -> Seq<EventV>
    decreases ms.len(),
{
    if ms.len() == 0 {
        Seq::empty()
    } else {
        wire_events(ms[0]) + wire_events_all(ms.drop_first())
    }
}

/// Law: parser round-trip on the happy path. A fresh parser fed the wire text
/// of any well-formed message sequence emits, message by message, a start, the
/// parsed header, the body as content, and an end — so the concatenated
/// content equals the concatenated bodies — and ends ready for the next
/// message.
pub proof fn lemma_parser_round_trip(ms: Seq<WireMessageV>)
    requires
        forall|i: int| 0 <= i < ms.len() ==> wf_wire_message(#[trigger] ms[i]),
    ensures
        ({
            let fresh = ParserModel {
                state: ParserState::LookingForMessageStart,
                acc: Seq::empty(),
            };
            let fed = feed_model(fresh, wire_texts(ms));
            fed.0 == fresh && fed.1 == wire_events_all(ms)
        }),
    decreases ms.len(),
{
    let fresh = ParserModel { state: ParserState::LookingForMessageStart, acc: Seq::empty() };
    if ms.len() == 0 {
        assert(Seq::<char>::empty() + wire_texts(ms) =~= Seq::<char>::empty());
        assert(first_match(Seq::<char>::empty(), crate::harmony::start_tag()) is None);
        assert(step_model(fresh) == (fresh, Seq::<EventV>::empty(), false));
        assert(drain_model(fresh) == (fresh, Seq::<EventV>::empty()));
        assert(feed_model(fresh, wire_texts(ms)).1 =~= wire_events_all(ms));
    } else {
        lemma_parser_round_trip(ms.drop_first());
        assert(ms[0] == ms[0]);
        lemma_parse_wire_message(ms[0], wire_texts(ms.drop_first()));
        assert(Seq::<char>::empty() + wire_texts(ms) =~= wire_texts(ms));
        assert(Seq::<char>::empty() + wire_texts(ms.drop_first()) =~= wire_texts(
            ms.drop_first(),
        ));
        assert(wire_texts(ms) == wire_text(ms[0]) + wire_texts(ms.drop_first()));
        assert(feed_model(fresh, wire_texts(ms)).1 =~= wire_events_all(ms));
    }
}

} // verus!
