//! Streaming parser for the Harmony chat wire format: tagged message framing
//! with a role/channel/recipient header, safe against tag splits across
//! arbitrary chunk boundaries.
use vstd::prelude::*;

use crate::chars::{
    chars_eq, count_leading, extend_chars, find_subseq, first_match, is_ws, is_ws_char,
    lemma_count_leading, lemma_first_match, overlap, overlap_spec, skip_ws,
    skip_ws_spec, starts_with, starts_with_spec, subrange_vec, to_chars, to_string_vec, trim,
    trim_spec,
};

verus! {

/// The tag that opens a message.
pub open spec fn start_tag() -> Seq<char> {
    seq!['<', '|', 's', 't', 'a', 'r', 't', '|', '>']
}

/// The tag that separates the header from the message body.
pub open spec fn message_tag() -> Seq<char> {
    seq!['<', '|', 'm', 'e', 's', 's', 'a', 'g', 'e', '|', '>']
}

/// The tag that closes an ordinary message.
pub open spec fn end_tag() -> Seq<char> {
    seq!['<', '|', 'e', 'n', 'd', '|', '>']
}

/// The alternative terminator that closes a tool-call message.
pub open spec fn call_tag() -> Seq<char> {
    seq!['<', '|', 'c', 'a', 'l', 'l', '|', '>']
}

/// The in-header marker that announces the channel name.
pub open spec fn channel_tag() -> Seq<char> {
    seq!['<', '|', 'c', 'h', 'a', 'n', 'n', 'e', 'l', '|', '>']
}

/// The in-header marker that constrains the body format; it is dropped.
pub open spec fn constrain_tag() -> Seq<char> {
    seq!['<', '|', 'c', 'o', 'n', 's', 't', 'r', 'a', 'i', 'n', '|', '>']
}

/// The `to=` prefix that announces a recipient.
pub open spec fn to_marker() -> Seq<char> {
    seq!['t', 'o', '=']
}

/// `start_tag` as a character vector.
pub fn start_tag_vec() -> (r: Vec<char>)
    ensures
        r@ == start_tag(),
{
    let r = to_chars("<|start|>");
    proof {
        reveal_strlit("<|start|>");
        assert(r@ =~= start_tag());
    }
    r
}

/// `message_tag` as a character vector.
pub fn message_tag_vec() -> (r: Vec<char>)
    ensures
        r@ == message_tag(),
{
    let r = to_chars("<|message|>");
    proof {
        reveal_strlit("<|message|>");
        assert(r@ =~= message_tag());
    }
    r
}

/// `end_tag` as a character vector.
pub fn end_tag_vec() -> (r: Vec<char>)
    ensures
        r@ == end_tag(),
{
    let r = to_chars("<|end|>");
    proof {
        reveal_strlit("<|end|>");
        assert(r@ =~= end_tag());
    }
    r
}

/// `call_tag` as a character vector.
pub fn call_tag_vec() -> (r: Vec<char>)
    ensures
        r@ == call_tag(),
{
    let r = to_chars("<|call|>");
    proof {
        reveal_strlit("<|call|>");
        assert(r@ =~= call_tag());
    }
    r
}

/// `channel_tag` as a character vector.
pub fn channel_tag_vec() -> (r: Vec<char>)
    ensures
        r@ == channel_tag(),
{
    let r = to_chars("<|channel|>");
    proof {
        reveal_strlit("<|channel|>");
        assert(r@ =~= channel_tag());
    }
    r
}

/// `constrain_tag` as a character vector.
pub fn constrain_tag_vec() -> (r: Vec<char>)
    ensures
        r@ == constrain_tag(),
{
    let r = to_chars("<|constrain|>");
    proof {
        reveal_strlit("<|constrain|>");
        assert(r@ =~= constrain_tag());
    }
    r
}

/// Who is speaking, through which channel, to whom. A non-empty recipient
/// marks a tool call.
#[derive(Debug)]
pub struct HarmonyHeader {
    pub role: String,
    pub channel: String,
    pub recipient: String,
}

/// Mathematical view of a header: three character sequences.
pub struct HeaderV {
    pub role: Seq<char>,
    pub channel: Seq<char>,
    pub recipient: Seq<char>,
}

impl View for HarmonyHeader {
    type V = HeaderV;

    open spec fn view(&self) -> HeaderV {
        HeaderV { role: self.role@, channel: self.channel@, recipient: self.recipient@ }
    }
}

impl Clone for HarmonyHeader {
    fn clone(&self) -> (r: Self)
        ensures
            r@ == self@,
    {
        HarmonyHeader {
            role: self.role.clone(),
            channel: self.channel.clone(),
            recipient: self.recipient.clone(),
        }
    }
}

impl PartialEq for HarmonyHeader {
    fn eq(&self, other: &Self) -> (r: bool) {
        self.role == other.role && self.channel == other.channel && self.recipient
            == other.recipient
    }
}

impl Eq for HarmonyHeader {

}

impl vstd::std_specs::cmp::PartialEqSpecImpl for HarmonyHeader {
    open spec fn obeys_eq_spec() -> bool {
        true
    }

    open spec fn eq_spec(&self, other: &Self) -> bool {
        self@ == other@
    }
}

/// First-step rewrite of a raw header: a space is inserted before the first
/// `<|constrain|>` marker and the result is trimmed; without the marker the
/// text is left alone.
pub open spec fn constrain_step(s: Seq<char>) -> Seq<char> {
    match first_match(s, constrain_tag()) {
        Some(i) => trim_spec(s.take(i) + seq![' '] + s.skip(i)),
        None => s,
    }
}

/// Channel extraction: the text after the first `<|channel|>` marker up to the
/// first whitespace is the channel; the rest of the header is re-joined and
/// trimmed.
pub open spec fn channel_split(s: Seq<char>) -> (Seq<char>, Seq<char>) {
    match first_match(s, channel_tag()) {
        Some(i) => {
            let after = s.skip(i + channel_tag().len());
            let e = count_leading(after, |c: char| !is_ws_char(c));
            (after.take(e), trim_spec(s.take(i) + after.skip(e)))
        },
        None => (Seq::empty(), s),
    }
}

/// First whitespace-separated token of `s`.
pub open spec fn first_token_spec(s: Seq<char>) -> Seq<char> {
    skip_ws_spec(s).take(count_leading(skip_ws_spec(s), |c: char| !is_ws_char(c)))
}

/// What remains after the first whitespace-separated token of `s`.
pub open spec fn rest_after_token_spec(s: Seq<char>) -> Seq<char> {
    skip_ws_spec(s).skip(count_leading(skip_ws_spec(s), |c: char| !is_ws_char(c)))
}

/// The parsed form of the text between a start tag and a message tag: the
/// channel is taken from the `<|channel|>` marker, the role from the first
/// remaining token, and the recipient from a `to=` token; a leading `to=`
/// token makes the role default to `tool`.
pub open spec fn parse_header_spec(raw: Seq<char>) -> HeaderV {
    let s1 = constrain_step(raw);
    let (channel, s2) = channel_split(s1);
    let t1 = first_token_spec(s2);
    if t1.len() == 0 {
        HeaderV { role: Seq::empty(), channel, recipient: Seq::empty() }
    } else if starts_with_spec(t1, to_marker()) {
        HeaderV { role: seq!['t', 'o', 'o', 'l'], channel, recipient: t1.skip(3) }
    } else {
        let t2 = first_token_spec(rest_after_token_spec(s2));
        HeaderV {
            role: t1,
            channel,
            recipient: if starts_with_spec(t2, to_marker()) {
                t2.skip(3)
            } else {
                Seq::empty()
            },
        }
    }
}

/// Leading run of non-whitespace characters, computed.
fn leading_nonws_len(v: &[char]) -> (r: usize)
    ensures
        r as int == count_leading(v@, |c: char| !is_ws_char(c)),
        r <= v@.len(),
{
    let ghost p = |c: char| !is_ws_char(c);
    let mut i: usize = 0;
    while i < v.len() && !is_ws(v[i])
        invariant
            i <= v@.len(),
            p == (|c: char| !is_ws_char(c)),
            forall|t: int| 0 <= t < i ==> p(v@[t]),
        decreases v@.len() - i,
    {
        i = i + 1;
    }
    proof {
        lemma_count_leading(v@, p);
        let cl = count_leading(v@, p);
        if i < cl {
            assert(p(v@[i as int]));
            assert(false);
        }
        if cl < i {
            assert(p(v@[cl]));
            assert(false);
        }
    }
    i
}

/// First whitespace-separated token of `v` and what follows it.
pub fn split_first_token(v: &[char]) -> (r: (Vec<char>, Vec<char>))
    ensures
        r.0@ == first_token_spec(v@),
        r.1@ == rest_after_token_spec(v@),
{
    let sw = skip_ws(v);
    let e: usize = leading_nonws_len(sw.as_slice());
    let tok = subrange_vec(sw.as_slice(), 0, e);
    let rest = subrange_vec(sw.as_slice(), e, sw.len());
    (tok, rest)
}


/// Parse role, channel and recipient out of a raw header text, as
/// `parse_header_spec` describes.
pub(crate) fn parse_header_chars(raw: &[char]) -> (r: HarmonyHeader)
    ensures
        r@ == parse_header_spec(raw@),
{
    let constrain = constrain_tag_vec();
    let chan = channel_tag_vec();

    // Insert a space before the first `<|constrain|>`, then trim.
    let s1: Vec<char> = match find_subseq(raw, constrain.as_slice()) {
        Some(i) => {
            proof {
                lemma_first_match(raw@, constrain_tag());
            }
            let mut joined = subrange_vec(raw, 0, i);
            joined.push(' ');
            extend_chars(&mut joined, subrange_vec(raw, i, raw.len()).as_slice());
            proof {
                assert(joined@ =~= raw@.take(i as int) + seq![' '] + raw@.skip(i as int));
            }
            trim(joined.as_slice())
        },
        None => subrange_vec(raw, 0, raw.len()),
    };
    proof {
        assert(raw@.subrange(0, raw@.len() as int) =~= raw@);
        assert(s1@ == constrain_step(raw@));
    }

    // Split out the channel name.
    let (channel, s2): (Vec<char>, Vec<char>) = match find_subseq(s1.as_slice(), chan.as_slice()) {
        Some(i) => {
            proof {
                lemma_first_match(s1@, channel_tag());
            }
            let s1n: usize = s1.len();
            let after = subrange_vec(s1.as_slice(), i + chan.len(), s1n);
            let e: usize = leading_nonws_len(after.as_slice());
            let channel = subrange_vec(after.as_slice(), 0, e);
            let mut joined = subrange_vec(s1.as_slice(), 0, i);
            extend_chars(&mut joined, subrange_vec(after.as_slice(), e, after.len()).as_slice());
            proof {
                assert(after@ =~= s1@.skip(i + channel_tag().len()));
                assert(channel@ =~= s1@.skip(i + channel_tag().len()).take(
                    count_leading(s1@.skip(i + channel_tag().len()), |c: char| !is_ws_char(c)),
                ));
                assert(joined@ =~= s1@.take(i as int) + s1@.skip(i + channel_tag().len()).skip(
                    count_leading(s1@.skip(i + channel_tag().len()), |c: char| !is_ws_char(c)),
                ));
            }
            (channel, trim(joined.as_slice()))
        },
        None => (Vec::new(), s1),
    };
    proof {
        assert(channel@ =~= channel_split(constrain_step(raw@)).0);
        assert(s2@ == channel_split(constrain_step(raw@)).1);
    }

    // Role and recipient from the remaining tokens.
    let to_m = to_chars("to=");
    proof {
        reveal_strlit("to=");
        assert(to_m@ =~= to_marker());
    }
    let (t1, rest) = split_first_token(s2.as_slice());
    let channel_str = to_string_vec(channel.as_slice());
    if t1.len() == 0 {
        proof {
            assert(t1@.len() == 0);
        }
        return HarmonyHeader {
            role: String::new(),
            channel: channel_str,
            recipient: String::new(),
        };
    }
    if starts_with(t1.as_slice(), to_m.as_slice()) {
        let recipient = subrange_vec(t1.as_slice(), 3, t1.len());
        let role = to_chars("tool");
        proof {
            reveal_strlit("tool");
            assert(role@ =~= seq!['t', 'o', 'o', 'l']);
        }
        return HarmonyHeader {
            role: to_string_vec(role.as_slice()),
            channel: channel_str,
            recipient: to_string_vec(recipient.as_slice()),
        };
    }
    let (t2, _rest2) = split_first_token(rest.as_slice());
    let recipient: Vec<char> = if starts_with(t2.as_slice(), to_m.as_slice()) {
        subrange_vec(t2.as_slice(), 3, t2.len())
    } else {
        Vec::new()
    };
    HarmonyHeader {
        role: to_string_vec(t1.as_slice()),
        channel: channel_str,
        recipient: to_string_vec(recipient.as_slice()),
    }
}

/// Streamed parser events; consumers build routing and display state from
/// these.
#[derive(Debug)]
pub enum HarmonyEvent {
    MessageStart,
    HeaderComplete { header: HarmonyHeader },
    ContentEmitted { content: String },
    MessageEnd,
}

/// Mathematical view of a parser event.
pub enum EventV {
    Start,
    Header(HeaderV),
    Content(Seq<char>),
    End,
}

impl View for HarmonyEvent {
    type V = EventV;

    open spec fn view(&self) -> EventV {
        match self {
            HarmonyEvent::MessageStart => EventV::Start,
            HarmonyEvent::HeaderComplete { header } => EventV::Header(header@),
            HarmonyEvent::ContentEmitted { content } => EventV::Content(content@),
            HarmonyEvent::MessageEnd => EventV::End,
        }
    }
}

impl Clone for HarmonyEvent {
    fn clone(&self) -> (r: Self)
        ensures
            r@ == self@,
    {
        match self {
            HarmonyEvent::MessageStart => HarmonyEvent::MessageStart,
            HarmonyEvent::HeaderComplete { header } => HarmonyEvent::HeaderComplete {
                header: header.clone(),
            },
            HarmonyEvent::ContentEmitted { content } => HarmonyEvent::ContentEmitted {
                content: content.clone(),
            },
            HarmonyEvent::MessageEnd => HarmonyEvent::MessageEnd,
        }
    }
}

impl PartialEq for HarmonyEvent {
    fn eq(&self, other: &Self) -> (r: bool) {
        match self {
            HarmonyEvent::MessageStart => match other {
                HarmonyEvent::MessageStart => true,
                _ => false,
            },
            HarmonyEvent::HeaderComplete { header: a } => match other {
                HarmonyEvent::HeaderComplete { header: b } => a.role == b.role && a.channel
                    == b.channel && a.recipient == b.recipient,
                _ => false,
            },
            HarmonyEvent::ContentEmitted { content: a } => match other {
                HarmonyEvent::ContentEmitted { content: b } => *a == *b,
                _ => false,
            },
            HarmonyEvent::MessageEnd => match other {
                HarmonyEvent::MessageEnd => true,
                _ => false,
            },
        }
    }
}

impl Eq for HarmonyEvent {

}

impl vstd::std_specs::cmp::PartialEqSpecImpl for HarmonyEvent {
    open spec fn obeys_eq_spec() -> bool {
        true
    }

    open spec fn eq_spec(&self, other: &Self) -> bool {
        self@ == other@
    }
}

/// The views of a vector of events, in order.
pub open spec fn events_view(s: Seq<HarmonyEvent>) -> Seq<EventV> {
    s.map_values(|e: HarmonyEvent| e@)
}

/// Internal parser phases; a single message lifecycle.
#[derive(Clone, Copy, PartialEq, Eq, Structural, Debug)]
pub enum ParserState {
    LookingForMessageStart,
    ParsingHeader,
    ParsingContent,
}

/// Mathematical state of the parser: the phase and the unconsumed text.
pub struct ParserModel {
    pub state: ParserState,
    pub acc: Seq<char>,
}

/// Zero or one content event: empty content is never emitted.
pub open spec fn content_events(c: Seq<char>) -> Seq<EventV> {
    if c.len() == 0 {
        Seq::empty()
    } else {
        seq![EventV::Content(c)]
    }
}

/// Position and length of the earliest message terminator (`<|end|>` or
/// `<|call|>`) in `acc`, if one is complete.
pub open spec fn earliest_terminator(acc: Seq<char>) -> Option<(int, int)> {
    match (first_match(acc, end_tag()), first_match(acc, call_tag())) {
        (Some(i), Some(j)) => if i <= j {
            Some((i, end_tag().len() as int))
        } else {
            Some((j, call_tag().len() as int))
        },
        (Some(i), None) => Some((i, end_tag().len() as int)),
        (None, Some(j)) => Some((j, call_tag().len() as int)),
        (None, None) => None,
    }
}

/// The larger of two integers.
pub open spec fn max2(a: int, b: int) -> int {
    if a >= b {
        a
    } else {
        b
    }
}

/// The suffix the parser must retain while waiting for more content: the
/// longest suffix of `acc` that is a prefix of either terminator.
pub open spec fn retain_len(acc: Seq<char>) -> int {
    max2(overlap_spec(acc, end_tag()), overlap_spec(acc, call_tag()))
}

/// One step of the parser: consume at most one tag from the front of the
/// buffered text, emitting the corresponding events. The boolean says whether
/// another step may make progress.
pub open spec fn step_model(m: ParserModel) -> (ParserModel, Seq<EventV>, bool) {
    match m.state {
        ParserState::LookingForMessageStart => match first_match(m.acc, start_tag()) {
            Some(i) => (
                ParserModel {
                    state: ParserState::ParsingHeader,
                    acc: m.acc.skip(i + start_tag().len()),
                },
                seq![EventV::Start],
                true,
            ),
            None => (m, Seq::empty(), false),
        },
        ParserState::ParsingHeader => match first_match(m.acc, message_tag()) {
            Some(i) => (
                ParserModel {
                    state: ParserState::ParsingContent,
                    acc: m.acc.skip(i + message_tag().len()),
                },
                seq![EventV::Header(parse_header_spec(m.acc.take(i)))],
                true,
            ),
            None => (m, Seq::empty(), false),
        },
        ParserState::ParsingContent => match earliest_terminator(m.acc) {
            Some((i, l)) => (
                ParserModel { state: ParserState::LookingForMessageStart, acc: m.acc.skip(i + l) },
                content_events(m.acc.take(i)).push(EventV::End),
                true,
            ),
            None => {
                let cut = m.acc.len() - retain_len(m.acc);
                (
                    ParserModel { state: ParserState::ParsingContent, acc: m.acc.skip(cut) },
                    content_events(m.acc.take(cut)),
                    false,
                )
            },
        },
    }
}

/// Run `step_model` until it stops making progress, collecting the events.
pub open spec fn drain_model(m: ParserModel) -> (ParserModel, Seq<EventV>)
    decreases m.acc.len() via drain_model_decreases
{
    let (m2, evs, cont) = step_model(m);
    if cont {
        let (m3, evs2) = drain_model(m2);
        (m3, evs + evs2)
    } else {
        (m2, evs)
    }
}

#[via_fn]
proof fn drain_model_decreases(m: ParserModel) {
    match m.state {
        ParserState::LookingForMessageStart => {
            lemma_first_match(m.acc, start_tag());
        },
        ParserState::ParsingHeader => {
            lemma_first_match(m.acc, message_tag());
        },
        ParserState::ParsingContent => {
            lemma_first_match(m.acc, end_tag());
            lemma_first_match(m.acc, call_tag());
        },
    }
}

/// Feeding a chunk: append it to the buffered text, then drain.
pub open spec fn feed_model(m: ParserModel, s: Seq<char>) -> (ParserModel, Seq<EventV>) {
    drain_model(ParserModel { state: m.state, acc: m.acc + s })
}

/// Snapshot of the prior assistant turn, used to prefill a resumed stream.
#[derive(Debug, Clone)]
pub struct LastMessage {
    pub role: String,
    pub content: String,
    pub thinking: String,
}

/// Mathematical view of a `LastMessage`.
pub struct LastMessageV {
    pub role: Seq<char>,
    pub content: Seq<char>,
    pub thinking: Seq<char>,
}

impl View for LastMessage {
    type V = LastMessageV;

    open spec fn view(&self) -> LastMessageV {
        LastMessageV { role: self.role@, content: self.content@, thinking: self.thinking@ }
    }
}

/// The word `assistant`.
pub open spec fn assistant_seq() -> Seq<char> {
    seq!['a', 's', 's', 'i', 's', 't', 'a', 'n', 't']
}

/// The synthetic text prepended when upstream omits the start tag.
pub open spec fn implicit_start_seq() -> Seq<char> {
    start_tag() + assistant_seq()
}

/// The channel name `final`.
pub open spec fn final_seq() -> Seq<char> {
    seq!['f', 'i', 'n', 'a', 'l']
}

/// The channel name `analysis`.
pub open spec fn analysis_seq() -> Seq<char> {
    seq!['a', 'n', 'a', 'l', 'y', 's', 'i', 's']
}

/// What `add_implicit_start_or_prefill` prepends: a full assistant header
/// cueing the right channel when the last assistant message was cut short,
/// else only the implicit start.
pub open spec fn prefill_seq(last: Option<LastMessageV>) -> Seq<char> {
    match last {
        Some(lm) => if lm.role == assistant_seq() {
            if lm.content.len() > 0 {
                implicit_start_seq() + channel_tag() + final_seq() + message_tag()
            } else if lm.thinking.len() > 0 {
                implicit_start_seq() + channel_tag() + analysis_seq() + message_tag()
            } else {
                implicit_start_seq()
            }
        } else {
            implicit_start_seq()
        },
        None => implicit_start_seq(),
    }
}

/// Streaming Harmony tag parser: feed text, get events.
#[derive(Debug)]
pub struct HarmonyParser {
    state: ParserState,
    acc: Vec<char>,
}

impl HarmonyParser {
    /// The phase and buffered text this parser is at.
    pub closed spec fn model(&self) -> ParserModel {
        ParserModel { state: self.state, acc: self.acc@ }
    }

    /// A fresh parser, waiting for a start tag.
    pub fn new() -> (r: HarmonyParser)
        ensures
            r.model() == (ParserModel {
                state: ParserState::LookingForMessageStart,
                acc: Seq::<char>::empty(),
            }),
    {
        let r = HarmonyParser { state: ParserState::LookingForMessageStart, acc: Vec::new() };
        proof {
            assert(r.model().acc =~= Seq::<char>::empty());
        }
        r
    }

    /// Insert a synthetic `<|start|>assistant` when upstream omits it.
    pub fn add_implicit_start(&mut self)
        ensures
            final(self).model() == (ParserModel {
                state: old(self).model().state,
                acc: old(self).model().acc + implicit_start_seq(),
            }),
    {
        let cs = to_chars("<|start|>assistant");
        proof {
            reveal_strlit("<|start|>assistant");
            assert(cs@ =~= implicit_start_seq());
        }
        extend_chars(&mut self.acc, cs.as_slice());
    }

    /// Start a message, or prefill a channel header to resume a partial
    /// assistant turn, as `prefill_seq` describes.
    pub fn add_implicit_start_or_prefill(&mut self, last_message: Option<&LastMessage>)
        ensures
            final(self).model() == (ParserModel {
                state: old(self).model().state,
                acc: old(self).model().acc + prefill_seq(
                    match last_message {
                        Some(m) => Some(m@),
                        None => None,
                    },
                ),
            }),
    {
        let assistant = to_chars("assistant");
        proof {
            reveal_strlit("assistant");
            assert(assistant@ =~= assistant_seq());
        }
        if let Some(m) = last_message {
            let role = to_chars(m.role.as_str());
            if chars_eq(role.as_slice(), assistant.as_slice()) {
                if m.content.unicode_len() > 0 {
                    let cs = to_chars("<|start|>assistant<|channel|>final<|message|>");
                    proof {
                        reveal_strlit("<|start|>assistant<|channel|>final<|message|>");
                        assert(cs@ =~= implicit_start_seq() + channel_tag() + final_seq()
                            + message_tag());
                    }
                    extend_chars(&mut self.acc, cs.as_slice());
                    return ;
                }
                if m.thinking.unicode_len() > 0 {
                    let cs = to_chars("<|start|>assistant<|channel|>analysis<|message|>");
                    proof {
                        reveal_strlit("<|start|>assistant<|channel|>analysis<|message|>");
                        assert(cs@ =~= implicit_start_seq() + channel_tag() + analysis_seq()
                            + message_tag());
                    }
                    extend_chars(&mut self.acc, cs.as_slice());
                    return ;
                }
            }
        }
        self.add_implicit_start();
    }

    /// Parse role, channel and recipient out of a raw header text.
    pub fn parse_header(raw_in: &str) -> (r: HarmonyHeader)
        ensures
            r@ == parse_header_spec(raw_in@),
    {
        let cs = to_chars(raw_in);
        parse_header_chars(cs.as_slice())
    }


    /// One executable step of the state machine, mirroring `step_model`.
    fn step_exec(&mut self) -> (r: (Vec<HarmonyEvent>, bool))
        ensures
            step_model(old(self).model()).0 == final(self).model(),
            step_model(old(self).model()).1 == events_view(r.0@),
            step_model(old(self).model()).2 == r.1,
    {
        let ghost cur = self.model();
        let mut events: Vec<HarmonyEvent> = Vec::new();
        proof {
            assert(events_view(events@) =~= Seq::<EventV>::empty());
        }
        match self.state {
            ParserState::LookingForMessageStart => {
                let start_v = start_tag_vec();
                match find_subseq(self.acc.as_slice(), start_v.as_slice()) {
                    Some(i) => {
                        proof {
                            lemma_first_match(cur.acc, start_tag());
                        }
                        let accn = self.acc.len();
                        self.acc = subrange_vec(self.acc.as_slice(), i + start_v.len(), accn);
                        self.state = ParserState::ParsingHeader;
                        events.push(HarmonyEvent::MessageStart);
                        proof {
                            assert(events_view(events@) =~= seq![EventV::Start]);
                        }
                        (events, true)
                    },
                    None => (events, false),
                }
            },
            ParserState::ParsingHeader => {
                let msg_v = message_tag_vec();
                match find_subseq(self.acc.as_slice(), msg_v.as_slice()) {
                    Some(i) => {
                        proof {
                            lemma_first_match(cur.acc, message_tag());
                        }
                        let raw = subrange_vec(self.acc.as_slice(), 0, i);
                        let header = parse_header_chars(raw.as_slice());
                        let accn = self.acc.len();
                        self.acc = subrange_vec(self.acc.as_slice(), i + msg_v.len(), accn);
                        self.state = ParserState::ParsingContent;
                        events.push(HarmonyEvent::HeaderComplete { header });
                        proof {
                            assert(events_view(events@) =~= seq![
                                EventV::Header(parse_header_spec(cur.acc.take(i as int))),
                            ]);
                        }
                        (events, true)
                    },
                    None => (events, false),
                }
            },
            ParserState::ParsingContent => {
                let end_v = end_tag_vec();
                let call_v = call_tag_vec();
                let eo = find_subseq(self.acc.as_slice(), end_v.as_slice());
                let co = find_subseq(self.acc.as_slice(), call_v.as_slice());
                proof {
                    lemma_first_match(cur.acc, end_tag());
                    lemma_first_match(cur.acc, call_tag());
                }
                let term: Option<(usize, usize)> = match (eo, co) {
                    (Some(i), Some(j)) => if i <= j {
                        Some((i, end_v.len()))
                    } else {
                        Some((j, call_v.len()))
                    },
                    (Some(i), None) => Some((i, end_v.len())),
                    (None, Some(j)) => Some((j, call_v.len())),
                    (None, None) => None,
                };
                match term {
                    Some((i, l)) => {
                        let content = subrange_vec(self.acc.as_slice(), 0, i);
                        let accn = self.acc.len();
                        self.acc = subrange_vec(self.acc.as_slice(), i + l, accn);
                        self.state = ParserState::LookingForMessageStart;
                        if content.len() > 0 {
                            events.push(
                                HarmonyEvent::ContentEmitted {
                                    content: to_string_vec(content.as_slice()),
                                },
                            );
                        }
                        events.push(HarmonyEvent::MessageEnd);
                        proof {
                            assert(earliest_terminator(cur.acc) == Some((i as int, l as int)));
                            assert(events_view(events@) =~= content_events(
                                cur.acc.take(i as int),
                            ).push(EventV::End));
                        }
                        (events, true)
                    },
                    None => {
                        let ke = overlap(self.acc.as_slice(), end_v.as_slice());
                        let kc = overlap(self.acc.as_slice(), call_v.as_slice());
                        let k = if ke >= kc {
                            ke
                        } else {
                            kc
                        };
                        proof {
                            crate::chars::lemma_overlap(cur.acc, end_tag());
                            crate::chars::lemma_overlap(cur.acc, call_tag());
                            assert(k as int == retain_len(cur.acc));
                        }
                        let accn = self.acc.len();
                        let cut = accn - k;
                        let emit = subrange_vec(self.acc.as_slice(), 0, cut);
                        self.acc = subrange_vec(self.acc.as_slice(), cut, accn);
                        if emit.len() > 0 {
                            events.push(
                                HarmonyEvent::ContentEmitted {
                                    content: to_string_vec(emit.as_slice()),
                                },
                            );
                        }
                        proof {
                            assert(events_view(events@) =~= content_events(
                                cur.acc.take(cut as int),
                            ));
                        }
                        (events, false)
                    },
                }
            },
        }
    }

    /// Feed a chunk of text into the parser; zero or more events come out, as
    /// `feed_model` describes.
    pub fn add_content(&mut self, content: &str) -> (events: Vec<HarmonyEvent>)
        ensures
            final(self).model() == feed_model(old(self).model(), content@).0,
            events_view(events@) == feed_model(old(self).model(), content@).1,
    {
        let cs = to_chars(content);
        extend_chars(&mut self.acc, cs.as_slice());
        let ghost m0 = self.model();
        let mut events: Vec<HarmonyEvent> = Vec::new();
        proof {
            assert(events_view(events@) =~= Seq::<EventV>::empty());
            assert(drain_model(m0).1 =~= events_view(events@) + drain_model(self.model()).1);
        }
        loop
            invariant_except_break
                drain_model(m0).0 == drain_model(self.model()).0,
                drain_model(m0).1 == events_view(events@) + drain_model(self.model()).1,
            ensures
                self.model() == drain_model(m0).0,
                events_view(events@) == drain_model(m0).1,
            decreases self.acc@.len(),
        {
            let ghost cur = self.model();
            let ghost evs0 = events@;
            let (mut sevs, cont) = self.step_exec();
            let ghost sv = sevs@;
            events.append(&mut sevs);
            proof {
                assert(events_view(events@) =~= events_view(evs0) + events_view(sv));
                lemma_step_progress(cur);
            }
            if !cont {
                proof {
                    assert(drain_model(cur) == (self.model(), events_view(sv)));
                    assert(events_view(events@) =~= drain_model(m0).1);
                }
                break ;
            }
            proof {
                assert(drain_model(cur).0 == drain_model(self.model()).0);
                assert(drain_model(cur).1 =~= events_view(sv) + drain_model(self.model()).1);
                assert(drain_model(m0).1 =~= events_view(events@) + drain_model(self.model()).1);
            }
        }
        events
    }
}

/// A step that continues always shortens the buffered text.
pub proof fn lemma_step_progress(m: ParserModel)
    ensures
        step_model(m).2 ==> step_model(m).0.acc.len() < m.acc.len(),
{
    match m.state {
        ParserState::LookingForMessageStart => {
            lemma_first_match(m.acc, start_tag());
        },
        ParserState::ParsingHeader => {
            lemma_first_match(m.acc, message_tag());
        },
        ParserState::ParsingContent => {
            lemma_first_match(m.acc, end_tag());
            lemma_first_match(m.acc, call_tag());
        },
    }
}

} // verus!
