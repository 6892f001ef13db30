//! Channel router on top of the Harmony parser: content is split into the
//! visible answer, hidden reasoning and tool-call payload, and a finished
//! stream is turned into at most one tool call.
use vstd::prelude::*;

use crate::chars::{extend_chars, starts_with, starts_with_spec, subrange_vec, to_chars, to_string_vec};
use crate::harmony::{
    analysis_seq, feed_model, EventV, HarmonyParser, LastMessage, ParserModel, ParserState,
    prefill_seq, implicit_start_seq,
};
use crate::names::{lookup_user, FunctionNameMap};

verus! {

/// Whether a string parses as JSON. Named after the behavior of
/// serde_json::from_str on a Value, which depends on the string alone.
pub uninterp spec fn json_ok(s: Seq<char>) -> bool;

/// Relies on serde_json::from_str::<serde_json::Value>: success is a function
/// of the input string alone; the error rendering is returned on failure.
#[verifier::external_body]
fn json_check(s: &str) -> (r: Option<String>)
    ensures
        (r is None) == json_ok(s@),
{
    match serde_json::from_str::<serde_json::Value>(s) {
        Ok(_) => None,
        Err(e) => Some(e.to_string()),
    }
}

/// A tool as offered to the model: only its name matters to the router.
#[derive(Debug, Clone)]
pub struct Tool {
    pub function: ToolFunction,
}

/// The function part of a tool offer.
#[derive(Debug, Clone)]
pub struct ToolFunction {
    pub name: Option<String>,
}

/// A parsed tool call: the user-facing tool name and the raw JSON text of its
/// arguments.
#[derive(Debug, Clone)]
pub struct ToolCall {
    pub function: ToolCallFunction,
}

/// Name and raw JSON arguments of a call.
#[derive(Debug, Clone)]
pub struct ToolCallFunction {
    pub name: String,
    pub arguments: String,
}

/// Collects tool-call JSON and the current tool name across chunks.
#[derive(Debug)]
pub struct HarmonyToolCallAccumulator {
    acc: String,
    current_tool_name: Option<String>,
}

impl HarmonyToolCallAccumulator {
    /// The collected payload.
    pub closed spec fn payload(&self) -> Seq<char> {
        self.acc@
    }

    /// The tool name seen in a header, if any.
    pub closed spec fn name(&self) -> Option<Seq<char>> {
        match self.current_tool_name {
            Some(ref n) => Some(n@),
            None => None,
        }
    }

    /// New, empty accumulator.
    pub fn new() -> (r: HarmonyToolCallAccumulator)
        ensures
            r.payload() == Seq::<char>::empty(),
            r.name() is None,
    {
        let r = HarmonyToolCallAccumulator { acc: String::new(), current_tool_name: None };
        proof {
            assert(r.payload() =~= Seq::<char>::empty());
        }
        r
    }

    /// Record the tool name seen in a header.
    pub fn set_tool_name(&mut self, tool_name: String)
        ensures
            final(self).name() == Some(tool_name@),
            final(self).payload() == old(self).payload(),
    {
        self.current_tool_name = Some(tool_name);
    }

    /// Append a raw JSON chunk.
    pub fn add(&mut self, content: &str)
        ensures
            final(self).payload() == old(self).payload() + content@,
            final(self).name() == old(self).name(),
    {
        self.acc.append(content);
    }

    /// Take the collected name and payload, clearing the state.
    pub fn drain(&mut self) -> (r: (Option<String>, String))
        ensures
            final(self).payload() == Seq::<char>::empty(),
            final(self).name() is None,
            r.1@ == old(self).payload(),
            match r.0 {
                Some(n) => old(self).name() == Some(n@),
                None => old(self).name() is None,
            },
    {
        let raw = self.acc.clone();
        self.acc = String::new();
        let name: Option<String> = match &self.current_tool_name {
            Some(s) => Some(s.clone()),
            None => None,
        };
        self.current_tool_name = None;
        proof {
            assert(final(self).payload() =~= Seq::<char>::empty());
        }
        (name, raw)
    }

    /// Peek at the collected payload.
    pub fn content(&self) -> (r: &str)
        ensures
            r@ == self.payload(),
    {
        self.acc.as_str()
    }
}

/// High-level routing of message content.
#[derive(Clone, Copy, PartialEq, Eq, Structural, Debug)]
pub enum MessageState {
    Answering,
    Thinking,
    ToolCalling,
}

/// The channel name `commentary`.
pub open spec fn commentary_seq() -> Seq<char> {
    seq!['c', 'o', 'm', 'm', 'e', 'n', 't', 'a', 'r', 'y']
}

/// The channel name `final`.
pub open spec fn final_channel_seq() -> Seq<char> {
    seq!['f', 'i', 'n', 'a', 'l']
}

/// The `functions.` prefix stripped from recipients.
pub open spec fn functions_prefix() -> Seq<char> {
    seq!['f', 'u', 'n', 'c', 't', 'i', 'o', 'n', 's', '.']
}

/// What the router has gathered: the routing state, the three content
/// buffers, and the tool name last seen in a header.
pub struct RouteV {
    pub state: MessageState,
    pub content: Seq<char>,
    pub thinking: Seq<char>,
    pub tool_payload: Seq<char>,
    pub tool_name: Option<Seq<char>>,
}

/// Route one parser event: headers pick the destination (an `analysis`
/// channel means thinking, `commentary` or `final` mean answering, a
/// recipient means a tool call), content goes to the destination's buffer,
/// and a message end resets to answering.
pub open spec fn route_one(r: RouteV, ev: EventV) -> RouteV {
    match ev {
        EventV::Start => r,
        EventV::Header(h) => {
            if h.channel == analysis_seq() {
                if h.recipient.len() > 0 {
                    RouteV { state: MessageState::ToolCalling, tool_name: Some(h.recipient), ..r }
                } else {
                    RouteV { state: MessageState::Thinking, ..r }
                }
            } else if h.channel == commentary_seq() {
                if h.recipient.len() > 0 {
                    RouteV { state: MessageState::ToolCalling, tool_name: Some(h.recipient), ..r }
                } else {
                    RouteV { state: MessageState::Answering, ..r }
                }
            } else if h.channel == final_channel_seq() {
                RouteV { state: MessageState::Answering, ..r }
            } else {
                r
            }
        },
        EventV::Content(c) => match r.state {
            MessageState::Answering => RouteV { content: r.content + c, ..r },
            MessageState::Thinking => RouteV { thinking: r.thinking + c, ..r },
            MessageState::ToolCalling => RouteV { tool_payload: r.tool_payload + c, ..r },
        },
        EventV::End => RouteV { state: MessageState::Answering, ..r },
    }
}

/// Route a sequence of events in order.
pub open spec fn route_events(r: RouteV, evs: Seq<EventV>) -> RouteV
    decreases evs.len(),
{
    if evs.len() == 0 {
        r
    } else {
        route_events(route_one(r, evs[0]), evs.drop_first())
    }
}

/// Folding one more event on the right.
pub proof fn lemma_route_events_snoc(r: RouteV, evs: Seq<EventV>, ev: EventV)
    ensures
        route_events(r, evs.push(ev)) == route_one(route_events(r, evs), ev),
    decreases evs.len(),
{
    if evs.len() == 0 {
        assert(evs.push(ev)[0] == ev);
        assert(evs.push(ev).drop_first() =~= Seq::<EventV>::empty());
        assert(route_events(route_one(r, ev), Seq::<EventV>::empty()) == route_one(r, ev));
        assert(route_events(r, evs.push(ev)) == route_one(r, ev));
        assert(route_events(r, evs) == r);
    } else {
        assert(evs.push(ev)[0] == evs[0]);
        assert(evs.push(ev).drop_first() =~= evs.drop_first().push(ev));
        lemma_route_events_snoc(route_one(r, evs[0]), evs.drop_first(), ev);
    }
}

/// An empty gathering in the given state.
pub open spec fn route_start(state: MessageState) -> RouteV {
    RouteV {
        state,
        content: Seq::empty(),
        thinking: Seq::empty(),
        tool_payload: Seq::empty(),
        tool_name: None,
    }
}

/// A recipient with its `functions.` prefix, if any, removed.
pub open spec fn strip_functions(n: Seq<char>) -> Seq<char> {
    if starts_with_spec(n, functions_prefix()) {
        n.skip(functions_prefix().len() as int)
    } else {
        n
    }
}

/// The user-facing name for a drained recipient: prefix stripped, then mapped
/// back through the name map, falling back to the stripped name itself.
pub open spec fn drained_name(pairs: Seq<(Seq<char>, Seq<char>)>, n: Seq<char>) -> Seq<char> {
    match lookup_user(pairs, strip_functions(n)) {
        Some(u) => u,
        None => strip_functions(n),
    }
}

/// Orchestrates parsing, channel routing, and tool-call assembly.
#[derive(Debug)]
pub struct HarmonyMessageHandler {
    state: MessageState,
    pub parser: HarmonyParser,
    pub function_name_map: FunctionNameMap,
    tool_accumulator: HarmonyToolCallAccumulator,
}

impl HarmonyMessageHandler {
    /// The routing state the handler is in.
    pub closed spec fn route_state(&self) -> MessageState {
        self.state
    }

    /// The state of the embedded parser.
    pub closed spec fn parser_model(&self) -> ParserModel {
        self.parser.model()
    }

    /// The registrations of the embedded name map.
    pub closed spec fn map_view(&self) -> Seq<(Seq<char>, Seq<char>)> {
        self.function_name_map.view()
    }

    /// The accumulated tool payload.
    pub closed spec fn acc_payload(&self) -> Seq<char> {
        self.tool_accumulator.payload()
    }

    /// The accumulated tool name, if a tool-call header was seen.
    pub closed spec fn acc_name(&self) -> Option<Seq<char>> {
        self.tool_accumulator.name()
    }

    /// Construct a handler with a fresh parser and an empty name map.
    pub fn new() -> (r: HarmonyMessageHandler)
        ensures
            r.route_state() == MessageState::Answering,
            r.parser_model() == (ParserModel {
                state: ParserState::LookingForMessageStart,
                acc: Seq::<char>::empty(),
            }),
            r.map_view() == Seq::<(Seq<char>, Seq<char>)>::empty(),
            r.acc_payload() == Seq::<char>::empty(),
            r.acc_name() is None,
    {
        HarmonyMessageHandler {
            state: MessageState::Answering,
            parser: HarmonyParser::new(),
            function_name_map: FunctionNameMap::new(),
            tool_accumulator: HarmonyToolCallAccumulator::new(),
        }
    }

    /// Prepare for a new completion: prefill the parser, reset the tool
    /// accumulator, and register every named tool in the name map, returning
    /// the offers under their harmony-safe names.
    pub fn init(&mut self, tools: &[Tool], last_message: Option<&LastMessage>) -> (r: Vec<Tool>)
        ensures
            final(self).parser_model() == (ParserModel {
                state: old(self).parser_model().state,
                acc: old(self).parser_model().acc + prefill_seq(
                    match last_message {
                        Some(m) => Some(m@),
                        None => None,
                    },
                ),
            }),
            final(self).acc_payload() == Seq::<char>::empty(),
            final(self).acc_name() is None,
            final(self).route_state() == old(self).route_state(),
            r@.len() == tools@.len(),
            forall|i: int|
                0 <= i < tools@.len() ==> ((#[trigger] r@[i].function.name) is Some
                    == tools@[i].function.name is Some),
    {
        match last_message {
            Some(m) => self.parser.add_implicit_start_or_prefill(Some(m)),
            None => {
                self.parser.add_implicit_start();
                proof {
                    assert(prefill_seq(None) == implicit_start_seq());
                }
            },
        }
        self.tool_accumulator = HarmonyToolCallAccumulator::new();
        let ghost pm_after = self.parser.model();
        let ghost st_after = self.state;
        proof {
            assert(pm_after == (ParserModel {
                state: old(self).parser_model().state,
                acc: old(self).parser_model().acc + prefill_seq(
                    match last_message {
                        Some(m) => Some(m@),
                        None => None,
                    },
                ),
            }));
        }
        let mut processed: Vec<Tool> = Vec::new();
        let mut i: usize = 0;
        while i < tools.len()
            invariant
                i <= tools@.len(),
                processed@.len() == i as int,
                self.parser.model() == pm_after,
                self.state == st_after,
                self.tool_accumulator.payload() == Seq::<char>::empty(),
                self.tool_accumulator.name() is None,
                forall|j: int|
                    0 <= j < i ==> ((#[trigger] processed@[j].function.name) is Some
                        == tools@[j].function.name is Some),
            decreases tools@.len() - i,
        {
            let name: Option<String> = match &tools[i].function.name {
                Some(n) => Some(self.function_name_map.convert_and_add(n.as_str())),
                None => None,
            };
            processed.push(Tool { function: ToolFunction { name } });
            i = i + 1;
        }
        processed
    }

    /// Consume new model output and return the answer text, the thinking
    /// text, and, when `done`, the accumulated tool call. A tool payload that
    /// fails to parse as JSON is reported as an error message for the model
    /// to correct.
    pub fn add(&mut self, s: &str, done: bool) -> (r: Result<
        (String, String, Vec<ToolCall>),
        String,
    >)
        ensures
            ({
                let fed = feed_model(old(self).parser_model(), s@);
                let rv = route_events(route_start(old(self).route_state()), fed.1);
                let new_payload = old(self).acc_payload() + rv.tool_payload;
                let new_name = if rv.tool_name is Some {
                    rv.tool_name
                } else {
                    old(self).acc_name()
                };
                &&& final(self).parser_model() == fed.0
                &&& final(self).route_state() == rv.state
                &&& final(self).map_view() == old(self).map_view()
                &&& if done {
                    &&& final(self).acc_payload() == Seq::<char>::empty()
                    &&& final(self).acc_name() is None
                    &&& match r {
                        Ok((content, thinking, calls)) => {
                            &&& content@ == rv.content
                            &&& thinking@ == rv.thinking
                            &&& if new_name is Some && json_ok(new_payload) {
                                &&& calls@.len() == 1
                                &&& calls@[0].function.name@ == drained_name(
                                    old(self).map_view(),
                                    new_name->0,
                                )
                                &&& calls@[0].function.arguments@ == new_payload
                            } else {
                                calls@.len() == 0
                            }
                        },
                        Err(_) => true,
                    }
                    &&& (r is Err <==> new_name is Some && !json_ok(new_payload))
                } else {
                    &&& final(self).acc_payload() == new_payload
                    &&& final(self).acc_name() == new_name
                    &&& match r {
                        Ok((content, thinking, calls)) => {
                            &&& content@ == rv.content
                            &&& thinking@ == rv.thinking
                            &&& calls@.len() == 0
                        },
                        Err(_) => false,
                    }
                }
            }),
    {
        let events = self.parser.add_content(s);
        let ghost fed = feed_model(old(self).parser_model(), s@);
        let mut content: Vec<char> = Vec::new();
        let mut thinking: Vec<char> = Vec::new();
        let mut tool_payload: Vec<char> = Vec::new();
        let mut tool_name: Option<String> = None;
        let ghost r0 = route_start(old(self).route_state());
        proof {
            assert(route_events(r0, fed.1.take(0)) == r0);
            assert(content@ =~= r0.content);
        }
        let mut i: usize = 0;
        while i < events.len()
            invariant
                i <= events@.len(),
                crate::harmony::events_view(events@) == fed.1,
                ({
                    let rv = route_events(r0, fed.1.take(i as int));
                    &&& self.state == rv.state
                    &&& content@ == rv.content
                    &&& thinking@ == rv.thinking
                    &&& tool_payload@ == rv.tool_payload
                    &&& match tool_name {
                        Some(ref n) => rv.tool_name == Some(n@),
                        None => rv.tool_name is None,
                    }
                }),
                self.parser.model() == fed.0,
                self.tool_accumulator.payload() == old(self).acc_payload(),
                self.tool_accumulator.name() == old(self).acc_name(),
                self.function_name_map.view() == old(self).map_view(),
            decreases events@.len() - i,
        {
            let ghost rv_pre = route_events(r0, fed.1.take(i as int));
            proof {
                assert(fed.1.take(i + 1) =~= fed.1.take(i as int).push(fed.1[i as int]));
                lemma_route_events_snoc(r0, fed.1.take(i as int), fed.1[i as int]);
                assert(fed.1[i as int] == events@[i as int]@);
            }
            let ev = &events[i];
            match ev {
                crate::harmony::HarmonyEvent::HeaderComplete { header } => {
                    let analysis = to_chars("analysis");
                    let commentary = to_chars("commentary");
                    let final_name = to_chars("final");
                    proof {
                        reveal_strlit("analysis");
                        reveal_strlit("commentary");
                        reveal_strlit("final");
                        assert(analysis@ =~= analysis_seq());
                        assert(commentary@ =~= commentary_seq());
                        assert(final_name@ =~= final_channel_seq());
                    }
                    let chan = to_chars(header.channel.as_str());
                    let is_analysis = crate::chars::chars_eq(chan.as_slice(), analysis.as_slice());
                    let is_commentary = crate::chars::chars_eq(
                        chan.as_slice(),
                        commentary.as_slice(),
                    );
                    let is_final = crate::chars::chars_eq(chan.as_slice(), final_name.as_slice());
                    let has_recipient = header.recipient.unicode_len() > 0;
                    if is_analysis {
                        if has_recipient {
                            self.state = MessageState::ToolCalling;
                            tool_name = Some(header.recipient.clone());
                        } else {
                            self.state = MessageState::Thinking;
                        }
                    } else if is_commentary {
                        if has_recipient {
                            self.state = MessageState::ToolCalling;
                            tool_name = Some(header.recipient.clone());
                        } else {
                            self.state = MessageState::Answering;
                        }
                    } else if is_final {
                        self.state = MessageState::Answering;
                    }
                },
                crate::harmony::HarmonyEvent::ContentEmitted { content: c } => {
                    let cs = to_chars(c.as_str());
                    match self.state {
                        MessageState::Answering => extend_chars(&mut content, cs.as_slice()),
                        MessageState::Thinking => extend_chars(&mut thinking, cs.as_slice()),
                        MessageState::ToolCalling => extend_chars(&mut tool_payload, cs.as_slice()),
                    }
                },
                crate::harmony::HarmonyEvent::MessageEnd => {
                    self.state = MessageState::Answering;
                },
                crate::harmony::HarmonyEvent::MessageStart => {},
            }
            i = i + 1;
        }
        proof {
            assert(fed.1.take(events@.len() as int) =~= fed.1);
        }
        if tool_payload.len() > 0 {
            let payload_str = to_string_vec(tool_payload.as_slice());
            self.tool_accumulator.add(payload_str.as_str());
        }
        if let Some(n) = tool_name {
            self.tool_accumulator.set_tool_name(n);
            proof {
                assert(self.acc_payload() == old(self).acc_payload() + route_events(
                    r0,
                    fed.1,
                ).tool_payload);
            }
        } else {
            proof {
                assert(self.acc_payload() == old(self).acc_payload() + route_events(
                    r0,
                    fed.1,
                ).tool_payload);
            }
        }

        let mut calls: Vec<ToolCall> = Vec::new();
        if !done {
            return Ok((to_string_vec(content.as_slice()), to_string_vec(thinking.as_slice()), calls));
        }
        let (name_opt, raw) = self.tool_accumulator.drain();
        match name_opt {
            None => Ok((to_string_vec(content.as_slice()), to_string_vec(thinking.as_slice()), calls)),
            Some(name) => {
                let name_chars = to_chars(name.as_str());
                let functions = to_chars("functions.");
                proof {
                    reveal_strlit("functions.");
                    assert(functions@ =~= functions_prefix());
                }
                let stripped: Vec<char> = if starts_with(name_chars.as_slice(), functions.as_slice()) {
                    subrange_vec(name_chars.as_slice(), functions.len(), name_chars.len())
                } else {
                    subrange_vec(name_chars.as_slice(), 0, name_chars.len())
                };
                proof {
                    assert(stripped@ =~= strip_functions(name_chars@));
                }
                let stripped_str = to_string_vec(stripped.as_slice());
                let mapped = self.function_name_map.original_from_converted(stripped_str.as_str());
                match json_check(raw.as_str()) {
                    None => {
                        calls.push(
                            ToolCall {
                                function: ToolCallFunction { name: mapped, arguments: raw },
                            },
                        );
                        Ok((
                            to_string_vec(content.as_slice()),
                            to_string_vec(thinking.as_slice()),
                            calls,
                        ))
                    },
                    Some(e) => {
                        let mut msg = String::new();
                        msg.append("error parsing tool call: raw='");
                        msg.append(raw.as_str());
                        msg.append("', err=");
                        msg.append(e.as_str());
                        Err(msg)
                    },
                }
            },
        }
    }
}

} // verus!
