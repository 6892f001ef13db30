//! The turn engine's decision logic: one turn is a loop of subturns, each a
//! Request followed by streamed Answer frames and a Stop; tool calls found in
//! the stream are executed between subturns and their results appended to the
//! history, which is resent whole on every Request, so a reconnect loses
//! nothing.
use vstd::prelude::*;

use crate::chars::{to_chars, to_string_vec};
use crate::harmony::{feed_model, EventV, HarmonyParser, ParserModel, ParserState};
use crate::protocol::{clone_messages, messages_view, Frame, FrameV, Message, MessageV};
use crate::router::{
    drained_name, json_ok, route_events, route_start, HarmonyMessageHandler, MessageState, Tool,
    ToolCall,
};

verus! {

/// What the user interface is asked to do while a subturn streams.
#[derive(Debug)]
pub enum DisplayAction {
    ShowLog(String),
    StartThinking,
    EndThinking,
    ShowDelta(String),
    EndAnswer,
}

/// Mathematical view of a display action.
pub enum DisplayActionV {
    ShowLog(Seq<char>),
    StartThinking,
    EndThinking,
    ShowDelta(Seq<char>),
    EndAnswer,
}

impl View for DisplayAction {
    type V = DisplayActionV;

    open spec fn view(&self) -> DisplayActionV {
        match self {
            DisplayAction::ShowLog(s) => DisplayActionV::ShowLog(s@),
            DisplayAction::StartThinking => DisplayActionV::StartThinking,
            DisplayAction::EndThinking => DisplayActionV::EndThinking,
            DisplayAction::ShowDelta(s) => DisplayActionV::ShowDelta(s@),
            DisplayAction::EndAnswer => DisplayActionV::EndAnswer,
        }
    }
}

/// The views of an action vector, in order.
pub open spec fn actions_view(v: Seq<DisplayAction>) -> Seq<DisplayActionV> {
    v.map_values(|a: DisplayAction| a@)
}

/// How a finished subturn continues: the turn is done with a final answer,
/// tool calls must run and the loop continues, or a malformed tool call was
/// reported into the history for the model to correct.
#[derive(Debug)]
pub enum SubturnOutcome {
    Finished(String),
    RunCalls(Vec<ToolCall>),
    RetryAfterParseError,
}

/// The display side of the stream: the phase, the collected final answer, and
/// whether an answer was closed.
pub struct DisplayV {
    pub phase: MessageState,
    pub final_answer: Seq<char>,
    pub did_end: bool,
}

/// Route one event for display: a tool-call header silences the stream, an
/// `analysis` header opens thinking, `commentary` and `final` headers close
/// it, content is shown (and collected while answering), and a message end
/// closes thinking or the answer.
pub open spec fn display_step(d: DisplayV, ev: EventV) -> (DisplayV, Seq<DisplayActionV>) {
    match ev {
        EventV::Start => (d, Seq::empty()),
        EventV::Header(h) => {
            if h.recipient.len() > 0 {
                (DisplayV { phase: MessageState::ToolCalling, ..d }, Seq::empty())
            } else if h.channel == crate::harmony::analysis_seq() {
                (
                    DisplayV { phase: MessageState::Thinking, ..d },
                    seq![DisplayActionV::StartThinking],
                )
            } else if h.channel == crate::router::commentary_seq() || h.channel
                == crate::router::final_channel_seq() {
                (
                    DisplayV { phase: MessageState::Answering, ..d },
                    seq![DisplayActionV::EndThinking],
                )
            } else {
                (d, Seq::empty())
            }
        },
        EventV::Content(c) => match d.phase {
            MessageState::ToolCalling => (d, Seq::empty()),
            MessageState::Answering => (
                DisplayV { final_answer: d.final_answer + c, ..d },
                seq![DisplayActionV::ShowDelta(c)],
            ),
            MessageState::Thinking => (d, seq![DisplayActionV::ShowDelta(c)]),
        },
        EventV::End => {
            match d.phase {
                MessageState::Thinking => (
                    DisplayV { phase: MessageState::Answering, ..d },
                    seq![DisplayActionV::EndThinking],
                ),
                MessageState::Answering => (
                    DisplayV { did_end: true, ..d },
                    seq![DisplayActionV::EndAnswer],
                ),
                MessageState::ToolCalling => (
                    DisplayV { phase: MessageState::Answering, ..d },
                    Seq::empty(),
                ),
            }
        },
    }
}

/// Route a sequence of events for display, in order.
pub open spec fn display_route(d: DisplayV, evs: Seq<EventV>) -> (DisplayV, Seq<DisplayActionV>)
    decreases evs.len(),
{
    if evs.len() == 0 {
        (d, Seq::empty())
    } else {
        let first = display_step(d, evs[0]);
        let rest = display_route(first.0, evs.drop_first());
        (rest.0, first.1 + rest.1)
    }
}

/// Folding one more event on the right.
pub proof fn lemma_display_route_snoc(d: DisplayV, evs: Seq<EventV>, ev: EventV)
    ensures
        display_route(d, evs.push(ev)) == (
            display_step(display_route(d, evs).0, ev).0,
            display_route(d, evs).1 + display_step(display_route(d, evs).0, ev).1,
        ),
    decreases evs.len(),
{
    if evs.len() == 0 {
        assert(evs.push(ev)[0] == ev);
        assert(evs.push(ev).drop_first() =~= Seq::<EventV>::empty());
        assert(display_route(display_step(d, ev).0, Seq::<EventV>::empty()) == (
            display_step(d, ev).0,
            Seq::<DisplayActionV>::empty(),
        ));
        assert(display_step(d, ev).1 + Seq::<DisplayActionV>::empty() =~= display_step(d, ev).1);
        assert(display_route(d, evs).1 + display_step(d, ev).1 =~= display_step(d, ev).1);
    } else {
        assert(evs.push(ev)[0] == evs[0]);
        assert(evs.push(ev).drop_first() =~= evs.drop_first().push(ev));
        lemma_display_route_snoc(display_step(d, evs[0]).0, evs.drop_first(), ev);
        assert(display_route(d, evs.push(ev)).1 =~= display_route(d, evs).1 + display_step(
            display_route(d, evs).0,
            ev,
        ).1);
    }
}

/// What one JSON-escaped character contributes to a quoted string.
pub open spec fn escape_char(c: char) -> Seq<char> {
    let u = c as u32;
    if c == '"' {
        seq!['\\', '"']
    } else if c == '\\' {
        seq!['\\', '\\']
    } else if u == 8 {
        seq!['\\', 'b']
    } else if u == 9 {
        seq!['\\', 't']
    } else if u == 10 {
        seq!['\\', 'n']
    } else if u == 12 {
        seq!['\\', 'f']
    } else if u == 13 {
        seq!['\\', 'r']
    } else if u < 32 {
        seq!['\\', 'u', '0', '0', crate::names::digit_char(u as int / 16), hex_digit(u as int % 16)]
    } else {
        seq![c]
    }
}

/// A hexadecimal digit character.
pub open spec fn hex_digit(d: int) -> char {
    if d < 10 {
        crate::names::digit_char(d)
    } else if d == 10 {
        'a'
    } else if d == 11 {
        'b'
    } else if d == 12 {
        'c'
    } else if d == 13 {
        'd'
    } else if d == 14 {
        'e'
    } else {
        'f'
    }
}

/// The body of a JSON string literal for this text.
pub open spec fn escape_json(s: Seq<char>) -> Seq<char>
    decreases s.len(),
{
    if s.len() == 0 {
        Seq::empty()
    } else {
        escape_char(s[0]) + escape_json(s.drop_first())
    }
}

/// JSON-escape a text, as `escape_json` describes.
pub fn escape_json_string(s: &str) -> (r: String)
    ensures
        r@ == escape_json(s@),
{
    let v = to_chars(s);
    let mut out: Vec<char> = Vec::new();
    let mut i: usize = 0;
    proof {
        assert(out@ =~= escape_json(v@.take(0)));
    }
    while i < v.len()
        invariant
            i <= v@.len(),
            out@ == escape_json(v@.take(i as int)),
        decreases v@.len() - i,
    {
        let ghost pre = out@;
        let c = v[i];
        let u: u32 = c as u32;
        if c == '"' {
            out.push('\\');
            out.push('"');
        } else if c == '\\' {
            out.push('\\');
            out.push('\\');
        } else if u == 8 {
            out.push('\\');
            out.push('b');
        } else if u == 9 {
            out.push('\\');
            out.push('t');
        } else if u == 10 {
            out.push('\\');
            out.push('n');
        } else if u == 12 {
            out.push('\\');
            out.push('f');
        } else if u == 13 {
            out.push('\\');
            out.push('r');
        } else if u < 32 {
            out.push('\\');
            out.push('u');
            out.push('0');
            out.push('0');
            let hi: u32 = u / 16;
            let lo: u32 = u % 16;
            out.push(
                if hi == 0 {
                    '0'
                } else {
                    '1'
                },
            );
            out.push(
                if lo == 0 {
                    '0'
                } else if lo == 1 {
                    '1'
                } else if lo == 2 {
                    '2'
                } else if lo == 3 {
                    '3'
                } else if lo == 4 {
                    '4'
                } else if lo == 5 {
                    '5'
                } else if lo == 6 {
                    '6'
                } else if lo == 7 {
                    '7'
                } else if lo == 8 {
                    '8'
                } else if lo == 9 {
                    '9'
                } else if lo == 10 {
                    'a'
                } else if lo == 11 {
                    'b'
                } else if lo == 12 {
                    'c'
                } else if lo == 13 {
                    'd'
                } else if lo == 14 {
                    'e'
                } else {
                    'f'
                },
            );
        } else {
            out.push(c);
        }
        proof {
            assert(v@.take(i + 1) =~= v@.take(i as int) + seq![v@[i as int]]);
            lemma_escape_json_add(v@.take(i as int), seq![v@[i as int]]);
            assert(seq![v@[i as int]].drop_first() =~= Seq::<char>::empty());
            assert(escape_json(Seq::<char>::empty()) =~= Seq::<char>::empty());
            assert(escape_json(seq![v@[i as int]]) =~= escape_char(v@[i as int]));
            assert(out@ =~= pre + escape_char(v@[i as int]));
        }
        i = i + 1;
    }
    proof {
        assert(v@.take(v@.len() as int) =~= v@);
    }
    to_string_vec(out.as_slice())
}

/// `escape_json` distributes over concatenation.
pub proof fn lemma_escape_json_add(a: Seq<char>, b: Seq<char>)
    ensures
        escape_json(a + b) == escape_json(a) + escape_json(b),
    decreases a.len(),
{
    if a.len() == 0 {
        assert(a + b =~= b);
        assert(escape_json(a) + escape_json(b) =~= escape_json(b));
    } else {
        assert((a + b).drop_first() =~= a.drop_first() + b);
        lemma_escape_json_add(a.drop_first(), b);
        assert(escape_json(a + b) =~= escape_json(a) + escape_json(b));
    }
}

/// The tool message recorded when the tool-call JSON did not parse.
pub open spec fn parse_error_blob(e: Seq<char>) -> Seq<char> {
    seq!['{', '"', 'r', 'e', 's', 'u', 'l', 't', '"', ':', '{', '"', 'e', 'r', 'r', 'o', 'r', '"', ':', '"']
        + escape_json(e) + seq!['"', '}', ',', '"', 't', 'o', 'o', 'l', '"', ':', '"'] + seq![
        't',
        'o',
        'o',
        'l',
        '_',
        'c',
        'a',
        'l',
        'l',
        '_',
        'p',
        'a',
        'r',
        's',
        'e',
        '_',
        'e',
        'r',
        'r',
        'o',
        'r',
    ] + seq!['"', '}']
}

/// The tool message recorded for an executed or denied call: its arguments
/// verbatim, the result JSON verbatim, the tool name quoted.
pub open spec fn tool_result_blob(name: Seq<char>, args: Seq<char>, result: Seq<char>) -> Seq<
    char,
> {
    seq!['{', '"', 'a', 'r', 'g', 'u', 'm', 'e', 'n', 't', 's', '"', ':'] + args + seq![
        ',',
        '"',
        'r',
        'e',
        's',
        'u',
        'l',
        't',
        '"',
        ':',
    ] + result + seq![',', '"', 't', 'o', 'o', 'l', '"', ':', '"'] + escape_json(name) + seq![
        '"',
        '}',
    ]
}

/// The result recorded for a call the user denied.
pub open spec fn denied_result() -> Seq<char> {
    seq![
        '{',
        '"',
        'e',
        'r',
        'r',
        'o',
        'r',
        '"',
        ':',
        '"',
        'u',
        's',
        'e',
        'r',
        ' ',
        'd',
        'e',
        'n',
        'i',
        'e',
        'd',
        '"',
        '}',
    ]
}

/// Per-turn state on the probe side: the display parser, the routing handler,
/// the collected answer and reasoning, and the history extended as the turn
/// proceeds.
pub struct TurnEngine {
    display_parser: HarmonyParser,
    handler: HarmonyMessageHandler,
    phase: MessageState,
    final_answer: String,
    answer: String,
    reasoning: String,
    did_send_answer_end: bool,
    history: Vec<Message>,
}

impl TurnEngine {
    /// The history so far.
    pub closed spec fn history_view(&self) -> Seq<MessageV> {
        messages_view(self.history@)
    }

    /// The display parser's state.
    pub closed spec fn display_model(&self) -> ParserModel {
        self.display_parser.model()
    }

    /// The display side's state.
    pub closed spec fn display_state(&self) -> DisplayV {
        DisplayV {
            phase: self.phase,
            final_answer: self.final_answer@,
            did_end: self.did_send_answer_end,
        }
    }

    /// The routing handler's parser state.
    pub closed spec fn handler_parser_model(&self) -> ParserModel {
        self.handler.parser_model()
    }

    /// The routing handler's state.
    pub closed spec fn handler_route_state(&self) -> MessageState {
        self.handler.route_state()
    }

    /// The routing handler's accumulated payload.
    pub closed spec fn handler_acc_payload(&self) -> Seq<char> {
        self.handler.acc_payload()
    }

    /// The routing handler's accumulated tool name.
    pub closed spec fn handler_acc_name(&self) -> Option<Seq<char>> {
        self.handler.acc_name()
    }

    /// The routing handler's name registrations.
    pub closed spec fn handler_map_view(&self) -> Seq<(Seq<char>, Seq<char>)> {
        self.handler.map_view()
    }

    /// The answer collected for the history.
    pub closed spec fn answer_view(&self) -> Seq<char> {
        self.answer@
    }

    /// The reasoning collected for the history.
    pub closed spec fn reasoning_view(&self) -> Seq<char> {
        self.reasoning@
    }

    /// The final answer collected for the caller.
    pub closed spec fn final_answer_view(&self) -> Seq<char> {
        self.final_answer@
    }

    /// A fresh engine over a history.
    pub fn new(history: Vec<Message>) -> (r: TurnEngine)
        ensures
            r.history_view() == messages_view(history@),
    {
        TurnEngine {
            display_parser: HarmonyParser::new(),
            handler: HarmonyMessageHandler::new(),
            phase: MessageState::Answering,
            final_answer: String::new(),
            answer: String::new(),
            reasoning: String::new(),
            did_send_answer_end: false,
            history,
        }
    }

    /// Open a subturn: reset the stream state and build the Request that
    /// carries the whole current history, so the hub needs no state of its
    /// own and a reconnect can simply resend it.
    pub fn begin_subturn(&mut self, tools: &[Tool]) -> (req: Frame)
        ensures
            req@ == request_view(old(self).history_view()),
            final(self).history_view() == old(self).history_view(),
            final(self).display_model() == (ParserModel {
                state: ParserState::LookingForMessageStart,
                acc: crate::harmony::implicit_start_seq(),
            }),
            final(self).handler_parser_model() == (ParserModel {
                state: ParserState::LookingForMessageStart,
                acc: crate::harmony::implicit_start_seq(),
            }),
            final(self).handler_acc_payload() == Seq::<char>::empty(),
            final(self).handler_acc_name() is None,
            final(self).handler_route_state() == MessageState::Answering,
            final(self).display_state() == (DisplayV {
                phase: MessageState::Answering,
                final_answer: Seq::<char>::empty(),
                did_end: false,
            }),
            final(self).answer_view() == Seq::<char>::empty(),
            final(self).reasoning_view() == Seq::<char>::empty(),
    {
        let mut parser = HarmonyParser::new();
        parser.add_implicit_start();
        self.display_parser = parser;
        let mut handler = HarmonyMessageHandler::new();
        let _ = handler.init(tools, None);
        self.handler = handler;
        self.phase = MessageState::Answering;
        self.final_answer = String::new();
        self.answer = String::new();
        self.reasoning = String::new();
        self.did_send_answer_end = false;
        let messages = clone_messages(&self.history);
        proof {
            assert(final(self).display_model().acc =~= crate::harmony::implicit_start_seq());
            assert(final(self).handler_parser_model().acc
                =~= crate::harmony::implicit_start_seq());
            assert(final(self).display_state().final_answer =~= Seq::<char>::empty());
        }
        Frame::Request { messages }
    }

    /// Consume one frame: a log line is surfaced, an answer delta is routed
    /// for display and accumulated for the history, a Stop ends the subturn,
    /// and an unexpected Request is ignored.
    pub fn on_frame(&mut self, frame: &Frame) -> (r: (Vec<DisplayAction>, bool))
        ensures
            final(self).history_view() == old(self).history_view(),
            final(self).handler_map_view() == old(self).handler_map_view(),
            match frame@ {
                FrameV::Log(s) => {
                    &&& actions_view(r.0@) == seq![DisplayActionV::ShowLog(s)]
                    &&& r.1 == false
                    &&& final(self).display_state() == old(self).display_state()
                    &&& final(self).display_model() == old(self).display_model()
                    &&& final(self).handler_parser_model() == old(self).handler_parser_model()
                    &&& final(self).handler_acc_payload() == old(self).handler_acc_payload()
                    &&& final(self).answer_view() == old(self).answer_view()
                    &&& final(self).reasoning_view() == old(self).reasoning_view()
                },
                FrameV::Stop => {
                    &&& r.0@.len() == 0
                    &&& r.1 == true
                    &&& final(self).display_state() == old(self).display_state()
                    &&& final(self).answer_view() == old(self).answer_view()
                    &&& final(self).reasoning_view() == old(self).reasoning_view()
                },
                FrameV::Request(_) => {
                    &&& r.0@.len() == 0
                    &&& r.1 == false
                    &&& final(self).display_state() == old(self).display_state()
                    &&& final(self).answer_view() == old(self).answer_view()
                    &&& final(self).reasoning_view() == old(self).reasoning_view()
                },
                FrameV::Answer(delta) => {
                    let fed = feed_model(old(self).display_model(), delta);
                    let routed = display_route(old(self).display_state(), fed.1);
                    let hfed = feed_model(old(self).handler_parser_model(), delta);
                    let rv = route_events(route_start(old(self).handler_route_state()), hfed.1);
                    &&& final(self).display_model() == fed.0
                    &&& final(self).display_state() == routed.0
                    &&& actions_view(r.0@) == routed.1
                    &&& r.1 == false
                    &&& final(self).handler_parser_model() == hfed.0
                    &&& final(self).handler_route_state() == rv.state
                    &&& final(self).handler_acc_payload() == old(self).handler_acc_payload()
                        + rv.tool_payload
                    &&& final(self).handler_acc_name() == (if rv.tool_name is Some {
                        rv.tool_name
                    } else {
                        old(self).handler_acc_name()
                    })
                    &&& final(self).answer_view() == old(self).answer_view() + rv.content
                    &&& final(self).reasoning_view() == old(self).reasoning_view() + rv.thinking
                },
            },
    {
        match frame {
            Frame::Log(line) => {
                let mut actions: Vec<DisplayAction> = Vec::new();
                actions.push(DisplayAction::ShowLog(line.clone()));
                proof {
                    assert(actions_view(actions@) =~= seq![DisplayActionV::ShowLog(line@)]);
                }
                (actions, false)
            },
            Frame::Stop => (Vec::new(), true),
            Frame::Request { .. } => (Vec::new(), false),
            Frame::Answer(delta) => {
                let events = self.display_parser.add_content(delta.as_str());
                let ghost fed = feed_model(old(self).display_model(), delta@);
                let mut actions: Vec<DisplayAction> = Vec::new();
                let ghost d0 = old(self).display_state();
                let mut i: usize = 0;
                proof {
                    assert(display_route(d0, fed.1.take(0)) == (
                        d0,
                        Seq::<DisplayActionV>::empty(),
                    ));
                    assert(actions_view(actions@) =~= Seq::<DisplayActionV>::empty());
                }
                while i < events.len()
                    invariant
                        i <= events@.len(),
                        crate::harmony::events_view(events@) == fed.1,
                        self.display_state() == display_route(d0, fed.1.take(i as int)).0,
                        actions_view(actions@) == display_route(d0, fed.1.take(i as int)).1,
                        self.display_parser.model() == fed.0,
                        self.handler == old(self).handler,
                        self.history@ == old(self).history@,
                        self.answer@ == old(self).answer@,
                        self.reasoning@ == old(self).reasoning@,
                    decreases events@.len() - i,
                {
                    let ghost dpre = self.display_state();
                    let ghost apre = actions_view(actions@);
                    proof {
                        assert(fed.1.take(i + 1) =~= fed.1.take(i as int).push(fed.1[i as int]));
                        lemma_display_route_snoc(d0, fed.1.take(i as int), fed.1[i as int]);
                        assert(fed.1[i as int] == events@[i as int]@);
                    }
                    let ev = &events[i];
                    match ev {
                        crate::harmony::HarmonyEvent::HeaderComplete { header } => {
                            if header.recipient.unicode_len() > 0 {
                                self.phase = MessageState::ToolCalling;
                            } else {
                                let analysis = to_chars("analysis");
                                let commentary = to_chars("commentary");
                                let final_name = to_chars("final");
                                proof {
                                    reveal_strlit("analysis");
                                    reveal_strlit("commentary");
                                    reveal_strlit("final");
                                    assert(analysis@ =~= crate::harmony::analysis_seq());
                                    assert(commentary@ =~= crate::router::commentary_seq());
                                    assert(final_name@ =~= crate::router::final_channel_seq());
                                }
                                let chan = to_chars(header.channel.as_str());
                                if crate::chars::chars_eq(chan.as_slice(), analysis.as_slice()) {
                                    self.phase = MessageState::Thinking;
                                    actions.push(DisplayAction::StartThinking);
                                } else if crate::chars::chars_eq(
                                    chan.as_slice(),
                                    commentary.as_slice(),
                                ) || crate::chars::chars_eq(
                                    chan.as_slice(),
                                    final_name.as_slice(),
                                ) {
                                    self.phase = MessageState::Answering;
                                    actions.push(DisplayAction::EndThinking);
                                }
                            }
                        },
                        crate::harmony::HarmonyEvent::ContentEmitted { content } => {
                            match self.phase {
                                MessageState::ToolCalling => {},
                                MessageState::Answering => {
                                    self.final_answer.append(content.as_str());
                                    actions.push(DisplayAction::ShowDelta(content.clone()));
                                },
                                MessageState::Thinking => {
                                    actions.push(DisplayAction::ShowDelta(content.clone()));
                                },
                            }
                        },
                        crate::harmony::HarmonyEvent::MessageEnd => {
                            match self.phase {
                                MessageState::Thinking => {
                                    self.phase = MessageState::Answering;
                                    actions.push(DisplayAction::EndThinking);
                                },
                                MessageState::Answering => {
                                    self.did_send_answer_end = true;
                                    actions.push(DisplayAction::EndAnswer);
                                },
                                MessageState::ToolCalling => {
                                    self.phase = MessageState::Answering;
                                },
                            }
                        },
                        crate::harmony::HarmonyEvent::MessageStart => {},
                    }
                    proof {
                        assert(actions_view(actions@) =~= apre + display_step(
                            dpre,
                            fed.1[i as int],
                        ).1);
                    }
                    i = i + 1;
                }
                proof {
                    assert(fed.1.take(events@.len() as int) =~= fed.1);
                }
                match self.handler.add(delta.as_str(), false) {
                    Ok((a, t, _calls)) => {
                        self.answer.append(a.as_str());
                        self.reasoning.append(t.as_str());
                    },
                    Err(_) => {},
                }
                (actions, false)
            },
        }
    }

    /// Close a subturn: the answer stream is closed if it was not, the
    /// accumulated tool call is finalized, reasoning and answer join the
    /// history, and the outcome says whether the turn is finished, must run
    /// tool calls, or reported a malformed call. The turn finishes, with no
    /// further Request, exactly when no tool call was accumulated.
    pub fn end_subturn(&mut self) -> (r: (Vec<DisplayAction>, SubturnOutcome))
        ensures
            ({
                let ghost_empty = Seq::<char>::empty();
                let fed = feed_model(old(self).handler_parser_model(), ghost_empty);
                let rv = route_events(route_start(old(self).handler_route_state()), fed.1);
                let new_payload = old(self).handler_acc_payload() + rv.tool_payload;
                let new_name = if rv.tool_name is Some {
                    rv.tool_name
                } else {
                    old(self).handler_acc_name()
                };
                let parse_error = new_name is Some && !json_ok(new_payload);
                let has_call = new_name is Some && json_ok(new_payload);
                &&& actions_view(r.0@) == (if old(self).display_state().did_end {
                    Seq::<DisplayActionV>::empty()
                } else {
                    seq![DisplayActionV::EndAnswer]
                })
                &&& (r.1 is RetryAfterParseError <==> parse_error)
                &&& (r.1 is Finished <==> new_name is None)
                &&& (r.1 matches SubturnOutcome::Finished(ans) ==> ans@ == old(
                    self,
                ).final_answer_view())
                &&& (r.1 matches SubturnOutcome::RunCalls(calls) ==> has_call && calls@.len() == 1
                    && calls@[0].function.arguments@ == new_payload
                    && calls@[0].function.name@ == drained_name(
                    old(self).handler_map_view(),
                    new_name->0,
                ))
                &&& (parse_error ==> exists|e: Seq<char>|
                    final(self).history_view() =~= old(self).history_view() + seq![
                        MessageV::Tool(parse_error_blob(e)),
                    ] + reasoning_entry(old(self).reasoning_view()) + answer_entry(
                        old(self).answer_view(),
                    ))
                &&& (!parse_error ==> final(self).history_view() =~= old(self).history_view()
                    + reasoning_entry(old(self).reasoning_view()) + answer_entry(
                    old(self).answer_view(),
                ))
            }),
    {
        let mut actions: Vec<DisplayAction> = Vec::new();
        if !self.did_send_answer_end {
            actions.push(DisplayAction::EndAnswer);
            proof {
                assert(actions_view(actions@) =~= seq![DisplayActionV::EndAnswer]);
            }
        } else {
            proof {
                assert(actions_view(actions@) =~= Seq::<DisplayActionV>::empty());
            }
        }
        let ghost h0 = self.history_view();
        let empty_feed = String::new();
        let mut parse_error_payload: Option<String> = None;
        let outcome: SubturnOutcome = match self.handler.add(empty_feed.as_str(), true) {
            Err(e) => {
                let mut blob = String::new();
                blob.append("{\"result\":{\"error\":\"");
                let escaped = escape_json_string(e.as_str());
                blob.append(escaped.as_str());
                blob.append("\"},\"tool\":\"tool_call_parse_error\"}");
                proof {
                    reveal_strlit("{\"result\":{\"error\":\"");
                    reveal_strlit("\"},\"tool\":\"tool_call_parse_error\"}");
                    assert(blob@ =~= parse_error_blob(e@));
                }
                parse_error_payload = Some(blob);
                SubturnOutcome::RetryAfterParseError
            },
            Ok((_, _, calls)) => {
                if calls.len() == 0 {
                    SubturnOutcome::Finished(self.final_answer.clone())
                } else {
                    SubturnOutcome::RunCalls(calls)
                }
            },
        };
        if let Some(blob) = parse_error_payload {
            self.history.push(Message::Tool(blob));
            proof {
                assert(self.history_view() =~= h0.push(self.history@.last()@));
            }
        }
        let ghost h1 = self.history_view();
        if self.reasoning.unicode_len() > 0 {
            self.history.push(Message::Reasoning(self.reasoning.clone()));
            proof {
                assert(self.history_view() =~= h1.push(self.history@.last()@));
            }
        }
        let ghost h2 = self.history_view();
        if self.answer.unicode_len() > 0 {
            self.history.push(Message::Assistant(self.answer.clone()));
            proof {
                assert(self.history_view() =~= h2.push(self.history@.last()@));
            }
        }
        (actions, outcome)
    }

    /// Record a denied call: the history gets a tool message whose result
    /// says the user denied it.
    pub fn record_denied_call(&mut self, call: &ToolCall)
        ensures
            final(self).history_view() == old(self).history_view().push(
                MessageV::Tool(
                    tool_result_blob(
                        call.function.name@,
                        call.function.arguments@,
                        denied_result(),
                    ),
                ),
            ),
    {
        let denied = String::from_str("{\"error\":\"user denied\"}");
        proof {
            reveal_strlit("{\"error\":\"user denied\"}");
            assert(denied@ =~= denied_result());
        }
        self.record_tool_result(call, denied.as_str());
    }

    /// Record an executed call: the history gets a tool message carrying the
    /// arguments and the result verbatim.
    pub fn record_tool_result(&mut self, call: &ToolCall, result_json: &str)
        ensures
            final(self).history_view() == old(self).history_view().push(
                MessageV::Tool(
                    tool_result_blob(call.function.name@, call.function.arguments@, result_json@),
                ),
            ),
    {
        let mut blob = String::new();
        blob.append("{\"arguments\":");
        blob.append(call.function.arguments.as_str());
        blob.append(",\"result\":");
        blob.append(result_json);
        blob.append(",\"tool\":\"");
        let escaped = escape_json_string(call.function.name.as_str());
        blob.append(escaped.as_str());
        blob.append("\"}");
        proof {
            reveal_strlit("{\"arguments\":");
            reveal_strlit(",\"result\":");
            reveal_strlit(",\"tool\":\"");
            reveal_strlit("\"}");
            assert(blob@ =~= tool_result_blob(
                call.function.name@,
                call.function.arguments@,
                result_json@,
            ));
        }
        let ghost h0 = self.history_view();
        self.history.push(Message::Tool(blob));
        proof {
            assert(self.history_view() =~= h0.push(self.history@.last()@));
        }
    }

    /// The current history, to hand back to the caller between turns.
    pub fn take_history(self) -> (r: Vec<Message>)
        ensures
            messages_view(r@) == self.history_view(),
    {
        self.history
    }
}

/// The history entry a non-empty reasoning text becomes.
pub open spec fn reasoning_entry(t: Seq<char>) -> Seq<MessageV> {
    if t.len() > 0 {
        seq![MessageV::Reasoning(t)]
    } else {
        Seq::empty()
    }
}

/// The history entry a non-empty answer text becomes.
pub open spec fn answer_entry(t: Seq<char>) -> Seq<MessageV> {
    if t.len() > 0 {
        seq![MessageV::Assistant(t)]
    } else {
        Seq::empty()
    }
}

/// A Request frame view over a history.
pub open spec fn request_view(h: Seq<MessageV>) -> crate::protocol::FrameV {
    crate::protocol::FrameV::Request(h)
}

/// The backoff before reconnect attempt `attempt`: an exponential series
/// capped at 64 milliseconds.
pub fn backoff_ms(attempt: u64) -> (r: u64)
    ensures
        r == (1u64 << (if attempt < 6 {
            attempt
        } else {
            6u64
        })),
{
    let shift: u64 = if attempt < 6 {
        attempt
    } else {
        6
    };
    1u64 << shift
}

/// Whether a failed subturn read should be retried on a fresh connection: the
/// error must be a disconnect and the attempt budget must not be spent.
pub fn should_retry(is_disconnect: bool, attempt: u64, max_attempts: u64) -> (r: bool)
    ensures
        r == (is_disconnect && attempt < max_attempts),
{
    is_disconnect && attempt < max_attempts
}

} // verus!
