//! Prompt renderer: serializes a message history into Harmony wire text, with
//! the tool-call and tool-result segment shapes the model was trained on.
use vstd::prelude::*;

use crate::chars::{extend_chars, to_chars, to_string_vec};
use crate::harmony::{
    assistant_seq, call_tag, channel_tag, constrain_tag, end_tag, implicit_start_seq, message_tag,
    start_tag, to_marker,
};
use crate::protocol::{messages_view, Message, MessageV};
use crate::router::{commentary_seq, final_channel_seq, functions_prefix};

verus! {

/// The word `json` that constrains a tool-call body.
pub open spec fn json_word() -> Seq<char> {
    seq!['j', 's', 'o', 'n']
}

/// The role name `system`.
pub open spec fn system_seq() -> Seq<char> {
    seq!['s', 'y', 's', 't', 'e', 'm']
}

/// The role name `developer`.
pub open spec fn developer_seq() -> Seq<char> {
    seq!['d', 'e', 'v', 'e', 'l', 'o', 'p', 'e', 'r']
}

/// The role name `user`.
pub open spec fn user_seq() -> Seq<char> {
    seq!['u', 's', 'e', 'r']
}

/// The channel name `analysis`, re-exported shape for rendering.
pub open spec fn analysis_channel() -> Seq<char> {
    crate::harmony::analysis_seq()
}

/// A plain role segment: `<|start|>ROLE<|message|>BODY<|end|>`.
pub open spec fn plain_segment(role: Seq<char>, body: Seq<char>) -> Seq<char> {
    start_tag() + role + message_tag() + body + end_tag()
}

/// An assistant segment with an explicit channel:
/// `<|start|>assistant<|channel|>CHANNEL<|message|>BODY<|end|>`.
pub open spec fn assistant_segment(channel: Seq<char>, body: Seq<char>) -> Seq<char> {
    start_tag() + assistant_seq() + channel_tag() + channel + message_tag() + body + end_tag()
}

/// A tool-call segment:
/// `<|start|>assistant<|channel|>commentary to=functions.TOOL
/// <|constrain|>json<|message|>ARGS<|call|>`.
pub open spec fn call_segment(tool: Seq<char>, args: Seq<char>) -> Seq<char> {
    start_tag() + assistant_seq() + channel_tag() + commentary_seq() + seq![' '] + to_marker()
        + functions_prefix() + tool + seq![' '] + constrain_tag() + json_word() + message_tag()
        + args + call_tag()
}

/// A tool-result segment:
/// `<|start|>functions.TOOL to=assistant<|channel|>commentary<|message|>PAYLOAD<|end|>`.
pub open spec fn result_segment(tool: Seq<char>, payload: Seq<char>) -> Seq<char> {
    start_tag() + functions_prefix() + tool + seq![' '] + to_marker() + assistant_seq()
        + channel_tag() + commentary_seq() + message_tag() + payload + end_tag()
}

/// What the renderer reads out of a tool-message JSON blob.
pub struct ToolBlob {
    pub parsed: bool,
    pub tool: String,
    pub has_arguments: bool,
    pub arguments_json: String,
    pub has_result: bool,
    pub result_payload: String,
}

/// Mathematical view of a parsed tool blob.
pub struct ToolBlobV {
    pub parsed: bool,
    pub tool: Seq<char>,
    pub args: Option<Seq<char>>,
    pub result: Option<Seq<char>>,
}

impl View for ToolBlob {
    type V = ToolBlobV;

    open spec fn view(&self) -> ToolBlobV {
        ToolBlobV {
            parsed: self.parsed,
            tool: self.tool@,
            args: if self.has_arguments {
                Some(self.arguments_json@)
            } else {
                None
            },
            result: if self.has_result {
                Some(self.result_payload@)
            } else {
                None
            },
        }
    }
}

/// What a tool-message blob holds: whether it parses as JSON, its `tool`
/// field as a string, the compact serialization of its `arguments` field, and
/// its `result` field (a string's content, other values serialized). A
/// function of the text alone.
pub uninterp spec fn tool_blob_of(s: Seq<char>) -> ToolBlobV;

/// Relies on serde_json::from_str, Value::get, Value::as_str and
/// serde_json::to_string: the fields a tool blob holds are a function of the
/// JSON text alone.
#[verifier::external_body]
fn read_tool_blob(s: &str) -> (r: Option<(String, Option<String>, Option<String>)>)
    ensures
        (r is Some) == tool_blob_of(s@).parsed,
        r matches Some(t) ==> tool_blob_of(s@).tool == t.0@ && (match t.1 {
            Some(a) => tool_blob_of(s@).args == Some(a@),
            None => tool_blob_of(s@).args is None,
        }) && (match t.2 {
            Some(p) => tool_blob_of(s@).result == Some(p@),
            None => tool_blob_of(s@).result is None,
        }),
{
    let v: serde_json::Value = serde_json::from_str(s).ok()?;
    let tool = v.get("tool").and_then(serde_json::Value::as_str).unwrap_or_default().to_string();
    let args = v.get("arguments").map(|a| serde_json::to_string(a).unwrap_or_else(|_| "{}".into()));
    let res = v.get("result").map(|r| match r.as_str() {
        Some(text) => text.to_owned(),
        None => serde_json::to_string(r).unwrap_or_else(|_| "null".into()),
    });
    Some((tool, args, res))
}

/// Read a tool blob into its parsed form, as `tool_blob_of` names it; the
/// fields of a blob that did not parse are empty and unused.
fn parse_tool_blob(s: &str) -> (r: ToolBlob)
    ensures
        r@.parsed == tool_blob_of(s@).parsed,
        r@.parsed ==> r@ == tool_blob_of(s@),
{
    match read_tool_blob(s) {
        None => {
            ToolBlob {
                parsed: false,
                tool: String::new(),
                has_arguments: false,
                arguments_json: String::new(),
                has_result: false,
                result_payload: String::new(),
            }
        },
        Some((tool, args, res)) => {
            let (has_arguments, arguments_json) = match args {
                Some(a) => (true, a),
                None => (false, String::new()),
            };
            let (has_result, result_payload) = match res {
                Some(p) => (true, p),
                None => (false, String::new()),
            };
            ToolBlob { parsed: true, tool, has_arguments, arguments_json, has_result, result_payload }
        },
    }
}


/// The wire text of one message. A tool message renders its call segment when
/// it has arguments and its result segment when it has a result; with
/// neither, the whole blob is the result payload; malformed JSON falls back
/// to an assistant commentary segment.
pub open spec fn render_message(m: MessageV) -> Seq<char> {
    match m {
        MessageV::System(s) => plain_segment(system_seq(), s),
        MessageV::Developer(s) => plain_segment(developer_seq(), s),
        MessageV::User(s) => plain_segment(user_seq(), s),
        MessageV::Assistant(s) => assistant_segment(final_channel_seq(), s),
        MessageV::Reasoning(s) => assistant_segment(analysis_channel(), s),
        MessageV::Tool(s) => {
            let b = tool_blob_of(s);
            if !b.parsed {
                assistant_segment(commentary_seq(), s)
            } else {
                (if b.args is Some {
                    call_segment(b.tool, b.args->0)
                } else {
                    Seq::empty()
                }) + (if b.result is Some {
                    result_segment(b.tool, b.result->0)
                } else {
                    Seq::empty()
                }) + (if b.args is None && b.result is None {
                    result_segment(b.tool, s)
                } else {
                    Seq::empty()
                })
            }
        },
    }
}

/// The wire text of a history: each message's text in order.
pub open spec fn render_messages(h: Seq<MessageV>) -> Seq<char>
    decreases h.len(),
{
    if h.len() == 0 {
        Seq::empty()
    } else {
        render_message(h[0]) + render_messages(h.drop_first())
    }
}

/// `render_messages` distributes over concatenation.
pub proof fn lemma_render_messages_add(a: Seq<MessageV>, b: Seq<MessageV>)
    ensures
        render_messages(a + b) == render_messages(a) + render_messages(b),
    decreases a.len(),
{
    if a.len() == 0 {
        assert(a + b =~= b);
        assert(render_messages(a) + render_messages(b) =~= render_messages(b));
    } else {
        assert((a + b).drop_first() =~= a.drop_first() + b);
        lemma_render_messages_add(a.drop_first(), b);
        assert(render_messages(a + b) =~= render_messages(a) + render_messages(b));
    }
}

/// The full prompt: every message rendered in order, then a bare
/// `<|start|>assistant` cue when requested.
pub open spec fn render_spec(h: Seq<MessageV>, append_assistant_start: bool) -> Seq<char> {
    render_messages(h) + if append_assistant_start {
        implicit_start_seq()
    } else {
        Seq::empty()
    }
}

/// A plain role segment, computed.
fn plain_segment_vec(role: &[char], body: &str) -> (r: Vec<char>)
    ensures
        r@ == plain_segment(role@, body@),
{
    let mut out = crate::harmony::start_tag_vec();
    extend_chars(&mut out, role);
    let mt = crate::harmony::message_tag_vec();
    extend_chars(&mut out, mt.as_slice());
    let b = to_chars(body);
    extend_chars(&mut out, b.as_slice());
    let et = crate::harmony::end_tag_vec();
    extend_chars(&mut out, et.as_slice());
    proof {
        assert(out@ =~= plain_segment(role@, body@));
    }
    out
}

/// An assistant segment with a channel, computed.
fn assistant_segment_vec(channel: &[char], body: &str) -> (r: Vec<char>)
    ensures
        r@ == assistant_segment(channel@, body@),
{
    let head = to_chars("<|start|>assistant<|channel|>");
    proof {
        reveal_strlit("<|start|>assistant<|channel|>");
        assert(head@ =~= start_tag() + assistant_seq() + channel_tag());
    }
    let mut out = head;
    extend_chars(&mut out, channel);
    let mt = crate::harmony::message_tag_vec();
    extend_chars(&mut out, mt.as_slice());
    let b = to_chars(body);
    extend_chars(&mut out, b.as_slice());
    let et = crate::harmony::end_tag_vec();
    extend_chars(&mut out, et.as_slice());
    proof {
        assert(out@ =~= assistant_segment(channel@, body@));
    }
    out
}

/// A tool-call segment, computed.
fn call_segment_vec(tool: &str, args: &str) -> (r: Vec<char>)
    ensures
        r@ == call_segment(tool@, args@),
{
    let head = to_chars("<|start|>assistant<|channel|>commentary to=functions.");
    proof {
        reveal_strlit("<|start|>assistant<|channel|>commentary to=functions.");
        assert(head@ =~= start_tag() + assistant_seq() + channel_tag() + commentary_seq() + seq![
            ' ',
        ] + to_marker() + functions_prefix());
    }
    let mut out = head;
    let t = to_chars(tool);
    extend_chars(&mut out, t.as_slice());
    let mid = to_chars(" <|constrain|>json<|message|>");
    proof {
        reveal_strlit(" <|constrain|>json<|message|>");
        assert(mid@ =~= seq![' '] + constrain_tag() + json_word() + message_tag());
    }
    extend_chars(&mut out, mid.as_slice());
    let a = to_chars(args);
    extend_chars(&mut out, a.as_slice());
    let ct = crate::harmony::call_tag_vec();
    extend_chars(&mut out, ct.as_slice());
    proof {
        assert(out@ =~= call_segment(tool@, args@));
    }
    out
}

/// A tool-result segment, computed.
fn result_segment_vec(tool: &str, payload: &str) -> (r: Vec<char>)
    ensures
        r@ == result_segment(tool@, payload@),
{
    let head = to_chars("<|start|>functions.");
    proof {
        reveal_strlit("<|start|>functions.");
        assert(head@ =~= start_tag() + functions_prefix());
    }
    let mut out = head;
    let t = to_chars(tool);
    extend_chars(&mut out, t.as_slice());
    let mid = to_chars(" to=assistant<|channel|>commentary<|message|>");
    proof {
        reveal_strlit(" to=assistant<|channel|>commentary<|message|>");
        assert(mid@ =~= seq![' '] + to_marker() + assistant_seq() + channel_tag()
            + commentary_seq() + message_tag());
    }
    extend_chars(&mut out, mid.as_slice());
    let p = to_chars(payload);
    extend_chars(&mut out, p.as_slice());
    let et = crate::harmony::end_tag_vec();
    extend_chars(&mut out, et.as_slice());
    proof {
        assert(out@ =~= result_segment(tool@, payload@));
    }
    out
}

/// The wire text of one message, computed.
fn render_message_vec(m: &Message) -> (r: Vec<char>)
    ensures
        r@ == render_message(m@),
{
    match m {
        Message::System(s) => {
            let role = to_chars("system");
            proof {
                reveal_strlit("system");
                assert(role@ =~= system_seq());
            }
            plain_segment_vec(role.as_slice(), s.as_str())
        },
        Message::Developer(s) => {
            let role = to_chars("developer");
            proof {
                reveal_strlit("developer");
                assert(role@ =~= developer_seq());
            }
            plain_segment_vec(role.as_slice(), s.as_str())
        },
        Message::User(s) => {
            let role = to_chars("user");
            proof {
                reveal_strlit("user");
                assert(role@ =~= user_seq());
            }
            plain_segment_vec(role.as_slice(), s.as_str())
        },
        Message::Assistant(s) => {
            let chan = to_chars("final");
            proof {
                reveal_strlit("final");
                assert(chan@ =~= final_channel_seq());
            }
            assistant_segment_vec(chan.as_slice(), s.as_str())
        },
        Message::Reasoning(s) => {
            let chan = to_chars("analysis");
            proof {
                reveal_strlit("analysis");
                assert(chan@ =~= analysis_channel());
            }
            assistant_segment_vec(chan.as_slice(), s.as_str())
        },
        Message::Tool(s) => {
            let blob = parse_tool_blob(s.as_str());
            if !blob.parsed {
                let chan = to_chars("commentary");
                proof {
                    reveal_strlit("commentary");
                    assert(chan@ =~= commentary_seq());
                }
                assistant_segment_vec(chan.as_slice(), s.as_str())
            } else {
                let mut out: Vec<char> = Vec::new();
                if blob.has_arguments {
                    let seg = call_segment_vec(blob.tool.as_str(), blob.arguments_json.as_str());
                    extend_chars(&mut out, seg.as_slice());
                }
                if blob.has_result {
                    let seg = result_segment_vec(blob.tool.as_str(), blob.result_payload.as_str());
                    extend_chars(&mut out, seg.as_slice());
                }
                if !blob.has_arguments && !blob.has_result {
                    let seg = result_segment_vec(blob.tool.as_str(), s.as_str());
                    extend_chars(&mut out, seg.as_slice());
                }
                proof {
                    assert(out@ =~= render_message(m@));
                }
                out
            }
        },
    }
}

/// Render a history into Harmony wire text, as `render_spec` describes;
/// `append_assistant_start` cues the model's next turn.
pub fn render_prompt_from_history(messages: &[Message], append_assistant_start: bool) -> (r:
    String)
    ensures
        r@ == render_spec(messages_view(messages@), append_assistant_start),
{
    let mut out: Vec<char> = Vec::new();
    let mut i: usize = 0;
    proof {
        assert(out@ =~= render_messages(messages_view(messages@).take(0)));
    }
    while i < messages.len()
        invariant
            i <= messages@.len(),
            out@ == render_messages(messages_view(messages@).take(i as int)),
        decreases messages@.len() - i,
    {
        let ghost pre = out@;
        let seg = render_message_vec(&messages[i]);
        extend_chars(&mut out, seg.as_slice());
        proof {
            let mv = messages_view(messages@);
            assert(mv.take(i + 1) =~= mv.take(i as int) + seq![mv[i as int]]);
            lemma_render_messages_add(mv.take(i as int), seq![mv[i as int]]);
            assert(seq![mv[i as int]].drop_first() =~= Seq::<MessageV>::empty());
            assert(render_messages(Seq::<MessageV>::empty()) =~= Seq::<char>::empty());
            assert(render_messages(seq![mv[i as int]]) =~= render_message(mv[i as int]));
            assert(mv[i as int] == messages@[i as int]@);
            assert(out@ =~= render_messages(mv.take(i + 1)));
        }
        i = i + 1;
    }
    proof {
        assert(messages_view(messages@).take(messages@.len() as int) =~= messages_view(messages@));
    }
    if append_assistant_start {
        let cue = to_chars("<|start|>assistant");
        proof {
            reveal_strlit("<|start|>assistant");
            assert(cue@ =~= implicit_start_seq());
        }
        extend_chars(&mut out, cue.as_slice());
    }
    proof {
        assert(out@ =~= render_spec(messages_view(messages@), append_assistant_start));
    }
    to_string_vec(out.as_slice())
}

} // verus!
