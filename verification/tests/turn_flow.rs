use please::engine::{DisplayAction, SubturnOutcome, TurnEngine};
use please::protocol::{Frame, Message};
use please::router::{Tool, ToolFunction};
use please::sandbox::{collapse_relative, is_absolute_path, path_starts_with, strip_seg_prefix};

fn tools() -> Vec<Tool> {
    vec![Tool {
        function: ToolFunction {
            name: Some("run_command".to_string()),
        },
    }]
}

#[test]
fn a_final_answer_finishes_the_turn() {
    let mut engine = TurnEngine::new(vec![Message::User("hi".into())]);
    let req = engine.begin_subturn(&tools());
    match req {
        Frame::Request { messages } => assert_eq!(messages.len(), 1),
        _ => panic!("expected a request"),
    }
    let (_, done) = engine.on_frame(&Frame::Answer(
        "<|channel|>final<|message|>sure thing<|end|>".to_string(),
    ));
    assert!(!done);
    let (_, done) = engine.on_frame(&Frame::Stop);
    assert!(done);
    let (_, outcome) = engine.end_subturn();
    match outcome {
        SubturnOutcome::Finished(answer) => assert_eq!(answer, "sure thing"),
        _ => panic!("expected the turn to finish"),
    }
    // the visible answer was also recorded in the history
    let history = engine.take_history();
    assert_eq!(history.len(), 2);
    match &history[1] {
        Message::Assistant(s) => assert_eq!(s, "sure thing"),
        other => panic!("unexpected entry: {:?}", other),
    }
}

#[test]
fn a_tool_call_extends_the_history_and_continues() {
    let mut engine = TurnEngine::new(vec![Message::User("list".into())]);
    let _ = engine.begin_subturn(&tools());
    let (_, _) = engine.on_frame(&Frame::Answer(
        "<|channel|>commentary to=functions.run_command<|message|>{\"argv\":[\"ls\"]}<|call|>"
            .to_string(),
    ));
    let (_, done) = engine.on_frame(&Frame::Stop);
    assert!(done);
    let (_, outcome) = engine.end_subturn();
    let calls = match outcome {
        SubturnOutcome::RunCalls(calls) => calls,
        _ => panic!("expected tool calls"),
    };
    assert_eq!(calls.len(), 1);
    assert_eq!(calls[0].function.name, "run_command");
    assert_eq!(calls[0].function.arguments, "{\"argv\":[\"ls\"]}");

    engine.record_tool_result(&calls[0], "{\"ok\":true}");
    let history = engine.take_history();
    assert_eq!(history.len(), 2);
    match &history[1] {
        Message::Tool(blob) => {
            assert_eq!(
                blob,
                "{\"arguments\":{\"argv\":[\"ls\"]},\"result\":{\"ok\":true},\"tool\":\"run_command\"}"
            );
        }
        other => panic!("unexpected entry: {:?}", other),
    }
}

#[test]
fn a_malformed_call_is_reported_for_retry() {
    let mut engine = TurnEngine::new(vec![Message::User("go".into())]);
    let _ = engine.begin_subturn(&tools());
    let (_, _) = engine.on_frame(&Frame::Answer(
        "<|channel|>commentary to=functions.run_command<|message|>{\"argv\": oops<|call|>"
            .to_string(),
    ));
    let (_, _) = engine.on_frame(&Frame::Stop);
    let (_, outcome) = engine.end_subturn();
    assert!(matches!(outcome, SubturnOutcome::RetryAfterParseError));
    let history = engine.take_history();
    assert_eq!(history.len(), 2);
    match &history[1] {
        Message::Tool(blob) => {
            assert!(blob.starts_with("{\"result\":{\"error\":\"error parsing tool call: raw='"));
            assert!(blob.ends_with("\"},\"tool\":\"tool_call_parse_error\"}"));
        }
        other => panic!("unexpected entry: {:?}", other),
    }
}

#[test]
fn reconnect_resends_the_whole_extended_history() {
    // After a disconnect mid-subturn the engine retries with the same history:
    // the next Request carries every message, including ones appended by an
    // earlier subturn.
    let mut engine = TurnEngine::new(vec![Message::User("step one".into())]);
    let _ = engine.begin_subturn(&tools());
    let (_, _) = engine.on_frame(&Frame::Answer(
        "<|channel|>commentary to=functions.run_command<|message|>{\"argv\":[\"ls\"]}<|call|>"
            .to_string(),
    ));
    let (_, _) = engine.on_frame(&Frame::Stop);
    let (_, outcome) = engine.end_subturn();
    let calls = match outcome {
        SubturnOutcome::RunCalls(calls) => calls,
        _ => panic!("expected tool calls"),
    };
    engine.record_tool_result(&calls[0], "{\"ok\":true}");

    // a disconnect happens here; the retry opens a new subturn
    let req = engine.begin_subturn(&tools());
    match req {
        Frame::Request { messages } => {
            assert_eq!(messages.len(), 2);
            assert!(matches!(messages[0], Message::User(_)));
            assert!(matches!(messages[1], Message::Tool(_)));
        }
        _ => panic!("expected a request"),
    }
    assert_eq!(please::engine::backoff_ms(0), 1);
    assert_eq!(please::engine::backoff_ms(3), 8);
    assert_eq!(please::engine::backoff_ms(9), 64);
    assert!(please::engine::should_retry(true, 2, 6));
    assert!(!please::engine::should_retry(true, 6, 6));
    assert!(!please::engine::should_retry(false, 0, 6));
}

#[test]
fn display_actions_follow_the_stream() {
    let mut engine = TurnEngine::new(Vec::new());
    let _ = engine.begin_subturn(&[]);
    let (actions, _) = engine.on_frame(&Frame::Answer(
        "<|channel|>analysis<|message|>mull<|end|>".to_string(),
    ));
    let kinds: Vec<String> = actions.iter().map(|a| format!("{:?}", a)).collect();
    assert_eq!(
        kinds,
        vec![
            "StartThinking".to_string(),
            "ShowDelta(\"mull\")".to_string(),
            "EndThinking".to_string(),
        ]
    );
    let (actions, _) = engine.on_frame(&Frame::Log("note".to_string()));
    assert!(matches!(&actions[0], DisplayAction::ShowLog(s) if s == "note"));
}

#[test]
fn sandbox_rejects_escapes_and_keeps_containment() {
    // `..` that climbs above the workspace is refused.
    assert!(collapse_relative("a/../../etc").is_err());
    // ordinary collapses succeed
    assert_eq!(collapse_relative("").unwrap(), Vec::<String>::new());
    assert_eq!(collapse_relative(".").unwrap(), Vec::<String>::new());
    assert_eq!(
        collapse_relative("./a/../b").unwrap(),
        vec!["b".to_string()]
    );
    assert!(!is_absolute_path("./a"));
    assert!(is_absolute_path("/etc/passwd"));

    // containment check over canonicalized segments
    let root = vec!["home".to_string(), "user".to_string(), "ws".to_string()];
    let inside = vec![
        "home".to_string(),
        "user".to_string(),
        "ws".to_string(),
        "x".to_string(),
    ];
    let outside = vec!["etc".to_string(), "passwd".to_string()];
    assert!(path_starts_with(&inside, &root));
    assert!(!path_starts_with(&outside, &root));
    assert_eq!(strip_seg_prefix(&inside, &root), vec!["x".to_string()]);
}

#[test]
fn initial_history_carries_the_preamble_and_notes() {
    let history = please::history::make_history(
        Some("  piped input  ".to_string()),
        Some("out.txt".to_string()),
        "2026-01-02",
        "medium",
    );
    assert_eq!(history.len(), 5);
    match &history[0] {
        Message::System(s) => {
            assert!(s.contains("Current date: 2026-01-02"));
            assert!(s.contains("Reasoning: medium"));
            assert!(s.contains("Knowledge cutoff: 2024-06"));
            assert!(!s.contains("@today@"));
        }
        other => panic!("unexpected entry: {:?}", other),
    }
    match &history[2] {
        Message::Developer(s) => assert_eq!(s, "The next message is the full stdin content."),
        other => panic!("unexpected entry: {:?}", other),
    }
    match &history[3] {
        Message::Developer(s) => assert_eq!(s, "piped input"),
        other => panic!("unexpected entry: {:?}", other),
    }
    match &history[4] {
        Message::Developer(s) => assert!(s.contains("redirected to file named `out.txt`")),
        other => panic!("unexpected entry: {:?}", other),
    }
    assert_eq!(please::history::reasoning_level(Some(" High ")), "high");
    assert_eq!(please::history::reasoning_level(Some("effort")), "low");
    assert_eq!(please::history::reasoning_level(None), "medium");
}

#[test]
fn a_denied_call_is_recorded_as_an_error() {
    let mut engine = TurnEngine::new(Vec::new());
    let _ = engine.begin_subturn(&tools());
    let (_, _) = engine.on_frame(&Frame::Answer(
        "<|channel|>commentary to=functions.run_command<|message|>{\"argv\":[\"rm\"]}<|call|>"
            .to_string(),
    ));
    let (_, _) = engine.on_frame(&Frame::Stop);
    let (_, outcome) = engine.end_subturn();
    let calls = match outcome {
        SubturnOutcome::RunCalls(calls) => calls,
        _ => panic!("expected tool calls"),
    };
    engine.record_denied_call(&calls[0]);
    let history = engine.take_history();
    match &history[0] {
        Message::Tool(blob) => assert_eq!(
            blob,
            "{\"arguments\":{\"argv\":[\"rm\"]},\"result\":{\"error\":\"user denied\"},\"tool\":\"run_command\"}"
        ),
        other => panic!("unexpected entry: {:?}", other),
    }
}

#[test]
fn tool_names_are_escaped_in_recorded_blobs() {
    assert_eq!(
        please::engine::escape_json_string("a\"b\\c\nd"),
        "a\\\"b\\\\c\\nd"
    );
    assert_eq!(please::engine::escape_json_string("\u{1}"), "\\u0001");
}

#[test]
fn connect_errors_name_the_socket() {
    let e = please::protocol::ConnectError::NoListener {
        path: "/tmp/sock".to_string(),
    };
    assert_eq!(e.message(), "no listener at: /tmp/sock");
    let e = please::protocol::ProtocolError::Decode("bad frame".to_string());
    assert_eq!(e.message(), "decode error: bad frame");
    assert!(!e.is_disconnect());
    assert!(please::protocol::ProtocolError::Disconnect.is_disconnect());
}
