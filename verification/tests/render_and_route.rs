use please::harmony::{HarmonyEvent, HarmonyParser};
use please::protocol::Message;
use please::router::{HarmonyMessageHandler, Tool, ToolFunction};
use please::templating::render_prompt_from_history;

#[test]
fn tool_call_and_result_are_wired() {
    let msgs = &[
            Message::User("size?".into()),
            Message::Tool(r#"{ "tool":"run_command", "arguments":{"argv":["bash","-lc","du -sh target src"]}, "result":{"ok":true}}"#.into()),
        ];
    let p = render_prompt_from_history(msgs, true);
    assert!(p.contains("assistant<|channel|>commentary to=functions.run_command"));
    assert!(p.contains(
        "<|constrain|>json<|message|>{\"argv\":[\"bash\",\"-lc\",\"du -sh target src\"]}<|call|>"
    ));
    assert!(p.contains(
        "<|start|>functions.run_command to=assistant<|channel|>commentary<|message|>{\"ok\":true}<|end|>"
    ));
    assert!(p.ends_with("<|start|>assistant"));
}

#[test]
fn rendered_history_parses_back() {
    let msgs = &[
        Message::System("be brief".into()),
        Message::User("hello".into()),
        Message::Reasoning("thinking hard".into()),
        Message::Assistant("hi there".into()),
    ];
    let text = render_prompt_from_history(msgs, false);
    let mut parser = HarmonyParser::new();
    let events = parser.add_content(&text);

    let mut headers: Vec<(String, String)> = Vec::new();
    let mut bodies: Vec<String> = Vec::new();
    let mut current = String::new();
    for ev in events {
        match ev {
            HarmonyEvent::MessageStart => current.clear(),
            HarmonyEvent::HeaderComplete { header } => {
                headers.push((header.role, header.channel));
            }
            HarmonyEvent::ContentEmitted { content } => current.push_str(&content),
            HarmonyEvent::MessageEnd => {
                bodies.push(std::mem::take(&mut current));
            }
        }
    }
    assert_eq!(
        headers,
        vec![
            ("system".to_string(), "".to_string()),
            ("user".to_string(), "".to_string()),
            ("assistant".to_string(), "analysis".to_string()),
            ("assistant".to_string(), "final".to_string()),
        ]
    );
    assert_eq!(bodies, vec!["be brief", "hello", "thinking hard", "hi there"]);
}

#[test]
fn malformed_tool_json_is_reported() {
    let mut handler = HarmonyMessageHandler::new();
    let tools = [Tool {
        function: ToolFunction {
            name: Some("run_command".to_string()),
        },
    }];
    let _ = handler.init(&tools, None);
    let _ = handler
        .add(
            "<|channel|>commentary to=functions.run_command<|message|>{\"argv\": [\"ls\"",
            false,
        )
        .unwrap();
    let err = handler.add("<|call|>", true).unwrap_err();
    assert!(err.starts_with("error parsing tool call: raw='"));
}

#[test]
fn well_formed_tool_json_becomes_a_call() {
    let mut handler = HarmonyMessageHandler::new();
    let tools = [Tool {
        function: ToolFunction {
            name: Some("get weather".to_string()),
        },
    }];
    let offered = handler.init(&tools, None);
    assert_eq!(offered[0].function.name.as_deref(), Some("get_weather"));

    let (answer, thinking, calls) = handler
        .add(
            "<|channel|>commentary to=functions.get_weather<|message|>{\"city\":\"Oslo\"}<|call|>",
            true,
        )
        .unwrap();
    assert_eq!(answer, "");
    assert_eq!(thinking, "");
    assert_eq!(calls.len(), 1);
    assert_eq!(calls[0].function.name, "get weather");
    assert_eq!(calls[0].function.arguments, "{\"city\":\"Oslo\"}");
}

#[test]
fn analysis_and_final_are_routed_apart() {
    let mut handler = HarmonyMessageHandler::new();
    let _ = handler.init(&[], None);
    let (answer, thinking, calls) = handler
        .add(
            "<|channel|>analysis<|message|>pondering<|end|><|start|>assistant<|channel|>final<|message|>result<|end|>",
            true,
        )
        .unwrap();
    assert_eq!(thinking, "pondering");
    assert_eq!(answer, "result");
    assert!(calls.is_empty());
}
