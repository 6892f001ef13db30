use please::detok::Detokenizer;
use please::harmony::{HarmonyEvent, HarmonyParser};
use please::kv::{clamp_preamble_len, clip_tokens, compact_window};

fn run_whole(input: &str) -> Vec<HarmonyEvent> {
    let mut p = HarmonyParser::new();
    p.add_content(input)
}

fn run_chunked(input: &str, step: usize) -> Vec<HarmonyEvent> {
    let mut p = HarmonyParser::new();
    let mut events = Vec::new();
    let chars: Vec<char> = input.chars().collect();
    let mut i = 0;
    while i < chars.len() {
        let end = usize::min(i + step, chars.len());
        let piece: String = chars[i..end].iter().collect();
        events.extend(p.add_content(&piece));
        i = end;
    }
    events
}

fn flatten(events: &[HarmonyEvent]) -> String {
    let mut out = String::new();
    for ev in events {
        match ev {
            HarmonyEvent::MessageStart => out.push_str("<S>"),
            HarmonyEvent::HeaderComplete { header } => {
                out.push_str(&format!("<H {}|{}|{}>", header.role, header.channel, header.recipient))
            }
            HarmonyEvent::ContentEmitted { content } => out.push_str(content),
            HarmonyEvent::MessageEnd => out.push_str("<E>"),
        }
    }
    out
}

#[test]
fn chunked_feeding_yields_the_same_stream() {
    let input = "<|start|>assistant<|channel|>analysis<|message|>first thought<|end|>\
<|start|>assistant<|channel|>commentary to=functions.run_command <|constrain|>json<|message|>{\"argv\":[\"ls\"]}<|call|>\
<|start|>assistant<|channel|>final<|message|>done here<|end|>";
    let whole = flatten(&run_whole(input));
    for step in 1..=17 {
        let chunked = flatten(&run_chunked(input, step));
        assert_eq!(chunked, whole, "step {}", step);
    }
}

#[test]
fn split_inside_every_tag_is_safe() {
    let input = "<|start|>assistant<|channel|>final<|message|>abc<|end|>";
    let whole = flatten(&run_whole(input));
    let chars: Vec<char> = input.chars().collect();
    for cut in 1..chars.len() {
        let mut p = HarmonyParser::new();
        let first: String = chars[..cut].iter().collect();
        let second: String = chars[cut..].iter().collect();
        let mut events = p.add_content(&first);
        events.extend(p.add_content(&second));
        assert_eq!(flatten(&events), whole, "cut {}", cut);
    }
    let call_input = "<|start|>assistant<|channel|>commentary to=functions.x<|message|>{}<|call|>";
    let call_whole = flatten(&run_whole(call_input));
    let call_chars: Vec<char> = call_input.chars().collect();
    for cut in 1..call_chars.len() {
        let mut p = HarmonyParser::new();
        let first: String = call_chars[..cut].iter().collect();
        let second: String = call_chars[cut..].iter().collect();
        let mut events = p.add_content(&first);
        events.extend(p.add_content(&second));
        assert_eq!(flatten(&events), call_whole, "cut {}", cut);
    }
}

#[test]
fn detokenizer_emits_only_valid_utf8() {
    let text = "caf\u{e9} \u{1f600} ok";
    let bytes = text.as_bytes();
    for step in 1..=5 {
        let mut d = Detokenizer::new();
        let mut collected = Vec::new();
        let mut i = 0;
        while i < bytes.len() {
            let end = usize::min(i + step, bytes.len());
            let piece = d.feed(&bytes[i..end]);
            // every piece must decode on its own
            let s = String::from_utf8(piece.clone()).expect("piece is valid");
            collected.push(s);
            i = end;
        }
        assert!(d.finish().is_none(), "step {}", step);
        assert_eq!(collected.concat(), text, "step {}", step);
    }
}

#[test]
fn detokenizer_replaces_dangling_tail() {
    let mut d = Detokenizer::new();
    // A dangling lead byte of a two-byte sequence.
    let piece = d.feed(&[b'h', b'i', 0xC3]);
    assert_eq!(piece, b"hi");
    let fixup = d.finish().expect("tail remains");
    assert_eq!(fixup, "\u{fffd}".as_bytes());
    assert!(d.finish().is_none());
}

#[test]
fn clipping_pins_the_preamble_and_the_recent_tail() {
    let toks: Vec<u32> = (0..100).collect();
    let preamble = clamp_preamble_len(10, 32);
    assert_eq!(preamble, 10);
    let clipped = clip_tokens(&toks, preamble, 32);
    assert_eq!(clipped.len(), 31);
    assert_eq!(&clipped[..10], &toks[..10]);
    assert_eq!(&clipped[10..], &toks[79..]);

    // A prompt that fits is untouched.
    let short: Vec<u32> = (0..20).collect();
    assert_eq!(clip_tokens(&short, preamble, 32), short);

    // An oversized preamble request is clamped below the capacity.
    assert_eq!(clamp_preamble_len(100, 32), 31);
}

#[test]
fn compaction_preserves_preamble_across_rounds() {
    let preamble_len = 8;
    let ctx_cap = 512;
    let mut rolling: Vec<u32> = (0..600).collect();
    let initial_preamble: Vec<u32> = rolling[..preamble_len].to_vec();
    for round in 0..5 {
        rolling = compact_window(&rolling, preamble_len, ctx_cap);
        assert_eq!(&rolling[..preamble_len], &initial_preamble[..], "round {}", round);
        assert!(rolling.len() <= ctx_cap - 1, "round {}", round);
        // headroom: the very next decoded token cannot trigger another rebuild
        assert!(rolling.len() + 1 < ctx_cap, "round {}", round);
        // generate some more tokens
        for t in 0..300u32 {
            rolling.push(1000 + t);
        }
    }
}
