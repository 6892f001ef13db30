//! The initial session history: the system preamble with its date and
//! reasoning placeholders filled in, the tool guidance, and the optional
//! stdin and redirection notes.
use vstd::prelude::*;

use crate::chars::{
    extend_chars, first_match, lemma_first_match, lower_seq, starts_with_spec, subrange_vec,
    to_chars, to_lower, to_string_vec, trim, trim_spec,
};
use crate::protocol::{messages_view, Message, MessageV};

verus! {

/// The text with every occurrence of a non-empty pattern replaced.
pub open spec fn replace_all(s: Seq<char>, pat: Seq<char>, rep: Seq<char>) -> Seq<char>
    decreases s.len() via replace_all_decreases
{
    if pat.len() == 0 {
        s
    } else {
        match first_match(s, pat) {
            None => s,
            Some(i) => s.take(i) + rep + replace_all(s.skip(i + pat.len()), pat, rep),
        }
    }
}

#[via_fn]
proof fn replace_all_decreases(s: Seq<char>, pat: Seq<char>, rep: Seq<char>) {
    lemma_first_match(s, pat);
}

/// Replace every occurrence of a pattern, as `replace_all` describes.
pub fn replace_all_exec(s: &str, pat: &str, rep: &str) -> (r: String)
    ensures
        r@ == replace_all(s@, pat@, rep@),
{
    let sv = to_chars(s);
    let pv = to_chars(pat);
    let rv = to_chars(rep);
    if pv.len() == 0 {
        return to_string_vec(sv.as_slice());
    }
    let mut out: Vec<char> = Vec::new();
    let mut pos: usize = 0;
    let total: usize = sv.len();
    proof {
        assert(sv@.skip(0) =~= sv@);
        assert(out@ + replace_all(sv@.skip(0), pat@, rep@) =~= replace_all(sv@, pat@, rep@));
    }
    loop
        invariant_except_break
            pos <= total,
            total == sv@.len(),
            pv@ == pat@,
            rv@ == rep@,
            pv@.len() >= 1,
            replace_all(sv@, pat@, rep@) == out@ + replace_all(sv@.skip(pos as int), pat@, rep@),
        ensures
            out@ == replace_all(sv@, pat@, rep@),
        decreases total - pos,
    {
        let ghost rest = sv@.skip(pos as int);
        let ghost pre = out@;
        let window = subrange_vec(sv.as_slice(), pos, total);
        match crate::chars::find_subseq(window.as_slice(), pv.as_slice()) {
            None => {
                extend_chars(&mut out, window.as_slice());
                proof {
                    assert(window@ =~= rest);
                    assert(replace_all(rest, pat@, rep@) == rest);
                    assert(out@ =~= replace_all(sv@, pat@, rep@));
                }
                break ;
            },
            Some(i) => {
                proof {
                    lemma_first_match(window@, pat@);
                    assert(window@ =~= rest);
                }
                extend_chars(&mut out, subrange_vec(window.as_slice(), 0, i).as_slice());
                extend_chars(&mut out, rv.as_slice());
                proof {
                    assert(replace_all(rest, pat@, rep@) == rest.take(i as int) + rep@
                        + replace_all(rest.skip(i + pat@.len()), pat@, rep@));
                    assert(window@.subrange(0, i as int) =~= rest.take(i as int));
                    assert(rest.skip(i + pat@.len()) =~= sv@.skip(pos + i + pat@.len()));
                    assert(out@ =~= pre + rest.take(i as int) + rep@);
                }
                pos = pos + i + pv.len();
            },
        }
    }
    to_string_vec(out.as_slice())
}

/// The preamble text's view, for contracts: the identity and channel
/// discipline text with its cutoff, date and reasoning placeholders.
pub open spec fn system_preamble_view() -> Seq<char> {
    "You are a terminal coding assistant.\nFollow the user\x27s explicit instructions precisely"@
        + " and operate on their local environment when asked.\nYou can call tools to discover and mo"@
        + "dify the environment; avoid tool calls when the intent is clear from context.\nKnowledge c"@
        + "utoff: @cutoff@\nCurrent date: @today@\nReasoning: @reasoning@\n\nValid channels: \x60anal"@
        + "ysis\x60, \x60commentary\x60, \x60final\x60. Every assistant message must include a channe"@
        + "l.\nTool calls must be sent in the commentary channel with a recipient: \x60to=functions.<"@
        + "name>\x60 and pure JSON args only.\nIn commentary, output only JSON for the tool arguments"@
        + " with no extra text. Keep final answers concise and actionable.\n"@
}

/// The raw preamble text with its placeholders.
pub fn system_preamble_text() -> (r: String)
    ensures
        r@ == system_preamble_view(),
{
    let mut r = String::new();
    r.append("You are a terminal coding assistant.\nFollow the user\x27s explicit instructions precisely");
    r.append(" and operate on their local environment when asked.\nYou can call tools to discover and mo");
    r.append("dify the environment; avoid tool calls when the intent is clear from context.\nKnowledge c");
    r.append("utoff: @cutoff@\nCurrent date: @today@\nReasoning: @reasoning@\n\nValid channels: \x60anal");
    r.append("ysis\x60, \x60commentary\x60, \x60final\x60. Every assistant message must include a channe");
    r.append("l.\nTool calls must be sent in the commentary channel with a recipient: \x60to=functions.<");
    r.append("name>\x60 and pure JSON args only.\nIn commentary, output only JSON for the tool arguments");
    r.append(" with no extra text. Keep final answers concise and actionable.\n");
    proof {
        assert(r@ =~= system_preamble_view());
    }
    r
}


/// What the model is told about the tools it can call.
pub fn tool_guidance_text() -> (r: String)
    ensures
        r@ == tool_guidance_view(),
{
    let mut r = String::new();
    r.append("# Tool calling instructions\nCall tools in the \x60commentary\x60 channel with a recipient");
    r.append(": \x60to=functions.<name>\x60 and pure JSON args only.\nJSON only - no prose, no comments,");
    r.append(" no trailing commas.\nUse the exact function name from the tool list.\n\nYou will not see ");
    r.append("prior tool call contents in later turns - only the last \x60final\x60 reply.\nIf you need ");
    r.append("earlier data \x28such as a file\x27s contents\x29, re-read or re-fetch it, or reason from ");
    r.append("your last answer only.\n\nAfter tool output, continue reasoning, then write your response ");
    r.append("in \x60final\x60.\n\n# Tools available\n\x60\x60\x60\nnamespace functions \x7b\n  // List ");
    r.append("files under a path recursively with optional depth.\n  // Defaults: path=\x22.\x22, max_de");
    r.append("pth=0\n  type list_files = \x28_: \x7b\n    path?: string,\n    max_depth?: number,\n  \x7d");
    r.append("\x29 => string\x5b\x5d | \x7b error: string \x7d;\n\n  // Read a file\x27s content with a ");
    r.append("byte limit.\n  // Defaults: max_bytes=524288\n  type read_file = \x28_: \x7b\n    path: st");
    r.append("ring,\n    max_bytes?: number,\n  \x7d\x29 => string | \x7b error: string \x7d;\n\n  // Ru");
    r.append("n a command by argv\n  type run_command = \x28_: \x7b\n    argv: string\x5b\x5d,\n  \x7d\x29");
    r.append(" => \x7b ok: true, status: \x7b code: number | null, success: boolean \x7d, stdout: string");
    r.append(", stderr: string \x7d | \x7b error: string \x7d;\n\n  // Write file content\n  type apply_");
    r.append("patch = \x28_: \x7b\n    path?: string,\n    patch: string,\n  \x7d\x29 => \x7b ok: true, ");
    r.append("mode: \x22overwrite\x22, path: string \x7d | \x7b ok: true, mode: \x22patch\x22, results: ");
    r.append("any\x5b\x5d \x7d | \x7b error: string \x7d;\n\x7d // namespace functions\n\x60\x60\x60\n\n");
    r.append("# Using \x60apply_patch\x60 tool\n\n- Use apply_patch for code edits. Pass the patch text ");
    r.append("in the \x60patch\x60 argument.\n- Path handling:\n  - Provide workspace-relative paths onl");
    r.append("y \x28no absolute paths\x29.\n  - Absolute paths are accepted only if they resolve under t");
    r.append("he workspace; if so, they are treated as relative.\n  - Upward traversal above the workspa");
    r.append("ce \x28leading \x60..\x60 that escapes\x29 is disallowed.\n\n- Two modes exist:\n  - Patch");
    r.append(" mode: if \x60patch\x60 contains markers \x60*** Begin Patch\x60 ... \x60*** End Patch\x60");
    r.append(".\n  - Overwrite mode: if there are no markers; then \x60path\x60 is required and \x60patc");
    r.append("h\x60 is the entire file content.\n\n## Patch mode format\n- Wrap all operations between t");
    r.append("hese markers:\n\x60\x60\x60\n*** Begin Patch\n... one or more operations ...\n*** End Patc");
    r.append("h\n\x60\x60\x60\n- Each operation starts with a header \x28case-insensitive; optional extr");
    r.append("a spaces; optional colon\x29:\n  - Update an existing file:\n    - \x60*** Update File: pa");
    r.append("th/to/file\x60\n    - Body may be wrapped in triple backticks. Within the body, emit hunks");
    r.append(" where lines are prefixed with:\n      - \x60+\x60 for added lines\n      - \x60-\x60 for ");
    r.append("removed lines\n      - \x60 \x60 \x28space\x29 for unchanged context lines\n      - Use \x60");
    r.append("@@\x60 on its own line to start a new hunk when needed.\n  - Add a new file:\n    - \x60**");
    r.append("* Add File: path/to/file\x60\n    - Body is the full file content \x28optionally fenced in");
    r.append(" triple backticks\x29.\n  - Delete a file:\n    - \x60*** Delete File: path/to/file\x60\n-");
    r.append(" Trailing newline control:\n  - To produce a file with no trailing newline, end the body w");
    r.append("ith a comment line containing the phrase \x22No newline at end of file\x22 \x28backslash p");
    r.append("refix tolerated\x29: \x60\x5c No newline at end of file\x60.\n- Fenced blocks:\n  - You ma");
    r.append("y wrap update/add bodies with triple backticks. Language tags are allowed but not required");
    r.append(".\n\n## Overwrite mode\n- If you don\x27t include patch markers, apply_patch overwrites th");
    r.append("e file verbatim:\n  - Provide \x60path\x60 as the target file path.\n  - Provide \x60patch");
    r.append("\x60 as the entire desired file content.\n\n## Example \x28update + add\x29\n\x60\x60\x60\n");
    r.append("*** Begin Patch\n*** Update File: src/lib.rs\n\x60\x60\x60 \n-fn greet\x28\x29 \x7b printl");
    r.append("n!\x28\x22hi\x22\x29; \x7d\n+fn greet\x28\x29 \x7b\n+    println!\x28\x22hello\x22\x29;\n+");
    r.append("\x7d\n\x60\x60\x60\n*** Add File: README.md\n\x60\x60\x60\n# My Project\nHello world!\n\x60");
    r.append("\x60\x60\n*** End Patch\n\x60\x60\x60\n");
    proof {
        assert(r@ =~= tool_guidance_view());
    }
    r
}


/// The reasoning level a preference selects: words starting `h` mean high,
/// `m` medium, `l` or `e` low, anything else the default medium.
pub fn reasoning_level(pref: Option<&str>) -> (r: String)
    ensures
        ({
            let level = r@;
            match pref {
                None => level == "medium"@,
                Some(p) => {
                    let t = lower_seq(trim_spec(p@));
                    if starts_with_spec(t, seq!['h']) {
                        level == "high"@
                    } else if starts_with_spec(t, seq!['m']) {
                        level == "medium"@
                    } else if starts_with_spec(t, seq!['l']) || starts_with_spec(t, seq!['e']) {
                        level == "low"@
                    } else {
                        level == "medium"@
                    }
                },
            }
        }),
{
    match pref {
        None => String::from_str("medium"),
        Some(p) => {
            let pv = to_chars(p);
            let t = to_lower(trim(pv.as_slice()).as_slice());
            let h = to_chars("h");
            let m = to_chars("m");
            let l = to_chars("l");
            let e = to_chars("e");
            proof {
                reveal_strlit("h");
                reveal_strlit("m");
                reveal_strlit("l");
                reveal_strlit("e");
                assert(h@ =~= seq!['h']);
                assert(m@ =~= seq!['m']);
                assert(l@ =~= seq!['l']);
                assert(e@ =~= seq!['e']);
            }
            if crate::chars::starts_with(t.as_slice(), h.as_slice()) {
                String::from_str("high")
            } else if crate::chars::starts_with(t.as_slice(), m.as_slice()) {
                String::from_str("medium")
            } else if crate::chars::starts_with(t.as_slice(), l.as_slice()) || crate::chars::starts_with(
                t.as_slice(),
                e.as_slice(),
            ) {
                String::from_str("low")
            } else {
                String::from_str("medium")
            }
        },
    }
}

/// The preamble with its placeholders filled in.
pub open spec fn filled_preamble(today: Seq<char>, reasoning: Seq<char>) -> Seq<char> {
    replace_all(
        replace_all(
            replace_all(system_preamble_view(), "@cutoff@"@, "2024-06"@),
            "@today@"@,
            today,
        ),
        "@reasoning@"@,
        reasoning,
    )
}

/// The initial history: the filled preamble, the trimmed tool guidance, the
/// optional stdin content under an announcement, and the optional note about
/// a redirected output.
pub open spec fn initial_history(
    stdin_content: Option<Seq<char>>,
    stdout_redirection_path: Option<Seq<char>>,
    today: Seq<char>,
    reasoning: Seq<char>,
) -> Seq<MessageV> {
    let base = seq![
        MessageV::System(filled_preamble(today, reasoning)),
        MessageV::Developer(trim_spec(tool_guidance_view())),
    ];
    let with_stdin = base + (match stdin_content {
        Some(s) => if trim_spec(s).len() > 0 {
            seq![
                MessageV::Developer("The next message is the full stdin content."@),
                MessageV::Developer(trim_spec(s)),
            ]
        } else {
            Seq::<MessageV>::empty()
        },
        None => Seq::<MessageV>::empty(),
    });
    with_stdin + (match stdout_redirection_path {
        Some(p) => if p.len() == 0 {
            seq![
                MessageV::Developer(
                    "Your final answer output is redirected to a file, so do not fence anything and produce the content directly without any extra prose."@,
                ),
            ]
        } else {
            seq![
                MessageV::Developer(
                    "Your final answer output is redirected to file named `"@ + p
                        + "`, so do not fence anything and produce the content directly without any extra prose."@,
                ),
            ]
        },
        None => Seq::<MessageV>::empty(),
    })
}

/// Compose the initial history, as `initial_history` describes.
pub fn make_history(
    stdin_content: Option<String>,
    stdout_redirection_path: Option<String>,
    today: &str,
    reasoning: &str,
) -> (r: Vec<Message>)
    ensures
        messages_view(r@) == initial_history(
            (match stdin_content {
                Some(s) => Some(s@),
                None => None,
            }),
            (match stdout_redirection_path {
                Some(p) => Some(p@),
                None => None,
            }),
            today@,
            reasoning@,
        ),
{
    let filled0 = replace_all_exec(system_preamble_text().as_str(), "@cutoff@", "2024-06");
    let filled1 = replace_all_exec(filled0.as_str(), "@today@", today);
    let filled2 = replace_all_exec(filled1.as_str(), "@reasoning@", reasoning);
    let mut history: Vec<Message> = Vec::new();
    history.push(Message::System(filled2));
    let guidance_text = tool_guidance_text();
    let guidance_v = to_chars(guidance_text.as_str());
    let guidance = to_string_vec(trim(guidance_v.as_slice()).as_slice());
    history.push(Message::Developer(guidance));
    let ghost base_hist = messages_view(history@);
    proof {
        assert(base_hist =~= seq![
            MessageV::System(filled_preamble(today@, reasoning@)),
            MessageV::Developer(trim_spec(tool_guidance_view())),
        ]);
    }
    match stdin_content {
        Some(s) => {
            let sv = to_chars(s.as_str());
            let t = trim(sv.as_slice());
            if t.len() > 0 {
                history.push(
                    Message::Developer(
                        String::from_str("The next message is the full stdin content."),
                    ),
                );
                history.push(Message::Developer(to_string_vec(t.as_slice())));
                proof {
                    assert(messages_view(history@) =~= base_hist + seq![
                        MessageV::Developer("The next message is the full stdin content."@),
                        MessageV::Developer(trim_spec(s@)),
                    ]);
                }
            } else {
                proof {
                    assert(messages_view(history@) =~= base_hist);
                }
            }
        },
        None => {
            proof {
                assert(messages_view(history@) =~= base_hist);
            }
        },
    }
    let ghost with_stdin_hist = messages_view(history@);
    match stdout_redirection_path {
        Some(p) => {
            if p.unicode_len() == 0 {
                history.push(
                    Message::Developer(
                        String::from_str(
                            "Your final answer output is redirected to a file, so do not fence anything and produce the content directly without any extra prose.",
                        ),
                    ),
                );
                proof {
                    assert(messages_view(history@) =~= with_stdin_hist.push(
                        MessageV::Developer(
                            "Your final answer output is redirected to a file, so do not fence anything and produce the content directly without any extra prose."@,
                        ),
                    ));
                    assert(messages_view(history@) =~= with_stdin_hist + seq![
                        MessageV::Developer(
                            "Your final answer output is redirected to a file, so do not fence anything and produce the content directly without any extra prose."@,
                        ),
                    ]);
                }
            } else {
                let mut note = String::new();
                note.append("Your final answer output is redirected to file named `");
                note.append(p.as_str());
                note.append(
                    "`, so do not fence anything and produce the content directly without any extra prose.",
                );
                history.push(Message::Developer(note));
                proof {
                    assert(messages_view(history@) =~= with_stdin_hist + seq![
                        MessageV::Developer(
                            "Your final answer output is redirected to file named `"@ + p@
                                + "`, so do not fence anything and produce the content directly without any extra prose."@,
                        ),
                    ]);
                }
            }
        },
        None => {
            proof {
                assert(messages_view(history@) =~= with_stdin_hist);
            }
        },
    }
    history
}

/// The guidance text's view, for contracts.
pub open spec fn tool_guidance_view() -> Seq<char> {
    "# Tool calling instructions\nCall tools in the \x60commentary\x60 channel with a recipient"@
        + ": \x60to=functions.<name>\x60 and pure JSON args only.\nJSON only - no prose, no comments,"@
        + " no trailing commas.\nUse the exact function name from the tool list.\n\nYou will not see "@
        + "prior tool call contents in later turns - only the last \x60final\x60 reply.\nIf you need "@
        + "earlier data \x28such as a file\x27s contents\x29, re-read or re-fetch it, or reason from "@
        + "your last answer only.\n\nAfter tool output, continue reasoning, then write your response "@
        + "in \x60final\x60.\n\n# Tools available\n\x60\x60\x60\nnamespace functions \x7b\n  // List "@
        + "files under a path recursively with optional depth.\n  // Defaults: path=\x22.\x22, max_de"@
        + "pth=0\n  type list_files = \x28_: \x7b\n    path?: string,\n    max_depth?: number,\n  \x7d"@
        + "\x29 => string\x5b\x5d | \x7b error: string \x7d;\n\n  // Read a file\x27s content with a "@
        + "byte limit.\n  // Defaults: max_bytes=524288\n  type read_file = \x28_: \x7b\n    path: st"@
        + "ring,\n    max_bytes?: number,\n  \x7d\x29 => string | \x7b error: string \x7d;\n\n  // Ru"@
        + "n a command by argv\n  type run_command = \x28_: \x7b\n    argv: string\x5b\x5d,\n  \x7d\x29"@
        + " => \x7b ok: true, status: \x7b code: number | null, success: boolean \x7d, stdout: string"@
        + ", stderr: string \x7d | \x7b error: string \x7d;\n\n  // Write file content\n  type apply_"@
        + "patch = \x28_: \x7b\n    path?: string,\n    patch: string,\n  \x7d\x29 => \x7b ok: true, "@
        + "mode: \x22overwrite\x22, path: string \x7d | \x7b ok: true, mode: \x22patch\x22, results: "@
        + "any\x5b\x5d \x7d | \x7b error: string \x7d;\n\x7d // namespace functions\n\x60\x60\x60\n\n"@
        + "# Using \x60apply_patch\x60 tool\n\n- Use apply_patch for code edits. Pass the patch text "@
        + "in the \x60patch\x60 argument.\n- Path handling:\n  - Provide workspace-relative paths onl"@
        + "y \x28no absolute paths\x29.\n  - Absolute paths are accepted only if they resolve under t"@
        + "he workspace; if so, they are treated as relative.\n  - Upward traversal above the workspa"@
        + "ce \x28leading \x60..\x60 that escapes\x29 is disallowed.\n\n- Two modes exist:\n  - Patch"@
        + " mode: if \x60patch\x60 contains markers \x60*** Begin Patch\x60 ... \x60*** End Patch\x60"@
        + ".\n  - Overwrite mode: if there are no markers; then \x60path\x60 is required and \x60patc"@
        + "h\x60 is the entire file content.\n\n## Patch mode format\n- Wrap all operations between t"@
        + "hese markers:\n\x60\x60\x60\n*** Begin Patch\n... one or more operations ...\n*** End Patc"@
        + "h\n\x60\x60\x60\n- Each operation starts with a header \x28case-insensitive; optional extr"@
        + "a spaces; optional colon\x29:\n  - Update an existing file:\n    - \x60*** Update File: pa"@
        + "th/to/file\x60\n    - Body may be wrapped in triple backticks. Within the body, emit hunks"@
        + " where lines are prefixed with:\n      - \x60+\x60 for added lines\n      - \x60-\x60 for "@
        + "removed lines\n      - \x60 \x60 \x28space\x29 for unchanged context lines\n      - Use \x60"@
        + "@@\x60 on its own line to start a new hunk when needed.\n  - Add a new file:\n    - \x60**"@
        + "* Add File: path/to/file\x60\n    - Body is the full file content \x28optionally fenced in"@
        + " triple backticks\x29.\n  - Delete a file:\n    - \x60*** Delete File: path/to/file\x60\n-"@
        + " Trailing newline control:\n  - To produce a file with no trailing newline, end the body w"@
        + "ith a comment line containing the phrase \x22No newline at end of file\x22 \x28backslash p"@
        + "refix tolerated\x29: \x60\x5c No newline at end of file\x60.\n- Fenced blocks:\n  - You ma"@
        + "y wrap update/add bodies with triple backticks. Language tags are allowed but not required"@
        + ".\n\n## Overwrite mode\n- If you don\x27t include patch markers, apply_patch overwrites th"@
        + "e file verbatim:\n  - Provide \x60path\x60 as the target file path.\n  - Provide \x60patch"@
        + "\x60 as the entire desired file content.\n\n## Example \x28update + add\x29\n\x60\x60\x60\n"@
        + "*** Begin Patch\n*** Update File: src/lib.rs\n\x60\x60\x60 \n-fn greet\x28\x29 \x7b printl"@
        + "n!\x28\x22hi\x22\x29; \x7d\n+fn greet\x28\x29 \x7b\n+    println!\x28\x22hello\x22\x29;\n+"@
        + "\x7d\n\x60\x60\x60\n*** Add File: README.md\n\x60\x60\x60\n# My Project\nHello world!\n\x60"@
        + "\x60\x60\n*** End Patch\n\x60\x60\x60\n"@
}


} // verus!
