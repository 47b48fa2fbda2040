use prooflane::calls::push_tool_call;
use prooflane::codex::CodexParser;
use prooflane::reader::{read_transcript, CodexTranscriptReader};
use prooflane::shell::{
    exec_chunk_display, register_shell_sessions, shell_session_input_preview, PollOrigins, SessionTable, TextMap,
};
use prooflane::tool_io::codex_script_meta;
use prooflane::json::{read_json, Json};
use prooflane::transcript::{group_into_turns, ContentBlock, MessageRole, MessageTurn};

fn rollout_line(ts: &str, kind: &str, payload: &str) -> String {
    format!(r#"{{"timestamp":"{ts}","type":"{kind}","payload":{payload}}}"#)
}

fn read(lines: &[String]) -> (CodexTranscriptReader, Vec<usize>) {
    read_transcript(&lines.to_vec(), 0).expect("counters fit")
}

fn turns_of(lines: &[String]) -> Vec<MessageTurn> {
    let (reader, _) = read(lines);
    group_into_turns(reader.messages)
}

fn thinking_texts(turns: &[MessageTurn]) -> Vec<String> {
    turns
        .iter()
        .flat_map(|t| t.blocks.iter())
        .filter_map(|b| match b {
            ContentBlock::Thinking { text } => Some(text.clone()),
            _ => None,
        })
        .collect()
}

#[test]
fn reasoning_summary_groups_sections_into_single_thinking_block() {
    let lines = vec![
        rollout_line("2026-06-29T08:40:00Z", "event_msg", r#"{"type":"user_message","message":"继续"}"#),
        rollout_line(
            "2026-06-29T08:42:33.517Z",
            "event_msg",
            r#"{"type":"agent_reasoning","text":"**Creating curl command**\n\nFirst section body."}"#,
        ),
        rollout_line(
            "2026-06-29T08:42:33.529Z",
            "event_msg",
            r#"{"type":"agent_reasoning","text":"**Crafting the command**\n\nSecond section body."}"#,
        ),
        rollout_line(
            "2026-06-29T08:42:33.530Z",
            "response_item",
            r#"{"type":"reasoning","id":"rs_1","summary":[{"type":"summary_text","text":"**Creating curl command**\n\nFirst section body."},{"type":"summary_text","text":"**Crafting the command**\n\nSecond section body."}]}"#,
        ),
        rollout_line("2026-06-29T08:42:33.943Z", "event_msg", r#"{"type":"agent_message","message":"done"}"#),
    ];
    let thinking = thinking_texts(&turns_of(&lines));
    assert_eq!(thinking.len(), 1);
    assert_eq!(
        thinking[0],
        "**Creating curl command**\n\nFirst section body.\n\n**Crafting the command**\n\nSecond section body."
    );
}

#[test]
fn empty_reasoning_summary_emits_no_thinking_block() {
    let lines = vec![
        rollout_line("2026-06-29T08:40:00Z", "event_msg", r#"{"type":"user_message","message":"hi"}"#),
        rollout_line(
            "2026-06-29T08:41:00Z",
            "response_item",
            r#"{"type":"reasoning","id":"rs_empty","summary":[],"encrypted_content":"gAAAredacted"}"#,
        ),
        rollout_line("2026-06-29T08:41:01Z", "event_msg", r#"{"type":"agent_message","message":"hello"}"#),
    ];
    assert!(thinking_texts(&turns_of(&lines)).is_empty());
}

#[test]
fn streaming_reasoning_without_summary_flushes_as_one_block() {
    let lines = vec![
        rollout_line("2026-06-29T08:40:00Z", "event_msg", r#"{"type":"user_message","message":"go"}"#),
        rollout_line("2026-06-29T08:42:00Z", "event_msg", r#"{"type":"agent_reasoning","text":"**One**\n\nbody A"}"#),
        rollout_line("2026-06-29T08:42:01Z", "event_msg", r#"{"type":"agent_reasoning","text":"**Two**\n\nbody B"}"#),
    ];
    let thinking = thinking_texts(&turns_of(&lines));
    assert_eq!(thinking.len(), 1);
    assert_eq!(thinking[0], "**One**\n\nbody A\n\n**Two**\n\nbody B");
}

#[test]
fn streaming_reasoning_without_summary_keeps_order_before_next_message() {
    let lines = vec![
        rollout_line("2026-06-29T08:40:00Z", "event_msg", r#"{"type":"user_message","message":"go"}"#),
        rollout_line("2026-06-29T08:42:00Z", "event_msg", r#"{"type":"agent_reasoning","text":"**Plan**\n\nthinking"}"#),
        rollout_line("2026-06-29T08:42:01Z", "event_msg", r#"{"type":"agent_message","message":"the answer"}"#),
    ];
    let turns = turns_of(&lines);
    let ordered: Vec<&str> = turns
        .iter()
        .flat_map(|t| t.blocks.iter())
        .filter_map(|b| match b {
            ContentBlock::Thinking { .. } => Some("thinking"),
            ContentBlock::Text { text } if text == "the answer" => Some("answer"),
            _ => None,
        })
        .collect();
    assert_eq!(ordered, vec!["thinking", "answer"]);
    assert_eq!(thinking_texts(&turns), vec!["**Plan**\n\nthinking".to_string()]);
}

#[test]
fn the_reader_takes_session_metadata_model_and_times() {
    let lines = vec![
        rollout_line(
            "2026-06-29T08:39:00Z",
            "session_meta",
            r#"{"id":"abc","cwd":"/work/repo","git":{"branch":"main"}}"#,
        ),
        rollout_line("2026-06-29T08:39:30Z", "event_msg", r#"{"type":"task_started","model_context_window":258400}"#),
        rollout_line("2026-06-29T08:39:31Z", "turn_context", r#"{"model":"gpt-5-codex"}"#),
        rollout_line("2026-06-29T08:39:32Z", "turn_context", r#"{"model":"other"}"#),
        String::new(),
        "not json".to_string(),
        rollout_line("2026-06-29T08:40:00Z", "event_msg", r#"{"type":"user_message","message":"Fix the build"}"#),
    ];
    let (reader, deferred) = read(&lines);
    assert!(deferred.is_empty());
    assert_eq!(reader.cwd.as_deref(), Some("/work/repo"));
    assert_eq!(reader.git_branch.as_deref(), Some("main"));
    assert_eq!(reader.model.as_deref(), Some("gpt-5-codex"));
    assert_eq!(reader.title.as_deref(), Some("Fix the build"));
    assert_eq!(reader.first_ts, Some(1_782_722_340_000));
    assert_eq!(reader.last_ts, Some(1_782_722_400_000));
    assert_eq!(reader.task_start_markers, vec![1_782_722_370_000]);
    assert_eq!(reader.turn_context_markers, vec![1_782_722_371_000, 1_782_722_372_000]);
    assert_eq!(reader.ledger.context_window_max_tokens, Some(258_400));
    assert_eq!(reader.messages.len(), 1);
    assert_eq!(reader.messages[0].id, "user-0");
    assert!(matches!(reader.messages[0].role, MessageRole::User));
}

#[test]
fn plain_calls_get_cards_and_the_rest_is_left_to_the_caller() {
    let lines = vec![
        rollout_line("2026-06-29T08:40:00Z", "event_msg", r#"{"type":"user_message","message":"go"}"#),
        rollout_line(
            "2026-06-29T08:40:01Z",
            "response_item",
            r#"{"type":"function_call","call_id":"c1","name":"exec_command","arguments":"{\"cmd\":\"npm run dev\"}"}"#,
        ),
        rollout_line(
            "2026-06-29T08:40:02Z",
            "response_item",
            r#"{"type":"function_call","call_id":"c2","name":"spawn_agent","arguments":"{}"}"#,
        ),
        rollout_line("2026-06-29T08:40:03Z", "event_msg", r#"{"type":"thread_name_updated","thread_name":"Build"}"#),
        rollout_line(
            "2026-06-29T08:40:04Z",
            "response_item",
            r#"{"type":"function_call_output","call_id":"c1","output":"ok"}"#,
        ),
        rollout_line(
            "2026-06-29T08:40:05Z",
            "response_item",
            r#"{"type":"custom_tool_call","call_id":"c3","name":"exec","input":"text('x')"}"#,
        ),
        rollout_line("2026-06-29T08:40:06Z", "event_msg", r#"{"type":"agent_message","message":"ok"}"#),
    ];
    let (reader, deferred) = read(&lines);
    assert_eq!(deferred, vec![2, 4, 5]);
    let ids: Vec<&str> = reader.messages.iter().map(|m| m.id.as_str()).collect();
    assert_eq!(ids, vec!["user-0", "tool-1", "assistant-2"]);
    match &reader.messages[1].content[0] {
        ContentBlock::ToolUse { tool_use_id, tool_name, input_preview, .. } => {
            assert_eq!(tool_use_id.as_deref(), Some("c1"));
            assert_eq!(tool_name, "exec_command");
            assert_eq!(input_preview.as_deref(), Some("npm run dev"));
        }
        _ => panic!("a tool card"),
    }
    assert_eq!(reader.tool_names.get("c1").cloned(), Some("exec_command".to_string()));
    assert_eq!(reader.commands.get("c1").cloned(), Some("npm run dev".to_string()));
    assert_eq!(reader.title.as_deref(), Some("Build"));
}

#[test]
fn a_repeated_user_record_is_kept_once() {
    let image = "data:image/png;base64,AAAA";
    let item = format!(
        r#"{{"type":"message","role":"user","content":[{{"type":"input_text","text":"look"}},{{"type":"input_image","image_url":"{image}"}}]}}"#
    );
    let event = format!(r#"{{"type":"user_message","message":"look","images":["{image}"]}}"#);
    let lines = vec![
        rollout_line("2026-06-29T08:40:00Z", "response_item", &item),
        rollout_line("2026-06-29T08:40:01Z", "event_msg", &event),
    ];
    let (reader, _) = read(&lines);
    assert_eq!(reader.messages.len(), 1);
    assert_eq!(reader.messages[0].content.len(), 2);
    assert_eq!(reader.title.as_deref(), Some("look"));
}

#[test]
fn counters_beyond_sixty_four_bits_stop_the_reading() {
    let lines = vec![rollout_line(
        "2026-06-29T08:40:00Z",
        "event_msg",
        r#"{"type":"token_count","info":{"last_token_usage":{"input_tokens":18446744073709551615,"output_tokens":1}}}"#,
    )];
    assert!(read_transcript(&lines, 0).is_none());
}

#[test]
fn script_cards_carry_only_the_marks_they_have() {
    assert!(codex_script_meta(None, false, &[], false).is_none());
    let meta = codex_script_meta(Some("build"), true, &["lint".to_string()], true).expect("marks");
    let marks = match &meta {
        Json::Object(members) => {
            assert_eq!(members.len(), 1);
            assert_eq!(members[0].0, "codeg.codexScript");
            match &members[0].1 {
                Json::Object(marks) => marks,
                _ => panic!("marks are an object"),
            }
        }
        _ => panic!("meta is an object"),
    };
    let keys: Vec<&str> = marks.iter().map(|(k, _)| k.as_str()).collect();
    assert_eq!(keys, vec!["label", "outputMissing", "sharedWith", "truncated"]);
    let inner = &meta.get("codeg.codexScript").expect("marks");
    assert_eq!(inner.get_str("label"), Some("build"));
    assert_eq!(inner.get_bool("outputMissing"), Some(true));
    assert_eq!(inner.get_bool("truncated"), Some(true));
    match inner.get("sharedWith") {
        Some(Json::Array(items)) => {
            assert_eq!(items.len(), 1);
            assert_eq!(items[0].as_str(), Some("lint"));
        }
        _ => panic!("sharedWith is an array"),
    }
    let only_missing = codex_script_meta(None, true, &[], false).expect("one mark");
    let inner = only_missing.get("codeg.codexScript").expect("marks");
    assert_eq!(inner.get_bool("outputMissing"), Some(true));
    assert!(inner.get("label").is_none());
}

#[test]
fn only_the_exec_family_loses_its_envelope() {
    let chunk = r#"{"chunk_id":"a1","wall_time_seconds":0.1,"original_token_count":2,"output":"hello\n"}"#.to_string();
    assert_eq!(exec_chunk_display("read_file", chunk.clone()), chunk);
    assert_eq!(exec_chunk_display("exec_command", chunk), "hello\n");
}

#[test]
fn recovered_calls_register_and_annotate_sessions() {
    let mut sessions = SessionTable::new();
    let mut polls = PollOrigins::new();
    register_shell_sessions("exec_command", false, "npm run dev", "t1", &vec!["7".to_string()], &vec![], &mut sessions);
    assert!(sessions.get("7").is_none());
    register_shell_sessions("exec_command", true, "npm run dev", "t1", &vec!["7".to_string()], &vec![], &mut sessions);
    assert_eq!(sessions.get("7").map(|s| s.command.clone()), Some("npm run dev".to_string()));

    assert_eq!(shell_session_input_preview("read_file", "{}", "t2", &mut sessions, &mut polls), "{}");
    let preview = shell_session_input_preview("wait", r#"{"cell_id":"7"}"#, "t2", &mut sessions, &mut polls);
    let annotated = read_json(&preview).expect("json");
    assert_eq!(annotated.get_str("session_command"), Some("npm run dev"));
    assert_eq!(polls.get("t2").cloned(), Some("t1".to_string()));
    assert_eq!(shell_session_input_preview("wait", "not json", "t3", &mut sessions, &mut polls), "not json");
}

#[test]
fn messages_are_named_by_kind_and_position_and_never_rewritten() {
    let lines = vec![
        rollout_line("2026-06-29T08:40:00Z", "event_msg", r#"{"type":"user_message","message":"go"}"#),
        rollout_line("2026-06-29T08:40:01Z", "event_msg", r#"{"type":"agent_reasoning","text":"plan"}"#),
        rollout_line("2026-06-29T08:40:02Z", "event_msg", r#"{"type":"agent_message","message":"done"}"#),
        rollout_line(
            "2026-06-29T08:40:03Z",
            "event_msg",
            r#"{"type":"token_count","info":{"total_token_usage":{"input_tokens":10,"cached_input_tokens":0,"output_tokens":5}}}"#,
        ),
    ];
    let (first, _) = read(&lines[..2]);
    let (all, _) = read(&lines);
    let ids: Vec<&str> = all.messages.iter().map(|m| m.id.as_str()).collect();
    assert_eq!(ids, vec!["user-0", "thinking-1", "assistant-2"]);
    assert_eq!(first.messages.len(), 2);
    for (a, b) in first.messages.iter().zip(all.messages.iter()) {
        assert_eq!(a.id, b.id);
        assert_eq!(a.timestamp, b.timestamp);
    }
    assert_eq!(all.messages[2].usage.map(|u| u.input_tokens + u.output_tokens), Some(15));
}

#[test]
fn plain_tool_calls_get_a_card_and_remember_their_command() {
    let mut messages = Vec::new();
    let mut names = TextMap::new();
    let mut commands = TextMap::new();
    let mut sessions = SessionTable::new();
    let mut polls = PollOrigins::new();
    let exec = read_json(r#"{"type":"function_call","name":"exec_command","call_id":"c1","arguments":"{\"cmd\":\"cargo test\"}"}"#).expect("json");
    push_tool_call(&mut messages, &exec, 5, &mut names, &mut commands, &mut sessions, &mut polls);
    let other = read_json(r#"{"type":"custom_tool_call","tool_name":"apply_patch","id":"c2","input":"*** Begin Patch"}"#).expect("json");
    push_tool_call(&mut messages, &other, 6, &mut names, &mut commands, &mut sessions, &mut polls);
    assert_eq!(messages.len(), 2);
    assert_eq!(messages[0].id, "tool-0");
    assert_eq!(messages[1].id, "tool-1");
    match &messages[0].content[0] {
        ContentBlock::ToolUse { tool_use_id, tool_name, input_preview, .. } => {
            assert_eq!(tool_use_id.as_deref(), Some("c1"));
            assert_eq!(tool_name, "exec_command");
            assert_eq!(input_preview.as_deref(), Some("cargo test"));
        }
        _ => panic!("a tool card"),
    }
    match &messages[1].content[0] {
        ContentBlock::ToolUse { tool_name, input_preview, .. } => {
            assert_eq!(tool_name, "apply_patch");
            assert_eq!(input_preview.as_deref(), Some("*** Begin Patch"));
        }
        _ => panic!("a tool card"),
    }
    assert_eq!(names.get("c1").cloned(), Some("exec_command".to_string()));
    assert_eq!(names.get("c2").cloned(), Some("apply_patch".to_string()));
    assert_eq!(commands.get("c1").cloned(), Some("cargo test".to_string()));
    assert!(commands.get("c2").is_none());
}

#[test]
fn the_list_entry_and_the_conversation_share_their_title() {
    let lines = vec![
        rollout_line("2026-06-29T08:39:00Z", "session_meta", r#"{"id":"t1","cwd":"/w"}"#),
        rollout_line(
            "2026-06-29T08:39:01Z",
            "event_msg",
            r#"{"type":"user_message","message":"<environment_context>\n<cwd>/w</cwd>\n</environment_context>"}"#,
        ),
        rollout_line("2026-06-29T08:39:02Z", "event_msg", r#"{"type":"user_message","message":"  Ship the release  "}"#),
        rollout_line("2026-06-29T08:39:03Z", "event_msg", r#"{"type":"agent_message","message":"on it"}"#),
    ];
    let summary = CodexParser::with_base_dir("/tmp/sessions".to_string())
        .parse_jsonl_summary(&lines, "stem")
        .expect("summary");
    let (reader, _) = read(&lines);
    assert_eq!(summary.title.as_deref(), Some("Ship the release"));
    assert_eq!(reader.title, summary.title);
}

#[test]
fn the_opened_conversation_takes_the_newest_thread_name_as_its_title() {
    let long = "n".repeat(130);
    let lines = vec![
        rollout_line("2026-06-29T08:40:00Z", "event_msg", r#"{"type":"user_message","message":"Fix the build"}"#),
        rollout_line("2026-06-29T08:40:01Z", "event_msg", r#"{"type":"thread_name_updated","thread_name":"  First  "}"#),
        rollout_line("2026-06-29T08:40:02Z", "event_msg", r#"{"type":"thread_name_updated","threadName":"   "}"#),
    ];
    let (reader, deferred) = read(&lines);
    assert!(deferred.is_empty());
    assert_eq!(reader.title.as_deref(), Some("First"));
    let more = vec![rollout_line(
        "2026-06-29T08:40:03Z",
        "event_msg",
        &format!(r#"{{"type":"thread_name_updated","name":"{long}"}}"#),
    )];
    let all: Vec<String> = lines.iter().cloned().chain(more).collect();
    let (reader, _) = read(&all);
    assert_eq!(reader.title.as_deref().map(|t| t.chars().count()), Some(100));
}
