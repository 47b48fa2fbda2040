use prooflane::collab::{build_collab_wait_input, extract_wait_agent_status, inject_agent_id_into_input};
use prooflane::detail::{
    flush_pending_reasoning, insert_goal_opener, push_agent_message, push_turn_start, push_user_message,
    reasoning_summary_text, record_reasoning,
};
use prooflane::fold::fold_shell_session_polls;
use prooflane::json::{read_json, Json};
use prooflane::ledger::{record_token_count, TokenLedger};
use prooflane::reader::conversation_turns;
use prooflane::shell::{
    annotate_shell_session_args, is_pure_poll, is_shell_session_tool, note_shell_session_call,
    register_announced_sessions, shell_session_id, PollOrigins, SessionTable, ShellSession,
};
use prooflane::subagent::{is_agent_rollout_name, is_safe_agent_id, pick_agent_rollout, subagent_duration_ms};
use prooflane::tool_io::{parse_codex_json_arg, tool_call_id, tool_call_name, value_to_preview};
use prooflane::transcript::{group_into_turns, ContentBlock, MessageRole, MessageTurn, TurnUsage, UnifiedMessage};
use prooflane::usage::reconcile_turn_usage;

fn json(text: &str) -> Json {
    read_json(text).expect("valid json")
}

/// Replays the agent messages, user messages and token counts of a rollout
/// and groups the messages into turns with their usage reconciled.
fn replay(lines: &[&str]) -> (Vec<MessageTurn>, TokenLedger) {
    let lines: Vec<String> = lines.iter().map(|l| l.to_string()).collect();
    let (turns, reader, deferred) = conversation_turns(&lines, 0).expect("counters fit");
    assert!(deferred.is_empty());
    assert!(reader.messages.is_empty());
    (turns, reader.ledger)
}

fn turn_usage_total(turns: &[MessageTurn]) -> u64 {
    turns
        .iter()
        .filter_map(|t| t.usage.as_ref())
        .map(|u| u.input_tokens + u.output_tokens + u.cache_creation_input_tokens + u.cache_read_input_tokens)
        .sum()
}

#[test]
fn every_model_round_trip_of_a_turn_is_counted() {
    let (turns, ledger) = replay(&[
        r#"{"type":"event_msg","payload":{"type":"agent_message","message":"working"}}"#,
        r#"{"type":"event_msg","payload":{"type":"token_count","info":{"total_token_usage":{"input_tokens":20224,"cached_input_tokens":0,"output_tokens":458},"last_token_usage":{"input_tokens":20224,"cached_input_tokens":0,"output_tokens":458}}}}"#,
        r#"{"type":"event_msg","payload":{"type":"token_count","info":{"total_token_usage":{"input_tokens":51186,"cached_input_tokens":18000,"output_tokens":886},"last_token_usage":{"input_tokens":30962,"cached_input_tokens":18000,"output_tokens":428}}}}"#,
        r#"{"type":"event_msg","payload":{"type":"token_count","info":{"total_token_usage":{"input_tokens":92652,"cached_input_tokens":45000,"output_tokens":1420},"last_token_usage":{"input_tokens":41466,"cached_input_tokens":27000,"output_tokens":534}}}}"#,
    ]);
    assert_eq!(turn_usage_total(&turns), 92_652 + 1_420);
    let total = ledger.latest_total_usage.expect("total usage");
    assert_eq!(total.input_tokens + total.output_tokens + total.cache_read_input_tokens, 92_652 + 1_420);
}

#[test]
fn a_restated_token_count_is_not_counted_twice() {
    let (turns, _) = replay(&[
        r#"{"type":"event_msg","payload":{"type":"agent_message","message":"hi"}}"#,
        r#"{"type":"event_msg","payload":{"type":"token_count","info":{"total_token_usage":{"input_tokens":1000,"cached_input_tokens":0,"output_tokens":50},"last_token_usage":{"input_tokens":1000,"cached_input_tokens":0,"output_tokens":50}}}}"#,
        r#"{"type":"event_msg","payload":{"type":"token_count","info":{"total_token_usage":{"input_tokens":1000,"cached_input_tokens":0,"output_tokens":50},"last_token_usage":{"input_tokens":1000,"cached_input_tokens":0,"output_tokens":50}}}}"#,
    ]);
    assert_eq!(turn_usage_total(&turns), 1_050);
}

#[test]
fn a_round_that_ran_before_any_assistant_message_is_not_lost() {
    let (turns, _) = replay(&[
        r#"{"type":"event_msg","payload":{"type":"user_message","message":"go"}}"#,
        r#"{"type":"event_msg","payload":{"type":"token_count","info":{"total_token_usage":{"input_tokens":800,"cached_input_tokens":0,"output_tokens":40},"last_token_usage":{"input_tokens":800,"cached_input_tokens":0,"output_tokens":40}}}}"#,
        r#"{"type":"event_msg","payload":{"type":"agent_message","message":"done"}}"#,
        r#"{"type":"event_msg","payload":{"type":"token_count","info":{"total_token_usage":{"input_tokens":1900,"cached_input_tokens":0,"output_tokens":110},"last_token_usage":{"input_tokens":1100,"cached_input_tokens":0,"output_tokens":70}}}}"#,
    ]);
    assert_eq!(turn_usage_total(&turns), 1_900 + 110);
}

#[test]
fn a_transcript_without_cumulative_totals_still_counts_each_call_once() {
    let (turns, _) = replay(&[
        r#"{"type":"event_msg","payload":{"type":"agent_message","message":"hi"}}"#,
        r#"{"type":"event_msg","payload":{"type":"token_count","info":{"last_token_usage":{"input_tokens":500,"cached_input_tokens":100,"output_tokens":25}}}}"#,
        r#"{"type":"event_msg","payload":{"type":"token_count","info":{"last_token_usage":{"input_tokens":500,"cached_input_tokens":100,"output_tokens":25}}}}"#,
        r#"{"type":"event_msg","payload":{"type":"token_count","info":{"last_token_usage":{"input_tokens":700,"cached_input_tokens":200,"output_tokens":30}}}}"#,
    ]);
    assert_eq!(turn_usage_total(&turns), 525 + 730);
}

#[test]
fn a_transcript_that_mixes_both_shapes_counts_each_round_exactly_once() {
    let (turns, _) = replay(&[
        r#"{"type":"event_msg","payload":{"type":"agent_message","message":"hi"}}"#,
        r#"{"type":"event_msg","payload":{"type":"token_count","info":{"total_token_usage":{"input_tokens":100,"cached_input_tokens":0,"output_tokens":0},"last_token_usage":{"input_tokens":100,"cached_input_tokens":0,"output_tokens":0}}}}"#,
        r#"{"type":"event_msg","payload":{"type":"token_count","info":{"last_token_usage":{"input_tokens":50,"cached_input_tokens":0,"output_tokens":0}}}}"#,
        r#"{"type":"event_msg","payload":{"type":"token_count","info":{"total_token_usage":{"input_tokens":180,"cached_input_tokens":0,"output_tokens":0},"last_token_usage":{"input_tokens":30,"cached_input_tokens":0,"output_tokens":0}}}}"#,
    ]);
    assert_eq!(turn_usage_total(&turns), 180);
}

#[test]
fn a_rollout_with_no_assistant_message_still_reports_its_spend() {
    let (turns, ledger) = replay(&[
        r#"{"type":"event_msg","payload":{"type":"user_message","message":"go"}}"#,
        r#"{"type":"event_msg","payload":{"type":"token_count","info":{"total_token_usage":{"input_tokens":900,"cached_input_tokens":100,"output_tokens":40},"last_token_usage":{"input_tokens":900,"cached_input_tokens":100,"output_tokens":40}}}}"#,
    ]);
    assert!(!turns.iter().any(|t| matches!(t.role, prooflane::transcript::TurnRole::Assistant)));
    let total = ledger.latest_total_usage.expect("total");
    assert_eq!(total.input_tokens + total.output_tokens + total.cache_read_input_tokens, 940);
    assert!(ledger.pending_round.is_some());
}

#[test]
fn a_counter_that_restarts_after_compaction_does_not_wrap_to_zero() {
    let (turns, _) = replay(&[
        r#"{"type":"event_msg","payload":{"type":"agent_message","message":"hi"}}"#,
        r#"{"type":"event_msg","payload":{"type":"token_count","info":{"total_token_usage":{"input_tokens":90000,"cached_input_tokens":0,"output_tokens":2000}}}}"#,
        r#"{"type":"event_msg","payload":{"type":"token_count","info":{"total_token_usage":{"input_tokens":5000,"cached_input_tokens":0,"output_tokens":100}}}}"#,
    ]);
    assert_eq!(turn_usage_total(&turns), 92_000 + 5_100);
}

#[test]
fn token_count_reports_the_context_window() {
    let mut ledger = TokenLedger::new();
    let mut messages = Vec::new();
    let info = json(r#"{"total_token_usage":{"total_tokens":1234},"last_token_usage":{"total_tokens":321},"model_context_window":4000}"#);
    record_token_count(&mut ledger, &info, &mut messages);
    assert_eq!(ledger.context_window_used_tokens, Some(321));
    assert_eq!(ledger.context_window_max_tokens, Some(4000));
    assert_eq!(ledger.latest_total_tokens, Some(1234));
}

#[test]
fn turn_starts_only_move_forward() {
    let mut starts = Vec::new();
    push_turn_start(&mut starts, 10);
    push_turn_start(&mut starts, 5);
    push_turn_start(&mut starts, 10);
    push_turn_start(&mut starts, 20);
    assert_eq!(starts, vec![10, 20]);
}

#[test]
fn streaming_reasoning_flushes_as_one_thinking_message() {
    let mut messages = Vec::new();
    let mut pending = vec!["first".to_string(), "second".to_string()];
    flush_pending_reasoning(&mut messages, &mut pending, Some(7), 99);
    assert!(pending.is_empty());
    assert_eq!(messages.len(), 1);
    assert_eq!(messages[0].id, "thinking-0");
    assert_eq!(messages[0].timestamp, 7);
    match &messages[0].content[0] {
        ContentBlock::Thinking { text } => assert_eq!(text, "first\n\nsecond"),
        _ => panic!("expected thinking"),
    }
    flush_pending_reasoning(&mut messages, &mut pending, None, 99);
    assert_eq!(messages.len(), 1);
}

#[test]
fn a_grouped_summary_supersedes_the_streamed_sections() {
    let payload = json(r#"{"type":"reasoning","summary":[{"type":"summary_text","text":"A"},{"type":"summary_text","text":"  "},{"type":"summary_text","text":"B"}]}"#);
    assert_eq!(reasoning_summary_text(&payload), "A\n\nB");
    let mut messages = Vec::new();
    let mut pending = vec!["streamed".to_string()];
    record_reasoning(&mut messages, &mut pending, &payload, 5, Some(3), 99);
    assert!(pending.is_empty());
    assert_eq!(messages.len(), 1);
    let empty = json(r#"{"type":"reasoning","summary":[]}"#);
    let mut pending = vec!["streamed".to_string()];
    record_reasoning(&mut messages, &mut pending, &empty, 6, Some(3), 99);
    assert_eq!(messages.len(), 2);
    assert_eq!(messages[1].timestamp, 3);
    match &messages[1].content[0] {
        ContentBlock::Thinking { text } => assert_eq!(text, "streamed"),
        _ => panic!("expected thinking"),
    }
}

#[test]
fn user_messages_carry_their_images_and_skip_duplicates() {
    let mut messages = Vec::new();
    let payload = json(r#"{"type":"user_message","message":"look <image>","images":["data:image/png;base64,QUJD","nope"]}"#);
    assert!(push_user_message(&mut messages, &payload, 1_000));
    assert_eq!(messages[0].id, "user-0");
    assert_eq!(messages[0].content.len(), 2);
    assert!(!push_user_message(&mut messages, &payload, 2_000));
    assert!(push_user_message(&mut messages, &payload, 500_000));
    let empty = json(r#"{"type":"user_message","message":""}"#);
    assert!(push_user_message(&mut messages, &empty, 600_000));
    match &messages[2].content[0] {
        ContentBlock::Text { text } => assert_eq!(text, "Attached resources"),
        _ => panic!("expected text"),
    }
}

#[test]
fn the_goal_opener_leads_the_conversation() {
    let mut messages = Vec::new();
    push_agent_message(&mut messages, &json(r#"{"message":"ok"}"#), 5);
    insert_goal_opener(&mut messages, "Do X", Some(1), 99);
    assert_eq!(messages[0].id, "codex-goal-user");
    assert_eq!(messages[0].timestamp, 1);
    match &messages[0].content[0] {
        ContentBlock::Text { text } => assert_eq!(text, "/goal Do X"),
        _ => panic!("expected text"),
    }
    assert!(matches!(messages[1].role, MessageRole::Assistant));
}

fn tool_use(id: &str, name: &str) -> UnifiedMessage {
    UnifiedMessage {
        id: format!("tool-{id}"),
        role: MessageRole::Assistant,
        content: vec![ContentBlock::ToolUse {
            tool_use_id: Some(id.to_string()),
            tool_name: name.to_string(),
            input_preview: None,
            status: None,
            meta: None,
        }],
        timestamp: 0,
        usage: None,
        duration_ms: None,
        model: None,
        completed_at: None,
    }
}

fn tool_result(id: &str, output: Option<&str>, is_error: bool) -> UnifiedMessage {
    UnifiedMessage {
        id: format!("tool-result-{id}"),
        role: MessageRole::Tool,
        content: vec![ContentBlock::ToolResult {
            tool_use_id: Some(id.to_string()),
            output_preview: output.map(|s| s.to_string()),
            is_error,
        }],
        timestamp: 0,
        usage: None,
        duration_ms: None,
        model: None,
        completed_at: None,
    }
}

fn output_of(m: &UnifiedMessage) -> (Option<String>, bool) {
    match &m.content[0] {
        ContentBlock::ToolResult { output_preview, is_error, .. } => (output_preview.clone(), *is_error),
        _ => panic!("expected a result"),
    }
}

#[test]
fn polling_a_background_session_appends_to_the_card_of_its_command() {
    let mut messages = vec![
        tool_use("cmd", "exec_command"),
        tool_result("cmd", Some("building\n\n"), false),
        tool_use("poll", "wait"),
        tool_result("poll", Some("done  \n"), true),
    ];
    let mut polls = PollOrigins::new();
    polls.insert("poll".to_string(), "cmd".to_string());
    fold_shell_session_polls(&mut messages, &polls);
    assert_eq!(messages.len(), 2);
    assert_eq!(output_of(&messages[1]), (Some("building\ndone".to_string()), true));
}

#[test]
fn a_poll_whose_command_card_is_gone_keeps_its_card() {
    let mut messages = vec![tool_use("poll", "wait"), tool_result("poll", Some("x"), false)];
    let mut polls = PollOrigins::new();
    polls.insert("poll".to_string(), "missing".to_string());
    fold_shell_session_polls(&mut messages, &polls);
    assert_eq!(messages.len(), 2);
    let mut untouched = vec![tool_result("a", None, false)];
    fold_shell_session_polls(&mut untouched, &PollOrigins::new());
    assert_eq!(untouched.len(), 1);
}

#[test]
fn an_empty_command_output_takes_the_collected_text() {
    let mut messages = vec![
        tool_result("cmd", Some("  "), false),
        tool_result("p1", Some("one"), false),
        tool_result("p2", Some(""), false),
        tool_result("p3", Some("three"), false),
    ];
    let mut polls = PollOrigins::new();
    polls.insert("p1".to_string(), "cmd".to_string());
    polls.insert("p2".to_string(), "cmd".to_string());
    polls.insert("p3".to_string(), "cmd".to_string());
    fold_shell_session_polls(&mut messages, &polls);
    assert_eq!(messages.len(), 1);
    assert_eq!(output_of(&messages[0]).0.as_deref(), Some("one\nthree"));
}

#[test]
fn session_bookkeeping_follows_announcements_and_actions() {
    assert!(is_shell_session_tool("wait"));
    assert!(is_shell_session_tool("write_stdin"));
    assert!(!is_shell_session_tool("exec_command"));
    let mut sessions = SessionTable::new();
    register_announced_sessions("npm run dev", "cmd-1", &vec!["33067".to_string()], &vec!["a1b2".to_string()], &mut sessions);
    assert_eq!(sessions.get("33067").map(|s| s.command.clone()), Some("npm run dev".to_string()));
    assert_eq!(sessions.get("a1b2").and_then(|s| s.origin.clone()), Some("cmd-1".to_string()));
    register_announced_sessions("  ", "cmd-2", &vec!["9".to_string()], &vec![], &mut sessions);
    assert!(sessions.get("9").is_none());

    let poll = json(r#"{"session_id":33067,"chars":""}"#);
    assert!(is_pure_poll(&poll));
    assert_eq!(shell_session_id(&poll).as_deref(), Some("33067"));
    let mut polls = PollOrigins::new();
    note_shell_session_call(Some("poll-1"), Some(&poll), &mut sessions, &mut polls);
    assert_eq!(polls.get("poll-1").cloned(), Some("cmd-1".to_string()));

    let annotated = annotate_shell_session_args(&poll, &sessions).expect("annotated");
    let annotated = json(&annotated);
    assert_eq!(annotated.get_str("session_command"), Some("npm run dev"));

    let keys = json(r#"{"cell_id":"a1b2","chars":"q"}"#);
    assert!(!is_pure_poll(&keys));
    note_shell_session_call(Some("keys-1"), Some(&keys), &mut sessions, &mut polls);
    assert!(polls.get("keys-1").is_none());
    assert_eq!(sessions.get("33067").and_then(|s| s.origin.clone()), None);
    assert_eq!(sessions.get("a1b2").and_then(|s| s.origin.clone()), None);
    let unknown = json(r#"{"cell_id":"404"}"#);
    assert!(annotate_shell_session_args(&unknown, &sessions).is_none());
    let _ = ShellSession { command: String::new(), origin: None };
}

#[test]
fn collab_wait_capsules_report_each_agent() {
    let status = json(r#"{"a1":{"completed":"result text"},"b2":{"errored":"boom"}}"#);
    let members = match status {
        Json::Object(m) => m,
        _ => panic!("object"),
    };
    let (input, any_error) = build_collab_wait_input(&members);
    assert!(any_error);
    let input = json(&input);
    assert_eq!(input.get_str("status"), Some("failed"));
    assert_eq!(input.get_str("__codegCollabOp"), Some("wait"));
    let states = input.get("agentsStates").expect("states");
    assert_eq!(states.get("b2").and_then(|s| s.get_str("status")), Some("errored"));
    assert_eq!(states.get("a1").and_then(|s| s.get_str("message")), Some("result text"));

    assert_eq!(extract_wait_agent_status(&json(r#""running""#)), ("running".to_string(), None));
    assert_eq!(extract_wait_agent_status(&json(r#"{"x":1}"#)), ("completed".to_string(), None));

    let stamped = json(&inject_agent_id_into_input(Some(r#"{"prompt":"p","agent_id":"old"}"#), "new-id"));
    assert_eq!(stamped.get_str("agent_id"), Some("new-id"));
    assert_eq!(stamped.get_str("prompt"), Some("p"));
    let fresh = json(&inject_agent_id_into_input(Some("not json"), "id"));
    assert_eq!(fresh.get_str("agent_id"), Some("id"));
}

#[test]
fn tool_calls_name_their_id_tool_and_arguments() {
    let call = json(r#"{"type":"function_call","call_id":"c1","name":"exec_command","arguments":"{\"cmd\":\"ls\"}"}"#);
    assert_eq!(tool_call_id(&call).as_deref(), Some("c1"));
    assert_eq!(tool_call_name(&call), "exec_command");
    let args = parse_codex_json_arg(&call).expect("args");
    assert_eq!(args.value().get_str("cmd"), Some("ls"));
    let anonymous = json(r#"{"id":"x"}"#);
    assert_eq!(tool_call_name(&anonymous), "unknown");
    assert_eq!(tool_call_id(&anonymous).as_deref(), Some("x"));
    assert_eq!(value_to_preview(None), None);
    assert_eq!(value_to_preview(Some(&json("null"))), None);
    assert_eq!(value_to_preview(Some(&json(r#""text""#))).as_deref(), Some("text"));
    assert_eq!(value_to_preview(Some(&json(r#"{"a":1}"#))).as_deref(), Some(r#"{"a":1}"#));
}

#[test]
fn subagent_rollouts_are_picked_deterministically() {
    assert!(is_safe_agent_id("abc-123"));
    assert!(!is_safe_agent_id("../etc"));
    assert!(!is_safe_agent_id("a/b"));
    assert!(is_agent_rollout_name("session-abc123.jsonl", "abc123"));
    assert!(is_agent_rollout_name("abc123.jsonl", "abc123"));
    assert!(!is_agent_rollout_name("sessionabc123.jsonl", "abc123"));
    let names = vec![
        "z_abc.jsonl".to_string(),
        "b-abc.jsonl".to_string(),
        "other.jsonl".to_string(),
    ];
    assert_eq!(pick_agent_rollout(false, &names, "abc").as_deref(), Some("b-abc.jsonl"));
    assert_eq!(pick_agent_rollout(true, &names, "abc").as_deref(), Some("agent-abc.jsonl"));
    assert_eq!(pick_agent_rollout(false, &names, "zzz"), None);
    let lines = vec![
        r#"{"timestamp":"2026-03-01T10:00:00Z","type":"session_meta"}"#.to_string(),
        "garbage".to_string(),
        r#"{"timestamp":"2026-03-01T10:00:02.500Z","type":"response_item"}"#.to_string(),
    ];
    assert_eq!(subagent_duration_ms(&lines), Some(2_500));
    assert_eq!(subagent_duration_ms(&lines[..1].to_vec()), None);
}

#[test]
fn reconciled_usage_sums_to_the_recorded_spend() {
    let mut turns = group_into_turns(vec![tool_result("r", None, false)]);
    let recorded = TurnUsage { input_tokens: 5, output_tokens: 1, cache_creation_input_tokens: 0, cache_read_input_tokens: 0 };
    reconcile_turn_usage(&mut turns, &recorded);
    assert_eq!(turns.len(), 1);
}

#[test]
fn subagent_durations_are_measured_at_full_precision() {
    let lines = vec![
        r#"{"timestamp":"2026-01-01T00:00:00.0009Z","type":"session_meta"}"#.to_string(),
        r#"{"timestamp":"2026-01-01T00:00:00.0011Z","type":"event_msg"}"#.to_string(),
    ];
    assert_eq!(subagent_duration_ms(&lines), None);
    let lines = vec![
        r#"{"timestamp":"2026-01-01T00:00:00.0009Z","type":"session_meta"}"#.to_string(),
        r#"{"timestamp":"2026-01-01T00:00:00.0021Z","type":"event_msg"}"#.to_string(),
    ];
    assert_eq!(subagent_duration_ms(&lines), Some(1));
}

fn user_message(id: &str) -> UnifiedMessage {
    UnifiedMessage {
        id: id.to_string(),
        role: MessageRole::User,
        content: vec![ContentBlock::Text { text: "hello".to_string() }],
        timestamp: 0,
        usage: None,
        duration_ms: None,
        model: None,
        completed_at: None,
    }
}

#[test]
fn one_turn_opens_per_user_message_and_per_assistant_run() {
    let turns = group_into_turns(vec![
        tool_result("orphan", None, false),
        tool_result("orphan-2", None, false),
        user_message("u1"),
        tool_result("after-user", None, false),
        tool_use("a", "exec_command"),
        tool_result("a", Some("ok"), false),
        user_message("u2"),
    ]);
    let roles: Vec<&str> = turns
        .iter()
        .map(|t| match t.role {
            prooflane::transcript::TurnRole::User => "user",
            prooflane::transcript::TurnRole::Assistant => "assistant",
            prooflane::transcript::TurnRole::System => "system",
        })
        .collect();
    assert_eq!(roles, vec!["assistant", "user", "assistant", "assistant", "user"]);
    let ids: Vec<&str> = turns.iter().map(|t| t.id.as_str()).collect();
    assert_eq!(ids, vec!["turn-0", "turn-1", "turn-2", "turn-3", "turn-4"]);
}

#[test]
fn a_recorded_total_the_turns_already_carry_changes_nothing() {
    let mut with_usage = tool_use("a", "exec_command");
    with_usage.usage = Some(TurnUsage { input_tokens: 10, output_tokens: 4, cache_creation_input_tokens: 0, cache_read_input_tokens: 2 });
    let mut turns = group_into_turns(vec![with_usage]);
    let before = turns[0].usage.clone();
    let smaller = TurnUsage { input_tokens: 7, output_tokens: 4, cache_creation_input_tokens: 0, cache_read_input_tokens: 1 };
    reconcile_turn_usage(&mut turns, &smaller);
    assert_eq!(turns[0].usage, before);
    let nothing = TurnUsage { input_tokens: 0, output_tokens: 0, cache_creation_input_tokens: 0, cache_read_input_tokens: 0 };
    reconcile_turn_usage(&mut turns, &nothing);
    assert_eq!(turns[0].usage, before);
    let larger = TurnUsage { input_tokens: 12, output_tokens: 4, cache_creation_input_tokens: 0, cache_read_input_tokens: 2 };
    reconcile_turn_usage(&mut turns, &larger);
    assert_eq!(turns[0].usage.as_ref().map(|u| u.input_tokens), Some(12));
}

#[test]
fn separator_lines_are_located_only_when_unique_and_in_order() {
    let body: Vec<String> = vec!["=== a".into(), "out a".into(), "=== b  ".into(), "out b".into(), "=== a".into()];
    let keys = prooflane::blob::index_body_lines(&body);
    let anchors = |lines: &[&str]| lines.iter().map(|l| l.to_string()).collect::<Vec<String>>();
    assert_eq!(prooflane::blob::locate_anchors(&keys, &anchors(&["=== b", "out b"])), Some(vec![Some(2), Some(3)]));
    assert_eq!(prooflane::blob::locate_anchors(&keys, &anchors(&["=== gone", "out b"])), Some(vec![None, Some(3)]));
    assert_eq!(prooflane::blob::locate_anchors(&keys, &anchors(&["out b", "=== b"])), None);
    assert_eq!(prooflane::blob::locate_anchors(&keys, &anchors(&["=== a"])), None);
}
