use prooflane::codex::{
    is_conversation_file_name, is_rollout_file_name, sort_newest_first, CodexParser, CodexSummary,
};

fn summarize(lines: &[&str]) -> Option<CodexSummary> {
    let lines: Vec<String> = lines.iter().map(|l| l.to_string()).collect();
    CodexParser::with_base_dir("/tmp/sessions".to_string()).parse_jsonl_summary(&lines, "rollout-stem")
}

#[test]
fn summary_title_skips_injected_messages_and_uses_real_prompt() {
    let summary = summarize(&[
        r##"{"timestamp":"2026-03-01T10:00:00Z","type":"session_meta","payload":{"id":"test-1","cwd":"/tmp/demo"}}"##,
        r##"{"timestamp":"2026-03-01T10:00:01Z","type":"response_item","payload":{"type":"message","role":"user","content":[{"type":"input_text","text":"# AGENTS.md instructions for /tmp/demo\n\n<INSTRUCTIONS>\nhello\n</INSTRUCTIONS>"}]}}"##,
        r##"{"timestamp":"2026-03-01T10:00:02Z","type":"response_item","payload":{"type":"message","role":"user","content":[{"type":"input_text","text":"<environment_context>\n  <cwd>/tmp/demo</cwd>\n</environment_context>"}]}}"##,
        r##"{"timestamp":"2026-03-01T10:00:03Z","type":"event_msg","payload":{"type":"user_message","message":"真实用户标题"}}"##,
    ])
    .expect("summary exists");
    assert_eq!(summary.title.as_deref(), Some("真实用户标题"));
    assert_eq!(summary.id, "test-1");
    assert_eq!(summary.folder_path.as_deref(), Some("/tmp/demo"));
    assert_eq!(summary.message_count, 1);
}

#[test]
fn parse_summary_goal_opener_then_confirm_reply_titles_from_goal_and_counts_opener() {
    let summary = summarize(&[
        r##"{"timestamp":"2026-03-01T10:00:00Z","type":"session_meta","payload":{"id":"sc-1","cwd":"/tmp/demo"}}"##,
        r##"{"timestamp":"2026-03-01T10:00:01Z","type":"event_msg","payload":{"type":"thread_goal_updated","goal":{"objective":"Build a static page","status":"active"}}}"##,
        r##"{"timestamp":"2026-03-01T10:00:02Z","type":"event_msg","payload":{"type":"agent_message","message":"Please confirm."}}"##,
        r##"{"timestamp":"2026-03-01T10:00:20Z","type":"event_msg","payload":{"type":"user_message","message":"确认"}}"##,
        r##"{"timestamp":"2026-03-01T10:00:21Z","type":"event_msg","payload":{"type":"agent_message","message":"收到确认。"}}"##,
    ])
    .expect("summary present");
    assert_eq!(summary.title.as_deref(), Some("Build a static page"));
    assert_eq!(summary.message_count, 4);
}

#[test]
fn parse_summary_titles_pure_goal_session_from_objective() {
    let summary = summarize(&[
        r##"{"timestamp":"2026-03-01T10:00:00Z","type":"session_meta","payload":{"id":"sg-1","cwd":"/tmp/demo"}}"##,
        r##"{"timestamp":"2026-03-01T10:00:01Z","type":"event_msg","payload":{"type":"thread_goal_updated","goal":{"objective":"Build a static test page","status":"active"}}}"##,
        r##"{"timestamp":"2026-03-01T10:00:02Z","type":"response_item","payload":{"type":"message","role":"user","content":[{"type":"input_text","text":"<codex_internal_context source=\"goal\">\nContinue working toward the active thread goal.\n</codex_internal_context>"}]}}"##,
        r##"{"timestamp":"2026-03-01T10:00:03Z","type":"event_msg","payload":{"type":"agent_message","message":"On it."}}"##,
    ])
    .expect("summary present");
    assert_eq!(summary.title.as_deref(), Some("Build a static test page"));
    assert_eq!(summary.message_count, 2);
}

#[test]
fn parse_summary_prefers_native_thread_name_over_goal_objective() {
    let summary = summarize(&[
        r##"{"timestamp":"2026-03-01T10:00:00Z","type":"session_meta","payload":{"id":"sn-1","cwd":"/tmp/demo"}}"##,
        r##"{"timestamp":"2026-03-01T10:00:01Z","type":"event_msg","payload":{"type":"thread_goal_updated","goal":{"objective":"Build a static test page","status":"active"}}}"##,
        r##"{"timestamp":"2026-03-01T10:00:02Z","type":"event_msg","payload":{"type":"thread_name_updated","thread_name":"Static test page"}}"##,
    ])
    .expect("summary present");
    assert_eq!(summary.title.as_deref(), Some("Static test page"));
}

#[test]
fn parse_summary_goal_opener_then_image_user_still_synthesizes_opener() {
    let summary = summarize(&[
        r##"{"timestamp":"2026-03-01T10:00:00Z","type":"session_meta","payload":{"id":"si-1","cwd":"/tmp/demo"}}"##,
        r##"{"timestamp":"2026-03-01T10:00:01Z","type":"event_msg","payload":{"type":"thread_goal_updated","goal":{"objective":"Do the thing","status":"active"}}}"##,
        r##"{"timestamp":"2026-03-01T10:00:02Z","type":"response_item","payload":{"type":"message","role":"user","content":[{"type":"input_image","image_url":"data:image/png;base64,AAAA"}]}}"##,
        r##"{"timestamp":"2026-03-01T10:00:03Z","type":"event_msg","payload":{"type":"agent_message","message":"ok"}}"##,
    ])
    .expect("summary present");
    assert_eq!(summary.message_count, 2);
    assert_eq!(summary.title.as_deref(), Some("Do the thing"));
}

#[test]
fn parse_summary_goal_null_clear_adds_no_synthetic_count() {
    let summary = summarize(&[
        r##"{"timestamp":"2026-03-01T10:00:00Z","type":"session_meta","payload":{"id":"snl-1","cwd":"/tmp/demo"}}"##,
        r##"{"timestamp":"2026-03-01T10:00:01Z","type":"event_msg","payload":{"type":"thread_goal_updated","goal":null}}"##,
        r##"{"timestamp":"2026-03-01T10:00:02Z","type":"event_msg","payload":{"type":"thread_goal_updated","goal":{"objective":"   ","status":"active"}}}"##,
        r##"{"timestamp":"2026-03-01T10:00:03Z","type":"event_msg","payload":{"type":"agent_message","message":"hmm"}}"##,
    ])
    .expect("summary present");
    assert_eq!(summary.message_count, 1);
    assert_eq!(summary.title, None);
}

#[test]
fn goal_with_text_only_response_item_titles_from_objective_in_both_paths() {
    let summary = summarize(&[
        r##"{"timestamp":"2026-03-01T10:00:00Z","type":"session_meta","payload":{"id":"gt2-1","cwd":"/tmp/demo"}}"##,
        r##"{"timestamp":"2026-03-01T10:00:01Z","type":"event_msg","payload":{"type":"thread_goal_updated","goal":{"objective":"Do X","status":"active"}}}"##,
        r##"{"timestamp":"2026-03-01T10:00:02Z","type":"response_item","payload":{"type":"message","role":"user","content":[{"type":"input_text","text":"hello"}]}}"##,
        r##"{"timestamp":"2026-03-01T10:00:03Z","type":"event_msg","payload":{"type":"agent_message","message":"..."}}"##,
    ])
    .expect("summary present");
    assert_eq!(summary.title.as_deref(), Some("Do X"));
}

#[test]
fn summary_ignores_non_opening_goal_for_synthesis() {
    let summary_a = summarize(&[
        r##"{"timestamp":"2026-03-01T10:00:00Z","type":"session_meta","payload":{"id":"tm-1","cwd":"/tmp/demo"}}"##,
        r##"{"timestamp":"2026-03-01T10:00:01Z","type":"event_msg","payload":{"type":"thread_goal_updated","goal":{"objective":"Terminal only","status":"complete"}}}"##,
        r##"{"timestamp":"2026-03-01T10:00:02Z","type":"event_msg","payload":{"type":"agent_message","message":"done"}}"##,
    ])
    .expect("present");
    assert_eq!(summary_a.title, None, "terminal goal is not a title");
    assert_eq!(summary_a.message_count, 1, "no synthetic user for terminal goal");

    let summary_b = summarize(&[
        r##"{"timestamp":"2026-03-01T10:00:00Z","type":"session_meta","payload":{"id":"ta-1","cwd":"/tmp/demo"}}"##,
        r##"{"timestamp":"2026-03-01T10:00:01Z","type":"event_msg","payload":{"type":"thread_goal_updated","goal":{"objective":"Old terminal","status":"complete"}}}"##,
        r##"{"timestamp":"2026-03-01T10:00:02Z","type":"event_msg","payload":{"type":"thread_goal_updated","goal":{"objective":"Fresh active","status":"active"}}}"##,
    ])
    .expect("present");
    assert_eq!(summary_b.title.as_deref(), Some("Fresh active"));
}

#[test]
fn a_goal_after_a_real_prompt_does_not_open_the_session() {
    let summary = summarize(&[
        r##"{"timestamp":"2026-03-01T10:00:00Z","type":"event_msg","payload":{"type":"user_message","message":"first prompt"}}"##,
        r##"{"timestamp":"2026-03-01T10:00:05Z","type":"event_msg","payload":{"type":"thread_goal_updated","goal":{"objective":"Later goal","status":"active"}}}"##,
        r##"{"timestamp":"2026-03-01T10:00:09Z","type":"turn_context","payload":{"model":"gpt-5"}}"##,
        r##"{"timestamp":"2026-03-01T10:00:10Z","type":"turn_context","payload":{"model":"gpt-6"}}"##,
    ])
    .expect("present");
    assert_eq!(summary.title.as_deref(), Some("first prompt"));
    assert_eq!(summary.message_count, 1);
    assert_eq!(summary.id, "rollout-stem");
    assert_eq!(summary.model.as_deref(), Some("gpt-5"));
    assert_eq!(summary.ended_at, Some(summary.started_at + 10_000));
}

#[test]
fn a_rollout_without_timestamps_has_no_summary() {
    assert!(summarize(&["", "not json", r#"{"type":"event_msg"}"#]).is_none());
}

#[test]
fn session_meta_gives_branch_and_blank_names_are_ignored() {
    let summary = summarize(&[
        r##"{"timestamp":"2026-03-01T10:00:00Z","type":"session_meta","payload":{"id":"g-1","git":{"branch":"main"}}}"##,
        r##"{"timestamp":"2026-03-01T10:00:01Z","type":"event_msg","payload":{"type":"thread_name_updated","threadName":"  Named  "}}"##,
        r##"{"timestamp":"2026-03-01T10:00:02Z","type":"event_msg","payload":{"type":"thread_name_updated","thread_name":"   "}}"##,
    ])
    .expect("present");
    assert_eq!(summary.git_branch.as_deref(), Some("main"));
    assert_eq!(summary.title.as_deref(), Some("Named"));
}

#[test]
fn rollout_files_are_recognised_by_name() {
    assert!(is_rollout_file_name("rollout-2026-03-01T10-00-00-abc.jsonl"));
    assert!(!is_rollout_file_name("rollout-2026.json"));
    assert!(!is_rollout_file_name("session.jsonl"));
    assert!(is_conversation_file_name("rollout-x-abc123.jsonl", "abc123"));
    assert!(!is_conversation_file_name("rollout-x-abc123.txt", "abc123"));
}

#[test]
fn the_newest_thread_name_wins_over_prompts_that_follow_it() {
    let summary = summarize(&[
        r##"{"timestamp":"2026-03-01T10:00:00Z","type":"event_msg","payload":{"type":"user_message","message":"Fix the build"}}"##,
        r##"{"timestamp":"2026-03-01T10:00:01Z","type":"event_msg","payload":{"type":"thread_name_updated","thread_name":"  First name  "}}"##,
        r##"{"timestamp":"2026-03-01T10:00:02Z","type":"event_msg","payload":{"type":"thread_name_updated","threadName":"Second name"}}"##,
        r##"{"timestamp":"2026-03-01T10:00:03Z","type":"event_msg","payload":{"type":"thread_name_updated","thread_name":"   "}}"##,
        r##"{"timestamp":"2026-03-01T10:00:04Z","type":"event_msg","payload":{"type":"user_message","message":"Another prompt"}}"##,
    ])
    .expect("summary present");
    assert_eq!(summary.title.as_deref(), Some("Second name"));
    assert_eq!(summary.message_count, 2);
}

#[test]
fn conversations_are_listed_newest_first() {
    let make = |id: &str, started_at: i64| CodexSummary {
        id: id.to_string(),
        folder_path: None,
        title: None,
        started_at,
        ended_at: None,
        message_count: 1,
        model: None,
        git_branch: None,
    };
    let sorted = sort_newest_first(vec![make("a", 10), make("b", 30), make("c", 20), make("d", 30)]);
    let ids: Vec<&str> = sorted.iter().map(|s| s.id.as_str()).collect();
    assert_eq!(ids, vec!["b", "d", "c", "a"]);
}

#[test]
fn a_long_thread_name_is_cut_to_its_first_hundred_characters() {
    let name: String = "abcdefghij".repeat(12);
    let line = format!(
        r##"{{"timestamp":"2026-03-01T10:00:00Z","type":"event_msg","payload":{{"type":"thread_name_updated","thread_name":"  {}  "}}}}"##,
        name
    );
    let summary = summarize(&[line.as_str()]).expect("summary present");
    let title = summary.title.expect("titled");
    assert_eq!(title.chars().count(), 100);
    assert_eq!(title, name[..100].to_string());
}

#[test]
fn a_summary_spans_its_first_and_last_readable_timestamps() {
    let summary = summarize(&[
        r##"{"type":"event_msg","payload":{"type":"user_message","message":"Fix the build"}}"##,
        r##"{"timestamp":"2026-03-01T10:00:01Z","type":"event_msg","payload":{"type":"agent_message","message":"ok"}}"##,
        r##"{"timestamp":"not a time","type":"event_msg","payload":{"type":"agent_message","message":"ok"}}"##,
        r##"{"timestamp":"2026-03-01T10:00:05Z","type":"event_msg","payload":{"type":"agent_message","message":"done"}}"##,
        "not json",
    ])
    .expect("summary present");
    assert_eq!(summary.started_at, 1_772_359_201_000);
    assert_eq!(summary.ended_at, Some(1_772_359_205_000));
}
