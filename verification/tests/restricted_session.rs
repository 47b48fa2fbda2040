use prooflane::restricted::{
    codex_home_from_setting, normalize_restricted_codex_output, operation_description,
    operation_title, restricted_codex_config, restricted_outcome, restricted_session_mode,
    restricted_session_step, usable_assistant_output, ConnectionHealth, RestrictedCodexError,
    RestrictedPhase, RestrictedStep, SessionSnapshot,
};

#[test]
fn restricted_session_readiness_fails_closed_until_read_only_is_confirmed() {
    assert!(restricted_session_mode("prompt-optimization", false, None).is_none());
    assert!(matches!(
        restricted_session_mode("prompt-optimization", true, None),
        Some(Err(RestrictedCodexError::Failed(message)))
            if message == "Prompt optimization agent did not advertise read-only mode"
    ));
    assert!(matches!(
        restricted_session_mode("prompt-optimization", true, Some("agent")),
        Some(Err(RestrictedCodexError::Failed(message)))
            if message == "Prompt optimization agent failed to enter read-only mode"
    ));
    assert!(matches!(
        restricted_session_mode("prompt-optimization", true, Some("read-only")),
        Some(Ok(()))
    ));
}

#[test]
fn prompt_optimization_output_rejects_an_empty_markdown_fence() {
    assert_eq!(usable_assistant_output("prompt-optimization", "```text\n\n```"), None);
    assert_eq!(
        usable_assistant_output("prompt-optimization", "```text\nresult\n```"),
        Some("```text\nresult\n```".into())
    );
    assert_eq!(
        usable_assistant_output("conversation-relay-summary", "{}"),
        Some("{}".into())
    );
}

#[test]
fn outer_fence_of_a_prompt_optimization_is_unwrapped() {
    assert_eq!(
        normalize_restricted_codex_output("prompt-optimization", "  ```md\r\n\r\nbody\n```  "),
        "body"
    );
    assert_eq!(
        normalize_restricted_codex_output("prompt-optimization", "```\n```rust\nfn main() {}\n```\n```"),
        "```rust\nfn main() {}\n```"
    );
    assert_eq!(
        normalize_restricted_codex_output("conversation-relay-summary", " ```x``` "),
        "```x```"
    );
    assert_eq!(normalize_restricted_codex_output("prompt-optimization", "```"), "");
}

#[test]
fn operations_have_titles_and_descriptions() {
    assert_eq!(operation_title("prompt-optimization"), "Prompt optimization");
    assert_eq!(operation_title("conversation-relay-summary"), "Conversation relay summary");
    assert_eq!(operation_title("other"), "Restricted Codex request");
    assert_eq!(operation_description("prompt-optimization"), "prompt optimization");
    assert_eq!(operation_description("x"), "restricted Codex request");
    assert_eq!(
        RestrictedCodexError::Cancelled.message(),
        "restricted Codex request was cancelled"
    );
    assert_eq!(RestrictedCodexError::TimedOut.message(), "restricted Codex request timed out");
}

fn snapshot() -> SessionSnapshot {
    SessionSnapshot {
        status: ConnectionHealth::Live,
        last_error: None,
        selectors_ready: true,
        current_mode: Some("read-only".to_string()),
        turn_in_flight: false,
        last_turn_ended_abnormally: false,
        last_assistant_text: None,
    }
}

fn failure_text(step: RestrictedStep) -> String {
    match step {
        RestrictedStep::Finish(Err(RestrictedCodexError::Failed(m))) => m,
        _ => panic!("expected a failure"),
    }
}

#[test]
fn session_steps_send_the_prompt_only_in_read_only_mode() {
    let op = "conversation-relay-summary";
    assert!(matches!(
        restricted_session_step(op, RestrictedPhase::AwaitingReadOnly, &snapshot()),
        RestrictedStep::SendPrompt
    ));
    let mut waiting = snapshot();
    waiting.selectors_ready = false;
    assert!(matches!(
        restricted_session_step(op, RestrictedPhase::AwaitingReadOnly, &waiting),
        RestrictedStep::Wait
    ));
    let mut agent = snapshot();
    agent.current_mode = Some("agent".to_string());
    assert_eq!(
        failure_text(restricted_session_step(op, RestrictedPhase::AwaitingReadOnly, &agent)),
        "Conversation relay summary agent failed to enter read-only mode"
    );
    let mut gone = snapshot();
    gone.status = ConnectionHealth::Disconnected;
    assert_eq!(
        failure_text(restricted_session_step(op, RestrictedPhase::AwaitingReadOnly, &gone)),
        "Conversation relay summary agent disconnected"
    );
    let mut failed = snapshot();
    failed.status = ConnectionHealth::Failed;
    assert_eq!(
        failure_text(restricted_session_step(op, RestrictedPhase::AwaitingReadOnly, &failed)),
        "Conversation relay summary agent failed"
    );
    failed.last_error = Some("boom".to_string());
    assert_eq!(
        failure_text(restricted_session_step(op, RestrictedPhase::AwaitingReadOnly, &failed)),
        "boom"
    );
}

#[test]
fn session_steps_return_the_first_usable_reply() {
    let op = "prompt-optimization";
    let mut busy = snapshot();
    busy.turn_in_flight = true;
    busy.last_assistant_text = Some("done".to_string());
    assert!(matches!(
        restricted_session_step(op, RestrictedPhase::AwaitingReply, &busy),
        RestrictedStep::Wait
    ));
    let mut empty = snapshot();
    empty.last_assistant_text = Some("```text\n\n```".to_string());
    assert!(matches!(
        restricted_session_step(op, RestrictedPhase::AwaitingReply, &empty),
        RestrictedStep::Wait
    ));
    let mut reply = snapshot();
    reply.last_assistant_text = Some("  better prompt \n".to_string());
    assert!(matches!(
        restricted_session_step(op, RestrictedPhase::AwaitingReply, &reply),
        RestrictedStep::Finish(Ok(text)) if text == "better prompt"
    ));
    let mut stopped = snapshot();
    stopped.last_turn_ended_abnormally = true;
    assert_eq!(
        failure_text(restricted_session_step(op, RestrictedPhase::AwaitingReply, &stopped)),
        "Prompt optimization agent stopped before completing"
    );
}

#[test]
fn cancellation_wins_over_the_run_result() {
    assert_eq!(
        restricted_outcome(true, Some(Ok("x".to_string()))),
        Err(RestrictedCodexError::Cancelled)
    );
    assert_eq!(restricted_outcome(false, None), Err(RestrictedCodexError::TimedOut));
    assert_eq!(restricted_outcome(false, Some(Ok("x".to_string()))), Ok("x".to_string()));
}

#[test]
fn restricted_config_keeps_only_model_transport_and_closes_capabilities() {
    let source = r#"
model = "gpt-5"
model_provider = "custom"
model_reasoning_effort = "high"
notify = ["dangerous-command"]

[model_providers.custom]
name = "Custom"
base_url = "https://example.test/v1"
wire_api = "responses"

[mcp_servers.user-tool]
command = "dangerous-tool"

[projects."C:/repo"]
trust_level = "trusted"
"#;
    let config = restricted_codex_config(Some(source), "test-operation").expect("config");
    assert!(config.contains("model = \"gpt-5\""));
    assert!(config.contains("model_providers"));
    assert!(config.contains("approval_policy = \"never\""));
    assert!(config.contains("sandbox_mode = \"read-only\""));
    assert!(!config.contains("mcp_servers"));
    assert!(!config.contains("notify"));
    assert!(!config.contains("projects"));
}

#[test]
fn restricted_config_from_nothing_and_from_garbage() {
    let config = restricted_codex_config(None, "summary").expect("empty source config");
    assert!(config.contains("approval_policy = \"never\""));
    assert!(config.contains("sandbox_mode = \"read-only\""));
    let err = restricted_codex_config(Some("= not toml"), "prompt-optimization").unwrap_err();
    assert!(err.message().starts_with("Invalid Codex config for prompt optimization: "));
}

#[test]
fn codex_home_settings_resolve_against_the_home_directory() {
    assert_eq!(codex_home_from_setting("", Some("/home/u".into())), "/home/u/.codex");
    assert_eq!(codex_home_from_setting(" ~ ", Some("/home/u".into())), "/home/u");
    assert_eq!(codex_home_from_setting("~/alt", Some("/home/u".into())), "/home/u/alt");
    assert_eq!(codex_home_from_setting("~", None), ".");
    assert_eq!(codex_home_from_setting(" ~/work/codex ", Some("/home/u".into())), "/home/u/work/codex");
    assert_eq!(codex_home_from_setting("/srv/codex", None), "/srv/codex");
}

#[test]
fn restricted_config_reads_back_as_exactly_the_kept_and_forced_keys() {
    let source = "model = \"gpt-5\"\nnotify = [\"x\"]\nservice_tier = \"flex\"\n[model_providers.p]\nbase_url = \"u\"\n";
    let config = restricted_codex_config(Some(source), "summary").expect("config");
    let table: toml::Table = config.parse().expect("toml");
    let mut keys: Vec<&str> = table.keys().map(|k| k.as_str()).collect();
    keys.sort();
    assert_eq!(keys, vec!["approval_policy", "model", "model_providers", "sandbox_mode", "service_tier"]);
    assert_eq!(table["model"].as_str(), Some("gpt-5"));
    assert_eq!(table["approval_policy"].as_str(), Some("never"));
    assert_eq!(table["sandbox_mode"].as_str(), Some("read-only"));
    let empty: toml::Table = restricted_codex_config(None, "summary").expect("config").parse().expect("toml");
    assert_eq!(empty.len(), 2);
    let not_table = restricted_codex_config(Some("x = 1\n[x]\n"), "summary");
    assert!(not_table.is_err());
}

#[test]
fn a_complete_inner_markdown_fence_survives_unwrapping_the_outer_one() {
    let raw = "```\n```rust\nfn main() {}\n```\n```";
    let runner_output = usable_assistant_output("prompt-optimization", raw)
        .expect("outer fence contains usable prompt content");
    assert_eq!(runner_output, raw);
    assert_eq!(
        normalize_restricted_codex_output("prompt-optimization", &runner_output),
        "```rust\nfn main() {}\n```"
    );
}
