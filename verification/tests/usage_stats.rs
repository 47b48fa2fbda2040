use prooflane::outcome::{infer_output_value_is_error, infer_tool_call_output_is_error};
use prooflane::json::{read_json, Json};
use prooflane::transcript::{SessionStats, TurnUsage};
use prooflane::usage::{
    codex_round_usage, codex_usage_add, codex_usage_is_zero,
    extract_context_window_used_tokens_from_token_count_info, extract_total_tokens_from_usage,
    extract_turn_usage_from_codex_usage, merge_codex_context_window_stats,
    merge_codex_total_usage_stats,
};

fn json(text: &str) -> Json {
    read_json(text).expect("valid json")
}

fn usage(input: u64, output: u64, read: u64) -> TurnUsage {
    TurnUsage {
        input_tokens: input,
        output_tokens: output,
        cache_creation_input_tokens: 0,
        cache_read_input_tokens: read,
    }
}

#[test]
fn extracts_context_window_used_tokens_from_last_usage_total() {
    let info = json(
        r#"{
            "total_token_usage": {
                "total_tokens": 1234,
                "input_tokens": 1000,
                "cached_input_tokens": 100,
                "output_tokens": 100,
                "reasoning_output_tokens": 34
            },
            "last_token_usage": {
                "total_tokens": 321,
                "input_tokens": 300,
                "cached_input_tokens": 10,
                "output_tokens": 11
            }
        }"#,
    );
    assert_eq!(extract_context_window_used_tokens_from_token_count_info(&info), Some(321));
}

#[test]
fn extracts_context_window_used_tokens_from_last_usage_sum_when_total_missing() {
    let info = json(
        r#"{
            "total_token_usage": {
                "input_tokens": 1000,
                "cached_input_tokens": 100,
                "output_tokens": 100,
                "reasoning_output_tokens": 34
            },
            "last_token_usage": {
                "input_tokens": 200,
                "cached_input_tokens": 20,
                "output_tokens": 2
            }
        }"#,
    );
    assert_eq!(extract_context_window_used_tokens_from_token_count_info(&info), Some(202));
}

#[test]
fn falls_back_to_total_usage_when_last_usage_missing() {
    let info = json(r#"{"total_token_usage": {"total_tokens": 1234}}"#);
    assert_eq!(extract_context_window_used_tokens_from_token_count_info(&info), Some(1234));
}

#[test]
fn extracts_turn_usage_from_codex_usage_payload() {
    let u = json(r#"{"input_tokens": 120, "cached_input_tokens": 80, "output_tokens": 16}"#);
    let parsed = extract_turn_usage_from_codex_usage(&u).expect("usage");
    assert_eq!(parsed.input_tokens, 40);
    assert_eq!(parsed.output_tokens, 16);
    assert_eq!(parsed.cache_creation_input_tokens, 0);
    assert_eq!(parsed.cache_read_input_tokens, 80);
}

#[test]
fn total_tokens_fall_back_to_the_counter_sum() {
    let cached_larger = json(r#"{"input_tokens": 5, "cached_input_tokens": 9, "output_tokens": 1}"#);
    assert_eq!(extract_total_tokens_from_usage(&cached_larger), Some(15));
    assert_eq!(extract_total_tokens_from_usage(&json(r#"{}"#)), None);
    assert_eq!(extract_turn_usage_from_codex_usage(&json(r#"{"output_tokens": 0}"#)), None);
}

#[test]
fn merge_total_usage_overrides_aggregated_usage() {
    let aggregated = SessionStats {
        total_usage: Some(TurnUsage {
            input_tokens: 1,
            output_tokens: 2,
            cache_creation_input_tokens: 0,
            cache_read_input_tokens: 3,
        }),
        total_tokens: Some(6),
        total_duration_ms: 100,
        context_window_used_tokens: None,
        context_window_max_tokens: None,
    };
    let total = TurnUsage {
        input_tokens: 100,
        output_tokens: 50,
        cache_creation_input_tokens: 0,
        cache_read_input_tokens: 20,
    };
    let merged = merge_codex_total_usage_stats(Some(aggregated), Some(total.clone()), Some(170))
        .expect("stats");
    assert_eq!(merged.total_usage.expect("usage").input_tokens, total.input_tokens);
    assert_eq!(merged.total_tokens, Some(170));
    assert_eq!(merged.total_duration_ms, 100);
}

#[test]
fn merges_context_window_stats_without_turn_usage() {
    let merged = merge_codex_context_window_stats(None, Some(1200), Some(4000))
        .expect("stats should be present");
    assert!(merged.total_usage.is_none());
    assert!(merged.total_tokens.is_none());
    assert_eq!(merged.context_window_used_tokens, Some(1200));
    assert_eq!(merged.context_window_max_tokens, Some(4000));
    let pct = merged.context_window_used_tokens.expect("used") as f64
        / merged.context_window_max_tokens.expect("max") as f64
        * 100.0;
    assert!((pct - 30.0).abs() < f64::EPSILON);
}

#[test]
fn no_stats_and_no_totals_stay_absent() {
    assert!(merge_codex_total_usage_stats(None, None, None).is_none());
    assert!(merge_codex_context_window_stats(None, None, None).is_none());
    let created = merge_codex_total_usage_stats(None, None, Some(9)).expect("stats");
    assert_eq!(created.total_tokens, Some(9));
    assert_eq!(created.total_duration_ms, 0);
}

#[test]
fn a_round_is_the_growth_of_the_cumulative_total() {
    let first = usage(100, 10, 50);
    let second = usage(160, 25, 80);
    assert_eq!(codex_round_usage(None, &first), first);
    assert_eq!(codex_round_usage(Some(&first), &second), usage(60, 15, 30));
    assert!(codex_usage_is_zero(&codex_round_usage(Some(&second), &second)));
    assert_eq!(codex_usage_add(&first, &usage(60, 15, 30)), second);
}

#[test]
fn a_restarted_counter_counts_its_own_total() {
    let before = usage(500, 50, 100);
    let after_restart = usage(40, 5, 10);
    assert_eq!(codex_round_usage(Some(&before), &after_restart), after_restart);
}

#[test]
fn structured_outputs_report_errors_down_to_level_four() {
    let failed = json(r#"{"result":{"output":{"exit_code":2}}}"#);
    assert!(infer_output_value_is_error(&failed, 0));
    assert!(!infer_output_value_is_error(&failed, 3));
    assert!(!infer_output_value_is_error(&json(r#"{"is_error":true}"#), 9));
    assert!(infer_output_value_is_error(&json(r#"["fine", "Exit code: 1"]"#), 0));
    let payload = json(r#"{"type":"function_call_output","call_id":"c"}"#);
    assert!(infer_tool_call_output_is_error(&payload, Some(&failed), None));
    assert!(!infer_tool_call_output_is_error(&payload, None, Some("all good")));
    assert!(infer_tool_call_output_is_error(&payload, None, Some("error: boom")));
}
