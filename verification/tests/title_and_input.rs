use prooflane::json::{read_json, Json};
use prooflane::title::{
    extract_codex_title_candidate, is_agents_instruction_message, is_codex_internal_context_message,
    is_environment_context_message, strip_agents_instructions_block, strip_blocked_resource_mentions,
};
use prooflane::transcript::{ContentBlock, MessageRole, UnifiedMessage};
use prooflane::user_input::{
    blocks_equal, extract_codex_text_content, extract_response_item_user_image_blocks,
    parse_data_uri_image, parse_input_image_data_uri, response_item_user_has_image,
    should_skip_duplicate_user_message,
};

fn json(text: &str) -> Json {
    read_json(text).expect("valid json")
}

#[test]
fn skips_agents_instructions_title_candidate() {
    let input = "# AGENTS.md instructions for /tmp/demo\n\n<INSTRUCTIONS>\nhello\n</INSTRUCTIONS>";
    let got = extract_codex_title_candidate(input, true);
    assert!(got.is_none());
}

#[test]
fn skips_environment_context_title_candidate() {
    let input = "<environment_context>\n  <cwd>/tmp/demo</cwd>\n</environment_context>";
    let got = extract_codex_title_candidate(input, true);
    assert!(got.is_none());
}

#[test]
fn keeps_real_user_prompt_as_title_candidate() {
    let input = "修复 codex 会话标题";
    let got = extract_codex_title_candidate(input, true);
    assert_eq!(got.as_deref(), Some("修复 codex 会话标题"));
}

#[test]
fn strips_image_placeholders_from_user_text() {
    let input = "这个图片里面是什么\n</image>\n<image>\n";
    let got = strip_blocked_resource_mentions(input);
    assert_eq!(got, "这个图片里面是什么");
}

#[test]
fn blocked_mentions_and_space_runs_are_cleaned() {
    let got = strip_blocked_resource_mentions("look at @src/main.rs [blocked by policy]  and   this");
    assert_eq!(got, "look at and this");
    assert_eq!(strip_blocked_resource_mentions("  <IMAGE/> \t "), "");
}

#[test]
fn agents_block_is_removed_from_the_front_of_a_prompt() {
    let input =
        "# AGENTS.md instructions for /repo\n\n<INSTRUCTIONS>\nrules\n</INSTRUCTIONS>\n\nfix the build";
    assert_eq!(strip_agents_instructions_block(input), "fix the build");
    assert_eq!(extract_codex_title_candidate(input, true), None);
    assert_eq!(strip_agents_instructions_block("  plain  "), "plain");
}

#[test]
fn injected_context_detectors_follow_their_markers() {
    assert!(is_agents_instruction_message("  # AGENTS.md instructions for x"));
    assert!(!is_agents_instruction_message("# AGENTS.md"));
    assert!(is_environment_context_message(" <environment_context>x</environment_context> "));
    assert!(!is_environment_context_message("<environment_context>x"));
    assert!(is_codex_internal_context_message("\n<codex_internal_context source=\"goal\">"));
    assert!(!is_codex_internal_context_message("codex_internal_context"));
}

#[test]
fn attachment_only_prompt_titles_as_attached_resources_when_asked() {
    assert_eq!(
        extract_codex_title_candidate("<image>", true).as_deref(),
        Some("Attached resources")
    );
    assert_eq!(extract_codex_title_candidate("<image>", false), None);
    assert_eq!(extract_codex_title_candidate("   ", true), None);
    assert_eq!(
        extract_codex_title_candidate("<codex_internal_context source=\"goal\">go", true),
        None
    );
}

#[test]
fn extracts_response_item_input_image_blocks() {
    let payload = json(
        r#"{"content": [
            {"type": "input_text", "text": "这是什么东西"},
            {"type": "input_text", "text": "<image>"},
            {"type": "input_image", "image_url": "data:image/png;base64,QUJD"}
        ]}"#,
    );

    let blocks = extract_response_item_user_image_blocks(&payload).expect("blocks");
    assert_eq!(blocks.len(), 2);
    match &blocks[0] {
        ContentBlock::Text { text } => assert_eq!(text, "这是什么东西"),
        _ => panic!("expected text block"),
    }
    match &blocks[1] {
        ContentBlock::Image { data, mime_type, .. } => {
            assert_eq!(mime_type, "image/png");
            assert_eq!(data, "QUJD");
        }
        _ => panic!("expected image block"),
    }
}

#[test]
fn image_message_without_readable_content_becomes_attached_resources() {
    let payload = json(r#"{"content": [{"type": "input_image", "image_url": "https://x/y.png"}]}"#);
    let blocks = extract_response_item_user_image_blocks(&payload).expect("blocks");
    assert_eq!(blocks.len(), 1);
    match &blocks[0] {
        ContentBlock::Text { text } => assert_eq!(text, "Attached resources"),
        _ => panic!("expected text block"),
    }
    let text_only = json(r#"{"content": [{"type": "input_text", "text": "hello"}]}"#);
    assert!(extract_response_item_user_image_blocks(&text_only).is_none());
    assert!(extract_response_item_user_image_blocks(&json(r#"{"content": "x"}"#)).is_none());
}

#[test]
fn image_detection_and_first_input_text() {
    let payload = json(
        r#"{"content": [
            {"type": "output_text", "text": "no"},
            {"type": "input_text", "text": "first"},
            {"type": "input_image", "image_url": {"url": "data:image/jpeg;base64,AAAA"}}
        ]}"#,
    );
    assert!(response_item_user_has_image(&payload));
    assert_eq!(extract_codex_text_content(&payload).as_deref(), Some("first"));
    let none = json(r#"{"content": [{"type": "input_text"}]}"#);
    assert!(!response_item_user_has_image(&none));
    assert_eq!(extract_codex_text_content(&none), None);
}

#[test]
fn data_uri_images_need_an_image_type_and_a_payload() {
    assert_eq!(
        parse_data_uri_image("  data:image/png;base64, QUJD "),
        Some(("image/png".to_string(), "QUJD".to_string()))
    );
    assert_eq!(parse_data_uri_image("data:text/plain;base64,QUJD"), None);
    assert_eq!(parse_data_uri_image("data:image/png;base64,   "), None);
    assert_eq!(parse_data_uri_image("image/png;base64,QUJD"), None);
    assert_eq!(parse_data_uri_image("data:image/png,QUJD"), None);
    let nested = json(r#"{"image_url": {"url": "data:image/gif;base64,R0lG"}}"#);
    assert_eq!(
        parse_input_image_data_uri(&nested),
        Some(("image/gif".to_string(), "R0lG".to_string()))
    );
    let by_url = json(r#"{"url": "data:image/webp;base64,UklG"}"#);
    assert_eq!(
        parse_input_image_data_uri(&by_url),
        Some(("image/webp".to_string(), "UklG".to_string()))
    );
}

fn user_message(timestamp: i64, blocks: Vec<ContentBlock>) -> UnifiedMessage {
    UnifiedMessage {
        id: "user-0".to_string(),
        role: MessageRole::User,
        content: blocks,
        timestamp,
        usage: None,
        duration_ms: None,
        model: None,
        completed_at: Some(timestamp),
    }
}

fn sample_blocks() -> Vec<ContentBlock> {
    vec![
        ContentBlock::Text { text: "hello".to_string() },
        ContentBlock::Image {
            data: "QUJD".to_string(),
            mime_type: "image/png".to_string(),
            uri: None,
        },
    ]
}

#[test]
fn skips_duplicate_user_message_within_short_window() {
    let now: i64 = 1_772_000_000_000;
    let blocks = sample_blocks();
    let messages = vec![user_message(now, sample_blocks())];

    assert!(should_skip_duplicate_user_message(&messages, &blocks, now + 1200));
    assert!(!should_skip_duplicate_user_message(&messages, &blocks, now + 180_000));
}

#[test]
fn duplicate_search_stops_at_a_distant_user_message() {
    let now: i64 = 1_772_000_000_000;
    let blocks = sample_blocks();
    let messages = vec![
        user_message(now, sample_blocks()),
        user_message(now + 200_000, vec![ContentBlock::Text { text: "other".to_string() }]),
    ];
    assert!(!should_skip_duplicate_user_message(&messages, &blocks, now + 1000));
    assert!(should_skip_duplicate_user_message(&messages[..1], &blocks, now - 1000));
    assert!(blocks_equal(&blocks, &sample_blocks()));
    assert!(!blocks_equal(&blocks, &blocks[..1]));
}
