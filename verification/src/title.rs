//! Which user text can title a conversation, and how it is cleaned first.
//!
//! Codex injects machine context as user messages (the AGENTS.md instruction
//! block, the `<environment_context>` envelope, `<codex_internal_context>`
//! re-injections); none of them may become a title.
use vstd::prelude::*;
use crate::pattern::{replace_all_matches, replace_first_match, replaced_all_or_kept, replaced_or_kept};
use crate::text::{
    chars_of, ends_with, ends_with_chars, starts_with, starts_with_chars, trim, trim_chars,
    trim_start, trim_start_chars, trim_str,
};

verus! {

/// The AGENTS.md instruction block Codex prepends to the first prompt.
pub const AGENTS_INSTRUCTIONS_PATTERN: &'static str =
    r"(?s)\A# AGENTS\.md instructions for [^\n]+\n\s*\n<INSTRUCTIONS>.*?</INSTRUCTIONS>\s*";

/// An `@mention` whose resource was blocked: `@path [blocked ...]`.
pub const BLOCKED_MENTION_PATTERN: &'static str = r"@([^\s@]+)\s*\[blocked[^\]]*\]";

/// `<image>`, `</image>` and `<image/>` placeholders, in any casing.
pub const IMAGE_TAG_PATTERN: &'static str = r"(?i)</?image\s*/?>";

/// A run of two or more spaces or tabs.
pub const SPACE_RUN_PATTERN: &'static str = r"[ \t]{2,}";

/// The title given to a prompt that held nothing but attachments.
pub const ATTACHED_RESOURCES: &'static str = "Attached resources";

/// The text with its leading AGENTS.md instruction block removed, trimmed.
pub open spec fn agents_block_stripped(s: Seq<char>) -> Seq<char> {
    trim(replaced_or_kept(AGENTS_INSTRUCTIONS_PATTERN@, s, ""@))
}

/// Blocked mentions and image placeholders removed, space runs collapsed to
/// one space, and the result trimmed.
pub open spec fn blocked_mentions_stripped(s: Seq<char>) -> Seq<char> {
    let a = replaced_all_or_kept(BLOCKED_MENTION_PATTERN@, s, ""@);
    let b = replaced_all_or_kept(IMAGE_TAG_PATTERN@, a, ""@);
    trim(replaced_all_or_kept(SPACE_RUN_PATTERN@, b, " "@))
}

pub open spec fn agents_instruction_message(s: Seq<char>) -> bool {
    starts_with(trim_start(s), "# AGENTS.md instructions for "@)
}

pub open spec fn environment_context_message(s: Seq<char>) -> bool {
    starts_with(trim(s), "<environment_context>"@) && ends_with(trim(s), "</environment_context>"@)
}

pub open spec fn internal_context_message(s: Seq<char>) -> bool {
    starts_with(trim_start(s), "<codex_internal_context"@)
}

/// Text that is empty or is one of Codex's injected context messages.
pub open spec fn injected_or_empty(s: Seq<char>) -> bool {
    s.len() == 0 || agents_instruction_message(s) || environment_context_message(s)
        || internal_context_message(s)
}

/// The title candidate of a user text: `None` for injected context, the
/// cleaned text otherwise, and for a text that held only attachments the
/// fixed "Attached resources" when `fallback_attached` asks for it.
pub open spec fn title_candidate(input: Seq<char>, fallback_attached: bool) -> Option<Seq<char>> {
    let t = trim(input);
    if injected_or_empty(t) {
        None
    } else {
        let w = agents_block_stripped(t);
        if injected_or_empty(w) {
            None
        } else {
            let c = blocked_mentions_stripped(w);
            if c.len() == 0 {
                if fallback_attached {
                    Some(ATTACHED_RESOURCES@)
                } else {
                    None
                }
            } else {
                Some(c)
            }
        }
    }
}

/// Removes the AGENTS.md instruction block Codex prepends to a prompt.
pub fn strip_agents_instructions_block(input: &str) -> (r: String)
    ensures
        r@ == agents_block_stripped(input@),
{
    let text = replace_first_match(AGENTS_INSTRUCTIONS_PATTERN, input, "");
    trim_str(text.as_str())
}

pub fn is_agents_instruction_message(input: &str) -> (r: bool)
    ensures
        r == agents_instruction_message(input@),
{
    let t = trim_start_chars(chars_of(input).as_slice());
    starts_with_chars(t.as_slice(), chars_of("# AGENTS.md instructions for ").as_slice())
}

pub fn is_environment_context_message(input: &str) -> (r: bool)
    ensures
        r == environment_context_message(input@),
{
    let t = trim_chars(chars_of(input).as_slice());
    starts_with_chars(t.as_slice(), chars_of("<environment_context>").as_slice())
        && ends_with_chars(t.as_slice(), chars_of("</environment_context>").as_slice())
}

/// Codex re-injects `<codex_internal_context source="goal">` user turns while
/// a goal is active; they are machine context, never a prompt.
pub fn is_codex_internal_context_message(input: &str) -> (r: bool)
    ensures
        r == internal_context_message(input@),
{
    let t = trim_start_chars(chars_of(input).as_slice());
    starts_with_chars(t.as_slice(), chars_of("<codex_internal_context").as_slice())
}

fn is_injected_or_empty(s: &str) -> (r: bool)
    ensures
        r == injected_or_empty(s@),
{
    s.is_empty() || is_agents_instruction_message(s) || is_environment_context_message(s)
        || is_codex_internal_context_message(s)
}

/// Removes blocked `@mentions` and image placeholders, collapses runs of
/// spaces and tabs, and trims.
pub fn strip_blocked_resource_mentions(input: &str) -> (r: String)
    ensures
        r@ == blocked_mentions_stripped(input@),
{
    let a = replace_all_matches(BLOCKED_MENTION_PATTERN, input, "");
    let b = replace_all_matches(IMAGE_TAG_PATTERN, a.as_str(), "");
    let c = replace_all_matches(SPACE_RUN_PATTERN, b.as_str(), " ");
    trim_str(c.as_str())
}

/// The text a user message offers as the conversation title, if any.
///
/// The candidate is the cleaned prompt; shortening it for display is the
/// caller's.
pub fn extract_codex_title_candidate(input: &str, fallback_attached: bool) -> (r: Option<String>)
    ensures
        match r {
            Some(t) => title_candidate(input@, fallback_attached) == Some(t@),
            None => title_candidate(input@, fallback_attached) is None,
        },
{
    let trimmed = trim_str(input);
    if is_injected_or_empty(trimmed.as_str()) {
        return None;
    }
    let without_agents = strip_agents_instructions_block(trimmed.as_str());
    if is_injected_or_empty(without_agents.as_str()) {
        return None;
    }
    let cleaned = strip_blocked_resource_mentions(without_agents.as_str());
    if cleaned.as_str().is_empty() {
        if fallback_attached {
            Some(ATTACHED_RESOURCES.to_owned())
        } else {
            None
        }
    } else {
        Some(cleaned)
    }
}

} // verus!
