//! The per-event steps of reading a Codex transcript into messages: turn
//! start markers, user and assistant messages, streamed and grouped
//! reasoning, and the opening `/goal` prompt.
use vstd::prelude::*;
use crate::json::Json;
use crate::text::{chars_of, decimal, string_of, trim, trim_chars, with_number};
use crate::title::{blocked_mentions_stripped, strip_blocked_resource_mentions, ATTACHED_RESOURCES};
use crate::transcript::{ContentBlock, MessageRole, UnifiedMessage};
use crate::user_input::{
    abs_diff, block_same, blocks_same, data_uri_image, parse_data_uri_image, recorded_twice,
    should_skip_duplicate_user_message, DUP_WINDOW_MS,
};
use crate::views::{block_view, blocks_view, message_view, messages_view, BlockView, MessageView};

verus! {

/// A turn-start marker is kept only when it is later than the last one kept:
/// an out-of-order arrival is dropped.
pub fn push_turn_start(turn_starts: &mut Vec<i64>, ts: i64)
    ensures
        final(turn_starts)@ == if old(turn_starts)@.len() > 0 && ts <= old(turn_starts)@.last() {
            old(turn_starts)@
        } else {
            old(turn_starts)@.push(ts)
        },
{
    let n = turn_starts.len();
    if n > 0 && ts <= turn_starts[n - 1] {
        return;
    }
    turn_starts.push(ts);
}

/// The parts joined with `sep` between them.
pub open spec fn join_with(parts: Seq<Seq<char>>, sep: Seq<char>) -> Seq<char>
    decreases parts.len(),
{
    if parts.len() == 0 {
        Seq::empty()
    } else if parts.len() == 1 {
        parts[0]
    } else {
        join_with(parts.drop_last(), sep) + sep + parts.last()
    }
}

fn join_strings(parts: &Vec<String>, sep: &str) -> (r: String)
    ensures
        r@ == join_with(parts@.map_values(|p: String| p@), sep@),
{
    let ghost pv = parts@.map_values(|p: String| p@);
    let mut out: Vec<char> = Vec::new();
    let mut i: usize = 0;
    while i < parts.len()
        invariant
            i <= parts@.len(),
            pv == parts@.map_values(|p: String| p@),
            out@ == join_with(pv.subrange(0, i as int), sep@),
        decreases parts.len() - i,
    {
        proof {
            assert(pv.subrange(0, i + 1).drop_last() =~= pv.subrange(0, i as int));
            assert(pv.subrange(0, i + 1).last() == parts@[i as int]@);
        }
        if i > 0 {
            let mut s = chars_of(sep);
            out.append(&mut s);
        }
        let mut p = chars_of(parts[i].as_str());
        out.append(&mut p);
        proof {
            if i == 0 {
                assert(pv.subrange(0, 1) =~= seq![parts@[0]@]);
                assert(out@ =~= parts@[0]@);
            } else {
                assert(out@ =~= join_with(pv.subrange(0, i as int), sep@) + sep@ + parts@[i as int]@);
            }
        }
        i += 1;
    }
    proof {
        assert(pv.subrange(0, pv.len() as int) =~= pv);
    }
    string_of(out.as_slice())
}

/// The message a step appends: role, one text-like block, the time as both
/// start and completion, and nothing else.
pub open spec fn simple_message(id: Seq<char>, role: MessageRole, block: BlockView, ts: i64) -> MessageView {
    MessageView {
        id,
        role,
        content: seq![block],
        timestamp: ts,
        usage: None,
        duration_ms: None,
        model: None,
        completed_at: Some(ts),
    }
}

fn push_message(messages: &mut Vec<UnifiedMessage>, prefix: &str, role: MessageRole, block: ContentBlock, ts: i64)
    requires
        old(messages)@.len() < u64::MAX,
    ensures
        messages_view(final(messages)@) == messages_view(old(messages)@).push(
            simple_message(prefix@ + decimal(old(messages)@.len() as nat), role, block_view(block), ts),
        ),
{
    let id = with_number(prefix, messages.len() as u64);
    let ghost bv = block_view(block);
    let m = UnifiedMessage {
        id,
        role,
        content: vec![block],
        timestamp: ts,
        usage: None,
        duration_ms: None,
        model: None,
        completed_at: Some(ts),
    };
    let ghost before = messages@;
    messages.push(m);
    proof {
        assert(blocks_view(m.content@) =~= seq![bv]);
        assert(messages_view(messages@) =~= messages_view(before).push(message_view(m)));
    }
}

/// Buffered streaming reasoning sections, emitted as one thinking message
/// (sections joined by a blank line) stamped with the last section's time,
/// or `now` when it had none. Nothing happens for an empty buffer.
pub fn flush_pending_reasoning(
    messages: &mut Vec<UnifiedMessage>,
    pending: &mut Vec<String>,
    ts: Option<i64>,
    now: i64,
)
    requires
        old(messages)@.len() < u64::MAX,
    ensures
        old(pending)@.len() == 0 ==> final(messages)@ == old(messages)@ && final(pending)@ == old(pending)@,
        old(pending)@.len() > 0 ==> final(pending)@.len() == 0 && messages_view(final(messages)@)
            == messages_view(old(messages)@).push(
            simple_message(
                "thinking-"@ + decimal(old(messages)@.len() as nat),
                MessageRole::Assistant,
                BlockView::Thinking(join_with(old(pending)@.map_values(|p: String| p@), "\n\n"@)),
                match ts {
                    Some(t) => t,
                    None => now,
                },
            ),
        ),
{
    if pending.len() == 0 {
        return;
    }
    let text = join_strings(pending, "\n\n");
    pending.clear();
    let timestamp = match ts {
        Some(t) => t,
        None => now,
    };
    push_message(messages, "thinking-", MessageRole::Assistant, ContentBlock::Thinking { text }, timestamp);
}

/// The non-blank `text` of the parts of a reasoning `summary`.
pub open spec fn summary_parts(parts: Seq<Json>, n: int) -> Seq<Seq<char>>
    decreases n,
{
    if n <= 0 || n > parts.len() {
        Seq::empty()
    } else {
        let prev = summary_parts(parts, n - 1);
        match parts[n - 1].str_field("text"@) {
            Some(t) => if trim(t).len() > 0 {
                prev.push(t)
            } else {
                prev
            },
            None => prev,
        }
    }
}

/// A grouped reasoning item's text: its summary parts joined by a blank
/// line; empty when it has no summary array.
pub open spec fn reasoning_text(payload: Json) -> Seq<char> {
    match payload.field("summary"@) {
        Some(Json::Array(parts)) => join_with(summary_parts(parts@, parts@.len() as int), "\n\n"@),
        _ => Seq::empty(),
    }
}

pub fn reasoning_summary_text(payload: &Json) -> (r: String)
    ensures
        r@ == reasoning_text(*payload),
{
    let parts = match payload.get("summary") {
        Some(Json::Array(parts)) => parts,
        _ => return String::new(),
    };
    let mut texts: Vec<String> = Vec::new();
    let mut i: usize = 0;
    while i < parts.len()
        invariant
            i <= parts@.len(),
            texts@.map_values(|p: String| p@) == summary_parts(parts@, i as int),
        decreases parts.len() - i,
    {
        if let Some(t) = parts[i].get_str("text") {
            let tt = trim_chars(chars_of(t).as_slice());
            if tt.len() > 0 {
                let ghost before = texts@;
                texts.push(t.to_owned());
                proof {
                    assert(texts@.map_values(|p: String| p@) =~= before.map_values(|p: String| p@).push(t@));
                }
            }
        }
        i += 1;
    }
    join_strings(&texts, "\n\n")
}

/// A grouped `reasoning` item: its summary supersedes the buffered
/// streaming sections as one thinking message; an empty summary lets the
/// buffer stand in for it.
pub fn record_reasoning(
    messages: &mut Vec<UnifiedMessage>,
    pending: &mut Vec<String>,
    payload: &Json,
    timestamp: i64,
    pending_ts: Option<i64>,
    now: i64,
)
    requires
        old(messages)@.len() < u64::MAX,
    ensures
        reasoning_text(*payload).len() > 0 ==> final(pending)@.len() == 0 && messages_view(final(messages)@)
            == messages_view(old(messages)@).push(
            simple_message(
                "thinking-"@ + decimal(old(messages)@.len() as nat),
                MessageRole::Assistant,
                BlockView::Thinking(reasoning_text(*payload)),
                timestamp,
            ),
        ),
        reasoning_text(*payload).len() == 0 && old(pending)@.len() == 0 ==> final(messages)@ == old(messages)@
            && final(pending)@ == old(pending)@,
        reasoning_text(*payload).len() == 0 && old(pending)@.len() > 0 ==> final(pending)@.len() == 0
            && messages_view(final(messages)@) == messages_view(old(messages)@).push(
            simple_message(
                "thinking-"@ + decimal(old(messages)@.len() as nat),
                MessageRole::Assistant,
                BlockView::Thinking(join_with(old(pending)@.map_values(|p: String| p@), "\n\n"@)),
                match pending_ts {
                    Some(t) => t,
                    None => now,
                },
            ),
        ),
{
    let text = reasoning_summary_text(payload);
    if !text.as_str().is_empty() {
        pending.clear();
        push_message(messages, "thinking-", MessageRole::Assistant, ContentBlock::Thinking { text }, timestamp);
    } else {
        flush_pending_reasoning(messages, pending, pending_ts, now);
    }
}

/// An assistant reply (`agent_message`), as one text message.
pub fn push_agent_message(messages: &mut Vec<UnifiedMessage>, payload: &Json, timestamp: i64)
    requires
        old(messages)@.len() < u64::MAX,
    ensures
        messages_view(final(messages)@) == messages_view(old(messages)@).push(
            simple_message(
                "assistant-"@ + decimal(old(messages)@.len() as nat),
                MessageRole::Assistant,
                BlockView::Text(
                    match payload.str_field("message"@) {
                        Some(m) => m,
                        None => Seq::empty(),
                    },
                ),
                timestamp,
            ),
        ),
{
    let text = match payload.get_str("message") {
        Some(m) => m.to_owned(),
        None => String::new(),
    };
    push_message(messages, "assistant-", MessageRole::Assistant, ContentBlock::Text { text }, timestamp);
}

/// The inline images of a `user_message` event, in order: those of its
/// `images` strings that read as inline image URIs.
pub open spec fn event_images(items: Seq<Json>, n: int) -> Seq<(Seq<char>, Seq<char>)>
    decreases n,
{
    if n <= 0 || n > items.len() {
        Seq::empty()
    } else {
        let prev = event_images(items, n - 1);
        match items[n - 1].str_value() {
            Some(raw) => match data_uri_image(raw) {
                Some(img) => prev.push(img),
                None => prev,
            },
            None => prev,
        }
    }
}

/// The blocks of a `user_message` event: the cleaned text when not empty,
/// then its images, or "Attached resources" when that leaves nothing.
pub open spec fn user_event_blocks(payload: Json) -> Seq<BlockView> {
    let raw = match payload.str_field("message"@) {
        Some(m) => m,
        None => Seq::empty(),
    };
    let text = blocked_mentions_stripped(raw);
    let lead: Seq<BlockView> = if text.len() > 0 {
        seq![BlockView::Text(text)]
    } else {
        Seq::empty()
    };
    let images = match payload.field("images"@) {
        Some(Json::Array(items)) => event_images(items@, items@.len() as int),
        _ => Seq::empty(),
    };
    let all = lead + images.map_values(|img: (Seq<char>, Seq<char>)| BlockView::Image(img.1, img.0, None));
    if all.len() == 0 {
        seq![BlockView::Text(ATTACHED_RESOURCES@)]
    } else {
        all
    }
}

fn user_blocks(payload: &Json) -> (r: Vec<ContentBlock>)
    ensures
        blocks_view(r@) == user_event_blocks(*payload),
{
    let raw = match payload.get_str("message") {
        Some(m) => m,
        None => "",
    };
    proof {
        reveal_strlit("");
    }
    let ghost raw_view = match payload.str_field("message"@) {
        Some(m) => m,
        None => Seq::empty(),
    };
    assert(raw@ == raw_view);
    let normalized = strip_blocked_resource_mentions(raw);
    let ghost text = normalized@;
    let mut blocks: Vec<ContentBlock> = Vec::new();
    if !normalized.as_str().is_empty() {
        blocks.push(ContentBlock::Text { text: normalized });
        proof {
            assert(blocks_view(blocks@) =~= seq![BlockView::Text(text)]);
        }
    } else {
        proof {
            assert(blocks_view(blocks@) =~= Seq::<BlockView>::empty());
        }
    }
    let ghost lead = blocks_view(blocks@);
    assert(lead == (if text.len() > 0 {
        seq![BlockView::Text(text)]
    } else {
        Seq::<BlockView>::empty()
    }));
    let ghost imgs = match payload.field("images"@) {
        Some(Json::Array(items)) => event_images(items@, items@.len() as int),
        _ => Seq::empty(),
    };
    let ghost as_blocks = imgs.map_values(|img: (Seq<char>, Seq<char>)| BlockView::Image(img.1, img.0, None));
    if let Some(Json::Array(items)) = payload.get("images") {
        let mut i: usize = 0;
        while i < items.len()
            invariant
                i <= items@.len(),
                blocks_view(blocks@) == lead + event_images(items@, i as int).map_values(
                    |img: (Seq<char>, Seq<char>)| BlockView::Image(img.1, img.0, None),
                ),
            decreases items.len() - i,
        {
            if let Some(raw_image) = items[i].as_str() {
                if let Some((mime_type, data)) = parse_data_uri_image(raw_image) {
                    let ghost before = blocks@;
                    let ghost img = (mime_type@, data@);
                    blocks.push(ContentBlock::Image { data, mime_type, uri: None });
                    proof {
                        assert(event_images(items@, i + 1) == event_images(items@, i as int).push(img));
                        assert(blocks_view(blocks@) =~= blocks_view(before).push(BlockView::Image(img.1, img.0, None)));
                        assert(event_images(items@, i + 1).map_values(
                            |im: (Seq<char>, Seq<char>)| BlockView::Image(im.1, im.0, None),
                        ) =~= event_images(items@, i as int).map_values(
                            |im: (Seq<char>, Seq<char>)| BlockView::Image(im.1, im.0, None),
                        ).push(BlockView::Image(img.1, img.0, None)));
                    }
                }
            }
            i += 1;
        }
        proof {
            assert(blocks_view(blocks@) =~= lead + as_blocks);
        }
    } else {
        proof {
            assert(as_blocks =~= Seq::<BlockView>::empty());
            assert(blocks_view(blocks@) =~= lead + as_blocks);
        }
    }
    if blocks.len() == 0 {
        blocks.push(ContentBlock::Text { text: ATTACHED_RESOURCES.to_owned() });
        proof {
            assert(blocks_view(blocks@) =~= seq![BlockView::Text(ATTACHED_RESOURCES@)]);
        }
    }
    blocks
}

/// Scanning `msgs[..i]` from the end: whether a user message with the
/// blocks `bv` is met before a user message further than the duplicate
/// window from `ts`.
pub open spec fn duplicate_of(msgs: Seq<UnifiedMessage>, bv: Seq<BlockView>, ts: i64, i: int) -> bool
    decreases i,
{
    if i <= 0 || i > msgs.len() {
        false
    } else if msgs[i - 1].role != MessageRole::User {
        duplicate_of(msgs, bv, ts, i - 1)
    } else if abs_diff(ts, msgs[i - 1].timestamp) > DUP_WINDOW_MS {
        false
    } else if blocks_view(msgs[i - 1].content@) == bv {
        true
    } else {
        duplicate_of(msgs, bv, ts, i - 1)
    }
}

proof fn lemma_block_same_view(x: ContentBlock, y: ContentBlock)
    ensures
        block_same(x, y) == (block_view(x) == block_view(y)),
{
    match x {
        ContentBlock::Text { .. } => {},
        ContentBlock::Image { .. } => {},
        ContentBlock::Thinking { .. } => {},
        ContentBlock::ToolUse { .. } => {},
        ContentBlock::ToolResult { .. } => {},
    }
    match y {
        ContentBlock::Text { .. } => {},
        ContentBlock::Image { .. } => {},
        ContentBlock::Thinking { .. } => {},
        ContentBlock::ToolUse { .. } => {},
        ContentBlock::ToolResult { .. } => {},
    }
}

proof fn lemma_blocks_same_view(a: Seq<ContentBlock>, b: Seq<ContentBlock>)
    ensures
        blocks_same(a, b) == (blocks_view(a) == blocks_view(b)),
{
    if blocks_same(a, b) {
        assert forall|k: int| 0 <= k < a.len() implies blocks_view(a)[k] == blocks_view(b)[k] by {
            assert(block_same(a[k], b[k]));
            lemma_block_same_view(a[k], b[k]);
        }
        assert(blocks_view(a) =~= blocks_view(b));
    }
    if blocks_view(a) == blocks_view(b) {
        assert(blocks_view(a).len() == a.len());
        assert(blocks_view(b).len() == b.len());
        assert(a.len() == b.len());
        assert forall|k: int| 0 <= k < a.len() implies #[trigger] block_same(a[k], b[k]) by {
            assert(blocks_view(a)[k] == blocks_view(b)[k]);
            lemma_block_same_view(a[k], b[k]);
        }
    }
}

pub proof fn lemma_duplicate_of(msgs: Seq<UnifiedMessage>, b: Seq<ContentBlock>, ts: i64, i: int)
    ensures
        recorded_twice(msgs, b, ts, i) == duplicate_of(msgs, blocks_view(b), ts, i),
    decreases i,
{
    if i > 0 && i <= msgs.len() {
        lemma_blocks_same_view(msgs[i - 1].content@, b);
        lemma_duplicate_of(msgs, b, ts, i - 1);
    }
}

/// A `user_message` event: its blocks become a user message, unless the
/// same user message was recorded moments before (see
/// `should_skip_duplicate_user_message`). Whether it was added is returned.
pub fn push_user_message(messages: &mut Vec<UnifiedMessage>, payload: &Json, timestamp: i64) -> (added: bool)
    requires
        old(messages)@.len() < u64::MAX,
    ensures
        !added ==> final(messages)@ == old(messages)@,
        added ==> messages_view(final(messages)@) == messages_view(old(messages)@).push(
            MessageView {
                id: "user-"@ + decimal(old(messages)@.len() as nat),
                role: MessageRole::User,
                content: user_event_blocks(*payload),
                timestamp,
                usage: None,
                duration_ms: None,
                model: None,
                completed_at: Some(timestamp),
            },
        ),
        added == !duplicate_of(old(messages)@, user_event_blocks(*payload), timestamp, old(messages)@.len() as int),
{
    let blocks = user_blocks(payload);
    proof {
        lemma_duplicate_of(messages@, blocks@, timestamp, messages@.len() as int);
    }
    if should_skip_duplicate_user_message(messages.as_slice(), blocks.as_slice(), timestamp) {
        return false;
    }
    let id = with_number("user-", messages.len() as u64);
    let m = UnifiedMessage {
        id,
        role: MessageRole::User,
        content: blocks,
        timestamp,
        usage: None,
        duration_ms: None,
        model: None,
        completed_at: Some(timestamp),
    };
    let ghost before = messages@;
    messages.push(m);
    proof {
        assert(messages_view(messages@) =~= messages_view(before).push(message_view(m)));
    }
    true
}

/// The opening `/goal` prompt, put first: when a goal opened the session
/// before any real user turn, the typed `/goal <objective>` is shown as the
/// leading user message, at the first event's time (or `now`).
pub fn insert_goal_opener(messages: &mut Vec<UnifiedMessage>, objective: &str, first_ts: Option<i64>, now: i64)
    ensures
        messages_view(final(messages)@) == seq![
            MessageView {
                id: "codex-goal-user"@,
                role: MessageRole::User,
                content: seq![BlockView::Text("/goal "@ + objective@)],
                timestamp: match first_ts {
                    Some(t) => t,
                    None => now,
                },
                usage: None,
                duration_ms: None,
                model: None,
                completed_at: first_ts,
            },
        ] + messages_view(old(messages)@),
{
    let mut text = chars_of("/goal ");
    let mut o = chars_of(objective);
    text.append(&mut o);
    let block = ContentBlock::Text { text: string_of(text.as_slice()) };
    let ghost bv = block_view(block);
    let m = UnifiedMessage {
        id: "codex-goal-user".to_owned(),
        role: MessageRole::User,
        content: vec![block],
        timestamp: match first_ts {
            Some(t) => t,
            None => now,
        },
        usage: None,
        duration_ms: None,
        model: None,
        completed_at: first_ts,
    };
    let ghost before = messages@;
    messages.insert(0, m);
    proof {
        assert(blocks_view(m.content@) =~= seq![bv]);
        assert(messages_view(messages@) =~= seq![message_view(m)] + messages_view(before));
    }
}

} // verus!
