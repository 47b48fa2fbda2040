//! User input as Codex records it: the text of a `response_item` message,
//! inline `data:` image URIs, the blocks of an image-bearing user message, and
//! the detection of a user message recorded twice.
use vstd::prelude::*;
use crate::json::Json;
use crate::text::{
    chars_of, find_chars, find_seq, join_lines, join_lines_chars, slice_chars, starts_with,
    starts_with_chars, string_of, trim, trim_chars, views,
};
use crate::title::{blocked_mentions_stripped, strip_blocked_resource_mentions, ATTACHED_RESOURCES};
use crate::transcript::{ContentBlock, MessageRole, UnifiedMessage};
use crate::views::{blocks_view, BlockView};

verus! {

/// The `content` items of a payload, when it holds an array.
pub open spec fn content_items(payload: Json) -> Option<Seq<Json>> {
    match payload.field("content"@) {
        Some(Json::Array(items)) => Some(items@),
        _ => None,
    }
}

/// The `text` of the first `input_text` item from `i` on.
pub open spec fn first_input_text(items: Seq<Json>, i: int) -> Option<Seq<char>>
    decreases items.len() - i,
{
    if i < 0 || i >= items.len() {
        None
    } else if items[i].str_field("type"@) == Some("input_text"@) {
        items[i].str_field("text"@)
    } else {
        first_input_text(items, i + 1)
    }
}

pub open spec fn text_content(payload: Json) -> Option<Seq<char>> {
    match content_items(payload) {
        Some(items) => first_input_text(items, 0),
        None => None,
    }
}

/// The text of the first `input_text` item of a message payload (`None` when
/// that item has no string `text`).
pub fn extract_codex_text_content(payload: &Json) -> (r: Option<String>)
    ensures
        match r {
            Some(t) => text_content(*payload) == Some(t@),
            None => text_content(*payload) is None,
        },
{
    let content = match payload.get("content") {
        Some(c) => c,
        None => return None,
    };
    match content {
        Json::Array(items) => {
            let mut i: usize = 0;
            while i < items.len()
                invariant
                    i <= items@.len(),
                    content_items(*payload) == Some(items@),
                    text_content(*payload) == first_input_text(items@, i as int),
                decreases items.len() - i,
            {
                let t = items[i].get_str("type");
                let is_text = match t {
                    Some(s) => crate::text::str_eq(s, "input_text"),
                    None => false,
                };
                if is_text {
                    return match items[i].get_str("text") {
                        Some(s) => Some(s.to_owned()),
                        None => None,
                    };
                }
                i += 1;
            }
            None
        },
        _ => None,
    }
}

/// An inline image URI `data:<mime>;base64,<data>` read as its MIME type and
/// payload, both trimmed; only `image/` types with a non-empty payload count.
pub open spec fn data_uri_image(raw: Seq<char>) -> Option<(Seq<char>, Seq<char>)> {
    let t = trim(raw);
    if !starts_with(t, "data:"@) {
        None
    } else {
        match find_seq(t, ";base64,"@, 0) {
            None => None,
            Some(m) => if m < 5 {
                None
            } else {
                let mime = trim(t.subrange(5, m));
                let data = trim(t.subrange(m + 8, t.len() as int));
                if !starts_with(mime, "image/"@) || data.len() == 0 {
                    None
                } else {
                    Some((mime, data))
                }
            },
        }
    }
}

pub fn parse_data_uri_image(raw: &str) -> (r: Option<(String, String)>)
    ensures
        match r {
            Some((mime, data)) => data_uri_image(raw@) == Some((mime@, data@)),
            None => data_uri_image(raw@) is None,
        },
{
    let t = trim_chars(chars_of(raw).as_slice());
    if !starts_with_chars(t.as_slice(), chars_of("data:").as_slice()) {
        return None;
    }
    let marker = chars_of(";base64,");
    proof {
        reveal_strlit(";base64,");
    }
    let m = match find_chars(t.as_slice(), marker.as_slice()) {
        Some(m) => m,
        None => return None,
    };
    if m < 5 {
        return None;
    }
    proof {
        crate::text::lemma_find_seq(t@, marker@, 0);
        assert(marker@.len() == 8);
        assert(crate::text::occurs_at(t@, marker@, m as int));
        assert(m + 8 <= t@.len());
    }
    let mime = trim_chars(slice_chars(t.as_slice(), 5, m).as_slice());
    assert(m + 8 <= t.len());
    let start: usize = m + 8;
    let data = trim_chars(slice_chars(t.as_slice(), start, t.len()).as_slice());
    if !starts_with_chars(mime.as_slice(), chars_of("image/").as_slice()) || data.len() == 0 {
        return None;
    }
    Some((string_of(mime.as_slice()), string_of(data.as_slice())))
}

/// Where an `input_image` item keeps its URI: `image_url` as a string, else
/// `image_url.url`, else `url`.
pub open spec fn image_uri_of(item: Json) -> Option<Seq<char>> {
    if item.str_field("image_url"@) is Some {
        item.str_field("image_url"@)
    } else if item.field("image_url"@) is Some && item.field("image_url"@)->0.str_field("url"@) is Some {
        item.field("image_url"@)->0.str_field("url"@)
    } else {
        item.str_field("url"@)
    }
}

pub open spec fn input_image_of(item: Json) -> Option<(Seq<char>, Seq<char>)> {
    match image_uri_of(item) {
        Some(u) => data_uri_image(u),
        None => None,
    }
}

pub fn parse_input_image_data_uri(item: &Json) -> (r: Option<(String, String)>)
    ensures
        match r {
            Some((mime, data)) => input_image_of(*item) == Some((mime@, data@)),
            None => input_image_of(*item) is None,
        },
{
    if let Some(s) = item.get_str("image_url") {
        return parse_data_uri_image(s);
    }
    if let Some(v) = item.get("image_url") {
        if let Some(s) = v.get_str("url") {
            return parse_data_uri_image(s);
        }
    }
    match item.get_str("url") {
        Some(s) => parse_data_uri_image(s),
        None => None,
    }
}

pub open spec fn is_input_image(item: Json) -> bool {
    item.str_field("type"@) == Some("input_image"@)
}

/// Whether a `response_item` user message carries an `input_image`.
pub open spec fn has_input_image(payload: Json) -> bool {
    match content_items(payload) {
        Some(items) => exists|i: int| 0 <= i < items.len() && #[trigger] is_input_image(items[i]),
        None => false,
    }
}

fn item_is_type(item: &Json, ty: &str) -> (r: bool)
    ensures
        r == (item.str_field("type"@) == Some(ty@)),
{
    match item.get_str("type") {
        Some(s) => crate::text::str_eq(s, ty),
        None => false,
    }
}

/// Whether a `response_item` user message carries an `input_image`: the
/// condition under which it counts as a real user turn.
pub fn response_item_user_has_image(payload: &Json) -> (r: bool)
    ensures
        r == has_input_image(*payload),
{
    match payload.get("content") {
        Some(Json::Array(items)) => {
            let mut i: usize = 0;
            while i < items.len()
                invariant
                    i <= items@.len(),
                    content_items(*payload) == Some(items@),
                    forall|k: int| 0 <= k < i ==> !is_input_image(#[trigger] items@[k]),
                decreases items.len() - i,
            {
                if item_is_type(&items[i], "input_image") {
                    assert(is_input_image(items@[i as int]));
                    assert(content_items(*payload)->0[i as int] == items@[i as int]);
                    return true;
                }
                i += 1;
            }
            false
        },
        _ => false,
    }
}

/// What the items `..n` of an image-bearing user message contribute: the
/// images read so far, the text parts, and whether an `input_image` was seen.
/// `<image>` placeholders and empty texts are skipped; an `input_image` whose
/// URI does not read as an inline image still counts as seen.
pub open spec fn image_scan(items: Seq<Json>, n: int) -> (Seq<(Seq<char>, Seq<char>)>, Seq<Seq<char>>, bool)
    decreases n,
{
    if n <= 0 {
        (Seq::empty(), Seq::empty(), false)
    } else {
        let prev = image_scan(items, n - 1);
        let item = items[n - 1];
        if item.str_field("type"@) == Some("input_text"@) {
            match item.str_field("text"@) {
                None => prev,
                Some(x) => if trim(x) == "<image>"@ || x.len() == 0 {
                    prev
                } else {
                    (prev.0, prev.1.push(x), prev.2)
                },
            }
        } else if is_input_image(item) {
            match input_image_of(item) {
                Some(img) => (prev.0.push(img), prev.1, true),
                None => (prev.0, prev.1, true),
            }
        } else {
            prev
        }
    }
}

/// The block of an inline image (MIME type, data), with no URI.
pub open spec fn image_block_view(img: (Seq<char>, Seq<char>)) -> BlockView {
    BlockView::Image(img.1, img.0, None)
}

/// The blocks of an image-bearing user message: the joined, cleaned text
/// first when it is not empty, then the images in order; a message whose
/// text cleans away and whose images are unreadable becomes the single text
/// "Attached resources".
pub open spec fn image_blocks_view(payload: Json) -> Seq<BlockView> {
    let items = content_items(payload)->0;
    let scan = image_scan(items, items.len() as int);
    let text = blocked_mentions_stripped(join_lines(scan.1));
    let lead: Seq<BlockView> = if text.len() > 0 {
        seq![BlockView::Text(text)]
    } else {
        Seq::empty()
    };
    let all = lead + scan.0.map_values(|img: (Seq<char>, Seq<char>)| image_block_view(img));
    if all.len() == 0 {
        seq![BlockView::Text(ATTACHED_RESOURCES@)]
    } else {
        all
    }
}

/// The content blocks of a `response_item` user message that carries an
/// `input_image`; `None` when it carries none (or has no content array).
pub fn extract_response_item_user_image_blocks(payload: &Json) -> (r: Option<Vec<ContentBlock>>)
    ensures
        r is Some <==> (content_items(*payload) is Some && image_scan(
            content_items(*payload)->0,
            content_items(*payload)->0.len() as int,
        ).2),
        r matches Some(blocks) ==> blocks_view(blocks@) == image_blocks_view(*payload),
{
    let items = match payload.get("content") {
        Some(Json::Array(items)) => items,
        _ => return None,
    };
    let mut images: Vec<ContentBlock> = Vec::new();
    let mut parts: Vec<Vec<char>> = Vec::new();
    let mut seen_image = false;
    let mut i: usize = 0;
    while i < items.len()
        invariant
            i <= items@.len(),
            content_items(*payload) == Some(items@),
            ({
                let scan = image_scan(items@, i as int);
                &&& blocks_view(images@) == scan.0.map_values(|img: (Seq<char>, Seq<char>)| image_block_view(img))
                &&& views(parts@) == scan.1
                &&& seen_image == scan.2
            }),
        decreases items.len() - i,
    {
        let item = &items[i];
        proof {
            assert(items@[i as int] == *item);
        }
        let ghost prev = image_scan(items@, i as int);
        if item_is_type(item, "input_text") {
            if let Some(text) = item.get_str("text") {
                let t = trim_chars(chars_of(text).as_slice());
                let placeholder = chars_of("<image>");
                let is_placeholder = crate::text::eq_chars(t.as_slice(), placeholder.as_slice());
                if !is_placeholder && !text.is_empty() {
                    parts.push(chars_of(text));
                    proof {
                        assert(views(parts@) =~= prev.1.push(text@));
                    }
                }
            }
        } else if item_is_type(item, "input_image") {
            seen_image = true;
            if let Some((mime_type, data)) = parse_input_image_data_uri(item) {
                let ghost before = images@;
                let ghost img = (mime_type@, data@);
                images.push(ContentBlock::Image { data, mime_type, uri: None });
                proof {
                    assert(blocks_view(images@) =~= blocks_view(before).push(image_block_view(img)));
                    assert(prev.0.push(img).map_values(|im: (Seq<char>, Seq<char>)| image_block_view(im))
                        =~= prev.0.map_values(|im: (Seq<char>, Seq<char>)| image_block_view(im)).push(
                        image_block_view(img),
                    ));
                }
            }
        }
        i += 1;
    }
    proof {
        assert(items@.len() == content_items(*payload)->0.len());
    }
    if !seen_image {
        return None;
    }
    let ghost scan = image_scan(items@, items@.len() as int);
    let ghost cleaned = blocked_mentions_stripped(join_lines(scan.1));
    let joined = join_lines_chars(&parts);
    let text = strip_blocked_resource_mentions(string_of(joined.as_slice()).as_str());
    assert(text@ == cleaned);
    let mut blocks: Vec<ContentBlock> = Vec::new();
    if !text.as_str().is_empty() {
        blocks.push(ContentBlock::Text { text });
    }
    let ghost lead_view: Seq<BlockView> = if cleaned.len() > 0 {
        seq![BlockView::Text(cleaned)]
    } else {
        Seq::empty()
    };
    assert(blocks_view(blocks@) =~= lead_view);
    let ghost imgs = blocks_view(images@);
    let mut j: usize = 0;
    while j < images.len()
        invariant
            j <= images@.len(),
            imgs == blocks_view(images@),
            blocks_view(blocks@) == lead_view + imgs.take(j as int),
        decreases images.len() - j,
    {
        let ghost before = blocks@;
        blocks.push(images[j].duplicate());
        proof {
            assert(blocks_view(blocks@) =~= blocks_view(before).push(imgs[j as int]));
            assert(imgs.take(j + 1) =~= imgs.take(j as int).push(imgs[j as int]));
        }
        j += 1;
    }
    proof {
        assert(imgs.take(images@.len() as int) =~= imgs);
    }
    if blocks.len() == 0 {
        blocks.push(ContentBlock::Text { text: ATTACHED_RESOURCES.to_owned() });
        proof {
            assert(blocks_view(blocks@) =~= seq![BlockView::Text(ATTACHED_RESOURCES@)]);
        }
    }
    Some(blocks)
}

/// The view of an optional string.
pub open spec fn opt_text(o: Option<String>) -> Option<Seq<char>> {
    match o {
        Some(s) => Some(s@),
        None => None,
    }
}

/// Two blocks with the same variant and the same field values.
pub open spec fn block_same(a: ContentBlock, b: ContentBlock) -> bool {
    match (a, b) {
        (ContentBlock::Text { text: x }, ContentBlock::Text { text: y }) => x@ == y@,
        (
            ContentBlock::Image { data: d1, mime_type: m1, uri: u1 },
            ContentBlock::Image { data: d2, mime_type: m2, uri: u2 },
        ) => d1@ == d2@ && m1@ == m2@ && opt_text(u1) == opt_text(u2),
        (ContentBlock::Thinking { text: x }, ContentBlock::Thinking { text: y }) => x@ == y@,
        (
            ContentBlock::ToolUse {
                tool_use_id: i1,
                tool_name: n1,
                input_preview: p1,
                status: s1,
                meta: x1,
            },
            ContentBlock::ToolUse {
                tool_use_id: i2,
                tool_name: n2,
                input_preview: p2,
                status: s2,
                meta: x2,
            },
        ) => opt_text(i1) == opt_text(i2) && n1@ == n2@ && opt_text(p1) == opt_text(p2) && opt_text(
            s1,
        ) == opt_text(s2) && opt_text(x1) == opt_text(x2),
        (
            ContentBlock::ToolResult { tool_use_id: i1, output_preview: o1, is_error: e1 },
            ContentBlock::ToolResult { tool_use_id: i2, output_preview: o2, is_error: e2 },
        ) => opt_text(i1) == opt_text(i2) && opt_text(o1) == opt_text(o2) && e1 == e2,
        _ => false,
    }
}

pub open spec fn blocks_same(a: Seq<ContentBlock>, b: Seq<ContentBlock>) -> bool {
    a.len() == b.len() && forall|k: int| 0 <= k < a.len() ==> block_same(#[trigger] a[k], b[k])
}

fn sq(a: &String, b: &String) -> (r: bool)
    ensures
        r == (a@ == b@),
{
    crate::text::str_eq(a.as_str(), b.as_str())
}

fn opt_str_eq(a: &Option<String>, b: &Option<String>) -> (r: bool)
    ensures
        r == (opt_text(*a) == opt_text(*b)),
{
    match (a, b) {
        (Some(x), Some(y)) => sq(x, y),
        (None, None) => true,
        _ => false,
    }
}

fn block_eq(a: &ContentBlock, b: &ContentBlock) -> (r: bool)
    ensures
        r == block_same(*a, *b),
{
    match (a, b) {
        (ContentBlock::Text { text: x }, ContentBlock::Text { text: y }) => sq(x, y),
        (
            ContentBlock::Image { data: d1, mime_type: m1, uri: u1 },
            ContentBlock::Image { data: d2, mime_type: m2, uri: u2 },
        ) => sq(d1, d2) && sq(m1, m2) && opt_str_eq(u1, u2),
        (ContentBlock::Thinking { text: x }, ContentBlock::Thinking { text: y }) => sq(x, y),
        (
            ContentBlock::ToolUse {
                tool_use_id: i1,
                tool_name: n1,
                input_preview: p1,
                status: s1,
                meta: x1,
            },
            ContentBlock::ToolUse {
                tool_use_id: i2,
                tool_name: n2,
                input_preview: p2,
                status: s2,
                meta: x2,
            },
        ) => opt_str_eq(i1, i2) && sq(n1, n2) && opt_str_eq(p1, p2) && opt_str_eq(s1, s2)
            && opt_str_eq(x1, x2),
        (
            ContentBlock::ToolResult { tool_use_id: i1, output_preview: o1, is_error: e1 },
            ContentBlock::ToolResult { tool_use_id: i2, output_preview: o2, is_error: e2 },
        ) => opt_str_eq(i1, i2) && opt_str_eq(o1, o2) && *e1 == *e2,
        _ => false,
    }
}

/// Whether two lists of blocks hold the same blocks in the same order.
pub fn blocks_equal(a: &[ContentBlock], b: &[ContentBlock]) -> (r: bool)
    ensures
        r == blocks_same(a@, b@),
{
    if a.len() != b.len() {
        return false;
    }
    let mut i: usize = 0;
    while i < a.len()
        invariant
            a@.len() == b@.len(),
            i <= a@.len(),
            forall|k: int| 0 <= k < i ==> block_same(#[trigger] a@[k], b@[k]),
        decreases a.len() - i,
    {
        if !block_eq(&a[i], &b[i]) {
            return false;
        }
        i += 1;
    }
    true
}

/// How far apart, in milliseconds, two records of one user message may be.
pub const DUP_WINDOW_MS: i64 = 120_000;

pub open spec fn abs_diff(a: i64, b: i64) -> int {
    if a >= b {
        a - b
    } else {
        b - a
    }
}

/// Scanning `msgs[..i]` from the end: whether a user message with the same
/// blocks is met before a user message further than the window from `ts`.
pub open spec fn recorded_twice(msgs: Seq<UnifiedMessage>, blocks: Seq<ContentBlock>, ts: i64, i: int) -> bool
    decreases i,
{
    if i <= 0 || i > msgs.len() {
        false
    } else if msgs[i - 1].role != MessageRole::User {
        recorded_twice(msgs, blocks, ts, i - 1)
    } else if abs_diff(ts, msgs[i - 1].timestamp) > DUP_WINDOW_MS {
        false
    } else if blocks_same(msgs[i - 1].content@, blocks) {
        true
    } else {
        recorded_twice(msgs, blocks, ts, i - 1)
    }
}

/// Codex sometimes records one user message both as a `response_item` and as
/// an `event_msg`, with a delay: the later record is skipped when an earlier
/// user message with the same blocks lies within two minutes of it (user
/// messages further away end the search).
pub fn should_skip_duplicate_user_message(
    messages: &[UnifiedMessage],
    blocks: &[ContentBlock],
    timestamp: i64,
) -> (r: bool)
    ensures
        r == recorded_twice(messages@, blocks@, timestamp, messages@.len() as int),
{
    let mut i: usize = messages.len();
    while i > 0
        invariant
            i <= messages@.len(),
            recorded_twice(messages@, blocks@, timestamp, messages@.len() as int) == recorded_twice(
                messages@,
                blocks@,
                timestamp,
                i as int,
            ),
        decreases i,
    {
        let msg = &messages[i - 1];
        let is_user = match msg.role {
            MessageRole::User => true,
            _ => false,
        };
        if is_user {
            let delta: i128 = (timestamp as i128) - (msg.timestamp as i128);
            let dist: i128 = if delta < 0 { -delta } else { delta };
            if dist > DUP_WINDOW_MS as i128 {
                return false;
            }
            if blocks_equal(msg.content.as_slice(), blocks) {
                return true;
            }
        }
        i -= 1;
    }
    false
}

} // verus!
