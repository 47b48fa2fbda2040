//! Plain-value views of messages and blocks, for contracts that rebuild
//! message text.
use vstd::prelude::*;
use crate::transcript::{ContentBlock, MessageRole, TurnUsage, UnifiedMessage};

verus! {

pub open spec fn text_of(o: Option<String>) -> Option<Seq<char>> {
    match o {
        Some(s) => Some(s@),
        None => None,
    }
}

/// A content block with its text as character sequences.
pub enum BlockView {
    Text(Seq<char>),
    Image(Seq<char>, Seq<char>, Option<Seq<char>>),
    Thinking(Seq<char>),
    /// Tool use id, tool name, input preview, status, metadata.
    ToolUse(Option<Seq<char>>, Seq<char>, Option<Seq<char>>, Option<Seq<char>>, Option<Seq<char>>),
    /// Tool use id, output preview, error flag.
    ToolResult(Option<Seq<char>>, Option<Seq<char>>, bool),
}

pub open spec fn block_view(b: ContentBlock) -> BlockView {
    match b {
        ContentBlock::Text { text } => BlockView::Text(text@),
        ContentBlock::Image { data, mime_type, uri } => BlockView::Image(data@, mime_type@, text_of(uri)),
        ContentBlock::Thinking { text } => BlockView::Thinking(text@),
        ContentBlock::ToolUse { tool_use_id, tool_name, input_preview, status, meta } => BlockView::ToolUse(
            text_of(tool_use_id),
            tool_name@,
            text_of(input_preview),
            text_of(status),
            text_of(meta),
        ),
        ContentBlock::ToolResult { tool_use_id, output_preview, is_error } => BlockView::ToolResult(
            text_of(tool_use_id),
            text_of(output_preview),
            is_error,
        ),
    }
}

pub open spec fn blocks_view(bs: Seq<ContentBlock>) -> Seq<BlockView> {
    bs.map_values(|b: ContentBlock| block_view(b))
}

/// A message with its text as character sequences.
pub struct MessageView {
    pub id: Seq<char>,
    pub role: MessageRole,
    pub content: Seq<BlockView>,
    pub timestamp: i64,
    pub usage: Option<TurnUsage>,
    pub duration_ms: Option<u64>,
    pub model: Option<Seq<char>>,
    pub completed_at: Option<i64>,
}

pub open spec fn message_view(m: UnifiedMessage) -> MessageView {
    MessageView {
        id: m.id@,
        role: m.role,
        content: blocks_view(m.content@),
        timestamp: m.timestamp,
        usage: m.usage,
        duration_ms: m.duration_ms,
        model: text_of(m.model),
        completed_at: m.completed_at,
    }
}

pub open spec fn messages_view(ms: Seq<UnifiedMessage>) -> Seq<MessageView> {
    ms.map_values(|m: UnifiedMessage| message_view(m))
}

} // verus!
