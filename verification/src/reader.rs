//! Reading a Codex transcript line by line: the record kinds whose effect
//! the library decides on its own (session metadata, turn context, turn
//! starts, user and assistant messages, thread names, streamed and grouped
//! reasoning, token counts, plain tool call cards with their session
//! bookkeeping), with every step applied in the order the transcript gives.
use vstd::prelude::*;
use crate::calls::{
    card_by, commands_after_call, lemma_tool_call_by_lookup, names_after_call, polls_after_call, push_tool_call,
    session_lookup, sessions_after_call, text_lookup, SessionLookup, TextLookup,
};
use crate::codex::{git_branch_of, thread_name, thread_name_of, thread_title, THREAD_TITLE_LIMIT};
use crate::shell::{session_tool, PollOrigins, SessionTable, TextMap};
use crate::tool_io::{tool_call_name, tool_name_of};
use crate::detail::{
    flush_pending_reasoning, join_with, lemma_duplicate_of, push_agent_message, push_turn_start,
    push_user_message, reasoning_text, record_reasoning, simple_message, user_event_blocks,
};
use crate::json::Json;
use crate::ledger::{last_assistant_before, ledger_after, record_token_count, usage_replaced, usage_with, TokenLedger};
use crate::text::{cap_chars, chars_of, decimal, string_of, trim, trim_chars};
use crate::timestamp::{line_timestamp, parse_codex_timestamp};
use crate::title::{extract_codex_title_candidate, title_candidate};
use crate::fold::{fold_result, fold_shell_session_polls};
use crate::transcript::{
    first_text, first_text_block, group_into_turns, grouping, ContentBlock, MessageRole, MessageTurn, UnifiedMessage,
};
use crate::usage::{reconcile_turn_usage, reconciled};
use crate::usage::info_fits;
use crate::user_input::{
    abs_diff, content_items, extract_response_item_user_image_blocks, image_blocks_view, image_scan,
    should_skip_duplicate_user_message, DUP_WINDOW_MS,
};
use crate::views::{block_view, blocks_view, message_view, messages_view, BlockView, MessageView};

verus! {

/// What a transcript has told so far, as plain values.
#[verifier::ext_equal]
pub struct ReaderModel {
    pub messages: Seq<MessageView>,
    pub cwd: Option<Seq<char>>,
    pub git_branch: Option<Seq<char>>,
    pub model: Option<Seq<char>>,
    pub title: Option<Seq<char>>,
    pub first_ts: Option<i64>,
    pub last_ts: Option<i64>,
    /// `task_started` times, each later than the one before.
    pub task_starts: Seq<i64>,
    /// `turn_context` times, each later than the one before.
    pub turn_contexts: Seq<i64>,
    pub ledger: TokenLedger,
    /// Streamed reasoning sections not yet shown.
    pub pending: Seq<Seq<char>>,
    pub pending_ts: Option<i64>,
    pub active_agents: u32,
    /// The tool each call id named.
    pub tool_names: TextLookup,
    /// The command each `exec_command` call id ran.
    pub commands: TextLookup,
    /// The background shell sessions by id.
    pub sessions: SessionLookup,
    /// Polls to fold into the card of the command they collect for.
    pub polls: TextLookup,
}

/// `ts` appended to the markers when it is later than the last one.
pub open spec fn marker_pushed(s: Seq<i64>, ts: i64) -> Seq<i64> {
    if s.len() > 0 && ts <= s.last() {
        s
    } else {
        s.push(ts)
    }
}

/// The buffered reasoning shown as one thinking message; nothing when the
/// buffer is empty.
pub open spec fn flushed(m: ReaderModel, now: i64) -> ReaderModel {
    if m.pending.len() == 0 {
        m
    } else {
        ReaderModel {
            messages: m.messages.push(
                simple_message(
                    "thinking-"@ + decimal(m.messages.len()),
                    MessageRole::Assistant,
                    BlockView::Thinking(join_with(m.pending, "\n\n"@)),
                    match m.pending_ts {
                        Some(t) => t,
                        None => now,
                    },
                ),
            ),
            pending: Seq::empty(),
            ..m
        }
    }
}

/// Scanning `msgs[..i]` from the end: whether a user message with the
/// blocks `bv` is met before a user message further than the duplicate
/// window from `ts`.
pub open spec fn duplicate_in(msgs: Seq<MessageView>, bv: Seq<BlockView>, ts: i64, i: int) -> bool
    decreases i,
{
    if i <= 0 || i > msgs.len() {
        false
    } else if msgs[i - 1].role != MessageRole::User {
        duplicate_in(msgs, bv, ts, i - 1)
    } else if abs_diff(ts, msgs[i - 1].timestamp) > DUP_WINDOW_MS {
        false
    } else if msgs[i - 1].content == bv {
        true
    } else {
        duplicate_in(msgs, bv, ts, i - 1)
    }
}

/// The user message a step appends.
pub open spec fn user_message(n: nat, content: Seq<BlockView>, ts: i64) -> MessageView {
    MessageView {
        id: "user-"@ + decimal(n),
        role: MessageRole::User,
        content,
        timestamp: ts,
        usage: None,
        duration_ms: None,
        model: None,
        completed_at: Some(ts),
    }
}

/// A user message with the blocks `bv`, unless it repeats one recorded
/// moments before.
pub open spec fn user_pushed(msgs: Seq<MessageView>, bv: Seq<BlockView>, ts: i64) -> Seq<MessageView> {
    if duplicate_in(msgs, bv, ts, msgs.len() as int) {
        msgs
    } else {
        msgs.push(user_message(msgs.len(), bv, ts))
    }
}

/// Index of the last assistant message among `msgs[..n]`.
pub open spec fn last_assistant_in(msgs: Seq<MessageView>, n: int) -> Option<int>
    decreases n,
{
    if n <= 0 || n > msgs.len() {
        None
    } else if msgs[n - 1].role == MessageRole::Assistant {
        Some(n - 1)
    } else {
        last_assistant_in(msgs, n - 1)
    }
}

/// A `token_count` event: a `null` info reports nothing; otherwise the
/// ledger reads it, and the spend pending in the ledger goes onto the last
/// assistant message when there is one.
pub open spec fn token_count_read(m: ReaderModel, info: Json) -> ReaderModel {
    if info is Null {
        m
    } else {
        let l = ledger_after(m.ledger, info);
        match (l.pending_round, last_assistant_in(m.messages, m.messages.len() as int)) {
            (Some(p), Some(k)) => ReaderModel {
                ledger: TokenLedger { pending_round: None, ..l },
                messages: m.messages.update(
                    k,
                    MessageView { usage: usage_with(m.messages[k].usage, p), ..m.messages[k] },
                ),
                ..m
            },
            _ => ReaderModel { ledger: l, ..m },
        }
    }
}

pub open spec fn str_or_empty(o: Option<Seq<char>>) -> Seq<char> {
    match o {
        Some(s) => s,
        None => Seq::empty(),
    }
}

/// The event kinds the reader leaves to its caller: goal updates and
/// generated images.
pub open spec fn deferred_event(pt: Seq<char>) -> bool {
    pt == "thread_goal_updated"@ || pt == "image_generation_end"@
}

/// One `event_msg` payload. Every kind but streamed reasoning and token
/// counts first shows the buffered reasoning; `ts` is the line's time, or
/// `now` when it has none.
pub open spec fn event_read(m0: ReaderModel, p: Json, line_ts: Option<i64>, now: i64) -> ReaderModel {
    let pt = str_or_empty(p.str_field("type"@));
    let ts = match line_ts {
        Some(t) => t,
        None => now,
    };
    let m = if pt != "agent_reasoning"@ && pt != "token_count"@ {
        flushed(m0, now)
    } else {
        m0
    };
    if pt == "task_started"@ {
        ReaderModel {
            ledger: TokenLedger {
                context_window_max_tokens: if m.ledger.context_window_max_tokens is None {
                    p.u64_field("model_context_window"@)
                } else {
                    m.ledger.context_window_max_tokens
                },
                ..m.ledger
            },
            task_starts: match line_ts {
                Some(t) => marker_pushed(m.task_starts, t),
                None => m.task_starts,
            },
            ..m
        }
    } else if pt == "user_message"@ {
        ReaderModel {
            active_agents: 0,
            title: if m.title is None {
                title_candidate(str_or_empty(p.str_field("message"@)), true)
            } else {
                m.title
            },
            messages: user_pushed(m.messages, user_event_blocks(p), ts),
            ..m
        }
    } else if pt == "agent_message"@ {
        ReaderModel {
            messages: m.messages.push(
                simple_message(
                    "assistant-"@ + decimal(m.messages.len()),
                    MessageRole::Assistant,
                    BlockView::Text(str_or_empty(p.str_field("message"@))),
                    ts,
                ),
            ),
            ..m
        }
    } else if pt == "agent_reasoning"@ {
        let text = str_or_empty(p.str_field("text"@));
        if trim(text).len() > 0 {
            ReaderModel { pending: m.pending.push(text), pending_ts: Some(ts), ..m }
        } else {
            m
        }
    } else if pt == "token_count"@ {
        match p.field("info"@) {
            Some(info) => token_count_read(m, info),
            None => m,
        }
    } else if pt == "thread_name_updated"@ {
        match thread_name_of(p) {
            Some(n) => if trim(n).len() > 0 {
                ReaderModel { title: Some(thread_title(n)), ..m }
            } else {
                m
            },
            None => m,
        }
    } else {
        m
    }
}

/// A `response_item` user message carries an image.
pub open spec fn image_bearing(p: Json) -> bool {
    content_items(p) is Some && image_scan(content_items(p)->0, content_items(p)->0.len() as int).2
}

/// The text of the first text block.
pub open spec fn first_text_view(bv: Seq<BlockView>) -> Option<Seq<char>>
    decreases bv.len(),
{
    if bv.len() == 0 {
        None
    } else {
        match bv[0] {
            BlockView::Text(t) => Some(t),
            _ => first_text_view(bv.drop_first()),
        }
    }
}

/// A tool call the reader writes a card for: a `function_call` or
/// `custom_tool_call` that is neither a sub-agent operation
/// (`spawn_agent`, `wait_agent`, `close_agent`), nor a code-mode script
/// (`exec`), nor a `wait` (which may collect a code-mode script).
pub open spec fn plain_call(p: Json) -> bool {
    let pt = str_or_empty(p.str_field("type"@));
    let name = tool_name_of(p);
    &&& (pt == "function_call"@ || pt == "custom_tool_call"@)
    &&& name != "spawn_agent"@ && name != "wait_agent"@ && name != "close_agent"@
    &&& name != "exec"@ && name != "wait"@
}

/// The response items the reader leaves to its caller: the tool calls it
/// writes no card for, tool outputs and generated images.
pub open spec fn deferred_item(p: Json) -> bool {
    let pt = str_or_empty(p.str_field("type"@));
    ||| ((pt == "function_call"@ || pt == "custom_tool_call"@) && !plain_call(p))
    ||| pt == "function_call_output"@
    ||| pt == "custom_tool_call_output"@
    ||| pt == "image_generation_call"@
}

/// One `response_item` payload. Every kind but grouped reasoning first
/// shows the buffered reasoning. Grouped reasoning supersedes the buffer
/// (or lets it stand in when it is empty); a user message that carries an
/// image becomes a user message, titled by its first text, unless it
/// repeats one recorded moments before; a plain tool call gets its card
/// (see `push_tool_call`).
pub open spec fn item_read(m0: ReaderModel, p: Json, line_ts: Option<i64>, now: i64) -> ReaderModel {
    let pt = str_or_empty(p.str_field("type"@));
    let ts = match line_ts {
        Some(t) => t,
        None => now,
    };
    let m = if pt != "reasoning"@ {
        flushed(m0, now)
    } else {
        m0
    };
    if pt == "reasoning"@ {
        if reasoning_text(p).len() > 0 {
            ReaderModel {
                messages: m.messages.push(
                    simple_message(
                        "thinking-"@ + decimal(m.messages.len()),
                        MessageRole::Assistant,
                        BlockView::Thinking(reasoning_text(p)),
                        ts,
                    ),
                ),
                pending: Seq::empty(),
                ..m
            }
        } else {
            flushed(m, now)
        }
    } else if pt == "message"@ && str_or_empty(p.str_field("role"@)) == "user"@ {
        let m1 = ReaderModel { active_agents: 0, ..m };
        if image_bearing(p) {
            let bv = image_blocks_view(p);
            if duplicate_in(m1.messages, bv, ts, m1.messages.len() as int) {
                m1
            } else {
                ReaderModel {
                    title: if m1.title is None {
                        match first_text_view(bv) {
                            Some(t) => title_candidate(t, true),
                            None => None,
                        }
                    } else {
                        m1.title
                    },
                    messages: m1.messages.push(user_message(m1.messages.len(), bv, ts)),
                    ..m1
                }
            }
        } else {
            m1
        }
    } else if plain_call(p) {
        let tool_session = session_tool(tool_name_of(p));
        let sessions = if tool_session {
            sessions_after_call(p, m.sessions)
        } else {
            m.sessions
        };
        ReaderModel {
            messages: m.messages.push(card_by(p, m.messages.len(), ts, sessions)),
            tool_names: names_after_call(p, m.tool_names),
            commands: commands_after_call(p, m.commands),
            sessions,
            polls: if tool_session {
                polls_after_call(p, m.sessions, m.polls)
            } else {
                m.polls
            },
            ..m
        }
    } else {
        m
    }
}

/// A `token_count` event's usage counters fit the machine's integers (see
/// `info_fits`).
pub open spec fn counts_fit(v: Json) -> bool {
    str_or_empty(v.str_field("type"@)) == "event_msg"@ ==> (v.field("payload"@) matches Some(p) ==> (str_or_empty(
        p.str_field("type"@),
    ) == "token_count"@ ==> (p.field("info"@) matches Some(i) ==> info_fits(i))))
}

/// One transcript record. Its readable timestamp becomes the last one seen
/// (and the first, when none was); `session_meta` gives the folder and the
/// git branch, `turn_context` ends any sub-agent activity, gives the model
/// when none is known yet and marks a turn start.
pub open spec fn value_read(m0: ReaderModel, v: Json, now: i64) -> ReaderModel {
    let line_ts = line_timestamp(v);
    let m = match line_ts {
        Some(t) => ReaderModel {
            first_ts: if m0.first_ts is None {
                Some(t)
            } else {
                m0.first_ts
            },
            last_ts: Some(t),
            ..m0
        },
        None => m0,
    };
    let ty = str_or_empty(v.str_field("type"@));
    if ty == "session_meta"@ {
        match v.field("payload"@) {
            Some(p) => ReaderModel { cwd: p.str_field("cwd"@), git_branch: git_branch_of(p), ..m },
            None => m,
        }
    } else if ty == "turn_context"@ {
        ReaderModel {
            active_agents: 0,
            model: if m.model is None {
                match v.field("payload"@) {
                    Some(p) => p.str_field("model"@),
                    None => None,
                }
            } else {
                m.model
            },
            turn_contexts: match line_ts {
                Some(t) => marker_pushed(m.turn_contexts, t),
                None => m.turn_contexts,
            },
            ..m
        }
    } else if ty == "event_msg"@ {
        match v.field("payload"@) {
            Some(p) => event_read(m, p, line_ts, now),
            None => m,
        }
    } else if ty == "response_item"@ {
        match v.field("payload"@) {
            Some(p) => item_read(m, p, line_ts, now),
            None => m,
        }
    } else {
        m
    }
}

/// Whether the reader reads all of a record: every kind but the event and
/// item kinds it leaves to its caller.
pub open spec fn value_handled(v: Json) -> bool {
    let ty = str_or_empty(v.str_field("type"@));
    match v.field("payload"@) {
        Some(p) => if ty == "event_msg"@ {
            !deferred_event(str_or_empty(p.str_field("type"@)))
        } else if ty == "response_item"@ {
            !deferred_item(p)
        } else {
            true
        },
        None => true,
    }
}

/// A line that is blank or not JSON is skipped.
pub open spec fn line_read(m: ReaderModel, line: Seq<char>, now: i64) -> ReaderModel {
    if trim(line).len() == 0 {
        m
    } else {
        match crate::json::json_parse_result(line) {
            Some(v) => value_read(m, v, now),
            None => m,
        }
    }
}

pub open spec fn initial_reader() -> ReaderModel {
    ReaderModel {
        messages: Seq::empty(),
        cwd: None,
        git_branch: None,
        model: None,
        title: None,
        first_ts: None,
        last_ts: None,
        task_starts: Seq::empty(),
        turn_contexts: Seq::empty(),
        ledger: crate::ledger::empty_ledger(),
        pending: Seq::empty(),
        pending_ts: None,
        active_agents: 0,
        tool_names: |k: Seq<char>| None,
        commands: |k: Seq<char>| None,
        sessions: |k: Seq<char>| None,
        polls: |k: Seq<char>| None,
    }
}

proof fn lemma_duplicate_in(msgs: Seq<UnifiedMessage>, bv: Seq<BlockView>, ts: i64, i: int)
    ensures
        crate::detail::duplicate_of(msgs, bv, ts, i) == duplicate_in(messages_view(msgs), bv, ts, i),
    decreases i,
{
    if i > 0 && i <= msgs.len() {
        assert(messages_view(msgs)[i - 1] == message_view(msgs[i - 1]));
        lemma_duplicate_in(msgs, bv, ts, i - 1);
    }
}

proof fn lemma_last_assistant_in(msgs: Seq<UnifiedMessage>, n: int)
    ensures
        last_assistant_before(msgs, n) == last_assistant_in(messages_view(msgs), n),
    decreases n,
{
    if n > 0 && n <= msgs.len() {
        assert(messages_view(msgs)[n - 1] == message_view(msgs[n - 1]));
        lemma_last_assistant_in(msgs, n - 1);
    }
}

proof fn lemma_usage_replaced_view(
    before: Seq<UnifiedMessage>,
    after: Seq<UnifiedMessage>,
    k: int,
    u: Option<crate::transcript::TurnUsage>,
)
    requires
        0 <= k < before.len(),
        usage_replaced(before, after, k, u),
    ensures
        messages_view(after) == messages_view(before).update(
            k,
            MessageView { usage: u, ..messages_view(before)[k] },
        ),
{
    assert(messages_view(after) =~= messages_view(before).update(
        k,
        MessageView { usage: u, ..messages_view(before)[k] },
    ));
}

/// Reads a Codex transcript into messages, one record at a time.
pub struct CodexTranscriptReader {
    pub messages: Vec<UnifiedMessage>,
    pub cwd: Option<String>,
    pub git_branch: Option<String>,
    pub model: Option<String>,
    pub title: Option<String>,
    pub first_ts: Option<i64>,
    pub last_ts: Option<i64>,
    pub task_start_markers: Vec<i64>,
    pub turn_context_markers: Vec<i64>,
    pub ledger: TokenLedger,
    pub pending_reasoning: Vec<String>,
    pub pending_reasoning_ts: Option<i64>,
    pub active_agent_count: u32,
    pub tool_names: TextMap,
    pub commands: TextMap,
    pub sessions: SessionTable,
    pub poll_origins: PollOrigins,
}

pub open spec fn opt_seq(o: Option<String>) -> Option<Seq<char>> {
    match o {
        Some(s) => Some(s@),
        None => None,
    }
}

impl CodexTranscriptReader {
    pub open spec fn state(&self) -> ReaderModel {
        ReaderModel {
            messages: messages_view(self.messages@),
            cwd: opt_seq(self.cwd),
            git_branch: opt_seq(self.git_branch),
            model: opt_seq(self.model),
            title: opt_seq(self.title),
            first_ts: self.first_ts,
            last_ts: self.last_ts,
            task_starts: self.task_start_markers@,
            turn_contexts: self.turn_context_markers@,
            ledger: self.ledger,
            pending: self.pending_reasoning@.map_values(|s: String| s@),
            pending_ts: self.pending_reasoning_ts,
            active_agents: self.active_agent_count,
            tool_names: text_lookup(self.tool_names),
            commands: text_lookup(self.commands),
            sessions: session_lookup(self.sessions),
            polls: text_lookup(self.poll_origins),
        }
    }

    fn flush(&mut self, now: i64)
        requires
            old(self).messages@.len() < u64::MAX,
        ensures
            final(self).state() == flushed(old(self).state(), now),
            final(self).messages@.len() <= old(self).messages@.len() + 1,
    {
        let ghost before = self.state();
        flush_pending_reasoning(&mut self.messages, &mut self.pending_reasoning, self.pending_reasoning_ts, now);
        proof {
            assert(messages_view(self.messages@).len() == self.messages@.len());
            assert(before.messages.len() == old(self).messages@.len());
            if before.pending.len() > 0 {
                assert(self.pending_reasoning@.map_values(|s: String| s@) =~= Seq::<Seq<char>>::empty());
                assert(self.state() =~= flushed(before, now));
            }
        }
    }

    fn read_token_count(&mut self, info: &Json)
        requires
            info_fits(*info),
        ensures
            final(self).state() == token_count_read(old(self).state(), *info),
            final(self).messages@.len() == old(self).messages@.len(),
    {
        let ghost before = self.state();
        let ghost msgs = self.messages@;
        record_token_count(&mut self.ledger, info, &mut self.messages);
        proof {
            lemma_last_assistant_in(msgs, msgs.len() as int);
            crate::ledger::lemma_last_assistant(msgs, msgs.len() as int);
            if !(*info is Null) {
                let l = ledger_after(before.ledger, *info);
                match (l.pending_round, last_assistant_before(msgs, msgs.len() as int)) {
                    (Some(p), Some(k)) => {
                        lemma_usage_replaced_view(msgs, self.messages@, k, usage_with(msgs[k].usage, p));
                        assert(messages_view(msgs)[k] == message_view(msgs[k]));
                    },
                    _ => {},
                }
            }
        }
    }
}

proof fn lemma_event_kind_lengths()
    ensures
        "task_started"@.len() == 12,
        "user_message"@.len() == 12,
        "agent_message"@.len() == 13,
        "agent_reasoning"@.len() == 15,
        "token_count"@.len() == 11,
        "thread_goal_updated"@.len() == 19,
        "thread_name_updated"@.len() == 19,
        "image_generation_end"@.len() == 20,
        "task_started"@ != "user_message"@,
        "thread_name_updated"@ != "thread_goal_updated"@,
{
    reveal_strlit("task_started");
    reveal_strlit("user_message");
    reveal_strlit("agent_message");
    reveal_strlit("agent_reasoning");
    reveal_strlit("token_count");
    reveal_strlit("thread_goal_updated");
    reveal_strlit("thread_name_updated");
    reveal_strlit("image_generation_end");
    assert("task_started"@[0] != "user_message"@[0]);
    assert("thread_name_updated"@[7] != "thread_goal_updated"@[7]);
}

impl CodexTranscriptReader {
    /// One `event_msg` payload; `line_ts` is its line's time. Returns
    /// whether its kind is one the reader reads: goal updates and generated
    /// images are left to the caller, once the buffered reasoning has been
    /// shown. A thread name that is not blank titles the conversation.
    pub fn read_event_msg(&mut self, payload: &Json, line_ts: Option<i64>, now: i64) -> (handled: bool)
        requires
            old(self).messages@.len() + 2 < u64::MAX,
            str_or_empty(payload.str_field("type"@)) == "token_count"@ ==> (payload.field("info"@) matches Some(
                i,
            ) ==> info_fits(i)),
        ensures
            final(self).state() == event_read(old(self).state(), *payload, line_ts, now),
            handled == !deferred_event(str_or_empty(payload.str_field("type"@))),
            final(self).messages@.len() <= old(self).messages@.len() + 2,
    {
        let pt: &str = match payload.get_str("type") {
            Some(t) => t,
            None => "",
        };
        proof {
            reveal_strlit("");
            lemma_event_kind_lengths();
        }
        assert(pt@ == str_or_empty(payload.str_field("type"@)));
        let ts = match line_ts {
            Some(t) => t,
            None => now,
        };
        let ghost m0 = self.state();
        if !crate::text::str_eq(pt, "agent_reasoning") && !crate::text::str_eq(pt, "token_count") {
            self.flush(now);
        }
        let ghost m = self.state();
        assert(m == if pt@ != "agent_reasoning"@ && pt@ != "token_count"@ {
            flushed(m0, now)
        } else {
            m0
        });
        if crate::text::str_eq(pt, "task_started") {
            if self.ledger.context_window_max_tokens.is_none() {
                self.ledger.context_window_max_tokens = payload.get_u64("model_context_window");
            }
            if let Some(t) = line_ts {
                push_turn_start(&mut self.task_start_markers, t);
            }
            return true;
        }
        if crate::text::str_eq(pt, "user_message") {
            self.active_agent_count = 0;
            let raw: &str = match payload.get_str("message") {
                Some(t) => t,
                None => "",
            };
            assert(raw@ == str_or_empty(payload.str_field("message"@)));
            if self.title.is_none() {
                self.title = extract_codex_title_candidate(raw, true);
            }
            let ghost msgs = self.messages@;
            push_user_message(&mut self.messages, payload, ts);
            proof {
                lemma_duplicate_in(msgs, user_event_blocks(*payload), ts, msgs.len() as int);
                assert(messages_view(msgs).len() == msgs.len());
                assert(messages_view(self.messages@).len() == self.messages@.len());
            }
            return true;
        }
        if crate::text::str_eq(pt, "agent_message") {
            let ghost msgs = self.messages@;
            push_agent_message(&mut self.messages, payload, ts);
            proof {
                assert(messages_view(msgs).len() == msgs.len());
                assert(messages_view(self.messages@).len() == self.messages@.len());
            }
            return true;
        }
        if crate::text::str_eq(pt, "agent_reasoning") {
            let text: &str = match payload.get_str("text") {
                Some(t) => t,
                None => "",
            };
            assert(text@ == str_or_empty(payload.str_field("text"@)));
            if !crate::text::trim_str(text).as_str().is_empty() {
                let ghost before = self.pending_reasoning@;
                self.pending_reasoning.push(text.to_owned());
                self.pending_reasoning_ts = Some(ts);
                proof {
                    assert(self.pending_reasoning@.map_values(|s: String| s@) =~= before.map_values(
                        |s: String| s@,
                    ).push(text@));
                }
            }
            return true;
        }
        if crate::text::str_eq(pt, "token_count") {
            if let Some(info) = payload.get("info") {
                self.read_token_count(info);
            }
            return true;
        }
        if crate::text::str_eq(pt, "thread_name_updated") {
            if let Some(n) = thread_name(payload) {
                let t = trim_chars(chars_of(n).as_slice());
                if t.len() > 0 {
                    let shown = cap_chars(t.as_slice(), THREAD_TITLE_LIMIT);
                    self.title = Some(string_of(shown.as_slice()));
                }
            }
            return true;
        }
        !(crate::text::str_eq(pt, "thread_goal_updated") || crate::text::str_eq(pt, "image_generation_end"))
    }
}

proof fn lemma_first_text_view(blocks: Seq<ContentBlock>)
    ensures
        first_text(blocks) == first_text_view(blocks_view(blocks)),
    decreases blocks.len(),
{
    if blocks.len() > 0 {
        assert(blocks_view(blocks)[0] == block_view(blocks[0]));
        assert(blocks_view(blocks).drop_first() =~= blocks_view(blocks.drop_first()));
        lemma_first_text_view(blocks.drop_first());
    }
}

impl CodexTranscriptReader {
    /// One `response_item` payload; `line_ts` is its line's time. Returns
    /// whether the reader read it: the items of `deferred_item` are left to
    /// the caller, once the buffered reasoning has been shown.
    pub fn read_response_item(&mut self, payload: &Json, line_ts: Option<i64>, now: i64) -> (handled: bool)
        requires
            old(self).messages@.len() + 2 < u64::MAX,
        ensures
            final(self).state() == item_read(old(self).state(), *payload, line_ts, now),
            handled == !deferred_item(*payload),
            final(self).messages@.len() <= old(self).messages@.len() + 2,
    {
        let pt: &str = match payload.get_str("type") {
            Some(t) => t,
            None => "",
        };
        proof {
            reveal_strlit("");
            lemma_item_kind_lengths();
        }
        assert(pt@ == str_or_empty(payload.str_field("type"@)));
        let ts = match line_ts {
            Some(t) => t,
            None => now,
        };
        let is_reasoning = crate::text::str_eq(pt, "reasoning");
        if !is_reasoning {
            self.flush(now);
        }
        if is_reasoning {
            let ghost m = self.state();
            let ghost msgs = self.messages@;
            let ghost pend = self.pending_reasoning@;
            record_reasoning(
                &mut self.messages,
                &mut self.pending_reasoning,
                payload,
                ts,
                self.pending_reasoning_ts,
                now,
            );
            proof {
                assert(messages_view(msgs).len() == msgs.len());
                assert(messages_view(self.messages@).len() == self.messages@.len());
                if reasoning_text(*payload).len() > 0 || pend.len() > 0 {
                    assert(self.pending_reasoning@.map_values(|s: String| s@) =~= Seq::<Seq<char>>::empty());
                }
                assert(self.state() =~= item_read(old(self).state(), *payload, line_ts, now));
            }
            return true;
        }
        let role: &str = match payload.get_str("role") {
            Some(r) => r,
            None => "",
        };
        assert(role@ == str_or_empty(payload.str_field("role"@)));
        if crate::text::str_eq(pt, "message") && crate::text::str_eq(role, "user") {
            self.active_agent_count = 0;
            let blocks = match extract_response_item_user_image_blocks(payload) {
                Some(b) => b,
                None => return true,
            };
            proof {
                lemma_first_text_view(blocks@);
                lemma_duplicate_of(self.messages@, blocks@, ts, self.messages@.len() as int);
                lemma_duplicate_in(self.messages@, blocks_view(blocks@), ts, self.messages@.len() as int);
            }
            if should_skip_duplicate_user_message(self.messages.as_slice(), blocks.as_slice(), ts) {
                return true;
            }
            if self.title.is_none() {
                if let Some(text) = first_text_block(blocks.as_slice()) {
                    self.title = extract_codex_title_candidate(text.as_str(), true);
                }
            }
            let id = crate::text::with_number("user-", self.messages.len() as u64);
            let msg = UnifiedMessage {
                id,
                role: MessageRole::User,
                content: blocks,
                timestamp: ts,
                usage: None,
                duration_ms: None,
                model: None,
                completed_at: Some(ts),
            };
            let ghost before = self.messages@;
            self.messages.push(msg);
            proof {
                assert(messages_view(self.messages@) =~= messages_view(before).push(message_view(msg)));
                assert(messages_view(self.messages@).len() == self.messages@.len());
            }
            return true;
        }
        let is_call = crate::text::str_eq(pt, "function_call") || crate::text::str_eq(pt, "custom_tool_call");
        let name = tool_call_name(payload);
        let n = name.as_str();
        if is_call && !crate::text::str_eq(n, "spawn_agent") && !crate::text::str_eq(n, "wait_agent")
            && !crate::text::str_eq(n, "close_agent") && !crate::text::str_eq(n, "exec")
            && !crate::text::str_eq(n, "wait") {
            let ghost m = self.state();
            let ghost names0 = self.tool_names;
            let ghost commands0 = self.commands;
            let ghost s0 = self.sessions;
            let ghost p0 = self.poll_origins;
            let ghost len0 = self.messages@.len();
            push_tool_call(
                &mut self.messages,
                payload,
                ts,
                &mut self.tool_names,
                &mut self.commands,
                &mut self.sessions,
                &mut self.poll_origins,
            );
            proof {
                lemma_tool_call_by_lookup(
                    *payload,
                    names0,
                    self.tool_names,
                    commands0,
                    self.commands,
                    s0,
                    self.sessions,
                    p0,
                    self.poll_origins,
                );
                assert(m.messages.len() == len0);
                assert(messages_view(self.messages@).len() == self.messages@.len());
                assert(crate::calls::tool_card(*payload, len0 as nat, ts, self.sessions) == card_by(
                    *payload,
                    len0 as nat,
                    ts,
                    session_lookup(self.sessions),
                ));
                assert(self.state() =~= item_read(old(self).state(), *payload, line_ts, now));
            }
            return true;
        }
        !(is_call || crate::text::str_eq(pt, "function_call_output") || crate::text::str_eq(
            pt,
            "custom_tool_call_output",
        ) || crate::text::str_eq(pt, "image_generation_call"))
    }
}

proof fn lemma_item_kind_lengths()
    ensures
        "reasoning"@.len() == 9,
        "message"@.len() == 7,
        "function_call"@.len() == 13,
        "custom_tool_call"@.len() == 16,
        "function_call_output"@.len() == 20,
        "custom_tool_call_output"@.len() == 23,
        "image_generation_call"@.len() == 21,
{
    reveal_strlit("reasoning");
    reveal_strlit("message");
    reveal_strlit("function_call");
    reveal_strlit("custom_tool_call");
    reveal_strlit("function_call_output");
    reveal_strlit("custom_tool_call_output");
    reveal_strlit("image_generation_call");
}

proof fn lemma_record_kinds_differ()
    ensures
        "session_meta"@ != "event_msg"@,
        "session_meta"@ != "response_item"@,
        "session_meta"@ != "turn_context"@,
        "turn_context"@ != "event_msg"@,
        "turn_context"@ != "response_item"@,
{
    reveal_strlit("session_meta");
    reveal_strlit("turn_context");
    reveal_strlit("event_msg");
    reveal_strlit("response_item");
    assert("session_meta"@[0] != "turn_context"@[0]);
    assert("session_meta"@.len() != "event_msg"@.len());
    assert("session_meta"@.len() != "response_item"@.len());
    assert("turn_context"@.len() != "event_msg"@.len());
    assert("turn_context"@.len() != "response_item"@.len());
}

impl CodexTranscriptReader {
    pub fn new() -> (r: Self)
        ensures
            r.state() == initial_reader(),
            r.messages@.len() == 0,
    {
        let r = CodexTranscriptReader {
            messages: Vec::new(),
            cwd: None,
            git_branch: None,
            model: None,
            title: None,
            first_ts: None,
            last_ts: None,
            task_start_markers: Vec::new(),
            turn_context_markers: Vec::new(),
            ledger: TokenLedger::new(),
            pending_reasoning: Vec::new(),
            pending_reasoning_ts: None,
            active_agent_count: 0,
            tool_names: TextMap::new(),
            commands: TextMap::new(),
            sessions: SessionTable::new(),
            poll_origins: PollOrigins::new(),
        };
        proof {
            assert(messages_view(r.messages@) =~= Seq::<MessageView>::empty());
            assert(r.pending_reasoning@.map_values(|s: String| s@) =~= Seq::<Seq<char>>::empty());
            assert(text_lookup(r.tool_names) =~= (|k: Seq<char>| None::<Seq<char>>));
            assert(text_lookup(r.commands) =~= (|k: Seq<char>| None::<Seq<char>>));
            assert(text_lookup(r.poll_origins) =~= (|k: Seq<char>| None::<Seq<char>>));
            assert(session_lookup(r.sessions) =~= (|k: Seq<char>| None::<(Seq<char>, Option<Seq<char>>)>));
            assert(r.state() =~= initial_reader());
        }
        r
    }

    /// One transcript record, read as JSON. Returns whether the reader read
    /// all of it (see `value_handled`).
    pub fn read_value(&mut self, value: &Json, now: i64) -> (handled: bool)
        requires
            old(self).messages@.len() + 2 < u64::MAX,
            counts_fit(*value),
        ensures
            final(self).state() == value_read(old(self).state(), *value, now),
            handled == value_handled(*value),
            final(self).messages@.len() <= old(self).messages@.len() + 2,
    {
        let line_ts = parse_codex_timestamp(value);
        if let Some(t) = line_ts {
            if self.first_ts.is_none() {
                self.first_ts = Some(t);
            }
            self.last_ts = Some(t);
        }
        let ty: &str = match value.get_str("type") {
            Some(t) => t,
            None => "",
        };
        proof {
            reveal_strlit("");
            lemma_record_kinds_differ();
        }
        assert(ty@ == str_or_empty(value.str_field("type"@)));
        if crate::text::str_eq(ty, "session_meta") {
            if let Some(p) = value.get("payload") {
                self.cwd = match p.get_str("cwd") {
                    Some(c) => Some(c.to_owned()),
                    None => None,
                };
                self.git_branch = match p.get("git") {
                    Some(g) => match g.get_str("branch") {
                        Some(b) => Some(b.to_owned()),
                        None => None,
                    },
                    None => None,
                };
            }
            return true;
        }
        if crate::text::str_eq(ty, "turn_context") {
            self.active_agent_count = 0;
            if self.model.is_none() {
                self.model = match value.get("payload") {
                    Some(p) => match p.get_str("model") {
                        Some(m) => Some(m.to_owned()),
                        None => None,
                    },
                    None => None,
                };
            }
            if let Some(t) = line_ts {
                push_turn_start(&mut self.turn_context_markers, t);
            }
            return true;
        }
        if crate::text::str_eq(ty, "event_msg") {
            return match value.get("payload") {
                Some(p) => self.read_event_msg(p, line_ts, now),
                None => true,
            };
        }
        if crate::text::str_eq(ty, "response_item") {
            return match value.get("payload") {
                Some(p) => self.read_response_item(p, line_ts, now),
                None => true,
            };
        }
        true
    }

    /// The end of the transcript: streamed reasoning that never got its
    /// grouped summary is shown.
    pub fn finish(&mut self, now: i64)
        requires
            old(self).messages@.len() < u64::MAX,
        ensures
            final(self).state() == flushed(old(self).state(), now),
            final(self).state().pending.len() == 0,
    {
        self.flush(now);
    }
}

/// Whether a record's `token_count` counters fit (see `counts_fit`).
pub fn value_counts_fit(v: &Json) -> (r: bool)
    ensures
        r == counts_fit(*v),
{
    let ty: &str = match v.get_str("type") {
        Some(t) => t,
        None => "",
    };
    proof {
        reveal_strlit("");
    }
    assert(ty@ == str_or_empty(v.str_field("type"@)));
    if !crate::text::str_eq(ty, "event_msg") {
        return true;
    }
    let p = match v.get("payload") {
        Some(p) => p,
        None => return true,
    };
    let pt: &str = match p.get_str("type") {
        Some(t) => t,
        None => "",
    };
    assert(pt@ == str_or_empty(p.str_field("type"@)));
    if !crate::text::str_eq(pt, "token_count") {
        return true;
    }
    match p.get("info") {
        Some(i) => crate::usage::token_info_fits(i),
        None => true,
    }
}

/// A line whose counters fit: blank, not JSON, or a record whose
/// `token_count` counters fit.
pub open spec fn line_fits(line: Seq<char>) -> bool {
    trim(line).len() == 0 || match crate::json::json_parse_result(line) {
        Some(v) => counts_fit(v),
        None => true,
    }
}

/// A line the reader reads in full: blank, not JSON, or a record it reads
/// in full (see `value_handled`).
pub open spec fn line_handled(line: Seq<char>) -> bool {
    trim(line).len() == 0 || match crate::json::json_parse_result(line) {
        Some(v) => value_handled(v),
        None => true,
    }
}

/// The state after the first `n` lines.
pub open spec fn transcript_state(lines: Seq<Seq<char>>, n: int, now: i64) -> ReaderModel
    decreases n,
{
    if n <= 0 {
        initial_reader()
    } else {
        line_read(transcript_state(lines, n - 1, now), lines[n - 1], now)
    }
}

/// The positions, among the first `n` lines, of the lines left to the
/// caller.
pub open spec fn deferred_lines(lines: Seq<Seq<char>>, n: int) -> Seq<int>
    decreases n,
{
    if n <= 0 {
        Seq::empty()
    } else if line_handled(lines[n - 1]) {
        deferred_lines(lines, n - 1)
    } else {
        deferred_lines(lines, n - 1).push(n - 1)
    }
}

/// Reads a whole transcript, then shows the streamed reasoning still
/// buffered at its end. Returns the reader with the positions of the lines
/// it left to its caller (sub-agent operations, code-mode scripts and their
/// `wait`s, tool outputs, goal updates, generated images);
/// `None` when a `token_count` line reports
/// counters whose totals do not fit 64 bits.
pub fn read_transcript(lines: &Vec<String>, now: i64) -> (r: Option<(CodexTranscriptReader, Vec<usize>)>)
    requires
        lines@.len() < u32::MAX,
    ensures
        ({
            let lv = lines@.map_values(|l: String| l@);
            &&& (r is Some <==> forall|k: int| 0 <= k < lv.len() ==> line_fits(#[trigger] lv[k]))
            &&& (r matches Some(out) ==> {
                &&& out.0.state() == flushed(transcript_state(lv, lv.len() as int, now), now)
                &&& out.1@.map_values(|x: usize| x as int) == deferred_lines(lv, lv.len() as int)
            })
        }),
{
    let ghost lv = lines@.map_values(|l: String| l@);
    let mut reader = CodexTranscriptReader::new();
    let mut deferred: Vec<usize> = Vec::new();
    let mut i: usize = 0;
    while i < lines.len()
        invariant
            i <= lines@.len(),
            lines@.len() < u32::MAX,
            lv == lines@.map_values(|l: String| l@),
            reader.messages@.len() <= 2 * i,
            reader.state() == transcript_state(lv, i as int, now),
            deferred@.map_values(|x: usize| x as int) == deferred_lines(lv, i as int),
            forall|k: int| 0 <= k < i ==> line_fits(#[trigger] lv[k]),
        decreases lines.len() - i,
    {
        let line = lines[i].as_str();
        assert(line@ == lv[i as int]);
        let mut handled = true;
        if !crate::text::trim_str(line).as_str().is_empty() {
            if let Some(v) = crate::json::parse_json(line) {
                if !value_counts_fit(&v) {
                    return None;
                }
                handled = reader.read_value(&v, now);
            }
        }
        if !handled {
            let ghost before = deferred@;
            deferred.push(i);
            proof {
                assert(deferred@.map_values(|x: usize| x as int) =~= before.map_values(|x: usize| x as int).push(
                    i as int,
                ));
            }
        }
        i += 1;
    }
    reader.finish(now);
    Some((reader, deferred))
}

/// A conversation's transcript read into turns: the lines read with
/// `read_transcript`, each poll folded into the card of the command it
/// collects for, the messages grouped into turns, and the recorded token
/// total reconciled with the turns' usage. Returns the turns, the reader (its
/// messages moved into the turns) and the positions of the lines the reader
/// left to its caller; `None` when a `token_count` line reports counters
/// whose totals do not fit 64 bits.
pub fn conversation_turns(lines: &Vec<String>, now: i64) -> (r: Option<
    (Vec<MessageTurn>, CodexTranscriptReader, Vec<usize>),
>)
    requires
        lines@.len() < u32::MAX,
    ensures
        ({
            let lv = lines@.map_values(|l: String| l@);
            let st = flushed(transcript_state(lv, lv.len() as int, now), now);
            &&& (r is Some <==> forall|k: int| 0 <= k < lv.len() ==> line_fits(#[trigger] lv[k]))
            &&& (r matches Some(out) ==> {
                &&& out.1.state() == ReaderModel { messages: Seq::empty(), ..st }
                &&& out.2@.map_values(|x: usize| x as int) == deferred_lines(lv, lv.len() as int)
                &&& exists|folded: Seq<UnifiedMessage>, grouped: Seq<MessageTurn>, starts: Seq<int>|
                    {
                        &&& messages_view(folded) == fold_result(st.messages, out.1.poll_origins.entries@)
                        &&& grouping(folded, grouped, starts)
                        &&& out.0@ == reconciled(grouped, st.ledger.recorded)
                    }
            })
        }),
{
    let (mut reader, deferred) = match read_transcript(lines, now) {
        Some(read) => read,
        None => return None,
    };
    let ghost st = reader.state();
    let mut messages: Vec<UnifiedMessage> = Vec::new();
    std::mem::swap(&mut messages, &mut reader.messages);
    assert(messages_view(messages@) == st.messages);
    assert(reader.state() =~= ReaderModel { messages: Seq::empty(), ..st }) by {
        assert(messages_view(reader.messages@) =~= Seq::<MessageView>::empty());
    }
    fold_shell_session_polls(&mut messages, &reader.poll_origins);
    let ghost folded = messages@;
    let mut turns = group_into_turns(messages);
    let ghost grouped = turns@;
    reconcile_turn_usage(&mut turns, &reader.ledger.recorded);
    assert(turns@ == reconciled(grouped, st.ledger.recorded));
    Some((turns, reader, deferred))
}

/// `after` holds the messages of `before`, in place and unchanged but for
/// their usage, and possibly more after them.
pub open spec fn extends_messages(before: Seq<MessageView>, after: Seq<MessageView>) -> bool {
    &&& before.len() <= after.len()
    &&& forall|i: int|
        0 <= i < before.len() ==> (#[trigger] after[i]) == MessageView { usage: after[i].usage, ..before[i] }
}

proof fn lemma_flushed_extends(m: ReaderModel, now: i64)
    ensures
        extends_messages(m.messages, flushed(m, now).messages),
{
}

proof fn lemma_token_count_extends(m: ReaderModel, info: Json)
    ensures
        extends_messages(m.messages, token_count_read(m, info).messages),
{
    if !(info is Null) {
        let l = ledger_after(m.ledger, info);
        match (l.pending_round, last_assistant_in(m.messages, m.messages.len() as int)) {
            (Some(p), Some(k)) => {
                lemma_last_assistant_in_range(m.messages, m.messages.len() as int);
            },
            _ => {},
        }
    }
}

proof fn lemma_token_count_len(m: ReaderModel, info: Json)
    ensures
        token_count_read(m, info).messages.len() == m.messages.len(),
{
    lemma_last_assistant_in_range(m.messages, m.messages.len() as int);
}

proof fn lemma_last_assistant_in_range(msgs: Seq<MessageView>, n: int)
    ensures
        last_assistant_in(msgs, n) matches Some(k) ==> 0 <= k < n && k < msgs.len(),
    decreases n,
{
    if n > 0 && n <= msgs.len() && msgs[n - 1].role != MessageRole::Assistant {
        lemma_last_assistant_in_range(msgs, n - 1);
    }
}

proof fn lemma_extends_trans(a: Seq<MessageView>, b: Seq<MessageView>, c: Seq<MessageView>)
    requires
        extends_messages(a, b),
        extends_messages(b, c),
    ensures
        extends_messages(a, c),
{
    assert forall|i: int| 0 <= i < a.len() implies (#[trigger] c[i]) == MessageView { usage: c[i].usage, ..a[i] } by {
        assert(b[i] == MessageView { usage: b[i].usage, ..a[i] });
        assert(c[i] == MessageView { usage: c[i].usage, ..b[i] });
    }
}

/// Reading never rewrites history: after any record, the messages read
/// before it are still there, in place, unchanged but for the usage that a
/// later token count adds to the last assistant message; new messages only
/// come after them.
pub proof fn law_reading_keeps_earlier_messages(m: ReaderModel, v: Json, now: i64)
    ensures
        extends_messages(m.messages, value_read(m, v, now).messages),
{
    let line_ts = line_timestamp(v);
    let m1 = match line_ts {
        Some(t) => ReaderModel {
            first_ts: if m.first_ts is None {
                Some(t)
            } else {
                m.first_ts
            },
            last_ts: Some(t),
            ..m
        },
        None => m,
    };
    assert(m1.messages == m.messages);
    match v.field("payload"@) {
        Some(p) => {
            lemma_event_extends(m1, p, line_ts, now);
            lemma_item_extends(m1, p, line_ts, now);
        },
        None => {},
    }
}

proof fn lemma_event_extends(m0: ReaderModel, p: Json, line_ts: Option<i64>, now: i64)
    ensures
        extends_messages(m0.messages, event_read(m0, p, line_ts, now).messages),
{
    let pt = str_or_empty(p.str_field("type"@));
    let m = if pt != "agent_reasoning"@ && pt != "token_count"@ {
        flushed(m0, now)
    } else {
        m0
    };
    lemma_flushed_extends(m0, now);
    assert(extends_messages(m0.messages, m.messages));
    let r = event_read(m0, p, line_ts, now);
    if pt == "token_count"@ {
        match p.field("info"@) {
            Some(info) => {
                lemma_token_count_extends(m, info);
            },
            None => {},
        }
    }
    assert(extends_messages(m.messages, r.messages));
    lemma_extends_trans(m0.messages, m.messages, r.messages);
}

proof fn lemma_item_extends(m0: ReaderModel, p: Json, line_ts: Option<i64>, now: i64)
    ensures
        extends_messages(m0.messages, item_read(m0, p, line_ts, now).messages),
{
    let pt = str_or_empty(p.str_field("type"@));
    let m = if pt != "reasoning"@ {
        flushed(m0, now)
    } else {
        m0
    };
    lemma_flushed_extends(m0, now);
    lemma_flushed_extends(m, now);
    let r = item_read(m0, p, line_ts, now);
    assert(extends_messages(m.messages, r.messages));
    lemma_extends_trans(m0.messages, m.messages, r.messages);
}

/// Every message is named by its kind and its position: `user-<i>`,
/// `assistant-<i>`, `thinking-<i>` or `tool-<i>` for the message at
/// position `i`.
pub open spec fn numbered(msgs: Seq<MessageView>) -> bool {
    forall|i: int|
        0 <= i < msgs.len() ==> {
            let id = (#[trigger] msgs[i]).id;
            ||| id == "user-"@ + decimal(i as nat)
            ||| id == "assistant-"@ + decimal(i as nat)
            ||| id == "thinking-"@ + decimal(i as nat)
        ||| id == "tool-"@ + decimal(i as nat)
        }
}

proof fn lemma_extends_numbered(a: Seq<MessageView>, b: Seq<MessageView>)
    requires
        numbered(a),
        extends_messages(a, b),
        forall|i: int| a.len() <= i < b.len() ==> {
            let id = (#[trigger] b[i]).id;
            ||| id == "user-"@ + decimal(i as nat)
            ||| id == "assistant-"@ + decimal(i as nat)
            ||| id == "thinking-"@ + decimal(i as nat)
        ||| id == "tool-"@ + decimal(i as nat)
        },
    ensures
        numbered(b),
{
    assert forall|i: int| 0 <= i < b.len() implies {
        let id = (#[trigger] b[i]).id;
        ||| id == "user-"@ + decimal(i as nat)
        ||| id == "assistant-"@ + decimal(i as nat)
        ||| id == "thinking-"@ + decimal(i as nat)
        ||| id == "tool-"@ + decimal(i as nat)
    } by {
        if i < a.len() {
            assert(b[i] == MessageView { usage: b[i].usage, ..a[i] });
            assert(b[i].id == a[i].id);
        }
    }
}

/// Message names follow positions: reading a record keeps every message
/// named by its kind and its position, so no two messages share a name.
pub proof fn law_messages_are_named_by_position(m: ReaderModel, v: Json, now: i64)
    requires
        numbered(m.messages),
    ensures
        numbered(value_read(m, v, now).messages),
{
    let r = value_read(m, v, now);
    law_reading_keeps_earlier_messages(m, v, now);
    lemma_value_names_new(m, v, now);
    lemma_extends_numbered(m.messages, r.messages);
}

/// The messages a record adds are named by their kind and position.
proof fn lemma_value_names_new(m0: ReaderModel, v: Json, now: i64)
    ensures
        forall|i: int| m0.messages.len() <= i < value_read(m0, v, now).messages.len() ==> {
            let id = (#[trigger] value_read(m0, v, now).messages[i]).id;
            ||| id == "user-"@ + decimal(i as nat)
            ||| id == "assistant-"@ + decimal(i as nat)
            ||| id == "thinking-"@ + decimal(i as nat)
        ||| id == "tool-"@ + decimal(i as nat)
        },
{
    let line_ts = line_timestamp(v);
    let m = match line_ts {
        Some(t) => ReaderModel {
            first_ts: if m0.first_ts is None {
                Some(t)
            } else {
                m0.first_ts
            },
            last_ts: Some(t),
            ..m0
        },
        None => m0,
    };
    match v.field("payload"@) {
        Some(p) => {
            lemma_event_names_new(m, p, line_ts, now);
            lemma_item_names_new(m, p, line_ts, now);
        },
        None => {},
    }
}

proof fn lemma_event_names_new(m0: ReaderModel, p: Json, line_ts: Option<i64>, now: i64)
    ensures
        forall|i: int| m0.messages.len() <= i < event_read(m0, p, line_ts, now).messages.len() ==> {
            let id = (#[trigger] event_read(m0, p, line_ts, now).messages[i]).id;
            ||| id == "user-"@ + decimal(i as nat)
            ||| id == "assistant-"@ + decimal(i as nat)
            ||| id == "thinking-"@ + decimal(i as nat)
        ||| id == "tool-"@ + decimal(i as nat)
        },
{
    let pt = str_or_empty(p.str_field("type"@));
    let m = if pt != "agent_reasoning"@ && pt != "token_count"@ {
        flushed(m0, now)
    } else {
        m0
    };
    let r = event_read(m0, p, line_ts, now);
    if pt == "token_count"@ {
        match p.field("info"@) {
            Some(info) => {
                lemma_token_count_extends(m, info);
            },
            None => {},
        }
    }
    assert forall|i: int| m0.messages.len() <= i < r.messages.len() implies {
        let id = (#[trigger] r.messages[i]).id;
        ||| id == "user-"@ + decimal(i as nat)
        ||| id == "assistant-"@ + decimal(i as nat)
        ||| id == "thinking-"@ + decimal(i as nat)
        ||| id == "tool-"@ + decimal(i as nat)
    } by {
        if i < m.messages.len() {
            assert(m.messages[i].id == "thinking-"@ + decimal(i as nat));
            if pt == "token_count"@ {
                assert(r.messages[i] == MessageView { usage: r.messages[i].usage, ..m.messages[i] });
            }
        } else if pt == "task_started"@ {
            assert(r.messages == m.messages);
        } else if pt == "user_message"@ {
            assert(r.messages == user_pushed(m.messages, user_event_blocks(p), match line_ts {
                Some(t) => t,
                None => now,
            }));
            assert(r.messages[i].id == "user-"@ + decimal(i as nat));
        } else if pt == "agent_message"@ {
            assert(r.messages[i].id == "assistant-"@ + decimal(i as nat));
        } else if pt == "agent_reasoning"@ {
            assert(r.messages == m.messages);
        } else if pt == "token_count"@ {
            match p.field("info"@) {
                Some(info) => {
                    assert(r == token_count_read(m, info));
                    lemma_token_count_len(m, info);
                },
                None => {},
            }
        } else {
            assert(r.messages == m.messages);
        }
    }
}

proof fn lemma_item_names_new(m0: ReaderModel, p: Json, line_ts: Option<i64>, now: i64)
    ensures
        forall|i: int| m0.messages.len() <= i < item_read(m0, p, line_ts, now).messages.len() ==> {
            let id = (#[trigger] item_read(m0, p, line_ts, now).messages[i]).id;
            ||| id == "user-"@ + decimal(i as nat)
            ||| id == "assistant-"@ + decimal(i as nat)
            ||| id == "thinking-"@ + decimal(i as nat)
        ||| id == "tool-"@ + decimal(i as nat)
        },
{
    let pt = str_or_empty(p.str_field("type"@));
    let m = if pt != "reasoning"@ {
        flushed(m0, now)
    } else {
        m0
    };
    let r = item_read(m0, p, line_ts, now);
    assert forall|i: int| m0.messages.len() <= i < r.messages.len() implies {
        let id = (#[trigger] r.messages[i]).id;
        ||| id == "user-"@ + decimal(i as nat)
        ||| id == "assistant-"@ + decimal(i as nat)
        ||| id == "thinking-"@ + decimal(i as nat)
        ||| id == "tool-"@ + decimal(i as nat)
    } by {
        if i < m.messages.len() {
            assert(m.messages[i].id == "thinking-"@ + decimal(i as nat));
        } else if pt == "reasoning"@ {
            if reasoning_text(p).len() > 0 {
                assert(r.messages[i].id == "thinking-"@ + decimal(i as nat));
            } else {
                assert(r == flushed(m, now));
                assert(r.messages[i].id == "thinking-"@ + decimal(i as nat));
            }
        } else if pt == "message"@ && str_or_empty(p.str_field("role"@)) == "user"@ {
            assert(r.messages[i].id == "user-"@ + decimal(i as nat));
        } else {
            assert(plain_call(p));
            assert(r.messages[i].id == "tool-"@ + decimal(i as nat));
        }
    }
}

/// Over a whole transcript: every message the reader holds after any number
/// of lines, and after the buffered reasoning is shown at the end, is named
/// by its kind and its position.
pub proof fn law_transcript_messages_are_named_by_position(lines: Seq<Seq<char>>, n: int, now: i64)
    ensures
        numbered(transcript_state(lines, n, now).messages),
        numbered(flushed(transcript_state(lines, n, now), now).messages),
    decreases n,
{
    if n > 0 {
        law_transcript_messages_are_named_by_position(lines, n - 1, now);
        let prev = transcript_state(lines, n - 1, now);
        if trim(lines[n - 1]).len() > 0 {
            match crate::json::json_parse_result(lines[n - 1]) {
                Some(v) => law_messages_are_named_by_position(prev, v, now),
                None => {},
            }
        }
    }
    let st = transcript_state(lines, n, now);
    lemma_flushed_extends(st, now);
    lemma_extends_numbered(st.messages, flushed(st, now).messages);
}

/// A line both the list entry and the opened conversation read the same
/// way as far as the title goes: anything but a goal update or a
/// `response_item` user message.
pub open spec fn plain_title_line(line: Seq<char>) -> bool {
    trim(line).len() == 0 || match crate::json::json_parse_result(line) {
        Some(v) => match v.field("payload"@) {
            Some(p) => {
                let ty = str_or_empty(v.str_field("type"@));
                let pt = str_or_empty(p.str_field("type"@));
                &&& !(ty == "event_msg"@ && pt == "thread_goal_updated"@)
                &&& !(ty == "response_item"@ && pt == "message"@ && str_or_empty(p.str_field("role"@))
                    == "user"@)
            },
            None => true,
        },
        None => true,
    }
}

proof fn lemma_kinds_nonempty()
    ensures
        "user_message"@.len() > 0,
        "agent_message"@.len() > 0,
        "message"@.len() > 0,
        "user"@.len() > 0,
        "event_msg"@.len() > 0,
        "response_item"@.len() > 0,
        "session_meta"@.len() > 0,
        "turn_context"@.len() > 0,
        "thread_goal_updated"@.len() > 0,
        "thread_name_updated"@.len() > 0,
{
    reveal_strlit("user_message");
    reveal_strlit("agent_message");
    reveal_strlit("message");
    reveal_strlit("user");
    reveal_strlit("event_msg");
    reveal_strlit("response_item");
    reveal_strlit("session_meta");
    reveal_strlit("turn_context");
    reveal_strlit("thread_goal_updated");
    reveal_strlit("thread_name_updated");
}

proof fn lemma_line_titles_agree(st: crate::codex::SummaryModel, m: ReaderModel, line: Seq<char>, now: i64)
    requires
        st.title == m.title,
        plain_title_line(line),
    ensures
        crate::codex::line_step(st, line).title == line_read(m, line, now).title,
{
    lemma_kinds_nonempty();
    lemma_event_kind_lengths();
    lemma_record_kinds_differ();
    if trim(line).len() > 0 {
        match crate::json::json_parse_result(line) {
            Some(v) => {
                let sv = crate::codex::value_step(st, v);
                let rv = value_read(m, v, now);
                assert(crate::codex::line_step(st, line) == sv);
                assert(line_read(m, line, now) == rv);
                let st1 = crate::codex::with_timestamp(st, v);
                assert(st1.title == st.title);
                let ty = str_or_empty(v.str_field("type"@));
                match v.field("payload"@) {
                    Some(p) => {
                        let pt = str_or_empty(p.str_field("type"@));
                        if ty == "event_msg"@ {
                            assert(v.str_field("type"@) == Some("event_msg"@));
                            assert(sv == crate::codex::event_step(st1, p));
                            if pt == "user_message"@ {
                                assert(p.str_field("type"@) == Some("user_message"@));
                                let raw = str_or_empty(p.str_field("message"@));
                                assert(sv.title == if st.title is None {
                                    title_candidate(raw, true)
                                } else {
                                    st.title
                                });
                                assert(rv.title == if m.title is None {
                                    title_candidate(raw, true)
                                } else {
                                    m.title
                                });
                            } else if pt == "agent_message"@ {
                                assert(p.str_field("type"@) == Some("agent_message"@));
                            } else if pt == "thread_name_updated"@ {
                                assert(p.str_field("type"@) == Some("thread_name_updated"@));
                                assert(p.str_field("type"@) != Some("thread_goal_updated"@));
                            } else {
                                assert(p.str_field("type"@) != Some("user_message"@));
                                assert(p.str_field("type"@) != Some("agent_message"@));
                                assert(p.str_field("type"@) != Some("thread_goal_updated"@));
                                assert(p.str_field("type"@) != Some("thread_name_updated"@));
                                assert(sv.title == st.title);
                            }
                        } else if ty == "response_item"@ {
                            assert(v.str_field("type"@) == Some("response_item"@));
                            assert(!(p.str_field("type"@) == Some("message"@) && p.str_field("role"@) == Some(
                                "user"@,
                            )));
                            assert(sv.title == st.title);
                        } else {
                            assert(v.str_field("type"@) != Some("event_msg"@));
                            assert(v.str_field("type"@) != Some("response_item"@));
                            assert(sv.title == st.title);
                        }
                    },
                    None => {
                        assert(sv.title == st.title);
                    },
                }
            },
            None => {},
        }
    }
}

/// The list entry and the opened conversation agree on the title: over a
/// transcript with no goal update and no `response_item` user message, the
/// title the summary gathers from any number of lines is the one the reader
/// gathers from them (the newest thread name, else the first prompt that
/// makes a title).
pub proof fn law_summary_and_reader_agree_on_the_title(lines: Seq<Seq<char>>, n: int, now: i64)
    requires
        0 <= n <= lines.len(),
        forall|k: int| 0 <= k < n ==> plain_title_line(#[trigger] lines[k]),
    ensures
        crate::codex::summary_fold(lines, n).title == transcript_state(lines, n, now).title,
    decreases n,
{
    if n > 0 {
        law_summary_and_reader_agree_on_the_title(lines, n - 1, now);
        assert(plain_title_line(lines[n - 1]));
        lemma_line_titles_agree(
            crate::codex::summary_fold(lines, n - 1),
            transcript_state(lines, n - 1, now),
            lines[n - 1],
            now,
        );
    }
}

} // verus!
