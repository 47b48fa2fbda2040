//! The unified conversation model that a Codex transcript is read into, and
//! the grouping of flat messages into rendered turns.
use vstd::prelude::*;
use crate::text::decimal;

verus! {

/// Token spend of one model call or one turn.
#[derive(Clone, Copy, PartialEq, Eq, Structural, Debug, Default)]
pub struct TurnUsage {
    pub input_tokens: u64,
    pub output_tokens: u64,
    pub cache_creation_input_tokens: u64,
    pub cache_read_input_tokens: u64,
}

/// Session-level statistics. The context-window percentage is a floating
/// point figure; it is derived from the used and maximum token counts kept
/// here by whoever displays it.
#[derive(Clone, Copy, PartialEq, Eq, Structural, Debug)]
pub struct SessionStats {
    pub total_usage: Option<TurnUsage>,
    pub total_tokens: Option<u64>,
    pub total_duration_ms: u64,
    pub context_window_used_tokens: Option<u64>,
    pub context_window_max_tokens: Option<u64>,
}

#[derive(Clone, Copy, PartialEq, Eq, Structural, Debug)]
pub enum MessageRole {
    User,
    Assistant,
    System,
    Tool,
}

#[derive(Clone, Copy, PartialEq, Eq, Structural, Debug)]
pub enum TurnRole {
    User,
    Assistant,
    System,
}

/// One block of message content. Timestamps elsewhere are milliseconds since
/// the Unix epoch.
pub enum ContentBlock {
    Text { text: String },
    Image { data: String, mime_type: String, uri: Option<String> },
    Thinking { text: String },
    ToolUse {
        tool_use_id: Option<String>,
        tool_name: String,
        input_preview: Option<String>,
        status: Option<String>,
        /// Renderer metadata, as JSON text.
        meta: Option<String>,
    },
    ToolResult { tool_use_id: Option<String>, output_preview: Option<String>, is_error: bool },
}

pub struct UnifiedMessage {
    pub id: String,
    pub role: MessageRole,
    pub content: Vec<ContentBlock>,
    pub timestamp: i64,
    pub usage: Option<TurnUsage>,
    pub duration_ms: Option<u64>,
    pub model: Option<String>,
    pub completed_at: Option<i64>,
}

pub struct MessageTurn {
    pub id: String,
    pub role: TurnRole,
    pub blocks: Vec<ContentBlock>,
    pub timestamp: i64,
    pub usage: Option<TurnUsage>,
    pub duration_ms: Option<u64>,
    pub model: Option<String>,
    pub completed_at: Option<i64>,
}

pub fn clone_opt_string(o: &Option<String>) -> (r: Option<String>)
    ensures
        r == *o,
{
    match o {
        Some(s) => Some(s.clone()),
        None => None,
    }
}

impl ContentBlock {
    pub fn duplicate(&self) -> (r: ContentBlock)
        ensures
            r == *self,
    {
        match self {
            ContentBlock::Text { text } => ContentBlock::Text { text: text.clone() },
            ContentBlock::Image { data, mime_type, uri } => ContentBlock::Image {
                data: data.clone(),
                mime_type: mime_type.clone(),
                uri: clone_opt_string(uri),
            },
            ContentBlock::Thinking { text } => ContentBlock::Thinking { text: text.clone() },
            ContentBlock::ToolUse { tool_use_id, tool_name, input_preview, status, meta } => {
                ContentBlock::ToolUse {
                    tool_use_id: clone_opt_string(tool_use_id),
                    tool_name: tool_name.clone(),
                    input_preview: clone_opt_string(input_preview),
                    status: clone_opt_string(status),
                    meta: clone_opt_string(meta),
                }
            },
            ContentBlock::ToolResult { tool_use_id, output_preview, is_error } => {
                ContentBlock::ToolResult {
                    tool_use_id: clone_opt_string(tool_use_id),
                    output_preview: clone_opt_string(output_preview),
                    is_error: *is_error,
                }
            },
        }
    }
}

/// A copy of a list of blocks.
pub fn duplicate_blocks(blocks: &Vec<ContentBlock>) -> (r: Vec<ContentBlock>)
    ensures
        r@ == blocks@,
{
    let mut out: Vec<ContentBlock> = Vec::new();
    let mut i: usize = 0;
    while i < blocks.len()
        invariant
            i <= blocks@.len(),
            out@ == blocks@.subrange(0, i as int),
        decreases blocks.len() - i,
    {
        out.push(blocks[i].duplicate());
        i += 1;
        proof {
            assert(out@ =~= blocks@.subrange(0, i as int));
        }
    }
    proof {
        assert(blocks@.subrange(0, blocks@.len() as int) =~= blocks@);
    }
    out
}

/// The text of the first `Text` block, if any.
pub open spec fn first_text(blocks: Seq<ContentBlock>) -> Option<Seq<char>>
    decreases blocks.len(),
{
    if blocks.len() == 0 {
        None
    } else {
        match blocks[0] {
            ContentBlock::Text { text } => Some(text@),
            _ => first_text(blocks.drop_first()),
        }
    }
}

pub fn first_text_block(blocks: &[ContentBlock]) -> (r: Option<String>)
    ensures
        match r {
            Some(t) => first_text(blocks@) == Some(t@),
            None => first_text(blocks@) is None,
        },
{
    let mut i: usize = 0;
    proof {
        assert(blocks@.skip(0) =~= blocks@);
    }
    while i < blocks.len()
        invariant
            i <= blocks@.len(),
            first_text(blocks@) == first_text(blocks@.skip(i as int)),
        decreases blocks.len() - i,
    {
        proof {
            assert(blocks@.skip(i as int).drop_first() =~= blocks@.skip(i + 1));
            assert(blocks@.skip(i as int)[0] == blocks@[i as int]);
        }
        match &blocks[i] {
            ContentBlock::Text { text } => {
                return Some(text.clone());
            },
            _ => {},
        }
        i += 1;
    }
    None
}

/// `"turn-"` followed by the turn's position.
pub open spec fn turn_id(k: nat) -> Seq<char> {
    seq!['t', 'u', 'r', 'n', '-'] + decimal(k)
}

/// First index at or after `i` whose message is not a `Tool` message.
pub open spec fn tool_run_end(msgs: Seq<UnifiedMessage>, i: int) -> int
    decreases msgs.len() - i,
{
    if i >= msgs.len() || msgs[i].role == MessageRole::User || msgs[i].role
        == MessageRole::System || msgs[i].role == MessageRole::Assistant {
        i
    } else {
        tool_run_end(msgs, i + 1)
    }
}

pub proof fn lemma_tool_run_end(msgs: Seq<UnifiedMessage>, i: int)
    ensures
        tool_run_end(msgs, i) >= i,
        i <= msgs.len() ==> tool_run_end(msgs, i) <= msgs.len(),
        forall|m: int| i <= m < tool_run_end(msgs, i) ==> msgs[m].role == MessageRole::Tool,
        tool_run_end(msgs, i) < msgs.len() ==> msgs[tool_run_end(msgs, i)].role
            != MessageRole::Tool,
    decreases msgs.len() - i,
{
    if !(i >= msgs.len() || msgs[i].role == MessageRole::User || msgs[i].role
        == MessageRole::System || msgs[i].role == MessageRole::Assistant) {
        lemma_tool_run_end(msgs, i + 1);
    }
}

/// All blocks of `msgs[i..j]`, in order.
pub open spec fn group_blocks(msgs: Seq<UnifiedMessage>, i: int, j: int) -> Seq<ContentBlock>
    decreases j - i,
{
    if i >= j {
        Seq::empty()
    } else {
        group_blocks(msgs, i, j - 1) + msgs[j - 1].content@
    }
}

/// The first `Some` usage among `msgs[i..j]`.
pub open spec fn group_usage(msgs: Seq<UnifiedMessage>, i: int, j: int) -> Option<TurnUsage>
    decreases j - i,
{
    if i >= j {
        None
    } else if group_usage(msgs, i, j - 1) is Some {
        group_usage(msgs, i, j - 1)
    } else {
        msgs[j - 1].usage
    }
}

/// The first `Some` duration among `msgs[i..j]`.
pub open spec fn group_duration(msgs: Seq<UnifiedMessage>, i: int, j: int) -> Option<u64>
    decreases j - i,
{
    if i >= j {
        None
    } else if group_duration(msgs, i, j - 1) is Some {
        group_duration(msgs, i, j - 1)
    } else {
        msgs[j - 1].duration_ms
    }
}

/// The first `Some` model among `msgs[i..j]`.
pub open spec fn group_model(msgs: Seq<UnifiedMessage>, i: int, j: int) -> Option<String>
    decreases j - i,
{
    if i >= j {
        None
    } else if group_model(msgs, i, j - 1) is Some {
        group_model(msgs, i, j - 1)
    } else {
        msgs[j - 1].model
    }
}

/// The last `Some` completion time among `msgs[i..j]`.
pub open spec fn group_completed(msgs: Seq<UnifiedMessage>, i: int, j: int) -> Option<i64>
    decreases j - i,
{
    if i >= j {
        None
    } else if msgs[j - 1].completed_at is Some {
        msgs[j - 1].completed_at
    } else {
        group_completed(msgs, i, j - 1)
    }
}

/// Where the turn that starts at message `s` ends: a user or system message
/// is a turn of its own; an assistant or tool message absorbs the tool
/// messages right after it.
pub open spec fn turn_step(msgs: Seq<UnifiedMessage>, s: int) -> int {
    if msgs[s].role == MessageRole::User || msgs[s].role == MessageRole::System {
        s + 1
    } else {
        tool_run_end(msgs, s + 1)
    }
}

/// Whether `t` is turn number `k`, made of the messages `msgs[s..e]`.
pub open spec fn turn_matches(t: MessageTurn, msgs: Seq<UnifiedMessage>, s: int, e: int, k: nat) -> bool {
    &&& t.id@ == turn_id(k)
    &&& t.timestamp == msgs[s].timestamp
    &&& if msgs[s].role == MessageRole::User || msgs[s].role == MessageRole::System {
        &&& t.role == (if msgs[s].role == MessageRole::User {
            TurnRole::User
        } else {
            TurnRole::System
        })
        &&& t.blocks@ == msgs[s].content@
        &&& t.usage is None
        &&& t.duration_ms is None
        &&& t.model is None
        &&& t.completed_at == msgs[s].completed_at
    } else {
        &&& t.role == TurnRole::Assistant
        &&& t.blocks@ == group_blocks(msgs, s, e)
        &&& t.usage == group_usage(msgs, s, e)
        &&& t.duration_ms == group_duration(msgs, s, e)
        &&& t.model == group_model(msgs, s, e)
        &&& t.completed_at == group_completed(msgs, s, e)
    }
}

/// `turns` is the grouping of `msgs`, turn `k` made of `msgs[starts[k]..starts[k + 1]]`.
pub open spec fn grouping(msgs: Seq<UnifiedMessage>, turns: Seq<MessageTurn>, starts: Seq<int>) -> bool {
    &&& starts.len() == turns.len() + 1
    &&& starts[0] == 0
    &&& starts.last() == msgs.len()
    &&& forall|k: int|
        0 <= k < turns.len() ==> {
            &&& 0 <= #[trigger] starts[k] < msgs.len()
            &&& starts[k + 1] == turn_step(msgs, starts[k])
            &&& turn_matches(turns[k], msgs, starts[k], starts[k + 1], k as nat)
        }
}


/// `"turn-"` followed by `k`.
fn turn_label(k: usize) -> (r: String)
    ensures
        r@ == turn_id(k as nat),
{
    let r = crate::text::with_number("turn-", k as u64);
    proof {
        reveal_strlit("turn-");
    }
    r
}

/// The turn that starts at `messages[i]`, numbered `k`, and where it ends.
fn turn_at(messages: &Vec<UnifiedMessage>, i: usize, k: usize) -> (r: (MessageTurn, usize))
    requires
        i < messages@.len(),
    ensures
        r.1 == turn_step(messages@, i as int),
        i < r.1 <= messages@.len(),
        turn_matches(r.0, messages@, i as int, r.1 as int, k as nat),
{
    let ghost msgs = messages@;
    let ghost start = i as int;
    let n = messages.len();
    assert(i < n);
    let id = turn_label(k);
    let role = messages[i].role;
    if role == MessageRole::User || role == MessageRole::System {
        let turn = MessageTurn {
            id,
            role: if role == MessageRole::User {
                TurnRole::User
            } else {
                TurnRole::System
            },
            blocks: duplicate_blocks(&messages[i].content),
            timestamp: messages[i].timestamp,
            usage: None,
            duration_ms: None,
            model: None,
            completed_at: messages[i].completed_at,
        };
        return (turn, i + 1);
    }
    let mut blocks = duplicate_blocks(&messages[i].content);
    let mut usage = messages[i].usage;
    let mut duration_ms = messages[i].duration_ms;
    let mut turn_model = clone_opt_string(&messages[i].model);
    let timestamp = messages[i].timestamp;
    let mut completed_at = messages[i].completed_at;
    let mut j = i + 1;
    proof {
        assert(group_blocks(msgs, start, start) =~= Seq::<ContentBlock>::empty());
        assert(group_blocks(msgs, start, start + 1) =~= msgs[start].content@);
        assert(group_usage(msgs, start, start) is None);
        assert(group_duration(msgs, start, start) is None);
        assert(group_model(msgs, start, start) is None);
        assert(group_completed(msgs, start, start) is None);
    }
    while j < messages.len() && messages[j].role == MessageRole::Tool
        invariant
            messages@ == msgs,
            start < j <= msgs.len(),
            blocks@ == group_blocks(msgs, start, j as int),
            usage == group_usage(msgs, start, j as int),
            duration_ms == group_duration(msgs, start, j as int),
            turn_model == group_model(msgs, start, j as int),
            completed_at == group_completed(msgs, start, j as int),
            tool_run_end(msgs, start + 1) == tool_run_end(msgs, j as int),
        decreases messages.len() - j,
    {
        let mut more = duplicate_blocks(&messages[j].content);
        blocks.append(&mut more);
        if usage.is_none() {
            usage = messages[j].usage;
        }
        if duration_ms.is_none() {
            duration_ms = messages[j].duration_ms;
        }
        if turn_model.is_none() {
            turn_model = clone_opt_string(&messages[j].model);
        }
        if messages[j].completed_at.is_some() {
            completed_at = messages[j].completed_at;
        }
        j += 1;
        proof {
            assert(blocks@ =~= group_blocks(msgs, start, j as int));
        }
    }
    proof {
        lemma_tool_run_end(msgs, j as int);
    }
    let turn = MessageTurn {
        id,
        role: TurnRole::Assistant,
        blocks,
        timestamp,
        usage,
        duration_ms,
        model: turn_model,
        completed_at,
    };
    (turn, j)
}

/// Group flat messages into conversation turns: user and system messages are
/// turns of their own, and an assistant or tool message absorbs the tool
/// messages that immediately follow it (stopping at the next assistant
/// message). A grouped turn keeps the first usage, duration and model found
/// among its messages and the last completion time.
pub fn group_into_turns(messages: Vec<UnifiedMessage>) -> (turns: Vec<MessageTurn>)
    ensures
        exists|starts: Seq<int>| grouping(messages@, turns@, starts),
{
    let mut turns: Vec<MessageTurn> = Vec::new();
    let mut i: usize = 0;
    let ghost mut starts: Seq<int> = seq![0int];
    while i < messages.len()
        invariant
            i <= messages@.len(),
            starts.len() == turns@.len() + 1,
            starts[0] == 0,
            starts.last() == i,
            forall|k: int|
                0 <= k < turns@.len() ==> {
                    &&& 0 <= #[trigger] starts[k] < messages@.len()
                    &&& starts[k + 1] == turn_step(messages@, starts[k])
                    &&& turn_matches(turns@[k], messages@, starts[k], starts[k + 1], k as nat)
                },
        decreases messages.len() - i,
    {
        let ghost k = turns@.len() as int;
        let ghost start = i as int;
        let ghost old_starts = starts;
        let ghost old_turns = turns@;
        let (turn, next) = turn_at(&messages, i, turns.len());
        turns.push(turn);
        i = next;
        proof {
            starts = starts.push(i as int);
            assert forall|m: int| 0 <= m < turns@.len() implies {
                &&& 0 <= #[trigger] starts[m] < messages@.len()
                &&& starts[m + 1] == turn_step(messages@, starts[m])
                &&& turn_matches(turns@[m], messages@, starts[m], starts[m + 1], m as nat)
            } by {
                if m < k {
                    assert(starts[m] == old_starts[m]);
                    assert(starts[m + 1] == old_starts[m + 1]);
                    assert(turns@[m] == old_turns[m]);
                } else {
                    assert(starts[m] == start);
                }
            }
        }
    }
    proof {
        assert(grouping(messages@, turns@, starts));
    }
    turns
}

/// All blocks of `turns[..n]`, in order.
pub open spec fn turn_blocks(turns: Seq<MessageTurn>, n: int) -> Seq<ContentBlock>
    decreases n,
{
    if n <= 0 {
        Seq::empty()
    } else {
        turn_blocks(turns, n - 1) + turns[n - 1].blocks@
    }
}

proof fn lemma_group_blocks_split(msgs: Seq<UnifiedMessage>, i: int, j: int, k: int)
    requires
        i <= j <= k,
    ensures
        group_blocks(msgs, i, k) == group_blocks(msgs, i, j) + group_blocks(msgs, j, k),
    decreases k - j,
{
    if j == k {
        assert(group_blocks(msgs, i, j) + group_blocks(msgs, j, k) =~= group_blocks(msgs, i, j));
    } else {
        lemma_group_blocks_split(msgs, i, j, k - 1);
        assert(group_blocks(msgs, i, k) =~= group_blocks(msgs, i, j) + group_blocks(msgs, j, k));
    }
}

/// Grouping into turns loses, duplicates and reorders no block: the blocks
/// of the turns, in order, are the blocks of the messages, in order, and
/// turn `k` is named `turn-<k>`.
pub proof fn law_turns_keep_every_block_in_order(msgs: Seq<UnifiedMessage>, turns: Seq<MessageTurn>, starts: Seq<int>)
    requires
        grouping(msgs, turns, starts),
    ensures
        turn_blocks(turns, turns.len() as int) == group_blocks(msgs, 0, msgs.len() as int),
        forall|k: int| 0 <= k < turns.len() ==> (#[trigger] turns[k]).id@ == turn_id(k as nat),
{
    lemma_turn_blocks_prefix(msgs, turns, starts, turns.len() as int);
    assert forall|k: int| 0 <= k < turns.len() implies (#[trigger] turns[k]).id@ == turn_id(k as nat) by {
        assert(0 <= starts[k] < msgs.len());
    }
}

proof fn lemma_turn_blocks_prefix(msgs: Seq<UnifiedMessage>, turns: Seq<MessageTurn>, starts: Seq<int>, n: int)
    requires
        grouping(msgs, turns, starts),
        0 <= n <= turns.len(),
    ensures
        turn_blocks(turns, n) == group_blocks(msgs, 0, starts[n]),
        0 <= starts[n] <= msgs.len(),
    decreases n,
{
    if n == 0 {
    } else {
        lemma_turn_blocks_prefix(msgs, turns, starts, n - 1);
        let s = starts[n - 1];
        let e = starts[n];
        assert(0 <= starts[n - 1] < msgs.len());
        assert(e == turn_step(msgs, s));
        lemma_tool_run_end(msgs, s + 1);
        assert(s < e <= msgs.len());
        lemma_group_blocks_split(msgs, 0, s, e);
        assert(turn_matches(turns[n - 1], msgs, s, e, (n - 1) as nat));
        if msgs[s].role == MessageRole::User || msgs[s].role == MessageRole::System {
            assert(group_blocks(msgs, s, s) == Seq::<ContentBlock>::empty());
            assert(group_blocks(msgs, s, s + 1) == group_blocks(msgs, s, s) + msgs[s].content@);
            assert(group_blocks(msgs, s, s + 1) =~= msgs[s].content@);
        }
    }
}

/// Message `i` opens a turn: the first message, every message that is not
/// a tool message, and a tool message right after a user or system message.
pub open spec fn opens_turn(msgs: Seq<UnifiedMessage>, i: int) -> bool {
    ||| i == 0
    ||| msgs[i].role != MessageRole::Tool
    ||| msgs[i - 1].role == MessageRole::User
    ||| msgs[i - 1].role == MessageRole::System
}

/// How many of `msgs[..n]` open a turn.
pub open spec fn turns_opened(msgs: Seq<UnifiedMessage>, n: int) -> nat
    decreases n,
{
    if n <= 0 {
        0
    } else {
        turns_opened(msgs, n - 1) + if opens_turn(msgs, n - 1) {
            1nat
        } else {
            0nat
        }
    }
}

/// The role of the turn that message `m` opens.
pub open spec fn opened_role(m: UnifiedMessage) -> TurnRole {
    if m.role == MessageRole::User {
        TurnRole::User
    } else if m.role == MessageRole::System {
        TurnRole::System
    } else {
        TurnRole::Assistant
    }
}

proof fn lemma_turn_span(msgs: Seq<UnifiedMessage>, s: int, m: int)
    requires
        0 <= s < m <= turn_step(msgs, s),
        turn_step(msgs, s) <= msgs.len(),
        opens_turn(msgs, s),
    ensures
        turns_opened(msgs, m) == turns_opened(msgs, s) + 1,
    decreases m - s,
{
    lemma_tool_run_end(msgs, s + 1);
    if m > s + 1 {
        lemma_turn_span(msgs, s, m - 1);
        assert(msgs[m - 1].role == MessageRole::Tool);
        assert(msgs[m - 2].role != MessageRole::User && msgs[m - 2].role != MessageRole::System);
        assert(!opens_turn(msgs, m - 1));
    }
}

proof fn lemma_turns_opened_upto(msgs: Seq<UnifiedMessage>, turns: Seq<MessageTurn>, starts: Seq<int>, n: int)
    requires
        grouping(msgs, turns, starts),
        0 <= n <= turns.len(),
    ensures
        turns_opened(msgs, starts[n]) == n,
        n < turns.len() ==> opens_turn(msgs, starts[n]),
        0 <= starts[n] <= msgs.len(),
    decreases n,
{
    if n > 0 {
        lemma_turns_opened_upto(msgs, turns, starts, n - 1);
        let s = starts[n - 1];
        assert(0 <= starts[n - 1] < msgs.len());
        lemma_tool_run_end(msgs, s + 1);
        let e = starts[n];
        assert(e == turn_step(msgs, s));
        lemma_turn_span(msgs, s, e);
        if n < turns.len() {
            assert(0 <= starts[n] < msgs.len());
            assert(opens_turn(msgs, e));
        }
    } else {
        if turns.len() > 0 {
            assert(0 <= starts[0] < msgs.len());
        }
    }
}

/// Grouping makes one turn per message that opens one: the first message,
/// every user, system or assistant message, and a tool message that follows
/// a user or system message directly. A user message makes a user turn, a
/// system message a system turn, and every other group an assistant turn.
pub proof fn law_one_turn_per_opening_message(msgs: Seq<UnifiedMessage>, turns: Seq<MessageTurn>, starts: Seq<int>)
    requires
        grouping(msgs, turns, starts),
    ensures
        turns.len() == turns_opened(msgs, msgs.len() as int),
        forall|k: int| 0 <= k < turns.len() ==> opens_turn(msgs, #[trigger] starts[k]) && turns[k].role
            == opened_role(msgs[starts[k]]),
{
    lemma_turns_opened_upto(msgs, turns, starts, turns.len() as int);
    assert forall|k: int| 0 <= k < turns.len() implies opens_turn(msgs, #[trigger] starts[k]) && turns[k].role
        == opened_role(msgs[starts[k]]) by {
        lemma_turns_opened_upto(msgs, turns, starts, k);
        assert(0 <= starts[k] < msgs.len());
        assert(turn_matches(turns[k], msgs, starts[k], starts[k + 1], k as nat));
    }
}

proof fn lemma_latest_completion(msgs: Seq<UnifiedMessage>, i: int, j: int, m: int)
    requires
        0 <= i <= m < j <= msgs.len(),
        msgs[m].completed_at is Some,
        forall|q: int| m < q < j ==> (#[trigger] msgs[q]).completed_at is None,
    ensures
        group_completed(msgs, i, j) == msgs[m].completed_at,
    decreases j - i,
{
    if m < j - 1 {
        assert(msgs[j - 1].completed_at is None);
        lemma_latest_completion(msgs, i, j - 1, m);
    }
}

proof fn lemma_no_completion(msgs: Seq<UnifiedMessage>, i: int, j: int)
    requires
        0 <= i <= j <= msgs.len(),
        forall|q: int| i <= q < j ==> (#[trigger] msgs[q]).completed_at is None,
    ensures
        group_completed(msgs, i, j) is None,
    decreases j - i,
{
    if i < j {
        assert(msgs[j - 1].completed_at is None);
        lemma_no_completion(msgs, i, j - 1);
    }
}

/// An assistant turn is completed when the last of its messages that
/// records a completion time completed: when message `m` of turn `k`'s group
/// has a completion time and no later message of the group has one, the
/// turn's completion time is `m`'s; when none of the group's messages has
/// one, the turn has none.
pub proof fn law_turn_completes_with_its_last_completed_message(
    msgs: Seq<UnifiedMessage>,
    turns: Seq<MessageTurn>,
    starts: Seq<int>,
    k: int,
)
    requires
        grouping(msgs, turns, starts),
        0 <= k < turns.len(),
        turns[k].role == TurnRole::Assistant,
    ensures
        forall|m: int|
            starts[k] <= m < starts[k + 1] && (#[trigger] msgs[m]).completed_at is Some && (forall|q: int|
                m < q < starts[k + 1] ==> (#[trigger] msgs[q]).completed_at is None) ==> turns[k].completed_at
                == msgs[m].completed_at,
        (forall|q: int| starts[k] <= q < starts[k + 1] ==> (#[trigger] msgs[q]).completed_at is None)
            ==> turns[k].completed_at is None,
{
    let s = starts[k];
    assert(0 <= starts[k] < msgs.len());
    let e = starts[k + 1];
    assert(turn_matches(turns[k], msgs, s, e, k as nat));
    assert(e == turn_step(msgs, s));
    lemma_tool_run_end(msgs, s + 1);
    assert(msgs[s].role != MessageRole::User && msgs[s].role != MessageRole::System);
    assert(turns[k].completed_at == group_completed(msgs, s, e));
    assert forall|m: int|
        s <= m < e && (#[trigger] msgs[m]).completed_at is Some && (forall|q: int|
            m < q < e ==> (#[trigger] msgs[q]).completed_at is None) implies turns[k].completed_at
        == msgs[m].completed_at by {
        lemma_latest_completion(msgs, s, e, m);
    }
    if forall|q: int| s <= q < e ==> (#[trigger] msgs[q]).completed_at is None {
        lemma_no_completion(msgs, s, e);
    }
}

} // verus!
