//! Folding the polls of a background shell into the card of the command
//! that started it: a `wait` / `write_stdin` that only collected more output
//! loses its own card, and what it collected is appended to the command's.
use vstd::prelude::*;
use crate::shell::{lookup_poll, PollOrigins};
use crate::text::{chars_of, string_of, trim, trim_end, trim_end_chars};
use crate::transcript::{clone_opt_string, ContentBlock, UnifiedMessage};
use crate::views::{block_view, blocks_view, message_view, messages_view, text_of, BlockView, MessageView};

verus! {

/// The positions `(message, block)` of the blocks of `ms[..m]`, in order.
pub open spec fn flat_upto(ms: Seq<MessageView>, m: int) -> Seq<(int, int)>
    decreases m,
{
    if m <= 0 || m > ms.len() {
        Seq::empty()
    } else {
        flat_upto(ms, m - 1) + Seq::new(ms[m - 1].content.len(), |b: int| (m - 1, b))
    }
}

pub open spec fn flat(ms: Seq<MessageView>) -> Seq<(int, int)> {
    flat_upto(ms, ms.len() as int)
}

pub open spec fn blk(ms: Seq<MessageView>, p: (int, int)) -> BlockView {
    ms[p.0].content[p.1]
}

pub open spec fn result_id(b: BlockView) -> Option<Seq<char>> {
    match b {
        BlockView::ToolResult(Some(id), _, _) => Some(id),
        _ => None,
    }
}

pub open spec fn use_id(b: BlockView) -> Option<Seq<char>> {
    match b {
        BlockView::ToolUse(Some(id), _, _, _, _) => Some(id),
        _ => None,
    }
}

/// The card a result block is recorded to fold into, when it is a poll.
pub open spec fn poll_target(b: BlockView, ps: Seq<(String, String)>) -> Option<Seq<char>> {
    match result_id(b) {
        Some(id) => lookup_poll(ps, id),
        None => None,
    }
}

/// The last of the first `n` positions holding the result of `o` that is
/// not itself a poll: the card polls for `o` fold into.
pub open spec fn origin_before(
    ms: Seq<MessageView>,
    ps: Seq<(String, String)>,
    fl: Seq<(int, int)>,
    o: Seq<char>,
    n: int,
) -> Option<int>
    decreases n,
{
    if n <= 0 || n > fl.len() {
        None
    } else if result_id(blk(ms, fl[n - 1])) == Some(o) && poll_target(blk(ms, fl[n - 1]), ps) is None {
        Some(n - 1)
    } else {
        origin_before(ms, ps, fl, o, n - 1)
    }
}

/// Where the poll at flat position `j` folds into, if it is a poll with a
/// card to fold into.
pub open spec fn origin_of(ms: Seq<MessageView>, ps: Seq<(String, String)>, j: int) -> Option<int> {
    let fl = flat(ms);
    match poll_target(blk(ms, fl[j]), ps) {
        Some(o) => origin_before(ms, ps, fl, o, fl.len() as int),
        None => None,
    }
}

/// The last of the first `n` positions holding the use block of `id`.
pub open spec fn use_before(ms: Seq<MessageView>, fl: Seq<(int, int)>, id: Seq<char>, n: int) -> Option<int>
    decreases n,
{
    if n <= 0 || n > fl.len() {
        None
    } else if use_id(blk(ms, fl[n - 1])) == Some(id) {
        Some(n - 1)
    } else {
        use_before(ms, fl, id, n - 1)
    }
}

/// Whether the fold of the poll at `j` drops the use block at `i`.
pub open spec fn folds_use(ms: Seq<MessageView>, ps: Seq<(String, String)>, j: int, i: int) -> bool {
    let fl = flat(ms);
    origin_of(ms, ps, j) is Some && use_before(
        ms,
        fl,
        result_id(blk(ms, fl[j]))->0,
        fl.len() as int,
    ) == Some(i)
}

pub open spec fn use_dropped(ms: Seq<MessageView>, ps: Seq<(String, String)>, i: int, n: int) -> bool
    decreases n,
{
    if n <= 0 {
        false
    } else {
        use_dropped(ms, ps, i, n - 1) || folds_use(ms, ps, n - 1, i)
    }
}

/// Whether the folds of the first `n` positions drop the block at `i`.
pub open spec fn dropped_upto(ms: Seq<MessageView>, ps: Seq<(String, String)>, i: int, n: int) -> bool {
    (i < n && origin_of(ms, ps, i) is Some) || use_dropped(ms, ps, i, n)
}

pub open spec fn dropped(ms: Seq<MessageView>, ps: Seq<(String, String)>, i: int) -> bool {
    dropped_upto(ms, ps, i, flat(ms).len() as int)
}

/// Trailing line breaks removed.
pub open spec fn strip_newlines(e: Seq<char>) -> Seq<char>
    decreases e.len(),
{
    if e.len() > 0 && e.last() == '\n' {
        strip_newlines(e.drop_last())
    } else {
        e
    }
}

/// A card's output after a poll's collected text is appended: nothing
/// changes for empty text; text is appended on a line of its own to an
/// output that holds anything, and otherwise becomes the output.
pub open spec fn combine(acc: Option<Seq<char>>, c: Seq<char>) -> Option<Seq<char>> {
    if c.len() == 0 {
        acc
    } else {
        match acc {
            Some(e) => if trim(e).len() > 0 {
                Some(strip_newlines(e) + seq!['\n'] + c)
            } else {
                Some(c)
            },
            None => Some(c),
        }
    }
}

pub open spec fn result_output(b: BlockView) -> Option<Seq<char>> {
    match b {
        BlockView::ToolResult(_, out, _) => out,
        _ => None,
    }
}

pub open spec fn result_error(b: BlockView) -> bool {
    match b {
        BlockView::ToolResult(_, _, e) => e,
        _ => false,
    }
}

/// What a poll collected: its output with trailing white space removed.
pub open spec fn collected(b: BlockView) -> Seq<char> {
    match result_output(b) {
        Some(t) => trim_end(t),
        None => Seq::empty(),
    }
}

/// The output of the card at `i` once the polls among the first `n`
/// positions that fold into it are appended, in order.
pub open spec fn acc_output(ms: Seq<MessageView>, ps: Seq<(String, String)>, i: int, n: int) -> Option<Seq<char>>
    decreases n,
{
    let fl = flat(ms);
    if n <= 0 {
        result_output(blk(ms, fl[i]))
    } else if origin_of(ms, ps, n - 1) == Some(i) {
        combine(acc_output(ms, ps, i, n - 1), collected(blk(ms, fl[n - 1])))
    } else {
        acc_output(ms, ps, i, n - 1)
    }
}

/// The error flag of the card at `i`: its own, or that of any poll among the
/// first `n` positions folded into it.
pub open spec fn acc_error(ms: Seq<MessageView>, ps: Seq<(String, String)>, i: int, n: int) -> bool
    decreases n,
{
    let fl = flat(ms);
    if n <= 0 {
        result_error(blk(ms, fl[i]))
    } else {
        acc_error(ms, ps, i, n - 1) || (origin_of(ms, ps, n - 1) == Some(i) && result_error(
            blk(ms, fl[n - 1]),
        ))
    }
}

/// The block at `i` once the polls among the first `n` positions are folded.
pub open spec fn block_at_stage(ms: Seq<MessageView>, ps: Seq<(String, String)>, i: int, n: int) -> BlockView {
    match blk(ms, flat(ms)[i]) {
        BlockView::ToolResult(id, _, _) => BlockView::ToolResult(id, acc_output(ms, ps, i, n), acc_error(ms, ps, i, n)),
        b => b,
    }
}

/// Flat index of the first block of message `mi`.
pub open spec fn row_start(ms: Seq<MessageView>, mi: int) -> int {
    flat_upto(ms, mi).len() as int
}

/// The blocks of message `mi` among its first `b` that stay, folded.
pub open spec fn kept_row(ms: Seq<MessageView>, ps: Seq<(String, String)>, mi: int, b: int) -> Seq<BlockView>
    decreases b,
{
    if b <= 0 {
        Seq::empty()
    } else {
        let i = row_start(ms, mi) + b - 1;
        if dropped(ms, ps, i) {
            kept_row(ms, ps, mi, b - 1)
        } else {
            kept_row(ms, ps, mi, b - 1).push(block_at_stage(ms, ps, i, flat(ms).len() as int))
        }
    }
}

pub open spec fn row_has_drop(ms: Seq<MessageView>, ps: Seq<(String, String)>, mi: int, b: int) -> bool
    decreases b,
{
    if b <= 0 {
        false
    } else {
        row_has_drop(ms, ps, mi, b - 1) || dropped(ms, ps, row_start(ms, mi) + b - 1)
    }
}

/// The first `m` messages after folding: each keeps its blocks that stay,
/// and a message left empty by the folding disappears.
pub open spec fn folded_upto(ms: Seq<MessageView>, ps: Seq<(String, String)>, m: int) -> Seq<MessageView>
    decreases m,
{
    if m <= 0 {
        Seq::empty()
    } else {
        let content = kept_row(ms, ps, m - 1, ms[m - 1].content.len() as int);
        if content.len() > 0 || !row_has_drop(ms, ps, m - 1, ms[m - 1].content.len() as int) {
            folded_upto(ms, ps, m - 1).push(MessageView { content, ..ms[m - 1] })
        } else {
            folded_upto(ms, ps, m - 1)
        }
    }
}

/// The messages after every poll is folded into the card of the command it
/// collects for.
pub open spec fn fold_result(ms: Seq<MessageView>, ps: Seq<(String, String)>) -> Seq<MessageView> {
    if ps.len() == 0 {
        ms
    } else {
        folded_upto(ms, ps, ms.len() as int)
    }
}

pub open spec fn pos_view(v: Seq<(usize, usize)>) -> Seq<(int, int)> {
    v.map_values(|p: (usize, usize)| (p.0 as int, p.1 as int))
}

proof fn lemma_flat_upto(ms: Seq<MessageView>, m: int)
    requires
        0 <= m <= ms.len(),
    ensures
        forall|k: int| 0 <= k < flat_upto(ms, m).len() ==> 0 <= (#[trigger] flat_upto(ms, m)[k]).0 < m
            && 0 <= flat_upto(ms, m)[k].1 < ms[flat_upto(ms, m)[k].0].content.len(),
    decreases m,
{
    if m > 0 {
        lemma_flat_upto(ms, m - 1);
        let prev = flat_upto(ms, m - 1);
        let r = Seq::new(ms[m - 1].content.len(), |b: int| (m - 1, b));
        assert(flat_upto(ms, m) == prev + r);
        assert forall|k: int| 0 <= k < flat_upto(ms, m).len() implies 0 <= (#[trigger] flat_upto(ms, m)[k]).0 < m
            && 0 <= flat_upto(ms, m)[k].1 < ms[flat_upto(ms, m)[k].0].content.len() by {
            if k < prev.len() {
                assert(flat_upto(ms, m)[k] == prev[k]);
            } else {
                assert(flat_upto(ms, m)[k] == r[k - prev.len()]);
            }
        }
    }
}

/// The flat index of block `b` of message `mi` is `row_start(mi) + b`.
proof fn lemma_flat_at(ms: Seq<MessageView>, m: int, mi: int, b: int)
    requires
        0 <= mi < m <= ms.len(),
        0 <= b < ms[mi].content.len(),
    ensures
        row_start(ms, mi) + b < flat_upto(ms, m).len(),
        flat_upto(ms, m)[row_start(ms, mi) + b] == (mi, b),
    decreases m,
{
    let prev = flat_upto(ms, m - 1);
    let r = Seq::new(ms[m - 1].content.len(), |k: int| (m - 1, k));
    assert(flat_upto(ms, m) == prev + r);
    if mi == m - 1 {
        assert(row_start(ms, mi) == prev.len());
        assert(flat_upto(ms, m)[row_start(ms, mi) + b] == r[b]);
    } else {
        lemma_flat_at(ms, m - 1, mi, b);
        assert(flat_upto(ms, m)[row_start(ms, mi) + b] == prev[row_start(ms, mi) + b]);
    }
}

proof fn lemma_row_start_next(ms: Seq<MessageView>, mi: int)
    requires
        0 <= mi < ms.len(),
    ensures
        row_start(ms, mi + 1) == row_start(ms, mi) + ms[mi].content.len(),
        row_start(ms, mi + 1) <= flat(ms).len(),
    decreases ms.len() - mi,
{
    assert(flat_upto(ms, mi + 1) == flat_upto(ms, mi) + Seq::new(ms[mi].content.len(), |k: int| (mi, k)));
    if mi + 1 < ms.len() {
        lemma_row_start_next(ms, mi + 1);
    }
}

proof fn lemma_flat(ms: Seq<MessageView>)
    ensures
        forall|k: int| 0 <= k < flat(ms).len() ==> 0 <= (#[trigger] flat(ms)[k]).0 < ms.len() && 0
            <= flat(ms)[k].1 < ms[flat(ms)[k].0].content.len(),
        row_start(ms, ms.len() as int) == flat(ms).len(),
        row_start(ms, 0) == 0,
{
    lemma_flat_upto(ms, ms.len() as int);
}

fn flat_positions(messages: &Vec<UnifiedMessage>) -> (r: Vec<(usize, usize)>)
    ensures
        pos_view(r@) == flat(messages_view(messages@)),
{
    let ghost ms = messages_view(messages@);
    let mut out: Vec<(usize, usize)> = Vec::new();
    let mut mi: usize = 0;
    while mi < messages.len()
        invariant
            mi <= messages@.len(),
            ms == messages_view(messages@),
            pos_view(out@) == flat_upto(ms, mi as int),
        decreases messages.len() - mi,
    {
        let n = messages[mi].content.len();
        let ghost base = out@;
        assert(ms[mi as int].content.len() == n);
        let mut b: usize = 0;
        while b < n
            invariant
                b <= n,
                mi < messages@.len(),
                n == ms[mi as int].content.len(),
                ms == messages_view(messages@),
                pos_view(base) == flat_upto(ms, mi as int),
                out@.len() == base.len() + b,
                forall|k: int| 0 <= k < base.len() ==> out@[k] == base[k],
                forall|k: int| 0 <= k < b ==> (#[trigger] out@[base.len() + k]) == (mi, k as usize),
            decreases n - b,
        {
            out.push((mi, b));
            b += 1;
        }
        proof {
            let fu = flat_upto(ms, mi as int);
            let r = Seq::new(n as nat, |k: int| (mi as int, k));
            assert(flat_upto(ms, mi + 1) == fu + r);
            assert forall|k: int| 0 <= k < out@.len() implies #[trigger] pos_view(out@)[k] == (fu + r)[k] by {
                if k < base.len() {
                    assert(out@[k] == base[k]);
                    assert(pos_view(base)[k] == fu[k]);
                } else {
                    assert(out@[base.len() + (k - base.len())] == (mi, (k - base.len()) as usize));
                }
            }
            assert(pos_view(out@) =~= fu + r);
        }
        mi += 1;
    }
    out
}

proof fn lemma_origin_before(ms: Seq<MessageView>, ps: Seq<(String, String)>, fl: Seq<(int, int)>, o: Seq<char>, n: int)
    ensures
        origin_before(ms, ps, fl, o, n) matches Some(k) ==> 0 <= k < n && k < fl.len() && result_id(blk(ms, fl[k]))
            == Some(o) && poll_target(blk(ms, fl[k]), ps) is None,
    decreases n,
{
    if n > 0 && n <= fl.len() {
        lemma_origin_before(ms, ps, fl, o, n - 1);
    }
}

proof fn lemma_use_before(ms: Seq<MessageView>, fl: Seq<(int, int)>, id: Seq<char>, n: int)
    ensures
        use_before(ms, fl, id, n) matches Some(k) ==> 0 <= k < n && k < fl.len() && use_id(blk(ms, fl[k])) == Some(id),
    decreases n,
{
    if n > 0 && n <= fl.len() {
        lemma_use_before(ms, fl, id, n - 1);
    }
}

/// A poll's own block is never folded into.
proof fn lemma_poll_block_unchanged(ms: Seq<MessageView>, ps: Seq<(String, String)>, j: int, n: int)
    requires
        0 <= j < flat(ms).len(),
        poll_target(blk(ms, flat(ms)[j]), ps) is Some,
    ensures
        acc_output(ms, ps, j, n) == result_output(blk(ms, flat(ms)[j])),
        acc_error(ms, ps, j, n) == result_error(blk(ms, flat(ms)[j])),
    decreases n,
{
    if n > 0 {
        lemma_poll_block_unchanged(ms, ps, j, n - 1);
        let fl = flat(ms);
        match poll_target(blk(ms, fl[n - 1]), ps) {
            Some(o) => lemma_origin_before(ms, ps, fl, o, fl.len() as int),
            None => {},
        }
    }
}

proof fn lemma_stage_zero(ms: Seq<MessageView>, ps: Seq<(String, String)>, i: int)
    ensures
        block_at_stage(ms, ps, i, 0) == blk(ms, flat(ms)[i]),
{
}

/// `cur` is `ms` with the polls among the first `n` positions folded.
pub open spec fn at_stage(cur: Seq<MessageView>, ms: Seq<MessageView>, ps: Seq<(String, String)>, n: int) -> bool {
    let fl = flat(ms);
    &&& cur.len() == ms.len()
    &&& forall|mi: int| 0 <= mi < ms.len() ==> (#[trigger] cur[mi]) == MessageView { content: cur[mi].content, ..ms[mi] }
    &&& forall|mi: int| 0 <= mi < ms.len() ==> (#[trigger] cur[mi]).content.len() == ms[mi].content.len()
    &&& forall|i: int| 0 <= i < fl.len() ==> #[trigger] blk(cur, fl[i]) == block_at_stage(ms, ps, i, n)
}

fn result_id_ref(b: &ContentBlock) -> (r: Option<&String>)
    ensures
        match r {
            Some(id) => result_id(block_view(*b)) == Some(id@),
            None => result_id(block_view(*b)) is None,
        },
{
    match b {
        ContentBlock::ToolResult { tool_use_id: Some(id), .. } => Some(id),
        _ => None,
    }
}

fn use_id_ref(b: &ContentBlock) -> (r: Option<&String>)
    ensures
        match r {
            Some(id) => use_id(block_view(*b)) == Some(id@),
            None => use_id(block_view(*b)) is None,
        },
{
    match b {
        ContentBlock::ToolUse { tool_use_id: Some(id), .. } => Some(id),
        _ => None,
    }
}

fn target_of(b: &ContentBlock, polls: &PollOrigins) -> (r: Option<String>)
    ensures
        match r {
            Some(o) => poll_target(block_view(*b), polls.entries@) == Some(o@),
            None => poll_target(block_view(*b), polls.entries@) is None,
        },
{
    match result_id_ref(b) {
        Some(id) => match polls.get(id.as_str()) {
            Some(o) => Some(o.clone()),
            None => None,
        },
        None => None,
    }
}

proof fn lemma_stage_ids(cur: Seq<MessageView>, ms: Seq<MessageView>, ps: Seq<(String, String)>, n: int, i: int)
    requires
        at_stage(cur, ms, ps, n),
        0 <= i < flat(ms).len(),
    ensures
        result_id(blk(cur, flat(ms)[i])) == result_id(blk(ms, flat(ms)[i])),
        use_id(blk(cur, flat(ms)[i])) == use_id(blk(ms, flat(ms)[i])),
{
    assert(blk(cur, flat(ms)[i]) == block_at_stage(ms, ps, i, n));
}

fn last_origin_index(
    messages: &Vec<UnifiedMessage>,
    fl: &Vec<(usize, usize)>,
    polls: &PollOrigins,
    o: &str,
    Ghost(ms): Ghost<Seq<MessageView>>,
    Ghost(n): Ghost<int>,
) -> (r: Option<usize>)
    requires
        pos_view(fl@) == flat(ms),
        at_stage(messages_view(messages@), ms, polls.entries@, n),
    ensures
        match r {
            Some(k) => origin_before(ms, polls.entries@, flat(ms), o@, fl@.len() as int) == Some(k as int),
            None => origin_before(ms, polls.entries@, flat(ms), o@, fl@.len() as int) is None,
        },
{
    let ghost ps = polls.entries@;
    let ghost cur = messages_view(messages@);
    proof {
        lemma_flat(ms);
    }
    let mut k = fl.len();
    while k > 0
        invariant
            k <= fl@.len(),
            pos_view(fl@) == flat(ms),
            cur == messages_view(messages@),
            ps == polls.entries@,
            at_stage(cur, ms, ps, n),
            forall|q: int| 0 <= q < flat(ms).len() ==> 0 <= (#[trigger] flat(ms)[q]).0 < ms.len() && 0
                <= flat(ms)[q].1 < ms[flat(ms)[q].0].content.len(),
            origin_before(ms, ps, flat(ms), o@, fl@.len() as int) == origin_before(ms, ps, flat(ms), o@, k as int),
        decreases k,
    {
        let (mi, bi) = fl[k - 1];
        proof {
            assert(pos_view(fl@)[k - 1] == (mi as int, bi as int));
            lemma_stage_ids(cur, ms, ps, n, k - 1);
            assert(cur[mi as int].content.len() == ms[mi as int].content.len());
            assert(cur[mi as int] == message_view(messages@[mi as int]));
            assert(blk(cur, flat(ms)[k - 1]) == block_view(messages@[mi as int].content@[bi as int]));
        }
        let b = &messages[mi].content[bi];
        let hit = match result_id_ref(b) {
            Some(id) => crate::text::str_eq(id.as_str(), o) && target_of(b, polls).is_none(),
            None => false,
        };
        if hit {
            return Some(k - 1);
        }
        k -= 1;
    }
    None
}

fn last_use_index(
    messages: &Vec<UnifiedMessage>,
    fl: &Vec<(usize, usize)>,
    id: &str,
    Ghost(ms): Ghost<Seq<MessageView>>,
    Ghost(ps): Ghost<Seq<(String, String)>>,
    Ghost(n): Ghost<int>,
) -> (r: Option<usize>)
    requires
        pos_view(fl@) == flat(ms),
        at_stage(messages_view(messages@), ms, ps, n),
    ensures
        match r {
            Some(k) => use_before(ms, flat(ms), id@, fl@.len() as int) == Some(k as int),
            None => use_before(ms, flat(ms), id@, fl@.len() as int) is None,
        },
{
    let ghost cur = messages_view(messages@);
    proof {
        lemma_flat(ms);
    }
    let mut k = fl.len();
    while k > 0
        invariant
            k <= fl@.len(),
            pos_view(fl@) == flat(ms),
            cur == messages_view(messages@),
            at_stage(cur, ms, ps, n),
            forall|q: int| 0 <= q < flat(ms).len() ==> 0 <= (#[trigger] flat(ms)[q]).0 < ms.len() && 0
                <= flat(ms)[q].1 < ms[flat(ms)[q].0].content.len(),
            use_before(ms, flat(ms), id@, fl@.len() as int) == use_before(ms, flat(ms), id@, k as int),
        decreases k,
    {
        let (mi, bi) = fl[k - 1];
        proof {
            assert(pos_view(fl@)[k - 1] == (mi as int, bi as int));
            lemma_stage_ids(cur, ms, ps, n, k - 1);
            assert(cur[mi as int].content.len() == ms[mi as int].content.len());
            assert(cur[mi as int] == message_view(messages@[mi as int]));
            assert(blk(cur, flat(ms)[k - 1]) == block_view(messages@[mi as int].content@[bi as int]));
        }
        let hit = match use_id_ref(&messages[mi].content[bi]) {
            Some(u) => crate::text::str_eq(u.as_str(), id),
            None => false,
        };
        if hit {
            return Some(k - 1);
        }
        k -= 1;
    }
    None
}

fn strip_newlines_chars(v: &Vec<char>) -> (r: Vec<char>)
    ensures
        r@ == strip_newlines(v@),
{
    let mut n = v.len();
    proof {
        assert(v@.subrange(0, n as int) =~= v@);
    }
    while n > 0 && v[n - 1] == '\n'
        invariant
            n <= v@.len(),
            strip_newlines(v@) == strip_newlines(v@.subrange(0, n as int)),
        decreases n,
    {
        proof {
            assert(v@.subrange(0, n as int).drop_last() =~= v@.subrange(0, n - 1));
        }
        n -= 1;
    }
    proof {
        assert(v@.subrange(0, 0) =~= Seq::<char>::empty());
    }
    crate::text::slice_chars(v.as_slice(), 0, n)
}

fn combined_output(existing: Option<String>, c: &Vec<char>) -> (r: Option<String>)
    ensures
        text_of(r) == combine(text_of(existing), c@),
{
    if c.len() == 0 {
        return existing;
    }
    match existing {
        Some(e) => {
            let ev = chars_of(e.as_str());
            let t = crate::text::trim_chars(ev.as_slice());
            if t.len() > 0 {
                let mut out = strip_newlines_chars(&ev);
                out.push('\n');
                let mut rest = crate::text::slice_chars(c.as_slice(), 0, c.len());
                proof {
                    assert(c@.subrange(0, c@.len() as int) =~= c@);
                }
                out.append(&mut rest);
                Some(string_of(out.as_slice()))
            } else {
                Some(string_of(c.as_slice()))
            }
        },
        None => Some(string_of(c.as_slice())),
    }
}

/// The block an origin becomes once a poll's text is appended.
pub open spec fn folded_block(b: BlockView, c: Seq<char>, err: bool) -> BlockView {
    match b {
        BlockView::ToolResult(id, out, e) => BlockView::ToolResult(id, combine(out, c), e || err),
        _ => b,
    }
}

fn apply_fold(messages: &mut Vec<UnifiedMessage>, mi: usize, bi: usize, c: &Vec<char>, err: bool)
    requires
        mi < old(messages)@.len(),
        bi < old(messages)@[mi as int].content@.len(),
    ensures
        messages_view(final(messages)@) == messages_view(old(messages)@).update(
            mi as int,
            MessageView {
                content: messages_view(old(messages)@)[mi as int].content.update(
                    bi as int,
                    folded_block(messages_view(old(messages)@)[mi as int].content[bi as int], c@, err),
                ),
                ..messages_view(old(messages)@)[mi as int]
            },
        ),
{
    let ghost before = messages@;
    let mut m = messages.remove(mi);
    let ghost m0 = m;
    let b = m.content.remove(bi);
    let ghost b0 = b;
    let nb = match b {
        ContentBlock::ToolResult { tool_use_id, output_preview, is_error } => ContentBlock::ToolResult {
            tool_use_id,
            output_preview: combined_output(output_preview, c),
            is_error: is_error || err,
        },
        other => other,
    };
    assert(block_view(nb) == folded_block(block_view(b0), c@, err));
    m.content.insert(bi, nb);
    proof {
        assert(blocks_view(m.content@) =~= blocks_view(m0.content@).update(bi as int, block_view(nb)));
    }
    messages.insert(mi, m);
    proof {
        assert(messages@ =~= before.update(mi as int, m));
        assert(messages_view(messages@) =~= messages_view(before).update(mi as int, message_view(m)));
    }
}

/// Each flat index names its own block.
proof fn lemma_flat_inverse(ms: Seq<MessageView>, m: int, k: int)
    requires
        0 <= m <= ms.len(),
        0 <= k < flat_upto(ms, m).len(),
    ensures
        row_start(ms, flat_upto(ms, m)[k].0) + flat_upto(ms, m)[k].1 == k,
    decreases m,
{
    let prev = flat_upto(ms, m - 1);
    let r = Seq::new(ms[m - 1].content.len(), |b: int| (m - 1, b));
    assert(flat_upto(ms, m) == prev + r);
    if k < prev.len() {
        lemma_flat_inverse(ms, m - 1, k);
        assert(flat_upto(ms, m)[k] == prev[k]);
    } else {
        assert(flat_upto(ms, m)[k] == r[k - prev.len()]);
        assert(row_start(ms, m - 1) == prev.len());
    }
}

proof fn lemma_flat_distinct(ms: Seq<MessageView>, i: int, k: int)
    requires
        0 <= i < flat(ms).len(),
        0 <= k < flat(ms).len(),
        i != k,
    ensures
        flat(ms)[i] != flat(ms)[k],
{
    lemma_flat_inverse(ms, ms.len() as int, i);
    lemma_flat_inverse(ms, ms.len() as int, k);
}

proof fn lemma_stage_step(
    ms: Seq<MessageView>,
    ps: Seq<(String, String)>,
    j: int,
    i: int,
)
    requires
        0 <= j < flat(ms).len(),
        0 <= i < flat(ms).len(),
    ensures
        origin_of(ms, ps, j) != Some(i) ==> block_at_stage(ms, ps, i, j + 1) == block_at_stage(ms, ps, i, j),
        origin_of(ms, ps, j) == Some(i) ==> block_at_stage(ms, ps, i, j + 1) == folded_block(
            block_at_stage(ms, ps, i, j),
            collected(blk(ms, flat(ms)[j])),
            result_error(blk(ms, flat(ms)[j])),
        ),
{
}

/// Drops every card that only collected more of an earlier command's
/// output, appending what it collected to that command's card; a message
/// left empty by it disappears. A poll whose command's card is gone keeps
/// its own card.
pub fn fold_shell_session_polls(messages: &mut Vec<UnifiedMessage>, poll_origins: &PollOrigins)
    ensures
        messages_view(final(messages)@) == fold_result(messages_view(old(messages)@), poll_origins.entries@),
{
    if poll_origins.entries.len() == 0 {
        return;
    }
    let ghost ms = messages_view(messages@);
    let ghost ps = poll_origins.entries@;
    let fl = flat_positions(messages);
    proof {
        lemma_flat(ms);
    }
    let total = fl.len();
    let mut drop: Vec<bool> = Vec::new();
    let mut k: usize = 0;
    while k < total
        invariant
            k <= total,
            drop@.len() == k,
            forall|i: int| 0 <= i < k ==> drop@[i] == false,
        decreases total - k,
    {
        drop.push(false);
        k += 1;
    }
    proof {
        assert forall|i: int| 0 <= i < flat(ms).len() implies #[trigger] blk(messages_view(messages@), flat(ms)[i])
            == block_at_stage(ms, ps, i, 0) by {
            lemma_stage_zero(ms, ps, i);
        }
        assert forall|mi: int| 0 <= mi < ms.len() implies (#[trigger] messages_view(messages@)[mi]) == MessageView {
            content: messages_view(messages@)[mi].content,
            ..ms[mi]
        } by {}
    }
    let mut j: usize = 0;
    while j < total
        invariant
            j <= total,
            total == fl@.len(),
            pos_view(fl@) == flat(ms),
            ps == poll_origins.entries@,
            ps.len() > 0,
            at_stage(messages_view(messages@), ms, ps, j as int),
            drop@.len() == total,
            forall|i: int| 0 <= i < total ==> drop@[i] == dropped_upto(ms, ps, i, j as int),
            forall|q: int| 0 <= q < flat(ms).len() ==> 0 <= (#[trigger] flat(ms)[q]).0 < ms.len() && 0
                <= flat(ms)[q].1 < ms[flat(ms)[q].0].content.len(),
        decreases total - j,
    {
        let ghost cur = messages_view(messages@);
        let (mi, bi) = fl[j];
        proof {
            assert(pos_view(fl@)[j as int] == (mi as int, bi as int));
            assert(cur[mi as int].content.len() == ms[mi as int].content.len());
            assert(cur[mi as int] == message_view(messages@[mi as int]));
            assert(blk(cur, flat(ms)[j as int]) == block_view(messages@[mi as int].content@[bi as int]));
            lemma_stage_ids(cur, ms, ps, j as int, j as int);
        }
        let target = target_of(&messages[mi].content[bi], poll_origins);
        let mut origin_index: Option<usize> = None;
        if let Some(o) = &target {
            origin_index = last_origin_index(messages, &fl, poll_origins, o.as_str(), Ghost(ms), Ghost(j as int));
        }
        proof {
            assert(origin_of(ms, ps, j as int) == match origin_index {
                Some(oi) => Some(oi as int),
                None => None,
            });
        }
        if let Some(oi) = origin_index {
            let ghost pj = blk(ms, flat(ms)[j as int]);
            proof {
                lemma_poll_block_unchanged(ms, ps, j as int, j as int);
                lemma_origin_before(ms, ps, flat(ms), poll_target(pj, ps)->0, flat(ms).len() as int);
            }
            let (pid, c, err) = match &messages[mi].content[bi] {
                ContentBlock::ToolResult { tool_use_id: Some(id), output_preview, is_error } => {
                    let c = match output_preview {
                        Some(t) => trim_end_chars(chars_of(t.as_str()).as_slice()),
                        None => Vec::new(),
                    };
                    (id.clone(), c, *is_error)
                },
                _ => {
                    proof {
                        assert(false);
                    }
                    (String::new(), Vec::new(), false)
                },
            };
            assert(c@ == collected(pj));
            assert(err == result_error(pj));
            assert(pid@ == result_id(pj)->0);
            let use_index = last_use_index(messages, &fl, pid.as_str(), Ghost(ms), Ghost(ps), Ghost(j as int));
            let (omi, obi) = fl[oi];
            proof {
                assert(pos_view(fl@)[oi as int] == (omi as int, obi as int));
                assert(cur[omi as int].content.len() == ms[omi as int].content.len());
                assert(cur[omi as int] == message_view(messages@[omi as int]));
            }
            apply_fold(messages, omi, obi, &c, err);
            proof {
                let now = messages_view(messages@);
                assert forall|i: int| 0 <= i < flat(ms).len() implies #[trigger] blk(now, flat(ms)[i])
                    == block_at_stage(ms, ps, i, j + 1) by {
                    lemma_stage_step(ms, ps, j as int, i);
                    if i != oi {
                        lemma_flat_distinct(ms, i, oi as int);
                        assert(blk(cur, flat(ms)[i]) == block_at_stage(ms, ps, i, j as int));
                        if flat(ms)[i].0 == omi as int {
                            assert(flat(ms)[i].1 != obi as int);
                        }
                    }
                }
                assert forall|m: int| 0 <= m < ms.len() implies (#[trigger] now[m]) == MessageView {
                    content: now[m].content,
                    ..ms[m]
                } by {
                    assert(cur[m] == MessageView { content: cur[m].content, ..ms[m] });
                }
                assert forall|m: int| 0 <= m < ms.len() implies (#[trigger] now[m]).content.len() == ms[m].content.len() by {
                    assert(cur[m].content.len() == ms[m].content.len());
                }
            }
            drop.set(j, true);
            if let Some(ui) = use_index {
                proof {
                    lemma_use_before(ms, flat(ms), pid@, flat(ms).len() as int);
                }
                drop.set(ui, true);
            }
            proof {
                assert forall|i: int| 0 <= i < total implies drop@[i] == dropped_upto(ms, ps, i, j + 1) by {
                    assert(folds_use(ms, ps, j as int, i) == (use_index == Some(i as usize)));
                }
            }
        } else {
            proof {
                let now = messages_view(messages@);
                assert forall|i: int| 0 <= i < flat(ms).len() implies #[trigger] blk(now, flat(ms)[i])
                    == block_at_stage(ms, ps, i, j + 1) by {
                    lemma_stage_step(ms, ps, j as int, i);
                }
                assert forall|i: int| 0 <= i < total implies drop@[i] == dropped_upto(ms, ps, i, j + 1) by {
                    assert(!folds_use(ms, ps, j as int, i));
                }
            }
        }
        j += 1;
    }
    let ghost cur = messages_view(messages@);
    let mut out: Vec<UnifiedMessage> = Vec::new();
    let mut start: usize = 0;
    let mut mi: usize = 0;
    while mi < messages.len()
        invariant
            mi <= messages@.len(),
            cur == messages_view(messages@),
            messages@.len() == ms.len(),
            total == fl@.len(),
            total == flat(ms).len(),
            ps.len() > 0,
            at_stage(cur, ms, ps, total as int),
            drop@.len() == total,
            forall|i: int| 0 <= i < total ==> drop@[i] == dropped(ms, ps, i),
            start == row_start(ms, mi as int),
            row_start(ms, ms.len() as int) == flat(ms).len(),
            messages_view(out@) == folded_upto(ms, ps, mi as int),
        decreases messages.len() - mi,
    {
        let n = messages[mi].content.len();
        proof {
            lemma_row_start_next(ms, mi as int);
            assert(cur[mi as int] == message_view(messages@[mi as int]));
            assert(n == ms[mi as int].content.len());
        }
        let mut content: Vec<ContentBlock> = Vec::new();
        let mut had_drop = false;
        let mut b: usize = 0;
        while b < n
            invariant
                b <= n,
                mi < messages@.len(),
                n == ms[mi as int].content.len(),
                n == messages@[mi as int].content@.len(),
                cur == messages_view(messages@),
                messages@.len() == ms.len(),
                at_stage(cur, ms, ps, total as int),
                drop@.len() == total,
                total == flat(ms).len(),
                forall|i: int| 0 <= i < total ==> drop@[i] == dropped(ms, ps, i),
                start == row_start(ms, mi as int),
                start + n <= total,
                blocks_view(content@) == kept_row(ms, ps, mi as int, b as int),
                had_drop == row_has_drop(ms, ps, mi as int, b as int),
            decreases n - b,
        {
            let i = start + b;
            proof {
                lemma_flat_at(ms, ms.len() as int, mi as int, b as int);
                assert(blk(cur, flat(ms)[i as int]) == block_at_stage(ms, ps, i as int, total as int));
                assert(cur[mi as int] == message_view(messages@[mi as int]));
            }
            if drop[i] {
                had_drop = true;
            } else {
                let copy = messages[mi].content[b].duplicate();
                let ghost before = content@;
                content.push(copy);
                proof {
                    assert(blocks_view(content@) =~= blocks_view(before).push(block_view(copy)));
                }
            }
            b += 1;
        }
        if content.len() > 0 || !had_drop {
            let m = &messages[mi];
            let kept = UnifiedMessage {
                id: m.id.clone(),
                role: m.role,
                content,
                timestamp: m.timestamp,
                usage: m.usage,
                duration_ms: m.duration_ms,
                model: clone_opt_string(&m.model),
                completed_at: m.completed_at,
            };
            let ghost before = out@;
            out.push(kept);
            proof {
                assert(cur[mi as int] == MessageView { content: cur[mi as int].content, ..ms[mi as int] });
                assert(messages_view(out@) =~= messages_view(before).push(message_view(kept)));
            }
        }
        start = start + n;
        mi += 1;
    }
    *messages = out;
}

proof fn lemma_folded_upto_len(ms: Seq<MessageView>, ps: Seq<(String, String)>, m: int)
    ensures
        folded_upto(ms, ps, m).len() <= if m < 0 { 0 } else { m },
    decreases m,
{
    if m > 0 {
        lemma_folded_upto_len(ms, ps, m - 1);
    }
}

/// Folding only ever removes cards: the folded transcript has no more
/// messages than the one it was folded from, and with no poll recorded it
/// is that transcript unchanged.
pub proof fn law_folding_never_adds_messages(ms: Seq<MessageView>, ps: Seq<(String, String)>)
    ensures
        fold_result(ms, ps).len() <= ms.len(),
        ps.len() == 0 ==> fold_result(ms, ps) == ms,
{
    lemma_folded_upto_len(ms, ps, ms.len() as int);
}

/// No recorded poll has a card to fold into.
pub open spec fn no_fold(ms: Seq<MessageView>, ps: Seq<(String, String)>) -> bool {
    forall|j: int| 0 <= j < flat(ms).len() ==> #[trigger] origin_of(ms, ps, j) is None
}

proof fn lemma_no_fold_block(ms: Seq<MessageView>, ps: Seq<(String, String)>, i: int, n: int)
    requires
        no_fold(ms, ps),
        0 <= n <= flat(ms).len(),
    ensures
        acc_output(ms, ps, i, n) == result_output(blk(ms, flat(ms)[i])),
        acc_error(ms, ps, i, n) == result_error(blk(ms, flat(ms)[i])),
        !use_dropped(ms, ps, i, n),
    decreases n,
{
    if n > 0 {
        lemma_no_fold_block(ms, ps, i, n - 1);
        assert(origin_of(ms, ps, n - 1) is None);
    }
}

proof fn lemma_no_fold_row(ms: Seq<MessageView>, ps: Seq<(String, String)>, mi: int, b: int)
    requires
        no_fold(ms, ps),
        0 <= mi < ms.len(),
        0 <= b <= ms[mi].content.len(),
    ensures
        kept_row(ms, ps, mi, b) == ms[mi].content.take(b),
        !row_has_drop(ms, ps, mi, b),
    decreases b,
{
    if b > 0 {
        lemma_no_fold_row(ms, ps, mi, b - 1);
        let i = row_start(ms, mi) + b - 1;
        lemma_flat_at(ms, ms.len() as int, mi, b - 1);
        let n = flat(ms).len() as int;
        assert(origin_of(ms, ps, i) is None);
        lemma_no_fold_block(ms, ps, i, n);
        assert(!dropped(ms, ps, i));
        assert(blk(ms, flat(ms)[i]) == ms[mi].content[b - 1]);
        assert(block_at_stage(ms, ps, i, n) == ms[mi].content[b - 1]);
        assert(ms[mi].content.take(b) =~= ms[mi].content.take(b - 1).push(ms[mi].content[b - 1]));
    }
}

proof fn lemma_no_fold_upto(ms: Seq<MessageView>, ps: Seq<(String, String)>, m: int)
    requires
        no_fold(ms, ps),
        0 <= m <= ms.len(),
    ensures
        folded_upto(ms, ps, m) == ms.take(m),
    decreases m,
{
    if m > 0 {
        lemma_no_fold_upto(ms, ps, m - 1);
        let c = ms[m - 1].content;
        lemma_no_fold_row(ms, ps, m - 1, c.len() as int);
        assert(c.take(c.len() as int) =~= c);
        assert(MessageView { content: c, ..ms[m - 1] } == ms[m - 1]);
        assert(ms.take(m) =~= ms.take(m - 1).push(ms[m - 1]));
    } else {
        assert(ms.take(0) =~= Seq::<MessageView>::empty());
    }
}

/// Folding leaves the transcript as it is when no recorded poll has a card
/// to fold into: a poll whose command's card is gone keeps its own card and
/// output, and nothing else moves.
pub proof fn law_nothing_to_fold_changes_nothing(ms: Seq<MessageView>, ps: Seq<(String, String)>)
    requires
        no_fold(ms, ps),
    ensures
        fold_result(ms, ps) == ms,
{
    if ps.len() > 0 {
        lemma_no_fold_upto(ms, ps, ms.len() as int);
        assert(ms.take(ms.len() as int) =~= ms);
    }
}

} // verus!
