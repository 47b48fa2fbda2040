//! Token accounting for Codex transcripts: reading usage payloads, turning
//! the session's cumulative counter into per-round spend, and making the
//! turns account for every token the transcript reported.
use vstd::prelude::*;
use crate::json::Json;
use crate::transcript::{MessageTurn, SessionStats, TurnRole, TurnUsage};

verus! {

pub open spec fn sat_add(a: u64, b: u64) -> u64 {
    if a + b > u64::MAX {
        u64::MAX
    } else {
        (a + b) as u64
    }
}

pub open spec fn sat_sub(a: u64, b: u64) -> u64 {
    if a >= b {
        (a - b) as u64
    } else {
        0
    }
}

/// Field `f` of a usage: 0 input, 1 output, 2 cache creation, 3 cache read.
pub open spec fn field(u: TurnUsage, f: int) -> u64 {
    if f == 0 {
        u.input_tokens
    } else if f == 1 {
        u.output_tokens
    } else if f == 2 {
        u.cache_creation_input_tokens
    } else {
        u.cache_read_input_tokens
    }
}

pub open spec fn zero_usage() -> TurnUsage {
    TurnUsage {
        input_tokens: 0,
        output_tokens: 0,
        cache_creation_input_tokens: 0,
        cache_read_input_tokens: 0,
    }
}

pub open spec fn is_zero(u: TurnUsage) -> bool {
    u == zero_usage()
}

/// Field-wise saturating sum.
pub open spec fn usage_add(a: TurnUsage, b: TurnUsage) -> TurnUsage {
    TurnUsage {
        input_tokens: sat_add(a.input_tokens, b.input_tokens),
        output_tokens: sat_add(a.output_tokens, b.output_tokens),
        cache_creation_input_tokens: sat_add(
            a.cache_creation_input_tokens,
            b.cache_creation_input_tokens,
        ),
        cache_read_input_tokens: sat_add(a.cache_read_input_tokens, b.cache_read_input_tokens),
    }
}

/// Field-wise saturating difference.
pub open spec fn usage_sub(a: TurnUsage, b: TurnUsage) -> TurnUsage {
    TurnUsage {
        input_tokens: sat_sub(a.input_tokens, b.input_tokens),
        output_tokens: sat_sub(a.output_tokens, b.output_tokens),
        cache_creation_input_tokens: sat_sub(
            a.cache_creation_input_tokens,
            b.cache_creation_input_tokens,
        ),
        cache_read_input_tokens: sat_sub(a.cache_read_input_tokens, b.cache_read_input_tokens),
    }
}

/// All four counters added up, saturating.
pub open spec fn grand_total(u: TurnUsage) -> u64 {
    sat_add(
        sat_add(sat_add(u.input_tokens, u.output_tokens), u.cache_creation_input_tokens),
        u.cache_read_input_tokens,
    )
}

/// What one model round-trip added: the rise of the cumulative counter, or the
/// whole counter when there is no earlier reading or it moved backwards.
pub open spec fn round_usage(previous: Option<TurnUsage>, total: TurnUsage) -> TurnUsage {
    match previous {
        Some(p) => if grand_total(p) <= grand_total(total) {
            usage_sub(total, p)
        } else {
            total
        },
        None => total,
    }
}

fn add_u64_saturating(a: u64, b: u64) -> (r: u64)
    ensures
        r == sat_add(a, b),
{
    if a > u64::MAX - b {
        u64::MAX
    } else {
        a + b
    }
}

fn sub_u64_saturating(a: u64, b: u64) -> (r: u64)
    ensures
        r == sat_sub(a, b),
{
    if a >= b {
        a - b
    } else {
        0
    }
}

pub fn codex_usage_is_zero(usage: &TurnUsage) -> (r: bool)
    ensures
        r == is_zero(*usage),
{
    usage.input_tokens == 0 && usage.output_tokens == 0 && usage.cache_creation_input_tokens == 0
        && usage.cache_read_input_tokens == 0
}

pub fn codex_usage_add(base: &TurnUsage, extra: &TurnUsage) -> (r: TurnUsage)
    ensures
        r == usage_add(*base, *extra),
{
    TurnUsage {
        input_tokens: add_u64_saturating(base.input_tokens, extra.input_tokens),
        output_tokens: add_u64_saturating(base.output_tokens, extra.output_tokens),
        cache_creation_input_tokens: add_u64_saturating(
            base.cache_creation_input_tokens,
            extra.cache_creation_input_tokens,
        ),
        cache_read_input_tokens: add_u64_saturating(
            base.cache_read_input_tokens,
            extra.cache_read_input_tokens,
        ),
    }
}

fn codex_usage_sub(total: &TurnUsage, previous: &TurnUsage) -> (r: TurnUsage)
    ensures
        r == usage_sub(*total, *previous),
{
    TurnUsage {
        input_tokens: sub_u64_saturating(total.input_tokens, previous.input_tokens),
        output_tokens: sub_u64_saturating(total.output_tokens, previous.output_tokens),
        cache_creation_input_tokens: sub_u64_saturating(
            total.cache_creation_input_tokens,
            previous.cache_creation_input_tokens,
        ),
        cache_read_input_tokens: sub_u64_saturating(
            total.cache_read_input_tokens,
            previous.cache_read_input_tokens,
        ),
    }
}

fn codex_grand_total(u: &TurnUsage) -> (r: u64)
    ensures
        r == grand_total(*u),
{
    add_u64_saturating(
        add_u64_saturating(
            add_u64_saturating(u.input_tokens, u.output_tokens),
            u.cache_creation_input_tokens,
        ),
        u.cache_read_input_tokens,
    )
}

/// What one model round-trip added, as the rise in the session's cumulative
/// counter; a counter that moved backwards restarted, so its new value is the
/// round's own spend.
pub fn codex_round_usage(previous_total: Option<&TurnUsage>, total: &TurnUsage) -> (r: TurnUsage)
    ensures
        r == round_usage(
            match previous_total {
                Some(p) => Some(*p),
                None => None,
            },
            *total,
        ),
{
    match previous_total {
        Some(previous) => {
            if codex_grand_total(previous) <= codex_grand_total(total) {
                codex_usage_sub(total, previous)
            } else {
                *total
            }
        },
        None => *total,
    }
}

/// The saturating sum of the usage the turns carry, in turn order.
pub open spec fn attributed(turns: Seq<MessageTurn>) -> TurnUsage
    decreases turns.len(),
{
    if turns.len() == 0 {
        zero_usage()
    } else {
        let acc = attributed(turns.drop_last());
        match turns.last().usage {
            Some(u) => usage_add(acc, u),
            None => acc,
        }
    }
}

/// Index of the last turn satisfying the choice rule: a turn that reports
/// usage, else an assistant turn.
pub open spec fn last_with_usage(turns: Seq<MessageTurn>, n: int) -> Option<int>
    decreases n,
{
    if n <= 0 {
        None
    } else if turns[n - 1].usage is Some {
        Some(n - 1)
    } else {
        last_with_usage(turns, n - 1)
    }
}

pub open spec fn last_assistant(turns: Seq<MessageTurn>, n: int) -> Option<int>
    decreases n,
{
    if n <= 0 {
        None
    } else if turns[n - 1].role == TurnRole::Assistant {
        Some(n - 1)
    } else {
        last_assistant(turns, n - 1)
    }
}

/// The turn that takes up a shortfall: the last one that already reports
/// usage, else the last assistant turn.
pub open spec fn reconcile_target(turns: Seq<MessageTurn>) -> Option<int> {
    match last_with_usage(turns, turns.len() as int) {
        Some(t) => Some(t),
        None => last_assistant(turns, turns.len() as int),
    }
}

pub open spec fn with_usage(t: MessageTurn, u: TurnUsage) -> MessageTurn {
    MessageTurn {
        id: t.id,
        role: t.role,
        blocks: t.blocks,
        timestamp: t.timestamp,
        usage: Some(u),
        duration_ms: t.duration_ms,
        model: t.model,
        completed_at: t.completed_at,
    }
}

/// The turns after the shortfall between what the counter recorded and what
/// the turns carry has been put back on the target turn.
pub open spec fn reconciled(turns: Seq<MessageTurn>, recorded: TurnUsage) -> Seq<MessageTurn> {
    let missing = usage_sub(recorded, attributed(turns));
    if is_zero(recorded) || is_zero(missing) {
        turns
    } else {
        match reconcile_target(turns) {
            Some(t) => turns.update(
                t,
                with_usage(
                    turns[t],
                    match turns[t].usage {
                        Some(existing) => usage_add(existing, missing),
                        None => missing,
                    },
                ),
            ),
            None => turns,
        }
    }
}

proof fn lemma_last_with_usage(turns: Seq<MessageTurn>, n: int)
    requires
        n <= turns.len(),
    ensures
        match last_with_usage(turns, n) {
            Some(t) => 0 <= t < n && turns[t].usage is Some,
            None => forall|m: int| 0 <= m < n ==> turns[m].usage is None,
        },
    decreases n,
{
    if n > 0 && turns[n - 1].usage is None {
        lemma_last_with_usage(turns, n - 1);
    }
}

proof fn lemma_last_assistant(turns: Seq<MessageTurn>, n: int)
    requires
        n <= turns.len(),
    ensures
        match last_assistant(turns, n) {
            Some(t) => 0 <= t < n && turns[t].role == TurnRole::Assistant,
            None => forall|m: int| 0 <= m < n ==> turns[m].role != TurnRole::Assistant,
        },
    decreases n,
{
    if n > 0 && turns[n - 1].role != TurnRole::Assistant {
        lemma_last_assistant(turns, n - 1);
    }
}

fn find_reconcile_target(turns: &Vec<MessageTurn>) -> (r: Option<usize>)
    ensures
        reconcile_target(turns@) is None <==> r is None,
        r matches Some(t) ==> reconcile_target(turns@) == Some(t as int) && t < turns@.len(),
{
    proof {
        lemma_last_with_usage(turns@, turns@.len() as int);
        lemma_last_assistant(turns@, turns@.len() as int);
    }
    let mut n = turns.len();
    while n > 0
        invariant
            n <= turns@.len(),
            last_with_usage(turns@, turns@.len() as int) == last_with_usage(turns@, n as int),
        decreases n,
    {
        if turns[n - 1].usage.is_some() {
            return Some(n - 1);
        }
        n -= 1;
    }
    let mut n = turns.len();
    while n > 0
        invariant
            n <= turns@.len(),
            last_with_usage(turns@, turns@.len() as int) is None,
            last_assistant(turns@, turns@.len() as int) == last_assistant(turns@, n as int),
        decreases n,
    {
        if turns[n - 1].role == TurnRole::Assistant {
            return Some(n - 1);
        }
        n -= 1;
    }
    None
}

fn attributed_usage(turns: &Vec<MessageTurn>) -> (r: TurnUsage)
    ensures
        r == attributed(turns@),
{
    let mut acc = TurnUsage {
        input_tokens: 0,
        output_tokens: 0,
        cache_creation_input_tokens: 0,
        cache_read_input_tokens: 0,
    };
    let mut i: usize = 0;
    while i < turns.len()
        invariant
            i <= turns@.len(),
            acc == attributed(turns@.subrange(0, i as int)),
        decreases turns.len() - i,
    {
        proof {
            assert(turns@.subrange(0, i + 1).drop_last() =~= turns@.subrange(0, i as int));
        }
        match turns[i].usage {
            Some(u) => {
                acc = codex_usage_add(&acc, &u);
            },
            None => {},
        }
        i += 1;
    }
    proof {
        assert(turns@.subrange(0, turns@.len() as int) =~= turns@);
    }
    acc
}

/// Make the turns account for every token the transcript reported: any
/// shortfall between the recorded total and what the turns carry is put back
/// on the last turn that reports usage, else on the last assistant turn. A
/// surplus is left alone.
pub fn reconcile_turn_usage(turns: &mut Vec<MessageTurn>, recorded: &TurnUsage)
    ensures
        final(turns)@ == reconciled(old(turns)@, *recorded),
{
    if codex_usage_is_zero(recorded) {
        return;
    }
    let carried = attributed_usage(turns);
    let missing = codex_usage_sub(recorded, &carried);
    if codex_usage_is_zero(&missing) {
        return;
    }
    match find_reconcile_target(turns) {
        Some(t) => {
            let updated = match turns[t].usage {
                Some(existing) => codex_usage_add(&existing, &missing),
                None => missing,
            };
            let ghost before = turns@;
            turns[t].usage = Some(updated);
            proof {
                assert(turns@[t as int] == with_usage(before[t as int], updated));
                assert(turns@ =~= before.update(t as int, with_usage(before[t as int], updated)));
                assert(!is_zero(*recorded));
                assert(!is_zero(missing));
                assert(before == old(turns)@);
                assert(reconcile_target(before) == Some(t as int));
                assert(missing == usage_sub(*recorded, attributed(before)));
                assert(updated == match before[t as int].usage {
                    Some(existing) => usage_add(existing, missing),
                    None => missing,
                });
                assert(turns@ =~= reconciled(old(turns)@, *recorded));
            }
        },
        None => {},
    }
}


/// Field `f` of the usage a turn carries, zero when it carries none.
pub open spec fn turn_field(t: MessageTurn, f: int) -> int {
    match t.usage {
        Some(u) => field(u, f) as int,
        None => 0,
    }
}

/// The exact (unbounded) sum of field `f` over the turns.
pub open spec fn field_sum(turns: Seq<MessageTurn>, f: int) -> int
    decreases turns.len(),
{
    if turns.len() == 0 {
        0
    } else {
        field_sum(turns.drop_last(), f) + turn_field(turns.last(), f)
    }
}

pub open spec fn max_int(a: int, b: int) -> int {
    if a >= b {
        a
    } else {
        b
    }
}

proof fn lemma_field_sum_nonneg(turns: Seq<MessageTurn>, f: int)
    ensures
        field_sum(turns, f) >= 0,
        turns.len() > 0 ==> field_sum(turns, f) >= field_sum(turns.drop_last(), f),
        turns.len() > 0 ==> field_sum(turns, f) >= turn_field(turns.last(), f),
    decreases turns.len(),
{
    if turns.len() > 0 {
        lemma_field_sum_nonneg(turns.drop_last(), f);
    }
}

proof fn lemma_field_add(a: TurnUsage, b: TurnUsage, f: int)
    requires
        0 <= f < 4,
    ensures
        field(usage_add(a, b), f) == sat_add(field(a, f), field(b, f)),
        field(usage_sub(a, b), f) == sat_sub(field(a, f), field(b, f)),
{
}

/// Without saturation, the saturating fold equals the exact sum.
proof fn lemma_attributed_exact(turns: Seq<MessageTurn>, f: int)
    requires
        0 <= f < 4,
        field_sum(turns, f) <= u64::MAX,
    ensures
        field(attributed(turns), f) == field_sum(turns, f),
    decreases turns.len(),
{
    if turns.len() > 0 {
        lemma_field_sum_nonneg(turns, f);
        lemma_attributed_exact(turns.drop_last(), f);
        match turns.last().usage {
            Some(u) => lemma_field_add(attributed(turns.drop_last()), u, f),
            None => {},
        }
    }
}

/// Replacing one turn's usage changes the sum by the difference.
proof fn lemma_field_sum_update(turns: Seq<MessageTurn>, t: int, u: TurnUsage, f: int)
    requires
        0 <= t < turns.len(),
    ensures
        field_sum(turns.update(t, with_usage(turns[t], u)), f) == field_sum(turns, f) - turn_field(
            turns[t],
            f,
        ) + field(u, f),
    decreases turns.len(),
{
    let after = turns.update(t, with_usage(turns[t], u));
    if t == turns.len() - 1 {
        assert(after.drop_last() =~= turns.drop_last());
    } else {
        assert(after.drop_last() =~= turns.drop_last().update(
            t,
            with_usage(turns.drop_last()[t], u),
        ));
        lemma_field_sum_update(turns.drop_last(), t, u, f);
    }
}

/// Law: after reconciliation the turns of a session account for what its
/// own counter reported. Field by field, the per-turn usage sums to the
/// larger of what the turns carried and what the counter recorded: a
/// shortfall is put back, a surplus is left alone. This holds whenever some
/// turn can take up the shortfall (one reporting usage, or an assistant
/// turn) and no sum leaves the range of `u64`.
pub proof fn law_reconciled_turns_account_for_recorded(
    turns: Seq<MessageTurn>,
    recorded: TurnUsage,
    f: int,
)
    requires
        0 <= f < 4,
        reconcile_target(turns) is Some,
        forall|g: int| 0 <= g < 4 ==> field_sum(turns, g) + field(recorded, g) <= u64::MAX,
    ensures
        field_sum(reconciled(turns, recorded), f) == max_int(
            field_sum(turns, f),
            field(recorded, f) as int,
        ),
{
    let missing = usage_sub(recorded, attributed(turns));
    assert forall|g: int| 0 <= g < 4 implies field(attributed(turns), g) == field_sum(turns, g) by {
        lemma_field_sum_nonneg(turns, g);
        lemma_attributed_exact(turns, g);
    }
    lemma_field_add(recorded, attributed(turns), f);
    if is_zero(recorded) {
        lemma_field_sum_nonneg(turns, f);
    } else if is_zero(missing) {
        assert(field(missing, f) == 0);
    } else {
        let t = reconcile_target(turns)->0;
        lemma_last_with_usage(turns, turns.len() as int);
        lemma_last_assistant(turns, turns.len() as int);
        let new_usage = match turns[t].usage {
            Some(existing) => usage_add(existing, missing),
            None => missing,
        };
        lemma_field_sum_update(turns, t, new_usage, f);
        assert(turns.update(t, with_usage(turns[t], new_usage)) == reconciled(turns, recorded));
        // The target's own usage is part of the sum, so adding the shortfall
        // to it cannot saturate.
        assert(turn_field(turns[t], f) <= field_sum(turns, f)) by {
            lemma_turn_field_le_sum(turns, t, f);
        }
        match turns[t].usage {
            Some(existing) => lemma_field_add(existing, missing, f),
            None => {},
        }
    }
}

proof fn lemma_turn_field_le_sum(turns: Seq<MessageTurn>, t: int, f: int)
    requires
        0 <= t < turns.len(),
    ensures
        turn_field(turns[t], f) <= field_sum(turns, f),
    decreases turns.len(),
{
    lemma_field_sum_nonneg(turns, f);
    if t < turns.len() - 1 {
        lemma_turn_field_le_sum(turns.drop_last(), t, f);
        assert(turns.drop_last()[t] == turns[t]);
        lemma_field_sum_nonneg(turns.drop_last(), f);
        match turns.last().usage {
            Some(u) => {},
            None => {},
        }
    }
}

/// Law: reconciliation only fills a shortfall. When the counter recorded
/// nothing, or the turns already carry at least what it recorded in every
/// field, the turns come back unchanged.
pub proof fn law_no_shortfall_leaves_turns_unchanged(turns: Seq<MessageTurn>, recorded: TurnUsage)
    requires
        is_zero(recorded) || forall|f: int| 0 <= f < 4 ==> field(recorded, f) <= field(attributed(turns), f),
    ensures
        reconciled(turns, recorded) == turns,
{
    if !is_zero(recorded) {
        let a = attributed(turns);
        assert(field(recorded, 0) <= field(a, 0));
        assert(field(recorded, 1) <= field(a, 1));
        assert(field(recorded, 2) <= field(a, 2));
        assert(field(recorded, 3) <= field(a, 3));
        assert(is_zero(usage_sub(recorded, a)));
    }
}

/// Law: a `token_count` event that restates the cumulative counter without
/// change adds nothing, so a repeated event is never counted twice.
pub proof fn law_restated_total_adds_nothing(total: TurnUsage)
    ensures
        is_zero(round_usage(Some(total), total)),
{
}

/// Law: while the cumulative counter only grows, the earlier reading plus the
/// round's spend is exactly the new reading, so consecutive rounds telescope
/// to the session total and no round is lost.
pub proof fn law_round_usage_telescopes(previous: TurnUsage, total: TurnUsage)
    requires
        forall|f: int| 0 <= f < 4 ==> field(previous, f) <= field(total, f),
    ensures
        usage_add(previous, round_usage(Some(previous), total)) == total,
{
    assert(field(previous, 0) <= field(total, 0));
    assert(field(previous, 1) <= field(total, 1));
    assert(field(previous, 2) <= field(total, 2));
    assert(field(previous, 3) <= field(total, 3));
    assert(grand_total(previous) <= grand_total(total));
}

/// Law: a counter that moved backwards restarted (a fresh context after
/// compaction): the new reading is the round's own spend, never a wrap to zero.
pub proof fn law_restarted_counter_counts_its_own_spend(previous: TurnUsage, total: TurnUsage)
    requires
        grand_total(previous) > grand_total(total),
    ensures
        round_usage(Some(previous), total) == total,
{
}


/// `usage.get(key).and_then(as_u64).unwrap_or(0)`.
pub open spec fn count_of(usage: Json, key: Seq<char>) -> u64 {
    match usage.u64_field(key) {
        Some(n) => n,
        None => 0,
    }
}

/// The fallback total of a usage payload: `input_tokens` already includes
/// the cached prefix, so cached tokens are added only when they exceed it.
pub open spec fn fallback_total(usage: Json) -> int {
    let input = count_of(usage, "input_tokens"@);
    let cached = count_of(usage, "cached_input_tokens"@);
    let output = count_of(usage, "output_tokens"@);
    let reasoning = count_of(usage, "reasoning_output_tokens"@);
    if cached <= input {
        input + output + reasoning
    } else {
        input + cached + output + reasoning
    }
}

/// Whether reading the total of `usage` stays within `u64`.
pub open spec fn total_fits(usage: Json) -> bool {
    usage.u64_field("total_tokens"@) is Some || fallback_total(usage) <= u64::MAX
}

/// The token total a usage payload reports: its `total_tokens`, else the sum
/// of its counters when that is positive.
pub open spec fn total_tokens_of(usage: Json) -> Option<u64> {
    match usage.u64_field("total_tokens"@) {
        Some(t) => Some(t),
        None => if fallback_total(usage) > 0 {
            Some(fallback_total(usage) as u64)
        } else {
            None
        },
    }
}

fn count_in(usage: &Json, key: &str) -> (r: u64)
    ensures
        r == count_of(*usage, key@),
{
    match usage.get_u64(key) {
        Some(n) => n,
        None => 0,
    }
}

pub fn extract_total_tokens_from_usage(usage: &Json) -> (r: Option<u64>)
    requires
        total_fits(*usage),
    ensures
        r == total_tokens_of(*usage),
{
    if let Some(total_tokens) = usage.get_u64("total_tokens") {
        return Some(total_tokens);
    }
    let input_tokens = count_in(usage, "input_tokens");
    let cached_input_tokens = count_in(usage, "cached_input_tokens");
    let output_tokens = count_in(usage, "output_tokens");
    let reasoning_output_tokens = count_in(usage, "reasoning_output_tokens");
    let total = if cached_input_tokens <= input_tokens {
        input_tokens + output_tokens + reasoning_output_tokens
    } else {
        input_tokens + cached_input_tokens + output_tokens + reasoning_output_tokens
    };
    if total > 0 {
        Some(total)
    } else {
        None
    }
}

/// A usage payload read as raw counters, keeping zeros; `input_tokens` is
/// reported inclusive of the cached prefix, so the cached part is split out.
pub open spec fn counters_of(usage: Json) -> TurnUsage {
    let cached = count_of(usage, "cached_input_tokens"@);
    TurnUsage {
        input_tokens: sat_sub(count_of(usage, "input_tokens"@), cached),
        output_tokens: count_of(usage, "output_tokens"@),
        cache_creation_input_tokens: 0,
        cache_read_input_tokens: cached,
    }
}

pub fn codex_usage_counters(usage: &Json) -> (r: TurnUsage)
    ensures
        r == counters_of(*usage),
{
    let cache_read = count_in(usage, "cached_input_tokens");
    TurnUsage {
        input_tokens: sub_u64_saturating(count_in(usage, "input_tokens"), cache_read),
        output_tokens: count_in(usage, "output_tokens"),
        cache_creation_input_tokens: 0,
        cache_read_input_tokens: cache_read,
    }
}

/// The turn usage a payload reports, or nothing when input, output and
/// cached counts are all zero.
pub fn extract_turn_usage_from_codex_usage(usage: &Json) -> (r: Option<TurnUsage>)
    ensures
        r == (if count_of(*usage, "input_tokens"@) == 0 && count_of(*usage, "output_tokens"@) == 0
            && count_of(*usage, "cached_input_tokens"@) == 0 {
            None
        } else {
            Some(counters_of(*usage))
        }),
{
    let input_tokens = count_in(usage, "input_tokens");
    let output_tokens = count_in(usage, "output_tokens");
    let cache_read_input_tokens = count_in(usage, "cached_input_tokens");
    if input_tokens == 0 && output_tokens == 0 && cache_read_input_tokens == 0 {
        return None;
    }
    Some(
        TurnUsage {
            input_tokens: sub_u64_saturating(input_tokens, cache_read_input_tokens),
            output_tokens,
            cache_creation_input_tokens: 0,
            cache_read_input_tokens,
        },
    )
}

/// Whether both usages of a `token_count` info can be totalled within `u64`.
pub open spec fn info_fits(info: Json) -> bool {
    &&& (info.field("last_token_usage"@) matches Some(u) ==> total_fits(u))
    &&& (info.field("total_token_usage"@) matches Some(u) ==> total_fits(u))
}

/// Context-window occupancy from a `token_count` info: the total of
/// `last_token_usage` (the current turn), else of the cumulative
/// `total_token_usage`.
pub open spec fn context_window_used(info: Json) -> Option<u64> {
    let last = match info.field("last_token_usage"@) {
        Some(u) => total_tokens_of(u),
        None => None,
    };
    if last is Some {
        last
    } else {
        match info.field("total_token_usage"@) {
            Some(u) => total_tokens_of(u),
            None => None,
        }
    }
}

pub fn extract_context_window_used_tokens_from_token_count_info(info: &Json) -> (r: Option<u64>)
    requires
        info_fits(*info),
    ensures
        r == context_window_used(*info),
{
    if let Some(last_usage) = info.get("last_token_usage") {
        if let Some(total) = extract_total_tokens_from_usage(last_usage) {
            return Some(total);
        }
    }
    match info.get("total_token_usage") {
        Some(total_usage) => extract_total_tokens_from_usage(total_usage),
        None => None,
    }
}

/// Session statistics with the context-window figures set; unchanged when
/// neither figure is known.
pub open spec fn with_context_window(
    stats: Option<SessionStats>,
    used: Option<u64>,
    max: Option<u64>,
) -> Option<SessionStats> {
    if used is None && max is None {
        stats
    } else {
        match stats {
            Some(s) => Some(
                SessionStats {
                    context_window_used_tokens: used,
                    context_window_max_tokens: max,
                    ..s
                },
            ),
            None => Some(
                SessionStats {
                    total_usage: None,
                    total_tokens: None,
                    total_duration_ms: 0,
                    context_window_used_tokens: used,
                    context_window_max_tokens: max,
                },
            ),
        }
    }
}

pub fn merge_codex_context_window_stats(
    stats: Option<SessionStats>,
    used_tokens: Option<u64>,
    max_tokens: Option<u64>,
) -> (r: Option<SessionStats>)
    ensures
        r == with_context_window(stats, used_tokens, max_tokens),
{
    if used_tokens.is_none() && max_tokens.is_none() {
        return stats;
    }
    match stats {
        Some(mut s) => {
            s.context_window_used_tokens = used_tokens;
            s.context_window_max_tokens = max_tokens;
            Some(s)
        },
        None => Some(
            SessionStats {
                total_usage: None,
                total_tokens: None,
                total_duration_ms: 0,
                context_window_used_tokens: used_tokens,
                context_window_max_tokens: max_tokens,
            },
        ),
    }
}

/// Session statistics with the counter-reported totals taking precedence over
/// the aggregated ones.
pub open spec fn with_total_usage(
    stats: Option<SessionStats>,
    total_usage: Option<TurnUsage>,
    total_tokens: Option<u64>,
) -> Option<SessionStats> {
    match stats {
        Some(s) => Some(
            SessionStats {
                total_usage: if total_usage is Some {
                    total_usage
                } else {
                    s.total_usage
                },
                total_tokens: if total_tokens is Some {
                    total_tokens
                } else {
                    s.total_tokens
                },
                ..s
            },
        ),
        None => if total_usage is Some || total_tokens is Some {
            Some(
                SessionStats {
                    total_usage,
                    total_tokens,
                    total_duration_ms: 0,
                    context_window_used_tokens: None,
                    context_window_max_tokens: None,
                },
            )
        } else {
            None
        },
    }
}

pub fn merge_codex_total_usage_stats(
    stats: Option<SessionStats>,
    total_usage: Option<TurnUsage>,
    total_tokens: Option<u64>,
) -> (r: Option<SessionStats>)
    ensures
        r == with_total_usage(stats, total_usage, total_tokens),
{
    match stats {
        Some(mut s) => {
            if let Some(total) = total_usage {
                s.total_usage = Some(total);
            }
            if total_tokens.is_some() {
                s.total_tokens = total_tokens;
            }
            Some(s)
        },
        None => {
            if total_usage.is_some() || total_tokens.is_some() {
                Some(
                    SessionStats {
                        total_usage,
                        total_tokens,
                        total_duration_ms: 0,
                        context_window_used_tokens: None,
                        context_window_max_tokens: None,
                    },
                )
            } else {
                None
            }
        },
    }
}

/// Whether reading the total of a usage payload stays within `u64`.
pub fn usage_total_fits(usage: &Json) -> (r: bool)
    ensures
        r == total_fits(*usage),
{
    if usage.get_u64("total_tokens").is_some() {
        return true;
    }
    let input = count_in(usage, "input_tokens") as u128;
    let cached = count_in(usage, "cached_input_tokens") as u128;
    let output = count_in(usage, "output_tokens") as u128;
    let reasoning = count_in(usage, "reasoning_output_tokens") as u128;
    let total = if cached <= input {
        input + output + reasoning
    } else {
        input + cached + output + reasoning
    };
    total <= u64::MAX as u128
}

/// Whether the usage counters of a `token_count` info fit (see `info_fits`).
pub fn token_info_fits(info: &Json) -> (r: bool)
    ensures
        r == info_fits(*info),
{
    let last_ok = match info.get("last_token_usage") {
        Some(u) => usage_total_fits(u),
        None => true,
    };
    let total_ok = match info.get("total_token_usage") {
        Some(u) => usage_total_fits(u),
        None => true,
    };
    last_ok && total_ok
}

} // verus!
