//! The token ledger of a Codex transcript: what each `token_count` event
//! reports, reduced to the spend of its own model round-trip, and carried
//! onto the assistant message that round worked for.
use vstd::prelude::*;
use crate::json::Json;
use crate::transcript::{MessageRole, TurnUsage, UnifiedMessage};
use crate::usage::{
    field,
    codex_round_usage, codex_usage_add, codex_usage_counters, codex_usage_is_zero,
    context_window_used, counters_of, count_of, extract_context_window_used_tokens_from_token_count_info,
    extract_total_tokens_from_usage, extract_turn_usage_from_codex_usage, info_fits,
    is_zero, round_usage, total_tokens_of, usage_add, zero_usage,
};

verus! {

/// What the transcript's `token_count` events have told so far.
#[derive(Clone, Copy, Debug)]
pub struct TokenLedger {
    /// The cumulative counter as of the previous event.
    pub previous_total: Option<TurnUsage>,
    /// The previous `last_token_usage`, used only when no total is reported.
    pub previous_last: Option<TurnUsage>,
    /// Spend recorded before any assistant message existed to carry it.
    pub pending_round: Option<TurnUsage>,
    /// Everything every round reported.
    pub recorded: TurnUsage,
    pub latest_total_usage: Option<TurnUsage>,
    pub latest_total_tokens: Option<u64>,
    pub context_window_used_tokens: Option<u64>,
    pub context_window_max_tokens: Option<u64>,
}

pub open spec fn empty_ledger() -> TokenLedger {
    TokenLedger {
        previous_total: None,
        previous_last: None,
        pending_round: None,
        recorded: zero_usage(),
        latest_total_usage: None,
        latest_total_tokens: None,
        context_window_used_tokens: None,
        context_window_max_tokens: None,
    }
}

impl TokenLedger {
    pub fn new() -> (r: Self)
        ensures
            r == empty_ledger(),
    {
        TokenLedger {
            previous_total: None,
            previous_last: None,
            pending_round: None,
            recorded: TurnUsage {
                input_tokens: 0,
                output_tokens: 0,
                cache_creation_input_tokens: 0,
                cache_read_input_tokens: 0,
            },
            latest_total_usage: None,
            latest_total_tokens: None,
            context_window_used_tokens: None,
            context_window_max_tokens: None,
        }
    }
}

/// The per-turn usage a usage payload reports, when any counter is set.
pub open spec fn turn_usage_of(u: Json) -> Option<TurnUsage> {
    if count_of(u, "input_tokens"@) == 0 && count_of(u, "output_tokens"@) == 0 && count_of(
        u,
        "cached_input_tokens"@,
    ) == 0 {
        None
    } else {
        Some(counters_of(u))
    }
}

/// The session totals and the context window a `token_count` info states.
pub open spec fn with_reported_totals(l: TokenLedger, info: Json) -> TokenLedger {
    let l1 = match info.field("total_token_usage"@) {
        Some(tp) => TokenLedger {
            latest_total_usage: if turn_usage_of(tp) is Some {
                turn_usage_of(tp)
            } else {
                l.latest_total_usage
            },
            latest_total_tokens: if total_tokens_of(tp) is Some {
                total_tokens_of(tp)
            } else {
                l.latest_total_tokens
            },
            ..l
        },
        None => l,
    };
    let l2 = if context_window_used(info) is Some {
        TokenLedger { context_window_used_tokens: context_window_used(info), ..l1 }
    } else {
        l1
    };
    if info.u64_field("model_context_window"@) is Some {
        TokenLedger { context_window_max_tokens: info.u64_field("model_context_window"@), ..l2 }
    } else {
        l2
    }
}

/// The spend of the round an info reports, with the baselines it leaves:
/// the rise of the cumulative counter when one is reported; otherwise the
/// `last_token_usage`, unless it restates the previous one. A last-only
/// round is carried into the cumulative baseline too, so a later total does
/// not bill it again.
pub open spec fn round_of(l: TokenLedger, info: Json) -> (TurnUsage, Option<TurnUsage>, Option<TurnUsage>) {
    match info.field("total_token_usage"@) {
        Some(tp) => {
            let total = counters_of(tp);
            (round_usage(l.previous_total, total), Some(total), l.previous_last)
        },
        None => match info.field("last_token_usage"@) {
            Some(lp) => {
                let last = counters_of(lp);
                if l.previous_last == Some(last) {
                    (zero_usage(), l.previous_total, Some(last))
                } else {
                    let base = match l.previous_total {
                        Some(b) => b,
                        None => zero_usage(),
                    };
                    (last, Some(usage_add(base, last)), Some(last))
                }
            },
            None => (zero_usage(), l.previous_total, l.previous_last),
        },
    }
}

/// The ledger after a round: a non-zero round is recorded and waits for an
/// assistant message to carry it.
pub open spec fn with_round(l: TokenLedger, info: Json) -> TokenLedger {
    let (round, pt, pl) = round_of(l, info);
    TokenLedger {
        previous_total: pt,
        previous_last: pl,
        recorded: if is_zero(round) {
            l.recorded
        } else {
            usage_add(l.recorded, round)
        },
        pending_round: if is_zero(round) {
            l.pending_round
        } else {
            Some(
                match l.pending_round {
                    Some(p) => usage_add(p, round),
                    None => round,
                },
            )
        },
        ..l
    }
}

/// Index of the last assistant message among `msgs[..n]`.
pub open spec fn last_assistant_before(msgs: Seq<UnifiedMessage>, n: int) -> Option<int>
    decreases n,
{
    if n <= 0 || n > msgs.len() {
        None
    } else if msgs[n - 1].role == MessageRole::Assistant {
        Some(n - 1)
    } else {
        last_assistant_before(msgs, n - 1)
    }
}

pub open spec fn last_assistant_message(msgs: Seq<UnifiedMessage>) -> Option<int> {
    last_assistant_before(msgs, msgs.len() as int)
}

/// The usage a message carries after `pending` is added to it.
pub open spec fn usage_with(existing: Option<TurnUsage>, pending: TurnUsage) -> Option<TurnUsage> {
    Some(
        match existing {
            Some(e) => usage_add(e, pending),
            None => pending,
        },
    )
}

/// `after` is `before` with the usage of message `k` replaced by `u`.
pub open spec fn usage_replaced(
    before: Seq<UnifiedMessage>,
    after: Seq<UnifiedMessage>,
    k: int,
    u: Option<TurnUsage>,
) -> bool {
    &&& after.len() == before.len()
    &&& forall|i: int| 0 <= i < before.len() && i != k ==> after[i] == before[i]
    &&& after[k].id == before[k].id
    &&& after[k].role == before[k].role
    &&& after[k].content == before[k].content
    &&& after[k].timestamp == before[k].timestamp
    &&& after[k].duration_ms == before[k].duration_ms
    &&& after[k].model == before[k].model
    &&& after[k].completed_at == before[k].completed_at
    &&& after[k].usage == u
}

pub proof fn lemma_last_assistant(msgs: Seq<UnifiedMessage>, n: int)
    ensures
        last_assistant_before(msgs, n) matches Some(k) ==> 0 <= k < n && k < msgs.len()
            && msgs[k].role == MessageRole::Assistant,
    decreases n,
{
    if n > 0 && n <= msgs.len() && msgs[n - 1].role != MessageRole::Assistant {
        lemma_last_assistant(msgs, n - 1);
    }
}

fn last_assistant_index(msgs: &Vec<UnifiedMessage>) -> (r: Option<usize>)
    ensures
        match r {
            Some(k) => last_assistant_message(msgs@) == Some(k as int) && k < msgs@.len(),
            None => last_assistant_message(msgs@) is None,
        },
{
    let mut n = msgs.len();
    while n > 0
        invariant
            n <= msgs@.len(),
            last_assistant_message(msgs@) == last_assistant_before(msgs@, n as int),
        decreases n,
    {
        let is_assistant = match msgs[n - 1].role {
            MessageRole::Assistant => true,
            _ => false,
        };
        if is_assistant {
            return Some(n - 1);
        }
        n -= 1;
    }
    None
}

/// Puts the pending spend onto the last assistant message, if there is one.
fn flush_pending_usage(ledger: &mut TokenLedger, messages: &mut Vec<UnifiedMessage>)
    ensures
        match (old(ledger).pending_round, last_assistant_message(old(messages)@)) {
            (Some(p), Some(k)) => usage_replaced(
                old(messages)@,
                final(messages)@,
                k,
                usage_with(old(messages)@[k].usage, p),
            ) && *final(ledger) == TokenLedger { pending_round: None, ..*old(ledger) },
            _ => final(messages)@ == old(messages)@ && *final(ledger) == *old(ledger),
        },
{
    let pending = match ledger.pending_round {
        Some(p) => p,
        None => return,
    };
    let k = match last_assistant_index(messages) {
        Some(k) => k,
        None => return,
    };
    proof {
        lemma_last_assistant(messages@, messages@.len() as int);
    }
    let mut m = messages.remove(k);
    m.usage = Some(
        match m.usage {
            Some(existing) => codex_usage_add(&existing, &pending),
            None => pending,
        },
    );
    messages.insert(k, m);
    ledger.pending_round = None;
    proof {
        assert forall|i: int| 0 <= i < old(messages)@.len() && i != k implies messages@[i] == old(
            messages,
        )@[i] by {
            if i < k {
            } else {
            }
        }
    }
}

/// The effect of one `token_count` event with a non-null `info`: the totals
/// and context window it states, the round it reports, and the pending
/// spend put onto the last assistant message when there is one.
pub open spec fn ledger_after(l: TokenLedger, info: Json) -> TokenLedger {
    with_round(with_reported_totals(l, info), info)
}

/// Reads one `token_count` event's `info` into the ledger and puts whatever
/// spend is pending onto the last assistant message. A `null` info reports
/// nothing.
pub fn record_token_count(ledger: &mut TokenLedger, info: &Json, messages: &mut Vec<UnifiedMessage>)
    requires
        info_fits(*info),
    ensures
        *info is Null ==> *final(ledger) == *old(ledger) && final(messages)@ == old(messages)@,
        !(*info is Null) ==> ({
            let l = ledger_after(*old(ledger), *info);
            match (l.pending_round, last_assistant_message(old(messages)@)) {
                (Some(p), Some(k)) => usage_replaced(
                    old(messages)@,
                    final(messages)@,
                    k,
                    usage_with(old(messages)@[k].usage, p),
                ) && *final(ledger) == TokenLedger { pending_round: None, ..l },
                _ => final(messages)@ == old(messages)@ && *final(ledger) == l,
            }
        }),
{
    if let Some(tp) = info.get("total_token_usage") {
        if let Some(u) = extract_turn_usage_from_codex_usage(tp) {
            ledger.latest_total_usage = Some(u);
        }
        if let Some(t) = extract_total_tokens_from_usage(tp) {
            ledger.latest_total_tokens = Some(t);
        }
    }
    let used = extract_context_window_used_tokens_from_token_count_info(info);
    if used.is_some() {
        ledger.context_window_used_tokens = used;
    }
    let window = info.get_u64("model_context_window");
    if window.is_some() {
        ledger.context_window_max_tokens = window;
    }
    let is_null = match info {
        Json::Null => true,
        _ => false,
    };
    if is_null {
        return;
    }
    let round = match info.get("total_token_usage") {
        Some(tp) => {
            let total = codex_usage_counters(tp);
            let prev = ledger.previous_total;
            let r = match &prev {
                Some(p) => codex_round_usage(Some(p), &total),
                None => codex_round_usage(None, &total),
            };
            ledger.previous_total = Some(total);
            r
        },
        None => match info.get("last_token_usage") {
            Some(lp) => {
                let last = codex_usage_counters(lp);
                let repeated = match ledger.previous_last {
                    Some(prev) => prev == last,
                    None => false,
                };
                ledger.previous_last = Some(last);
                if repeated {
                    TurnUsage {
                        input_tokens: 0,
                        output_tokens: 0,
                        cache_creation_input_tokens: 0,
                        cache_read_input_tokens: 0,
                    }
                } else {
                    let base = match ledger.previous_total {
                        Some(b) => b,
                        None => TurnUsage {
                            input_tokens: 0,
                            output_tokens: 0,
                            cache_creation_input_tokens: 0,
                            cache_read_input_tokens: 0,
                        },
                    };
                    ledger.previous_total = Some(codex_usage_add(&base, &last));
                    last
                }
            },
            None => TurnUsage {
                input_tokens: 0,
                output_tokens: 0,
                cache_creation_input_tokens: 0,
                cache_read_input_tokens: 0,
            },
        },
    };
    if !codex_usage_is_zero(&round) {
        ledger.recorded = codex_usage_add(&ledger.recorded, &round);
        ledger.pending_round = Some(
            match ledger.pending_round {
                Some(p) => codex_usage_add(&p, &round),
                None => round,
            },
        );
    }
    flush_pending_usage(ledger, messages);
}

/// The ledger after the `info`s of a transcript's token counts, in order.
pub open spec fn ledger_over(l: TokenLedger, infos: Seq<Json>) -> TokenLedger
    decreases infos.len(),
{
    if infos.len() == 0 {
        l
    } else {
        ledger_after(ledger_over(l, infos.drop_last()), infos.last())
    }
}

/// The cumulative counter an info reports.
pub open spec fn total_of(info: Json) -> TurnUsage {
    counters_of(info.field("total_token_usage"@)->0)
}

/// `a` is no larger than `b` in any field.
pub open spec fn usage_le(a: TurnUsage, b: TurnUsage) -> bool {
    forall|f: int| 0 <= f < 4 ==> field(a, f) <= field(b, f)
}

/// Every info reports the cumulative counter, and it never goes down.
pub open spec fn totals_grow(infos: Seq<Json>) -> bool {
    &&& forall|i: int| 0 <= i < infos.len() ==> (#[trigger] infos[i]).field("total_token_usage"@) is Some
    &&& forall|i: int, j: int| 0 <= i < j < infos.len() ==> usage_le(total_of(#[trigger] infos[i]), total_of(#[trigger] infos[j]))
}

proof fn lemma_add_zero(a: TurnUsage)
    ensures
        usage_add(a, zero_usage()) == a,
        usage_add(zero_usage(), a) == a,
{
}

/// Every model round-trip is counted exactly once: over token counts that
/// all report a cumulative counter that never goes down, the spend the
/// ledger records is the last reading of that counter, none lost and none
/// counted twice.
pub proof fn law_every_round_is_counted_once(infos: Seq<Json>)
    requires
        infos.len() > 0,
        totals_grow(infos),
    ensures
        ledger_over(empty_ledger(), infos).recorded == total_of(infos.last()),
{
    lemma_recorded_is_total(infos, infos.len() as int);
    assert(infos.subrange(0, infos.len() as int) =~= infos);
}

proof fn lemma_recorded_is_total(infos: Seq<Json>, n: int)
    requires
        0 < n <= infos.len(),
        totals_grow(infos),
    ensures
        ledger_over(empty_ledger(), infos.subrange(0, n)).recorded == total_of(infos[n - 1]),
        ledger_over(empty_ledger(), infos.subrange(0, n)).previous_total == Some(total_of(infos[n - 1])),
    decreases n,
{
    let pre = infos.subrange(0, n);
    assert(pre.drop_last() =~= infos.subrange(0, n - 1));
    assert(pre.last() == infos[n - 1]);
    let info = infos[n - 1];
    assert(info.field("total_token_usage"@) is Some);
    let tot = total_of(info);
    if n == 1 {
        assert(infos.subrange(0, 0) =~= Seq::<Json>::empty());
        let l = with_reported_totals(empty_ledger(), info);
        assert(l.previous_total is None && l.recorded == zero_usage());
        lemma_add_zero(tot);
    } else {
        lemma_recorded_is_total(infos, n - 1);
        let prev = total_of(infos[n - 2]);
        assert(usage_le(prev, tot));
        assert(forall|f: int| 0 <= f < 4 ==> field(prev, f) <= field(tot, f));
        crate::usage::law_round_usage_telescopes(prev, tot);
        lemma_add_zero(prev);
    }
}

} // verus!
