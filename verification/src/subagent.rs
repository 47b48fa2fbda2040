//! Which transcript file holds a sub-agent's own rollout, and how long the
//! sub-agent ran.
use vstd::prelude::*;
use crate::json::parse_json;
use crate::text::{string_of, chars_of, contains, contains_chars, ends_with, ends_with_chars, find_char_chars, find_char, slice_chars, trim, trim_chars};
use crate::timestamp::{millis_between, parse_utc_millis, utc_millis, utc_millis_between};
use crate::user_input::opt_text;

verus! {

/// An agent id that is safe to put into a file name: at most 64 bytes, with
/// no `..` and no `/`.
pub open spec fn safe_agent_id(id: &str) -> bool {
    id.len() <= 64 && !contains(id@, ".."@) && forall|i: int| 0 <= i < id@.len() ==> #[trigger] id@[i] != '/'
}

pub fn is_safe_agent_id(agent_id: &str) -> (r: bool)
    ensures
        r == safe_agent_id(agent_id),
{
    if agent_id.len() > 64 {
        return false;
    }
    let v = chars_of(agent_id);
    if contains_chars(v.as_slice(), chars_of("..").as_slice()) {
        return false;
    }
    match find_char_chars(v.as_slice(), '/') {
        Some(k) => {
            proof {
                crate::text::lemma_find_char(v@, '/', 0);
                assert(agent_id@[k as int] == '/');
            }
            false
        },
        None => {
            proof {
                lemma_no_char(v@, '/', 0);
            }
            true
        },
    }
}

proof fn lemma_no_char(s: Seq<char>, c: char, i: int)
    requires
        0 <= i,
        find_char(s, c, i) is None,
    ensures
        forall|k: int| i <= k < s.len() ==> s[k] != c,
    decreases s.len() - i,
{
    if i < s.len() {
        lemma_no_char(s, c, i + 1);
    }
}

/// The stem of a `jsonl` file name (`Path::file_stem` when
/// `Path::extension` is `jsonl`).
pub open spec fn jsonl_stem(name: Seq<char>) -> Option<Seq<char>> {
    if ends_with(name, ".jsonl"@) && name.len() > 6 {
        Some(name.subrange(0, name.len() - 6))
    } else {
        None
    }
}

/// A file of a sub-agent's rollout: a `jsonl` file whose stem is the agent
/// id, or ends with it right after a `-` or `_`.
pub open spec fn names_agent(name: Seq<char>, agent_id: Seq<char>) -> bool {
    match jsonl_stem(name) {
        Some(stem) => stem == agent_id || (ends_with(stem, agent_id) && stem.len() > agent_id.len() && (
        stem[stem.len() - agent_id.len() - 1] == '-' || stem[stem.len() - agent_id.len() - 1] == '_')),
        None => false,
    }
}

pub fn is_agent_rollout_name(name: &str, agent_id: &str) -> (r: bool)
    ensures
        r == names_agent(name@, agent_id@),
{
    let n = chars_of(name);
    let ext = chars_of(".jsonl");
    proof {
        reveal_strlit(".jsonl");
    }
    if !(ends_with_chars(n.as_slice(), ext.as_slice()) && n.len() > 6) {
        return false;
    }
    let stem = slice_chars(n.as_slice(), 0, n.len() - 6);
    let id = chars_of(agent_id);
    if crate::text::eq_chars(stem.as_slice(), id.as_slice()) {
        return true;
    }
    if ends_with_chars(stem.as_slice(), id.as_slice()) && stem.len() > id.len() {
        let c = stem[stem.len() - id.len() - 1];
        return c == '-' || c == '_';
    }
    false
}

/// `a` sorts before `b`, character by character.
pub open spec fn text_lt(a: Seq<char>, b: Seq<char>) -> bool
    decreases a.len(),
{
    if a.len() == 0 {
        b.len() > 0
    } else if b.len() == 0 {
        false
    } else if a[0] != b[0] {
        (a[0] as u32) < (b[0] as u32)
    } else {
        text_lt(a.drop_first(), b.drop_first())
    }
}

fn chars_lt(a: &Vec<char>, b: &Vec<char>) -> (r: bool)
    ensures
        r == text_lt(a@, b@),
{
    let mut i: usize = 0;
    proof {
        assert(a@.skip(0) =~= a@);
        assert(b@.skip(0) =~= b@);
    }
    while i < a.len() && i < b.len()
        invariant
            i <= a@.len(),
            i <= b@.len(),
            text_lt(a@, b@) == text_lt(a@.skip(i as int), b@.skip(i as int)),
        decreases a.len() - i,
    {
        proof {
            assert(a@.skip(i as int).drop_first() =~= a@.skip(i + 1));
            assert(b@.skip(i as int).drop_first() =~= b@.skip(i + 1));
        }
        if a[i] != b[i] {
            return (a[i] as u32) < (b[i] as u32);
        }
        i += 1;
    }
    i == a.len() && i < b.len()
}

/// The sub-agent's rollout: `agent-<id>.jsonl` when that file exists,
/// else the first in sorted order of the directory's entries that name the
/// agent.
pub open spec fn chosen_rollout(exact_is_file: bool, names: Seq<Seq<char>>, agent_id: Seq<char>, r: Option<Seq<char>>) -> bool {
    let exact = "agent-"@ + agent_id + ".jsonl"@;
    if exact_is_file {
        r == Some(exact)
    } else {
        match r {
            Some(n) => names.contains(n) && names_agent(n, agent_id) && forall|k: int|
                0 <= k < names.len() && names_agent(#[trigger] names[k], agent_id) ==> !text_lt(names[k], n),
            None => forall|k: int| 0 <= k < names.len() ==> !names_agent(#[trigger] names[k], agent_id),
        }
    }
}

/// Picks the file holding a sub-agent's rollout: `exact_is_file` tells
/// whether `agent-<id>.jsonl` is a file of the session directory, `names`
/// are the names of the directory's entries. `None` for an unsafe agent id
/// or when nothing names the agent.
pub fn pick_agent_rollout(exact_is_file: bool, names: &Vec<String>, agent_id: &str) -> (r: Option<String>)
    ensures
        !safe_agent_id(agent_id) ==> r is None,
        safe_agent_id(agent_id) ==> chosen_rollout(
            exact_is_file,
            names@.map_values(|s: String| s@),
            agent_id@,
            match r {
                Some(s) => Some(s@),
                None => None,
            },
        ),
{
    if !is_safe_agent_id(agent_id) {
        return None;
    }
    let ghost nv = names@.map_values(|s: String| s@);
    let mut exact = chars_of("agent-");
    let mut id = chars_of(agent_id);
    exact.append(&mut id);
    let mut ext = chars_of(".jsonl");
    exact.append(&mut ext);
    if exact_is_file {
        return Some(string_of(exact.as_slice()));
    }
    let mut best: Option<usize> = None;
    let mut j: usize = 0;
    while j < names.len()
        invariant
            j <= names@.len(),
            nv == names@.map_values(|s: String| s@),
            match best {
                Some(b) => b < j && names_agent(nv[b as int], agent_id@) && forall|k: int|
                    0 <= k < j && names_agent(#[trigger] nv[k], agent_id@) ==> !text_lt(nv[k], nv[b as int]),
                None => forall|k: int| 0 <= k < j ==> !names_agent(#[trigger] nv[k], agent_id@),
            },
        decreases names.len() - j,
    {
        if is_agent_rollout_name(names[j].as_str(), agent_id) {
            let better = match best {
                None => true,
                Some(b) => chars_lt(&chars_of(names[j].as_str()), &chars_of(names[b].as_str())),
            };
            if better {
                proof {
                    if let Some(b) = best {
                        assert forall|k: int| 0 <= k < j + 1 && names_agent(#[trigger] nv[k], agent_id@) implies !text_lt(
                            nv[k],
                            nv[j as int],
                        ) by {
                            if k < j {
                                lemma_text_lt_trans_not(nv[k], nv[b as int], nv[j as int]);
                            } else {
                                lemma_text_lt_irreflexive(nv[k]);
                            }
                        }
                    } else {
                        lemma_text_lt_irreflexive(nv[j as int]);
                    }
                }
                best = Some(j);
            } else {
                proof {
                    let b = best->0;
                    assert forall|k: int| 0 <= k < j + 1 && names_agent(#[trigger] nv[k], agent_id@) implies !text_lt(
                        nv[k],
                        nv[b as int],
                    ) by {}
                }
            }
        }
        j += 1;
    }
    match best {
        Some(b) => Some(names[b].clone()),
        None => None,
    }
}

proof fn lemma_text_lt_irreflexive(a: Seq<char>)
    ensures
        !text_lt(a, a),
    decreases a.len(),
{
    if a.len() > 0 {
        lemma_text_lt_irreflexive(a.drop_first());
    }
}

/// Not below `b`, and `b` not below `c`, so not below `c` either... stated
/// the way the scan needs it: `c < b` and `!(a < b)` give `!(a < c)`.
proof fn lemma_text_lt_trans_not(a: Seq<char>, b: Seq<char>, c: Seq<char>)
    requires
        !text_lt(a, b),
        text_lt(c, b),
    ensures
        !text_lt(a, c),
    decreases a.len(),
{
    if a.len() > 0 && c.len() > 0 && b.len() > 0 && a[0] == c[0] && c[0] == b[0] {
        lemma_text_lt_trans_not(a.drop_first(), b.drop_first(), c.drop_first());
    }
}

/// The texts of the first and last readable timestamps among the lines.
pub open spec fn span_of(lines: Seq<Seq<char>>, n: int) -> (Option<Seq<char>>, Option<Seq<char>>)
    decreases n,
{
    if n <= 0 || n > lines.len() {
        (None, None)
    } else {
        let prev = span_of(lines, n - 1);
        let l = lines[n - 1];
        if trim(l).len() == 0 {
            prev
        } else {
            match crate::json::json_parse_result(l) {
                Some(v) => match v.str_field("timestamp"@) {
                    Some(t) => if utc_millis(t) is Some {
                        (if prev.0 is None { Some(t) } else { prev.0 }, Some(t))
                    } else {
                        prev
                    },
                    None => prev,
                },
                None => prev,
            }
        }
    }
}

/// How long a sub-agent ran: the whole milliseconds from its rollout's
/// first timestamp to its last, when that is positive.
pub open spec fn run_duration(span: (Option<Seq<char>>, Option<Seq<char>>)) -> Option<u64> {
    match span {
        (Some(f), Some(l)) => if utc_millis_between(f, l) > 0 {
            Some(utc_millis_between(f, l) as u64)
        } else {
            None
        },
        _ => None,
    }
}

pub fn subagent_duration_ms(lines: &Vec<String>) -> (r: Option<u64>)
    ensures
        r == run_duration(span_of(lines@.map_values(|s: String| s@), lines@.len() as int)),
{
    let ghost lv = lines@.map_values(|s: String| s@);
    let mut first: Option<String> = None;
    let mut last: Option<String> = None;
    let mut i: usize = 0;
    while i < lines.len()
        invariant
            i <= lines@.len(),
            lv == lines@.map_values(|s: String| s@),
            (opt_text(first), opt_text(last)) == span_of(lv, i as int),
            first is Some <==> last is Some,
            first matches Some(f) ==> utc_millis(f@) is Some,
            last matches Some(l) ==> utc_millis(l@) is Some,
        decreases lines.len() - i,
    {
        let line = lines[i].as_str();
        assert(lv[i as int] == line@);
        let t = trim_chars(chars_of(line).as_slice());
        if t.len() > 0 {
            if let Some(v) = parse_json(line) {
                if let Some(ts) = v.get_str("timestamp") {
                    if parse_utc_millis(ts).is_some() {
                        if first.is_none() {
                            first = Some(ts.to_owned());
                        }
                        last = Some(ts.to_owned());
                    }
                }
            }
        }
        i += 1;
    }
    match (first, last) {
        (Some(f), Some(l)) => {
            let d = millis_between(f.as_str(), l.as_str());
            if d > 0 {
                Some(d as u64)
            } else {
                None
            }
        },
        _ => None,
    }
}

/// The readable timestamp a rollout line carries, as its text: the line's
/// `timestamp` string, when the line is a JSON value and that string reads
/// as a UTC time.
pub open spec fn readable_stamp(line: Seq<char>) -> Option<Seq<char>> {
    if trim(line).len() == 0 {
        None
    } else {
        match crate::json::json_parse_result(line) {
            Some(v) => match v.str_field("timestamp"@) {
                Some(t) => if utc_millis(t) is Some {
                    Some(t)
                } else {
                    None
                },
                None => None,
            },
            None => None,
        }
    }
}

/// A sub-agent's run is measured from the first readable timestamp of its
/// rollout to the last one: the span has a start exactly when some line
/// carries a readable timestamp, it then has an end too, the start is the
/// timestamp of the first such line and the end that of the last such line.
pub proof fn law_run_spans_first_to_last_timestamp(lines: Seq<Seq<char>>, n: int)
    requires
        0 <= n <= lines.len(),
    ensures
        span_of(lines, n).0 is None <==> forall|k: int| 0 <= k < n ==> readable_stamp(#[trigger] lines[k]) is None,
        span_of(lines, n).0 is None <==> span_of(lines, n).1 is None,
        span_of(lines, n).0 matches Some(t) ==> exists|j: int|
            0 <= j < n && readable_stamp(lines[j]) == Some(t) && forall|k: int|
                0 <= k < j ==> readable_stamp(#[trigger] lines[k]) is None,
        span_of(lines, n).1 matches Some(t) ==> exists|j: int|
            0 <= j < n && readable_stamp(lines[j]) == Some(t) && forall|k: int|
                j < k < n ==> readable_stamp(#[trigger] lines[k]) is None,
    decreases n,
{
    if n > 0 {
        law_run_spans_first_to_last_timestamp(lines, n - 1);
        let prev = span_of(lines, n - 1);
        let cur = span_of(lines, n);
        assert(cur == match readable_stamp(lines[n - 1]) {
            Some(t) => (if prev.0 is None { Some(t) } else { prev.0 }, Some(t)),
            None => prev,
        });
        if readable_stamp(lines[n - 1]) is Some {
            let t = readable_stamp(lines[n - 1])->0;
            if prev.0 is None {
                assert(0 <= n - 1 < n && readable_stamp(lines[n - 1]) == Some(t) && forall|k: int|
                    0 <= k < n - 1 ==> readable_stamp(#[trigger] lines[k]) is None);
            } else {
                let f = prev.0->0;
                let j = choose|j: int|
                    0 <= j < n - 1 && readable_stamp(lines[j]) == Some(f) && forall|k: int|
                        0 <= k < j ==> readable_stamp(#[trigger] lines[k]) is None;
                assert(0 <= j < n && readable_stamp(lines[j]) == Some(f));
            }
            assert(0 <= n - 1 < n && readable_stamp(lines[n - 1]) == Some(t) && forall|k: int|
                n - 1 < k < n ==> readable_stamp(#[trigger] lines[k]) is None);
        } else {
            if prev.0 is Some {
                let f = prev.0->0;
                let j = choose|j: int|
                    0 <= j < n - 1 && readable_stamp(lines[j]) == Some(f) && forall|k: int|
                        0 <= k < j ==> readable_stamp(#[trigger] lines[k]) is None;
                assert(0 <= j < n && readable_stamp(lines[j]) == Some(f));
            }
            if prev.1 is Some {
                let l = prev.1->0;
                let j = choose|j: int|
                    0 <= j < n - 1 && readable_stamp(lines[j]) == Some(l) && forall|k: int|
                        j < k < n - 1 ==> readable_stamp(#[trigger] lines[k]) is None;
                assert(0 <= j < n && readable_stamp(lines[j]) == Some(l));
                assert forall|k: int| j < k < n implies readable_stamp(#[trigger] lines[k]) is None by {
                    if k < n - 1 {
                    }
                }
            }
        }
    }
}

/// Appending a line with a readable timestamp `t` to a rollout that already
/// has one makes the run end at `t`, keeping its start: the duration is then
/// the time from the first timestamp to `t`.
pub proof fn law_a_later_timestamp_extends_the_run(lines: Seq<Seq<char>>, line: Seq<char>)
    requires
        readable_stamp(line) is Some,
        span_of(lines, lines.len() as int).0 is Some,
    ensures
        span_of(lines.push(line), (lines.len() + 1) as int) == (
            span_of(lines, lines.len() as int).0,
            readable_stamp(line),
        ),
        run_duration(span_of(lines.push(line), (lines.len() + 1) as int)) == run_duration(
            (span_of(lines, lines.len() as int).0, readable_stamp(line)),
        ),
{
    let all = lines.push(line);
    assert forall|n: int| 0 <= n <= lines.len() implies span_of(all, n) == span_of(lines, n) by {
        lemma_span_prefix(lines, line, n);
    }
    assert(all[lines.len() as int] == line);
}

proof fn lemma_span_prefix(lines: Seq<Seq<char>>, line: Seq<char>, n: int)
    requires
        0 <= n <= lines.len(),
    ensures
        span_of(lines.push(line), n) == span_of(lines, n),
    decreases n,
{
    if n > 0 {
        lemma_span_prefix(lines, line, n - 1);
        assert(lines.push(line)[n - 1] == lines[n - 1]);
    }
}

} // verus!
