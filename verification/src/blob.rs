//! Recovering per-call output from the collapsed blob codex renders a long
//! script's `text()` stream as: by counting when every line survived, and by
//! the separator lines the script printed when lines were dropped.
use vstd::prelude::*;
use crate::exec_output::{envelope_output, strs, unwrap_exec_chunk_envelope};
use crate::text::{
    chars_of, eq_chars, join_lines, join_lines_chars, lines, lines_of, parse_u64, slice_chars,
    starts_with, starts_with_chars, string_of, trim, trim_chars, trim_end, trim_end_chars,
    unsigned_value, views,
};

verus! {

/// The line count a collapsed blob declares, and the lines it actually kept.
pub struct TruncatedBlob {
    pub declared: usize,
    pub body: Vec<String>,
}

impl TruncatedBlob {
    /// Codex dropped lines from the middle to fit the cap.
    pub fn truncated(&self) -> (r: bool)
        ensures
            r == (self.declared > self.body@.len()),
    {
        self.declared > self.body.len()
    }
}

/// The declared count and the body lines of a collapsed blob: exactly one
/// chunk whose first line starts with the truncation warning, whose second
/// line is `Total output lines: N`, and whose third line is empty.
pub open spec fn blob_of(chunks: Seq<Seq<char>>) -> Option<(int, Seq<Seq<char>>)> {
    if chunks.len() != 1 {
        None
    } else {
        let ls = lines(chunks[0]);
        if ls.len() < 1 || !starts_with(ls[0], "Warning: truncated output"@) {
            None
        } else if ls.len() < 2 || !starts_with(ls[1], "Total output lines: "@) {
            None
        } else {
            match unsigned_value(trim(ls[1].skip(20))) {
                None => None,
                Some(d) => if d > usize::MAX || ls.len() < 3 || ls[2].len() != 0 {
                    None
                } else {
                    Some((d as int, ls.skip(3)))
                },
            }
        }
    }
}

fn to_strings(v: &Vec<Vec<char>>, from: usize) -> (r: Vec<String>)
    requires
        from <= v@.len(),
    ensures
        strs(r@) == views(v@).skip(from as int),
{
    let mut out: Vec<String> = Vec::new();
    let mut i = from;
    while i < v.len()
        invariant
            from <= i <= v@.len(),
            out@.len() == i - from,
            strs(out@) == views(v@).subrange(from as int, i as int),
        decreases v.len() - i,
    {
        let ghost before = out@;
        let item = string_of(v[i].as_slice());
        out.push(item);
        i += 1;
        proof {
            assert forall|k: int| 0 <= k < strs(out@).len() implies strs(out@)[k] == views(
                v@,
            ).subrange(from as int, i as int)[k] by {
                if k < before.len() {
                    assert(out@[k] == before[k]);
                    assert(strs(before)[k] == views(v@).subrange(from as int, i - 1)[k]);
                }
            }
            assert(strs(out@) =~= views(v@).subrange(from as int, i as int));
        }
    }
    proof {
        assert(views(v@).subrange(from as int, v@.len() as int) =~= views(v@).skip(from as int));
    }
    out
}

/// The collapsed blob `chunks` consists of, if it is one.
pub fn truncated_blob(chunks: &Vec<String>) -> (r: Option<TruncatedBlob>)
    ensures
        match r {
            Some(b) => blob_of(strs(chunks@)) == Some((b.declared as int, strs(b.body@))),
            None => blob_of(strs(chunks@)) is None,
        },
{
    if chunks.len() != 1 {
        return None;
    }
    proof {
        assert(strs(chunks@)[0] == chunks@[0]@);
    }
    let text = chars_of(chunks[0].as_str());
    let ls = lines_of(text.as_slice());
    if ls.len() < 1 {
        return None;
    }
    proof {
        assert(views(ls@)[0] == ls@[0]@);
    }
    let warning = chars_of("Warning: truncated output");
    if !starts_with_chars(ls[0].as_slice(), warning.as_slice()) {
        return None;
    }
    if ls.len() < 2 {
        return None;
    }
    proof {
        assert(views(ls@)[1] == ls@[1]@);
    }
    let total = chars_of("Total output lines: ");
    if !starts_with_chars(ls[1].as_slice(), total.as_slice()) {
        return None;
    }
    proof {
        reveal_strlit("Total output lines: ");
        assert(total@.len() == 20);
    }
    let rest = slice_chars(ls[1].as_slice(), 20, ls[1].len());
    proof {
        assert(rest@ =~= ls@[1]@.skip(20));
    }
    let number = trim_chars(rest.as_slice());
    let declared = match parse_u64(number.as_slice()) {
        Some(d) => d,
        None => return None,
    };
    if declared > usize::MAX as u64 {
        return None;
    }
    if ls.len() < 3 {
        return None;
    }
    proof {
        assert(views(ls@)[2] == ls@[2]@);
    }
    if ls[2].len() != 0 {
        return None;
    }
    let body = to_strings(&ls, 3);
    Some(TruncatedBlob { declared: declared as usize, body })
}

fn clone_strings(v: &Vec<String>) -> (r: Vec<String>)
    ensures
        strs(r@) == strs(v@),
{
    let mut out: Vec<String> = Vec::new();
    let mut i: usize = 0;
    while i < v.len()
        invariant
            i <= v@.len(),
            out@.len() == i,
            strs(out@) == strs(v@).subrange(0, i as int),
        decreases v.len() - i,
    {
        let ghost before = out@;
        let item = v[i].clone();
        out.push(item);
        i += 1;
        proof {
            assert forall|k: int| 0 <= k < strs(out@).len() implies strs(out@)[k] == strs(
                v@,
            ).subrange(0, i as int)[k] by {
                if k < before.len() {
                    assert(out@[k] == before[k]);
                    assert(strs(before)[k] == strs(v@).subrange(0, i - 1)[k]);
                }
            }
            assert(strs(out@) =~= strs(v@).subrange(0, i as int));
        }
    }
    proof {
        assert(strs(v@).subrange(0, v@.len() as int) =~= strs(v@));
    }
    out
}

/// The per-call chunks inside a collapsed blob, when recovering them is
/// provable: the declared count, the kept lines and the calls all agree, and
/// every line is a complete exec envelope.
pub open spec fn uncollapsed(blob: Option<(int, Seq<Seq<char>>)>, calls: int) -> Option<
    Seq<Seq<char>>,
> {
    if calls == 0 {
        None
    } else {
        match blob {
            None => None,
            Some((declared, body)) => if body.len() != declared || declared != calls {
                None
            } else if forall|k: int| 0 <= k < body.len() ==> envelope_output(body[k]) is Some {
                Some(body)
            } else {
                None
            },
        }
    }
}

pub fn uncollapse_truncated_chunks(blob: Option<&TruncatedBlob>, calls: usize) -> (r: Option<
    Vec<String>,
>)
    ensures
        match r {
            Some(v) => uncollapsed(
                match blob {
                    Some(b) => Some((b.declared as int, strs(b.body@))),
                    None => None,
                },
                calls as int,
            ) == Some(strs(v@)),
            None => uncollapsed(
                match blob {
                    Some(b) => Some((b.declared as int, strs(b.body@))),
                    None => None,
                },
                calls as int,
            ) is None,
        },
{
    if calls == 0 {
        return None;
    }
    let b = match blob {
        Some(b) => b,
        None => return None,
    };
    if b.body.len() != b.declared || b.declared != calls {
        return None;
    }
    let mut i: usize = 0;
    while i < b.body.len()
        invariant
            i <= b.body@.len(),
            calls != 0,
            blob == Some(b),
            b.body@.len() == b.declared,
            b.declared == calls,
            forall|k: int| 0 <= k < i ==> envelope_output(#[trigger] strs(b.body@)[k]) is Some,
        decreases b.body.len() - i,
    {
        proof {
            assert(strs(b.body@)[i as int] == b.body@[i as int]@);
        }
        if unwrap_exec_chunk_envelope(b.body[i].as_str()).is_none() {
            proof {
                assert(envelope_output(strs(b.body@)[i as int]) is None);
            }
            return None;
        }
        i += 1;
    }
    Some(clone_strings(&b.body))
}


/// Every line of the blob with its trailing white space removed: the keys
/// separator lines are looked up by.
pub open spec fn line_keys(body: Seq<Seq<char>>) -> Seq<Seq<char>> {
    body.map_values(|l: Seq<char>| trim_end(l))
}

pub fn index_body_lines(body: &Vec<String>) -> (r: Vec<Vec<char>>)
    ensures
        views(r@) == line_keys(strs(body@)),
{
    let mut out: Vec<Vec<char>> = Vec::new();
    let mut i: usize = 0;
    while i < body.len()
        invariant
            i <= body@.len(),
            out@.len() == i,
            views(out@) == line_keys(strs(body@)).subrange(0, i as int),
        decreases body.len() - i,
    {
        let ghost before = out@;
        let line = chars_of(body[i].as_str());
        let key = trim_end_chars(line.as_slice());
        out.push(key);
        i += 1;
        proof {
            assert forall|k: int| 0 <= k < views(out@).len() implies views(out@)[k] == line_keys(
                strs(body@),
            ).subrange(0, i as int)[k] by {
                if k < before.len() {
                    assert(out@[k] == before[k]);
                    assert(views(before)[k] == line_keys(strs(body@)).subrange(0, i - 1)[k]);
                }
            }
            assert(views(out@) =~= line_keys(strs(body@)).subrange(0, i as int));
        }
    }
    proof {
        assert(line_keys(strs(body@)).subrange(0, body@.len() as int) =~= line_keys(strs(body@)));
    }
    out
}

/// Where `key` occurs among `keys[..n]`: `None` when absent, `Some(None)`
/// when it occurs more than once, `Some(Some(at))` when only at `at`.
pub open spec fn lookup_upto(keys: Seq<Seq<char>>, key: Seq<char>, n: int) -> Option<Option<int>>
    decreases n,
{
    if n <= 0 {
        None
    } else {
        let prev = lookup_upto(keys, key, n - 1);
        if keys[n - 1] == key {
            match prev {
                None => Some(Some(n - 1)),
                Some(_) => Some(None),
            }
        } else {
            prev
        }
    }
}

pub open spec fn lookup(keys: Seq<Seq<char>>, key: Seq<char>) -> Option<Option<int>> {
    lookup_upto(keys, key, keys.len() as int)
}

proof fn lemma_lookup_range(keys: Seq<Seq<char>>, key: Seq<char>, n: int)
    requires
        n <= keys.len(),
    ensures
        lookup_upto(keys, key, n) matches Some(Some(at)) ==> 0 <= at < n,
    decreases n,
{
    if n > 0 {
        lemma_lookup_range(keys, key, n - 1);
    }
}

fn lookup_key(keys: &Vec<Vec<char>>, key: &[char]) -> (r: Option<Option<usize>>)
    ensures
        match r {
            None => lookup(views(keys@), key@) is None,
            Some(None) => lookup(views(keys@), key@) == Some(None::<int>),
            Some(Some(at)) => lookup(views(keys@), key@) == Some(Some(at as int)),
        },
{
    let mut result: Option<Option<usize>> = None;
    let mut n: usize = 0;
    while n < keys.len()
        invariant
            n <= keys@.len(),
            match result {
                None => lookup_upto(views(keys@), key@, n as int) is None,
                Some(None) => lookup_upto(views(keys@), key@, n as int) == Some(None::<int>),
                Some(Some(at)) => lookup_upto(views(keys@), key@, n as int) == Some(
                    Some(at as int),
                ),
            },
        decreases keys.len() - n,
    {
        proof {
            assert(views(keys@)[n as int] == keys@[n as int]@);
        }
        if eq_chars(keys[n].as_slice(), key) {
            result = match result {
                None => Some(Some(n)),
                Some(_) => Some(None),
            };
        }
        n += 1;
    }
    result
}

/// The last position that was found, if any.
pub open spec fn last_some(found: Seq<Option<int>>) -> Option<int>
    decreases found.len(),
{
    if found.len() == 0 {
        None
    } else if found.last() is Some {
        found.last()
    } else {
        last_some(found.drop_last())
    }
}

/// Where each predicted separator line sits among the line keys, `None` for
/// the ones truncation removed; the whole candidate is refused when a
/// predicted line repeats or the lines run backwards.
pub open spec fn locate(keys: Seq<Seq<char>>, anchors: Seq<Seq<char>>) -> Option<Seq<Option<int>>>
    decreases anchors.len(),
{
    if anchors.len() == 0 {
        Some(Seq::empty())
    } else {
        match locate(keys, anchors.drop_last()) {
            None => None,
            Some(found) => match lookup(keys, trim_end(anchors.last())) {
                Some(None) => None,
                Some(Some(at)) => if last_some(found) matches Some(before) && at <= before {
                    None
                } else {
                    Some(found.push(Some(at)))
                },
                None => Some(found.push(None)),
            },
        }
    }
}

/// A refused prefix refuses every longer candidate.
proof fn lemma_locate_none_extends(keys: Seq<Seq<char>>, a: Seq<Seq<char>>, m: int, m2: int)
    requires
        0 <= m <= m2 <= a.len(),
        locate(keys, a.subrange(0, m)) is None,
    ensures
        locate(keys, a.subrange(0, m2)) is None,
    decreases m2 - m,
{
    if m2 > m {
        lemma_locate_none_extends(keys, a, m, m2 - 1);
        assert(a.subrange(0, m2).drop_last() =~= a.subrange(0, m2 - 1));
    }
}

pub open spec fn opt_views(v: Seq<Option<usize>>) -> Seq<Option<int>> {
    v.map_values(|o: Option<usize>| match o {
        Some(a) => Some(a as int),
        None => None,
    })
}

pub fn locate_anchors(keys: &Vec<Vec<char>>, anchors: &Vec<String>) -> (r: Option<
    Vec<Option<usize>>,
>)
    ensures
        match r {
            Some(f) => locate(views(keys@), strs(anchors@)) == Some(opt_views(f@)),
            None => locate(views(keys@), strs(anchors@)) is None,
        },
{
    let mut found: Vec<Option<usize>> = Vec::new();
    let mut previous: Option<usize> = None;
    let mut i: usize = 0;
    while i < anchors.len()
        invariant
            i <= anchors@.len(),
            found@.len() == i,
            locate(views(keys@), strs(anchors@).subrange(0, i as int)) == Some(opt_views(found@)),
            last_some(opt_views(found@)) == match previous {
                Some(p) => Some(p as int),
                None => None::<int>,
            },
        decreases anchors.len() - i,
    {
        let ghost prefix = strs(anchors@).subrange(0, i + 1);
        proof {
            assert(prefix.drop_last() =~= strs(anchors@).subrange(0, i as int));
            assert(prefix.last() == anchors@[i as int]@);
        }
        let line = chars_of(anchors[i].as_str());
        let key = trim_end_chars(line.as_slice());
        let hit = match lookup_key(keys, key.as_slice()) {
            Some(None) => {
                proof {
                    lemma_locate_none_extends(
                        views(keys@),
                        strs(anchors@),
                        i + 1,
                        anchors@.len() as int,
                    );
                    assert(strs(anchors@).subrange(0, anchors@.len() as int) =~= strs(anchors@));
                }
                return None;
            },
            Some(Some(at)) => Some(at),
            None => None,
        };
        if let Some(at) = hit {
            if let Some(before) = previous {
                if at <= before {
                    proof {
                        lemma_locate_none_extends(
                            views(keys@),
                            strs(anchors@),
                            i + 1,
                            anchors@.len() as int,
                        );
                        assert(strs(anchors@).subrange(0, anchors@.len() as int) =~= strs(
                            anchors@,
                        ));
                    }
                    return None;
                }
            }
            previous = Some(at);
        }
        let ghost before_found = found@;
        found.push(hit);
        proof {
            assert(opt_views(found@) =~= opt_views(before_found).push(
                match hit {
                    Some(a) => Some(a as int),
                    None => None,
                },
            ));
            assert(opt_views(found@).drop_last() =~= opt_views(before_found));
        }
        i += 1;
    }
    proof {
        assert(strs(anchors@).subrange(0, anchors@.len() as int) =~= strs(anchors@));
    }
    Some(found)
}


/// One call's share of a collapsed blob split on separator lines.
pub struct SeparatorSlot {
    /// The lines this call owns; `None` when it printed nothing.
    pub text: Option<String>,
    /// Whether a span of the blob could be attributed to this call at all.
    pub placed: bool,
    /// Calls whose separators were truncated away, leaving their output in
    /// this slot with no boundary to cut on.
    pub shares_with: Vec<usize>,
}

/// The first position at or after `m` whose separator was found.
pub open spec fn next_found(found: Seq<Option<int>>, m: int) -> int
    decreases found.len() - m,
{
    if m >= found.len() {
        found.len() as int
    } else if found[m] is Some {
        m
    } else {
        next_found(found, m + 1)
    }
}

/// A call owns a span when its separator survived; the first call owns the
/// head of the blob even without one.
pub open spec fn owns_span(found: Seq<Option<int>>, c: int) -> bool {
    found[c] is Some || c == 0
}

pub open spec fn span_start(found: Seq<Option<int>>, c: int) -> int {
    match found[c] {
        Some(at) => at + 1,
        None => 0,
    }
}

/// The span ends at the next surviving separator, or at the end of the blob.
pub open spec fn span_end(body_len: int, found: Seq<Option<int>>, c: int) -> int {
    let m = next_found(found, c + 1);
    if m < found.len() {
        found[m]->0
    } else {
        body_len
    }
}

/// The text of call `c`'s span: its lines joined, trailing white space removed.
pub open spec fn span_text(body: Seq<Seq<char>>, found: Seq<Option<int>>, c: int) -> Seq<char> {
    let start = span_start(found, c);
    let end = span_end(body.len() as int, found, c);
    trim_end(
        join_lines(
            if 0 <= start <= end <= body.len() {
                body.subrange(start, end)
            } else {
                Seq::empty()
            },
        ),
    )
}

/// The range of calls `from..to`.
pub open spec fn call_range(from: int, to: int) -> Seq<usize> {
    Seq::new((if to > from { to - from } else { 0 }) as nat, |k: int| (from + k) as usize)
}

/// Whether `slot` is call `c`'s share of the blob.
pub open spec fn slot_matches(
    slot: SeparatorSlot,
    body: Seq<Seq<char>>,
    found: Seq<Option<int>>,
    c: int,
) -> bool {
    if owns_span(found, c) {
        let text = span_text(body, found, c);
        &&& slot.placed
        &&& (if text.len() > 0 {
            slot.text matches Some(t) && t@ == text
        } else {
            slot.text is None
        })
        &&& slot.shares_with@ == call_range(c + 1, next_found(found, c + 1))
    } else {
        &&& !slot.placed
        &&& slot.text is None
        &&& slot.shares_with@.len() == 0
    }
}

proof fn lemma_next_found(found: Seq<Option<int>>, m: int)
    requires
        0 <= m,
    ensures
        m <= next_found(found, m) || m > found.len(),
        next_found(found, m) <= found.len() || m > found.len(),
        next_found(found, m) < found.len() ==> found[next_found(found, m)] is Some,
        forall|k: int| m <= k < next_found(found, m) ==> found[k] is None,
    decreases found.len() - m,
{
    if m < found.len() && found[m] is None {
        lemma_next_found(found, m + 1);
    }
}

fn next_found_exec(found: &Vec<Option<usize>>, m: usize) -> (r: usize)
    requires
        m <= found@.len(),
    ensures
        r as int == next_found(opt_views(found@), m as int),
        m <= r <= found@.len(),
{
    let mut k = m;
    proof {
        lemma_next_found(opt_views(found@), m as int);
    }
    while k < found.len() && found[k].is_none()
        invariant
            m <= k <= found@.len(),
            next_found(opt_views(found@), m as int) == next_found(opt_views(found@), k as int),
        decreases found.len() - k,
    {
        k += 1;
    }
    k
}

fn range_vec(from: usize, to: usize) -> (r: Vec<usize>)
    ensures
        r@ == call_range(from as int, to as int),
{
    let mut out: Vec<usize> = Vec::new();
    let mut k = from;
    while k < to
        invariant
            from <= k <= to || (to <= from && k == from),
            out@ == call_range(from as int, k as int),
        decreases to - k,
    {
        out.push(k);
        k += 1;
        proof {
            assert(out@ =~= call_range(from as int, k as int));
        }
    }
    proof {
        assert(out@ =~= call_range(from as int, to as int));
    }
    out
}

/// The blob split on the surviving separator positions `found`, one slot per
/// call.
pub fn slots_from_anchors(body: &Vec<String>, found: &Vec<Option<usize>>) -> (r: Vec<SeparatorSlot>)
    ensures
        r@.len() == found@.len(),
        forall|c: int|
            0 <= c < found@.len() ==> slot_matches(
                #[trigger] r@[c],
                strs(body@),
                opt_views(found@),
                c,
            ),
{
    let ghost f = opt_views(found@);
    let ghost b = strs(body@);
    let mut slots: Vec<SeparatorSlot> = Vec::new();
    let mut c: usize = 0;
    while c < found.len()
        invariant
            c <= found@.len(),
            f == opt_views(found@),
            b == strs(body@),
            slots@.len() == c,
            forall|k: int| 0 <= k < c ==> slot_matches(#[trigger] slots@[k], b, f, k),
        decreases found.len() - c,
    {
        proof {
            assert(f[c as int] == match found@[c as int] {
                Some(a) => Some(a as int),
                None => None::<int>,
            });
        }
        if found[c].is_some() || c == 0 {
            let start: usize = match found[c] {
                Some(at) => if at < usize::MAX {
                    at + 1
                } else {
                    at
                },
                None => 0,
            };
            let next = next_found_exec(found, c + 1);
            let end: usize = if next < found.len() {
                proof {
                    lemma_next_found(f, c + 1);
                    assert(f[next as int] == match found@[next as int] {
                        Some(a) => Some(a as int),
                        None => None::<int>,
                    });
                }
                match found[next] {
                    Some(at) => at,
                    None => body.len(),
                }
            } else {
                body.len()
            };
            let mut lines: Vec<Vec<char>> = Vec::new();
            let in_range = start <= end && end <= body.len() && (match found[c] {
                Some(at) => at < usize::MAX,
                None => true,
            });
            if in_range {
                let mut k = start;
                while k < end
                    invariant
                        start <= k <= end <= body@.len(),
                        b == strs(body@),
                        views(lines@) == b.subrange(start as int, k as int),
                        lines@.len() == k - start,
                    decreases end - k,
                {
                    let ghost before = lines@;
                    lines.push(chars_of(body[k].as_str()));
                    k += 1;
                    proof {
                        assert forall|m: int| 0 <= m < views(lines@).len() implies views(
                            lines@,
                        )[m] == b.subrange(start as int, k as int)[m] by {
                            if m < before.len() {
                                assert(lines@[m] == before[m]);
                                assert(views(before)[m] == b.subrange(start as int, k - 1)[m]);
                            }
                        }
                        assert(views(lines@) =~= b.subrange(start as int, k as int));
                    }
                }
            }
            proof {
                if !in_range {
                    assert(views(lines@) =~= Seq::<Seq<char>>::empty());
                }
            }
            let joined = join_lines_chars(&lines);
            let text = trim_end_chars(joined.as_slice());
            let slot = SeparatorSlot {
                text: if text.len() > 0 {
                    Some(string_of(text.as_slice()))
                } else {
                    None
                },
                placed: true,
                shares_with: range_vec(c + 1, next),
            };
            slots.push(slot);
        } else {
            slots.push(SeparatorSlot { text: None, placed: false, shares_with: Vec::new() });
        }
        proof {
            assert(slot_matches(slots@[c as int], b, f, c as int));
        }
        c += 1;
    }
    slots
}


/// How many separators a candidate found.
pub open spec fn hits(found: Seq<Option<int>>) -> int
    decreases found.len(),
{
    if found.len() == 0 {
        0
    } else {
        hits(found.drop_last()) + (if found.last() is Some {
            1int
        } else {
            0
        })
    }
}

/// The candidate that located the most separators among the first `n`, at
/// least two of them; the earliest wins a tie.
pub open spec fn best_upto(keys: Seq<Seq<char>>, cands: Seq<Seq<Seq<char>>>, n: int) -> Option<
    Seq<Option<int>>,
>
    decreases n,
{
    if n <= 0 {
        None
    } else {
        let prev = best_upto(keys, cands, n - 1);
        match locate(keys, cands[n - 1]) {
            Some(f) => if hits(f) >= 2 && (prev is None || hits(f) > hits(prev->0)) {
                Some(f)
            } else {
                prev
            },
            None => prev,
        }
    }
}

pub open spec fn cand_views(c: Seq<Vec<String>>) -> Seq<Seq<Seq<char>>> {
    c.map_values(|v: Vec<String>| strs(v@))
}

/// The separator positions a collapsed blob is split on, or `None` when it
/// cannot be read that way: fewer than two calls, no candidate, no blob, or
/// no candidate that locates at least two separators.
pub open spec fn separator_split(
    blob: Option<(int, Seq<Seq<char>>)>,
    calls: int,
    cands: Seq<Seq<Seq<char>>>,
) -> Option<Seq<Option<int>>> {
    if calls < 2 || cands.len() == 0 {
        None
    } else {
        match blob {
            None => None,
            Some((_, body)) => best_upto(line_keys(body), cands, cands.len() as int),
        }
    }
}

fn count_hits(found: &Vec<Option<usize>>) -> (r: usize)
    ensures
        r as int == hits(opt_views(found@)),
{
    let mut n: usize = 0;
    let mut i: usize = 0;
    while i < found.len()
        invariant
            i <= found@.len(),
            n <= i,
            n as int == hits(opt_views(found@).subrange(0, i as int)),
        decreases found.len() - i,
    {
        proof {
            assert(opt_views(found@).subrange(0, i + 1).drop_last() =~= opt_views(
                found@,
            ).subrange(0, i as int));
        }
        if found[i].is_some() {
            n += 1;
        }
        i += 1;
    }
    proof {
        assert(opt_views(found@).subrange(0, found@.len() as int) =~= opt_views(found@));
    }
    n
}

/// The blob split on the separator lines the script printed before each
/// result. `candidates` holds, per way of naming the calls, the separator
/// line predicted for each call; the split rests on the candidate that
/// locates the most of them, at least two.
pub fn split_by_separators(
    blob: Option<&TruncatedBlob>,
    calls: usize,
    candidates: &Vec<Vec<String>>,
) -> (r: Option<Vec<SeparatorSlot>>)
    ensures
        ({
            let chosen = separator_split(
                match blob {
                    Some(b) => Some((b.declared as int, strs(b.body@))),
                    None => None,
                },
                calls as int,
                cand_views(candidates@),
            );
            match r {
                None => chosen is None,
                Some(slots) => chosen matches Some(found) && slots@.len() == found.len() && match blob {
                    Some(b) => forall|c: int|
                        0 <= c < found.len() ==> slot_matches(
                            #[trigger] slots@[c],
                            strs(b.body@),
                            found,
                            c,
                        ),
                    None => false,
                },
            }
        }),
{
    if calls < 2 || candidates.len() == 0 {
        return None;
    }
    let b = match blob {
        Some(b) => b,
        None => return None,
    };
    let keys = index_body_lines(&b.body);
    let mut best: Option<Vec<Option<usize>>> = None;
    let mut best_hits: usize = 0;
    let mut n: usize = 0;
    while n < candidates.len()
        invariant
            n <= candidates@.len(),
            views(keys@) == line_keys(strs(b.body@)),
            match best {
                Some(f) => best_upto(views(keys@), cand_views(candidates@), n as int) == Some(
                    opt_views(f@),
                ) && best_hits as int == hits(opt_views(f@)),
                None => best_upto(views(keys@), cand_views(candidates@), n as int) is None,
            },
        decreases candidates.len() - n,
    {
        proof {
            assert(cand_views(candidates@)[n as int] == strs(candidates@[n as int]@));
        }
        match locate_anchors(&keys, &candidates[n]) {
            Some(found) => {
                let h = count_hits(&found);
                if h >= 2 && (best.is_none() || h > best_hits) {
                    best = Some(found);
                    best_hits = h;
                }
            },
            None => {},
        }
        n += 1;
    }
    match best {
        Some(found) => Some(slots_from_anchors(&b.body, &found)),
        None => None,
    }
}

/// The ways a script may have named its calls in separator lines: by their
/// labels when every call has one, then by position counted from zero and
/// from one.
pub open spec fn label_candidates(labels: Seq<Option<String>>) -> Seq<Seq<Seq<char>>> {
    let by0 = Seq::new(labels.len(), |i: int| crate::text::decimal(i as nat));
    let by1 = Seq::new(labels.len(), |i: int| crate::text::decimal((i + 1) as nat));
    if forall|i: int| 0 <= i < labels.len() ==> labels[i] is Some {
        seq![Seq::new(labels.len(), |i: int| labels[i]->0@), by0, by1]
    } else {
        seq![by0, by1]
    }
}

fn numbered(n: usize, offset: usize) -> (r: Vec<String>)
    requires
        offset <= 1,
    ensures
        strs(r@) == Seq::new(n as nat, |i: int| crate::text::decimal((i + offset) as nat)),
{
    let mut out: Vec<String> = Vec::new();
    let mut i: usize = 0;
    while i < n
        invariant
            i <= n,
            offset <= 1,
            out@.len() == i,
            strs(out@) == Seq::new(i as nat, |k: int| crate::text::decimal((k + offset) as nat)),
        decreases n - i,
    {
        let ghost before = out@;
        let value: u64 = i as u64 + offset as u64;
        out.push(crate::text::with_number("", value));
        proof {
            reveal_strlit("");
            assert(strs(out@) =~= Seq::new(
                (i + 1) as nat,
                |k: int| crate::text::decimal((k + offset) as nat),
            )) by {
                assert forall|k: int| 0 <= k < i + 1 implies strs(out@)[k]
                    == crate::text::decimal((k + offset) as nat) by {
                    if k < i {
                        assert(out@[k] == before[k]);
                        assert(strs(before)[k] == crate::text::decimal((k + offset) as nat));
                    } else {
                        assert(""@ =~= Seq::<char>::empty());
                    }
                }
            }
        }
        i += 1;
    }
    out
}

pub fn separator_values(labels: &Vec<Option<String>>) -> (r: Vec<Vec<String>>)
    ensures
        cand_views(r@) == label_candidates(labels@),
{
    let n = labels.len();
    let mut all = true;
    let mut i: usize = 0;
    while i < n
        invariant
            i <= n == labels@.len(),
            all <==> forall|k: int| 0 <= k < i ==> labels@[k] is Some,
        decreases n - i,
    {
        if labels[i].is_none() {
            all = false;
        }
        i += 1;
    }
    let mut out: Vec<Vec<String>> = Vec::new();
    if all {
        let mut names: Vec<String> = Vec::new();
        let mut k: usize = 0;
        while k < n
            invariant
                k <= n == labels@.len(),
                forall|m: int| 0 <= m < n ==> labels@[m] is Some,
                names@.len() == k,
                strs(names@) == Seq::new(k as nat, |m: int| labels@[m]->0@),
            decreases n - k,
        {
            let ghost before = names@;
            match &labels[k] {
                Some(name) => names.push(name.clone()),
                None => names.push(String::new()),
            }
            proof {
                assert(strs(names@) =~= Seq::new((k + 1) as nat, |m: int| labels@[m]->0@)) by {
                    assert forall|m: int| 0 <= m < k + 1 implies strs(names@)[m] == labels@[m]->0@ by {
                        if m < k {
                            assert(names@[m] == before[m]);
                            assert(strs(before)[m] == labels@[m]->0@);
                        }
                    }
                }
            }
            k += 1;
        }
        out.push(names);
    }
    let ghost lead = out@;
    let zero_based = numbered(n, 0);
    let one_based = numbered(n, 1);
    proof {
        let by0 = Seq::new(labels@.len(), |i: int| crate::text::decimal(i as nat));
        let by1 = Seq::new(labels@.len(), |i: int| crate::text::decimal((i + 1) as nat));
        assert(strs(zero_based@) =~= by0);
        assert(strs(one_based@) =~= by1);
    }
    out.push(zero_based);
    out.push(one_based);
    proof {
        assert(cand_views(out@) =~= label_candidates(labels@)) by {
            if all {
                assert(cand_views(out@)[0] == strs(lead[0]@));
            }
        }
    }
    out
}

/// Where a predicted separator line was found: its only place among the
/// line keys, `None` when it is missing or occurs more than once.
pub open spec fn found_at(keys: Seq<Seq<char>>, anchor: Seq<char>) -> Option<int> {
    match lookup(keys, trim_end(anchor)) {
        Some(Some(at)) => Some(at),
        _ => None,
    }
}

/// No predicted line among `anchors[..n]` occurs twice among the keys, and
/// the ones that were found stand in increasing order.
pub open spec fn anchors_in_order(keys: Seq<Seq<char>>, anchors: Seq<Seq<char>>, n: int) -> bool {
    &&& forall|i: int| 0 <= i < n ==> lookup(keys, trim_end(#[trigger] anchors[i])) != Some(None::<int>)
    &&& forall|i: int, j: int|
        0 <= i < j < n && (#[trigger] found_at(keys, anchors[i])) is Some && (#[trigger] found_at(
            keys,
            anchors[j],
        )) is Some ==> found_at(keys, anchors[i])->0 < found_at(keys, anchors[j])->0
}

proof fn lemma_last_some(found: Seq<Option<int>>)
    ensures
        last_some(found) is None <==> forall|i: int| 0 <= i < found.len() ==> (#[trigger] found[i]) is None,
        last_some(found) matches Some(b) ==> exists|i: int| 0 <= i < found.len() && found[i] == Some(b)
            && forall|k: int| i < k < found.len() ==> (#[trigger] found[k]) is None,
    decreases found.len(),
{
    if found.len() > 0 && found.last() is None {
        lemma_last_some(found.drop_last());
        assert forall|i: int| 0 <= i < found.len() - 1 implies found.drop_last()[i] == found[i] by {}
        if last_some(found) is Some {
            let b = last_some(found)->0;
            let i = choose|i: int| 0 <= i < found.drop_last().len() && found.drop_last()[i] == Some(b)
                && forall|k: int| i < k < found.drop_last().len() ==> (#[trigger] found.drop_last()[k]) is None;
            assert(found[i] == Some(b));
            assert forall|k: int| i < k < found.len() implies (#[trigger] found[k]) is None by {
                if k < found.len() - 1 {
                    assert(found.drop_last()[k] == found[k]);
                }
            }
        }
    } else if found.len() > 0 {
        assert(found[found.len() - 1] == last_some(found));
    }
}

/// Locating the predicted separator lines refuses a candidate exactly when
/// one of its lines occurs more than once among the body's lines, or two of
/// the lines that were found stand in the wrong order. Otherwise each line
/// is placed where it was found, and `None` marks a line truncation removed.
pub proof fn law_located_lines_are_unique_and_in_order(keys: Seq<Seq<char>>, anchors: Seq<Seq<char>>)
    ensures
        locate(keys, anchors) is Some <==> anchors_in_order(keys, anchors, anchors.len() as int),
        locate(keys, anchors) matches Some(found) ==> found.len() == anchors.len() && forall|i: int|
            0 <= i < anchors.len() ==> found[i] == found_at(keys, #[trigger] anchors[i]),
    decreases anchors.len(),
{
    if anchors.len() > 0 {
        let prefix = anchors.drop_last();
        let n = anchors.len() - 1;
        law_located_lines_are_unique_and_in_order(keys, prefix);
        assert forall|i: int| 0 <= i < n implies #[trigger] prefix[i] == anchors[i] by {}
        assert(anchors_in_order(keys, prefix, n) <==> anchors_in_order(keys, anchors, n)) by {
            if anchors_in_order(keys, prefix, n) {
                assert forall|i: int| 0 <= i < n implies lookup(keys, trim_end(#[trigger] anchors[i])) != Some(
                    None::<int>,
                ) by {
                    assert(prefix[i] == anchors[i]);
                }
                assert forall|i: int, j: int|
                    0 <= i < j < n && (#[trigger] found_at(keys, anchors[i])) is Some && (#[trigger] found_at(
                        keys,
                        anchors[j],
                    )) is Some implies found_at(keys, anchors[i])->0 < found_at(keys, anchors[j])->0 by {
                    assert(prefix[i] == anchors[i]);
                    assert(prefix[j] == anchors[j]);
                    assert(found_at(keys, prefix[i]) is Some);
                }
            }
            if anchors_in_order(keys, anchors, n) {
                assert forall|i: int| 0 <= i < n implies lookup(keys, trim_end(#[trigger] prefix[i])) != Some(
                    None::<int>,
                ) by {
                    assert(prefix[i] == anchors[i]);
                }
                assert forall|i: int, j: int|
                    0 <= i < j < n && (#[trigger] found_at(keys, prefix[i])) is Some && (#[trigger] found_at(
                        keys,
                        prefix[j],
                    )) is Some implies found_at(keys, prefix[i])->0 < found_at(keys, prefix[j])->0 by {
                    assert(prefix[i] == anchors[i]);
                    assert(prefix[j] == anchors[j]);
                    assert(found_at(keys, anchors[i]) is Some);
                }
            }
        }
        let a = anchors.last();
        assert(a == anchors[n]);
        match locate(keys, prefix) {
            None => {
                assert(!anchors_in_order(keys, anchors, n));
            },
            Some(found) => {
                lemma_last_some(found);
                match lookup(keys, trim_end(a)) {
                    Some(None) => {
                        assert(lookup(keys, trim_end(anchors[n])) == Some(None::<int>));
                    },
                    Some(Some(at)) => {
                        assert(found_at(keys, anchors[n]) == Some(at));
                        if let Some(before) = last_some(found) {
                            let i = choose|i: int| 0 <= i < found.len() && found[i] == Some(before)
                                && forall|k: int| i < k < found.len() ==> (#[trigger] found[k]) is None;
                            assert(prefix[i] == anchors[i]);
                            assert(found[i] == found_at(keys, prefix[i]));
                            assert(found_at(keys, anchors[i]) == Some(before));
                            if at > before {
                                assert forall|p: int, q: int|
                                    0 <= p < q < anchors.len() && (#[trigger] found_at(keys, anchors[p])) is Some
                                        && (#[trigger] found_at(keys, anchors[q])) is Some implies found_at(
                                    keys,
                                    anchors[p],
                                )->0 < found_at(keys, anchors[q])->0 by {
                                    if q == n {
                                        assert(prefix[p] == anchors[p]);
                                        assert(found[p] == found_at(keys, prefix[p]));
                                        if p < i {
                                            assert(found_at(keys, anchors[p])->0 < before);
                                        } else if p > i {
                                            assert(found[p] is None);
                                        }
                                    }
                                }
                            } else {
                                assert(found_at(keys, anchors[i]) is Some);
                                assert(!(found_at(keys, anchors[i])->0 < found_at(keys, anchors[n])->0));
                            }
                        } else {
                            assert forall|p: int, q: int|
                                0 <= p < q < anchors.len() && (#[trigger] found_at(keys, anchors[p])) is Some
                                    && (#[trigger] found_at(keys, anchors[q])) is Some implies found_at(
                                keys,
                                anchors[p],
                            )->0 < found_at(keys, anchors[q])->0 by {
                                if q == n {
                                    assert(prefix[p] == anchors[p]);
                                        assert(found[p] == found_at(keys, prefix[p]));
                                    assert(found[p] is None);
                                }
                            }
                        }
                    },
                    None => {
                        assert(found_at(keys, anchors[n]) is None);
                    },
                }
                if let Some(out) = locate(keys, anchors) {
                    assert forall|i: int| 0 <= i < anchors.len() implies out[i] == found_at(
                        keys,
                        #[trigger] anchors[i],
                    ) by {
                        if i < n {
                            assert(prefix[i] == anchors[i]);
                            assert(out[i] == found[i]);
                            assert(found[i] == found_at(keys, prefix[i]));
                        }
                    }
                }
            },
        }
    }
}

} // verus!
