//! Reading the output codex's unified-exec tools print: the `Chunk ID:` /
//! `Output:` envelope, its JSON object form, and the collapsed blob codex
//! renders a long script's output stream as.
use vstd::prelude::*;
use crate::json::{json_parse_result, parse_json};
use crate::text::{
    chars_of, eq_chars, is_digit, join_lines, join_lines_chars, lines, lines_of, lower_chars,
    lower_seq, slice_chars, starts_with, starts_with_chars, string_of, trim, trim_chars, trim_end,
    trim_end_chars, trim_start, trim_start_chars, trim_str, views,
};

verus! {

/// State while scanning an exec envelope: the `$ ` command line, whether the
/// `Output:` header was seen, and the output lines after it.
pub type ScanState = (Option<Seq<char>>, bool, Seq<Seq<char>>);

pub open spec fn scan_step(st: ScanState, line: Seq<char>) -> ScanState {
    if st.0 is None && starts_with(line, "$ "@) {
        (Some(line), st.1, st.2)
    } else if trim_end(line) == "Output:"@ {
        (st.0, true, st.2)
    } else if st.1 {
        (st.0, st.1, st.2.push(line))
    } else {
        st
    }
}

pub open spec fn scan(ls: Seq<Seq<char>>) -> ScanState
    decreases ls.len(),
{
    if ls.len() == 0 {
        (None, false, Seq::empty())
    } else {
        scan_step(scan(ls.drop_last()), ls.last())
    }
}

/// The command line and body of an exec envelope, or `None` when the text has
/// neither a `$ ` command line nor an `Output:` header.
pub open spec fn exec_split(text: Seq<char>) -> Option<Seq<char>> {
    let st = scan(lines(text));
    if st.0 is None && !st.1 {
        None
    } else {
        let head = match st.0 {
            Some(c) => c,
            None => Seq::empty(),
        };
        Some(
            if st.2.len() == 0 {
                head
            } else if head.len() == 0 {
                join_lines(st.2)
            } else {
                head + seq!['\n'] + join_lines(st.2)
            },
        )
    }
}

/// The command line and body of a codex exec envelope, or `None` when the
/// text carries neither. An envelope with an empty body answers `Some("")`.
pub fn split_codex_exec_output(text: &str) -> (r: Option<String>)
    ensures
        match r {
            Some(s) => exec_split(text@) == Some(s@),
            None => exec_split(text@) is None,
        },
{
    let chars = chars_of(text);
    let ls = lines_of(chars.as_slice());
    let dollar = chars_of("$ ");
    let output_header = chars_of("Output:");
    let mut cmd_line: Option<Vec<char>> = None;
    let mut in_output = false;
    let mut output_lines: Vec<Vec<char>> = Vec::new();
    let mut i: usize = 0;
    while i < ls.len()
        invariant
            i <= ls@.len(),
            views(ls@) == lines(text@),
            dollar@ == "$ "@,
            output_header@ == "Output:"@,
            ({
                let st = scan(views(ls@).subrange(0, i as int));
                &&& st.0 == (match cmd_line {
                    Some(c) => Some(c@),
                    None => None,
                })
                &&& st.1 == in_output
                &&& st.2 == views(output_lines@)
            }),
        decreases ls.len() - i,
    {
        proof {
            assert(views(ls@).subrange(0, i + 1).drop_last() =~= views(ls@).subrange(0, i as int));
            assert(views(ls@).subrange(0, i + 1).last() == ls@[i as int]@);
        }
        let line = &ls[i];
        if cmd_line.is_none() && starts_with_chars(line.as_slice(), dollar.as_slice()) {
            cmd_line = Some(slice_chars(line.as_slice(), 0, line.len()));
            proof {
                assert(line@.subrange(0, line@.len() as int) =~= line@);
            }
        } else {
            let trimmed = trim_end_chars(line.as_slice());
            if eq_chars(trimmed.as_slice(), output_header.as_slice()) {
                in_output = true;
            } else if in_output {
                output_lines.push(slice_chars(line.as_slice(), 0, line.len()));
                proof {
                    assert(line@.subrange(0, line@.len() as int) =~= line@);
                    assert(views(output_lines@) =~= scan(views(ls@).subrange(0, i as int)).2.push(
                        line@,
                    ));
                }
            }
        }
        i += 1;
    }
    proof {
        assert(views(ls@).subrange(0, ls@.len() as int) =~= views(ls@));
    }
    if cmd_line.is_none() && !in_output {
        return None;
    }
    let mut result: Vec<char> = match cmd_line {
        Some(c) => c,
        None => Vec::new(),
    };
    if output_lines.len() > 0 {
        if result.len() > 0 {
            result.push('\n');
        }
        let mut joined = join_lines_chars(&output_lines);
        result.append(&mut joined);
    }
    Some(string_of(result.as_slice()))
}

/// The envelope's command and body when there is a non-empty one, else the
/// text unchanged.
pub open spec fn exec_clean(text: Seq<char>) -> Seq<char> {
    match exec_split(text) {
        Some(s) => if s.len() > 0 {
            s
        } else {
            text
        },
        None => text,
    }
}

pub fn clean_codex_exec_output(text: &str) -> (r: String)
    ensures
        r@ == exec_clean(text@),
{
    match split_codex_exec_output(text) {
        Some(cleaned) => {
            if !cleaned.as_str().is_empty() {
                cleaned
            } else {
                text.to_owned()
            }
        },
        None => text.to_owned(),
    }
}


/// The `output` an exec result object wraps, when the text is such an object:
/// a JSON object carrying all of `chunk_id`, `wall_time_seconds`,
/// `original_token_count` and `output`, the last a string.
pub open spec fn envelope_output(text: Seq<char>) -> Option<Seq<char>> {
    match json_parse_result(trim(text)) {
        Some(v) => if v.is_object() && v.field("chunk_id"@) is Some && v.field(
            "wall_time_seconds"@,
        ) is Some && v.field("original_token_count"@) is Some && v.field("output"@) is Some {
            v.str_field("output"@)
        } else {
            None
        },
        None => None,
    }
}

/// A `tools.exec_command()` result the script printed verbatim, reduced to
/// the output it wraps.
pub fn unwrap_exec_chunk_envelope(text: &str) -> (r: Option<String>)
    ensures
        match r {
            Some(s) => envelope_output(text@) == Some(s@),
            None => envelope_output(text@) is None,
        },
{
    let trimmed = trim_str(text);
    let value = match parse_json(trimmed.as_str()) {
        Some(v) => v,
        None => return None,
    };
    if !value.is_object_value() {
        return None;
    }
    if value.get("chunk_id").is_none() || value.get("wall_time_seconds").is_none() || value.get(
        "original_token_count",
    ).is_none() || value.get("output").is_none() {
        return None;
    }
    match value.get_str("output") {
        Some(o) => Some(o.to_owned()),
        None => None,
    }
}

/// Whether the first line of an output announces an exec envelope header.
pub open spec fn announces_envelope(first: Seq<char>) -> bool {
    let f = lower_seq(trim_start(first));
    starts_with(f, "chunk id:"@) || starts_with(f, "wall time"@) || starts_with(f, "process "@)
        || starts_with(f, "script "@)
}

/// The text without whichever exec envelope wraps it, or `None` when it is
/// wrapped in neither form. The header form is recognised only when the first
/// line announces it.
pub open spec fn envelope_stripped(text: Seq<char>) -> Option<Seq<char>> {
    match envelope_output(text) {
        Some(o) => Some(o),
        None => if lines(text).len() == 0 {
            None
        } else if announces_envelope(lines(text)[0]) {
            exec_split(text)
        } else {
            None
        },
    }
}

pub fn strip_exec_envelope(text: &str) -> (r: Option<String>)
    ensures
        match r {
            Some(s) => envelope_stripped(text@) == Some(s@),
            None => envelope_stripped(text@) is None,
        },
{
    if let Some(unwrapped) = unwrap_exec_chunk_envelope(text) {
        return Some(unwrapped);
    }
    let chars = chars_of(text);
    let ls = lines_of(chars.as_slice());
    if ls.len() == 0 {
        return None;
    }
    proof {
        assert(views(ls@)[0] == ls@[0]@);
    }
    let first = lower_chars(trim_start_chars(ls[0].as_slice()).as_slice());
    let announced = starts_with_chars(first.as_slice(), chars_of("chunk id:").as_slice())
        || starts_with_chars(first.as_slice(), chars_of("wall time").as_slice())
        || starts_with_chars(first.as_slice(), chars_of("process ").as_slice())
        || starts_with_chars(first.as_slice(), chars_of("script ").as_slice());
    if !announced {
        return None;
    }
    split_codex_exec_output(text)
}

/// Digit-blind form from position `from`, given whether the character before
/// it was a digit: every run of digits becomes one `#`.
pub open spec fn digit_blind_from(s: Seq<char>, in_digits: bool) -> Seq<char>
    decreases s.len(),
{
    if s.len() == 0 {
        Seq::empty()
    } else if is_digit(s[0]) {
        if in_digits {
            digit_blind_from(s.drop_first(), true)
        } else {
            seq!['#'] + digit_blind_from(s.drop_first(), true)
        }
    } else {
        seq![s[0]] + digit_blind_from(s.drop_first(), false)
    }
}

/// `text` trimmed, with every run of digits collapsed to `#`.
pub open spec fn digit_blind_spec(text: Seq<char>) -> Seq<char> {
    digit_blind_from(trim(text), false)
}

pub fn digit_blind_chars(text: &[char]) -> (r: Vec<char>)
    ensures
        r@ == digit_blind_spec(text@),
{
    let t = trim_chars(text);
    let mut out: Vec<char> = Vec::new();
    let mut digits = false;
    let mut i: usize = 0;
    proof {
        assert(t@.skip(0) =~= t@);
    }
    while i < t.len()
        invariant
            i <= t@.len(),
            out@ + digit_blind_from(t@.skip(i as int), digits) == digit_blind_from(t@, false),
        decreases t.len() - i,
    {
        let ch = t[i];
        proof {
            assert(t@.skip(i as int).drop_first() =~= t@.skip(i + 1));
            assert(t@.skip(i as int)[0] == ch);
        }
        let ghost before = out@;
        if '0' <= ch && ch <= '9' {
            if !digits {
                out.push('#');
                digits = true;
                proof {
                    assert(out@ + digit_blind_from(t@.skip(i + 1), true) =~= before + (seq!['#']
                        + digit_blind_from(t@.skip(i + 1), true)));
                }
            }
        } else {
            let was = digits;
            digits = false;
            out.push(ch);
            proof {
                assert(out@ + digit_blind_from(t@.skip(i + 1), false) =~= before + (seq![ch]
                    + digit_blind_from(t@.skip(i + 1), false)));
            }
        }
        i += 1;
    }
    proof {
        assert(t@.skip(t@.len() as int) =~= Seq::<char>::empty());
        assert(out@ =~= out@ + digit_blind_from(t@.skip(i as int), digits));
    }
    out
}

/// `text` trimmed with every run of digits collapsed to `#`, so
/// `---RESULT 1---` and `---RESULT 2---` compare equal.
pub fn digit_blind(text: &str) -> (r: String)
    ensures
        r@ == digit_blind_spec(text@),
{
    let chars = chars_of(text);
    let v = digit_blind_chars(chars.as_slice());
    string_of(v.as_slice())
}

/// The character sequences of a list of strings.
pub open spec fn strs(v: Seq<String>) -> Seq<Seq<char>> {
    v.map_values(|s: String| s@)
}

/// Whether chunk `slot` of every group of `stride` chunks looks the same once
/// digits are ignored, and is not blank.
pub open spec fn slot_repeats(chunks: Seq<Seq<char>>, calls: int, stride: int, slot: int) -> bool {
    &&& digit_blind_spec(chunks[slot]).len() > 0
    &&& forall|index: int|
        1 <= index < calls ==> #[trigger] digit_blind_spec(chunks[index * stride + slot])
            == digit_blind_spec(chunks[slot])
}

/// How many chunks each call contributed, or `None` when the chunks do not
/// provably divide into one group per call: one chunk per call always does;
/// more need the script's `text()` run to be exactly that long and some slot
/// of the groups to repeat.
pub open spec fn chunk_stride(chunks: Seq<Seq<char>>, calls: int, text_run: Option<usize>) -> Option<int> {
    let n = chunks.len() as int;
    if calls <= 0 || n == 0 || n % calls != 0 {
        None
    } else {
        let stride = n / calls;
        if stride == 1 {
            Some(1)
        } else if text_run != Some(stride as usize) {
            None
        } else if exists|slot: int| 0 <= slot < stride && slot_repeats(chunks, calls, stride, slot) {
            Some(stride)
        } else {
            None
        }
    }
}

proof fn lemma_group_index(index: int, stride: int, slot: int, calls: int)
    requires
        0 <= index < calls,
        0 <= slot < stride,
    ensures
        0 <= index * stride + slot < calls * stride,
        index * stride + stride <= calls * stride,
{
    assert(index * stride + stride <= calls * stride) by (nonlinear_arith)
        requires
            index < calls,
            0 <= slot < stride,
            0 <= index,
    ;
    assert(0 <= index * stride) by (nonlinear_arith)
        requires
            0 <= index,
            0 <= slot < stride,
    ;
}

pub fn call_chunk_stride(chunks: &Vec<String>, calls: usize, text_run: Option<usize>) -> (r: Option<usize>)
    ensures
        match r {
            Some(s) => chunk_stride(strs(chunks@), calls as int, text_run) == Some(s as int),
            None => chunk_stride(strs(chunks@), calls as int, text_run) is None,
        },
{
    let ghost cs = strs(chunks@);
    if calls == 0 || chunks.len() == 0 || chunks.len() % calls != 0 {
        return None;
    }
    let stride = chunks.len() / calls;
    proof {
        assert(chunks@.len() == calls * stride) by (nonlinear_arith)
            requires
                (chunks@.len() as int) % (calls as int) == 0,
                stride == (chunks@.len() as int) / (calls as int),
                calls > 0,
        ;
    }
    if stride == 1 {
        return Some(1);
    }
    if text_run != Some(stride) {
        return None;
    }
    let n = chunks.len();
    proof {
        assert(stride <= n) by (nonlinear_arith)
            requires
                n == calls * stride,
                calls >= 1,
        ;
    }
    let mut slot: usize = 0;
    while slot < stride
        invariant
            cs == strs(chunks@),
            n == chunks@.len(),
            chunks@.len() == calls * stride,
            stride <= n,
            stride as int == (chunks@.len() as int) / (calls as int),
            (chunks@.len() as int) % (calls as int) == 0,
            text_run == Some(stride),
            stride != 1,
            calls > 0,
            forall|s: int| 0 <= s < slot ==> !slot_repeats(cs, calls as int, stride as int, s),
            slot <= stride,
        decreases stride - slot,
    {
        let marker = digit_blind(chunks[slot].as_str());
        if !marker.as_str().is_empty() {
            let mut index: usize = 1;
            let mut all = true;
            while index < calls
                invariant
                    cs == strs(chunks@),
                    n == chunks@.len(),
                    chunks@.len() == calls * stride,
                    slot < stride,
                    stride <= n,
                    1 <= index <= calls,
                    marker@ == digit_blind_spec(cs[slot as int]),
                    all ==> forall|m: int|
                        1 <= m < index ==> #[trigger] digit_blind_spec(
                            cs[m * stride + slot],
                        ) == digit_blind_spec(cs[slot as int]),
                    !all ==> !slot_repeats(cs, calls as int, stride as int, slot as int),
                decreases calls - index,
            {
                proof {
                    lemma_group_index(index as int, stride as int, slot as int, calls as int);
                }
                let k = index * stride + slot;
                let other = digit_blind(chunks[k].as_str());
                proof {
                    assert(cs[k as int] == chunks@[k as int]@);
                }
                if !str_same(other.as_str(), marker.as_str()) {
                    proof {
                        assert(digit_blind_spec(cs[index * stride + slot]) != digit_blind_spec(
                            cs[slot as int],
                        ));
                    }
                    all = false;
                }
                index += 1;
            }
            if all {
                proof {
                    assert(slot_repeats(cs, calls as int, stride as int, slot as int));
                }
                return Some(stride);
            }
        }
        slot += 1;
    }
    None
}

fn str_same(a: &str, b: &str) -> (r: bool)
    ensures
        r == (a@ == b@),
{
    crate::text::str_eq(a, b)
}

proof fn lemma_scan_header(head: Seq<Seq<char>>, n: int)
    requires
        0 <= n <= head.len(),
        forall|k: int| 0 <= k < head.len() ==> !starts_with(#[trigger] head[k], "$ "@) && trim_end(head[k]) != "Output:"@,
    ensures
        scan(head.take(n)) == (None::<Seq<char>>, false, Seq::<Seq<char>>::empty()),
    decreases n,
{
    if n > 0 {
        lemma_scan_header(head, n - 1);
        assert(head.take(n).drop_last() =~= head.take(n - 1));
        assert(head.take(n).last() == head[n - 1]);
    }
}

proof fn lemma_scan_body(pre: Seq<Seq<char>>, body: Seq<Seq<char>>, m: int)
    requires
        0 <= m <= body.len(),
        scan(pre) == (None::<Seq<char>>, true, Seq::<Seq<char>>::empty()),
        forall|k: int| 0 <= k < body.len() ==> !starts_with(#[trigger] body[k], "$ "@) && trim_end(body[k]) != "Output:"@,
    ensures
        scan(pre + body.take(m)) == (None::<Seq<char>>, true, body.take(m)),
    decreases m,
{
    if m == 0 {
        assert(pre + body.take(0) =~= pre);
        assert(body.take(0) =~= Seq::<Seq<char>>::empty());
    } else {
        lemma_scan_body(pre, body, m - 1);
        assert((pre + body.take(m)).drop_last() =~= pre + body.take(m - 1));
        assert((pre + body.take(m)).last() == body[m - 1]);
        assert(body.take(m - 1).push(body[m - 1]) =~= body.take(m));
    }
}

/// Every line after the `Output:` header is kept, in order: for an envelope
/// whose lines are header lines, the `Output:` line and body lines (none of
/// them a `$ ` command line, none but the header line reading `Output:`),
/// the envelope's content is the body lines joined with newlines; and when
/// the text is not the JSON form and its first line announces the envelope,
/// stripping the envelope gives that text.
pub proof fn law_every_output_line_is_kept(text: Seq<char>, head: Seq<Seq<char>>, body: Seq<Seq<char>>)
    requires
        lines(text) == head + seq!["Output:"@] + body,
        forall|k: int| 0 <= k < head.len() ==> !starts_with(#[trigger] head[k], "$ "@) && trim_end(head[k]) != "Output:"@,
        forall|k: int| 0 <= k < body.len() ==> !starts_with(#[trigger] body[k], "$ "@) && trim_end(body[k]) != "Output:"@,
    ensures
        exec_split(text) == Some(join_lines(body)),
        json_parse_result(trim(text)) is None && head.len() > 0 && announces_envelope(head[0])
            ==> envelope_stripped(text) == Some(join_lines(body)),
{
    reveal_strlit("Output:");
    reveal_strlit("$ ");
    let o: Seq<char> = "Output:"@;
    lemma_scan_header(head, head.len() as int);
    assert(head.take(head.len() as int) =~= head);
    let pre = head.push(o);
    assert(pre.drop_last() =~= head);
    assert(!starts_with(o, "$ "@)) by {
        assert(o[0] != '$');
        assert("$ "@[0] == '$');
        assert(o.subrange(0, 2)[0] == o[0]);
        assert(o.subrange(0, 2) != "$ "@);
    }
    assert(trim_end(o) == o) by {
        assert(o.last() == ':');
    }
    assert(scan(pre) == (None::<Seq<char>>, true, Seq::<Seq<char>>::empty()));
    lemma_scan_body(pre, body, body.len() as int);
    assert(body.take(body.len() as int) =~= body);
    assert(head + seq![o] + body =~= pre + body);
    assert(lines(text)[0] == (pre + body)[0]);
}

} // verus!
