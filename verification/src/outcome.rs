//! Deciding whether a tool call failed, from its status, its structured
//! output, or the text it printed.
use vstd::prelude::*;
use crate::json::{json_parse_result, lemma_string_bound, parse_json, string_bound, strings_within, Json};
use crate::text::{
    chars_of, contains, contains_chars, eq_ignore_ascii_case, eq_ignore_ascii_case_chars,
    find_char, find_char_chars, first_word, first_word_chars, lines, lines_of, lower_chars,
    lower_seq, signed_value, parse_i64, slice_chars, starts_with, starts_with_chars, trim,
    trim_chars, trim_end, trim_end_chars, views,
};

verus! {

/// A status word that means the call did not succeed.
pub open spec fn failed_status(status: Seq<char>) -> bool {
    let s = trim(status);
    eq_ignore_ascii_case(s, "error"@) || eq_ignore_ascii_case(s, "failed"@)
        || eq_ignore_ascii_case(s, "failure"@) || eq_ignore_ascii_case(s, "cancelled"@)
        || eq_ignore_ascii_case(s, "canceled"@)
}

pub fn is_failed_status(status: &str) -> (r: bool)
    ensures
        r == failed_status(status@),
{
    let s = trim_chars(chars_of(status).as_slice());
    eq_ignore_ascii_case_chars(s.as_slice(), chars_of("error").as_slice())
        || eq_ignore_ascii_case_chars(s.as_slice(), chars_of("failed").as_slice())
        || eq_ignore_ascii_case_chars(s.as_slice(), chars_of("failure").as_slice())
        || eq_ignore_ascii_case_chars(s.as_slice(), chars_of("cancelled").as_slice())
        || eq_ignore_ascii_case_chars(s.as_slice(), chars_of("canceled").as_slice())
}

/// A non-zero code from an `Exit code: N` line.
pub open spec fn nonzero_exit_code(line: Seq<char>) -> Option<i64> {
    let t = trim(line);
    match find_char(t, ':', 0) {
        None => None,
        Some(p) => if !eq_ignore_ascii_case(trim_end(t.subrange(0, p)), "exit code"@) {
            None
        } else {
            match first_word(t.subrange(p + 1, t.len() as int)) {
                None => None,
                Some(w) => match signed_value(w) {
                    Some(code) => if code == 0 {
                        None
                    } else {
                        Some(code)
                    },
                    None => None,
                },
            }
        },
    }
}

pub fn parse_nonzero_exit_code_from_line(line: &str) -> (r: Option<i64>)
    ensures
        r == nonzero_exit_code(line@),
{
    let t = trim_chars(chars_of(line).as_slice());
    let p = match find_char_chars(t.as_slice(), ':') {
        Some(p) => p,
        None => return None,
    };
    proof {
        crate::text::lemma_find_char(t@, ':', 0);
    }
    let label = trim_end_chars(slice_chars(t.as_slice(), 0, p).as_slice());
    if !eq_ignore_ascii_case_chars(label.as_slice(), chars_of("exit code").as_slice()) {
        return None;
    }
    let n = t.len();
    assert(p < n);
    let rest = slice_chars(t.as_slice(), p + 1, n);
    let word = match first_word_chars(rest.as_slice()) {
        Some(w) => w,
        None => return None,
    };
    match parse_i64(word.as_slice()) {
        Some(code) => if code == 0 {
            None
        } else {
            Some(code)
        },
        None => None,
    }
}

/// A shell's own complaint: `bash:`, `zsh:` or `sh:` followed by a missing
/// command, a missing file or a refused permission.
pub open spec fn shell_error_line(line: Seq<char>) -> bool {
    let lower = lower_seq(trim(line));
    (starts_with(lower, "bash:"@) || starts_with(lower, "zsh:"@) || starts_with(lower, "sh:"@)) && (
    contains(lower, "command not found"@) || contains(lower, "no such file or directory"@)
        || contains(lower, "permission denied"@))
}

fn is_shell_error_line(line: &[char]) -> (r: bool)
    ensures
        r == shell_error_line(line@),
{
    let lower = lower_chars(trim_chars(line).as_slice());
    let prefixed = starts_with_chars(lower.as_slice(), chars_of("bash:").as_slice())
        || starts_with_chars(lower.as_slice(), chars_of("zsh:").as_slice())
        || starts_with_chars(lower.as_slice(), chars_of("sh:").as_slice());
    prefixed && (contains_chars(lower.as_slice(), chars_of("command not found").as_slice())
        || contains_chars(lower.as_slice(), chars_of("no such file or directory").as_slice())
        || contains_chars(lower.as_slice(), chars_of("permission denied").as_slice()))
}

/// An `error` member that reports something: anything but `null`, `false` or
/// a blank string.
pub open spec fn error_reported(e: Json) -> bool {
    match e {
        Json::Null => false,
        Json::Bool(b) => b,
        Json::Str(s) => trim(s@).len() > 0,
        _ => true,
    }
}

pub open spec fn min_int(a: int, b: int) -> int {
    if a <= b {
        a
    } else {
        b
    }
}

/// Whether printed output reads as a failure: a non-zero `Exit code:` among
/// its first 16 lines, a shell complaint among its first 32, a JSON document
/// that reports an error, or a leading `error:`.
pub open spec fn text_error(t: Seq<char>) -> bool
    decreases t.len(), 1int, 0int, 0int,
{
    let ls = lines(t);
    let tr = trim(t);
    if exists|i: int| 0 <= i < min_int(16, ls.len() as int) && #[trigger] nonzero_exit_code(ls[i]) is Some {
        true
    } else if exists|i: int| 0 <= i < min_int(32, ls.len() as int) && #[trigger] shell_error_line(ls[i]) {
        true
    } else if tr.len() == 0 {
        false
    } else {
        proof {
            crate::text::lemma_trim_len(t);
        }
        ||| ((tr[0] == '{' || tr[0] == '[') && match json_parse_result(tr) {
            Some(v) => value_error(v, 0, tr.len() as int),
            None => false,
        })
        ||| (tr.len() >= 6 && eq_ignore_ascii_case(tr.subrange(0, 6), "error:"@))
    }
}

/// Whether a structured output reports an error, looking at most four levels
/// deep; `bound` exceeds the length of every string the value holds.
pub open spec fn value_error(v: Json, depth: int, bound: int) -> bool
    decreases bound, 0int, 5 - depth, 0int,
{
    if depth > 4 || depth < 0 {
        false
    } else {
        match v {
            Json::Str(s) => if s@.len() < bound {
                text_error(s@)
            } else {
                false
            },
            Json::Array(items) => any_item_error(items@, 0, depth + 1, bound),
            Json::Object(_) => {
                ||| v.bool_field("is_error"@) == Some(true)
                ||| v.bool_field("ok"@) == Some(false)
                ||| v.bool_field("success"@) == Some(false)
                ||| (v.str_field("status"@) matches Some(s) && failed_status(s))
                ||| (v.field("exit_code"@) matches Some(e) && e.i64_value() matches Some(c) && c
                    != 0)
                ||| (v.str_field("stderr"@) matches Some(s) && trim(s).len() > 0)
                ||| (v.field("error"@) matches Some(e) && error_reported(e))
                ||| (v.field("output"@) matches Some(c) && value_error(c, depth + 1, bound))
                ||| (v.field("result"@) matches Some(c) && value_error(c, depth + 1, bound))
                ||| (v.field("details"@) matches Some(c) && value_error(c, depth + 1, bound))
                ||| (v.field("data"@) matches Some(c) && value_error(c, depth + 1, bound))
            },
            _ => false,
        }
    }
}

/// Whether some item of `items` from position `k` on reports an error.
pub open spec fn any_item_error(items: Seq<Json>, k: int, depth: int, bound: int) -> bool
    decreases bound, 0int, 5 - depth, items.len() - k,
{
    if k < 0 || k >= items.len() {
        false
    } else {
        value_error(items[k], depth, bound) || any_item_error(items, k + 1, depth, bound)
    }
}

proof fn lemma_field_within(fields: Seq<(String, Json)>, key: Seq<char>, bound: int)
    requires
        forall|i: int| 0 <= i < fields.len() ==> strings_within(#[trigger] fields[i].1, bound),
    ensures
        crate::json::field_of(fields, key) matches Some(v) ==> strings_within(v, bound),
    decreases fields.len(),
{
    if fields.len() > 0 && fields[0].0@ != key {
        assert forall|i: int| 0 <= i < fields.drop_first().len() implies strings_within(
            #[trigger] fields.drop_first()[i].1,
            bound,
        ) by {
            assert(fields.drop_first()[i] == fields[i + 1]);
        }
        lemma_field_within(fields.drop_first(), key, bound);
    }
}

proof fn lemma_member_within(v: Json, key: Seq<char>, bound: int)
    requires
        strings_within(v, bound),
    ensures
        v.field(key) matches Some(c) ==> strings_within(c, bound),
{
    match v {
        Json::Object(fields) => {
            assert forall|i: int| 0 <= i < fields@.len() implies strings_within(
                #[trigger] fields@[i].1,
                bound,
            ) by {
                crate::json::lemma_member_value_within(fields, bound, i);
            }
            lemma_field_within(fields@, key, bound);
        },
        _ => {},
    }
}

fn error_member(e: &Json) -> (r: bool)
    ensures
        r == error_reported(*e),
{
    match e {
        Json::Null => false,
        Json::Bool(b) => *b,
        Json::Str(s) => trim_chars(chars_of(s.as_str()).as_slice()).len() > 0,
        _ => true,
    }
}

fn child_error(v: &Json, key: &str, depth: usize, Ghost(bound): Ghost<int>) -> (r: bool)
    requires
        strings_within(*v, bound),
        depth <= 4,
    ensures
        r == (v.field(key@) matches Some(c) && value_error(c, depth + 1, bound)),
    decreases bound, 0int, 5 - depth, 1int, 0int,
{
    proof {
        lemma_member_within(*v, key@, bound);
    }
    match v.get(key) {
        Some(c) => value_is_error(c, depth + 1, Ghost(bound)),
        None => false,
    }
}

/// Whether a structured output reports an error, from nesting level `depth`
/// on; see [`value_error`]. Past level four nothing is looked at.
pub fn infer_output_value_is_error(value: &Json, depth: usize) -> (r: bool)
    ensures
        r == value_error(*value, depth as int, string_bound(*value)),
{
    if depth > 4 {
        return false;
    }
    proof {
        lemma_string_bound(*value, string_bound(*value));
    }
    value_is_error(value, depth, Ghost(string_bound(*value)))
}

fn value_is_error(value: &Json, depth: usize, Ghost(bound): Ghost<int>) -> (r: bool)
    requires
        strings_within(*value, bound),
        depth <= 5,
    ensures
        r == value_error(*value, depth as int, bound),
    decreases bound, 0int, 5 - depth, 2int, 0int,
{
    if depth > 4 {
        return false;
    }
    match value {
        Json::Null => false,
        Json::Bool(_) | Json::Number(_) => false,
        Json::Str(text) => {
            infer_output_text_is_error(text.as_str())
        },
        Json::Array(items) => {
            let mut i: usize = 0;
            while i < items.len()
                invariant
                    i <= items@.len(),
                    depth <= 4,
                    *value == Json::Array(*items),
                    strings_within(*value, bound),
                    any_item_error(items@, 0, depth + 1, bound) == any_item_error(
                        items@,
                        i as int,
                        depth + 1,
                        bound,
                    ),
                decreases items.len() - i,
            {
                proof {
                    crate::json::lemma_item_within(*items, bound, i as int);
                }
                if value_is_error(&items[i], depth + 1, Ghost(bound)) {
                    return true;
                }
                i += 1;
            }
            false
        },
        Json::Object(_) => {
            if value.get_bool("is_error") == Some(true) {
                return true;
            }
            if value.get_bool("ok") == Some(false) || value.get_bool("success") == Some(false) {
                return true;
            }
            if let Some(status) = value.get_str("status") {
                if is_failed_status(status) {
                    return true;
                }
            }
            if let Some(exit) = value.get("exit_code") {
                if let Some(code) = exit.as_i64() {
                    if code != 0 {
                        return true;
                    }
                }
            }
            if let Some(stderr) = value.get_str("stderr") {
                if trim_chars(chars_of(stderr).as_slice()).len() > 0 {
                    return true;
                }
            }
            if let Some(error) = value.get("error") {
                if error_member(error) {
                    return true;
                }
            }
            child_error(value, "output", depth, Ghost(bound)) || child_error(
                value,
                "result",
                depth,
                Ghost(bound),
            ) || child_error(value, "details", depth, Ghost(bound)) || child_error(
                value,
                "data",
                depth,
                Ghost(bound),
            )
        },
    }
}

/// Whether printed output reads as a failure; see [`text_error`].
pub fn infer_output_text_is_error(text: &str) -> (r: bool)
    ensures
        r == text_error(text@),
    decreases text@.len(), 1int, 0int, 0int, 0int,
{
    let chars = chars_of(text);
    let ls = lines_of(chars.as_slice());
    let mut i: usize = 0;
    while i < ls.len() && i < 16
        invariant
            i <= ls@.len(),
            i <= 16,
            views(ls@) == lines(text@),
            forall|k: int| 0 <= k < i ==> #[trigger] nonzero_exit_code(lines(text@)[k]) is None,
        decreases ls.len() - i,
    {
        proof {
            assert(views(ls@)[i as int] == ls@[i as int]@);
        }
        let line = crate::text::string_of(ls[i].as_slice());
        if parse_nonzero_exit_code_from_line(line.as_str()).is_some() {
            return true;
        }
        i += 1;
    }
    let mut i: usize = 0;
    while i < ls.len() && i < 32
        invariant
            i <= ls@.len(),
            i <= 32,
            views(ls@) == lines(text@),
            forall|k: int| 0 <= k < i ==> !#[trigger] shell_error_line(lines(text@)[k]),
        decreases ls.len() - i,
    {
        proof {
            assert(views(ls@)[i as int] == ls@[i as int]@);
        }
        if is_shell_error_line(ls[i].as_slice()) {
            return true;
        }
        i += 1;
    }
    let tr = trim_chars(chars.as_slice());
    if tr.len() == 0 {
        return false;
    }
    proof {
        crate::text::lemma_trim_len(text@);
    }
    if tr[0] == '{' || tr[0] == '[' {
        let trimmed = crate::text::string_of(tr.as_slice());
        match parse_json(trimmed.as_str()) {
            Some(v) => {
                if value_is_error(&v, 0, Ghost(tr@.len() as int)) {
                    return true;
                }
            },
            None => {},
        }
    }
    if tr.len() >= 6 {
        let head = slice_chars(tr.as_slice(), 0, 6);
        eq_ignore_ascii_case_chars(head.as_slice(), chars_of("error:").as_slice())
    } else {
        false
    }
}

/// Whether a tool call failed: by its own `is_error`, `status` or `error`
/// members, by its structured output, or by the text it printed.
pub open spec fn tool_call_error(
    payload: Json,
    output_value: Option<Json>,
    output_preview: Option<Seq<char>>,
    bound: int,
) -> bool {
    ||| payload.bool_field("is_error"@) == Some(true)
    ||| (payload.str_field("status"@) matches Some(s) && failed_status(s))
    ||| (payload.field("error"@) matches Some(e) && error_reported(e))
    ||| (output_value matches Some(o) && value_error(o, 0, bound))
    ||| (output_preview matches Some(t) && text_error(t))
}

pub fn infer_tool_call_output_is_error(
    payload: &Json,
    output_value: Option<&Json>,
    output_preview: Option<&str>,
) -> (r: bool)
    ensures
        r == tool_call_error(
            *payload,
            match output_value {
                Some(o) => Some(*o),
                None => None,
            },
            match output_preview {
                Some(t) => Some(t@),
                None => None,
            },
            match output_value {
                Some(o) => string_bound(*o),
                None => 1,
            },
        ),
{
    if payload.get_bool("is_error") == Some(true) {
        return true;
    }
    if let Some(status) = payload.get_str("status") {
        if is_failed_status(status) {
            return true;
        }
    }
    if let Some(error) = payload.get("error") {
        if error_member(error) {
            return true;
        }
    }
    if let Some(output) = output_value {
        proof {
            lemma_string_bound(*output, string_bound(*output));
        }
        if value_is_error(output, 0, Ghost(string_bound(*output))) {
            return true;
        }
    }
    match output_preview {
        Some(t) => infer_output_text_is_error(t),
        None => false,
    }
}

/// A collab status that means the sub-agent failed.
pub open spec fn error_collab_status(status: Seq<char>) -> bool {
    status == "errored"@ || status == "failed"@ || status == "notFound"@
}

pub fn is_error_collab_status(status: &str) -> (r: bool)
    ensures
        r == error_collab_status(status@),
{
    crate::text::str_eq(status, "errored") || crate::text::str_eq(status, "failed")
        || crate::text::str_eq(status, "notFound")
}

/// A shell's complaint marks a tool's output as failed: when one of the
/// first 32 lines of the text, trimmed and lowercased, starts with `bash:`,
/// `zsh:` or `sh:` and says `command not found`, `no such file or
/// directory` or `permission denied`, the text reports an error.
pub proof fn law_shell_complaints_are_errors(t: Seq<char>, i: int)
    requires
        0 <= i < 32,
        i < lines(t).len(),
        ({
            let lower = lower_seq(trim(lines(t)[i]));
            &&& (starts_with(lower, "bash:"@) || starts_with(lower, "zsh:"@) || starts_with(lower, "sh:"@))
            &&& (contains(lower, "command not found"@) || contains(lower, "no such file or directory"@)
                || contains(lower, "permission denied"@))
        }),
    ensures
        text_error(t),
{
    assert(shell_error_line(lines(t)[i]));
    assert(0 <= i < min_int(32, lines(t).len() as int));
}

} // verus!
