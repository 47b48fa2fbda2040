//! Reading tool calls and their outputs from Codex `response_item`s: the
//! call id, the tool name, the arguments and output as JSON, and the text a
//! value shows as.
use vstd::prelude::*;
use crate::json::{
    items_view, json_parse_result, json_text, json_view, lemma_items_view_prefix,
    lemma_members_view_prefix, members_view, parse_json, render_json, Json, JsonView,
};

verus! {

/// The text a JSON value shows as: a string as itself, `null` as nothing,
/// anything else as its compact JSON text.
pub open spec fn preview_of(value: Option<Json>) -> Option<Seq<char>> {
    match value {
        None => None,
        Some(Json::Null) => None,
        Some(Json::Str(s)) => Some(s@),
        Some(v) => Some(json_text(crate::json::json_view(v))),
    }
}

pub fn value_to_preview(value: Option<&Json>) -> (r: Option<String>)
    ensures
        match r {
            Some(t) => preview_of(
                match value {
                    Some(v) => Some(*v),
                    None => None,
                },
            ) == Some(t@),
            None => preview_of(
                match value {
                    Some(v) => Some(*v),
                    None => None,
                },
            ) is None,
        },
{
    match value {
        None => None,
        Some(Json::Null) => None,
        Some(Json::Str(s)) => Some(s.clone()),
        Some(v) => Some(render_json(v)),
    }
}

/// A JSON value read from a payload: parsed from the string that held it,
/// or the object or array the payload held inline.
pub enum JsonArg<'a> {
    Parsed(Json),
    Inline(&'a Json),
}

impl<'a> JsonArg<'a> {
    pub open spec fn spec_value(&self) -> Json {
        match self {
            JsonArg::Parsed(v) => *v,
            JsonArg::Inline(v) => **v,
        }
    }

    pub fn value(&self) -> (r: &Json)
        ensures
            *r == self.spec_value(),
    {
        match self {
            JsonArg::Parsed(v) => v,
            JsonArg::Inline(v) => *v,
        }
    }
}

/// A value as JSON: a string is parsed, an object or array is taken as it
/// is, anything else is not JSON arguments.
pub open spec fn json_of(v: Json) -> Option<Json> {
    match v {
        Json::Str(s) => json_parse_result(s@),
        Json::Object(_) => Some(v),
        Json::Array(_) => Some(v),
        _ => None,
    }
}

pub open spec fn arg_view(r: Option<JsonArg>) -> Option<Json> {
    match r {
        Some(a) => Some(a.spec_value()),
        None => None,
    }
}

fn json_value_of<'a>(v: &'a Json) -> (r: Option<JsonArg<'a>>)
    ensures
        arg_view(r) == json_of(*v),
{
    match v {
        Json::Str(s) => match parse_json(s.as_str()) {
            Some(p) => Some(JsonArg::Parsed(p)),
            None => None,
        },
        Json::Object(_) => Some(JsonArg::Inline(v)),
        Json::Array(_) => Some(JsonArg::Inline(v)),
        _ => None,
    }
}

/// The `arguments` (else `input`) of a tool call, as JSON.
pub open spec fn call_args(payload: Json) -> Option<Json> {
    if payload.field("arguments"@) is Some {
        json_of(payload.field("arguments"@)->0)
    } else if payload.field("input"@) is Some {
        json_of(payload.field("input"@)->0)
    } else {
        None
    }
}

pub fn parse_codex_json_arg<'a>(payload: &'a Json) -> (r: Option<JsonArg<'a>>)
    ensures
        arg_view(r) == call_args(*payload),
{
    match payload.get("arguments") {
        Some(v) => json_value_of(v),
        None => match payload.get("input") {
            Some(v) => json_value_of(v),
            None => None,
        },
    }
}

/// The `output` of a tool call, as JSON.
pub open spec fn call_output(payload: Json) -> Option<Json> {
    match payload.field("output"@) {
        Some(v) => json_of(v),
        None => None,
    }
}

pub fn parse_codex_json_output<'a>(payload: &'a Json) -> (r: Option<JsonArg<'a>>)
    ensures
        arg_view(r) == call_output(*payload),
{
    match payload.get("output") {
        Some(v) => json_value_of(v),
        None => None,
    }
}

/// The id a tool call or output names: `call_id`, else `tool_call_id`, else
/// `id`, the first present, when it is a string.
pub open spec fn call_id_of(payload: Json) -> Option<Seq<char>> {
    if payload.field("call_id"@) is Some {
        payload.str_field("call_id"@)
    } else if payload.field("tool_call_id"@) is Some {
        payload.str_field("tool_call_id"@)
    } else {
        payload.str_field("id"@)
    }
}

pub fn tool_call_id(payload: &Json) -> (r: Option<String>)
    ensures
        match r {
            Some(t) => call_id_of(*payload) == Some(t@),
            None => call_id_of(*payload) is None,
        },
{
    let id = if payload.get("call_id").is_some() {
        payload.get_str("call_id")
    } else if payload.get("tool_call_id").is_some() {
        payload.get_str("tool_call_id")
    } else {
        payload.get_str("id")
    };
    match id {
        Some(s) => Some(s.to_owned()),
        None => None,
    }
}

/// The tool a call names: `name`, else `tool_name`, the first present, when
/// it is a string; `unknown` otherwise.
pub open spec fn tool_name_of(payload: Json) -> Seq<char> {
    let n = if payload.field("name"@) is Some {
        payload.str_field("name"@)
    } else {
        payload.str_field("tool_name"@)
    };
    match n {
        Some(s) => s,
        None => "unknown"@,
    }
}

pub fn tool_call_name(payload: &Json) -> (r: String)
    ensures
        r@ == tool_name_of(*payload),
{
    let n = if payload.get("name").is_some() {
        payload.get_str("name")
    } else {
        payload.get_str("tool_name")
    };
    match n {
        Some(s) => s.to_owned(),
        None => "unknown".to_owned(),
    }
}

/// The marks a code-mode script card carries, in key order: its label, that
/// its output is missing, the calls it shares its output with, that its
/// output was truncated. Absent marks are left out.
pub open spec fn script_marks(
    label: Option<Seq<char>>,
    output_missing: bool,
    shares_with: Seq<Seq<char>>,
    truncated: bool,
) -> Seq<(Seq<char>, JsonView)> {
    (match label {
        Some(l) => seq![("label"@, JsonView::Str(l))],
        None => Seq::empty(),
    }) + (if output_missing {
        seq![("outputMissing"@, JsonView::Bool(true))]
    } else {
        Seq::empty()
    }) + (if shares_with.len() > 0 {
        seq![("sharedWith"@, JsonView::Array(shares_with.map_values(|s: Seq<char>| JsonView::Str(s))))]
    } else {
        Seq::empty()
    }) + (if truncated {
        seq![("truncated"@, JsonView::Bool(true))]
    } else {
        Seq::empty()
    })
}

fn push_member(out: &mut Vec<(String, Json)>, key: &str, value: Json)
    ensures
        members_view(final(out)@, final(out)@.len() as int) == members_view(old(out)@, old(out)@.len() as int).push(
            (key@, json_view(value)),
        ),
{
    let ghost before = out@;
    out.push((key.to_owned(), value));
    proof {
        lemma_members_view_prefix(out@, before, before.len() as int);
    }
}

fn string_items(items: &[String]) -> (r: Json)
    ensures
        json_view(r) == JsonView::Array(items@.map_values(|s: String| s@).map_values(|s: Seq<char>| JsonView::Str(s))),
{
    let mut out: Vec<Json> = Vec::new();
    let mut i: usize = 0;
    while i < items.len()
        invariant
            i <= items@.len(),
            out@.len() == i,
            items_view(out@, i as int) == items@.subrange(0, i as int).map_values(|s: String| JsonView::Str(s@)),
        decreases items.len() - i,
    {
        let ghost before = out@;
        out.push(Json::Str(items[i].clone()));
        proof {
            lemma_items_view_prefix(out@, before, i as int);
            assert(items_view(out@, i + 1) == items_view(out@, i as int).push(json_view(out@[i as int])));
            assert(json_view(out@[i as int]) == JsonView::Str(items@[i as int]@));
            assert(items@.subrange(0, i + 1).map_values(|s: String| JsonView::Str(s@)) =~= items@.subrange(
                0,
                i as int,
            ).map_values(|s: String| JsonView::Str(s@)).push(JsonView::Str(items@[i as int]@)));
        }
        i += 1;
    }
    proof {
        assert(items@.subrange(0, items@.len() as int) =~= items@);
        assert(items@.map_values(|s: String| JsonView::Str(s@)) =~= items@.map_values(|s: String| s@).map_values(
            |s: Seq<char>| JsonView::Str(s),
        ));
    }
    Json::Array(out)
}

/// The metadata of a code-mode script card: `{"codeg.codexScript": marks}`,
/// or nothing when the card has no mark.
pub fn codex_script_meta(label: Option<&str>, output_missing: bool, shares_with: &[String], truncated: bool) -> (r:
    Option<Json>)
    ensures
        ({
            let marks = script_marks(
                match label {
                    Some(l) => Some(l@),
                    None => None,
                },
                output_missing,
                shares_with@.map_values(|s: String| s@),
                truncated,
            );
            match r {
                None => marks.len() == 0,
                Some(v) => marks.len() > 0 && json_view(v) == JsonView::Object(
                    seq![("codeg.codexScript"@, JsonView::Object(marks))],
                ),
            }
        }),
{
    let ghost lv = match label {
        Some(l) => Some(l@),
        None => None,
    };
    let ghost sv = shares_with@.map_values(|s: String| s@);
    let mut marks: Vec<(String, Json)> = Vec::new();
    if let Some(l) = label {
        push_member(&mut marks, "label", Json::Str(l.to_owned()));
    }
    assert(members_view(marks@, marks@.len() as int) =~= script_marks(lv, false, Seq::empty(), false));
    if output_missing {
        push_member(&mut marks, "outputMissing", Json::Bool(true));
    }
    assert(members_view(marks@, marks@.len() as int) =~= script_marks(lv, output_missing, Seq::empty(), false));
    if shares_with.len() > 0 {
        let items = string_items(shares_with);
        push_member(&mut marks, "sharedWith", items);
    }
    assert(members_view(marks@, marks@.len() as int) =~= script_marks(lv, output_missing, sv, false));
    if truncated {
        push_member(&mut marks, "truncated", Json::Bool(true));
    }
    assert(members_view(marks@, marks@.len() as int) =~= script_marks(lv, output_missing, sv, truncated));
    if marks.len() == 0 {
        return None;
    }
    let mut outer: Vec<(String, Json)> = Vec::new();
    let ghost inner = members_view(marks@, marks@.len() as int);
    push_member(&mut outer, "codeg.codexScript", Json::Object(marks));
    assert(members_view(outer@, outer@.len() as int) =~= seq![("codeg.codexScript"@, JsonView::Object(inner))]);
    Some(Json::Object(outer))
}

} // verus!
