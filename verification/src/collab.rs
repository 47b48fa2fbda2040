//! Sub-agent (collab) capsules rebuilt from history: the status a
//! `wait_agent` returned for each agent, the live-shaped input of the wait
//! capsule, and the agent id stamped onto a spawn capsule.
use vstd::prelude::*;
use crate::json::{json_parse_result, json_text, parse_json, render_json, Json};
use crate::outcome::{error_collab_status, is_error_collab_status};

verus! {

/// The key that marks a synthesized collab input with its operation.
pub const COLLAB_OP_KEY: &'static str = "__codegCollabOp";

/// The first member from `i` on whose value is a string: its key and text.
pub open spec fn first_text_member(fields: Seq<(String, Json)>, i: int) -> Option<(Seq<char>, Seq<char>)>
    decreases fields.len() - i,
{
    if i < 0 || i >= fields.len() {
        None
    } else {
        match fields[i].1 {
            Json::Str(s) => Some((fields[i].0@, s@)),
            _ => first_text_member(fields, i + 1),
        }
    }
}

/// One agent's `(status, message)` in a `wait_agent` output: the
/// `completed` text when there is one, else the first member with a text
/// value; a bare string is a status with no message; anything else counts as
/// completed with no message.
pub open spec fn wait_status(value: Json) -> (Seq<char>, Option<Seq<char>>) {
    match value {
        Json::Object(fields) => if value.str_field("completed"@) is Some {
            ("completed"@, value.str_field("completed"@))
        } else {
            match first_text_member(fields@, 0) {
                Some((k, t)) => (k, Some(t)),
                None => ("completed"@, None),
            }
        },
        Json::Str(s) => (s@, None),
        _ => ("completed"@, None),
    }
}

pub fn extract_wait_agent_status(value: &Json) -> (r: (String, Option<String>))
    ensures
        r.0@ == wait_status(*value).0,
        match r.1 {
            Some(m) => wait_status(*value).1 == Some(m@),
            None => wait_status(*value).1 is None,
        },
{
    match value {
        Json::Object(fields) => {
            if let Some(text) = value.get_str("completed") {
                return ("completed".to_owned(), Some(text.to_owned()));
            }
            let mut i: usize = 0;
            while i < fields.len()
                invariant
                    i <= fields@.len(),
                    *value == Json::Object(*fields),
                    value.str_field("completed"@) is None,
                    first_text_member(fields@, 0) == first_text_member(fields@, i as int),
                decreases fields.len() - i,
            {
                if let Json::Str(text) = &fields[i].1 {
                    return (fields[i].0.clone(), Some(text.clone()));
                }
                i += 1;
            }
            ("completed".to_owned(), None)
        },
        Json::Str(s) => (s.clone(), None),
        _ => ("completed".to_owned(), None),
    }
}

/// `v` is `{"status": st, "message": msg}` (`null` for no message).
pub open spec fn agent_state_is(v: Json, st: Seq<char>, msg: Option<Seq<char>>) -> bool {
    &&& v is Object
    &&& v->Object_0@.len() == 2
    &&& v->Object_0@[0].0@ == "status"@
    &&& v->Object_0@[0].1.str_value() == Some(st)
    &&& v->Object_0@[1].0@ == "message"@
    &&& match msg {
        Some(m) => v->Object_0@[1].1.str_value() == Some(m),
        None => v->Object_0@[1].1 is Null,
    }
}

/// Whether any agent of a wait ended in an error status.
pub open spec fn any_agent_errored(status: Seq<(String, Json)>) -> bool {
    exists|i: int| 0 <= i < status.len() && #[trigger] error_collab_status(wait_status(status[i].1).0)
}

/// `j` is the live-shaped input of a wait capsule for the agents of
/// `status`: no sender, the agents as receivers in order, each agent's
/// state, the overall status, and the `wait` operation marker.
pub open spec fn collab_wait_shape(j: Json, status: Seq<(String, Json)>) -> bool {
    &&& j is Object
    &&& ({
        let f = j->Object_0@;
        &&& f.len() == 5
        &&& f[0].0@ == "senderThreadId"@ && f[0].1.str_value() == Some(Seq::<char>::empty())
        &&& f[1].0@ == "receiverThreadIds"@ && f[1].1 is Array
        &&& f[1].1->Array_0@.len() == status.len()
        &&& forall|i: int| 0 <= i < status.len() ==> (#[trigger] f[1].1->Array_0@[i]).str_value() == Some(
            status[i].0@,
        )
        &&& f[2].0@ == "agentsStates"@ && f[2].1 is Object
        &&& f[2].1->Object_0@.len() == status.len()
        &&& forall|i: int| 0 <= i < status.len() ==> (#[trigger] f[2].1->Object_0@[i]).0@ == status[i].0@
            && agent_state_is(f[2].1->Object_0@[i].1, wait_status(status[i].1).0, wait_status(status[i].1).1)
        &&& f[3].0@ == "status"@ && f[3].1.str_value() == Some(
            if any_agent_errored(status) {
                "failed"@
            } else {
                "completed"@
            },
        )
        &&& f[4].0@ == COLLAB_OP_KEY@ && f[4].1.str_value() == Some("wait"@)
    })
}

fn text_value(s: String) -> (r: Json)
    ensures
        r.str_value() == Some(s@),
{
    Json::Str(s)
}

/// The wait capsule's input as a JSON value, and whether any agent errored.
pub fn collab_wait_value(status: &Vec<(String, Json)>) -> (r: (Json, bool))
    ensures
        collab_wait_shape(r.0, status@),
        r.1 == any_agent_errored(status@),
{
    let mut receivers: Vec<Json> = Vec::new();
    let mut states: Vec<(String, Json)> = Vec::new();
    let mut any_error = false;
    let mut i: usize = 0;
    while i < status.len()
        invariant
            i <= status@.len(),
            receivers@.len() == i,
            states@.len() == i,
            forall|k: int| 0 <= k < i ==> (#[trigger] receivers@[k]).str_value() == Some(status@[k].0@),
            forall|k: int| 0 <= k < i ==> (#[trigger] states@[k]).0@ == status@[k].0@ && agent_state_is(
                states@[k].1,
                wait_status(status@[k].1).0,
                wait_status(status@[k].1).1,
            ),
            any_error == exists|k: int| 0 <= k < i && #[trigger] error_collab_status(wait_status(status@[k].1).0),
        decreases status.len() - i,
    {
        let agent_id = &status[i].0;
        receivers.push(text_value(agent_id.clone()));
        let (st, msg) = extract_wait_agent_status(&status[i].1);
        let errored = is_error_collab_status(st.as_str());
        if errored {
            any_error = true;
        }
        let message = match msg {
            Some(m) => Json::Str(m),
            None => Json::Null,
        };
        let state = Json::Object(vec![("status".to_owned(), Json::Str(st)), ("message".to_owned(), message)]);
        states.push((agent_id.clone(), state));
        proof {
            if errored {
                assert(error_collab_status(wait_status(status@[i as int].1).0));
            }
        }
        i += 1;
    }
    let overall = if any_error {
        "failed".to_owned()
    } else {
        "completed".to_owned()
    };
    let fields = vec![
        ("senderThreadId".to_owned(), Json::Str(String::new())),
        ("receiverThreadIds".to_owned(), Json::Array(receivers)),
        ("agentsStates".to_owned(), Json::Object(states)),
        ("status".to_owned(), Json::Str(overall)),
        (COLLAB_OP_KEY.to_owned(), Json::Str("wait".to_owned())),
    ];
    (Json::Object(fields), any_error)
}

/// The live-shaped input JSON of a history `wait_agent` capsule, built from
/// that wait's own `output.status` (`agent id → status`), and whether any
/// agent errored.
pub fn build_collab_wait_input(status: &Vec<(String, Json)>) -> (r: (String, bool))
    ensures
        exists|j: Json| collab_wait_shape(j, status@) && r.0@ == json_text(crate::json::json_view(j)),
        r.1 == any_agent_errored(status@),
{
    let (value, any_error) = collab_wait_value(status);
    let text = render_json(&value);
    (text, any_error)
}

/// The members of a spawn capsule's input, when it is a JSON object.
pub open spec fn input_members(input: Option<Seq<char>>) -> Seq<(String, Json)> {
    match input {
        Some(t) => match json_parse_result(t) {
            Some(Json::Object(fields)) => fields@,
            _ => Seq::empty(),
        },
        None => Seq::empty(),
    }
}

/// `j` is `members` without any `agent_id`, then `agent_id` set to `id`.
pub open spec fn with_agent_id(j: Json, members: Seq<(String, Json)>, id: Seq<char>) -> bool {
    let kept = members.filter(|m: (String, Json)| m.0@ != "agent_id"@);
    &&& j is Object
    &&& j->Object_0@.len() == kept.len() + 1
    &&& forall|i: int| 0 <= i < kept.len() ==> #[trigger] j->Object_0@[i] == kept[i]
    &&& j->Object_0@[kept.len() as int].0@ == "agent_id"@
    &&& j->Object_0@[kept.len() as int].1.str_value() == Some(id)
}

/// Adds `agent_id` to a spawn capsule's input JSON, so the card can show the
/// sub-agent's id; an input that is missing or not an object starts afresh.
pub fn inject_agent_id_into_input(input: Option<&str>, agent_id: &str) -> (r: String)
    ensures
        exists|j: Json| with_agent_id(
            j,
            input_members(
                match input {
                    Some(t) => Some(t@),
                    None => None,
                },
            ),
            agent_id@,
        ) && r@ == json_text(crate::json::json_view(j)),
{
    let ghost members = input_members(
        match input {
            Some(t) => Some(t@),
            None => None,
        },
    );
    let mut fields: Vec<(String, Json)> = match input {
        Some(t) => match parse_json(t) {
            Some(Json::Object(fields)) => fields,
            _ => Vec::new(),
        },
        None => Vec::new(),
    };
    assert(fields@ == members);
    let total = fields.len();
    assert(members.len() == total);
    let mut kept: Vec<(String, Json)> = Vec::new();
    let mut i: usize = 0;
    while fields.len() > 0
        invariant
            i + fields@.len() == members.len(),
            members.len() <= usize::MAX,
            fields@ == members.subrange(i as int, members.len() as int),
            kept@ == members.subrange(0, i as int).filter(|m: (String, Json)| m.0@ != "agent_id"@),
        decreases fields.len(),
    {
        let member = fields.remove(0);
        let keep = !crate::text::str_eq(member.0.as_str(), "agent_id");
        proof {
            assert(member == members[i as int]);
            assert(members.subrange(0, i + 1).drop_last() =~= members.subrange(0, i as int));
            assert(members.subrange(0, i + 1).last() == member);
            reveal(Seq::filter);
        }
        if keep {
            kept.push(member);
        }
        i += 1;
        proof {
            assert(fields@ =~= members.subrange(i as int, members.len() as int));
        }
    }
    proof {
        assert(members.subrange(0, i as int) =~= members);
    }
    let n = kept.len();
    kept.push(("agent_id".to_owned(), Json::Str(agent_id.to_owned())));
    let value = Json::Object(kept);
    render_json(&value)
}

} // verus!
