//! Types for editor ↔ plugin IPC messages.
use vstd::prelude::*;
use crate::text::{chars_eq_str, chars_of};
use crate::syntax::json_parser::{JsonValue, JsonModel, json_view, jget, jstr, pairs_view, lemma_pairs_view_push};
use crate::syntax::grammar::json_str_of;

verus! {

#[derive(Clone, Copy, Debug, PartialEq, Eq, Structural)]
pub enum EventKind {
    BufferOpen,
    BufferSave,
    BufferClose,
    CursorMove,
    TextChange,
}

/// The wire name of an event kind.
pub open spec fn event_name(k: EventKind) -> Seq<char> {
    match k {
        EventKind::BufferOpen => "buffer_open"@,
        EventKind::BufferSave => "buffer_save"@,
        EventKind::BufferClose => "buffer_close"@,
        EventKind::CursorMove => "cursor_move"@,
        EventKind::TextChange => "text_change"@,
    }
}

impl EventKind {
    pub fn as_str(&self) -> (s: &'static str)
        ensures
            s@ == event_name(*self),
    {
        match self {
            EventKind::BufferOpen => "buffer_open",
            EventKind::BufferSave => "buffer_save",
            EventKind::BufferClose => "buffer_close",
            EventKind::CursorMove => "cursor_move",
            EventKind::TextChange => "text_change",
        }
    }

    /// The event kind with this wire name, if any.
    pub fn from_str(s: &str) -> (r: Option<Self>)
        ensures
            match r {
                Some(k) => event_name(k) == s@,
                None => forall|k: EventKind| event_name(k) != s@,
            },
    {
        let v = chars_of(s);
        if chars_eq_str(&v, "buffer_open") {
            Some(EventKind::BufferOpen)
        } else if chars_eq_str(&v, "buffer_save") {
            Some(EventKind::BufferSave)
        } else if chars_eq_str(&v, "buffer_close") {
            Some(EventKind::BufferClose)
        } else if chars_eq_str(&v, "cursor_move") {
            Some(EventKind::CursorMove)
        } else if chars_eq_str(&v, "text_change") {
            Some(EventKind::TextChange)
        } else {
            proof {
                assert forall|k: EventKind| event_name(k) != s@ by {
                    match k {
                        EventKind::BufferOpen => {},
                        EventKind::BufferSave => {},
                        EventKind::BufferClose => {},
                        EventKind::CursorMove => {},
                        EventKind::TextChange => {},
                    }
                }
            }
            None
        }
    }
}

/// Reading back a wire name gives the event kind, for every kind: the
/// names are distinct.
pub proof fn lemma_event_names_distinct(a: EventKind, b: EventKind)
    ensures
        event_name(a) == event_name(b) ==> a == b,
{
    reveal_strlit("buffer_open");
    reveal_strlit("buffer_save");
    reveal_strlit("buffer_close");
    reveal_strlit("cursor_move");
    reveal_strlit("text_change");
    if event_name(a) == event_name(b) && a != b {
        let x = event_name(a);
        let y = event_name(b);
        assert(x.len() != y.len() || exists|i: int| 0 <= i < x.len() && x[i] != y[i]) by {
            match (a, b) {
                (EventKind::BufferOpen, EventKind::BufferSave) => assert(x[7] != y[7]),
                (EventKind::BufferSave, EventKind::BufferOpen) => assert(x[7] != y[7]),
                (EventKind::BufferOpen, EventKind::BufferClose) => assert(x.len() != y.len()),
                (EventKind::BufferClose, EventKind::BufferOpen) => assert(x.len() != y.len()),
                (EventKind::BufferSave, EventKind::BufferClose) => assert(x.len() != y.len()),
                (EventKind::BufferClose, EventKind::BufferSave) => assert(x.len() != y.len()),
                (EventKind::CursorMove, _) => assert(x[0] != y[0]),
                (_, EventKind::CursorMove) => assert(x[0] != y[0]),
                (EventKind::TextChange, _) => assert(x[0] != y[0]),
                (_, EventKind::TextChange) => assert(x[0] != y[0]),
                _ => {},
            }
        }
    }
}

#[derive(Clone, Debug)]
pub struct PluginCommand {
    pub id: String,
    pub label: String,
    pub keybinding: Option<String>,
}

#[derive(Clone, Debug)]
pub struct PluginManifest {
    pub name: String,
    pub version: String,
    pub description: String,
    /// Entrypoint script, relative to the plugin directory.
    pub main: String,
}


/// The manifest a JSON document describes: `name` and `main` are
/// required strings; `version` defaults to `0.1.0`, `description` to "".
pub open spec fn spec_manifest(j: JsonValue) -> Option<(Seq<char>, Seq<char>, Seq<char>, Seq<char>)> {
    match (jstr(jget(j, "name"@)), jstr(jget(j, "main"@))) {
        (Some(name), Some(main)) => Some(
            (
                name,
                match jstr(jget(j, "version"@)) {
                    Some(v) => v,
                    None => "0.1.0"@,
                },
                match jstr(jget(j, "description"@)) {
                    Some(d) => d,
                    None => Seq::empty(),
                },
                main,
            ),
        ),
        _ => None,
    }
}

impl PluginManifest {
    pub fn from_json(json: &JsonValue) -> (r: Option<Self>)
        ensures
            match r {
                Some(m) => spec_manifest(*json) == Some(
                    (m.name@, m.version@, m.description@, m.main@),
                ),
                None => spec_manifest(*json) is None,
            },
    {
        let name = match json_str_of(json, "name") {
            Some(n) => n.to_owned(),
            None => {
                return None;
            },
        };
        let version = match json_str_of(json, "version") {
            Some(v) => v.to_owned(),
            None => "0.1.0".to_owned(),
        };
        let description = match json_str_of(json, "description") {
            Some(d) => d.to_owned(),
            None => {
                proof {
                    reveal_strlit("");
                }
                "".to_owned()
            },
        };
        let main = match json_str_of(json, "main") {
            Some(m) => m.to_owned(),
            None => {
                return None;
            },
        };
        Some(PluginManifest { name, version, description, main })
    }
}

fn member(key: &str, value: JsonValue) -> (r: (String, JsonValue))
    ensures
        r.0@ == key@,
        r.1 == value,
{
    (key.to_owned(), value)
}

fn json_string(s: &str) -> (r: JsonValue)
    ensures
        json_view(r) == JsonModel::Str(s@),
{
    JsonValue::String(s.to_owned())
}

/// An object of two members, in order.
fn object2(k1: &str, v1: JsonValue, k2: &str, v2: JsonValue) -> (r: JsonValue)
    ensures
        json_view(r) == JsonModel::Object(seq![(k1@, json_view(v1)), (k2@, json_view(v2))]),
{
    let mut members: Vec<(String, JsonValue)> = Vec::new();
    members.push(member(k1, v1));
    members.push(member(k2, v2));
    let r = JsonValue::Object(members);
    proof {
        let ghost m = members@;
        let ghost e = Seq::<(String, JsonValue)>::empty();
        lemma_pairs_view_push(e, m[0]);
        lemma_pairs_view_push(e.push(m[0]), m[1]);
        assert(m =~= e.push(m[0]).push(m[1]));
        assert(pairs_view(m) =~= seq![(k1@, json_view(v1)), (k2@, json_view(v2))]);
    }
    r
}

/// The notification telling a plugin that an event happened:
/// `{"method": "event", "params": {"kind": <name>, "data": <data>}}`.
pub fn build_event_notification(kind: &EventKind, data: &JsonValue) -> (r: JsonValue)
    ensures
        json_view(r) == JsonModel::Object(
            seq![
                ("method"@, JsonModel::Str("event"@)),
                (
                    "params"@,
                    JsonModel::Object(
                        seq![("kind"@, JsonModel::Str(event_name(*kind))), ("data"@, json_view(*data))],
                    ),
                ),
            ],
        ),
{
    let params = object2("kind", json_string(kind.as_str()), "data", data.clone());
    object2("method", json_string("event"), "params", params)
}

/// The notification telling a plugin that one of its commands was invoked:
/// `{"method": "command_invoked", "params": {"command_id": <id>}}`.
pub fn build_command_notification(command_id: &str) -> (r: JsonValue)
    ensures
        json_view(r) == JsonModel::Object(
            seq![
                ("method"@, JsonModel::Str("command_invoked"@)),
                ("params"@, JsonModel::Object(seq![("command_id"@, JsonModel::Str(command_id@))])),
            ],
        ),
{
    let mut members: Vec<(String, JsonValue)> = Vec::new();
    members.push(member("command_id", json_string(command_id)));
    let params = JsonValue::Object(members);
    proof {
        let ghost e = Seq::<(String, JsonValue)>::empty();
        lemma_pairs_view_push(e, members@[0]);
        assert(members@ =~= e.push(members@[0]));
        assert(pairs_view(members@) =~= seq![("command_id"@, JsonModel::Str(command_id@))]);
    }
    object2("method", json_string("command_invoked"), "params", params)
}

/// The response to a plugin request: `{"id": <id>, "result": <result>}`.
pub fn build_response(id: &JsonValue, result: JsonValue) -> (r: JsonValue)
    ensures
        json_view(r) == JsonModel::Object(seq![("id"@, json_view(*id)), ("result"@, json_view(result))]),
{
    object2("id", id.clone(), "result", result)
}

pub open spec fn opt_json_view(o: Option<JsonValue>) -> Option<JsonModel> {
    match o {
        Some(v) => Some(json_view(v)),
        None => None,
    }
}

/// A plugin message as `(id, method, params)`: present when `method` is a
/// string; `params` is `null` when missing and `id` is absent for a
/// notification.
pub fn parse_plugin_message(msg: &JsonValue) -> (r: Option<(Option<JsonValue>, &str, JsonValue)>)
    ensures
        match r {
            Some((id, method, params)) => jstr(jget(*msg, "method"@)) == Some(method@)
                && opt_json_view(id) == opt_json_view(jget(*msg, "id"@))
                && json_view(params) == match jget(*msg, "params"@) {
                    Some(p) => json_view(p),
                    None => JsonModel::Null,
                },
            None => jstr(jget(*msg, "method"@)) is None,
        },
{
    let method = match json_str_of(msg, "method") {
        Some(m) => m,
        None => {
            return None;
        },
    };
    let params = match msg.get("params") {
        Some(p) => p.clone(),
        None => JsonValue::Null,
    };
    let id = match msg.get("id") {
        Some(v) => Some(v.clone()),
        None => None,
    };
    Some((id, method, params))
}

} // verus!
