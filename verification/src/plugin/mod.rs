//! Plugin system: the state the editor keeps of each running plugin, the
//! requests plugins send, and what each message does to that state.
//! The processes and their pipes are the application's; it hands the
//! messages it read, in order, to [`PluginManager::drain_and_collect`].
pub mod api;

use vstd::prelude::*;
use crate::plugin::api::{
    EventKind, PluginCommand, PluginManifest, event_name, parse_plugin_message, opt_json_view,
    lemma_event_names_distinct,
};
use crate::syntax::json_parser::{JsonValue, JsonModel, json_view, jget, jstr};
use crate::syntax::grammar::json_str_of;

verus! {

/// A running plugin, as the editor knows it.
pub struct Plugin {
    pub name: String,
    pub version: String,
    pub description: String,
    /// Commands this plugin has registered.
    pub commands: Vec<PluginCommand>,
    /// Events this plugin subscribes to.
    pub subscriptions: Vec<EventKind>,
}

/// A request from a plugin, ready for the editor.
#[allow(inconsistent_fields)]
pub enum PluginRequest {
    RegisterCommand { plugin_name: String, id: String, label: String, keybinding: Option<String> },
    SubscribeEvent { plugin_name: String, kind: EventKind },
    GetBufferText { plugin_name: String, request_id: JsonValue },
    InsertText { plugin_name: String, text: String },
    ShowMessage { plugin_name: String, text: String, kind: String },
    GetFilePath { plugin_name: String, request_id: JsonValue },
}

/// A request as values.
#[allow(inconsistent_fields)]
pub enum RequestModel {
    RegisterCommand {
        plugin_name: Seq<char>,
        id: Seq<char>,
        label: Seq<char>,
        keybinding: Option<Seq<char>>,
    },
    SubscribeEvent { plugin_name: Seq<char>, kind: EventKind },
    GetBufferText { plugin_name: Seq<char>, request_id: JsonModel },
    InsertText { plugin_name: Seq<char>, text: Seq<char> },
    ShowMessage { plugin_name: Seq<char>, text: Seq<char>, kind: Seq<char> },
    GetFilePath { plugin_name: Seq<char>, request_id: JsonModel },
}

pub open spec fn opt_str(o: Option<String>) -> Option<Seq<char>> {
    match o {
        Some(s) => Some(s@),
        None => None,
    }
}

pub open spec fn request_view(r: PluginRequest) -> RequestModel {
    match r {
        PluginRequest::RegisterCommand { plugin_name, id, label, keybinding } =>
            RequestModel::RegisterCommand {
            plugin_name: plugin_name@,
            id: id@,
            label: label@,
            keybinding: opt_str(keybinding),
        },
        PluginRequest::SubscribeEvent { plugin_name, kind } => RequestModel::SubscribeEvent {
            plugin_name: plugin_name@,
            kind,
        },
        PluginRequest::GetBufferText { plugin_name, request_id } => RequestModel::GetBufferText {
            plugin_name: plugin_name@,
            request_id: json_view(request_id),
        },
        PluginRequest::InsertText { plugin_name, text } => RequestModel::InsertText {
            plugin_name: plugin_name@,
            text: text@,
        },
        PluginRequest::ShowMessage { plugin_name, text, kind } => RequestModel::ShowMessage {
            plugin_name: plugin_name@,
            text: text@,
            kind: kind@,
        },
        PluginRequest::GetFilePath { plugin_name, request_id } => RequestModel::GetFilePath {
            plugin_name: plugin_name@,
            request_id: json_view(request_id),
        },
    }
}

pub open spec fn requests_view(s: Seq<PluginRequest>) -> Seq<RequestModel> {
    s.map_values(|r: PluginRequest| request_view(r))
}

/// A registered command as values: id, label, key binding.
pub open spec fn command_view(c: PluginCommand) -> (Seq<char>, Seq<char>, Option<Seq<char>>) {
    (c.id@, c.label@, opt_str(c.keybinding))
}

/// What a message can change of a plugin: its commands and subscriptions.
pub struct PluginModel {
    pub commands: Seq<(Seq<char>, Seq<char>, Option<Seq<char>>)>,
    pub subscriptions: Seq<EventKind>,
}

pub open spec fn plugin_view(p: Plugin) -> PluginModel {
    PluginModel {
        commands: p.commands@.map_values(|c: PluginCommand| command_view(c)),
        subscriptions: p.subscriptions@,
    }
}

/// A member of the message's `params`.
pub open spec fn param(msg: JsonValue, key: Seq<char>) -> Option<JsonValue> {
    match jget(msg, "params"@) {
        Some(p) => jget(p, key),
        None => None,
    }
}

pub open spec fn str_or(o: Option<Seq<char>>, d: Seq<char>) -> Seq<char> {
    match o {
        Some(s) => s,
        None => d,
    }
}

/// The event kind with this wire name.
pub open spec fn spec_event_kind(s: Seq<char>) -> Option<EventKind> {
    if exists|k: EventKind| event_name(k) == s {
        Some(choose|k: EventKind| event_name(k) == s)
    } else {
        None
    }
}

pub open spec fn has_command(cmds: Seq<(Seq<char>, Seq<char>, Option<Seq<char>>)>, id: Seq<char>) -> bool {
    exists|i: int| 0 <= i < cmds.len() && (#[trigger] cmds[i]).0 == id
}

/// One message from the plugin named `name`: the plugin's new state and
/// the request it makes. A message without a string `method`, or with an
/// unknown one, changes nothing and asks nothing; so does a command
/// registration without an id or a subscription to an unknown event. A
/// command id already registered, or an event already subscribed to, is
/// not added twice, but the request is still made.
pub open spec fn spec_handle(name: Seq<char>, p: PluginModel, msg: JsonValue) -> (PluginModel, Option<RequestModel>) {
    match jstr(jget(msg, "method"@)) {
        None => (p, None),
        Some(method) => {
            let request_id = match jget(msg, "id"@) {
                Some(v) => json_view(v),
                None => JsonModel::Null,
            };
            if method == "RegisterCommand"@ {
                let id = str_or(jstr(param(msg, "id"@)), Seq::empty());
                let label = str_or(jstr(param(msg, "label"@)), id);
                let keybinding = jstr(param(msg, "keybinding"@));
                if id.len() == 0 {
                    (p, None)
                } else {
                    (
                        PluginModel {
                            commands: if has_command(p.commands, id) {
                                p.commands
                            } else {
                                p.commands.push((id, label, keybinding))
                            },
                            ..p
                        },
                        Some(
                            RequestModel::RegisterCommand {
                                plugin_name: name,
                                id,
                                label,
                                keybinding,
                            },
                        ),
                    )
                }
            } else if method == "SubscribeEvent"@ {
                match jstr(param(msg, "event"@)) {
                    Some(ev) => match spec_event_kind(ev) {
                        Some(kind) => (
                            PluginModel {
                                subscriptions: if p.subscriptions.contains(kind) {
                                    p.subscriptions
                                } else {
                                    p.subscriptions.push(kind)
                                },
                                ..p
                            },
                            Some(RequestModel::SubscribeEvent { plugin_name: name, kind }),
                        ),
                        None => (p, None),
                    },
                    None => (p, None),
                }
            } else if method == "GetBufferText"@ {
                (p, Some(RequestModel::GetBufferText { plugin_name: name, request_id }))
            } else if method == "InsertText"@ {
                (
                    p,
                    Some(
                        RequestModel::InsertText {
                            plugin_name: name,
                            text: str_or(jstr(param(msg, "text"@)), Seq::empty()),
                        },
                    ),
                )
            } else if method == "ShowMessage"@ {
                (
                    p,
                    Some(
                        RequestModel::ShowMessage {
                            plugin_name: name,
                            text: str_or(jstr(param(msg, "text"@)), Seq::empty()),
                            kind: str_or(jstr(param(msg, "kind"@)), "info"@),
                        },
                    ),
                )
            } else if method == "GetFilePath"@ {
                (p, Some(RequestModel::GetFilePath { plugin_name: name, request_id }))
            } else {
                (p, None)
            }
        },
    }
}

/// The messages of one plugin, in order.
pub open spec fn spec_drain(name: Seq<char>, p: PluginModel, msgs: Seq<JsonValue>) -> (PluginModel, Seq<RequestModel>)
    decreases msgs.len(),
{
    if msgs.len() == 0 {
        (p, Seq::empty())
    } else {
        let (p1, reqs) = spec_drain(name, p, msgs.drop_last());
        match spec_handle(name, p1, msgs.last()) {
            (p2, Some(r)) => (p2, reqs.push(r)),
            (p2, None) => (p2, reqs),
        }
    }
}

fn str_or_exec(o: Option<&str>, d: &str) -> (r: String)
    ensures
        r@ == str_or(
            match o {
                Some(s) => Some(s@),
                None => None,
            },
            d@,
        ),
{
    match o {
        Some(s) => s.to_owned(),
        None => d.to_owned(),
    }
}

fn param_str<'b>(msg: &'b JsonValue, key: &str) -> (r: Option<&'b str>)
    ensures
        match r {
            Some(s) => jstr(param(*msg, key@)) == Some(s@),
            None => jstr(param(*msg, key@)) is None,
        },
{
    match msg.get("params") {
        Some(p) => json_str_of(p, key),
        None => None,
    }
}

fn str_matches(s: &str, lit: &str) -> (b: bool)
    ensures
        b == (s@ == lit@),
{
    let v = crate::text::chars_of(s);
    crate::text::chars_eq_str(&v, lit)
}

fn event_kind_of(s: &str) -> (r: Option<EventKind>)
    ensures
        r == spec_event_kind(s@),
{
    let r = EventKind::from_str(s);
    proof {
        match r {
            Some(k) => {
                assert(event_name(k) == s@);
                let c = choose|j: EventKind| event_name(j) == s@;
                lemma_event_names_distinct(k, c);
            },
            None => {},
        }
    }
    r
}

impl Plugin {
    /// A plugin just launched from its manifest: no commands, no
    /// subscriptions.
    pub fn new(manifest: &PluginManifest) -> (p: Plugin)
        ensures
            p.name@ == manifest.name@,
            p.version@ == manifest.version@,
            p.description@ == manifest.description@,
            p.commands@.len() == 0,
            p.subscriptions@.len() == 0,
    {
        Plugin {
            name: manifest.name.clone(),
            version: manifest.version.clone(),
            description: manifest.description.clone(),
            commands: Vec::new(),
            subscriptions: Vec::new(),
        }
    }

    /// Whether the plugin subscribes to `kind`.
    pub fn subscribes_to(&self, kind: &EventKind) -> (b: bool)
        ensures
            b == self.subscriptions@.contains(*kind),
    {
        let mut i: usize = 0;
        while i < self.subscriptions.len()
            invariant
                i <= self.subscriptions@.len(),
                forall|j: int| 0 <= j < i ==> self.subscriptions@[j] != *kind,
            decreases self.subscriptions@.len() - i,
        {
            if self.subscriptions[i] == *kind {
                return true;
            }
            i = i + 1;
        }
        false
    }

    /// Whether the plugin registered a command with this id.
    pub fn has_command(&self, id: &str) -> (b: bool)
        ensures
            b == has_command(plugin_view(*self).commands, id@),
    {
        let mut i: usize = 0;
        while i < self.commands.len()
            invariant
                i <= self.commands@.len(),
                forall|j: int| 0 <= j < i ==> self.commands@[j].id@ != id@,
            decreases self.commands@.len() - i,
        {
            if str_matches(self.commands[i].id.as_str(), id) {
                proof {
                    assert(plugin_view(*self).commands[i as int].0 == id@);
                }
                return true;
            }
            i = i + 1;
        }
        proof {
            if has_command(plugin_view(*self).commands, id@) {
                let j = choose|j: int| 0 <= j < plugin_view(*self).commands.len() && (#[trigger] plugin_view(*self).commands[j]).0 == id@;
                assert(self.commands@[j].id@ == id@);
            }
        }
        false
    }

    /// Handles one message: updates the plugin's commands and
    /// subscriptions and gives the request for the editor, if any.
    pub fn handle_message(&mut self, msg: &JsonValue) -> (r: Option<PluginRequest>)
        ensures
            final(self).name == old(self).name,
            final(self).version == old(self).version,
            final(self).description == old(self).description,
            (plugin_view(*final(self)), match r {
                Some(q) => Some(request_view(q)),
                None => None,
            }) == spec_handle(old(self).name@, plugin_view(*old(self)), *msg),
    {
        let (id, method, _params) = match parse_plugin_message(msg) {
            Some(x) => x,
            None => {
                return None;
            },
        };
        let ghost pv = plugin_view(*self);
        let request_id = match id {
            Some(v) => v,
            None => JsonValue::Null,
        };
        proof {
            assert(json_view(request_id) == match jget(*msg, "id"@) {
                Some(v) => json_view(v),
                None => JsonModel::Null,
            });
        }
        proof {
            reveal_strlit("RegisterCommand");
            reveal_strlit("SubscribeEvent");
            reveal_strlit("GetBufferText");
            reveal_strlit("InsertText");
            reveal_strlit("ShowMessage");
            reveal_strlit("GetFilePath");
            reveal_strlit("");
        }
        if str_matches(method, "RegisterCommand") {
            let cmd_id = str_or_exec(param_str(msg, "id"), "");
            let label = str_or_exec(param_str(msg, "label"), cmd_id.as_str());
            let keybinding = match param_str(msg, "keybinding") {
                Some(k) => Some(k.to_owned()),
                None => None,
            };
            if cmd_id.as_str().is_empty() {
                return None;
            }
            if !self.has_command(cmd_id.as_str()) {
                let cmd = PluginCommand { id: cmd_id.clone(), label: label.clone(), keybinding: keybinding.clone() };
                self.commands.push(cmd);
                proof {
                    assert(plugin_view(*self).commands =~= pv.commands.push(command_view(cmd)));
                }
            }
            proof {
                assert(plugin_view(*self).subscriptions == pv.subscriptions);
            }
            let r = Some(PluginRequest::RegisterCommand { plugin_name: self.name.clone(), id: cmd_id, label, keybinding });
            proof {
                let ghost want = spec_handle(old(self).name@, pv, *msg);
                assert(plugin_view(*self) == want.0);
                assert(Some(request_view(r.unwrap())) == want.1);
            }
            r
        } else if str_matches(method, "SubscribeEvent") {
            let ev = match param_str(msg, "event") {
                Some(e) => e,
                None => {
                    return None;
                },
            };
            let kind = match event_kind_of(ev) {
                Some(k) => k,
                None => {
                    return None;
                },
            };
            if !self.subscribes_to(&kind) {
                self.subscriptions.push(kind);
            }
            proof {
                assert(plugin_view(*self).commands =~= pv.commands);
            }
            let r = Some(PluginRequest::SubscribeEvent { plugin_name: self.name.clone(), kind });
            proof {
                let ghost want = spec_handle(old(self).name@, pv, *msg);
                assert(plugin_view(*self) == want.0);
                assert(Some(request_view(r.unwrap())) == want.1);
            }
            r
        } else if str_matches(method, "GetBufferText") {
            let r = Some(PluginRequest::GetBufferText { plugin_name: self.name.clone(), request_id });
            proof {
                let ghost want = spec_handle(old(self).name@, pv, *msg);
                assert(plugin_view(*self) == want.0);
                assert(Some(request_view(r.unwrap())) == want.1);
            }
            r
        } else if str_matches(method, "InsertText") {
            let text = str_or_exec(param_str(msg, "text"), "");
            proof {
                assert(""@ == Seq::<char>::empty());
                assert(text@ == str_or(jstr(param(*msg, "text"@)), Seq::empty()));
            }
            let r = Some(PluginRequest::InsertText { plugin_name: self.name.clone(), text });
            proof {
                let ghost want = spec_handle(old(self).name@, pv, *msg);
                assert(plugin_view(*self) == want.0);
                assert(Some(request_view(r.unwrap())) == want.1);
            }
            r
        } else if str_matches(method, "ShowMessage") {
            let text = str_or_exec(param_str(msg, "text"), "");
            let kind = str_or_exec(param_str(msg, "kind"), "info");
            proof {
                assert(""@ == Seq::<char>::empty());
                assert(text@ == str_or(jstr(param(*msg, "text"@)), Seq::empty()));
                assert(kind@ == str_or(jstr(param(*msg, "kind"@)), "info"@));
            }
            let r = Some(PluginRequest::ShowMessage { plugin_name: self.name.clone(), text, kind });
            proof {
                let ghost want = spec_handle(old(self).name@, pv, *msg);
                assert(plugin_view(*self) == want.0);
                assert(Some(request_view(r.unwrap())) == want.1);
            }
            r
        } else if str_matches(method, "GetFilePath") {
            let r = Some(PluginRequest::GetFilePath { plugin_name: self.name.clone(), request_id });
            proof {
                let ghost want = spec_handle(old(self).name@, pv, *msg);
                assert(plugin_view(*self) == want.0);
                assert(Some(request_view(r.unwrap())) == want.1);
            }
            r
        } else {
            None
        }
    }
}


/// Drains one plugin's messages, in order.
fn drain_one(p: &mut Plugin, msgs: &[JsonValue]) -> (r: Vec<PluginRequest>)
    ensures
        final(p).name == old(p).name,
        final(p).version == old(p).version,
        final(p).description == old(p).description,
        (plugin_view(*final(p)), requests_view(r@)) == spec_drain(old(p).name@, plugin_view(*old(p)), msgs@),
{
    let mut out: Vec<PluginRequest> = Vec::new();
    let mut i: usize = 0;
    proof {
        assert(msgs@.take(0) =~= Seq::<JsonValue>::empty());
        assert(requests_view(out@) =~= Seq::<RequestModel>::empty());
    }
    while i < msgs.len()
        invariant
            i <= msgs@.len(),
            p.name == old(p).name,
            p.version == old(p).version,
            p.description == old(p).description,
            (plugin_view(*p), requests_view(out@)) == spec_drain(old(p).name@, plugin_view(*old(p)), msgs@.take(i as int)),
        decreases msgs@.len() - i,
    {
        proof {
            assert(msgs@.take(i + 1).drop_last() =~= msgs@.take(i as int));
            assert(msgs@.take(i + 1).last() == msgs@[i as int]);
        }
        match p.handle_message(&msgs[i]) {
            Some(req) => {
                let ghost before = requests_view(out@);
                out.push(req);
                proof {
                    assert(requests_view(out@) =~= before.push(request_view(req)));
                }
            },
            None => {},
        }
        i = i + 1;
    }
    proof {
        assert(msgs@.take(msgs@.len() as int) =~= msgs@);
    }
    out
}

/// The messages read from plugin `i`; none where the inbox has no entry.
pub open spec fn inbox_at(inbox: Seq<Vec<JsonValue>>, i: int) -> Seq<JsonValue> {
    if 0 <= i < inbox.len() {
        inbox[i]@
    } else {
        Seq::empty()
    }
}

/// The requests of the first `n` plugins, plugin by plugin.
pub open spec fn spec_collect(plugins: Seq<Plugin>, inbox: Seq<Vec<JsonValue>>, n: int) -> Seq<RequestModel>
    decreases n,
{
    if n <= 0 {
        Seq::empty()
    } else {
        spec_collect(plugins, inbox, n - 1) + spec_drain(
            plugins[n - 1].name@,
            plugin_view(plugins[n - 1]),
            inbox_at(inbox, n - 1),
        ).1
    }
}

/// The registered commands of the plugins, in order, with the name of the
/// plugin that registered each.
pub open spec fn spec_all_commands(plugins: Seq<Plugin>) -> Seq<(Seq<char>, PluginCommand)>
    decreases plugins.len(),
{
    if plugins.len() == 0 {
        Seq::empty()
    } else {
        let last = plugins.last();
        spec_all_commands(plugins.drop_last()) + last.commands@.map_values(
            |c: PluginCommand| (last.name@, c),
        )
    }
}

/// The plugins whose `alive` flag is set (or that have none), in order.
pub open spec fn keep_alive(ps: Seq<Plugin>, alive: Seq<bool>) -> Seq<Plugin>
    decreases ps.len(),
{
    if ps.len() == 0 {
        Seq::empty()
    } else {
        let i = ps.len() - 1;
        if i >= alive.len() || alive[i] {
            keep_alive(ps.drop_last(), alive).push(ps.last())
        } else {
            keep_alive(ps.drop_last(), alive)
        }
    }
}

/// The running plugins and the manifests found but not launched.
pub struct PluginManager {
    pub plugins: Vec<Plugin>,
    /// Discovered manifests with the directory each was found in.
    pub discovered: Vec<(PluginManifest, String)>,
}

impl PluginManager {
    pub fn new() -> (m: PluginManager)
        ensures
            m.plugins@.len() == 0,
            m.discovered@.len() == 0,
    {
        PluginManager { plugins: Vec::new(), discovered: Vec::new() }
    }

    /// Handles the messages read from each plugin (`inbox[i]` from plugin
    /// `i`, in the order they arrived) and gives the requests for the
    /// editor, plugin by plugin. Command registrations and subscriptions
    /// are recorded on the plugin as well.
    pub fn drain_and_collect(&mut self, inbox: &[Vec<JsonValue>]) -> (r: Vec<PluginRequest>)
        ensures
            final(self).discovered == old(self).discovered,
            final(self).plugins@.len() == old(self).plugins@.len(),
            forall|i: int|
                0 <= i < old(self).plugins@.len() ==> {
                    let o = #[trigger] old(self).plugins@[i];
                    let f = final(self).plugins@[i];
                    &&& f.name == o.name
                    &&& f.version == o.version
                    &&& f.description == o.description
                    &&& plugin_view(f) == spec_drain(o.name@, plugin_view(o), inbox_at(inbox@, i)).0
                },
            requests_view(r@) == spec_collect(old(self).plugins@, inbox@, old(self).plugins@.len() as int),
    {
        let ghost olds = self.plugins@;
        let mut out: Vec<PluginRequest> = Vec::new();
        let mut i: usize = 0;
        let n = self.plugins.len();
        proof {
            assert(requests_view(out@) =~= Seq::<RequestModel>::empty());
        }
        while i < n
            invariant
                n == olds.len(),
                i <= n,
                self.plugins@.len() == n,
                self.discovered == old(self).discovered,
                olds == old(self).plugins@,
                forall|j: int| i <= j < n ==> self.plugins@[j] == olds[j],
                forall|j: int|
                    0 <= j < i ==> {
                        let o = #[trigger] olds[j];
                        let f = self.plugins@[j];
                        &&& f.name == o.name
                        &&& f.version == o.version
                        &&& f.description == o.description
                        &&& plugin_view(f) == spec_drain(o.name@, plugin_view(o), inbox_at(inbox@, j)).0
                    },
                requests_view(out@) == spec_collect(olds, inbox@, i as int),
            decreases n - i,
        {
            let mut p = self.plugins.remove(i);
            let mut reqs = if i < inbox.len() {
                drain_one(&mut p, inbox[i].as_slice())
            } else {
                let empty: Vec<JsonValue> = Vec::new();
                drain_one(&mut p, empty.as_slice())
            };
            proof {
                assert(inbox_at(inbox@, i as int) == if i < inbox@.len() { inbox@[i as int]@ } else { Seq::<JsonValue>::empty() });
            }
            self.plugins.insert(i, p);
            let ghost before = requests_view(out@);
            let ghost added = requests_view(reqs@);
            out.append(&mut reqs);
            proof {
                assert(requests_view(out@) =~= before + added);
            }
            i = i + 1;
        }
        out
    }

    /// The index of the plugin that registered the command, if any: the
    /// one to notify when it is invoked.
    pub fn command_owner(&self, command_id: &str) -> (r: Option<usize>)
        ensures
            match r {
                Some(i) => i < self.plugins@.len() && has_command(plugin_view(self.plugins@[i as int]).commands, command_id@)
                    && forall|j: int| 0 <= j < i ==> !has_command(plugin_view(#[trigger] self.plugins@[j]).commands, command_id@),
                None => forall|j: int| 0 <= j < self.plugins@.len() ==> !has_command(plugin_view(#[trigger] self.plugins@[j]).commands, command_id@),
            },
    {
        let mut i: usize = 0;
        while i < self.plugins.len()
            invariant
                i <= self.plugins@.len(),
                forall|j: int| 0 <= j < i ==> !has_command(plugin_view(#[trigger] self.plugins@[j]).commands, command_id@),
            decreases self.plugins@.len() - i,
        {
            if self.plugins[i].has_command(command_id) {
                return Some(i);
            }
            i = i + 1;
        }
        None
    }

    /// The index of the first plugin with this name, if any.
    pub fn plugin_index(&self, name: &str) -> (r: Option<usize>)
        ensures
            match r {
                Some(i) => i < self.plugins@.len() && self.plugins@[i as int].name@ == name@
                    && forall|j: int| 0 <= j < i ==> (#[trigger] self.plugins@[j]).name@ != name@,
                None => forall|j: int| 0 <= j < self.plugins@.len() ==> (#[trigger] self.plugins@[j]).name@ != name@,
            },
    {
        let mut i: usize = 0;
        while i < self.plugins.len()
            invariant
                i <= self.plugins@.len(),
                forall|j: int| 0 <= j < i ==> (#[trigger] self.plugins@[j]).name@ != name@,
            decreases self.plugins@.len() - i,
        {
            if str_matches(self.plugins[i].name.as_str(), name) {
                return Some(i);
            }
            i = i + 1;
        }
        None
    }

    /// The indices of the plugins subscribed to `kind`, in order: those to
    /// send the event to.
    pub fn subscribers(&self, kind: &EventKind) -> (r: Vec<usize>)
        ensures
            forall|k: int| 0 <= k < r@.len() ==> r@[k] < self.plugins@.len() && self.plugins@[r@[k] as int].subscriptions@.contains(*kind),
            forall|j: int| 0 <= j < self.plugins@.len() && (#[trigger] self.plugins@[j]).subscriptions@.contains(*kind) ==> r@.contains(j as usize),
            forall|a: int, b: int| 0 <= a < b < r@.len() ==> r@[a] < r@[b],
    {
        let mut out: Vec<usize> = Vec::new();
        let mut i: usize = 0;
        while i < self.plugins.len()
            invariant
                i <= self.plugins@.len(),
                forall|k: int| 0 <= k < out@.len() ==> out@[k] < i && self.plugins@[out@[k] as int].subscriptions@.contains(*kind),
                forall|j: int| 0 <= j < i && (#[trigger] self.plugins@[j]).subscriptions@.contains(*kind) ==> out@.contains(j as usize),
                forall|a: int, b: int| 0 <= a < b < out@.len() ==> out@[a] < out@[b],
            decreases self.plugins@.len() - i,
        {
            if self.plugins[i].subscribes_to(kind) {
                let ghost old_out = out@;
                out.push(i);
                proof {
                    assert(out@[out@.len() - 1] == i);
                    assert forall|j: int| 0 <= j <= i && (#[trigger] self.plugins@[j]).subscriptions@.contains(*kind) implies out@.contains(j as usize) by {
                        if j < i {
                            assert(old_out.contains(j as usize));
                            let k = choose|k: int| 0 <= k < old_out.len() && old_out[k] == j as usize;
                            assert(out@[k] == j as usize);
                        } else {
                            assert(out@[out@.len() - 1] == j as usize);
                        }
                    }
                }
            }
            i = i + 1;
        }
        out
    }

    /// Keeps the plugins whose process is still alive (`alive[i]` for
    /// plugin `i`; one without an entry is kept), in order.
    pub fn retain_alive(&mut self, alive: &[bool])
        ensures
            final(self).discovered == old(self).discovered,
            final(self).plugins@ == keep_alive(old(self).plugins@, alive@),
    {
        let mut kept: Vec<Plugin> = Vec::new();
        let mut rest: Vec<Plugin> = Vec::new();
        std::mem::swap(&mut rest, &mut self.plugins);
        let ghost olds = rest@;
        let n = rest.len();
        let mut i: usize = 0;
        while rest.len() > 0
            invariant
                olds.len() == n,
                olds == old(self).plugins@,
                self.discovered == old(self).discovered,
                i + rest@.len() == olds.len(),
                rest@ == olds.skip(i as int),
                kept@ == keep_alive(olds.take(i as int), alive@),
            decreases rest@.len(),
        {
            let p = rest.remove(0);
            let keep = i >= alive.len() || alive[i];
            proof {
                assert(olds.take(i + 1).drop_last() =~= olds.take(i as int));
                assert(olds.take(i + 1).last() == p);
            }
            if keep {
                kept.push(p);
            }
            proof {
                assert(rest@ =~= olds.skip(i + 1));
            }
            i = i + 1;
        }
        proof {
            assert(olds.take(olds.len() as int) =~= olds);
        }
        self.plugins = kept;
    }

    /// Every registered command, with the name of its plugin.
    pub fn all_commands(&self) -> (r: Vec<(String, &PluginCommand)>)
        ensures
            r@.map_values(|e: (String, &PluginCommand)| (e.0@, *e.1)) == spec_all_commands(self.plugins@),
    {
        let mut out: Vec<(String, &PluginCommand)> = Vec::new();
        let mut i: usize = 0;
        proof {
            assert(self.plugins@.take(0) =~= Seq::<Plugin>::empty());
            assert(out@.map_values(|e: (String, &PluginCommand)| (e.0@, *e.1)) =~= Seq::<(Seq<char>, PluginCommand)>::empty());
        }
        while i < self.plugins.len()
            invariant
                i <= self.plugins@.len(),
                out@.map_values(|e: (String, &PluginCommand)| (e.0@, *e.1)) == spec_all_commands(self.plugins@.take(i as int)),
            decreases self.plugins@.len() - i,
        {
            let plugin = &self.plugins[i];
            let ghost base = out@.map_values(|e: (String, &PluginCommand)| (e.0@, *e.1));
            let mut k: usize = 0;
            while k < plugin.commands.len()
                invariant
                    k <= plugin.commands@.len(),
                    out@.map_values(|e: (String, &PluginCommand)| (e.0@, *e.1)) == base + plugin.commands@.take(k as int).map_values(
                        |c: PluginCommand| (plugin.name@, c),
                    ),
                decreases plugin.commands@.len() - k,
            {
                let ghost before = out@.map_values(|e: (String, &PluginCommand)| (e.0@, *e.1));
                out.push((plugin.name.clone(), &plugin.commands[k]));
                proof {
                    assert(out@.map_values(|e: (String, &PluginCommand)| (e.0@, *e.1)) =~= before.push((plugin.name@, plugin.commands@[k as int])));
                    assert(plugin.commands@.take(k + 1).map_values(|c: PluginCommand| (plugin.name@, c)) =~= plugin.commands@.take(k as int).map_values(|c: PluginCommand| (plugin.name@, c)).push((plugin.name@, plugin.commands@[k as int])));
                }
                k = k + 1;
            }
            proof {
                assert(plugin.commands@.take(plugin.commands@.len() as int) =~= plugin.commands@);
                assert(self.plugins@.take(i + 1).drop_last() =~= self.plugins@.take(i as int));
                assert(self.plugins@.take(i + 1).last() == *plugin);
            }
            i = i + 1;
        }
        proof {
            assert(self.plugins@.take(self.plugins@.len() as int) =~= self.plugins@);
        }
        out
    }
}

} // verus!
