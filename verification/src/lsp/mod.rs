//! Language Server Protocol support: message framing, protocol messages,
//! the client state machine, and the set of running clients.
pub mod client;
pub mod protocol;
pub mod transport;

use vstd::prelude::*;
use crate::lsp::client::{LspClient, ClientModel, PendingModel, client_view, strs_view, position_step, tokens_step};
use crate::syntax::json_parser::{JsonValue, json_view};
use crate::lsp::transport::LspTransport;
use crate::lsp::protocol::{initialize_msg, CompletionItem, Location, SemanticTokenEntry, path_to_uri};

verus! {

/// How to start the server of a language.
pub struct LspServerConfig {
    pub command: String,
    pub args: Vec<String>,
}

/// The position of the first client for `lang`.
pub open spec fn lang_pos(o: Seq<(String, LspClient)>, lang: Seq<char>) -> Option<int>
    decreases o.len(),
{
    if o.len() == 0 {
        None
    } else {
        match lang_pos(o.drop_last(), lang) {
            Some(i) => Some(i),
            None => if o.last().0@ == lang { Some(o.len() - 1) } else { None },
        }
    }
}

proof fn lemma_lang_pos(o: Seq<(String, LspClient)>, lang: Seq<char>)
    ensures
        match lang_pos(o, lang) {
            Some(i) => 0 <= i < o.len() && o[i].0@ == lang && forall|j: int| 0 <= j < i ==> (#[trigger] o[j]).0@ != lang,
            None => forall|j: int| 0 <= j < o.len() ==> (#[trigger] o[j]).0@ != lang,
        },
    decreases o.len(),
{
    if o.len() > 0 {
        let d = o.drop_last();
        lemma_lang_pos(d, lang);
        assert(forall|j: int| 0 <= j < d.len() ==> d[j] == o[j]);
    }
}

/// A request routed to the first client for `lang`: that client takes
/// the step `step` (or, with its ids used up, sends nothing), and the
/// others stay as they were; with no client for `lang`, nothing is sent.
pub open spec fn routed(
    o: Seq<(String, LspClient)>,
    f: Seq<(String, LspClient)>,
    lang: Seq<char>,
    msg: Option<JsonValue>,
    step: spec_fn(LspClient, LspClient, Option<JsonValue>) -> bool,
) -> bool {
    match lang_pos(o, lang) {
        None => msg is None && f == o,
        Some(i) => {
            &&& f.len() == o.len()
            &&& forall|j: int| 0 <= j < o.len() && j != i ==> f[j] == o[j]
            &&& f[i].0 == o[i].0
            &&& if o[i].1.next_id < i64::MAX {
                step(o[i].1, f[i].1, msg)
            } else {
                msg is None && f[i].1 == o[i].1
            }
        },
    }
}

/// The running clients, one per language, and the configured servers.
pub struct LspManager {
    /// language id → client
    pub clients: Vec<(String, LspClient)>,
    /// language id → server config
    pub config: Vec<(String, LspServerConfig)>,
    pub root_uri: String,
}

/// What serving a language takes: the client already running, starting
/// the configured server, or nothing (no server configured).
#[derive(Clone, Copy, Debug, PartialEq, Eq, Structural)]
pub enum ClientPlan {
    Running(usize),
    Spawn(usize),
    Unconfigured,
}

fn clone_strings(v: &Vec<String>) -> (r: Vec<String>)
    ensures
        strs_view(r@) == strs_view(v@),
{
    let mut out: Vec<String> = Vec::new();
    let mut i: usize = 0;
    while i < v.len()
        invariant
            i <= v@.len(),
            strs_view(out@) == strs_view(v@.take(i as int)),
        decreases v@.len() - i,
    {
        let ghost before = strs_view(out@);
        out.push(v[i].clone());
        proof {
            assert(strs_view(out@) =~= before.push(v@[i as int]@));
            assert(strs_view(v@.take(i + 1)) =~= strs_view(v@.take(i as int)).push(v@[i as int]@));
        }
        i = i + 1;
    }
    proof {
        assert(v@.take(v@.len() as int) =~= v@);
    }
    out
}

fn str_eq(a: &str, b: &str) -> (r: bool)
    ensures
        r == (a@ == b@),
{
    let v = crate::text::chars_of(a);
    crate::text::chars_eq_str(&v, b)
}

/// The first entry for `lang`, searching in order.
fn lang_index<T>(s: &Vec<(String, T)>, lang: &str) -> (r: Option<usize>)
    ensures
        match r {
            Some(i) => i < s@.len() && s@[i as int].0@ == lang@ && forall|j: int| 0 <= j < i ==> (#[trigger] s@[j]).0@ != lang@,
            None => forall|j: int| 0 <= j < s@.len() ==> (#[trigger] s@[j]).0@ != lang@,
        },
{
    let mut i: usize = 0;
    while i < s.len()
        invariant
            i <= s@.len(),
            forall|j: int| 0 <= j < i ==> (#[trigger] s@[j]).0@ != lang@,
        decreases s@.len() - i,
    {
        if str_eq(s[i].0.as_str(), lang) {
            return Some(i);
        }
        i = i + 1;
    }
    None
}

impl LspManager {
    pub fn new(config: Vec<(String, LspServerConfig)>, root_dir: &str) -> (m: LspManager)
        ensures
            m.clients@.len() == 0,
            m.config == config,
            m.root_uri@ == "file://"@ + root_dir@,
    {
        LspManager { clients: Vec::new(), config, root_uri: path_to_uri(root_dir) }
    }

    /// The client running for `lang`, if any.
    pub fn client_index(&self, lang: &str) -> (r: Option<usize>)
        ensures
            match r {
                Some(i) => i < self.clients@.len() && self.clients@[i as int].0@ == lang@
                    && forall|j: int| 0 <= j < i ==> (#[trigger] self.clients@[j]).0@ != lang@,
                None => forall|j: int| 0 <= j < self.clients@.len() ==> (#[trigger] self.clients@[j]).0@ != lang@,
            },
    {
        lang_index(&self.clients, lang)
    }

    /// What serving `lang` takes: its running client first, else its
    /// configured server, else nothing.
    pub fn plan_client(&self, lang: &str) -> (p: ClientPlan)
        ensures
            match p {
                ClientPlan::Running(i) => i < self.clients@.len() && self.clients@[i as int].0@ == lang@
                    && forall|j: int| 0 <= j < i ==> (#[trigger] self.clients@[j]).0@ != lang@,
                ClientPlan::Spawn(k) => (forall|j: int| 0 <= j < self.clients@.len() ==> (#[trigger] self.clients@[j]).0@ != lang@)
                    && k < self.config@.len() && self.config@[k as int].0@ == lang@
                    && forall|j: int| 0 <= j < k ==> (#[trigger] self.config@[j]).0@ != lang@,
                ClientPlan::Unconfigured => (forall|j: int| 0 <= j < self.clients@.len() ==> (#[trigger] self.clients@[j]).0@ != lang@)
                    && forall|j: int| 0 <= j < self.config@.len() ==> (#[trigger] self.config@[j]).0@ != lang@,
            },
    {
        match lang_index(&self.clients, lang) {
            Some(i) => ClientPlan::Running(i),
            None => match lang_index(&self.config, lang) {
                Some(k) => ClientPlan::Spawn(k),
                None => ClientPlan::Unconfigured,
            },
        }
    }

    /// Records the client just started for `lang`.
    pub fn add_client(&mut self, lang: &str, client: LspClient)
        ensures
            final(self).clients@.len() == old(self).clients@.len() + 1,
            forall|j: int| 0 <= j < old(self).clients@.len() ==> final(self).clients@[j] == old(self).clients@[j],
            final(self).clients@.last().0@ == lang@,
            final(self).clients@.last().1 == client,
            final(self).config == old(self).config,
            final(self).root_uri == old(self).root_uri,
    {
        self.clients.push((lang.to_owned(), client));
    }

    /// Whether any server is configured.
    pub fn has_config(&self) -> (b: bool)
        ensures
            b == (self.config@.len() > 0),
    {
        self.config.len() > 0
    }

    /// Keeps the clients whose server is still running, in order.
    pub fn reap_dead(&mut self)
        ensures
            final(self).clients@ == old(self).clients@.filter(|e: (String, LspClient)| !e.1.transport.spec_dead()),
            final(self).config == old(self).config,
            final(self).root_uri == old(self).root_uri,
    {
        let mut kept: Vec<(String, LspClient)> = Vec::new();
        let mut rest: Vec<(String, LspClient)> = Vec::new();
        std::mem::swap(&mut rest, &mut self.clients);
        let ghost olds = rest@;
        let n = rest.len();
        let mut i: usize = 0;
        proof {
            assert(olds.take(0) =~= Seq::<(String, LspClient)>::empty());
            assert(olds.skip(0) =~= olds);
        }
        while rest.len() > 0
            invariant
                olds.len() == n,
                olds == old(self).clients@,
                self.config == old(self).config,
                self.root_uri == old(self).root_uri,
                i + rest@.len() == n,
                rest@ == olds.skip(i as int),
                kept@ == olds.take(i as int).filter(|e: (String, LspClient)| !e.1.transport.spec_dead()),
            decreases rest@.len(),
        {
            let e = rest.remove(0);
            proof {
                assert(olds.take(i + 1) =~= olds.take(i as int).push(e));
                olds.take(i as int).lemma_filter_push(e, |e: (String, LspClient)| !e.1.transport.spec_dead());
            }
            if !e.1.is_alive() {
            } else {
                kept.push(e);
            }
            proof {
                assert(rest@ =~= olds.skip(i + 1));
            }
            i = i + 1;
        }
        proof {
            assert(olds.take(n as int) =~= olds);
        }
        self.clients = kept;
    }

    /// Sends a completion request to the client for `lang`, if one runs.
    pub fn request_completion(&mut self, lang: &str, uri: &str, line: u32, character: u32) -> (r: Option<JsonValue>)
        ensures
            final(self).config == old(self).config,
            final(self).root_uri == old(self).root_uri,
            routed(
                old(self).clients@,
                final(self).clients@,
                lang@,
                r,
                |o: LspClient, f: LspClient, m: Option<JsonValue>|
                    position_step(o, f, m, "textDocument/completion"@, PendingModel::Completion, uri@, line, character),
            ),
    {
        let i = match self.client_at(lang) {
            Some(i) => i,
            None => return None,
        };
        let (l, mut client) = self.clients.remove(i);
        let r = if client.next_id < i64::MAX {
            client.request_completion(uri, line, character)
        } else {
            None
        };
        self.clients.insert(i, (l, client));
        proof {
            assert forall|j: int| 0 <= j < old(self).clients@.len() && j != i implies self.clients@[j] == old(self).clients@[j] by {}
        }
        r
    }

    /// Sends a hover request to the client for `lang`, if one runs.
    pub fn request_hover(&mut self, lang: &str, uri: &str, line: u32, character: u32) -> (r: Option<JsonValue>)
        ensures
            final(self).config == old(self).config,
            final(self).root_uri == old(self).root_uri,
            routed(
                old(self).clients@,
                final(self).clients@,
                lang@,
                r,
                |o: LspClient, f: LspClient, m: Option<JsonValue>|
                    position_step(o, f, m, "textDocument/hover"@, PendingModel::Hover, uri@, line, character),
            ),
    {
        let i = match self.client_at(lang) {
            Some(i) => i,
            None => return None,
        };
        let (l, mut client) = self.clients.remove(i);
        let r = if client.next_id < i64::MAX {
            client.request_hover(uri, line, character)
        } else {
            None
        };
        self.clients.insert(i, (l, client));
        proof {
            assert forall|j: int| 0 <= j < old(self).clients@.len() && j != i implies self.clients@[j] == old(self).clients@[j] by {}
        }
        r
    }

    /// Sends a definition request to the client for `lang`, if one runs.
    pub fn request_definition(&mut self, lang: &str, uri: &str, line: u32, character: u32) -> (r: Option<JsonValue>)
        ensures
            final(self).config == old(self).config,
            final(self).root_uri == old(self).root_uri,
            routed(
                old(self).clients@,
                final(self).clients@,
                lang@,
                r,
                |o: LspClient, f: LspClient, m: Option<JsonValue>|
                    position_step(o, f, m, "textDocument/definition"@, PendingModel::Definition, uri@, line, character),
            ),
    {
        let i = match self.client_at(lang) {
            Some(i) => i,
            None => return None,
        };
        let (l, mut client) = self.clients.remove(i);
        let r = if client.next_id < i64::MAX {
            client.request_definition(uri, line, character)
        } else {
            None
        };
        self.clients.insert(i, (l, client));
        proof {
            assert forall|j: int| 0 <= j < old(self).clients@.len() && j != i implies self.clients@[j] == old(self).clients@[j] by {}
        }
        r
    }

    /// Sends a semantic tokens request to the client for `lang`, if one runs.
    pub fn request_semantic_tokens(&mut self, lang: &str, uri: &str) -> (r: Option<JsonValue>)
        ensures
            final(self).config == old(self).config,
            final(self).root_uri == old(self).root_uri,
            routed(
                old(self).clients@,
                final(self).clients@,
                lang@,
                r,
                |o: LspClient, f: LspClient, m: Option<JsonValue>| tokens_step(o, f, m, uri@),
            ),
    {
        let i = match self.client_at(lang) {
            Some(i) => i,
            None => return None,
        };
        let (l, mut client) = self.clients.remove(i);
        let r = if client.next_id < i64::MAX {
            client.request_semantic_tokens(uri)
        } else {
            None
        };
        self.clients.insert(i, (l, client));
        proof {
            assert forall|j: int| 0 <= j < old(self).clients@.len() && j != i implies self.clients@[j] == old(self).clients@[j] by {}
        }
        r
    }

    /// The position of the first client for `lang`.
    fn client_at(&self, lang: &str) -> (r: Option<usize>)
        ensures
            match r {
                Some(i) => lang_pos(self.clients@, lang@) == Some(i as int) && i < self.clients@.len(),
                None => lang_pos(self.clients@, lang@) is None,
            },
    {
        let r = lang_index(&self.clients, lang);
        proof {
            lemma_lang_pos(self.clients@, lang@);
        }
        r
    }

    /// Starts serving `lang` over the transport of a server just spawned:
    /// a new client, whose `initialize` request (id 1, with the workspace
    /// root and `process_id`) is returned to be sent, joins the clients.
    pub fn start_client(&mut self, lang: &str, transport: LspTransport, process_id: u32) -> (msg: JsonValue)
        ensures
            final(self).config == old(self).config,
            final(self).root_uri == old(self).root_uri,
            json_view(msg) == initialize_msg(1, old(self).root_uri@, process_id),
            final(self).clients@.len() == old(self).clients@.len() + 1,
            forall|j: int| 0 <= j < old(self).clients@.len() ==> final(self).clients@[j] == old(self).clients@[j],
            final(self).clients@.last().0@ == lang@,
            final(self).clients@.last().1.transport == transport,
            client_view(final(self).clients@.last().1) == (ClientModel {
                next_id: 2,
                initialized: false,
                root_uri: old(self).root_uri@,
                language_id: lang@,
                doc_versions: Seq::empty(),
                diagnostics: Seq::empty(),
                pending: seq![(1i64, PendingModel::Initialize)],
                shutting_down: false,
                completion_result: None,
                hover_result: None,
                definition_result: None,
                semantic_legend: Seq::empty(),
                semantic_tokens_result: Seq::empty(),
                newly_initialized: false,
            }),
    {
        let mut client = LspClient::new(transport, self.root_uri.as_str(), lang);
        let msg = client.initialize(process_id);
        proof {
            assert(Seq::<(i64, PendingModel)>::empty().push((1i64, PendingModel::Initialize)) =~= seq![(1i64, PendingModel::Initialize)]);
        }
        self.clients.push((lang.to_owned(), client));
        msg
    }

    /// The language ids of the clients whose initialization completed
    /// since the last call, in order; their flags are cleared.
    pub fn take_newly_initialized_langs(&mut self) -> (r: Vec<String>)
        ensures
            final(self).clients@.len() == old(self).clients@.len(),
            final(self).config == old(self).config,
            final(self).root_uri == old(self).root_uri,
            forall|j: int|
                0 <= j < old(self).clients@.len() ==> {
                    let o = #[trigger] old(self).clients@[j];
                    let f = final(self).clients@[j];
                    &&& f.0 == o.0
                    &&& f.1.transport == o.1.transport
                    &&& client_view(f.1) == (ClientModel { newly_initialized: false, ..client_view(o.1) })
                },
            strs_view(r@) == old(self).clients@.filter(|e: (String, LspClient)| e.1.newly_initialized).map_values(
                |e: (String, LspClient)| e.0@,
            ),
    {
        let ghost olds = self.clients@;
        let mut out: Vec<String> = Vec::new();
        let n = self.clients.len();
        let mut i: usize = 0;
        proof {
            assert(olds.take(0).filter(|e: (String, LspClient)| e.1.newly_initialized) =~= Seq::<(String, LspClient)>::empty());
            assert(strs_view(out@) =~= Seq::<Seq<char>>::empty());
        }
        while i < n
            invariant
                n == olds.len(),
                i <= n,
                olds == old(self).clients@,
                self.clients@.len() == n,
                self.config == old(self).config,
                self.root_uri == old(self).root_uri,
                forall|j: int| i <= j < n ==> self.clients@[j] == olds[j],
                forall|j: int|
                    0 <= j < i ==> {
                        let o = #[trigger] olds[j];
                        let f = self.clients@[j];
                        &&& f.0 == o.0
                        &&& f.1.transport == o.1.transport
                        &&& client_view(f.1) == (ClientModel { newly_initialized: false, ..client_view(o.1) })
                    },
                strs_view(out@) == olds.take(i as int).filter(|e: (String, LspClient)| e.1.newly_initialized).map_values(
                    |e: (String, LspClient)| e.0@,
                ),
            decreases n - i,
        {
            let (lang, mut client) = self.clients.remove(i);
            let flag = client.take_newly_initialized();
            proof {
                assert(olds.take(i + 1) =~= olds.take(i as int).push(olds[i as int]));
                olds.take(i as int).lemma_filter_push(olds[i as int], |e: (String, LspClient)| e.1.newly_initialized);
            }
            if flag {
                let ghost before = strs_view(out@);
                out.push(lang.clone());
                proof {
                    assert(strs_view(out@) =~= before.push(lang@));
                    let f = olds.take(i as int).filter(|e: (String, LspClient)| e.1.newly_initialized);
                    assert(f.push(olds[i as int]).map_values(|e: (String, LspClient)| e.0@) =~= f.map_values(|e: (String, LspClient)| e.0@).push(lang@));
                }
            }
            self.clients.insert(i, (lang, client));
            i = i + 1;
        }
        proof {
            assert(olds.take(n as int) =~= olds);
        }
        out
    }

    /// The completion result of the first client that has one; it is
    /// taken from that client.
    pub fn take_completion_result(&mut self) -> (r: Option<Vec<CompletionItem>>)
        ensures
            final(self).clients@.len() == old(self).clients@.len(),
            final(self).config == old(self).config,
            final(self).root_uri == old(self).root_uri,
            match r {
                Some(v) => exists|i: int|
                    0 <= i < old(self).clients@.len() && (forall|j: int| 0 <= j < i ==> (#[trigger] old(self).clients@[j]).1.completion_result is None)
                        && old(self).clients@[i].1.completion_result == Some(v)
                        && final(self).clients@ == old(self).clients@.update(
                        i,
                        (old(self).clients@[i].0, LspClient { completion_result: None, ..old(self).clients@[i].1 }),
                    ),
                None => (forall|j: int| 0 <= j < old(self).clients@.len() ==> (#[trigger] old(self).clients@[j]).1.completion_result is None)
                    && final(self).clients@ == old(self).clients@,
            },
    {
        let mut i: usize = 0;
        while i < self.clients.len()
            invariant
                i <= self.clients@.len(),
                self.clients == old(self).clients,
                self.config == old(self).config,
                self.root_uri == old(self).root_uri,
                forall|j: int| 0 <= j < i ==> (#[trigger] self.clients@[j]).1.completion_result is None,
            decreases self.clients@.len() - i,
        {
            if self.clients[i].1.completion_result.is_some() {
                let (lang, mut client) = self.clients.remove(i);
                let v = client.completion_result.take();
                self.clients.insert(i, (lang, client));
                proof {
                    assert(self.clients@ =~= old(self).clients@.update(
                        i as int,
                        (old(self).clients@[i as int].0, LspClient { completion_result: None, ..old(self).clients@[i as int].1 }),
                    ));
                }
                return v;
            }
            i = i + 1;
        }
        None
    }
    /// The hover text of the first client that has one; it is
    /// taken from that client.
    pub fn take_hover_result(&mut self) -> (r: Option<String>)
        ensures
            final(self).clients@.len() == old(self).clients@.len(),
            final(self).config == old(self).config,
            final(self).root_uri == old(self).root_uri,
            match r {
                Some(v) => exists|i: int|
                    0 <= i < old(self).clients@.len() && (forall|j: int| 0 <= j < i ==> (#[trigger] old(self).clients@[j]).1.hover_result is None)
                        && old(self).clients@[i].1.hover_result == Some(v)
                        && final(self).clients@ == old(self).clients@.update(
                        i,
                        (old(self).clients@[i].0, LspClient { hover_result: None, ..old(self).clients@[i].1 }),
                    ),
                None => (forall|j: int| 0 <= j < old(self).clients@.len() ==> (#[trigger] old(self).clients@[j]).1.hover_result is None)
                    && final(self).clients@ == old(self).clients@,
            },
    {
        let mut i: usize = 0;
        while i < self.clients.len()
            invariant
                i <= self.clients@.len(),
                self.clients == old(self).clients,
                self.config == old(self).config,
                self.root_uri == old(self).root_uri,
                forall|j: int| 0 <= j < i ==> (#[trigger] self.clients@[j]).1.hover_result is None,
            decreases self.clients@.len() - i,
        {
            if self.clients[i].1.hover_result.is_some() {
                let (lang, mut client) = self.clients.remove(i);
                let v = client.hover_result.take();
                self.clients.insert(i, (lang, client));
                proof {
                    assert(self.clients@ =~= old(self).clients@.update(
                        i as int,
                        (old(self).clients@[i as int].0, LspClient { hover_result: None, ..old(self).clients@[i as int].1 }),
                    ));
                }
                return v;
            }
            i = i + 1;
        }
        None
    }
    /// The definition result of the first client that has one; it is
    /// taken from that client.
    pub fn take_definition_result(&mut self) -> (r: Option<Vec<Location>>)
        ensures
            final(self).clients@.len() == old(self).clients@.len(),
            final(self).config == old(self).config,
            final(self).root_uri == old(self).root_uri,
            match r {
                Some(v) => exists|i: int|
                    0 <= i < old(self).clients@.len() && (forall|j: int| 0 <= j < i ==> (#[trigger] old(self).clients@[j]).1.definition_result is None)
                        && old(self).clients@[i].1.definition_result == Some(v)
                        && final(self).clients@ == old(self).clients@.update(
                        i,
                        (old(self).clients@[i].0, LspClient { definition_result: None, ..old(self).clients@[i].1 }),
                    ),
                None => (forall|j: int| 0 <= j < old(self).clients@.len() ==> (#[trigger] old(self).clients@[j]).1.definition_result is None)
                    && final(self).clients@ == old(self).clients@,
            },
    {
        let mut i: usize = 0;
        while i < self.clients.len()
            invariant
                i <= self.clients@.len(),
                self.clients == old(self).clients,
                self.config == old(self).config,
                self.root_uri == old(self).root_uri,
                forall|j: int| 0 <= j < i ==> (#[trigger] self.clients@[j]).1.definition_result is None,
            decreases self.clients@.len() - i,
        {
            if self.clients[i].1.definition_result.is_some() {
                let (lang, mut client) = self.clients.remove(i);
                let v = client.definition_result.take();
                self.clients.insert(i, (lang, client));
                proof {
                    assert(self.clients@ =~= old(self).clients@.update(
                        i as int,
                        (old(self).clients@[i as int].0, LspClient { definition_result: None, ..old(self).clients@[i as int].1 }),
                    ));
                }
                return v;
            }
            i = i + 1;
        }
        None
    }
    /// The oldest semantic tokens result of the first client that has
    /// one, with that client's token legend; it is taken off its queue.
    pub fn take_semantic_tokens_result(&mut self) -> (r: Option<(String, Vec<SemanticTokenEntry>, Vec<String>)>)
        ensures
            final(self).clients@.len() == old(self).clients@.len(),
            final(self).config == old(self).config,
            final(self).root_uri == old(self).root_uri,
            match r {
                Some((uri, tokens, legend)) => exists|i: int|
                    0 <= i < old(self).clients@.len() && (forall|j: int| 0 <= j < i ==> (#[trigger] old(self).clients@[j]).1.semantic_tokens_result@.len() == 0)
                        && old(self).clients@[i].1.semantic_tokens_result@.len() > 0
                        && old(self).clients@[i].1.semantic_tokens_result@[0].0@ == uri@
                        && old(self).clients@[i].1.semantic_tokens_result@[0].1@ == tokens@
                        && strs_view(legend@) == strs_view(old(self).clients@[i].1.semantic_legend@)
                        && final(self).clients@[i].0 == old(self).clients@[i].0
                        && final(self).clients@[i].1.transport == old(self).clients@[i].1.transport
                        && client_view(final(self).clients@[i].1) == (ClientModel {
                            semantic_tokens_result: client_view(old(self).clients@[i].1).semantic_tokens_result.drop_first(),
                            ..client_view(old(self).clients@[i].1)
                        })
                        && forall|j: int| 0 <= j < old(self).clients@.len() && j != i ==> final(self).clients@[j] == old(self).clients@[j],
                None => (forall|j: int| 0 <= j < old(self).clients@.len() ==> (#[trigger] old(self).clients@[j]).1.semantic_tokens_result@.len() == 0)
                    && final(self).clients@ == old(self).clients@,
            },
    {
        let mut i: usize = 0;
        while i < self.clients.len()
            invariant
                i <= self.clients@.len(),
                self.clients == old(self).clients,
                self.config == old(self).config,
                self.root_uri == old(self).root_uri,
                forall|j: int| 0 <= j < i ==> (#[trigger] self.clients@[j]).1.semantic_tokens_result@.len() == 0,
            decreases self.clients@.len() - i,
        {
            if self.clients[i].1.semantic_tokens_result.len() > 0 {
                let (lang, mut client) = self.clients.remove(i);
                let ghost oc = client;
                let (uri, tokens) = client.semantic_tokens_result.remove(0);
                let legend = clone_strings(&client.semantic_legend);
                proof {
                    assert(client_view(client).semantic_tokens_result =~= client_view(oc).semantic_tokens_result.drop_first());
                    assert(client_view(client) =~= (ClientModel {
                        semantic_tokens_result: client_view(oc).semantic_tokens_result.drop_first(),
                        ..client_view(oc)
                    }));
                }
                self.clients.insert(i, (lang, client));
                return Some((uri, tokens, legend));
            }
            i = i + 1;
        }
        None
    }

}


/// Each language is reported newly initialized once: after
/// `take_newly_initialized_langs`, whose result is the clients whose flag
/// was set, no flag is left set, so another call before any message is
/// handled returns nothing.
pub proof fn lemma_newly_initialized_once(before: Seq<(String, LspClient)>, after: Seq<(String, LspClient)>)
    requires
        after.len() == before.len(),
        forall|j: int|
            0 <= j < before.len() ==> client_view(#[trigger] after[j].1) == (ClientModel {
                newly_initialized: false,
                ..client_view(before[j].1)
            }),
    ensures
        after.filter(|e: (String, LspClient)| e.1.newly_initialized).len() == 0,
{
    let f = |e: (String, LspClient)| e.1.newly_initialized;
    assert forall|j: int| 0 <= j < after.len() implies !f(after[j]) by {
        assert(client_view(after[j].1).newly_initialized == after[j].1.newly_initialized);
    }
    lemma_filter_none(after, f);
}

proof fn lemma_filter_none<A>(s: Seq<A>, p: spec_fn(A) -> bool)
    requires
        forall|i: int| 0 <= i < s.len() ==> !p(s[i]),
    ensures
        s.filter(p).len() == 0,
    decreases s.len(),
{
    reveal(Seq::filter);
    if s.len() > 0 {
        lemma_filter_none(s.drop_last(), p);
        assert(!p(s.last()));
    }
}

} // verus!
