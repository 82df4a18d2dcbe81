//! The LSP client: which requests are outstanding, what each response or
//! notification from the server changes, and the document versions sent.
//! Every method that talks to the server returns the message to send; the
//! application writes it to the server's stdin.
use vstd::prelude::*;
use crate::lsp::protocol::{
    self, CompletionItem, Diagnostic, Location, SemanticTokenEntry, Range, DiagnosticSeverity,
    completion_view, diagnostic_view, location_view, spec_completion, spec_definitions, spec_diagnostics,
    spec_flatten, spec_semantic_legend, spec_semantic_tokens, jnum, initialize_msg, did_open_msg,
    did_change_msg, rpc_request, rpc_notification, position_params, text_document,
};
use crate::lsp::transport::{LspTransport, spec_take_message, message_fits, lemma_take_shrinks};
use crate::syntax::json_parser::{JsonValue, JsonModel, json_view, jget, jstr, clamp_i64, spec_parse};
use crate::syntax::grammar::json_str_of;
use vstd::utf8::encode_utf8;
use vstd::string::StringSliceAdditionalSpecFns;

verus! {

/// What an outstanding request asked for.
#[derive(Clone, Debug)]
pub enum PendingKind {
    Initialize,
    Shutdown,
    Completion,
    Hover,
    Definition,
    /// The document whose tokens were asked for.
    SemanticTokens(String),
}

pub struct PendingRequest {
    pub kind: PendingKind,
}

/// A pending request kind as a value.
pub enum PendingModel {
    Initialize,
    Shutdown,
    Completion,
    Hover,
    Definition,
    SemanticTokens(Seq<char>),
}

pub open spec fn pending_model(k: PendingKind) -> PendingModel {
    match k {
        PendingKind::Initialize => PendingModel::Initialize,
        PendingKind::Shutdown => PendingModel::Shutdown,
        PendingKind::Completion => PendingModel::Completion,
        PendingKind::Hover => PendingModel::Hover,
        PendingKind::Definition => PendingModel::Definition,
        PendingKind::SemanticTokens(u) => PendingModel::SemanticTokens(u@),
    }
}

pub type DiagView = (Range, DiagnosticSeverity, Seq<char>, Option<Seq<char>>);

pub type CompletionView = (Seq<char>, Option<u32>, Option<Seq<char>>, Option<Seq<char>>);

/// A client's state as values.
pub struct ClientModel {
    pub next_id: i64,
    pub initialized: bool,
    pub root_uri: Seq<char>,
    pub language_id: Seq<char>,
    pub doc_versions: Seq<(Seq<char>, i32)>,
    pub diagnostics: Seq<(Seq<char>, Seq<DiagView>)>,
    pub pending: Seq<(i64, PendingModel)>,
    pub shutting_down: bool,
    pub completion_result: Option<Seq<CompletionView>>,
    pub hover_result: Option<Seq<char>>,
    pub definition_result: Option<Seq<(Seq<char>, Range)>>,
    pub semantic_legend: Seq<Seq<char>>,
    pub semantic_tokens_result: Seq<(Seq<char>, Seq<SemanticTokenEntry>)>,
    pub newly_initialized: bool,
}

/// What a position request does to a client: once initialized, the
/// request is sent with the next id and becomes outstanding; before, nothing
/// is sent and nothing changes.
pub open spec fn position_step(
    o: LspClient,
    f: LspClient,
    msg: Option<JsonValue>,
    method: Seq<char>,
    kind: PendingModel,
    uri: Seq<char>,
    line: u32,
    character: u32,
) -> bool {
    &&& f.transport == o.transport
    &&& if o.initialized {
        &&& msg matches Some(m) && json_view(m) == rpc_request(o.next_id as int, method, position_params(uri, line, character))
        &&& client_view(f) == (ClientModel {
            next_id: (o.next_id + 1) as i64,
            pending: client_view(o).pending.push((o.next_id, kind)),
            ..client_view(o)
        })
    } else {
        msg is None && client_view(f) == client_view(o)
    }
}

/// What a semantic tokens request does to a client: once initialized and
/// given a token legend, the request is sent with the next id and becomes
/// outstanding; otherwise nothing is sent and nothing changes.
pub open spec fn tokens_step(o: LspClient, f: LspClient, msg: Option<JsonValue>, uri: Seq<char>) -> bool {
    &&& f.transport == o.transport
    &&& if o.initialized && o.semantic_legend@.len() > 0 {
        &&& msg matches Some(m) && json_view(m) == rpc_request(
            o.next_id as int,
            "textDocument/semanticTokens/full"@,
            JsonModel::Object(seq![("textDocument"@, text_document(uri))]),
        )
        &&& client_view(f) == (ClientModel {
            next_id: (o.next_id + 1) as i64,
            pending: client_view(o).pending.push((o.next_id, PendingModel::SemanticTokens(uri))),
            ..client_view(o)
        })
    } else {
        msg is None && client_view(f) == client_view(o)
    }
}

pub struct LspClient {
    pub transport: LspTransport,
    pub next_id: i64,
    pub initialized: bool,
    pub root_uri: String,
    pub language_id: String,
    /// uri → document version
    pub doc_versions: Vec<(String, i32)>,
    /// uri → diagnostics
    pub diagnostics: Vec<(String, Vec<Diagnostic>)>,
    /// request id → what it asked for
    pub pending: Vec<(i64, PendingRequest)>,
    /// Set once the shutdown request is sent.
    pub shutting_down: bool,
    pub completion_result: Option<Vec<CompletionItem>>,
    pub hover_result: Option<String>,
    pub definition_result: Option<Vec<Location>>,
    /// Token type names from the initialize response.
    pub semantic_legend: Vec<String>,
    /// Decoded semantic token results, oldest first: (uri, tokens).
    pub semantic_tokens_result: Vec<(String, Vec<SemanticTokenEntry>)>,
    /// Set when the initialize response arrives; cleared by
    /// `take_newly_initialized`.
    pub newly_initialized: bool,
}

pub open spec fn strs_view(v: Seq<String>) -> Seq<Seq<char>> {
    v.map_values(|s: String| s@)
}

pub open spec fn diags_view(v: Seq<Diagnostic>) -> Seq<DiagView> {
    v.map_values(|d: Diagnostic| diagnostic_view(d))
}

pub open spec fn client_view(c: LspClient) -> ClientModel {
    ClientModel {
        next_id: c.next_id,
        initialized: c.initialized,
        root_uri: c.root_uri@,
        language_id: c.language_id@,
        doc_versions: c.doc_versions@.map_values(|e: (String, i32)| (e.0@, e.1)),
        diagnostics: c.diagnostics@.map_values(|e: (String, Vec<Diagnostic>)| (e.0@, diags_view(e.1@))),
        pending: c.pending@.map_values(|e: (i64, PendingRequest)| (e.0, pending_model(e.1.kind))),
        shutting_down: c.shutting_down,
        completion_result: match c.completion_result {
            Some(v) => Some(v@.map_values(|x: CompletionItem| completion_view(x))),
            None => None,
        },
        hover_result: match c.hover_result {
            Some(s) => Some(s@),
            None => None,
        },
        definition_result: match c.definition_result {
            Some(v) => Some(v@.map_values(|l: Location| location_view(l))),
            None => None,
        },
        semantic_legend: strs_view(c.semantic_legend@),
        semantic_tokens_result: c.semantic_tokens_result@.map_values(
            |e: (String, Vec<SemanticTokenEntry>)| (e.0@, e.1@),
        ),
        newly_initialized: c.newly_initialized,
    }
}

// ── The state machine ────────────────────────────────────────

/// The first outstanding request with this id.
pub open spec fn find_pending(p: Seq<(i64, PendingModel)>, id: i64) -> Option<int>
    decreases p.len(),
{
    if p.len() == 0 {
        None
    } else {
        match find_pending(p.drop_last(), id) {
            Some(i) => Some(i),
            None => if p.last().0 == id {
                Some(p.len() - 1)
            } else {
                None
            },
        }
    }
}

/// A response to request `id`: an unknown id changes nothing; otherwise
/// the request stops being outstanding and its `result`, when there is
/// one, is stored. The initialize response also makes the client
/// initialized and answers with the `initialized` notification.
pub open spec fn spec_response(m: ClientModel, id: i64, msg: JsonValue) -> (ClientModel, Option<JsonModel>) {
    match find_pending(m.pending, id) {
        None => (m, None),
        Some(idx) => {
            let m1 = ClientModel { pending: m.pending.remove(idx), ..m };
            match jget(msg, "result"@) {
                None => (m1, None),
                Some(result) => match m.pending[idx].1 {
                    PendingModel::Initialize => (
                        ClientModel {
                            semantic_legend: spec_semantic_legend(result),
                            initialized: true,
                            newly_initialized: true,
                            ..m1
                        },
                        Some(rpc_notification("initialized"@, JsonModel::Object(Seq::empty()))),
                    ),
                    PendingModel::Shutdown => (m1, None),
                    PendingModel::Completion => (
                        ClientModel { completion_result: Some(spec_completion(result)), ..m1 },
                        None,
                    ),
                    PendingModel::Hover => (ClientModel { hover_result: spec_flatten_opt(result), ..m1 }, None),
                    PendingModel::Definition => (
                        ClientModel { definition_result: Some(spec_definitions(result)), ..m1 },
                        None,
                    ),
                    PendingModel::SemanticTokens(uri) => match jget(result, "data"@) {
                        Some(data) => (
                            ClientModel {
                                semantic_tokens_result: m1.semantic_tokens_result.push(
                                    (uri, spec_semantic_tokens(data)),
                                ),
                                ..m1
                            },
                            None,
                        ),
                        None => (m1, None),
                    },
                },
            }
        },
    }
}

/// The hover text of a hover result.
pub open spec fn spec_flatten_opt(result: JsonValue) -> Option<Seq<char>> {
    match jget(result, "contents"@) {
        Some(c) => spec_flatten(c),
        None => None,
    }
}

/// The first entry for `uri`.
pub open spec fn find_uri<T>(s: Seq<(Seq<char>, T)>, uri: Seq<char>) -> Option<int>
    decreases s.len(),
{
    if s.len() == 0 {
        None
    } else {
        match find_uri(s.drop_last(), uri) {
            Some(i) => Some(i),
            None => if s.last().0 == uri {
                Some(s.len() - 1)
            } else {
                None
            },
        }
    }
}

/// The diagnostics of `uri` replaced (or added).
pub open spec fn set_diagnostics(d: Seq<(Seq<char>, Seq<DiagView>)>, uri: Seq<char>, diags: Seq<DiagView>) -> Seq<(Seq<char>, Seq<DiagView>)> {
    match find_uri(d, uri) {
        Some(i) => d.update(i, (uri, diags)),
        None => d.push((uri, diags)),
    }
}

/// A notification: only `textDocument/publishDiagnostics` is read.
pub open spec fn spec_notification(m: ClientModel, method: Seq<char>, msg: JsonValue) -> ClientModel {
    if method == "textDocument/publishDiagnostics"@ {
        match jget(msg, "params"@) {
            Some(params) => match spec_diagnostics(params) {
                Some((uri, diags)) => ClientModel { diagnostics: set_diagnostics(m.diagnostics, uri, diags), ..m },
                None => m,
            },
            None => m,
        }
    } else {
        m
    }
}

/// One message from the server: a numeric `id` makes it a response, else
/// a string `method` a notification; anything else is ignored.
pub open spec fn spec_message(m: ClientModel, msg: JsonValue) -> (ClientModel, Option<JsonModel>) {
    match jget(msg, "id"@) {
        Some(idv) if jnum(Some(idv)) is Some => spec_response(m, clamp_i64(jnum(Some(idv)).unwrap()), msg),
        _ => match jstr(jget(msg, "method"@)) {
            Some(method) => (spec_notification(m, method, msg), None),
            None => (m, None),
        },
    }
}

/// The version of `uri` that was last sent, if any.
pub open spec fn version_of(vs: Seq<(Seq<char>, i32)>, uri: Seq<char>) -> Option<i32> {
    match find_uri(vs, uri) {
        Some(i) => Some(vs[i].1),
        None => None,
    }
}

/// `uri` at `version`.
pub open spec fn set_version(vs: Seq<(Seq<char>, i32)>, uri: Seq<char>, version: i32) -> Seq<(Seq<char>, i32)> {
    match find_uri(vs, uri) {
        Some(i) => vs.update(i, (uri, version)),
        None => vs.push((uri, version)),
    }
}

/// The next version of `uri`: one more than the last, or 1.
pub open spec fn next_version(vs: Seq<(Seq<char>, i32)>, uri: Seq<char>) -> i32 {
    match version_of(vs, uri) {
        Some(v) => (v + 1) as i32,
        None => 1,
    }
}

/// The versions without any entry for `uri`.
pub open spec fn drop_uri(vs: Seq<(Seq<char>, i32)>, uri: Seq<char>) -> Seq<(Seq<char>, i32)> {
    vs.filter(|e: (Seq<char>, i32)| e.0 != uri)
}

/// The messages handled in order: the client's state after them and the
/// messages it answers with.
pub open spec fn fold_messages(m: ClientModel, msgs: Seq<JsonValue>) -> (ClientModel, Seq<JsonModel>)
    decreases msgs.len(),
{
    if msgs.len() == 0 {
        (m, Seq::empty())
    } else {
        let (m1, out) = fold_messages(m, msgs.drop_last());
        match spec_message(m1, msgs.last()) {
            (m2, Some(o)) => (m2, out.push(o)),
            (m2, None) => (m2, out),
        }
    }
}

/// The messages the buffered bytes hold, in order, and the bytes left:
/// reading stops at an incomplete message, a bad frame or body, one too
/// long to index, and when the server is gone.
pub open spec fn buffered_messages(buf: Seq<u8>, dead: bool) -> (Seq<JsonModel>, Seq<u8>)
    decreases buf.len(),
{
    if dead || !message_fits(buf) {
        (Seq::empty(), buf)
    } else {
        let (res, rest) = spec_take_message(buf);
        match res {
            Ok(Some(body)) => if encode_utf8(body).len() > usize::MAX / 2 {
                (Seq::empty(), rest)
            } else {
                match spec_parse(encode_utf8(body), body) {
                    Ok(v) => {
                        proof {
                            lemma_take_shrinks(buf);
                        }
                        let (more, left) = buffered_messages(rest, dead);
                        (seq![v] + more, left)
                    },
                    Err(_) => (Seq::empty(), rest),
                }
            },
            Ok(None) => (Seq::empty(), rest),
            Err(_) => (Seq::empty(), rest),
        }
    }
}

fn str_eq(a: &str, b: &str) -> (r: bool)
    ensures
        r == (a@ == b@),
{
    let v = crate::text::chars_of(a);
    crate::text::chars_eq_str(&v, b)
}

impl LspClient {
    pub fn new(transport: LspTransport, root_uri: &str, language_id: &str) -> (c: LspClient)
        ensures
            client_view(c) == (ClientModel {
                next_id: 1,
                initialized: false,
                root_uri: root_uri@,
                language_id: language_id@,
                doc_versions: Seq::empty(),
                diagnostics: Seq::empty(),
                pending: Seq::empty(),
                shutting_down: false,
                completion_result: None,
                hover_result: None,
                definition_result: None,
                semantic_legend: Seq::empty(),
                semantic_tokens_result: Seq::empty(),
                newly_initialized: false,
            }),
            c.transport == transport,
    {
        let c = LspClient {
            transport,
            next_id: 1,
            initialized: false,
            root_uri: root_uri.to_owned(),
            language_id: language_id.to_owned(),
            doc_versions: Vec::new(),
            diagnostics: Vec::new(),
            pending: Vec::new(),
            shutting_down: false,
            completion_result: None,
            hover_result: None,
            definition_result: None,
            semantic_legend: Vec::new(),
            semantic_tokens_result: Vec::new(),
            newly_initialized: false,
        };
        proof {
            assert(client_view(c).doc_versions =~= Seq::<(Seq<char>, i32)>::empty());
            assert(client_view(c).diagnostics =~= Seq::<(Seq<char>, Seq<DiagView>)>::empty());
            assert(client_view(c).pending =~= Seq::<(i64, PendingModel)>::empty());
            assert(client_view(c).semantic_legend =~= Seq::<Seq<char>>::empty());
            assert(client_view(c).semantic_tokens_result =~= Seq::<(Seq<char>, Seq<SemanticTokenEntry>)>::empty());
        }
        c
    }

    fn next_id(&mut self) -> (id: i64)
        requires
            old(self).next_id < i64::MAX,
        ensures
            id == old(self).next_id,
            client_view(*final(self)) == (ClientModel { next_id: (id + 1) as i64, ..client_view(*old(self)) }),
            final(self).transport == old(self).transport,
    {
        let id = self.next_id;
        self.next_id = self.next_id + 1;
        id
    }

    fn add_pending(&mut self, id: i64, kind: PendingKind)
        ensures
            client_view(*final(self)) == (ClientModel {
                pending: client_view(*old(self)).pending.push((id, pending_model(kind))),
                ..client_view(*old(self))
            }),
            final(self).transport == old(self).transport,
    {
        let ghost before = client_view(*self);
        self.pending.push((id, PendingRequest { kind }));
        proof {
            assert(client_view(*self).pending =~= before.pending.push((id, pending_model(kind))));
            assert(client_view(*self) =~= (ClientModel { pending: before.pending.push((id, pending_model(kind))), ..before }));
        }
    }

    /// The `initialize` request, now outstanding.
    pub fn initialize(&mut self, process_id: u32) -> (msg: JsonValue)
        requires
            old(self).next_id < i64::MAX,
        ensures
            json_view(msg) == initialize_msg(old(self).next_id as int, old(self).root_uri@, process_id),
            client_view(*final(self)) == (ClientModel {
                next_id: (old(self).next_id + 1) as i64,
                pending: client_view(*old(self)).pending.push((old(self).next_id, PendingModel::Initialize)),
                ..client_view(*old(self))
            }),
            final(self).transport == old(self).transport,
    {
        let id = self.next_id();
        let req = protocol::initialize_request(id, self.root_uri.as_str(), process_id);
        self.add_pending(id, PendingKind::Initialize);
        req
    }

    /// The position of `uri`'s entry in the version list.
    fn version_index(&self, uri: &str) -> (r: Option<usize>)
        ensures
            match r {
                Some(i) => find_uri(client_view(*self).doc_versions, uri@) == Some(i as int) && i < self.doc_versions@.len(),
                None => find_uri(client_view(*self).doc_versions, uri@) is None,
            },
    {
        proof {
            lemma_find_uri_bounds(client_view(*self).doc_versions, uri@);
        }
        let ghost vs = client_view(*self).doc_versions;
        let mut i: usize = 0;
        while i < self.doc_versions.len()
            invariant
                i <= self.doc_versions@.len(),
                vs == client_view(*self).doc_versions,
                find_uri(vs.take(i as int), uri@) is None,
            decreases self.doc_versions@.len() - i,
        {
            proof {
                assert(vs.take(i + 1).drop_last() =~= vs.take(i as int));
            }
            if str_eq(self.doc_versions[i].0.as_str(), uri) {
                proof {
                    lemma_find_uri_prefix(vs, uri@, i as int);
                }
                return Some(i);
            }
            i = i + 1;
        }
        proof {
            assert(vs.take(vs.len() as int) =~= vs);
        }
        None
    }

    /// The version of `uri` last sent, if any.
    pub fn version_of(&self, uri: &str) -> (r: Option<i32>)
        ensures
            r == version_of(client_view(*self).doc_versions, uri@),
    {
        match self.version_index(uri) {
            Some(i) => Some(self.doc_versions[i].1),
            None => None,
        }
    }

    fn store_version(&mut self, uri: &str, version: i32)
        ensures
            client_view(*final(self)) == (ClientModel {
                doc_versions: set_version(client_view(*old(self)).doc_versions, uri@, version),
                ..client_view(*old(self))
            }),
            final(self).transport == old(self).transport,
    {
        let ghost before = client_view(*self);
        match self.version_index(uri) {
            Some(i) => {
                self.doc_versions.set(i, (uri.to_owned(), version));
                proof {
                    assert(client_view(*self).doc_versions =~= before.doc_versions.update(i as int, (uri@, version)));
                }
            },
            None => {
                self.doc_versions.push((uri.to_owned(), version));
                proof {
                    assert(client_view(*self).doc_versions =~= before.doc_versions.push((uri@, version)));
                }
            },
        }
        proof {
            assert(client_view(*self) =~= (ClientModel { doc_versions: set_version(before.doc_versions, uri@, version), ..before }));
        }
    }

    /// `textDocument/didOpen` at version 1, once initialized; before that,
    /// nothing.
    pub fn did_open(&mut self, uri: &str, text: &str) -> (msg: Option<JsonValue>)
        ensures
            final(self).transport == old(self).transport,
            if old(self).initialized {
                &&& msg matches Some(m) && json_view(m) == did_open_msg(uri@, old(self).language_id@, 1, text@)
                &&& client_view(*final(self)) == (ClientModel {
                    doc_versions: set_version(client_view(*old(self)).doc_versions, uri@, 1),
                    ..client_view(*old(self))
                })
            } else {
                msg is None && client_view(*final(self)) == client_view(*old(self))
            },
    {
        if !self.initialized {
            return None;
        }
        self.store_version(uri, 1);
        Some(protocol::did_open_notification(uri, self.language_id.as_str(), 1, text))
    }

    /// `textDocument/didChange` with the next version, once initialized.
    pub fn did_change(&mut self, uri: &str, text: &str) -> (msg: Option<JsonValue>)
        requires
            version_of(client_view(*old(self)).doc_versions, uri@) != Some(i32::MAX),
        ensures
            final(self).transport == old(self).transport,
            if old(self).initialized {
                let v = next_version(client_view(*old(self)).doc_versions, uri@);
                &&& msg matches Some(m) && json_view(m) == did_change_msg(uri@, v, text@)
                &&& client_view(*final(self)) == (ClientModel {
                    doc_versions: set_version(client_view(*old(self)).doc_versions, uri@, v),
                    ..client_view(*old(self))
                })
            } else {
                msg is None && client_view(*final(self)) == client_view(*old(self))
            },
    {
        if !self.initialized {
            return None;
        }
        let version = match self.version_of(uri) {
            Some(v) => v + 1,
            None => 1,
        };
        self.store_version(uri, version);
        Some(protocol::did_change_notification(uri, version, text))
    }

    /// `textDocument/didSave`, once initialized.
    pub fn did_save(&self, uri: &str) -> (msg: Option<JsonValue>)
        ensures
            if self.initialized {
                msg matches Some(m) && json_view(m) == rpc_notification(
                    "textDocument/didSave"@,
                    JsonModel::Object(seq![("textDocument"@, text_document(uri@))]),
                )
            } else {
                msg is None
            },
    {
        if !self.initialized {
            return None;
        }
        Some(protocol::did_save_notification(uri))
    }

    /// `textDocument/didClose`, once initialized; the document's version
    /// is forgotten.
    pub fn did_close(&mut self, uri: &str) -> (msg: Option<JsonValue>)
        ensures
            final(self).transport == old(self).transport,
            if old(self).initialized {
                &&& msg matches Some(m) && json_view(m) == rpc_notification(
                    "textDocument/didClose"@,
                    JsonModel::Object(seq![("textDocument"@, text_document(uri@))]),
                )
                &&& client_view(*final(self)) == (ClientModel {
                    doc_versions: drop_uri(client_view(*old(self)).doc_versions, uri@),
                    ..client_view(*old(self))
                })
            } else {
                msg is None && client_view(*final(self)) == client_view(*old(self))
            },
    {
        if !self.initialized {
            return None;
        }
        let msg = protocol::did_close_notification(uri);
        let ghost before = client_view(*self);
        let mut kept: Vec<(String, i32)> = Vec::new();
        let mut i: usize = 0;
        let ghost vs = before.doc_versions;
        proof {
            assert(vs.take(0) =~= Seq::<(Seq<char>, i32)>::empty());
            assert(drop_uri(vs.take(0), uri@) =~= Seq::<(Seq<char>, i32)>::empty());
            assert(kept@.map_values(|e: (String, i32)| (e.0@, e.1)) =~= Seq::<(Seq<char>, i32)>::empty());
        }
        while i < self.doc_versions.len()
            invariant
                i <= self.doc_versions@.len(),
                vs == self.doc_versions@.map_values(|e: (String, i32)| (e.0@, e.1)),
                kept@.map_values(|e: (String, i32)| (e.0@, e.1)) == drop_uri(vs.take(i as int), uri@),
            decreases self.doc_versions@.len() - i,
        {
            proof {
                assert(vs.take(i + 1) =~= vs.take(i as int).push(vs[i as int]));
                vs.take(i as int).lemma_filter_push(vs[i as int], |e: (Seq<char>, i32)| e.0 != uri@);
            }
            if !str_eq(self.doc_versions[i].0.as_str(), uri) {
                let ghost b = kept@.map_values(|e: (String, i32)| (e.0@, e.1));
                kept.push((self.doc_versions[i].0.clone(), self.doc_versions[i].1));
                proof {
                    assert(kept@.map_values(|e: (String, i32)| (e.0@, e.1)) =~= b.push(vs[i as int]));
                }
            }
            i = i + 1;
        }
        proof {
            assert(vs.take(vs.len() as int) =~= vs);
        }
        self.doc_versions = kept;
        proof {
            assert(client_view(*self) =~= (ClientModel { doc_versions: drop_uri(vs, uri@), ..before }));
        }
        Some(msg)
    }

    /// A request about a position, now outstanding, once initialized.
    fn position_request(&mut self, method: &str, kind: PendingKind, uri: &str, line: u32, character: u32) -> (msg: Option<JsonValue>)
        requires
            old(self).next_id < i64::MAX,
        ensures
            final(self).transport == old(self).transport,
            if old(self).initialized {
                &&& msg matches Some(m) && json_view(m) == rpc_request(
                    old(self).next_id as int,
                    method@,
                    position_params(uri@, line, character),
                )
                &&& client_view(*final(self)) == (ClientModel {
                    next_id: (old(self).next_id + 1) as i64,
                    pending: client_view(*old(self)).pending.push((old(self).next_id, pending_model(kind))),
                    ..client_view(*old(self))
                })
            } else {
                msg is None && client_view(*final(self)) == client_view(*old(self))
            },
    {
        if !self.initialized {
            return None;
        }
        let id = self.next_id();
        let req = protocol::text_document_position_request(id, method, uri, line, character);
        self.add_pending(id, kind);
        Some(req)
    }

    /// `textDocument/completion`, now outstanding, once initialized.
    pub fn request_completion(&mut self, uri: &str, line: u32, character: u32) -> (msg: Option<JsonValue>)
        requires
            old(self).next_id < i64::MAX,
        ensures
            position_step(*old(self), *final(self), msg, "textDocument/completion"@, PendingModel::Completion, uri@, line, character),
    {
        self.position_request("textDocument/completion", PendingKind::Completion, uri, line, character)
    }

    /// `textDocument/hover`, now outstanding, once initialized.
    pub fn request_hover(&mut self, uri: &str, line: u32, character: u32) -> (msg: Option<JsonValue>)
        requires
            old(self).next_id < i64::MAX,
        ensures
            position_step(*old(self), *final(self), msg, "textDocument/hover"@, PendingModel::Hover, uri@, line, character),
    {
        self.position_request("textDocument/hover", PendingKind::Hover, uri, line, character)
    }

    /// `textDocument/definition`, now outstanding, once initialized.
    pub fn request_definition(&mut self, uri: &str, line: u32, character: u32) -> (msg: Option<JsonValue>)
        requires
            old(self).next_id < i64::MAX,
        ensures
            position_step(*old(self), *final(self), msg, "textDocument/definition"@, PendingModel::Definition, uri@, line, character),
    {
        self.position_request("textDocument/definition", PendingKind::Definition, uri, line, character)
    }

    /// `textDocument/semanticTokens/full`, now outstanding, once
    /// initialized and only if the server gave a token legend.
    pub fn request_semantic_tokens(&mut self, uri: &str) -> (msg: Option<JsonValue>)
        requires
            old(self).next_id < i64::MAX,
        ensures
            tokens_step(*old(self), *final(self), msg, uri@),
    {
        if !self.initialized || self.semantic_legend.len() == 0 {
            return None;
        }
        let id = self.next_id();
        let req = protocol::semantic_tokens_request(id, uri);
        self.add_pending(id, PendingKind::SemanticTokens(uri.to_owned()));
        Some(req)
    }

    /// The messages that end the session: the `shutdown` request (now
    /// outstanding) and the `exit` notification, once initialized and not
    /// already shutting down; otherwise none. Either way the application
    /// then shuts the transport down.
    pub fn shutdown(&mut self) -> (msgs: Vec<JsonValue>)
        requires
            old(self).next_id < i64::MAX,
        ensures
            final(self).transport == old(self).transport,
            if old(self).shutting_down || !old(self).initialized {
                msgs@.len() == 0 && client_view(*final(self)) == client_view(*old(self))
            } else {
                &&& msgs@.len() == 2
                &&& json_view(msgs@[0]) == rpc_request(old(self).next_id as int, "shutdown"@, JsonModel::Null)
                &&& json_view(msgs@[1]) == rpc_notification("exit"@, JsonModel::Null)
                &&& client_view(*final(self)) == (ClientModel {
                    next_id: (old(self).next_id + 1) as i64,
                    shutting_down: true,
                    pending: client_view(*old(self)).pending.push((old(self).next_id, PendingModel::Shutdown)),
                    ..client_view(*old(self))
                })
            },
    {
        let mut out: Vec<JsonValue> = Vec::new();
        if self.shutting_down || !self.initialized {
            return out;
        }
        self.shutting_down = true;
        let id = self.next_id();
        out.push(protocol::shutdown_request(id));
        self.add_pending(id, PendingKind::Shutdown);
        out.push(protocol::exit_notification());
        out
    }

    fn pending_index(&self, id: i64) -> (r: Option<usize>)
        ensures
            match r {
                Some(i) => find_pending(client_view(*self).pending, id) == Some(i as int) && i < self.pending@.len(),
                None => find_pending(client_view(*self).pending, id) is None,
            },
    {
        let ghost ps = client_view(*self).pending;
        proof {
            lemma_find_pending_bounds(ps, id);
        }
        let mut i: usize = 0;
        while i < self.pending.len()
            invariant
                i <= self.pending@.len(),
                ps == client_view(*self).pending,
                find_pending(ps.take(i as int), id) is None,
            decreases self.pending@.len() - i,
        {
            proof {
                assert(ps.take(i + 1).drop_last() =~= ps.take(i as int));
            }
            if self.pending[i].0 == id {
                proof {
                    lemma_find_pending_prefix(ps, id, i as int);
                }
                return Some(i);
            }
            i = i + 1;
        }
        proof {
            lemma_find_pending_prefix(ps, id, i as int);
        }
        None
    }

    /// Handles a response to request `id`.
    fn handle_response(&mut self, id: i64, msg: &JsonValue) -> (out: Option<JsonValue>)
        ensures
            (client_view(*final(self)), match out {
                Some(o) => Some(json_view(o)),
                None => None,
            }) == spec_response(client_view(*old(self)), id, *msg),
            final(self).transport == old(self).transport,
    {
        let ghost m = client_view(*self);
        let idx = match self.pending_index(id) {
            Some(i) => i,
            None => {
                return None;
            },
        };
        let (_, req) = self.pending.remove(idx);
        proof {
            assert(client_view(*self).pending =~= m.pending.remove(idx as int));
        }
        let ghost m1 = client_view(*self);
        proof {
            assert(m1 == (ClientModel { pending: m.pending.remove(idx as int), ..m }));
            assert(pending_model(req.kind) == m.pending[idx as int].1);
        }
        let result = match msg.get("result") {
            Some(r) => r,
            None => {
                return None;
            },
        };
        match req.kind {
            PendingKind::Initialize => {
                let legend = protocol::parse_semantic_legend(result);
                self.semantic_legend = legend;
                self.initialized = true;
                self.newly_initialized = true;
                let n = protocol::initialized_notification();
                proof {
                    assert(client_view(*self) =~= (ClientModel {
                        semantic_legend: spec_semantic_legend(*result),
                        initialized: true,
                        newly_initialized: true,
                        ..m1
                    }));
                }
                Some(n)
            },
            PendingKind::Shutdown => None,
            PendingKind::Completion => {
                let items = protocol::parse_completion_result(result);
                self.completion_result = Some(items);
                proof {
                    assert(client_view(*self) =~= (ClientModel { completion_result: Some(spec_completion(*result)), ..m1 }));
                }
                None
            },
            PendingKind::Hover => {
                self.hover_result = protocol::parse_hover_result(result);
                proof {
                    assert(client_view(*self) =~= (ClientModel { hover_result: spec_flatten_opt(*result), ..m1 }));
                }
                None
            },
            PendingKind::Definition => {
                let locs = protocol::parse_definition_result(result);
                self.definition_result = Some(locs);
                proof {
                    assert(client_view(*self) =~= (ClientModel { definition_result: Some(spec_definitions(*result)), ..m1 }));
                }
                None
            },
            PendingKind::SemanticTokens(uri) => {
                match result.get("data") {
                    Some(data) => {
                        let tokens = protocol::parse_semantic_tokens(data);
                        let ghost before = client_view(*self).semantic_tokens_result;
                        self.semantic_tokens_result.push((uri, tokens));
                        proof {
                            assert(client_view(*self).semantic_tokens_result =~= before.push((uri@, spec_semantic_tokens(*data))));
                            assert(client_view(*self) =~= (ClientModel {
                                semantic_tokens_result: m1.semantic_tokens_result.push((uri@, spec_semantic_tokens(*data))),
                                ..m1
                            }));
                        }
                        None
                    },
                    None => None,
                }
            },
        }
    }

    /// Handles a notification; only published diagnostics are kept.
    fn handle_notification(&mut self, method: &str, msg: &JsonValue)
        ensures
            client_view(*final(self)) == spec_notification(client_view(*old(self)), method@, *msg),
            final(self).transport == old(self).transport,
    {
        proof {
            reveal_strlit("textDocument/publishDiagnostics");
        }
        if !str_eq(method, "textDocument/publishDiagnostics") {
            return;
        }
        let params = match msg.get("params") {
            Some(p) => p,
            None => {
                return;
            },
        };
        let (uri, diags) = match protocol::parse_diagnostics(params) {
            Some(x) => x,
            None => {
                return;
            },
        };
        let ghost m = client_view(*self);
        let ghost dv = diags_view(diags@);
        proof {
            assert(diags@.map_values(|d: Diagnostic| diagnostic_view(d)) == dv);
        }
        match self.diagnostics_index(uri.as_str()) {
            Some(i) => {
                self.diagnostics.set(i, (uri, diags));
                proof {
                    assert(client_view(*self).diagnostics =~= m.diagnostics.update(i as int, (uri@, dv)));
                }
            },
            None => {
                self.diagnostics.push((uri, diags));
                proof {
                    assert(client_view(*self).diagnostics =~= m.diagnostics.push((uri@, dv)));
                }
            },
        }
        proof {
            assert(client_view(*self) =~= (ClientModel { diagnostics: set_diagnostics(m.diagnostics, uri@, dv), ..m }));
        }
    }

    /// Handles one message from the server and gives the message to send
    /// back, if any.
    pub fn handle_message(&mut self, msg: &JsonValue) -> (out: Option<JsonValue>)
        ensures
            (client_view(*final(self)), match out {
                Some(o) => Some(json_view(o)),
                None => None,
            }) == spec_message(client_view(*old(self)), *msg),
            final(self).transport == old(self).transport,
    {
        match msg.get("id") {
            Some(idv) => match protocol::value_int(idv) {
                Some(id) => {
                    return self.handle_response(id, msg);
                },
                None => {},
            },
            None => {},
        }
        match json_str_of(msg, "method") {
            Some(method) => {
                self.handle_notification(method, msg);
                None
            },
            None => None,
        }
    }

    /// The next complete message the transport holds, taken off its
    /// buffer; none when reading stops.
    fn next_message(&mut self) -> (r: Option<JsonValue>)
        ensures
            client_view(*final(self)) == client_view(*old(self)),
            final(self).transport.spec_dead() == old(self).transport.spec_dead(),
            match r {
                Some(v) => {
                    &&& buffered_messages(old(self).transport.buffered(), old(self).transport.spec_dead()).1 == buffered_messages(
                        final(self).transport.buffered(),
                        final(self).transport.spec_dead(),
                    ).1
                    &&& buffered_messages(old(self).transport.buffered(), old(self).transport.spec_dead()).0 == seq![json_view(v)]
                        + buffered_messages(final(self).transport.buffered(), final(self).transport.spec_dead()).0
                    &&& final(self).transport.buffered().len() < old(self).transport.buffered().len()
                },
                None => {
                    &&& buffered_messages(old(self).transport.buffered(), old(self).transport.spec_dead()).0 == Seq::<JsonModel>::empty()
                    &&& buffered_messages(old(self).transport.buffered(), old(self).transport.spec_dead()).1 == final(self).transport.buffered()
                },
            },
    {
        let ghost buf = self.transport.buffered();
        let ghost dead = self.transport.spec_dead();
        if self.transport.is_dead() || !self.transport.message_fits() {
            return None;
        }
        proof {
            lemma_take_shrinks(buf);
        }
        match self.transport.try_parse_message() {
            Ok(Some(body)) => {
                let text = body.as_str();
                if text.as_bytes().len() > usize::MAX / 2 {
                    return None;
                }
                match JsonValue::parse(text) {
                    Ok(v) => {
                        proof {
                            let (res, rest) = spec_take_message(buf);
                            assert(res == Ok::<Option<Seq<char>>, crate::lsp::transport::FrameError>(Some(text@)));
                            assert(rest == self.transport.buffered());
                            assert(spec_parse(encode_utf8(text@), text@) == Ok::<JsonModel, crate::syntax::json_parser::JsonError>(json_view(v)));
                            assert(buffered_messages(buf, dead) == (seq![json_view(v)] + buffered_messages(rest, dead).0, buffered_messages(rest, dead).1));
                        }
                        Some(v)
                    },
                    Err(_) => None,
                }
            },
            _ => None,
        }
    }

    /// Handles every complete message the transport holds, in order, and
    /// gives the messages to send back.
    #[verifier::spinoff_prover]
    pub fn drain_messages(&mut self) -> (out: Vec<JsonValue>)
        ensures
            ({
                let (models, left) = buffered_messages(old(self).transport.buffered(), old(self).transport.spec_dead());
                &&& final(self).transport.buffered() == left
                &&& final(self).transport.spec_dead() == old(self).transport.spec_dead()
                &&& exists|msgs: Seq<JsonValue>|
                    #![trigger fold_messages(client_view(*old(self)), msgs)]
                    msgs.map_values(|v: JsonValue| json_view(v)) == models
                        && fold_messages(client_view(*old(self)), msgs) == (
                        client_view(*final(self)),
                        out@.map_values(|v: JsonValue| json_view(v)),
                    )
            }),
    {
        let ghost start = client_view(*self);
        let ghost buf0 = self.transport.buffered();
        let ghost dead = self.transport.spec_dead();
        let ghost mut msgs: Seq<JsonValue> = Seq::empty();
        let mut out: Vec<JsonValue> = Vec::new();
        proof {
            assert(msgs.map_values(|v: JsonValue| json_view(v)) =~= Seq::<JsonModel>::empty());
            assert(out@.map_values(|v: JsonValue| json_view(v)) =~= Seq::<JsonModel>::empty());
            assert(buffered_messages(buf0, dead).0 =~= Seq::<JsonModel>::empty() + buffered_messages(buf0, dead).0);
        }
        loop
            invariant_except_break
                buffered_messages(buf0, dead).1 == buffered_messages(self.transport.buffered(), dead).1,
                buffered_messages(buf0, dead).0 == msgs.map_values(|v: JsonValue| json_view(v)) + buffered_messages(
                    self.transport.buffered(),
                    dead,
                ).0,
            invariant
                self.transport.spec_dead() == dead,
                fold_messages(start, msgs) == (client_view(*self), out@.map_values(|v: JsonValue| json_view(v))),
            ensures
                buffered_messages(buf0, dead).1 == self.transport.buffered(),
                buffered_messages(buf0, dead).0 == msgs.map_values(|v: JsonValue| json_view(v)),
                self.transport.spec_dead() == dead,
                fold_messages(start, msgs) == (client_view(*self), out@.map_values(|v: JsonValue| json_view(v))),
            decreases self.transport.buffered().len(),
        {
            let ghost mv = msgs.map_values(|v: JsonValue| json_view(v));
            match self.next_message() {
                None => {
                    proof {
                        assert(mv + Seq::<JsonModel>::empty() =~= mv);
                    }
                    break;
                },
                Some(v) => {
                    let ghost before_out = out@.map_values(|v: JsonValue| json_view(v));
                    match self.handle_message(&v) {
                        Some(o) => {
                            out.push(o);
                            proof {
                                assert(out@.map_values(|v: JsonValue| json_view(v)) =~= before_out.push(json_view(o)));
                            }
                        },
                        None => {},
                    }
                    proof {
                        let old_msgs = msgs;
                        msgs = msgs.push(v);
                        assert(msgs.drop_last() =~= old_msgs);
                        assert(msgs.map_values(|v: JsonValue| json_view(v)) =~= mv.push(json_view(v)));
                        let more = buffered_messages(self.transport.buffered(), dead).0;
                        assert(mv + (seq![json_view(v)] + more) =~= msgs.map_values(|v: JsonValue| json_view(v)) + more);
                    }
                },
            }
        }
        out
    }

    /// Whether the initialization handshake is complete.
    pub fn is_initialized(&self) -> (b: bool)
        ensures
            b == self.initialized,
    {
        self.initialized
    }

    /// Whether the server is still running.
    pub fn is_alive(&self) -> (b: bool)
        ensures
            b == !self.transport.spec_dead(),
    {
        !self.transport.is_dead()
    }

    /// The diagnostics last published for `uri`; none if there are none.
    pub fn diagnostics_for(&self, uri: &str) -> (r: &[Diagnostic])
        ensures
            match find_uri(client_view(*self).diagnostics, uri@) {
                Some(i) => diags_view(r@) == client_view(*self).diagnostics[i].1,
                None => r@.len() == 0,
            },
    {
        match self.diagnostics_index(uri) {
            Some(i) => self.diagnostics[i].1.as_slice(),
            None => &[],
        }
    }

    fn diagnostics_index(&self, uri: &str) -> (r: Option<usize>)
        ensures
            match r {
                Some(i) => find_uri(client_view(*self).diagnostics, uri@) == Some(i as int) && i < self.diagnostics@.len(),
                None => find_uri(client_view(*self).diagnostics, uri@) is None,
            },
    {
        proof {
            lemma_find_uri_bounds(client_view(*self).diagnostics, uri@);
        }
        let ghost ds = client_view(*self).diagnostics;
        let mut i: usize = 0;
        while i < self.diagnostics.len()
            invariant
                i <= self.diagnostics@.len(),
                ds == client_view(*self).diagnostics,
                find_uri(ds.take(i as int), uri@) is None,
            decreases self.diagnostics@.len() - i,
        {
            proof {
                assert(ds.take(i + 1).drop_last() =~= ds.take(i as int));
            }
            if str_eq(self.diagnostics[i].0.as_str(), uri) {
                proof {
                    lemma_find_uri_prefix(ds, uri@, i as int);
                }
                return Some(i);
            }
            i = i + 1;
        }
        proof {
            assert(ds.take(ds.len() as int) =~= ds);
        }
        None
    }

    /// Whether the initialize response arrived since the last call; the
    /// flag is cleared.
    pub fn take_newly_initialized(&mut self) -> (b: bool)
        ensures
            b == old(self).newly_initialized,
            client_view(*final(self)) == (ClientModel { newly_initialized: false, ..client_view(*old(self)) }),
            final(self).transport == old(self).transport,
    {
        let v = self.newly_initialized;
        self.newly_initialized = false;
        v
    }
}

/// A found request is in range and has the id.
proof fn lemma_find_pending_bounds(p: Seq<(i64, PendingModel)>, id: i64)
    ensures
        find_pending(p, id) matches Some(i) ==> 0 <= i < p.len() && p[i].0 == id,
    decreases p.len(),
{
    if p.len() > 0 {
        lemma_find_pending_bounds(p.drop_last(), id);
    }
}

proof fn lemma_find_pending_prefix(p: Seq<(i64, PendingModel)>, id: i64, i: int)
    requires
        0 <= i <= p.len(),
    ensures
        i < p.len() && find_pending(p.take(i), id) is None && p[i].0 == id ==> find_pending(p, id) == Some(i),
        i == p.len() ==> find_pending(p.take(i), id) == find_pending(p, id),
    decreases p.len(),
{
    if i == p.len() {
        assert(p.take(i) =~= p);
    } else if i == p.len() - 1 {
        assert(p.drop_last() =~= p.take(i));
    } else {
        assert(p.drop_last().take(i) =~= p.take(i));
        lemma_find_pending_prefix(p.drop_last(), id, i);
    }
}

/// A found entry is in range and has the uri.
proof fn lemma_find_uri_bounds<T>(s: Seq<(Seq<char>, T)>, uri: Seq<char>)
    ensures
        find_uri(s, uri) matches Some(i) ==> 0 <= i < s.len() && s[i].0 == uri,
    decreases s.len(),
{
    if s.len() > 0 {
        lemma_find_uri_bounds(s.drop_last(), uri);
    }
}

/// Finding the first entry at `i` when none before it matches.
proof fn lemma_find_uri_prefix<T>(s: Seq<(Seq<char>, T)>, uri: Seq<char>, i: int)
    requires
        0 <= i < s.len(),
        find_uri(s.take(i), uri) is None,
        s[i].0 == uri,
    ensures
        find_uri(s, uri) == Some(i),
    decreases s.len(),
{
    if i == s.len() - 1 {
        assert(s.drop_last() =~= s.take(i));
    } else {
        assert(s.drop_last().take(i) =~= s.take(i));
        lemma_find_uri_prefix(s.drop_last(), uri, i);
    }
}

} // verus!
