//! LSP protocol types, the JSON-RPC messages the editor sends, the
//! results it reads, and `file://` URIs.
use vstd::prelude::*;
use crate::strs::{strip_prefix, strip_prefix_str};
use crate::text::{chars_of, push_str_chars, string_from_chars};
use crate::syntax::json_parser::{
    JsonValue, JsonModel, json_view, jget, jstr, int_text, obj1, obj2, obj3, obj4, json_number,
    json_str_value, number_i64, number_int, clamp_i64,
};
use crate::syntax::grammar::{json_str_of, str_items, parse_str_items};

verus! {

#[derive(Clone, Copy, Debug, PartialEq, Eq, Structural)]
pub struct Position {
    pub line: u32,
    pub character: u32,
}

#[derive(Clone, Copy, Debug, PartialEq, Eq, Structural)]
pub struct Range {
    pub start: Position,
    pub end: Position,
}

#[derive(Clone, Copy, Debug, PartialEq, Eq, Structural)]
pub enum DiagnosticSeverity {
    Error,
    Warning,
    Info,
    Hint,
}

impl DiagnosticSeverity {
    /// The protocol's number for the severity (1 to 4).
    pub fn code(self) -> (n: u32)
        ensures
            n == match self {
                DiagnosticSeverity::Error => 1u32,
                DiagnosticSeverity::Warning => 2u32,
                DiagnosticSeverity::Info => 3u32,
                DiagnosticSeverity::Hint => 4u32,
            },
    {
        match self {
            DiagnosticSeverity::Error => 1,
            DiagnosticSeverity::Warning => 2,
            DiagnosticSeverity::Info => 3,
            DiagnosticSeverity::Hint => 4,
        }
    }
}

#[derive(Clone, Debug)]
pub struct Diagnostic {
    pub range: Range,
    pub severity: DiagnosticSeverity,
    pub message: String,
    pub source: Option<String>,
}

#[derive(Clone, Debug)]
pub struct CompletionItem {
    pub label: String,
    /// LSP kind: 1=Text, 3=Function, 6=Variable, 7=Class, 9=Module…
    pub kind: Option<u32>,
    /// Short type hint shown right-aligned in the menu.
    pub detail: Option<String>,
    /// Text to insert; falls back to `label` when absent.
    pub insert_text: Option<String>,
}

#[derive(Clone, Debug)]
pub struct Location {
    pub uri: String,
    pub range: Range,
}

/// Server capabilities (minimal subset).
pub struct ServerCapabilities {
    /// 0=None, 1=Full, 2=Incremental.
    pub text_document_sync: i32,
}

impl Default for ServerCapabilities {
    fn default() -> (c: Self)
        ensures
            c.text_document_sync == 1,
    {
        Self { text_document_sync: 1 }
    }
}

/// The `file://` URI of a path.
pub fn path_to_uri(path: &str) -> (r: String)
    ensures
        r@ == "file://"@ + path@,
{
    let mut v: Vec<char> = Vec::new();
    push_str_chars(&mut v, "file://");
    push_str_chars(&mut v, path);
    string_from_chars(v.as_slice())
}

/// The path of a `file://` URI; None for other URIs.
pub fn uri_to_path(uri: &str) -> (r: Option<String>)
    ensures
        match r {
            Some(p) => strip_prefix(uri@, "file://"@) == Some(p@),
            None => strip_prefix(uri@, "file://"@) is None,
        },
{
    let u = chars_of(uri);
    match strip_prefix_str(&u, "file://") {
        Some(rest) => Some(string_from_chars(rest.as_slice())),
        None => None,
    }
}

/// Undoing a URI gives the path back.
pub proof fn lemma_uri_roundtrip(path: Seq<char>)
    ensures
        strip_prefix("file://"@ + path, "file://"@) == Some(path),
{
    let u = "file://"@ + path;
    assert(u.take("file://"@.len() as int) =~= "file://"@);
    assert(u.skip("file://"@.len() as int) =~= path);
}


// ── Message builders ─────────────────────────────────────────

/// A JSON-RPC request.
pub open spec fn rpc_request(id: int, method: Seq<char>, params: JsonModel) -> JsonModel {
    JsonModel::Object(
        seq![
            ("jsonrpc"@, JsonModel::Str("2.0"@)),
            ("id"@, JsonModel::Number(int_text(id))),
            ("method"@, JsonModel::Str(method)),
            ("params"@, params),
        ],
    )
}

/// A JSON-RPC notification.
pub open spec fn rpc_notification(method: Seq<char>, params: JsonModel) -> JsonModel {
    JsonModel::Object(
        seq![
            ("jsonrpc"@, JsonModel::Str("2.0"@)),
            ("method"@, JsonModel::Str(method)),
            ("params"@, params),
        ],
    )
}

/// `{"uri": uri}`.
pub open spec fn text_document(uri: Seq<char>) -> JsonModel {
    JsonModel::Object(seq![("uri"@, JsonModel::Str(uri))])
}

fn json_rpc_request(id: i64, method: &str, params: JsonValue) -> (r: JsonValue)
    ensures
        json_view(r) == rpc_request(id as int, method@, json_view(params)),
{
    obj4("jsonrpc", json_str_value("2.0"), "id", json_number(id), "method", json_str_value(method), "params", params)
}

fn json_rpc_notification(method: &str, params: JsonValue) -> (r: JsonValue)
    ensures
        json_view(r) == rpc_notification(method@, json_view(params)),
{
    obj3("jsonrpc", json_str_value("2.0"), "method", json_str_value(method), "params", params)
}

fn text_document_value(uri: &str) -> (r: JsonValue)
    ensures
        json_view(r) == text_document(uri@),
{
    obj1("uri", json_str_value(uri))
}

pub open spec fn initialize_msg(id: int, root_uri: Seq<char>, process_id: u32) -> JsonModel {
    rpc_request(
        id,
        "initialize"@,
        JsonModel::Object(
            seq![
                ("processId"@, JsonModel::Number(int_text(process_id as int))),
                ("rootUri"@, JsonModel::Str(root_uri)),
                (
                    "capabilities"@,
                    JsonModel::Object(
                        seq![
                            (
                                "textDocument"@,
                                JsonModel::Object(
                                    seq![
                                        (
                                            "synchronization"@,
                                            JsonModel::Object(
                                                seq![
                                                    ("didSave"@, JsonModel::Bool(true)),
                                                    ("dynamicRegistration"@, JsonModel::Bool(false)),
                                                ],
                                            ),
                                        ),
                                        (
                                            "publishDiagnostics"@,
                                            JsonModel::Object(seq![("relatedInformation"@, JsonModel::Bool(false))]),
                                        ),
                                    ],
                                ),
                            ),
                        ],
                    ),
                ),
            ],
        ),
    )
}

/// The `initialize` request. `process_id` is the editor's process id.
pub fn initialize_request(id: i64, root_uri: &str, process_id: u32) -> (r: JsonValue)
    ensures
        json_view(r) == initialize_msg(id as int, root_uri@, process_id),
{
    let sync = obj2("didSave", JsonValue::Bool(true), "dynamicRegistration", JsonValue::Bool(false));
    let diags = obj1("relatedInformation", JsonValue::Bool(false));
    let td = obj2("synchronization", sync, "publishDiagnostics", diags);
    let caps = obj1("textDocument", td);
    let params = obj3(
        "processId",
        json_number(process_id as i64),
        "rootUri",
        json_str_value(root_uri),
        "capabilities",
        caps,
    );
    json_rpc_request(id, "initialize", params)
}

/// The `initialized` notification, sent after the initialize response.
pub fn initialized_notification() -> (r: JsonValue)
    ensures
        json_view(r) == rpc_notification("initialized"@, JsonModel::Object(Seq::empty())),
{
    let m: Vec<(String, JsonValue)> = Vec::new();
    proof {
        assert(crate::syntax::json_parser::pairs_view(m@) =~= Seq::<(Seq<char>, JsonModel)>::empty());
    }
    json_rpc_notification("initialized", JsonValue::Object(m))
}

pub open spec fn did_open_msg(uri: Seq<char>, language_id: Seq<char>, version: i32, text: Seq<char>) -> JsonModel {
    rpc_notification(
        "textDocument/didOpen"@,
        JsonModel::Object(
            seq![
                (
                    "textDocument"@,
                    JsonModel::Object(
                        seq![
                            ("uri"@, JsonModel::Str(uri)),
                            ("languageId"@, JsonModel::Str(language_id)),
                            ("version"@, JsonModel::Number(int_text(version as int))),
                            ("text"@, JsonModel::Str(text)),
                        ],
                    ),
                ),
            ],
        ),
    )
}

/// `textDocument/didOpen`.
pub fn did_open_notification(uri: &str, language_id: &str, version: i32, text: &str) -> (r: JsonValue)
    ensures
        json_view(r) == did_open_msg(uri@, language_id@, version, text@),
{
    let td = obj4(
        "uri",
        json_str_value(uri),
        "languageId",
        json_str_value(language_id),
        "version",
        json_number(version as i64),
        "text",
        json_str_value(text),
    );
    json_rpc_notification("textDocument/didOpen", obj1("textDocument", td))
}

pub open spec fn did_change_msg(uri: Seq<char>, version: i32, text: Seq<char>) -> JsonModel {
    rpc_notification(
        "textDocument/didChange"@,
        JsonModel::Object(
            seq![
                (
                    "textDocument"@,
                    JsonModel::Object(
                        seq![
                            ("uri"@, JsonModel::Str(uri)),
                            ("version"@, JsonModel::Number(int_text(version as int))),
                        ],
                    ),
                ),
                (
                    "contentChanges"@,
                    JsonModel::Array(seq![JsonModel::Object(seq![("text"@, JsonModel::Str(text))])]),
                ),
            ],
        ),
    )
}

/// `textDocument/didChange` with the full text.
pub fn did_change_notification(uri: &str, version: i32, text: &str) -> (r: JsonValue)
    ensures
        json_view(r) == did_change_msg(uri@, version, text@),
{
    let td = obj2("uri", json_str_value(uri), "version", json_number(version as i64));
    let change = obj1("text", json_str_value(text));
    let mut changes: Vec<JsonValue> = Vec::new();
    changes.push(change);
    proof {
        assert(changes@.drop_last() =~= Seq::<JsonValue>::empty());
        assert(crate::syntax::json_parser::items_view(Seq::<JsonValue>::empty()) =~= Seq::<JsonModel>::empty());
        assert(crate::syntax::json_parser::items_view(changes@) == crate::syntax::json_parser::items_view(changes@.drop_last()).push(json_view(changes@.last())));
        assert(crate::syntax::json_parser::items_view(changes@) =~= seq![json_view(change)]);
    }
    json_rpc_notification(
        "textDocument/didChange",
        obj2("textDocument", td, "contentChanges", JsonValue::Array(changes)),
    )
}

/// `textDocument/didSave`.
pub fn did_save_notification(uri: &str) -> (r: JsonValue)
    ensures
        json_view(r) == rpc_notification(
            "textDocument/didSave"@,
            JsonModel::Object(seq![("textDocument"@, text_document(uri@))]),
        ),
{
    json_rpc_notification("textDocument/didSave", obj1("textDocument", text_document_value(uri)))
}

/// `textDocument/didClose`.
pub fn did_close_notification(uri: &str) -> (r: JsonValue)
    ensures
        json_view(r) == rpc_notification(
            "textDocument/didClose"@,
            JsonModel::Object(seq![("textDocument"@, text_document(uri@))]),
        ),
{
    json_rpc_notification("textDocument/didClose", obj1("textDocument", text_document_value(uri)))
}

/// The params of a request about a position in a document.
pub open spec fn position_params(uri: Seq<char>, line: u32, character: u32) -> JsonModel {
    JsonModel::Object(
        seq![
            ("textDocument"@, text_document(uri)),
            (
                "position"@,
                JsonModel::Object(
                    seq![
                        ("line"@, JsonModel::Number(int_text(line as int))),
                        ("character"@, JsonModel::Number(int_text(character as int))),
                    ],
                ),
            ),
        ],
    )
}

pub(crate) fn text_document_position_request(id: i64, method: &str, uri: &str, line: u32, character: u32) -> (r: JsonValue)
    ensures
        json_view(r) == rpc_request(id as int, method@, position_params(uri@, line, character)),
{
    let pos = obj2("line", json_number(line as i64), "character", json_number(character as i64));
    json_rpc_request(id, method, obj2("textDocument", text_document_value(uri), "position", pos))
}

/// `textDocument/completion`.
pub fn completion_request(id: i64, uri: &str, line: u32, character: u32) -> (r: JsonValue)
    ensures
        json_view(r) == rpc_request(id as int, "textDocument/completion"@, position_params(uri@, line, character)),
{
    text_document_position_request(id, "textDocument/completion", uri, line, character)
}

/// `textDocument/hover`.
pub fn hover_request(id: i64, uri: &str, line: u32, character: u32) -> (r: JsonValue)
    ensures
        json_view(r) == rpc_request(id as int, "textDocument/hover"@, position_params(uri@, line, character)),
{
    text_document_position_request(id, "textDocument/hover", uri, line, character)
}

/// `textDocument/definition`.
pub fn definition_request(id: i64, uri: &str, line: u32, character: u32) -> (r: JsonValue)
    ensures
        json_view(r) == rpc_request(id as int, "textDocument/definition"@, position_params(uri@, line, character)),
{
    text_document_position_request(id, "textDocument/definition", uri, line, character)
}

/// `textDocument/semanticTokens/full`.
pub fn semantic_tokens_request(id: i64, uri: &str) -> (r: JsonValue)
    ensures
        json_view(r) == rpc_request(
            id as int,
            "textDocument/semanticTokens/full"@,
            JsonModel::Object(seq![("textDocument"@, text_document(uri@))]),
        ),
{
    json_rpc_request(id, "textDocument/semanticTokens/full", obj1("textDocument", text_document_value(uri)))
}

/// `shutdown`.
pub fn shutdown_request(id: i64) -> (r: JsonValue)
    ensures
        json_view(r) == rpc_request(id as int, "shutdown"@, JsonModel::Null),
{
    json_rpc_request(id, "shutdown", JsonValue::Null)
}

/// `exit`.
pub fn exit_notification() -> (r: JsonValue)
    ensures
        json_view(r) == rpc_notification("exit"@, JsonModel::Null),
{
    json_rpc_notification("exit", JsonValue::Null)
}

// ── Result parsers ───────────────────────────────────────────

/// The integer a member holds, if it is a number written as one.
pub open spec fn jnum(o: Option<JsonValue>) -> Option<int> {
    match o {
        Some(JsonValue::Number(t)) => number_int(t@),
        _ => None,
    }
}

/// `n` saturated into `u32`, as a float-to-`u32` cast does.
pub open spec fn sat_u32(n: int) -> u32 {
    if n < 0 {
        0
    } else if n > u32::MAX {
        u32::MAX
    } else {
        n as u32
    }
}

/// `n` saturated into `i32`.
pub open spec fn sat_i32(n: int) -> i32 {
    if n < i32::MIN {
        i32::MIN
    } else if n > i32::MAX {
        i32::MAX
    } else {
        n as i32
    }
}

fn member_int(v: &JsonValue, key: &str) -> (r: Option<i64>)
    ensures
        r == match jnum(jget(*v, key@)) {
            Some(n) => Some(clamp_i64(n)),
            None => None::<i64>,
        },
{
    match v.get(key) {
        Some(JsonValue::Number(t)) => number_i64(t.as_str()),
        _ => None,
    }
}

pub(crate) fn value_int(v: &JsonValue) -> (r: Option<i64>)
    ensures
        r == match jnum(Some(*v)) {
            Some(n) => Some(clamp_i64(n)),
            None => None::<i64>,
        },
{
    match v {
        JsonValue::Number(t) => number_i64(t.as_str()),
        _ => None,
    }
}

fn to_u32(n: i64) -> (r: u32)
    ensures
        r == sat_u32(n as int),
{
    if n < 0 {
        0
    } else if n > u32::MAX as i64 {
        u32::MAX
    } else {
        n as u32
    }
}

fn to_i32(n: i64) -> (r: i32)
    ensures
        r == sat_i32(n as int),
{
    if n < i32::MIN as i64 {
        i32::MIN
    } else if n > i32::MAX as i64 {
        i32::MAX
    } else {
        n as i32
    }
}

proof fn lemma_sat_clamp(n: int)
    ensures
        sat_u32(clamp_i64(n) as int) == sat_u32(n),
        sat_i32(clamp_i64(n) as int) == sat_i32(n),
{
}

pub open spec fn spec_position(v: JsonValue) -> Option<Position> {
    match (jnum(jget(v, "line"@)), jnum(jget(v, "character"@))) {
        (Some(l), Some(c)) => Some(Position { line: sat_u32(l), character: sat_u32(c) }),
        _ => None,
    }
}

pub open spec fn opt_position(o: Option<JsonValue>) -> Option<Position> {
    match o {
        Some(v) => spec_position(v),
        None => None,
    }
}

pub open spec fn spec_range(v: JsonValue) -> Option<Range> {
    match (opt_position(jget(v, "start"@)), opt_position(jget(v, "end"@))) {
        (Some(start), Some(end)) => Some(Range { start, end }),
        _ => None,
    }
}

pub open spec fn opt_range(o: Option<JsonValue>) -> Option<Range> {
    match o {
        Some(v) => spec_range(v),
        None => None,
    }
}

fn parse_position(val: &JsonValue) -> (r: Option<Position>)
    ensures
        r == spec_position(*val),
{
    let line = match member_int(val, "line") {
        Some(n) => n,
        None => {
            return None;
        },
    };
    let character = match member_int(val, "character") {
        Some(n) => n,
        None => {
            return None;
        },
    };
    proof {
        lemma_sat_clamp(jnum(jget(*val, "line"@)).unwrap());
        lemma_sat_clamp(jnum(jget(*val, "character"@)).unwrap());
    }
    Some(Position { line: to_u32(line), character: to_u32(character) })
}

fn parse_opt_position(o: Option<&JsonValue>) -> (r: Option<Position>)
    ensures
        r == opt_position(match o {
            Some(v) => Some(*v),
            None => None,
        }),
{
    match o {
        Some(v) => parse_position(v),
        None => None,
    }
}

fn parse_range(val: &JsonValue) -> (r: Option<Range>)
    ensures
        r == spec_range(*val),
{
    let start = match parse_opt_position(val.get("start")) {
        Some(p) => p,
        None => {
            return None;
        },
    };
    let end = match parse_opt_position(val.get("end")) {
        Some(p) => p,
        None => {
            return None;
        },
    };
    Some(Range { start, end })
}

fn parse_opt_range(o: Option<&JsonValue>) -> (r: Option<Range>)
    ensures
        r == opt_range(match o {
            Some(v) => Some(*v),
            None => None,
        }),
{
    match o {
        Some(v) => parse_range(v),
        None => None,
    }
}

/// The severity with this protocol number; anything else is an error.
pub open spec fn severity_of(n: i32) -> DiagnosticSeverity {
    if n == 2 {
        DiagnosticSeverity::Warning
    } else if n == 3 {
        DiagnosticSeverity::Info
    } else if n == 4 {
        DiagnosticSeverity::Hint
    } else {
        DiagnosticSeverity::Error
    }
}

/// A diagnostic as values: range, severity, message, source.
pub open spec fn diagnostic_view(d: Diagnostic) -> (Range, DiagnosticSeverity, Seq<char>, Option<Seq<char>>) {
    (
        d.range,
        d.severity,
        d.message@,
        match d.source {
            Some(s) => Some(s@),
            None => None,
        },
    )
}

/// One diagnostic: `range` and `message` are required; a missing
/// severity is an error.
pub open spec fn spec_diagnostic(v: JsonValue) -> Option<(Range, DiagnosticSeverity, Seq<char>, Option<Seq<char>>)> {
    match (opt_range(jget(v, "range"@)), jstr(jget(v, "message"@))) {
        (Some(range), Some(message)) => Some(
            (
                range,
                severity_of(
                    match jnum(jget(v, "severity"@)) {
                        Some(n) => sat_i32(n),
                        None => 1,
                    },
                ),
                message,
                jstr(jget(v, "source"@)),
            ),
        ),
        _ => None,
    }
}

pub open spec fn spec_diagnostic_list(a: Seq<JsonValue>) -> Seq<(Range, DiagnosticSeverity, Seq<char>, Option<Seq<char>>)>
    decreases a.len(),
{
    if a.len() == 0 {
        Seq::empty()
    } else {
        match spec_diagnostic(a.last()) {
            Some(d) => spec_diagnostic_list(a.drop_last()).push(d),
            None => spec_diagnostic_list(a.drop_last()),
        }
    }
}

/// The `publishDiagnostics` params: a string `uri` and an array of
/// diagnostics, of which those that do not parse are left out.
pub open spec fn spec_diagnostics(params: JsonValue) -> Option<(Seq<char>, Seq<(Range, DiagnosticSeverity, Seq<char>, Option<Seq<char>>)>)> {
    match (jstr(jget(params, "uri"@)), jget(params, "diagnostics"@)) {
        (Some(uri), Some(JsonValue::Array(a))) => Some((uri, spec_diagnostic_list(a@))),
        _ => None,
    }
}

fn severity_exec(n: i32) -> (r: DiagnosticSeverity)
    ensures
        r == severity_of(n),
{
    if n == 2 {
        DiagnosticSeverity::Warning
    } else if n == 3 {
        DiagnosticSeverity::Info
    } else if n == 4 {
        DiagnosticSeverity::Hint
    } else {
        DiagnosticSeverity::Error
    }
}

fn opt_string(o: Option<&str>) -> (r: Option<String>)
    ensures
        match r {
            Some(s) => o matches Some(x) && s@ == x@,
            None => o is None,
        },
{
    match o {
        Some(x) => Some(x.to_owned()),
        None => None,
    }
}

fn parse_one_diagnostic(val: &JsonValue) -> (r: Option<Diagnostic>)
    ensures
        match r {
            Some(d) => spec_diagnostic(*val) == Some(diagnostic_view(d)),
            None => spec_diagnostic(*val) is None,
        },
{
    let range = match parse_opt_range(val.get("range")) {
        Some(r) => r,
        None => {
            return None;
        },
    };
    let severity_num = match member_int(val, "severity") {
        Some(n) => to_i32(n),
        None => 1,
    };
    proof {
        if jnum(jget(*val, "severity"@)) is Some {
            lemma_sat_clamp(jnum(jget(*val, "severity"@)).unwrap());
        }
    }
    let severity = severity_exec(severity_num);
    let message = match json_str_of(val, "message") {
        Some(m) => m.to_owned(),
        None => {
            return None;
        },
    };
    let source = opt_string(json_str_of(val, "source"));
    Some(Diagnostic { range, severity, message, source })
}

/// The uri and diagnostics of a `publishDiagnostics` notification.
pub fn parse_diagnostics(params: &JsonValue) -> (r: Option<(String, Vec<Diagnostic>)>)
    ensures
        match r {
            Some((uri, diags)) => spec_diagnostics(*params) == Some(
                (uri@, diags@.map_values(|d: Diagnostic| diagnostic_view(d))),
            ),
            None => spec_diagnostics(*params) is None,
        },
{
    let uri = match json_str_of(params, "uri") {
        Some(u) => u.to_owned(),
        None => {
            return None;
        },
    };
    let arr: &[JsonValue] = match params.get("diagnostics") {
        Some(v) => match v {
            JsonValue::Array(a) => a.as_slice(),
            _ => {
                return None;
            },
        },
        None => {
            return None;
        },
    };
    let mut diagnostics: Vec<Diagnostic> = Vec::new();
    let mut i: usize = 0;
    proof {
        assert(arr@.take(0) =~= Seq::<JsonValue>::empty());
        assert(diagnostics@.map_values(|d: Diagnostic| diagnostic_view(d)) =~= Seq::<(Range, DiagnosticSeverity, Seq<char>, Option<Seq<char>>)>::empty());
    }
    while i < arr.len()
        invariant
            i <= arr@.len(),
            diagnostics@.map_values(|d: Diagnostic| diagnostic_view(d)) == spec_diagnostic_list(arr@.take(i as int)),
        decreases arr@.len() - i,
    {
        proof {
            assert(arr@.take(i + 1).drop_last() =~= arr@.take(i as int));
            assert(arr@.take(i + 1).last() == arr@[i as int]);
        }
        match parse_one_diagnostic(&arr[i]) {
            Some(d) => {
                let ghost before = diagnostics@.map_values(|d: Diagnostic| diagnostic_view(d));
                diagnostics.push(d);
                proof {
                    assert(diagnostics@.map_values(|d: Diagnostic| diagnostic_view(d)) =~= before.push(diagnostic_view(d)));
                }
            },
            None => {},
        }
        i = i + 1;
    }
    proof {
        assert(arr@.take(arr@.len() as int) =~= arr@);
    }
    Some((uri, diagnostics))
}

/// The document sync kind of an initialize result: `capabilities.
/// textDocumentSync` as a number, or its `change` member; else 1.
pub open spec fn spec_sync_kind(result: JsonValue) -> i32 {
    match jget(result, "capabilities"@) {
        Some(cap) => match jget(cap, "textDocumentSync"@) {
            Some(sync) => match jnum(Some(sync)) {
                Some(n) => sat_i32(n),
                None => match jnum(jget(sync, "change"@)) {
                    Some(c) => sat_i32(c),
                    None => 1,
                },
            },
            None => 1,
        },
        None => 1,
    }
}

/// The server capabilities of an initialize result.
pub fn parse_initialize_result(result: &JsonValue) -> (caps: ServerCapabilities)
    ensures
        caps.text_document_sync == spec_sync_kind(*result),
{
    let mut caps = ServerCapabilities { text_document_sync: 1 };
    match result.get("capabilities") {
        Some(cap) => match cap.get("textDocumentSync") {
            Some(sync) => match value_int(sync) {
                Some(n) => {
                    proof {
                        lemma_sat_clamp(jnum(Some(*sync)).unwrap());
                    }
                    caps.text_document_sync = to_i32(n);
                },
                None => match member_int(sync, "change") {
                    Some(c) => {
                        proof {
                            lemma_sat_clamp(jnum(jget(*sync, "change"@)).unwrap());
                        }
                        caps.text_document_sync = to_i32(c);
                    },
                    None => {},
                },
            },
            None => {},
        },
        None => {},
    }
    caps
}

/// The token type names of an initialize result:
/// `capabilities.semanticTokensProvider.legend.tokenTypes`, strings only;
/// empty when the server does not offer semantic tokens.
pub open spec fn spec_semantic_legend(result: JsonValue) -> Seq<Seq<char>> {
    match jget(result, "capabilities"@) {
        Some(cap) => match jget(cap, "semanticTokensProvider"@) {
            Some(prov) => match jget(prov, "legend"@) {
                Some(legend) => match jget(legend, "tokenTypes"@) {
                    Some(JsonValue::Array(a)) => str_items(a@),
                    _ => Seq::empty(),
                },
                None => Seq::empty(),
            },
            None => Seq::empty(),
        },
        None => Seq::empty(),
    }
}

pub fn parse_semantic_legend(result: &JsonValue) -> (r: Vec<String>)
    ensures
        r@.map_values(|s: String| s@) == spec_semantic_legend(*result),
{
    let types = match result.get("capabilities") {
        Some(cap) => match cap.get("semanticTokensProvider") {
            Some(prov) => match prov.get("legend") {
                Some(legend) => match legend.get("tokenTypes") {
                    Some(t) => t.as_array(),
                    None => None,
                },
                None => None,
            },
            None => None,
        },
        None => None,
    };
    match types {
        Some(a) => parse_str_items(a),
        None => {
            let v: Vec<String> = Vec::new();
            proof {
                assert(v@.map_values(|s: String| s@) =~= Seq::<Seq<char>>::empty());
            }
            v
        },
    }
}


// ── Completion, hover, definition ────────────────────────────

/// A completion item as values: label, kind, detail, insert text.
pub open spec fn completion_view(c: CompletionItem) -> (Seq<char>, Option<u32>, Option<Seq<char>>, Option<Seq<char>>) {
    (
        c.label@,
        c.kind,
        match c.detail {
            Some(s) => Some(s@),
            None => None,
        },
        match c.insert_text {
            Some(s) => Some(s@),
            None => None,
        },
    )
}

/// One completion item; `label` is required.
pub open spec fn spec_completion_item(v: JsonValue) -> Option<(Seq<char>, Option<u32>, Option<Seq<char>>, Option<Seq<char>>)> {
    match jstr(jget(v, "label"@)) {
        Some(label) => Some(
            (
                label,
                match jnum(jget(v, "kind"@)) {
                    Some(n) => Some(sat_u32(n)),
                    None => None,
                },
                jstr(jget(v, "detail"@)),
                jstr(jget(v, "insertText"@)),
            ),
        ),
        None => None,
    }
}

pub open spec fn spec_completion_list(a: Seq<JsonValue>) -> Seq<(Seq<char>, Option<u32>, Option<Seq<char>>, Option<Seq<char>>)>
    decreases a.len(),
{
    if a.len() == 0 {
        Seq::empty()
    } else {
        match spec_completion_item(a.last()) {
            Some(c) => spec_completion_list(a.drop_last()).push(c),
            None => spec_completion_list(a.drop_last()),
        }
    }
}

/// The items of a completion result: a `CompletionList`'s `items`, or the
/// result itself, when it is an array.
pub open spec fn spec_completion(result: JsonValue) -> Seq<(Seq<char>, Option<u32>, Option<Seq<char>>, Option<Seq<char>>)> {
    let items = match jget(result, "items"@) {
        Some(i) => i,
        None => result,
    };
    match items {
        JsonValue::Array(a) => spec_completion_list(a@),
        _ => Seq::empty(),
    }
}

fn parse_one_completion_item(val: &JsonValue) -> (r: Option<CompletionItem>)
    ensures
        match r {
            Some(c) => spec_completion_item(*val) == Some(completion_view(c)),
            None => spec_completion_item(*val) is None,
        },
{
    let label = match json_str_of(val, "label") {
        Some(l) => l.to_owned(),
        None => {
            return None;
        },
    };
    let kind = match member_int(val, "kind") {
        Some(n) => {
            proof {
                lemma_sat_clamp(jnum(jget(*val, "kind"@)).unwrap());
            }
            Some(to_u32(n))
        },
        None => None,
    };
    let detail = opt_string(json_str_of(val, "detail"));
    let insert_text = opt_string(json_str_of(val, "insertText"));
    Some(CompletionItem { label, kind, detail, insert_text })
}

/// The items of a `textDocument/completion` result.
pub fn parse_completion_result(result: &JsonValue) -> (r: Vec<CompletionItem>)
    ensures
        r@.map_values(|c: CompletionItem| completion_view(c)) == spec_completion(*result),
{
    let items_val = match result.get("items") {
        Some(i) => i,
        None => result,
    };
    let mut out: Vec<CompletionItem> = Vec::new();
    match items_val.as_array() {
        Some(arr) => {
            let mut i: usize = 0;
            proof {
                assert(arr@.take(0) =~= Seq::<JsonValue>::empty());
                assert(out@.map_values(|c: CompletionItem| completion_view(c)) =~= Seq::<(Seq<char>, Option<u32>, Option<Seq<char>>, Option<Seq<char>>)>::empty());
            }
            while i < arr.len()
                invariant
                    i <= arr@.len(),
                    out@.map_values(|c: CompletionItem| completion_view(c)) == spec_completion_list(arr@.take(i as int)),
                decreases arr@.len() - i,
            {
                proof {
                    assert(arr@.take(i + 1).drop_last() =~= arr@.take(i as int));
                    assert(arr@.take(i + 1).last() == arr@[i as int]);
                }
                match parse_one_completion_item(&arr[i]) {
                    Some(c) => {
                        let ghost before = out@.map_values(|c: CompletionItem| completion_view(c));
                        out.push(c);
                        proof {
                            assert(out@.map_values(|c: CompletionItem| completion_view(c)) =~= before.push(completion_view(c)));
                        }
                    },
                    None => {},
                }
                i = i + 1;
            }
            proof {
                assert(arr@.take(arr@.len() as int) =~= arr@);
            }
        },
        None => {
            proof {
                assert(out@.map_values(|c: CompletionItem| completion_view(c)) =~= Seq::<(Seq<char>, Option<u32>, Option<Seq<char>>, Option<Seq<char>>)>::empty());
            }
        },
    }
    out
}

/// Parts joined by newlines.
pub open spec fn join_lines(parts: Seq<Seq<char>>) -> Seq<char>
    decreases parts.len(),
{
    if parts.len() == 0 {
        Seq::empty()
    } else if parts.len() == 1 {
        parts[0]
    } else {
        join_lines(parts.drop_last()) + seq!['\n'] + parts.last()
    }
}

/// Hover contents as plain text: a non-empty string; the non-empty
/// `value` of an object; the non-empty texts of an array's elements,
/// joined by newlines. Anything else, or nothing left, gives none.
pub open spec fn spec_flatten(v: JsonValue) -> Option<Seq<char>>
    decreases v, 1int,
{
    match v {
        JsonValue::String(s) => if s@.len() == 0 {
            None
        } else {
            Some(s@)
        },
        JsonValue::Object(_) => match jstr(jget(v, "value"@)) {
            Some(x) => if x.len() == 0 {
                None
            } else {
                Some(x)
            },
            None => None,
        },
        JsonValue::Array(a) => {
            let parts = spec_flatten_list(a@);
            if parts.len() == 0 {
                None
            } else {
                Some(join_lines(parts))
            }
        },
        _ => None,
    }
}

pub open spec fn spec_flatten_list(a: Seq<JsonValue>) -> Seq<Seq<char>>
    decreases a, 0int,
{
    if a.len() == 0 {
        Seq::empty()
    } else {
        proof {
            assert(decreases_to!(a => a[a.len() - 1]));
        }
        match spec_flatten(a.last()) {
            Some(p) => spec_flatten_list(a.drop_last()).push(p),
            None => spec_flatten_list(a.drop_last()),
        }
    }
}

fn flatten_hover_contents(val: &JsonValue) -> (r: Option<String>)
    ensures
        match r {
            Some(s) => spec_flatten(*val) == Some(s@),
            None => spec_flatten(*val) is None,
        },
    decreases val, 1int,
{
    match val {
        JsonValue::String(s) => {
            if s.as_str().is_empty() {
                None
            } else {
                Some(s.clone())
            }
        },
        JsonValue::Object(_) => match json_str_of(val, "value") {
            Some(x) => if x.is_empty() {
                None
            } else {
                Some(x.to_owned())
            },
            None => None,
        },
        JsonValue::Array(a) => {
            proof {
                assert(decreases_to!(*val => (*val)->Array_0));
                assert(decreases_to!((*val)->Array_0 => a@));
            }
            let parts = flatten_list(a.as_slice());
            if parts.len() == 0 {
                None
            } else {
                Some(join_exec(&parts))
            }
        },
        _ => None,
    }
}

fn flatten_list(a: &[JsonValue]) -> (r: Vec<String>)
    ensures
        r@.map_values(|s: String| s@) == spec_flatten_list(a@),
    decreases a@, 0int,
{
    let mut out: Vec<String> = Vec::new();
    let mut i: usize = 0;
    proof {
        assert(a@.take(0) =~= Seq::<JsonValue>::empty());
        assert(out@.map_values(|s: String| s@) =~= Seq::<Seq<char>>::empty());
    }
    while i < a.len()
        invariant
            i <= a@.len(),
            out@.map_values(|s: String| s@) == spec_flatten_list(a@.take(i as int)),
        decreases a@.len() - i,
    {
        proof {
            assert(a@.take(i + 1).drop_last() =~= a@.take(i as int));
            assert(a@.take(i + 1).last() == a@[i as int]);
            assert(decreases_to!(a@ => a@[i as int]));
        }
        match flatten_hover_contents(&a[i]) {
            Some(p) => {
                let ghost before = out@.map_values(|s: String| s@);
                out.push(p);
                proof {
                    assert(out@.map_values(|s: String| s@) =~= before.push(p@));
                }
            },
            None => {},
        }
        i = i + 1;
    }
    proof {
        assert(a@.take(a@.len() as int) =~= a@);
    }
    out
}

fn join_exec(parts: &Vec<String>) -> (r: String)
    requires
        parts@.len() > 0,
    ensures
        r@ == join_lines(parts@.map_values(|s: String| s@)),
{
    let mut v: Vec<char> = chars_of(parts[0].as_str());
    let ghost views = parts@.map_values(|s: String| s@);
    let mut i: usize = 1;
    proof {
        assert(views.take(1).drop_last() =~= Seq::<Seq<char>>::empty());
        assert(join_lines(views.take(1)) == views.take(1)[0]);
    }
    while i < parts.len()
        invariant
            1 <= i <= parts@.len(),
            views == parts@.map_values(|s: String| s@),
            v@ == join_lines(views.take(i as int)),
        decreases parts@.len() - i,
    {
        proof {
            assert(views.take(i + 1).drop_last() =~= views.take(i as int));
            assert(views.take(i + 1).last() == parts@[i as int]@);
        }
        v.push('\n');
        push_str_chars(&mut v, parts[i].as_str());
        proof {
            assert(v@ =~= join_lines(views.take(i as int)) + seq!['\n'] + parts@[i as int]@);
        }
        i = i + 1;
    }
    proof {
        assert(views.take(views.len() as int) =~= views);
    }
    string_from_chars(v.as_slice())
}

/// The text of a `textDocument/hover` result's `contents`.
pub fn parse_hover_result(result: &JsonValue) -> (r: Option<String>)
    ensures
        match r {
            Some(s) => jget(*result, "contents"@) matches Some(c) && spec_flatten(c) == Some(s@),
            None => match jget(*result, "contents"@) {
                Some(c) => spec_flatten(c) is None,
                None => true,
            },
        },
{
    match result.get("contents") {
        Some(c) => flatten_hover_contents(c),
        None => None,
    }
}

/// A `Location`, or a `LocationLink` read through its target.
pub open spec fn spec_location(v: JsonValue) -> Option<(Seq<char>, Range)> {
    match jget(v, "targetUri"@) {
        Some(t) => {
            let range = match jget(v, "targetSelectionRange"@) {
                Some(r) => spec_range(r),
                None => opt_range(jget(v, "targetRange"@)),
            };
            match (jstr(Some(t)), range) {
                (Some(u), Some(r)) => Some((u, r)),
                _ => None,
            }
        },
        None => match (jstr(jget(v, "uri"@)), opt_range(jget(v, "range"@))) {
            (Some(u), Some(r)) => Some((u, r)),
            _ => None,
        },
    }
}

pub open spec fn location_view(l: Location) -> (Seq<char>, Range) {
    (l.uri@, l.range)
}

pub open spec fn spec_location_list(a: Seq<JsonValue>) -> Seq<(Seq<char>, Range)>
    decreases a.len(),
{
    if a.len() == 0 {
        Seq::empty()
    } else {
        match spec_location(a.last()) {
            Some(l) => spec_location_list(a.drop_last()).push(l),
            None => spec_location_list(a.drop_last()),
        }
    }
}

/// The locations of a definition result: an array of them, one, or null.
pub open spec fn spec_definitions(result: JsonValue) -> Seq<(Seq<char>, Range)> {
    match result {
        JsonValue::Array(a) => spec_location_list(a@),
        JsonValue::Null => Seq::empty(),
        _ => match spec_location(result) {
            Some(l) => seq![l],
            None => Seq::empty(),
        },
    }
}

fn parse_one_location_or_link(val: &JsonValue) -> (r: Option<Location>)
    ensures
        match r {
            Some(l) => spec_location(*val) == Some(location_view(l)),
            None => spec_location(*val) is None,
        },
{
    match val.get("targetUri") {
        Some(t) => {
            let uri = match t.as_str() {
                Some(u) => u.to_owned(),
                None => {
                    return None;
                },
            };
            let range = match val.get("targetSelectionRange") {
                Some(r) => parse_range(r),
                None => parse_opt_range(val.get("targetRange")),
            };
            match range {
                Some(range) => Some(Location { uri, range }),
                None => None,
            }
        },
        None => {
            let uri = match json_str_of(val, "uri") {
                Some(u) => u.to_owned(),
                None => {
                    return None;
                },
            };
            match parse_opt_range(val.get("range")) {
                Some(range) => Some(Location { uri, range }),
                None => None,
            }
        },
    }
}

/// The locations of a `textDocument/definition` result.
pub fn parse_definition_result(result: &JsonValue) -> (r: Vec<Location>)
    ensures
        r@.map_values(|l: Location| location_view(l)) == spec_definitions(*result),
{
    let mut out: Vec<Location> = Vec::new();
    match result {
        JsonValue::Array(arr) => {
            let mut i: usize = 0;
            proof {
                assert(arr@.take(0) =~= Seq::<JsonValue>::empty());
                assert(out@.map_values(|l: Location| location_view(l)) =~= Seq::<(Seq<char>, Range)>::empty());
            }
            while i < arr.len()
                invariant
                    i <= arr@.len(),
                    *result == JsonValue::Array(*arr),
                    out@.map_values(|l: Location| location_view(l)) == spec_location_list(arr@.take(i as int)),
                decreases arr@.len() - i,
            {
                proof {
                    assert(arr@.take(i + 1).drop_last() =~= arr@.take(i as int));
                    assert(arr@.take(i + 1).last() == arr@[i as int]);
                }
                match parse_one_location_or_link(&arr[i]) {
                    Some(l) => {
                        let ghost before = out@.map_values(|l: Location| location_view(l));
                        out.push(l);
                        proof {
                            assert(out@.map_values(|l: Location| location_view(l)) =~= before.push(location_view(l)));
                        }
                    },
                    None => {},
                }
                i = i + 1;
            }
            proof {
                assert(arr@.take(arr@.len() as int) =~= arr@);
            }
        },
        JsonValue::Null => {
            proof {
                assert(out@.map_values(|l: Location| location_view(l)) =~= Seq::<(Seq<char>, Range)>::empty());
            }
        },
        _ => {
            match parse_one_location_or_link(result) {
                Some(l) => {
                    out.push(l);
                    proof {
                        assert(out@.map_values(|l: Location| location_view(l)) =~= seq![location_view(l)]);
                    }
                },
                None => {
                    proof {
                        assert(out@.map_values(|l: Location| location_view(l)) =~= Seq::<(Seq<char>, Range)>::empty());
                    }
                },
            }
        },
    }
    out
}

// ── Semantic tokens ──────────────────────────────────────────

/// A decoded semantic token: absolute line and start character.
#[derive(Clone, Copy, Debug, PartialEq, Eq, Structural)]
pub struct SemanticTokenEntry {
    pub line: u32,
    pub start_char: u32,
    pub length: u32,
    pub token_type_idx: u32,
}

/// `a + b`, saturated into `u32`.
pub open spec fn sat_add(a: u32, b: u32) -> u32 {
    if a + b > u32::MAX {
        u32::MAX
    } else {
        (a + b) as u32
    }
}

/// The values of a token data array, each read as a `u32` (a value that
/// is not a number reads as 0).
pub open spec fn data_word(v: JsonValue) -> u32 {
    match jnum(Some(v)) {
        Some(n) => sat_u32(n),
        None => 0,
    }
}

/// The first `n` tokens of the data, each five words: line delta, start
/// delta (from the previous token's start on the same line, else from
/// column 0), length, token type, modifiers; with the line and start of
/// the last one.
pub open spec fn decode_tokens(words: Seq<u32>, n: nat) -> (Seq<SemanticTokenEntry>, u32, u32)
    decreases n,
{
    if n == 0 {
        (Seq::empty(), 0, 0)
    } else {
        let (toks, line, start) = decode_tokens(words, (n - 1) as nat);
        let b = 5 * (n - 1);
        let dl = words[b];
        let ds = words[b + 1];
        let nl = sat_add(line, dl);
        let ns = if dl == 0 {
            sat_add(start, ds)
        } else {
            ds
        };
        (
            toks.push(
                SemanticTokenEntry { line: nl, start_char: ns, length: words[b + 2], token_type_idx: words[b + 3] },
            ),
            nl,
            ns,
        )
    }
}

/// The tokens of a `semanticTokens` result's `data`; a trailing group of
/// fewer than five values is ignored.
pub open spec fn spec_semantic_tokens(data: JsonValue) -> Seq<SemanticTokenEntry> {
    match data {
        JsonValue::Array(a) => decode_tokens(a@.map_values(|v: JsonValue| data_word(v)), a@.len() / 5).0,
        _ => Seq::empty(),
    }
}

fn data_word_exec(v: &JsonValue) -> (r: u32)
    ensures
        r == data_word(*v),
{
    match value_int(v) {
        Some(n) => {
            proof {
                lemma_sat_clamp(jnum(Some(*v)).unwrap());
            }
            to_u32(n)
        },
        None => 0,
    }
}

fn sat_add_exec(a: u32, b: u32) -> (r: u32)
    ensures
        r == sat_add(a, b),
{
    if a > u32::MAX - b {
        u32::MAX
    } else {
        a + b
    }
}

/// Decodes the delta-encoded token data of a semantic tokens result.
pub fn parse_semantic_tokens(data: &JsonValue) -> (r: Vec<SemanticTokenEntry>)
    ensures
        r@ == spec_semantic_tokens(*data),
{
    let mut out: Vec<SemanticTokenEntry> = Vec::new();
    let arr = match data {
        JsonValue::Array(a) => a,
        _ => {
            return out;
        },
    };
    let ghost words = arr@.map_values(|v: JsonValue| data_word(v));
    let mut line: u32 = 0;
    let mut start: u32 = 0;
    let mut k: usize = 0;
    let n = arr.len();
    let groups = n / 5;
    while k < groups
        invariant
            n == arr@.len(),
            groups == n / 5,
            k <= groups,
            words == arr@.map_values(|v: JsonValue| data_word(v)),
            (out@, line, start) == decode_tokens(words, k as nat),
        decreases groups - k,
    {
        proof {
            assert(k * 5 + 4 < n) by (nonlinear_arith)
                requires
                    k < groups,
                    groups == n / 5,
            ;
        }
        let b = k * 5;
        let dl = data_word_exec(&arr[b]);
        let ds = data_word_exec(&arr[b + 1]);
        let len = data_word_exec(&arr[b + 2]);
        let ty = data_word_exec(&arr[b + 3]);
        let nl = sat_add_exec(line, dl);
        let ns = if dl == 0 {
            sat_add_exec(start, ds)
        } else {
            ds
        };
        out.push(SemanticTokenEntry { line: nl, start_char: ns, length: len, token_type_idx: ty });
        line = nl;
        start = ns;
        proof {
            assert(5 * k == b);
            assert(words[b as int] == dl && words[b + 1] == ds && words[b + 2] == len && words[b + 3] == ty);
        }
        k = k + 1;
    }
    out
}

} // verus!
