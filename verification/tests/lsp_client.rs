use zedit::lsp::client::{LspClient, PendingKind, PendingRequest};
use zedit::lsp::protocol::{
    completion_request, did_change_notification, did_open_notification, exit_notification,
    initialize_request, parse_completion_result, parse_definition_result, parse_diagnostics,
    parse_hover_result, parse_initialize_result, shutdown_request, DiagnosticSeverity,
};
use zedit::lsp::transport::LspTransport;
use zedit::syntax::json_parser::JsonValue;

/// Reads a number value as a float, as the editor's float accessor does.
trait AsF64 {
    fn as_f64(&self) -> Option<f64>;
}

impl AsF64 for JsonValue {
    fn as_f64(&self) -> Option<f64> {
        match self {
            JsonValue::Number(t) => t.parse::<f64>().ok(),
            _ => None,
        }
    }
}



#[test]
fn test_initialize_request_structure() {
    let req = initialize_request(1, "file:///project", 4242);
    assert_eq!(req.get("jsonrpc").unwrap().as_str(), Some("2.0"));
    assert_eq!(req.get("id").unwrap().as_f64(), Some(1.0));
    assert_eq!(req.get("method").unwrap().as_str(), Some("initialize"));
    let params = req.get("params").unwrap();
    assert_eq!(
        params.get("rootUri").unwrap().as_str(),
        Some("file:///project")
    );
}

#[test]
fn test_did_open_notification() {
    let msg = did_open_notification("file:///test.rs", "rust", 1, "fn main() {}");
    assert_eq!(
        msg.get("method").unwrap().as_str(),
        Some("textDocument/didOpen")
    );
    let params = msg.get("params").unwrap();
    let td = params.get("textDocument").unwrap();
    assert_eq!(td.get("uri").unwrap().as_str(), Some("file:///test.rs"));
    assert_eq!(td.get("languageId").unwrap().as_str(), Some("rust"));
    assert_eq!(td.get("version").unwrap().as_f64(), Some(1.0));
    assert_eq!(td.get("text").unwrap().as_str(), Some("fn main() {}"));
}

#[test]
fn test_did_change_notification() {
    let msg = did_change_notification("file:///test.rs", 2, "fn main() { println!(); }");
    let params = msg.get("params").unwrap();
    let changes = params.get("contentChanges").unwrap().as_array().unwrap();
    assert_eq!(changes.len(), 1);
    assert_eq!(
        changes[0].get("text").unwrap().as_str(),
        Some("fn main() { println!(); }")
    );
}

#[test]
fn test_parse_diagnostics() {
    let json = r#"{
        "uri": "file:///test.rs",
        "diagnostics": [
            {
                "range": {
                    "start": {"line": 5, "character": 10},
                    "end": {"line": 5, "character": 15}
                },
                "severity": 1,
                "message": "expected type `i32`",
                "source": "rust-analyzer"
            },
            {
                "range": {
                    "start": {"line": 10, "character": 0},
                    "end": {"line": 10, "character": 5}
                },
                "severity": 2,
                "message": "unused variable"
            }
        ]
    }"#;
    let val = JsonValue::parse(json).unwrap();
    let (uri, diags) = parse_diagnostics(&val).unwrap();
    assert_eq!(uri, "file:///test.rs");
    assert_eq!(diags.len(), 2);
    assert_eq!(diags[0].severity, DiagnosticSeverity::Error);
    assert_eq!(diags[0].message, "expected type `i32`");
    assert_eq!(diags[0].range.start.line, 5);
    assert_eq!(diags[0].range.start.character, 10);
    assert_eq!(diags[0].source.as_deref(), Some("rust-analyzer"));
    assert_eq!(diags[1].severity, DiagnosticSeverity::Warning);
    assert_eq!(diags[1].source, None);
}

#[test]
fn test_parse_initialize_result() {
    let json = r#"{"capabilities": {"textDocumentSync": 1}}"#;
    let val = JsonValue::parse(json).unwrap();
    let caps = parse_initialize_result(&val);
    assert_eq!(caps.text_document_sync, 1);
}

#[test]
fn test_parse_initialize_result_object_sync() {
    let json = r#"{"capabilities": {"textDocumentSync": {"openClose": true, "change": 2}}}"#;
    let val = JsonValue::parse(json).unwrap();
    let caps = parse_initialize_result(&val);
    assert_eq!(caps.text_document_sync, 2);
}

#[test]
fn test_shutdown_and_exit() {
    let shutdown = shutdown_request(42);
    assert_eq!(shutdown.get("id").unwrap().as_f64(), Some(42.0));
    assert_eq!(shutdown.get("method").unwrap().as_str(), Some("shutdown"));

    let exit = exit_notification();
    assert_eq!(exit.get("method").unwrap().as_str(), Some("exit"));
}

#[test]
fn test_completion_request_structure() {
    let req = completion_request(5, "file:///test.rs", 10, 4);
    assert_eq!(
        req.get("method").unwrap().as_str(),
        Some("textDocument/completion")
    );
    assert_eq!(req.get("id").unwrap().as_f64(), Some(5.0));
    let params = req.get("params").unwrap();
    assert_eq!(
        params
            .get("textDocument")
            .unwrap()
            .get("uri")
            .unwrap()
            .as_str(),
        Some("file:///test.rs")
    );
    assert_eq!(
        params
            .get("position")
            .unwrap()
            .get("line")
            .unwrap()
            .as_f64(),
        Some(10.0)
    );
    assert_eq!(
        params
            .get("position")
            .unwrap()
            .get("character")
            .unwrap()
            .as_f64(),
        Some(4.0)
    );
}

#[test]
fn test_parse_completion_result_array() {
    let json = r#"[
        {"label": "println", "kind": 3, "insertText": "println!(${1:})"},
        {"label": "print", "kind": 3}
    ]"#;
    let val = JsonValue::parse(json).unwrap();
    let items = parse_completion_result(&val);
    assert_eq!(items.len(), 2);
    assert_eq!(items[0].label, "println");
    assert_eq!(items[0].kind, Some(3));
    assert_eq!(items[0].insert_text.as_deref(), Some("println!(${1:})"));
    assert_eq!(items[1].label, "print");
    assert_eq!(items[1].insert_text, None);
}

#[test]
fn test_parse_completion_result_list() {
    let json = r#"{"isIncomplete": false, "items": [{"label": "foo", "kind": 6}]}"#;
    let val = JsonValue::parse(json).unwrap();
    let items = parse_completion_result(&val);
    assert_eq!(items.len(), 1);
    assert_eq!(items[0].label, "foo");
}

#[test]
fn test_parse_hover_markup_content() {
    let json = r#"{"contents": {"kind": "markdown", "value": "type `HashMap<K, V>`"}}"#;
    let val = JsonValue::parse(json).unwrap();
    let text = parse_hover_result(&val);
    assert_eq!(text.as_deref(), Some("type `HashMap<K, V>`"));
}

#[test]
fn test_parse_hover_string() {
    let json = r#"{"contents": "fn foo() -> i32"}"#;
    let val = JsonValue::parse(json).unwrap();
    let text = parse_hover_result(&val);
    assert_eq!(text.as_deref(), Some("fn foo() -> i32"));
}

#[test]
fn test_parse_definition_location() {
    let json = r#"{"uri": "file:///src/lib.rs", "range": {"start": {"line": 5, "character": 0}, "end": {"line": 5, "character": 10}}}"#;
    let val = JsonValue::parse(json).unwrap();
    let locs = parse_definition_result(&val);
    assert_eq!(locs.len(), 1);
    assert_eq!(locs[0].uri, "file:///src/lib.rs");
    assert_eq!(locs[0].range.start.line, 5);
}

#[test]
fn test_parse_definition_array() {
    let json = r#"[
        {"uri": "file:///a.rs", "range": {"start": {"line": 1, "character": 0}, "end": {"line": 1, "character": 5}}},
        {"uri": "file:///b.rs", "range": {"start": {"line": 2, "character": 0}, "end": {"line": 2, "character": 5}}}
    ]"#;
    let val = JsonValue::parse(json).unwrap();
    let locs = parse_definition_result(&val);
    assert_eq!(locs.len(), 2);
    assert_eq!(locs[0].uri, "file:///a.rs");
    assert_eq!(locs[1].uri, "file:///b.rs");
}

#[test]
fn test_parse_definition_location_link() {
    let json = r#"[{"targetUri": "file:///main.rs", "targetRange": {"start": {"line": 3, "character": 0}, "end": {"line": 3, "character": 4}}, "targetSelectionRange": {"start": {"line": 3, "character": 0}, "end": {"line": 3, "character": 4}}}]"#;
    let val = JsonValue::parse(json).unwrap();
    let locs = parse_definition_result(&val);
    assert_eq!(locs.len(), 1);
    assert_eq!(locs[0].uri, "file:///main.rs");
    assert_eq!(locs[0].range.start.line, 3);
}



/// Build a minimal LspClient backed by a dead, inert transport.
/// The transport will never send or receive real bytes; we drive the
/// client state machine by calling handle_message() directly.
fn make_client() -> LspClient {
    LspClient {
        transport: LspTransport::new_dead(),
        next_id: 1,
        initialized: false,
        root_uri: "file:///project".into(),
        language_id: "zenith".into(),
        doc_versions: Vec::new(),
        diagnostics: Vec::new(),
        pending: Vec::new(),
        shutting_down: false,
        completion_result: None,
        hover_result: None,
        definition_result: None,
        semantic_legend: Vec::new(),
        semantic_tokens_result: Vec::new(),
        newly_initialized: false,
    }
}

/// Wrap a JSON string in LSP Content-Length framing.
fn frame(json: &str) -> Vec<u8> {
    format!("Content-Length: {}\r\n\r\n{}", json.len(), json).into_bytes()
}

// -----------------------------------------------------------------------
// Initialize flow
// -----------------------------------------------------------------------

#[test]
fn test_initialize_response_sets_initialized() {
    let mut client = make_client();
    // Register a pending Initialize request with id=1
    client.pending.push((
        1,
        PendingRequest {
            kind: PendingKind::Initialize,
        },
    ));

    let resp = JsonValue::parse(
        r#"{"jsonrpc":"2.0","id":1,"result":{"capabilities":{"textDocumentSync":1}}}"#,
    )
    .unwrap();
    client.handle_message(&resp);

    assert!(client.initialized, "should be initialized after response");
    assert!(
        client.newly_initialized,
        "newly_initialized flag must be set"
    );
    assert!(
        client.semantic_legend.is_empty(),
        "no legend in this response"
    );
}

#[test]
fn test_initialize_response_stores_legend() {
    let mut client = make_client();
    client.pending.push((
        1,
        PendingRequest {
            kind: PendingKind::Initialize,
        },
    ));

    let resp = JsonValue::parse(
        r#"{
            "jsonrpc":"2.0","id":1,
            "result":{
                "capabilities":{
                    "textDocumentSync":1,
                    "semanticTokensProvider":{
                        "legend":{
                            "tokenTypes":["keyword","type","variable","function","directive"],
                            "tokenModifiers":[]
                        },
                        "full":true
                    }
                }
            }
        }"#,
    )
    .unwrap();
    client.handle_message(&resp);

    assert!(client.initialized);
    assert!(client.newly_initialized);
    assert_eq!(
        client.semantic_legend,
        vec!["keyword", "type", "variable", "function", "directive"]
    );
}

#[test]
fn test_take_newly_initialized_clears_flag() {
    let mut client = make_client();
    client.newly_initialized = true;

    assert!(
        client.take_newly_initialized(),
        "should return true first call"
    );
    assert!(
        !client.take_newly_initialized(),
        "should return false on second call"
    );
}

// -----------------------------------------------------------------------
// Semantic tokens response
// -----------------------------------------------------------------------

#[test]
fn test_semantic_tokens_response_stored() {
    let mut client = make_client();
    // Pre-condition: client is initialized and has a legend
    client.initialized = true;
    client.semantic_legend = vec!["keyword".into(), "variable".into()];
    client.pending.push((
        2,
        PendingRequest {
            kind: PendingKind::SemanticTokens("file:///test.zl".into()),
        },
    ));

    // delta-encoded: line=0 char=0 len=2 type=0 (keyword), line=0 char=3 len=5 type=1 (variable)
    let resp = JsonValue::parse(
        r#"{"jsonrpc":"2.0","id":2,"result":{"data":[0,0,2,0,0, 0,3,5,1,0]}}"#,
    )
    .unwrap();
    client.handle_message(&resp);

    assert!(
        !client.semantic_tokens_result.is_empty(),
        "semantic_tokens_result should be set"
    );
    let (uri, tokens) = client.semantic_tokens_result.remove(0);
    assert_eq!(uri, "file:///test.zl");
    assert_eq!(tokens.len(), 2);

    // First token: keyword at line=0, char=0, len=2
    assert_eq!(tokens[0].line, 0);
    assert_eq!(tokens[0].start_char, 0);
    assert_eq!(tokens[0].length, 2);
    assert_eq!(tokens[0].token_type_idx, 0);

    // Second token: variable at line=0, char=3, len=5
    assert_eq!(tokens[1].line, 0);
    assert_eq!(tokens[1].start_char, 3);
    assert_eq!(tokens[1].length, 5);
    assert_eq!(tokens[1].token_type_idx, 1);
}

#[test]
fn test_semantic_tokens_response_multiline() {
    let mut client = make_client();
    client.initialized = true;
    client.semantic_legend = vec!["keyword".into()];
    client.pending.push((
        3,
        PendingRequest {
            kind: PendingKind::SemanticTokens("file:///multi.zl".into()),
        },
    ));

    // Three tokens spanning two lines:
    // Line 0, char 0, len 2, type 0
    // Line 0, char 3, len 5, type 0 (delta_line=0, delta_char=3)
    // Line 2, char 1, len 3, type 0 (delta_line=2, char=1 absolute)
    let resp = JsonValue::parse(
        r#"{"jsonrpc":"2.0","id":3,"result":{"data":[0,0,2,0,0, 0,3,5,0,0, 2,1,3,0,0]}}"#,
    )
    .unwrap();
    client.handle_message(&resp);

    let (_, tokens) = client.semantic_tokens_result.remove(0);
    assert_eq!(tokens.len(), 3);
    assert_eq!(tokens[0].line, 0);
    assert_eq!(tokens[0].start_char, 0);
    assert_eq!(tokens[1].line, 0);
    assert_eq!(tokens[1].start_char, 3);
    assert_eq!(tokens[2].line, 2);
    assert_eq!(tokens[2].start_char, 1);
}

#[test]
fn test_semantic_tokens_not_stored_when_not_pending() {
    let mut client = make_client();
    // No pending SemanticTokens request
    let resp =
        JsonValue::parse(r#"{"jsonrpc":"2.0","id":99,"result":{"data":[0,0,2,0,0]}}"#).unwrap();
    client.handle_message(&resp);
    assert!(
        client.semantic_tokens_result.is_empty(),
        "should not store tokens for unknown id"
    );
}

// -----------------------------------------------------------------------
// Request guards (no send when not initialized)
// -----------------------------------------------------------------------

#[test]
fn test_request_semantic_tokens_skipped_when_not_initialized() {
    let mut client = make_client();
    // Not initialized → request is a no-op (no pending entry added)
    client.request_semantic_tokens("file:///test.zl");
    assert!(client.pending.is_empty());
}

#[test]
fn test_request_semantic_tokens_skipped_when_legend_empty() {
    let mut client = make_client();
    client.initialized = true;
    // Legend empty → server doesn't support semantic tokens → skip
    client.request_semantic_tokens("file:///test.zl");
    assert!(client.pending.is_empty());
}

#[test]
fn test_request_semantic_tokens_adds_pending_when_ready() {
    let mut client = make_client();
    client.initialized = true;
    client.semantic_legend = vec!["keyword".into()];
    // Transport is dead so send fails, but the pending entry is added before send
    client.request_semantic_tokens("file:///test.zl");
    // The pending entry should have been pushed before the (ignored) send error
    // Note: because transport is dead, send returns Err but it's ignored with `let _ =`
    // So pending IS added.
    assert_eq!(client.pending.len(), 1);
    if let PendingKind::SemanticTokens(ref uri) = client.pending[0].1.kind {
        assert_eq!(uri, "file:///test.zl");
    } else {
        panic!("expected PendingKind::SemanticTokens");
    }
}

// -----------------------------------------------------------------------
// Diagnostics notification
// -----------------------------------------------------------------------

#[test]
fn test_diagnostics_notification_stored() {
    let mut client = make_client();
    let notif = JsonValue::parse(
        r#"{
        "jsonrpc":"2.0",
        "method":"textDocument/publishDiagnostics",
        "params":{
            "uri":"file:///test.zl",
            "diagnostics":[{
                "range":{"start":{"line":3,"character":0},"end":{"line":3,"character":5}},
                "severity":1,
                "message":"undeclared variable"
            }]
        }
    }"#,
    )
    .unwrap();
    client.handle_message(&notif);

    let diags = client.diagnostics_for("file:///test.zl");
    assert_eq!(diags.len(), 1);
    assert_eq!(diags[0].message, "undeclared variable");
    assert_eq!(diags[0].range.start.line, 3);
}

// -----------------------------------------------------------------------
// Full flow: initialize → semantic tokens → result
// -----------------------------------------------------------------------

#[test]
fn test_full_flow_init_then_semantic_tokens() {
    let mut client = make_client();

    // Step 1: Register initialize pending and process response
    client.pending.push((
        1,
        PendingRequest {
            kind: PendingKind::Initialize,
        },
    ));
    let init_resp = JsonValue::parse(
        r#"{
        "jsonrpc":"2.0","id":1,
        "result":{
            "capabilities":{
                "textDocumentSync":1,
                "semanticTokensProvider":{
                    "legend":{
                        "tokenTypes":["keyword","type","variable","directive"],
                        "tokenModifiers":[]
                    },
                    "full":true
                }
            }
        }
    }"#,
    )
    .unwrap();
    client.handle_message(&init_resp);

    // Verify initialization
    assert!(client.initialized);
    assert!(client.newly_initialized);
    assert_eq!(client.semantic_legend.len(), 4);
    assert_eq!(client.semantic_legend[3], "directive");

    // Consume the flag (simulating what drain_lsp_messages does)
    assert!(client.take_newly_initialized());
    assert!(!client.newly_initialized);

    // Step 2: Register and process semantic tokens response
    client.pending.push((
        2,
        PendingRequest {
            kind: PendingKind::SemanticTokens("file:///hello.zl".into()),
        },
    ));
    // Tokens: .:ES:. is directive (idx=3), SI is keyword (idx=0)
    // Line 0: char=0 len=6 type=3(directive); char=7 len=2 type=0(keyword)
    let tok_resp = JsonValue::parse(
        r#"{"jsonrpc":"2.0","id":2,"result":{"data":[0,0,6,3,0, 0,7,2,0,0]}}"#,
    )
    .unwrap();
    client.handle_message(&tok_resp);

    assert!(!client.semantic_tokens_result.is_empty());
    let (uri, tokens) = client.semantic_tokens_result.remove(0);
    assert_eq!(uri, "file:///hello.zl");
    assert_eq!(tokens.len(), 2);

    // .:ES:. → directive
    assert_eq!(tokens[0].start_char, 0);
    assert_eq!(tokens[0].length, 6);
    assert_eq!(tokens[0].token_type_idx, 3); // directive

    // SI → keyword
    assert_eq!(tokens[1].start_char, 7);
    assert_eq!(tokens[1].length, 2);
    assert_eq!(tokens[1].token_type_idx, 0); // keyword
}

// -----------------------------------------------------------------------
// Transport read_buf integration via drain_messages()
// -----------------------------------------------------------------------

#[test]
fn test_drain_messages_processes_framed_initialize_response() {
    // Build a client whose transport has a pre-loaded incoming message in its
    // read_buf. read(stdout_fd=-1) fails immediately, so try_recv falls through
    // to try_parse_message which consumes the pre-loaded bytes.
    let init_resp = r#"{"jsonrpc":"2.0","id":1,"result":{"capabilities":{"textDocumentSync":1,"semanticTokensProvider":{"legend":{"tokenTypes":["keyword","variable"],"tokenModifiers":[]},"full":true}}}}"#;

    let mut client = LspClient {
        transport: LspTransport::new_with_incoming(frame(init_resp)),
        next_id: 2,
        initialized: false,
        root_uri: "file:///project".into(),
        language_id: "zenith".into(),
        doc_versions: Vec::new(),
        diagnostics: Vec::new(),
        pending: vec![(
            1,
            PendingRequest {
                kind: PendingKind::Initialize,
            },
        )],
        shutting_down: false,
        completion_result: None,
        hover_result: None,
        definition_result: None,
        semantic_legend: Vec::new(),
        semantic_tokens_result: Vec::new(),
        newly_initialized: false,
    };

    // drain_messages reads from the fake buffer, processes the initialize response
    client.drain_messages();

    assert!(client.initialized, "should be initialized after drain");
    assert!(client.newly_initialized, "should set newly_initialized");
    assert_eq!(
        client.semantic_legend,
        vec!["keyword", "variable"],
        "legend should be extracted"
    );
}

#[test]
fn test_drain_messages_processes_semantic_tokens_response() {
    // Two framed messages in sequence: initialize response + semantic tokens response
    let init_resp = r#"{"jsonrpc":"2.0","id":1,"result":{"capabilities":{"textDocumentSync":1,"semanticTokensProvider":{"legend":{"tokenTypes":["keyword","variable","directive"],"tokenModifiers":[]},"full":true}}}}"#;
    let tok_resp = r#"{"jsonrpc":"2.0","id":2,"result":{"data":[0,0,3,0,0,0,4,5,1,0]}}"#;

    let mut combined = frame(init_resp);
    combined.extend(frame(tok_resp));

    let mut client = LspClient {
        transport: LspTransport::new_with_incoming(combined),
        next_id: 3,
        initialized: false,
        root_uri: "file:///project".into(),
        language_id: "zenith".into(),
        doc_versions: Vec::new(),
        diagnostics: Vec::new(),
        pending: vec![
            (
                1,
                PendingRequest {
                    kind: PendingKind::Initialize,
                },
            ),
            (
                2,
                PendingRequest {
                    kind: PendingKind::SemanticTokens("file:///prog.zl".into()),
                },
            ),
        ],
        shutting_down: false,
        completion_result: None,
        hover_result: None,
        definition_result: None,
        semantic_legend: Vec::new(),
        semantic_tokens_result: Vec::new(),
        newly_initialized: false,
    };

    client.drain_messages();

    // After draining both messages:
    assert!(client.initialized);
    assert!(client.newly_initialized);
    assert_eq!(client.semantic_legend.len(), 3);

    assert!(
        !client.semantic_tokens_result.is_empty(),
        "semantic tokens should be stored"
    );
    let (uri, tokens) = client.semantic_tokens_result.remove(0);
    assert_eq!(uri, "file:///prog.zl");
    assert_eq!(tokens.len(), 2);
    // First: line=0 char=0 len=3 type=0 (keyword)
    assert_eq!(tokens[0].line, 0);
    assert_eq!(tokens[0].start_char, 0);
    assert_eq!(tokens[0].length, 3);
    assert_eq!(tokens[0].token_type_idx, 0);
    // Second: line=0 char=4 len=5 type=1 (variable)
    assert_eq!(tokens[1].line, 0);
    assert_eq!(tokens[1].start_char, 4);
    assert_eq!(tokens[1].length, 5);
    assert_eq!(tokens[1].token_type_idx, 1);
}

