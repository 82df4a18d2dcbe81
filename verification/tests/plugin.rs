use zedit::plugin::api::{
    build_command_notification, build_event_notification, build_response, parse_plugin_message,
    EventKind, PluginManifest,
};
use zedit::plugin::{Plugin, PluginManager, PluginRequest};
use zedit::syntax::json_parser::JsonValue;

#[test]
fn test_event_kind_round_trip() {
    for kind in &[
        EventKind::BufferOpen,
        EventKind::BufferSave,
        EventKind::BufferClose,
        EventKind::CursorMove,
        EventKind::TextChange,
    ] {
        let s = kind.as_str();
        assert_eq!(EventKind::from_str(s).as_ref(), Some(kind));
    }
}

#[test]
fn test_event_kind_unknown() {
    assert!(EventKind::from_str("unknown_event").is_none());
}

#[test]
fn test_manifest_from_json() {
    let json_str =
        r#"{"name":"myplugin","version":"1.0.0","description":"A plugin","main":"main.mlx"}"#;
    let json = JsonValue::parse(json_str).unwrap();
    let manifest = PluginManifest::from_json(&json).unwrap();
    assert_eq!(manifest.name, "myplugin");
    assert_eq!(manifest.version, "1.0.0");
    assert_eq!(manifest.description, "A plugin");
    assert_eq!(manifest.main, "main.mlx");
}

#[test]
fn test_manifest_from_json_minimal() {
    // version and description are optional
    let json_str = r#"{"name":"tiny","main":"run.mlx"}"#;
    let json = JsonValue::parse(json_str).unwrap();
    let manifest = PluginManifest::from_json(&json).unwrap();
    assert_eq!(manifest.name, "tiny");
    assert_eq!(manifest.version, "0.1.0");
    assert_eq!(manifest.description, "");
}

#[test]
fn test_manifest_from_json_missing_name() {
    let json_str = r#"{"main":"run.mlx"}"#;
    let json = JsonValue::parse(json_str).unwrap();
    assert!(PluginManifest::from_json(&json).is_none());
}

#[test]
fn test_build_event_notification() {
    let kind = EventKind::BufferSave;
    let data = JsonValue::Object(vec![(
        "path".to_string(),
        JsonValue::String("/a/b.rs".to_string()),
    )]);
    let msg = build_event_notification(&kind, &data);
    assert_eq!(msg.get("method").and_then(|v| v.as_str()), Some("event"));
    let params = msg.get("params").unwrap();
    assert_eq!(
        params.get("kind").and_then(|v| v.as_str()),
        Some("buffer_save")
    );
}

#[test]
fn test_build_command_notification() {
    let msg = build_command_notification("myplugin.format");
    assert_eq!(
        msg.get("method").and_then(|v| v.as_str()),
        Some("command_invoked")
    );
    let params = msg.get("params").unwrap();
    assert_eq!(
        params.get("command_id").and_then(|v| v.as_str()),
        Some("myplugin.format")
    );
}

#[test]
fn test_parse_plugin_message_with_id() {
    let json_str =
        r#"{"id":1,"method":"RegisterCommand","params":{"id":"p.cmd","label":"My Cmd"}}"#;
    let json = JsonValue::parse(json_str).unwrap();
    let (id, method, params) = parse_plugin_message(&json).unwrap();
    assert!(id.is_some());
    assert_eq!(method, "RegisterCommand");
    assert_eq!(params.get("id").and_then(|v| v.as_str()), Some("p.cmd"));
}

#[test]
fn test_parse_plugin_message_notification() {
    let json_str = r#"{"method":"SubscribeEvent","params":{"event":"buffer_save"}}"#;
    let json = JsonValue::parse(json_str).unwrap();
    let (id, method, _params) = parse_plugin_message(&json).unwrap();
    assert!(id.is_none());
    assert_eq!(method, "SubscribeEvent");
}

#[test]
fn test_plugin_manager_new() {
    let mgr = PluginManager::new();
    assert!(mgr.plugins.is_empty());
    assert!(mgr.discovered.is_empty());
}

#[test]
fn test_all_commands_empty() {
    let mgr = PluginManager::new();
    assert!(mgr.all_commands().is_empty());
}

#[test]
fn test_drain_and_collect_empty() {
    let mut mgr = PluginManager::new();
    let requests = mgr.drain_and_collect(&[]);
    assert!(requests.is_empty());
}

fn manifest(name: &str) -> PluginManifest {
    PluginManifest {
        name: name.to_string(),
        version: "0.1.0".to_string(),
        description: String::new(),
        main: "main.mlx".to_string(),
    }
}

fn msg(s: &str) -> JsonValue {
    JsonValue::parse(s).unwrap()
}

#[test]
fn drain_registers_commands_once_and_surfaces_requests() {
    let mut mgr = PluginManager::new();
    mgr.plugins.push(Plugin::new(&manifest("fmt")));
    mgr.plugins.push(Plugin::new(&manifest("lint")));
    let inbox = vec![
        vec![
            msg(r#"{"method":"RegisterCommand","params":{"id":"fmt.run"}}"#),
            msg(r#"{"method":"RegisterCommand","params":{"id":"fmt.run","label":"Again"}}"#),
            msg(r#"{"method":"RegisterCommand","params":{"label":"no id"}}"#),
            msg(r#"{"method":"Unknown"}"#),
            msg(r#"{"params":{}}"#),
        ],
        vec![
            msg(r#"{"method":"SubscribeEvent","params":{"event":"buffer_save"}}"#),
            msg(r#"{"method":"SubscribeEvent","params":{"event":"buffer_save"}}"#),
            msg(r#"{"method":"SubscribeEvent","params":{"event":"nope"}}"#),
            msg(r#"{"id":7,"method":"GetBufferText"}"#),
            msg(r#"{"method":"ShowMessage","params":{"text":"hi"}}"#),
            msg(r#"{"method":"InsertText"}"#),
            msg(r#"{"method":"GetFilePath"}"#),
        ],
    ];
    let reqs = mgr.drain_and_collect(&inbox);
    assert_eq!(reqs.len(), 8);
    match &reqs[0] {
        PluginRequest::RegisterCommand { plugin_name, id, label, keybinding } => {
            assert_eq!(plugin_name, "fmt");
            assert_eq!(id, "fmt.run");
            assert_eq!(label, "fmt.run");
            assert!(keybinding.is_none());
        }
        _ => panic!("expected RegisterCommand"),
    }
    match &reqs[1] {
        PluginRequest::RegisterCommand { label, .. } => assert_eq!(label, "Again"),
        _ => panic!("expected RegisterCommand"),
    }
    assert_eq!(mgr.plugins[0].commands.len(), 1);
    assert_eq!(mgr.plugins[0].commands[0].label, "fmt.run");
    assert_eq!(mgr.plugins[1].subscriptions, vec![EventKind::BufferSave]);
    assert!(matches!(&reqs[2], PluginRequest::SubscribeEvent { kind: EventKind::BufferSave, .. }));
    assert!(matches!(&reqs[3], PluginRequest::SubscribeEvent { .. }));
    match &reqs[4] {
        PluginRequest::GetBufferText { plugin_name, request_id } => {
            assert_eq!(plugin_name, "lint");
            assert!(matches!(request_id, JsonValue::Number(n) if n == "7"));
        }
        _ => panic!("expected GetBufferText"),
    }
    match &reqs[5] {
        PluginRequest::ShowMessage { text, kind, .. } => {
            assert_eq!(text, "hi");
            assert_eq!(kind, "info");
        }
        _ => panic!("expected ShowMessage"),
    }
    match &reqs[6] {
        PluginRequest::InsertText { text, .. } => assert_eq!(text, ""),
        _ => panic!("expected InsertText"),
    }
    match &reqs[7] {
        PluginRequest::GetFilePath { request_id, .. } => assert!(matches!(request_id, JsonValue::Null)),
        _ => panic!("expected GetFilePath"),
    }
    assert_eq!(mgr.command_owner("fmt.run"), Some(0));
    assert_eq!(mgr.command_owner("other"), None);
    assert_eq!(mgr.subscribers(&EventKind::BufferSave), vec![1]);
    assert_eq!(mgr.plugin_index("lint"), Some(1));
    let cmds = mgr.all_commands();
    assert_eq!(cmds.len(), 1);
    assert_eq!(cmds[0].0, "fmt");
    assert_eq!(cmds[0].1.id, "fmt.run");
    mgr.retain_alive(&[false, true]);
    assert_eq!(mgr.plugins.len(), 1);
    assert_eq!(mgr.plugins[0].name, "lint");
}

#[test]
fn build_response_wraps_id_and_result() {
    let r = build_response(&JsonValue::Number("3".to_string()), JsonValue::Bool(true));
    assert!(matches!(r.get("id").unwrap(), JsonValue::Number(n) if n == "3"));
    assert_eq!(r.get("result").unwrap().as_bool(), Some(true));
    assert_eq!(r.as_object().unwrap().len(), 2);
}
