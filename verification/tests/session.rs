use zedit::paths::state_dir_from;
use zedit::session::{fnv1a, parse_session, session_path, session_to_json, BufferSession, Session};
use zedit::syntax::json_parser::JsonValue;

#[test]
fn test_fnv1a() {
    let h1 = fnv1a(b"/home/user/project");
    let h2 = fnv1a(b"/home/user/other");
    assert_ne!(h1, h2);
    assert_eq!(h1, fnv1a(b"/home/user/project"));
}

#[test]
fn test_session_path_deterministic() {
    let state = state_dir_from(None, Some("/home/user"));
    let p1 = session_path(&state, "/tmp/zedit_test_proj");
    let p2 = session_path(&state, "/tmp/zedit_test_proj");
    assert_eq!(p1, p2);
}

// ---------------------------------------------------------------------------

#[test]
fn fnv1a_known_values() {
    assert_eq!(fnv1a(b""), 0xcbf29ce484222325);
    assert_eq!(fnv1a(b"a"), 0xaf63dc4c8601ec8c);
}

#[test]
fn session_path_shape() {
    let p = session_path("/state", "/work");
    assert!(p.starts_with("/state/sessions/"));
    assert!(p.ends_with(".json"));
    let name = &p["/state/sessions/".len()..p.len() - ".json".len()];
    assert_eq!(name, format!("{:016x}", fnv1a(b"/work")));
}

#[test]
fn state_dir_choices() {
    assert_eq!(state_dir_from(Some("/x"), Some("/home/u")), "/x/zedit");
    assert_eq!(state_dir_from(None, Some("/home/u")), "/home/u/.local/state/zedit");
    assert_eq!(state_dir_from(None, None), "/tmp/zedit-state");
}

#[test]
fn session_json_reads_back() {
    let session = Session {
        version: 1,
        working_dir: "/w".to_string(),
        buffers: vec![
            BufferSession {
                file_path: Some("/w/a.rs".to_string()),
                cursor_line: 10,
                cursor_col: 5,
                scroll_row: 2,
                has_swap: false,
                untitled_index: None,
            },
            BufferSession {
                file_path: None,
                cursor_line: 0,
                cursor_col: 0,
                scroll_row: 0,
                has_swap: true,
                untitled_index: Some(3),
            },
        ],
        active_buffer: 1,
    };
    let text = session_to_json(&session);
    let val = JsonValue::parse(&text).unwrap();
    let back = parse_session(&val, "/w").unwrap();
    assert_eq!(back.version, 1);
    assert_eq!(back.working_dir, "/w");
    assert_eq!(back.active_buffer, 1);
    assert_eq!(back.buffers.len(), 2);
    assert_eq!(back.buffers[0].file_path.as_deref(), Some("/w/a.rs"));
    assert_eq!(back.buffers[0].cursor_line, 10);
    assert_eq!(back.buffers[0].cursor_col, 5);
    assert_eq!(back.buffers[0].scroll_row, 2);
    assert!(!back.buffers[0].has_swap);
    assert_eq!(back.buffers[0].untitled_index, None);
    assert_eq!(back.buffers[1].file_path, None);
    assert!(back.buffers[1].has_swap);
    assert_eq!(back.buffers[1].untitled_index, Some(3));
}

#[test]
fn session_other_versions_are_refused() {
    let val = JsonValue::parse(r#"{"version": 2, "active_buffer": 0, "buffers": []}"#).unwrap();
    assert!(parse_session(&val, "/w").is_none());
    let val = JsonValue::parse(r#"{"version": 1, "buffers": []}"#).unwrap();
    assert!(parse_session(&val, "/w").is_none());
    let val = JsonValue::parse(r#"{"version": 1, "active_buffer": -4, "buffers": [{}]}"#).unwrap();
    let s = parse_session(&val, "/w").unwrap();
    assert_eq!(s.active_buffer, 0);
    assert_eq!(s.buffers[0].cursor_line, 0);
}
