use zedit::problem_panel::{strip_ansi, Problem, ProblemPanel, RowKind, Severity, BUILD_GROUP_KEY};

#[test]
fn test_strip_ansi_plain() {
    assert_eq!(strip_ansi("hello world"), "hello world");
}

#[test]
fn test_strip_ansi_color() {
    assert_eq!(strip_ansi("\x1b[31merror\x1b[0m: msg"), "error: msg");
}

#[test]
fn test_strip_ansi_bold() {
    assert_eq!(strip_ansi("\x1b[1mwarning\x1b[0m"), "warning");
}

#[test]
fn test_rust_error_two_lines() {
    let mut pp = ProblemPanel::new();
    pp.feed_line("error[E0425]: cannot find value `x` in this scope");
    pp.feed_line("  --> src/main.rs:74:5");
    assert_eq!(pp.items.len(), 1);
    let p = &pp.items[0];
    assert_eq!(p.severity, Severity::Error);
    assert_eq!(p.file, "src/main.rs");
    assert_eq!(p.line, 74);
    assert_eq!(p.col, 5);
    assert_eq!(p.code.as_deref(), Some("E0425"));
    assert!(p.message.contains("cannot find"));
}

#[test]
fn test_rust_warning_two_lines() {
    let mut pp = ProblemPanel::new();
    pp.feed_line("warning[W0001]: unused variable `x`");
    pp.feed_line("  --> src/lib.rs:12:3");
    assert_eq!(pp.items.len(), 1);
    assert_eq!(pp.items[0].severity, Severity::Warning);
    assert_eq!(pp.items[0].line, 12);
}

#[test]
fn test_rust_plain_error() {
    let mut pp = ProblemPanel::new();
    pp.feed_line("error: aborting due to previous error");
    pp.feed_line("  --> src/main.rs:1:1");
    assert_eq!(pp.items.len(), 1);
    assert_eq!(pp.items[0].severity, Severity::Error);
    assert!(pp.items[0].code.is_none());
}

#[test]
fn test_rust_via_raw_feed() {
    let mut pp = ProblemPanel::new();
    pp.feed_raw("\x1b[31merror\x1b[0m[E0308]: mismatched types\n  --> src/lib.rs:8:5\n");
    assert_eq!(pp.items.len(), 1);
    assert_eq!(pp.items[0].line, 8);
}

#[test]
fn test_gcc_error() {
    let mut pp = ProblemPanel::new();
    pp.feed_line("src/main.c:42:10: error: use of undeclared identifier 'foo'");
    assert_eq!(pp.items.len(), 1);
    let p = &pp.items[0];
    assert_eq!(p.severity, Severity::Error);
    assert_eq!(p.file, "src/main.c");
    assert_eq!(p.line, 42);
    assert_eq!(p.col, 10);
    assert!(p.message.contains("undeclared"));
}

#[test]
fn test_gcc_warning() {
    let mut pp = ProblemPanel::new();
    pp.feed_line("main.c:5:3: warning: implicit declaration of function 'printf'");
    assert_eq!(pp.items.len(), 1);
    assert_eq!(pp.items[0].severity, Severity::Warning);
}

#[test]
fn test_python_syntax_error() {
    let mut pp = ProblemPanel::new();
    pp.feed_line("  File \"script.py\", line 12");
    pp.feed_line("SyntaxError: invalid syntax");
    assert_eq!(pp.items.len(), 1);
    let p = &pp.items[0];
    assert_eq!(p.file, "script.py");
    assert_eq!(p.line, 12);
    assert!(p.message.contains("SyntaxError"));
}

#[test]
fn test_navigation_up_down() {
    let mut pp = ProblemPanel::new();
    pp.feed_line("src/a.c:1:1: error: err1");
    pp.feed_line("src/b.c:2:1: error: err2");
    pp.feed_line("src/c.c:3:1: error: err3");
    assert_eq!(pp.items.len(), 3);
    assert_eq!(pp.compute_rows().len(), 7);
    assert_eq!(pp.selected, 0);
    pp.move_down();
    assert_eq!(pp.selected, 1);
    pp.move_down();
    assert_eq!(pp.selected, 2);
    for _ in 0..10 {
        pp.move_down();
    }
    assert_eq!(pp.selected, 6); // clamped at last row
    pp.move_up();
    assert_eq!(pp.selected, 5);
}

#[test]
fn test_error_warning_counts() {
    let mut pp = ProblemPanel::new();
    pp.feed_line("src/a.c:1:1: error: err");
    pp.feed_line("src/b.c:2:1: warning: warn");
    assert_eq!(pp.error_count(), 1);
    assert_eq!(pp.warning_count(), 1);
}

#[test]
fn test_clear() {
    let mut pp = ProblemPanel::new();
    pp.feed_line("src/a.c:1:1: error: err");
    pp.source_cmd = Some("cargo build".to_string());
    pp.clear();
    assert!(pp.items.is_empty());
    assert_eq!(pp.selected, 0);
}

#[test]
fn test_lsp_multifile_all_files_shown() {
    let files = vec![
        ("src/diff_view.rs", Severity::Warning, 48, "unused variable"),
        ("src/editor/minimap.rs", Severity::Warning, 81, "dead code"),
        ("src/extension.rs", Severity::Warning, 17, "unused import"),
        ("src/layout.rs", Severity::Warning, 80, "unused variable"),
        ("src/layout.rs", Severity::Warning, 100, "unused variable"),
        ("src/lsp/client.rs", Severity::Warning, 67, "unused field"),
        ("src/lsp/mod.rs", Severity::Warning, 34, "dead code"),
        ("src/plugin/mod.rs", Severity::Warning, 21, "unused variable"),
        ("src/plugin/mod.rs", Severity::Warning, 96, "dead code"),
        ("src/main.rs", Severity::Warning, 10, "unused import"),
    ];

    let problems: Vec<Problem> = files
        .iter()
        .map(|(f, sev, line, msg)| Problem {
            severity: *sev,
            file: f.to_string(),
            line: *line,
            col: 1,
            message: msg.to_string(),
            code: None,
        })
        .collect();

    let mut pp = ProblemPanel::new();
    pp.set_lsp_items(problems);

    let distinct_files = vec![
        "src/diff_view.rs",
        "src/editor/minimap.rs",
        "src/extension.rs",
        "src/layout.rs",
        "src/lsp/client.rs",
        "src/lsp/mod.rs",
        "src/plugin/mod.rs",
        "src/main.rs",
    ];
    for f in &distinct_files {
        let items = pp.lsp_items_for_file(f);
        assert!(!items.is_empty(), "lsp_items_for_file({}) should not be empty", f);
    }
    assert_eq!(pp.lsp_items.len(), 10);
    assert_eq!(pp.total_warning_count(), 10);
    assert_eq!(pp.total_error_count(), 0);
}

// ---------------------------------------------------------------------------

#[test]
fn generic_parser_needs_extension_and_message() {
    let mut pp = ProblemPanel::new();
    pp.feed_line("Makefile:3:1: missing separator");
    assert_eq!(pp.items.len(), 0);
    pp.feed_line("build.sh:3:1: bad substitution");
    assert_eq!(pp.items.len(), 1);
    assert_eq!(pp.items[0].severity, Severity::Error);
    assert_eq!(pp.items[0].message, "bad substitution");
}

#[test]
fn rust_location_without_header_is_ignored() {
    let mut pp = ProblemPanel::new();
    pp.feed_line("  --> src/main.rs:1:1");
    assert_eq!(pp.items.len(), 0);
}

#[test]
fn rust_location_file_and_line_only() {
    let mut pp = ProblemPanel::new();
    pp.feed_line("note: see here");
    pp.feed_line("  --> src/x.rs:9");
    assert_eq!(pp.items.len(), 1);
    assert_eq!(pp.items[0].severity, Severity::Note);
    assert_eq!(pp.items[0].line, 9);
    assert_eq!(pp.items[0].col, 1);
}

#[test]
fn raw_feed_keeps_partial_line() {
    let mut pp = ProblemPanel::new();
    pp.feed_raw("src/a.c:1:2: error: par");
    assert_eq!(pp.items.len(), 0);
    pp.feed_raw("tial\r\n");
    assert_eq!(pp.items.len(), 1);
    assert_eq!(pp.items[0].message, "partial");
}

#[test]
fn strip_ansi_osc_and_cr() {
    assert_eq!(strip_ansi("\x1b]0;title\x07ok\r"), "ok");
    assert_eq!(strip_ansi("a\x1b]2;t\x1b\\b"), "ab");
}

#[test]
fn rows_group_by_file_and_collapse() {
    let mut pp = ProblemPanel::new();
    pp.feed_line("src/a.c:1:1: error: e1");
    pp.feed_line("src/a.c:2:1: warning: w1");
    pp.feed_line("src/b.c:3:1: error: e2");
    let rows = pp.compute_rows();
    assert_eq!(
        rows,
        vec![
            RowKind::CargoSectionHeader,
            RowKind::CargoFileHeader("src/a.c".to_string()),
            RowKind::Item(0),
            RowKind::Item(1),
            RowKind::CargoFileHeader("src/b.c".to_string()),
            RowKind::Item(2),
        ]
    );
    assert_eq!(pp.cargo_file_counts("src/a.c"), (1, 1));
    assert_eq!(pp.build_counts(), (2, 1));
    pp.selected = 1;
    pp.toggle_selected_collapse();
    assert_eq!(pp.all_items_count(), 4);
    pp.selected = 3;
    assert_eq!(pp.get_display_row(3), Some(RowKind::Item(2)));
    assert_eq!(pp.selected_problem().unwrap().line, 3);
    pp.toggle_group(BUILD_GROUP_KEY);
    assert_eq!(pp.all_items_count(), 1);
    assert_eq!(pp.selected, 0);
    assert!(pp.selected_problem().is_none());
}

#[test]
fn scroll_follows_cursor() {
    let mut pp = ProblemPanel::new();
    pp.selected = 10;
    pp.scroll = 0;
    pp.clamp_scroll(5);
    assert_eq!(pp.scroll, 6);
    pp.selected = 2;
    pp.clamp_scroll(5);
    assert_eq!(pp.scroll, 2);
}

#[test]
fn severity_labels() {
    assert_eq!(Severity::Error.label(), "E");
    assert_eq!(Severity::Warning.label(), "W");
    assert_eq!(Severity::Info.label(), "I");
    assert_eq!(Severity::Note.label(), "N");
}

#[test]
fn strip_ansi_keeps_non_ascii() {
    assert_eq!(strip_ansi("café"), "café");
    assert_eq!(strip_ansi("\x1b[1m你好\x1b[0m ✓"), "你好 ✓");
}

#[test]
fn rows_group_each_file_once() {
    let mut pp = ProblemPanel::new();
    pp.feed_line("a.c:1:1: error: e1");
    pp.feed_line("b.c:2:1: error: e2");
    pp.feed_line("a.c:3:1: error: e3");
    let rows = pp.compute_rows();
    assert_eq!(rows.len(), 6);
    assert!(matches!(rows[0], RowKind::CargoSectionHeader));
    assert!(matches!(&rows[1], RowKind::CargoFileHeader(f) if f == "a.c"));
    assert!(matches!(rows[2], RowKind::Item(0)));
    assert!(matches!(rows[3], RowKind::Item(2)));
    assert!(matches!(&rows[4], RowKind::CargoFileHeader(f) if f == "b.c"));
    assert!(matches!(rows[5], RowKind::Item(1)));
}
