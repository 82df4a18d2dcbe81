use zedit::syntax::grammar::{Grammar, IncludeTarget, Pattern};
use zedit::syntax::regex::{Captures, Match, Regex};
use zedit::syntax::tokenizer::{
    regex_escape, resolve_end_pattern, ActiveRegion, LineState, ScopeToken, Tokenizer,
};

#[test]
fn test_line_state_equality() {
    let s1 = LineState {
        stack: vec![ActiveRegion {
            scope_name: Some("comment.block".to_string()),
            content_name: None,
            end_pattern: "\\*/".to_string(),
            region_id: None,
            begin_end_pos: 0,
            end_captures: vec![],
        }],
    };
    let s2 = LineState {
        stack: vec![ActiveRegion {
            scope_name: Some("comment.block".to_string()),
            content_name: None,
            end_pattern: "\\*/".to_string(),
            region_id: None,
            begin_end_pos: 0,
            end_captures: vec![],
        }],
    };
    let s3 = LineState {
        stack: vec![ActiveRegion {
            scope_name: Some("string.quoted".to_string()),
            content_name: None,
            end_pattern: "\"".to_string(),
            region_id: None,
            begin_end_pos: 0,
            end_captures: vec![],
        }],
    };
    assert_eq!(s1, s2);
    assert_ne!(s1, s3);
}

#[test]
fn test_end_pattern_backref_resolution() {
    let resolved = resolve_end_pattern(
        "\\1",
        &Captures {
            groups: vec![
                Some(Match { start: 0, end: 5 }),
                Some(Match { start: 2, end: 5 }),
            ],
        },
        "<<EOF",
    );
    assert_eq!(resolved, "EOF");
}

fn m(pat: &str, name: &str) -> Pattern {
    Pattern::Match {
        name: Some(name.to_string()),
        regex: Regex::new(pat).unwrap(),
        captures: vec![],
    }
}

fn region(id: usize, begin: &str, end: &str, name: &str, children: Vec<Pattern>) -> Pattern {
    Pattern::Region {
        id,
        name: Some(name.to_string()),
        content_name: None,
        begin: Regex::new(begin).unwrap(),
        end_pattern: end.to_string(),
        begin_captures: vec![],
        end_captures: vec![],
        patterns: children,
    }
}

fn grammar(patterns: Vec<Pattern>, repository: Vec<(String, Vec<Pattern>)>) -> Grammar {
    Grammar {
        name: "test".to_string(),
        scope_name: "source.test".to_string(),
        file_types: vec![],
        patterns,
        repository,
    }
}

fn has(t: &ScopeToken, scope: &str) -> bool {
    t.scopes.iter().any(|s| s == scope)
}

#[test]
fn tokenizer_single_keyword() {
    let g = grammar(vec![m(r"\b(if|else|while)\b", "keyword.control")], vec![]);
    let t = Tokenizer::new(&g);
    let (tokens, state) = t.tokenize_line("if true", &LineState::initial());
    assert!(state.stack.is_empty());
    assert_eq!((tokens[0].start, tokens[0].end), (0, 2));
    assert!(has(&tokens[0], "keyword.control"));
    assert_eq!((tokens[1].start, tokens[1].end), (2, 7));
    assert!(tokens[1].scopes.is_empty());
}

#[test]
fn tokenizer_string_region_with_escape() {
    let g = grammar(
        vec![region(0, "\"", "\"", "string.quoted.double", vec![m(r"\\.", "constant.character.escape")])],
        vec![],
    );
    let t = Tokenizer::new(&g);
    let (tokens, state) = t.tokenize_line(r#""a\nb" x"#, &LineState::initial());
    assert!(state.stack.is_empty());
    let esc = tokens.iter().find(|t| has(t, "constant.character.escape")).unwrap();
    assert_eq!((esc.start, esc.end), (2, 4));
    assert!(has(esc, "string.quoted.double"));
    let last = tokens.last().unwrap();
    assert_eq!((last.start, last.end), (6, 8));
    assert!(!has(last, "string.quoted.double"));
}

#[test]
fn tokenizer_block_comment_across_lines() {
    let g = grammar(vec![region(0, r"/\*", r"\*/", "comment.block", vec![])], vec![]);
    let t = Tokenizer::new(&g);
    let (_, s1) = t.tokenize_line("x = 1; /* start", &LineState::initial());
    assert_eq!(s1.stack.len(), 1);
    let (tokens2, s2) = t.tokenize_line("  middle  ", &s1);
    assert_eq!(s2.stack.len(), 1);
    assert_eq!(tokens2.len(), 1);
    assert!(has(&tokens2[0], "comment.block"));
    let (tokens3, s3) = t.tokenize_line("end */ y", &s2);
    assert!(s3.stack.is_empty());
    let end_tok = tokens3.iter().find(|t| t.start == 4).unwrap();
    assert_eq!(end_tok.end, 6);
    assert!(has(end_tok, "comment.block"));
    assert!(!has(tokens3.last().unwrap(), "comment.block"));
}

#[test]
fn tokenizer_include_from_repository_and_empty_line() {
    let g = grammar(
        vec![Pattern::Include(IncludeTarget::Repository("kw".to_string()))],
        vec![("kw".to_string(), vec![m(r"\blet\b", "keyword.other")])],
    );
    let t = Tokenizer::new(&g);
    let (tokens, _) = t.tokenize_line("let x = 1", &LineState::initial());
    assert!(has(&tokens[0], "keyword.other"));
    assert_eq!((tokens[0].start, tokens[0].end), (0, 3));
    let (none, state) = t.tokenize_line("", &LineState::initial());
    assert!(none.is_empty());
    assert!(state.stack.is_empty());
}

#[test]
fn tokenizer_capture_scopes_and_earliest_longest() {
    let g = grammar(
        vec![
            m("ab", "short"),
            m("abc", "long"),
            Pattern::Match {
                name: Some("call".to_string()),
                regex: Regex::new(r"(\w+)\((\w*)\)").unwrap(),
                captures: vec![(2, "arg".to_string()), (1, "fn".to_string())],
            },
        ],
        vec![],
    );
    let t = Tokenizer::new(&g);
    let (tokens, _) = t.tokenize_line("abc", &LineState::initial());
    assert!(has(&tokens[0], "long"));
    let (tokens, _) = t.tokenize_line("f(x)", &LineState::initial());
    let names: Vec<(usize, usize)> = tokens.iter().map(|t| (t.start, t.end)).collect();
    assert_eq!(names, vec![(0, 1), (1, 2), (2, 3), (3, 4)]);
    assert!(has(&tokens[0], "fn") && has(&tokens[0], "call"));
    assert!(has(&tokens[2], "arg"));
    assert!(!has(&tokens[1], "fn"));
}

#[test]
fn tokenizer_regex_escape_and_backref_end() {
    assert_eq!(regex_escape("a.b*(c)"), "a\\.b\\*\\(c\\)");
    let g = grammar(
        vec![Pattern::Region {
            id: 0,
            name: Some("string.heredoc".to_string()),
            content_name: None,
            begin: Regex::new(r"<<(\w+)").unwrap(),
            end_pattern: "\\1".to_string(),
            begin_captures: vec![(1, "keyword.delimiter".to_string())],
            end_captures: vec![],
            patterns: vec![],
        }],
        vec![],
    );
    let t = Tokenizer::new(&g);
    let (_, s1) = t.tokenize_line("x <<EOF", &LineState::initial());
    assert_eq!(s1.stack.len(), 1);
    assert_eq!(s1.stack[0].end_pattern, "EOF");
    let (_, s2) = t.tokenize_line("text EOF", &s1);
    assert!(s2.stack.is_empty());
}

fn make_grammar(json_str: &str) -> Grammar {
    let json = zedit::syntax::json_parser::JsonValue::parse(json_str).unwrap();
    Grammar::from_json(&json).unwrap()
}

#[test]
fn test_single_keyword() {
    let g = make_grammar(
        r#"{
            "scopeName": "source.test",
            "patterns": [
                {"match": "\\b(if|else|while)\\b", "name": "keyword.control"}
            ]
        }"#,
    );
    let t = Tokenizer::new(&g);
    let (tokens, state) = t.tokenize_line("if true", &LineState::initial());
    assert!(state.stack.is_empty());
    // First token should be the keyword "if"
    assert_eq!(tokens[0].start, 0);
    assert_eq!(tokens[0].end, 2);
    assert!(tokens[0].scopes.contains(&"keyword.control".to_string()));
}

#[test]
fn test_line_comment() {
    let g = make_grammar(
        r#"{
            "scopeName": "source.test",
            "patterns": [
                {"match": "//.*$", "name": "comment.line"}
            ]
        }"#,
    );
    let t = Tokenizer::new(&g);
    let (tokens, _) = t.tokenize_line("x = 1; // note", &LineState::initial());
    // Should have gap + comment token
    let comment_tok = tokens
        .iter()
        .find(|t| t.scopes.contains(&"comment.line".to_string()));
    assert!(comment_tok.is_some());
    let ct = comment_tok.unwrap();
    assert_eq!(ct.start, 7);
    assert_eq!(ct.end, 14);
}

#[test]
fn test_string_region() {
    let g = make_grammar(
        r#"{
            "scopeName": "source.test",
            "patterns": [
                {"begin": "\"", "end": "\"", "name": "string.quoted"}
            ]
        }"#,
    );
    let t = Tokenizer::new(&g);
    let (tokens, state) = t.tokenize_line("x = \"hello\"", &LineState::initial());
    assert!(state.stack.is_empty());
    // Should have: gap("x = "), begin("), content(hello), end(")
    let string_tokens: Vec<_> = tokens
        .iter()
        .filter(|t| t.scopes.contains(&"string.quoted".to_string()))
        .collect();
    assert!(!string_tokens.is_empty());
}

#[test]
fn test_multiline_block_comment() {
    let g = make_grammar(
        r#"{
            "scopeName": "source.test",
            "patterns": [
                {"begin": "/\\*", "end": "\\*/", "name": "comment.block"}
            ]
        }"#,
    );
    let t = Tokenizer::new(&g);

    // Line 1: open comment
    let (tokens1, state1) = t.tokenize_line("x = 1; /* start", &LineState::initial());
    assert_eq!(state1.stack.len(), 1);
    assert_eq!(state1.stack[0].scope_name.as_deref(), Some("comment.block"));

    // Line 2: middle (all comment)
    let (tokens2, state2) = t.tokenize_line("  middle  ", &state1);
    assert_eq!(state2.stack.len(), 1); // still inside
    assert!(!tokens2.is_empty());

    // Line 3: close comment
    let (tokens3, state3) = t.tokenize_line("end */ y", &state2);
    assert!(state3.stack.is_empty()); // region closed
    let _ = tokens1;
    let _ = tokens3;
}

#[test]
fn test_nested_pattern_in_region() {
    let g = make_grammar(
        r#"{
            "scopeName": "source.test",
            "patterns": [
                {
                    "begin": "\"",
                    "end": "\"",
                    "name": "string.quoted",
                    "patterns": [
                        {"match": "\\\\.", "name": "constant.character.escape"}
                    ]
                }
            ]
        }"#,
    );
    let t = Tokenizer::new(&g);

    // Test escape sequences inside strings get proper scope
    let (tokens, state) = t.tokenize_line(r#""hello\nworld""#, &LineState::initial());
    assert!(state.stack.is_empty());
    let escape_tok = tokens
        .iter()
        .find(|t| t.scopes.contains(&"constant.character.escape".to_string()));
    assert!(
        escape_tok.is_some(),
        "escape sequence should be highlighted"
    );
    let et = escape_tok.unwrap();
    assert_eq!(et.start, 6); // \n starts at byte 6
    assert_eq!(et.end, 8); // \n ends at byte 8
    // Should also have the parent string scope
    assert!(et.scopes.contains(&"string.quoted".to_string()));
}

#[test]
fn test_keywords_not_matched_inside_string() {
    let g = make_grammar(
        r#"{
            "scopeName": "source.test",
            "patterns": [
                {"match": "\\b(if|else|while)\\b", "name": "keyword.control"},
                {
                    "begin": "\"",
                    "end": "\"",
                    "name": "string.quoted",
                    "patterns": [
                        {"match": "\\\\.", "name": "constant.character.escape"}
                    ]
                }
            ]
        }"#,
    );
    let t = Tokenizer::new(&g);
    let (tokens, state) = t.tokenize_line(r#""if else while""#, &LineState::initial());
    assert!(state.stack.is_empty());
    // No token inside the string should have keyword.control scope
    let keyword_tok = tokens
        .iter()
        .find(|t| t.scopes.contains(&"keyword.control".to_string()));
    assert!(
        keyword_tok.is_none(),
        "keywords inside strings should NOT be highlighted"
    );
}

#[test]
fn test_multiline_region_with_child_patterns() {
    let g = make_grammar(
        r#"{
            "scopeName": "source.test",
            "patterns": [
                {
                    "begin": "\"",
                    "end": "\"",
                    "name": "string.quoted",
                    "patterns": [
                        {"match": "\\\\.", "name": "constant.character.escape"}
                    ]
                }
            ]
        }"#,
    );
    let t = Tokenizer::new(&g);

    // Line 1: open string with escape
    let (tokens1, state1) = t.tokenize_line(r#""hello\n"#, &LineState::initial());
    assert_eq!(state1.stack.len(), 1); // still inside string
    let escape1 = tokens1
        .iter()
        .find(|t| t.scopes.contains(&"constant.character.escape".to_string()));
    assert!(escape1.is_some(), "escape on line 1 should be highlighted");

    // Line 2: continuation with escape and close
    let (tokens2, state2) = t.tokenize_line(r#"world\t""#, &state1);
    assert!(state2.stack.is_empty()); // string closed
    let escape2 = tokens2
        .iter()
        .find(|t| t.scopes.contains(&"constant.character.escape".to_string()));
    assert!(escape2.is_some(), "escape on line 2 should be highlighted");
}

#[test]
fn test_region_with_no_child_patterns() {
    let g = make_grammar(
        r#"{
            "scopeName": "source.test",
            "patterns": [
                {"match": "\\b(if|else)\\b", "name": "keyword.control"},
                {
                    "begin": "\"",
                    "end": "\"",
                    "name": "string.quoted"
                }
            ]
        }"#,
    );
    let t = Tokenizer::new(&g);
    let (tokens, state) = t.tokenize_line(r#""if else""#, &LineState::initial());
    assert!(state.stack.is_empty());
    // Nothing inside the string should match (no child patterns defined)
    let keyword_tok = tokens
        .iter()
        .find(|t| t.scopes.contains(&"keyword.control".to_string()));
    assert!(
        keyword_tok.is_none(),
        "keywords should NOT match inside region with no child patterns"
    );
    // String content should still have string.quoted scope
    let string_content = tokens
        .iter()
        .find(|t| t.start > 0 && t.end < 9 && t.scopes.contains(&"string.quoted".to_string()));
    assert!(string_content.is_some());
}

#[test]
fn test_include_from_repository() {
    let g = make_grammar(
        r##"{
            "scopeName": "source.test",
            "patterns": [
                {"include": "#keywords"}
            ],
            "repository": {
                "keywords": {
                    "patterns": [
                        {"match": "\\b(let|const)\\b", "name": "keyword.declaration"}
                    ]
                }
            }
        }"##,
    );
    let t = Tokenizer::new(&g);
    let (tokens, _) = t.tokenize_line("let x = 1", &LineState::initial());
    assert!(
        tokens[0]
            .scopes
            .contains(&"keyword.declaration".to_string())
    );
    assert_eq!(tokens[0].start, 0);
    assert_eq!(tokens[0].end, 3);
}

#[test]
fn test_empty_line() {
    let g = make_grammar(
        r#"{
            "scopeName": "source.test",
            "patterns": [
                {"match": "\\w+", "name": "text"}
            ]
        }"#,
    );
    let t = Tokenizer::new(&g);
    let (tokens, state) = t.tokenize_line("", &LineState::initial());
    assert!(tokens.is_empty());
    assert!(state.stack.is_empty());
}

#[test]
fn test_first_match_wins() {
    let g = make_grammar(
        r#"{
            "scopeName": "source.test",
            "patterns": [
                {"match": "//.*$", "name": "comment.line"},
                {"match": "\\w+", "name": "identifier"}
            ]
        }"#,
    );
    let t = Tokenizer::new(&g);
    let (tokens, _) = t.tokenize_line("// hi", &LineState::initial());
    // The comment should win over the identifier
    assert!(tokens[0].scopes.contains(&"comment.line".to_string()));
}

/// Regression: compound keywords with hyphens (ELSE-IF, END-IF, …) must be
/// tokenized as keyword.control, NOT as identifier.
///
/// Root cause: `find_earliest_match` takes the LONGEST match at a given
/// position.  When the keyword pattern tries alternatives left-to-right and
/// matches `ELSE` (4 chars), but the identifier pattern `[a-zA-Z_][a-zA-Z0-9_-]*`
/// matches the full `ELSE-IF` (7 chars), the identifier used to win.
/// Fix: put compound keywords (`ELSE-IF`, `SINO-SI`, …) BEFORE their
/// shorter prefix in the alternation so the keyword pattern also produces
/// a 7-char match, tying the identifier — and the first (keyword) pattern wins.
#[test]
fn test_compound_keyword_beats_identifier() {
    let g = make_grammar(
        r#"{
            "scopeName": "source.test",
            "patterns": [
                {"match": "(?i)\\b(ELSE-IF|ELSE|IF|END-IF)\\b", "name": "keyword.control"},
                {"match": "\\b[a-zA-Z_][a-zA-Z0-9_-]*\\b",      "name": "variable.other"}
            ]
        }"#,
    );
    let t = Tokenizer::new(&g);

    // ELSE-IF must get keyword.control, not variable.other
    let (tokens, _) = t.tokenize_line("ELSE-IF x", &LineState::initial());
    let kw = tokens
        .iter()
        .find(|tok| tok.start == 0 && tok.end == 7)
        .expect("expected token at [0,7] for ELSE-IF");
    assert!(
        kw.scopes.contains(&"keyword.control".to_string()),
        "ELSE-IF should be keyword.control, got {:?}",
        kw.scopes
    );

    // Standalone ELSE still works
    let (tokens2, _) = t.tokenize_line("ELSE x", &LineState::initial());
    let kw2 = tokens2
        .iter()
        .find(|tok| tok.start == 0 && tok.end == 4)
        .expect("expected token at [0,4] for ELSE");
    assert!(kw2.scopes.contains(&"keyword.control".to_string()));

    // END-IF works (its prefix END is not in the alternation — no conflict)
    let (tokens3, _) = t.tokenize_line("END-IF", &LineState::initial());
    let kw3 = tokens3
        .iter()
        .find(|tok| tok.start == 0 && tok.end == 6)
        .expect("expected token at [0,6] for END-IF");
    assert!(kw3.scopes.contains(&"keyword.control".to_string()));
}

#[test]
fn test_zero_width_match_no_infinite_loop() {
    let g = make_grammar(
        r#"{
            "scopeName": "source.test",
            "patterns": [
                {"match": "^", "name": "meta.start"}
            ]
        }"#,
    );
    let t = Tokenizer::new(&g);
    let (tokens, _) = t.tokenize_line("abc", &LineState::initial());
    // Should not hang. We get some tokens and finish.
    assert!(!tokens.is_empty());
}

#[test]
fn test_captures_with_numbered_groups() {
    let g = make_grammar(
        r#"{
            "scopeName": "source.test",
            "patterns": [
                {
                    "match": "(\\w+)\\.(\\w+)",
                    "captures": {
                        "1": {"name": "entity.name"},
                        "2": {"name": "support.function"}
                    }
                }
            ]
        }"#,
    );
    let t = Tokenizer::new(&g);
    let (tokens, _) = t.tokenize_line("foo.bar", &LineState::initial());
    // Should have capture-level tokens
    let has_entity = tokens
        .iter()
        .any(|t| t.scopes.contains(&"entity.name".to_string()));
    let has_function = tokens
        .iter()
        .any(|t| t.scopes.contains(&"support.function".to_string()));
    assert!(has_entity);
    assert!(has_function);
}

/// Regression: end-pattern cache must survive many child matches on a long line.
///
/// A JSON-like grammar has a string region `"..."` with an escape child `\\.`.
/// A line containing 200 escape sequences inside a string must produce the
/// correct tokens and NOT hang (the cache avoids O(n²) rescanning).
#[test]
fn test_end_pattern_cache_long_line() {
    let g = make_grammar(
        r#"{
            "scopeName": "source.test",
            "patterns": [
                {
                    "begin": "\"",
                    "end": "\"",
                    "name": "string.quoted",
                    "patterns": [
                        {"match": "\\\\.", "name": "constant.character.escape"}
                    ]
                }
            ]
        }"#,
    );
    let t = Tokenizer::new(&g);

    // Build a string with 200 escape sequences: "\\a\\a\\a...\\a"
    let mut line = String::from("\"");
    for _ in 0..200 {
        line.push_str("\\a");
    }
    line.push('"');

    let (tokens, state) = t.tokenize_line(&line, &LineState::initial());
    // Region must be closed at end of line.
    assert!(state.stack.is_empty(), "string region should be closed");
    // All 200 escape sequences should be highlighted.
    let esc_count = tokens
        .iter()
        .filter(|tok| tok.scopes.contains(&"constant.character.escape".to_string()))
        .count();
    assert_eq!(esc_count, 200, "expected 200 escape tokens, got {}", esc_count);
}

/// Regression: `endCaptures` must be applied to the end delimiter token.
#[test]
fn test_end_captures_applied_to_closing_delimiter() {
    let g = make_grammar(
        r#"{
            "scopeName": "source.test",
            "patterns": [
                {
                    "begin": "\\(",
                    "beginCaptures": {"0": {"name": "punctuation.open"}},
                    "end": "\\)",
                    "endCaptures": {"0": {"name": "punctuation.close"}}
                }
            ]
        }"#,
    );
    let t = Tokenizer::new(&g);

    let (tokens, state) = t.tokenize_line("(x)", &LineState::initial());
    assert!(state.stack.is_empty());

    // Opening ( must have punctuation.open.
    let open_tok = tokens
        .iter()
        .find(|tok| tok.start == 0 && tok.end == 1);
    assert!(open_tok.is_some());
    assert!(
        open_tok.unwrap().scopes.contains(&"punctuation.open".to_string()),
        "( should have punctuation.open, got {:?}",
        open_tok.unwrap().scopes
    );

    // Closing ) must have punctuation.close (endCaptures group 0).
    let close_tok = tokens
        .iter()
        .find(|tok| tok.start == 2 && tok.end == 3);
    assert!(close_tok.is_some(), "no token for closing )");
    assert!(
        close_tok.unwrap().scopes.contains(&"punctuation.close".to_string()),
        ") should have punctuation.close, got {:?}",
        close_tok.unwrap().scopes
    );
}
