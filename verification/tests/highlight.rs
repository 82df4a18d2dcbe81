use zedit::render::Color;
use zedit::syntax::highlight::{
    comment_prefix, detect_language, is_in_string_or_comment, lookup_semantic_span, lookup_style,
    semantic_token_scope, LanguageDef, SemanticSpan, StyledSpan,
};

#[test]
fn test_lookup_style() {
    let spans = vec![
        StyledSpan {
            start: 0,
            end: 2,
            fg: Color::Rgb(200, 100, 50),
            bold: true,
            is_string_or_comment: false,
        },
        StyledSpan {
            start: 3,
            end: 7,
            fg: Color::Default,
            bold: false,
            is_string_or_comment: false,
        },
    ];
    let (fg, _, bold) = lookup_style(&spans, 0);
    assert_eq!(fg, Color::Rgb(200, 100, 50));
    assert!(bold);

    let (fg, _, _) = lookup_style(&spans, 4);
    assert_eq!(fg, Color::Default);

    let (fg, _, _) = lookup_style(&spans, 10);
    assert_eq!(fg, Color::Default);
}

#[test]
fn test_is_in_string_or_comment() {
    let spans = vec![StyledSpan {
        start: 0,
        end: 7,
        fg: Color::Rgb(166, 227, 161),
        bold: false,
        is_string_or_comment: true,
    }];
    assert!(is_in_string_or_comment(&spans, 0));
    assert!(is_in_string_or_comment(&spans, 1));
    assert!(is_in_string_or_comment(&spans, 5));
    assert!(is_in_string_or_comment(&spans, 6));

    assert!(!is_in_string_or_comment(&spans, 7));
    assert!(!is_in_string_or_comment(&[], 0));

    let comment_spans = vec![StyledSpan {
        start: 0,
        end: 20,
        fg: Color::Color256(240),
        bold: false,
        is_string_or_comment: true,
    }];
    assert!(is_in_string_or_comment(&comment_spans, 10));

    let keyword_spans = vec![StyledSpan {
        start: 0,
        end: 2,
        fg: Color::Rgb(203, 166, 247),
        bold: true,
        is_string_or_comment: false,
    }];
    assert!(!is_in_string_or_comment(&keyword_spans, 1));
}

fn make_semantic_spans() -> Vec<SemanticSpan> {
    vec![
        SemanticSpan {
            line: 0,
            start_char: 0,
            end_char: 6,
            fg: Color::Rgb(100, 200, 255),
            bold: false,
        },
        SemanticSpan {
            line: 0,
            start_char: 7,
            end_char: 9,
            fg: Color::Rgb(255, 200, 0),
            bold: true,
        },
        SemanticSpan {
            line: 1,
            start_char: 0,
            end_char: 5,
            fg: Color::Rgb(200, 200, 200),
            bold: false,
        },
        SemanticSpan {
            line: 3,
            start_char: 0,
            end_char: 6,
            fg: Color::Rgb(255, 200, 0),
            bold: true,
        },
    ]
}

#[test]
fn test_lookup_semantic_span_hit_directive() {
    let spans = make_semantic_spans();
    let result = lookup_semantic_span(&spans, 0, 0);
    assert!(result.is_some());
    let (fg, bold) = result.unwrap();
    assert_eq!(fg, Color::Rgb(100, 200, 255));
    assert!(!bold);
}

#[test]
fn test_lookup_semantic_span_hit_keyword() {
    let spans = make_semantic_spans();
    let result = lookup_semantic_span(&spans, 0, 7);
    assert!(result.is_some());
    let (fg, bold) = result.unwrap();
    assert_eq!(fg, Color::Rgb(255, 200, 0));
    assert!(bold);
}

#[test]
fn test_lookup_semantic_span_gap_returns_none() {
    let spans = make_semantic_spans();
    let result = lookup_semantic_span(&spans, 0, 6);
    assert!(result.is_none(), "gap between tokens should return None");
}

#[test]
fn test_lookup_semantic_span_end_exclusive() {
    let spans = make_semantic_spans();
    let result = lookup_semantic_span(&spans, 0, 6);
    assert!(result.is_none());
    let result = lookup_semantic_span(&spans, 0, 5);
    assert!(result.is_some());
}

#[test]
fn test_lookup_semantic_span_different_line() {
    let spans = make_semantic_spans();
    let result = lookup_semantic_span(&spans, 1, 2);
    assert!(result.is_some());
    let (fg, _) = result.unwrap();
    assert_eq!(fg, Color::Rgb(200, 200, 200));
}

#[test]
fn test_lookup_semantic_span_skips_to_correct_line() {
    let spans = make_semantic_spans();
    let result = lookup_semantic_span(&spans, 2, 0);
    assert!(result.is_none(), "line 2 has no semantic spans");

    let result = lookup_semantic_span(&spans, 3, 0);
    assert!(result.is_some());
}

#[test]
fn test_lookup_semantic_span_empty_list() {
    let result = lookup_semantic_span(&[], 0, 0);
    assert!(result.is_none());
}

#[test]
fn test_lookup_semantic_span_default_color_invisible() {
    let spans = vec![SemanticSpan {
        line: 0,
        start_char: 0,
        end_char: 5,
        fg: Color::Default,
        bold: false,
    }];
    let result = lookup_semantic_span(&spans, 0, 2);
    assert!(
        result.is_none(),
        "Default fg spans should be skipped like invisible tokens"
    );
}

#[test]
fn test_semantic_token_scope_zenith_types() {
    assert_eq!(semantic_token_scope("keyword"), "keyword.control");
    assert_eq!(semantic_token_scope("type"), "entity.name.type");
    assert_eq!(semantic_token_scope("variable"), "variable.other");
    assert_eq!(semantic_token_scope("function"), "entity.name.function");
    assert_eq!(semantic_token_scope("directive"), "entity.name.tag");
    assert_eq!(semantic_token_scope("constraint"), "storage.modifier");
    assert_eq!(semantic_token_scope("boolean"), "constant.language");
    assert_eq!(semantic_token_scope("number"), "constant.numeric");
    assert_eq!(semantic_token_scope("string"), "string.quoted");
    assert_eq!(semantic_token_scope("comment"), "comment");
    assert_eq!(semantic_token_scope("operator"), "keyword.operator");
}

#[test]
fn test_semantic_token_scope_standard_extras() {
    assert_eq!(semantic_token_scope("namespace"), "entity.name.namespace");
    assert_eq!(semantic_token_scope("parameter"), "variable.parameter");
    assert_eq!(semantic_token_scope("method"), "entity.name.function");
    assert_eq!(semantic_token_scope("macro"), "entity.name.function.macro");
}

#[test]
fn test_semantic_token_scope_unknown_returns_empty() {
    assert_eq!(semantic_token_scope("nonexistent_type"), "");
    assert_eq!(semantic_token_scope(""), "");
}

fn languages() -> Vec<LanguageDef> {
    vec![
        LanguageDef {
            name: "rust".to_string(),
            extensions: vec!["rs".to_string()],
            grammar_file: "rust.tmLanguage.json".to_string(),
            comment: Some("//".to_string()),
        },
        LanguageDef {
            name: "javascript".to_string(),
            extensions: vec!["js".to_string(), "mjs".to_string()],
            grammar_file: "javascript.tmLanguage.json".to_string(),
            comment: None,
        },
    ]
}

#[test]
fn highlight_detect_language_by_extension() {
    let langs = languages();
    assert_eq!(detect_language("main.rs", &langs).as_deref(), Some("rust"));
    assert_eq!(detect_language("src/app.mjs", &langs).as_deref(), Some("javascript"));
    assert_eq!(detect_language("file.txt", &langs), None);
    assert_eq!(detect_language("noext", &langs), None);
}

#[test]
fn highlight_comment_prefix_lookup() {
    let langs = languages();
    assert_eq!(comment_prefix("rust", &langs).as_deref(), Some("//"));
    assert_eq!(comment_prefix("javascript", &langs), None);
    assert_eq!(comment_prefix("go", &langs), None);
}

#[test]
fn test_detect_language() {
    let langs = languages();
    assert_eq!(detect_language("main.rs", &langs).as_deref(), Some("rust"));
    assert_eq!(detect_language("app.js", &langs).as_deref(), Some("javascript"));
    assert_eq!(detect_language("file.txt", &langs), None);
    assert_eq!(detect_language("noext", &langs), None);
}
