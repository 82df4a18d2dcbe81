use zedit::syntax::grammar::{Grammar, IncludeTarget, Pattern};
use zedit::syntax::json_parser::JsonValue;

fn parse_grammar(json_str: &str) -> Result<Grammar, String> {
    let json = JsonValue::parse(json_str)?;
    Grammar::from_json(&json)
}

#[test]
fn test_minimal_grammar() {
    let g = parse_grammar(r#"{"scopeName": "source.test", "patterns": []}"#).unwrap();
    assert_eq!(g.scope_name, "source.test");
    assert_eq!(g.name, "source.test"); // defaults to scopeName
    assert!(g.patterns.is_empty());
    assert!(g.file_types.is_empty());
}

#[test]
fn test_match_pattern_with_name() {
    let g = parse_grammar(
        r#"{
            "scopeName": "source.test",
            "patterns": [
                {"match": "\\b(if|else)\\b", "name": "keyword.control"}
            ]
        }"#,
    )
    .unwrap();
    assert_eq!(g.patterns.len(), 1);
    match &g.patterns[0] {
        Pattern::Match { name, .. } => {
            assert_eq!(name.as_deref(), Some("keyword.control"));
        }
        _ => panic!("expected Match pattern"),
    }
}

#[test]
fn test_region_pattern_with_children() {
    let g = parse_grammar(
        r#"{
            "scopeName": "source.test",
            "patterns": [
                {
                    "begin": "\"",
                    "end": "\"",
                    "name": "string.quoted.double",
                    "patterns": [
                        {"match": "\\\\.", "name": "constant.character.escape"}
                    ]
                }
            ]
        }"#,
    )
    .unwrap();
    assert_eq!(g.patterns.len(), 1);
    match &g.patterns[0] {
        Pattern::Region {
            name,
            end_pattern,
            patterns,
            ..
        } => {
            assert_eq!(name.as_deref(), Some("string.quoted.double"));
            assert_eq!(end_pattern, "\"");
            assert_eq!(patterns.len(), 1);
        }
        _ => panic!("expected Region pattern"),
    }
}

#[test]
fn test_include_and_repository() {
    let g = parse_grammar(
        r##"{
            "scopeName": "source.test",
            "patterns": [
                {"include": "#comments"}
            ],
            "repository": {
                "comments": {
                    "match": "//.*$",
                    "name": "comment.line"
                }
            }
        }"##,
    )
    .unwrap();
    assert_eq!(g.patterns.len(), 1);
    match &g.patterns[0] {
        Pattern::Include(IncludeTarget::Repository(key)) => {
            assert_eq!(key, "comments");
        }
        _ => panic!("expected Include pattern"),
    }
    let repo = g.find_repository("comments").unwrap();
    assert_eq!(repo.len(), 1);
    assert!(g.find_repository("nonexistent").is_none());
}

#[test]
fn test_captures_parsing() {
    let g = parse_grammar(
        r#"{
            "scopeName": "source.test",
            "patterns": [
                {
                    "match": "(\\w+)\\.(\\w+)",
                    "captures": {
                        "1": {"name": "entity.name"},
                        "2": {"name": "support.function"}
                    }
                }
            ]
        }"#,
    )
    .unwrap();
    match &g.patterns[0] {
        Pattern::Match { captures, .. } => {
            assert_eq!(captures.len(), 2);
            assert_eq!(captures[0], (1, "entity.name".to_string()));
            assert_eq!(captures[1], (2, "support.function".to_string()));
        }
        _ => panic!("expected Match pattern"),
    }
}

#[test]
fn test_invalid_regex_silently_skipped() {
    let g = parse_grammar(
        r#"{
            "scopeName": "source.test",
            "patterns": [
                {"match": "[invalid", "name": "broken"},
                {"match": "valid", "name": "keyword"}
            ]
        }"#,
    )
    .unwrap();
    // The broken regex is skipped, only the valid one remains
    assert_eq!(g.patterns.len(), 1);
    match &g.patterns[0] {
        Pattern::Match { name, .. } => {
            assert_eq!(name.as_deref(), Some("keyword"));
        }
        _ => panic!("expected Match pattern"),
    }
}

#[test]
fn test_missing_scope_name_error() {
    let result = parse_grammar(r#"{"patterns": []}"#);
    assert!(result.is_err());
    assert!(result.unwrap_err().contains("scopeName"));
}

#[test]
fn test_file_types_extraction() {
    let g = parse_grammar(
        r#"{
            "scopeName": "source.rust",
            "name": "Rust",
            "fileTypes": ["rs"],
            "patterns": []
        }"#,
    )
    .unwrap();
    assert_eq!(g.name, "Rust");
    assert_eq!(g.file_types, vec!["rs".to_string()]);
}

#[test]
fn captures_sorted_by_group_number() {
    let g = parse_grammar(
        r#"{
            "scopeName": "source.test",
            "patterns": [
                {
                    "match": "(a)(b)(c)",
                    "captures": {
                        "3": {"name": "third"},
                        "x": {"name": "ignored"},
                        "1": {"name": "first"},
                        "2": {}
                    }
                }
            ]
        }"#,
    )
    .unwrap();
    match &g.patterns[0] {
        Pattern::Match { captures, .. } => {
            assert_eq!(captures.len(), 2);
            assert_eq!(captures[0], (1, "first".to_string()));
            assert_eq!(captures[1], (3, "third".to_string()));
        }
        _ => panic!("expected Match pattern"),
    }
}

#[test]
fn region_ids_follow_children_and_are_found() {
    let g = parse_grammar(
        r#"{
            "scopeName": "source.test",
            "patterns": [
                {
                    "begin": "<",
                    "end": ">",
                    "patterns": [
                        {"begin": "\\(", "end": "\\)", "patterns": [{"match": "x"}]}
                    ]
                }
            ]
        }"#,
    )
    .unwrap();
    let (outer_id, inner_id) = match &g.patterns[0] {
        Pattern::Region { id, patterns, .. } => match &patterns[0] {
            Pattern::Region { id: inner, .. } => (*id, *inner),
            _ => panic!("expected nested Region"),
        },
        _ => panic!("expected Region"),
    };
    assert_eq!(inner_id, 0);
    assert_eq!(outer_id, 1);
    assert_eq!(g.find_region_children(inner_id).unwrap().len(), 1);
    assert_eq!(g.find_region_children(outer_id).unwrap().len(), 1);
    assert!(g.find_region_children(7).is_none());
}

#[test]
fn repository_entry_with_pattern_list_and_begin_captures_fallback() {
    let g = parse_grammar(
        r##"{
            "scopeName": "source.test",
            "repository": {
                "strings": {
                    "patterns": [
                        {"begin": "'", "end": "'", "captures": {"0": {"name": "punct"}}},
                        {"match": "q"}
                    ]
                }
            }
        }"##,
    )
    .unwrap();
    assert!(g.patterns.is_empty());
    let entry = g.find_repository("strings").unwrap();
    assert_eq!(entry.len(), 2);
    match &entry[0] {
        Pattern::Region { begin_captures, end_captures, end_pattern, .. } => {
            assert_eq!(begin_captures, &vec![(0, "punct".to_string())]);
            assert_eq!(end_captures, &vec![(0, "punct".to_string())]);
            assert_eq!(end_pattern, "'");
        }
        _ => panic!("expected Region"),
    }
}

#[test]
fn include_self_and_other_grammars() {
    let g = parse_grammar(
        r#"{"scopeName": "s", "patterns": [{"include": "$self"}, {"include": "source.other"}, {"name": "no.kind"}]}"#,
    )
    .unwrap();
    assert_eq!(g.patterns.len(), 2);
    assert!(matches!(g.patterns[0], Pattern::Include(IncludeTarget::SelfRef)));
    assert!(matches!(g.patterns[1], Pattern::Include(IncludeTarget::SelfRef)));
}
