use zedit::syntax::json_parser::JsonValue;
use zedit::render::Color;
use zedit::syntax::theme::{parse_hex_color, Theme, TokenRule};

#[test]
fn test_parse_hex_color() {
    assert_eq!(parse_hex_color("#ff0000"), Some(Color::Rgb(255, 0, 0)));
    assert_eq!(parse_hex_color("#00ff00"), Some(Color::Rgb(0, 255, 0)));
    assert_eq!(parse_hex_color("#1e1e2e"), Some(Color::Rgb(30, 30, 46)));
    assert_eq!(parse_hex_color("invalid"), None);
    assert_eq!(parse_hex_color("#fff"), None); // too short
}

#[test]
fn test_default_theme_loads() {
    let theme = Theme::default_theme();
    assert_eq!(theme.name, "Default");
    assert!(!theme.token_rules.is_empty());
}

#[test]
fn test_scope_exact_match() {
    let theme = Theme {
        name: "test".to_string(),
        token_rules: vec![TokenRule {
            scopes: vec!["keyword".to_string()],
            foreground: Some(Color::Rgb(200, 100, 50)),
            bold: true,
        }],
        background: (30, 30, 46),
    };
    let style = theme.resolve(&["keyword".to_string()]);
    assert_eq!(style.fg, Color::Rgb(200, 100, 50));
    assert!(style.bold);
}

#[test]
fn test_scope_prefix_match() {
    let theme = Theme {
        name: "test".to_string(),
        token_rules: vec![TokenRule {
            scopes: vec!["keyword".to_string()],
            foreground: Some(Color::Rgb(200, 100, 50)),
            bold: false,
        }],
        background: (30, 30, 46),
    };
    let style = theme.resolve(&["keyword.control".to_string()]);
    assert_eq!(style.fg, Color::Rgb(200, 100, 50));
}

#[test]
fn test_specificity_longer_wins() {
    let theme = Theme {
        name: "test".to_string(),
        token_rules: vec![
            TokenRule {
                scopes: vec!["keyword".to_string()],
                foreground: Some(Color::Rgb(100, 100, 100)),
                bold: false,
            },
            TokenRule {
                scopes: vec!["keyword.control".to_string()],
                foreground: Some(Color::Rgb(200, 200, 200)),
                bold: true,
            },
        ],
        background: (30, 30, 46),
    };
    let style = theme.resolve(&["keyword.control".to_string()]);
    assert_eq!(style.fg, Color::Rgb(200, 200, 200));
    assert!(style.bold);
}

#[test]
fn test_no_match_returns_default() {
    let theme = Theme {
        name: "test".to_string(),
        token_rules: vec![TokenRule {
            scopes: vec!["keyword".to_string()],
            foreground: Some(Color::Rgb(200, 100, 50)),
            bold: true,
        }],
        background: (30, 30, 46),
    };
    let style = theme.resolve(&["string".to_string()]);
    assert_eq!(style.fg, Color::Default);
    assert!(!style.bold);
}

#[test]
fn theme_hex_color_forms() {
    assert_eq!(parse_hex_color("#AbCdEf"), Some(Color::Rgb(0xab, 0xcd, 0xef)));
    assert_eq!(parse_hex_color("#+f0a+1"), Some(Color::Rgb(15, 10, 1)));
    assert_eq!(parse_hex_color("ff00000"), None);
    assert_eq!(parse_hex_color("#ff00gg"), None);
    assert_eq!(parse_hex_color("#ff00000"), None);
}

#[test]
fn theme_resolve_edge_cases() {
    let theme = Theme {
        name: "t".to_string(),
        token_rules: vec![
            TokenRule {
                scopes: vec!["key".to_string(), "keyword".to_string()],
                foreground: None,
                bold: true,
            },
            TokenRule {
                scopes: vec!["keyword".to_string()],
                foreground: Some(Color::Ansi(3)),
                bold: false,
            },
        ],
        background: (0, 0, 0),
    };
    // "key" does not match "keyword.control" (no dot after the prefix);
    // the first "keyword" selector wins over the equally long later one.
    let style = theme.resolve(&["keyword.control".to_string()]);
    assert_eq!(style.fg, Color::Default);
    assert!(style.bold);
    let none = theme.resolve(&[]);
    assert_eq!(none.fg, Color::Default);
    assert!(!none.bold);
    let d = Theme::default_theme();
    assert_eq!(d.token_rules.len(), 15);
    assert_eq!(d.background, (30, 30, 46));
    let kw = d.resolve(&["keyword.control.rust".to_string()]);
    assert_eq!(kw.fg, Color::Color256(176));
    assert!(kw.bold);
}

#[test]
fn test_from_json() {
    let json_str = r##"{
        "name": "Test Theme",
        "tokenColors": [
            {
                "scope": "comment",
                "settings": { "foreground": "#aabbcc", "fontStyle": "italic" }
            },
            {
                "scope": "keyword",
                "settings": { "foreground": "#112233", "fontStyle": "bold" }
            }
        ]
    }"##;
    let val = JsonValue::parse(json_str).unwrap();
    let theme = Theme::from_json(&val).unwrap();
    assert_eq!(theme.name, "Test Theme");
    assert_eq!(theme.token_rules.len(), 2);
    assert_eq!(
        theme.token_rules[0].foreground,
        Some(Color::Rgb(0xaa, 0xbb, 0xcc))
    );
    assert!(!theme.token_rules[0].bold); // italic, not bold
    assert!(theme.token_rules[1].bold);
}

#[test]
fn from_json_scope_lists_background_and_defaults() {
    let val = JsonValue::parse(
        r##"{
            "colors": {"editor.background": "#102030"},
            "tokenColors": [
                {"scope": " string , , constant.numeric ", "settings": {"fontStyle": "bold italic"}},
                {"scope": ["a.b", 3, "c"], "settings": {"foreground": "#zz0000"}},
                {"scope": "x"},
                {"settings": {"foreground": "#ffffff"}}
            ]
        }"##,
    )
    .unwrap();
    let theme = Theme::from_json(&val).unwrap();
    assert_eq!(theme.name, "Untitled");
    assert_eq!(theme.background, (0x10, 0x20, 0x30));
    assert_eq!(theme.token_rules.len(), 2);
    assert_eq!(theme.token_rules[0].scopes, vec!["string".to_string(), "constant.numeric".to_string()]);
    assert!(theme.token_rules[0].bold);
    assert_eq!(theme.token_rules[0].foreground, None);
    assert_eq!(theme.token_rules[1].scopes, vec!["a.b".to_string(), "c".to_string()]);
    assert_eq!(theme.token_rules[1].foreground, None);
    let empty = Theme::from_json(&JsonValue::parse("{}").unwrap()).unwrap();
    assert_eq!(empty.background, (30, 30, 46));
    assert!(empty.token_rules.is_empty());
}
