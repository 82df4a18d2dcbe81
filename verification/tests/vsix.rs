use std::path::Path;
use zedit::syntax::json_parser::JsonValue;
use zedit::vsix_import::{import_source, split_extension_id, ImportSource};
use zedit::vsix_import::{
    build_manifest_json, line_comment_of, parse_package_json, resolve_pkg_path, url_encode, InstalledGrammar,
};

fn minimal_package_json(publisher: &str, name: &str) -> String {
    format!(
        r#"{{
  "publisher": "{}",
  "name": "{}",
  "displayName": "Test Extension",
  "version": "1.2.3",
  "contributes": {{
    "languages": [
      {{ "id": "{}", "extensions": [".tl", ".tlx"], "aliases": ["TestLang", "tl"] }}
    ],
    "grammars": [
      {{ "language": "{}", "scopeName": "source.tl", "path": "./syntaxes/testlang.tmLanguage.json" }}
    ],
    "themes": []
  }}
}}"#,
        publisher, name, name, name
    )
}

#[test]
fn test_parse_package_json_basic() {
    let json = minimal_package_json("test-pub", "testlang");
    let pkg = parse_package_json(&json).unwrap();
    assert_eq!(pkg.publisher, "test-pub");
    assert_eq!(pkg.name, "testlang");
    assert_eq!(pkg.display_name, "Test Extension");
    assert_eq!(pkg.version, "1.2.3");
    assert_eq!(pkg.languages.len(), 1);
    assert_eq!(pkg.languages[0].id, "testlang");
    assert_eq!(pkg.languages[0].extensions, vec![".tl", ".tlx"]);
    assert_eq!(pkg.languages[0].aliases, vec!["TestLang", "tl"]);
    assert_eq!(pkg.grammars.len(), 1);
    assert_eq!(pkg.grammars[0].language, "testlang");
    assert_eq!(pkg.grammars[0].scope_name, "source.tl");
    assert_eq!(pkg.grammars[0].path, "./syntaxes/testlang.tmLanguage.json");
    assert!(pkg.themes.is_empty());
}

#[test]
fn test_parse_package_json_missing_name() {
    let json = r#"{ "publisher": "foo", "version": "1.0.0" }"#;
    let result = parse_package_json(json);
    assert!(result.is_err());
    assert!(result.unwrap_err().contains("missing 'name'"));
}

#[test]
fn test_parse_package_json_no_contributes() {
    let json = r#"{ "publisher": "foo", "name": "bar", "version": "1.0.0" }"#;
    let pkg = parse_package_json(json).unwrap();
    assert!(pkg.grammars.is_empty());
    assert!(pkg.languages.is_empty());
    assert!(pkg.themes.is_empty());
}

#[test]
fn test_url_encode() {
    assert_eq!(url_encode("rust"), "rust");
    assert_eq!(url_encode("hello world"), "hello+world");
    assert_eq!(url_encode("rust-lang"), "rust-lang");
}

#[test]
fn test_resolve_pkg_path() {
    let root = "/tmp/extension";
    let resolved = resolve_pkg_path(root, "./syntaxes/rust.tmLanguage.json");
    assert_eq!(
        Path::new(&resolved),
        Path::new("/tmp/extension/syntaxes/rust.tmLanguage.json")
    );
    let resolved2 = resolve_pkg_path(root, "themes/dark.json");
    assert_eq!(Path::new(&resolved2), Path::new("/tmp/extension/themes/dark.json"));
}

#[test]
fn test_filters_non_textmate_grammars() {
    // JSON Language Grammar files (.json that aren't .tmLanguage.json) should be skipped.
    let json = r#"{
  "publisher": "ms",
  "name": "json",
  "version": "1.0.0",
  "contributes": {
    "languages": [],
    "grammars": [
      { "language": "json", "scopeName": "source.json", "path": "./syntaxes/JSON.tmLanguage" },
      { "language": "jsonc", "scopeName": "source.json.comments", "path": "./syntaxes/JSONC.tmLanguage.json" },
      { "language": "jsonl", "scopeName": "source.jsonl", "path": "./syntaxes/jsonl.lang.json" }
    ],
    "themes": []
  }
}"#;
    let pkg = parse_package_json(json).unwrap();
    // .tmLanguage and .tmLanguage.json pass; .lang.json does not
    assert_eq!(pkg.grammars.len(), 2);
    assert_eq!(pkg.grammars[0].scope_name, "source.json");
    assert_eq!(pkg.grammars[1].scope_name, "source.json.comments");
}

#[test]
fn url_encode_percent_encodes_utf8_bytes() {
    assert_eq!(url_encode("a/b"), "a%2fb");
    assert_eq!(url_encode("é"), "%c3%a9");
    assert_eq!(url_encode("A~z_0.9"), "A~z_0.9");
}

#[test]
fn package_defaults_and_themes() {
    let pkg = parse_package_json(
        r#"{"name": "n", "contributes": {"themes": [{"path": "./t.json"}, {"id": "x"}, {"path": "p", "id": "d", "label": "Dark"}],
            "languages": [{"id": "l", "configuration": "./lc.json"}, {"extensions": [".q"]}]}}"#,
    )
    .unwrap();
    assert_eq!(pkg.publisher, "unknown");
    assert_eq!(pkg.display_name, "n");
    assert_eq!(pkg.version, "0.0.0");
    assert_eq!(pkg.themes.len(), 2);
    assert_eq!(pkg.themes[0].id, "theme");
    assert_eq!(pkg.themes[0].label, "theme");
    assert_eq!(pkg.themes[1].label, "Dark");
    assert_eq!(pkg.languages.len(), 1);
    assert_eq!(pkg.languages[0].configuration.as_deref(), Some("./lc.json"));
    assert!(pkg.languages[0].extensions.is_empty());
    assert!(parse_package_json("{").is_err());
}

#[test]
fn resolve_strips_every_leading_dot_slash() {
    let r = resolve_pkg_path("/r", "././a/b");
    assert_eq!(Path::new(&r), Path::new("/r/a/b"));
}

#[test]
fn test_build_manifest_json() {
    let json = minimal_package_json("rust-lang", "rust");
    let pkg = parse_package_json(&json).unwrap();
    let grammars = vec![InstalledGrammar {
        language: "rust".to_string(),
        scope_name: "source.rust".to_string(),
        installed_basename: "rust.tmLanguage.json".to_string(),
    }];
    let manifest = build_manifest_json("rust-lang.rust", &pkg, &grammars, &[], &[]);
    // Parse back and verify
    let val = JsonValue::parse(&manifest).unwrap();
    assert_eq!(
        val.get("id").and_then(|v| v.as_str()),
        Some("rust-lang.rust")
    );
    assert_eq!(val.get("version").and_then(|v| v.as_str()), Some("1.2.3"));
    let langs = val.get("languages").and_then(|v| v.as_array()).unwrap();
    assert_eq!(langs.len(), 1);
    let grammars_out = val.get("grammars").and_then(|v| v.as_array()).unwrap();
    assert_eq!(grammars_out.len(), 1);
    assert_eq!(
        grammars_out[0].get("path").and_then(|v| v.as_str()),
        Some("rust.tmLanguage.json")
    );
}

#[test]
fn test_build_manifest_with_comment() {
    let json = minimal_package_json("lang", "mylang");
    let pkg = parse_package_json(&json).unwrap();
    let comment_map = vec![("mylang".to_string(), "//".to_string())];
    let manifest = build_manifest_json("lang.mylang", &pkg, &[], &[], &comment_map);
    let val = JsonValue::parse(&manifest).unwrap();
    let langs = val.get("languages").and_then(|v| v.as_array()).unwrap();
    let comment = langs[0].get("comment").and_then(|v| v.as_str());
    assert_eq!(comment, Some("//"));
}

#[test]
fn manifest_layout_and_line_comment() {
    let pkg = parse_package_json(r#"{"name": "x", "version": "2"}"#).unwrap();
    let manifest = build_manifest_json("p.x", &pkg, &[], &[], &[]);
    assert_eq!(
        manifest,
        "{\n  \"id\": \"p.x\",\n  \"name\": \"x\",\n  \"version\": \"2\",\n  \"languages\": [],\n  \"grammars\": [],\n  \"themes\": []\n}"
    );
    let cfg = JsonValue::parse(r##"{"comments": {"lineComment": "#", "blockComment": ["/*", "*/"]}}"##).unwrap();
    assert_eq!(line_comment_of(&cfg).as_deref(), Some("#"));
    assert!(line_comment_of(&JsonValue::parse("{}").unwrap()).is_none());
}

#[test]
fn import_source_by_argument() {
    assert_eq!(import_source("https://example.com/x.vsix", false), ImportSource::Url);
    assert_eq!(import_source("http://example.com/x", false), ImportSource::Url);
    assert_eq!(import_source("theme.vsix", false), ImportSource::LocalFile);
    assert_eq!(import_source("some/dir", true), ImportSource::LocalFile);
    assert_eq!(import_source("rust-lang.rust", false), ImportSource::ByName);
}

#[test]
fn split_extension_id_at_first_dot() {
    assert_eq!(split_extension_id("rust-lang.rust"), Some(("rust-lang".to_string(), "rust".to_string())));
    assert_eq!(split_extension_id("a.b.c"), Some(("a".to_string(), "b.c".to_string())));
    assert_eq!(split_extension_id("dracula"), None);
}

#[test]
fn package_json_errors() {
    let e = parse_package_json("{").unwrap_err();
    assert!(e.starts_with("package.json parse error: \"JSON error at byte "));
    assert!(e.ends_with('"'));
    assert_eq!(
        parse_package_json(r#"{"publisher": "p", "name": 3}"#).unwrap_err(),
        "package.json missing 'name' field"
    );
    let p = parse_package_json(r#"{"name": "n"}"#).unwrap();
    assert_eq!(p.name, "n");
    assert_eq!(p.publisher, "unknown");
    assert_eq!(p.version, "0.0.0");
}

#[test]
fn resolve_pkg_path_joins_like_path_join() {
    assert_eq!(resolve_pkg_path("/ext", "./syntaxes/a.json"), "/ext/syntaxes/a.json");
    assert_eq!(resolve_pkg_path("/ext/", "a.json"), "/ext/a.json");
    assert_eq!(resolve_pkg_path("", "a.json"), "a.json");
    assert_eq!(resolve_pkg_path("/ext", "/abs/a.json"), "/abs/a.json");
    assert_eq!(
        resolve_pkg_path("/ext", "./x.json"),
        Path::new("/ext").join("x.json").to_string_lossy()
    );
}
