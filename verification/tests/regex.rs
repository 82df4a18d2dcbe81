use zedit::syntax::regex::{Match, Regex};

// ── Compilation ──

#[test]
fn test_compile_literal() {
    let re = Regex::new("abc").unwrap();
    assert!(re.find("abc", 0).is_some());
}

#[test]
fn test_compile_escape() {
    let re = Regex::new(r"a\.b").unwrap();
    assert!(re.find("a.b", 0).is_some());
    assert!(re.find("axb", 0).is_none());
}

#[test]
fn test_compile_char_class() {
    let re = Regex::new("[abc]").unwrap();
    assert!(re.find("b", 0).is_some());
    assert!(re.find("d", 0).is_none());
}

#[test]
fn test_compile_char_class_range() {
    let re = Regex::new("[a-z]").unwrap();
    assert!(re.find("m", 0).is_some());
    assert!(re.find("M", 0).is_none());
}

#[test]
fn test_compile_negated_class() {
    let re = Regex::new("[^0-9]").unwrap();
    assert!(re.find("a", 0).is_some());
    assert!(re.find("5", 0).is_none());
}

#[test]
fn test_compile_quantifiers() {
    Regex::new("a*").unwrap();
    Regex::new("a+").unwrap();
    Regex::new("a?").unwrap();
    Regex::new("a{2,4}").unwrap();
}

#[test]
fn test_compile_alternation() {
    let re = Regex::new("cat|dog").unwrap();
    assert!(re.find("cat", 0).is_some());
    assert!(re.find("dog", 0).is_some());
    assert!(re.find("cow", 0).is_none());
}

#[test]
fn test_compile_groups() {
    Regex::new("(abc)").unwrap();
    Regex::new("(?:abc)").unwrap();
}

#[test]
fn test_compile_inline_mode_flags() {
    Regex::new("(?i)abc").unwrap();
    Regex::new("(?i)\\b(IF|ELSE-IF)\\b").unwrap();
    Regex::new("(?i-m)\\w+").unwrap();
    let re = Regex::new("(?i)\\b(ELSE-IF|ELSE|IF)\\b").unwrap();
    assert!(re.find("ELSE-IF x", 0).is_some());
    let m = re.find("ELSE-IF x", 0).unwrap();
    assert_eq!(m.end - m.start, 7, "must match full ELSE-IF (7 chars)");
}

#[test]
fn test_compile_lookahead() {
    Regex::new("(?=abc)").unwrap();
    Regex::new("(?!abc)").unwrap();
}

#[test]
fn test_compile_error() {
    assert!(Regex::new("[").is_err());
    assert!(Regex::new("(").is_err());
}

// ── Matching ──

#[test]
fn test_literal_match() {
    let re = Regex::new("hello").unwrap();
    let m = re.find("say hello world", 0).unwrap();
    assert_eq!(m.start, 4);
    assert_eq!(m.end, 9);
}

#[test]
fn test_anchors() {
    let re = Regex::new("^hello$").unwrap();
    assert!(re.find("hello", 0).is_some());
    assert!(re.find("say hello", 0).is_none());
    assert!(re.find("hello world", 0).is_none());
}

#[test]
fn test_dot() {
    let re = Regex::new("a.c").unwrap();
    assert!(re.find("abc", 0).is_some());
    assert!(re.find("aXc", 0).is_some());
    assert!(re.find("ac", 0).is_none());
}

#[test]
fn test_char_classes_match() {
    let re = Regex::new("[aeiou]").unwrap();
    let m = re.find("hello", 0).unwrap();
    assert_eq!(m.start, 1);
}

#[test]
fn test_word_digit() {
    let re_w = Regex::new(r"\w+").unwrap();
    assert_eq!(re_w.find("  hello  ", 0).unwrap().start, 2);

    let re_d = Regex::new(r"\d+").unwrap();
    let m = re_d.find("abc123", 0).unwrap();
    assert_eq!(m.start, 3);
    assert_eq!(m.end, 6);
}

#[test]
fn test_quantifier_star() {
    let re = Regex::new("ab*c").unwrap();
    assert!(re.find("ac", 0).is_some());
    assert!(re.find("abc", 0).is_some());
    assert!(re.find("abbc", 0).is_some());
}

#[test]
fn test_quantifier_plus() {
    let re = Regex::new("ab+c").unwrap();
    assert!(re.find("ac", 0).is_none());
    assert!(re.find("abc", 0).is_some());
    assert!(re.find("abbc", 0).is_some());
}

#[test]
fn test_quantifier_question() {
    let re = Regex::new("ab?c").unwrap();
    assert!(re.find("ac", 0).is_some());
    assert!(re.find("abc", 0).is_some());
    assert!(re.find("abbc", 0).is_none());
}

#[test]
fn test_quantifier_counted() {
    let re = Regex::new("a{2,4}").unwrap();
    assert!(re.find("a", 0).is_none());
    assert!(re.find("aa", 0).is_some());
    assert!(re.find("aaa", 0).is_some());
    assert!(re.find("aaaa", 0).is_some());
}

#[test]
fn test_alternation_match() {
    let re = Regex::new("cat|dog|bird").unwrap();
    assert_eq!(re.find("I have a dog", 0).unwrap().start, 9);
    assert_eq!(re.find("a bird flew", 0).unwrap().start, 2);
}

#[test]
fn test_captures() {
    let re = Regex::new(r"(\w+)@(\w+)").unwrap();
    let caps = re.captures("user@host", 0).unwrap();
    assert_eq!(caps.groups[0], Some(Match { start: 0, end: 9 }));
    assert_eq!(caps.groups[1], Some(Match { start: 0, end: 4 }));
    assert_eq!(caps.groups[2], Some(Match { start: 5, end: 9 }));
}

#[test]
fn test_backreference() {
    let re = Regex::new(r"(\w+) \1").unwrap();
    assert!(re.find("hello hello", 0).is_some());
    assert!(re.find("hello world", 0).is_none());
}

#[test]
fn test_word_boundary() {
    let re = Regex::new(r"\bcat\b").unwrap();
    assert!(re.find("the cat sat", 0).is_some());
    assert!(re.find("concatenate", 0).is_none());
}

#[test]
fn test_positive_lookahead() {
    let re = Regex::new("foo(?=bar)").unwrap();
    let m = re.find("foobar", 0).unwrap();
    assert_eq!(m.start, 0);
    assert_eq!(m.end, 3);
    assert!(re.find("foobaz", 0).is_none());
}

#[test]
fn test_negative_lookahead() {
    let re = Regex::new("foo(?!bar)").unwrap();
    assert!(re.find("foobaz", 0).is_some());
    assert!(re.find("foobar", 0).is_none());
}

#[test]
fn test_start_offset() {
    let re = Regex::new("cat").unwrap();
    assert_eq!(re.find("catcat", 0).unwrap().start, 0);
    assert_eq!(re.find("catcat", 1).unwrap().start, 3);
}

#[test]
fn test_utf8() {
    let re = Regex::new("café").unwrap();
    assert!(re.find("I love café!", 0).is_some());
}

#[test]
fn test_no_match() {
    let re = Regex::new("xyz").unwrap();
    assert!(re.find("abc", 0).is_none());
}

// ── TextMate-realistic ──

#[test]
fn test_keyword_pattern() {
    let re = Regex::new(r"\b(if|else|while|for|return)\b").unwrap();
    let caps = re.captures("  if (x) return;", 0).unwrap();
    assert_eq!(caps.groups[0].unwrap().start, 2);
    assert_eq!(caps.groups[0].unwrap().end, 4);
    assert_eq!(caps.groups[1].unwrap().start, 2);
    assert_eq!(caps.groups[1].unwrap().end, 4);
}

#[test]
fn test_line_comment_pattern() {
    let re = Regex::new("//.*$").unwrap();
    let m = re.find("x = 1; // comment", 0).unwrap();
    assert_eq!(m.start, 7);
    assert_eq!(m.end, 17);
}

#[test]
fn test_escaped_char_pattern() {
    let re = Regex::new(r"\\.").unwrap();
    let m = re.find(r#"say "he\"llo""#, 0).unwrap();
    assert_eq!(m.end - m.start, 2);
}

#[test]
fn test_number_pattern() {
    let re = Regex::new(r"\b\d+(\.\d+)?\b").unwrap();
    let caps = re.captures("x = 3.14;", 0).unwrap();
    assert_eq!(caps.groups[0].unwrap().start, 4);
    assert_eq!(caps.groups[0].unwrap().end, 8);
    assert!(caps.groups[1].is_some());
}

// ── Safety ──

#[test]
fn test_runaway_protection() {
    let re = Regex::new("(a+)+b").unwrap();
    assert!(re.find("aaaaaaaaaa", 0).is_none());
}

// ── Further cases ──

#[test]
fn regex_error_messages() {
    assert_eq!(Regex::new("[").err().unwrap(), "Regex error at 1: unterminated character class");
    assert_eq!(Regex::new("(").err().unwrap(), "Regex error at 1: expected ')'");
    assert_eq!(Regex::new("a)").err().unwrap(), "Regex error at 1: unexpected ')'");
    assert_eq!(Regex::new("*a").err().unwrap(), "Regex error at 0: unexpected '*'");
    assert_eq!(Regex::new("\\q").err().unwrap(), "Regex error at 1: unknown escape '\\q'");
    assert_eq!(Regex::new("a\\").err().unwrap(), "Regex error at 2: unexpected end after '\\'");
    assert_eq!(Regex::new("a{x}").err().unwrap(), "Regex error at 2: expected number");
    assert_eq!(Regex::new("a{2x").err().unwrap(), "Regex error at 4: expected '}'");
    assert_eq!(
        Regex::new("a{99999999999999999999999}").err().unwrap(),
        "Regex error at 2: invalid number"
    );
    assert_eq!(Regex::new("(?<x)").err().unwrap(), "Regex error at 3: unsupported group modifier");
    assert_eq!(Regex::new("(ab").err().unwrap(), "Regex error at 3: expected ')'");
    assert_eq!(Regex::new("[\\").err().unwrap(), "Regex error at 2: unexpected end in class");
}

#[test]
fn regex_byte_offsets_after_multibyte_text() {
    let re = Regex::new("(é+)x").unwrap();
    let caps = re.captures("aééx", 0).unwrap();
    assert_eq!(caps.groups[0], Some(Match { start: 1, end: 6 }));
    assert_eq!(caps.groups[1], Some(Match { start: 1, end: 5 }));
    // A start past the end of the text finds nothing.
    assert!(re.find("aééx", 7).is_none());
}

#[test]
fn regex_counted_forms() {
    let exact = Regex::new("^a{3}$").unwrap();
    assert!(exact.find("aaa", 0).is_some());
    assert!(exact.find("aa", 0).is_none());
    assert!(exact.find("aaaa", 0).is_none());
    let open = Regex::new("^a{2,}$").unwrap();
    assert!(open.find("a", 0).is_none());
    assert!(open.find("aaaaaa", 0).is_some());
    let none = Regex::new("ba{0}c").unwrap();
    assert!(none.find("bc", 0).is_some());
    assert!(none.find("bac", 0).is_none());
}

#[test]
fn regex_classes_and_escapes() {
    let re = Regex::new(r"[\]a-]+").unwrap();
    let m = re.find("x]a-]y", 0).unwrap();
    assert_eq!((m.start, m.end), (1, 5));
    let sp = Regex::new(r"\s\S").unwrap();
    let m = sp.find("ab\tc", 0).unwrap();
    assert_eq!((m.start, m.end), (2, 4));
    let nonword = Regex::new(r"\W").unwrap();
    assert_eq!(nonword.find("ab-c", 0).unwrap().start, 2);
    let notb = Regex::new(r"a\B").unwrap();
    assert_eq!(notb.find("a ab", 0).unwrap().start, 2);
    let uni = Regex::new("[é-ê]").unwrap();
    assert_eq!(uni.find("aê", 0).unwrap(), Match { start: 1, end: 3 });
}

#[test]
fn regex_unset_group_and_leftmost_alternative() {
    let re = Regex::new("(a)|(b)").unwrap();
    let caps = re.captures("b", 0).unwrap();
    assert_eq!(caps.groups.len(), 3);
    assert_eq!(caps.groups[1], None);
    assert_eq!(caps.groups[2], Some(Match { start: 0, end: 1 }));
    let first = Regex::new("ab|abc").unwrap();
    assert_eq!(first.find("abc", 0).unwrap(), Match { start: 0, end: 2 });
    let lazy_star = Regex::new("a*").unwrap();
    assert_eq!(lazy_star.find("baa", 0).unwrap(), Match { start: 0, end: 0 });
}
