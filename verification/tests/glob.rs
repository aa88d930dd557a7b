use remini::glob::{glob_selects, tokenize_pattern, wildcard_match, PatternToken};

#[test]
fn glob_patterns_like_the_search_tool() {
    assert!(glob_selects("src/*.rs", "src/main.rs"));
    assert!(glob_selects("src/*.rs", "src/lib.rs"));
    assert!(!glob_selects("src/*.rs", "docs/guide.md"));
    assert!(!glob_selects("*.md", "docs/guide.md"));
    assert!(glob_selects("docs/*.md", "docs/guide.md"));
    assert!(glob_selects("**/*.md", "docs/guide.md"));
    assert!(glob_selects("docs/*.md", "docs\\guide.md"));
}

#[test]
fn wildcard_tokens() {
    assert_eq!(
        tokenize_pattern("a**b*?"),
        vec![
            PatternToken::Literal('a'),
            PatternToken::DoubleStar,
            PatternToken::Literal('b'),
            PatternToken::Star,
            PatternToken::Question
        ]
    );
    assert_eq!(tokenize_pattern("***"), vec![PatternToken::DoubleStar, PatternToken::Star]);
}

#[test]
fn wildcard_semantics() {
    assert!(wildcard_match("", ""));
    assert!(!wildcard_match("", "a"));
    assert!(wildcard_match("*", ""));
    assert!(wildcard_match("*", "abc"));
    assert!(!wildcard_match("*", "a/b"));
    assert!(wildcard_match("**", "a/b"));
    assert!(wildcard_match("a?c", "abc"));
    assert!(!wildcard_match("a?c", "a/c"));
    assert!(!wildcard_match("abc", "abd"));
    assert!(wildcard_match("**/x", "/x"));
    assert!(!wildcard_match("**/x", "x"));
}
