use xorcist::conventional::{format_commit_message, type_to_emoji, ConventionalCommit};

#[test]
fn test_parse_simple() {
    let cc = ConventionalCommit::parse("feat: add new feature").unwrap();
    assert_eq!(cc.commit_type, "feat");
    assert_eq!(cc.scope, None);
    assert!(!cc.breaking);
    assert_eq!(cc.description, "add new feature");
}

#[test]
fn test_parse_with_scope() {
    let cc = ConventionalCommit::parse("fix(api): handle null").unwrap();
    assert_eq!(cc.commit_type, "fix");
    assert_eq!(cc.scope, Some("api"));
    assert!(!cc.breaking);
    assert_eq!(cc.description, "handle null");
}

#[test]
fn test_parse_breaking() {
    let cc = ConventionalCommit::parse("feat!: breaking change").unwrap();
    assert_eq!(cc.commit_type, "feat");
    assert!(cc.breaking);
    assert_eq!(cc.description, "breaking change");
}

#[test]
fn test_parse_scope_and_breaking() {
    let cc = ConventionalCommit::parse("refactor(core)!: rewrite engine").unwrap();
    assert_eq!(cc.commit_type, "refactor");
    assert_eq!(cc.scope, Some("core"));
    assert!(cc.breaking);
    assert_eq!(cc.description, "rewrite engine");
}

#[test]
fn test_parse_invalid() {
    // No colon
    assert!(ConventionalCommit::parse("just a message").is_none());
    // No space after colon
    assert!(ConventionalCommit::parse("feat:no space").is_none());
    // Empty type
    assert!(ConventionalCommit::parse(": no type").is_none());
    // Uppercase type
    assert!(ConventionalCommit::parse("FEAT: uppercase").is_none());
    // Unclosed scope
    assert!(ConventionalCommit::parse("feat(api: unclosed").is_none());
}

#[test]
fn test_parse_no_description() {
    // This is technically valid but unusual
    assert!(ConventionalCommit::parse("(no description)").is_none());
}

#[test]
fn test_to_display_simple() {
    let cc = ConventionalCommit::parse("feat: blah").unwrap();
    assert_eq!(cc.to_display(), "âœ¨ blah");
}

#[test]
fn test_to_display_breaking() {
    let cc = ConventionalCommit::parse("fix!: hoge").unwrap();
    assert_eq!(cc.to_display(), "ğŸ©¹ğŸ’¥ hoge");
}

#[test]
fn test_to_display_with_scope() {
    let cc = ConventionalCommit::parse("fix(hoge): blah").unwrap();
    assert_eq!(cc.to_display(), "ğŸ©¹(hoge) blah");
}

#[test]
fn test_to_display_scope_and_breaking() {
    let cc = ConventionalCommit::parse("feat(api)!: xyz").unwrap();
    assert_eq!(cc.to_display(), "âœ¨(api)ğŸ’¥ xyz");
}

#[test]
fn test_format_commit_message_conventional() {
    assert_eq!(format_commit_message("feat: new feature"), "âœ¨ new feature");
    assert_eq!(format_commit_message("fix!: breaking"), "ğŸ©¹ğŸ’¥ breaking");
    assert_eq!(
        format_commit_message("docs(readme): update"),
        "ğŸ“(readme) update"
    );
}

#[test]
fn test_format_commit_message_non_conventional() {
    // Non-conventional messages pass through unchanged
    assert_eq!(
        format_commit_message("just a regular message"),
        "just a regular message"
    );
    assert_eq!(
        format_commit_message("(no description)"),
        "(no description)"
    );
    assert_eq!(format_commit_message("WIP stuff"), "WIP stuff");
}

#[test]
fn test_emoji_mapping() {
    assert_eq!(type_to_emoji("feat"), "âœ¨");
    assert_eq!(type_to_emoji("fix"), "ğŸ©¹");
    assert_eq!(type_to_emoji("docs"), "ğŸ“");
    assert_eq!(type_to_emoji("style"), "ğŸ’„");
    assert_eq!(type_to_emoji("refactor"), "ğŸ—ï¸");
    assert_eq!(type_to_emoji("perf"), "âš¡");
    assert_eq!(type_to_emoji("test"), "ğŸ§ª");
    assert_eq!(type_to_emoji("build"), "ğŸ“¦");
    assert_eq!(type_to_emoji("ci"), "ğŸ‘·");
    assert_eq!(type_to_emoji("chore"), "ğŸ”§");
    assert_eq!(type_to_emoji("revert"), "âª");
    assert_eq!(type_to_emoji("unknown"), "ğŸ“Œ"); // fallback
}

#[test]
fn test_edge_cases() {
    // Japanese description
    let cc = ConventionalCommit::parse("feat: æ—¥æœ¬èªã®èª¬æ˜").unwrap();
    assert_eq!(cc.to_display(), "âœ¨ æ—¥æœ¬èªã®èª¬æ˜");

    // Empty description (valid but unusual)
    let cc = ConventionalCommit::parse("fix: ").unwrap();
    assert_eq!(cc.to_display(), "ğŸ©¹ ");

    // Multiple colons in description
    let cc = ConventionalCommit::parse("feat: time: 12:00").unwrap();
    assert_eq!(cc.to_display(), "âœ¨ time: 12:00");

    // Scope with hyphen
    let cc = ConventionalCommit::parse("fix(my-module): issue").unwrap();
    assert_eq!(cc.scope, Some("my-module"));
}

#[test]
fn unknown_type_uses_pin() {
    assert_eq!(format_commit_message("zzz: thing"), "ğŸ“Œ thing");
    assert_eq!(format_commit_message("wip(x)!: y"), "ğŸš§(x)ğŸ’¥ y");
}

#[test]
fn empty_scope_and_bang_only() {
    let cc = ConventionalCommit::parse("fix(): a").unwrap();
    assert_eq!(cc.scope, Some(""));
    assert!(ConventionalCommit::parse("!: a").is_none());
    assert!(ConventionalCommit::parse("fe at: a").is_none());
}
