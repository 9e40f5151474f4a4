use tone_tags::standard::{load_all_stds, load_std, ParseError};

#[test]
fn title_only_document() {
    let std = load_std("# Title\nLine one\n  Line two  \n").unwrap();
    assert_eq!(std.title, "Title");
    assert_eq!(std.description, "Line one\nLine two\n");
    assert!(std.tags.is_empty());
}

#[test]
fn shared_tag_block() {
    let std = load_std("# T\n## a b\nX\n").unwrap();
    assert_eq!(std.title, "T");
    assert_eq!(std.description, "");
    assert_eq!(std.tags.len(), 2);
    assert_eq!(
        std.lookup_tag(&"a".to_string()),
        Some(&"X\n".to_string())
    );
    assert_eq!(
        std.lookup_tag(&"b".to_string()),
        Some(&"X\n".to_string())
    );
}

#[test]
fn deep_heading_is_always_an_error() {
    assert_eq!(load_std("### x\n").unwrap_err(), ParseError::UnknownHeadingDepth);
    assert_eq!(load_std("# T\nbody\n### x\n").unwrap_err(), ParseError::UnknownHeadingDepth);
    assert_eq!(load_std("# T\n## a\nbody\n#### deeper\n").unwrap_err(), ParseError::UnknownHeadingDepth);
}

#[test]
fn content_before_heading_is_an_error() {
    assert_eq!(load_std("content\n# T\n").unwrap_err(), ParseError::MissingTag);
    assert_eq!(load_std("x").unwrap_err(), ParseError::MissingTag);
}

#[test]
fn duplicate_title_is_an_error() {
    assert_eq!(load_std("# A\nx\n# B\ny\n").unwrap_err(), ParseError::DuplicateTitle);
    // The second title block is also rejected when only the end of input
    // flushes it.
    assert_eq!(load_std("# A\n## t\nbody\n# B\n").unwrap_err(), ParseError::DuplicateTitle);
}

#[test]
fn missing_title_is_an_error() {
    assert_eq!(load_std("").unwrap_err(), ParseError::NoTitle);
    assert_eq!(load_std("## t\nX\n").unwrap_err(), ParseError::NoTitle);
}

#[test]
fn later_block_overwrites_same_tag() {
    let std = load_std("# T\n## a\nfirst\n## a b\nsecond\n").unwrap();
    assert_eq!(std.tags.len(), 2);
    assert_eq!(
        std.lookup_tag(&"a".to_string()),
        Some(&"second\n".to_string())
    );
    assert_eq!(
        std.lookup_tag(&"b".to_string()),
        Some(&"second\n".to_string())
    );
}

#[test]
fn tag_names_split_on_single_spaces() {
    let std = load_std("# T\n##  a   b \nX\n").unwrap();
    assert_eq!(std.tags.len(), 2);
    assert!(std.lookup_tag(&"a".to_string()).is_some());
    assert!(std.lookup_tag(&"b".to_string()).is_some());
    assert!(std.lookup_tag(&"".to_string()).is_none());
}

#[test]
fn title_remainder_is_trimmed() {
    let std = load_std("#   Spaced Out   \n").unwrap();
    assert_eq!(std.title, "Spaced Out");
    assert_eq!(std.description, "");
}

#[test]
fn crlf_lines_are_accepted() {
    let std = load_std("# T\r\nbody\r\n").unwrap();
    assert_eq!(std.title, "T");
    assert_eq!(std.description, "body\n");
}

#[test]
fn error_messages() {
    assert_eq!(
        ParseError::UnknownHeadingDepth.message(),
        "No rule defined for '###'"
    );
    assert_eq!(ParseError::MissingTag.message(), "Filling a missing tag");
    assert_eq!(
        ParseError::DuplicateTitle.message(),
        "Title is already defined"
    );
    assert_eq!(ParseError::NoTitle.message(), "No title");
}

#[test]
fn load_all_pairs_fixed_ids() {
    let regs = load_all_stds("# Core\ncore text\n## /nm\nA\n", "# Namtao\n## /pos\nB\n").unwrap();
    assert_eq!(regs.len(), 2);
    assert_eq!(regs[0].0, "core");
    assert_eq!(regs[0].1.title, "Core");
    assert_eq!(regs[1].0, "common-namtao");
    assert_eq!(regs[1].1.title, "Namtao");
}

#[test]
fn load_all_propagates_first_error() {
    assert_eq!(load_all_stds("### bad\n", "# Ok\n").unwrap_err(), ParseError::UnknownHeadingDepth);
    assert_eq!(load_all_stds("# Ok\n", "oops\n").unwrap_err(), ParseError::MissingTag);
}
