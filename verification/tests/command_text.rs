use tone_tags::commands::{standards_autocomplete, standards_listing};
use tone_tags::standard::{load_std, Standard};
use tone_tags::text::{split_lines, trim, ws_tokens};

fn registry() -> Vec<(String, Standard)> {
    vec![
        (
            "core".to_string(),
            load_std("# Core\nCore standard\n## /nm\nExplanation A\n").unwrap(),
        ),
        (
            "extra".to_string(),
            load_std("# Extra\n## /gen\nGenuine\n").unwrap(),
        ),
    ]
}

#[test]
fn listing_with_nothing_enabled() {
    let reg = registry();
    let none: Vec<String> = Vec::new();
    assert_eq!(
        standards_listing(&reg, &none, false),
        "*No standards are enabled*"
    );
}

#[test]
fn listing_shows_only_enabled_standards() {
    let reg = registry();
    let enabled = vec!["core".to_string()];
    assert_eq!(
        standards_listing(&reg, &enabled, false),
        "## Core\n`core`\nCore standard"
    );
}

#[test]
fn listing_with_disabled_marks_the_enabled_ones() {
    let reg = registry();
    let enabled = vec!["core".to_string()];
    assert_eq!(
        standards_listing(&reg, &enabled, true),
        "## Core\n`core` *(enabled)*\nCore standard\n## Extra\n`extra`\n"
    );
}

#[test]
fn autocomplete_offers_every_id_for_an_empty_argument() {
    let reg = registry();
    assert_eq!(
        standards_autocomplete("", &reg),
        vec!["core".to_string(), "extra".to_string()]
    );
}

#[test]
fn autocomplete_matches_in_order_characters() {
    let reg = registry();
    assert_eq!(standards_autocomplete("co", &reg), vec!["core".to_string()]);
    assert_eq!(standards_autocomplete("ea", &reg), vec!["extra".to_string()]);
    let nothing: Vec<String> = Vec::new();
    assert_eq!(standards_autocomplete("zz", &reg), nothing);
}

#[test]
fn autocomplete_keeps_chosen_ids_as_prefix() {
    let reg = registry();
    assert_eq!(
        standards_autocomplete("core,", &reg),
        vec!["core,extra".to_string()]
    );
    assert_eq!(
        standards_autocomplete("core,ea", &reg),
        vec!["core,extra".to_string()]
    );
}

#[test]
fn autocomplete_ignores_unknown_and_repeated_prefix_parts() {
    let reg = registry();
    assert_eq!(
        standards_autocomplete("bogus,core,core,", &reg),
        vec!["core,extra".to_string()]
    );
}

#[test]
fn trim_removes_surrounding_whitespace() {
    assert_eq!(trim("  a b \t"), "a b");
    assert_eq!(trim(""), "");
    assert_eq!(trim(" \t "), "");
}

#[test]
fn split_lines_follows_newlines() {
    assert_eq!(split_lines("a\nb\n"), vec!["a".to_string(), "b".to_string()]);
    assert_eq!(split_lines("a\r\nb"), vec!["a".to_string(), "b".to_string()]);
    let none: Vec<String> = Vec::new();
    assert_eq!(split_lines(""), none);
    assert_eq!(split_lines("\n"), vec!["".to_string()]);
}

#[test]
fn ws_tokens_drops_empty_segments() {
    assert_eq!(
        ws_tokens("  a\t b  "),
        vec!["a".to_string(), "b".to_string()]
    );
    let none: Vec<String> = Vec::new();
    assert_eq!(ws_tokens("   "), none);
}
