use tone_tags::report::report_on;
use tone_tags::standard::{load_std, Standard};

fn registry() -> Vec<(String, Standard)> {
    vec![
        (
            "core".to_string(),
            load_std("# Core\n## /nm\nExplanation A\n").unwrap(),
        ),
        (
            "extra".to_string(),
            load_std("# Extra\n## /nm\nExplanation B\n## /gen\nGenuine\n").unwrap(),
        ),
    ]
}

fn both() -> Vec<String> {
    vec!["core".to_string(), "extra".to_string()]
}

#[test]
fn first_standard_in_registry_order_wins() {
    let reg = registry();
    let report = report_on("hello /nm", &both(), &reg);
    assert_eq!(report, "**core**: Explanation A");
}

#[test]
fn scan_stops_at_first_non_tag_token() {
    let reg = registry();
    // `/nm` stands before a plain word: the scan stops at `hello` and the
    // earlier token never contributes, though it would match.
    let report = report_on("/nm hello /gen", &both(), &reg);
    assert_eq!(report, "**extra**: Genuine");
}

#[test]
fn unknown_trailing_tags_are_skipped_silently() {
    let reg = registry();
    let report = report_on("hello /zzz /nm", &both(), &reg);
    assert_eq!(report, "**core**: Explanation A");
}

#[test]
fn lines_come_in_scan_order_last_token_first() {
    let reg = registry();
    let report = report_on("hi /nm /gen", &both(), &reg);
    assert_eq!(report, "**extra**: Genuine\n**core**: Explanation A");
}

#[test]
fn no_tags_yields_the_placeholder() {
    let reg = registry();
    assert_eq!(
        report_on("hello there", &both(), &reg),
        "*No tone tags were found*"
    );
    assert_eq!(report_on("", &both(), &reg), "*No tone tags were found*");
    assert_eq!(report_on("   ", &both(), &reg), "*No tone tags were found*");
}

#[test]
fn disabled_standards_are_not_consulted() {
    let reg = registry();
    let only_extra = vec!["extra".to_string()];
    let report = report_on("hello /nm", &only_extra, &reg);
    assert_eq!(report, "**extra**: Explanation B");
    let none: Vec<String> = Vec::new();
    assert_eq!(report_on("hello /nm", &none, &reg), "*No tone tags were found*");
}

#[test]
fn whole_message_of_tags_is_scanned() {
    let reg = registry();
    let report = report_on("/nm /gen", &both(), &reg);
    assert_eq!(report, "**extra**: Genuine\n**core**: Explanation A");
}

#[test]
fn end_to_end_example() {
    // Parse both documents, enable them in order, resolve a message.
    let reg = registry();
    let enabled = tone_tags::cache::select_stds(
        &vec!["core".to_string(), "extra".to_string()],
        &reg,
    );
    let mut cache = tone_tags::cache::UserStdsCache::new();
    cache.update(5, enabled);
    let resolved = cache.get(5, None, &reg);
    let report = report_on("hello /nm", &resolved, &reg);
    assert_eq!(report, "**core**: Explanation A");
}
