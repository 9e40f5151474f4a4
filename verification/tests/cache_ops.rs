use tone_tags::cache::{select_stds, UserStdsCache, MAX_USERS};
use tone_tags::standard::{load_std, Standard};

fn registry() -> Vec<(String, Standard)> {
    vec![
        (
            "core".to_string(),
            load_std("# Core\n## /nm\nExplanation A\n").unwrap(),
        ),
        (
            "extra".to_string(),
            load_std("# Extra\n## /nm\nExplanation B\n## /gen\nGenuine\n").unwrap(),
        ),
    ]
}

#[test]
fn get_unseen_user_defaults_to_core_and_is_cached() {
    let reg = registry();
    let mut cache = UserStdsCache::new();
    assert!(!cache.contains(7));
    let got = cache.get(7, None, &reg);
    assert_eq!(got, vec!["core".to_string()]);
    // The default is itself resident now: a second lookup needs no store
    // round-trip, and whatever a (skipped) fetch would have produced is
    // ignored.
    assert!(cache.contains(7));
    let again = cache.get(7, Some(vec!["extra".to_string()]), &reg);
    assert_eq!(again, vec!["core".to_string()]);
}

#[test]
fn get_filters_stored_record_against_registry() {
    let reg = registry();
    let mut cache = UserStdsCache::new();
    let stored = vec![
        "extra".to_string(),
        "retired".to_string(),
        "core".to_string(),
    ];
    let got = cache.get(8, Some(stored), &reg);
    assert_eq!(got, vec!["extra".to_string(), "core".to_string()]);
    assert!(cache.contains(8));
}

#[test]
fn update_then_get_returns_the_deduplicated_list() {
    let reg = registry();
    let mut cache = UserStdsCache::new();
    let raw = vec![
        "extra".to_string(),
        "nope".to_string(),
        "core".to_string(),
        "extra".to_string(),
    ];
    let sel = select_stds(&raw, &reg);
    assert_eq!(sel, vec!["extra".to_string(), "core".to_string()]);
    cache.update(9, sel.clone());
    // Resident now: get ignores any fetched value and returns the list as
    // update left it.
    let got = cache.get(9, None, &reg);
    assert_eq!(got, sel);
}

#[test]
fn capacity_cap_evicts_one_other_entry() {
    let reg = registry();
    let mut cache = UserStdsCache::new();
    for u in 0..(MAX_USERS as u64) {
        cache.update(u, vec!["core".to_string()]);
    }
    assert_eq!(cache.resident_count(), MAX_USERS);
    // The 101st distinct user fits by evicting exactly one other entry.
    cache.update(1000, vec!["extra".to_string()]);
    assert_eq!(cache.resident_count(), MAX_USERS);
    assert!(cache.contains(1000));
    let got = cache.get(1000, None, &reg);
    assert_eq!(got, vec!["extra".to_string()]);
}

#[test]
fn update_of_resident_user_evicts_nobody() {
    let mut cache = UserStdsCache::new();
    for u in 0..(MAX_USERS as u64) {
        cache.update(u, vec!["core".to_string()]);
    }
    cache.update(3, vec!["extra".to_string()]);
    assert_eq!(cache.resident_count(), MAX_USERS);
    for u in 0..(MAX_USERS as u64) {
        assert!(cache.contains(u));
    }
}

#[test]
fn delete_unknown_user_changes_nothing() {
    let mut cache = UserStdsCache::new();
    cache.update(1, vec!["core".to_string()]);
    cache.update(2, vec!["extra".to_string()]);
    cache.delete(42);
    assert_eq!(cache.resident_count(), 2);
    assert!(cache.contains(1));
    assert!(cache.contains(2));
}

#[test]
fn delete_removes_only_that_user() {
    let reg = registry();
    let mut cache = UserStdsCache::new();
    cache.update(1, vec!["extra".to_string()]);
    cache.update(2, vec!["extra".to_string()]);
    cache.delete(1);
    assert!(!cache.contains(1));
    assert!(cache.contains(2));
    // A later get falls back to the default again.
    let got = cache.get(1, None, &reg);
    assert_eq!(got, vec!["core".to_string()]);
}

#[test]
fn select_drops_unknown_and_keeps_first_occurrence() {
    let reg = registry();
    let raw = vec![
        "nope".to_string(),
        "core".to_string(),
        "core".to_string(),
        "extra".to_string(),
        "core".to_string(),
    ];
    assert_eq!(
        select_stds(&raw, &reg),
        vec!["core".to_string(), "extra".to_string()]
    );
    let empty: Vec<String> = Vec::new();
    assert_eq!(select_stds(&empty, &reg), empty);
}
