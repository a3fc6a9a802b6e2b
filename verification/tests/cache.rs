use git_barber::cache::{Cache, Key, VERSION};
use git_barber::scan::MergeKind;

fn key(base: &str, fork: &str, branch: &str) -> Key {
    Key::new(base, fork, branch)
}

/// What the next run reads of what this one writes.
fn next_run(cache: &Cache) -> Cache {
    Cache::from_stored(VERSION, &cache.stored())
}

#[test]
fn a_stored_verdict_is_found_again_by_the_next_run() {
    let mut cache = Cache::default();
    cache.insert(key("b1", "f1", "x1"), Some(MergeKind::Squash));
    cache.insert(key("b1", "f1", "x2"), None);

    let mut reloaded = next_run(&cache);
    assert_eq!(
        reloaded.get(&key("b1", "f1", "x1")),
        Some(Some(MergeKind::Squash))
    );
    // A verified "not merged" is worth caching too — it is just as
    // expensive to compute as a hit.
    assert_eq!(reloaded.get(&key("b1", "f1", "x2")), Some(None));
}

#[test]
fn moving_any_of_the_three_shas_invalidates_the_entry() {
    // The verdict depends on the branch tip, the fork point, and what the
    // base gained since. A stale hit here would delete a branch whose new
    // commits were never checked.
    let mut cache = Cache::default();
    cache.insert(key("b1", "f1", "x1"), Some(MergeKind::Squash));

    let mut cache = next_run(&cache);
    assert_eq!(cache.get(&key("MOVED", "f1", "x1")), None);
    assert_eq!(cache.get(&key("b1", "MOVED", "x1")), None);
    assert_eq!(cache.get(&key("b1", "f1", "MOVED")), None);
}

#[test]
fn only_entries_the_latest_run_used_are_kept() {
    // Otherwise the file grows without bound: every branch tip ever seen
    // would be remembered forever, long after the branch was deleted.
    let mut cache = Cache::default();
    cache.insert(key("b1", "f1", "stale"), Some(MergeKind::Squash));
    cache.insert(key("b1", "f1", "live"), Some(MergeKind::Rebase));

    // A later run looks up only one of the two.
    let mut cache = next_run(&cache);
    assert_eq!(
        cache.get(&key("b1", "f1", "live")),
        Some(Some(MergeKind::Rebase))
    );

    let mut reloaded = next_run(&cache);
    assert_eq!(
        reloaded.get(&key("b1", "f1", "live")),
        Some(Some(MergeKind::Rebase))
    );
    assert_eq!(
        reloaded.get(&key("b1", "f1", "stale")),
        None,
        "an entry no run touched must not be carried forward"
    );
}

#[test]
fn only_verdicts_the_prober_can_actually_produce_are_trusted() {
    // The cache authorises `git branch -D` with no re-verification, so a
    // table claiming "merged" or "gone" — kinds the patch-id prober never
    // returns — must be rejected rather than obeyed.
    let stored = vec![
        ("b:f:x".to_string(), Some(MergeKind::Merged)),
        ("b:f:y".to_string(), Some(MergeKind::Gone)),
        ("b:f:z".to_string(), Some(MergeKind::Squash)),
    ];
    let mut cache = Cache::from_stored(1, &stored);
    assert_eq!(
        cache.get(&key("b", "f", "x")),
        None,
        "\"merged\" must be rejected"
    );
    assert_eq!(
        cache.get(&key("b", "f", "y")),
        None,
        "\"gone\" must be rejected"
    );
    assert_eq!(
        cache.get(&key("b", "f", "z")),
        Some(Some(MergeKind::Squash)),
        "a producible verdict must survive"
    );
}

#[test]
fn a_table_of_another_version_is_simply_empty() {
    let stored = vec![("b:f:z".to_string(), Some(MergeKind::Squash))];
    assert_eq!(Cache::from_stored(2, &stored).get(&key("b", "f", "z")), None);
    assert_eq!(Cache::from_stored(0, &stored).get(&key("b", "f", "z")), None);
    assert_eq!(Cache::default().get(&key("b", "f", "x")), None);
}

#[test]
fn each_used_key_is_stored_once() {
    let mut cache = Cache::default();
    cache.insert(key("b", "f", "x"), None);
    cache.insert(key("b", "f", "x"), Some(MergeKind::Rebase));
    cache.get(&key("b", "f", "x"));
    cache.get(&key("b", "f", "missing"));
    assert_eq!(
        cache.stored(),
        vec![("b:f:x".to_string(), Some(MergeKind::Rebase))]
    );
}

#[test]
fn keys_of_different_shas_differ() {
    assert_eq!(key("a", "b", "c"), key("a", "b", "c"));
    assert_ne!(key("a", "b", "c"), key("a", "c", "b"));
    // Shas hold no colon; texts that do can collide.
    assert_eq!(key("a:b", "c", "d"), key("a", "b:c", "d"));
}
