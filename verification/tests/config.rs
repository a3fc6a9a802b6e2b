use git_barber::config::{bool_value, get, jobs, preview, MAX_JOBS};
use git_barber::git::fake::FakeGit;

#[test]
fn the_preview_panel_is_on_until_config_turns_it_off() {
    // Seeing what you are about to delete is the whole point of the
    // panel, so hiding it takes an explicit opt-out.
    let mut git = FakeGit::default().on(&["config", "--get", "barber.preview"], Err(""));
    assert!(preview(&mut git), "unset must leave the panel on");

    // git's own boolean spelling, all of it — not just "false".
    for off in ["false\n", "0\n", "no\n", "off\n", "FALSE\n"] {
        let mut git = FakeGit::default().on(&["config", "--get", "barber.preview"], Ok(off));
        assert!(!preview(&mut git), "{off:?} must switch the panel off");
    }
    for on in ["true\n", "1\n", "yes\n", "on\n", "\n"] {
        let mut git = FakeGit::default().on(&["config", "--get", "barber.preview"], Ok(on));
        assert!(preview(&mut git), "{on:?} must leave the panel on");
    }
    // A value that means nothing must not silently disable a feature.
    let mut git = FakeGit::default().on(&["config", "--get", "barber.preview"], Ok("banana\n"));
    assert!(preview(&mut git), "an unparseable value must fall back to on");
}

#[test]
fn jobs_is_read_from_config_and_always_usable() {
    let mut git = FakeGit::default().on(&["config", "--get", "barber.jobs"], Ok("4\n"));
    assert_eq!(jobs(&mut git, 2), 4);
}

#[test]
fn unset_or_unusable_jobs_falls_back_to_a_sane_default() {
    // Never zero: a zero would mean "scan nothing".
    for response in [Err(""), Ok("\n"), Ok("nonsense\n"), Ok("0\n"), Ok("-3\n")] {
        for available in [0, 1, 3, 64] {
            let mut git = FakeGit::default().on(&["config", "--get", "barber.jobs"], response);
            let jobs = jobs(&mut git, available);
            assert!(
                (1..=MAX_JOBS).contains(&jobs),
                "got {jobs} for {response:?}"
            );
        }
    }
    let mut git = FakeGit::default().on(&["config", "--get", "barber.jobs"], Err(""));
    assert_eq!(jobs(&mut git, 3), 3, "the machine's own parallelism");
}

#[test]
fn jobs_is_capped_so_one_repo_cannot_fork_a_thousand_gits() {
    let mut git = FakeGit::default().on(&["config", "--get", "barber.jobs"], Ok("999\n"));
    assert_eq!(jobs(&mut git, 1), MAX_JOBS);
}

#[test]
fn booleans_are_spelled_as_git_spells_them() {
    assert_eq!(bool_value("Yes"), Some(true));
    assert_eq!(bool_value("oFF"), Some(false));
    assert_eq!(bool_value("2"), None);
    assert_eq!(bool_value(""), None);
}

#[test]
fn a_key_that_cannot_be_asked_for_is_unset() {
    let mut git = FakeGit::default().on(&["config", "--get", "a.b"], Ok("  v \n"));
    assert_eq!(get(&mut git, "a.b"), Some("v".to_string()));
    assert_eq!(get(&mut git, "not.canned"), None);
}
