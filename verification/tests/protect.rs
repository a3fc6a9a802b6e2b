use git_barber::git::fake::FakeGit;
use git_barber::scan::protect::{is_protected, protected_patterns};

#[test]
fn configured_and_given_patterns_add_to_the_defaults() {
    let mut git = FakeGit::default().on(
        &["config", "--get-all", "barber.protect"],
        Ok("release/*, staging\n,\nqa\n"),
    );
    let extra = vec![" hot* ".to_string(), "  ".to_string()];
    let patterns = protected_patterns(&mut git, &extra).unwrap();
    assert_eq!(
        patterns,
        vec!["main", "master", "develop", "release/*", "staging", "qa", "hot*"]
    );
    for name in ["main", "master", "develop", "release/1.0", "qa", "hotfix"] {
        assert!(is_protected(name, &patterns), "{name}");
    }
    for name in ["main2", "released", "feature/hot"] {
        assert!(!is_protected(name, &patterns), "{name}");
    }
}

#[test]
fn an_unset_key_leaves_the_defaults() {
    let mut git = FakeGit::default().on(&["config", "--get-all", "barber.protect"], Err("main2"));
    assert_eq!(
        protected_patterns(&mut git, &[]).unwrap(),
        vec!["main", "master", "develop"]
    );
}
