use git_barber::cli::{Cli, Mode, Shell};

fn no_flags() -> Cli {
    Cli {
        base: None,
        list: false,
        json: false,
        yes: false,
        remote: false,
        include_gone: false,
        protect: vec![],
        fetch: false,
        dir: None,
        no_cache: false,
        completions: None,
        man: false,
    }
}

#[test]
fn default_is_tui_in_tty_and_list_otherwise() {
    let cli = no_flags();
    assert_eq!(cli.mode_with(true), Mode::Tui);
    assert_eq!(cli.mode_with(false), Mode::List);
}

#[test]
fn yes_with_json_is_the_result_report() {
    let cli = Cli {
        yes: true,
        json: true,
        ..no_flags()
    };
    assert_eq!(cli.mode_with(true), Mode::Execute);
    assert_eq!(cli.mode_with(false), Mode::Execute);
}

#[test]
fn json_and_list_force_listing() {
    let json = Cli {
        json: true,
        ..no_flags()
    };
    assert_eq!(json.mode_with(true), Mode::List);
    let list = Cli {
        list: true,
        ..no_flags()
    };
    assert_eq!(list.mode_with(true), Mode::List);
}

#[test]
fn completions_and_man_are_a_repository_free_mode() {
    // Generating a completion script or man page must work anywhere,
    // including outside a repository, so it cannot fall through to a
    // mode that scans one. --man is checked with tty=false because the
    // release build pipes it to a file.
    let completions = Cli {
        completions: Some(Shell::Zsh),
        ..no_flags()
    };
    assert_eq!(completions.mode_with(true), Mode::Generate);
    let man = Cli {
        man: true,
        ..no_flags()
    };
    assert_eq!(man.mode_with(false), Mode::Generate);
}
