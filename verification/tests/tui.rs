use git_barber::git::fake::FakeGit;
use git_barber::ops::{DeletionResult, LocalOutcome, RemoteOutcome};
use git_barber::scan::{Base, Candidate, CandidateScope, MergeKind, Scan};
use git_barber::tui::app::{Action, App, KeyCode, KeyEvent, KeyModifiers, Screen};
use git_barber::tui::preview::{newest, preview_text, PreviewDesk};
use git_barber::tui::ui::{
    body_and_footer, centered, choose_split, clamp_scroll, clip, confirm_area, confirm_hint,
    confirm_lines, confirm_title, dialog_width, list_hint, list_rows, list_title, list_warning,
    preview_body, preview_title, results_hint, results_rows, results_title, split_body, Area, Span,
    Split, Tone,
};

fn key(code: KeyCode) -> KeyEvent {
    KeyEvent::plain(code)
}

fn ctrl(c: char) -> KeyEvent {
    let modifiers = KeyModifiers {
        shift: false,
        control: true,
        other: false,
    };
    KeyEvent::new(KeyCode::Char(c), modifiers)
}

fn with_super() -> KeyModifiers {
    KeyModifiers {
        shift: false,
        control: false,
        other: true,
    }
}

fn with_shift() -> KeyModifiers {
    KeyModifiers {
        shift: true,
        control: false,
        other: false,
    }
}

fn candidate(name: &str, kind: MergeKind) -> Candidate {
    Candidate {
        name: name.into(),
        refname: format!("refs/heads/{name}"),
        sha: "0123456789abcdef0123".into(),
        kind,
        scope: CandidateScope::Local,
        upstream: (kind != MergeKind::Gone).then(|| format!("origin/{name}")),
        remote_name: Some("origin".into()),
        upstream_gone: kind == MergeKind::Gone,
        last_commit_unix: 0,
        subject: "subject".into(),
        upstream_ref: (kind != MergeKind::Gone).then(|| format!("refs/remotes/origin/{name}")),
    }
}

fn app() -> App {
    app_with_preview(true)
}

fn app_with_preview(preview_open: bool) -> App {
    let scan = Scan {
        base: Base {
            name: "origin/main".into(),
            refname: Some("refs/remotes/origin/main".into()),
            sha: "base000".into(),
        },
        candidates: vec![
            candidate("merged-a", MergeKind::Merged),
            candidate("squash-b", MergeKind::Squash),
            candidate("gone-c", MergeKind::Gone),
        ],
        warnings: vec![],
    };
    App::new(scan, false, 0, preview_open)
}

#[test]
fn defaults_preselect_high_confidence_only() {
    let app = app();
    let sel: Vec<bool> = app.items.iter().map(|i| i.selected).collect();
    assert_eq!(sel, vec![true, true, false]);
    assert_eq!(app.selected_count(), 2);
    assert_eq!(app.force_count(), 1); // the squash one
}

#[test]
fn ctrl_c_quits_from_every_screen() {
    for screen in [Screen::List, Screen::Confirm, Screen::Results] {
        let mut app = app();
        app.screen = screen;
        assert!(app.update(ctrl('c')).is_none());
        assert!(app.should_quit, "Ctrl+C must quit from {screen:?}");
    }
}

#[test]
fn modified_keys_do_not_alias_to_plain_letters() {
    let mut app = app();
    app.update(ctrl('n')); // Ctrl+N is "next" muscle memory, not deselect-all
    assert_eq!(app.selected_count(), 2, "Ctrl+N must not deselect");
    app.update(ctrl('a'));
    assert_eq!(app.selected_count(), 2, "Ctrl+A must not select all");
    app.update(KeyEvent::new(KeyCode::Char('a'), with_super()));
    assert_eq!(app.selected_count(), 2, "Cmd+A must not select all");
    assert!(!app.should_quit);
}

#[test]
fn shift_g_still_jumps_to_bottom() {
    // crossterm reports capital letters with the SHIFT modifier set; the
    // modifier mask must not swallow them.
    let mut app = app();
    app.update(KeyEvent::new(KeyCode::Char('G'), with_shift()));
    assert_eq!(app.cursor, 2);
}

#[test]
fn cursor_moves_and_clamps() {
    let mut app = app();
    app.update(key(KeyCode::Char('k')));
    assert_eq!(app.cursor, 0, "must clamp at top");
    app.update(key(KeyCode::Char('j')));
    app.update(key(KeyCode::Down));
    app.update(key(KeyCode::Char('j')));
    assert_eq!(app.cursor, 2, "must clamp at bottom");
    app.update(key(KeyCode::Char('g')));
    assert_eq!(app.cursor, 0);
    app.update(key(KeyCode::Char('G')));
    assert_eq!(app.cursor, 2);
}

#[test]
fn toggle_all_none_and_space() {
    let mut app = app();
    app.update(key(KeyCode::Char('n')));
    assert_eq!(app.selected_count(), 0);
    app.update(key(KeyCode::Char('a')));
    assert_eq!(app.selected_count(), 3);
    app.update(key(KeyCode::Char(' ')));
    assert_eq!(app.selected_count(), 2);
    assert!(!app.items[0].selected);
}

#[test]
fn remote_toggle_needs_a_live_upstream() {
    let mut app = app();
    app.update(key(KeyCode::Char('r')));
    assert!(app.items[0].remote, "merged-a tracks origin, r must toggle");
    app.update(key(KeyCode::Char('G')));
    app.update(key(KeyCode::Char('r')));
    assert!(
        !app.items[2].remote,
        "gone-c has no live upstream, r is a no-op"
    );
}

#[test]
fn enter_only_confirms_with_a_selection() {
    let mut app = app();
    app.update(key(KeyCode::Char('n')));
    app.update(key(KeyCode::Enter));
    assert_eq!(app.screen, Screen::List, "empty selection must not confirm");
    app.update(key(KeyCode::Char('a')));
    app.update(key(KeyCode::Enter));
    assert_eq!(app.screen, Screen::Confirm);
}

#[test]
fn confirm_yes_yields_exactly_the_selection() {
    let mut app = app();
    app.update(key(KeyCode::Char('r'))); // remote for merged-a
    app.update(key(KeyCode::Enter));
    let action = app.update(key(KeyCode::Char('y')));
    let Some(Action::Execute(plans)) = action else {
        panic!("expected Execute action");
    };
    assert_eq!(app.screen, Screen::Deleting);
    let got: Vec<(String, bool)> = plans
        .iter()
        .map(|p| (p.candidate.name.clone(), p.delete_remote))
        .collect();
    assert_eq!(
        got,
        vec![
            ("merged-a".to_string(), true),
            ("squash-b".to_string(), false)
        ]
    );
}

#[test]
fn confirm_esc_backs_out() {
    let mut app = app();
    app.update(key(KeyCode::Enter));
    assert!(app.update(key(KeyCode::Esc)).is_none());
    assert_eq!(app.screen, Screen::List);
    assert!(!app.should_quit);
}

#[test]
fn results_screen_scrolls_and_exits_on_q_but_not_enter() {
    let mut app = app();
    app.finish();
    app.update(key(KeyCode::Enter));
    assert!(
        !app.should_quit,
        "a queued Enter from the confirm screen must not dismiss results"
    );
    app.update(key(KeyCode::Char('j')));
    app.update(key(KeyCode::Char('j')));
    app.update(key(KeyCode::Char('k')));
    assert_eq!(app.results_scroll, 1);
    app.update(key(KeyCode::Char('q')));
    assert!(app.should_quit);
}

#[test]
fn quit_from_list_deletes_nothing() {
    let mut app = app();
    assert!(app.update(key(KeyCode::Char('q'))).is_none());
    assert!(app.should_quit);
    assert!(app.results.is_empty());
}
#[test]
fn the_highlighted_branch_is_the_one_whose_preview_is_wanted() {
    let mut app = app();
    assert_eq!(app.pending_preview(), Some("merged-a"));

    // Once the driver has answered, nothing more is wanted for it.
    app.set_preview("merged-a".into(), "two commits".into());
    assert_eq!(app.pending_preview(), None);
    assert_eq!(app.preview(), Some("two commits"));

    // Moving the cursor asks for the next branch instead.
    app.update(key(KeyCode::Char('j')));
    assert_eq!(app.pending_preview(), Some("squash-b"));
    assert_eq!(app.preview(), None);
}

#[test]
fn a_closed_preview_panel_asks_for_nothing() {
    // Closing the panel has to actually save the git calls, not merely
    // hide their result.
    let mut app = app_with_preview(false);
    assert_eq!(app.pending_preview(), None);

    app.update(key(KeyCode::Char('p')));
    assert!(app.preview_open);
    assert_eq!(app.pending_preview(), Some("merged-a"));

    app.update(key(KeyCode::Char('p')));
    assert!(!app.preview_open);
    assert_eq!(app.pending_preview(), None);
}

#[test]
fn a_fetched_preview_is_remembered_when_the_cursor_comes_back() {
    let mut app = app();
    app.set_preview("merged-a".into(), "cached".into());
    app.update(key(KeyCode::Char('j')));
    app.set_preview("squash-b".into(), "other".into());
    app.update(key(KeyCode::Char('k')));
    assert_eq!(app.pending_preview(), None, "must not fetch twice");
    assert_eq!(app.preview(), Some("cached"));
}

#[test]
fn p_is_inert_outside_the_list_screen() {
    // The confirm dialog owns y/n; a stray 'p' there must not silently
    // change what the next screen shows.
    let mut app = app();
    app.screen = Screen::Confirm;
    app.update(key(KeyCode::Char('p')));
    assert!(app.preview_open, "confirm screen must not toggle the panel");
    assert_eq!(app.screen, Screen::Confirm);
}

fn base() -> Base {
    Base {
        name: "origin/main".into(),
        refname: Some("refs/remotes/origin/main".into()),
        sha: "base000".into(),
    }
}

/// Ranges are built from FULL refnames and terminated with `--`. Both
/// matter: a branch named `-f` or one colliding with a path must not be
/// able to turn into a git option. FakeGit matches argv exactly, so this
/// fixture pins the invocation.
fn git_for(name: &str, log: Result<&str, &str>, stat: Result<&str, &str>) -> FakeGit {
    FakeGit::default()
        .on(
            &[
                "log",
                "--oneline",
                "--no-decorate",
                "--max-count=20",
                &format!("refs/remotes/origin/main..refs/heads/{name}"),
                "--",
            ],
            log,
        )
        .on(
            &[
                "diff",
                "--shortstat",
                "--no-ext-diff",
                "--no-textconv",
                &format!("refs/remotes/origin/main...refs/heads/{name}"),
                "--",
            ],
            stat,
        )
}

#[test]
fn preview_shows_the_commits_the_base_lacks_and_the_size_of_the_diff() {
    let mut git = git_for(
        "feat",
        Ok("abc1234 add thing\ndef5678 fix thing\n"),
        Ok(" 2 files changed, 10 insertions(+), 1 deletion(-)\n"),
    );
    let text = preview_text(&mut git, &base(), "refs/heads/feat");
    assert!(text.contains("abc1234 add thing"), "{text}");
    assert!(text.contains("def5678 fix thing"), "{text}");
    assert!(text.contains("2 files changed"), "{text}");
}

#[test]
fn a_failed_preview_becomes_panel_text_rather_than_ending_the_session() {
    // The user is mid-way through choosing what to delete; a broken
    // preview must not throw that away.
    let mut git = git_for("feat", Err("fatal: bad object"), Err("fatal: bad object"));
    let text = preview_text(&mut git, &base(), "refs/heads/feat");
    assert!(text.contains("preview unavailable"), "{text}");
    assert!(text.contains("bad object"), "{text}");
}

#[test]
fn a_branch_carrying_nothing_new_says_so_instead_of_showing_a_blank_panel() {
    let mut git = git_for("feat", Ok(""), Ok(""));
    let text = preview_text(&mut git, &base(), "refs/heads/feat");
    assert!(text.contains("no commits"), "{text}");
}

#[test]
fn a_missing_diffstat_still_leaves_the_commit_list_usable() {
    // `git diff` can fail on its own (e.g. a corrupt index) — that must
    // cost the stat line, not the whole preview.
    let mut git = git_for("feat", Ok("abc1234 add thing\n"), Err("fatal: broken"));
    let text = preview_text(&mut git, &base(), "refs/heads/feat");
    assert!(text.contains("abc1234 add thing"), "{text}");
    assert!(!text.contains("preview unavailable"), "{text}");
}

fn ui_candidate(name: &str, kind: MergeKind) -> Candidate {
    Candidate {
        name: name.into(),
        refname: format!("refs/heads/{name}"),
        sha: "0123456789abcdef0123".into(),
        kind,
        scope: CandidateScope::Local,
        upstream: Some(format!("origin/{name}")),
        remote_name: Some("origin".into()),
        upstream_gone: kind == MergeKind::Gone,
        last_commit_unix: 0,
        subject: "subject".into(),
        upstream_ref: Some(format!("refs/remotes/origin/{name}")),
    }
}

fn ui_app() -> App {
    let scan = Scan {
        base: base(),
        candidates: vec![
            ui_candidate("merged-a", MergeKind::Merged),
            ui_candidate("gone-c", MergeKind::Gone),
        ],
        warnings: vec!["shallow repository: probes disabled".into()],
    };
    App::new(scan, false, 86_400, false)
}

fn line_text(line: &[Span]) -> String {
    line.iter().map(|s| s.text.as_str()).collect()
}

/// Everything a terminal of 24 rows would be asked to draw.
fn screen_text(app: &mut App) -> String {
    let mut parts: Vec<String> = Vec::new();
    match app.screen {
        Screen::List | Screen::Confirm => {
            parts.push(list_title(app));
            parts.extend(list_rows(app).iter().map(|r| line_text(r)));
            parts.extend(list_warning(app));
            parts.push(list_hint(app));
            if app.screen == Screen::Confirm {
                parts.push(confirm_title().into());
                parts.extend(confirm_lines(app, 24).into_iter().map(|l| l.text));
                parts.push(confirm_hint().into());
            }
        }
        Screen::Deleting | Screen::Results => {
            parts.push(results_title(app));
            parts.extend(results_rows(app).iter().map(|r| line_text(r)));
            parts.push(results_hint(app).into());
        }
    }
    parts.join("\n")
}

fn area(x: u16, y: u16, width: u16, height: u16) -> Area {
    Area {
        x,
        y,
        width,
        height,
    }
}

#[test]
fn list_screen_shows_names_badges_warning_and_hints() {
    let mut app = ui_app();
    let text = screen_text(&mut app);
    for needle in [
        "merged-a",
        "gone-c",
        "merged",
        "gone",
        "origin/main",
        "enter delete",
        "shallow repository",
        "r:[ ]",
    ] {
        assert!(text.contains(needle), "missing {needle:?}");
    }
}

#[test]
fn confirm_modal_puts_remote_first_with_real_target() {
    let mut app = ui_app();
    app.update(key(KeyCode::Char('r'))); // remote for merged-a
    app.update(key(KeyCode::Enter));
    let text = screen_text(&mut app);
    assert!(text.contains("confirm deletion"));
    assert!(text.contains("y confirm"));
    let remote_pos = text.find("DELETE ON REMOTE").expect("remote section");
    let gentle_pos = text.find("git branch -d").expect("gentle section");
    assert!(remote_pos < gentle_pos, "remote section must render first");
    assert!(text.contains("deletes origin/merged-a"));
}

#[test]
fn results_screen_shows_outcomes_and_undo() {
    let mut app = ui_app();
    app.apply_result(DeletionResult {
        name: "merged-a".into(),
        sha: "0123456789abcdef0123".into(),
        kind: MergeKind::Merged,
        local: LocalOutcome::Deleted,
        remote: RemoteOutcome::Deleted {
            target: "origin/merged-a".into(),
            sha: "0123456789abcdef0123".into(),
        },
        undo: vec!["git branch merged-a 0123456789ab".into()],
    });
    app.finish();
    let text = screen_text(&mut app);
    assert!(text.contains("results"));
    assert!(text.contains("deleted"));
    assert!(text.contains("deleted origin/merged-a on remote"));
    assert!(text.contains("git branch merged-a 0123456789ab"));
}

#[test]
fn long_names_are_clipped_not_row_breaking() {
    let mut app = ui_app();
    app.items[0].candidate.name = "feature/".repeat(12); // 96 chars
    let text = screen_text(&mut app);
    assert!(
        text.contains('…'),
        "long names must be clipped with an ellipsis"
    );
}
#[test]
fn a_wide_terminal_puts_the_preview_beside_the_list() {
    let (list, preview) = split_body(area(0, 0, 120, 30), true);
    let preview = preview.expect("an open panel must get an area");
    assert_eq!(list.y, preview.y, "expected a side-by-side split");
    assert!(preview.x >= list.x + list.width, "panes must not overlap");
}

#[test]
fn a_narrow_terminal_stacks_the_preview_under_the_list() {
    // Side by side under ~100 columns would squeeze branch names to
    // nothing, which is worse than losing rows.
    let (list, preview) = split_body(area(0, 0, 80, 30), true);
    let preview = preview.expect("an open panel must get an area");
    assert_eq!(list.x, preview.x, "expected a stacked split");
    assert!(preview.y >= list.y + list.height, "panes must not overlap");
}

#[test]
fn a_closed_panel_gives_the_whole_body_to_the_list() {
    let whole = area(0, 0, 120, 30);
    let (list, preview) = split_body(whole, false);
    assert_eq!(list, whole);
    assert!(preview.is_none());
}

#[test]
fn a_short_terminal_shrinks_the_preview_rather_than_the_list() {
    // The list is what the user is choosing from; it must never collapse
    // to nothing just because the panel wants ten rows.
    let (list, _) = split_body(area(0, 0, 80, 6), true);
    assert!(list.height >= 3, "list collapsed to {} rows", list.height);
}

#[test]
fn the_rows_of_the_list_are_exactly_these() {
    let mut app = ui_app();
    app.items[0].remote = true;
    app.items[1].candidate.upstream = None;
    let rows = list_rows(&app);
    let flat: Vec<(&str, Tone)> = rows[0].iter().map(|s| (s.text.as_str(), s.tone)).collect();
    assert_eq!(
        flat,
        vec![
            ("[x] ", Tone::Plain),
            ("r:[x] ", Tone::Red),
            ("merged-a  ", Tone::Plain),
            ("merged", Tone::Green),
            ("    1d ago", Tone::Dim),
            ("  ↑ origin/merged-a", Tone::Dim),
        ]
    );
    let flat: Vec<(&str, Tone)> = rows[1].iter().map(|s| (s.text.as_str(), s.tone)).collect();
    assert_eq!(
        flat,
        vec![
            ("[ ] ", Tone::Plain),
            ("      ", Tone::Plain),
            ("gone-c    ", Tone::Plain),
            ("gone  ", Tone::Red),
            ("    1d ago", Tone::Dim),
        ]
    );
    assert_eq!(
        list_title(&app),
        " git barber · base origin/main · 2 candidates "
    );
    assert_eq!(
        list_hint(&app),
        " 1 sel · 0 force · 1 remote │ space a n r p · enter delete · q quit"
    );
}

#[test]
fn warnings_beyond_the_first_are_counted() {
    let mut app = ui_app();
    assert_eq!(
        list_warning(&app),
        Some(" ! shallow repository: probes disabled ".to_string())
    );
    app.warnings.push("b".into());
    app.warnings.push("c".into());
    assert_eq!(
        list_warning(&app),
        Some(" ! shallow repository: probes disabled (+2 more) ".to_string())
    );
    app.warnings.clear();
    assert_eq!(list_warning(&app), None);
}

#[test]
fn a_small_terminal_cuts_the_safe_tail_of_the_dialog() {
    let mut app = ui_app();
    app.update(key(KeyCode::Char('a')));
    app.update(key(KeyCode::Char('r')));
    let all = confirm_lines(&app, 24);
    let texts: Vec<&str> = all.iter().map(|l| l.text.as_str()).collect();
    assert_eq!(
        texts,
        vec![
            "DELETE ON REMOTE — affects everyone:",
            "  deletes origin/merged-a  (local: merged-a)",
            "Force delete (upstream gone — may hold unmerged commits):",
            "  gone-c",
            "Delete (git branch -d):",
            "  merged-a",
        ]
    );
    assert_eq!(all[0].tone, Tone::BoldRed);
    let cut = confirm_lines(&app, 5);
    let texts: Vec<&str> = cut.iter().map(|l| l.text.as_str()).collect();
    assert_eq!(
        texts,
        vec![
            "DELETE ON REMOTE — affects everyone:",
            "  deletes origin/merged-a  (local: merged-a)",
            "… and 4 more",
        ]
    );
    let none = confirm_lines(&app, 0);
    assert_eq!(none.len(), 1);
    assert_eq!(none[0].text, "… and 6 more");
}

#[test]
fn the_dialog_is_as_wide_as_its_widest_line() {
    // Wide characters take two cells each.
    let wide = Span {
        text: "漢".repeat(30),
        tone: Tone::Plain,
    };
    let narrow = Span {
        text: "x".into(),
        tone: Tone::Plain,
    };
    let r = confirm_area(area(0, 0, 100, 20), &vec![narrow, wide]);
    assert_eq!(r, area(18, 8, 64, 4));
    assert_eq!(dialog_width(0), 40);
    assert_eq!(dialog_width(36), 40);
    assert_eq!(dialog_width(37), 41);
    assert_eq!(dialog_width(65_531), 65_535);
    assert_eq!(dialog_width(65_532), 40);
}

#[test]
fn boxes_are_centered_and_cut_to_fit() {
    assert_eq!(centered(area(0, 0, 80, 24), 40, 10), area(20, 7, 40, 10));
    assert_eq!(centered(area(2, 3, 10, 4), 40, 10), area(2, 3, 10, 4));
    assert_eq!(centered(area(0, 0, 11, 5), 4, 2), area(3, 1, 4, 2));
}

#[test]
fn names_are_clipped_to_the_character() {
    assert_eq!(clip("abc", 3), "abc");
    assert_eq!(clip("abcd", 3), "ab…");
    assert_eq!(clip("äöüß", 3), "äö…");
    assert_eq!(clip("abcd", 0), "…");
    assert_eq!(clip("", 0), "");
}

#[test]
fn results_cannot_be_scrolled_past_their_end() {
    let mut app = ui_app();
    app.results_scroll = 9;
    clamp_scroll(&mut app, 12, 7);
    assert_eq!(app.results_scroll, 7);
    clamp_scroll(&mut app, 12, 100);
    assert_eq!(app.results_scroll, 0);
}

#[test]
fn the_title_counts_the_batch() {
    let mut app = ui_app();
    app.screen = Screen::Deleting;
    app.in_flight = Some("merged-a".into());
    assert_eq!(results_title(&app), " deleting 1/1 → merged-a … ");
    let rows = results_rows(&app);
    assert_eq!(line_text(&rows[0]), "  → merged-a …");
    assert_eq!(results_hint(&app), " working… (results are reprinted after exit)");
    app.in_flight = None;
    assert_eq!(results_title(&app), " deleting 0/1 … ");
    app.finish();
    assert_eq!(results_title(&app), " results ");
    assert_eq!(
        results_hint(&app),
        " j/k scroll · q exit (results are reprinted after exit)"
    );
}

#[test]
fn the_preview_panel_says_when_it_is_waiting() {
    let mut app = ui_app();
    assert_eq!(preview_title(&app), " merged-a ");
    assert_eq!(preview_body(&app), "loading…");
    app.set_preview("merged-a".into(), "two commits".into());
    assert_eq!(preview_body(&app), "two commits");
}

#[test]
fn a_preview_is_requested_once_and_again_after_a_detour() {
    let mut app = app();
    let mut desk = PreviewDesk::new();
    assert_eq!(
        desk.next_request(&app),
        Some(("merged-a".to_string(), "refs/heads/merged-a".to_string()))
    );
    assert_eq!(desk.next_request(&app), None, "already with the worker");
    app.update(key(KeyCode::Char('j')));
    assert_eq!(
        desk.next_request(&app),
        Some(("squash-b".to_string(), "refs/heads/squash-b".to_string()))
    );
    // The worker skipped the first request; going back asks again.
    app.update(key(KeyCode::Char('k')));
    assert_eq!(
        desk.next_request(&app),
        Some(("merged-a".to_string(), "refs/heads/merged-a".to_string()))
    );
    desk.answered(&mut app, "merged-a".into(), "text".into());
    assert_eq!(app.preview(), Some("text"));
    assert_eq!(desk.next_request(&app), None, "fetched and remembered");
}

#[test]
fn remote_only_candidates_are_preselected_and_armed() {
    let mut c = candidate("origin/old", MergeKind::Merged);
    c.scope = CandidateScope::RemoteOnly;
    c.upstream = Some("origin/old".into());
    let scan = Scan {
        base: base(),
        candidates: vec![c, candidate("merged-a", MergeKind::Merged)],
        warnings: vec![],
    };
    let app = App::new(scan, false, 0, false);
    assert!(app.items[0].selected && app.items[0].remote);
    assert!(app.items[1].selected && !app.items[1].remote);
    assert_eq!(app.remote_only_count(), 1);
    assert_eq!(app.remote_count(), 1);
    assert!(!app.any_failed());
}

#[test]
fn the_panel_moves_below_the_list_under_a_hundred_columns() {
    let beside = Split::Beside {
        min: 40,
        percent: 45,
    };
    let above = Split::Above {
        min: 3,
        length: 10,
    };
    assert_eq!(choose_split(100, true), beside);
    assert_eq!(choose_split(99, true), above);
    assert_eq!(choose_split(200, false), Split::Whole);
    let (list, preview) = split_body(area(3, 4, 60, 30), true);
    let preview = preview.unwrap();
    assert_eq!((list.x, list.width), (3, 60));
    assert_eq!((list.y, list.height), (4, 20));
    assert_eq!((preview.y, preview.height), (24, 10));
}

#[test]
fn the_preview_gets_its_share_of_the_columns() {
    let (list, preview) = split_body(area(0, 0, 120, 30), true);
    assert_eq!(list, area(0, 0, 66, 30));
    assert_eq!(preview, Some(area(66, 0, 54, 30)));
    // A line that falls in the middle of a column is moved to the right.
    let (list, preview) = split_body(area(5, 2, 110, 9), true);
    assert_eq!(list, area(5, 2, 61, 9));
    assert_eq!(preview, Some(area(66, 2, 49, 9)));
    for width in 100..400u16 {
        for x in [0, 7, 1000] {
            let wanted = (u32::from(width) * 45 + 49) / 100;
            let share = wanted.min(u32::from(width) - 40) as u16;
            let (list, preview) = split_body(area(x, 1, width, 3), true);
            assert_eq!(list, area(x, 1, width - share, 3));
            assert_eq!(preview, Some(area(x + width - share, 1, share, 3)));
        }
    }
}

#[test]
fn the_preview_gets_the_rows_that_the_list_can_spare() {
    for height in 0..200u16 {
        for y in [0, 3, 500] {
            let share = height.saturating_sub(3).min(10);
            let (list, preview) = split_body(area(2, y, 80, height), true);
            assert_eq!(list, area(2, y, 80, height - share));
            assert_eq!(preview, Some(area(2, y + height - share, 80, share)));
        }
    }
}

#[test]
fn cells_beyond_the_last_number_are_not_divided() {
    let (list, preview) = split_body(area(65500, 0, 200, 5), true);
    assert_eq!(list, area(65500, 0, 35, 5));
    assert_eq!(preview, Some(area(65535, 0, 0, 5)));
    let (list, preview) = split_body(area(65300, 0, 400, 5), true);
    assert_eq!(list, area(65300, 0, 129, 5));
    assert_eq!(preview, Some(area(65429, 0, 106, 5)));
    let (list, preview) = split_body(area(0, 65525, 80, 50), true);
    assert_eq!(list, area(0, 65525, 80, 3));
    assert_eq!(preview, Some(area(0, 65528, 80, 7)));
    let (list, preview) = split_body(area(0, 0, 65535, 1), true);
    assert_eq!(list, area(0, 0, 36044, 1));
    assert_eq!(preview, Some(area(36044, 0, 29491, 1)));
}

#[test]
fn the_hints_get_the_last_row() {
    assert_eq!(
        body_and_footer(area(0, 0, 80, 24)),
        (area(0, 0, 80, 23), area(0, 23, 80, 1))
    );
    assert_eq!(
        body_and_footer(area(4, 6, 80, 1)),
        (area(4, 6, 80, 0), area(4, 6, 80, 1))
    );
    assert_eq!(
        body_and_footer(area(4, 6, 80, 0)),
        (area(4, 6, 80, 0), area(4, 6, 80, 0))
    );
}

#[test]
fn every_key_leaves_the_cursor_on_an_item() {
    let mut app = app();
    let last = app.items.len() - 1;
    let names: Vec<String> = app.items.iter().map(|i| i.candidate.name.clone()).collect();
    for start in 0..=last {
        for (code, expected) in [
            (KeyCode::Char('j'), (start + 1).min(last)),
            (KeyCode::Down, (start + 1).min(last)),
            (KeyCode::Char('k'), start.saturating_sub(1)),
            (KeyCode::Up, start.saturating_sub(1)),
            (KeyCode::Char('g'), 0),
            (KeyCode::Char('G'), last),
            (KeyCode::Char(' '), start),
            (KeyCode::Char('x'), start),
        ] {
            app.cursor = start;
            app.update(key(code));
            assert_eq!(app.cursor, expected);
            app.cursor = start;
            app.update_list(key(code));
            assert_eq!(app.cursor, expected);
        }
    }
    let after: Vec<String> = app.items.iter().map(|i| i.candidate.name.clone()).collect();
    assert_eq!(after, names);
}

#[test]
fn a_batch_is_shown_branch_by_branch() {
    let mut app = app();
    app.take_up("merged-a".into());
    assert_eq!(app.in_flight.as_deref(), Some("merged-a"));
    app.put_down(DeletionResult {
        name: "merged-a".into(),
        sha: "0123456789abcdef0123".into(),
        kind: MergeKind::Merged,
        local: LocalOutcome::Deleted,
        remote: RemoteOutcome::Skipped,
        undo: vec![],
    });
    assert_eq!(app.in_flight, None);
    assert_eq!(app.results.len(), 1);
    assert_eq!(app.results[0].name, "merged-a");
}

#[test]
fn keys_typed_during_a_batch_only_quit_on_ctrl_c() {
    let mut app = app();
    app.finish();
    for code in [KeyCode::Char('q'), KeyCode::Esc, KeyCode::Char('j')] {
        app.drained(key(code));
        assert!(!app.should_quit);
        assert_eq!(app.results_scroll, 0);
    }
    app.drained(ctrl('c'));
    assert!(app.should_quit);
    app.drained(key(KeyCode::Char('q')));
    assert!(app.should_quit);
}

#[test]
fn the_newest_preview_request_is_served() {
    let request = |name: &str| (name.to_string(), format!("refs/heads/{name}"));
    assert_eq!(newest(request("a"), vec![]), request("a"));
    let later = vec![request("b"), request("c")];
    assert_eq!(newest(request("a"), later), request("c"));
}
