//! What each key does, what is counted, and what the panel asks and shows.

use vstd::prelude::*;

use crate::git::Reply;
use crate::ops::{self, DeletionResult, PlanView};
use crate::scan::{CandidateScope, MergeKind, ScanView};
use crate::text;
use crate::tui::app::{self, Action, App, AppView, ItemView, KeyCode, KeyEvent, Screen};
use crate::tui::preview::{self, PreviewDesk};

verus! {

/// A key pressed alone, or with SHIFT.
pub open spec fn is_bare(key: KeyEvent) -> bool {
    !key.modifiers.control && !key.modifiers.other
}

/// Nothing differs between the two but what stands in the items.
pub open spec fn only_items_differ(a: AppView, b: AppView) -> bool {
    b == AppView { items: b.items, ..a } && a.items.len() == b.items.len()
}

/// With Ctrl, `c` and `C` quit on every screen and nothing else does
/// anything; with Alt, Super, Hyper or Meta and no Ctrl no key does.
pub proof fn law_held_keys(a: AppView, key: KeyEvent)
    ensures
        key.modifiers.control && (key.code == KeyCode::Char('c') || key.code == KeyCode::Char('C'))
            ==> a.after(key) == (AppView { should_quit: true, ..a }) && a.asks(key) is None
            && key.interrupts(),
        key.modifiers.control && key.code != KeyCode::Char('c') && key.code != KeyCode::Char('C')
            ==> a.after(key) == a && a.asks(key) is None && !key.interrupts(),
        !key.modifiers.control && key.modifiers.other ==> a.after(key) == a && a.asks(key) is None
            && !key.interrupts(),
        is_bare(key) ==> !key.interrupts(),
{
}

/// Space turns the selection of the highlighted item over and touches nothing
/// else.
pub proof fn law_space_toggles_one(a: AppView, key: KeyEvent, k: int)
    requires
        a.screen == Screen::List,
        is_bare(key),
        key.code == KeyCode::Char(' '),
        0 <= k < a.items.len(),
    ensures
        only_items_differ(a, a.after(key)),
        a.asks(key) is None,
        a.after(key).items[k].candidate == a.items[k].candidate,
        a.after(key).items[k].remote == a.items[k].remote,
        a.after(key).items[k].selected <==> (a.items[k].selected != (k == a.cursor)),
{
}

/// `a` selects everything and `n` nothing; neither touches what is armed.
pub proof fn law_a_takes_all_and_n_none(a: AppView, key: KeyEvent, k: int)
    requires
        a.screen == Screen::List,
        is_bare(key),
        key.code == KeyCode::Char('a') || key.code == KeyCode::Char('n'),
        0 <= k < a.items.len(),
    ensures
        only_items_differ(a, a.after(key)),
        a.asks(key) is None,
        a.after(key).items[k].candidate == a.items[k].candidate,
        a.after(key).items[k].remote == a.items[k].remote,
        a.after(key).items[k].selected <==> key.code == KeyCode::Char('a'),
{
}

/// `r` arms or disarms the remote deletion of the highlighted item, if that
/// has a live remote branch, and touches nothing else.
pub proof fn law_r_arms_one(a: AppView, key: KeyEvent, k: int)
    requires
        a.screen == Screen::List,
        is_bare(key),
        key.code == KeyCode::Char('r'),
        0 <= k < a.items.len(),
    ensures
        only_items_differ(a, a.after(key)),
        a.asks(key) is None,
        a.after(key).items[k].candidate == a.items[k].candidate,
        a.after(key).items[k].selected == a.items[k].selected,
        a.after(key).items[k].remote <==> (a.items[k].remote != (k == a.cursor && ops::counterpart(
            a.items[k].candidate,
        ) is Some)),
{
    if a.cursor < a.items.len() {
        let c = a.cursor as int;
        assert(a.after(key).items =~= if a.items[c].can_remote() {
            a.items.update(c, ItemView { remote: !a.items[c].remote, ..a.items[c] })
        } else {
            a.items
        });
    }
}

/// Enter asks for confirmation if something is selected, and otherwise does
/// nothing.
pub proof fn law_enter_asks_first(a: AppView, key: KeyEvent)
    requires
        a.screen == Screen::List,
        is_bare(key),
        key.code == KeyCode::Enter,
    ensures
        a.asks(key) is None,
        (exists|k: int| 0 <= k < a.items.len() && (#[trigger] a.items[k]).selected) ==> a.after(key)
            == (AppView { screen: Screen::Confirm, ..a }),
        (forall|k: int| 0 <= k < a.items.len() ==> !(#[trigger] a.items[k]).selected)
            ==> a.after(key) == a,
{
    lemma_count(a.items, |i: ItemView| i.selected);
    if exists|k: int| 0 <= k < a.items.len() && (#[trigger] a.items[k]).selected {
        let k = choose|k: int| 0 <= k < a.items.len() && (#[trigger] a.items[k]).selected;
        let p = |i: ItemView| i.selected;
        assert(p(a.items[k]));
    }
}

proof fn lemma_count(items: Seq<ItemView>, p: spec_fn(ItemView) -> bool)
    ensures
        app::count_of(items, p) > 0 <==> exists|k: int| 0 <= k < items.len() && p(#[trigger] items[k]),
    decreases items.len(),
{
    if items.len() > 0 {
        let rest = items.drop_last();
        lemma_count(rest, p);
        assert(items[items.len() - 1] == items.last());
        if app::count_of(rest, p) > 0 {
            let k = choose|k: int| 0 <= k < rest.len() && p(#[trigger] rest[k]);
            assert(p(items[k]));
        }
        if exists|k: int| 0 <= k < items.len() && p(#[trigger] items[k]) {
            let k = choose|k: int| 0 <= k < items.len() && p(#[trigger] items[k]);
            if k < rest.len() {
                assert(p(rest[k]));
            }
        }
    }
}

/// The other keys of the list: `p` opens and closes the panel, `q` and Esc
/// quit, `j`, `k`, `g`, `G` and the arrows move the cursor and nothing else,
/// and a key that is none of these does nothing.
pub proof fn law_other_keys_of_the_list(a: AppView, key: KeyEvent, c: char)
    requires
        a.screen == Screen::List,
        is_bare(key),
    ensures
        a.asks(key) is None,
        key.code == KeyCode::Char('p') ==> a.after(key) == (AppView {
            preview_open: !a.preview_open,
            ..a
        }),
        key.code == KeyCode::Char('q') || key.code == KeyCode::Esc ==> a.after(key) == (AppView {
            should_quit: true,
            ..a
        }),
        key.code == KeyCode::Char('j') || key.code == KeyCode::Char('k') || key.code
            == KeyCode::Char('g') || key.code == KeyCode::Char('G') || key.code == KeyCode::Up
            || key.code == KeyCode::Down ==> a.after(key) == (AppView {
            cursor: a.after(key).cursor,
            ..a
        }),
        key.code == KeyCode::Other ==> a.after(key) == a,
        key.code == KeyCode::Char(c) && c != 'j' && c != 'k' && c != 'g' && c != 'G' && c != ' '
            && c != 'a' && c != 'n' && c != 'r' && c != 'p' && c != 'q' ==> a.after(key) == a,
{
}

/// Where the cursor goes: `j` and Down one on, `k` and Up one back, `g` to the
/// first item and `G` to the last, never off the list.
pub proof fn law_where_the_cursor_goes(a: AppView, key: KeyEvent)
    requires
        a.screen == Screen::List,
        is_bare(key),
        a.cursor < a.items.len(),
        a.items.len() <= usize::MAX,
    ensures
        (key.code == KeyCode::Char('j') || key.code == KeyCode::Down) && a.cursor + 1
            < a.items.len() ==> a.after(key).cursor == a.cursor + 1,
        (key.code == KeyCode::Char('j') || key.code == KeyCode::Down) && a.cursor + 1
            == a.items.len() ==> a.after(key).cursor == a.cursor,
        (key.code == KeyCode::Char('k') || key.code == KeyCode::Up) && a.cursor > 0
            ==> a.after(key).cursor == a.cursor - 1,
        (key.code == KeyCode::Char('k') || key.code == KeyCode::Up) && a.cursor == 0
            ==> a.after(key).cursor == 0,
        key.code == KeyCode::Char('g') ==> a.after(key).cursor == 0,
        key.code == KeyCode::Char('G') ==> a.after(key).cursor == a.items.len() - 1,
{
}

/// The dialog: `y` and Enter begin the deletions, and hand over what is
/// planned; `n`, `q` and Esc go back to the list; nothing else does anything.
pub proof fn law_keys_of_the_dialog(a: AppView, key: KeyEvent)
    requires
        a.screen == Screen::Confirm,
        is_bare(key),
    ensures
        key.code == KeyCode::Char('y') || key.code == KeyCode::Enter ==> a.after(key) == (AppView {
            screen: Screen::Deleting,
            ..a
        }) && a.asks(key) == Some(app::plans_of(a.items)),
        key.code == KeyCode::Char('n') || key.code == KeyCode::Char('q') || key.code
            == KeyCode::Esc ==> a.after(key) == (AppView { screen: Screen::List, ..a }) && a.asks(
            key,
        ) is None,
        key.code != KeyCode::Char('y') && key.code != KeyCode::Enter && key.code != KeyCode::Char(
            'n',
        ) && key.code != KeyCode::Char('q') && key.code != KeyCode::Esc ==> a.after(key) == a
            && a.asks(key) is None,
{
}

/// While deletions run, no plain key does anything.
pub proof fn law_keys_wait_for_the_deletions(a: AppView, key: KeyEvent)
    requires
        a.screen == Screen::Deleting,
        is_bare(key),
    ensures
        a.after(key) == a,
        a.asks(key) is None,
{
}

/// The results: `q` and Esc quit, `j` and Down scroll on, `k` and Up back, as
/// far as there is to go; nothing else does anything.
pub proof fn law_keys_of_the_results(a: AppView, key: KeyEvent)
    requires
        a.screen == Screen::Results,
        is_bare(key),
    ensures
        a.asks(key) is None,
        key.code == KeyCode::Char('q') || key.code == KeyCode::Esc ==> a.after(key) == (AppView {
            should_quit: true,
            ..a
        }),
        (key.code == KeyCode::Char('j') || key.code == KeyCode::Down) && a.results_scroll
            < u16::MAX ==> a.after(key) == (AppView {
            results_scroll: (a.results_scroll + 1) as u16,
            ..a
        }),
        (key.code == KeyCode::Char('k') || key.code == KeyCode::Up) && a.results_scroll > 0
            ==> a.after(key) == (AppView {
            results_scroll: (a.results_scroll - 1) as u16,
            ..a
        }),
        (key.code == KeyCode::Char('j') || key.code == KeyCode::Down) && a.results_scroll
            == u16::MAX ==> a.after(key) == a,
        (key.code == KeyCode::Char('k') || key.code == KeyCode::Up) && a.results_scroll == 0
            ==> a.after(key) == a,
        key.code != KeyCode::Char('q') && key.code != KeyCode::Esc && key.code != KeyCode::Char('j')
            && key.code != KeyCode::Down && key.code != KeyCode::Char('k') && key.code
            != KeyCode::Up ==> a.after(key) == a,
{
}

/// What is counted: the selected items, those of them that need force, those
/// of them whose remote branch goes too, and the candidates without a local
/// branch. One more item adds itself to each count that it belongs to.
pub proof fn law_what_is_counted(a: AppView, i: ItemView)
    ensures
        ({
            let none = AppView { items: Seq::empty(), ..a };
            let more = AppView { items: a.items.push(i), ..a };
            &&& none.selected() == 0 && none.forced() == 0 && none.remote() == 0
                && none.remote_only() == 0
            &&& more.selected() - a.selected() == (if i.selected {
                1int
            } else {
                0int
            })
            &&& more.forced() - a.forced() == (if i.selected && i.candidate.kind
                != MergeKind::Merged {
                1int
            } else {
                0int
            })
            &&& more.remote() - a.remote() == (if i.selected && i.remote {
                1int
            } else {
                0int
            })
            &&& more.remote_only() - a.remote_only() == (if i.candidate.scope
                == CandidateScope::RemoteOnly {
                1int
            } else {
                0int
            })
        }),
{
    assert(a.items.push(i).drop_last() =~= a.items);
}

/// What is planned: in the order of the list, one deletion for a selected
/// item, of the remote branch too if that is armed, and none for another.
pub proof fn law_what_is_planned(first: Seq<ItemView>, second: Seq<ItemView>, i: ItemView)
    ensures
        app::plans_of(seq![i]) == if i.selected {
            seq![PlanView { candidate: i.candidate, delete_remote: i.remote }]
        } else {
            Seq::empty()
        },
        app::plans_of(first + second) == app::plans_of(first) + app::plans_of(second),
    decreases second.len(),
{
    let none = Seq::<ItemView>::empty();
    assert(seq![i].drop_last() =~= none);
    assert(app::plans_of(none) =~= Seq::empty());
    if second.len() == 0 {
        assert(first + second =~= first);
        assert(app::plans_of(first) + app::plans_of(second) =~= app::plans_of(first));
    } else {
        law_what_is_planned(first, second.drop_last(), i);
        assert((first + second).drop_last() =~= first + second.drop_last());
        assert((first + second).last() == second.last());
        assert(app::plans_of(first + second) =~= app::plans_of(first) + app::plans_of(second));
    }
}

/// How the screen starts out: the list, at its top, with everything the scan
/// found in order. What is verified is selected. A remote deletion is armed
/// where there is a live remote branch and it is all there is, or was asked
/// for.
pub proof fn law_how_it_starts(
    scan: ScanView,
    preselect_remote: bool,
    now_unix: i64,
    preview_open: bool,
    k: int,
)
    requires
        0 <= k < scan.candidates.len(),
    ensures
        ({
            let a = AppView::fresh(scan, preselect_remote, now_unix, preview_open);
            let c = scan.candidates[k];
            &&& a.base == scan.base && a.warnings == scan.warnings && a.now_unix == now_unix
            &&& a.cursor == 0 && a.screen == Screen::List && !a.should_quit
            &&& a.results.len() == 0 && a.in_flight is None && a.results_scroll == 0
            &&& a.preview_open == preview_open && a.previews.dom() =~= Set::<Seq<char>>::empty()
            &&& a.items.len() == scan.candidates.len() && a.items[k].candidate == c
            &&& a.items[k].selected <==> c.kind != MergeKind::Gone
            &&& a.items[k].remote <==> ops::counterpart(c) is Some && (c.scope
                == CandidateScope::RemoteOnly || preselect_remote)
        }),
{
}

/// What the panel wants: the preview of the branch under the cursor, if the
/// panel is open and has none of it, and unless it is being fetched already.
/// What it has of that branch, it shows.
pub proof fn law_what_the_panel_wants(a: AppView, in_flight: Option<Seq<char>>)
    ensures
        a.cursor >= a.items.len() ==> a.pending() is None && a.shown_preview() is None
            && preview::wanted(a, in_flight) is None,
        a.cursor < a.items.len() ==> {
            let c = a.items[a.cursor as int].candidate;
            &&& a.pending() is Some <==> a.preview_open && !a.previews.dom().contains(c.name)
            &&& a.pending() is Some ==> a.pending() == Some(c.name)
            &&& a.shown_preview() is Some <==> a.previews.dom().contains(c.name)
            &&& a.shown_preview() is Some ==> a.shown_preview() == Some(a.previews[c.name])
            &&& preview::wanted(a, in_flight) is Some <==> a.preview_open
                && !a.previews.dom().contains(c.name) && in_flight != Some(c.name)
            &&& preview::wanted(a, in_flight) is Some ==> preview::wanted(a, in_flight) == Some(
                (c.name, c.refname),
            )
        },
{
}

/// The panel asks git for the commits that only the branch has, twenty at
/// most, and for the size of what they change.
pub proof fn law_what_the_panel_asks(base: Seq<char>, branch: Seq<char>)
    ensures
        preview::commits_args(base, branch) == seq![
            "log"@,
            "--oneline"@,
            "--no-decorate"@,
            "--max-count=20"@,
            base + ".."@ + branch,
            "--"@,
        ],
        preview::size_args(base, branch) == seq![
            "diff"@,
            "--shortstat"@,
            "--no-ext-diff"@,
            "--no-textconv"@,
            base + "..."@ + branch,
            "--"@,
        ],
{
}

/// What the panel shows: the commits, or that there are none, and behind them
/// the size of the diff where git told one. A listing that failed is shown as
/// its failure.
pub proof fn law_what_the_panel_shows(log: Reply, stat: Reply)
    ensures
        log is Err && log->Err_0.cause is None ==> preview::panel_text(log, stat)
            == "preview unavailable: "@ + log->Err_0.message,
        log is Err && log->Err_0.cause is Some ==> preview::panel_text(log, stat)
            == "preview unavailable: "@ + (log->Err_0.message + ": "@ + log->Err_0.cause->Some_0),
        log is Ok && (stat is Err || text::trim(stat->Ok_0.1).len() == 0) ==> preview::panel_text(
            log,
            stat,
        ) == shown_commits(log->Ok_0.1),
        log is Ok && stat is Ok && text::trim(stat->Ok_0.1).len() > 0 ==> preview::panel_text(
            log,
            stat,
        ) == shown_commits(log->Ok_0.1) + "\n\n"@ + text::trim(stat->Ok_0.1),
{
}

/// The commits as they are shown.
pub open spec fn shown_commits(out: Seq<char>) -> Seq<char> {
    if text::trim_end(out).len() == 0 {
        "no commits the base does not already have"@
    } else {
        text::trim_end(out)
    }
}

/// What `update` hands back: the planned deletions if the dialog was answered
/// with `y` or Enter, and nothing otherwise.
pub proof fn law_update_deletes_on_yes_only(a: &mut App, key: KeyEvent, r: Option<Action>)
    requires
        call_ensures(App::update, (a, key), r),
    ensures
        r is Some <==> old(a)@.screen == Screen::Confirm && is_bare(key) && (key.code
            == KeyCode::Char('y') || key.code == KeyCode::Enter),
        r is Some ==> app::action_plans(r) == Some(app::plans_of(old(a)@.items)) && final(a)@.screen
            == Screen::Deleting,
        final(a)@.items.len() == old(a)@.items.len(),
{
}

/// A branch that is taken up is the one in flight, and nothing else changes.
pub proof fn law_a_deletion_takes_off(a: &mut App, name: String)
    requires
        call_ensures(App::take_up, (a, name), ()),
    ensures
        final(a)@ == (AppView { in_flight: Some(name@), ..old(a)@ }),
{
}

/// A deletion that is put down is no longer in flight, and its result stands
/// behind those before it.
pub proof fn law_a_deletion_lands(a: &mut App, result: DeletionResult)
    requires
        call_ensures(App::put_down, (a, result), ()),
    ensures
        final(a)@.in_flight is None,
        final(a)@.results == old(a)@.results.push(result@),
        final(a)@.screen == old(a)@.screen,
        final(a)@.items == old(a)@.items,
        final(a)@.should_quit == old(a)@.should_quit,
{
}

/// A key typed while the batch ran quits if it is Ctrl+C, and is forgotten
/// otherwise; what was asked to quit stays so.
pub proof fn law_impatient_keys_are_forgotten(a: &mut App, key: KeyEvent)
    requires
        call_ensures(App::drained, (a, key), ()),
    ensures
        final(a)@ == (AppView { should_quit: final(a)@.should_quit, ..old(a)@ }),
        final(a)@.should_quit <==> old(a)@.should_quit || (key.modifiers.control && (key.code
            == KeyCode::Char('c') || key.code == KeyCode::Char('C'))),
{
}

/// When the batch is done its results are shown, with nothing in flight.
pub proof fn law_the_batch_ends_with_its_results(a: &mut App)
    requires
        call_ensures(App::finish, (a,), ()),
    ensures
        final(a)@ == (AppView { in_flight: None, screen: Screen::Results, ..old(a)@ }),
{
}

/// Of the requests that came in, the newest is served.
pub proof fn law_the_newest_request_is_served(
    oldest: (String, String),
    later: Vec<(String, String)>,
    r: (String, String),
)
    requires
        call_ensures(preview::newest, (oldest, later), r),
    ensures
        later@.len() == 0 ==> r == oldest,
        later@.len() > 0 ==> r == later@[later@.len() - 1],
{
}

/// An answer of the worker is kept under its branch, and frees the desk if it
/// is the one that was waited for; an answer to an older request does not.
pub proof fn law_answers_free_the_desk(
    desk: &mut PreviewDesk,
    a: &mut App,
    name: String,
    shown: String,
)
    requires
        call_ensures(PreviewDesk::answered, (desk, a, name, shown), ()),
    ensures
        final(a)@.previews.contains_pair(name@, shown@),
        final(a)@ == (AppView { previews: final(a)@.previews, ..old(a)@ }),
        forall|other: Seq<char>|
            other != name@ ==> (#[trigger] final(a)@.previews.dom().contains(other)
                <==> old(a)@.previews.dom().contains(other)) && final(a)@.previews[other]
                == old(a)@.previews[other],
        old(desk)@ == Some(name@) ==> final(desk)@ is None,
        old(desk)@ != Some(name@) ==> final(desk)@ == old(desk)@,
{
}

/// A request that is handed out is the one in flight.
pub proof fn law_requests_are_waited_for(
    desk: &mut PreviewDesk,
    a: &App,
    r: Option<(String, String)>,
)
    requires
        call_ensures(PreviewDesk::next_request, (desk, a), r),
    ensures
        r.deep_view() == preview::wanted(a@, old(desk)@),
        r is Some ==> final(desk)@ == Some(r->Some_0.0@),
        r is None ==> final(desk)@ == old(desk)@,
{
}

} // verus!
