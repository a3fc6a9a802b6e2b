//! What holds of the screen, whatever is typed.

use vstd::prelude::*;

use crate::ops::PlanView;
use crate::scan::{MergeKind, ScanView};
use crate::tui::app::{self, AppView, ItemView, KeyCode, KeyEvent, Screen};
use crate::tui::preview;

verus! {

/// Ctrl+C quits from every screen and does nothing else.
pub proof fn law_ctrl_c_quits_everywhere(a: AppView, key: KeyEvent)
    requires
        key.interrupts(),
    ensures
        a.after(key) == (AppView { should_quit: true, ..a }),
        a.asks(key) is None,
{
}

/// Any other key held down with Ctrl, Alt or the like does nothing at all.
pub proof fn law_modified_keys_are_inert(a: AppView, key: KeyEvent)
    requires
        key.modified(),
        !key.interrupts(),
    ensures
        a.after(key) == a,
        a.asks(key) is None,
{
}

/// Nothing is deleted unless the dialog was answered with yes.
pub proof fn law_only_a_confirmed_dialog_deletes(a: AppView, key: KeyEvent)
    requires
        a.asks(key) is Some,
    ensures
        a.screen == Screen::Confirm,
        key.is('y') || key.code == KeyCode::Enter,
        a.after(key).screen == Screen::Deleting,
        a.asks(key) == Some(app::plans_of(a.items)),
{
}

/// The dialog opens on a selection only.
pub proof fn law_dialog_needs_a_selection(a: AppView, key: KeyEvent)
    requires
        a.screen != Screen::Confirm,
        a.after(key).screen == Screen::Confirm,
    ensures
        a.screen == Screen::List,
        a.selected() > 0,
{
}

/// What is planned is exactly the selection: one deletion per selected item,
/// with the remote half as armed, in order.
pub proof fn law_plans_are_the_selection(items: Seq<ItemView>, plan: PlanView)
    ensures
        app::plans_of(items).len() == app::count_of(items, |i: ItemView| i.selected),
        app::plans_of(items).contains(plan) <==> exists|k: int|
            0 <= k < items.len() && (#[trigger] items[k]).selected && items[k].candidate
                == plan.candidate && items[k].remote == plan.delete_remote,
    decreases items.len(),
{
    if items.len() > 0 {
        let rest = items.drop_last();
        let last = items.last();
        law_plans_are_the_selection(rest, plan);
        let earlier = app::plans_of(rest);
        let all = app::plans_of(items);
        if all.contains(plan) {
            let m = choose|m: int| 0 <= m < all.len() && all[m] == plan;
            if m < earlier.len() {
                assert(earlier[m] == plan);
                assert(earlier.contains(plan));
                let k = choose|k: int|
                    0 <= k < rest.len() && (#[trigger] rest[k]).selected && rest[k].candidate
                        == plan.candidate && rest[k].remote == plan.delete_remote;
                assert(items[k] == rest[k]);
            } else {
                assert(items[items.len() - 1] == last);
            }
        }
        if exists|k: int|
            0 <= k < items.len() && (#[trigger] items[k]).selected && items[k].candidate
                == plan.candidate && items[k].remote == plan.delete_remote {
            let k = choose|k: int|
                0 <= k < items.len() && (#[trigger] items[k]).selected && items[k].candidate
                    == plan.candidate && items[k].remote == plan.delete_remote;
            if k < rest.len() {
                assert(rest[k] == items[k]);
                assert(earlier.contains(plan));
                let m = choose|m: int| 0 <= m < earlier.len() && earlier[m] == plan;
                assert(all[m] == plan);
            } else {
                assert(all[all.len() - 1] == plan);
            }
        }
    } else {
        assert(!app::plans_of(items).contains(plan));
    }
}

/// Remote deletion is armed only where there is a live remote branch.
pub open spec fn armed_with_cause(items: Seq<ItemView>) -> bool {
    forall|k: int| 0 <= k < items.len() && (#[trigger] items[k]).remote ==> items[k].can_remote()
}

/// The screen starts with the verified candidates selected and no gone one,
/// and with remote deletion armed only where there is a live remote branch.
pub proof fn law_safe_defaults(
    scan: ScanView,
    preselect_remote: bool,
    now_unix: i64,
    preview_open: bool,
)
    ensures
        ({
            let a = AppView::fresh(scan, preselect_remote, now_unix, preview_open);
            &&& a.items.len() == scan.candidates.len()
            &&& armed_with_cause(a.items)
            &&& forall|k: int|
                0 <= k < a.items.len() ==> (#[trigger] a.items[k]).candidate == scan.candidates[k]
                    && a.items[k].selected == (scan.candidates[k].kind != MergeKind::Gone)
        }),
{
}

/// No key changes the candidates, arms a remote deletion without cause, or
/// loses a fetched preview.
pub proof fn law_keys_keep_the_candidates(a: AppView, key: KeyEvent)
    ensures
        a.after(key).items.len() == a.items.len(),
        forall|k: int|
            0 <= k < a.items.len() ==> (#[trigger] a.after(key).items[k]).candidate
                == a.items[k].candidate,
        armed_with_cause(a.items) ==> armed_with_cause(a.after(key).items),
        a.after(key).previews == a.previews,
        a.after(key).results == a.results,
        a.after(key).base == a.base,
{
    let b = a.after(key);
    if armed_with_cause(a.items) {
        assert forall|k: int| 0 <= k < b.items.len() && (#[trigger] b.items[k]).remote implies
            b.items[k].can_remote() by {
            assert(b.items[k].candidate == a.items[k].candidate);
            assert(a.items[k].remote || a.items[k].can_remote());
        }
    }
}

/// The cursor never leaves the list, whatever screen a key is typed on.
pub proof fn law_cursor_stays_on_an_item(a: AppView, key: KeyEvent)
    requires
        a.cursor < a.items.len(),
        a.items.len() <= usize::MAX,
    ensures
        a.after(key).cursor < a.after(key).items.len(),
{
}

/// Where a key on the list takes the cursor: one down except from the last
/// item, one up except from the first, to either end, or nowhere. No key adds,
/// drops or moves an item.
pub proof fn law_keys_move_the_cursor(a: AppView, key: KeyEvent)
    requires
        a.cursor < a.items.len(),
        a.items.len() <= usize::MAX,
    ensures
        a.on_list(key).cursor < a.items.len(),
        a.on_list(key).cursor == if key.is('j') || key.code == KeyCode::Down {
            if a.cursor < a.items.len() - 1 {
                a.cursor + 1
            } else {
                a.cursor as int
            }
        } else if key.is('k') || key.code == KeyCode::Up {
            if a.cursor > 0 {
                a.cursor - 1
            } else {
                0
            }
        } else if key.is('g') {
            0
        } else if key.is('G') {
            a.items.len() - 1
        } else {
            a.cursor as int
        },
        a.on_list(key).items.len() == a.items.len(),
        forall|k: int|
            0 <= k < a.items.len() ==> (#[trigger] a.on_list(key).items[k]).candidate
                == a.items[k].candidate,
{
}

/// A closed panel asks for nothing.
pub proof fn law_closed_panel_asks_for_nothing(a: AppView, in_flight: Option<Seq<char>>)
    requires
        !a.preview_open,
    ensures
        a.pending() is None,
        preview::wanted(a, in_flight) is None,
{
}

/// A preview that was fetched is shown whenever its branch is highlighted
/// again, and is not asked for a second time.
pub proof fn law_fetched_preview_is_remembered(
    a: AppView,
    name: Seq<char>,
    shown: Seq<char>,
    key: KeyEvent,
)
    requires
        a.previews.contains_pair(name, shown),
    ensures
        a.after(key).previews.contains_pair(name, shown),
        a.highlighted() matches Some(c) && c.name == name ==> a.pending() is None
            && a.shown_preview() == Some(shown),
{
    law_keys_keep_the_candidates(a, key);
}

} // verus!
