//! What stands on each screen.

use vstd::prelude::*;

use crate::ops::{self, DeletionView};
use crate::output;
use crate::scan::MergeKind;
use crate::text;
use crate::tui::app::{App, AppView, ItemView, Screen};
use crate::tui::ui::{self, Area, Severity, SpanView, Split, Tone};

verus! {

/// A cut name is its beginning with an ellipsis behind it, as long as allowed.
pub proof fn law_what_is_left_of_a_name(name: Seq<char>, max: nat)
    ensures
        name.len() <= max ==> ui::clipped(name, max) == name,
        name.len() > max && max > 0 ==> ui::clipped(name, max) == name.take(max - 1) + "…"@,
        name.len() > max && max == 0 ==> ui::clipped(name, max) == "…"@,
{
    assert(name.take(0) + "…"@ =~= "…"@);
}

/// A column is as wide as the longest name in it, and never wider than forty
/// characters.
pub proof fn law_columns_are_bounded(names: Seq<Seq<char>>)
    ensures
        ui::column(names) <= 40,
        forall|i: int|
            0 <= i < names.len() ==> (#[trigger] names[i]).len() <= ui::column(names)
                || ui::column(names) == 40,
        0 < ui::column(names) < 40 ==> exists|i: int|
            0 <= i < names.len() && (#[trigger] names[i]).len() == ui::column(names),
        ui::column(names) == 40 ==> exists|i: int|
            0 <= i < names.len() && (#[trigger] names[i]).len() >= 40,
{
    lemma_longest(names);
}

proof fn lemma_longest(names: Seq<Seq<char>>)
    ensures
        forall|i: int| 0 <= i < names.len() ==> (#[trigger] names[i]).len() <= ui::longest(names),
        ui::longest(names) > 0 ==> exists|i: int|
            0 <= i < names.len() && (#[trigger] names[i]).len() == ui::longest(names),
    decreases names.len(),
{
    if names.len() > 0 {
        let rest = names.drop_last();
        lemma_longest(rest);
        assert(names[names.len() - 1] == names.last());
        assert forall|i: int| 0 <= i < names.len() implies (#[trigger] names[i]).len()
            <= ui::longest(names) by {
            if i < rest.len() {
                assert(rest[i] == names[i]);
            }
        }
        if ui::longest(names) > 0 && ui::longest(names) != names.last().len() {
            let i = choose|i: int|
                0 <= i < rest.len() && (#[trigger] rest[i]).len() == ui::longest(rest);
            assert(names[i] == rest[i]);
        }
    }
}

/// What a row of the list shows: whether the item is selected, whether its
/// remote branch goes too, could go or cannot, its name, its kind in the
/// kind's colour, its age, and its upstream if it has one.
pub proof fn law_what_a_row_shows(item: ItemView, w: nat, now: int)
    ensures
        ({
            let row = ui::item_row(item, w, now);
            let c = item.candidate;
            &&& row.len() == if c.upstream is Some {
                6nat
            } else {
                5nat
            }
            &&& item.selected ==> row[0].text == "[x] "@
            &&& !item.selected ==> row[0].text == "[ ] "@
            &&& item.remote ==> row[1].text == "r:[x] "@ && row[1].tone == Tone::Red
            &&& !item.remote && ops::counterpart(c) is Some ==> row[1].text == "r:[ ] "@
                && row[1].tone == Tone::Dim
            &&& !item.remote && ops::counterpart(c) is None ==> row[1].text == "      "@
                && row[1].tone == Tone::Plain
            &&& row[2].text == text::pad_end(ui::clipped(c.name, 40), w) + "  "@
            &&& row[3].text == text::pad_end(output::kind_word(c.kind), 6)
            &&& c.kind == MergeKind::Merged ==> row[3].tone == Tone::Green
            &&& c.kind == MergeKind::Squash || c.kind == MergeKind::Rebase ==> row[3].tone
                == Tone::Yellow
            &&& c.kind == MergeKind::Gone ==> row[3].tone == Tone::Red
            &&& row[4].text == "  "@ + text::pad_start(
                output::age_text(now, c.last_commit_unix as int),
                4,
            ) + " ago"@
            &&& c.upstream is Some ==> row[5].text == output::upstream_text(c)
            &&& row[0].tone == Tone::Plain && row[2].tone == Tone::Plain && row[4].tone == Tone::Dim
            &&& c.upstream is Some ==> row[5].tone == Tone::Dim
        }),
{
}

/// The list has a row for every item, in order, all in one column of names.
pub proof fn law_a_row_per_item(a: AppView, k: int)
    requires
        0 <= k < a.items.len(),
    ensures
        ui::list_rows_of(a).len() == a.items.len(),
        ui::list_rows_of(a)[k] == ui::item_row(
            a.items[k],
            ui::column(a.items.map_values(|i: ItemView| i.candidate.name)),
            a.now_unix as int,
        ),
{
}

/// The frame of the list names the base and counts the candidates; the line
/// below counts what is selected, forced and deleted on a remote.
pub proof fn law_what_frames_the_list(a: AppView)
    ensures
        ui::list_title_of(a) == " git barber · base "@ + a.base.name + " · "@ + text::decimal(
            a.items.len(),
        ) + " candidates "@,
        ui::list_hint_of(a) == " "@ + text::decimal(a.selected()) + " sel · "@ + text::decimal(
            a.forced(),
        ) + " force · "@ + text::decimal(a.remote())
            + " remote │ space a n r p · enter delete · q quit"@,
        a.warnings.len() == 0 ==> ui::list_warning_of(a) is None,
        a.warnings.len() == 1 ==> ui::list_warning_of(a) == Some(" ! "@ + a.warnings[0] + " "@),
        a.warnings.len() > 1 ==> ui::list_warning_of(a) == Some(
            " ! "@ + a.warnings[0] + " (+"@ + text::decimal((a.warnings.len() - 1) as nat)
                + " more)"@ + " "@,
        ),
{
}

/// The panel is headed by the branch under the cursor, and shows its preview,
/// or that it is on its way.
pub proof fn law_what_the_panel_says(a: AppView)
    ensures
        a.cursor < a.items.len() ==> ui::preview_title_of(a) == " "@ + ui::clipped(
            a.items[a.cursor as int].candidate.name,
            40,
        ) + " "@,
        a.shown_preview() is Some ==> ui::preview_body_of(a) == a.shown_preview()->Some_0,
        a.shown_preview() is None ==> ui::preview_body_of(a) == "loading…"@,
{
}

/// Which heading of the dialog a selected branch stands under: a gone one
/// under the warning, a squashed or rebased one under the forced ones, a
/// merged one under the plain ones. Each stands under one heading, in the
/// order of the list.
pub proof fn law_where_a_branch_is_announced(
    first: Seq<ItemView>,
    second: Seq<ItemView>,
    i: ItemView,
    severity: Severity,
)
    ensures
        ui::names_at(seq![i], severity) == if i.selected && (match severity {
            Severity::Gone => i.candidate.kind == MergeKind::Gone,
            Severity::Verified => i.candidate.kind == MergeKind::Squash || i.candidate.kind
                == MergeKind::Rebase,
            Severity::Gentle => i.candidate.kind == MergeKind::Merged,
        }) {
            seq![SpanView { text: "  "@ + i.candidate.name, tone: Tone::Plain }]
        } else {
            Seq::empty()
        },
        ui::names_at(first + second, severity) == ui::names_at(first, severity) + ui::names_at(
            second,
            severity,
        ),
    decreases second.len(),
{
    let none = Seq::<ItemView>::empty();
    assert(seq![i].drop_last() =~= none);
    assert(ui::names_at(none, severity) =~= Seq::empty());
    if second.len() == 0 {
        assert(first + second =~= first);
        assert(ui::names_at(first, severity) + ui::names_at(second, severity) =~= ui::names_at(
            first,
            severity,
        ));
    } else {
        law_where_a_branch_is_announced(first, second.drop_last(), i, severity);
        assert((first + second).drop_last() =~= first + second.drop_last());
        assert((first + second).last() == second.last());
        assert(ui::names_at(first + second, severity) =~= ui::names_at(first, severity)
            + ui::names_at(second, severity));
    }
}

/// What is announced of the remotes: for every selected and armed item with a
/// live remote branch, in order, that branch; for no other item anything.
pub proof fn law_what_goes_on_a_remote(first: Seq<ItemView>, second: Seq<ItemView>, i: ItemView)
    ensures
        !i.selected || !i.remote || ops::counterpart(i.candidate) is None ==> ui::remote_targets(
            seq![i],
        ).len() == 0,
        i.selected && i.remote && ops::counterpart(i.candidate) is Some ==> ui::remote_targets(
            seq![i],
        ) == seq![
            SpanView {
                text: "  deletes "@ + ops::counterpart(i.candidate)->Some_0.0 + "/"@
                    + ops::counterpart(i.candidate)->Some_0.1 + "  (local: "@ + ui::clipped(
                    i.candidate.name,
                    40,
                ) + ")"@,
                tone: Tone::Red,
            },
        ],
        ui::remote_targets(first + second) == ui::remote_targets(first) + ui::remote_targets(
            second,
        ),
    decreases second.len(),
{
    let none = Seq::<ItemView>::empty();
    assert(seq![i].drop_last() =~= none);
    assert(ui::remote_targets(none) =~= Seq::empty());
    if second.len() == 0 {
        assert(first + second =~= first);
        assert(ui::remote_targets(first) + ui::remote_targets(second) =~= ui::remote_targets(
            first,
        ));
    } else {
        law_what_goes_on_a_remote(first, second.drop_last(), i);
        assert((first + second).drop_last() =~= first + second.drop_last());
        assert((first + second).last() == second.last());
        assert(ui::remote_targets(first + second) =~= ui::remote_targets(first)
            + ui::remote_targets(second));
    }
}

/// The lines under a heading, if there are any.
pub open spec fn headed(heading: Seq<char>, tone: Tone, lines: Seq<SpanView>) -> Seq<SpanView> {
    if lines.len() > 0 {
        seq![SpanView { text: heading, tone }] + lines
    } else {
        lines
    }
}

/// The dialog, the gravest first: what goes on a remote, what is gone, what is
/// forced, and what git deletes of itself. What there is none of has no
/// heading.
pub proof fn law_the_gravest_comes_first(items: Seq<ItemView>)
    ensures
        ui::dialog_of(items) == headed(
            "DELETE ON REMOTE — affects everyone:"@,
            Tone::BoldRed,
            ui::remote_targets(items),
        ) + headed(
            "Force delete (upstream gone — may hold unmerged commits):"@,
            Tone::Red,
            ui::names_at(items, Severity::Gone),
        ) + headed(
            "Force delete (verified squash/rebase-merged):"@,
            Tone::Yellow,
            ui::names_at(items, Severity::Verified),
        ) + headed(
            "Delete (git branch -d):"@,
            Tone::Plain,
            ui::names_at(items, Severity::Gentle),
        ),
{
    let a = ui::section(
        ui::toned("DELETE ON REMOTE — affects everyone:"@, Tone::BoldRed),
        ui::remote_targets(items),
    );
    assert(a =~= headed(
        "DELETE ON REMOTE — affects everyone:"@,
        Tone::BoldRed,
        ui::remote_targets(items),
    ));
    let b = ui::section(
        ui::toned("Force delete (upstream gone — may hold unmerged commits):"@, Tone::Red),
        ui::names_at(items, Severity::Gone),
    );
    assert(b =~= headed(
        "Force delete (upstream gone — may hold unmerged commits):"@,
        Tone::Red,
        ui::names_at(items, Severity::Gone),
    ));
    let c = ui::section(
        ui::toned("Force delete (verified squash/rebase-merged):"@, Tone::Yellow),
        ui::names_at(items, Severity::Verified),
    );
    assert(c =~= headed(
        "Force delete (verified squash/rebase-merged):"@,
        Tone::Yellow,
        ui::names_at(items, Severity::Verified),
    ));
    let d = ui::section(
        ui::toned("Delete (git branch -d):"@, Tone::Plain),
        ui::names_at(items, Severity::Gentle),
    );
    assert(d =~= headed(
        "Delete (git branch -d):"@,
        Tone::Plain,
        ui::names_at(items, Severity::Gentle),
    ));
}

/// The dialog is shown inside a border of two rows. What has no room is
/// counted on the last row.
pub proof fn law_what_has_no_room_is_counted(a: AppView, height: u16, k: int)
    requires
        height > 2,
        0 <= k,
    ensures
        ({
            let all = ui::dialog_of(a.items);
            let shown = ui::confirm_lines_of(a, height);
            let room = height - 2;
            &&& all.len() <= room ==> shown == all
            &&& all.len() > room ==> shown.len() == room
            &&& all.len() > room && k < room - 1 ==> shown[k] == all[k]
            &&& all.len() > room ==> shown[room - 1] == (SpanView {
                text: "… and "@ + text::decimal((all.len() - (room - 1)) as nat) + " more"@,
                tone: Tone::Dim,
            })
        }),
{
}

/// The box of the dialog has room for its widest line and four columns more,
/// and is never narrower than forty.
pub proof fn law_the_box_fits_its_lines(lines: Seq<SpanView>, inner: nat)
    ensures
        36 <= inner <= u16::MAX - 4 ==> ui::box_width(inner) == inner + 4,
        inner < 36 ==> ui::box_width(inner) == 40,
        forall|i: int|
            0 <= i < lines.len() ==> ui::display_width((#[trigger] lines[i]).text)
                <= ui::widest_line(lines),
        ui::widest_line(lines) > 0 ==> exists|i: int|
            0 <= i < lines.len() && ui::display_width((#[trigger] lines[i]).text)
                == ui::widest_line(lines),
    decreases lines.len(),
{
    if lines.len() > 0 {
        let rest = lines.drop_last();
        law_the_box_fits_its_lines(rest, inner);
        assert(lines[lines.len() - 1] == lines.last());
        assert forall|i: int| 0 <= i < lines.len() implies ui::display_width(
            (#[trigger] lines[i]).text,
        ) <= ui::widest_line(lines) by {
            if i < rest.len() {
                assert(rest[i] == lines[i]);
            }
        }
        if ui::widest_line(lines) > 0 && ui::widest_line(lines) != ui::display_width(
            lines.last().text,
        ) {
            let i = choose|i: int|
                0 <= i < rest.len() && ui::display_width((#[trigger] rest[i]).text)
                    == ui::widest_line(rest);
            assert(lines[i] == rest[i]);
        }
    }
}

/// A box stands in the middle of its area and never leaves it: what is left
/// over is shared between the two sides, the odd cell to the right and below.
pub proof fn law_boxes_stand_in_the_middle(area: Area, width: u16, height: u16)
    requires
        area.fits(),
    ensures
        ({
            let m = ui::middle(area, width, height);
            let left = m.x - area.x;
            let right = area.x + area.width - (m.x + m.width);
            let over = m.y - area.y;
            let under = area.y + area.height - (m.y + m.height);
            &&& width <= area.width ==> m.width == width
            &&& width > area.width ==> m.width == area.width
            &&& height <= area.height ==> m.height == height
            &&& height > area.height ==> m.height == area.height
            &&& 0 <= left && 0 <= right - left <= 1
            &&& 0 <= over && 0 <= under - over <= 1
        }),
{
}

/// The dialog's box holds its lines and their border.
pub proof fn law_where_the_dialog_stands(area: Area, lines: Seq<SpanView>)
    requires
        lines.len() <= u16::MAX - 2,
    ensures
        ui::confirm_area_of(area, lines) == ui::middle(
            area,
            ui::box_width(ui::widest_line(lines)),
            (lines.len() + 2) as u16,
        ),
{
}

/// Where the preview goes: beside the list from a hundred columns on, and
/// under it below that; a closed panel takes no room.
pub proof fn law_where_the_preview_goes(width: u16)
    ensures
        ui::split_for(width, false) == Split::Whole,
        width >= 100 ==> ui::split_for(width, true) == (Split::Beside { min: 40, percent: 45 }),
        width < 100 ==> ui::split_for(width, true) == (Split::Above { min: 3, length: 10 }),
{
}

/// What a result shows: the name, what became of the local branch, in red if
/// that failed, and in red what became of the remote one if it was touched.
pub proof fn law_what_a_result_shows(r: DeletionView, w: nat)
    ensures
        ({
            let row = ui::result_row(r, w);
            &&& row.len() == if r.remote is Skipped {
                2nat
            } else {
                3nat
            }
            &&& row[0].text == "  "@ + text::pad_end(ui::clipped(r.name, 40), w) + "  "@
            &&& row[0].tone == Tone::Plain
            &&& row[1].text == output::local_text(r)
            &&& r.local is Failed ==> row[1].tone == Tone::Red
            &&& !(r.local is Failed) ==> row[1].tone == Tone::Green
            &&& !(r.remote is Skipped) ==> row[2].text == output::remote_text(r.remote)
                && row[2].tone == Tone::Red
        }),
{
}

/// The results screen: a row for every result, in order, then the branch being
/// deleted if there is one, and then how to undo what was done, if anything
/// can be.
pub proof fn law_what_the_results_show(a: AppView, k: int)
    requires
        0 <= k,
    ensures
        ({
            let rows = ui::results_rows_of(a);
            let n = a.results.len();
            let undo = output::all_undo(a.results);
            let m = n + if a.in_flight is Some {
                1nat
            } else {
                0nat
            };
            &&& rows.len() == m + if undo.len() > 0 {
                undo.len() + 3
            } else {
                0
            }
            &&& k < n ==> rows[k] == ui::result_row(
                a.results[k],
                ui::column(a.results.map_values(|r: DeletionView| r.name)),
            )
            &&& a.in_flight is Some ==> rows[n as int] == seq![
                SpanView { text: "  → "@ + a.in_flight->Some_0 + " …"@, tone: Tone::Dim },
            ]
            &&& undo.len() > 0 ==> {
                &&& rows[m as int] == seq![SpanView { text: ""@, tone: Tone::Plain }]
                &&& rows[(m + 1) as int] == seq![SpanView { text: "undo:"@, tone: Tone::Plain }]
                &&& k < undo.len() ==> rows[m + 2 + k] == seq![
                    SpanView { text: "  "@ + undo[k], tone: Tone::Plain },
                ]
                &&& rows[(m + 2 + undo.len()) as int] == seq![
                    SpanView {
                        text: "  (recent tips also linger in `git reflog`)"@,
                        tone: Tone::Dim,
                    },
                ]
            }
        }),
{
}

/// The frame of the results says which deletion of how many is running, and
/// the line below which keys there are.
pub proof fn law_what_frames_the_results(a: AppView)
    ensures
        a.screen == Screen::Deleting && a.in_flight is Some ==> ui::results_title_of(a)
            == " deleting "@ + text::decimal(a.results.len() + 1) + "/"@ + text::decimal(
            a.selected(),
        ) + " → "@ + a.in_flight->Some_0 + " … "@,
        a.screen == Screen::Deleting && a.in_flight is None ==> ui::results_title_of(a)
            == " deleting "@ + text::decimal(a.results.len()) + "/"@ + text::decimal(a.selected())
            + " … "@,
        a.screen != Screen::Deleting ==> ui::results_title_of(a) == " results "@,
        ui::results_hint_of(Screen::Deleting) == " working… (results are reprinted after exit)"@,
        a.screen != Screen::Deleting ==> ui::results_hint_of(a.screen)
            == " j/k scroll · q exit (results are reprinted after exit)"@,
{
}

/// The results scroll as far as their last line, and no further.
pub proof fn law_scrolling_ends_with_the_text(lines: nat, height: u16)
    requires
        lines <= u16::MAX,
        height >= 2,
    ensures
        lines <= height - 2 ==> ui::last_scroll(lines, height) == 0,
        lines > height - 2 ==> ui::last_scroll(lines, height) + (height - 2) == lines,
{
}

/// Drawing the results brings the scroll back to the last line if it is
/// behind it, and changes nothing else.
pub proof fn law_drawing_reins_the_scroll_in(a: &mut App, lines: usize, height: u16)
    requires
        call_ensures(ui::clamp_scroll, (a, lines, height), ()),
    ensures
        final(a)@ == (AppView { results_scroll: final(a)@.results_scroll, ..old(a)@ }),
        final(a)@.results_scroll <= ui::last_scroll(lines as nat, height),
        old(a)@.results_scroll <= ui::last_scroll(lines as nat, height)
            ==> final(a)@.results_scroll == old(a)@.results_scroll,
        old(a)@.results_scroll > ui::last_scroll(lines as nat, height)
            ==> final(a)@.results_scroll == ui::last_scroll(lines as nat, height),
{
}

/// The dialog says what it is, and which keys there are.
pub proof fn law_the_dialog_names_its_keys(title: &'static str, hint: &'static str)
    requires
        call_ensures(ui::confirm_title, (), title),
        call_ensures(ui::confirm_hint, (), hint),
    ensures
        title@ == " confirm deletion "@,
        hint@ == " y confirm · n/q/esc cancel "@,
{
}

} // verus!
