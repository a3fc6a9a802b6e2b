//! What the screens show, as plain text with a tone, and where it goes.

use ratatui::layout::{Constraint, Layout, Rect};
use vstd::prelude::*;

use crate::ops::{
    self, remote_branch, DeletionResult, DeletionView, LocalOutcome, RemoteOutcome,
};
use crate::output::{
    self, age, kind_label, local_label, remote_label, undo_commands, upstream_label,
};
use crate::scan::MergeKind;
use crate::text;
use crate::tui::app::{App, AppView, Item, ItemView, Screen};

verus! {

/// Longer names are cut, so that one monster name can't push every other
/// column (including the destructive remote marker) off screen.
pub const MAX_NAME_W: usize = 40;

/// Below this the terminal is too narrow to split side by side without
/// squeezing the branch list, so the preview goes underneath instead.
pub const PREVIEW_SIDE_BY_SIDE_W: u16 = 100;

/// Rows the preview gets when it sits under the list.
pub const PREVIEW_BOTTOM_H: u16 = 10;

/// How a piece of text is drawn.
#[derive(Debug, Clone, Copy, PartialEq, Eq, Structural)]
pub enum Tone {
    Plain,
    Dim,
    Green,
    Yellow,
    Red,
    BoldRed,
}

/// A piece of text in one tone.
#[derive(Debug)]
pub struct Span {
    pub text: String,
    pub tone: Tone,
}

/// What a [`Span`] holds.
pub struct SpanView {
    pub text: Seq<char>,
    pub tone: Tone,
}

impl View for Span {
    type V = SpanView;

    open spec fn view(&self) -> SpanView {
        SpanView { text: self.text@, tone: self.tone }
    }
}

impl DeepView for Span {
    type V = SpanView;

    open spec fn deep_view(&self) -> SpanView {
        self@
    }
}

/// A piece of text in one tone.
pub open spec fn toned(text: Seq<char>, tone: Tone) -> SpanView {
    SpanView { text, tone }
}

/// A rectangle of the terminal, in cells.
#[derive(Debug, Clone, Copy, PartialEq, Eq, Structural)]
pub struct Area {
    pub x: u16,
    pub y: u16,
    pub width: u16,
    pub height: u16,
}

impl Area {
    /// The rectangle ends within the coordinates that cells can have.
    pub open spec fn fits(self) -> bool {
        self.x + self.width <= u16::MAX && self.y + self.height <= u16::MAX
    }
}

// ---------------------------------------------------------------------------
// Names.

/// `name` in at most `max` characters, the last of which tells of a cut.
pub open spec fn clipped(name: Seq<char>, max: nat) -> Seq<char> {
    if name.len() <= max {
        name
    } else {
        name.take(if max > 0 {
            max - 1
        } else {
            0
        }) + "…"@
    }
}

/// Truncate long branch names.
pub fn clip(name: &str, max: usize) -> (r: String)
    ensures
        r@ == clipped(name@, max as nat),
{
    let v = text::chars_of(name);
    if v.len() <= max {
        name.to_owned()
    } else {
        let keep: usize = if max > 0 {
            max - 1
        } else {
            0
        };
        assert(v@.subrange(0, keep as int) =~= name@.take(keep as int));
        text::string_of(&v, 0, keep).concat("…")
    }
}

/// The widest of the names, in characters, but not wider than they are drawn.
pub open spec fn column(names: Seq<Seq<char>>) -> nat {
    if longest(names) > MAX_NAME_W {
        MAX_NAME_W as nat
    } else {
        longest(names)
    }
}

/// The longest of the names, in characters.
pub open spec fn longest(names: Seq<Seq<char>>) -> nat
    decreases names.len(),
{
    if names.len() == 0 {
        0
    } else {
        let w = longest(names.drop_last());
        if names.last().len() > w {
            names.last().len()
        } else {
            w
        }
    }
}

/// The tone of a kind's badge.
pub open spec fn badge(kind: MergeKind) -> Tone {
    match kind {
        MergeKind::Merged => Tone::Green,
        MergeKind::Squash | MergeKind::Rebase => Tone::Yellow,
        MergeKind::Gone => Tone::Red,
    }
}

fn kind_tone(kind: MergeKind) -> (t: Tone)
    ensures
        t == badge(kind),
{
    match kind {
        MergeKind::Merged => Tone::Green,
        MergeKind::Squash | MergeKind::Rebase => Tone::Yellow,
        MergeKind::Gone => Tone::Red,
    }
}

// ---------------------------------------------------------------------------
// The list.

/// The names of the items.
pub open spec fn item_names(items: Seq<ItemView>) -> Seq<Seq<char>> {
    items.map_values(|i: ItemView| i.candidate.name)
}

/// The remote-delete marker sits in a fixed column right after the checkbox:
/// destructive state must never be truncated away.
pub open spec fn marker(item: ItemView) -> SpanView {
    if item.remote {
        toned("r:[x] "@, Tone::Red)
    } else if item.can_remote() {
        toned("r:[ ] "@, Tone::Dim)
    } else {
        toned("      "@, Tone::Plain)
    }
}

/// One row of the list.
pub open spec fn item_row(item: ItemView, name_w: nat, now: int) -> Seq<SpanView> {
    let c = item.candidate;
    seq![
        toned(
            if item.selected {
                "[x] "@
            } else {
                "[ ] "@
            },
            Tone::Plain,
        ),
        marker(item),
        toned(text::pad_end(clipped(c.name, MAX_NAME_W as nat), name_w) + "  "@, Tone::Plain),
        toned(text::pad_end(output::kind_word(c.kind), 6), badge(c.kind)),
        toned(
            "  "@ + text::pad_start(output::age_text(now, c.last_commit_unix as int), 4) + " ago"@,
            Tone::Dim,
        ),
    ] + if c.upstream is Some {
        seq![toned(output::upstream_text(c), Tone::Dim)]
    } else {
        Seq::empty()
    }
}

/// The rows of the list.
pub open spec fn list_rows_of(a: AppView) -> Seq<Seq<SpanView>> {
    let name_w = column(item_names(a.items));
    a.items.map_values(|i: ItemView| item_row(i, name_w, a.now_unix as int))
}

/// The frame around the list.
pub open spec fn list_title_of(a: AppView) -> Seq<char> {
    " git barber · base "@ + a.base.name + " · "@ + text::decimal(a.items.len())
        + " candidates "@
}

/// The first warning, and how many more there are.
pub open spec fn list_warning_of(a: AppView) -> Option<Seq<char>> {
    if a.warnings.len() == 0 {
        None
    } else if a.warnings.len() == 1 {
        Some(" ! "@ + a.warnings[0] + " "@)
    } else {
        Some(
            " ! "@ + a.warnings[0] + " (+"@ + text::decimal((a.warnings.len() - 1) as nat)
                + " more)"@ + " "@,
        )
    }
}

/// The line below the list.
pub open spec fn list_hint_of(a: AppView) -> Seq<char> {
    " "@ + text::decimal(a.selected()) + " sel · "@ + text::decimal(a.forced()) + " force · "@
        + text::decimal(a.remote()) + " remote │ space a n r p · enter delete · q quit"@
}

fn name_column(app: &App) -> (w: usize)
    ensures
        w == column(item_names(app@.items)),
{
    let mut w: usize = 0;
    let mut i: usize = 0;
    let ghost all = item_names(app@.items);
    assert(all.take(0) =~= Seq::<Seq<char>>::empty());
    while i < app.items.len()
        invariant
            i <= app.items@.len(),
            all == item_names(app@.items),
            w == longest(all.take(i as int)),
        decreases app.items@.len() - i,
    {
        assert(all.take(i + 1).drop_last() =~= all.take(i as int));
        assert(all.take(i + 1).last() == app.items@[i as int].candidate.name@);
        let n = text::char_count(app.items[i].candidate.name.as_str());
        if n > w {
            w = n;
        }
        i += 1;
    }
    assert(all.take(i as int) =~= all);
    if w > MAX_NAME_W {
        MAX_NAME_W
    } else {
        w
    }
}

fn row_of(item: &Item, name_w: usize, now_unix: i64) -> (r: Vec<Span>)
    ensures
        r.deep_view() == item_row(item@, name_w as nat, now_unix as int),
{
    let c = &item.candidate;
    let mut r: Vec<Span> = Vec::new();
    r.push(
        Span {
            text: if item.selected {
                "[x] ".to_owned()
            } else {
                "[ ] ".to_owned()
            },
            tone: Tone::Plain,
        },
    );
    r.push(
        if item.remote {
            Span { text: "r:[x] ".to_owned(), tone: Tone::Red }
        } else if item.can_remote() {
            Span { text: "r:[ ] ".to_owned(), tone: Tone::Dim }
        } else {
            Span { text: "      ".to_owned(), tone: Tone::Plain }
        },
    );
    r.push(
        Span {
            text: text::padded_end(clip(c.name.as_str(), MAX_NAME_W).as_str(), name_w).concat("  "),
            tone: Tone::Plain,
        },
    );
    r.push(Span { text: text::padded_end(kind_label(c.kind), 6), tone: kind_tone(c.kind) });
    r.push(
        Span {
            text: "  ".to_owned().concat(
                text::padded_start(age(now_unix, c.last_commit_unix).as_str(), 4).as_str(),
            ).concat(" ago"),
            tone: Tone::Dim,
        },
    );
    if c.upstream.is_some() {
        r.push(Span { text: upstream_label(c), tone: Tone::Dim });
    }
    assert(r.deep_view() =~= item_row(item@, name_w as nat, now_unix as int));
    r
}

/// The rows of the list.
pub fn list_rows(app: &App) -> (r: Vec<Vec<Span>>)
    ensures
        r.deep_view() == list_rows_of(app@),
{
    let name_w = name_column(app);
    let mut r: Vec<Vec<Span>> = Vec::new();
    let mut i: usize = 0;
    while i < app.items.len()
        invariant
            i <= app.items@.len(),
            r@.len() == i,
            name_w == column(item_names(app@.items)),
            forall|k: int| 0 <= k < i ==> (#[trigger] r@[k]).deep_view() == list_rows_of(app@)[k],
        decreases app.items@.len() - i,
    {
        r.push(row_of(&app.items[i], name_w, app.now_unix));
        i += 1;
    }
    assert(r.deep_view() =~= list_rows_of(app@));
    r
}

/// The frame around the list.
pub fn list_title(app: &App) -> (r: String)
    ensures
        r@ == list_title_of(app@),
{
    " git barber · base ".to_owned().concat(app.base.name.as_str()).concat(" · ").concat(
        text::to_decimal(app.items.len() as u128).as_str(),
    ).concat(" candidates ")
}

/// The first warning, and how many more there are.
pub fn list_warning(app: &App) -> (r: Option<String>)
    ensures
        r.deep_view() == list_warning_of(app@),
{
    let n = app.warnings.len();
    if n == 0 {
        None
    } else {
        assert(app@.warnings[0] == app.warnings@[0]@);
        let first = " ! ".to_owned().concat(app.warnings[0].as_str());
        Some(
            if n == 1 {
                first.concat(" ")
            } else {
                first.concat(" (+").concat(text::to_decimal((n - 1) as u128).as_str()).concat(
                    " more)",
                ).concat(" ")
            },
        )
    }
}

/// The line below the list.
pub fn list_hint(app: &App) -> (r: String)
    ensures
        r@ == list_hint_of(app@),
{
    " ".to_owned().concat(text::to_decimal(app.selected_count() as u128).as_str()).concat(
        " sel · ",
    ).concat(text::to_decimal(app.force_count() as u128).as_str()).concat(" force · ").concat(
        text::to_decimal(app.remote_count() as u128).as_str(),
    ).concat(" remote │ space a n r p · enter delete · q quit")
}

// ---------------------------------------------------------------------------
// The preview panel.

/// The frame around the preview.
pub open spec fn preview_title_of(a: AppView) -> Seq<char> {
    " "@ + clipped(
        match a.highlighted() {
            Some(c) => c.name,
            None => Seq::empty(),
        },
        MAX_NAME_W as nat,
    ) + " "@
}

/// The preview. No text yet means the driver has not answered for this
/// branch: that is said rather than shown as a blank box, which reads as
/// "nothing here".
pub open spec fn preview_body_of(a: AppView) -> Seq<char> {
    match a.shown_preview() {
        Some(shown) => shown,
        None => "loading…"@,
    }
}

/// The frame around the preview.
pub fn preview_title(app: &App) -> (r: String)
    ensures
        r@ == preview_title_of(app@),
{
    let name = match app.highlighted_candidate() {
        Some(c) => c.name.clone(),
        None => String::new(),
    };
    " ".to_owned().concat(clip(name.as_str(), MAX_NAME_W).as_str()).concat(" ")
}

/// The preview.
pub fn preview_body(app: &App) -> (r: String)
    ensures
        r@ == preview_body_of(app@),
{
    match app.preview() {
        Some(shown) => shown.to_owned(),
        None => "loading…".to_owned(),
    }
}

// ---------------------------------------------------------------------------
// The confirmation dialog. Severity first: if anything must be cut on a small
// terminal, it is the safe tail, never the destructive head.

/// What the selected branches are sorted by.
#[derive(Debug, Clone, Copy, PartialEq, Eq, Structural)]
pub enum Severity {
    /// Forced, and possibly unmerged.
    Gone,
    /// Forced, but verified.
    Verified,
    /// Merged in git's own sense.
    Gentle,
}

/// The selected item is of this severity.
pub open spec fn is_of(item: ItemView, severity: Severity) -> bool {
    item.selected && match severity {
        Severity::Gone => item.candidate.kind == MergeKind::Gone,
        Severity::Verified => item.candidate.needs_force() && item.candidate.kind
            != MergeKind::Gone,
        Severity::Gentle => !item.candidate.needs_force(),
    }
}

/// The names of the selected items of one severity, a line each.
pub open spec fn names_at(items: Seq<ItemView>, severity: Severity) -> Seq<SpanView>
    decreases items.len(),
{
    if items.len() == 0 {
        Seq::empty()
    } else {
        let earlier = names_at(items.drop_last(), severity);
        if is_of(items.last(), severity) {
            earlier.push(toned("  "@ + items.last().candidate.name, Tone::Plain))
        } else {
            earlier
        }
    }
}

/// The remote branches that go, a line each. Target first: if the terminal is
/// narrow, the ref actually being deleted must survive, not the local
/// nickname.
pub open spec fn remote_targets(items: Seq<ItemView>) -> Seq<SpanView>
    decreases items.len(),
{
    if items.len() == 0 {
        Seq::empty()
    } else {
        let earlier = remote_targets(items.drop_last());
        let i = items.last();
        match ops::counterpart(i.candidate) {
            Some((r, b)) if i.selected && i.remote => earlier.push(
                toned(
                    "  deletes "@ + r + "/"@ + b + "  (local: "@ + clipped(
                        i.candidate.name,
                        MAX_NAME_W as nat,
                    ) + ")"@,
                    Tone::Red,
                ),
            ),
            _ => earlier,
        }
    }
}

/// A heading over lines, if there are any.
pub open spec fn section(heading: SpanView, lines: Seq<SpanView>) -> Seq<SpanView> {
    if lines.len() == 0 {
        Seq::empty()
    } else {
        seq![heading] + lines
    }
}

/// Everything the dialog has to say.
pub open spec fn dialog_of(items: Seq<ItemView>) -> Seq<SpanView> {
    section(
        toned("DELETE ON REMOTE — affects everyone:"@, Tone::BoldRed),
        remote_targets(items),
    ) + section(
        toned("Force delete (upstream gone — may hold unmerged commits):"@, Tone::Red),
        names_at(items, Severity::Gone),
    ) + section(
        toned("Force delete (verified squash/rebase-merged):"@, Tone::Yellow),
        names_at(items, Severity::Verified),
    ) + section(
        toned("Delete (git branch -d):"@, Tone::Plain),
        names_at(items, Severity::Gentle),
    )
}

/// As many of the lines as there is room for; everything beyond becomes a
/// count.
pub open spec fn within(lines: Seq<SpanView>, budget: nat) -> Seq<SpanView> {
    if lines.len() <= budget {
        lines
    } else {
        let keep = if budget > 0 {
            budget - 1
        } else {
            0
        };
        lines.take(keep).push(
            toned("… and "@ + text::decimal((lines.len() - keep) as nat) + " more"@, Tone::Dim),
        )
    }
}

/// The rows inside a bordered box of the given height.
pub open spec fn inner_rows(height: u16) -> nat {
    if height > 2 {
        (height - 2) as nat
    } else {
        0
    }
}

/// The lines of the dialog on a terminal of the given height.
pub open spec fn confirm_lines_of(a: AppView, height: u16) -> Seq<SpanView> {
    within(dialog_of(a.items), inner_rows(height))
}

/// Whether the selected item is of this severity.
fn belongs(item: &Item, severity: Severity) -> (r: bool)
    ensures
        r == is_of(item@, severity),
{
    item.selected && match severity {
        Severity::Gone => item.candidate.kind == MergeKind::Gone,
        Severity::Verified => item.candidate.needs_force() && item.candidate.kind
            != MergeKind::Gone,
        Severity::Gentle => !item.candidate.needs_force(),
    }
}

fn names_with(app: &App, severity: Severity) -> (r: Vec<Span>)
    ensures
        r.deep_view() == names_at(app@.items, severity),
{
    let mut r: Vec<Span> = Vec::new();
    let mut i: usize = 0;
    let ghost all = app@.items;
    assert(all.take(0) =~= Seq::<ItemView>::empty());
    assert(r.deep_view() =~= Seq::<SpanView>::empty());
    while i < app.items.len()
        invariant
            i <= app.items@.len(),
            all == app.items.deep_view(),
            r.deep_view() == names_at(all.take(i as int), severity),
        decreases app.items@.len() - i,
    {
        let ghost earlier = r.deep_view();
        let item = &app.items[i];
        assert(all.take(i + 1).drop_last() =~= all.take(i as int));
        assert(all.take(i + 1).last() == item@);
        if belongs(item, severity) {
            let line = Span {
                text: "  ".to_owned().concat(item.candidate.name.as_str()),
                tone: Tone::Plain,
            };
            let ghost v = line@;
            r.push(line);
            assert(r.deep_view() =~= earlier.push(v));
        }
        i += 1;
    }
    assert(all.take(i as int) =~= all);
    r
}

fn targets(app: &App) -> (r: Vec<Span>)
    ensures
        r.deep_view() == remote_targets(app@.items),
{
    let mut r: Vec<Span> = Vec::new();
    let mut i: usize = 0;
    let ghost all = app@.items;
    assert(all.take(0) =~= Seq::<ItemView>::empty());
    assert(r.deep_view() =~= Seq::<SpanView>::empty());
    while i < app.items.len()
        invariant
            i <= app.items@.len(),
            all == app.items.deep_view(),
            r.deep_view() == remote_targets(all.take(i as int)),
        decreases app.items@.len() - i,
    {
        let ghost earlier = r.deep_view();
        let item = &app.items[i];
        assert(all.take(i + 1).drop_last() =~= all.take(i as int));
        assert(all.take(i + 1).last() == item@);
        if item.selected && item.remote {
            if let Some((remote, branch)) = remote_branch(&item.candidate) {
                let line = Span {
                    text: "  deletes ".to_owned().concat(remote.as_str()).concat("/").concat(
                        branch.as_str(),
                    ).concat("  (local: ").concat(
                        clip(item.candidate.name.as_str(), MAX_NAME_W).as_str(),
                    ).concat(")"),
                    tone: Tone::Red,
                };
                let ghost v = line@;
                r.push(line);
                assert(r.deep_view() =~= earlier.push(v));
            }
        }
        i += 1;
    }
    assert(all.take(i as int) =~= all);
    r
}

/// Adds a heading over lines, if there are any.
fn add_section(out: &mut Vec<Span>, heading: Span, lines: Vec<Span>)
    ensures
        final(out).deep_view() == old(out).deep_view() + section(heading@, lines.deep_view()),
{
    let ghost start = out.deep_view();
    let ghost (head, body) = (heading@, lines.deep_view());
    if lines.len() > 0 {
        let mut lines = lines;
        out.push(heading);
        assert(out.deep_view() =~= start.push(head));
        out.append(&mut lines);
        assert(out.deep_view() =~= start + section(head, body));
    } else {
        assert(body.len() == 0);
        assert(start + section(head, body) =~= start);
    }
}

/// The lines of the dialog on a terminal of the given height.
pub fn confirm_lines(app: &App, height: u16) -> (r: Vec<Span>)
    ensures
        r.deep_view() == confirm_lines_of(app@, height),
        r@.len() <= u16::MAX - 2,
{
    let mut r: Vec<Span> = Vec::new();
    assert(r.deep_view() =~= Seq::<SpanView>::empty());
    add_section(
        &mut r,
        Span { text: "DELETE ON REMOTE — affects everyone:".to_owned(), tone: Tone::BoldRed },
        targets(app),
    );
    add_section(
        &mut r,
        Span {
            text: "Force delete (upstream gone — may hold unmerged commits):".to_owned(),
            tone: Tone::Red,
        },
        names_with(app, Severity::Gone),
    );
    add_section(
        &mut r,
        Span {
            text: "Force delete (verified squash/rebase-merged):".to_owned(),
            tone: Tone::Yellow,
        },
        names_with(app, Severity::Verified),
    );
    add_section(
        &mut r,
        Span { text: "Delete (git branch -d):".to_owned(), tone: Tone::Plain },
        names_with(app, Severity::Gentle),
    );
    assert(r.deep_view() =~= dialog_of(app@.items));
    // Borders take 2 rows.
    let budget: usize = if height > 2 {
        (height - 2) as usize
    } else {
        0
    };
    if r.len() > budget {
        let ghost all = r.deep_view();
        let keep: usize = if budget > 0 {
            budget - 1
        } else {
            0
        };
        let dropped: usize = r.len() - keep;
        r.truncate(keep);
        assert(r.deep_view() =~= all.take(keep as int));
        r.push(
            Span {
                text: "… and ".to_owned().concat(text::to_decimal(dropped as u128).as_str()).concat(
                    " more",
                ),
                tone: Tone::Dim,
            },
        );
        assert(r.deep_view() =~= confirm_lines_of(app@, height));
    }
    r
}

/// The title of the dialog.
pub fn confirm_title() -> (r: &'static str)
    ensures
        r@ == " confirm deletion "@,
{
    " confirm deletion "
}

/// The keys of the dialog, under it, so that the way out is visible even when
/// the lines are clipped.
pub fn confirm_hint() -> (r: &'static str)
    ensures
        r@ == " y confirm · n/q/esc cancel "@,
{
    " y confirm · n/q/esc cancel "
}

// ---------------------------------------------------------------------------
// Where things go.

/// How many cells a line of text takes up when it is drawn.
pub uninterp spec fn display_width(text: Seq<char>) -> usize;

/// `ratatui::text::Line::width` of a line made of the text: the cells it
/// takes up, which depend on the text alone. What they are follows the
/// Unicode tables of that crate and is named, not stated.
#[verifier::external_body]
fn drawn_width(text: &str) -> (w: usize)
    ensures
        w == display_width(text@),
{
    ratatui::text::Line::from(text).width()
}

/// The widest of the lines, in cells.
pub open spec fn widest_line(lines: Seq<SpanView>) -> nat
    decreases lines.len(),
{
    if lines.len() == 0 {
        0
    } else {
        let w = widest_line(lines.drop_last());
        let n = display_width(lines.last().text) as nat;
        if n > w {
            n
        } else {
            w
        }
    }
}

/// The columns of a box around lines of the given width: four more, counted
/// in sixteen bits, but never fewer than forty.
pub open spec fn box_width(inner: nat) -> u16 {
    let w = ((inner % 65536) + 4) % 65536;
    if w > 40 {
        w as u16
    } else {
        40
    }
}

/// A rectangle of the given size in the middle of another, cut to fit.
pub open spec fn middle(area: Area, width: u16, height: u16) -> Area {
    let w = if width < area.width {
        width
    } else {
        area.width
    };
    let h = if height < area.height {
        height
    } else {
        area.height
    };
    Area {
        x: (area.x + (area.width - w) / 2) as u16,
        y: (area.y + (area.height - h) / 2) as u16,
        width: w,
        height: h,
    }
}

/// Where a dialog of these lines goes.
pub open spec fn confirm_area_of(area: Area, lines: Seq<SpanView>) -> Area {
    middle(area, box_width(widest_line(lines)), (lines.len() + 2) as u16)
}

/// A rectangle of the given size in the middle of another, cut to fit.
pub fn centered(area: Area, width: u16, height: u16) -> (r: Area)
    requires
        area.fits(),
    ensures
        r == middle(area, width, height),
{
    let w: u16 = if width < area.width {
        width
    } else {
        area.width
    };
    let h: u16 = if height < area.height {
        height
    } else {
        area.height
    };
    Area {
        x: area.x + (area.width - w) / 2,
        y: area.y + (area.height - h) / 2,
        width: w,
        height: h,
    }
}

/// The columns of a box around lines of the given width.
pub fn dialog_width(inner: usize) -> (w: u16)
    ensures
        w == box_width(inner as nat),
{
    let low: usize = inner % 65536;
    let w: usize = (low + 4) % 65536;
    if w > 40 {
        w as u16
    } else {
        40
    }
}

/// Where a dialog of these lines goes.
pub fn confirm_area(area: Area, lines: &Vec<Span>) -> (r: Area)
    requires
        area.fits(),
        lines@.len() <= u16::MAX - 2,
    ensures
        r == confirm_area_of(area, lines.deep_view()),
{
    let mut w: usize = 0;
    let mut i: usize = 0;
    let ghost all = lines.deep_view();
    assert(all.take(0) =~= Seq::<SpanView>::empty());
    while i < lines.len()
        invariant
            i <= lines@.len(),
            all == lines.deep_view(),
            w == widest_line(all.take(i as int)),
        decreases lines@.len() - i,
    {
        assert(all.take(i + 1).drop_last() =~= all.take(i as int));
        assert(all.take(i + 1).last() == lines@[i as int]@);
        let n = drawn_width(lines[i].text.as_str());
        if n > w {
            w = n;
        }
        i += 1;
    }
    assert(all.take(i as int) =~= all);
    centered(area, dialog_width(w), (lines.len() + 2) as u16)
}

/// How many of `len` cells from `start` on there are: cells are numbered in
/// sixteen bits, and what would lie beyond the last number is not there.
pub open spec fn cells(start: u16, len: u16) -> nat {
    if start + len > u16::MAX {
        (u16::MAX - start) as nat
    } else {
        len as nat
    }
}

/// What a second part that wants `wanted` of `whole` cells gets of them, behind
/// a first part that keeps at least `min`.
pub open spec fn second_share(whole: nat, min: u16, wanted: nat) -> nat {
    let room = if whole > min {
        (whole - min) as nat
    } else {
        0
    };
    if wanted < room {
        wanted
    } else {
        room
    }
}

/// `percent` per cent of the cells, to the nearest cell, a half counting as
/// none.
pub open spec fn per_cent(whole: nat, percent: u16) -> nat {
    ((whole * percent + 49) / 100) as nat
}

/// The area cut by an upright line that leaves `right` columns behind it.
pub open spec fn columns_cut(area: Area, right: nat) -> (Area, Area) {
    let whole = cells(area.x, area.width);
    (
        Area { width: (whole - right) as u16, ..area },
        Area { x: (area.x + whole - right) as u16, width: right as u16, ..area },
    )
}

/// The area cut by a level line that leaves `below` rows under it.
pub open spec fn rows_cut(area: Area, below: nat) -> (Area, Area) {
    let whole = cells(area.y, area.height);
    (
        Area { height: (whole - below) as u16, ..area },
        Area { y: (area.y + whole - below) as u16, height: below as u16, ..area },
    )
}

/// Two parts side by side that fill the area: the right one gets `percent` per
/// cent of the columns, as far as the left one keeps at least `min`.
pub open spec fn side_by_side(area: Area, min: u16, percent: u16) -> (Area, Area) {
    let whole = cells(area.x, area.width);
    columns_cut(area, second_share(whole, min, per_cent(whole, percent)))
}

/// Two parts on top of each other that fill the area: the lower one gets
/// `length` rows, as far as the upper one keeps at least `min`.
pub open spec fn stacked(area: Area, min: u16, length: u16) -> (Area, Area) {
    rows_cut(area, second_share(cells(area.y, area.height), min, length as nat))
}

/// `ratatui::layout::Layout::horizontal` with a share of at least `min`
/// columns beside one of `percent` per cent, and `Layout::areas`. The parts
/// keep the rows of the whole and fill its columns without a gap: a minimum
/// outranks a percentage, and a minimum takes what is left over. Where the line
/// falls between two columns it is moved to the nearer one, to the right from
/// the middle. Minimums are read as signed sixteen-bit numbers there, hence the
/// bound.
#[verifier::external_body]
fn beside(area: Area, min: u16, percent: u16) -> (r: (Area, Area))
    requires
        min <= i16::MAX,
        percent <= 100,
    ensures
        r == side_by_side(area, min, percent),
{
    let Area { x, y, width, height } = area;
    let shares = [Constraint::Min(min), Constraint::Percentage(percent)];
    let [a, b] = Layout::horizontal(shares).areas(Rect { x, y, width, height });
    let first = Area { x: a.x, y: a.y, width: a.width, height: a.height };
    (first, Area { x: b.x, y: b.y, width: b.width, height: b.height })
}

/// `ratatui::layout::Layout::vertical` with a share of at least `min` rows
/// above one of `length` rows, and `Layout::areas`. The parts keep the columns
/// of the whole and fill its rows without a gap: a minimum outranks a length,
/// and a minimum takes what is left over. Minimums are read as signed
/// sixteen-bit numbers there, hence the bound.
#[verifier::external_body]
fn above(area: Area, min: u16, length: u16) -> (r: (Area, Area))
    requires
        min <= i16::MAX,
    ensures
        r == stacked(area, min, length),
{
    let Area { x, y, width, height } = area;
    let shares = [Constraint::Min(min), Constraint::Length(length)];
    let [a, b] = Layout::vertical(shares).areas(Rect { x, y, width, height });
    let first = Area { x: a.x, y: a.y, width: a.width, height: a.height };
    (first, Area { x: b.x, y: b.y, width: b.width, height: b.height })
}

/// Everything but the last row, and the last row for the hints.
pub open spec fn framed(area: Area) -> (Area, Area) {
    stacked(area, 0, 1)
}

/// The body of a screen, and the row of hints under it.
pub fn body_and_footer(area: Area) -> (r: (Area, Area))
    ensures
        r == framed(area),
{
    above(area, 0, 1)
}

/// How the body is divided between the list and the preview.
#[derive(Debug, Clone, Copy, PartialEq, Eq, Structural)]
pub enum Split {
    /// No preview.
    Whole,
    /// The preview beside the list: at least `min` columns for the list, and
    /// `percent` of them for the preview.
    Beside { min: u16, percent: u16 },
    /// The preview under the list: at least `min` rows for the list, and
    /// `length` of them for the preview.
    Above { min: u16, length: u16 },
}

/// The division for a body of the given width: beside the list on a wide
/// terminal, underneath on a narrow one. A minimum on the list side means a
/// short or narrow terminal shrinks the preview rather than the thing being
/// chosen from.
pub open spec fn split_for(width: u16, preview_open: bool) -> Split {
    if !preview_open {
        Split::Whole
    } else if width >= PREVIEW_SIDE_BY_SIDE_W {
        Split::Beside { min: 40, percent: 45 }
    } else {
        Split::Above { min: 3, length: PREVIEW_BOTTOM_H }
    }
}

/// The division for a body of the given width.
pub fn choose_split(width: u16, preview_open: bool) -> (s: Split)
    ensures
        s == split_for(width, preview_open),
{
    if !preview_open {
        Split::Whole
    } else if width >= PREVIEW_SIDE_BY_SIDE_W {
        Split::Beside { min: 40, percent: 45 }
    } else {
        Split::Above { min: 3, length: PREVIEW_BOTTOM_H }
    }
}

/// The list's part of the body and, when the panel is open, the preview's.
pub open spec fn parts_of(area: Area, preview_open: bool) -> (Area, Option<Area>) {
    match split_for(area.width, preview_open) {
        Split::Whole => (area, None),
        Split::Beside { min, percent } => {
            let (list, preview) = side_by_side(area, min, percent);
            (list, Some(preview))
        },
        Split::Above { min, length } => {
            let (list, preview) = stacked(area, min, length);
            (list, Some(preview))
        },
    }
}

/// Split the body into the list and, when the panel is open, the preview, as
/// [`choose_split`] has it.
pub fn split_body(area: Area, preview_open: bool) -> (r: (Area, Option<Area>))
    ensures
        r == parts_of(area, preview_open),
{
    match choose_split(area.width, preview_open) {
        Split::Whole => (area, None),
        Split::Beside { min, percent } => {
            let (list, preview) = beside(area, min, percent);
            (list, Some(preview))
        },
        Split::Above { min, length } => {
            let (list, preview) = above(area, min, length);
            (list, Some(preview))
        },
    }
}

/// The list comes first, the preview follows it without a gap or an overlap,
/// and together they fill the body: side by side on a wide terminal, stacked
/// on a narrow one. A short terminal shrinks the preview rather than the list,
/// which keeps forty columns or three rows wherever the body has them.
pub proof fn law_preview_follows_the_list(area: Area)
    requires
        area.fits(),
    ensures
        parts_of(area, false) == (area, None::<Area>),
        parts_of(area, true).1 is Some,
        ({
            let list = parts_of(area, true).0;
            let preview = parts_of(area, true).1->Some_0;
            &&& list.x == area.x && list.y == area.y
            &&& list.fits() && preview.fits()
            &&& area.width >= PREVIEW_SIDE_BY_SIDE_W ==> {
                &&& list.height == area.height
                &&& preview.y == area.y && preview.height == area.height
                &&& preview.x == list.x + list.width
                &&& list.width + preview.width == area.width
                &&& list.width >= 40
                &&& -50 <= 100 * preview.width - 45 * area.width < 50
            }
            &&& area.width < PREVIEW_SIDE_BY_SIDE_W ==> {
                &&& list.width == area.width
                &&& preview.x == area.x && preview.width == area.width
                &&& preview.y == list.y + list.height
                &&& list.height + preview.height == area.height
                &&& list.height >= 3 || preview.height == 0
                &&& area.height >= 3 + PREVIEW_BOTTOM_H ==> preview.height == PREVIEW_BOTTOM_H
            }
        }),
{
}

/// The hints get the last row of a screen that has one, and the body the rest.
pub proof fn law_hints_take_the_last_row(area: Area)
    requires
        area.fits(),
        area.height > 0,
    ensures
        framed(area).0 == (Area { height: (area.height - 1) as u16, ..area }),
        framed(area).1 == (Area { y: (area.y + area.height - 1) as u16, height: 1, ..area }),
{
}

// ---------------------------------------------------------------------------
// The results.

/// The names of the results.
pub open spec fn result_names(rs: Seq<DeletionView>) -> Seq<Seq<char>> {
    rs.map_values(|r: DeletionView| r.name)
}

/// One result.
pub open spec fn result_row(r: DeletionView, name_w: nat) -> Seq<SpanView> {
    seq![
        toned(
            "  "@ + text::pad_end(clipped(r.name, MAX_NAME_W as nat), name_w) + "  "@,
            Tone::Plain,
        ),
        toned(
            output::local_text(r),
            if r.local is Failed {
                Tone::Red
            } else {
                Tone::Green
            },
        ),
    ] + if r.remote is Skipped {
        Seq::empty()
    } else {
        seq![toned(output::remote_text(r.remote), Tone::Red)]
    }
}

/// The results, a line each.
pub open spec fn result_rows(rs: Seq<DeletionView>) -> Seq<Seq<SpanView>> {
    let name_w = column(result_names(rs));
    rs.map_values(|r: DeletionView| result_row(r, name_w))
}

/// The branch being deleted.
pub open spec fn flight_rows(in_flight: Option<Seq<char>>) -> Seq<Seq<SpanView>> {
    match in_flight {
        Some(name) => seq![seq![toned("  → "@ + name + " …"@, Tone::Dim)]],
        None => Seq::empty(),
    }
}

/// The undo commands, under a heading.
pub open spec fn undo_rows(undo: Seq<Seq<char>>) -> Seq<Seq<SpanView>> {
    if undo.len() == 0 {
        Seq::empty()
    } else {
        seq![seq![toned(""@, Tone::Plain)], seq![toned("undo:"@, Tone::Plain)]] + undo.map_values(
            |u: Seq<char>| seq![toned("  "@ + u, Tone::Plain)],
        ) + seq![seq![toned("  (recent tips also linger in `git reflog`)"@, Tone::Dim)]]
    }
}

/// Everything the results screen has to say.
pub open spec fn results_rows_of(a: AppView) -> Seq<Seq<SpanView>> {
    result_rows(a.results) + flight_rows(a.in_flight) + undo_rows(output::all_undo(a.results))
}

/// The frame around the results.
pub open spec fn results_title_of(a: AppView) -> Seq<char> {
    match (a.screen, a.in_flight) {
        (Screen::Deleting, Some(name)) => " deleting "@ + text::decimal(a.results.len() + 1)
            + "/"@ + text::decimal(a.selected()) + " → "@ + name + " … "@,
        (Screen::Deleting, None) => " deleting "@ + text::decimal(a.results.len()) + "/"@
            + text::decimal(a.selected()) + " … "@,
        _ => " results "@,
    }
}

/// The line below the results.
pub open spec fn results_hint_of(screen: Screen) -> Seq<char> {
    if screen == Screen::Deleting {
        " working… (results are reprinted after exit)"@
    } else {
        " j/k scroll · q exit (results are reprinted after exit)"@
    }
}

/// How far the results can be scrolled: not past the content. The lines are
/// counted in sixteen bits.
pub open spec fn last_scroll(lines: nat, height: u16) -> u16 {
    let n = lines % 65536;
    if n > inner_rows(height) {
        (n - inner_rows(height)) as u16
    } else {
        0
    }
}

fn result_column(rs: &Vec<DeletionResult>) -> (w: usize)
    ensures
        w == column(result_names(rs.deep_view())),
{
    let mut w: usize = 0;
    let mut i: usize = 0;
    let ghost all = result_names(rs.deep_view());
    assert(all.take(0) =~= Seq::<Seq<char>>::empty());
    while i < rs.len()
        invariant
            i <= rs@.len(),
            all == result_names(rs.deep_view()),
            w == longest(all.take(i as int)),
        decreases rs@.len() - i,
    {
        assert(all.take(i + 1).drop_last() =~= all.take(i as int));
        assert(all.take(i + 1).last() == rs@[i as int].name@);
        let n = text::char_count(rs[i].name.as_str());
        if n > w {
            w = n;
        }
        i += 1;
    }
    assert(all.take(i as int) =~= all);
    if w > MAX_NAME_W {
        MAX_NAME_W
    } else {
        w
    }
}

fn row_of_result(r: &DeletionResult, name_w: usize) -> (row: Vec<Span>)
    ensures
        row.deep_view() == result_row(r@, name_w as nat),
{
    let mut row: Vec<Span> = Vec::new();
    row.push(
        Span {
            text: "  ".to_owned().concat(
                text::padded_end(clip(r.name.as_str(), MAX_NAME_W).as_str(), name_w).as_str(),
            ).concat("  "),
            tone: Tone::Plain,
        },
    );
    let tone = match &r.local {
        LocalOutcome::Failed(_) => Tone::Red,
        _ => Tone::Green,
    };
    row.push(Span { text: local_label(r), tone });
    let skipped = match &r.remote {
        RemoteOutcome::Skipped => true,
        _ => false,
    };
    if !skipped {
        row.push(Span { text: remote_label(&r.remote), tone: Tone::Red });
    }
    assert(row.deep_view() =~= result_row(r@, name_w as nat));
    row
}

/// One line in one tone.
fn one(text: String, tone: Tone) -> (row: Vec<Span>)
    ensures
        row.deep_view() == seq![toned(text@, tone)],
{
    let mut row: Vec<Span> = Vec::new();
    let ghost t = text@;
    row.push(Span { text, tone });
    assert(row.deep_view() =~= seq![toned(t, tone)]);
    row
}

/// The undo commands, under a heading.
fn rows_of_undo(undo: &Vec<String>) -> (r: Vec<Vec<Span>>)
    ensures
        r.deep_view() == undo_rows(undo.deep_view()),
{
    let mut r: Vec<Vec<Span>> = Vec::new();
    if undo.len() == 0 {
        assert(undo.deep_view().len() == 0);
        assert(r.deep_view() =~= undo_rows(undo.deep_view()));
        return r;
    }
    r.push(one("".to_owned(), Tone::Plain));
    r.push(one("undo:".to_owned(), Tone::Plain));
    let mut i: usize = 0;
    while i < undo.len()
        invariant
            i <= undo@.len(),
            r@.len() == i + 2,
            r@[0].deep_view() == seq![toned(""@, Tone::Plain)],
            r@[1].deep_view() == seq![toned("undo:"@, Tone::Plain)],
            forall|k: int|
                2 <= k < i + 2 ==> (#[trigger] r@[k]).deep_view() == seq![
                    toned("  "@ + undo@[k - 2]@, Tone::Plain),
                ],
        decreases undo@.len() - i,
    {
        r.push(one("  ".to_owned().concat(undo[i].as_str()), Tone::Plain));
        i += 1;
    }
    r.push(one("  (recent tips also linger in `git reflog`)".to_owned(), Tone::Dim));
    assert(r.deep_view() =~= undo_rows(undo.deep_view()));
    r
}

/// Everything the results screen has to say.
pub fn results_rows(app: &App) -> (r: Vec<Vec<Span>>)
    ensures
        r.deep_view() == results_rows_of(app@),
{
    let name_w = result_column(&app.results);
    let mut r: Vec<Vec<Span>> = Vec::new();
    let mut i: usize = 0;
    while i < app.results.len()
        invariant
            i <= app.results@.len(),
            r@.len() == i,
            name_w == column(result_names(app@.results)),
            forall|k: int|
                0 <= k < i ==> (#[trigger] r@[k]).deep_view() == result_rows(app@.results)[k],
        decreases app.results@.len() - i,
    {
        r.push(row_of_result(&app.results[i], name_w));
        i += 1;
    }
    assert(r.deep_view() =~= result_rows(app@.results));
    let ghost first = r.deep_view();
    if let Some(name) = &app.in_flight {
        r.push(one("  → ".to_owned().concat(name.as_str()).concat(" …"), Tone::Dim));
    }
    assert(r.deep_view() =~= first + flight_rows(app@.in_flight));
    let ghost second = r.deep_view();
    let undo = undo_commands(app.results.as_slice());
    let mut tail = rows_of_undo(&undo);
    let ghost third = tail.deep_view();
    r.append(&mut tail);
    assert(r.deep_view() =~= second + third);
    r
}

/// Clamp the scroll so the user can't scroll past the content, on a results
/// panel of the given height.
pub fn clamp_scroll(app: &mut App, lines: usize, height: u16)
    ensures
        final(app)@ == (AppView {
            results_scroll: if old(app).results_scroll < last_scroll(lines as nat, height) {
                old(app).results_scroll
            } else {
                last_scroll(lines as nat, height)
            },
            ..old(app)@
        }),
{
    let n: u16 = (lines % 65536) as u16;
    let visible: u16 = if height > 2 {
        height - 2
    } else {
        0
    };
    let max: u16 = if n > visible {
        n - visible
    } else {
        0
    };
    if app.results_scroll >= max {
        app.results_scroll = max;
    }
}

/// The frame around the results.
pub fn results_title(app: &App) -> (r: String)
    ensures
        r@ == results_title_of(app@),
{
    if app.screen != Screen::Deleting {
        return " results ".to_owned();
    }
    let total = text::to_decimal(app.selected_count() as u128);
    match &app.in_flight {
        Some(name) => " deleting ".to_owned().concat(
            text::to_decimal(app.results.len() as u128 + 1).as_str(),
        ).concat("/").concat(total.as_str()).concat(" → ").concat(name.as_str()).concat(" … "),
        None => " deleting ".to_owned().concat(
            text::to_decimal(app.results.len() as u128).as_str(),
        ).concat("/").concat(total.as_str()).concat(" … "),
    }
}

/// The line below the results.
pub fn results_hint(app: &App) -> (r: &'static str)
    ensures
        r@ == results_hint_of(app@.screen),
{
    if app.screen == Screen::Deleting {
        " working… (results are reprinted after exit)"
    } else {
        " j/k scroll · q exit (results are reprinted after exit)"
    }
}

// ---------------------------------------------------------------------------
// What the screens promise.

/// A cut name is never longer than it may be, and a short one is not cut.
pub proof fn law_clipped_names_fit(name: Seq<char>, max: nat)
    requires
        max > 0,
    ensures
        clipped(name, max).len() <= max,
        name.len() <= max ==> clipped(name, max) == name,
{
    reveal_strlit("…");
}

/// The dialog fits the terminal and loses only its tail: what is shown of it
/// are its first lines, the destructive ones first.
pub proof fn law_dialog_keeps_its_head(lines: Seq<SpanView>, budget: nat)
    requires
        budget > 0,
    ensures
        within(lines, budget).len() <= budget,
        forall|k: int|
            0 <= k < within(lines, budget).len() && k < budget - 1 ==> #[trigger] within(
                lines,
                budget,
            )[k] == lines[k],
{
}

/// Whatever is deleted on a remote is named first in the dialog, by the ref
/// that goes.
pub proof fn law_remote_targets_come_first(items: Seq<ItemView>, k: int)
    requires
        0 <= k < remote_targets(items).len(),
    ensures
        dialog_of(items)[0] == toned("DELETE ON REMOTE — affects everyone:"@, Tone::BoldRed),
        dialog_of(items)[k + 1] == remote_targets(items)[k],
{
}

/// Every armed and selected remote deletion is announced.
pub proof fn law_every_remote_deletion_is_announced(items: Seq<ItemView>, i: int)
    requires
        0 <= i < items.len(),
        items[i].selected,
        items[i].remote,
    ensures
        ops::counterpart(items[i].candidate) matches Some((r, b)) ==> remote_targets(
            items,
        ).contains(
            toned(
                "  deletes "@ + r + "/"@ + b + "  (local: "@ + clipped(
                    items[i].candidate.name,
                    MAX_NAME_W as nat,
                ) + ")"@,
                Tone::Red,
            ),
        ),
    decreases items.len(),
{
    if let Some((r, b)) = ops::counterpart(items[i].candidate) {
        let line = toned(
            "  deletes "@ + r + "/"@ + b + "  (local: "@ + clipped(
                items[i].candidate.name,
                MAX_NAME_W as nat,
            ) + ")"@,
            Tone::Red,
        );
        let earlier = remote_targets(items.drop_last());
        let all = remote_targets(items);
        if i < items.len() - 1 {
            assert(items.drop_last()[i] == items[i]);
            law_every_remote_deletion_is_announced(items.drop_last(), i);
            let m = choose|m: int| 0 <= m < earlier.len() && earlier[m] == line;
            assert(all[m] == line);
        } else {
            assert(all[all.len() - 1] == line);
        }
    }
}

} // verus!
