//! What the reports promise.

use vstd::prelude::*;

use crate::ops::{DeletionView, LocalView, RemoteView};
use crate::output;
use crate::scan::{CandidateView, MergeKind, ScanView};
use crate::text;

verus! {

/// Each kind has its word.
pub proof fn law_each_kind_has_its_word()
    ensures
        output::kind_word(MergeKind::Merged) == "merged"@,
        output::kind_word(MergeKind::Squash) == "squash"@,
        output::kind_word(MergeKind::Rebase) == "rebase"@,
        output::kind_word(MergeKind::Gone) == "gone"@,
{
}

/// An age is told in the largest unit of which one has passed, in full units:
/// `n` of them have passed and `n + 1` have not. Less than a minute, and the
/// future, count as one minute.
pub proof fn law_ages_in_full_units(now: int, then: int, n: nat)
    ensures
        ({
            let past = now - then;
            let (minute, hour, day) = (60int, 3_600int, 86_400int);
            &&& past < minute ==> output::age_text(now, then) == text::decimal(1) + "m"@
            &&& minute <= past < hour && n * minute <= past < (n + 1) * minute
                ==> output::age_text(now, then) == text::decimal(n) + "m"@
            &&& hour <= past < day && n * hour <= past < (n + 1) * hour ==> output::age_text(
                now,
                then,
            ) == text::decimal(n) + "h"@
            &&& day <= past < 7 * day && n * day <= past < (n + 1) * day ==> output::age_text(
                now,
                then,
            ) == text::decimal(n) + "d"@
            &&& 7 * day <= past < 30 * day && n * 7 * day <= past < (n + 1) * 7 * day
                ==> output::age_text(now, then) == text::decimal(n) + "w"@
            &&& 30 * day <= past < 365 * day && n * 30 * day <= past < (n + 1) * 30 * day
                ==> output::age_text(now, then) == text::decimal(n) + "mo"@
            &&& 365 * day <= past && n * 365 * day <= past < (n + 1) * 365 * day
                ==> output::age_text(now, then) == text::decimal(n) + "y"@
        }),
{
}

/// What is said of a local branch tells a plain deletion from a forced one,
/// and why it was forced.
pub proof fn law_local_outcomes_are_told(r: DeletionView)
    ensures
        r.local == LocalView::Deleted ==> output::local_text(r) == "deleted"@,
        r.local == LocalView::Skipped ==> output::local_text(r) == "no local branch"@,
        r.local == LocalView::ForceDeleted && r.kind == MergeKind::Merged ==> output::local_text(r)
            == "force-deleted (verified merged into base)"@,
        r.local == LocalView::ForceDeleted && (r.kind == MergeKind::Squash || r.kind
            == MergeKind::Rebase) ==> output::local_text(r) == "force-deleted (patch-id verified)"@,
        r.local == LocalView::ForceDeleted && r.kind == MergeKind::Gone ==> output::local_text(r)
            == "force-deleted (upstream was gone)"@,
        r.local is Failed ==> output::local_text(r) == "FAILED: "@ + r.local->Failed_0,
{
}

/// What is said of a remote branch names what was deleted; of one that was
/// not touched nothing is said.
pub proof fn law_remote_outcomes_are_told(r: RemoteView)
    ensures
        r is Deleted ==> output::remote_text(r) == ", deleted "@ + r->target + " on remote"@,
        r is Skipped ==> output::remote_text(r).len() == 0,
        r is Failed ==> output::remote_text(r) == ", remote FAILED: "@ + r->Failed_0,
{
}

/// An upstream is shown behind an arrow, and a gone one as gone.
pub proof fn law_upstreams_are_shown(c: CandidateView)
    ensures
        c.upstream is None ==> output::upstream_text(c).len() == 0,
        c.upstream is Some && !c.upstream_gone ==> output::upstream_text(c) == "  ↑ "@
            + c.upstream->Some_0,
        c.upstream is Some && c.upstream_gone ==> output::upstream_text(c) == "  ↑ "@
            + c.upstream->Some_0 + " (gone)"@,
{
}

/// Warnings are printed in order, each on a line that says that it is one.
pub proof fn law_warnings_a_line_each(first: Seq<Seq<char>>, second: Seq<Seq<char>>, w: Seq<char>)
    ensures
        output::warning_lines(Seq::empty()).len() == 0,
        output::warning_lines(seq![w]) == "warning: "@ + w + "\n"@,
        output::warning_lines(first + second) == output::warning_lines(first)
            + output::warning_lines(second),
    decreases second.len(),
{
    let none = Seq::<Seq<char>>::empty();
    assert(seq![w].drop_last() =~= none);
    assert(output::warning_lines(none) =~= Seq::empty());
    assert(output::warning_lines(seq![w]) =~= "warning: "@ + w + "\n"@);
    if second.len() == 0 {
        assert(first + second =~= first);
        assert(output::warning_lines(first) + output::warning_lines(second)
            =~= output::warning_lines(first));
    } else {
        law_warnings_a_line_each(first, second.drop_last(), w);
        assert((first + second).drop_last() =~= first + second.drop_last());
        assert((first + second).last() == second.last());
        assert(output::warning_lines(first + second) =~= output::warning_lines(first)
            + output::warning_lines(second));
    }
}

/// The column of names is as wide as the widest name, no wider.
pub proof fn law_names_fit_their_column(names: Seq<Seq<char>>)
    ensures
        forall|i: int|
            0 <= i < names.len() ==> text::byte_len(#[trigger] names[i]) <= output::widest(names),
        output::widest(names) > 0 ==> exists|i: int|
            0 <= i < names.len() && text::byte_len(#[trigger] names[i]) == output::widest(names),
        names.len() == 0 ==> output::widest(names) == 0,
    decreases names.len(),
{
    if names.len() > 0 {
        let rest = names.drop_last();
        law_names_fit_their_column(rest);
        assert(names[names.len() - 1] == names.last());
        assert forall|i: int| 0 <= i < names.len() implies text::byte_len(#[trigger] names[i])
            <= output::widest(names) by {
            if i < rest.len() {
                assert(rest[i] == names[i]);
            }
        }
        if output::widest(names) > 0 && output::widest(names) != text::byte_len(names.last()) {
            let i = choose|i: int|
                0 <= i < rest.len() && text::byte_len(#[trigger] rest[i]) == output::widest(rest);
            assert(names[i] == rest[i]);
        }
    }
}

/// The listing has a line for every candidate, in order: the name, the kind,
/// the age and the upstream, in columns.
pub proof fn law_a_line_per_candidate(
    first: Seq<CandidateView>,
    second: Seq<CandidateView>,
    c: CandidateView,
    w: nat,
    now: int,
)
    ensures
        output::rows(Seq::empty(), w, now).len() == 0,
        output::rows(seq![c], w, now) == "  "@ + text::pad_end(c.name, w) + "  "@ + text::pad_end(
            output::kind_word(c.kind),
            6,
        ) + "  "@ + text::pad_start(output::age_text(now, c.last_commit_unix as int), 4) + " ago"@
            + output::upstream_text(c) + "\n"@,
        output::rows(first + second, w, now) == output::rows(first, w, now) + output::rows(
            second,
            w,
            now,
        ),
    decreases second.len(),
{
    let none = Seq::<CandidateView>::empty();
    assert(seq![c].drop_last() =~= none);
    assert(output::rows(none, w, now) =~= Seq::empty());
    assert(output::rows(seq![c], w, now) =~= output::row(c, w, now));
    if second.len() == 0 {
        assert(first + second =~= first);
        assert(output::rows(first, w, now) + output::rows(second, w, now) =~= output::rows(
            first,
            w,
            now,
        ));
    } else {
        law_a_line_per_candidate(first, second.drop_last(), c, w, now);
        assert((first + second).drop_last() =~= first + second.drop_last());
        assert((first + second).last() == second.last());
        assert(output::rows(first + second, w, now) =~= output::rows(first, w, now) + output::rows(
            second,
            w,
            now,
        ));
    }
}

/// Every candidate counts as selected but the gone ones.
pub proof fn law_all_but_the_gone_count(
    first: Seq<CandidateView>,
    second: Seq<CandidateView>,
    c: CandidateView,
)
    ensures
        output::selected_in(Seq::empty()) == 0,
        output::selected_in(seq![c]) == if c.kind == MergeKind::Gone {
            0nat
        } else {
            1nat
        },
        output::selected_in(first + second) == output::selected_in(first) + output::selected_in(
            second,
        ),
    decreases second.len(),
{
    let none = Seq::<CandidateView>::empty();
    assert(seq![c].drop_last() =~= none);
    assert(output::selected_in(none) == 0);
    if second.len() == 0 {
        assert(first + second =~= first);
    } else {
        law_all_but_the_gone_count(first, second.drop_last(), c);
        assert((first + second).drop_last() =~= first + second.drop_last());
        assert((first + second).last() == second.last());
    }
}

/// The whole listing: the warnings, the base, the candidates in a column as
/// wide as their names, how many there are and how many are selected, and a
/// tip exactly if one of them is gone. Where there is nothing to trim, it says
/// so.
pub proof fn law_what_the_listing_says(s: ScanView, now: int)
    ensures
        s.candidates.len() == 0 ==> output::list_text(s, now) == output::warning_lines(s.warnings)
            + "Nothing to trim (base: "@ + s.base.name + ").\n"@,
        s.candidates.len() > 0 && (forall|i: int|
            0 <= i < s.candidates.len() ==> (#[trigger] s.candidates[i]).kind != MergeKind::Gone)
            ==> output::list_text(s, now) == listing_head(s, now),
        (exists|i: int|
            0 <= i < s.candidates.len() && (#[trigger] s.candidates[i]).kind == MergeKind::Gone)
            ==> output::list_text(s, now) == listing_head(s, now)
            + "tip: gone branches are never deleted without explicit consent (--include-gone or a manual TUI check).\n"@,
{
    let cs = s.candidates;
    let head = output::warning_lines(s.warnings);
    if cs.len() == 0 {
        assert(output::list_text(s, now) =~= head + "Nothing to trim (base: "@ + s.base.name
            + ").\n"@);
    } else if output::any_gone(cs) {
        assert(output::list_text(s, now) =~= listing_head(s, now)
            + "tip: gone branches are never deleted without explicit consent (--include-gone or a manual TUI check).\n"@);
    } else {
        assert(output::list_text(s, now) =~= listing_head(s, now));
    }
}

/// A listing up to its summary.
pub open spec fn listing_head(s: ScanView, now: int) -> Seq<char> {
    output::warning_lines(s.warnings) + "base: "@ + s.base.name + "\n"@ + output::rows(
        s.candidates,
        output::widest(s.candidates.map_values(|c: CandidateView| c.name)),
        now,
    ) + "\n"@ + text::decimal(s.candidates.len()) + " candidate(s), "@ + text::decimal(
        output::selected_in(s.candidates),
    )
        + " selected by default. Run `git barber` for the TUI or `git barber --yes` to delete.\n"@
}

/// The report has a line for every deletion, in order: the name, what became
/// of the local branch and what became of the remote one.
pub proof fn law_a_line_per_result(
    first: Seq<DeletionView>,
    second: Seq<DeletionView>,
    r: DeletionView,
    w: nat,
)
    ensures
        output::result_rows(Seq::empty(), w).len() == 0,
        output::result_rows(seq![r], w) == "  "@ + text::pad_end(r.name, w) + "  "@
            + output::local_text(r) + output::remote_text(r.remote) + "\n"@,
        output::result_rows(first + second, w) == output::result_rows(first, w)
            + output::result_rows(second, w),
        output::all_undo(Seq::empty()).len() == 0,
        output::all_undo(seq![r]) == r.undo,
        output::all_undo(first + second) == output::all_undo(first) + output::all_undo(second),
    decreases second.len(),
{
    let none = Seq::<DeletionView>::empty();
    assert(seq![r].drop_last() =~= none);
    assert(output::result_rows(none, w) =~= Seq::empty());
    assert(output::all_undo(none) =~= Seq::empty());
    assert(output::all_undo(seq![r]) =~= r.undo);
    assert(output::result_rows(seq![r], w) =~= "  "@ + text::pad_end(r.name, w) + "  "@
        + output::local_text(r) + output::remote_text(r.remote) + "\n"@);
    if second.len() == 0 {
        assert(first + second =~= first);
        assert(output::result_rows(first, w) + output::result_rows(second, w)
            =~= output::result_rows(first, w));
        assert(output::all_undo(first) + output::all_undo(second) =~= output::all_undo(first));
    } else {
        law_a_line_per_result(first, second.drop_last(), r, w);
        assert((first + second).drop_last() =~= first + second.drop_last());
        assert((first + second).last() == second.last());
        assert(output::result_rows(first + second, w) =~= output::result_rows(first, w)
            + output::result_rows(second, w));
        assert(output::all_undo(first + second) =~= output::all_undo(first) + output::all_undo(
            second,
        ));
    }
}

/// Undo commands are printed in order, each indented on a line of its own.
pub proof fn law_undo_a_line_each(first: Seq<Seq<char>>, second: Seq<Seq<char>>, line: Seq<char>)
    ensures
        output::indented(Seq::empty()).len() == 0,
        output::indented(seq![line]) == "  "@ + line + "\n"@,
        output::indented(first + second) == output::indented(first) + output::indented(second),
    decreases second.len(),
{
    let none = Seq::<Seq<char>>::empty();
    assert(seq![line].drop_last() =~= none);
    assert(output::indented(none) =~= Seq::empty());
    assert(output::indented(seq![line]) =~= "  "@ + line + "\n"@);
    if second.len() == 0 {
        assert(first + second =~= first);
        assert(output::indented(first) + output::indented(second) =~= output::indented(first));
    } else {
        law_undo_a_line_each(first, second.drop_last(), line);
        assert((first + second).drop_last() =~= first + second.drop_last());
        assert((first + second).last() == second.last());
        assert(output::indented(first + second) =~= output::indented(first) + output::indented(
            second,
        ));
    }
}

/// The whole report: the warnings, the base, the deletions, and how to undo
/// them, unless there is nothing to undo.
pub proof fn law_what_the_report_says(
    base: Seq<char>,
    warnings: Seq<Seq<char>>,
    rs: Seq<DeletionView>,
)
    ensures
        output::all_undo(rs).len() == 0 ==> output::execute_text(base, warnings, rs)
            == report_head(base, warnings, rs),
        output::all_undo(rs).len() > 0 ==> output::execute_text(base, warnings, rs) == report_head(
            base,
            warnings,
            rs,
        ) + "\nundo:\n"@ + output::indented(output::all_undo(rs))
            + "(recent tips also linger in `git reflog` for a while)\n"@,
{
    let head = report_head(base, warnings, rs);
    if output::all_undo(rs).len() == 0 {
        assert(output::execute_text(base, warnings, rs) =~= head);
    } else {
        assert(output::execute_text(base, warnings, rs) =~= head + "\nundo:\n"@ + output::indented(
            output::all_undo(rs),
        ) + "(recent tips also linger in `git reflog` for a while)\n"@);
    }
}

/// A report up to its last deletion.
pub open spec fn report_head(
    base: Seq<char>,
    warnings: Seq<Seq<char>>,
    rs: Seq<DeletionView>,
) -> Seq<char> {
    output::warning_lines(warnings) + "base: "@ + base + "\n"@ + output::result_rows(
        rs,
        output::widest(rs.map_values(|r: DeletionView| r.name)),
    )
}

/// The machine-readable report has every candidate in order, each with
/// whether it is selected by default: all but the gone ones are.
pub proof fn law_every_candidate_is_reported(cs: Seq<CandidateView>, i: int)
    requires
        0 <= i < cs.len(),
    ensures
        output::branch_reports(cs).len() == cs.len(),
        output::branch_reports(cs)[i].candidate == cs[i],
        output::branch_reports(cs)[i].selected_by_default <==> cs[i].kind != MergeKind::Gone,
{
}

} // verus!
