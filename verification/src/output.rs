//! Reports: what is printed of a scan and of the deletions that followed.

pub mod laws;

use vstd::prelude::*;

use crate::ops::{DeletionResult, DeletionView, LocalOutcome, LocalView, RemoteOutcome, RemoteView};
use crate::scan::{Candidate, CandidateView, MergeKind, Scan, ScanView};
use crate::text;

verus! {

// ---------------------------------------------------------------------------
// Words.

/// A kind in one word.
pub open spec fn kind_word(kind: MergeKind) -> Seq<char> {
    match kind {
        MergeKind::Merged => "merged"@,
        MergeKind::Squash => "squash"@,
        MergeKind::Rebase => "rebase"@,
        MergeKind::Gone => "gone"@,
    }
}

pub fn kind_label(kind: MergeKind) -> (r: &'static str)
    ensures
        r@ == kind_word(kind),
{
    match kind {
        MergeKind::Merged => "merged",
        MergeKind::Squash => "squash",
        MergeKind::Rebase => "rebase",
        MergeKind::Gone => "gone",
    }
}

/// How long ago `then` was, in the largest unit that fits.
pub open spec fn age_text(now: int, then: int) -> Seq<char> {
    let past = if now - then > 0 { now - then } else { 0 };
    let days = past / 86_400;
    let hours = past / 3_600;
    if days >= 365 {
        text::decimal((days / 365) as nat) + "y"@
    } else if days >= 30 {
        text::decimal((days / 30) as nat) + "mo"@
    } else if days >= 7 {
        text::decimal((days / 7) as nat) + "w"@
    } else if days >= 1 {
        text::decimal(days as nat) + "d"@
    } else if hours >= 1 {
        text::decimal(hours as nat) + "h"@
    } else {
        text::decimal((if past > 60 { past / 60 } else { 1 }) as nat) + "m"@
    }
}

/// Compact human age: 5m, 3h, 5d, 2w, 3mo, 1y.
pub fn age(now: i64, then: i64) -> (r: String)
    ensures
        r@ == age_text(now as int, then as int),
{
    let past: u128 = if now > then {
        (now as i128 - then as i128) as u128
    } else {
        0
    };
    let days: u128 = past / 86_400;
    let hours: u128 = past / 3_600;
    if days >= 365 {
        text::to_decimal(days / 365).concat("y")
    } else if days >= 30 {
        text::to_decimal(days / 30).concat("mo")
    } else if days >= 7 {
        text::to_decimal(days / 7).concat("w")
    } else if days >= 1 {
        text::to_decimal(days).concat("d")
    } else if hours >= 1 {
        text::to_decimal(hours).concat("h")
    } else {
        let minutes: u128 = if past > 60 {
            past / 60
        } else {
            1
        };
        text::to_decimal(minutes).concat("m")
    }
}

/// What is said of a local branch; the force wording depends on WHY the force
/// was justified (a gone branch is consented-to, not verified).
pub open spec fn local_text(r: DeletionView) -> Seq<char> {
    match r.local {
        LocalView::Deleted => "deleted"@,
        LocalView::ForceDeleted => match r.kind {
            MergeKind::Merged => "force-deleted (verified merged into base)"@,
            MergeKind::Squash | MergeKind::Rebase => "force-deleted (patch-id verified)"@,
            MergeKind::Gone => "force-deleted (upstream was gone)"@,
        },
        LocalView::Skipped => "no local branch"@,
        LocalView::Failed(msg) => "FAILED: "@ + msg,
    }
}

/// Human label for a local outcome.
pub fn local_label(r: &DeletionResult) -> (s: String)
    ensures
        s@ == local_text(r@),
{
    match &r.local {
        LocalOutcome::Deleted => "deleted".to_owned(),
        LocalOutcome::ForceDeleted => match r.kind {
            MergeKind::Merged => "force-deleted (verified merged into base)".to_owned(),
            MergeKind::Squash | MergeKind::Rebase => "force-deleted (patch-id verified)".to_owned(),
            MergeKind::Gone => "force-deleted (upstream was gone)".to_owned(),
        },
        LocalOutcome::Skipped => "no local branch".to_owned(),
        LocalOutcome::Failed(msg) => "FAILED: ".to_owned().concat(msg.as_str()),
    }
}

/// What is said of a remote branch, behind what is said of the local one.
pub open spec fn remote_text(r: RemoteView) -> Seq<char> {
    match r {
        RemoteView::Deleted { target, sha: _ } => ", deleted "@ + target + " on remote"@,
        RemoteView::Skipped => Seq::empty(),
        RemoteView::Failed(msg) => ", remote FAILED: "@ + msg,
    }
}

/// Human label for a remote outcome.
pub fn remote_label(r: &RemoteOutcome) -> (s: String)
    ensures
        s@ == remote_text(r@),
{
    match r {
        RemoteOutcome::Deleted { target, sha: _ } => ", deleted ".to_owned().concat(
            target.as_str(),
        ).concat(" on remote"),
        RemoteOutcome::Skipped => String::new(),
        RemoteOutcome::Failed(msg) => ", remote FAILED: ".to_owned().concat(msg.as_str()),
    }
}

/// The upstream of a candidate, as a last column.
pub open spec fn upstream_text(c: CandidateView) -> Seq<char> {
    match c.upstream {
        Some(u) => if c.upstream_gone {
            "  ↑ "@ + u + " (gone)"@
        } else {
            "  ↑ "@ + u
        },
        None => Seq::empty(),
    }
}

/// The upstream of a candidate, as a last column.
pub fn upstream_label(c: &Candidate) -> (s: String)
    ensures
        s@ == upstream_text(c@),
{
    match &c.upstream {
        Some(u) => if c.upstream_gone {
            "  ↑ ".to_owned().concat(u.as_str()).concat(" (gone)")
        } else {
            "  ↑ ".to_owned().concat(u.as_str())
        },
        None => String::new(),
    }
}

// ---------------------------------------------------------------------------
// The listing.

/// The warnings, a line each.
pub open spec fn warning_lines(warnings: Seq<Seq<char>>) -> Seq<char>
    decreases warnings.len(),
{
    if warnings.len() == 0 {
        Seq::empty()
    } else {
        warning_lines(warnings.drop_last()) + ("warning: "@ + warnings.last() + "\n"@)
    }
}

/// The longest name, in bytes.
pub open spec fn widest(names: Seq<Seq<char>>) -> nat
    decreases names.len(),
{
    if names.len() == 0 {
        0
    } else {
        let w = widest(names.drop_last());
        let n = text::byte_len(names.last()) as nat;
        if n > w {
            n
        } else {
            w
        }
    }
}

/// The names of the candidates.
pub open spec fn names_of(cs: Seq<CandidateView>) -> Seq<Seq<char>> {
    cs.map_values(|c: CandidateView| c.name)
}

/// One line of the listing.
pub open spec fn row(c: CandidateView, name_w: nat, now: int) -> Seq<char> {
    "  "@ + text::pad_end(c.name, name_w) + "  "@ + text::pad_end(kind_word(c.kind), 6) + "  "@
        + text::pad_start(age_text(now, c.last_commit_unix as int), 4) + " ago"@ + upstream_text(c)
        + "\n"@
}

/// The lines of the listing.
pub open spec fn rows(cs: Seq<CandidateView>, name_w: nat, now: int) -> Seq<char>
    decreases cs.len(),
{
    if cs.len() == 0 {
        Seq::empty()
    } else {
        rows(cs.drop_last(), name_w, now) + row(cs.last(), name_w, now)
    }
}

/// How many candidates are selected by default.
pub open spec fn selected_in(cs: Seq<CandidateView>) -> nat
    decreases cs.len(),
{
    if cs.len() == 0 {
        0
    } else {
        selected_in(cs.drop_last()) + if cs.last().selected_by_default() {
            1nat
        } else {
            0nat
        }
    }
}

/// One of the candidates is gone upstream.
pub open spec fn any_gone(cs: Seq<CandidateView>) -> bool {
    exists|i: int| 0 <= i < cs.len() && (#[trigger] cs[i]).kind == MergeKind::Gone
}

/// What [`human_list`] prints.
pub open spec fn list_text(scan: ScanView, now: int) -> Seq<char> {
    let cs = scan.candidates;
    warning_lines(scan.warnings) + if cs.len() == 0 {
        "Nothing to trim (base: "@ + scan.base.name + ").\n"@
    } else {
        "base: "@ + scan.base.name + "\n"@ + rows(cs, widest(names_of(cs)), now) + "\n"@
            + text::decimal(cs.len()) + " candidate(s), "@ + text::decimal(selected_in(cs))
            + " selected by default. Run `git barber` for the TUI or `git barber --yes` to delete.\n"@
            + if any_gone(cs) {
            "tip: gone branches are never deleted without explicit consent (--include-gone or a manual TUI check).\n"@
        } else {
            Seq::empty()
        }
    }
}

/// Adds the warnings, a line each.
fn put_warnings(out: &mut String, warnings: &[String])
    ensures
        final(out)@ == old(out)@ + warning_lines(warnings.deep_view()),
{
    let ghost start = out@;
    let ghost all = warnings.deep_view();
    let mut i: usize = 0;
    assert(all.take(0) =~= Seq::<Seq<char>>::empty());
    assert(start + Seq::<char>::empty() =~= start);
    while i < warnings.len()
        invariant
            i <= warnings@.len(),
            all == warnings.deep_view(),
            out@ == start + warning_lines(all.take(i as int)),
        decreases warnings@.len() - i,
    {
        let ghost earlier = warning_lines(all.take(i as int));
        assert(all.take(i + 1).drop_last() =~= all.take(i as int));
        assert(all.take(i + 1).last() == warnings@[i as int]@);
        let line = "warning: ".to_owned().concat(warnings[i].as_str()).concat("\n");
        out.append(line.as_str());
        assert(start + earlier + line@ =~= start + (earlier + line@));
        i += 1;
    }
    assert(all.take(i as int) =~= all);
}

/// The longest name of the candidates, in bytes.
fn name_width(cs: &Vec<Candidate>) -> (w: usize)
    ensures
        w == widest(names_of(cs.deep_view())),
{
    let mut w: usize = 0;
    let mut i: usize = 0;
    let ghost all = names_of(cs.deep_view());
    assert(all.take(0) =~= Seq::<Seq<char>>::empty());
    while i < cs.len()
        invariant
            i <= cs@.len(),
            all == names_of(cs.deep_view()),
            w == widest(all.take(i as int)),
        decreases cs@.len() - i,
    {
        assert(all.take(i + 1).drop_last() =~= all.take(i as int));
        assert(all.take(i + 1).last() == cs@[i as int].name@);
        let n = text::bytes(cs[i].name.as_str());
        if n > w {
            w = n;
        }
        i += 1;
    }
    assert(all.take(i as int) =~= all);
    w
}

/// Adds the lines of the listing.
fn put_rows(out: &mut String, cs: &Vec<Candidate>, name_w: usize, now_unix: i64)
    ensures
        final(out)@ == old(out)@ + rows(cs.deep_view(), name_w as nat, now_unix as int),
{
    let ghost start = out@;
    let ghost all = cs.deep_view();
    let mut i: usize = 0;
    assert(all.take(0) =~= Seq::<CandidateView>::empty());
    assert(start + Seq::<char>::empty() =~= start);
    while i < cs.len()
        invariant
            i <= cs@.len(),
            all == cs.deep_view(),
            out@ == start + rows(all.take(i as int), name_w as nat, now_unix as int),
        decreases cs@.len() - i,
    {
        let ghost earlier = rows(all.take(i as int), name_w as nat, now_unix as int);
        let c = &cs[i];
        assert(all.take(i + 1).drop_last() =~= all.take(i as int));
        assert(all.take(i + 1).last() == c@);
        let line = "  ".to_owned().concat(
            text::padded_end(c.name.as_str(), name_w).as_str(),
        ).concat("  ").concat(text::padded_end(kind_label(c.kind), 6).as_str()).concat("  ").concat(
            text::padded_start(age(now_unix, c.last_commit_unix).as_str(), 4).as_str(),
        ).concat(" ago").concat(upstream_label(c).as_str()).concat("\n");
        out.append(line.as_str());
        assert(start + earlier + line@ =~= start + (earlier + line@));
        i += 1;
    }
    assert(all.take(i as int) =~= all);
}

/// How many candidates are selected by default.
fn count_selected(cs: &Vec<Candidate>) -> (n: usize)
    ensures
        n == selected_in(cs.deep_view()),
{
    let mut n: usize = 0;
    let mut i: usize = 0;
    let ghost all = cs.deep_view();
    assert(all.take(0) =~= Seq::<CandidateView>::empty());
    while i < cs.len()
        invariant
            i <= cs@.len(),
            all == cs.deep_view(),
            n <= i,
            n == selected_in(all.take(i as int)),
        decreases cs@.len() - i,
    {
        assert(all.take(i + 1).drop_last() =~= all.take(i as int));
        assert(all.take(i + 1).last() == cs@[i as int]@);
        if cs[i].selected_by_default() {
            n += 1;
        }
        i += 1;
    }
    assert(all.take(i as int) =~= all);
    n
}

/// Whether one of the candidates is gone upstream.
fn has_gone(cs: &Vec<Candidate>) -> (r: bool)
    ensures
        r == any_gone(cs.deep_view()),
{
    let mut i: usize = 0;
    while i < cs.len()
        invariant
            i <= cs@.len(),
            forall|k: int| 0 <= k < i ==> (#[trigger] cs.deep_view()[k]).kind != MergeKind::Gone,
        decreases cs@.len() - i,
    {
        assert(cs.deep_view()[i as int] == cs@[i as int]@);
        if cs[i].kind == MergeKind::Gone {
            return true;
        }
        i += 1;
    }
    false
}

/// The listing of a scan, for people.
pub fn human_list(scan: &Scan, now_unix: i64) -> (out: String)
    ensures
        out@ == list_text(scan@, now_unix as int),
{
    let mut out = String::new();
    put_warnings(&mut out, scan.warnings.as_slice());
    let ghost head = out@;
    assert(Seq::<char>::empty() + head =~= head);
    if scan.candidates.len() == 0 {
        let line = "Nothing to trim (base: ".to_owned().concat(scan.base.name.as_str()).concat(
            ").\n",
        );
        out.append(line.as_str());
        return out;
    }
    let mut body = "base: ".to_owned().concat(scan.base.name.as_str()).concat("\n");
    let name_w = name_width(&scan.candidates);
    put_rows(&mut body, &scan.candidates, name_w, now_unix);
    let total = text::to_decimal(scan.candidates.len() as u128);
    let selected = text::to_decimal(count_selected(&scan.candidates) as u128);
    let mut body = body.concat("\n").concat(total.as_str()).concat(" candidate(s), ").concat(
        selected.as_str(),
    ).concat(
        " selected by default. Run `git barber` for the TUI or `git barber --yes` to delete.\n",
    );
    if has_gone(&scan.candidates) {
        body.append(
            "tip: gone branches are never deleted without explicit consent (--include-gone or a manual TUI check).\n",
        );
    } else {
        assert(body@ + Seq::<char>::empty() =~= body@);
    }
    out.append(body.as_str());
    out
}

// ---------------------------------------------------------------------------
// The report of deletions.

/// The names of the deleted branches.
pub open spec fn result_names(rs: Seq<DeletionView>) -> Seq<Seq<char>> {
    rs.map_values(|r: DeletionView| r.name)
}

/// The lines of the report.
pub open spec fn result_rows(rs: Seq<DeletionView>, name_w: nat) -> Seq<char>
    decreases rs.len(),
{
    if rs.len() == 0 {
        Seq::empty()
    } else {
        let r = rs.last();
        result_rows(rs.drop_last(), name_w) + ("  "@ + text::pad_end(r.name, name_w) + "  "@
            + local_text(r) + remote_text(r.remote) + "\n"@)
    }
}

/// Every undo command, in order.
pub open spec fn all_undo(rs: Seq<DeletionView>) -> Seq<Seq<char>>
    decreases rs.len(),
{
    if rs.len() == 0 {
        Seq::empty()
    } else {
        all_undo(rs.drop_last()) + rs.last().undo
    }
}

/// Lines, each indented.
pub open spec fn indented(lines: Seq<Seq<char>>) -> Seq<char>
    decreases lines.len(),
{
    if lines.len() == 0 {
        Seq::empty()
    } else {
        indented(lines.drop_last()) + ("  "@ + lines.last() + "\n"@)
    }
}

/// What [`human_execute`] prints. Warnings explain WHY branches may be
/// missing (shallow repo, failed probes, failed fetch), so they come first
/// here too.
pub open spec fn execute_text(
    base: Seq<char>,
    warnings: Seq<Seq<char>>,
    rs: Seq<DeletionView>,
) -> Seq<char> {
    warning_lines(warnings) + ("base: "@ + base + "\n"@) + result_rows(rs, widest(result_names(rs)))
        + if all_undo(rs).len() == 0 {
        Seq::empty()
    } else {
        "\nundo:\n"@ + indented(all_undo(rs))
            + "(recent tips also linger in `git reflog` for a while)\n"@
    }
}

/// The longest name of the results, in bytes.
fn result_width(rs: &[DeletionResult]) -> (w: usize)
    ensures
        w == widest(result_names(rs.deep_view())),
{
    let mut w: usize = 0;
    let mut i: usize = 0;
    let ghost all = result_names(rs.deep_view());
    assert(all.take(0) =~= Seq::<Seq<char>>::empty());
    while i < rs.len()
        invariant
            i <= rs@.len(),
            all == result_names(rs.deep_view()),
            w == widest(all.take(i as int)),
        decreases rs@.len() - i,
    {
        assert(all.take(i + 1).drop_last() =~= all.take(i as int));
        assert(all.take(i + 1).last() == rs@[i as int].name@);
        let n = text::bytes(rs[i].name.as_str());
        if n > w {
            w = n;
        }
        i += 1;
    }
    assert(all.take(i as int) =~= all);
    w
}

/// Adds the lines of the report.
fn put_results(out: &mut String, rs: &[DeletionResult], name_w: usize)
    ensures
        final(out)@ == old(out)@ + result_rows(rs.deep_view(), name_w as nat),
{
    let ghost start = out@;
    let ghost all = rs.deep_view();
    let mut i: usize = 0;
    assert(all.take(0) =~= Seq::<DeletionView>::empty());
    assert(start + Seq::<char>::empty() =~= start);
    while i < rs.len()
        invariant
            i <= rs@.len(),
            all == rs.deep_view(),
            out@ == start + result_rows(all.take(i as int), name_w as nat),
        decreases rs@.len() - i,
    {
        let ghost earlier = result_rows(all.take(i as int), name_w as nat);
        let r = &rs[i];
        assert(all.take(i + 1).drop_last() =~= all.take(i as int));
        assert(all.take(i + 1).last() == r@);
        let line = "  ".to_owned().concat(
            text::padded_end(r.name.as_str(), name_w).as_str(),
        ).concat("  ").concat(local_label(r).as_str()).concat(
            remote_label(&r.remote).as_str(),
        ).concat("\n");
        out.append(line.as_str());
        assert(start + earlier + line@ =~= start + (earlier + line@));
        i += 1;
    }
    assert(all.take(i as int) =~= all);
}

/// Every undo command, in order.
pub fn undo_commands(rs: &[DeletionResult]) -> (r: Vec<String>)
    ensures
        r.deep_view() == all_undo(rs.deep_view()),
{
    let mut r: Vec<String> = Vec::new();
    let mut i: usize = 0;
    let ghost all = rs.deep_view();
    assert(all.take(0) =~= Seq::<DeletionView>::empty());
    assert(r.deep_view() =~= Seq::<Seq<char>>::empty());
    while i < rs.len()
        invariant
            i <= rs@.len(),
            all == rs.deep_view(),
            r.deep_view() == all_undo(all.take(i as int)),
        decreases rs@.len() - i,
    {
        let ghost earlier = r.deep_view();
        assert(all.take(i + 1).drop_last() =~= all.take(i as int));
        assert(all.take(i + 1).last() == rs@[i as int]@);
        let mut more = text::copies(rs[i].undo.as_slice());
        let ghost added = more.deep_view();
        r.append(&mut more);
        assert(r.deep_view() =~= earlier + added);
        i += 1;
    }
    assert(all.take(i as int) =~= all);
    r
}

/// Adds lines, each indented.
fn put_indented(out: &mut String, lines: &Vec<String>)
    ensures
        final(out)@ == old(out)@ + indented(lines.deep_view()),
{
    let ghost start = out@;
    let ghost all = lines.deep_view();
    let mut i: usize = 0;
    assert(all.take(0) =~= Seq::<Seq<char>>::empty());
    assert(start + Seq::<char>::empty() =~= start);
    while i < lines.len()
        invariant
            i <= lines@.len(),
            all == lines.deep_view(),
            out@ == start + indented(all.take(i as int)),
        decreases lines@.len() - i,
    {
        let ghost earlier = indented(all.take(i as int));
        assert(all.take(i + 1).drop_last() =~= all.take(i as int));
        assert(all.take(i + 1).last() == lines@[i as int]@);
        let line = "  ".to_owned().concat(lines[i].as_str()).concat("\n");
        out.append(line.as_str());
        assert(start + earlier + line@ =~= start + (earlier + line@));
        i += 1;
    }
    assert(all.take(i as int) =~= all);
}

/// The report of deletions, for people.
pub fn human_execute(base: &str, warnings: &[String], results: &[DeletionResult]) -> (out: String)
    ensures
        out@ == execute_text(base@, warnings.deep_view(), results.deep_view()),
{
    let mut out = String::new();
    put_warnings(&mut out, warnings);
    let ghost head = out@;
    assert(Seq::<char>::empty() + head =~= head);
    let line = "base: ".to_owned().concat(base).concat("\n");
    out.append(line.as_str());
    let name_w = result_width(results);
    put_results(&mut out, results, name_w);
    let undo = undo_commands(results);
    if undo.len() > 0 {
        let mut tail = "\nundo:\n".to_owned();
        put_indented(&mut tail, &undo);
        tail.append("(recent tips also linger in `git reflog` for a while)\n");
        out.append(tail.as_str());
    } else {
        assert(undo.deep_view().len() == 0);
        assert(out@ + Seq::<char>::empty() =~= out@);
    }
    out
}

// ---------------------------------------------------------------------------
// What a machine-readable report holds.

/// One branch of a report.
pub struct BranchJson<'a> {
    pub candidate: &'a Candidate,
    pub selected_by_default: bool,
}

/// What a [`BranchJson`] holds.
pub struct BranchReport {
    pub candidate: CandidateView,
    pub selected_by_default: bool,
}

impl<'a> DeepView for BranchJson<'a> {
    type V = BranchReport;

    open spec fn deep_view(&self) -> BranchReport {
        BranchReport {
            candidate: self.candidate@,
            selected_by_default: self.selected_by_default,
        }
    }
}

/// The listing of a scan, for machines.
pub struct ListJson<'a> {
    pub base: &'a str,
    pub warnings: &'a [String],
    pub branches: Vec<BranchJson<'a>>,
}

/// The report of deletions, for machines. It always carries the full
/// candidate list (same `branches` key as the listing, so scripts can share a
/// parser) — a CI job must be able to tell "clean repo" from "gone branches
/// awaiting consent".
pub struct ExecuteJson<'a> {
    pub base: &'a str,
    pub warnings: &'a [String],
    pub branches: Vec<BranchJson<'a>>,
    pub results: &'a [DeletionResult],
}

/// The branches of a report.
pub open spec fn branch_reports(cs: Seq<CandidateView>) -> Seq<BranchReport> {
    cs.map_values(
        |c: CandidateView|
            BranchReport { candidate: c, selected_by_default: c.selected_by_default() },
    )
}

/// The branches of a report.
pub fn branches_json<'a>(scan: &'a Scan) -> (r: Vec<BranchJson<'a>>)
    ensures
        r.deep_view() == branch_reports(scan@.candidates),
{
    let mut r: Vec<BranchJson<'a>> = Vec::new();
    let mut i: usize = 0;
    while i < scan.candidates.len()
        invariant
            i <= scan.candidates@.len(),
            r@.len() == i,
            forall|k: int|
                0 <= k < i ==> (#[trigger] r@[k]).deep_view() == (BranchReport {
                    candidate: scan.candidates@[k]@,
                    selected_by_default: scan.candidates@[k]@.selected_by_default(),
                }),
        decreases scan.candidates@.len() - i,
    {
        let c = &scan.candidates[i];
        r.push(BranchJson { candidate: c, selected_by_default: c.selected_by_default() });
        i += 1;
    }
    assert(r.deep_view() =~= branch_reports(scan@.candidates));
    r
}

/// What the machine-readable listing holds.
pub fn list_report<'a>(scan: &'a Scan) -> (r: ListJson<'a>)
    ensures
        r.base@ == scan@.base.name,
        r.warnings.deep_view() == scan@.warnings,
        r.branches.deep_view() == branch_reports(scan@.candidates),
{
    ListJson {
        base: scan.base.name.as_str(),
        warnings: scan.warnings.as_slice(),
        branches: branches_json(scan),
    }
}

/// What the machine-readable report of deletions holds.
pub fn execute_report<'a>(scan: &'a Scan, results: &'a [DeletionResult]) -> (r: ExecuteJson<'a>)
    ensures
        r.base@ == scan@.base.name,
        r.warnings.deep_view() == scan@.warnings,
        r.branches.deep_view() == branch_reports(scan@.candidates),
        r.results == results,
{
    ExecuteJson {
        base: scan.base.name.as_str(),
        warnings: scan.warnings.as_slice(),
        branches: branches_json(scan),
        results,
    }
}

} // verus!
