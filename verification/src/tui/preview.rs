//! The preview panel: what it shows of a branch, and which branch it asks
//! for.

use vstd::prelude::*;

use crate::git::{self, Git, Reply};
use crate::scan::Base;
use crate::text;
use crate::tui::app::{App, AppView};

verus! {

/// Asks for the commits that a branch has and the base has not.
pub open spec fn commits_args(base: Seq<char>, branch: Seq<char>) -> Seq<Seq<char>> {
    seq![
        "log"@,
        "--oneline"@,
        "--no-decorate"@,
        "--max-count=20"@,
        base + ".."@ + branch,
        "--"@,
    ]
}

/// Asks for the size of the diff between them. `--shortstat` renders a diff,
/// so an external driver or textconv filter could otherwise run; both are
/// pinned off.
pub open spec fn size_args(base: Seq<char>, branch: Seq<char>) -> Seq<Seq<char>> {
    seq![
        "diff"@,
        "--shortstat"@,
        "--no-ext-diff"@,
        "--no-textconv"@,
        base + "..."@ + branch,
        "--"@,
    ]
}

/// What the panel shows, by the replies to both questions. A failure becomes
/// the panel's text, and a missing size costs the size only.
pub open spec fn panel_text(log: Reply, stat: Reply) -> Seq<char> {
    match log {
        Err(e) => "preview unavailable: "@ + e.chain(),
        Ok((_, out)) => {
            let commits = text::trim_end(out);
            let shown = if commits.len() == 0 {
                "no commits the base does not already have"@
            } else {
                commits
            };
            match stat {
                Ok((_, size)) if text::trim(size).len() > 0 => shown + "\n\n"@ + text::trim(size),
                _ => shown,
            }
        },
    }
}

/// What the branch carries that the base does not: its commits and the size
/// of its diff. Read-only, and a failure becomes the panel's text rather than
/// an error — a preview is never worth ending the session over.
///
/// Ranges are built from full refnames, so a branch called `-f` cannot turn
/// into a git option.
pub fn preview_text<G: Git>(git: &mut G, base: &Base, branch_ref: &str) -> (r: String)
    ensures
        ({
            let h = final(git).history();
            let p = old(git).history().len() as int;
            &&& git::extends(old(git).history(), h)
            &&& h.len() == p + 2
            &&& git::is_ask(h, p, commits_args(base@.rev(), branch_ref@))
            &&& git::is_ask(h, p + 1, size_args(base@.rev(), branch_ref@))
            &&& r@ == panel_text(h[p].reply, h[p + 1].reply)
        }),
{
    let range = base.rev().to_owned().concat("..").concat(branch_ref);
    let log = git.run(
        &["log", "--oneline", "--no-decorate", "--max-count=20", range.as_str(), "--"],
    );
    assert(git.history().last().args =~= commits_args(base@.rev(), branch_ref@));
    let range = base.rev().to_owned().concat("...").concat(branch_ref);
    let stat = git.run(
        &["diff", "--shortstat", "--no-ext-diff", "--no-textconv", range.as_str(), "--"],
    );
    assert(git.history().last().args =~= size_args(base@.rev(), branch_ref@));
    match log {
        Err(e) => "preview unavailable: ".to_owned().concat(e.chain().as_str()),
        Ok(out) => {
            let commits = text::trimmed_end(out.as_str());
            let mut shown = if commits.as_str().is_empty() {
                "no commits the base does not already have".to_owned()
            } else {
                commits
            };
            if let Ok(size) = stat {
                let size = text::trimmed(size.as_str());
                if !size.as_str().is_empty() {
                    shown.append("\n\n");
                    shown.append(size.as_str());
                }
            }
            shown
        },
    }
}

/// The request to serve of those that have come in: the newest. Whatever is
/// skipped is asked for again if the cursor comes back to it.
pub fn newest(oldest: (String, String), later: Vec<(String, String)>) -> (r: (String, String))
    ensures
        r == if later@.len() > 0 {
            later@.last()
        } else {
            oldest
        },
{
    let mut later = later;
    match later.pop() {
        Some(request) => request,
        None => oldest,
    }
}

/// Keeps track of the one request currently with the worker. Tracking just
/// this — rather than every branch ever asked for — is what makes a skipped
/// preview self-healing: nothing is permanently marked as requested, so
/// returning to a branch asks again.
pub struct PreviewDesk {
    pub in_flight: Option<String>,
}

impl View for PreviewDesk {
    type V = Option<Seq<char>>;

    open spec fn view(&self) -> Option<Seq<char>> {
        self.in_flight.deep_view()
    }
}

/// The request to hand to the worker, if any: the branch whose preview is
/// wanted, unless it is already being fetched.
pub open spec fn wanted(app: AppView, in_flight: Option<Seq<char>>) -> Option<
    (Seq<char>, Seq<char>),
> {
    match (app.pending(), app.highlighted()) {
        (Some(name), Some(c)) if in_flight != Some(name) => Some((name, c.refname)),
        _ => None,
    }
}

impl PreviewDesk {
    pub fn new() -> (d: Self)
        ensures
            d@ is None,
    {
        PreviewDesk { in_flight: None }
    }

    /// Takes an answer of the worker.
    pub fn answered(&mut self, app: &mut App, name: String, text: String)
        ensures
            final(self)@ == if old(self)@ == Some(name@) {
                None
            } else {
                old(self)@
            },
            final(app)@ == (AppView {
                previews: old(app)@.previews.insert(name@, text@),
                ..old(app)@
            }),
    {
        if text::same_as_some(&self.in_flight, name.as_str()) {
            self.in_flight = None;
        }
        app.set_preview(name, text);
    }

    /// The branch name and refname to hand to the worker, if any.
    pub fn next_request(&mut self, app: &App) -> (r: Option<(String, String)>)
        ensures
            r.deep_view() == wanted(app@, old(self)@),
            final(self)@ == match wanted(app@, old(self)@) {
                Some((name, _)) => Some(name),
                None => old(self)@,
            },
    {
        match (app.pending_preview(), app.highlighted_candidate()) {
            (Some(name), Some(c)) => {
                if text::same_as_some(&self.in_flight, name) {
                    None
                } else {
                    self.in_flight = Some(name.to_owned());
                    Some((name.to_owned(), c.refname.clone()))
                }
            },
            _ => None,
        }
    }
}

} // verus!
