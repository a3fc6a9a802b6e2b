//! Branches as `git for-each-ref` lists them.

use vstd::prelude::*;

use crate::git::clone_option;
use crate::scan::{Candidate, CandidateScope, CandidateView, MergeKind};
use crate::text;

verus! {

/// What a listing says of one branch.
#[derive(Debug)]
pub struct RawBranch {
    pub name: String,
    pub refname: String,
    pub sha: String,
    pub scope: CandidateScope,
    pub upstream: Option<String>,
    pub upstream_ref: Option<String>,
    pub remote_name: Option<String>,
    pub upstream_gone: bool,
    pub last_commit_unix: i64,
    pub subject: String,
}

/// What a [`RawBranch`] holds.
pub struct RawBranchView {
    pub name: Seq<char>,
    pub refname: Seq<char>,
    pub sha: Seq<char>,
    pub scope: CandidateScope,
    pub upstream: Option<Seq<char>>,
    pub upstream_ref: Option<Seq<char>>,
    pub remote_name: Option<Seq<char>>,
    pub upstream_gone: bool,
    pub last_commit_unix: i64,
    pub subject: Seq<char>,
}

impl View for RawBranch {
    type V = RawBranchView;

    open spec fn view(&self) -> RawBranchView {
        RawBranchView {
            name: self.name@,
            refname: self.refname@,
            sha: self.sha@,
            scope: self.scope,
            upstream: self.upstream.deep_view(),
            upstream_ref: self.upstream_ref.deep_view(),
            remote_name: self.remote_name.deep_view(),
            upstream_gone: self.upstream_gone,
            last_commit_unix: self.last_commit_unix,
            subject: self.subject@,
        }
    }
}

impl DeepView for RawBranch {
    type V = RawBranchView;

    open spec fn deep_view(&self) -> RawBranchView {
        self@
    }
}

impl Clone for RawBranch {
    fn clone(&self) -> (b: RawBranch)
        ensures
            b@ == self@,
    {
        RawBranch {
            name: self.name.clone(),
            refname: self.refname.clone(),
            sha: self.sha.clone(),
            scope: self.scope,
            upstream: clone_option(&self.upstream),
            upstream_ref: clone_option(&self.upstream_ref),
            remote_name: clone_option(&self.remote_name),
            upstream_gone: self.upstream_gone,
            last_commit_unix: self.last_commit_unix,
            subject: self.subject.clone(),
        }
    }
}

/// A field of a listing, where an empty one says nothing.
pub open spec fn present(field: Seq<char>) -> Option<Seq<char>> {
    if field.len() > 0 {
        Some(field)
    } else {
        None
    }
}

/// One NUL-separated line of the listing, read as a local branch.
pub open spec fn local_line(line: Seq<char>) -> Option<RawBranchView> {
    let f = text::split(line, '\0');
    match (text::strip_prefix(f[0], "refs/heads/"@), text::parse_i64(f[6])) {
        (Some(name), Some(unix)) if f.len() >= 7 => Some(
            RawBranchView {
                name,
                refname: f[0],
                sha: f[1],
                scope: CandidateScope::Local,
                upstream: present(f[3]),
                upstream_ref: present(f[2]),
                remote_name: present(f[5]),
                upstream_gone: f[4] == "[gone]"@,
                last_commit_unix: unix,
                subject: if f.len() > 7 {
                    f[7]
                } else {
                    Seq::empty()
                },
            },
        ),
        _ => None,
    }
}

/// The same line, read as a remote-tracking ref: it has no upstream of its
/// own, so it is given itself.
pub open spec fn remote_line(line: Seq<char>) -> Option<RawBranchView> {
    let f = text::split(line, '\0');
    match (text::strip_prefix(f[0], "refs/remotes/"@), text::parse_i64(f[6])) {
        (Some(name), Some(unix)) if f.len() >= 7 => match text::split_once(name, '/') {
            Some((remote, _)) => Some(
                RawBranchView {
                    name,
                    refname: f[0],
                    sha: f[1],
                    scope: CandidateScope::RemoteOnly,
                    upstream: Some(name),
                    upstream_ref: Some(f[0]),
                    remote_name: Some(remote),
                    upstream_gone: false,
                    last_commit_unix: unix,
                    subject: if f.len() > 7 {
                        f[7]
                    } else {
                        Seq::empty()
                    },
                },
            ),
            None => None,
        },
        _ => None,
    }
}

/// A branch's name on its remote ("origin/feat" → "feat").
pub open spec fn on_remote(name: Seq<char>) -> Seq<char> {
    match text::split_once(name, '/') {
        Some((_, branch)) => branch,
        None => name,
    }
}

impl RawBranchView {
    /// The branch as a candidate of the given kind.
    pub open spec fn candidate(self, kind: MergeKind) -> CandidateView {
        CandidateView {
            name: self.name,
            refname: self.refname,
            sha: self.sha,
            kind,
            scope: self.scope,
            upstream: self.upstream,
            remote_name: self.remote_name,
            upstream_gone: self.upstream_gone,
            last_commit_unix: self.last_commit_unix,
            subject: self.subject,
            upstream_ref: self.upstream_ref,
        }
    }
}

/// A field of a listing, where an empty one says nothing.
fn field(s: &String) -> (r: Option<String>)
    ensures
        r.deep_view() == present(s@),
{
    if s.as_str().is_empty() {
        None
    } else {
        Some(s.clone())
    }
}

/// The eighth field of a listing, which may be missing.
fn subject_of(f: &Vec<String>) -> (r: String)
    ensures
        r@ == if f@.len() > 7 {
            f@[7]@
        } else {
            Seq::empty()
        },
{
    if f.len() > 7 {
        f[7].clone()
    } else {
        String::new()
    }
}

impl RawBranch {
    /// One NUL-separated line of our `for-each-ref` format.
    pub fn parse(line: &str) -> (r: Option<Self>)
        ensures
            r.deep_view() == local_line(line@),
    {
        let f = text::split_on(line, '\0');
        assert(forall|k: int| 0 <= k < f@.len() ==> f.deep_view()[k] == (#[trigger] f@[k])@);
        if f.len() < 7 {
            return None;
        }
        let name = match text::after_prefix(f[0].as_str(), "refs/heads/") {
            Some(name) => name,
            None => return None,
        };
        let last_commit_unix: i64 = match text::read_i64(f[6].as_str()) {
            Some(unix) => unix,
            None => return None,
        };
        Some(
            Self {
                name,
                refname: f[0].clone(),
                sha: f[1].clone(),
                scope: CandidateScope::Local,
                upstream: field(&f[3]),
                upstream_ref: field(&f[2]),
                remote_name: field(&f[5]),
                upstream_gone: text::same(f[4].as_str(), "[gone]"),
                last_commit_unix,
                subject: subject_of(&f),
            },
        )
    }

    /// The same `for-each-ref` line, read as a remote-tracking ref. A remote
    /// ref has no upstream of its own, so the fields that describe one are
    /// synthesised to point at the ref itself: that is what
    /// `ops::remote_branch` and the confirmation dialog need in order to name
    /// the deletion target.
    pub fn parse_remote(line: &str) -> (r: Option<Self>)
        ensures
            r.deep_view() == remote_line(line@),
    {
        let f = text::split_on(line, '\0');
        assert(forall|k: int| 0 <= k < f@.len() ==> f.deep_view()[k] == (#[trigger] f@[k])@);
        if f.len() < 7 {
            return None;
        }
        let name = match text::after_prefix(f[0].as_str(), "refs/remotes/") {
            Some(name) => name,
            None => return None,
        };
        // A bare "refs/remotes/origin" (no branch part) is not a branch.
        let remote = match text::cut_once(name.as_str(), '/') {
            Some((remote, _)) => remote,
            None => return None,
        };
        let last_commit_unix: i64 = match text::read_i64(f[6].as_str()) {
            Some(unix) => unix,
            None => return None,
        };
        Some(
            Self {
                name: name.clone(),
                refname: f[0].clone(),
                sha: f[1].clone(),
                scope: CandidateScope::RemoteOnly,
                upstream: Some(name),
                upstream_ref: Some(f[0].clone()),
                remote_name: Some(remote),
                upstream_gone: false,
                last_commit_unix,
                subject: subject_of(&f),
            },
        )
    }

    /// For a remote-tracking ref, the branch name on the remote
    /// ("origin/feat" → "feat"). Meaningless for a local branch.
    pub fn short_remote_name(&self) -> (r: String)
        ensures
            r@ == on_remote(self.name@),
    {
        match text::cut_once(self.name.as_str(), '/') {
            Some((_, branch)) => branch,
            None => self.name.clone(),
        }
    }

    /// The branch as a candidate of the given kind.
    pub fn candidate(&self, kind: MergeKind) -> (c: Candidate)
        ensures
            c@ == self@.candidate(kind),
    {
        Candidate {
            name: self.name.clone(),
            refname: self.refname.clone(),
            sha: self.sha.clone(),
            kind,
            scope: self.scope,
            upstream: clone_option(&self.upstream),
            remote_name: clone_option(&self.remote_name),
            upstream_gone: self.upstream_gone,
            last_commit_unix: self.last_commit_unix,
            subject: self.subject.clone(),
            upstream_ref: clone_option(&self.upstream_ref),
        }
    }
}

} // verus!
