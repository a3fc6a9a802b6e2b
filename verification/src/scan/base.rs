//! The base branch, the checked-out branches, and what is read of them.

use vstd::hash_set::StringHashSet;
use vstd::prelude::*;

use crate::git::{self, Error, ErrorView, Exchange, Git, Reading};
use crate::scan::{Base, BaseView};
use crate::text;

verus! {

/// Asks whether `rev` names a commit, and which.
pub open spec fn commit_args(rev: Seq<char>) -> Seq<Seq<char>> {
    seq!["rev-parse"@, "--verify"@, "--quiet"@, rev + "^{commit}"@]
}

/// Asks for the full name of a ref.
pub open spec fn full_name_args(name: Seq<char>) -> Seq<Seq<char>> {
    seq!["rev-parse"@, "--symbolic-full-name"@, name]
}

/// Asks what the remote considers its default branch.
pub open spec fn origin_head_args() -> Seq<Seq<char>> {
    seq!["symbolic-ref"@, "--quiet"@, "refs/remotes/origin/HEAD"@]
}

/// The bases tried when the remote names none, best first: what each is
/// called, and its full name.
pub open spec fn usual_bases() -> Seq<(Seq<char>, Seq<char>)> {
    seq![
        ("origin/main"@, "refs/remotes/origin/main"@),
        ("origin/master"@, "refs/remotes/origin/master"@),
        ("main"@, "refs/heads/main"@),
        ("master"@, "refs/heads/master"@),
    ]
}

/// What is said of a `--base` that names no commit.
pub open spec fn unresolved_flag(name: Seq<char>) -> ErrorView {
    ErrorView::plain("--base "@ + name + " does not resolve to a commit"@)
}

/// What is said when no base can be found.
pub open spec fn no_base() -> ErrorView {
    ErrorView::plain(
        "could not determine the base branch; pass --base <branch>, or run `git remote set-head origin --auto`"@,
    )
}

/// Does `rev` name a commit, and which?
pub open spec fn read_commit(h: Seq<Exchange>, p: int, rev: Seq<char>) -> Reading<
    Option<Seq<char>>,
> {
    let answer = git::read_attempt(h, p, commit_args(rev));
    match answer.value {
        Err(e) => answer.failing(e),
        Ok((true, sha)) => answer.with(Some(text::trim(sha))),
        Ok((false, _)) => answer.with(None),
    }
}

/// The base an explicit `--base name` resolves to: it must name a commit; the
/// full name of the ref is taken when there is one.
pub open spec fn read_flag_base(h: Seq<Exchange>, p: int, name: Seq<char>) -> Reading<BaseView> {
    let commit = read_commit(h, p, name);
    match commit.value {
        Err(e) => commit.failing(e),
        Ok(None) => commit.failing(unresolved_flag(name)),
        Ok(Some(sha)) => {
            let full = git::read_attempt(h, commit.end, full_name_args(name)).behind(commit);
            match full.value {
                Err(e) => full.failing(e),
                Ok((ok, out)) => full.with(
                    BaseView {
                        name,
                        refname: if ok && text::trim(out).len() > 0 {
                            Some(text::trim(out))
                        } else {
                            None
                        },
                        sha,
                    },
                ),
            }
        },
    }
}

/// The first of the usual bases from the `k`th on that names a commit.
pub open spec fn read_usual_base(h: Seq<Exchange>, p: int, k: int) -> Reading<BaseView>
    decreases usual_bases().len() - k,
{
    if k >= usual_bases().len() || k < 0 {
        Reading { fits: true, end: p, value: Err(no_base()) }
    } else {
        let (name, full) = usual_bases()[k];
        let commit = read_commit(h, p, full);
        match commit.value {
            Err(e) => commit.failing(e),
            Ok(Some(sha)) => commit.with(BaseView { name, refname: Some(full), sha }),
            Ok(None) => read_usual_base(h, commit.end, k + 1).behind(commit),
        }
    }
}

/// The base found without a flag: what `origin/HEAD` points at, as long as
/// that resolves, or else the first of the usual ones.
pub open spec fn read_found_base(h: Seq<Exchange>, p: int) -> Reading<BaseView> {
    let head = git::read_attempt(h, p, origin_head_args());
    match head.value {
        Err(e) => head.failing(e),
        Ok((ok, out)) => {
            let full = text::trim(out);
            match text::strip_prefix(full, "refs/remotes/"@) {
                Some(name) if ok => {
                    let commit = read_commit(h, head.end, full).behind(head);
                    match commit.value {
                        Err(e) => commit.failing(e),
                        Ok(Some(sha)) => commit.with(BaseView { name, refname: Some(full), sha }),
                        // The symref can dangle (e.g. a clone from before a
                        // rename); only a target that resolves is trusted.
                        Ok(None) => read_usual_base(h, commit.end, 0).behind(commit),
                    }
                },
                _ => read_usual_base(h, head.end, 0).behind(head),
            }
        },
    }
}

/// [`resolve_base`].
pub open spec fn read_base(h: Seq<Exchange>, p: int, flag: Option<Seq<char>>) -> Reading<
    BaseView,
> {
    match flag {
        Some(name) => read_flag_base(h, p, name),
        None => read_found_base(h, p),
    }
}

/// The outcome of a base resolution, seen from outside.
pub open spec fn base_result(r: Result<Base, Error>) -> Result<BaseView, ErrorView> {
    match r {
        Ok(b) => Ok(b@),
        Err(e) => Err(e@),
    }
}

/// Asks git whether `rev` names a commit, and which.
fn ask_commit<G: Git>(git: &mut G, rev: &str) -> (r: Result<Option<String>, Error>)
    ensures
        git::asked(old(git).history(), final(git).history(), commit_args(rev@)),
        read_commit(
            final(git).history(),
            old(git).history().len() as int,
            rev@,
        ).is_told(
            old(git).history(),
            final(git).history(),
            match r {
                Ok(o) => Ok(o.deep_view()),
                Err(e) => Err(e@),
            },
        ),
{
    let spelled = rev.to_owned().concat("^{commit}");
    let reply = git.try_run(&["rev-parse", "--verify", "--quiet", spelled.as_str()]);
    assert(git.history().last().args =~= commit_args(rev@));
    match reply {
        Ok((ok, sha)) => Ok(
            if ok {
                Some(text::trimmed(sha.as_str()))
            } else {
                None
            },
        ),
        Err(e) => Err(e),
    }
}

/// Finds the base: the one `flag` names, or the best one there is.
pub fn resolve_base<G: Git>(git: &mut G, flag: Option<&str>) -> (r: Result<Base, Error>)
    ensures
        read_base(
            final(git).history(),
            old(git).history().len() as int,
            flag.deep_view(),
        ).is_told(old(git).history(), final(git).history(), base_result(r)),
{
    if let Some(name) = flag {
        let sha = match ask_commit(git, name) {
            Ok(Some(sha)) => sha,
            Ok(None) => return Err(
                Error::new(
                    "--base ".to_owned().concat(name).concat(" does not resolve to a commit"),
                ),
            ),
            Err(e) => return Err(e),
        };
        // --symbolic-full-name resolves symrefs to the terminal ref, so
        // `--base origin/HEAD` already yields e.g. refs/remotes/origin/main
        // and the exclusion logic protects the right branch.
        let reply = git.try_run(&["rev-parse", "--symbolic-full-name", name]);
        assert(git.history().last().args =~= full_name_args(name@));
        let (ok, full) = match reply {
            Ok(pair) => pair,
            Err(e) => return Err(e),
        };
        let full = text::trimmed(full.as_str());
        let refname = if ok && !full.as_str().is_empty() {
            Some(full)
        } else {
            None
        };
        return Ok(Base { name: name.to_owned(), refname, sha });
    }
    let reply = git.try_run(&["symbolic-ref", "--quiet", "refs/remotes/origin/HEAD"]);
    assert(git.history().last().args =~= origin_head_args());
    let (ok, out) = match reply {
        Ok(pair) => pair,
        Err(e) => return Err(e),
    };
    let full = text::trimmed(out.as_str());
    if let (true, Some(name)) = (ok, text::after_prefix(full.as_str(), "refs/remotes/")) {
        match ask_commit(git, full.as_str()) {
            Ok(Some(sha)) => return Ok(Base { name, refname: Some(full), sha }),
            Ok(None) => {},
            Err(e) => return Err(e),
        }
    }
    first_usual_base(git)
}

/// The first of the usual bases that names a commit.
fn first_usual_base<G: Git>(git: &mut G) -> (r: Result<Base, Error>)
    ensures
        read_usual_base(final(git).history(), old(git).history().len() as int, 0).is_told(
            old(git).history(),
            final(git).history(),
            base_result(r),
        ),
{
    let names: [&str; 4] = ["origin/main", "origin/master", "main", "master"];
    let fulls: [&str; 4] = [
        "refs/remotes/origin/main",
        "refs/remotes/origin/master",
        "refs/heads/main",
        "refs/heads/master",
    ];
    let ghost start = git.history();
    let ghost p = start.len() as int;
    let mut k: usize = 0;
    while k < 4
        invariant
            k <= 4,
            p == start.len(),
            start == old(git).history(),
            names@.len() == 4,
            fulls@.len() == 4,
            forall|j: int|
                0 <= j < 4 ==> (#[trigger] usual_bases()[j]) == (names@[j]@, fulls@[j]@),
            git.history().len() == p + k,
            git::extends(start, git.history()),
            refused(git.history(), p, k as int),
        decreases 4 - k,
    {
        let ghost h = git.history();
        assert(usual_bases()[k as int] == (names@[k as int]@, fulls@[k as int]@));
        let answer = ask_commit(git, fulls[k]);
        proof {
            assert forall|j: int| 0 <= j < k implies (#[trigger] read_commit(
                git.history(),
                p + j,
                usual_bases()[j].1,
            )).fits && read_commit(git.history(), p + j, usual_bases()[j].1).value == Ok::<
                _,
                ErrorView,
            >(None::<Seq<char>>) by {
                assert(read_commit(h, p + j, usual_bases()[j].1).fits);
                assert(git.history()[p + j] == h[p + j]);
            }
            lemma_refused(git.history(), p, k as int);
        }
        match answer {
            Err(e) => return Err(e),
            Ok(Some(sha)) => {
                return Ok(
                    Base {
                        name: names[k].to_owned(),
                        refname: Some(fulls[k].to_owned()),
                        sha,
                    },
                );
            },
            Ok(None) => {},
        }
        k += 1;
    }
    proof {
        lemma_refused(git.history(), p, 4);
    }
    Err(
        Error::new(
            "could not determine the base branch; pass --base <branch>, or run `git remote set-head origin --auto`".to_owned(),
        ),
    )
}

/// The first `k` of the usual bases were asked for from `p` on, and none of
/// them names a commit.
spec fn refused(h: Seq<Exchange>, p: int, k: int) -> bool {
    forall|j: int|
        0 <= j < k ==> (#[trigger] read_commit(h, p + j, usual_bases()[j].1)).fits && read_commit(
            h,
            p + j,
            usual_bases()[j].1,
        ).value == Ok::<_, ErrorView>(None::<Seq<char>>)
}

/// `k` refusals leave the question to the `k`th of the usual bases.
proof fn lemma_refused(h: Seq<Exchange>, p: int, k: int)
    requires
        0 <= k <= 4,
        refused(h, p, k),
    ensures
        read_usual_base(h, p, 0).fits == read_usual_base(h, p + k, k).fits,
        read_usual_base(h, p, 0).end == read_usual_base(h, p + k, k).end,
        read_usual_base(h, p, 0).value == read_usual_base(h, p + k, k).value,
    decreases k,
{
    if k > 0 {
        assert(refused(h, p, k - 1));
        lemma_refused(h, p, k - 1);
        assert(read_commit(h, p + (k - 1), usual_bases()[k - 1].1).fits);
    }
}

/// What follows a stretch of history does not change its reading.
pub proof fn lemma_usual_base_stays(h: Seq<Exchange>, later: Seq<Exchange>, p: int, k: int)
    requires
        git::extends(h, later),
        read_usual_base(h, p, k).fits,
        read_usual_base(h, p, k).end <= h.len(),
        0 <= p,
    ensures
        read_usual_base(later, p, k) == read_usual_base(h, p, k),
        p <= read_usual_base(h, p, k).end,
    decreases usual_bases().len() - k,
{
    if !(k >= usual_bases().len() || k < 0) {
        let commit = read_commit(h, p, usual_bases()[k].1);
        if commit.value == Ok::<_, ErrorView>(None::<Seq<char>>) {
            lemma_usual_base_stays(h, later, commit.end, k + 1);
        }
    }
}

/// What follows a stretch of history does not change its reading.
pub proof fn lemma_base_stays(
    h: Seq<Exchange>,
    later: Seq<Exchange>,
    p: int,
    flag: Option<Seq<char>>,
)
    requires
        git::extends(h, later),
        read_base(h, p, flag).fits,
        read_base(h, p, flag).end <= h.len(),
        0 <= p,
    ensures
        read_base(later, p, flag) == read_base(h, p, flag),
        p <= read_base(h, p, flag).end,
{
    match flag {
        Some(_) => {},
        None => {
            let head = git::read_attempt(h, p, origin_head_args());
            if let Ok((ok, out)) = head.value {
                let full = text::trim(out);
                if ok && text::strip_prefix(full, "refs/remotes/"@) is Some {
                    let commit = read_commit(h, head.end, full);
                    if commit.value == Ok::<_, ErrorView>(None::<Seq<char>>) {
                        lemma_usual_base_stays(h, later, commit.end, 0);
                    }
                } else {
                    lemma_usual_base_stays(h, later, head.end, 0);
                }
            }
        },
    }
}

/// Asks which branch is checked out.
pub open spec fn current_args() -> Seq<Seq<char>> {
    seq!["symbolic-ref"@, "--quiet"@, "--short"@, "HEAD"@]
}

/// Asks for the remotes.
pub open spec fn remote_args() -> Seq<Seq<char>> {
    seq!["remote"@]
}

/// Asks for the worktrees.
pub open spec fn worktree_args() -> Seq<Seq<char>> {
    seq!["worktree"@, "list"@, "--porcelain"@]
}

/// The local branch that a remote-tracking name stands for: `rest` is the
/// name without `refs/remotes/`, and the first of the remotes that it begins
/// with is taken off.
pub open spec fn local_twin(rest: Seq<char>, remotes: Seq<Seq<char>>) -> Option<Seq<char>>
    decreases remotes.len(),
{
    if remotes.len() == 0 {
        None
    } else {
        match text::strip_prefix(rest, remotes[0] + "/"@) {
            Some(branch) => Some("refs/heads/"@ + branch),
            None => local_twin(rest, remotes.drop_first()),
        }
    }
}

/// [`base_local_counterpart`]: the remotes are asked for only when the base
/// is on one.
pub open spec fn read_counterpart(h: Seq<Exchange>, p: int, base: BaseView) -> Reading<
    Option<Seq<char>>,
> {
    match base.refname {
        Some(full) => match text::strip_prefix(full, "refs/remotes/"@) {
            Some(rest) => {
                let remotes = git::read_output(h, p, remote_args());
                match remotes.value {
                    Err(e) => remotes.failing(e),
                    Ok(out) => remotes.with(local_twin(rest, text::lines(out))),
                }
            },
            None => Reading::settled(p, None),
        },
        None => Reading::settled(p, None),
    }
}

/// For a remote base, the local branch of the same name (refs/heads/<x>).
pub fn base_local_counterpart<G: Git>(git: &mut G, base: &Base) -> (r: Result<
    Option<String>,
    Error,
>)
    ensures
        read_counterpart(
            final(git).history(),
            old(git).history().len() as int,
            base@,
        ).is_told(
            old(git).history(),
            final(git).history(),
            match r {
                Ok(o) => Ok(o.deep_view()),
                Err(e) => Err(e@),
            },
        ),
{
    let rest = match &base.refname {
        Some(full) => match text::after_prefix(full.as_str(), "refs/remotes/") {
            Some(rest) => rest,
            None => return Ok(None),
        },
        None => return Ok(None),
    };
    let reply = git.run(&["remote"]);
    assert(git.history().last().args =~= remote_args());
    let out = match reply {
        Ok(out) => out,
        Err(e) => return Err(e),
    };
    Ok(twin_of(rest.as_str(), &text::lines_of(out.as_str())))
}

/// The local branch that a remote-tracking name stands for.
fn twin_of(rest: &str, remotes: &Vec<String>) -> (r: Option<String>)
    ensures
        r.deep_view() == local_twin(rest@, remotes.deep_view()),
{
    let mut i: usize = 0;
    let ghost all = remotes.deep_view();
    assert(all.skip(0) =~= all);
    while i < remotes.len()
        invariant
            i <= remotes@.len(),
            all == remotes.deep_view(),
            local_twin(rest@, all) == local_twin(rest@, all.skip(i as int)),
        decreases remotes@.len() - i,
    {
        let prefix = remotes[i].clone().concat("/");
        assert(all.skip(i as int)[0] == remotes@[i as int]@);
        assert(all.skip(i as int).drop_first() =~= all.skip(i + 1));
        if let Some(branch) = text::after_prefix(rest, prefix.as_str()) {
            return Some("refs/heads/".to_owned().concat(branch.as_str()));
        }
        i += 1;
    }
    None
}

/// [`current_branch`].
pub open spec fn read_current(h: Seq<Exchange>, p: int) -> Reading<Option<Seq<char>>> {
    let head = git::read_attempt(h, p, current_args());
    match head.value {
        Err(e) => head.failing(e),
        Ok((true, out)) => head.with(Some(text::trim(out))),
        Ok((false, _)) => head.with(None),
    }
}

/// The checked-out branch, or None on a detached HEAD.
pub fn current_branch<G: Git>(git: &mut G) -> (r: Result<Option<String>, Error>)
    ensures
        read_current(final(git).history(), old(git).history().len() as int).is_told(
            old(git).history(),
            final(git).history(),
            match r {
                Ok(o) => Ok(o.deep_view()),
                Err(e) => Err(e@),
            },
        ),
{
    let reply = git.try_run(&["symbolic-ref", "--quiet", "--short", "HEAD"]);
    assert(git.history().last().args =~= current_args());
    match reply {
        Ok((ok, out)) => Ok(
            if ok {
                Some(text::trimmed(out.as_str()))
            } else {
                None
            },
        ),
        Err(e) => Err(e),
    }
}

/// The refs that a worktree listing names as checked out.
pub open spec fn checked_out(listing: Seq<char>) -> Set<Seq<char>> {
    Set::new(|name: Seq<char>| text::lines(listing).contains("branch "@ + name))
}

/// [`worktree_branches`]. A git too old to list worktrees holds none: the
/// current-branch check still guards.
pub open spec fn read_held(h: Seq<Exchange>, p: int) -> Reading<Set<Seq<char>>> {
    let listing = git::read_attempt(h, p, worktree_args());
    match listing.value {
        Err(e) => listing.failing(e),
        Ok((true, out)) => listing.with(checked_out(out)),
        Ok((false, _)) => listing.with(Set::empty()),
    }
}

/// Branches checked out in ANY worktree — git refuses to delete them, so
/// they must never be offered as candidates.
pub fn worktree_branches<G: Git>(git: &mut G) -> (r: Result<StringHashSet, Error>)
    ensures
        read_held(final(git).history(), old(git).history().len() as int).is_told(
            old(git).history(),
            final(git).history(),
            match r {
                Ok(set) => Ok(set@),
                Err(e) => Err(e@),
            },
        ),
{
    let reply = git.try_run(&["worktree", "list", "--porcelain"]);
    assert(git.history().last().args =~= worktree_args());
    let (ok, out) = match reply {
        Ok(pair) => pair,
        Err(e) => return Err(e),
    };
    let mut set = StringHashSet::new();
    if !ok {
        return Ok(set);  // very old git; the current-branch check still guards
    }
    let lines = text::lines_of(out.as_str());
    let ghost all = text::lines(out@);
    let mut i: usize = 0;
    while i < lines.len()
        invariant
            i <= lines@.len(),
            all == lines.deep_view(),
            forall|name: Seq<char>|
                #![trigger set@.contains(name)]
                set@.contains(name) <==> exists|k: int|
                    0 <= k < i && #[trigger] all[k] == "branch "@ + name,
        decreases lines@.len() - i,
    {
        let ghost earlier = set@;
        assert(all[i as int] == lines@[i as int]@);
        if let Some(name) = text::after_prefix(lines[i].as_str(), "branch ") {
            assert("branch "@ + name@ =~= all[i as int]);
            let ghost found = name@;
            set.insert(name);
            assert forall|n: Seq<char>| all[i as int] == "branch "@ + n implies n == found by {
                assert(n =~= ("branch "@ + n).skip("branch "@.len() as int));
            }
            assert forall|n: Seq<char>| #[trigger] set@.contains(n) implies exists|k: int|
                0 <= k < i + 1 && #[trigger] all[k] == "branch "@ + n by {
                if earlier.contains(n) {
                    let k = choose|k: int| 0 <= k < i && #[trigger] all[k] == "branch "@ + n;
                    assert(all[k] == "branch "@ + n);
                } else {
                    assert(all[i as int] == "branch "@ + n);
                }
            }
        } else {
            assert forall|n: Seq<char>| all[i as int] != "branch "@ + n by {
                if all[i as int] == "branch "@ + n {
                    assert("branch "@.is_prefix_of(all[i as int]));
                }
            }
        }
        i += 1;
    }
    assert(set@ =~= checked_out(out@));
    Ok(set)
}

} // verus!
