//! Patch-id detection for merges that rewrite history.

use vstd::hash_set::StringHashSet;
use vstd::prelude::*;

use crate::git::{self, borrowed, strings, Error, ErrorView, Exchange, Git, Reading};
use crate::scan::{Base, MergeKind};
use crate::text;

verus! {

/// Diff rendering must be identical on both sides of a patch-id comparison,
/// and immune to user config: `git log -p` is porcelain (honours
/// diff.renames/algorithm/context/noprefix and color), `git diff-tree` is
/// plumbing (honours none of them). Pin every knob on both.
pub open spec fn diff_flags() -> Seq<Seq<char>> {
    seq![
        "--no-color"@,
        "--no-ext-diff"@,
        "--no-textconv"@,
        "--no-renames"@,
        "--no-relative"@,
        "--full-index"@,
        "--diff-algorithm=myers"@,
        "-U3"@,
        "--inter-hunk-context=0"@,
        "--src-prefix=a/"@,
        "--dst-prefix=b/"@,
        "--submodule=short"@,
        "--ignore-submodules=none"@,
    ]
}

/// The commits that `to` has and `from` has not.
pub open spec fn range(from: Seq<char>, to: Seq<char>) -> Seq<char> {
    from + ".."@ + to
}

pub open spec fn merge_base_args(base: Seq<char>, branch: Seq<char>) -> Seq<Seq<char>> {
    seq!["merge-base"@, base, branch]
}

/// Asks for the patches of every commit between two.
pub open spec fn log_args(from: Seq<char>, to: Seq<char>) -> Seq<Seq<char>> {
    seq!["log"@, "-p"@, "--no-merges"@] + diff_flags() + seq![range(from, to)]
}

/// Asks for everything between two commits as one patch.
pub open spec fn squash_args(from: Seq<char>, to: Seq<char>) -> Seq<Seq<char>> {
    seq!["diff-tree"@, "-p"@, "-r"@] + diff_flags() + seq![from, to]
}

/// Asks how many merge commits lie between two commits.
pub open spec fn merge_count_args(from: Seq<char>, to: Seq<char>) -> Seq<Seq<char>> {
    seq!["rev-list"@, "--min-parents=2"@, "--count"@, range(from, to)]
}

/// Asks how many other commits lie between two commits.
pub open spec fn commit_count_args(from: Seq<char>, to: Seq<char>) -> Seq<Seq<char>> {
    seq!["rev-list"@, "--no-merges"@, "--count"@, range(from, to)]
}

pub open spec fn patch_id_args() -> Seq<Seq<char>> {
    seq!["patch-id"@, "--stable"@]
}

/// The first word of every line that has one.
pub open spec fn first_words(lines: Seq<Seq<char>>) -> Seq<Seq<char>>
    decreases lines.len(),
{
    if lines.len() == 0 {
        Seq::empty()
    } else {
        match text::first_word(lines.last()) {
            Some(word) => first_words(lines.drop_last()).push(word),
            None => first_words(lines.drop_last()),
        }
    }
}

/// [`patch_ids`]: git is asked only when there is a patch to ask about.
pub open spec fn read_patch_ids(h: Seq<Exchange>, p: int, patches: Seq<char>) -> Reading<
    Seq<Seq<char>>,
> {
    if text::blank(patches) {
        Reading::settled(p, Seq::empty())
    } else {
        Reading {
            fits: git::is_feed(h, p, patch_id_args(), patches),
            end: p + 1,
            value: match h[p].reply {
                Ok((_, out)) => Ok(first_words(text::lines(out))),
                Err(e) => Err(e),
            },
        }
    }
}

/// The patches that a command prints, by their ids.
pub open spec fn read_printed_ids(h: Seq<Exchange>, p: int, args: Seq<Seq<char>>) -> Reading<
    Seq<Seq<char>>,
> {
    let printed = git::read_output(h, p, args);
    match printed.value {
        Err(e) => printed.failing(e),
        Ok(patches) => read_patch_ids(h, printed.end, patches).behind(printed),
    }
}

/// [`merge_base`]: where two commits part, if they share any history.
pub open spec fn read_merge_base(
    h: Seq<Exchange>,
    p: int,
    base: Seq<char>,
    branch: Seq<char>,
) -> Reading<Option<Seq<char>>> {
    Reading {
        fits: git::is_ask(h, p, merge_base_args(base, branch)),
        end: p + 1,
        value: match h[p].reply {
            Ok((true, out)) => Ok(Some(text::trim(out))),
            Ok((false, _)) => Ok(None),
            Err(e) => Err(e),
        },
    }
}

/// [`upstream_patch_ids`]: the ids of what the base gained since the fork.
pub open spec fn read_upstream(
    h: Seq<Exchange>,
    p: int,
    base: Seq<char>,
    fork: Seq<char>,
) -> Reading<Set<Seq<char>>> {
    let ids = read_printed_ids(h, p, log_args(fork, base));
    match ids.value {
        Err(e) => ids.failing(e),
        Ok(found) => ids.with(found.to_set()),
    }
}

/// The branch collapsed into one patch is one of `upstream`.
pub open spec fn is_squashed(patch: Seq<Seq<char>>, upstream: Set<Seq<char>>) -> bool {
    patch.len() > 0 && upstream.contains(patch[0])
}

/// Every commit of the branch has a patch, and every patch is one of
/// `upstream`. Empty-diff commits emit no patch-id at all, hence the count.
pub open spec fn is_rebased(
    patches: Seq<Seq<char>>,
    commits: Seq<char>,
    upstream: Set<Seq<char>>,
) -> bool {
    let count = text::parse_usize(text::trim(commits)).unwrap_or(0);
    &&& count > 0
    &&& patches.len() == count
    &&& forall|i: int| 0 <= i < patches.len() ==> upstream.contains(#[trigger] patches[i])
}

/// [`probe_branch`]: is the branch, squashed or commit by commit, among the
/// patches of the base?
pub open spec fn read_probe(
    h: Seq<Exchange>,
    p: int,
    branch: Seq<char>,
    fork: Seq<char>,
    upstream: Set<Seq<char>>,
) -> Reading<Option<MergeKind>> {
    if upstream.is_empty() {
        Reading::settled(p, None)
    } else {
        let patch = read_printed_ids(h, p, squash_args(fork, branch));
        match patch.value {
            Err(e) => patch.failing(e),
            Ok(found) => if is_squashed(found, upstream) {
                patch.with(Some(MergeKind::Squash))
            } else {
                read_rebase_probe(h, patch.end, branch, fork, upstream).behind(patch)
            },
        }
    }
}

/// The second half of [`read_probe`]. Merge commits carry conflict
/// resolutions that patch-ids skip, so their presence disables the check.
pub open spec fn read_rebase_probe(
    h: Seq<Exchange>,
    p: int,
    branch: Seq<char>,
    fork: Seq<char>,
    upstream: Set<Seq<char>>,
) -> Reading<Option<MergeKind>> {
    let merges = git::read_output(h, p, merge_count_args(fork, branch));
    match merges.value {
        Err(e) => merges.failing(e),
        Ok(count) => if text::trim(count) != "0"@ {
            merges.with(None)
        } else {
            let ids = read_printed_ids(h, merges.end, log_args(fork, branch)).behind(merges);
            match ids.value {
                Err(e) => ids.failing(e),
                Ok(patches) => {
                    let commits = git::read_output(
                        h,
                        ids.end,
                        commit_count_args(fork, branch),
                    ).behind(ids);
                    match commits.value {
                        Err(e) => commits.failing(e),
                        Ok(count) => commits.with(
                            if is_rebased(patches, count, upstream) {
                                Some(MergeKind::Rebase)
                            } else {
                                None
                            },
                        ),
                    }
                },
            }
        },
    }
}

/// A list of ids as it is told to a caller.
pub open spec fn ids_result(r: Result<Vec<String>, Error>) -> Result<Seq<Seq<char>>, ErrorView> {
    match r {
        Ok(v) => Ok(v.deep_view()),
        Err(e) => Err(e@),
    }
}

/// A verdict as it is told to a caller.
pub open spec fn verdict_result(r: Result<Option<MergeKind>, Error>) -> Result<
    Option<MergeKind>,
    ErrorView,
> {
    match r {
        Ok(v) => Ok(v),
        Err(e) => Err(e@),
    }
}

/// A set of ids as it is told to a caller.
pub open spec fn set_result(r: Result<StringHashSet, Error>) -> Result<
    Set<Seq<char>>,
    ErrorView,
> {
    match r {
        Ok(s) => Ok(s@),
        Err(e) => Err(e@),
    }
}

/// A fork point as it is told to a caller.
pub open spec fn fork_result(r: Result<Option<String>, Error>) -> Result<
    Option<Seq<char>>,
    ErrorView,
> {
    match r {
        Ok(o) => Ok(o.deep_view()),
        Err(e) => Err(e@),
    }
}

/// The arguments in `prefix`, the diff flags, and a range or pair of revs.
pub fn with_diff_flags(prefix: &[&str], revs: &[&str]) -> (r: Vec<String>)
    ensures
        r.deep_view() == prefix.deep_view() + diff_flags() + revs.deep_view(),
{
    let mut r = strings(prefix);
    let mut flags = strings(
        &[
            "--no-color",
            "--no-ext-diff",
            "--no-textconv",
            "--no-renames",
            "--no-relative",  // diff.relative + a subdir cwd would drop hunks from log -p
            "--full-index",
            "--diff-algorithm=myers",
            "-U3",
            "--inter-hunk-context=0",
            "--src-prefix=a/",
            "--dst-prefix=b/",
            "--submodule=short",
            "--ignore-submodules=none",
        ],
    );
    let mut last = strings(revs);
    assert(flags.deep_view() =~= diff_flags());
    let ghost (a, b, c) = (r.deep_view(), flags.deep_view(), last.deep_view());
    r.append(&mut flags);
    assert(r.deep_view() =~= a + b);
    r.append(&mut last);
    assert(r.deep_view() =~= a + b + c);
    r
}

/// `from..to`.
fn range_of(from: &str, to: &str) -> (r: String)
    ensures
        r@ == range(from@, to@),
{
    from.to_owned().concat("..").concat(to)
}

/// The fork point of a branch from the base, or None when they share no
/// history at all.
pub fn merge_base<G: Git>(git: &mut G, base: &Base, branch_sha: &str) -> (r: Result<
    Option<String>,
    Error,
>)
    ensures
        read_merge_base(
            final(git).history(),
            old(git).history().len() as int,
            base.sha@,
            branch_sha@,
        ).is_told(old(git).history(), final(git).history(), fork_result(r)),
{
    let reply = git.try_run(&["merge-base", base.sha.as_str(), branch_sha]);
    assert(git.history().last().args =~= merge_base_args(base.sha@, branch_sha@));
    match reply {
        Ok((ok, out)) => Ok(
            if ok {
                Some(text::trimmed(out.as_str()))
            } else {
                None
            },
        ),
        Err(e) => Err(e),
    }
}

/// The first word of every line that has one.
fn words_of(lines: &Vec<String>) -> (r: Vec<String>)
    ensures
        r.deep_view() == first_words(lines.deep_view()),
{
    let mut r: Vec<String> = Vec::new();
    let mut i: usize = 0;
    let ghost all = lines.deep_view();
    assert(all.take(0) =~= Seq::<Seq<char>>::empty());
    assert(r.deep_view() =~= Seq::<Seq<char>>::empty());
    while i < lines.len()
        invariant
            i <= lines@.len(),
            all == lines.deep_view(),
            r.deep_view() == first_words(all.take(i as int)),
        decreases lines@.len() - i,
    {
        let ghost earlier = r.deep_view();
        assert(all.take(i + 1).drop_last() =~= all.take(i as int));
        assert(all.take(i + 1).last() == lines@[i as int]@);
        if let Some(word) = text::word_of(lines[i].as_str()) {
            let ghost w = word@;
            r.push(word);
            assert(r.deep_view() =~= earlier.push(w));
        }
        i += 1;
    }
    assert(all.take(i as int) =~= all);
    r
}

/// Feed `git log -p` / `git diff-tree -p` output through `git patch-id`.
pub fn patch_ids<G: Git>(git: &mut G, patches: &str) -> (r: Result<Vec<String>, Error>)
    ensures
        read_patch_ids(
            final(git).history(),
            old(git).history().len() as int,
            patches@,
        ).is_told(old(git).history(), final(git).history(), ids_result(r)),
{
    if text::is_blank(patches) {
        let none: Vec<String> = Vec::new();
        assert(none.deep_view() =~= Seq::<Seq<char>>::empty());
        return Ok(none);
    }
    let reply = git.run_with_input(&["patch-id", "--stable"], patches);
    assert(git.history().last().args =~= patch_id_args());
    match reply {
        Ok(out) => Ok(words_of(&text::lines_of(out.as_str()))),
        Err(e) => Err(e),
    }
}

/// The patches that a command prints, by their ids.
fn printed_ids<G: Git>(git: &mut G, args: &Vec<String>) -> (r: Result<Vec<String>, Error>)
    ensures
        read_printed_ids(
            final(git).history(),
            old(git).history().len() as int,
            args.deep_view(),
        ).is_told(old(git).history(), final(git).history(), ids_result(r)),
{
    let refs = borrowed(args);
    match git.run(refs.as_slice()) {
        Ok(patches) => patch_ids(git, patches.as_str()),
        Err(e) => Err(e),
    }
}

/// The ids as a set.
pub fn set_of(ids: &Vec<String>) -> (r: StringHashSet)
    ensures
        r@ == ids.deep_view().to_set(),
{
    let mut r = StringHashSet::new();
    let mut i: usize = 0;
    let ghost all = ids.deep_view();
    while i < ids.len()
        invariant
            i <= ids@.len(),
            all == ids.deep_view(),
            r@ =~= all.take(i as int).to_set(),
        decreases ids@.len() - i,
    {
        let ghost earlier = all.take(i as int);
        r.insert(ids[i].clone());
        assert(all.take(i + 1) =~= earlier.push(ids@[i as int]@));
        assert(r@ =~= all.take(i + 1).to_set()) by {
            broadcast use vstd::seq_lib::group_seq_properties;

        }
        i += 1;
    }
    assert(all.take(i as int) =~= all);
    r
}

/// Patch-ids of everything the base gained since `merge_base`. This is the
/// expensive half of squash/rebase detection, and every branch cut from the
/// same fork point shares one walk — hence computing it per distinct fork
/// point rather than per branch.
pub fn upstream_patch_ids<G: Git>(git: &mut G, base: &Base, merge_base: &str) -> (r: Result<
    StringHashSet,
    Error,
>)
    ensures
        read_upstream(
            final(git).history(),
            old(git).history().len() as int,
            base.sha@,
            merge_base@,
        ).is_told(old(git).history(), final(git).history(), set_result(r)),
{
    let revs = range_of(merge_base, base.sha.as_str());
    let args = with_diff_flags(&["log", "-p", "--no-merges"], &[revs.as_str()]);
    assert(args.deep_view() =~= log_args(merge_base@, base.sha@));
    match printed_ids(git, &args) {
        Ok(ids) => Ok(set_of(&ids)),
        Err(e) => Err(e),
    }
}

/// Whether all of the ids are in the set.
fn all_in(ids: &Vec<String>, set: &StringHashSet) -> (r: bool)
    ensures
        r == forall|i: int| 0 <= i < ids@.len() ==> set@.contains(#[trigger] ids.deep_view()[i]),
{
    let mut i: usize = 0;
    while i < ids.len()
        invariant
            i <= ids@.len(),
            forall|k: int| 0 <= k < i ==> set@.contains(#[trigger] ids.deep_view()[k]),
        decreases ids@.len() - i,
    {
        assert(ids.deep_view()[i as int] == ids@[i as int]@);
        if !set.contains(ids[i].as_str()) {
            return false;
        }
        i += 1;
    }
    true
}

/// Patch-id detection for merges that rewrite history. Pure reads — no
/// objects are written, so listing works on read-only repositories.
///
/// Takes the branch's SHA, never its ref: the verdict is cached under that
/// sha, so measuring anything else would store an answer about a commit the
/// key does not name. A branch moved by another terminal mid-scan and then
/// restored would otherwise be force-deleted on the strength of a verdict
/// computed for different commits.
pub fn probe_branch<G: Git>(
    git: &mut G,
    branch_sha: &str,
    merge_base: &str,
    upstream_ids: &StringHashSet,
) -> (r: Result<Option<MergeKind>, Error>)
    ensures
        read_probe(
            final(git).history(),
            old(git).history().len() as int,
            branch_sha@,
            merge_base@,
            upstream_ids@,
        ).is_told(old(git).history(), final(git).history(), verdict_result(r)),
{
    if upstream_ids.is_empty() {
        return Ok(None);
    }
    // Squash: the whole branch collapsed into one diff — exactly what
    // GitHub's "Squash and merge" lands on base.
    let args = with_diff_flags(&["diff-tree", "-p", "-r"], &[merge_base, branch_sha]);
    assert(args.deep_view() =~= squash_args(merge_base@, branch_sha@));
    let found = match printed_ids(git, &args) {
        Ok(found) => found,
        Err(e) => return Err(e),
    };
    if found.len() > 0 && upstream_ids.contains(found[0].as_str()) {
        return Ok(Some(MergeKind::Squash));
    }
    rebase_probe(git, branch_sha, merge_base, upstream_ids)
}

/// Rebase: every branch commit's patch exists in base individually.
fn rebase_probe<G: Git>(
    git: &mut G,
    branch_sha: &str,
    merge_base: &str,
    upstream_ids: &StringHashSet,
) -> (r: Result<Option<MergeKind>, Error>)
    ensures
        read_rebase_probe(
            final(git).history(),
            old(git).history().len() as int,
            branch_sha@,
            merge_base@,
            upstream_ids@,
        ).is_told(old(git).history(), final(git).history(), verdict_result(r)),
{
    let revs = range_of(merge_base, branch_sha);
    let reply = git.run(&["rev-list", "--min-parents=2", "--count", revs.as_str()]);
    assert(git.history().last().args =~= merge_count_args(merge_base@, branch_sha@));
    let merges = match reply {
        Ok(out) => out,
        Err(e) => return Err(e),
    };
    if !text::same(text::trimmed(merges.as_str()).as_str(), "0") {
        return Ok(None);
    }
    let args = with_diff_flags(&["log", "-p", "--no-merges"], &[revs.as_str()]);
    assert(args.deep_view() =~= log_args(merge_base@, branch_sha@));
    let branch_ids = match printed_ids(git, &args) {
        Ok(ids) => ids,
        Err(e) => return Err(e),
    };
    let reply = git.run(&["rev-list", "--no-merges", "--count", revs.as_str()]);
    assert(git.history().last().args =~= commit_count_args(merge_base@, branch_sha@));
    let out = match reply {
        Ok(out) => out,
        Err(e) => return Err(e),
    };
    let commits: usize = match text::read_usize(text::trimmed(out.as_str()).as_str()) {
        Some(n) => n,
        None => 0,
    };
    if commits > 0 && branch_ids.len() == commits && all_in(&branch_ids, upstream_ids) {
        return Ok(Some(MergeKind::Rebase));
    }
    Ok(None)
}

} // verus!
