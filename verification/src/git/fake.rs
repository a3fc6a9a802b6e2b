//! A git that answers from a table.

use vstd::prelude::*;

use crate::git::{self, join, strings, Error, ErrorView, Exchange, Git};
use crate::text;

verus! {

/// One canned reply: `Ok` is what the command prints, `Err` what it
/// complains of when it exits badly.
struct Canned {
    args: Vec<String>,
    input: Option<String>,
    reply: Result<String, String>,
}

/// What a reply is filed under: the full argument list, and what is piped in.
pub type Question = (Seq<Seq<char>>, Option<Seq<char>>);

/// A canned reply.
pub type Canning = Result<Seq<char>, Seq<char>>;

/// Canned-response fake: maps a full argument list (and optionally stdin) to
/// `Ok(stdout)` or `Err(stderr)`. Anything it was given no reply for fails.
pub struct FakeGit {
    entries: Vec<Canned>,
    log: Ghost<Seq<Exchange>>,
}

spec fn canning(r: Result<String, String>) -> Canning {
    match r {
        Ok(s) => Ok(s@),
        Err(s) => Err(s@),
    }
}

spec fn question(c: Canned) -> Question {
    (c.args.deep_view(), c.input.deep_view())
}

spec fn table(entries: Seq<Canned>) -> Map<Question, Canning>
    decreases entries.len(),
{
    if entries.len() == 0 {
        Map::empty()
    } else {
        table(entries.drop_last()).insert(
            question(entries.last()),
            canning(entries.last().reply),
        )
    }
}

/// The view of a canned reply given by reference.
pub open spec fn canning_of(r: Result<&str, &str>) -> Canning {
    match r {
        Ok(s) => Ok(s@),
        Err(s) => Err(s@),
    }
}

fn owned(r: Result<&str, &str>) -> (o: Result<String, String>)
    ensures
        canning(o) == canning_of(r),
{
    match r {
        Ok(s) => Ok(s.to_owned()),
        Err(s) => Err(s.to_owned()),
    }
}

fn same_args(a: &Vec<String>, b: &[&str]) -> (r: bool)
    ensures
        r == (a.deep_view() == b.deep_view()),
{
    if a.len() != b.len() {
        assert(a.deep_view().len() != b.deep_view().len());
        return false;
    }
    let mut i: usize = 0;
    while i < a.len()
        invariant
            i <= a@.len(),
            a@.len() == b@.len(),
            forall|k: int| 0 <= k < i ==> (#[trigger] a@[k])@ == b@[k]@,
        decreases a@.len() - i,
    {
        if !text::same(a[i].as_str(), b[i]) {
            assert(a.deep_view()[i as int] != b.deep_view()[i as int]);
            return false;
        }
        i += 1;
    }
    assert(a.deep_view() =~= b.deep_view());
    true
}

impl Default for FakeGit {
    fn default() -> (g: FakeGit)
        ensures
            g.canned() == Map::<Question, Canning>::empty(),
            g.history() == Seq::<Exchange>::empty(),
    {
        FakeGit { entries: Vec::new(), log: Ghost(Seq::empty()) }
    }
}

impl FakeGit {
    /// The replies it was given.
    pub closed spec fn canned(&self) -> Map<Question, Canning> {
        table(self.entries@)
    }

    /// Files `response` under `args`; a later one replaces an earlier one.
    pub fn on(self, args: &[&str], response: Result<&str, &str>) -> (g: FakeGit)
        ensures
            g.canned() == self.canned().insert((args.deep_view(), None), canning_of(response)),
            g.history() == self.history(),
    {
        let FakeGit { mut entries, log } = self;
        entries.push(Canned { args: strings(args), input: None, reply: owned(response) });
        assert(entries@.drop_last() =~= self.entries@);
        FakeGit { entries, log }
    }

    /// Files `response` under `args` with exactly `input` piped in.
    pub fn on_input(self, args: &[&str], input: &str, response: Result<&str, &str>) -> (g: FakeGit)
        ensures
            g.canned() == self.canned().insert(
                (args.deep_view(), Some(input@)),
                canning_of(response),
            ),
            g.history() == self.history(),
    {
        let FakeGit { mut entries, log } = self;
        entries.push(
            Canned { args: strings(args), input: Some(input.to_owned()), reply: owned(response) },
        );
        assert(entries@.drop_last() =~= self.entries@);
        FakeGit { entries, log }
    }

    /// The reply filed under `args` and `input`, if there is one.
    fn look_up(&self, args: &[&str], input: Option<&str>) -> (r: Option<Result<String, String>>)
        ensures
            ({
                let q = (args.deep_view(), input.deep_view());
                match r {
                    Some(reply) => self.canned().contains_key(q) && self.canned()[q] == canning(
                        reply,
                    ),
                    None => !self.canned().contains_key(q),
                }
            }),
    {
        let ghost q = (args.deep_view(), input.deep_view());
        let mut i: usize = self.entries.len();
        assert(self.entries@.take(i as int) =~= self.entries@);
        while i > 0
            invariant
                i <= self.entries@.len(),
                q == (args.deep_view(), input.deep_view()),
                self.canned().contains_key(q) == table(self.entries@.take(i as int)).contains_key(
                    q,
                ),
                self.canned().contains_key(q) ==> self.canned()[q] == table(
                    self.entries@.take(i as int),
                )[q],
            decreases i,
        {
            i -= 1;
            assert(self.entries@.take(i + 1).drop_last() =~= self.entries@.take(i as int));
            let e = &self.entries[i];
            let same_input = match (&e.input, input) {
                (Some(a), Some(b)) => text::same(a.as_str(), b),
                (None, None) => true,
                _ => false,
            };
            assert(same_input == (e.input.deep_view() == input.deep_view()));
            if same_input && same_args(&e.args, args) {
                assert(question(*e) == q);
                return Some(
                    match &e.reply {
                        Ok(s) => Ok(s.clone()),
                        Err(s) => Err(s.clone()),
                    },
                );
            }
        }
        None
    }
}

/// What [`FakeGit`] says of a command it has no reply for.
pub open spec fn unexpected(args: Seq<Seq<char>>) -> ErrorView {
    ErrorView::plain("FakeGit: unexpected call `git "@ + git::joined(args) + "`"@)
}

/// What [`FakeGit`] says of a command that was to succeed and is canned to
/// fail.
pub open spec fn canned_failure(args: Seq<Seq<char>>, complaint: Seq<char>) -> ErrorView {
    ErrorView::plain("`git "@ + git::joined(args) + "` failed: "@ + complaint)
}

fn unexpected_call(args: &[&str]) -> (e: Error)
    ensures
        e@ == unexpected(args.deep_view()),
{
    Error::new(
        "FakeGit: unexpected call `git ".to_owned().concat(join(args).as_str()).concat("`"),
    )
}

fn failure(args: &[&str], complaint: &str) -> (e: Error)
    ensures
        e@ == canned_failure(args.deep_view(), complaint@),
{
    Error::new(
        "`git ".to_owned().concat(join(args).as_str()).concat("` failed: ").concat(complaint),
    )
}

impl Git for FakeGit {
    closed spec fn history(&self) -> Seq<Exchange> {
        self.log@
    }

    fn run(&mut self, args: &[&str]) -> (r: Result<String, Error>)
        ensures
            final(self).canned() == old(self).canned(),
            ({
                let q = (args.deep_view(), None::<Seq<char>>);
                git::run_reply(r) == if !old(self).canned().contains_key(q) {
                    Err(unexpected(args.deep_view()))
                } else {
                    match old(self).canned()[q] {
                        Ok(out) => Ok((true, out)),
                        Err(err) => Err(canned_failure(args.deep_view(), err)),
                    }
                }
            }),
    {
        let r = match self.look_up(args, None) {
            Some(Ok(out)) => Ok(out),
            Some(Err(err)) => Err(failure(args, err.as_str())),
            None => Err(unexpected_call(args)),
        };
        proof {
            self.log@ = self.log@.push(
                Exchange { args: args.deep_view(), input: None, reply: git::run_reply(r) },
            );
        }
        r
    }

    fn try_run(&mut self, args: &[&str]) -> (r: Result<(bool, String), Error>)
        ensures
            final(self).canned() == old(self).canned(),
            ({
                let q = (args.deep_view(), None::<Seq<char>>);
                git::try_reply(r) == if !old(self).canned().contains_key(q) {
                    Err(unexpected(args.deep_view()))
                } else {
                    match old(self).canned()[q] {
                        Ok(out) => Ok((true, out)),
                        Err(err) => Ok((false, err)),
                    }
                }
            }),
    {
        let r = match self.look_up(args, None) {
            Some(Ok(out)) => Ok((true, out)),
            Some(Err(err)) => Ok((false, err)),
            None => Err(unexpected_call(args)),
        };
        proof {
            self.log@ = self.log@.push(
                Exchange { args: args.deep_view(), input: None, reply: git::try_reply(r) },
            );
        }
        r
    }

    fn run_with_input(&mut self, args: &[&str], input: &str) -> (r: Result<String, Error>)
        ensures
            final(self).canned() == old(self).canned(),
            ({
                let q = (args.deep_view(), Some(input@));
                git::run_reply(r) == if !old(self).canned().contains_key(q) {
                    Err(unexpected(args.deep_view()))
                } else {
                    match old(self).canned()[q] {
                        Ok(out) => Ok((true, out)),
                        Err(err) => Err(canned_failure(args.deep_view(), err)),
                    }
                }
            }),
    {
        let r = match self.look_up(args, Some(input)) {
            Some(Ok(out)) => Ok(out),
            Some(Err(err)) => Err(failure(args, err.as_str())),
            None => Err(unexpected_call(args)),
        };
        proof {
            self.log@ = self.log@.push(
                Exchange { args: args.deep_view(), input: Some(input@), reply: git::run_reply(r) },
            );
        }
        r
    }
}

} // verus!
