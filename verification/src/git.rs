//! The seam over the `git` binary.
//!
//! Everything the crate learns about a repository, and everything it does to
//! one, goes through the [`Git`] trait. Each implementation carries a history
//! of the commands it was asked to run and the replies it gave, which exists
//! for specifications only: the contracts of the functions that talk to git
//! say which commands were asked, in what order, and what was made of the
//! replies.

pub mod fake;
pub mod laws;

use std::path::PathBuf;
use vstd::prelude::*;

use crate::text;

verus! {

/// `std::path::PathBuf`, carried from the command line to the process that
/// is launched; nothing is known or asked of what it holds.
#[verifier::external_type_specification]
#[verifier::external_body]
pub struct ExPathBuf(PathBuf);

/// Why a git command could not be answered.
#[derive(Debug)]
pub struct Error {
    pub message: String,
    /// What lies behind the message, where there is more to say.
    pub cause: Option<String>,
}

/// What an [`Error`] says.
pub struct ErrorView {
    pub message: Seq<char>,
    pub cause: Option<Seq<char>>,
}

impl View for Error {
    type V = ErrorView;

    open spec fn view(&self) -> ErrorView {
        ErrorView { message: self.message@, cause: self.cause.deep_view() }
    }
}

impl DeepView for Error {
    type V = ErrorView;

    open spec fn deep_view(&self) -> ErrorView {
        self@
    }
}

impl ErrorView {
    /// An error with nothing behind it.
    pub open spec fn plain(message: Seq<char>) -> ErrorView {
        ErrorView { message, cause: None }
    }

    /// The message followed by its cause.
    pub open spec fn chain(self) -> Seq<char> {
        match self.cause {
            Some(cause) => self.message + ": "@ + cause,
            None => self.message,
        }
    }
}

impl Error {
    /// An error with nothing behind it.
    pub fn new(message: String) -> (e: Error)
        ensures
            e@ == ErrorView::plain(message@),
    {
        Error { message, cause: None }
    }

    /// The message followed by its cause.
    pub fn chain(&self) -> (s: String)
        ensures
            s@ == self@.chain(),
    {
        match &self.cause {
            Some(cause) => self.message.clone().concat(": ").concat(cause.as_str()),
            None => self.message.clone(),
        }
    }
}

impl Clone for Error {
    fn clone(&self) -> (e: Error)
        ensures
            e@ == self@,
    {
        Error { message: self.message.clone(), cause: clone_option(&self.cause) }
    }
}

/// A copy of an optional string.
pub fn clone_option(o: &Option<String>) -> (r: Option<String>)
    ensures
        r.deep_view() == o.deep_view(),
{
    match o {
        Some(s) => Some(s.clone()),
        None => None,
    }
}

/// What git said: whether it exited well and what it printed, or why it
/// could not be asked.
pub type Reply = Result<(bool, Seq<char>), ErrorView>;

/// One command and its reply.
pub struct Exchange {
    pub args: Seq<Seq<char>>,
    /// What was piped to the command, if anything was.
    pub input: Option<Seq<char>>,
    pub reply: Reply,
}

/// The reply behind a result of [`Git::try_run`].
pub open spec fn try_reply(r: Result<(bool, String), Error>) -> Reply {
    match r {
        Ok((ok, out)) => Ok((ok, out@)),
        Err(e) => Err(e@),
    }
}

/// The reply behind a result of [`Git::run`] or [`Git::run_with_input`].
pub open spec fn run_reply(r: Result<String, Error>) -> Reply {
    match r {
        Ok(out) => Ok((true, out@)),
        Err(e) => Err(e@),
    }
}

/// Exactly one command was asked between the two histories: this one, with
/// nothing piped to it.
pub open spec fn asked(before: Seq<Exchange>, after: Seq<Exchange>, args: Seq<Seq<char>>) -> bool {
    after == before.push(Exchange { args, input: None, reply: after.last().reply })
}

/// `after` is `before` with more commands behind it: those asked between the
/// two stand in `after` from `before.len()` on.
pub open spec fn extends(before: Seq<Exchange>, after: Seq<Exchange>) -> bool {
    &&& before.len() <= after.len()
    &&& forall|i: int| 0 <= i < before.len() ==> #[trigger] after[i] == before[i]
}

/// `h[p]` is the command `args` with nothing piped to it.
pub open spec fn is_ask(h: Seq<Exchange>, p: int, args: Seq<Seq<char>>) -> bool {
    0 <= p < h.len() && h[p].args == args && h[p].input is None
}

/// `h[p]` is the command `args` with `input` piped to it.
pub open spec fn is_feed(
    h: Seq<Exchange>,
    p: int,
    args: Seq<Seq<char>>,
    input: Seq<char>,
) -> bool {
    0 <= p < h.len() && h[p].args == args && h[p].input == Some(input)
}

/// A stretch of history read as the run of some function: whether it holds
/// the commands that function asks, where it ends, and what the function
/// makes of the replies.
pub struct Reading<T> {
    pub fits: bool,
    pub end: int,
    pub value: Result<T, ErrorView>,
}

impl<T> Reading<T> {
    /// No command, and a value that needs none.
    pub open spec fn settled(p: int, value: T) -> Reading<T> {
        Reading { fits: true, end: p, value: Ok(value) }
    }

    /// This stretch, directly behind another.
    pub open spec fn behind<U>(self, earlier: Reading<U>) -> Reading<T> {
        Reading { fits: earlier.fits && self.fits, end: self.end, value: self.value }
    }

    /// The same stretch, with an error made of its value.
    pub open spec fn failing<U>(self, e: ErrorView) -> Reading<U> {
        Reading { fits: self.fits, end: self.end, value: Err(e) }
    }

    /// The same stretch with another value.
    pub open spec fn with<U>(self, value: U) -> Reading<U> {
        Reading { fits: self.fits, end: self.end, value: Ok(value) }
    }

    /// What was asked between two histories is this stretch, with this
    /// outcome.
    pub open spec fn is_told(
        self,
        before: Seq<Exchange>,
        after: Seq<Exchange>,
        outcome: Result<T, ErrorView>,
    ) -> bool {
        extends(before, after) && self.fits && self.end == after.len() && self.value == outcome
    }
}

/// A stretch of history that holds the runs of one function after another,
/// none of which ends the stretch by failing.
pub struct Stretch<T> {
    pub fits: bool,
    pub end: int,
    pub items: Seq<T>,
}

impl<T> Stretch<T> {
    /// Nothing asked.
    pub open spec fn empty(p: int) -> Stretch<T> {
        Stretch { fits: true, end: p, items: Seq::empty() }
    }

    /// The stretch with one more run, and what came of it.
    pub open spec fn and<U>(self, run: Reading<U>, item: T) -> Stretch<T> {
        Stretch { fits: self.fits && run.fits, end: run.end, items: self.items.push(item) }
    }
}

/// One command whose exit is part of the answer.
pub open spec fn read_attempt(h: Seq<Exchange>, p: int, args: Seq<Seq<char>>) -> Reading<
    (bool, Seq<char>),
> {
    Reading { fits: is_ask(h, p, args), end: p + 1, value: h[p].reply }
}

/// One command of which only the output matters.
pub open spec fn read_output(h: Seq<Exchange>, p: int, args: Seq<Seq<char>>) -> Reading<Seq<char>> {
    Reading {
        fits: is_ask(h, p, args),
        end: p + 1,
        value: match h[p].reply {
            Ok((_, out)) => Ok(out),
            Err(e) => Err(e),
        },
    }
}

/// How a git replies to a command, given what is piped to it: the same way
/// every time it is asked.
pub type Answers = spec_fn(Seq<Seq<char>>, Option<Seq<char>>) -> Reply;

/// The replies from `from` up to `to` are those that `answers` gives.
pub open spec fn answered(h: Seq<Exchange>, from: int, to: int, answers: Answers) -> bool {
    forall|i: int|
        from <= i < to ==> (#[trigger] h[i]).reply == answers(h[i].args, h[i].input)
}

/// Minimal seam over the `git` binary, so that tests can substitute a fake.
pub trait Git {
    /// Every command asked so far, with its reply. Only proofs speak of it: an
    /// implementation that is verified says what it is, and one that is not
    /// can leave it out.
    closed spec fn history(&self) -> Seq<Exchange> {
        arbitrary()
    }

    /// Run git with `args`; returns stdout on exit code 0, error otherwise.
    fn run(&mut self, args: &[&str]) -> (r: Result<String, Error>)
        ensures
            final(self).history() == old(self).history().push(
                Exchange { args: args.deep_view(), input: None, reply: run_reply(r) },
            ),
    ;

    /// Run git where a non-zero exit is an expected answer (e.g.
    /// `rev-parse --verify`). Returns `(success, stdout-or-stderr)`.
    fn try_run(&mut self, args: &[&str]) -> (r: Result<(bool, String), Error>)
        ensures
            final(self).history() == old(self).history().push(
                Exchange { args: args.deep_view(), input: None, reply: try_reply(r) },
            ),
    ;

    /// Run git with `input` piped to stdin (e.g. `git patch-id`).
    fn run_with_input(&mut self, args: &[&str], input: &str) -> (r: Result<String, Error>)
        ensures
            final(self).history() == old(self).history().push(
                Exchange { args: args.deep_view(), input: Some(input@), reply: run_reply(r) },
            ),
    ;
}

// ---------------------------------------------------------------------------
// Launching the system git.

/// The arguments with single spaces between them, as they are shown to a
/// user.
pub open spec fn joined(args: Seq<Seq<char>>) -> Seq<char>
    decreases args.len(),
{
    if args.len() == 0 {
        Seq::empty()
    } else if args.len() == 1 {
        args[0]
    } else {
        joined(args.drop_last()) + " "@ + args.last()
    }
}

/// The arguments with single spaces between them.
pub fn join(args: &[&str]) -> (s: String)
    ensures
        s@ == joined(args.deep_view()),
{
    let mut s = String::new();
    let mut i: usize = 0;
    let ghost all = args.deep_view();
    assert(all.take(0) =~= Seq::<Seq<char>>::empty());
    while i < args.len()
        invariant
            i <= args@.len(),
            all == args.deep_view(),
            s@ == joined(all.take(i as int)),
        decreases args@.len() - i,
    {
        if i > 0 {
            s.append(" ");
        }
        s.append(args[i]);
        assert(all.take(i + 1).drop_last() =~= all.take(i as int));
        assert(all.take(i + 1).last() == args@[i as int]@);
        assert(i == 0 ==> Seq::<char>::empty() + args@[0]@ =~= args@[0]@);
        i += 1;
    }
    assert(all.take(i as int) =~= all);
    s
}

/// The repository-selecting variables that every launch clears: an inherited
/// `GIT_DIR` would silently override `-C`.
pub open spec fn cleared_variables() -> Seq<Seq<char>> {
    seq![
        "GIT_DIR"@,
        "GIT_WORK_TREE"@,
        "GIT_INDEX_FILE"@,
        "GIT_COMMON_DIR"@,
        "GIT_OBJECT_DIRECTORY"@,
        "GIT_ALTERNATE_OBJECT_DIRECTORIES"@,
        "GIT_NAMESPACE"@,
    ]
}

/// How one git process is launched.
pub struct Invocation<'a> {
    /// The directory to pass with `-C`, in front of the arguments.
    pub dir: Option<&'a PathBuf>,
    pub args: Vec<String>,
    /// Environment variables the process must not inherit.
    pub cleared: Vec<String>,
    /// Environment variables set for the process.
    pub set: Vec<(String, String)>,
}

/// The system `git`, optionally pointed at a directory.
pub struct SystemGit {
    dir: Option<PathBuf>,
}

impl SystemGit {
    /// The directory git is pointed at.
    pub closed spec fn directory(&self) -> Option<PathBuf> {
        self.dir
    }

    pub fn new(dir: Option<PathBuf>) -> (g: Self)
        ensures
            g.directory() == dir,
    {
        Self { dir }
    }

    /// The launch of git with `args`. Credential prompts are off, so that git
    /// never hangs while the terminal is taken; `fetch` is the exception,
    /// since it runs before that and was asked for.
    pub fn command<'a>(&'a self, args: &[&str]) -> (c: Invocation<'a>)
        ensures
            match self.directory() {
                Some(d) => c.dir == Some(&d),
                None => c.dir is None,
            },
            c.args.deep_view() == args.deep_view(),
            c.cleared.deep_view() == cleared_variables(),
            c.set.deep_view() == if args@.len() > 0 && args@[0]@ == "fetch"@ {
                Seq::<(Seq<char>, Seq<char>)>::empty()
            } else {
                seq![("GIT_TERMINAL_PROMPT"@, "0"@)]
            },
    {
        let mut set: Vec<(String, String)> = Vec::new();
        if args.len() == 0 || !text::same(args[0], "fetch") {
            set.push(("GIT_TERMINAL_PROMPT".to_owned(), "0".to_owned()));
            assert(set.deep_view() =~= seq![("GIT_TERMINAL_PROMPT"@, "0"@)]);
        } else {
            assert(set.deep_view() =~= Seq::<(Seq<char>, Seq<char>)>::empty());
        }
        let dir = match &self.dir {
            Some(d) => Some(d),
            None => None,
        };
        Invocation {
            dir,
            args: strings(args),
            cleared: strings(
                &[
                    "GIT_DIR",
                    "GIT_WORK_TREE",
                    "GIT_INDEX_FILE",
                    "GIT_COMMON_DIR",
                    "GIT_OBJECT_DIRECTORY",
                    "GIT_ALTERNATE_OBJECT_DIRECTORIES",
                    "GIT_NAMESPACE",
                ],
            ),
            set,
        }
    }
}

/// Owned copies of the arguments.
pub fn strings(args: &[&str]) -> (v: Vec<String>)
    ensures
        v.deep_view() == args.deep_view(),
{
    let mut v: Vec<String> = Vec::new();
    let mut i: usize = 0;
    while i < args.len()
        invariant
            i <= args@.len(),
            v@.len() == i,
            forall|k: int| 0 <= k < i ==> (#[trigger] v@[k])@ == args@[k]@,
        decreases args@.len() - i,
    {
        v.push(args[i].to_owned());
        i += 1;
    }
    assert(v.deep_view() =~= args.deep_view());
    v
}

/// Borrowed views of owned arguments.
pub fn borrowed<'a>(args: &'a Vec<String>) -> (v: Vec<&'a str>)
    ensures
        v.deep_view() == args.deep_view(),
{
    let mut v: Vec<&str> = Vec::new();
    let mut i: usize = 0;
    while i < args.len()
        invariant
            i <= args@.len(),
            v@.len() == i,
            forall|k: int| 0 <= k < i ==> (#[trigger] v@[k])@ == args@[k]@,
        decreases args@.len() - i,
    {
        v.push(args[i].as_str());
        i += 1;
    }
    assert(v.deep_view() =~= args.deep_view());
    v
}

/// What is reported of a git that could not be started.
pub open spec fn launch_error(args: Seq<Seq<char>>, cause: Seq<char>) -> ErrorView {
    ErrorView {
        message: "failed to launch `git "@ + joined(args) + "` — is git on PATH?"@,
        cause: Some(cause),
    }
}

/// What is reported of a git that ran and exited badly.
pub open spec fn exit_error(
    args: Seq<Seq<char>>,
    status: Seq<char>,
    stderr: Seq<char>,
) -> ErrorView {
    ErrorView::plain(
        "`git "@ + joined(args) + "` failed ("@ + status + "): "@ + text::trim(stderr),
    )
}

/// The error for a git that could not be started.
pub fn launch_failure(args: &[&str], cause: String) -> (e: Error)
    ensures
        e@ == launch_error(args.deep_view(), cause@),
{
    Error {
        message: "failed to launch `git ".to_owned().concat(join(args).as_str()).concat(
            "` — is git on PATH?",
        ),
        cause: Some(cause),
    }
}

/// What [`Git::run`] makes of a finished process.
pub fn run_outcome(
    args: &[&str],
    success: bool,
    status: &str,
    stdout: String,
    stderr: &str,
) -> (r: Result<String, Error>)
    ensures
        run_reply(r) == if success {
            Ok((true, stdout@))
        } else {
            Err(exit_error(args.deep_view(), status@, stderr@))
        },
{
    if success {
        Ok(stdout)
    } else {
        Err(
            Error::new(
                "`git ".to_owned().concat(join(args).as_str()).concat("` failed (").concat(
                    status,
                ).concat("): ").concat(text::trimmed(stderr).as_str()),
            ),
        )
    }
}

/// What [`Git::try_run`] makes of a finished process: its output on success,
/// what it complained of otherwise.
pub fn try_outcome(success: bool, stdout: String, stderr: String) -> (r: (bool, String))
    ensures
        r.0 == success,
        r.1@ == if success {
            stdout@
        } else {
            stderr@
        },
{
    (
        success,
        if success {
            stdout
        } else {
            stderr
        },
    )
}

} // verus!
