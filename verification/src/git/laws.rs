//! What is told of a git that was launched, and how it is launched.

use vstd::prelude::*;

use crate::git::fake;
use crate::git::{self, Error, ErrorView, Exchange, Invocation, Reading, SystemGit};
use crate::text;

verus! {

/// Arguments are shown in order with one space between two of them.
pub proof fn law_arguments_are_joined_by_spaces(
    first: Seq<Seq<char>>,
    second: Seq<Seq<char>>,
    arg: Seq<char>,
)
    ensures
        git::joined(Seq::empty()).len() == 0,
        git::joined(seq![arg]) == arg,
        first.len() > 0 && second.len() > 0 ==> git::joined(first + second) == git::joined(first)
            + " "@ + git::joined(second),
    decreases second.len(),
{
    if first.len() > 0 && second.len() > 0 {
        let all = first + second;
        assert(all.last() == second.last());
        assert(all.drop_last() =~= first + second.drop_last());
        if second.len() == 1 {
            assert(all.drop_last() =~= first);
            assert(second.last() == second[0]);
        } else {
            law_arguments_are_joined_by_spaces(first, second.drop_last(), arg);
            assert(git::joined(all) =~= git::joined(first) + " "@ + git::joined(second));
        }
    }
}

/// What is told of a git that could not be started, and of one that exited
/// badly: the command, and why.
pub proof fn law_failures_name_the_command(
    args: Seq<Seq<char>>,
    cause: Seq<char>,
    status: Seq<char>,
    stderr: Seq<char>,
)
    ensures
        git::launch_error(args, cause).message == "failed to launch `git "@ + git::joined(args)
            + "` — is git on PATH?"@,
        git::launch_error(args, cause).cause == Some(cause),
        git::exit_error(args, status, stderr).message == "`git "@ + git::joined(args)
            + "` failed ("@ + status + "): "@ + text::trim(stderr),
        git::exit_error(args, status, stderr).cause is None,
{
}

/// An error is told with what lies behind it.
pub proof fn law_errors_tell_their_cause(e: ErrorView)
    ensures
        e.cause is None ==> e.chain() == e.message,
        e.cause is Some ==> e.chain() == e.message + ": "@ + e.cause->Some_0,
{
}

/// No launch inherits a variable that selects another repository.
pub proof fn law_no_other_repository_is_inherited(name: Seq<char>)
    ensures
        git::cleared_variables().contains(name) <==> name == "GIT_DIR"@ || name
            == "GIT_WORK_TREE"@ || name == "GIT_INDEX_FILE"@ || name == "GIT_COMMON_DIR"@ || name
            == "GIT_OBJECT_DIRECTORY"@ || name == "GIT_ALTERNATE_OBJECT_DIRECTORIES"@ || name
            == "GIT_NAMESPACE"@,
{
    let all = git::cleared_variables();
    assert(all[0] == "GIT_DIR"@ && all[1] == "GIT_WORK_TREE"@ && all[2] == "GIT_INDEX_FILE"@
        && all[3] == "GIT_COMMON_DIR"@ && all[4] == "GIT_OBJECT_DIRECTORY"@ && all[5]
        == "GIT_ALTERNATE_OBJECT_DIRECTORIES"@ && all[6] == "GIT_NAMESPACE"@);
}

/// What is meant by a command in a history: that one, where it stands, with
/// nothing piped to it, or with just that.
pub proof fn law_a_command_where_it_stands(
    h: Seq<Exchange>,
    p: int,
    args: Seq<Seq<char>>,
    input: Seq<char>,
)
    ensures
        git::is_ask(h, p, args) <==> 0 <= p < h.len() && h[p].args == args && h[p].input is None,
        git::is_feed(h, p, args, input) <==> 0 <= p < h.len() && h[p].args == args && h[p].input
            == Some(input),
        git::asked(h, h.push(Exchange { args, input: None, reply: h[p].reply }), args),
        git::read_attempt(h, p, args).fits <==> git::is_ask(h, p, args),
        git::read_attempt(h, p, args).end == p + 1,
        git::read_attempt(h, p, args).value == h[p].reply,
        git::read_output(h, p, args).fits <==> git::is_ask(h, p, args),
        git::read_output(h, p, args).end == p + 1,
        h[p].reply is Ok ==> git::read_output(h, p, args).value == Ok::<_, ErrorView>(
            h[p].reply->Ok_0.1,
        ),
        h[p].reply is Err ==> git::read_output(h, p, args).value == Err::<Seq<char>, _>(
            h[p].reply->Err_0,
        ),
{
}

/// What is meant by the telling of a run: nothing that was asked before is
/// touched, what was asked is the whole run and nothing behind it, and what
/// came of it is the outcome.
pub proof fn law_a_run_is_told_in_full<T>(
    r: Reading<T>,
    before: Seq<Exchange>,
    after: Seq<Exchange>,
    outcome: Result<T, ErrorView>,
)
    requires
        r.is_told(before, after, outcome),
    ensures
        before.len() <= after.len(),
        after.take(before.len() as int) == before,
        r.fits,
        r.end == after.len(),
        r.value == outcome,
{
    assert(after.take(before.len() as int) =~= before);
}

/// The fake says what it was asked: that a call was not expected, or that it
/// is canned to fail and with what complaint.
pub proof fn law_the_fake_names_the_call(args: Seq<Seq<char>>, complaint: Seq<char>)
    ensures
        fake::unexpected(args).message == "FakeGit: unexpected call `git "@ + git::joined(args)
            + "`"@,
        fake::unexpected(args).cause is None,
        fake::canned_failure(args, complaint).message == "`git "@ + git::joined(args)
            + "` failed: "@ + complaint,
        fake::canned_failure(args, complaint).cause is None,
{
}

/// A finished process is taken at its exit: a good one is worth what it
/// printed; a bad one is an error where success was owed, and otherwise a no
/// with what it complained of.
pub proof fn law_the_exit_decides(
    args: &[&str],
    success: bool,
    status: &str,
    stdout: String,
    complaint: &str,
    stderr: String,
    r: Result<String, Error>,
    t: (bool, String),
)
    requires
        call_ensures(git::run_outcome, (args, success, status, stdout, complaint), r),
        call_ensures(git::try_outcome, (success, stdout, stderr), t),
    ensures
        success ==> r is Ok && r->Ok_0@ == stdout@,
        !success ==> r is Err && r->Err_0@ == git::exit_error(
            args.deep_view(),
            status@,
            complaint@,
        ),
        t.0 == success,
        success ==> t.1@ == stdout@,
        !success ==> t.1@ == stderr@,
{
}

/// How git is launched: where the user said, with the arguments as they are,
/// cut off from other repositories, and without credential prompts unless it
/// fetches.
pub proof fn law_how_git_is_launched(g: &SystemGit, args: &[&str], c: Invocation<'_>)
    requires
        call_ensures(SystemGit::command, (g, args), c),
    ensures
        c.args.deep_view() == args.deep_view(),
        c.cleared.deep_view() == git::cleared_variables(),
        args@.len() > 0 && args@[0]@ == "fetch"@ ==> c.set.deep_view().len() == 0,
        args@.len() == 0 || args@[0]@ != "fetch"@ ==> c.set.deep_view() == seq![
            ("GIT_TERMINAL_PROMPT"@, "0"@),
        ],
        g.directory() is None ==> c.dir is None,
        g.directory() is Some ==> c.dir == Some(&g.directory()->Some_0),
{
}

/// What a history keeps of a reply is what was handed back.
pub proof fn law_replies_are_kept_as_they_are(
    t: Result<(bool, String), Error>,
    r: Result<String, Error>,
)
    ensures
        t is Ok ==> git::try_reply(t) == Ok::<_, ErrorView>((t->Ok_0.0, t->Ok_0.1@)),
        t is Err ==> git::try_reply(t) == Err::<(bool, Seq<char>), _>(t->Err_0@),
        r is Ok ==> git::run_reply(r) == Ok::<_, ErrorView>((true, r->Ok_0@)),
        r is Err ==> git::run_reply(r) == Err::<(bool, Seq<char>), _>(r->Err_0@),
{
}

} // verus!
