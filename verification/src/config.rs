//! Repository-level settings, read from `git config`.
//!
//! git config is the only settings store on purpose: it is what users already
//! know, it already supports per-repo and global scopes, and it means there
//! is no bespoke file format to document or parse.

use vstd::prelude::*;

use crate::git::{self, Git, Reply};
use crate::text;

verus! {

/// Upper bound on scan workers. Each one forks `git` subprocesses, so an
/// unbounded value from config would fork-bomb a big repository rather than
/// speed it up.
pub const MAX_JOBS: usize = 8;

/// Asks for a single-valued config key.
pub open spec fn get_args(key: Seq<char>) -> Seq<Seq<char>> {
    seq!["config"@, "--get"@, key]
}

/// What a reply says of a key: None when it is unset or empty.
pub open spec fn value_in(reply: Reply) -> Option<Seq<char>> {
    match reply {
        Ok((true, out)) => if text::trim(out).len() > 0 {
            Some(text::trim(out))
        } else {
            None
        },
        _ => None,
    }
}

/// A number of workers from 1 to [`MAX_JOBS`].
pub open spec fn clamped(n: usize) -> usize {
    if n < 1 {
        1
    } else if n > MAX_JOBS {
        MAX_JOBS
    } else {
        n
    }
}

/// The workers that a configured value asks for. Values that cannot mean
/// anything sensible (0, negative, garbage) fall back to the machine's own
/// parallelism rather than failing the scan over a setting.
pub open spec fn jobs_from(value: Option<Seq<char>>, available: usize) -> usize {
    match value {
        Some(v) => match text::parse_usize(v) {
            Some(n) if n > 0 => clamped(n),
            _ => clamped(available),
        },
        None => clamped(available),
    }
}

/// What git itself takes for a boolean.
pub open spec fn truth(raw: Seq<char>) -> Option<bool> {
    let v = text::lower(raw);
    if v == "true"@ || v == "yes"@ || v == "on"@ || v == "1"@ {
        Some(true)
    } else if v == "false"@ || v == "no"@ || v == "off"@ || v == "0"@ {
        Some(false)
    } else {
        None
    }
}

/// Whether a configured value leaves the panel on: anything but an explicit
/// no.
pub open spec fn preview_from(value: Option<Seq<char>>) -> bool {
    match value {
        Some(v) => truth(v) != Some(false),
        None => true,
    }
}

/// Worker threads for the scan: `barber.jobs`, else the machine's
/// parallelism (`available`), capped at [`MAX_JOBS`] and never below 1.
pub fn jobs<G: Git>(git: &mut G, available: usize) -> (n: usize)
    ensures
        git::asked(old(git).history(), final(git).history(), get_args("barber.jobs"@)),
        n == jobs_from(value_in(final(git).history().last().reply), available),
        1 <= n <= MAX_JOBS,
{
    let configured = match get(git, "barber.jobs") {
        Some(v) => text::read_usize(v.as_str()),
        None => None,
    };
    let n: usize = match configured {
        Some(n) => if n > 0 {
            n
        } else {
            available
        },
        None => available,
    };
    if n < 1 {
        1
    } else if n > MAX_JOBS {
        MAX_JOBS
    } else {
        n
    }
}

/// Whether the TUI opens with the commit-preview panel showing:
/// `barber.preview`, on unless explicitly disabled.
pub fn preview<G: Git>(git: &mut G) -> (on: bool)
    ensures
        git::asked(old(git).history(), final(git).history(), get_args("barber.preview"@)),
        on == preview_from(value_in(final(git).history().last().reply)),
{
    match get(git, "barber.preview") {
        Some(v) => match bool_value(v.as_str()) {
            Some(on) => on,
            None => true,
        },
        None => true,
    }
}

/// git's own boolean spelling, parsed here rather than via
/// `git config --type=bool` so that a git too old for `--type` still honours
/// the setting instead of silently ignoring it.
pub fn bool_value(raw: &str) -> (r: Option<bool>)
    ensures
        r == truth(raw@),
{
    let v = text::lowered(raw);
    let v = v.as_str();
    if text::same(v, "true") || text::same(v, "yes") || text::same(v, "on") || text::same(v, "1") {
        Some(true)
    } else if text::same(v, "false") || text::same(v, "no") || text::same(v, "off") || text::same(
        v,
        "0",
    ) {
        Some(false)
    } else {
        None
    }
}

/// A single-valued config key, or None when unset or empty.
pub fn get<G: Git>(git: &mut G, key: &str) -> (r: Option<String>)
    ensures
        git::asked(old(git).history(), final(git).history(), get_args(key@)),
        r.deep_view() == value_in(final(git).history().last().reply),
{
    let reply = git.try_run(&["config", "--get", key]);
    assert(git.history().last().args =~= get_args(key@));
    match reply {
        Ok((true, out)) => {
            let v = text::trimmed(out.as_str());
            if v.as_str().is_empty() {
                None
            } else {
                Some(v)
            }
        },
        _ => None,
    }
}

/// A setting is what git prints for its key, without the whitespace around it;
/// a key that is unset, empty, or cannot be asked for says nothing.
pub proof fn law_settings_are_read_plainly(reply: Reply, key: Seq<char>)
    ensures
        get_args(key) == seq!["config"@, "--get"@, key],
        value_in(reply) is Some <==> reply is Ok && reply->Ok_0.0 && !text::blank(
            reply->Ok_0.1,
        ),
        value_in(reply) is Some ==> value_in(reply)->Some_0 == text::trim(reply->Ok_0.1),
{
    if let Ok((_, out)) = reply {
        text::laws::law_blank_text_trims_to_nothing(out);
    }
}

/// A configured number of workers from one to eight is taken as it is, a
/// larger one is cut to eight, and anything else, zero included, leaves it to
/// the machine: as many as it has, from one to eight.
pub proof fn law_jobs_are_as_configured(value: Option<Seq<char>>, available: usize)
    ensures
        MAX_JOBS == 8,
        ({
            let n = jobs_from(value, available);
            let asked = match value {
                Some(v) => match text::parse_usize(v) {
                    Some(k) => k as int,
                    None => 0,
                },
                None => 0,
            };
            &&& 1 <= n <= 8
            &&& 1 <= asked <= 8 ==> n == asked
            &&& asked > 8 ==> n == 8
            &&& asked == 0 && 1 <= available <= 8 ==> n == available
            &&& asked == 0 && available > 8 ==> n == 8
            &&& asked == 0 && available == 0 ==> n == 1
        }),
{
}

/// The panel is on unless the setting is one of git's words for no, in
/// whatever case; a word that git does not know leaves it on.
pub proof fn law_only_a_no_closes_the_panel(value: Option<Seq<char>>)
    ensures
        !preview_from(value) <==> value is Some && ({
            let v = text::lower(value->Some_0);
            v == "false"@ || v == "no"@ || v == "off"@ || v == "0"@
        }),
        forall|raw: Seq<char>| #[trigger]
            truth(raw) == Some(true) <==> ({
                let v = text::lower(raw);
                v == "true"@ || v == "yes"@ || v == "on"@ || v == "1"@
            }),
        forall|raw: Seq<char>| #[trigger]
            truth(raw) == Some(false) <==> ({
                let v = text::lower(raw);
                v == "false"@ || v == "no"@ || v == "off"@ || v == "0"@
            }),
{
    reveal_strlit("true");
    reveal_strlit("yes");
    reveal_strlit("on");
    reveal_strlit("1");
    reveal_strlit("false");
    reveal_strlit("no");
    reveal_strlit("off");
    reveal_strlit("0");
    assert("true"@.len() == 4 && "yes"@.len() == 3 && "on"@.len() == 2 && "1"@.len() == 1);
    assert("false"@.len() == 5 && "off"@.len() == 3 && "no"@.len() == 2 && "0"@.len() == 1);
    assert("yes"@[0] == 'y' && "off"@[0] == 'o');
    assert("on"@[0] == 'o' && "no"@[0] == 'n');
    assert("1"@[0] == '1' && "0"@[0] == '0');
    assert("yes"@ != "off"@ && "on"@ != "no"@ && "1"@ != "0"@);
}

/// The settings are asked for under their names, once, and read as they are
/// configured.
pub proof fn law_settings_are_asked_by_name<G: Git>(
    git: &mut G,
    panel: &mut G,
    available: usize,
    n: usize,
    on: bool,
)
    requires
        call_ensures(jobs::<G>, (git, available), n),
        call_ensures(preview::<G>, (panel,), on),
    ensures
        final(git).history().len() == old(git).history().len() + 1,
        final(git).history().last().args == seq!["config"@, "--get"@, "barber.jobs"@],
        n == jobs_from(value_in(final(git).history().last().reply), available),
        final(panel).history().len() == old(panel).history().len() + 1,
        final(panel).history().last().args == seq!["config"@, "--get"@, "barber.preview"@],
        on == preview_from(value_in(final(panel).history().last().reply)),
{
}

} // verus!
