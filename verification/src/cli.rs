//! What the command line asks for.

use std::path::PathBuf;
use vstd::prelude::*;

verus! {

/// The shells that completions can be written for.
#[derive(Debug, Clone, Copy, PartialEq, Eq, Structural)]
pub enum Shell {
    Bash,
    Elvish,
    Fish,
    PowerShell,
    Zsh,
}

/// The flags of one invocation.
#[derive(Debug)]
pub struct Cli {
    /// Base branch to compare against.
    pub base: Option<String>,
    /// Print candidates and exit without deleting.
    pub list: bool,
    /// Machine-readable output (implies `list` unless combined with `yes`).
    pub json: bool,
    /// Delete all default-selected candidates without the TUI.
    pub yes: bool,
    /// Also delete the remote counterpart of each deleted branch.
    pub remote: bool,
    /// With `yes`: also delete branches whose upstream is gone.
    pub include_gone: bool,
    /// Extra protected branch names or globs.
    pub protect: Vec<String>,
    /// Run `git fetch --prune` before scanning.
    pub fetch: bool,
    /// Run as if started here.
    pub dir: Option<PathBuf>,
    /// Ignore and do not update the verdict cache.
    pub no_cache: bool,
    /// Print a completion script and exit.
    pub completions: Option<Shell>,
    /// Print the man page and exit.
    pub man: bool,
}

/// What an invocation does.
#[derive(Debug, Clone, Copy, PartialEq, Eq, Structural)]
pub enum Mode {
    /// Print a completion script or man page; never touches a repository.
    Generate,
    /// Interactive TUI (default in a terminal).
    Tui,
    /// Read-only listing, human or JSON.
    List,
    /// Non-interactive deletion (--yes).
    Execute,
}

impl Cli {
    /// What the flags ask for, in a terminal or outside of one.
    pub open spec fn mode_in(self, tty: bool) -> Mode {
        if self.completions is Some || self.man {
            Mode::Generate
        } else if self.yes {
            Mode::Execute
        } else if self.list || self.json || !tty {
            Mode::List
        } else {
            Mode::Tui
        }
    }

    /// What the flags ask for, in a terminal or outside of one.
    pub fn mode_with(&self, tty: bool) -> (m: Mode)
        ensures
            m == self.mode_in(tty),
    {
        if self.completions.is_some() || self.man {
            Mode::Generate
        } else if self.yes {
            Mode::Execute
        } else if self.list || self.json || !tty {
            Mode::List
        } else {
            Mode::Tui
        }
    }
}

/// Nothing is deleted unless it was asked for: outside a terminal only `--yes`
/// leads to deletions, and the TUI never opens there.
pub proof fn law_no_terminal_no_questions(cli: Cli)
    ensures
        cli.mode_in(false) != Mode::Tui,
        cli.mode_in(false) == Mode::Execute ==> cli.yes,
        cli.mode_in(true) == Mode::Execute <==> cli.mode_in(false) == Mode::Execute,
        cli.mode_in(true) == Mode::Generate <==> cli.mode_in(false) == Mode::Generate,
{
}

/// What a combination of flags leads to: generated text before everything
/// else, then deletion without questions, then the listing wherever it was
/// asked for or nobody could be asked, and the TUI only in a terminal.
pub proof fn law_flags_pick_the_mode(cli: Cli, tty: bool)
    ensures
        cli.mode_in(tty) == Mode::Generate <==> cli.completions is Some || cli.man,
        cli.mode_in(tty) == Mode::Execute <==> cli.yes && cli.completions is None && !cli.man,
        cli.mode_in(tty) == Mode::Tui <==> tty && !cli.yes && !cli.list && !cli.json
            && cli.completions is None && !cli.man,
{
}

} // verus!
