//! The command-line surface: the subcommands and what each selects.  A host
//! program parses the actual arguments and hands them over as these types.

use vstd::prelude::*;

use crate::parse::{parse_skips, parse_skips_spec};
use crate::sweep::SweepParams;

verus! {

/// The parsed command line: one subcommand per sweep action.
pub struct Cli {
    pub command: CommandKind,
}

/// The four entry actions of the tool.
pub enum CommandKind {
    /// Preview the remote branches that a cleanup would delete.
    Preview { origin: String, master: String, nofetch: bool, skips: String },
    /// Delete merged branches from the remote.
    Cleanup { force: bool, origin: String, master: String, nofetch: bool, skips: String },
    /// Preview the local branches that a cleanup would delete.
    PreviewLocal { master: String, skips: String },
    /// Delete merged local branches.
    CleanupLocal { force: bool, master: String, skips: String },
}

/// The remote commands must first make sure they run inside a repository;
/// the local commands skip that check.
pub fn requires_repo_check(c: &CommandKind) -> (r: bool)
    ensures
        r == !(c is PreviewLocal || c is CleanupLocal),
{
    match c {
        CommandKind::Preview { .. } | CommandKind::Cleanup { .. } => true,
        CommandKind::PreviewLocal { .. } | CommandKind::CleanupLocal { .. } => false,
    }
}

/// The sweep parameters each command selects.  The comma-separated skip list
/// is parsed here; a preview is a dry run, a cleanup is not.
pub fn params_for(c: CommandKind) -> (p: SweepParams)
    ensures
        match c {
            CommandKind::Preview { origin, master, nofetch, skips } => {
                &&& p.remote
                &&& p.dry_run
                &&& !p.force
                &&& p.origin@ == origin@
                &&& p.master@ == master@
                &&& p.fetch == !nofetch
                &&& p.skips.deep_view() == parse_skips_spec(skips@)
            },
            CommandKind::Cleanup { force, origin, master, nofetch, skips } => {
                &&& p.remote
                &&& !p.dry_run
                &&& p.force == force
                &&& p.origin@ == origin@
                &&& p.master@ == master@
                &&& p.fetch == !nofetch
                &&& p.skips.deep_view() == parse_skips_spec(skips@)
            },
            CommandKind::PreviewLocal { master, skips } => {
                &&& !p.remote
                &&& p.dry_run
                &&& !p.force
                &&& !p.fetch
                &&& p.master@ == master@
                &&& p.skips.deep_view() == parse_skips_spec(skips@)
            },
            CommandKind::CleanupLocal { force, master, skips } => {
                &&& !p.remote
                &&& !p.dry_run
                &&& p.force == force
                &&& !p.fetch
                &&& p.master@ == master@
                &&& p.skips.deep_view() == parse_skips_spec(skips@)
            },
        },
{
    match c {
        CommandKind::Preview { origin, master, nofetch, skips } => SweepParams {
            remote: true,
            origin,
            master,
            fetch: !nofetch,
            skips: parse_skips(skips.as_str()),
            dry_run: true,
            force: false,
        },
        CommandKind::Cleanup { force, origin, master, nofetch, skips } => SweepParams {
            remote: true,
            origin,
            master,
            fetch: !nofetch,
            skips: parse_skips(skips.as_str()),
            dry_run: false,
            force,
        },
        CommandKind::PreviewLocal { master, skips } => SweepParams {
            remote: false,
            origin: String::new(),
            master,
            fetch: false,
            skips: parse_skips(skips.as_str()),
            dry_run: true,
            force: false,
        },
        CommandKind::CleanupLocal { force, master, skips } => SweepParams {
            remote: false,
            origin: String::new(),
            master,
            fetch: false,
            skips: parse_skips(skips.as_str()),
            dry_run: false,
            force,
        },
    }
}

} // verus!
