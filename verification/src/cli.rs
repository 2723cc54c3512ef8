//! What the command line asks for.

use vstd::prelude::*;

use crate::engine;

verus! {

/// A command line.
#[derive(Debug, PartialEq)]
pub struct Cli {
    pub command: Command,
}

/// What to do about a workspace whose label already exists.
#[derive(Debug, Clone, Copy, PartialEq, Eq, Structural)]
pub enum OnExistingArg {
    /// Build the layout anyway, producing a second workspace with the same
    /// label.
    Create,
    /// Leave an existing workspace untouched and build nothing for it.
    Skip,
    /// Keep an existing workspace and add only the tabs it is missing, matched
    /// by label.
    Sync,
}

impl Default for OnExistingArg {
    fn default() -> (arg: Self)
        ensures
            arg == OnExistingArg::Create,
    {
        OnExistingArg::Create
    }
}

/// The policy that an argument names.
pub open spec fn policy(arg: OnExistingArg) -> engine::OnExisting {
    match arg {
        OnExistingArg::Create => engine::OnExisting::Create,
        OnExistingArg::Skip => engine::OnExisting::Skip,
        OnExistingArg::Sync => engine::OnExisting::Sync,
    }
}

impl From<OnExistingArg> for engine::OnExisting {
    fn from(value: OnExistingArg) -> (r: engine::OnExisting) {
        match value {
            OnExistingArg::Create => engine::OnExisting::Create,
            OnExistingArg::Skip => engine::OnExisting::Skip,
            OnExistingArg::Sync => engine::OnExisting::Sync,
        }
    }
}

impl vstd::std_specs::convert::FromSpecImpl<OnExistingArg> for engine::OnExisting {
    open spec fn obeys_from_spec() -> bool {
        true
    }

    open spec fn from_spec(value: OnExistingArg) -> engine::OnExisting {
        policy(value)
    }
}

/// What to do.
#[derive(Debug, PartialEq)]
pub enum Command {
    /// Build a layout.
    Apply {
        /// The layout file, if one is named.
        file: Option<String>,
        /// Whether only to show what would be done.
        dry_run: bool,
        /// What to do about a workspace whose label already exists.
        on_existing: OnExistingArg,
    },
}

/// An argument names the policy that is called as it is.
pub proof fn law_arguments_name_their_policy(arg: OnExistingArg)
    ensures
        (arg is Create) == (policy(arg) is Create),
        (arg is Skip) == (policy(arg) is Skip),
        (arg is Sync) == (policy(arg) is Sync),
{
}

} // verus!
