//! The command surface's data model and its decision tables.
//!
//! The command bodies — prompting, printing, deleting files — are thin
//! plumbing that the embedding application performs; what is decided here is
//! how an invocation obtains the key it operates on.

use vstd::prelude::*;
use crate::persistence_key::PersistenceKey;

verus! {

/// The options every command receives.
#[derive(Debug)]
pub struct GlobalArgs {
    /// Whether the invocation may prompt the user.
    pub interactive: bool,
}

/// Lists the known configurations with their paths and last accesses.
#[derive(Debug)]
pub struct ListCommand {}

/// Shows one configuration's key, last access and resolved path.
#[derive(Debug)]
pub struct ShowCommand {
    /// The key to show, parsed from its JSON text.
    pub key: Option<PersistenceKey>,
}

/// Deletes configuration files and removes their index entries.
#[derive(Debug)]
pub struct CleanCommand {
    /// The key to remove, parsed from its JSON text.
    pub key: Option<PersistenceKey>,
}

/// Drops index entries whose backing file no longer exists.
#[derive(Debug)]
pub struct PruneCommand {}

/// The top-level commands.
#[derive(Debug)]
pub enum Command {
    List(ListCommand),
    Show(ShowCommand),
    Clean(CleanCommand),
    Prune(PruneCommand),
}

/// A full invocation.
#[derive(Debug)]
pub struct Args {
    pub global: GlobalArgs,
    pub command: Command,
}

/// How a command that operates on one configuration obtains its key.
#[derive(Debug)]
pub enum KeySelection {
    /// An explicit key was given: use it as it is.
    Chosen(PersistenceKey),
    /// No key, but the session is interactive: prompt a pick from the index.
    PromptUser,
    /// No key and no interactivity: the invocation fails.
    MissingKey,
}

impl ShowCommand {
    /// The decision table of `show`: an explicit key wins; without one, an
    /// interactive session prompts and a non-interactive one fails.
    pub fn select_target(self, interactive: bool) -> (r: KeySelection)
        ensures
            self.key matches Some(k) ==> r == KeySelection::Chosen(k),
            self.key is None && interactive ==> r is PromptUser,
            self.key is None && !interactive ==> r is MissingKey,
    {
        match self.key {
            Some(k) => KeySelection::Chosen(k),
            None => if interactive {
                KeySelection::PromptUser
            } else {
                KeySelection::MissingKey
            },
        }
    }
}

impl CleanCommand {
    /// The decision table of `clean`: the same as `show`'s.
    pub fn select_target(self, interactive: bool) -> (r: KeySelection)
        ensures
            self.key matches Some(k) ==> r == KeySelection::Chosen(k),
            self.key is None && interactive ==> r is PromptUser,
            self.key is None && !interactive ==> r is MissingKey,
    {
        match self.key {
            Some(k) => KeySelection::Chosen(k),
            None => if interactive {
                KeySelection::PromptUser
            } else {
                KeySelection::MissingKey
            },
        }
    }
}

} // verus!
