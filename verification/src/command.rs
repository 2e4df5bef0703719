//! The commands that one run of the editor can be given, and what each does
//! to the records.

use crate::errors::{ApplicationError, Failure};
use crate::hostentry::text_of;
use crate::hostfile::{updated, HostFile, Store};
use crate::utils::Modifications;
use vstd::prelude::*;

verus! {

/// One command.
#[derive(Debug)]
pub enum Commands {
    /// Say whether the file can be read, and how many lines it has.
    Verify,
    /// List the file.
    Show,
    /// Add `hostname`, under the address `ip` where one is given.
    Add { hostname: String, ip: Option<String> },
    /// Give the record of `hostname` the address `ip`.
    Replace { hostname: String, ip: Option<String> },
    /// Delete an address or a name.
    Delete { entry: String },
}

/// What one run is given: the file to work on, and the command.
#[derive(Debug)]
pub struct Cli {
    pub file: String,
    pub command: Commands,
}

impl Commands {
    /// Whether the command edits the records, so that the file is written
    /// back once it has succeeded.
    pub open spec fn edits(self) -> bool {
        !(self is Verify || self is Show)
    }

    /// Whether the command edits the records.
    pub fn is_edit(&self) -> (r: bool)
        ensures
            r == self.edits(),
    {
        match self {
            Commands::Verify => false,
            Commands::Show => false,
            _ => true,
        }
    }
}

impl Store {
    /// What `command` makes of the store, with its tally, or why it fails.
    pub open spec fn after(self, command: Commands) -> Result<(Store, Modifications), Failure> {
        match command {
            Commands::Verify => Ok((self, updated(0))),
            Commands::Show => Ok((self, updated(0))),
            Commands::Add { hostname, ip } => self.added(hostname@, text_of(ip)),
            Commands::Replace { hostname, ip } => self.replaced(hostname@, text_of(ip)),
            Commands::Delete { entry } => Ok(
                (
                    self.deleted(entry@),
                    Modifications {
                        updated_entries: self.deleted_updates(entry@) as i32,
                        removed_entries: self.deleted_removals(entry@) as i32,
                        added_entries: 0,
                    },
                ),
            ),
        }
    }
}

impl HostFile {
    /// Carries out `command` on the entries. The two commands that only
    /// look at the file change nothing and count nothing.
    pub fn execute(&mut self, command: Commands) -> (r: Result<Modifications, ApplicationError>)
        requires
            old(self)@.list().len() <= i32::MAX,
        ensures
            match r {
                Ok(m) => old(self)@.after(command) == Ok::<(Store, Modifications), Failure>(
                    (final(self)@, m),
                ),
                Err(e) => old(self)@.after(command) == Err::<(Store, Modifications), Failure>(e@)
                    && final(self)@ == old(self)@,
            },
    {
        match command {
            Commands::Verify => Ok(Modifications::new()),
            Commands::Show => Ok(Modifications::new()),
            Commands::Add { hostname, ip } => self.add(hostname, ip),
            Commands::Replace { hostname, ip } => self.replace(hostname, ip),
            Commands::Delete { entry } => self.delete(entry),
        }
    }
}

} // verus!
