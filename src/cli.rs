//! The four verbs of the command line and what each one asks of the program.

use vstd::prelude::*;
use vstd::string::StringExecFns;
use crate::resolve::{
    add_alias, alias_lines, command_line, file_name_of, key_of, listing, no_aliases_text,
    resolve_command, texts,
};
use crate::store::{lookup, removed, upserted, AliasStore};

verus! {

/// The parsed command line.
pub struct Arguments {
    pub command: Command,
}

/// One verb with its operands.
pub enum Command {
    /// Run the path stored under `cmd` with `args` appended.
    Call { cmd: String, args: Vec<String> },
    /// Register `path` under the key derived from its file name.
    Add { path: String },
    /// Forget the alias `cmd`.
    Remove { cmd: String },
    /// Show every alias.
    List,
}

/// What the program does after a verb has been applied to the table.
pub enum Plan {
    /// Run this shell command line interactively.
    Run(String),
    /// Show this message; the table is unchanged.
    Report(String),
    /// Save the changed table, then show this message.
    Save(String),
}

pub const NOT_FOUND_MSG: &'static str = "Command not found in DB: ";
pub const ADDED_MSG: &'static str = "Application successfully added to db under proxy: ";
pub const NO_KEY_MSG: &'static str = "Could not insert command: ";
pub const REMOVED_MSG: &'static str = "Command successfully removed from db: ";

fn message(head: &'static str, tail: &str) -> (r: String)
    ensures
        r@ == head@ + tail@,
{
    let mut m = String::from_str(head);
    m.append(tail);
    m
}

/// Applies a verb to the table and says what is left to do.
pub fn plan(store: &mut AliasStore, command: Command) -> (r: Plan)
    requires
        old(store).well_formed(),
    ensures
        final(store).well_formed(),
        match command {
            Command::Call { cmd, args } => final(store)@ == old(store)@ && match lookup(
                old(store)@,
                cmd@,
            ) {
                None => r is Report && r->Report_0@ == NOT_FOUND_MSG@ + cmd@,
                Some(p) => r is Run && r->Run_0@ == command_line(p, texts(args@)),
            },
            Command::Add { path } => match file_name_of(path@) {
                None => final(store)@ == old(store)@ && r is Report && r->Report_0@
                    == NO_KEY_MSG@ + path@,
                Some(n) => final(store)@ == upserted(old(store)@, key_of(n), path@) && r is Save
                    && r->Save_0@ == ADDED_MSG@ + key_of(n),
            },
            Command::Remove { cmd } => final(store)@ == removed(old(store)@, cmd@) && r is Save
                && r->Save_0@ == REMOVED_MSG@ + cmd@,
            Command::List => final(store)@ == old(store)@ && r is Report && (old(store)@.len() == 0
                ==> r->Report_0@ == no_aliases_text()) && (old(store)@.len() > 0
                ==> r->Report_0@ == alias_lines(old(store)@)),
        },
{
    match command {
        Command::Call { cmd, args } => match resolve_command(store, cmd.as_str(), &args) {
            Ok(line) => Plan::Run(line),
            Err(_) => Plan::Report(message(NOT_FOUND_MSG, cmd.as_str())),
        },
        Command::Add { path } => match add_alias(store, path.as_str()) {
            Some(key) => Plan::Save(message(ADDED_MSG, key.as_str())),
            None => Plan::Report(message(NO_KEY_MSG, path.as_str())),
        },
        Command::Remove { cmd } => {
            store.remove(cmd.as_str());
            Plan::Save(message(REMOVED_MSG, cmd.as_str()))
        },
        Command::List => Plan::Report(listing(store)),
    }
}

} // verus!
