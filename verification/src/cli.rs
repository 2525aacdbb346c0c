//! The command line: the commands and their arguments, as plain values.
use vstd::prelude::*;

verus! {

/// The whole command line.
#[derive(Debug, Clone, PartialEq, Eq)]
pub struct Cli {
    pub version_flag: Option<bool>,
    pub command: Option<Command>,
}

/// The command to run; none means the interactive view.
#[derive(Debug, Clone, PartialEq, Eq)]
pub enum Command {
    Open(OpenArgs),
    List(ListArgs),
    Add(AddArgs),
    Remove(RemoveArgs),
    Manage,
}

/// Open a link by primary name or alias, or every link with a tag.
#[derive(Debug, Clone, PartialEq, Eq)]
pub struct OpenArgs {
    pub name: Option<String>,
    pub tag: Option<String>,
}

/// List the links, or those with a tag.
#[derive(Debug, Clone, PartialEq, Eq)]
pub struct ListArgs {
    pub tag: Option<String>,
}

/// Add a link, or replace one with `force`.
#[derive(Debug, Clone, PartialEq, Eq)]
pub struct AddArgs {
    pub primary: String,
    pub url: String,
    pub aliases: Vec<String>,
    pub tags: Vec<String>,
    pub note: Option<String>,
    pub force: bool,
}

/// Remove a link by primary name.
#[derive(Debug, Clone, PartialEq, Eq)]
pub struct RemoveArgs {
    pub primary: String,
}

} // verus!
