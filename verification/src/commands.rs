//! A command template with its description.

use vstd::prelude::*;

verus! {

/// One entry of the catalog: a command template and what it does.
#[derive(Clone, Debug, PartialEq, Eq)]
pub struct Command {
    /// The template: what is run in the shell once its placeholders are
    /// filled.
    pub name: String,
    /// A short description of what the command does.
    pub description: String,
}

impl View for Command {
    type V = (Seq<char>, Seq<char>);

    open spec fn view(&self) -> (Seq<char>, Seq<char>) {
        (self.name@, self.description@)
    }
}

impl DeepView for Command {
    type V = (Seq<char>, Seq<char>);

    open spec fn deep_view(&self) -> (Seq<char>, Seq<char>) {
        self@
    }
}

impl Command {
    /// A command with the given template and description.
    pub fn new(name: &str, description: &str) -> (command: Command)
        ensures
            command@ == (name@, description@),
    {
        Command { name: name.to_owned(), description: description.to_owned() }
    }

    /// The template and the description as a pair of their own.
    pub fn to_pair(&self) -> (pair: (String, String))
        ensures
            pair.deep_view() == self@,
    {
        (self.name.clone(), self.description.clone())
    }
}

} // verus!
