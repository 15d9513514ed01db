//! What the executor does with a command line, decided before anything is
//! run.

use vstd::prelude::*;
use crate::text::{same_text, split_whitespace, words};

verus! {

/// The model of [`Execution`].
pub ghost enum Plan {
    /// The line holds no word: there is nothing to run.
    Invalid,
    /// `cd`: change the working directory to `path`.
    ChangeDirectory { path: Seq<char> },
    /// `exit`: nothing is run.
    Exit,
    /// Any other first word: start `program` with `arguments` and wait for
    /// it.
    Spawn { program: Seq<char>, arguments: Seq<Seq<char>> },
}

/// What running a command line comes to.
#[derive(Clone, Debug, PartialEq, Eq)]
pub enum Execution {
    /// The line holds no word: there is nothing to run.
    Invalid,
    /// `cd`: change the working directory to `path`.
    ChangeDirectory { path: String },
    /// `exit`: nothing is run.
    Exit,
    /// Any other first word: start `program` with `arguments` and wait for
    /// it.
    Spawn { program: String, arguments: Vec<String> },
}

impl View for Execution {
    type V = Plan;

    open spec fn view(&self) -> Plan {
        match self {
            Execution::Invalid => Plan::Invalid,
            Execution::ChangeDirectory { path } => Plan::ChangeDirectory { path: path@ },
            Execution::Exit => Plan::Exit,
            Execution::Spawn { program, arguments } => Plan::Spawn {
                program: program@,
                arguments: arguments.deep_view(),
            },
        }
    }
}

/// What running `command` comes to. The first word decides: `cd` changes
/// the directory to the second word, or to `/` where there is none; `exit`
/// does nothing; any other word names the program, the words after it its
/// arguments.
pub open spec fn planned(command: Seq<char>) -> Plan {
    let parts = words(command);
    if parts.len() == 0 {
        Plan::Invalid
    } else if parts[0] == seq!['c', 'd'] {
        Plan::ChangeDirectory {
            path: if parts.len() > 1 {
                parts[1]
            } else {
                seq!['/']
            },
        }
    } else if parts[0] == seq!['e', 'x', 'i', 't'] {
        Plan::Exit
    } else {
        Plan::Spawn { program: parts[0], arguments: parts.skip(1) }
    }
}

/// Decides how command lines are run.
pub struct CommandExecutor {}

impl CommandExecutor {
    /// An executor.
    pub fn new() -> (executor: CommandExecutor) {
        CommandExecutor {  }
    }

    /// Decides what running `command` comes to, without running anything.
    pub fn plan(&self, command: &str) -> (execution: Execution)
        ensures
            execution@ == planned(command@),
    {
        proof {
            reveal_strlit("cd");
            reveal_strlit("exit");
            reveal_strlit("/");
            assert("cd"@ =~= seq!['c', 'd']);
            assert("exit"@ =~= seq!['e', 'x', 'i', 't']);
            assert("/"@ =~= seq!['/']);
        }
        let mut parts = split_whitespace(command);
        let ghost all = parts.deep_view();
        if parts.len() == 0 {
            return Execution::Invalid;
        }
        assert(all[0] == parts@[0]@);
        if same_text(parts[0].as_str(), "cd") {
            if parts.len() > 1 {
                assert(all[1] == parts@[1]@);
                Execution::ChangeDirectory { path: parts[1].clone() }
            } else {
                Execution::ChangeDirectory { path: "/".to_owned() }
            }
        } else if same_text(parts[0].as_str(), "exit") {
            Execution::Exit
        } else {
            let program = parts.remove(0);
            assert(parts.deep_view() =~= all.skip(1));
            Execution::Spawn { program, arguments: parts }
        }
    }
}

} // verus!
