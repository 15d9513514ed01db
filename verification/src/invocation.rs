//! What the program is asked to do, read from its arguments.

use vstd::prelude::*;
use crate::text::{join, joined, same_text};

verus! {

/// The model of [`Invocation`].
pub ghost enum Request {
    /// No argument: read lines until the input ends.
    Interactive,
    /// The arguments spell the refresh token: rebuild the catalog.
    Refresh,
    /// Resolve the arguments, joined by single spaces, once.
    Resolve { input: Seq<char> },
}

/// What the program is asked to do.
#[derive(Clone, Debug, PartialEq, Eq)]
pub enum Invocation {
    /// No argument: read lines until the input ends.
    Interactive,
    /// The arguments spell the refresh token: rebuild the catalog.
    Refresh,
    /// Resolve the arguments, joined by single spaces, once.
    Resolve { input: String },
}

impl View for Invocation {
    type V = Request;

    open spec fn view(&self) -> Request {
        match self {
            Invocation::Interactive => Request::Interactive,
            Invocation::Refresh => Request::Refresh,
            Invocation::Resolve { input } => Request::Resolve { input: input@ },
        }
    }
}

/// The argument that asks for the catalog to be rebuilt.
pub open spec fn refresh_token() -> Seq<char> {
    seq!['-', '-', 'u', 'p', 'd', 'a', 't', 'e']
}

/// What `arguments`, the arguments behind the program's name, ask for.
pub open spec fn requested(arguments: Seq<Seq<char>>) -> Request {
    if arguments.len() == 0 {
        Request::Interactive
    } else if joined(arguments, seq![' ']) == refresh_token() {
        Request::Refresh
    } else {
        Request::Resolve { input: joined(arguments, seq![' ']) }
    }
}

/// Reads what the program is asked to do from `arguments`, the arguments
/// behind the program's name.
pub fn invocation(arguments: &Vec<String>) -> (asked: Invocation)
    ensures
        asked@ == requested(arguments.deep_view()),
{
    if arguments.len() == 0 {
        return Invocation::Interactive;
    }
    proof {
        reveal_strlit(" ");
        reveal_strlit("--update");
        assert(" "@ =~= seq![' ']);
        assert("--update"@ =~= refresh_token());
    }
    let input = join(arguments, " ");
    if same_text(input.as_str(), "--update") {
        Invocation::Refresh
    } else {
        Invocation::Resolve { input }
    }
}

} // verus!
