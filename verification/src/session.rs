//! The decisions of one resolution, from the input line to the command that
//! is handed to the executor.
//!
//! The library decides, its host acts: each function returns the [`Step`]
//! that the host has to take next (show a menu, ask for a value, ask for
//! confirmation, run a command), and the host hands back the user's
//! [`Reply`] to [`advance`]. Nothing is run but what passed the
//! confirmation.

use vstd::prelude::*;
use crate::catalog::{prefix_matches, substring_matches, Catalog, Entry};
use crate::filler::{
    filled, lemma_empty_answer_cancels, lemma_filled_characterised,
    lemma_no_placeholder_gives_the_words_back, replace_input_string, Filled, Filling,
};
use crate::resolver::{
    candidates_of, entries_of, filter_matching_commands, lemma_survivors_point_within,
    progressive_search, string_to_words_arr, survivors,
};
use crate::text::{joined, split_whitespace, words};
use crate::token::slot;

verus! {

/// The model of [`Step`].
pub ghost enum Stage {
    /// Nothing is left to do for this line.
    Done,
    /// The user has to pick one of several candidates.
    Choose { candidates: Seq<Entry>, input: Seq<char> },
    /// The user has to give the value of a placeholder.
    Ask {
        tokens: Seq<Seq<char>>,
        answers: Seq<Seq<char>>,
        description: Seq<char>,
        label: Seq<char>,
    },
    /// The user has to confirm the finished command.
    Confirm { command: Seq<char>, description: Seq<char> },
    /// Nothing matched; the user may have the input run as it is.
    Unmatched { input: Seq<char> },
    /// The command is to be run.
    Execute { command: Seq<char> },
}

/// What the host has to do next.
#[derive(Clone, Debug, PartialEq, Eq)]
pub enum Step {
    /// Nothing is left to do for this line.
    Done,
    /// Show the candidates, highlighted against `input`, and ask for one.
    Choose { candidates: Vec<(String, String)>, input: String },
    /// Ask for the value of the placeholder with this label. `tokens` are
    /// the words of the chosen template, `answers` the values given so far.
    Ask { tokens: Vec<String>, answers: Vec<String>, description: String, label: String },
    /// Show the description and the finished command, and ask whether to
    /// run it.
    Confirm { command: String, description: String },
    /// Say that nothing matched, and ask whether to run the input as it is.
    Unmatched { input: String },
    /// Hand the command to the executor.
    Execute { command: String },
}

impl View for Step {
    type V = Stage;

    open spec fn view(&self) -> Stage {
        match self {
            Step::Done => Stage::Done,
            Step::Choose { candidates, input } => Stage::Choose {
                candidates: candidates.deep_view(),
                input: input@,
            },
            Step::Ask { tokens, answers, description, label } => Stage::Ask {
                tokens: tokens.deep_view(),
                answers: answers.deep_view(),
                description: description@,
                label: label@,
            },
            Step::Confirm { command, description } => Stage::Confirm {
                command: command@,
                description: description@,
            },
            Step::Unmatched { input } => Stage::Unmatched { input: input@ },
            Step::Execute { command } => Stage::Execute { command: command@ },
        }
    }
}

/// The model of [`Reply`].
pub ghost enum Answer {
    /// The index of the candidate that was picked.
    Chosen { index: usize },
    /// The value given for a placeholder.
    Value { text: Seq<char> },
    /// Yes or no.
    Confirmed { yes: bool },
    /// The user left the menu or the question without an answer.
    Cancelled,
}

/// What the user answered to a [`Step`].
#[derive(Clone, Debug, PartialEq, Eq)]
pub enum Reply {
    /// The index of the candidate that was picked.
    Chosen { index: usize },
    /// The value given for a placeholder.
    Value { text: String },
    /// Yes or no.
    Confirmed { yes: bool },
    /// The user left the menu or the question without an answer.
    Cancelled,
}

impl View for Reply {
    type V = Answer;

    open spec fn view(&self) -> Answer {
        match self {
            Reply::Chosen { index } => Answer::Chosen { index: *index },
            Reply::Value { text } => Answer::Value { text: text@ },
            Reply::Confirmed { yes } => Answer::Confirmed { yes: *yes },
            Reply::Cancelled => Answer::Cancelled,
        }
    }
}

/// The finished command waits for the user's confirmation.
pub open spec fn to_confirm(command: Seq<char>, description: Seq<char>) -> Stage {
    Stage::Confirm { command, description }
}

/// Where filling the chosen template stands with the answers so far: at
/// the confirmation once the command is complete, at the next question,
/// or at the end where an answer was empty or the command came out empty.
pub open spec fn filling(
    tokens: Seq<Seq<char>>,
    answers: Seq<Seq<char>>,
    description: Seq<char>,
) -> Stage {
    match filled(tokens, answers) {
        Filled::Complete { command } => if command.len() == 0 {
            Stage::Done
        } else {
            to_confirm(command, description)
        },
        Filled::Ask { label } => Stage::Ask { tokens, answers, description, label },
        Filled::Cancelled => Stage::Done,
    }
}

/// An entry was chosen: its template is filled, no answer given yet.
pub open spec fn chosen(name: Seq<char>, description: Seq<char>) -> Stage {
    filling(words(name), Seq::empty(), description)
}

/// What follows from the final candidates: without any, nothing matched;
/// a single one is chosen at once; among several the user picks.
pub open spec fn presented(candidates: Seq<Entry>, input: Seq<char>) -> Stage {
    if candidates.len() == 0 {
        Stage::Unmatched { input }
    } else if candidates.len() == 1 {
        chosen(candidates[0].0, candidates[0].1)
    } else {
        Stage::Choose { candidates, input }
    }
}

/// The fallback: the substring search over the whole catalog with the
/// words of the input.
pub open spec fn searched(catalog: Seq<Entry>, input: Seq<char>) -> Stage {
    let matching = substring_matches(catalog, words(input));
    if matching.len() == 0 {
        Stage::Unmatched { input }
    } else {
        presented(matching, Seq::empty())
    }
}

/// Resolution of an input with the words `parts`: the entries that the
/// first word finds by prefix are narrowed by the further words; where
/// nothing survives, the fallback decides.
pub open spec fn narrowed(catalog: Seq<Entry>, parts: Seq<Seq<char>>, input: Seq<char>) -> Stage {
    let found = prefix_matches(catalog, parts[0]);
    let kept = survivors(candidates_of(found), parts);
    if kept.len() == 0 {
        searched(catalog, input)
    } else {
        presented(entries_of(kept, found), input)
    }
}

/// Resolution of an input line. A line without a word asks for nothing.
pub open spec fn resolved(catalog: Seq<Entry>, input: Seq<char>) -> Stage {
    if words(input).len() == 0 {
        Stage::Done
    } else {
        narrowed(catalog, words(input), input)
    }
}

/// What follows from the user's pick among the candidates. No pick, and a
/// pick outside the list, end the resolution.
pub open spec fn picked(candidates: Seq<Entry>, choice: Option<usize>) -> Stage {
    match choice {
        Some(index) => if index < candidates.len() {
            chosen(candidates[index as int].0, candidates[index as int].1)
        } else {
            Stage::Done
        },
        None => Stage::Done,
    }
}

/// What follows from the user's answer to the confirmation.
pub open spec fn confirmed(command: Seq<char>, yes: bool) -> Stage {
    if yes {
        Stage::Execute { command }
    } else {
        Stage::Done
    }
}

/// The step that follows `stage` on `answer`. An answer that does not fit
/// the stage ends the resolution, and so does every answer once it has
/// ended or the command was handed over.
pub open spec fn advanced(stage: Stage, answer: Answer) -> Stage {
    match (stage, answer) {
        (Stage::Choose { candidates, input }, Answer::Chosen { index }) => picked(
            candidates,
            Some(index),
        ),
        (Stage::Ask { tokens, answers, description, label }, Answer::Value { text }) => filling(
            tokens,
            answers.push(text),
            description,
        ),
        (Stage::Confirm { command, description }, Answer::Confirmed { yes }) => confirmed(
            command,
            yes,
        ),
        (Stage::Unmatched { input }, Answer::Confirmed { yes }) => confirmed(input, yes),
        _ => Stage::Done,
    }
}

/// Makes the finished command wait for the user's confirmation: nothing
/// is run without it.
pub fn execute_current_command(command: &str, description: &str) -> (step: Step)
    ensures
        step@ == to_confirm(command@, description@),
{
    Step::Confirm { command: command.to_owned(), description: description.to_owned() }
}

fn continue_filling(tokens: Vec<String>, answers: Vec<String>, description: String) -> (step: Step)
    ensures
        step@ == filling(tokens.deep_view(), answers.deep_view(), description@),
{
    match replace_input_string(&tokens, &answers) {
        Filling::Complete { command } => {
            if command.as_str().is_empty() {
                Step::Done
            } else {
                Step::Confirm { command, description }
            }
        },
        Filling::Ask { label } => Step::Ask { tokens, answers, description, label },
        Filling::Cancelled => Step::Done,
    }
}

/// Takes up a chosen entry: fills its template as far as that goes without
/// asking.
pub fn check_chosen_command(command: &str, description: &str) -> (step: Step)
    ensures
        step@ == chosen(command@, description@),
{
    let answers: Vec<String> = Vec::new();
    assert(answers.deep_view() =~= Seq::empty());
    continue_filling(split_whitespace(command), answers, description.to_owned())
}

/// Takes the user's answer for the placeholder that was asked for, and
/// goes on filling. The empty answer cancels the command.
pub fn answer_placeholder(
    tokens: Vec<String>,
    answers: Vec<String>,
    description: String,
    answer: &str,
) -> (step: Step)
    ensures
        step@ == filling(tokens.deep_view(), answers.deep_view().push(answer@), description@),
{
    let ghost before = answers.deep_view();
    let mut answers = answers;
    answers.push(answer.to_owned());
    assert(answers.deep_view() =~= before.push(answer@));
    continue_filling(tokens, answers, description)
}

/// Decides what follows from the final candidates: a single one is chosen
/// without asking, several go to the user, none means that nothing
/// matched.
pub fn handle_multiple_returned_command(matching_commands: Vec<(String, String)>, input: &str) -> (step:
    Step)
    ensures
        step@ == presented(matching_commands.deep_view(), input@),
{
    if matching_commands.len() == 0 {
        Step::Unmatched { input: input.to_owned() }
    } else if matching_commands.len() == 1 {
        assert(matching_commands.deep_view()[0] == matching_commands@[0].deep_view());
        check_chosen_command(matching_commands[0].0.as_str(), matching_commands[0].1.as_str())
    } else {
        Step::Choose { candidates: matching_commands, input: input.to_owned() }
    }
}

/// Takes the user's pick among the candidates.
pub fn take_choice(candidates: &Vec<(String, String)>, choice: Option<usize>) -> (step: Step)
    ensures
        step@ == picked(candidates.deep_view(), choice),
{
    match choice {
        Some(index) => {
            if index < candidates.len() {
                assert(candidates.deep_view()[index as int] == candidates@[index as int].deep_view());
                check_chosen_command(candidates[index].0.as_str(), candidates[index].1.as_str())
            } else {
                Step::Done
            }
        },
        None => Step::Done,
    }
}

/// Takes the user's answer to the confirmation: only a yes lets the
/// command run.
pub fn confirm(command: String, yes: bool) -> (step: Step)
    ensures
        step@ == confirmed(command@, yes),
{
    if yes {
        Step::Execute { command }
    } else {
        Step::Done
    }
}

/// The fallback search over names and descriptions.
pub fn search_in_database(input: &str, catalog: &Catalog) -> (step: Step)
    ensures
        step@ == searched(catalog@, input@),
{
    let matching_commands = catalog.search_commands(input);
    if matching_commands.len() == 0 {
        Step::Unmatched { input: input.to_owned() }
    } else {
        proof {
            reveal_strlit("");
            assert(""@ =~= Seq::<char>::empty());
        }
        handle_multiple_returned_command(matching_commands, "")
    }
}

/// Resolves an input with the words `command_parts`: prefix search with
/// the first word, progressive narrowing with the others, the fallback
/// search where nothing survives.
pub fn handle_progressive_search(command_parts: &Vec<String>, catalog: &Catalog, input: &str) -> (step:
    Step)
    requires
        command_parts.len() > 0,
    ensures
        step@ == narrowed(catalog@, command_parts.deep_view(), input@),
{
    let matching_commands = catalog.find_matching_commands(command_parts[0].as_str());
    let ghost found = matching_commands.deep_view();
    assert(command_parts.deep_view()[0] == command_parts@[0]@);
    let command_words = string_to_words_arr(&matching_commands);
    let command_words = progressive_search(command_words, command_parts);
    if command_words.len() == 0 {
        search_in_database(input, catalog)
    } else {
        proof {
            lemma_survivors_point_within(
                candidates_of(found),
                command_parts.deep_view(),
                found.len(),
            );
        }
        let matching_commands = filter_matching_commands(command_words, matching_commands);
        handle_multiple_returned_command(matching_commands, input)
    }
}

/// Resolves an input line against the catalog.
pub fn handle_command(input: &str, catalog: &Catalog) -> (step: Step)
    ensures
        step@ == resolved(catalog@, input@),
{
    let command_parts = split_whitespace(input);
    if command_parts.len() == 0 {
        Step::Done
    } else {
        handle_progressive_search(&command_parts, catalog, input)
    }
}

/// The step that follows `step` on the user's `reply`.
pub fn advance(step: Step, reply: Reply) -> (next: Step)
    ensures
        next@ == advanced(step@, reply@),
{
    match (step, reply) {
        (Step::Choose { candidates, input }, Reply::Chosen { index }) => take_choice(
            &candidates,
            Some(index),
        ),
        (Step::Ask { tokens, answers, description, label }, Reply::Value { text }) => {
            answer_placeholder(tokens, answers, description, text.as_str())
        },
        (Step::Confirm { command, description }, Reply::Confirmed { yes }) => confirm(command, yes),
        (Step::Unmatched { input }, Reply::Confirmed { yes }) => confirm(input, yes),
        _ => Step::Done,
    }
}

/// What the outcome of the confirmation prompt is taken for: a prompt
/// that failed or was left counts as a no.
pub fn get_confirmation(response: Option<bool>) -> (yes: bool)
    ensures
        yes == (response == Some(true)),
{
    match response {
        Some(yes) => yes,
        None => false,
    }
}

/// Resolution is a function of the entries of the catalog and of the
/// characters of the input: on the same catalog and the same input it
/// comes to the same step, with the same candidates in the same order.
pub proof fn lemma_resolution_is_determined(
    catalog: Seq<Entry>,
    again: Seq<Entry>,
    input: Seq<char>,
    repeated: Seq<char>,
)
    requires
        catalog =~= again,
        input =~= repeated,
    ensures
        resolved(catalog, input) == resolved(again, repeated),
        survivors(candidates_of(prefix_matches(catalog, words(input)[0])), words(input))
            == survivors(
            candidates_of(prefix_matches(again, words(repeated)[0])),
            words(repeated),
        ),
{
}

/// Resolution never hands a command to the executor by itself.
pub proof fn lemma_resolution_never_executes(catalog: Seq<Entry>, input: Seq<char>)
    ensures
        !(resolved(catalog, input) is Execute),
{
}

/// A command is handed to the executor only on a yes to the question
/// whether to run it, and it is the command that was asked about.
pub proof fn lemma_only_a_yes_executes(stage: Stage, answer: Answer)
    requires
        advanced(stage, answer) is Execute,
    ensures
        answer == (Answer::Confirmed { yes: true }),
        stage is Confirm || stage is Unmatched,
        stage is Confirm ==> advanced(stage, answer) == (Stage::Execute {
            command: stage->Confirm_command,
        }),
        stage is Unmatched ==> advanced(stage, answer) == (Stage::Execute {
            command: stage->Unmatched_input,
        }),
{
}

/// An empty answer to the placeholder that is asked for ends the
/// resolution: nothing is confirmed, nothing is run.
pub proof fn lemma_empty_answer_ends_the_resolution(
    tokens: Seq<Seq<char>>,
    answers: Seq<Seq<char>>,
    description: Seq<char>,
)
    requires
        filling(tokens, answers, description) is Ask,
    ensures
        advanced(filling(tokens, answers, description), Answer::Value { text: Seq::empty() })
            == Stage::Done,
{
    lemma_filled_characterised(tokens, answers);
    lemma_empty_answer_cancels(
        tokens,
        answers.push(Seq::empty()),
        answers.len() as int,
    );
}

/// A chosen template without a placeholder goes to the confirmation as
/// it is, its words joined by single spaces, and nothing is asked.
pub proof fn lemma_plain_template_needs_no_answer(name: Seq<char>, description: Seq<char>)
    requires
        words(name).len() > 0,
        forall|i: int| 0 <= i < words(name).len() ==> slot(#[trigger] words(name)[i]) is Literal,
        joined(words(name), seq![' ']).len() > 0,
    ensures
        chosen(name, description) == to_confirm(joined(words(name), seq![' ']), description),
{
    lemma_no_placeholder_gives_the_words_back(words(name), Seq::empty());
}

} // verus!
