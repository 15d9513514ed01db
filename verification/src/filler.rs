//! The template filler: turns the words of a chosen template and the answers
//! the user has given so far into the finished command, the next question,
//! or a cancellation.
//!
//! The words are read from left to right. A literal is taken as it is, a
//! placeholder with a bound value gives that value, and a placeholder that
//! still waits takes the next answer. An empty answer cancels the whole
//! command. The filler keeps no state of its own: its caller collects the
//! answers and asks again after each one.

use vstd::prelude::*;
use crate::text::{join, joined};
use crate::token::{classify, label, replace_word, slot, Slot, Token};

verus! {

/// How far reading the words has come.
pub ghost enum Progress {
    /// Every word so far gave a piece of the command; `used` answers were
    /// taken.
    Going { pieces: Seq<Seq<char>>, used: nat },
    /// A placeholder waits for an answer that has not been given yet.
    Asking { label: Seq<char> },
    /// A placeholder was answered with the empty text.
    Cancelled,
}

/// The model of [`Filling`].
pub ghost enum Filled {
    /// The finished command.
    Complete { command: Seq<char> },
    /// The label of the placeholder that is asked for next.
    Ask { label: Seq<char> },
    /// No command: an answer was empty.
    Cancelled,
}

/// What filling a template comes to.
#[derive(Clone, Debug, PartialEq, Eq)]
pub enum Filling {
    /// Every placeholder has its value: the finished command.
    Complete { command: String },
    /// The placeholder with this label needs the next answer.
    Ask { label: String },
    /// A placeholder was answered with the empty text: there is no command.
    Cancelled,
}

impl View for Filling {
    type V = Filled;

    open spec fn view(&self) -> Filled {
        match self {
            Filling::Complete { command } => Filled::Complete { command: command@ },
            Filling::Ask { label } => Filled::Ask { label: label@ },
            Filling::Cancelled => Filled::Cancelled,
        }
    }
}

/// Reads `tokens` from left to right, taking `answers` in order for the
/// placeholders that wait for a value, and stops at the first placeholder
/// without an answer or with an empty one.
pub open spec fn scanned(tokens: Seq<Seq<char>>, answers: Seq<Seq<char>>) -> Progress
    decreases tokens.len(),
{
    if tokens.len() == 0 {
        Progress::Going { pieces: Seq::empty(), used: 0 }
    } else {
        match scanned(tokens.drop_last(), answers) {
            Progress::Going { pieces, used } => match slot(tokens.last()) {
                Slot::Literal => Progress::Going { pieces: pieces.push(tokens.last()), used },
                Slot::Bound { value } => Progress::Going { pieces: pieces.push(value), used },
                Slot::Open { id } => if used >= answers.len() {
                    Progress::Asking { label: label(id) }
                } else if answers[used as int].len() == 0 {
                    Progress::Cancelled
                } else {
                    Progress::Going { pieces: pieces.push(answers[used as int]), used: used + 1 }
                },
            },
            stopped => stopped,
        }
    }
}

/// What filling `tokens` with `answers` comes to: the pieces joined by
/// single spaces where every word gave one.
pub open spec fn filled(tokens: Seq<Seq<char>>, answers: Seq<Seq<char>>) -> Filled {
    match scanned(tokens, answers) {
        Progress::Going { pieces, used } => Filled::Complete { command: joined(pieces, seq![' ']) },
        Progress::Asking { label } => Filled::Ask { label },
        Progress::Cancelled => Filled::Cancelled,
    }
}

/// The number of placeholders among `tokens` that wait for a value.
pub open spec fn open_slots(tokens: Seq<Seq<char>>) -> nat
    decreases tokens.len(),
{
    if tokens.len() == 0 {
        0
    } else if slot(tokens.last()) is Open {
        open_slots(tokens.drop_last()) + 1
    } else {
        open_slots(tokens.drop_last())
    }
}

/// The piece of the command that the word at `i` gives once every
/// placeholder has its answer.
pub open spec fn piece(tokens: Seq<Seq<char>>, answers: Seq<Seq<char>>, i: int) -> Seq<char> {
    match slot(tokens[i]) {
        Slot::Literal => tokens[i],
        Slot::Bound { value } => value,
        Slot::Open { id } => answers[open_slots(tokens.take(i)) as int],
    }
}

/// Once reading has stopped, further words change nothing.
proof fn lemma_scan_stays_stopped(tokens: Seq<Seq<char>>, answers: Seq<Seq<char>>, i: int)
    requires
        0 <= i <= tokens.len(),
        !(scanned(tokens.take(i), answers) is Going),
    ensures
        scanned(tokens, answers) == scanned(tokens.take(i), answers),
    decreases tokens.len() - i,
{
    if i < tokens.len() {
        assert(tokens.take(i + 1).drop_last() == tokens.take(i));
        lemma_scan_stays_stopped(tokens, answers, i + 1);
    } else {
        assert(tokens.take(i) == tokens);
    }
}

/// Fills the template `tokens` with the `answers` given so far.
///
/// Returns the finished command when every waiting placeholder has a
/// non-empty answer, the label to ask for when the answers run out, and the
/// cancellation when the answer to a placeholder is empty. Answers beyond
/// the last placeholder are not looked at.
pub fn replace_input_string(tokens: &Vec<String>, answers: &Vec<String>) -> (outcome: Filling)
    ensures
        outcome@ == filled(tokens.deep_view(), answers.deep_view()),
{
    let ghost words = tokens.deep_view();
    let ghost given = answers.deep_view();
    let mut pieces: Vec<String> = Vec::new();
    let mut used: usize = 0;
    let mut i: usize = 0;
    assert(pieces.deep_view() =~= Seq::empty());
    while i < tokens.len()
        invariant
            i <= tokens.len(),
            used <= answers.len(),
            words == tokens.deep_view(),
            given == answers.deep_view(),
            scanned(words.take(i as int), given) == (Progress::Going {
                pieces: pieces.deep_view(),
                used: used as nat,
            }),
        decreases tokens.len() - i,
    {
        let ghost before = pieces.deep_view();
        assert(words.take(i + 1).drop_last() == words.take(i as int));
        assert(words.take(i + 1).last() == tokens@[i as int]@);
        match classify(tokens[i].as_str()) {
            Token::Literal => {
                pieces.push(tokens[i].clone());
            },
            Token::Bound { value } => {
                pieces.push(value);
            },
            Token::Open { id } => {
                if used >= answers.len() {
                    proof {
                        lemma_scan_stays_stopped(words, given, i + 1);
                    }
                    return Filling::Ask { label: replace_word(id.as_str()) };
                }
                assert(given[used as int] == answers@[used as int]@);
                if answers[used].as_str().is_empty() {
                    proof {
                        lemma_scan_stays_stopped(words, given, i + 1);
                    }
                    return Filling::Cancelled;
                }
                pieces.push(answers[used].clone());
                used += 1;
            },
        }
        assert(pieces.deep_view() =~= before.push(pieces@.last()@));
        i += 1;
    }
    proof {
        reveal_strlit(" ");
        assert(words.take(i as int) == words);
        assert(" "@ =~= seq![' ']);
    }
    Filling::Complete { command: join(&pieces, " ") }
}

/// What each way of ending the reading says about the answers.
proof fn lemma_scan_characterised(tokens: Seq<Seq<char>>, answers: Seq<Seq<char>>)
    ensures
        match scanned(tokens, answers) {
            Progress::Going { pieces, used } => {
                &&& used == open_slots(tokens)
                &&& used <= answers.len()
                &&& forall|k: int| 0 <= k < used ==> answers[k].len() > 0
                &&& pieces.len() == tokens.len()
                &&& forall|i: int|
                    0 <= i < tokens.len() ==> pieces[i] == #[trigger] piece(tokens, answers, i)
            },
            Progress::Asking { label: asked } => {
                &&& answers.len() < open_slots(tokens)
                &&& forall|k: int| 0 <= k < answers.len() ==> answers[k].len() > 0
                &&& exists|i: int|
                    0 <= i < tokens.len() && #[trigger] open_slots(tokens.take(i)) == answers.len()
                        && slot(tokens[i]) is Open && asked == label(slot(tokens[i])->id)
            },
            Progress::Cancelled => exists|k: int|
                0 <= k < answers.len() && k < open_slots(tokens) && #[trigger] answers[k].len()
                    == 0,
        },
    decreases tokens.len(),
{
    if tokens.len() > 0 {
        let init = tokens.drop_last();
        let last = tokens.len() - 1;
        lemma_scan_characterised(init, answers);
        assert(tokens.take(last) == init);
        match scanned(init, answers) {
            Progress::Going { pieces, used } => {
                assert forall|i: int| 0 <= i < last implies piece(init, answers, i) == piece(
                    tokens,
                    answers,
                    i,
                ) by {
                    assert(init.take(i) == tokens.take(i));
                }
                if slot(tokens.last()) is Open && used >= answers.len() {
                    assert(open_slots(tokens.take(last)) == answers.len());
                }
            },
            Progress::Asking { label: asked } => {
                let i = choose|i: int|
                    0 <= i < init.len() && #[trigger] open_slots(init.take(i)) == answers.len()
                        && slot(init[i]) is Open && asked == label(slot(init[i])->id);
                assert(init.take(i) == tokens.take(i));
            },
            Progress::Cancelled => {},
        }
    }
}

/// A template without a placeholder comes back as its words joined by
/// single spaces, whatever answers are at hand; nothing is asked.
pub proof fn lemma_no_placeholder_gives_the_words_back(
    tokens: Seq<Seq<char>>,
    answers: Seq<Seq<char>>,
)
    requires
        forall|i: int| 0 <= i < tokens.len() ==> slot(#[trigger] tokens[i]) is Literal,
    ensures
        filled(tokens, answers) == (Filled::Complete { command: joined(tokens, seq![' ']) }),
    decreases tokens.len(),
{
    if tokens.len() > 0 {
        let init = tokens.drop_last();
        assert forall|i: int| 0 <= i < init.len() implies slot(#[trigger] init[i]) is Literal by {
            assert(init[i] == tokens[i]);
        }
        lemma_no_placeholder_gives_the_words_back(init, answers);
        lemma_scan_characterised(init, answers);
        lemma_scan_characterised(tokens, answers);
        assert(slot(tokens[tokens.len() - 1]) is Literal);
        match scanned(tokens, answers) {
            Progress::Going { pieces, used } => {
                assert forall|i: int| 0 <= i < tokens.len() implies pieces[i] == tokens[i] by {
                    assert(pieces[i] == piece(tokens, answers, i));
                }
                assert(pieces =~= tokens);
            },
            _ => {},
        }
    }
}

/// An empty answer to any placeholder that waits cancels the command: the
/// outcome is the cancellation, never a command.
pub proof fn lemma_empty_answer_cancels(tokens: Seq<Seq<char>>, answers: Seq<Seq<char>>, k: int)
    requires
        0 <= k < answers.len(),
        k < open_slots(tokens),
        answers[k].len() == 0,
    ensures
        filled(tokens, answers) == Filled::Cancelled,
{
    lemma_scan_characterised(tokens, answers);
}

/// When filling ends in which way, and what the finished command is made
/// of: each literal as it is, each bound value, and for each waiting
/// placeholder the answer that was given to it.
pub proof fn lemma_filled_characterised(tokens: Seq<Seq<char>>, answers: Seq<Seq<char>>)
    ensures
        filled(tokens, answers) is Complete <==> open_slots(tokens) <= answers.len() && forall|
            k: int,
        |
            0 <= k < open_slots(tokens) ==> answers[k].len() > 0,
        filled(tokens, answers) is Complete ==> filled(tokens, answers)->command == joined(
            Seq::new(tokens.len(), |i: int| piece(tokens, answers, i)),
            seq![' '],
        ),
        filled(tokens, answers) is Ask <==> answers.len() < open_slots(tokens) && forall|k: int|
            0 <= k < answers.len() ==> answers[k].len() > 0,
        filled(tokens, answers) is Ask ==> exists|i: int|
            0 <= i < tokens.len() && #[trigger] open_slots(tokens.take(i)) == answers.len() && slot(
                tokens[i],
            ) is Open && filled(tokens, answers)->label == label(slot(tokens[i])->id),
        filled(tokens, answers) is Cancelled <==> exists|k: int|
            0 <= k < answers.len() && k < open_slots(tokens) && #[trigger] answers[k].len() == 0,
{
    lemma_scan_characterised(tokens, answers);
    match scanned(tokens, answers) {
        Progress::Going { pieces, used } => {
            assert(pieces =~= Seq::new(tokens.len(), |i: int| piece(tokens, answers, i)));
        },
        _ => {},
    }
}

} // verus!
