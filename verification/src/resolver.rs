//! Progressive narrowing: the candidates that the first input word found
//! are compared with the input word by word, position by position.
//!
//! At each further position the candidates whose word there equals the
//! input word are kept. Where there is none, the candidates with a
//! placeholder there are kept, the input word bound to it. Where there is
//! none of those either, narrowing stops and keeps what the last round
//! left. A candidate with fewer words than the position asks for passes
//! neither test.

use vstd::prelude::*;
use crate::catalog::{begins_with, prefix_matches, Entry};
use crate::text::{
    copy_words, is_whitespace, join, joined, lemma_first_word_begins_the_text, same_text,
    split_whitespace, words,
};
use crate::token::{bind_placeholder, bound, is_placeholder, opens_placeholder};

verus! {

/// The model of a candidate: the index of its entry among the entries that
/// were found, and a working copy of the words of its name.
pub type Candidate = (usize, Seq<Seq<char>>);

/// The candidates whose word at `at` is `word`.
pub open spec fn matches_exactly(word: Seq<char>, at: int) -> spec_fn(Candidate) -> bool {
    |candidate: Candidate| 0 <= at < candidate.1.len() && candidate.1[at] == word
}

/// The candidates whose word at `at` begins a placeholder.
pub open spec fn holds_placeholder(at: int) -> spec_fn(Candidate) -> bool {
    |candidate: Candidate| 0 <= at < candidate.1.len() && opens_placeholder(candidate.1[at])
}

/// Binds `word` to the word at `at` of a candidate.
pub open spec fn binding(word: Seq<char>, at: int) -> spec_fn(Candidate) -> Candidate {
    |candidate: Candidate| (candidate.0, candidate.1.update(at, bound(candidate.1[at], word)))
}

/// The first pass of a round: the candidates whose word at `at` is `word`.
pub open spec fn exact_pass(candidates: Seq<Candidate>, word: Seq<char>, at: int) -> Seq<
    Candidate,
> {
    candidates.filter(matches_exactly(word, at))
}

/// The second pass of a round: the candidates with a placeholder at `at`,
/// each with `word` bound to that placeholder.
pub open spec fn placeholder_pass(candidates: Seq<Candidate>, word: Seq<char>, at: int) -> Seq<
    Candidate,
> {
    candidates.filter(holds_placeholder(at)).map_values(binding(word, at))
}

/// One round: what the first pass keeps, or, where that is nothing, what
/// the second pass keeps.
pub open spec fn round(candidates: Seq<Candidate>, word: Seq<char>, at: int) -> Seq<Candidate> {
    let exact = exact_pass(candidates, word, at);
    if exact.len() > 0 {
        exact
    } else {
        placeholder_pass(candidates, word, at)
    }
}

/// Narrowing from position `at` on: round after round, until the input is
/// used up or a round keeps nothing, which leaves the candidates as they
/// were before that round.
pub open spec fn narrowed_from(candidates: Seq<Candidate>, input: Seq<Seq<char>>, at: int) -> Seq<
    Candidate,
>
    decreases input.len() - at,
{
    if at >= input.len() {
        candidates
    } else {
        let kept = round(candidates, input[at], at);
        if kept.len() == 0 {
            candidates
        } else {
            narrowed_from(kept, input, at + 1)
        }
    }
}

/// The survivors of narrowing `candidates` by the words of `input`. The
/// first word has found the candidates; the rounds begin at the second.
pub open spec fn survivors(candidates: Seq<Candidate>, input: Seq<Seq<char>>) -> Seq<Candidate> {
    narrowed_from(candidates, input, 1)
}

/// The candidates that stand for the entries `found`: each with its index
/// and the words of its name.
pub open spec fn candidates_of(found: Seq<Entry>) -> Seq<Candidate> {
    Seq::new(found.len(), |i: int| (i as usize, words(found[i].0)))
}

/// Whether every candidate points at one of `n` entries.
pub open spec fn point_within(candidates: Seq<Candidate>, n: nat) -> bool {
    forall|j: int| 0 <= j < candidates.len() ==> (#[trigger] candidates[j]).0 < n
}

/// The entries that the candidates stand for: the words of each joined by
/// single spaces, with the description of the entry it points at.
pub open spec fn entries_of(candidates: Seq<Candidate>, found: Seq<Entry>) -> Seq<Entry> {
    Seq::new(
        candidates.len(),
        |j: int| (joined(candidates[j].1, seq![' ']), found[candidates[j].0 as int].1),
    )
}

fn copy_candidate(candidate: &(usize, Vec<String>)) -> (copy: (usize, Vec<String>))
    ensures
        copy.deep_view() == candidate.deep_view(),
{
    (candidate.0, copy_words(&candidate.1))
}

/// Turns the entries that were found into candidates: each entry with its
/// index and the words of its name.
pub fn string_to_words_arr(matching_commands: &Vec<(String, String)>) -> (command_words: Vec<
    (usize, Vec<String>),
>)
    ensures
        command_words.deep_view() == candidates_of(matching_commands.deep_view()),
{
    let mut command_words: Vec<(usize, Vec<String>)> = Vec::new();
    let mut i: usize = 0;
    while i < matching_commands.len()
        invariant
            i <= matching_commands.len(),
            command_words.len() == i,
            forall|k: int|
                0 <= k < i ==> (#[trigger] command_words@[k]).deep_view() == (
                    k as usize,
                    words(matching_commands@[k].0@),
                ),
        decreases matching_commands.len() - i,
    {
        command_words.push((i, split_whitespace(matching_commands[i].0.as_str())));
        i += 1;
    }
    assert(command_words.deep_view() =~= candidates_of(matching_commands.deep_view()));
    command_words
}

/// The first pass of a round: keeps the candidates whose word at
/// `word_index` is `word`.
pub fn filter_by_exact_match(
    command_words: &Vec<(usize, Vec<String>)>,
    word: &str,
    word_index: usize,
) -> (kept: Vec<(usize, Vec<String>)>)
    ensures
        kept.deep_view() == exact_pass(command_words.deep_view(), word@, word_index as int),
{
    let ghost all = command_words.deep_view();
    let ghost keep = matches_exactly(word@, word_index as int);
    let mut kept: Vec<(usize, Vec<String>)> = Vec::new();
    assert(kept.deep_view() =~= all.take(0).filter(keep)) by {
        reveal(Seq::filter);
    }
    let mut i: usize = 0;
    while i < command_words.len()
        invariant
            i <= command_words.len(),
            all == command_words.deep_view(),
            keep == matches_exactly(word@, word_index as int),
            kept.deep_view() == all.take(i as int).filter(keep),
        decreases command_words.len() - i,
    {
        let ghost before = kept.deep_view();
        let candidate = &command_words[i];
        proof {
            assert(all[i as int] == candidate.deep_view());
            assert(all.take(i + 1) == all.take(i as int).push(all[i as int]));
            all.take(i as int).lemma_filter_push(all[i as int], keep);
            if word_index < candidate.1.len() {
                assert(all[i as int].1[word_index as int] == candidate.1@[word_index as int]@);
            }
        }
        if word_index < candidate.1.len() && same_text(candidate.1[word_index].as_str(), word) {
            kept.push(copy_candidate(candidate));
            assert(kept.deep_view() =~= before.push(all[i as int]));
        }
        i += 1;
    }
    assert(all.take(i as int) == all);
    kept
}

/// The second pass of a round: keeps the candidates whose word at
/// `word_index` begins a placeholder, and binds `word` to it in a copy of
/// the candidate.
pub fn filter_by_placeholder_match(
    command_words: &Vec<(usize, Vec<String>)>,
    word: &str,
    word_index: usize,
) -> (kept: Vec<(usize, Vec<String>)>)
    ensures
        kept.deep_view() == placeholder_pass(command_words.deep_view(), word@, word_index as int),
{
    let ghost all = command_words.deep_view();
    let ghost keep = holds_placeholder(word_index as int);
    let ghost bind = binding(word@, word_index as int);
    let mut kept: Vec<(usize, Vec<String>)> = Vec::new();
    assert(kept.deep_view() =~= all.take(0).filter(keep).map_values(bind)) by {
        reveal(Seq::filter);
    }
    let mut i: usize = 0;
    while i < command_words.len()
        invariant
            i <= command_words.len(),
            all == command_words.deep_view(),
            keep == holds_placeholder(word_index as int),
            bind == binding(word@, word_index as int),
            kept.deep_view() == all.take(i as int).filter(keep).map_values(bind),
        decreases command_words.len() - i,
    {
        let ghost before = kept.deep_view();
        let candidate = &command_words[i];
        proof {
            assert(all[i as int] == candidate.deep_view());
            assert(all.take(i + 1) == all.take(i as int).push(all[i as int]));
            all.take(i as int).lemma_filter_push(all[i as int], keep);
            if word_index < candidate.1.len() {
                assert(all[i as int].1[word_index as int] == candidate.1@[word_index as int]@);
            }
        }
        if word_index < candidate.1.len() && is_placeholder(candidate.1[word_index].as_str()) {
            let mut copy = copy_words(&candidate.1);
            let rewritten = bind_placeholder(candidate.1[word_index].as_str(), word);
            copy.set(word_index, rewritten);
            assert(copy.deep_view() =~= bind(all[i as int]).1);
            kept.push((candidate.0, copy));
            proof {
                let chosen = all.take(i as int).filter(keep);
                assert(kept.deep_view() =~= before.push(bind(all[i as int])));
                assert(chosen.push(all[i as int]).map_values(bind) =~= chosen.map_values(
                    bind,
                ).push(bind(all[i as int])));
            }
        }
        i += 1;
    }
    assert(all.take(i as int) == all);
    kept
}

/// Narrows `command_words`, the candidates that the first word of
/// `command_parts` found, by the further words of `command_parts`.
pub fn progressive_search(command_words: Vec<(usize, Vec<String>)>, command_parts: &Vec<String>) -> (kept:
    Vec<(usize, Vec<String>)>)
    ensures
        kept.deep_view() == survivors(command_words.deep_view(), command_parts.deep_view()),
{
    let ghost input = command_parts.deep_view();
    let ghost start = command_words.deep_view();
    let mut current = command_words;
    let mut word_index: usize = 1;
    while word_index < command_parts.len()
        invariant
            1 <= word_index,
            input == command_parts.deep_view(),
            start == command_words.deep_view(),
            survivors(start, input) == narrowed_from(current.deep_view(), input, word_index as int),
        decreases command_parts.len() - word_index,
    {
        let word = command_parts[word_index].as_str();
        assert(input[word_index as int] == word@);
        let mut new_matching_commands = filter_by_exact_match(&current, word, word_index);
        assert(new_matching_commands.deep_view().len() == new_matching_commands.len());
        if new_matching_commands.len() == 0 {
            new_matching_commands = filter_by_placeholder_match(&current, word, word_index);
        }
        assert(new_matching_commands.deep_view() == round(
            current.deep_view(),
            input[word_index as int],
            word_index as int,
        ));
        assert(new_matching_commands.deep_view().len() == new_matching_commands.len());
        if new_matching_commands.len() == 0 {
            return current;
        }
        current = new_matching_commands;
        word_index += 1;
    }
    current
}

/// Turns the surviving candidates back into entries: the words of each
/// joined by single spaces, with the description of the entry it came
/// from.
pub fn filter_matching_commands(
    command_words: Vec<(usize, Vec<String>)>,
    matching_commands: Vec<(String, String)>,
) -> (new_matching_commands: Vec<(String, String)>)
    requires
        point_within(command_words.deep_view(), matching_commands.len() as nat),
    ensures
        new_matching_commands.deep_view() == entries_of(
            command_words.deep_view(),
            matching_commands.deep_view(),
        ),
{
    proof {
        reveal_strlit(" ");
        assert(" "@ =~= seq![' ']);
    }
    let mut new_matching_commands: Vec<(String, String)> = Vec::new();
    let mut j: usize = 0;
    while j < command_words.len()
        invariant
            j <= command_words.len(),
            " "@ == seq![' '],
            new_matching_commands.len() == j,
            point_within(command_words.deep_view(), matching_commands.len() as nat),
            forall|k: int|
                0 <= k < j ==> (#[trigger] new_matching_commands@[k]).deep_view() == (
                    joined(command_words@[k].1.deep_view(), seq![' ']),
                    matching_commands@[command_words@[k].0 as int].1@,
                ),
        decreases command_words.len() - j,
    {
        let candidate = &command_words[j];
        assert(command_words.deep_view()[j as int].0 == candidate.0);
        let description = matching_commands[candidate.0].1.clone();
        new_matching_commands.push((join(&candidate.1, " "), description));
        j += 1;
    }
    assert(new_matching_commands.deep_view() =~= entries_of(
        command_words.deep_view(),
        matching_commands.deep_view(),
    ));
    new_matching_commands
}

/// A round keeps candidates that point where candidates pointed before.
proof fn lemma_round_points_within(candidates: Seq<Candidate>, word: Seq<char>, at: int, n: nat)
    requires
        point_within(candidates, n),
    ensures
        point_within(round(candidates, word, at), n),
{
    let exact = exact_pass(candidates, word, at);
    let chosen = candidates.filter(holds_placeholder(at));
    assert forall|j: int| 0 <= j < exact.len() implies (#[trigger] exact[j]).0 < n by {
        assert(exact.contains(exact[j]));
        candidates.lemma_filter_contains_rev(matches_exactly(word, at), exact[j]);
    }
    assert forall|j: int| 0 <= j < chosen.len() implies (#[trigger] chosen[j]).0 < n by {
        assert(chosen.contains(chosen[j]));
        candidates.lemma_filter_contains_rev(holds_placeholder(at), chosen[j]);
    }
}

proof fn lemma_narrowing_points_within(
    candidates: Seq<Candidate>,
    input: Seq<Seq<char>>,
    at: int,
    n: nat,
)
    requires
        point_within(candidates, n),
    ensures
        point_within(narrowed_from(candidates, input, at), n),
    decreases input.len() - at,
{
    if at < input.len() {
        let kept = round(candidates, input[at], at);
        lemma_round_points_within(candidates, input[at], at, n);
        if kept.len() > 0 {
            lemma_narrowing_points_within(kept, input, at + 1, n);
        }
    }
}

/// The survivors point at entries that the candidates pointed at.
pub proof fn lemma_survivors_point_within(
    candidates: Seq<Candidate>,
    input: Seq<Seq<char>>,
    n: nat,
)
    requires
        point_within(candidates, n),
    ensures
        point_within(survivors(candidates, input), n),
{
    lemma_narrowing_points_within(candidates, input, 1, n);
}

proof fn lemma_narrowing_never_empties(candidates: Seq<Candidate>, input: Seq<Seq<char>>, at: int)
    ensures
        narrowed_from(candidates, input, at).len() == 0 <==> candidates.len() == 0,
    decreases input.len() - at,
{
    if at < input.len() {
        let kept = round(candidates, input[at], at);
        if kept.len() > 0 {
            candidates.lemma_filter_len(matches_exactly(input[at], at));
            candidates.lemma_filter_len(holds_placeholder(at));
            lemma_narrowing_never_empties(kept, input, at + 1);
        }
    }
}

/// Narrowing never empties the set: there are no survivors only where the
/// first word found no candidate at all.
pub proof fn lemma_survivors_empty_only_without_candidates(
    candidates: Seq<Candidate>,
    input: Seq<Seq<char>>,
)
    ensures
        survivors(candidates, input).len() == 0 <==> candidates.len() == 0,
{
    lemma_narrowing_never_empties(candidates, input, 1);
}

/// What `rounds` rounds in a row leave of the candidates, where no round
/// is held back: round after round from the second input word on.
pub open spec fn after_rounds(candidates: Seq<Candidate>, input: Seq<Seq<char>>, rounds: int) -> Seq<
    Candidate,
>
    decreases rounds,
{
    if rounds <= 0 {
        candidates
    } else {
        round(after_rounds(candidates, input, rounds - 1), input[rounds], rounds)
    }
}

proof fn lemma_narrowing_resumes(candidates: Seq<Candidate>, input: Seq<Seq<char>>, done: int)
    requires
        0 <= done < input.len(),
        forall|j: int| 1 <= j <= done ==> #[trigger] after_rounds(candidates, input, j).len() > 0,
    ensures
        survivors(candidates, input) == narrowed_from(
            after_rounds(candidates, input, done),
            input,
            done + 1,
        ),
    decreases done,
{
    if done > 0 {
        lemma_narrowing_resumes(candidates, input, done - 1);
        assert(after_rounds(candidates, input, done).len() > 0);
    }
}

/// The freeze: where the round at position `at` is the first that keeps
/// nothing, the survivors are exactly what the round before it left (the
/// candidates themselves where `at` is the first round).
pub proof fn lemma_freeze_keeps_the_round_before(
    candidates: Seq<Candidate>,
    input: Seq<Seq<char>>,
    at: int,
)
    requires
        1 <= at < input.len(),
        forall|j: int| 1 <= j < at ==> #[trigger] after_rounds(candidates, input, j).len() > 0,
        after_rounds(candidates, input, at).len() == 0,
    ensures
        survivors(candidates, input) == after_rounds(candidates, input, at - 1),
{
    lemma_narrowing_resumes(candidates, input, at - 1);
}

/// Where no round keeps nothing, the survivors are what the last round
/// left.
pub proof fn lemma_without_freeze_the_last_round_decides(
    candidates: Seq<Candidate>,
    input: Seq<Seq<char>>,
)
    requires
        input.len() >= 1,
        forall|j: int|
            1 <= j < input.len() ==> #[trigger] after_rounds(candidates, input, j).len() > 0,
    ensures
        survivors(candidates, input) == after_rounds(candidates, input, input.len() - 1),
{
    lemma_narrowing_resumes(candidates, input, input.len() - 1);
}

proof fn lemma_exact_match_stays(
    candidates: Seq<Candidate>,
    input: Seq<Seq<char>>,
    at: int,
    j: int,
)
    requires
        1 <= at,
        0 <= j < candidates.len(),
        candidates[j].1 == input,
    ensures
        narrowed_from(candidates, input, at).contains(candidates[j]),
    decreases input.len() - at,
{
    if at < input.len() {
        let exact = exact_pass(candidates, input[at], at);
        candidates.lemma_filter_contains(matches_exactly(input[at], at), j);
        let k = choose|k: int| 0 <= k < exact.len() && exact[k] == candidates[j];
        lemma_exact_match_stays(exact, input, at + 1, k);
    }
}

/// A candidate whose words are the words of the input, position for
/// position and of the same number, is among the survivors, as it is.
pub proof fn lemma_exact_match_survives(candidates: Seq<Candidate>, input: Seq<Seq<char>>, j: int)
    requires
        0 <= j < candidates.len(),
        candidates[j].1 == input,
    ensures
        survivors(candidates, input).contains(candidates[j]),
{
    lemma_exact_match_stays(candidates, input, 1, j);
}

/// The same for a catalog: an entry whose name begins with a word
/// character and has exactly the words of the input is found by the first
/// word of the input, and its candidate is among the survivors with its
/// words unchanged.
pub proof fn lemma_exact_entry_survives(catalog: Seq<Entry>, input: Seq<Seq<char>>, i: int)
    requires
        0 <= i < catalog.len(),
        input.len() >= 1,
        words(catalog[i].0) == input,
        !is_whitespace(catalog[i].0[0]),
    ensures
        ({
            let found = prefix_matches(catalog, input[0]);
            exists|j: int|
                0 <= j < found.len() && found[j] == catalog[i] && candidates_of(found)[j].1
                    == input && #[trigger] survivors(candidates_of(found), input).contains(
                    candidates_of(found)[j],
                )
        }),
{
    let name = catalog[i].0;
    if name.len() == 0 {
        assert(words(name) =~= Seq::empty());
    }
    lemma_first_word_begins_the_text(name);
    let found = prefix_matches(catalog, input[0]);
    catalog.lemma_filter_contains(begins_with(input[0]), i);
    let j = choose|j: int| 0 <= j < found.len() && found[j] == catalog[i];
    lemma_exact_match_survives(candidates_of(found), input, j);
}

} // verus!
