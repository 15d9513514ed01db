use cmd_cat::resolver::{
    filter_by_exact_match, filter_by_placeholder_match, filter_matching_commands,
    progressive_search, string_to_words_arr,
};

fn words_of(words: &[&str]) -> Vec<String> {
    words.iter().map(|word| word.to_string()).collect()
}

fn candidate(index: usize, words: &[&str]) -> (usize, Vec<String>) {
    (index, words_of(words))
}

fn found(name: &str, description: &str) -> (String, String) {
    (name.to_string(), description.to_string())
}

fn git_candidates() -> Vec<(usize, Vec<String>)> {
    vec![
        candidate(0, &["git", "clone", "{{url}}"]),
        candidate(1, &["git", "pull"]),
        candidate(2, &["git", "{{command}}", "--help"]),
        candidate(3, &["git"]),
    ]
}

#[test]
fn string_to_words_arr_numbers_the_entries_and_splits_their_names() {
    let entries = vec![
        found("git clone {{url}}", "Clone a repository"),
        found("git  pull ", "Pull changes"),
        found("", "Nothing"),
    ];
    assert_eq!(
        string_to_words_arr(&entries),
        vec![candidate(0, &["git", "clone", "{{url}}"]), candidate(1, &["git", "pull"]), candidate(2, &[])]
    );
    assert_eq!(string_to_words_arr(&Vec::new()), Vec::new());
}

#[test]
fn the_exact_pass_keeps_equal_words_at_the_position() {
    let candidates = git_candidates();
    assert_eq!(
        filter_by_exact_match(&candidates, "clone", 1),
        vec![candidate(0, &["git", "clone", "{{url}}"])]
    );
    assert_eq!(filter_by_exact_match(&candidates, "git", 0), candidates);
    assert_eq!(filter_by_exact_match(&candidates, "clone", 0), Vec::new());
    assert_eq!(filter_by_exact_match(&candidates, "Clone", 1), Vec::new());
}

#[test]
fn the_exact_pass_leaves_out_candidates_that_are_too_short() {
    let candidates = git_candidates();
    assert_eq!(
        filter_by_exact_match(&candidates, "--help", 2),
        vec![candidate(2, &["git", "{{command}}", "--help"])]
    );
    assert_eq!(filter_by_exact_match(&candidates, "git", 3), Vec::new());
    assert_eq!(filter_by_exact_match(&candidates, "git", usize::MAX), Vec::new());
}

#[test]
fn the_exact_pass_does_not_take_a_placeholder_for_a_word() {
    let candidates = git_candidates();
    assert_eq!(filter_by_exact_match(&candidates, "status", 1), Vec::new());
    assert_eq!(
        filter_by_exact_match(&candidates, "{{command}}", 1),
        vec![candidate(2, &["git", "{{command}}", "--help"])]
    );
}

#[test]
fn the_placeholder_pass_binds_the_word() {
    let candidates = git_candidates();
    assert_eq!(
        filter_by_placeholder_match(&candidates, "status", 1),
        vec![candidate(2, &["git", "{{command}}[status]", "--help"])]
    );
    assert_eq!(
        filter_by_placeholder_match(&candidates, "https://x", 2),
        vec![candidate(0, &["git", "clone", "{{url}}[https://x]"])]
    );
}

#[test]
fn the_placeholder_pass_leaves_the_candidates_it_was_given_untouched() {
    let candidates = git_candidates();
    let before = candidates.clone();
    let kept = filter_by_placeholder_match(&candidates, "status", 1);
    assert_eq!(kept.len(), 1);
    assert_eq!(candidates, before);
}

#[test]
fn the_placeholder_pass_leaves_out_literals_and_short_candidates() {
    let candidates = git_candidates();
    assert_eq!(filter_by_placeholder_match(&candidates, "x", 0), Vec::new());
    assert_eq!(filter_by_placeholder_match(&candidates, "x", 3), Vec::new());
    assert_eq!(filter_by_placeholder_match(&candidates, "x", usize::MAX), Vec::new());
}

#[test]
fn the_placeholder_pass_asks_for_the_opening_braces_only() {
    let candidates = vec![candidate(0, &["run", "{{half"]), candidate(1, &["run", "{x}}"])];
    assert_eq!(
        filter_by_placeholder_match(&candidates, "w", 1),
        vec![candidate(0, &["run", "{{half[w]"])]
    );
}

#[test]
fn narrowing_with_one_word_keeps_every_candidate() {
    let candidates = git_candidates();
    assert_eq!(progressive_search(candidates.clone(), &words_of(&["git"])), candidates);
    assert_eq!(progressive_search(candidates.clone(), &Vec::new()), candidates);
}

#[test]
fn narrowing_prefers_equal_words_to_placeholders() {
    let kept = progressive_search(git_candidates(), &words_of(&["git", "clone"]));
    assert_eq!(kept, vec![candidate(0, &["git", "clone", "{{url}}"])]);
}

#[test]
fn narrowing_falls_back_to_placeholders() {
    let kept = progressive_search(git_candidates(), &words_of(&["git", "status"]));
    assert_eq!(kept, vec![candidate(2, &["git", "{{command}}[status]", "--help"])]);
}

#[test]
fn narrowing_binds_round_after_round() {
    let kept = progressive_search(git_candidates(), &words_of(&["git", "clone", "https://x"]));
    assert_eq!(kept, vec![candidate(0, &["git", "clone", "{{url}}[https://x]"])]);
}

#[test]
fn narrowing_freezes_at_the_first_round_that_keeps_nothing() {
    let candidates = git_candidates();
    let frozen = progressive_search(candidates.clone(), &words_of(&["git", "clone", "x", "y", "z"]));
    let round_before = progressive_search(candidates, &words_of(&["git", "clone", "x"]));
    assert_eq!(frozen, round_before);
    assert_eq!(frozen, vec![candidate(0, &["git", "clone", "{{url}}[x]"])]);
}

#[test]
fn narrowing_that_freezes_in_the_first_round_keeps_the_candidates() {
    let candidates = vec![candidate(0, &["git", "pull"]), candidate(1, &["git", "push"])];
    assert_eq!(progressive_search(candidates.clone(), &words_of(&["git", "clone"])), candidates);
}

#[test]
fn narrowing_does_not_go_on_behind_a_freeze() {
    let candidates = vec![candidate(0, &["a", "b", "c"]), candidate(1, &["a", "x", "d"])];
    let kept = progressive_search(candidates.clone(), &words_of(&["a", "q", "c"]));
    assert_eq!(kept, candidates);
}

#[test]
fn narrowing_keeps_shorter_candidates_when_it_freezes() {
    let candidates = vec![candidate(0, &["git"]), candidate(1, &["git", "pull"])];
    let kept = progressive_search(candidates.clone(), &words_of(&["git", "clone"]));
    assert_eq!(kept, candidates);
}

#[test]
fn narrowing_drops_shorter_candidates_when_another_goes_on() {
    let candidates = vec![candidate(0, &["git"]), candidate(1, &["git", "pull"])];
    let kept = progressive_search(candidates, &words_of(&["git", "pull"]));
    assert_eq!(kept, vec![candidate(1, &["git", "pull"])]);
}

#[test]
fn narrowing_never_empties_the_candidates() {
    let inputs: [&[&str]; 5] = [
        &["git"],
        &["git", "nothing"],
        &["git", "clone", "a", "b"],
        &["svn", "x"],
        &["git", "pull", "origin"],
    ];
    for input in inputs.iter() {
        assert!(!progressive_search(git_candidates(), &words_of(input)).is_empty());
    }
    assert_eq!(progressive_search(Vec::new(), &words_of(&["git", "pull"])), Vec::new());
}

#[test]
fn a_candidate_with_the_words_of_the_input_survives() {
    let inputs: [&[&str]; 4] =
        [&["git"], &["git", "pull"], &["git", "clone", "{{url}}"], &["git", "{{command}}", "--help"]];
    for input in inputs.iter() {
        let kept = progressive_search(git_candidates(), &words_of(input));
        assert!(kept.iter().any(|kept| kept.1 == words_of(input)), "input {:?}", input);
    }
}

#[test]
fn narrowing_gives_the_same_result_each_time() {
    let input = words_of(&["git", "status"]);
    assert_eq!(
        progressive_search(git_candidates(), &input),
        progressive_search(git_candidates(), &input)
    );
}

#[test]
fn filter_matching_commands_joins_the_words_and_adds_the_description() {
    let entries = vec![
        found("git clone {{url}}", "Clone a repository"),
        found("git  pull", "Pull changes"),
    ];
    let candidates =
        vec![candidate(1, &["git", "pull"]), candidate(0, &["git", "clone", "{{url}}[https://x]"])];
    assert_eq!(
        filter_matching_commands(candidates, entries.clone()),
        vec![
            found("git pull", "Pull changes"),
            found("git clone {{url}}[https://x]", "Clone a repository"),
        ]
    );
    assert_eq!(filter_matching_commands(Vec::new(), entries), Vec::new());
}
