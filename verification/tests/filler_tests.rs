use cmd_cat::filler::{replace_input_string, Filling};

fn filler_strings(words: &[&str]) -> Vec<String> {
    words.iter().map(|word| word.to_string()).collect()
}

fn filler_complete(command: &str) -> Filling {
    Filling::Complete { command: command.to_string() }
}

fn filler_ask(label: &str) -> Filling {
    Filling::Ask { label: label.to_string() }
}

#[test]
fn a_template_without_placeholders_comes_back_joined() {
    let tokens = filler_strings(&["git", "pull"]);
    assert_eq!(replace_input_string(&tokens, &Vec::new()), filler_complete("git pull"));
}

#[test]
fn a_template_without_placeholders_looks_at_no_answer() {
    let tokens = filler_strings(&["git", "pull", "--rebase"]);
    let answers = filler_strings(&["", "ignored"]);
    assert_eq!(replace_input_string(&tokens, &answers), filler_complete("git pull --rebase"));
}

#[test]
fn the_empty_template_gives_the_empty_command() {
    assert_eq!(replace_input_string(&Vec::new(), &Vec::new()), filler_complete(""));
}

#[test]
fn a_waiting_placeholder_is_asked_for_by_its_label() {
    let tokens = filler_strings(&["git", "clone", "{{url}}"]);
    assert_eq!(replace_input_string(&tokens, &Vec::new()), filler_ask("url"));
    let tokens = filler_strings(&["cp", "{{source_file|source_directory}}", "{{target}}"]);
    assert_eq!(
        replace_input_string(&tokens, &Vec::new()),
        filler_ask("source file or source directory")
    );
}

#[test]
fn the_answers_are_taken_in_order() {
    let tokens = filler_strings(&["cp", "{{source}}", "{{target}}"]);
    assert_eq!(replace_input_string(&tokens, &filler_strings(&["a.txt"])), filler_ask("target"));
    assert_eq!(
        replace_input_string(&tokens, &filler_strings(&["a.txt", "b.txt"])),
        filler_complete("cp a.txt b.txt")
    );
}

#[test]
fn an_answer_is_put_in_as_it_was_given() {
    let tokens = filler_strings(&["echo", "{{text}}"]);
    assert_eq!(
        replace_input_string(&tokens, &filler_strings(&["two  words {{x}}"])),
        filler_complete("echo two  words {{x}}")
    );
}

#[test]
fn a_bound_placeholder_gives_its_value_without_asking() {
    let tokens = filler_strings(&["git", "clone", "{{url}}[https://x]"]);
    assert_eq!(replace_input_string(&tokens, &Vec::new()), filler_complete("git clone https://x"));
}

#[test]
fn bound_and_waiting_placeholders_mix() {
    let tokens = filler_strings(&["scp", "{{file}}[a.txt]", "{{host}}", "{{port}}[22]"]);
    assert_eq!(replace_input_string(&tokens, &Vec::new()), filler_ask("host"));
    assert_eq!(
        replace_input_string(&tokens, &filler_strings(&["example.org"])),
        filler_complete("scp a.txt example.org 22")
    );
}

#[test]
fn an_empty_answer_cancels() {
    let tokens = filler_strings(&["git", "clone", "{{url}}"]);
    assert_eq!(replace_input_string(&tokens, &filler_strings(&[""])), Filling::Cancelled);
}

#[test]
fn an_empty_answer_cancels_whatever_was_answered_before() {
    let tokens = filler_strings(&["cp", "{{source}}", "{{target}}"]);
    assert_eq!(replace_input_string(&tokens, &filler_strings(&["a.txt", ""])), Filling::Cancelled);
    assert_eq!(replace_input_string(&tokens, &filler_strings(&["", "b.txt"])), Filling::Cancelled);
}

#[test]
fn an_empty_answer_beyond_the_placeholders_is_not_looked_at() {
    let tokens = filler_strings(&["git", "clone", "{{url}}"]);
    assert_eq!(
        replace_input_string(&tokens, &filler_strings(&["https://x", ""])),
        filler_complete("git clone https://x")
    );
}

#[test]
fn words_of_other_shapes_pass_as_literals() {
    let tokens = filler_strings(&["tar", "--file={{archive}}", "{{dir}}.tgz", "{{open"]);
    assert_eq!(
        replace_input_string(&tokens, &Vec::new()),
        filler_complete("tar --file={{archive}} {{dir}}.tgz {{open")
    );
}
