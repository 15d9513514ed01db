use cmd_cat::file_parse::extract_key_value_from_file;

fn sheet_pair(command: &str, description: &str) -> (String, String) {
    (command.to_string(), description.to_string())
}

#[test]
fn a_description_and_its_command_make_a_pair() {
    let sheet = "- Clone a repository\n`git clone {{url}}`\n";
    assert_eq!(
        extract_key_value_from_file(sheet),
        vec![sheet_pair("git clone {{url}}", "Clone a repository")]
    );
}

#[test]
fn a_sheet_holds_several_pairs_in_order() {
    let sheet = "# git\n\n> Distributed version control.\n\n- Clone a repository:\n\n`git clone {{url}}`\n\n- Pull changes:\n\n`git pull`\n";
    assert_eq!(
        extract_key_value_from_file(sheet),
        vec![
            sheet_pair("git clone {{url}}", "Clone a repository:"),
            sheet_pair("git pull", "Pull changes:"),
        ]
    );
}

#[test]
fn the_last_pair_needs_no_line_feed() {
    let sheet = "- Pull changes\n`git pull`";
    assert_eq!(extract_key_value_from_file(sheet), vec![sheet_pair("git pull", "Pull changes")]);
}

#[test]
fn whitespace_and_marks_around_the_texts_are_stripped() {
    let sheet = "  --  Pull changes  \r\n\t``  git pull  ``  \r\n";
    assert_eq!(extract_key_value_from_file(sheet), vec![sheet_pair("git pull", "Pull changes")]);
}

#[test]
fn an_empty_sheet_holds_no_pair() {
    assert_eq!(extract_key_value_from_file(""), Vec::new());
    assert_eq!(extract_key_value_from_file("\n\n"), Vec::new());
    assert_eq!(extract_key_value_from_file("just text\nmore text"), Vec::new());
}

#[test]
fn a_description_without_a_command_is_replaced_by_the_next() {
    let sheet = "- First\n- Second\n`ls`\n";
    assert_eq!(extract_key_value_from_file(sheet), vec![sheet_pair("ls", "Second")]);
}

#[test]
fn a_command_without_a_description_makes_no_pair() {
    assert_eq!(extract_key_value_from_file("`ls`\n"), Vec::new());
    assert_eq!(extract_key_value_from_file("- Only a description\n"), Vec::new());
}

#[test]
fn a_later_command_replaces_the_command_at_hand() {
    let sheet = "- List\n`ls`\n`ls -l`\n";
    assert_eq!(extract_key_value_from_file(sheet), vec![sheet_pair("ls -l", "List")]);
}

#[test]
fn a_command_before_its_description_is_paired_with_it() {
    let sheet = "`ls`\n- List\n- Next\n`pwd`\n";
    assert_eq!(
        extract_key_value_from_file(sheet),
        vec![sheet_pair("ls", "List"), sheet_pair("pwd", "Next")]
    );
}

#[test]
fn a_line_must_begin_and_end_with_a_backtick_to_be_a_command() {
    let sheet = "- List\n`ls` and more\nls`\n";
    assert_eq!(extract_key_value_from_file(sheet), Vec::new());
}

#[test]
fn empty_parts_make_no_pair() {
    assert_eq!(extract_key_value_from_file("-\n`ls`\n"), Vec::new());
    assert_eq!(extract_key_value_from_file("- List\n``\n"), Vec::new());
    assert_eq!(extract_key_value_from_file("- List\n`\n"), Vec::new());
    assert_eq!(extract_key_value_from_file("- List\n`  `\n"), Vec::new());
}

#[test]
fn dashes_inside_a_description_stay() {
    let sheet = "- Long-running -- task -\n`run`\n";
    assert_eq!(extract_key_value_from_file(sheet), vec![sheet_pair("run", "Long-running -- task -")]);
}
