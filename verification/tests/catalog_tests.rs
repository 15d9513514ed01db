use cmd_cat::catalog::Catalog;
use cmd_cat::commands::Command;

fn catalog_pair(name: &str, description: &str) -> (String, String) {
    (name.to_string(), description.to_string())
}

fn git_catalog() -> Catalog {
    let mut catalog = Catalog::new();
    catalog.insert(&Command::new("git clone {{url}}", "Clone a repository"));
    catalog.insert(&Command::new("git pull", "Pull changes"));
    catalog.insert(&Command::new("ls {{directory}}", "List the files of a directory"));
    catalog.insert(&Command::new("git push", "Push changes to the repository"));
    catalog
}

#[test]
fn command_new_keeps_name_and_description() {
    let command = Command::new("pwd", "Print the current directory:");
    assert_eq!(command.name, "pwd");
    assert_eq!(command.description, "Print the current directory:");
    assert_eq!(command.to_pair(), catalog_pair("pwd", "Print the current directory:"));
}

#[test]
fn a_new_catalog_is_empty() {
    let catalog = Catalog::new();
    assert_eq!(catalog.len(), 0);
    assert_eq!(catalog.rows(), Vec::new());
}

#[test]
fn insert_appends_in_order() {
    let catalog = git_catalog();
    assert_eq!(catalog.len(), 4);
    assert_eq!(
        catalog.rows(),
        vec![
            catalog_pair("git clone {{url}}", "Clone a repository"),
            catalog_pair("git pull", "Pull changes"),
            catalog_pair("ls {{directory}}", "List the files of a directory"),
            catalog_pair("git push", "Push changes to the repository"),
        ]
    );
}

#[test]
fn clear_removes_every_entry() {
    let mut catalog = git_catalog();
    catalog.clear();
    assert_eq!(catalog.len(), 0);
    assert_eq!(catalog.find_matching_commands(""), Vec::new());
}

#[test]
fn exact_lookup_finds_the_description() {
    let catalog = git_catalog();
    assert_eq!(catalog.get_command_description("git pull"), Some("Pull changes".to_string()));
    assert_eq!(catalog.get_command_description("git"), None);
    assert_eq!(catalog.get_command_description("git pull "), None);
    assert_eq!(catalog.get_command_description("Git pull"), None);
}

#[test]
fn exact_lookup_takes_the_first_of_two_entries_with_one_name() {
    let mut catalog = git_catalog();
    catalog.insert(&Command::new("git pull", "Another description"));
    assert_eq!(catalog.get_command_description("git pull"), Some("Pull changes".to_string()));
}

#[test]
fn prefix_search_keeps_catalog_order() {
    let catalog = git_catalog();
    assert_eq!(
        catalog.find_matching_commands("git"),
        vec![
            catalog_pair("git clone {{url}}", "Clone a repository"),
            catalog_pair("git pull", "Pull changes"),
            catalog_pair("git push", "Push changes to the repository"),
        ]
    );
    assert_eq!(
        catalog.find_matching_commands("git pu"),
        vec![catalog_pair("git pull", "Pull changes"), catalog_pair("git push", "Push changes to the repository")]
    );
    assert_eq!(catalog.find_matching_commands("clone"), Vec::new());
}

#[test]
fn the_empty_prefix_finds_everything() {
    let catalog = git_catalog();
    assert_eq!(catalog.find_matching_commands(""), catalog.rows());
}

#[test]
fn substring_search_looks_into_names_and_descriptions() {
    let catalog = git_catalog();
    assert_eq!(
        catalog.search_commands("repository"),
        vec![
            catalog_pair("git clone {{url}}", "Clone a repository"),
            catalog_pair("git push", "Push changes to the repository"),
        ]
    );
    assert_eq!(
        catalog.search_commands("directory"),
        vec![catalog_pair("ls {{directory}}", "List the files of a directory")]
    );
}

#[test]
fn substring_search_asks_for_every_word() {
    let catalog = git_catalog();
    assert_eq!(
        catalog.search_commands("changes git"),
        vec![catalog_pair("git pull", "Pull changes"), catalog_pair("git push", "Push changes to the repository")]
    );
    assert_eq!(
        catalog.search_commands("changes repository"),
        vec![catalog_pair("git push", "Push changes to the repository")]
    );
    assert_eq!(catalog.search_commands("changes clone"), Vec::new());
}

#[test]
fn substring_search_without_a_word_finds_everything() {
    let catalog = git_catalog();
    assert_eq!(catalog.search_commands(""), catalog.rows());
    assert_eq!(catalog.search_commands("   "), catalog.rows());
}

#[test]
fn substring_search_tells_upper_from_lower_case() {
    let catalog = git_catalog();
    assert_eq!(catalog.search_commands("clone"), vec![catalog_pair("git clone {{url}}", "Clone a repository")]);
    assert_eq!(catalog.search_commands("Clone"), vec![catalog_pair("git clone {{url}}", "Clone a repository")]);
    assert_eq!(catalog.search_commands("CLONE"), Vec::new());
}

#[test]
fn searches_give_the_same_result_each_time() {
    let catalog = git_catalog();
    assert_eq!(catalog.find_matching_commands("git"), catalog.find_matching_commands("git"));
    assert_eq!(catalog.search_commands("changes git"), catalog.search_commands("changes git"));
}
