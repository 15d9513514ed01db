use cmd_cat::text::{
    chars_of, contains, copy_words, join, same_text, split_whitespace, starts_with, text_of,
    whitespace,
};

fn text_strings(words: &[&str]) -> Vec<String> {
    words.iter().map(|word| word.to_string()).collect()
}

#[test]
fn whitespace_is_the_unicode_white_space_property() {
    let mut code: u32 = 0;
    while code <= 0x10FFFF {
        if let Some(c) = char::from_u32(code) {
            assert_eq!(whitespace(c), c.is_whitespace(), "code point {:#x}", code);
        }
        code += 1;
    }
}

#[test]
fn whitespace_knows_the_common_separators() {
    assert!(whitespace(' '));
    assert!(whitespace('\t'));
    assert!(whitespace('\n'));
    assert!(whitespace('\r'));
    assert!(whitespace('\u{a0}'));
    assert!(whitespace('\u{3000}'));
    assert!(!whitespace('a'));
    assert!(!whitespace('-'));
    assert!(!whitespace('\u{200b}'));
}

#[test]
fn chars_of_gives_every_character_in_order() {
    assert_eq!(chars_of("git"), vec!['g', 'i', 't']);
    assert_eq!(chars_of(""), Vec::<char>::new());
    assert_eq!(chars_of("né 日本"), vec!['n', 'é', ' ', '日', '本']);
}

#[test]
fn text_of_takes_the_range() {
    let chars = chars_of("git clone");
    assert_eq!(text_of(&chars, 0, 3), "git");
    assert_eq!(text_of(&chars, 4, 9), "clone");
    assert_eq!(text_of(&chars, 4, 4), "");
    assert_eq!(text_of(&chars, 0, 9), "git clone");
}

#[test]
fn same_text_compares_character_by_character() {
    assert!(same_text("clone", "clone"));
    assert!(same_text("", ""));
    assert!(!same_text("clone", "clon"));
    assert!(!same_text("clon", "clone"));
    assert!(!same_text("clone", "clonE"));
    assert!(!same_text("", "a"));
}

#[test]
fn starts_with_accepts_the_empty_prefix() {
    assert!(starts_with("git clone", ""));
    assert!(starts_with("", ""));
}

#[test]
fn starts_with_compares_the_beginning() {
    assert!(starts_with("git clone", "git"));
    assert!(starts_with("git clone", "git clone"));
    assert!(starts_with("git clone", "gi"));
    assert!(!starts_with("git clone", "clone"));
    assert!(!starts_with("git", "git clone"));
    assert!(!starts_with("git clone", "Git"));
    assert!(!starts_with("", "g"));
}

#[test]
fn contains_finds_a_substring_anywhere() {
    assert!(contains("Clone a repository", "Clone"));
    assert!(contains("Clone a repository", "repo"));
    assert!(contains("Clone a repository", "tory"));
    assert!(contains("Clone a repository", "e a r"));
    assert!(contains("aab", "ab"));
    assert!(!contains("Clone a repository", "clone"));
    assert!(!contains("Clone a repository", "repos "));
    assert!(!contains("ab", "abc"));
}

#[test]
fn contains_finds_the_empty_pattern_everywhere() {
    assert!(contains("git", ""));
    assert!(contains("", ""));
    assert!(!contains("", "a"));
}

#[test]
fn split_whitespace_gives_the_words() {
    assert_eq!(split_whitespace("git clone {{url}}"), text_strings(&["git", "clone", "{{url}}"]));
    assert_eq!(split_whitespace("git"), text_strings(&["git"]));
}

#[test]
fn split_whitespace_ignores_any_amount_of_whitespace() {
    assert_eq!(split_whitespace("  git \t clone\n"), text_strings(&["git", "clone"]));
    assert_eq!(split_whitespace("a\u{a0}b\u{3000}c"), text_strings(&["a", "b", "c"]));
    assert_eq!(split_whitespace(""), Vec::<String>::new());
    assert_eq!(split_whitespace(" \t\r\n "), Vec::<String>::new());
}

#[test]
fn split_whitespace_agrees_with_the_standard_library() {
    let samples = [
        "",
        " ",
        "a",
        " a",
        "a ",
        "a b",
        "a  b",
        "  lead and trail  ",
        "tab\tand\nnewline\r\nmix",
        "git clone {{url}}[https://x]",
        "é 日本 語",
    ];
    for sample in samples.iter() {
        let expected: Vec<String> = sample.split_whitespace().map(String::from).collect();
        assert_eq!(split_whitespace(sample), expected, "sample {:?}", sample);
    }
}

#[test]
fn join_puts_the_separator_between_neighbours() {
    assert_eq!(join(&text_strings(&["git", "clone", "x"]), " "), "git clone x");
    assert_eq!(join(&text_strings(&["git"]), " "), "git");
    assert_eq!(join(&Vec::new(), " "), "");
    assert_eq!(join(&text_strings(&["a", "", "b"]), ", "), "a, , b");
    assert_eq!(join(&text_strings(&["a", "b"]), ""), "ab");
}

#[test]
fn join_undoes_split_whitespace_on_single_spaced_text() {
    let line = "git clone {{url}}";
    assert_eq!(join(&split_whitespace(line), " "), line);
}

#[test]
fn copy_words_copies_every_word() {
    let words = text_strings(&["git", "clone", ""]);
    assert_eq!(copy_words(&words), words);
    assert_eq!(copy_words(&Vec::new()), Vec::<String>::new());
}
