//! The items of the menu from which the user picks a candidate.

use vstd::prelude::*;
use crate::color_style::{format_command, highlighted};
use crate::command_parser::CommandParser;
use crate::text::words;

verus! {

/// A menu item: the description, and on the next line, indented by two
/// spaces, the command as it is shown.
pub open spec fn menu_item(description: Seq<char>, shown: Seq<char>) -> Seq<char> {
    description + seq!['\n', ' ', ' '] + shown
}

/// Shows a command against the input: each word of the command in the
/// colour that tells whether the input has the same word at its position,
/// another word, or no word.
pub fn highlight_command(command: &str, input: &str) -> (shown: String)
    ensures
        highlighted(words(command@), words(input@), shown@),
{
    let parser = CommandParser::new();
    let command_parts = parser.parse_command(command);
    let input_parts = parser.parse_command(input);
    format_command(command_parts, input_parts)
}

/// Shows a description: as it is.
pub fn highlight_description(description: &str) -> (shown: String)
    ensures
        shown@ == description@,
{
    description.to_owned()
}

/// Whether `item` is the menu item of the candidate with this name and
/// description, its command shown against `input`.
pub open spec fn shows(
    name: Seq<char>,
    description: Seq<char>,
    input: Seq<char>,
    item: Seq<char>,
) -> bool {
    exists|shown: Seq<char>|
        #[trigger] highlighted(words(name), words(input), shown) && item == menu_item(
            description,
            shown,
        )
}

/// The menu items for the candidates, in their order: each candidate's
/// description and its command shown against `input`.
pub fn get_command_array(matching_commands: &Vec<(String, String)>, input: &str) -> (menu_items: Vec<
    String,
>)
    ensures
        menu_items.len() == matching_commands.len(),
        forall|i: int|
            0 <= i < menu_items.len() ==> shows(
                matching_commands@[i].0@,
                matching_commands@[i].1@,
                input@,
                (#[trigger] menu_items@[i])@,
            ),
{
    let mut menu_items: Vec<String> = Vec::new();
    let mut i: usize = 0;
    while i < matching_commands.len()
        invariant
            i <= matching_commands.len(),
            menu_items.len() == i,
            forall|k: int|
                0 <= k < i ==> shows(
                    matching_commands@[k].0@,
                    matching_commands@[k].1@,
                    input@,
                    (#[trigger] menu_items@[k])@,
                ),
        decreases matching_commands.len() - i,
    {
        let colored_command = highlight_command(matching_commands[i].0.as_str(), input);
        let mut menu_item = highlight_description(matching_commands[i].1.as_str());
        menu_item.push('\n');
        menu_item.push(' ');
        menu_item.push(' ');
        menu_item.append(colored_command.as_str());
        proof {
            assert(menu_item@ =~= self::menu_item(
                matching_commands@[i as int].1@,
                colored_command@,
            ));
            assert(highlighted(
                words(matching_commands@[i as int].0@),
                words(input@),
                colored_command@,
            ));
            assert(shows(
                matching_commands@[i as int].0@,
                matching_commands@[i as int].1@,
                input@,
                menu_item@,
            ));
        }
        menu_items.push(menu_item);
        i += 1;
    }
    menu_items
}

} // verus!
