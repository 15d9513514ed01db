//! Colours for the terminal, written through `termion`.
//!
//! `termion` writes a foreground colour as an escape sequence, and writes
//! nothing in its place where the environment variable `NO_COLOR` is set.
//! The contracts here say what holds either way.

use vstd::prelude::*;
use crate::text::joined;

verus! {

/// The colours that the finder writes in.
#[derive(Clone, Copy, PartialEq, Eq, Debug)]
pub enum Tint {
    Red,
    LightRed,
    LightGreen,
    LightBlue,
    LightCyan,
}

/// The escape sequence that selects colour `number` of the 256-colour
/// palette as the foreground colour.
pub open spec fn foreground_code(number: Seq<char>) -> Seq<char> {
    seq!['\u{1b}', '[', '3', '8', ';', '5', ';'] + number + seq!['m']
}

/// The escape sequence that sets the foreground colour back to the
/// terminal's own.
pub open spec fn foreground_reset() -> Seq<char> {
    seq!['\u{1b}', '[', '3', '9', 'm']
}

/// The escape sequence that switches to bold.
pub open spec fn bold_code() -> Seq<char> {
    seq!['\u{1b}', '[', '1', 'm']
}

/// The escape sequence that switches every style off.
pub open spec fn style_reset() -> Seq<char> {
    seq!['\u{1b}', '[', 'm']
}

impl Tint {
    /// The escape sequence of the colour.
    pub open spec fn code(self) -> Seq<char> {
        match self {
            Tint::Red => foreground_code(seq!['1']),
            Tint::LightRed => foreground_code(seq!['9']),
            Tint::LightGreen => foreground_code(seq!['1', '0']),
            Tint::LightBlue => foreground_code(seq!['1', '2']),
            Tint::LightCyan => foreground_code(seq!['1', '4']),
        }
    }
}

/// `text` between a colour's escape sequence and the reset.
pub open spec fn painted(text: Seq<char>, code: Seq<char>) -> Seq<char> {
    code + text + foreground_reset()
}

/// Whether `result` is `text` written in `tint`: between the colour's
/// escape sequence and the reset, or, with colours switched off, before
/// the reset alone.
pub open spec fn tinted(text: Seq<char>, tint: Tint, result: Seq<char>) -> bool {
    result == painted(text, tint.code()) || result == painted(text, Seq::empty())
}

/// `termion::color::Fg(Red)` written out: the escape sequence for colour 1,
/// or nothing where `NO_COLOR` is set.
#[verifier::external_body]
fn red() -> (code: String)
    ensures
        code@ == Tint::Red.code() || code@ == Seq::<char>::empty(),
{
    format!("{}", termion::color::Fg(termion::color::Red))
}

/// `termion::color::Fg(LightRed)` written out: the escape sequence for
/// colour 9, or nothing where `NO_COLOR` is set.
#[verifier::external_body]
fn light_red() -> (code: String)
    ensures
        code@ == Tint::LightRed.code() || code@ == Seq::<char>::empty(),
{
    format!("{}", termion::color::Fg(termion::color::LightRed))
}

/// `termion::color::Fg(LightGreen)` written out: the escape sequence for
/// colour 10, or nothing where `NO_COLOR` is set.
#[verifier::external_body]
fn light_green() -> (code: String)
    ensures
        code@ == Tint::LightGreen.code() || code@ == Seq::<char>::empty(),
{
    format!("{}", termion::color::Fg(termion::color::LightGreen))
}

/// `termion::color::Fg(LightBlue)` written out: the escape sequence for
/// colour 12, or nothing where `NO_COLOR` is set.
#[verifier::external_body]
fn light_blue() -> (code: String)
    ensures
        code@ == Tint::LightBlue.code() || code@ == Seq::<char>::empty(),
{
    format!("{}", termion::color::Fg(termion::color::LightBlue))
}

/// `termion::color::Fg(LightCyan)` written out: the escape sequence for
/// colour 14, or nothing where `NO_COLOR` is set.
#[verifier::external_body]
fn light_cyan() -> (code: String)
    ensures
        code@ == Tint::LightCyan.code() || code@ == Seq::<char>::empty(),
{
    format!("{}", termion::color::Fg(termion::color::LightCyan))
}

/// `termion::color::Fg(Reset)` written out: always the escape sequence
/// that resets the foreground colour.
#[verifier::external_body]
fn reset() -> (code: String)
    ensures
        code@ == foreground_reset(),
{
    format!("{}", termion::color::Fg(termion::color::Reset))
}

/// `termion::style::Bold` written out: always the escape sequence for
/// bold.
#[verifier::external_body]
fn bold() -> (code: String)
    ensures
        code@ == bold_code(),
{
    format!("{}", termion::style::Bold)
}

/// `termion::style::Reset` written out: always the escape sequence that
/// switches every style off.
#[verifier::external_body]
fn plain() -> (code: String)
    ensures
        code@ == style_reset(),
{
    format!("{}", termion::style::Reset)
}

/// What `termion` writes to select `tint`.
pub fn foreground(tint: Tint) -> (code: String)
    ensures
        code@ == tint.code() || code@ == Seq::<char>::empty(),
{
    match tint {
        Tint::Red => red(),
        Tint::LightRed => light_red(),
        Tint::LightGreen => light_green(),
        Tint::LightBlue => light_blue(),
        Tint::LightCyan => light_cyan(),
    }
}

/// `text` with `before` in front of it and `after` behind it.
pub fn wrap(text: &str, before: &str, after: &str) -> (wrapped: String)
    ensures
        wrapped@ == before@ + text@ + after@,
{
    let mut wrapped = before.to_owned();
    wrapped.append(text);
    wrapped.append(after);
    wrapped
}

/// `text` in the colour `tint`.
pub fn colorize_text(text: &str, tint: Tint) -> (colored: String)
    ensures
        tinted(text@, tint, colored@),
{
    let code = foreground(tint);
    let after = reset();
    wrap(text, code.as_str(), after.as_str())
}

/// `text` in light green.
pub fn color_green(text: &str) -> (colored: String)
    ensures
        tinted(text@, Tint::LightGreen, colored@),
{
    colorize_text(text, Tint::LightGreen)
}

/// `text` in light red.
pub fn color_light_red(text: &str) -> (colored: String)
    ensures
        tinted(text@, Tint::LightRed, colored@),
{
    colorize_text(text, Tint::LightRed)
}

/// `text` in light cyan.
pub fn color_light_cyan(text: &str) -> (colored: String)
    ensures
        tinted(text@, Tint::LightCyan, colored@),
{
    colorize_text(text, Tint::LightCyan)
}

/// `text` in bold.
pub fn bold_text(text: &str) -> (bolded: String)
    ensures
        bolded@ == bold_code() + text@ + style_reset(),
{
    let before = bold();
    let after = plain();
    wrap(text, before.as_str(), after.as_str())
}

/// The colour of the word at `index` of a command, shown against the
/// input: red where the input has the same word at that position, light
/// blue where it has another word there, light cyan where the input is
/// shorter.
pub open spec fn shade(command_parts: Seq<Seq<char>>, input_parts: Seq<Seq<char>>, index: int) -> Tint {
    if index < input_parts.len() {
        if input_parts[index] == command_parts[index] {
            Tint::Red
        } else {
            Tint::LightBlue
        }
    } else {
        Tint::LightCyan
    }
}

/// Whether `result` shows the words `command_parts` against
/// `input_parts`: each word in its colour, the words joined by single
/// spaces.
pub open spec fn highlighted(
    command_parts: Seq<Seq<char>>,
    input_parts: Seq<Seq<char>>,
    result: Seq<char>,
) -> bool {
    exists|pieces: Seq<Seq<char>>|
        {
            &&& pieces.len() == command_parts.len()
            &&& forall|i: int|
                0 <= i < pieces.len() ==> tinted(
                    command_parts[i],
                    shade(command_parts, input_parts, i),
                    #[trigger] pieces[i],
                )
            &&& result == joined(pieces, seq![' '])
        }
}

/// Shows the words of a command against the words of the input, each
/// word in the colour that [`shade`] gives it.
pub fn format_command(command_parts: Vec<&str>, input_parts: Vec<&str>) -> (formatted: String)
    ensures
        highlighted(command_parts.deep_view(), input_parts.deep_view(), formatted@),
{
    let ghost command = command_parts.deep_view();
    let ghost input = input_parts.deep_view();
    let ghost mut pieces: Seq<Seq<char>> = Seq::empty();
    let mut formatted = String::new();
    let mut index: usize = 0;
    while index < command_parts.len()
        invariant
            index <= command_parts.len(),
            command == command_parts.deep_view(),
            input == input_parts.deep_view(),
            pieces.len() == index,
            forall|i: int|
                0 <= i < index ==> tinted(command[i], shade(command, input, i), #[trigger] pieces[i]),
            formatted@ == joined(pieces, seq![' ']),
        decreases command_parts.len() - index,
    {
        let part = command_parts[index];
        assert(command[index as int] == part@);
        let tint = if index < input_parts.len() {
            assert(input[index as int] == input_parts@[index as int]@);
            if crate::text::same_text(input_parts[index], part) {
                Tint::Red
            } else {
                Tint::LightBlue
            }
        } else {
            Tint::LightCyan
        };
        let colored = colorize_text(part, tint);
        if index > 0 {
            formatted.push(' ');
        }
        formatted.append(colored.as_str());
        proof {
            let longer = pieces.push(colored@);
            assert(longer.drop_last() =~= pieces);
            pieces = longer;
        }
        index += 1;
    }
    formatted
}

} // verus!
