//! Reading cheat sheets: a description line that begins with `-`, and
//! after it the command template between backticks.
//!
//! ```text
//! - Clone a repository
//! `git clone {{url}}`
//! ```

use vstd::prelude::*;
use crate::text::{chars_of, is_whitespace, text_of, whitespace};

verus! {

/// A class of characters that is stripped from the ends of a line.
pub enum Strip {
    /// Whitespace.
    Whitespace,
    /// One given character.
    Only(char),
}

impl Strip {
    /// Whether `c` belongs to the class.
    pub open spec fn strips(self, c: char) -> bool {
        match self {
            Strip::Whitespace => is_whitespace(c),
            Strip::Only(one) => c == one,
        }
    }

    /// Decides [`Strip::strips`].
    pub fn takes(&self, c: char) -> (takes: bool)
        ensures
            takes == self.strips(c),
    {
        match self {
            Strip::Whitespace => whitespace(c),
            Strip::Only(one) => c == *one,
        }
    }
}

/// `s` without the characters of the class that it begins with.
pub open spec fn without_leading(s: Seq<char>, class: Strip) -> Seq<char>
    decreases s.len(),
{
    if s.len() > 0 && class.strips(s.first()) {
        without_leading(s.drop_first(), class)
    } else {
        s
    }
}

/// `s` without the characters of the class that it ends with.
pub open spec fn without_trailing(s: Seq<char>, class: Strip) -> Seq<char>
    decreases s.len(),
{
    if s.len() > 0 && class.strips(s.last()) {
        without_trailing(s.drop_last(), class)
    } else {
        s
    }
}

/// `s` without the characters of the class at both ends.
pub open spec fn stripped(s: Seq<char>, class: Strip) -> Seq<char> {
    without_trailing(without_leading(s, class), class)
}

/// The pieces of `s` between its line feeds. A text that ends in a line
/// feed has an empty last piece.
pub open spec fn lines(s: Seq<char>) -> Seq<Seq<char>>
    decreases s.len(),
{
    if s.len() == 0 {
        seq![Seq::empty()]
    } else if s.last() == '\n' {
        lines(s.drop_last()).push(Seq::empty())
    } else {
        let before = lines(s.drop_last());
        before.drop_last().push(before.last().push(s.last()))
    }
}

/// What has been read of a cheat sheet: the finished pairs of command and
/// description, and the command and the description that were read last
/// and are not paired yet.
pub ghost struct Reading {
    pub pairs: Seq<(Seq<char>, Seq<char>)>,
    pub key: Seq<char>,
    pub value: Seq<char>,
}

/// Whether the line, stripped of whitespace, is a description line.
pub open spec fn is_description_line(line: Seq<char>) -> bool {
    line.len() > 0 && line.first() == '-'
}

/// Whether the line, stripped of whitespace, is a command line.
pub open spec fn is_command_line(line: Seq<char>) -> bool {
    line.len() > 0 && line.first() == '`' && line.last() == '`'
}

/// Reads one line. A description line first finishes the pair at hand,
/// where both its command and its description are there, and becomes the
/// new description, without its leading `-` and the whitespace around
/// the rest. A command line becomes the new command, without the
/// backticks and the whitespace between them. Any other line is passed
/// over.
pub open spec fn read_line(state: Reading, line: Seq<char>) -> Reading {
    let text = stripped(line, Strip::Whitespace);
    if is_description_line(text) {
        let value = stripped(without_leading(text, Strip::Only('-')), Strip::Whitespace);
        if state.key.len() > 0 && state.value.len() > 0 {
            Reading {
                pairs: state.pairs.push((state.key, state.value)),
                key: Seq::empty(),
                value,
            }
        } else {
            Reading { value, ..state }
        }
    } else if is_command_line(text) {
        Reading { key: stripped(stripped(text, Strip::Only('`')), Strip::Whitespace), ..state }
    } else {
        state
    }
}

/// Reads the lines in order, beginning with nothing.
pub open spec fn read_lines(lines: Seq<Seq<char>>) -> Reading
    decreases lines.len(),
{
    if lines.len() == 0 {
        Reading { pairs: Seq::empty(), key: Seq::empty(), value: Seq::empty() }
    } else {
        read_line(read_lines(lines.drop_last()), lines.last())
    }
}

/// The pairs of command and description that a cheat sheet holds: the
/// pairs finished while reading its lines, and the pair at hand at the end
/// where both its parts are there.
pub open spec fn extracted(input: Seq<char>) -> Seq<(Seq<char>, Seq<char>)> {
    let end = read_lines(lines(input));
    if end.key.len() > 0 && end.value.len() > 0 {
        end.pairs.push((end.key, end.value))
    } else {
        end.pairs
    }
}

/// The index behind the characters of the class that `chars[from..to]`
/// begins with.
fn skip_leading(chars: &Vec<char>, from: usize, to: usize, class: &Strip) -> (start: usize)
    requires
        from <= to <= chars.len(),
    ensures
        from <= start <= to,
        chars@.subrange(start as int, to as int) == without_leading(
            chars@.subrange(from as int, to as int),
            *class,
        ),
{
    let mut start: usize = from;
    while start < to && class.takes(chars[start])
        invariant
            from <= start <= to <= chars.len(),
            without_leading(chars@.subrange(start as int, to as int), *class) == without_leading(
                chars@.subrange(from as int, to as int),
                *class,
            ),
        decreases to - start,
    {
        assert(chars@.subrange(start as int, to as int).drop_first() == chars@.subrange(
            start + 1,
            to as int,
        ));
        start += 1;
    }
    start
}

/// The index of the first of the characters of the class that
/// `chars[from..to]` ends with.
fn skip_trailing(chars: &Vec<char>, from: usize, to: usize, class: &Strip) -> (end: usize)
    requires
        from <= to <= chars.len(),
    ensures
        from <= end <= to,
        chars@.subrange(from as int, end as int) == without_trailing(
            chars@.subrange(from as int, to as int),
            *class,
        ),
{
    let mut end: usize = to;
    while from < end && class.takes(chars[end - 1])
        invariant
            from <= end <= to <= chars.len(),
            without_trailing(chars@.subrange(from as int, end as int), *class) == without_trailing(
                chars@.subrange(from as int, to as int),
                *class,
            ),
        decreases end - from,
    {
        assert(chars@.subrange(from as int, end as int).drop_last() == chars@.subrange(
            from as int,
            end - 1,
        ));
        end -= 1;
    }
    end
}

/// Reads one line into the pairs, the command and the description at
/// hand.
fn take_line(
    line: &Vec<char>,
    results: &mut Vec<(String, String)>,
    current_key: &mut String,
    current_value: &mut String,
)
    ensures
        (Reading {
            pairs: final(results).deep_view(),
            key: final(current_key)@,
            value: final(current_value)@,
        }) == read_line(
            Reading {
                pairs: old(results).deep_view(),
                key: old(current_key)@,
                value: old(current_value)@,
            },
            line@,
        ),
{
    let ghost done = results.deep_view();
    let ghost pair = (current_key@, current_value@);
    let from = skip_leading(line, 0, line.len(), &Strip::Whitespace);
    let to = skip_trailing(line, from, line.len(), &Strip::Whitespace);
    assert(line@.subrange(0, line.len() as int) == line@);
    let ghost text = line@.subrange(from as int, to as int);
    assert(text == stripped(line@, Strip::Whitespace));
    if from < to && line[from] == '-' {
        assert(is_description_line(text));
        if !current_key.as_str().is_empty() && !current_value.as_str().is_empty() {
            results.push((current_key.clone(), current_value.clone()));
            *current_key = String::new();
            assert(results.deep_view() =~= done.push(pair));
        }
        let rest = skip_leading(line, from, to, &Strip::Only('-'));
        let inner = skip_leading(line, rest, to, &Strip::Whitespace);
        let end = skip_trailing(line, inner, to, &Strip::Whitespace);
        *current_value = text_of(line, inner, end);
    } else if from < to && line[from] == '`' && line[to - 1] == '`' {
        assert(is_command_line(text));
        let open = skip_leading(line, from, to, &Strip::Only('`'));
        let close = skip_trailing(line, open, to, &Strip::Only('`'));
        let inner = skip_leading(line, open, close, &Strip::Whitespace);
        let end = skip_trailing(line, inner, close, &Strip::Whitespace);
        *current_key = text_of(line, inner, end);
    } else {
        assert(!is_description_line(text) && !is_command_line(text));
    }
}

/// The pairs of command and description in the text of a cheat sheet, in
/// the order in which they stand there.
pub fn extract_key_value_from_file(input: &str) -> (results: Vec<(String, String)>)
    ensures
        results.deep_view() == extracted(input@),
{
    let chars = chars_of(input);
    let mut results: Vec<(String, String)> = Vec::new();
    let mut current_key = String::new();
    let mut current_value = String::new();
    let mut line: Vec<char> = Vec::new();
    let mut i: usize = 0;
    assert(results.deep_view() =~= Seq::empty());
    assert(lines(input@.take(0)).drop_last() =~= Seq::empty());
    while i < chars.len()
        invariant
            i <= chars.len(),
            chars@ == input@,
            lines(input@.take(i as int)).last() == line@,
            read_lines(lines(input@.take(i as int)).drop_last()) == (Reading {
                pairs: results.deep_view(),
                key: current_key@,
                value: current_value@,
            }),
        decreases chars.len() - i,
    {
        let ghost read = lines(input@.take(i as int));
        let ghost next = lines(input@.take(i + 1));
        assert(input@.take(i + 1).drop_last() == input@.take(i as int));
        if chars[i] != '\n' {
            assert(next.drop_last() =~= read.drop_last());
            line.push(chars[i]);
        } else {
            assert(next.drop_last() =~= read);
            take_line(&line, &mut results, &mut current_key, &mut current_value);
            line.clear();
        }
        i += 1;
    }
    assert(input@.take(i as int) == input@);
    take_line(&line, &mut results, &mut current_key, &mut current_value);
    if !current_key.as_str().is_empty() && !current_value.as_str().is_empty() {
        let ghost done = results.deep_view();
        let ghost pair = (current_key@, current_value@);
        results.push((current_key, current_value));
        assert(results.deep_view() =~= done.push(pair));
    }
    results
}

} // verus!
