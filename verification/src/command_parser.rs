//! Splitting an input line into its words.

use vstd::prelude::*;
use vstd::string::StrSliceExecFns;
use crate::text::{chars_of, whitespace, with_open_word, words};

verus! {

/// Splits input lines into words.
pub struct CommandParser {}

impl CommandParser {
    /// A parser.
    pub fn new() -> (parser: CommandParser) {
        CommandParser {  }
    }

    /// The words of `input`, each a slice of it: the maximal runs of
    /// characters that are no whitespace, from left to right.
    pub fn parse_command<'a>(&self, input: &'a str) -> (parts: Vec<&'a str>)
        ensures
            parts.deep_view() == words(input@),
    {
        let chars = chars_of(input);
        let n: usize = chars.len();
        let mut parts: Vec<&'a str> = Vec::new();
        let mut start: usize = 0;
        let mut i: usize = 0;
        assert(parts.deep_view() =~= Seq::empty());
        assert(input@.take(0) =~= Seq::empty());
        while i < n
            invariant
                start <= i <= n,
                n == chars.len(),
                chars@ == input@,
                with_open_word(parts.deep_view(), input@.subrange(start as int, i as int)) == words(
                    input@.take(i as int),
                ),
                start < i <==> i > 0 && !crate::text::is_whitespace(input@[i - 1]),
            decreases n - i,
        {
            let ghost read = input@.take(i as int);
            let ghost next = input@.take(i + 1);
            let ghost done = parts.deep_view();
            let ghost word = input@.subrange(start as int, i as int);
            assert(next.drop_last() == read);
            assert(next.last() == chars@[i as int]);
            assert(i > 0 ==> next[next.len() - 2] == input@[i - 1]);
            if whitespace(chars[i]) {
                if start < i {
                    parts.push(input.substring_char(start, i));
                    assert(parts.deep_view() =~= done.push(word));
                }
                start = i + 1;
                assert(words(next) == words(read));
            } else {
                proof {
                    let longer = input@.subrange(start as int, i + 1);
                    assert(longer =~= word.push(chars@[i as int]));
                    if word.len() > 0 {
                        assert(words(read) == done.push(word));
                        assert(words(read).drop_last() =~= done);
                        assert(words(next) == done.push(longer));
                    } else {
                        assert(words(read) == done);
                        assert(seq![chars@[i as int]] =~= longer);
                        assert(words(next) == done.push(longer));
                    }
                }
            }
            i += 1;
        }
        assert(input@.take(n as int) == input@);
        if start < i {
            let ghost done = parts.deep_view();
            parts.push(input.substring_char(start, i));
            assert(parts.deep_view() =~= done.push(input@.subrange(start as int, i as int)));
        }
        parts
    }
}

} // verus!
