//! The placeholder grammar of command templates.
//!
//! A word of a template is a placeholder when it reads `{{identifier}}`,
//! optionally followed at once by `[value]`, the value that was bound to it;
//! every other word is a literal. The identifier is whatever stands between
//! the opening braces and the first `}}` after them. The value is whatever
//! stands between the `[` after the closing braces and the `]` that ends the
//! word.

use vstd::prelude::*;
use crate::text::{chars_of, text_of};

verus! {

/// What a word of a template stands for.
pub ghost enum Slot {
    /// Text that is taken as it is.
    Literal,
    /// A placeholder that still waits for its value.
    Open { id: Seq<char> },
    /// A placeholder with the value bound to it.
    Bound { value: Seq<char> },
}

/// A word of a template, read by the grammar.
#[derive(Clone, Debug, PartialEq, Eq)]
pub enum Token {
    /// Text that is taken as it is.
    Literal,
    /// A placeholder that still waits for its value.
    Open { id: String },
    /// A placeholder with the value bound to it.
    Bound { value: String },
}

impl View for Token {
    type V = Slot;

    open spec fn view(&self) -> Slot {
        match self {
            Token::Literal => Slot::Literal,
            Token::Open { id } => Slot::Open { id: id@ },
            Token::Bound { value } => Slot::Bound { value: value@ },
        }
    }
}

/// Whether the word begins with `{{`.
pub open spec fn opens_placeholder(token: Seq<char>) -> bool {
    token.len() >= 2 && token[0] == '{' && token[1] == '{'
}

/// The least index at or after `from` at which `}}` begins, or the length of
/// the word where there is none.
pub open spec fn closing_from(token: Seq<char>, from: int) -> int
    decreases token.len() - from,
{
    if from + 1 >= token.len() {
        token.len() as int
    } else if token[from] == '}' && token[from + 1] == '}' {
        from
    } else {
        closing_from(token, from + 1)
    }
}

/// Reads a word by the grammar.
pub open spec fn slot(token: Seq<char>) -> Slot {
    let close = closing_from(token, 2);
    if !opens_placeholder(token) || close >= token.len() {
        Slot::Literal
    } else {
        let tail = token.skip(close + 2);
        if tail.len() == 0 {
            Slot::Open { id: token.subrange(2, close) }
        } else if tail.len() >= 2 && tail.first() == '[' && tail.last() == ']' {
            Slot::Bound { value: tail.subrange(1, tail.len() - 1) }
        } else {
            Slot::Literal
        }
    }
}

/// The word with `value` bound to it: `[value]` is written behind it.
pub open spec fn bound(token: Seq<char>, value: Seq<char>) -> Seq<char> {
    token + seq!['['] + value + seq![']']
}

/// How one character of an identifier is shown to the user.
pub open spec fn spoken(c: char) -> Seq<char> {
    if c == '_' {
        seq![' ']
    } else if c == '|' {
        seq![' ', 'o', 'r', ' ']
    } else {
        seq![c]
    }
}

/// The label under which a placeholder is asked for: its identifier with
/// `_` shown as a space and `|` as ` or `.
pub open spec fn label(id: Seq<char>) -> Seq<char>
    decreases id.len(),
{
    if id.len() == 0 {
        Seq::empty()
    } else {
        label(id.drop_last()) + spoken(id.last())
    }
}

/// Whether the word begins with `{{`, which is what makes a word of a
/// candidate accept any input word in its place.
pub fn is_placeholder(token: &str) -> (opens: bool)
    ensures
        opens == opens_placeholder(token@),
{
    let chars = chars_of(token);
    chars.len() >= 2 && chars[0] == '{' && chars[1] == '{'
}

/// Binds `value` to the word by writing `[value]` behind it.
pub fn bind_placeholder(token: &str, value: &str) -> (word: String)
    ensures
        word@ == bound(token@, value@),
{
    let mut word = token.to_owned();
    word.push('[');
    word.append(value);
    word.push(']');
    assert(word@ =~= bound(token@, value@));
    word
}

/// Reads a word by the grammar.
pub fn classify(token: &str) -> (kind: Token)
    ensures
        kind@ == slot(token@),
{
    let chars = chars_of(token);
    let n: usize = chars.len();
    if n < 2 || chars[0] != '{' || chars[1] != '{' {
        return Token::Literal;
    }
    let mut close: usize = 2;
    while close < n - 1 && !(chars[close] == '}' && chars[close + 1] == '}')
        invariant
            2 <= close <= n,
            n == chars.len(),
            closing_from(chars@, 2) == closing_from(chars@, close as int),
        decreases n - close,
    {
        close += 1;
    }
    if close >= n - 1 {
        return Token::Literal;
    }
    let ghost tail = chars@.skip(close + 2);
    if close + 2 == n {
        Token::Open { id: text_of(&chars, 2, close) }
    } else if n - (close + 2) >= 2 && chars[close + 2] == '[' && chars[n - 1] == ']' {
        let value = text_of(&chars, close + 3, n - 1);
        assert(value@ =~= tail.subrange(1, tail.len() - 1));
        Token::Bound { value }
    } else {
        Token::Literal
    }
}

/// The label under which the placeholder `word` is asked for.
pub fn replace_word(word: &str) -> (text: String)
    ensures
        text@ == label(word@),
{
    let chars = chars_of(word);
    let mut text = String::new();
    let mut i: usize = 0;
    while i < chars.len()
        invariant
            i <= chars.len(),
            text@ == label(chars@.take(i as int)),
        decreases chars.len() - i,
    {
        let c = chars[i];
        assert(chars@.take(i + 1).drop_last() == chars@.take(i as int));
        if c == '_' {
            text.push(' ');
        } else if c == '|' {
            text.push(' ');
            text.push('o');
            text.push('r');
            text.push(' ');
        } else {
            text.push(c);
        }
        assert(text@ =~= label(chars@.take(i as int)) + spoken(c));
        i += 1;
    }
    assert(chars@.take(i as int) == chars@);
    text
}

/// Where `closing_from` finds `}}`, it stands there, at or after `from`.
proof fn lemma_closing_is_a_closing(token: Seq<char>, from: int)
    requires
        0 <= from,
    ensures
        ({
            let close = closing_from(token, from);
            close == token.len() || (from <= close && close + 1 < token.len() && token[close]
                == '}' && token[close + 1] == '}')
        }),
    decreases token.len() - from,
{
    if from + 1 < token.len() && !(token[from] == '}' && token[from + 1] == '}') {
        lemma_closing_is_a_closing(token, from + 1);
    }
}

/// Up to the first `}}` a word and a longer word that begins with it read
/// alike.
proof fn lemma_closing_ignores_what_follows(token: Seq<char>, longer: Seq<char>, from: int)
    requires
        0 <= from,
        token.is_prefix_of(longer),
        closing_from(token, from) < token.len(),
    ensures
        closing_from(longer, from) == closing_from(token, from),
    decreases token.len() - from,
{
    if from + 1 < token.len() {
        assert(longer[from] == token[from]);
        assert(longer[from + 1] == token[from + 1]);
        if !(token[from] == '}' && token[from + 1] == '}') {
            lemma_closing_ignores_what_follows(token, longer, from + 1);
        }
    }
}

/// A placeholder that waited for its value holds, once a value is bound to
/// it, exactly that value, whatever characters the value is made of.
pub proof fn lemma_bound_value_is_kept(token: Seq<char>, value: Seq<char>)
    requires
        slot(token) is Open,
    ensures
        slot(bound(token, value)) == (Slot::Bound { value }),
{
    let word = bound(token, value);
    let close = closing_from(token, 2);
    assert(token.is_prefix_of(word));
    lemma_closing_is_a_closing(token, 2);
    lemma_closing_ignores_what_follows(token, word, 2);
    let tail = word.skip(close + 2);
    assert(tail =~= seq!['['] + value + seq![']']);
    assert(tail.subrange(1, tail.len() - 1) =~= value);
}

} // verus!
