//! Character-level building blocks shared by the tokenizer, the catalog
//! searches and the placeholder grammar.
//!
//! Every text is modelled by its sequence of characters (`Seq<char>`), the
//! view of `str` and `String`.

use vstd::prelude::*;
use vstd::std_specs::iter::IteratorSpec;

verus! {

/// `String::push` of the standard library: the string afterwards is the
/// string before with `c` appended as its last character.
pub assume_specification[ String::push ](s: &mut String, c: char)
    ensures
        final(s)@ == old(s)@.push(c),
;

/// The characters that separate words: the code points that Unicode gives
/// the `White_Space` property.
pub open spec fn is_whitespace(c: char) -> bool {
    ||| '\u{9}' <= c <= '\u{d}'
    ||| c == ' '
    ||| c == '\u{85}'
    ||| c == '\u{a0}'
    ||| c == '\u{1680}'
    ||| '\u{2000}' <= c <= '\u{200a}'
    ||| c == '\u{2028}'
    ||| c == '\u{2029}'
    ||| c == '\u{202f}'
    ||| c == '\u{205f}'
    ||| c == '\u{3000}'
}

/// Decides [`is_whitespace`].
pub fn whitespace(c: char) -> (b: bool)
    ensures
        b == is_whitespace(c),
{
    ('\u{9}' <= c && c <= '\u{d}') || c == ' ' || c == '\u{85}' || c == '\u{a0}' || c == '\u{1680}'
        || ('\u{2000}' <= c && c <= '\u{200a}') || c == '\u{2028}' || c == '\u{2029}' || c
        == '\u{202f}' || c == '\u{205f}' || c == '\u{3000}'
}

/// The characters of `s`, in order.
pub fn chars_of(s: &str) -> (chars: Vec<char>)
    ensures
        chars@ == s@,
{
    broadcast use vstd::string::group_string_axioms;

    let mut chars: Vec<char> = Vec::new();
    let source = s.chars();
    for c in it: source
        invariant
            it.seq() == s@,
            chars@ == s@.take(it.index()),
    {
        assert(s@.take(it.index() + 1) == s@.take(it.index()).push(c));
        chars.push(c);
    }
    chars
}

/// The text made of `chars[from..to]`.
pub fn text_of(chars: &Vec<char>, from: usize, to: usize) -> (text: String)
    requires
        from <= to <= chars.len(),
    ensures
        text@ == chars@.subrange(from as int, to as int),
{
    let mut text = String::new();
    let mut i: usize = from;
    while i < to
        invariant
            from <= i <= to <= chars.len(),
            text@ == chars@.subrange(from as int, i as int),
        decreases to - i,
    {
        text.push(chars[i]);
        i += 1;
        assert(chars@.subrange(from as int, i as int) == chars@.subrange(from as int, i - 1).push(
            chars@[i - 1],
        ));
    }
    text
}

/// Whether two texts hold the same characters.
pub fn same_text(a: &str, b: &str) -> (same: bool)
    ensures
        same == (a@ == b@),
{
    broadcast use vstd::string::group_string_axioms;

    let mut left = a.chars();
    let mut right = b.chars();
    let ghost mut k: int = 0;
    loop
        invariant
            left.obeys_prophetic_iter_laws(),
            right.obeys_prophetic_iter_laws(),
            0 <= k <= a@.len(),
            k <= b@.len(),
            left.remaining() == a@.skip(k),
            right.remaining() == b@.skip(k),
            a@.take(k) == b@.take(k),
        decreases a@.len() - k,
    {
        let x = left.next();
        let y = right.next();
        match (x, y) {
            (None, None) => {
                assert(a@.take(k) == a@);
                assert(b@.take(k) == b@);
                return true;
            },
            (Some(c), Some(d)) => {
                if c != d {
                    assert(a@[k] != b@[k]);
                    return false;
                }
                proof {
                    assert(a@.take(k + 1) == a@.take(k).push(c));
                    assert(b@.take(k + 1) == b@.take(k).push(d));
                    assert(a@.skip(k).drop_first() == a@.skip(k + 1));
                    assert(b@.skip(k).drop_first() == b@.skip(k + 1));
                    k = k + 1;
                }
            },
            _ => {
                assert(a@.len() != b@.len());
                return false;
            },
        }
    }
}

/// Whether `text` begins with `prefix`. The empty prefix begins every text.
pub fn starts_with(text: &str, prefix: &str) -> (found: bool)
    ensures
        found == prefix@.is_prefix_of(text@),
{
    broadcast use vstd::string::group_string_axioms;

    let mut whole = text.chars();
    let mut head = prefix.chars();
    let ghost mut k: int = 0;
    loop
        invariant
            whole.obeys_prophetic_iter_laws(),
            head.obeys_prophetic_iter_laws(),
            0 <= k <= text@.len(),
            k <= prefix@.len(),
            whole.remaining() == text@.skip(k),
            head.remaining() == prefix@.skip(k),
            text@.take(k) == prefix@.take(k),
        decreases prefix@.len() - k,
    {
        match head.next() {
            None => {
                assert(prefix@.take(k) == prefix@);
                return true;
            },
            Some(d) => {
                match whole.next() {
                    None => {
                        return false;
                    },
                    Some(c) => {
                        if c != d {
                            assert(prefix@.len() <= text@.len() ==> text@.subrange(
                                0,
                                prefix@.len() as int,
                            )[k] != prefix@[k]);
                            return false;
                        }
                        proof {
                            assert(text@.take(k + 1) == text@.take(k).push(c));
                            assert(prefix@.take(k + 1) == prefix@.take(k).push(d));
                            assert(text@.skip(k).drop_first() == text@.skip(k + 1));
                            assert(prefix@.skip(k).drop_first() == prefix@.skip(k + 1));
                            k = k + 1;
                        }
                    },
                }
            },
        }
    }
}

/// A copy of `list` that holds the same texts in the same order.
pub fn copy_words(list: &Vec<String>) -> (copy: Vec<String>)
    ensures
        copy.deep_view() == list.deep_view(),
{
    let mut copy: Vec<String> = Vec::new();
    let mut i: usize = 0;
    while i < list.len()
        invariant
            i <= list.len(),
            copy.len() == i,
            forall|k: int| 0 <= k < i ==> copy@[k]@ == list@[k]@,
        decreases list.len() - i,
    {
        copy.push(list[i].clone());
        i += 1;
    }
    assert(copy.deep_view() =~= list.deep_view());
    copy
}

/// Whether `pattern` stands in `text` at offset `at`.
pub open spec fn occurs_at(pattern: Seq<char>, text: Seq<char>, at: int) -> bool {
    &&& 0 <= at
    &&& at + pattern.len() <= text.len()
    &&& text.subrange(at, at + pattern.len()) == pattern
}

/// Whether `pattern` is a substring of `text`. The empty pattern is a
/// substring of every text.
pub open spec fn occurs_in(pattern: Seq<char>, text: Seq<char>) -> bool {
    exists|at: int| occurs_at(pattern, text, at)
}

fn matches_at(text: &Vec<char>, pattern: &Vec<char>, at: usize) -> (found: bool)
    requires
        at + pattern.len() <= text.len(),
    ensures
        found == occurs_at(pattern@, text@, at as int),
{
    let mut j: usize = 0;
    while j < pattern.len()
        invariant
            j <= pattern.len(),
            at + pattern.len() <= text.len(),
            text@.subrange(at as int, at + j) == pattern@.take(j as int),
        decreases pattern.len() - j,
    {
        if text[at + j] != pattern[j] {
            assert(text@.subrange(at as int, at + pattern.len())[j as int] != pattern@[j as int]);
            return false;
        }
        assert(text@.subrange(at as int, at + j + 1) == text@.subrange(at as int, at + j).push(
            text@[at + j],
        ));
        assert(pattern@.take(j + 1) == pattern@.take(j as int).push(pattern@[j as int]));
        j += 1;
    }
    assert(pattern@.take(j as int) == pattern@);
    true
}

/// Whether `pattern` is a substring of `text`.
pub fn contains(text: &str, pattern: &str) -> (found: bool)
    ensures
        found == occurs_in(pattern@, text@),
{
    let hay = chars_of(text);
    let needle = chars_of(pattern);
    if needle.len() > hay.len() {
        return false;
    }
    let last: usize = hay.len() - needle.len();
    let mut at: usize = 0;
    loop
        invariant
            at <= last,
            last + needle.len() == hay.len(),
            hay@ == text@,
            needle@ == pattern@,
            forall|k: int| 0 <= k < at ==> !occurs_at(pattern@, text@, k),
        decreases last - at,
    {
        if matches_at(&hay, &needle, at) {
            return true;
        }
        if at == last {
            return false;
        }
        at += 1;
    }
}

/// The words of `s`: its maximal runs of characters that are no whitespace,
/// from left to right. Read from the last character backwards: whitespace
/// adds nothing, a character after a word character lengthens the last
/// word, any other character starts a new word.
pub open spec fn words(s: Seq<char>) -> Seq<Seq<char>>
    decreases s.len(),
{
    if s.len() == 0 {
        Seq::empty()
    } else {
        let before = words(s.drop_last());
        if is_whitespace(s.last()) {
            before
        } else if s.len() >= 2 && !is_whitespace(s[s.len() - 2]) {
            before.drop_last().push(before.last().push(s.last()))
        } else {
            before.push(seq![s.last()])
        }
    }
}

/// A text that begins with a word character has a first word, and that
/// word is what the text begins with; where such a text has one word
/// only and ends in a word character, the word is the whole text.
pub proof fn lemma_first_word_begins_the_text(s: Seq<char>)
    requires
        s.len() > 0,
        !is_whitespace(s[0]),
    ensures
        words(s).len() >= 1,
        words(s)[0].is_prefix_of(s),
        words(s).len() == 1 && !is_whitespace(s.last()) ==> words(s)[0] == s,
    decreases s.len(),
{
    let before = s.drop_last();
    if s.len() == 1 {
        assert(words(before) =~= Seq::empty());
        assert(seq![s.last()] =~= s);
    } else {
        lemma_first_word_begins_the_text(before);
        assert(before.last() == s[s.len() - 2]);
        if !is_whitespace(s.last()) && !is_whitespace(before.last()) && words(before).len() == 1 {
            assert(words(before)[0].push(s.last()) =~= s);
        }
    }
}

/// The finished words together with the word that is still being read.
pub open spec fn with_open_word(done: Seq<Seq<char>>, open: Seq<char>) -> Seq<Seq<char>> {
    if open.len() > 0 {
        done.push(open)
    } else {
        done
    }
}

/// Splits `s` at whitespace into its words.
pub fn split_whitespace(s: &str) -> (tokens: Vec<String>)
    ensures
        tokens.deep_view() == words(s@),
{
    broadcast use vstd::string::group_string_axioms;

    let mut tokens: Vec<String> = Vec::new();
    let mut open = String::new();
    assert(tokens.deep_view() =~= Seq::empty());
    let source = s.chars();
    for c in it: source
        invariant
            it.seq() == s@,
            with_open_word(tokens.deep_view(), open@) == words(s@.take(it.index())),
            open@.len() > 0 <==> it.index() > 0 && !is_whitespace(s@[it.index() - 1]),
    {
        let ghost read = s@.take(it.index());
        let ghost next = s@.take(it.index() + 1);
        let ghost done = tokens.deep_view();
        let ghost word = open@;
        assert(next.drop_last() == read);
        assert(next.last() == c);
        assert(it.index() > 0 ==> next[next.len() - 2] == s@[it.index() - 1]);
        if whitespace(c) {
            if !open.as_str().is_empty() {
                tokens.push(open);
                open = String::new();
                assert(tokens.deep_view() =~= done.push(word));
            }
            assert(words(next) == words(read));
        } else {
            open.push(c);
            proof {
                if word.len() > 0 {
                    assert(words(read) == done.push(word));
                    assert(words(read).drop_last() =~= done);
                    assert(words(next) == done.push(word.push(c)));
                } else {
                    assert(words(read) == done);
                    assert(seq![c] =~= word.push(c));
                    assert(words(next) == done.push(seq![c]));
                }
            }
        }
    }
    assert(s@.take(s@.len() as int) == s@);
    if !open.as_str().is_empty() {
        let ghost done = tokens.deep_view();
        tokens.push(open);
        assert(tokens.deep_view() =~= done.push(tokens@.last()@));
    }
    tokens
}

/// The parts written one after the other with `separator` between each two
/// neighbours.
pub open spec fn joined(parts: Seq<Seq<char>>, separator: Seq<char>) -> Seq<char>
    decreases parts.len(),
{
    if parts.len() == 0 {
        Seq::empty()
    } else if parts.len() == 1 {
        parts[0]
    } else {
        joined(parts.drop_last(), separator) + separator + parts.last()
    }
}

/// Joins `parts` with `separator` between each two neighbours.
pub fn join(parts: &Vec<String>, separator: &str) -> (text: String)
    ensures
        text@ == joined(parts.deep_view(), separator@),
{
    let mut text = String::new();
    let mut i: usize = 0;
    while i < parts.len()
        invariant
            i <= parts.len(),
            text@ == joined(parts.deep_view().take(i as int), separator@),
        decreases parts.len() - i,
    {
        let ghost upto = parts.deep_view().take(i + 1);
        assert(upto.drop_last() == parts.deep_view().take(i as int));
        assert(upto.last() == parts@[i as int]@);
        if i > 0 {
            text.append(separator);
        }
        text.append(parts[i].as_str());
        i += 1;
    }
    assert(parts.deep_view().take(i as int) == parts.deep_view());
    text
}

} // verus!
