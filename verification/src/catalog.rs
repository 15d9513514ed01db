//! The catalog of command templates, held in memory in the order in which
//! the entries were inserted, with the three searches of the resolver:
//! exact lookup, prefix search and substring search.

use vstd::prelude::*;
use crate::commands::Command;
use crate::text::{contains, occurs_in, same_text, split_whitespace, starts_with, words};

verus! {

/// The model of an entry: its name and its description.
pub type Entry = (Seq<char>, Seq<char>);

/// The entries whose name begins with `prefix`.
pub open spec fn begins_with(prefix: Seq<char>) -> spec_fn(Entry) -> bool {
    |entry: Entry| prefix.is_prefix_of(entry.0)
}

/// Whether `word` is a substring of the entry's name or of its description.
pub open spec fn mentions(entry: Entry, word: Seq<char>) -> bool {
    occurs_in(word, entry.0) || occurs_in(word, entry.1)
}

/// The entries that mention `word`.
pub open spec fn mentioning(word: Seq<char>) -> spec_fn(Entry) -> bool {
    |entry: Entry| mentions(entry, word)
}

/// The entries that mention every one of `words`.
pub open spec fn mentioning_all(words: Seq<Seq<char>>) -> spec_fn(Entry) -> bool {
    |entry: Entry| forall|k: int| 0 <= k < words.len() ==> mentions(entry, #[trigger] words[k])
}

/// Prefix search: the entries whose name begins with `prefix`, in catalog
/// order. The empty prefix finds every entry.
pub open spec fn prefix_matches(entries: Seq<Entry>, prefix: Seq<char>) -> Seq<Entry> {
    entries.filter(begins_with(prefix))
}

/// Substring search: the entries that mention every one of `words`, in
/// catalog order. Without words it finds every entry.
pub open spec fn substring_matches(entries: Seq<Entry>, words: Seq<Seq<char>>) -> Seq<Entry> {
    entries.filter(mentioning_all(words))
}

/// Filtering twice keeps what a single filter for both conditions keeps.
pub proof fn lemma_filter_twice<A>(
    s: Seq<A>,
    first: spec_fn(A) -> bool,
    second: spec_fn(A) -> bool,
    both: spec_fn(A) -> bool,
)
    requires
        forall|a: A| #[trigger] both(a) == (first(a) && second(a)),
    ensures
        s.filter(first).filter(second) == s.filter(both),
    decreases s.len(),
{
    reveal(Seq::filter);
    if s.len() > 0 {
        lemma_filter_twice(s.drop_last(), first, second, both);
        if first(s.last()) {
            s.drop_last().filter(first).lemma_filter_push(s.last(), second);
        }
    }
}

/// A filter that every element passes keeps the sequence as it is.
pub proof fn lemma_filter_keeps_all<A>(s: Seq<A>, keep: spec_fn(A) -> bool)
    requires
        forall|i: int| 0 <= i < s.len() ==> keep(#[trigger] s[i]),
    ensures
        s.filter(keep) == s,
    decreases s.len(),
{
    reveal(Seq::filter);
    if s.len() > 0 {
        lemma_filter_keeps_all(s.drop_last(), keep);
        assert(s.drop_last().push(s.last()) =~= s);
    }
}

/// The rows of `list` that mention `word`, in their order.
fn keep_mentioning(list: Vec<(String, String)>, word: &str) -> (kept: Vec<(String, String)>)
    ensures
        kept.deep_view() == list.deep_view().filter(mentioning(word@)),
{
    let ghost rows = list.deep_view();
    let mut kept: Vec<(String, String)> = Vec::new();
    assert(kept.deep_view() =~= rows.take(0).filter(mentioning(word@))) by {
        reveal(Seq::filter);
    }
    let mut i: usize = 0;
    while i < list.len()
        invariant
            i <= list.len(),
            rows == list.deep_view(),
            kept.deep_view() == rows.take(i as int).filter(mentioning(word@)),
        decreases list.len() - i,
    {
        let ghost before = kept.deep_view();
        proof {
            assert(rows.take(i + 1) == rows.take(i as int).push(rows[i as int]));
            rows.take(i as int).lemma_filter_push(rows[i as int], mentioning(word@));
        }
        if contains(list[i].0.as_str(), word) || contains(list[i].1.as_str(), word) {
            kept.push((list[i].0.clone(), list[i].1.clone()));
            assert(kept.deep_view() =~= before.push(rows[i as int]));
        }
        i += 1;
    }
    assert(rows.take(i as int) == rows);
    kept
}

/// The catalog: the entries in the order of their insertion.
pub struct Catalog {
    entries: Vec<Command>,
}

impl View for Catalog {
    type V = Seq<Entry>;

    closed spec fn view(&self) -> Seq<Entry> {
        self.entries.deep_view()
    }
}

impl Catalog {
    /// The empty catalog.
    pub fn new() -> (catalog: Catalog)
        ensures
            catalog@ == Seq::<Entry>::empty(),
    {
        let catalog = Catalog { entries: Vec::new() };
        assert(catalog@ =~= Seq::<Entry>::empty());
        catalog
    }

    /// The number of entries.
    pub fn len(&self) -> (n: usize)
        ensures
            n == self@.len(),
    {
        self.entries.len()
    }

    /// Adds `command` behind the entries that are there.
    pub fn insert(&mut self, command: &Command)
        ensures
            final(self)@ == old(self)@.push(command@),
    {
        self.entries.push(Command::new(command.name.as_str(), command.description.as_str()));
        assert(self@ =~= old(self)@.push(command@));
    }

    /// Removes every entry.
    pub fn clear(&mut self)
        ensures
            final(self)@ == Seq::<Entry>::empty(),
    {
        self.entries.clear();
        assert(self@ =~= Seq::<Entry>::empty());
    }

    /// Every entry as a pair of name and description, in catalog order.
    pub fn rows(&self) -> (rows: Vec<(String, String)>)
        ensures
            rows.deep_view() == self@,
    {
        let mut rows: Vec<(String, String)> = Vec::new();
        assert(rows.deep_view() =~= self@.take(0));
        let mut i: usize = 0;
        while i < self.entries.len()
            invariant
                i <= self.entries.len(),
                rows.deep_view() == self@.take(i as int),
            decreases self.entries.len() - i,
        {
            let ghost before = rows.deep_view();
            rows.push(self.entries[i].to_pair());
            proof {
                assert(self@[i as int] == self.entries@[i as int]@);
                assert(rows.deep_view() =~= before.push(self@[i as int]));
                assert(self@.take(i + 1) == self@.take(i as int).push(self@[i as int]));
            }
            i += 1;
        }
        assert(self@.take(i as int) == self@);
        rows
    }

    /// Exact lookup: the description of the first entry named
    /// `command_name`, if there is one.
    pub fn get_command_description(&self, command_name: &str) -> (description: Option<String>)
        ensures
            match description {
                Some(text) => exists|i: int|
                    0 <= i < self@.len() && (#[trigger] self@[i]).0 == command_name@ && text@
                        == self@[i].1 && forall|j: int|
                        0 <= j < i ==> (#[trigger] self@[j]).0 != command_name@,
                None => forall|i: int|
                    0 <= i < self@.len() ==> (#[trigger] self@[i]).0 != command_name@,
            },
    {
        let mut i: usize = 0;
        while i < self.entries.len()
            invariant
                i <= self.entries.len(),
                forall|j: int| 0 <= j < i ==> (#[trigger] self@[j]).0 != command_name@,
            decreases self.entries.len() - i,
        {
            assert(self@[i as int] == self.entries@[i as int]@);
            if same_text(self.entries[i].name.as_str(), command_name) {
                return Some(self.entries[i].description.clone());
            }
            i += 1;
        }
        None
    }

    /// Prefix search: the entries whose name begins with `prefix`, in
    /// catalog order.
    pub fn find_matching_commands(&self, prefix: &str) -> (matching: Vec<(String, String)>)
        ensures
            matching.deep_view() == prefix_matches(self@, prefix@),
    {
        let mut matching: Vec<(String, String)> = Vec::new();
        assert(matching.deep_view() =~= self@.take(0).filter(begins_with(prefix@))) by {
            reveal(Seq::filter);
        }
        let mut i: usize = 0;
        while i < self.entries.len()
            invariant
                i <= self.entries.len(),
                matching.deep_view() == self@.take(i as int).filter(begins_with(prefix@)),
            decreases self.entries.len() - i,
        {
            let ghost before = matching.deep_view();
            proof {
                assert(self@[i as int] == self.entries@[i as int]@);
                assert(self@.take(i + 1) == self@.take(i as int).push(self@[i as int]));
                self@.take(i as int).lemma_filter_push(self@[i as int], begins_with(prefix@));
            }
            if starts_with(self.entries[i].name.as_str(), prefix) {
                matching.push(self.entries[i].to_pair());
                assert(matching.deep_view() =~= before.push(self@[i as int]));
            }
            i += 1;
        }
        assert(self@.take(i as int) == self@);
        matching
    }

    /// Substring search: splits `input` into words and keeps, word after
    /// word, the entries whose name or description holds the word. What
    /// remains is every entry that mentions all the words, in catalog
    /// order; for an input without a word that is the whole catalog.
    pub fn search_commands(&self, input: &str) -> (matching: Vec<(String, String)>)
        ensures
            matching.deep_view() == substring_matches(self@, words(input@)),
    {
        let search_words = split_whitespace(input);
        let ghost sought = search_words.deep_view();
        let mut matching = self.rows();
        proof {
            lemma_filter_keeps_all(self@, mentioning_all(sought.take(0)));
        }
        let mut j: usize = 0;
        while j < search_words.len()
            invariant
                j <= search_words.len(),
                sought == search_words.deep_view(),
                matching.deep_view() == self@.filter(mentioning_all(sought.take(j as int))),
            decreases search_words.len() - j,
        {
            proof {
                let upto = sought.take(j as int);
                let next = sought.take(j + 1);
                assert(sought[j as int] == search_words@[j as int]@);
                assert forall|entry: Entry| #[trigger]
                    mentioning_all(next)(entry) == (mentioning_all(upto)(entry) && mentioning(
                        sought[j as int],
                    )(entry)) by {
                    if mentioning_all(next)(entry) {
                        assert(next[j as int] == sought[j as int]);
                        assert forall|k: int| 0 <= k < upto.len() implies mentions(
                            entry,
                            #[trigger] upto[k],
                        ) by {
                            assert(upto[k] == next[k]);
                        }
                    }
                    if mentioning_all(upto)(entry) && mentions(entry, sought[j as int]) {
                        assert forall|k: int| 0 <= k < next.len() implies mentions(
                            entry,
                            #[trigger] next[k],
                        ) by {
                            if k < j {
                                assert(next[k] == upto[k]);
                            }
                        }
                    }
                }
                lemma_filter_twice(
                    self@,
                    mentioning_all(upto),
                    mentioning(sought[j as int]),
                    mentioning_all(next),
                );
            }
            matching = keep_mentioning(matching, search_words[j].as_str());
            j += 1;
        }
        assert(sought.take(j as int) == sought);
        matching
    }
}

} // verus!
