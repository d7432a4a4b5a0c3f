//! Texts that are looked up in the catalog of the reader's language.

use vstd::prelude::*;

verus! {

/// A text of the catalog: its key, and what is put in for its arguments.
pub struct Phrase<T = String, A = Vec<(String, String)>> {
    pub key: T,
    /// The name of each argument, and its value.
    pub arguments: A,
}

/// A text of the catalog over sequences.
pub type PhraseView = Phrase<Seq<char>, Seq<(Seq<char>, Seq<char>)>>;

impl View for Phrase<String, Vec<(String, String)>> {
    type V = PhraseView;

    open spec fn view(&self) -> PhraseView {
        Phrase {
            key: self.key@,
            arguments: self.arguments@.map_values(|one: (String, String)| (one.0@, one.1@)),
        }
    }
}

/// The view of an optional text.
pub open spec fn opt_phrase(phrase: Option<Phrase>) -> Option<PhraseView> {
    match phrase {
        Some(phrase) => Some(phrase@),
        None => None,
    }
}

/// A text without arguments.
pub open spec fn plain(key: Seq<char>) -> PhraseView {
    Phrase { key, arguments: Seq::empty() }
}

/// A text with one argument.
pub open spec fn with_argument(key: Seq<char>, name: Seq<char>, value: Seq<char>) -> PhraseView {
    Phrase { key, arguments: seq![(name, value)] }
}

/// A text with two arguments.
pub open spec fn with_arguments(
    key: Seq<char>,
    first: (Seq<char>, Seq<char>),
    second: (Seq<char>, Seq<char>),
) -> PhraseView {
    Phrase { key, arguments: seq![first, second] }
}

/// A text without arguments.
pub(crate) fn phrase(key: &str) -> (phrase: Phrase)
    ensures
        phrase@ == plain(key@),
{
    let phrase = Phrase { key: key.to_owned(), arguments: Vec::new() };
    assert(phrase@.arguments =~= Seq::empty());
    phrase
}

/// A text with one argument.
pub(crate) fn phrase_with(key: &str, name: &str, value: &str) -> (phrase: Phrase)
    ensures
        phrase@ == with_argument(key@, name@, value@),
{
    let mut arguments: Vec<(String, String)> = Vec::new();
    arguments.push((name.to_owned(), value.to_owned()));
    let phrase = Phrase { key: key.to_owned(), arguments };
    assert(phrase@.arguments =~= seq![(name@, value@)]);
    phrase
}

/// A text with two arguments.
pub(crate) fn phrase_with_two(key: &str, first: (&str, &str), second: (&str, &str)) -> (phrase: Phrase)
    ensures
        phrase@ == with_arguments(key@, (first.0@, first.1@), (second.0@, second.1@)),
{
    let mut arguments: Vec<(String, String)> = Vec::new();
    arguments.push((first.0.to_owned(), first.1.to_owned()));
    arguments.push((second.0.to_owned(), second.1.to_owned()));
    let phrase = Phrase { key: key.to_owned(), arguments };
    assert(phrase@.arguments =~= seq![(first.0@, first.1@), (second.0@, second.1@)]);
    phrase
}

} // verus!
