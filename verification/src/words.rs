//! Splitting text into whitespace-separated words.

use vstd::prelude::*;
use vstd::utf8::encode_utf8;

verus! {

/// The whitespace-separated words of a text, in order.  What the standard
/// splitter returns is a pure function of the characters alone, so it is
/// given a name rather than restated.
pub uninterp spec fn words_of(s: Seq<char>) -> Seq<Seq<char>>;

/// Relies on str::split_whitespace: the words are the maximal runs of
/// non-whitespace, in order.  Being disjoint non-empty substrings, there are
/// never more of them than characters, and each word's encoded byte length,
/// being at most the text's own, fits the machine.
#[verifier::external_body]
pub fn split_words(text: &str) -> (words: Vec<String>)
    ensures
        words@.len() == words_of(text@).len(),
        forall|i: int| 0 <= i < words@.len() ==> words@[i]@ == words_of(text@)[i],
        words@.len() <= text@.len(),
        forall|i: int|
            0 <= i < words@.len() ==> #[trigger] encode_utf8(words@[i]@).len() <= usize::MAX,
{
    text.split_whitespace().map(|w| w.to_string()).collect()
}

} // verus!
