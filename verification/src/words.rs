//! Lists of words: keeping the words of one length, and lower-casing.

use crate::text::lowercase_of;
use vstd::prelude::*;
use vstd::string::*;

verus! {

/// The words of `words` that have exactly `length` characters, in their
/// order.
pub open spec fn of_length(words: Seq<Seq<char>>, length: int) -> Seq<Seq<char>> {
    words.filter(|word: Seq<char>| word.len() == length)
}

/// Each word of `words` in lower case, in the same place.
pub open spec fn lowercased(words: Seq<Seq<char>>) -> Seq<Seq<char>> {
    words.map_values(|word: Seq<char>| lowercase_of(word))
}

/// Keeps the words that have exactly `length` characters. A character is a
/// Unicode scalar value, not a byte.
pub fn keep_length(words: &Vec<String>, length: usize) -> (kept: Vec<String>)
    ensures
        kept.deep_view() == of_length(words.deep_view(), length as int),
        forall|i: int| 0 <= i < kept.len() ==> (#[trigger] kept[i])@.len() == length,
{
    let mut kept: Vec<String> = Vec::new();
    let ghost all = words.deep_view();
    assert(kept.deep_view() =~= of_length(all.take(0), length as int)) by {
        reveal(Seq::filter);
    }
    for i in 0..words.len()
        invariant
            all == words.deep_view(),
            kept.deep_view() == of_length(all.take(i as int), length as int),
            forall|k: int| 0 <= k < kept.len() ==> (#[trigger] kept[k])@.len() == length,
    {
        let word = &words[i];
        proof {
            reveal(Seq::filter);
            assert(all.take(i + 1).drop_last() =~= all.take(i as int));
            assert(all.take(i + 1).last() == word@);
        }
        if word.as_str().unicode_len() == length {
            let ghost before = kept.deep_view();
            kept.push(word.clone());
            assert(kept.deep_view() =~= before.push(word@));
        }
    }
    assert(all.take(words.len() as int) =~= all);
    kept
}

/// Lower-cases every word.
pub fn lowercase_all(words: &Vec<String>) -> (lowered: Vec<String>)
    ensures
        lowered.deep_view() == lowercased(words.deep_view()),
{
    let mut lowered: Vec<String> = Vec::new();
    for i in 0..words.len()
        invariant
            lowered.len() == i,
            forall|k: int| 0 <= k < i ==> (#[trigger] lowered[k])@ == lowercase_of(words[k]@),
    {
        lowered.push(words[i].as_str().to_lowercase());
    }
    assert(lowered.deep_view() =~= lowercased(words.deep_view()));
    lowered
}

} // verus!
