//! The candidates that are words of the list, case aside.

use crate::dictionary::{dictionary_of, lines_of, texts_of};
use crate::text::lowercase_of;
use crate::words::{lowercase_all, lowercased, of_length};
use vstd::hash_set::StringHashSet;
use vstd::prelude::*;
use vstd::string::*;

verus! {

/// The words of `words` that occur in `dictionary`, in their order. A word
/// that stands several times in `words` stays as often.
pub open spec fn known_words(words: Seq<Seq<char>>, dictionary: Seq<Seq<char>>) -> Seq<
    Seq<char>,
> {
    words.filter(|word: Seq<char>| dictionary.contains(word))
}

/// The output for `candidates` and a word list: each candidate is
/// lower-cased, and those whose lower-case form is a word of the list are
/// kept, in that form and in the order of the candidates.
pub open spec fn matches_of(candidates: Seq<Seq<char>>, dictionary: Seq<Seq<char>>) -> Seq<
    Seq<char>,
> {
    known_words(lowercased(candidates), dictionary)
}

/// Keeps the words that occur in `dictionary`, compared character by
/// character.
pub fn keep_known(words: &Vec<String>, dictionary: &Vec<String>) -> (kept: Vec<String>)
    ensures
        kept.deep_view() == known_words(words.deep_view(), dictionary.deep_view()),
{
    let ghost all = words.deep_view();
    let ghost list = dictionary.deep_view();
    let mut index = StringHashSet::new();
    for i in 0..dictionary.len()
        invariant
            list == dictionary.deep_view(),
            forall|word: Seq<char>| #[trigger]
                index@.contains(word) <==> list.take(i as int).contains(word),
    {
        let ghost before = index@;
        let ghost seen = list.take(i as int);
        let ghost next = list.take(i + 1);
        index.insert(dictionary[i].clone());
        proof {
            assert forall|word: Seq<char>| #[trigger]
                index@.contains(word) <==> next.contains(word) by {
                if next.contains(word) {
                    let k = choose|k: int| 0 <= k < next.len() && #[trigger] next[k] == word;
                    if k < i {
                        assert(seen[k] == word);
                    }
                }
                if before.contains(word) {
                    let k = choose|k: int| 0 <= k < seen.len() && #[trigger] seen[k] == word;
                    assert(next[k] == word);
                }
                if word == list[i as int] {
                    assert(next[i as int] == word);
                }
            }
        }
    }
    assert(list.take(dictionary.len() as int) =~= list);
    let mut kept: Vec<String> = Vec::new();
    assert(kept.deep_view() =~= known_words(all.take(0), list)) by {
        reveal(Seq::filter);
    }
    for i in 0..words.len()
        invariant
            all == words.deep_view(),
            list == dictionary.deep_view(),
            forall|word: Seq<char>| #[trigger] index@.contains(word) <==> list.contains(word),
            kept.deep_view() == known_words(all.take(i as int), list),
    {
        let word = &words[i];
        proof {
            reveal(Seq::filter);
            assert(all.take(i + 1).drop_last() =~= all.take(i as int));
            assert(all.take(i + 1).last() == word@);
        }
        if index.contains(word.as_str()) {
            let ghost before = kept.deep_view();
            kept.push(word.clone());
            assert(kept.deep_view() =~= before.push(word@));
        }
    }
    assert(all.take(words.len() as int) =~= all);
    kept
}

/// Picks the candidates that are words of `dictionary`, case aside. What
/// comes back is each such candidate in lower case, in the order of
/// `candidates`.
pub fn intersect(candidates: &Vec<String>, dictionary: &Vec<String>) -> (matches: Vec<String>)
    ensures
        matches.deep_view() == matches_of(candidates.deep_view(), dictionary.deep_view()),
{
    let lowered = lowercase_all(candidates);
    keep_known(&lowered, dictionary)
}

/// Filtering keeps the order: two items that pass stand in the result as
/// they stood before it.
proof fn lemma_filter_keeps_order<A>(items: Seq<A>, pred: spec_fn(A) -> bool, i: int, j: int)
    requires
        0 <= i < j < items.filter(pred).len(),
    ensures
        exists|p: int, q: int|
            #![trigger items[p], items[q]]
            0 <= p < q < items.len() && items[p] == items.filter(pred)[i] && items[q]
                == items.filter(pred)[j],
    decreases items.len(),
{
    reveal(Seq::filter);
    let passed = items.filter(pred);
    if items.len() > 0 {
        let rest = items.drop_last();
        let before = rest.filter(pred);
        if pred(items.last()) && j == passed.len() - 1 {
            assert(before.contains(before[i]));
            rest.lemma_filter_contains_rev(pred, before[i]);
            let p = choose|p: int| 0 <= p < rest.len() && rest[p] == before[i];
            let q = items.len() - 1;
            assert(items[p] == passed[i] && items[q] == passed[j]);
        } else {
            lemma_filter_keeps_order(rest, pred, i, j);
            let (p, q) = choose|p: int, q: int|
                #![trigger rest[p], rest[q]]
                0 <= p < q < rest.len() && rest[p] == before[i] && rest[q] == before[j];
            assert(items[p] == passed[i] && items[q] == passed[j]);
        }
    }
}

/// The output keeps the order of the candidates: of two matches, the one
/// that stands first comes from a candidate that stands before the
/// candidate of the other.
pub proof fn lemma_matches_keep_order(
    candidates: Seq<Seq<char>>,
    dictionary: Seq<Seq<char>>,
    i: int,
    j: int,
)
    requires
        0 <= i < j < matches_of(candidates, dictionary).len(),
    ensures
        exists|p: int, q: int|
            #![trigger candidates[p], candidates[q]]
            0 <= p < q < candidates.len() && matches_of(candidates, dictionary)[i] == lowercase_of(
                candidates[p],
            ) && matches_of(candidates, dictionary)[j] == lowercase_of(candidates[q]),
{
    let lowered = lowercased(candidates);
    let pred = |word: Seq<char>| dictionary.contains(word);
    lemma_filter_keeps_order(lowered, pred, i, j);
    let (p, q) = choose|p: int, q: int|
        #![trigger lowered[p], lowered[q]]
        0 <= p < q < lowered.len() && lowered[p] == lowered.filter(pred)[i] && lowered[q]
            == lowered.filter(pred)[j];
    assert(lowered[p] == lowercase_of(candidates[p]));
    assert(lowered[q] == lowercase_of(candidates[q]));
}

/// A word is in the output exactly if it is a word of the list and the
/// lower-case form of a candidate.
pub proof fn lemma_matches_are_known_candidates(
    candidates: Seq<Seq<char>>,
    dictionary: Seq<Seq<char>>,
    word: Seq<char>,
)
    ensures
        matches_of(candidates, dictionary).contains(word) <==> dictionary.contains(word) && exists|
            p: int,
        |
            0 <= p < candidates.len() && word == lowercase_of(#[trigger] candidates[p]),
{
    let lowered = lowercased(candidates);
    let pred = |word: Seq<char>| dictionary.contains(word);
    if matches_of(candidates, dictionary).contains(word) {
        let i = choose|i: int|
            0 <= i < lowered.filter(pred).len() && lowered.filter(pred)[i] == word;
        lowered.lemma_filter_pred(pred, i);
        lowered.lemma_filter_contains_rev(pred, word);
        let p = choose|p: int| 0 <= p < lowered.len() && lowered[p] == word;
        assert(word == lowercase_of(candidates[p]));
    }
    if dictionary.contains(word) && exists|p: int|
        0 <= p < candidates.len() && word == lowercase_of(#[trigger] candidates[p]) {
        let p = choose|p: int|
            0 <= p < candidates.len() && word == lowercase_of(#[trigger] candidates[p]);
        assert(lowered[p] == word);
        lowered.lemma_filter_contains(pred, p);
    }
}

/// Two runs over the same candidates and the same word list give the same
/// output.
pub proof fn lemma_same_input_same_output(
    candidates: Seq<Seq<char>>,
    dictionary: Seq<Seq<char>>,
    first: Seq<Seq<char>>,
    second: Seq<Seq<char>>,
)
    requires
        first == matches_of(candidates, dictionary),
        second == matches_of(candidates, dictionary),
    ensures
        first == second,
{
}

/// The word list counts as a set: two lists that hold the same words, in
/// whatever order and however often, give the same output.
pub proof fn lemma_word_order_is_immaterial(
    candidates: Seq<Seq<char>>,
    first: Seq<Seq<char>>,
    second: Seq<Seq<char>>,
)
    requires
        forall|word: Seq<char>| first.contains(word) <==> second.contains(word),
    ensures
        matches_of(candidates, first) == matches_of(candidates, second),
{
    let in_first = |word: Seq<char>| first.contains(word);
    let in_second = |word: Seq<char>| second.contains(word);
    assert(in_first =~= in_second);
}

/// Case is no difference: a candidate with the lower-case form of a line of
/// the source, that line being text of `length` characters, is found, and
/// the output holds that form.
pub proof fn lemma_case_is_ignored(
    bytes: Seq<u8>,
    length: int,
    candidates: Seq<Seq<char>>,
    p: int,
    line: Seq<char>,
)
    requires
        0 <= p < candidates.len(),
        texts_of(lines_of(bytes)).contains(line),
        line.len() == length,
        lowercase_of(candidates[p]) == lowercase_of(line),
    ensures
        matches_of(candidates, dictionary_of(bytes, length)).contains(lowercase_of(line)),
{
    let texts = texts_of(lines_of(bytes));
    let kept = of_length(texts, length);
    let k = choose|k: int| 0 <= k < texts.len() && texts[k] == line;
    texts.lemma_filter_contains(|word: Seq<char>| word.len() == length, k);
    let m = choose|m: int| 0 <= m < kept.len() && kept[m] == line;
    assert(lowercased(kept)[m] == lowercase_of(line));
    assert(dictionary_of(bytes, length).contains(lowercase_of(line)));
    lemma_matches_are_known_candidates(
        candidates,
        dictionary_of(bytes, length),
        lowercase_of(line),
    );
}

/// With no word in the list nothing is found, whatever the candidates.
pub proof fn lemma_empty_list_matches_nothing(candidates: Seq<Seq<char>>, dictionary: Seq<Seq<char>>)
    requires
        dictionary.len() == 0,
    ensures
        matches_of(candidates, dictionary).len() == 0,
{
    let found = matches_of(candidates, dictionary);
    if found.len() > 0 {
        assert(found.contains(found[0]));
        lemma_matches_are_known_candidates(candidates, dictionary, found[0]);
    }
}

/// An empty source gives an empty word list, whatever the target length.
pub proof fn lemma_empty_source_has_no_words(length: int)
    ensures
        dictionary_of(Seq::empty(), length).len() == 0,
{
    reveal(Seq::filter);
    assert(lines_of(Seq::empty()) =~= Seq::<Seq<u8>>::empty());
    assert(texts_of(Seq::<Seq<u8>>::empty()) =~= Seq::<Seq<char>>::empty());
}

} // verus!
