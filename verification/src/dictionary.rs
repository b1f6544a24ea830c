//! The word list: the lines of a newline-delimited source that have the
//! target length, in lower case.

use crate::error::{kind_message, GenericError, GenericErrorKind};
use crate::text::{first_stop, lemma_ascii_lowercase_is_stable, lemma_first_stop, lowercase_of};
use crate::words::{keep_length, lowercase_all, lowercased, of_length};
use vstd::prelude::*;
use vstd::slice::*;
use vstd::string::*;
use vstd::utf8::*;

verus! {

/// The byte that ends a line.
pub const NEWLINE: u8 = 0x0A;

/// The byte that may stand before `NEWLINE` and then belongs to the line's
/// end, not to the line.
pub const RETURN: u8 = 0x0D;

/// The number of bytes before the first `NEWLINE` of `bytes`; the length of
/// `bytes` where it holds none.
pub open spec fn line_end(bytes: Seq<u8>) -> int {
    first_stop(bytes, |byte: u8| byte == NEWLINE)
}

/// A line that a `NEWLINE` ended, without the `RETURN` that may stand at its
/// end.
pub open spec fn without_return(line: Seq<u8>) -> Seq<u8> {
    if line.len() > 0 && line.last() == RETURN {
        line.drop_last()
    } else {
        line
    }
}

/// The lines of `bytes`. Each `NEWLINE` ends a line, and so does the end of
/// `bytes` where bytes stand after the last `NEWLINE`. A line does not hold
/// its `NEWLINE`, nor a `RETURN` directly before it.
pub open spec fn lines_of(bytes: Seq<u8>) -> Seq<Seq<u8>>
    decreases bytes.len(),
{
    if bytes.len() == 0 {
        Seq::empty()
    } else {
        let end = line_end(bytes);
        if 0 <= end < bytes.len() {
            seq![without_return(bytes.take(end))] + lines_of(bytes.skip(end + 1))
        } else {
            seq![bytes]
        }
    }
}

/// The lines that are well-formed UTF-8, each as the text it encodes, in
/// their order. The other lines are left out.
pub open spec fn texts_of(lines: Seq<Seq<u8>>) -> Seq<Seq<char>> {
    lines.filter_map(
        |line: Seq<u8>|
            if valid_utf8(line) {
                Some(decode_utf8(line))
            } else {
                None
            },
    )
}

/// The word list that a source of `bytes` gives for the target `length`: of
/// its lines that are text, those of `length` characters, each in lower
/// case. The order of the source is kept, and so is a word that occurs more
/// than once.
pub open spec fn dictionary_of(bytes: Seq<u8>, length: int) -> Seq<Seq<char>> {
    lowercased(of_length(texts_of(lines_of(bytes)), length))
}

/// Splits `source` into its lines.
pub fn lines<'a>(source: &'a [u8]) -> (lines: Vec<&'a [u8]>)
    ensures
        lines.deep_view() == lines_of(source@),
{
    let mut lines: Vec<&'a [u8]> = Vec::new();
    let mut start: usize = 0;
    assert(source@.skip(0) =~= source@);
    assert(lines.deep_view() =~= Seq::<Seq<u8>>::empty());
    while start < source.len()
        invariant
            start <= source.len(),
            lines_of(source@) == lines.deep_view() + lines_of(source@.skip(start as int)),
        decreases source.len() - start,
    {
        let mut end: usize = start;
        while end < source.len() && source[end] != NEWLINE
            invariant
                start <= end <= source.len(),
                forall|k: int| start <= k < end ==> source[k] != NEWLINE,
            decreases source.len() - end,
        {
            end += 1;
        }
        let ghost rest = source@.skip(start as int);
        let ghost before = lines.deep_view();
        proof {
            assert forall|k: int| 0 <= k < end - start implies !(|byte: u8| byte == NEWLINE)(
                #[trigger] rest[k],
            ) by {
                assert(rest[k] == source[start + k]);
            }
            lemma_first_stop(rest, |byte: u8| byte == NEWLINE, end - start);
            assert(line_end(rest) == end - start);
        }
        if end < source.len() {
            let stop = if end > start && source[end - 1] == RETURN {
                end - 1
            } else {
                end
            };
            let line = slice_subrange(source, start, stop);
            lines.push(line);
            proof {
                assert(rest.take(end - start) =~= source@.subrange(start as int, end as int));
                assert(line@ =~= without_return(rest.take(end - start)));
                assert(rest.skip(end - start + 1) =~= source@.skip(end + 1));
                assert(lines.deep_view() =~~= before + seq![line@]);
                assert(lines_of(rest) == seq![line@] + lines_of(source@.skip(end + 1)));
            }
            start = end + 1;
        } else {
            let line = slice_subrange(source, start, end);
            lines.push(line);
            proof {
                assert(line@ =~= rest);
                assert(lines.deep_view() =~~= before + seq![line@]);
                assert(lines_of(rest) == seq![rest]);
                assert(lines_of(source@.skip(end as int)) =~= Seq::<Seq<u8>>::empty());
            }
            start = end;
        }
    }
    lines
}

/// Decodes the lines that are well-formed UTF-8 and leaves the others out.
pub fn decode_lines(lines: &Vec<&[u8]>) -> (texts: Vec<String>)
    ensures
        texts.deep_view() == texts_of(lines.deep_view()),
{
    let mut texts: Vec<String> = Vec::new();
    let ghost all = lines.deep_view();
    assert(texts.deep_view() =~= texts_of(all.take(0)));
    for i in 0..lines.len()
        invariant
            all == lines.deep_view(),
            texts.deep_view() == texts_of(all.take(i as int)),
    {
        let line = lines[i];
        proof {
            assert(all.take(i + 1).drop_last() =~= all.take(i as int));
            assert(all.take(i + 1).last() =~= line@);
        }
        match core::str::from_utf8(line) {
            Ok(text) => {
                let ghost before = texts.deep_view();
                texts.push(text.to_owned());
                assert(texts.deep_view() =~= before + seq![text@]);
            },
            Err(_) => {},
        }
    }
    assert(all.take(lines.len() as int) =~= all);
    texts
}

/// Builds the word list from the bytes of its source.
pub fn dictionary_words(source: &[u8], length: usize) -> (words: Vec<String>)
    ensures
        words.deep_view() == dictionary_of(source@, length as int),
{
    let lines = lines(source);
    let texts = decode_lines(&lines);
    let kept = keep_length(&texts, length);
    lowercase_all(&kept)
}

/// Loads the word list. `source` holds the bytes of the file, or nothing
/// where the file could not be read: that alone fails, with
/// `GenericErrorKind::WORDS`.
pub fn read_dictionary(source: Option<&[u8]>, length: usize) -> (loaded: Result<
    Vec<String>,
    GenericError,
>)
    ensures
        source is Some <==> loaded is Ok,
        loaded matches Ok(words) ==> words.deep_view() == dictionary_of(
            source->Some_0@,
            length as int,
        ),
        loaded matches Err(error) ==> error.kind == GenericErrorKind::WORDS && error.message@
            == kind_message(GenericErrorKind::WORDS),
{
    match source {
        Some(bytes) => Ok(dictionary_words(bytes, length)),
        None => Err(GenericError::new(GenericErrorKind::WORDS)),
    }
}

/// Every word of the list is the lower-case form of a line of the source
/// that is text of exactly `length` characters.
pub proof fn lemma_words_come_from_lines(bytes: Seq<u8>, length: int, i: int)
    requires
        0 <= i < dictionary_of(bytes, length).len(),
    ensures
        exists|line: Seq<char>|
            texts_of(lines_of(bytes)).contains(line) && line.len() == length
                && dictionary_of(bytes, length)[i] == lowercase_of(line),
{
    let texts = texts_of(lines_of(bytes));
    let kept = of_length(texts, length);
    let line = kept[i];
    texts.lemma_filter_pred(|word: Seq<char>| word.len() == length, i);
    assert(kept.contains(line));
    texts.lemma_filter_contains_rev(|word: Seq<char>| word.len() == length, line);
}

/// Every word of the list has exactly `length` characters, where
/// lower-casing changes the length of no line of `length` characters.
pub proof fn lemma_words_have_length(bytes: Seq<u8>, length: int, i: int)
    requires
        0 <= i < dictionary_of(bytes, length).len(),
        forall|line: Seq<char>| #[trigger]
            texts_of(lines_of(bytes)).contains(line) && line.len() == length ==> lowercase_of(
                line,
            ).len() == length,
    ensures
        dictionary_of(bytes, length)[i].len() == length,
{
    lemma_words_come_from_lines(bytes, length, i);
}

/// Where the lines of `length` characters are all ASCII, every word of the
/// list has exactly `length` characters and is in lower case: lower-casing
/// it again changes nothing.
pub proof fn lemma_ascii_words_are_lower_case(bytes: Seq<u8>, length: int, i: int)
    requires
        0 <= i < dictionary_of(bytes, length).len(),
        forall|line: Seq<char>| #[trigger]
            texts_of(lines_of(bytes)).contains(line) && line.len() == length ==> is_ascii_chars(
                line,
            ),
    ensures
        dictionary_of(bytes, length)[i].len() == length,
        lowercase_of(dictionary_of(bytes, length)[i]) == dictionary_of(bytes, length)[i],
{
    lemma_words_come_from_lines(bytes, length, i);
    let line = choose|line: Seq<char>|
        texts_of(lines_of(bytes)).contains(line) && line.len() == length && dictionary_of(
            bytes,
            length,
        )[i] == lowercase_of(line);
    lemma_ascii_lowercase_is_stable(line);
}

} // verus!
