//! The text primitives the rest of the crate is built on: Unicode white
//! space and lower-casing, UTF-8 decoding, and splitting into tokens.
//!
//! The items in this file that have no verified body state what the standard
//! library and `rayon` do; everything else in the crate is proved from them.

use rayon::iter::ParallelIterator;
use rayon::str::ParallelString;
use vstd::prelude::*;
use vstd::utf8::*;

verus! {

/// Whether `c`, a character beyond ASCII, has Unicode's `White_Space`
/// property: the answer of `char::is_whitespace` for it.
pub uninterp spec fn unicode_whitespace(c: char) -> bool;

/// The lower-case form of `text`, a text that is not all ASCII: the
/// characters of the string that `str::to_lowercase` returns for it.
pub uninterp spec fn unicode_lowercase(text: Seq<char>) -> Seq<char>;

/// The text that `String::from_utf8_lossy` makes of `bytes`.
pub uninterp spec fn lossy_text(bytes: Seq<u8>) -> Seq<char>;

/// The white space of ASCII: the space, and the five controls from the
/// horizontal tab (U+0009) to the carriage return (U+000D), the vertical tab
/// among them.
pub open spec fn ascii_white_space(c: char) -> bool {
    c == ' ' || '\u{9}' <= c <= '\u{d}'
}

/// Whether `c` is white space. ASCII has the six characters of
/// `ascii_white_space` and no other; beyond ASCII Unicode's `White_Space`
/// property decides.
pub open spec fn is_whitespace(c: char) -> bool {
    if c <= '\u{7f}' {
        ascii_white_space(c)
    } else {
        unicode_whitespace(c)
    }
}

/// The lower-case form of an ASCII character: the small letter for a capital
/// letter, and the character itself for any other.
pub open spec fn ascii_lower(c: char) -> char {
    if 'A' <= c <= 'Z' {
        ((c as u32 + 32) as u32) as char
    } else {
        c
    }
}

/// Each character of `text` in its ASCII lower-case form.
pub open spec fn ascii_lowercase(text: Seq<char>) -> Seq<char> {
    text.map_values(|c: char| ascii_lower(c))
}

/// The lower-case form of `text`. In a text that is all ASCII each capital
/// letter gives way to its small letter and nothing else changes; for any
/// other text Unicode's case mappings decide, and the form may have more
/// characters than the text.
pub open spec fn lowercase_of(text: Seq<char>) -> Seq<char> {
    if is_ascii_chars(text) {
        ascii_lowercase(text)
    } else {
        unicode_lowercase(text)
    }
}

/// The number of items of `items` that stand before the first one of which
/// `stop` holds; the length of `items` where it holds of none.
pub open spec fn first_stop<T>(items: Seq<T>, stop: spec_fn(T) -> bool) -> int
    decreases items.len(),
{
    if items.len() == 0 || stop(items[0]) {
        0
    } else {
        1 + first_stop(items.drop_first(), stop)
    }
}

/// The fields of `text`: its maximal non-empty runs of characters that are
/// not separators, in the order in which they stand in `text`.
///
/// Where `text` starts with a character that is no separator, the run at its
/// start is the first field. That run is never empty and never longer than
/// `text` (`lemma_first_stop_in_bounds`); the test on `end` is there to bound
/// the recursion.
pub open spec fn fields(text: Seq<char>, separator: spec_fn(char) -> bool) -> Seq<Seq<char>>
    decreases text.len(),
{
    if text.len() == 0 {
        Seq::empty()
    } else if separator(text[0]) {
        fields(text.drop_first(), separator)
    } else {
        let end = first_stop(text, separator);
        if 0 < end <= text.len() {
            seq![text.take(end)] + fields(text.skip(end), separator)
        } else {
            Seq::empty()
        }
    }
}

/// The tokens of `text`: its fields between white space.
pub open spec fn tokens_of(text: Seq<char>) -> Seq<Seq<char>> {
    fields(text, |c: char| is_whitespace(c))
}

/// `str::to_lowercase` returns the lower-case form of the string it is
/// called on, and the same form for the same string. In a string that is all
/// ASCII it turns the letters `A` to `Z` into `a` to `z` and leaves the rest;
/// for any other string Unicode decides what the form is.
pub assume_specification[ str::to_lowercase ](s: &str) -> (lowered: String)
    ensures
        lowered@ == if is_ascii_chars(s@) {
            ascii_lowercase(s@)
        } else {
            unicode_lowercase(s@)
        },
;

/// The error that `core::str::from_utf8` returns; nothing is read from it.
#[verifier::external_type_specification]
#[verifier::external_body]
pub struct ExUtf8Error(core::str::Utf8Error);

/// `core::str::from_utf8` succeeds on exactly the byte strings that are
/// well-formed UTF-8, and then returns the text that they encode.
pub assume_specification<'a>[ core::str::from_utf8 ](bytes: &'a [u8]) -> (decoded: Result<
    &'a str,
    core::str::Utf8Error,
>)
    ensures
        decoded is Ok <==> valid_utf8(bytes@),
        decoded matches Ok(text) ==> text@ == decode_utf8(bytes@),
;

/// `String::from_utf8_lossy`, as an owned string: the text of `bytes` with
/// each malformed sequence replaced; well-formed UTF-8 is decoded as it is.
#[verifier::external_body]
pub(crate) fn decode_lossy(bytes: &[u8]) -> (text: String)
    ensures
        text@ == lossy_text(bytes@),
        valid_utf8(bytes@) ==> text@ == decode_utf8(bytes@),
{
    String::from_utf8_lossy(bytes).into_owned()
}

/// `rayon`'s `par_split_whitespace`, collected into a vector: the fields of
/// `text` between white-space characters, each as a string of its own, in
/// the order of the text. White space is what `char::is_whitespace` takes for
/// it: of ASCII the six characters of `ascii_white_space`, beyond ASCII the
/// characters with Unicode's `White_Space` property.
#[verifier::external_body]
pub(crate) fn split_whitespace(text: &str) -> (tokens: Vec<String>)
    ensures
        tokens.deep_view() == fields(
            text@,
            |c: char|
                if c <= '\u{7f}' {
                    ascii_white_space(c)
                } else {
                    unicode_whitespace(c)
                },
        ),
{
    text.par_split_whitespace().map(String::from).collect()
}

/// Splits `text` at white space. What comes back are the runs of other
/// characters, none of them empty, in the order of the text.
pub fn tokens(text: &str) -> (tokens: Vec<String>)
    ensures
        tokens.deep_view() == tokens_of(text@),
{
    let tokens = split_whitespace(text);
    proof {
        let split_at = |c: char|
            if c <= '\u{7f}' {
                ascii_white_space(c)
            } else {
                unicode_whitespace(c)
            };
        let white = |c: char| is_whitespace(c);
        assert(split_at =~= white);
    }
    tokens
}

/// A position `n` is `first_stop` where `stop` holds of no item before `n`
/// and the items end at `n` or `stop` holds of the item there.
pub proof fn lemma_first_stop<T>(items: Seq<T>, stop: spec_fn(T) -> bool, n: int)
    requires
        0 <= n <= items.len(),
        forall|k: int| 0 <= k < n ==> !stop(#[trigger] items[k]),
        n < items.len() ==> stop(items[n]),
    ensures
        first_stop(items, stop) == n,
    decreases n,
{
    if n > 0 {
        let rest = items.drop_first();
        assert forall|k: int| 0 <= k < n - 1 implies !stop(#[trigger] rest[k]) by {
            assert(rest[k] == items[k + 1]);
        }
        lemma_first_stop(rest, stop, n - 1);
    }
}

/// `first_stop` lies within the items, and no item before it is one of
/// which `stop` holds.
pub proof fn lemma_first_stop_in_bounds<T>(items: Seq<T>, stop: spec_fn(T) -> bool)
    ensures
        0 <= first_stop(items, stop) <= items.len(),
        items.len() > 0 && !stop(items[0]) ==> first_stop(items, stop) > 0,
        forall|k: int| 0 <= k < first_stop(items, stop) ==> !stop(#[trigger] items[k]),
    decreases items.len(),
{
    if items.len() > 0 && !stop(items[0]) {
        let rest = items.drop_first();
        lemma_first_stop_in_bounds(rest, stop);
        assert forall|k: int| 0 <= k < first_stop(items, stop) implies !stop(
            #[trigger] items[k],
        ) by {
            if k > 0 {
                assert(items[k] == rest[k - 1]);
            }
        }
    }
}

/// No field is empty, and none holds a separator.
pub proof fn lemma_fields_hold_no_separator(
    text: Seq<char>,
    separator: spec_fn(char) -> bool,
    i: int,
)
    requires
        0 <= i < fields(text, separator).len(),
    ensures
        fields(text, separator)[i].len() > 0,
        forall|k: int|
            0 <= k < fields(text, separator)[i].len() ==> !separator(
                #[trigger] fields(text, separator)[i][k],
            ),
    decreases text.len(),
{
    if text.len() > 0 {
        if separator(text[0]) {
            lemma_fields_hold_no_separator(text.drop_first(), separator, i);
        } else {
            let end = first_stop(text, separator);
            lemma_first_stop_in_bounds(text, separator);
            if i > 0 {
                lemma_fields_hold_no_separator(text.skip(end), separator, i - 1);
            }
        }
    }
}

/// Lower-casing an ASCII text keeps its length, gives an ASCII text, and
/// changes nothing when done again.
pub proof fn lemma_ascii_lowercase_is_stable(text: Seq<char>)
    requires
        is_ascii_chars(text),
    ensures
        lowercase_of(text).len() == text.len(),
        is_ascii_chars(lowercase_of(text)),
        lowercase_of(lowercase_of(text)) == lowercase_of(text),
{
    let lowered = ascii_lowercase(text);
    assert forall|i: int| 0 <= i < lowered.len() implies '\0' <= #[trigger] lowered[i]
        <= '\u{7f}' && ascii_lower(lowered[i]) == lowered[i] by {
        assert(lowered[i] == ascii_lower(text[i]));
    }
    assert(ascii_lowercase(lowered) =~= lowered);
}

} // verus!
