//! The candidates: tokens read from standard input, or the output of the
//! `pwgen` generator.

use crate::error::{kind_message, GenericError, GenericErrorKind};
use crate::text::{decode_lossy, lossy_text, tokens, tokens_of};
use crate::words::{keep_length, of_length};
use vstd::prelude::*;
use vstd::string::*;
use vstd::utf8::*;

verus! {

/// The program that generates candidates.
pub const GENERATOR: &'static str = "pwgen";

/// The candidates that piped input of `text` gives for the target `length`:
/// its tokens of exactly `length` characters, in their order.
pub open spec fn pipe_candidates_of(text: Seq<char>, length: int) -> Seq<Seq<char>> {
    of_length(tokens_of(text), length)
}

/// The decimal digit for `d`.
pub open spec fn digit_of(d: int) -> char {
    if d == 0 {
        '0'
    } else if d == 1 {
        '1'
    } else if d == 2 {
        '2'
    } else if d == 3 {
        '3'
    } else if d == 4 {
        '4'
    } else if d == 5 {
        '5'
    } else if d == 6 {
        '6'
    } else if d == 7 {
        '7'
    } else if d == 8 {
        '8'
    } else {
        '9'
    }
}

/// `n` in decimal, without leading zeros.
pub open spec fn decimal_of(n: nat) -> Seq<char>
    decreases n,
{
    if n < 10 {
        seq![digit_of(n as int)]
    } else {
        decimal_of(n / 10).push(digit_of((n % 10) as int))
    }
}

/// The arguments `pwgen` is run with for `size` candidates of `length`
/// characters: the switch `-c`, which asks for capital letters, and the
/// switch `-n`, which asks for numerals, so that the candidates are drawn
/// from all letters and digits; then the length and the number, in decimal.
pub open spec fn pwgen_arguments(length: nat, size: nat) -> Seq<Seq<char>> {
    seq!["-c"@, "-n"@, decimal_of(length), decimal_of(size)]
}

/// What is to be done to have the generated candidates.
#[derive(Debug)]
pub enum PwgenStep {
    /// Nothing is to be run: these are the candidates.
    Done(Vec<String>),
    /// `GENERATOR` is to be run with these arguments, and its standard
    /// output handed to `exec_pwgen`.
    Run(Vec<String>),
}

/// The candidates in `text`: its tokens of exactly `chars` characters.
pub fn pipe_candidates(text: &str, chars: usize) -> (candidates: Vec<String>)
    ensures
        candidates.deep_view() == pipe_candidates_of(text@, chars as int),
        forall|i: int| 0 <= i < candidates.len() ==> (#[trigger] candidates[i])@.len() == chars,
{
    let tokens = tokens(text);
    keep_length(&tokens, chars)
}

/// The candidates of pipe mode. `input` holds all the bytes of standard
/// input, or nothing where reading it failed. Input that could not be read,
/// or that is not well-formed UTF-8, fails with `GenericErrorKind::PIPEREAD`.
pub fn read_pipe(input: Option<&[u8]>, chars: usize) -> (read: Result<Vec<String>, GenericError>)
    ensures
        read is Ok <==> input is Some && valid_utf8(input->Some_0@),
        read matches Ok(candidates) ==> {
            &&& candidates.deep_view() == pipe_candidates_of(
                decode_utf8(input->Some_0@),
                chars as int,
            )
            &&& forall|i: int|
                0 <= i < candidates.len() ==> (#[trigger] candidates[i])@.len() == chars
        },
        read matches Err(error) ==> error.kind == GenericErrorKind::PIPEREAD && error.message@
            == kind_message(GenericErrorKind::PIPEREAD),
{
    match input {
        Some(bytes) => match core::str::from_utf8(bytes) {
            Ok(text) => Ok(pipe_candidates(text, chars)),
            Err(_) => Err(GenericError::new(GenericErrorKind::PIPEREAD)),
        },
        None => Err(GenericError::new(GenericErrorKind::PIPEREAD)),
    }
}

/// The text of one decimal digit.
fn digit(d: usize) -> (text: &'static str)
    requires
        d < 10,
    ensures
        text@ == seq![digit_of(d as int)],
{
    proof {
        reveal_strlit("0");
        reveal_strlit("1");
        reveal_strlit("2");
        reveal_strlit("3");
        reveal_strlit("4");
        reveal_strlit("5");
        reveal_strlit("6");
        reveal_strlit("7");
        reveal_strlit("8");
        reveal_strlit("9");
    }
    let text = if d == 0 {
        "0"
    } else if d == 1 {
        "1"
    } else if d == 2 {
        "2"
    } else if d == 3 {
        "3"
    } else if d == 4 {
        "4"
    } else if d == 5 {
        "5"
    } else if d == 6 {
        "6"
    } else if d == 7 {
        "7"
    } else if d == 8 {
        "8"
    } else {
        "9"
    };
    assert(text@ =~= seq![digit_of(d as int)]);
    text
}

/// Writes `n` in decimal.
pub fn decimal(n: usize) -> (text: String)
    ensures
        text@ == decimal_of(n as nat),
    decreases n,
{
    if n < 10 {
        String::from_str(digit(n))
    } else {
        let mut text = decimal(n / 10);
        text.append(digit(n % 10));
        assert(text@ =~= decimal_of(n as nat));
        text
    }
}

/// The first step of generation mode. Asked for no candidates, it runs
/// nothing and has none; asked for more, it gives the arguments to run
/// `GENERATOR` with.
pub fn plan_pwgen(length: usize, size: usize) -> (step: PwgenStep)
    ensures
        size == 0 ==> (step matches PwgenStep::Done(candidates) && candidates.len() == 0),
        size > 0 ==> (step matches PwgenStep::Run(arguments) && arguments.deep_view()
            == pwgen_arguments(length as nat, size as nat)),
{
    if size == 0 {
        PwgenStep::Done(Vec::new())
    } else {
        let mut arguments: Vec<String> = Vec::new();
        arguments.push(String::from_str("-c"));
        arguments.push(String::from_str("-n"));
        arguments.push(decimal(length));
        arguments.push(decimal(size));
        assert(arguments.deep_view() =~= pwgen_arguments(length as nat, size as nat));
        PwgenStep::Run(arguments)
    }
}

/// The candidates of generation mode. `output` holds the bytes that the
/// generator wrote to its standard output, or nothing where it could not be
/// run: that alone fails, with `GenericErrorKind::PWGEN`. The candidates
/// are the tokens of the output, whatever their length; bytes that are not
/// UTF-8 are replaced, not refused, and output that is well-formed UTF-8 is
/// read as the text it encodes.
pub fn exec_pwgen(output: Option<&[u8]>) -> (generated: Result<Vec<String>, GenericError>)
    ensures
        output is Some <==> generated is Ok,
        generated matches Ok(candidates) ==> candidates.deep_view() == tokens_of(
            lossy_text(output->Some_0@),
        ),
        generated matches Ok(candidates) ==> (valid_utf8(output->Some_0@)
            ==> candidates.deep_view() == tokens_of(decode_utf8(output->Some_0@))),
        generated matches Err(error) ==> error.kind == GenericErrorKind::PWGEN && error.message@
            == kind_message(GenericErrorKind::PWGEN),
{
    match output {
        Some(bytes) => {
            let text = decode_lossy(bytes);
            Ok(tokens(text.as_str()))
        },
        None => Err(GenericError::new(GenericErrorKind::PWGEN)),
    }
}

/// Every candidate of pipe mode has exactly the target length.
pub proof fn lemma_pipe_candidates_have_length(text: Seq<char>, length: int, i: int)
    requires
        0 <= i < pipe_candidates_of(text, length).len(),
    ensures
        pipe_candidates_of(text, length)[i].len() == length,
{
    tokens_of(text).lemma_filter_pred(|word: Seq<char>| word.len() == length, i);
}

} // verus!
