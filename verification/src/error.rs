//! The failures that end a run, and the line each is reported with.

use vstd::prelude::*;
use vstd::string::*;

verus! {

/// The stage of a run that failed.
#[derive(Debug, Clone, Copy, PartialEq, Eq, Structural)]
pub enum GenericErrorKind {
    /// The generator could not be run, or its output could not be had.
    PWGEN,
    /// The word list could not be read.
    WORDS,
    /// Standard input could not be read as text.
    PIPEREAD,
}

/// A failure of one stage, with the message it is reported with.
#[derive(Debug)]
pub struct GenericError {
    pub kind: GenericErrorKind,
    pub message: String,
}

/// The name a kind is printed with.
pub open spec fn kind_name(kind: GenericErrorKind) -> Seq<char> {
    match kind {
        GenericErrorKind::PWGEN => "PWGEN"@,
        GenericErrorKind::WORDS => "WORDS"@,
        GenericErrorKind::PIPEREAD => "PIPEREAD"@,
    }
}

/// The message that a failure of `kind` carries when the crate raises it.
pub open spec fn kind_message(kind: GenericErrorKind) -> Seq<char> {
    match kind {
        GenericErrorKind::PWGEN => "Unable to generate pwgen data"@,
        GenericErrorKind::WORDS => "Unable to read dictionary"@,
        GenericErrorKind::PIPEREAD => "Unable to read stdin"@,
    }
}

/// The status a process ends with after a failure of `kind`, by the
/// conventions of `sysexits.h`: 66 for an input that cannot be opened, 69 for
/// a service that is not available, 74 for an error while reading.
pub open spec fn kind_exit_code(kind: GenericErrorKind) -> int {
    match kind {
        GenericErrorKind::PWGEN => 69,
        GenericErrorKind::WORDS => 66,
        GenericErrorKind::PIPEREAD => 74,
    }
}

/// The line a failure is reported with: the kind's name in square brackets,
/// then `Error:` and the message.
pub open spec fn report_line(kind: GenericErrorKind, message: Seq<char>) -> Seq<char> {
    "["@ + kind_name(kind) + "] Error: "@ + message
}

impl GenericErrorKind {
    /// The kind's name, as it stands in a report.
    pub fn to_string(&self) -> (name: String)
        ensures
            name@ == kind_name(*self),
    {
        match self {
            GenericErrorKind::PWGEN => String::from_str("PWGEN"),
            GenericErrorKind::WORDS => String::from_str("WORDS"),
            GenericErrorKind::PIPEREAD => String::from_str("PIPEREAD"),
        }
    }

    /// The status to end the process with. It is never 0, and no two kinds
    /// share one.
    pub fn exit_code(&self) -> (code: i32)
        ensures
            code == kind_exit_code(*self),
            code != 0,
    {
        match self {
            GenericErrorKind::PWGEN => 69,
            GenericErrorKind::WORDS => 66,
            GenericErrorKind::PIPEREAD => 74,
        }
    }
}

impl Clone for GenericError {
    fn clone(&self) -> (copy: Self)
        ensures
            copy.kind == self.kind,
            copy.message@ == self.message@,
    {
        GenericError { kind: self.kind, message: self.message.clone() }
    }
}

impl GenericError {
    /// The failure of `kind`, with the message that belongs to it.
    pub fn new(kind: GenericErrorKind) -> (error: GenericError)
        ensures
            error.kind == kind,
            error.message@ == kind_message(kind),
    {
        let message = match kind {
            GenericErrorKind::PWGEN => String::from_str("Unable to generate pwgen data"),
            GenericErrorKind::WORDS => String::from_str("Unable to read dictionary"),
            GenericErrorKind::PIPEREAD => String::from_str("Unable to read stdin"),
        };
        GenericError { kind, message }
    }

    /// The message alone.
    pub fn description(&self) -> (message: &str)
        ensures
            message@ == self.message@,
    {
        self.message.as_str()
    }

    /// The line this failure is reported with.
    pub fn to_string(&self) -> (line: String)
        ensures
            line@ == report_line(self.kind, self.message@),
    {
        let mut line = String::from_str("[");
        let name = self.kind.to_string();
        line.append(name.as_str());
        line.append("] Error: ");
        line.append(self.message.as_str());
        line
    }
}

/// Distinct kinds end the process with distinct statuses.
pub proof fn lemma_exit_codes_differ(a: GenericErrorKind, b: GenericErrorKind)
    requires
        a != b,
    ensures
        kind_exit_code(a) != kind_exit_code(b),
{
}

} // verus!
