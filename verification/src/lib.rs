//! Finds dictionary words among password candidates.
//!
//! A word list is loaded from the bytes of a newline-delimited file and cut
//! down to the words of one length; candidates come either from standard
//! input or from the output of the `pwgen` generator; the candidates that are
//! words of the list, case aside, are what the caller prints.
//!
//! Nothing here touches a file, a pipe or a process: callers hand over the
//! bytes they read and get plain values back.

pub mod candidates;
pub mod dictionary;
pub mod error;
pub mod intersect;
pub mod text;
pub mod words;
