//! The errors of all stages under one type.

use vstd::prelude::*;
use crate::compiler;
use crate::parser;

verus! {

/// The error type of `std::io`. It is carried as it comes; nothing of
/// its inside is known here.
#[verifier::external_type_specification]
#[verifier::external_body]
pub struct ExIoError(std::io::Error);

/// Why no document came of a source.
#[derive(Debug)]
pub enum Error {
    /// The source could not be read, or the document not written.
    IoError(std::io::Error),
    /// The source is no expression.
    ParseError(parser::Error),
    /// The expression could not be compiled.
    CompilationError(compiler::Error),
}

impl Error {
    /// An error of reading or writing, as an error of the whole.
    pub fn of_io_error(e: std::io::Error) -> (err: Self)
        ensures
            err == Error::IoError(e),
    {
        Error::IoError(e)
    }

    /// An error of parsing, as an error of the whole.
    pub fn of_parse_error(e: parser::Error) -> (err: Self)
        ensures
            err == Error::ParseError(e),
    {
        Error::ParseError(e)
    }

    /// An error of compiling, as an error of the whole.
    pub fn of_compilation_error(e: compiler::Error) -> (err: Self)
        ensures
            err == Error::CompilationError(e),
    {
        Error::CompilationError(e)
    }
}

} // verus!
