//! A compiler from a small functional language into instruction programs
//! for a stack-and-environment machine, emitted as TeX macro calls.
//!
//! Source text is parsed into an expression tree, the tree is compiled
//! into instructions that address variables by their lexical distance,
//! and the instructions are written out in a fixed vocabulary of macro
//! calls.

use vstd::prelude::*;

pub mod codegen;
pub mod compiler;
pub mod error;
pub mod list;
pub mod parser;
pub mod syntax;
pub mod text;

verus! {

/// Whether `r` is what comes of the source `s`: the error of the first
/// stage that fails, or the document for the program that the
/// expression in `s` compiles to.
pub open spec fn runs_to(s: Seq<char>, r: Result<String, error::Error>) -> bool {
    match parser::parsed(s) {
        Err(mistake) => r matches Err(error::Error::ParseError(e)) && e@ == mistake,
        Ok(ast) => match compiler::compiled(ast, 0, Map::empty()) {
            Err(failure) => r matches Err(error::Error::CompilationError(e)) && e@ == failure,
            Ok(code) => r matches Ok(document) && document@ == codegen::document_text(code),
        },
    }
}

/// Takes a source through all stages: parses it, compiles the
/// expression, and writes the document for the program. The source is
/// short enough for a level to count its characters.
pub fn run(input: &str) -> (r: Result<String, error::Error>)
    requires
        input@.len() <= i32::MAX,
    ensures
        runs_to(input@, r),
{
    match parser::parse(input) {
        Err(e) => Err(error::Error::of_parse_error(e)),
        Ok(ast) => match compiler::compile(ast) {
            Err(e) => Err(error::Error::of_compilation_error(e)),
            Ok(instrs) => Ok(codegen::output(instrs)),
        },
    }
}

/// Whether two results are the same: documents with the same text, or
/// errors of the same stage and kind about the same text.
pub open spec fn same_outcome(
    r1: Result<String, error::Error>,
    r2: Result<String, error::Error>,
) -> bool {
    match (r1, r2) {
        (Ok(d1), Ok(d2)) => d1@ == d2@,
        (Err(error::Error::ParseError(e1)), Err(error::Error::ParseError(e2))) => e1@ == e2@,
        (Err(error::Error::CompilationError(e1)), Err(error::Error::CompilationError(e2))) => e1@
            == e2@,
        _ => false,
    }
}

/// A source has one result: whatever comes of it at one time comes of it
/// at any other.
pub proof fn lemma_run_is_determined(
    s: Seq<char>,
    r1: Result<String, error::Error>,
    r2: Result<String, error::Error>,
)
    requires
        runs_to(s, r1),
        runs_to(s, r2),
    ensures
        same_outcome(r1, r2),
{
}

/// Of a source that is an expression, the only error is a variable
/// that no abstraction around it binds.
pub proof fn lemma_run_errors(s: Seq<char>, r: Result<String, error::Error>)
    requires
        runs_to(s, r),
    ensures
        r matches Err(error::Error::CompilationError(e)) ==> parser::parsed(s) matches Ok(ast) && e
            matches compiler::Error::UnboundVariable(x) && compiler::free_in(x@, ast),
{
    if let Ok(ast) = parser::parsed(s) {
        compiler::lemma_only_unbound_variables_fail(ast, 0, Map::empty());
    }
}

} // verus!
