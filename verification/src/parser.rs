//! Parsing of source text into expressions.
//!
//! The grammar is one of ordered choice: of the alternatives for a
//! phrase the first that matches is taken, and one that fails part of
//! the way leaves no trace. Each phrase is a function of the text and of
//! the place where it is to start, and gives either the expression read
//! with the place after it, or the place at which reading failed.
//!
//! ```text
//! expr        := abstraction | conditional | let | application
//! abstraction := "fun" ws name ws "->" ws expr
//! conditional := "if" ws expr ws "then" ws expr ws "else" ws expr
//! let         := "let" ws name ws "=" ws expr ws "in" ws expr
//! application := single (ws single)*
//! single      := word | constant | "(" ws expr ws ")"
//! constant    := integer | string
//! ```

use vstd::prelude::*;
use crate::syntax::{Const, ConstView, Expr, ExprView, Ident, Primitive};
use crate::text::{decimal, has_word, lemma_run_end_bounds, run_end, CharClass, Source};

verus! {

broadcast use lemma_run_end_bounds;

/// Why a text is no expression.
#[derive(PartialEq, Eq, Debug)]
pub enum Error {
    /// An expression was read, and this was left after it.
    NotCompletelyConsumed(String),
    /// No expression could be read; this is the text from the place of
    /// the failure on.
    Other(String),
}

/// The model of an [`Error`].
pub enum ErrorView {
    NotCompletelyConsumed(Seq<char>),
    Other(Seq<char>),
}

impl View for Error {
    type V = ErrorView;

    open spec fn view(&self) -> ErrorView {
        match self {
            Error::NotCompletelyConsumed(rest) => ErrorView::NotCompletelyConsumed(rest@),
            Error::Other(rest) => ErrorView::Other(rest@),
        }
    }
}

/// What reading a phrase gives: the expression and the place after it,
/// or the place of the failure.
pub type Outcome = Result<(ExprView, int), int>;

/// The place after the blanks that start at `p`.
pub open spec fn skip_space(s: Seq<char>, p: int) -> int {
    run_end(s, p, CharClass::Space)
}

/// Whether `q` lies after `p` and within the text.
pub open spec fn advances(s: Seq<char>, p: int, q: int) -> bool {
    p < q <= s.len()
}

/// What a word stands for: nothing where it is a keyword of the
/// grammar, a truth value or a built-in operation where it names one,
/// and else the variable of that name.
pub open spec fn word_meaning(w: Seq<char>) -> Option<ExprView> {
    if w == "fun"@ || w == "let"@ || w == "in"@ || w == "if"@ || w == "then"@ || w == "else"@ {
        None
    } else if w == "true"@ {
        Some(ExprView::Const(ConstView::Bool(true)))
    } else if w == "false"@ {
        Some(ExprView::Const(ConstView::Bool(false)))
    } else if w == "add"@ {
        Some(ExprView::Primitive(Primitive::Add))
    } else if w == "sub"@ {
        Some(ExprView::Primitive(Primitive::Sub))
    } else if w == "mult"@ {
        Some(ExprView::Primitive(Primitive::Mult))
    } else if w == "append"@ {
        Some(ExprView::Primitive(Primitive::Append))
    } else if w == "arabic"@ {
        Some(ExprView::Primitive(Primitive::Arabic))
    } else if w == "iszero"@ {
        Some(ExprView::Primitive(Primitive::IsZero))
    } else {
        Some(ExprView::Var(w))
    }
}

/// A word: the longest run of letters at `p`, which must not be empty
/// nor a keyword.
pub open spec fn word_at(s: Seq<char>, p: int) -> Outcome {
    let q = run_end(s, p, CharClass::Letter);
    if q == p {
        Err(p)
    } else {
        match word_meaning(s.subrange(p, q)) {
            Some(e) => Ok((e, q)),
            None => Err(q),
        }
    }
}

/// A word that can be bound: one that stands for a variable.
pub open spec fn name_at(s: Seq<char>, p: int) -> Result<(Seq<char>, int), int> {
    match word_at(s, p) {
        Ok((ExprView::Var(x), q)) => Ok((x, q)),
        Ok((_, q)) => Err(q),
        Err(at) => Err(at),
    }
}

/// An integer: the longest run of digits at `p`, which must not be
/// empty and must denote a number that 32 bits hold.
pub open spec fn integer_at(s: Seq<char>, p: int) -> Outcome {
    let q = run_end(s, p, CharClass::Digit);
    if q == p || decimal(s.subrange(p, q)) > i32::MAX {
        Err(p)
    } else {
        Ok((ExprView::Const(ConstView::Int(decimal(s.subrange(p, q)))), q))
    }
}

/// A string: a double quote, any characters but that, and a double
/// quote.
pub open spec fn string_at(s: Seq<char>, p: int) -> Outcome {
    if !has_word(s, p, "\""@) {
        Err(p)
    } else {
        let from = p + "\""@.len();
        let to = run_end(s, from, CharClass::Unquoted);
        if !has_word(s, to, "\""@) {
            Err(to)
        } else {
            Ok((ExprView::Const(ConstView::String(s.subrange(from, to))), to + "\""@.len()))
        }
    }
}

/// A constant: an integer, or else a string.
pub open spec fn constant_at(s: Seq<char>, p: int) -> Outcome {
    if integer_at(s, p) is Ok {
        integer_at(s, p)
    } else {
        string_at(s, p)
    }
}

/// An expression: the first of abstraction, conditional, let and
/// application that can be read at `p`; where none can, the failure is
/// that of the application.
pub open spec fn expr_at(s: Seq<char>, p: int) -> Outcome
    decreases s.len() - p, 5int,
{
    if abstraction_at(s, p) is Ok {
        abstraction_at(s, p)
    } else if conditional_at(s, p) is Ok {
        conditional_at(s, p)
    } else if let_at(s, p) is Ok {
        let_at(s, p)
    } else {
        application_at(s, p)
    }
}

/// The expression at `q`, as a part of a phrase that started at `p`.
/// The part starts after the phrase does, which is what makes the
/// grammar well-founded.
pub open spec fn expr_within(s: Seq<char>, p: int, q: int) -> Outcome
    decreases s.len() - p, 0int,
{
    if advances(s, p, q) {
        expr_at(s, q)
    } else {
        Err(q)
    }
}

/// `fun x -> e`, which binds `x` in `e`.
pub open spec fn abstraction_at(s: Seq<char>, p: int) -> Outcome
    decreases s.len() - p, 4int,
{
    if !has_word(s, p, "fun"@) {
        Err(p)
    } else {
        match name_at(s, skip_space(s, p + "fun"@.len())) {
            Err(at) => Err(at),
            Ok((x, name_end)) => {
                let arrow = skip_space(s, name_end);
                if !has_word(s, arrow, "->"@) {
                    Err(arrow)
                } else {
                    match expr_within(s, p, skip_space(s, arrow + "->"@.len())) {
                        Err(at) => Err(at),
                        Ok((body, q)) => Ok((ExprView::Lambda(x, Box::new(body)), q)),
                    }
                }
            },
        }
    }
}

/// `if e0 then e1 else e2`.
pub open spec fn conditional_at(s: Seq<char>, p: int) -> Outcome
    decreases s.len() - p, 4int,
{
    if !has_word(s, p, "if"@) {
        Err(p)
    } else {
        match expr_within(s, p, skip_space(s, p + "if"@.len())) {
            Err(at) => Err(at),
            Ok((e0, test_end)) => {
                let then_at = skip_space(s, test_end);
                if !has_word(s, then_at, "then"@) {
                    Err(then_at)
                } else {
                    match expr_within(s, p, skip_space(s, then_at + "then"@.len())) {
                        Err(at) => Err(at),
                        Ok((e1, first_end)) => {
                            let else_at = skip_space(s, first_end);
                            if !has_word(s, else_at, "else"@) {
                                Err(else_at)
                            } else {
                                match expr_within(s, p, skip_space(s, else_at + "else"@.len())) {
                                    Err(at) => Err(at),
                                    Ok((e2, end)) => Ok(
                                        (
                                            ExprView::If(Box::new(e0), Box::new(e1), Box::new(e2)),
                                            end,
                                        ),
                                    ),
                                }
                            }
                        },
                    }
                }
            },
        }
    }
}

/// `let x = e1 in e2`, which stands for applying `fun x -> e2` to `e1`.
pub open spec fn let_at(s: Seq<char>, p: int) -> Outcome
    decreases s.len() - p, 4int,
{
    if !has_word(s, p, "let"@) {
        Err(p)
    } else {
        match name_at(s, skip_space(s, p + "let"@.len())) {
            Err(at) => Err(at),
            Ok((x, name_end)) => {
                let equals_at = skip_space(s, name_end);
                if !has_word(s, equals_at, "="@) {
                    Err(equals_at)
                } else {
                    match expr_within(s, p, skip_space(s, equals_at + "="@.len())) {
                        Err(at) => Err(at),
                        Ok((e1, bound_end)) => {
                            let in_at = skip_space(s, bound_end);
                            if !has_word(s, in_at, "in"@) {
                                Err(in_at)
                            } else {
                                match expr_within(s, p, skip_space(s, in_at + "in"@.len())) {
                                    Err(at) => Err(at),
                                    Ok((e2, end)) => Ok(
                                        (
                                            ExprView::Apply(
                                                Box::new(ExprView::Lambda(x, Box::new(e2))),
                                                Box::new(e1),
                                            ),
                                            end,
                                        ),
                                    ),
                                }
                            }
                        },
                    }
                }
            },
        }
    }
}

/// A single expression and then as many more as can be read, each
/// taken as the argument of all that stands before it.
pub open spec fn application_at(s: Seq<char>, p: int) -> Outcome
    decreases s.len() - p, 4int,
{
    match single_at(s, p) {
        Err(at) => Err(at),
        Ok((head, q)) => if advances(s, p, q) {
            Ok(arguments_at(s, head, q))
        } else {
            Err(p)
        },
    }
}

/// `head` applied in turn to each of the single expressions that can be
/// read from `p` on, and the place after the last of them.
pub open spec fn arguments_at(s: Seq<char>, head: ExprView, p: int) -> (ExprView, int)
    decreases s.len() - p, 3int,
{
    match single_at(s, skip_space(s, p)) {
        Err(_) => (head, p),
        Ok((arg, q)) => if advances(s, p, q) {
            arguments_at(s, ExprView::Apply(Box::new(head), Box::new(arg)), q)
        } else {
            (head, p)
        },
    }
}

/// A single expression: the first of word, constant and expression in
/// parentheses that can be read at `p`; where none can, the failure is
/// that of the last.
pub open spec fn single_at(s: Seq<char>, p: int) -> Outcome
    decreases s.len() - p, 2int,
{
    if word_at(s, p) is Ok {
        word_at(s, p)
    } else if constant_at(s, p) is Ok {
        constant_at(s, p)
    } else {
        paren_at(s, p)
    }
}

/// `( e )`.
pub open spec fn paren_at(s: Seq<char>, p: int) -> Outcome
    decreases s.len() - p, 1int,
{
    if !has_word(s, p, "("@) {
        Err(p)
    } else {
        match expr_within(s, p, skip_space(s, p + "("@.len())) {
            Err(at) => Err(at),
            Ok((e, q)) => {
                let close_at = skip_space(s, q);
                if !has_word(s, close_at, ")"@) {
                    Err(close_at)
                } else {
                    Ok((e, close_at + ")"@.len()))
                }
            },
        }
    }
}

/// What a whole text is read as: the expression that stands in it
/// between blanks, where there is one and nothing else.
pub open spec fn parsed(s: Seq<char>) -> Result<ExprView, ErrorView> {
    match expr_at(s, skip_space(s, 0)) {
        Err(at) => Err(ErrorView::Other(s.subrange(at, s.len() as int))),
        Ok((e, q)) => {
            let rest = skip_space(s, q);
            if rest == s.len() {
                Ok(e)
            } else {
                Err(ErrorView::NotCompletelyConsumed(s.subrange(rest, s.len() as int)))
            }
        },
    }
}

/// An expression that was read ends after the place where it started,
/// within the text. So no part of a phrase is ever refused for where it
/// starts: the parts of a phrase start after a word of the phrase, or
/// after an expression that was read.
pub proof fn lemma_expr_advances(s: Seq<char>, p: int)
    requires
        0 <= p <= s.len(),
    ensures
        expr_at(s, p) matches Ok((_, q)) ==> advances(s, p, q),
    decreases s.len() - p, 5int,
{
    lemma_abstraction_advances(s, p);
    lemma_conditional_advances(s, p);
    lemma_let_advances(s, p);
    lemma_application_advances(s, p);
}

/// A part of a phrase that was read ends after the place where it
/// started.
pub proof fn lemma_part_advances(s: Seq<char>, p: int, q: int)
    requires
        0 <= p <= s.len(),
    ensures
        expr_within(s, p, q) matches Ok((_, end)) ==> advances(s, p, q) && advances(s, q, end)
            && expr_at(s, q) == expr_within(s, p, q),
    decreases s.len() - p, 0int,
{
    if advances(s, p, q) {
        lemma_expr_advances(s, q);
    }
}

/// What follows a word of a phrase is read as any expression is: the
/// place after a word that is not empty, and after the blanks behind
/// it, lies after the start of the phrase.
pub proof fn lemma_part_after_word(s: Seq<char>, p: int, at: int, w: Seq<char>)
    requires
        0 <= p <= at,
        has_word(s, at, w),
        w.len() > 0,
    ensures
        expr_within(s, p, skip_space(s, at + w.len())) == expr_at(s, skip_space(s, at + w.len())),
{
}

/// An abstraction that was read ends after the place where it started.
pub proof fn lemma_abstraction_advances(s: Seq<char>, p: int)
    requires
        0 <= p <= s.len(),
    ensures
        abstraction_at(s, p) matches Ok((_, q)) ==> advances(s, p, q),
    decreases s.len() - p, 4int,
{
    if has_word(s, p, "fun"@) {
        if let Ok((_, name_end)) = name_at(s, skip_space(s, p + "fun"@.len())) {
            let arrow = skip_space(s, name_end);
            if has_word(s, arrow, "->"@) {
                lemma_part_advances(s, p, skip_space(s, arrow + "->"@.len()));
            }
        }
    }
}

/// A conditional that was read ends after the place where it started.
pub proof fn lemma_conditional_advances(s: Seq<char>, p: int)
    requires
        0 <= p <= s.len(),
    ensures
        conditional_at(s, p) matches Ok((_, q)) ==> advances(s, p, q),
    decreases s.len() - p, 4int,
{
    if has_word(s, p, "if"@) {
        if let Ok((_, test_end)) = expr_within(s, p, skip_space(s, p + "if"@.len())) {
            let then_at = skip_space(s, test_end);
            if has_word(s, then_at, "then"@) {
                let first_start = skip_space(s, then_at + "then"@.len());
                if let Ok((_, first_end)) = expr_within(s, p, first_start) {
                    let else_at = skip_space(s, first_end);
                    if has_word(s, else_at, "else"@) {
                        lemma_part_advances(s, p, skip_space(s, else_at + "else"@.len()));
                    }
                }
            }
        }
    }
}

/// A let that was read ends after the place where it started.
pub proof fn lemma_let_advances(s: Seq<char>, p: int)
    requires
        0 <= p <= s.len(),
    ensures
        let_at(s, p) matches Ok((_, q)) ==> advances(s, p, q),
    decreases s.len() - p, 4int,
{
    if has_word(s, p, "let"@) {
        if let Ok((_, name_end)) = name_at(s, skip_space(s, p + "let"@.len())) {
            let equals_at = skip_space(s, name_end);
            if has_word(s, equals_at, "="@) {
                let bound_start = skip_space(s, equals_at + "="@.len());
                if let Ok((_, bound_end)) = expr_within(s, p, bound_start) {
                    let in_at = skip_space(s, bound_end);
                    if has_word(s, in_at, "in"@) {
                        lemma_part_advances(s, p, skip_space(s, in_at + "in"@.len()));
                    }
                }
            }
        }
    }
}

/// An application that was read ends after the place where it started.
pub proof fn lemma_application_advances(s: Seq<char>, p: int)
    requires
        0 <= p <= s.len(),
    ensures
        application_at(s, p) matches Ok((_, q)) ==> advances(s, p, q),
    decreases s.len() - p, 4int,
{
    if let Ok((head, q)) = single_at(s, p) {
        if advances(s, p, q) {
            lemma_arguments_end(s, head, q);
        }
    }
}

/// The arguments of an application end at or after the place where
/// they were looked for, within the text.
pub proof fn lemma_arguments_end(s: Seq<char>, head: ExprView, p: int)
    requires
        0 <= p <= s.len(),
    ensures
        p <= arguments_at(s, head, p).1 <= s.len(),
    decreases s.len() - p, 3int,
{
    if let Ok((arg, q)) = single_at(s, skip_space(s, p)) {
        if advances(s, p, q) {
            lemma_arguments_end(s, ExprView::Apply(Box::new(head), Box::new(arg)), q);
        }
    }
}

/// A single expression that was read ends after the place where it
/// started.
pub proof fn lemma_single_advances(s: Seq<char>, p: int)
    requires
        0 <= p <= s.len(),
    ensures
        single_at(s, p) matches Ok((_, q)) ==> advances(s, p, q),
    decreases s.len() - p, 2int,
{
    reveal_strlit("\"");
    reveal_strlit("(");
    if has_word(s, p, "("@) {
        lemma_part_advances(s, p, skip_space(s, p + "("@.len()));
    }
}

/// An application is a single expression with the arguments that
/// follow it: whenever the single expression can be read, so can the
/// application.
pub proof fn lemma_application_unfolds(s: Seq<char>, p: int)
    requires
        0 <= p <= s.len(),
    ensures
        single_at(s, p) matches Ok((head, q)) ==> application_at(s, p) == Ok::<
            (ExprView, int),
            int,
        >(arguments_at(s, head, q)),
        single_at(s, p) matches Err(at) ==> application_at(s, p) == Err::<(ExprView, int), int>(
            at,
        ),
{
    lemma_single_advances(s, p);
}

/// Every single expression that can be read after an application
/// becomes an argument of it.
pub proof fn lemma_arguments_unfold(s: Seq<char>, head: ExprView, p: int)
    requires
        0 <= p <= s.len(),
    ensures
        single_at(s, skip_space(s, p)) matches Ok((arg, q)) ==> arguments_at(s, head, p)
            == arguments_at(s, ExprView::Apply(Box::new(head), Box::new(arg)), q),
        single_at(s, skip_space(s, p)) is Err ==> arguments_at(s, head, p) == (head, p),
{
    lemma_single_advances(s, skip_space(s, p));
}

/// What a word was found to be.
pub enum IdentResult {
    Primitive(Primitive),
    Const(Const),
    Ident(Ident),
}

impl IdentResult {
    /// The expression that the word stands for.
    pub open spec fn meaning(self) -> ExprView {
        match self {
            IdentResult::Primitive(prim) => ExprView::Primitive(prim),
            IdentResult::Const(c) => ExprView::Const(c@),
            IdentResult::Ident(x) => ExprView::Var(x@),
        }
    }
}

/// Whether `r` is the outcome `expected` of reading a phrase at `p`. An
/// expression that was read ends after `p`, and nests no more
/// abstractions than it has characters; a failure lies at or after `p`.
pub open spec fn reads(
    s: Seq<char>,
    p: int,
    r: Result<(Expr, usize), usize>,
    expected: Outcome,
) -> bool {
    match r {
        Ok((e, q)) => {
            &&& expected == Ok::<(ExprView, int), int>((e@, q as int))
            &&& advances(s, p, q as int)
            &&& e@.lambda_depth() <= q - p
        },
        Err(at) => expected == Err::<(ExprView, int), int>(at as int) && p <= at <= s.len(),
    }
}

/// Tells what the letters from place `from` up to place `to` stand for.
fn classify(src: &Source, from: usize, to: usize) -> (r: Option<IdentResult>)
    requires
        src.wf(),
        from <= to <= src@.len(),
    ensures
        match r {
            Some(w) => word_meaning(src@.subrange(from as int, to as int)) == Some(w.meaning()),
            None => word_meaning(src@.subrange(from as int, to as int)) is None,
        },
{
    if src.is_word(from, to, "fun") || src.is_word(from, to, "let") || src.is_word(from, to, "in")
        || src.is_word(from, to, "if") || src.is_word(from, to, "then") || src.is_word(
        from,
        to,
        "else",
    ) {
        None
    } else if src.is_word(from, to, "true") {
        Some(IdentResult::Const(Const::Bool(true)))
    } else if src.is_word(from, to, "false") {
        Some(IdentResult::Const(Const::Bool(false)))
    } else if src.is_word(from, to, "add") {
        Some(IdentResult::Primitive(Primitive::Add))
    } else if src.is_word(from, to, "sub") {
        Some(IdentResult::Primitive(Primitive::Sub))
    } else if src.is_word(from, to, "mult") {
        Some(IdentResult::Primitive(Primitive::Mult))
    } else if src.is_word(from, to, "append") {
        Some(IdentResult::Primitive(Primitive::Append))
    } else if src.is_word(from, to, "arabic") {
        Some(IdentResult::Primitive(Primitive::Arabic))
    } else if src.is_word(from, to, "iszero") {
        Some(IdentResult::Primitive(Primitive::IsZero))
    } else {
        Some(IdentResult::Ident(Ident::of_string(src.slice(from, to))))
    }
}

/// Reads a word and tells what it stands for.
fn parse_ident(src: &Source, p: usize) -> (r: Result<(IdentResult, usize), usize>)
    requires
        src.wf(),
        p <= src@.len(),
    ensures
        match r {
            Ok((w, q)) => word_at(src@, p as int) == Ok::<(ExprView, int), int>(
                (w.meaning(), q as int),
            ) && advances(src@, p as int, q as int),
            Err(at) => word_at(src@, p as int) == Err::<(ExprView, int), int>(at as int) && p <= at
                <= src@.len(),
        },
{
    let q = src.scan(p, CharClass::Letter);
    if q == p {
        return Err(p);
    }
    match classify(src, p, q) {
        Some(w) => Ok((w, q)),
        None => Err(q),
    }
}

/// Reads a word that can be bound.
fn parse_name(src: &Source, p: usize) -> (r: Result<(Ident, usize), usize>)
    requires
        src.wf(),
        p <= src@.len(),
    ensures
        match r {
            Ok((x, q)) => name_at(src@, p as int) == Ok::<(Seq<char>, int), int>((x@, q as int))
                && advances(src@, p as int, q as int),
            Err(at) => name_at(src@, p as int) == Err::<(Seq<char>, int), int>(at as int) && p
                <= at <= src@.len(),
        },
{
    match parse_ident(src, p) {
        Ok((IdentResult::Ident(x), q)) => Ok((x, q)),
        Ok((_, q)) => Err(q),
        Err(at) => Err(at),
    }
}

/// Reads a word as the expression that it stands for.
fn parse_variable(src: &Source, p: usize) -> (r: Result<(Expr, usize), usize>)
    requires
        src.wf(),
        p <= src@.len(),
    ensures
        reads(src@, p as int, r, word_at(src@, p as int)),
{
    match parse_ident(src, p) {
        Ok((IdentResult::Ident(x), q)) => Ok((Expr::Var(x), q)),
        Ok((IdentResult::Const(c), q)) => Ok((Expr::Const(c), q)),
        Ok((IdentResult::Primitive(prim), q)) => Ok((Expr::Primitive(prim), q)),
        Err(at) => Err(at),
    }
}

/// Reads an integer.
fn parse_integer_literal(src: &Source, p: usize) -> (r: Result<(Expr, usize), usize>)
    requires
        src.wf(),
        p <= src@.len(),
    ensures
        reads(src@, p as int, r, integer_at(src@, p as int)),
{
    let q = src.scan(p, CharClass::Digit);
    if q == p {
        return Err(p);
    }
    match src.number(p, q) {
        Some(n) => Ok((Expr::Const(Const::Int(n)), q)),
        None => Err(p),
    }
}

/// Reads a string.
fn parse_string_literal(src: &Source, p: usize) -> (r: Result<(Expr, usize), usize>)
    requires
        src.wf(),
        p <= src@.len(),
    ensures
        reads(src@, p as int, r, string_at(src@, p as int)),
{
    proof {
        reveal_strlit("\"");
    }
    if !src.has(p, "\"") {
        return Err(p);
    }
    let from = p + 1;
    let to = src.scan(from, CharClass::Unquoted);
    if !src.has(to, "\"") {
        return Err(to);
    }
    let contents = src.slice(from, to);
    Ok((Expr::Const(Const::String(contents)), to + 1))
}

/// Reads an integer, or else a string.
fn parse_constant(src: &Source, p: usize) -> (r: Result<(Expr, usize), usize>)
    requires
        src.wf(),
        p <= src@.len(),
    ensures
        reads(src@, p as int, r, constant_at(src@, p as int)),
{
    match parse_integer_literal(src, p) {
        Ok(done) => Ok(done),
        Err(_) => parse_string_literal(src, p),
    }
}

/// Reads an expression.
fn parse_main(src: &Source, p: usize) -> (r: Result<(Expr, usize), usize>)
    requires
        src.wf(),
        p <= src@.len(),
    ensures
        reads(src@, p as int, r, expr_at(src@, p as int)),
    decreases src@.len() - p, 5int,
{
    match parse_abstraction(src, p) {
        Ok(done) => Ok(done),
        Err(_) => match parse_conditional(src, p) {
            Ok(done) => Ok(done),
            Err(_) => match parse_let(src, p) {
                Ok(done) => Ok(done),
                Err(_) => parse_application(src, p),
            },
        },
    }
}

/// Reads `fun x -> e`.
fn parse_abstraction(src: &Source, p: usize) -> (r: Result<(Expr, usize), usize>)
    requires
        src.wf(),
        p <= src@.len(),
    ensures
        reads(src@, p as int, r, abstraction_at(src@, p as int)),
    decreases src@.len() - p, 4int,
{
    proof {
        reveal_strlit("fun");
        reveal_strlit("->");
    }
    if !src.has(p, "fun") {
        return Err(p);
    }
    let name_start = src.scan(p + 3, CharClass::Space);
    let (x, name_end) = match parse_name(src, name_start) {
        Ok(found) => found,
        Err(at) => {
            return Err(at);
        },
    };
    let arrow = src.scan(name_end, CharClass::Space);
    if !src.has(arrow, "->") {
        return Err(arrow);
    }
    let body_start = src.scan(arrow + 2, CharClass::Space);
    match parse_main(src, body_start) {
        Ok((body, q)) => Ok((Expr::Lambda(x, Box::new(body)), q)),
        Err(at) => Err(at),
    }
}

/// Reads `if e0 then e1 else e2`.
fn parse_conditional(src: &Source, p: usize) -> (r: Result<(Expr, usize), usize>)
    requires
        src.wf(),
        p <= src@.len(),
    ensures
        reads(src@, p as int, r, conditional_at(src@, p as int)),
    decreases src@.len() - p, 4int,
{
    proof {
        reveal_strlit("if");
        reveal_strlit("then");
        reveal_strlit("else");
    }
    if !src.has(p, "if") {
        return Err(p);
    }
    let test_start = src.scan(p + 2, CharClass::Space);
    let (e0, test_end) = match parse_main(src, test_start) {
        Ok(done) => done,
        Err(at) => {
            return Err(at);
        },
    };
    let then_at = src.scan(test_end, CharClass::Space);
    if !src.has(then_at, "then") {
        return Err(then_at);
    }
    let first_start = src.scan(then_at + 4, CharClass::Space);
    let (e1, first_end) = match parse_main(src, first_start) {
        Ok(done) => done,
        Err(at) => {
            return Err(at);
        },
    };
    let else_at = src.scan(first_end, CharClass::Space);
    if !src.has(else_at, "else") {
        return Err(else_at);
    }
    let second_start = src.scan(else_at + 4, CharClass::Space);
    match parse_main(src, second_start) {
        Ok((e2, end)) => Ok((Expr::If(Box::new(e0), Box::new(e1), Box::new(e2)), end)),
        Err(at) => Err(at),
    }
}

/// Reads `let x = e1 in e2`.
fn parse_let(src: &Source, p: usize) -> (r: Result<(Expr, usize), usize>)
    requires
        src.wf(),
        p <= src@.len(),
    ensures
        reads(src@, p as int, r, let_at(src@, p as int)),
    decreases src@.len() - p, 4int,
{
    proof {
        reveal_strlit("let");
        reveal_strlit("=");
        reveal_strlit("in");
    }
    if !src.has(p, "let") {
        return Err(p);
    }
    let name_start = src.scan(p + 3, CharClass::Space);
    let (x, name_end) = match parse_name(src, name_start) {
        Ok(found) => found,
        Err(at) => {
            return Err(at);
        },
    };
    let equals_at = src.scan(name_end, CharClass::Space);
    if !src.has(equals_at, "=") {
        return Err(equals_at);
    }
    let bound_start = src.scan(equals_at + 1, CharClass::Space);
    let (e1, bound_end) = match parse_main(src, bound_start) {
        Ok(done) => done,
        Err(at) => {
            return Err(at);
        },
    };
    let in_at = src.scan(bound_end, CharClass::Space);
    if !src.has(in_at, "in") {
        return Err(in_at);
    }
    let body_start = src.scan(in_at + 2, CharClass::Space);
    match parse_main(src, body_start) {
        Ok((e2, end)) => {
            let function = Expr::Lambda(x, Box::new(e2));
            assert(function@.lambda_depth() <= end - p);
            Ok((Expr::Apply(Box::new(function), Box::new(e1)), end))
        },
        Err(at) => Err(at),
    }
}

/// Reads a single expression and the arguments that follow it.
fn parse_application(src: &Source, p: usize) -> (r: Result<(Expr, usize), usize>)
    requires
        src.wf(),
        p <= src@.len(),
    ensures
        reads(src@, p as int, r, application_at(src@, p as int)),
    decreases src@.len() - p, 4int,
{
    let (head, q) = match parse_single(src, p) {
        Ok(done) => done,
        Err(at) => {
            return Err(at);
        },
    };
    let ghost whole = arguments_at(src@, head@, q as int);
    let mut e = head;
    let mut end = q;
    loop
        invariant
            src.wf(),
            advances(src@, p as int, end as int),
            e@.lambda_depth() <= end - p,
            arguments_at(src@, e@, end as int) == whole,
        ensures
            advances(src@, p as int, end as int),
            e@.lambda_depth() <= end - p,
            whole == (e@, end as int),
        decreases src@.len() - end,
    {
        let next = src.scan(end, CharClass::Space);
        match parse_single(src, next) {
            Ok((arg, arg_end)) => {
                e = Expr::Apply(Box::new(e), Box::new(arg));
                end = arg_end;
            },
            Err(_) => {
                break ;
            },
        }
    }
    Ok((e, end))
}

/// Reads a single expression.
fn parse_single(src: &Source, p: usize) -> (r: Result<(Expr, usize), usize>)
    requires
        src.wf(),
        p <= src@.len(),
    ensures
        reads(src@, p as int, r, single_at(src@, p as int)),
    decreases src@.len() - p, 2int,
{
    match parse_variable(src, p) {
        Ok(done) => Ok(done),
        Err(_) => match parse_constant(src, p) {
            Ok(done) => Ok(done),
            Err(_) => parse_paren(src, p),
        },
    }
}

/// Reads `( e )`.
fn parse_paren(src: &Source, p: usize) -> (r: Result<(Expr, usize), usize>)
    requires
        src.wf(),
        p <= src@.len(),
    ensures
        reads(src@, p as int, r, paren_at(src@, p as int)),
    decreases src@.len() - p, 1int,
{
    proof {
        reveal_strlit("(");
        reveal_strlit(")");
    }
    if !src.has(p, "(") {
        return Err(p);
    }
    let inner_start = src.scan(p + 1, CharClass::Space);
    let (e, q) = match parse_main(src, inner_start) {
        Ok(done) => done,
        Err(at) => {
            return Err(at);
        },
    };
    let close_at = src.scan(q, CharClass::Space);
    if !src.has(close_at, ")") {
        return Err(close_at);
    }
    Ok((e, close_at + 1))
}

/// The model of what parsing returns.
pub open spec fn outcome_view(r: Result<Expr, Error>) -> Result<ExprView, ErrorView> {
    match r {
        Ok(e) => Ok(e@),
        Err(err) => Err(err@),
    }
}

/// Reads a text as one expression. The expression nests no more
/// abstractions than the text has characters.
pub fn parse(input: &str) -> (r: Result<Expr, Error>)
    ensures
        outcome_view(r) == parsed(input@),
        r matches Ok(e) ==> e@.lambda_depth() <= input@.len(),
{
    let src = Source::new(input);
    let n = src.len();
    let start = src.scan(0, CharClass::Space);
    match parse_main(&src, start) {
        Ok((e, q)) => {
            let rest = src.scan(q, CharClass::Space);
            if rest == n {
                Ok(e)
            } else {
                Err(Error::NotCompletelyConsumed(src.slice(rest, n)))
            }
        },
        Err(at) => Err(Error::Other(src.slice(at, n))),
    }
}

} // verus!
