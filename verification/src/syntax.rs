//! Expressions, instructions, and the mathematical models that the
//! contracts of the other modules are stated over.

use vstd::prelude::*;

verus! {

/// The name of a variable.
#[derive(PartialEq, Eq, Hash, Clone, Debug)]
pub struct Ident(String);

impl View for Ident {
    type V = Seq<char>;

    /// The characters of the name.
    closed spec fn view(&self) -> Seq<char> {
        self.0@
    }
}

impl Ident {
    /// The name that the string spells.
    pub fn of_string(s: String) -> (x: Self)
        ensures
            x@ == s@,
    {
        Ident(s)
    }

    /// The name as text.
    pub fn name(&self) -> (s: &str)
        ensures
            s@ == self@,
    {
        self.0.as_str()
    }

    /// Gives the name up as a string.
    pub fn into_string(self) -> (s: String)
        ensures
            s@ == self@,
    {
        self.0
    }
}

/// A literal constant.
#[derive(PartialEq, Eq, Clone, Debug)]
pub enum Const {
    Int(i32),
    String(String),
    Bool(bool),
}

/// The model of a [`Const`].
pub enum ConstView {
    Int(int),
    String(Seq<char>),
    Bool(bool),
}

impl View for Const {
    type V = ConstView;

    open spec fn view(&self) -> ConstView {
        match self {
            Const::Int(n) => ConstView::Int(*n as int),
            Const::String(s) => ConstView::String(s@),
            Const::Bool(b) => ConstView::Bool(*b),
        }
    }
}

/// A built-in operation.
#[derive(PartialEq, Eq, Structural, Clone, Copy, Debug)]
pub enum Primitive {
    Add,
    Sub,
    Mult,
    Append,
    Arabic,
    IsZero,
}

impl Primitive {
    /// The number of arguments that the operation takes.
    pub open spec fn spec_arity(&self) -> i32 {
        match self {
            Primitive::Add | Primitive::Sub | Primitive::Mult | Primitive::Append => 2,
            Primitive::Arabic | Primitive::IsZero => 1,
        }
    }

    /// The name of the macro that carries out the operation.
    pub open spec fn spec_command(&self) -> Seq<char> {
        match self {
            Primitive::Add => "PrimitiveIntAdd"@,
            Primitive::Sub => "PrimitiveIntSub"@,
            Primitive::Mult => "PrimitiveIntMult"@,
            Primitive::Append => "PrimitiveStringAppend"@,
            Primitive::Arabic => "PrimitiveArabic"@,
            Primitive::IsZero => "PrimitiveIntIsZero"@,
        }
    }

    /// The number of arguments that the operation takes.
    #[verifier::when_used_as_spec(spec_arity)]
    pub fn arity(&self) -> (n: i32)
        ensures
            n == self.spec_arity(),
    {
        match self {
            Primitive::Add => 2,
            Primitive::Sub => 2,
            Primitive::Mult => 2,
            Primitive::Append => 2,
            Primitive::Arabic => 1,
            Primitive::IsZero => 1,
        }
    }

    /// The name of the macro that carries out the operation.
    pub fn command(&self) -> (name: &str)
        ensures
            name@ == self.spec_command(),
    {
        match self {
            Primitive::Add => "PrimitiveIntAdd",
            Primitive::Sub => "PrimitiveIntSub",
            Primitive::Mult => "PrimitiveIntMult",
            Primitive::Append => "PrimitiveStringAppend",
            Primitive::Arabic => "PrimitiveArabic",
            Primitive::IsZero => "PrimitiveIntIsZero",
        }
    }
}

/// An expression of the source language.
#[derive(PartialEq, Eq, Debug)]
pub enum Expr {
    Var(Ident),
    Lambda(Ident, Box<Expr>),
    Apply(Box<Expr>, Box<Expr>),
    If(Box<Expr>, Box<Expr>, Box<Expr>),
    Const(Const),
    Primitive(Primitive),
}

/// The model of an [`Expr`]: the same tree over names as character
/// sequences.
pub enum ExprView {
    Var(Seq<char>),
    Lambda(Seq<char>, Box<ExprView>),
    Apply(Box<ExprView>, Box<ExprView>),
    If(Box<ExprView>, Box<ExprView>, Box<ExprView>),
    Const(ConstView),
    Primitive(Primitive),
}

impl View for Expr {
    type V = ExprView;

    open spec fn view(&self) -> ExprView
        decreases self,
    {
        match self {
            Expr::Var(x) => ExprView::Var(x@),
            Expr::Lambda(x, body) => ExprView::Lambda(x@, Box::new((**body).view())),
            Expr::Apply(e1, e2) => ExprView::Apply(
                Box::new((**e1).view()),
                Box::new((**e2).view()),
            ),
            Expr::If(e0, e1, e2) => ExprView::If(
                Box::new((**e0).view()),
                Box::new((**e1).view()),
                Box::new((**e2).view()),
            ),
            Expr::Const(c) => ExprView::Const(c@),
            Expr::Primitive(prim) => ExprView::Primitive(*prim),
        }
    }
}

impl ExprView {
    /// The greatest number of abstractions that enclose any one place in
    /// the expression.
    pub open spec fn lambda_depth(self) -> nat
        decreases self,
    {
        match self {
            ExprView::Var(_) => 0,
            ExprView::Lambda(_, body) => 1 + body.lambda_depth(),
            ExprView::Apply(e1, e2) => vstd::math::max(
                e1.lambda_depth() as int,
                e2.lambda_depth() as int,
            ) as nat,
            ExprView::If(e0, e1, e2) => vstd::math::max(
                e0.lambda_depth() as int,
                vstd::math::max(e1.lambda_depth() as int, e2.lambda_depth() as int),
            ) as nat,
            ExprView::Const(_) => 0,
            ExprView::Primitive(_) => 0,
        }
    }
}

/// An instruction of the machine.
#[derive(PartialEq, Eq, Debug)]
pub enum Instruction {
    Access(i32),
    Closure(Vec<Instruction>),
    Return,
    Apply,
    If(Vec<Instruction>, Vec<Instruction>),
    Const(Const),
    Primitive(Primitive),
}

/// The model of an [`Instruction`].
pub enum InstructionView {
    Access(int),
    Closure(Seq<InstructionView>),
    Return,
    Apply,
    If(Seq<InstructionView>, Seq<InstructionView>),
    Const(ConstView),
    Primitive(Primitive),
}

impl View for Instruction {
    type V = InstructionView;

    open spec fn view(&self) -> InstructionView
        decreases self,
    {
        match self {
            Instruction::Access(n) => InstructionView::Access(*n as int),
            Instruction::Closure(body) => InstructionView::Closure(program_view(body@)),
            Instruction::Return => InstructionView::Return,
            Instruction::Apply => InstructionView::Apply,
            Instruction::If(then_branch, else_branch) => InstructionView::If(
                program_view(then_branch@),
                program_view(else_branch@),
            ),
            Instruction::Const(c) => InstructionView::Const(c@),
            Instruction::Primitive(prim) => InstructionView::Primitive(*prim),
        }
    }
}

/// The model of a sequence of instructions: the models of its members,
/// in order.
pub open spec fn program_view(instrs: Seq<Instruction>) -> Seq<InstructionView>
    decreases instrs,
{
    if instrs.len() == 0 {
        Seq::empty()
    } else {
        program_view(instrs.drop_last()).push(instrs.last().view())
    }
}

/// The model of a program has the program's length, and holds at each
/// place the model of the instruction there.
pub proof fn lemma_program_view(instrs: Seq<Instruction>)
    ensures
        program_view(instrs).len() == instrs.len(),
        forall|i: int| 0 <= i < instrs.len() ==> #[trigger] program_view(instrs)[i] == instrs[i]@,
    decreases instrs.len(),
{
    if instrs.len() > 0 {
        lemma_program_view(instrs.drop_last());
        assert(program_view(instrs) == program_view(instrs.drop_last()).push(instrs.last().view()));
    } else {
        assert(program_view(instrs) == Seq::<InstructionView>::empty());
    }
}

/// The model of a program with one more instruction at its end.
pub proof fn lemma_program_push(instrs: Seq<Instruction>, last: Instruction)
    ensures
        program_view(instrs.push(last)) == program_view(instrs).push(last@),
{
    assert(instrs.push(last).drop_last() =~= instrs);
}

/// The model of one program followed by another.
pub proof fn lemma_program_concat(first: Seq<Instruction>, second: Seq<Instruction>)
    ensures
        program_view(first + second) == program_view(first) + program_view(second),
{
    lemma_program_view(first);
    lemma_program_view(second);
    lemma_program_view(first + second);
    assert(program_view(first + second) =~= program_view(first) + program_view(second));
}

} // verus!
