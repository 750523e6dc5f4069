//! The text of an instruction program: one macro call for each
//! instruction, bodies and branches nested in braces.

use vstd::prelude::*;
use vstd::string::*;
use crate::syntax::{
    lemma_program_view, program_view, Const, ConstView, Instruction, InstructionView, Primitive,
};

verus! {

/// What every macro name of the machine begins with.
pub open spec fn prefix() -> Seq<char> {
    "\\secd@"@
}

/// `unit` written `n` times over; nothing where `n` is not positive.
pub open spec fn repeated(unit: Seq<char>, n: int) -> Seq<char>
    decreases n,
{
    if n <= 0 {
        Seq::empty()
    } else {
        repeated(unit, n - 1) + unit
    }
}

/// The text of a constant: an integer as that many marks, a string as
/// it stands, a truth value as one letter.
pub open spec fn const_text(c: ConstView) -> Seq<char> {
    match c {
        ConstView::Int(n) => prefix() + "CONST{"@ + prefix() + "INT{"@ + repeated("o"@, n) + "}"@
            + prefix() + "ENDVAL}"@,
        ConstView::String(s) => prefix() + "CONST{"@ + prefix() + "STRING{"@ + s + "}"@ + prefix()
            + "ENDVAL}"@,
        ConstView::Bool(b) => prefix() + "CONST{"@ + prefix() + "BOOL{"@ + (if b {
            "T"@
        } else {
            "F"@
        }) + "}"@ + prefix() + "ENDVAL}"@,
    }
}

/// The text of one instruction.
pub open spec fn instruction_text(instr: InstructionView) -> Seq<char>
    decreases instr,
{
    match instr {
        InstructionView::Access(n) => prefix() + "ACCESS{"@ + repeated("*"@, n) + "}"@,
        InstructionView::Closure(body) => prefix() + "CLOSURE{"@ + program_text(body) + "}"@,
        InstructionView::Return => prefix() + "RETURN{}"@,
        InstructionView::Apply => prefix() + "APPLY{}"@,
        InstructionView::If(then_branch, else_branch) => prefix() + "IF{{"@ + program_text(
            then_branch,
        ) + "}{"@ + program_text(else_branch) + "}}"@,
        InstructionView::Const(c) => const_text(c),
        InstructionView::Primitive(prim) => prefix() + "PRIM{"@ + prefix() + prim.spec_command()
            + "}"@,
    }
}

/// The text of a program: the texts of its instructions, one after the
/// other.
pub open spec fn program_text(code: Seq<InstructionView>) -> Seq<char>
    decreases code,
{
    if code.len() == 0 {
        Seq::empty()
    } else {
        program_text(code.drop_last()) + instruction_text(code.last())
    }
}

/// The document that evaluates a program and shows what comes of it.
pub open spec fn document_text(code: Seq<InstructionView>) -> Seq<char> {
    "\\documentclass{jsarticle}\\usepackage{secd}\\makeatletter\\edef\\result{"@ + prefix()
        + "EvalAndShow{"@ + program_text(code)
        + "}}\\makeatother\\begin{document}\\result\\end{document}"@
}

/// The text of one program followed by another is the text of the one
/// followed by the text of the other.
pub proof fn lemma_program_text_concat(first: Seq<InstructionView>, second: Seq<InstructionView>)
    ensures
        program_text(first + second) == program_text(first) + program_text(second),
    decreases second.len(),
{
    if second.len() == 0 {
        assert(first + second =~= first);
        assert(program_text(first) + program_text(second) =~= program_text(first));
    } else {
        lemma_program_text_concat(first, second.drop_last());
        assert((first + second).drop_last() =~= first + second.drop_last());
        assert((first + second).last() == second.last());
        assert(program_text(first + second) =~= program_text(first) + program_text(second));
    }
}

/// The text of a program of one instruction is the text of the
/// instruction.
pub proof fn lemma_program_text_single(instr: InstructionView)
    ensures
        program_text(seq![instr]) == instruction_text(instr),
{
    let one = seq![instr];
    assert(program_text(one.drop_last()) == Seq::<char>::empty());
    assert(program_text(one) =~= instruction_text(instr));
}

/// What has a text in the vocabulary of the machine.
pub trait Serialization: Sized {
    /// The text.
    spec fn text(&self) -> Seq<char>;

    /// Writes the text out.
    fn serialize(self) -> (s: String)
        ensures
            s@ == self.text(),
    ;
}

impl Serialization for Primitive {
    open spec fn text(&self) -> Seq<char> {
        self.spec_command()
    }

    fn serialize(self) -> (s: String) {
        String::from_str(self.command())
    }
}

impl Serialization for Vec<Instruction> {
    open spec fn text(&self) -> Seq<char> {
        program_text(program_view(self@))
    }

    fn serialize(self) -> (s: String) {
        serialize_program(&self)
    }
}

impl Serialization for Instruction {
    open spec fn text(&self) -> Seq<char> {
        instruction_text(self@)
    }

    fn serialize(self) -> (s: String) {
        serialize_instruction(&self)
    }
}

/// Writes `unit` as many times as `n` says.
fn repeat(unit: &str, n: i32) -> (s: String)
    ensures
        s@ == repeated(unit@, n as int),
{
    let mut s = String::new();
    let mut i: i32 = 0;
    while i < n
        invariant
            0 <= i,
            i <= n || i == 0,
            s@ == repeated(unit@, i as int),
        decreases n - i,
    {
        s.append(unit);
        i += 1;
    }
    s
}

/// The text of a constant.
fn serialize_const(c: &Const) -> (s: String)
    ensures
        s@ == const_text(c@),
{
    let mut s = String::from_str("\\secd@");
    s.append("CONST{");
    s.append("\\secd@");
    match c {
        Const::Int(n) => {
            s.append("INT{");
            let marks = repeat("o", *n);
            s.append(marks.as_str());
        },
        Const::String(contents) => {
            s.append("STRING{");
            s.append(contents.as_str());
        },
        Const::Bool(b) => {
            s.append("BOOL{");
            s.append(if *b { "T" } else { "F" });
        },
    }
    s.append("}");
    s.append("\\secd@");
    s.append("ENDVAL}");
    s
}

/// The text of one instruction.
pub fn serialize_instruction(instr: &Instruction) -> (s: String)
    ensures
        s@ == instruction_text(instr@),
    decreases instr,
{
    match instr {
        Instruction::Const(c) => serialize_const(c),
        _ => {
            let mut s = String::from_str("\\secd@");
            match instr {
                Instruction::Access(n) => {
                    s.append("ACCESS{");
                    let marks = repeat("*", *n);
                    s.append(marks.as_str());
                    s.append("}");
                },
                Instruction::Closure(body) => {
                    s.append("CLOSURE{");
                    let inner = serialize_program(body);
                    s.append(inner.as_str());
                    s.append("}");
                },
                Instruction::Return => {
                    s.append("RETURN{}");
                },
                Instruction::Apply => {
                    s.append("APPLY{}");
                },
                Instruction::If(then_branch, else_branch) => {
                    s.append("IF{{");
                    let first = serialize_program(then_branch);
                    s.append(first.as_str());
                    s.append("}{");
                    let second = serialize_program(else_branch);
                    s.append(second.as_str());
                    s.append("}}");
                },
                Instruction::Const(_) => {},
                Instruction::Primitive(prim) => {
                    s.append("PRIM{");
                    s.append("\\secd@");
                    s.append(prim.command());
                    s.append("}");
                },
            }
            s
        },
    }
}

/// The text of a program.
pub fn serialize_program(code: &Vec<Instruction>) -> (s: String)
    ensures
        s@ == program_text(program_view(code@)),
    decreases code,
{
    let ghost model = program_view(code@);
    proof {
        lemma_program_view(code@);
        assert(model.subrange(0, 0) =~= Seq::<InstructionView>::empty());
    }
    let mut s = String::new();
    let mut i: usize = 0;
    while i < code.len()
        invariant
            0 <= i <= code.len(),
            model == program_view(code@),
            model.len() == code.len(),
            forall|k: int| 0 <= k < code.len() ==> #[trigger] model[k] == code@[k]@,
            s@ == program_text(model.subrange(0, i as int)),
        decreases code.len() - i,
    {
        let piece = serialize_instruction(&code[i]);
        proof {
            let longer = model.subrange(0, i + 1);
            assert(longer.drop_last() =~= model.subrange(0, i as int));
            assert(longer.last() == code@[i as int]@);
        }
        s.append(piece.as_str());
        i += 1;
    }
    assert(model.subrange(0, code.len() as int) =~= model);
    s
}

/// The document for a program.
pub fn output(instrs: Vec<Instruction>) -> (document: String)
    ensures
        document@ == document_text(program_view(instrs@)),
{
    let code = serialize_program(&instrs);
    let mut document = String::from_str(
        "\\documentclass{jsarticle}\\usepackage{secd}\\makeatletter\\edef\\result{",
    );
    document.append("\\secd@");
    document.append("EvalAndShow{");
    document.append(code.as_str());
    document.append("}}\\makeatother\\begin{document}\\result\\end{document}");
    document
}

} // verus!
