use tex_of_ocaml::codegen::{output, serialize_instruction, serialize_program, Serialization};
use tex_of_ocaml::syntax::{Const, Instruction, Primitive};

#[test]
fn output_tests() {
    assert_eq!("\\secd@ACCESS{*****}", Instruction::Access(5).serialize());
    assert_eq!(
        "\\secd@CONST{\\secd@INT{oooooooo}\\secd@ENDVAL}",
        Instruction::Const(Const::Int(8)).serialize()
    );
    assert_eq!(
        "\\secd@CONST{\\secd@STRING{foo}\\secd@ENDVAL}",
        Instruction::Const(Const::String("foo".to_string())).serialize()
    );
    assert_eq!(
        "\\secd@PRIM{\\secd@PrimitiveIntAdd}",
        Instruction::Primitive(Primitive::Add).serialize()
    );
}

#[test]
fn serialization_table() {
    assert_eq!("\\secd@ACCESS{*****}", vec![Instruction::Access(5)].serialize());
    assert_eq!(
        "\\secd@CONST{\\secd@INT{ooo}\\secd@ENDVAL}",
        vec![Instruction::Const(Const::Int(3))].serialize()
    );
}

#[test]
fn access_of_zero_and_below_has_no_marks() {
    assert_eq!("\\secd@ACCESS{}", Instruction::Access(0).serialize());
    assert_eq!("\\secd@ACCESS{}", Instruction::Access(-4).serialize());
    assert_eq!(
        "\\secd@CONST{\\secd@INT{}\\secd@ENDVAL}",
        Instruction::Const(Const::Int(0)).serialize()
    );
    assert_eq!(
        "\\secd@CONST{\\secd@INT{}\\secd@ENDVAL}",
        Instruction::Const(Const::Int(-1)).serialize()
    );
}

#[test]
fn return_and_apply() {
    assert_eq!("\\secd@RETURN{}", Instruction::Return.serialize());
    assert_eq!("\\secd@APPLY{}", Instruction::Apply.serialize());
}

#[test]
fn truth_values() {
    assert_eq!(
        "\\secd@CONST{\\secd@BOOL{T}\\secd@ENDVAL}",
        Instruction::Const(Const::Bool(true)).serialize()
    );
    assert_eq!(
        "\\secd@CONST{\\secd@BOOL{F}\\secd@ENDVAL}",
        Instruction::Const(Const::Bool(false)).serialize()
    );
}

#[test]
fn empty_string_constant() {
    assert_eq!(
        "\\secd@CONST{\\secd@STRING{}\\secd@ENDVAL}",
        Instruction::Const(Const::String(String::new())).serialize()
    );
}

#[test]
fn closure_nests_its_body() {
    let closure = Instruction::Closure(vec![Instruction::Access(1), Instruction::Return]);
    assert_eq!(
        "\\secd@CLOSURE{\\secd@ACCESS{*}\\secd@RETURN{}}",
        closure.serialize()
    );
    assert_eq!("\\secd@CLOSURE{}", Instruction::Closure(vec![]).serialize());
}

#[test]
fn conditional_nests_both_branches() {
    let branch = Instruction::If(
        vec![Instruction::Const(Const::Int(1))],
        vec![Instruction::Access(2), Instruction::Apply],
    );
    assert_eq!(
        "\\secd@IF{{\\secd@CONST{\\secd@INT{o}\\secd@ENDVAL}}{\\secd@ACCESS{**}\\secd@APPLY{}}}",
        branch.serialize()
    );
    assert_eq!(
        "\\secd@IF{{}{}}",
        Instruction::If(vec![], vec![]).serialize()
    );
}

#[test]
fn every_operator_has_its_command() {
    assert_eq!("PrimitiveIntAdd", Primitive::Add.serialize());
    assert_eq!("PrimitiveIntSub", Primitive::Sub.serialize());
    assert_eq!("PrimitiveIntMult", Primitive::Mult.serialize());
    assert_eq!("PrimitiveStringAppend", Primitive::Append.serialize());
    assert_eq!("PrimitiveArabic", Primitive::Arabic.serialize());
    assert_eq!("PrimitiveIntIsZero", Primitive::IsZero.serialize());
    assert_eq!(
        "\\secd@PRIM{\\secd@PrimitiveStringAppend}",
        Instruction::Primitive(Primitive::Append).serialize()
    );
    assert_eq!(
        "\\secd@PRIM{\\secd@PrimitiveIntIsZero}",
        Instruction::Primitive(Primitive::IsZero).serialize()
    );
}

#[test]
fn program_is_the_instructions_in_order() {
    let program = vec![
        Instruction::Access(1),
        Instruction::Const(Const::Int(2)),
        Instruction::Apply,
    ];
    assert_eq!(
        "\\secd@ACCESS{*}\\secd@CONST{\\secd@INT{oo}\\secd@ENDVAL}\\secd@APPLY{}",
        serialize_program(&program)
    );
    assert_eq!("", serialize_program(&Vec::new()));
    assert_eq!(serialize_program(&program), program.serialize());
}

#[test]
fn by_reference_and_by_value_agree() {
    let instr = Instruction::Closure(vec![Instruction::Return]);
    let by_reference = serialize_instruction(&instr);
    assert_eq!(by_reference, instr.serialize());
}

#[test]
fn document_wraps_the_program() {
    assert_eq!(
        "\\documentclass{jsarticle}\\usepackage{secd}\\makeatletter\\edef\\result{\\secd@EvalAndShow{\\secd@ACCESS{**}}}\\makeatother\\begin{document}\\result\\end{document}",
        output(vec![Instruction::Access(2)])
    );
    assert_eq!(
        "\\documentclass{jsarticle}\\usepackage{secd}\\makeatletter\\edef\\result{\\secd@EvalAndShow{}}\\makeatother\\begin{document}\\result\\end{document}",
        output(vec![])
    );
}

#[test]
fn serializing_twice_gives_the_same_text() {
    let make = || {
        vec![Instruction::If(
            vec![Instruction::Primitive(Primitive::Mult)],
            vec![Instruction::Const(Const::String("a b".to_string()))],
        )]
    };
    assert_eq!(output(make()), output(make()));
}
