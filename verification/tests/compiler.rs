use tex_of_ocaml::compiler::{compile, compile_primitive, Compilation, Error, LevelMap};
use tex_of_ocaml::syntax::{Const, Expr, Ident, Instruction, Primitive};

fn id(x: &str) -> Ident {
    Ident::of_string(x.to_string())
}

fn var(x: &str) -> Expr {
    Expr::Var(id(x))
}

fn lambda(x: &str, e: Expr) -> Expr {
    Expr::Lambda(id(x), Box::new(e))
}

fn apply(e1: Expr, e2: Expr) -> Expr {
    Expr::Apply(Box::new(e1), Box::new(e2))
}

#[test]
fn identity_reaches_its_parameter_at_distance_zero() {
    assert_eq!(
        Ok(vec![Instruction::Closure(vec![
            Instruction::Access(0),
            Instruction::Return
        ])]),
        compile(lambda("x", var("x")))
    );
}

#[test]
fn shadowing_resolves_to_the_innermost_binding() {
    assert_eq!(
        Ok(vec![Instruction::Closure(vec![
            Instruction::Closure(vec![Instruction::Access(0), Instruction::Return]),
            Instruction::Return
        ])]),
        compile(lambda("x", lambda("x", var("x"))))
    );
}

#[test]
fn outer_variable_is_one_level_away() {
    assert_eq!(
        Ok(vec![Instruction::Closure(vec![
            Instruction::Closure(vec![Instruction::Access(1), Instruction::Return]),
            Instruction::Return
        ])]),
        compile(lambda("x", lambda("y", var("x"))))
    );
}

#[test]
fn distance_counts_the_abstractions_between() {
    let e = lambda("a", lambda("b", lambda("c", apply(apply(var("a"), var("b")), var("c")))));
    assert_eq!(
        Ok(vec![Instruction::Closure(vec![
            Instruction::Closure(vec![
                Instruction::Closure(vec![
                    Instruction::Access(2),
                    Instruction::Access(1),
                    Instruction::Apply,
                    Instruction::Access(0),
                    Instruction::Apply,
                    Instruction::Return
                ]),
                Instruction::Return
            ]),
            Instruction::Return
        ])]),
        compile(e)
    );
}

#[test]
fn binding_ends_with_its_abstraction() {
    let e = apply(lambda("x", var("x")), var("x"));
    assert_eq!(Err(Error::UnboundVariable(id("x"))), compile(e));
}

#[test]
fn unbound_variable_is_reported() {
    assert_eq!(Err(Error::UnboundVariable(id("y"))), compile(var("y")));
    assert_eq!(
        Err(Error::UnboundVariable(id("y"))),
        var("y").compile(0, &LevelMap::new())
    );
}

#[test]
fn first_unbound_variable_from_the_left_is_reported() {
    assert_eq!(
        Err(Error::UnboundVariable(id("a"))),
        compile(apply(var("a"), var("b")))
    );
    let e = Expr::If(
        Box::new(Expr::Const(Const::Bool(true))),
        Box::new(var("p")),
        Box::new(var("q")),
    );
    assert_eq!(Err(Error::UnboundVariable(id("p"))), compile(e));
    let e = Expr::If(
        Box::new(var("c")),
        Box::new(var("p")),
        Box::new(var("q")),
    );
    assert_eq!(Err(Error::UnboundVariable(id("c"))), compile(e));
}

#[test]
fn given_levels_are_used() {
    let levmap = LevelMap::new().update("x".to_string(), 1).update("y".to_string(), 3);
    assert_eq!(Ok(vec![Instruction::Access(2)]), var("x").compile(3, &levmap));
    assert_eq!(Ok(vec![Instruction::Access(0)]), var("y").compile(3, &levmap));
    assert_eq!(
        Err(Error::UnboundVariable(id("z"))),
        var("z").compile(3, &levmap)
    );
    assert_eq!(
        Ok(vec![Instruction::Closure(vec![
            Instruction::Access(3),
            Instruction::Return
        ])]),
        lambda("z", var("x")).compile(3, &levmap)
    );
}

#[test]
fn application_pushes_left_then_right_then_applies() {
    let e = apply(Expr::Const(Const::Int(1)), Expr::Const(Const::Int(2)));
    assert_eq!(
        Ok(vec![
            Instruction::Const(Const::Int(1)),
            Instruction::Const(Const::Int(2)),
            Instruction::Apply
        ]),
        compile(e)
    );
}

#[test]
fn conditional_nests_its_branches() {
    let e = Expr::If(
        Box::new(Expr::Const(Const::Bool(true))),
        Box::new(Expr::Const(Const::Int(1))),
        Box::new(Expr::Const(Const::String("no".to_string()))),
    );
    assert_eq!(
        Ok(vec![
            Instruction::Const(Const::Bool(true)),
            Instruction::If(
                vec![Instruction::Const(Const::Int(1))],
                vec![Instruction::Const(Const::String("no".to_string()))]
            )
        ]),
        compile(e)
    );
}

#[test]
fn constant_is_emitted_as_it_stands() {
    assert_eq!(
        Ok(vec![Instruction::Const(Const::Int(-7))]),
        compile(Expr::Const(Const::Int(-7)))
    );
}

#[test]
fn binary_primitive_is_a_curried_double_closure() {
    assert_eq!(
        Ok(vec![Instruction::Closure(vec![
            Instruction::Closure(vec![
                Instruction::Access(1),
                Instruction::Access(0),
                Instruction::Primitive(Primitive::Add),
                Instruction::Return
            ]),
            Instruction::Return
        ])]),
        compile(Expr::Primitive(Primitive::Add))
    );
    for prim in [Primitive::Sub, Primitive::Mult, Primitive::Append] {
        assert_eq!(
            Ok(vec![Instruction::Closure(vec![
                Instruction::Closure(vec![
                    Instruction::Access(1),
                    Instruction::Access(0),
                    Instruction::Primitive(prim),
                    Instruction::Return
                ]),
                Instruction::Return
            ])]),
            compile_primitive(prim)
        );
    }
}

#[test]
fn unary_primitive_is_a_single_closure() {
    for prim in [Primitive::Arabic, Primitive::IsZero] {
        assert_eq!(
            Ok(vec![Instruction::Closure(vec![
                Instruction::Access(0),
                Instruction::Primitive(prim),
                Instruction::Return
            ])]),
            compile(Expr::Primitive(prim))
        );
    }
}

#[test]
fn closed_expression_compiles() {
    let e = lambda(
        "f",
        lambda(
            "x",
            Expr::If(
                Box::new(apply(Expr::Primitive(Primitive::IsZero), var("x"))),
                Box::new(apply(var("f"), var("x"))),
                Box::new(Expr::Const(Const::Int(0))),
            ),
        ),
    );
    assert!(compile(e).is_ok());
}

#[test]
fn compiling_twice_gives_the_same_program() {
    let make = || lambda("x", apply(Expr::Primitive(Primitive::Add), var("x")));
    assert_eq!(compile(make()), compile(make()));
}

#[test]
fn arity_of_each_operator() {
    assert_eq!(2, Primitive::Add.arity());
    assert_eq!(2, Primitive::Sub.arity());
    assert_eq!(2, Primitive::Mult.arity());
    assert_eq!(2, Primitive::Append.arity());
    assert_eq!(1, Primitive::Arabic.arity());
    assert_eq!(1, Primitive::IsZero.arity());
}

#[test]
fn command_of_each_operator() {
    assert_eq!("PrimitiveIntAdd", Primitive::Add.command());
    assert_eq!("PrimitiveIntSub", Primitive::Sub.command());
    assert_eq!("PrimitiveIntMult", Primitive::Mult.command());
    assert_eq!("PrimitiveStringAppend", Primitive::Append.command());
    assert_eq!("PrimitiveArabic", Primitive::Arabic.command());
    assert_eq!("PrimitiveIntIsZero", Primitive::IsZero.command());
}

#[test]
fn identifier_keeps_its_name() {
    let x = id("total");
    assert_eq!("total", x.name());
    assert_eq!("total".to_string(), x.into_string());
    assert_eq!(id("a"), id("a"));
    assert_ne!(id("a"), id("b"));
}

fn all_distances_nonnegative(code: &Vec<Instruction>) -> bool {
    code.iter().all(|instr| match instr {
        Instruction::Access(n) => *n >= 0,
        Instruction::Closure(body) => all_distances_nonnegative(body),
        Instruction::If(first, second) => {
            all_distances_nonnegative(first) && all_distances_nonnegative(second)
        }
        _ => true,
    })
}

#[test]
fn distances_are_never_negative() {
    let e = lambda(
        "a",
        apply(
            lambda("b", apply(var("a"), lambda("a", apply(var("b"), var("a"))))),
            Expr::If(
                Box::new(var("a")),
                Box::new(Expr::Primitive(Primitive::Sub)),
                Box::new(lambda("c", var("a"))),
            ),
        ),
    );
    let code = compile(e).unwrap();
    assert!(all_distances_nonnegative(&code));
    assert_eq!(
        vec![Instruction::Closure(vec![
            Instruction::Closure(vec![
                Instruction::Access(1),
                Instruction::Closure(vec![
                    Instruction::Access(1),
                    Instruction::Access(0),
                    Instruction::Apply,
                    Instruction::Return
                ]),
                Instruction::Apply,
                Instruction::Return
            ]),
            Instruction::Access(0),
            Instruction::If(
                vec![Instruction::Closure(vec![
                    Instruction::Closure(vec![
                        Instruction::Access(1),
                        Instruction::Access(0),
                        Instruction::Primitive(Primitive::Sub),
                        Instruction::Return
                    ]),
                    Instruction::Return
                ])],
                vec![Instruction::Closure(vec![
                    Instruction::Access(1),
                    Instruction::Return
                ])]
            ),
            Instruction::Apply,
            Instruction::Return
        ])],
        code
    );
}
