//! Compilation of expressions into instructions that reach each variable
//! by the number of abstractions between its use and its binding.

use vstd::prelude::*;
use crate::syntax::{
    lemma_program_concat, lemma_program_push, lemma_program_view, program_view, Expr, ExprView,
    Ident, Instruction, InstructionView, Primitive,
};

verus! {

/// The persistent hash map of the `im` crate. Nothing of its inside is
/// known here; what a map of levels binds is named by [`bindings`].
#[verifier::external_type_specification]
#[verifier::external_body]
#[verifier::reject_recursive_types(K)]
#[verifier::reject_recursive_types(V)]
#[verifier::reject_recursive_types(S)]
pub struct ExHashMap<K, V, S>(im::hashmap::HashMap<K, V, S>);

/// The number of abstractions around a place in an expression.
pub type Level = i32;

/// For each name in scope, the level at which it was bound last.
pub type LevelMap = im::hashmap::HashMap<String, Level>;

/// What a map of levels holds: for each name that it binds, the level.
pub uninterp spec fn bindings(m: im::hashmap::HashMap<String, i32>) -> Map<Seq<char>, int>;

/// `im::HashMap::new`. The new map binds no name.
#[verifier::external_body]
fn no_bindings() -> (m: LevelMap)
    ensures
        (bindings(m) == Map::<Seq<char>, int>::empty()),
{
    im::hashmap::HashMap::new()
}

/// `im::HashMap::get`, with the level copied out. It finds the level of
/// a name exactly when the map binds the name.
#[verifier::external_body]
fn lookup(m: &LevelMap, name: &str) -> (r: Option<Level>)
    ensures
        match r {
            Some(lev) => bindings(*m).contains_key(name@) && bindings(*m)[name@] == lev,
            None => !bindings(*m).contains_key(name@),
        },
{
    m.get(name).copied()
}

/// `im::HashMap::update`. The result binds the name to the level, in
/// place of what the name was bound to before, and every other name as
/// the given map does.
#[verifier::external_body]
fn bind(m: &LevelMap, name: String, lev: Level) -> (r: LevelMap)
    ensures
        bindings(r) == bindings(*m).insert(name@, lev as int),
{
    m.update(name, lev)
}

/// Why an expression could not be compiled.
#[derive(PartialEq, Eq, Debug)]
pub enum Error {
    /// The variable is bound by no enclosing abstraction.
    UnboundVariable(Ident),
    /// A built-in operation takes neither one argument nor two.
    BugOfUnknownArity(i32),
}

/// The model of an [`Error`].
pub enum ErrorView {
    UnboundVariable(Seq<char>),
    BugOfUnknownArity(int),
}

impl View for Error {
    type V = ErrorView;

    open spec fn view(&self) -> ErrorView {
        match self {
            Error::UnboundVariable(x) => ErrorView::UnboundVariable(x@),
            Error::BugOfUnknownArity(n) => ErrorView::BugOfUnknownArity(*n as int),
        }
    }
}

/// The code of a built-in operation: a closure for each argument that it
/// takes, the innermost of which fetches the arguments, first to last,
/// and applies the operation.
pub open spec fn primitive_code(prim: Primitive) -> Result<Seq<InstructionView>, ErrorView> {
    if prim.spec_arity() == 1 {
        Ok(
            seq![
                InstructionView::Closure(
                    seq![
                        InstructionView::Access(0),
                        InstructionView::Primitive(prim),
                        InstructionView::Return,
                    ],
                ),
            ],
        )
    } else if prim.spec_arity() == 2 {
        Ok(
            seq![
                InstructionView::Closure(
                    seq![
                        InstructionView::Closure(
                            seq![
                                InstructionView::Access(1),
                                InstructionView::Access(0),
                                InstructionView::Primitive(prim),
                                InstructionView::Return,
                            ],
                        ),
                        InstructionView::Return,
                    ],
                ),
            ],
        )
    } else {
        Err(ErrorView::BugOfUnknownArity(prim.spec_arity() as int))
    }
}

/// The code of an expression that stands under `lev` abstractions, where
/// `env` gives the level of each name in scope; or the first error met,
/// going through the expression from left to right.
pub open spec fn compiled(e: ExprView, lev: int, env: Map<Seq<char>, int>) -> Result<
    Seq<InstructionView>,
    ErrorView,
>
    decreases e,
{
    match e {
        ExprView::Var(x) => if env.contains_key(x) {
            Ok(seq![InstructionView::Access(lev - env[x])])
        } else {
            Err(ErrorView::UnboundVariable(x))
        },
        ExprView::Lambda(x, body) => match compiled(*body, lev + 1, env.insert(x, lev + 1)) {
            Ok(code) => Ok(seq![InstructionView::Closure(code.push(InstructionView::Return))]),
            Err(err) => Err(err),
        },
        ExprView::Apply(e1, e2) => match compiled(*e1, lev, env) {
            Ok(code1) => match compiled(*e2, lev, env) {
                Ok(code2) => Ok((code1 + code2).push(InstructionView::Apply)),
                Err(err) => Err(err),
            },
            Err(err) => Err(err),
        },
        ExprView::If(e0, e1, e2) => match compiled(*e0, lev, env) {
            Ok(code0) => match compiled(*e1, lev, env) {
                Ok(code1) => match compiled(*e2, lev, env) {
                    Ok(code2) => Ok(code0.push(InstructionView::If(code1, code2))),
                    Err(err) => Err(err),
                },
                Err(err) => Err(err),
            },
            Err(err) => Err(err),
        },
        ExprView::Const(c) => Ok(seq![InstructionView::Const(c)]),
        ExprView::Primitive(prim) => primitive_code(prim),
    }
}

/// Every level in `env` lies between 0 and `lev`.
pub open spec fn levels_within(env: Map<Seq<char>, int>, lev: int) -> bool {
    forall|x: Seq<char>| #[trigger] env.contains_key(x) ==> 0 <= env[x] <= lev
}

/// The model of what compiling returns.
pub open spec fn outcome_view(r: Result<Vec<Instruction>, Error>) -> Result<
    Seq<InstructionView>,
    ErrorView,
> {
    match r {
        Ok(code) => Ok(program_view(code@)),
        Err(err) => Err(err@),
    }
}

/// What can be compiled at a level, given the levels of the names in
/// scope.
pub trait Compilation: Sized {
    type Target;

    /// The levels that compiling will count stay within the integers of
    /// the machine.
    spec fn compile_requires(&self, lev: Level, env: Map<Seq<char>, int>) -> bool;

    /// `r` is what compiling gives.
    spec fn compile_ensures(
        &self,
        lev: Level,
        env: Map<Seq<char>, int>,
        r: Result<Self::Target, Error>,
    ) -> bool;

    /// Compiles what stands under `lev` abstractions, with the names
    /// of `levmap` in scope.
    fn compile(self, lev: Level, levmap: &LevelMap) -> (r: Result<Self::Target, Error>)
        requires
            self.compile_requires(lev, bindings(*levmap)),
        ensures
            self.compile_ensures(lev, bindings(*levmap), r),
    ;
}

impl Compilation for Expr {
    type Target = Vec<Instruction>;

    open spec fn compile_requires(&self, lev: Level, env: Map<Seq<char>, int>) -> bool {
        &&& 0 <= lev
        &&& lev + self@.lambda_depth() <= i32::MAX
        &&& levels_within(env, lev as int)
    }

    open spec fn compile_ensures(
        &self,
        lev: Level,
        env: Map<Seq<char>, int>,
        r: Result<Vec<Instruction>, Error>,
    ) -> bool {
        &&& outcome_view(r) == compiled(self@, lev as int, env)
        &&& r matches Ok(code) ==> distances_nonnegative(program_view(code@))
    }

    fn compile(self, lev: Level, levmap: &LevelMap) -> (r: Result<Vec<Instruction>, Error>)
        decreases self,
    {
        proof {
            lemma_distances_nonnegative(self@, lev as int, bindings(*levmap));
        }
        match self {
            Expr::Var(x) => match lookup(levmap, x.name()) {
                Some(lev_x) => {
                    let distance: i32 = lev - lev_x;
                    let code = vec![Instruction::Access(distance)];
                    proof {
                        lemma_program_view(code@);
                        assert(program_view(code@) =~= seq![
                            InstructionView::Access(distance as int),
                        ]);
                    }
                    Ok(code)
                },
                None => Err(Error::UnboundVariable(x)),
            },
            Expr::Lambda(x, body) => {
                let inner = bind(levmap, x.into_string(), lev + 1);
                match (*body).compile(lev + 1, &inner) {
                    Ok(mut code) => {
                        let ghost body_code = program_view(code@);
                        proof {
                            lemma_program_push(code@, Instruction::Return);
                        }
                        code.push(Instruction::Return);
                        let closure = vec![Instruction::Closure(code)];
                        proof {
                            lemma_program_view(closure@);
                            assert(program_view(closure@) =~= seq![
                                InstructionView::Closure(body_code.push(InstructionView::Return)),
                            ]);
                        }
                        Ok(closure)
                    },
                    Err(err) => Err(err),
                }
            },
            Expr::Apply(e1, e2) => match (*e1).compile(lev, levmap) {
                Ok(mut code1) => match (*e2).compile(lev, levmap) {
                    Ok(mut code2) => {
                        proof {
                            lemma_program_concat(code1@, code2@);
                            lemma_program_push(code1@ + code2@, Instruction::Apply);
                        }
                        code1.append(&mut code2);
                        code1.push(Instruction::Apply);
                        Ok(code1)
                    },
                    Err(err) => Err(err),
                },
                Err(err) => Err(err),
            },
            Expr::If(e0, e1, e2) => match (*e0).compile(lev, levmap) {
                Ok(mut code0) => match (*e1).compile(lev, levmap) {
                    Ok(code1) => match (*e2).compile(lev, levmap) {
                        Ok(code2) => {
                            let branch = Instruction::If(code1, code2);
                            proof {
                                lemma_program_push(code0@, branch);
                            }
                            code0.push(branch);
                            Ok(code0)
                        },
                        Err(err) => Err(err),
                    },
                    Err(err) => Err(err),
                },
                Err(err) => Err(err),
            },
            Expr::Const(c) => {
                let ghost model = c@;
                let code = vec![Instruction::Const(c)];
                proof {
                    lemma_program_view(code@);
                    assert(program_view(code@) =~= seq![InstructionView::Const(model)]);
                }
                Ok(code)
            },
            Expr::Primitive(prim) => compile_primitive(prim),
        }
    }
}

/// The code of a built-in operation, by the number of its arguments.
pub fn compile_primitive(prim: Primitive) -> (r: Result<Vec<Instruction>, Error>)
    ensures
        outcome_view(r) == primitive_code(prim),
{
    let arity = prim.arity();
    if arity == 1 {
        let sub = vec![Instruction::Access(0), Instruction::Primitive(prim), Instruction::Return];
        proof {
            lemma_program_view(sub@);
            assert(program_view(sub@) =~= seq![
                InstructionView::Access(0),
                InstructionView::Primitive(prim),
                InstructionView::Return,
            ]);
        }
        let code = vec![Instruction::Closure(sub)];
        proof {
            lemma_program_view(code@);
            assert(program_view(code@) =~= seq![InstructionView::Closure(program_view(sub@))]);
        }
        Ok(code)
    } else if arity == 2 {
        let app = vec![
            Instruction::Access(1),
            Instruction::Access(0),
            Instruction::Primitive(prim),
            Instruction::Return,
        ];
        proof {
            lemma_program_view(app@);
            assert(program_view(app@) =~= seq![
                InstructionView::Access(1),
                InstructionView::Access(0),
                InstructionView::Primitive(prim),
                InstructionView::Return,
            ]);
        }
        let inner = vec![Instruction::Closure(app), Instruction::Return];
        proof {
            lemma_program_view(inner@);
            assert(program_view(inner@) =~= seq![
                InstructionView::Closure(program_view(app@)),
                InstructionView::Return,
            ]);
        }
        let outer = vec![Instruction::Closure(inner)];
        proof {
            lemma_program_view(outer@);
            assert(program_view(outer@) =~= seq![InstructionView::Closure(program_view(inner@))]);
        }
        Ok(outer)
    } else {
        Err(Error::BugOfUnknownArity(arity))
    }
}

/// Compiles a whole expression: one that stands under no abstraction,
/// with no name in scope.
pub fn compile(e: Expr) -> (r: Result<Vec<Instruction>, Error>)
    requires
        e@.lambda_depth() <= i32::MAX,
    ensures
        outcome_view(r) == compiled(e@, 0, Map::empty()),
        r matches Ok(code) ==> distances_nonnegative(program_view(code@)),
{
    e.compile(0, &no_bindings())
}

/// Whether the variable `x` stands in `e` outside every abstraction that
/// binds it.
pub open spec fn free_in(x: Seq<char>, e: ExprView) -> bool
    decreases e,
{
    match e {
        ExprView::Var(y) => x == y,
        ExprView::Lambda(y, body) => x != y && free_in(x, *body),
        ExprView::Apply(e1, e2) => free_in(x, *e1) || free_in(x, *e2),
        ExprView::If(e0, e1, e2) => free_in(x, *e0) || free_in(x, *e1) || free_in(x, *e2),
        ExprView::Const(_) => false,
        ExprView::Primitive(_) => false,
    }
}

/// Whether no instruction of the program, at whatever depth, reaches
/// for a variable at a negative distance.
pub open spec fn distances_nonnegative(code: Seq<InstructionView>) -> bool
    decreases code, 1int,
{
    forall|i: int| 0 <= i < code.len() ==> distance_nonnegative(#[trigger] code[i])
}

/// Whether the instruction, and each that it holds, reaches for no
/// variable at a negative distance.
pub open spec fn distance_nonnegative(instr: InstructionView) -> bool
    decreases instr, 0int,
{
    match instr {
        InstructionView::Access(n) => 0 <= n,
        InstructionView::Closure(body) => distances_nonnegative(body),
        InstructionView::If(then_branch, else_branch) => distances_nonnegative(then_branch)
            && distances_nonnegative(else_branch),
        _ => true,
    }
}

/// Every built-in operation has code: none takes other than one
/// argument or two.
pub proof fn lemma_primitive_has_code(prim: Primitive)
    ensures
        prim.spec_arity() == 1 || prim.spec_arity() == 2,
        primitive_code(prim) is Ok,
{
}

/// An expression compiles whenever each variable that is free in it is
/// in scope. So does, with nothing in scope, every expression without
/// free variables.
pub proof fn lemma_closed_compiles(e: ExprView, lev: int, env: Map<Seq<char>, int>)
    requires
        forall|x: Seq<char>| free_in(x, e) ==> env.contains_key(x),
    ensures
        compiled(e, lev, env) is Ok,
    decreases e,
{
    match e {
        ExprView::Var(x) => {
            assert(free_in(x, e));
        },
        ExprView::Lambda(y, body) => {
            let inner = env.insert(y, lev + 1);
            assert forall|x: Seq<char>| free_in(x, *body) implies inner.contains_key(x) by {
                if x != y {
                    assert(free_in(x, e));
                }
            }
            lemma_closed_compiles(*body, lev + 1, inner);
        },
        ExprView::Apply(e1, e2) => {
            assert forall|x: Seq<char>| free_in(x, *e1) implies env.contains_key(x) by {
                assert(free_in(x, e));
            }
            assert forall|x: Seq<char>| free_in(x, *e2) implies env.contains_key(x) by {
                assert(free_in(x, e));
            }
            lemma_closed_compiles(*e1, lev, env);
            lemma_closed_compiles(*e2, lev, env);
        },
        ExprView::If(e0, e1, e2) => {
            assert forall|x: Seq<char>| free_in(x, *e0) implies env.contains_key(x) by {
                assert(free_in(x, e));
            }
            assert forall|x: Seq<char>| free_in(x, *e1) implies env.contains_key(x) by {
                assert(free_in(x, e));
            }
            assert forall|x: Seq<char>| free_in(x, *e2) implies env.contains_key(x) by {
                assert(free_in(x, e));
            }
            lemma_closed_compiles(*e0, lev, env);
            lemma_closed_compiles(*e1, lev, env);
            lemma_closed_compiles(*e2, lev, env);
        },
        ExprView::Const(_) => {},
        ExprView::Primitive(prim) => {
            lemma_primitive_has_code(prim);
        },
    }
}

/// Compiling fails only on a variable that is free in the expression
/// and not in scope, and names that variable.
pub proof fn lemma_only_unbound_variables_fail(e: ExprView, lev: int, env: Map<Seq<char>, int>)
    ensures
        compiled(e, lev, env) matches Err(err) ==> err matches ErrorView::UnboundVariable(x)
            && free_in(x, e) && !env.contains_key(x),
    decreases e,
{
    match e {
        ExprView::Var(_) => {},
        ExprView::Lambda(y, body) => {
            lemma_only_unbound_variables_fail(*body, lev + 1, env.insert(y, lev + 1));
        },
        ExprView::Apply(e1, e2) => {
            lemma_only_unbound_variables_fail(*e1, lev, env);
            lemma_only_unbound_variables_fail(*e2, lev, env);
        },
        ExprView::If(e0, e1, e2) => {
            lemma_only_unbound_variables_fail(*e0, lev, env);
            lemma_only_unbound_variables_fail(*e1, lev, env);
            lemma_only_unbound_variables_fail(*e2, lev, env);
        },
        ExprView::Const(_) => {},
        ExprView::Primitive(prim) => {
            lemma_primitive_has_code(prim);
        },
    }
}

/// Where the current level is not negative and every level in scope
/// lies between 0 and it, no
/// instruction of the code reaches for a variable at a negative distance.
pub proof fn lemma_distances_nonnegative(e: ExprView, lev: int, env: Map<Seq<char>, int>)
    requires
        0 <= lev,
        levels_within(env, lev),
    ensures
        compiled(e, lev, env) matches Ok(code) ==> distances_nonnegative(code),
    decreases e,
{
    match e {
        ExprView::Var(_) => {},
        ExprView::Lambda(y, body) => {
            lemma_distances_nonnegative(*body, lev + 1, env.insert(y, lev + 1));
            if let Ok(code) = compiled(*body, lev + 1, env.insert(y, lev + 1)) {
                assert(distances_nonnegative(code.push(InstructionView::Return)));
            }
        },
        ExprView::Apply(e1, e2) => {
            lemma_distances_nonnegative(*e1, lev, env);
            lemma_distances_nonnegative(*e2, lev, env);
        },
        ExprView::If(e0, e1, e2) => {
            lemma_distances_nonnegative(*e0, lev, env);
            lemma_distances_nonnegative(*e1, lev, env);
            lemma_distances_nonnegative(*e2, lev, env);
        },
        ExprView::Const(_) => {},
        ExprView::Primitive(prim) => {
            lemma_primitive_has_code(prim);
            if prim.spec_arity() == 2 {
                let fetch = seq![
                    InstructionView::Access(1),
                    InstructionView::Access(0),
                    InstructionView::Primitive(prim),
                    InstructionView::Return,
                ];
                assert(distances_nonnegative(fetch));
                assert(distances_nonnegative(
                    seq![InstructionView::Closure(fetch), InstructionView::Return],
                ));
            } else {
                assert(distances_nonnegative(
                    seq![
                        InstructionView::Access(0),
                        InstructionView::Primitive(prim),
                        InstructionView::Return,
                    ],
                ));
            }
        },
    }
}

/// A variable that stands directly under the abstraction that binds it
/// is reached at distance 0, whatever else binds the same name further
/// out.
pub proof fn lemma_nearest_binding(x: Seq<char>, lev: int, env: Map<Seq<char>, int>)
    ensures
        compiled(ExprView::Lambda(x, Box::new(ExprView::Var(x))), lev, env) == Ok::<
            Seq<InstructionView>,
            ErrorView,
        >(
            seq![
                InstructionView::Closure(seq![InstructionView::Access(0), InstructionView::Return]),
            ],
        ),
{
    let inner = env.insert(x, lev + 1);
    assert(compiled(ExprView::Var(x), lev + 1, inner) == Ok::<Seq<InstructionView>, ErrorView>(
        seq![InstructionView::Access(0)],
    ));
    assert(seq![InstructionView::Access(0)].push(InstructionView::Return) =~= seq![
        InstructionView::Access(0),
        InstructionView::Return,
    ]);
}

} // verus!
