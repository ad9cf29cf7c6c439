use crate::environment::Environment;
use crate::expr::{arith_functional, arith_total, eval, ArithOp, Expr, LiteralValue, Val};
use crate::lexer::Token;
use crate::stmt::Stmt;
use vstd::prelude::*;

verus! {

/// What running one statement does: the environment after it and the value
/// it prints, if any; or the error that stops the run.
pub open spec fn exec_stmt<A: Fn(ArithOp, u64, u64) -> u64>(
    s: Stmt,
    env: Map<Seq<char>, Val>,
    a: A,
) -> Result<(Map<Seq<char>, Val>, Seq<Val>), Seq<char>> {
    match s {
        Stmt::Print { expression } => match eval(expression, env, a) {
            Ok(v) => Ok((env, seq![v])),
            Err(m) => Err(m),
        },
        Stmt::Expression { expression } => match eval(expression, env, a) {
            Ok(_) => Ok((env, Seq::empty())),
            Err(m) => Err(m),
        },
        Stmt::Var { name, initialiser } => match eval(initialiser, env, a) {
            Ok(v) => Ok((env.insert(name.lexeme@, v), Seq::empty())),
            Err(m) => Err(m),
        },
    }
}

/// What running statements in order does: the final environment, the values
/// printed, and the error of the first failing statement, where the run stops.
pub open spec fn run<A: Fn(ArithOp, u64, u64) -> u64>(
    stmts: Seq<Stmt>,
    env: Map<Seq<char>, Val>,
    a: A,
) -> (Map<Seq<char>, Val>, Seq<Val>, Option<Seq<char>>)
    decreases stmts.len(),
{
    if stmts.len() == 0 {
        (env, Seq::empty(), None)
    } else {
        match exec_stmt(stmts[0], env, a) {
            Err(m) => (env, Seq::empty(), Some(m)),
            Ok((env2, out)) => {
                let rest = run(stmts.drop_first(), env2, a);
                (rest.0, out + rest.1, rest.2)
            },
        }
    }
}

pub open spec fn views(v: Seq<LiteralValue>) -> Seq<Val> {
    v.map_values(|x: LiteralValue| x@)
}

/// Declaring a variable and then printing it prints the declared value, and
/// the run succeeds.
pub proof fn lemma_declare_then_print<A: Fn(ArithOp, u64, u64) -> u64>(
    env: Map<Seq<char>, Val>,
    name: Token,
    initialiser: Expr,
    reference: Token,
    a: A,
)
    requires
        reference.lexeme@ == name.lexeme@,
        eval(initialiser, env, a) is Ok,
    ensures
        ({
            let v = eval(initialiser, env, a)->Ok_0;
            let m = run(
                seq![Stmt::Var { name, initialiser }, Stmt::Print { expression: Expr::Variable { name: reference } }],
                env,
                a,
            );
            &&& m.0 == env.insert(name.lexeme@, v)
            &&& m.1 == seq![v]
            &&& m.2 is None
        }),
{
    let v = eval(initialiser, env, a)->Ok_0;
    let stmts = seq![Stmt::Var { name, initialiser }, Stmt::Print { expression: Expr::Variable { name: reference } }];
    let env2 = env.insert(name.lexeme@, v);
    assert(stmts.drop_first() =~= seq![Stmt::Print { expression: Expr::Variable { name: reference } }]);
    assert(stmts.drop_first().drop_first() =~= Seq::<Stmt>::empty());
    assert(exec_stmt(stmts[0], env, a) == Ok::<(Map<Seq<char>, Val>, Seq<Val>), Seq<char>>((env2, Seq::empty())));
    assert(eval(Expr::Variable { name: reference }, env2, a) == Ok::<Val, Seq<char>>(v));
    assert(exec_stmt(stmts.drop_first()[0], env2, a) == Ok::<(Map<Seq<char>, Val>, Seq<Val>), Seq<char>>((env2, seq![v])));
    assert(run(stmts.drop_first().drop_first(), env2, a) == (env2, Seq::<Val>::empty(), None::<Seq<char>>));
    assert(run(stmts.drop_first(), env2, a).1 =~= seq![v]);
    assert(seq![v] + Seq::<Val>::empty() =~= seq![v]);
    assert(Seq::<Val>::empty() + seq![v] =~= seq![v]);
}

/// An interpreter session: one environment that lives across runs.
pub struct Interpreter {
    environment: Environment,
}

impl View for Interpreter {
    type V = Map<Seq<char>, Val>;

    closed spec fn view(&self) -> Map<Seq<char>, Val> {
        self.environment@
    }
}

impl Interpreter {
    pub closed spec fn wf(&self) -> bool {
        self.environment.wf()
    }

    pub fn new() -> (r: Self)
        ensures
            r.wf(),
            r@ == Map::<Seq<char>, Val>::empty(),
    {
        Self { environment: Environment::new() }
    }

    /// Runs the statements in order against the session's environment,
    /// appending each printed value to `printed`; stops at the first failing
    /// statement with its error.
    pub fn interpret<A: Fn(ArithOp, u64, u64) -> u64>(
        &mut self,
        statements: Vec<Stmt>,
        arith: &A,
        printed: &mut Vec<LiteralValue>,
    ) -> (r: Result<(), String>)
        requires
            old(self).wf(),
            arith_total(*arith),
            arith_functional(*arith),
        ensures
            final(self).wf(),
            ({
                let m = run(statements@, old(self)@, *arith);
                &&& final(self)@ == m.0
                &&& views(final(printed)@) == views(old(printed)@) + m.1
                &&& match r {
                    Ok(_) => m.2 is None,
                    Err(e) => m.2 == Some(e@),
                }
            }),
    {
        let ghost whole = run(statements@, self@, *arith);
        let mut i: usize = 0;
        assert(statements@.skip(0) =~= statements@);
        while i < statements.len()
            invariant
                i <= statements.len(),
                self.wf(),
                arith_total(*arith),
                arith_functional(*arith),
                whole == run(statements@, old(self)@, *arith),
                ({
                    let rest = run(statements@.skip(i as int), self@, *arith);
                    &&& whole.0 == rest.0
                    &&& views(old(printed)@) + whole.1 == views(printed@) + rest.1
                    &&& whole.2 == rest.2
                }),
            decreases statements.len() - i,
        {
            let ghost tail = statements@.skip(i as int);
            assert(tail.drop_first() =~= statements@.skip(i + 1));
            assert(tail[0] == statements@[i as int]);
            let ghost before = views(printed@);
            match &statements[i] {
                Stmt::Print { expression } => {
                    match expression.evaluate(&self.environment, arith) {
                        Ok(v) => {
                            printed.push(v);
                            assert(views(printed@) =~= before.push(views(printed@).last()));
                        },
                        Err(m) => {
                            return Err(m);
                        },
                    }
                },
                Stmt::Expression { expression } => {
                    match expression.evaluate(&self.environment, arith) {
                        Ok(_) => {},
                        Err(m) => {
                            return Err(m);
                        },
                    }
                },
                Stmt::Var { name, initialiser } => {
                    match initialiser.evaluate(&self.environment, arith) {
                        Ok(v) => {
                            self.environment.define(name.lexeme.clone(), v);
                        },
                        Err(m) => {
                            return Err(m);
                        },
                    }
                },
            }
            i = i + 1;
        }
        Ok(())
    }
}

} // verus!
