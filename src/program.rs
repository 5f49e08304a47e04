use vstd::prelude::*;
use crate::ast::{Expr, Stmt, TypedExpr};
use crate::lattice::AwkT;
use crate::value::FLOAT_ZERO;

verus! {

/// A main rule: an optional pattern and the action run for each record on
/// which the pattern holds (on every record when there is none).
#[derive(Debug)]
pub struct PatternAction {
    pub pattern: Option<TypedExpr>,
    pub action: Stmt,
}

/// A whole program as the front end reads it.
#[derive(Debug)]
pub struct Program {
    pub begins: Vec<Stmt>,
    pub ends: Vec<Stmt>,
    pub pattern_actions: Vec<PatternAction>,
}

/// The statement that prints the current record.
pub open spec fn print_record() -> Stmt {
    Stmt::Print(
        TypedExpr {
            expr: Expr::Column(Box::new(TypedExpr { expr: Expr::Number(FLOAT_ZERO), typ: AwkT::Float })),
            typ: AwkT::Float,
        },
    )
}

impl PatternAction {
    /// A rule with the given pattern and action.
    pub fn new(pattern: Option<TypedExpr>, action: Stmt) -> (r: PatternAction)
        ensures
            r.pattern == pattern,
            r.action == action,
    {
        PatternAction { pattern, action }
    }

    /// A rule with a pattern and no action: it prints the matching records.
    pub fn new_pattern_only(test: TypedExpr) -> (r: PatternAction)
        ensures
            r.pattern == Some(test),
            r.action == print_record(),
    {
        let zero = TypedExpr { expr: Expr::Number(FLOAT_ZERO), typ: AwkT::Float };
        PatternAction::new(
            Some(test),
            Stmt::Print(TypedExpr { expr: Expr::Column(Box::new(zero)), typ: AwkT::Float }),
        )
    }

    /// A rule that runs on every record.
    pub fn new_action_only(body: Stmt) -> (r: PatternAction)
        ensures
            r.pattern is None,
            r.action == body,
    {
        PatternAction::new(None, body)
    }
}

impl Program {
    /// A program with the given BEGIN actions, END actions and main rules.
    pub fn new(begins: Vec<Stmt>, ends: Vec<Stmt>, pattern_actions: Vec<PatternAction>) -> (r: Program)
        ensures
            r.begins == begins,
            r.ends == ends,
            r.pattern_actions == pattern_actions,
    {
        Program { begins, ends, pattern_actions }
    }

    /// A program of a single main rule without a pattern.
    pub fn new_action_only(stmt: Stmt) -> (r: Program)
        ensures
            r.begins@.len() == 0,
            r.ends@.len() == 0,
            r.pattern_actions@.len() == 1,
            r.pattern_actions@[0].pattern is None,
            r.pattern_actions@[0].action == stmt,
    {
        let mut rules: Vec<PatternAction> = Vec::new();
        rules.push(PatternAction::new_action_only(stmt));
        Program { begins: Vec::new(), ends: Vec::new(), pattern_actions: rules }
    }
}

/// The statement a main rule runs for each record.
pub open spec fn rule_stmt(pa: PatternAction) -> Stmt {
    match pa.pattern {
        Some(p) => Stmt::If(p, Box::new(pa.action), None),
        None => pa.action,
    }
}

/// Lays a program out as one statement: the BEGIN actions in order, then
/// (if there are main rules) a loop that advances to each record and runs
/// every main rule on it, then the END actions in order.
pub fn transform(program: Program) -> (r: Stmt)
    ensures
        r is Group,
        ({
            let v = r->Group_0@;
            let nb = program.begins@.len();
            let nr: int = if program.pattern_actions@.len() > 0 { 1 } else { 0 };
            &&& v.len() == nb + nr + program.ends@.len()
            &&& v.subrange(0, nb as int) == program.begins@
            &&& v.subrange(nb + nr, v.len() as int) == program.ends@
            &&& nr == 1 ==> {
                &&& v[nb as int] is While
                &&& v[nb as int]->While_0.expr is Call
                &&& *v[nb as int]->While_1 is Group
                &&& (*v[nb as int]->While_1)->Group_0@ == program.pattern_actions@.map_values(
                    |pa: PatternAction| rule_stmt(pa),
                )
            }
        }),
{
    let Program { begins, ends, pattern_actions } = program;
    let ghost rules0 = pattern_actions@;
    let mut rest = pattern_actions;
    let mut every_record: Vec<Stmt> = Vec::new();
    while rest.len() > 0
        invariant
            every_record.len() + rest.len() == rules0.len(),
            rest@ == rules0.subrange(every_record.len() as int, rules0.len() as int),
            every_record@ == rules0.subrange(0, every_record.len() as int).map_values(
                |pa: PatternAction| rule_stmt(pa),
            ),
        decreases rest.len(),
    {
        let ghost k = every_record.len();
        let pa = rest.remove(0);
        proof {
            assert(pa == rules0[k as int]);
        }
        let stmt = match pa.pattern {
            Some(test) => Stmt::If(test, Box::new(pa.action), None),
            None => pa.action,
        };
        every_record.push(stmt);
        proof {
            assert(every_record@ =~= rules0.subrange(0, k + 1).map_values(|pa: PatternAction| rule_stmt(pa)));
        }
    }
    proof {
        assert(rules0.subrange(0, rules0.len() as int) =~= rules0);
    }
    let ghost nb = begins@.len();
    let ghost ends0 = ends@;
    let mut prog = begins;
    let ghost begins0 = prog@;
    if every_record.len() > 0 {
        prog.push(Stmt::While(TypedExpr::new(Expr::Call), Box::new(Stmt::Group(every_record))));
    }
    let mut ends = ends;
    prog.append(&mut ends);
    proof {
        assert(prog@.subrange(0, nb as int) =~= begins0);
        assert(prog@.subrange(prog@.len() - ends0.len(), prog@.len() as int) =~= ends0);
    }
    Stmt::Group(prog)
}

} // verus!
