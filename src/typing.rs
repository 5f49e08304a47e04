use vstd::prelude::*;
use crate::lattice::{AwkT, join, merge_types};
use crate::ast::{Expr, TypedExpr, Stmt, same_shape_expr, same_shape_stmt, same_shape_group};
use crate::env::{EnvMap, bindings, env_map_new, env_map_insert, env_map_get, env_map_entries, env_map_clone};

verus! {

/// A type environment: variable name to static type.
pub type TypeEnv = Map<Seq<char>, AwkT>;

/// The type of a variable read: its binding, or `Float` if never assigned.
pub open spec fn lookup(env: TypeEnv, x: Seq<char>) -> AwkT {
    if env.contains_key(x) {
        env[x]
    } else {
        AwkT::Float
    }
}

/// Joins the environments of two control-flow paths: a variable bound on
/// both gets the join of its types, one bound on a single path is `Variable`.
pub open spec fn join_env(a: TypeEnv, b: TypeEnv) -> TypeEnv {
    Map::new(
        |k: Seq<char>| a.contains_key(k) || b.contains_key(k),
        |k: Seq<char>|
            if a.contains_key(k) && b.contains_key(k) {
                join(a[k], b[k])
            } else {
                AwkT::Variable
            },
    )
}

/// What a joined environment binds, binding by binding.
pub proof fn lemma_join_env(a: TypeEnv, b: TypeEnv, k: Seq<char>)
    ensures
        #[trigger] join_env(a, b).contains_key(k) == (a.contains_key(k) || b.contains_key(k)),
        join_env(a, b).contains_key(k) ==> join_env(a, b)[k] == (if a.contains_key(k) && b.contains_key(k) {
            join(a[k], b[k])
        } else {
            AwkT::Variable
        }),
{
    assert(Set::new(|k: Seq<char>| a.contains_key(k) || b.contains_key(k)).contains(k) == (a.contains_key(k) || b.contains_key(k)));
}

/// The static type of an expression analysed in `env`.
pub open spec fn expr_type(e: TypedExpr, env: TypeEnv) -> AwkT
    decreases e,
{
    match e.expr {
        Expr::Number(_) => AwkT::Float,
        Expr::String(_) => AwkT::String,
        Expr::Variable(x) => lookup(env, x@),
        Expr::Assign(_, v) => expr_type(*v, env),
        Expr::Column(_) => AwkT::String,
        _ => AwkT::Float,
    }
}

/// The environment after analysing an expression (assignments bind, left to
/// right).
pub open spec fn expr_env(e: TypedExpr, env: TypeEnv) -> TypeEnv
    decreases e,
{
    match e.expr {
        Expr::Assign(x, v) => expr_env(*v, env).insert(x@, expr_type(*v, env)),
        Expr::MathOp(l, _, r) => expr_env(*r, expr_env(*l, env)),
        Expr::BinOp(l, _, r) => expr_env(*r, expr_env(*l, env)),
        Expr::LogicalOp(l, _, r) => expr_env(*r, expr_env(*l, env)),
        Expr::Column(c) => expr_env(*c, env),
        _ => env,
    }
}

/// Every node of `e` carries the type that analysis in `env` gives it.
pub open spec fn well_typed_expr(e: TypedExpr, env: TypeEnv) -> bool
    decreases e,
{
    e.typ == expr_type(e, env) && match e.expr {
        Expr::Assign(_, v) => well_typed_expr(*v, env),
        Expr::MathOp(l, _, r) => well_typed_expr(*l, env) && well_typed_expr(*r, expr_env(*l, env)),
        Expr::BinOp(l, _, r) => well_typed_expr(*l, env) && well_typed_expr(*r, expr_env(*l, env)),
        Expr::LogicalOp(l, _, r) => well_typed_expr(*l, env) && well_typed_expr(*r, expr_env(*l, env)),
        Expr::Column(c) => well_typed_expr(*c, env),
        _ => true,
    }
}

/// The environment at the head of a loop for its second analysis pass: the
/// pre-loop environment joined with the one after a first pass over test
/// and body.
pub open spec fn loop_head_env(t: TypedExpr, body: Stmt, env: TypeEnv) -> TypeEnv
    decreases body, 1nat,
{
    join_env(env, stmt_env(body, expr_env(t, env)))
}

/// The environment after analysing a statement.
pub open spec fn stmt_env(s: Stmt, env: TypeEnv) -> TypeEnv
    decreases s, 0nat,
{
    match s {
        Stmt::Expr(e) => expr_env(e, env),
        Stmt::Print(e) => expr_env(e, env),
        Stmt::Group(v) => group_env(v@, v@.len() as nat, env),
        Stmt::If(t, a, b) => {
            let e0 = expr_env(t, env);
            join_env(
                stmt_env(*a, e0),
                match b {
                    Some(b) => stmt_env(*b, e0),
                    None => e0,
                },
            )
        },
        Stmt::While(t, b) => stmt_env(*b, expr_env(t, loop_head_env(t, *b, env))),
    }
}

/// The environment after analysing the first `n` statements of a sequence.
pub open spec fn group_env(ss: Seq<Stmt>, n: nat, env: TypeEnv) -> TypeEnv
    decreases ss, n,
{
    if n == 0 || n > ss.len() {
        env
    } else {
        stmt_env(ss[n - 1], group_env(ss, (n - 1) as nat, env))
    }
}

/// Every expression in `s` carries the type that analysis in `env` gives
/// it; a loop carries the types of the second pass.
pub open spec fn well_typed_stmt(s: Stmt, env: TypeEnv) -> bool
    decreases s,
{
    match s {
        Stmt::Expr(e) => well_typed_expr(e, env),
        Stmt::Print(e) => well_typed_expr(e, env),
        Stmt::Group(v) => forall|i: int|
            0 <= i < v@.len() ==> well_typed_stmt(#[trigger] v@[i], group_env(v@, i as nat, env)),
        Stmt::If(t, a, b) => {
            let e0 = expr_env(t, env);
            well_typed_expr(t, env) && well_typed_stmt(*a, e0) && match b {
                Some(b) => well_typed_stmt(*b, e0),
                None => true,
            }
        },
        Stmt::While(t, b) => {
            let m = loop_head_env(t, *b, env);
            well_typed_expr(t, m) && well_typed_stmt(*b, expr_env(t, m))
        },
    }
}

/// Type slots do not influence analysis: trees of one shape have one type
/// and one resulting environment.
pub proof fn lemma_shape_expr(a: TypedExpr, b: TypedExpr, env: TypeEnv)
    requires
        same_shape_expr(a, b),
    ensures
        expr_type(a, env) == expr_type(b, env),
        expr_env(a, env) == expr_env(b, env),
    decreases a,
{
    match (a.expr, b.expr) {
        (Expr::Assign(_, v), Expr::Assign(_, w)) => lemma_shape_expr(*v, *w, env),
        (Expr::MathOp(l1, _, r1), Expr::MathOp(l2, _, r2)) => {
            lemma_shape_expr(*l1, *l2, env);
            lemma_shape_expr(*r1, *r2, expr_env(*l1, env));
        },
        (Expr::BinOp(l1, _, r1), Expr::BinOp(l2, _, r2)) => {
            lemma_shape_expr(*l1, *l2, env);
            lemma_shape_expr(*r1, *r2, expr_env(*l1, env));
        },
        (Expr::LogicalOp(l1, _, r1), Expr::LogicalOp(l2, _, r2)) => {
            lemma_shape_expr(*l1, *l2, env);
            lemma_shape_expr(*r1, *r2, expr_env(*l1, env));
        },
        (Expr::Column(c1), Expr::Column(c2)) => lemma_shape_expr(*c1, *c2, env),
        _ => {},
    }
}

/// Statements of one shape lead to one environment.
pub proof fn lemma_shape_stmt(a: Stmt, b: Stmt, env: TypeEnv)
    requires
        same_shape_stmt(a, b),
    ensures
        stmt_env(a, env) == stmt_env(b, env),
    decreases a, 0nat,
{
    match (a, b) {
        (Stmt::Expr(x), Stmt::Expr(y)) => lemma_shape_expr(x, y, env),
        (Stmt::Print(x), Stmt::Print(y)) => lemma_shape_expr(x, y, env),
        (Stmt::Group(xs), Stmt::Group(ys)) => {
            assert(same_shape_group(xs@, ys@));
            lemma_shape_group(xs@, ys@, xs@.len() as nat, env);
        },
        (Stmt::If(t1, a1, b1), Stmt::If(t2, a2, b2)) => {
            lemma_shape_expr(t1, t2, env);
            let e0 = expr_env(t1, env);
            lemma_shape_stmt(*a1, *a2, e0);
            match (b1, b2) {
                (Some(x), Some(y)) => lemma_shape_stmt(*x, *y, e0),
                _ => {},
            }
        },
        (Stmt::While(t1, b1), Stmt::While(t2, b2)) => {
            lemma_shape_expr(t1, t2, env);
            lemma_shape_stmt(*b1, *b2, expr_env(t1, env));
            let m = loop_head_env(t1, *b1, env);
            assert(m == loop_head_env(t2, *b2, env));
            lemma_shape_expr(t1, t2, m);
            lemma_shape_stmt(*b1, *b2, expr_env(t1, m));
        },
        _ => {},
    }
}

/// Sequences of one shape lead to one environment after each prefix.
pub proof fn lemma_shape_group(xs: Seq<Stmt>, ys: Seq<Stmt>, n: nat, env: TypeEnv)
    requires
        xs.len() == ys.len(),
        n <= xs.len(),
        forall|i: int| 0 <= i < n ==> same_shape_stmt(#[trigger] xs[i], ys[i]),
    ensures
        group_env(xs, n, env) == group_env(ys, n, env),
    decreases xs, n,
{
    if n > 0 {
        lemma_shape_group(xs, ys, (n - 1) as nat, env);
        lemma_shape_stmt(xs[n - 1], ys[n - 1], group_env(xs, (n - 1) as nat, env));
    }
}

/// Joins the environments of two control-flow paths.
pub fn merge_maps(a: &EnvMap, b: &EnvMap) -> (r: EnvMap)
    ensures
        bindings(r) == join_env(bindings(*a), bindings(*b)),
{
    let ghost ma = bindings(*a);
    let ghost mb = bindings(*b);
    let ghost goal = join_env(ma, mb);
    let ea = env_map_entries(a);
    let eb = env_map_entries(b);
    let mut merged = env_map_new();
    let mut i: usize = 0;
    while i < ea.len()
        invariant
            0 <= i <= ea.len(),
            ma == bindings(*a),
            mb == bindings(*b),
            goal == join_env(ma, mb),
            forall|j: int|
                0 <= j < ea.len() ==> ma.contains_key(#[trigger] ea@[j].0@) && ma[ea@[j].0@] == ea@[j].1,
            forall|j: int| 0 <= j < i ==> bindings(merged).contains_key(#[trigger] ea@[j].0@),
            forall|k: Seq<char>| #[trigger]
                bindings(merged).contains_key(k) ==> goal.contains_key(k) && bindings(merged)[k] == goal[k],
        decreases ea.len() - i,
    {
        let (name, ta) = (&ea[i].0, ea[i].1);
        let t = match env_map_get(b, name) {
            Some(tb) => merge_types(&ta, &tb),
            None => AwkT::Variable,
        };
        proof {
            assert(ea@[i as int].0@ == name@);
        }
        proof {
            lemma_join_env(ma, mb, name@);
            assert(goal.contains_key(name@));
            assert(goal[name@] == t);
        }
        merged = env_map_insert(&merged, name.clone(), t);
        i = i + 1;
    }
    proof {
        assert forall|k: Seq<char>| ma.contains_key(k) implies #[trigger] bindings(merged).contains_key(k) by {
            let j = choose|j: int| 0 <= j < ea.len() && #[trigger] ea@[j].0@ == k;
        }
    }
    let mut i: usize = 0;
    while i < eb.len()
        invariant
            0 <= i <= eb.len(),
            ma == bindings(*a),
            mb == bindings(*b),
            goal == join_env(ma, mb),
            forall|j: int| 0 <= j < eb.len() ==> mb.contains_key(#[trigger] eb@[j].0@),
            forall|k: Seq<char>| ma.contains_key(k) ==> #[trigger] bindings(merged).contains_key(k),
            forall|j: int| 0 <= j < i ==> bindings(merged).contains_key(#[trigger] eb@[j].0@),
            forall|k: Seq<char>| #[trigger]
                bindings(merged).contains_key(k) ==> goal.contains_key(k) && bindings(merged)[k] == goal[k],
        decreases eb.len() - i,
    {
        let name = &eb[i].0;
        proof {
            assert(eb@[i as int].0@ == name@);
        }
        if env_map_get(a, name).is_none() {
            proof {
                lemma_join_env(ma, mb, name@);
                assert(goal.contains_key(name@));
                assert(goal[name@] == AwkT::Variable);
            }
            merged = env_map_insert(&merged, name.clone(), AwkT::Variable);
        }
        i = i + 1;
    }
    proof {
        assert forall|k: Seq<char>| #[trigger] goal.contains_key(k) implies bindings(merged).contains_key(k) by {
            lemma_join_env(ma, mb, k);
            if !ma.contains_key(k) {
                let j = choose|j: int| 0 <= j < eb.len() && #[trigger] eb@[j].0@ == k;
            }
        }
        assert(bindings(merged) =~= goal);
    }
    merged
}

/// Annotates a binary node whose operands were analysed left to right.
proof fn lemma_binary_typed(l: TypedExpr, r: TypedExpr, l2: TypedExpr, r2: TypedExpr, env: TypeEnv)
    requires
        same_shape_expr(l, l2),
        same_shape_expr(r, r2),
    ensures
        expr_env(l2, env) == expr_env(l, env),
        expr_env(r2, expr_env(l, env)) == expr_env(r, expr_env(l, env)),
{
    lemma_shape_expr(l, l2, env);
    lemma_shape_expr(r, r2, expr_env(l, env));
}

/// Fills the type slots of `e` as analysis in `env` gives them, and returns
/// the annotated expression with the environment after it.
pub fn analyze_expr(e: TypedExpr, env: &EnvMap) -> (r: (TypedExpr, EnvMap))
    ensures
        same_shape_expr(e, r.0),
        well_typed_expr(r.0, bindings(*env)),
        bindings(r.1) == expr_env(e, bindings(*env)),
    decreases e,
{
    let ghost g = bindings(*env);
    let TypedExpr { expr, typ: _ } = e;
    match expr {
        Expr::Number(n) => (TypedExpr { expr: Expr::Number(n), typ: AwkT::Float }, env_map_clone(env)),
        Expr::String(s) => (TypedExpr { expr: Expr::String(s), typ: AwkT::String }, env_map_clone(env)),
        Expr::Variable(x) => {
            let t = match env_map_get(env, &x) {
                Some(t) => t,
                None => AwkT::Float,
            };
            (TypedExpr { expr: Expr::Variable(x), typ: t }, env_map_clone(env))
        },
        Expr::Assign(x, v) => {
            let ghost v0 = *v;
            let (v2, e1) = analyze_expr(*v, env);
            proof {
                lemma_shape_expr(v0, v2, g);
            }
            let t = v2.typ;
            let e2 = env_map_insert(&e1, x.clone(), t);
            (TypedExpr { expr: Expr::Assign(x, Box::new(v2)), typ: t }, e2)
        },
        Expr::MathOp(l, op, r) => {
            let ghost (l0, r0) = (*l, *r);
            let (l2, e1) = analyze_expr(*l, env);
            let (r2, e2) = analyze_expr(*r, &e1);
            proof {
                lemma_binary_typed(l0, r0, l2, r2, g);
            }
            (TypedExpr { expr: Expr::MathOp(Box::new(l2), op, Box::new(r2)), typ: AwkT::Float }, e2)
        },
        Expr::BinOp(l, op, r) => {
            let ghost (l0, r0) = (*l, *r);
            let (l2, e1) = analyze_expr(*l, env);
            let (r2, e2) = analyze_expr(*r, &e1);
            proof {
                lemma_binary_typed(l0, r0, l2, r2, g);
            }
            (TypedExpr { expr: Expr::BinOp(Box::new(l2), op, Box::new(r2)), typ: AwkT::Float }, e2)
        },
        Expr::LogicalOp(l, op, r) => {
            let ghost (l0, r0) = (*l, *r);
            let (l2, e1) = analyze_expr(*l, env);
            let (r2, e2) = analyze_expr(*r, &e1);
            proof {
                lemma_binary_typed(l0, r0, l2, r2, g);
            }
            (TypedExpr { expr: Expr::LogicalOp(Box::new(l2), op, Box::new(r2)), typ: AwkT::Float }, e2)
        },
        Expr::Column(c) => {
            let (c2, e1) = analyze_expr(*c, env);
            (TypedExpr { expr: Expr::Column(Box::new(c2)), typ: AwkT::String }, e1)
        },
        Expr::Call => (TypedExpr { expr: Expr::Call, typ: AwkT::Float }, env_map_clone(env)),
    }
}

/// The static type of `e` in `env`, computed without annotating.
fn expr_type_of(e: &TypedExpr, env: &EnvMap) -> (r: AwkT)
    ensures
        r == expr_type(*e, bindings(*env)),
    decreases e,
{
    match &e.expr {
        Expr::Number(_) => AwkT::Float,
        Expr::String(_) => AwkT::String,
        Expr::Variable(x) => match env_map_get(env, x) {
            Some(t) => t,
            None => AwkT::Float,
        },
        Expr::Assign(_, v) => expr_type_of(&**v, env),
        Expr::Column(_) => AwkT::String,
        _ => AwkT::Float,
    }
}

/// The environment after `e`, computed without annotating.
fn expr_env_of(e: &TypedExpr, env: &EnvMap) -> (r: EnvMap)
    ensures
        bindings(r) == expr_env(*e, bindings(*env)),
    decreases e,
{
    match &e.expr {
        Expr::Assign(x, v) => {
            let t = expr_type_of(&**v, env);
            let e1 = expr_env_of(&**v, env);
            env_map_insert(&e1, x.clone(), t)
        },
        Expr::MathOp(l, _, r) => {
            let e1 = expr_env_of(&**l, env);
            expr_env_of(&**r, &e1)
        },
        Expr::BinOp(l, _, r) => {
            let e1 = expr_env_of(&**l, env);
            expr_env_of(&**r, &e1)
        },
        Expr::LogicalOp(l, _, r) => {
            let e1 = expr_env_of(&**l, env);
            expr_env_of(&**r, &e1)
        },
        Expr::Column(c) => expr_env_of(&**c, env),
        _ => env_map_clone(env),
    }
}

/// The environment after `s`, computed without annotating; this is the
/// first pass over a loop body.
fn stmt_env_of(s: &Stmt, env: &EnvMap) -> (r: EnvMap)
    ensures
        bindings(r) == stmt_env(*s, bindings(*env)),
    decreases s,
{
    match s {
        Stmt::Expr(e) => expr_env_of(e, env),
        Stmt::Print(e) => expr_env_of(e, env),
        Stmt::Group(v) => {
            let ghost g = bindings(*env);
            let mut cur = env_map_clone(env);
            let mut i: usize = 0;
            while i < v.len()
                invariant
                    0 <= i <= v.len(),
                    bindings(cur) == group_env(v@, i as nat, g),
                    g == bindings(*env),
                    *s == Stmt::Group(*v),
                decreases v.len() - i,
            {
                proof {
                    assert(decreases_to!(*s => s->Group_0));
                    assert(decreases_to!(*v => v@));
                    assert(decreases_to!(v@ => v@[i as int]));
                }
                cur = stmt_env_of(&v[i], &cur);
                i = i + 1;
            }
            cur
        },
        Stmt::If(t, a, b) => {
            let e0 = expr_env_of(t, env);
            let ea = stmt_env_of(&**a, &e0);
            match b {
                Some(b) => {
                    let eb = stmt_env_of(&**b, &e0);
                    merge_maps(&ea, &eb)
                },
                None => merge_maps(&ea, &e0),
            }
        },
        Stmt::While(t, b) => {
            let e1 = expr_env_of(t, env);
            let e2 = stmt_env_of(&**b, &e1);
            let head = merge_maps(env, &e2);
            proof {
                assert(bindings(head) == loop_head_env(*t, **b, bindings(*env)));
            }
            let e3 = expr_env_of(t, &head);
            stmt_env_of(&**b, &e3)
        },
    }
}

/// Fills the type slots of every expression in `s` as analysis in `env`
/// gives them, and returns the annotated statement with the environment
/// after it. Branches are analysed from copies of the incoming environment
/// and joined; a loop is analysed twice, the second time from the pre-loop
/// environment joined with the one after the first pass.
pub fn analyze_stmt(s: Stmt, env: &EnvMap) -> (r: (Stmt, EnvMap))
    ensures
        same_shape_stmt(s, r.0),
        well_typed_stmt(r.0, bindings(*env)),
        bindings(r.1) == stmt_env(s, bindings(*env)),
    decreases s,
{
    let ghost g = bindings(*env);
    match s {
        Stmt::Expr(e) => {
            let (e2, env2) = analyze_expr(e, env);
            (Stmt::Expr(e2), env2)
        },
        Stmt::Print(e) => {
            let (e2, env2) = analyze_expr(e, env);
            (Stmt::Print(e2), env2)
        },
        Stmt::Group(v) => {
            let ghost orig = v@;
            let ghost whole = v;
            proof {
                broadcast use vstd::std_specs::vec::axiom_vec_decreases_to_view;
                assert(decreases_to!(whole => orig));
            }
            let mut rest = v;
            let mut out: Vec<Stmt> = Vec::new();
            let mut cur = env_map_clone(env);
            while rest.len() > 0
                invariant
                    out.len() + rest.len() == orig.len(),
                    rest@ == orig.subrange(out.len() as int, orig.len() as int),
                    forall|j: int| 0 <= j < out.len() ==> #[trigger] same_shape_stmt(orig[j], out@[j]),
                    forall|j: int|
                        0 <= j < out.len() ==> well_typed_stmt(#[trigger] out@[j], group_env(orig, j as nat, g)),
                    bindings(cur) == group_env(orig, out.len() as nat, g),
                    g == bindings(*env),
                    decreases_to!(whole => orig),
                    s == Stmt::Group(whole),
                decreases rest.len(),
            {
                let first = rest.remove(0);
                proof {
                    assert(first == orig[out.len() as int]);
                    assert(decreases_to!(s => s->Group_0));
                    assert(decreases_to!(whole => whole@));
                    assert(decreases_to!(orig => orig[out.len() as int]));
                }
                let (s2, next) = analyze_stmt(first, &cur);
                out.push(s2);
                cur = next;
            }
            proof {
                assert forall|j: int| 0 <= j < out.len() implies well_typed_stmt(
                    #[trigger] out@[j],
                    group_env(out@, j as nat, g),
                ) by {
                    lemma_shape_group(orig, out@, j as nat, g);
                }
                assert(out@.len() == orig.len());
                assert(forall|j: int| 0 <= j < orig.len() ==> same_shape_stmt(orig[j], out@[j]));
                assert(same_shape_group(orig, out@));
            }
            (Stmt::Group(out), cur)
        },
        Stmt::If(t, a, b) => {
            let ghost t0 = t;
            let (t2, e0) = analyze_expr(t, env);
            proof {
                lemma_shape_expr(t0, t2, g);
            }
            let (a2, ea) = analyze_stmt(*a, &e0);
            match b {
                Some(b) => {
                    let (b2, eb) = analyze_stmt(*b, &e0);
                    let merged = merge_maps(&ea, &eb);
                    (Stmt::If(t2, Box::new(a2), Some(Box::new(b2))), merged)
                },
                None => {
                    let merged = merge_maps(&ea, &e0);
                    (Stmt::If(t2, Box::new(a2), None), merged)
                },
            }
        },
        Stmt::While(t, b) => {
            let ghost (t0, b0) = (t, *b);
            let e1 = expr_env_of(&t, env);
            let e2 = stmt_env_of(&b, &e1);
            let head = merge_maps(env, &e2);
            let (t2, e3) = analyze_expr(t, &head);
            let (b2, e4) = analyze_stmt(*b, &e3);
            proof {
                let m = bindings(head);
                assert(m == loop_head_env(t0, b0, g));
                lemma_shape_expr(t0, t2, g);
                lemma_shape_stmt(b0, b2, expr_env(t0, g));
                assert(m == loop_head_env(t2, b2, g));
                lemma_shape_expr(t0, t2, m);
            }
            (Stmt::While(t2, Box::new(b2)), e4)
        },
    }
}

/// Type analysis of a whole program: fills every type slot in place,
/// starting from the empty environment.
pub fn analyze(stmt: &mut Stmt)
    ensures
        same_shape_stmt(*old(stmt), *final(stmt)),
        well_typed_stmt(*final(stmt), Map::empty()),
{
    let mut taken = Stmt::Group(Vec::new());
    std::mem::swap(stmt, &mut taken);
    let env = env_map_new();
    proof {
        assert(bindings(env) =~= Map::empty());
    }
    let (typed, _) = analyze_stmt(taken, &env);
    *stmt = typed;
}

/// Every assignment to `x` inside `e` assigns a number literal.
pub open spec fn float_assigns_expr(e: TypedExpr, x: Seq<char>) -> bool
    decreases e,
{
    match e.expr {
        Expr::Assign(y, v) => (y@ == x ==> v.expr is Number) && float_assigns_expr(*v, x),
        Expr::MathOp(l, _, r) => float_assigns_expr(*l, x) && float_assigns_expr(*r, x),
        Expr::BinOp(l, _, r) => float_assigns_expr(*l, x) && float_assigns_expr(*r, x),
        Expr::LogicalOp(l, _, r) => float_assigns_expr(*l, x) && float_assigns_expr(*r, x),
        Expr::Column(c) => float_assigns_expr(*c, x),
        _ => true,
    }
}

/// Every assignment to `x` inside `s` assigns a number literal.
pub open spec fn float_assigns_stmt(s: Stmt, x: Seq<char>) -> bool
    decreases s,
{
    match s {
        Stmt::Expr(e) => float_assigns_expr(e, x),
        Stmt::Print(e) => float_assigns_expr(e, x),
        Stmt::Group(v) => forall|i: int| 0 <= i < v@.len() ==> float_assigns_stmt(#[trigger] v@[i], x),
        Stmt::If(t, a, b) => float_assigns_expr(t, x) && float_assigns_stmt(*a, x) && match b {
            Some(b) => float_assigns_stmt(*b, x),
            None => true,
        },
        Stmt::While(t, b) => float_assigns_expr(t, x) && float_assigns_stmt(*b, x),
    }
}

/// `e` assigns `x` (analysis binds every assignment in an expression; it
/// does not split paths inside one).
pub open spec fn expr_binds(e: TypedExpr, x: Seq<char>) -> bool
    decreases e,
{
    match e.expr {
        Expr::Assign(y, v) => y@ == x || expr_binds(*v, x),
        Expr::MathOp(l, _, r) => expr_binds(*l, x) || expr_binds(*r, x),
        Expr::BinOp(l, _, r) => expr_binds(*l, x) || expr_binds(*r, x),
        Expr::LogicalOp(l, _, r) => expr_binds(*l, x) || expr_binds(*r, x),
        Expr::Column(c) => expr_binds(*c, x),
        _ => false,
    }
}

/// Every control path through `s` assigns `x`: a sequence through one of
/// its statements, a conditional through its test or through both of its
/// branches, a loop (which may run zero times) through its test.
pub open spec fn stmt_binds(s: Stmt, x: Seq<char>) -> bool
    decreases s,
{
    match s {
        Stmt::Expr(e) => expr_binds(e, x),
        Stmt::Print(e) => expr_binds(e, x),
        Stmt::Group(v) => exists|i: int| 0 <= i < v@.len() && stmt_binds(#[trigger] v@[i], x),
        Stmt::If(t, a, b) => expr_binds(t, x) || (stmt_binds(*a, x) && match b {
            Some(b) => stmt_binds(*b, x),
            None => false,
        }),
        Stmt::While(t, _) => expr_binds(t, x),
    }
}

/// A variable that is a number on entry and is only ever assigned number
/// literals is still a number after the expression.
pub proof fn lemma_float_stays_float_expr(e: TypedExpr, x: Seq<char>, env: TypeEnv)
    requires
        env.contains_key(x),
        env[x] == AwkT::Float,
        float_assigns_expr(e, x),
    ensures
        expr_env(e, env).contains_key(x),
        expr_env(e, env)[x] == AwkT::Float,
    decreases e,
{
    match e.expr {
        Expr::Assign(_, v) => lemma_float_stays_float_expr(*v, x, env),
        Expr::MathOp(l, _, r) => {
            lemma_float_stays_float_expr(*l, x, env);
            lemma_float_stays_float_expr(*r, x, expr_env(*l, env));
        },
        Expr::BinOp(l, _, r) => {
            lemma_float_stays_float_expr(*l, x, env);
            lemma_float_stays_float_expr(*r, x, expr_env(*l, env));
        },
        Expr::LogicalOp(l, _, r) => {
            lemma_float_stays_float_expr(*l, x, env);
            lemma_float_stays_float_expr(*r, x, expr_env(*l, env));
        },
        Expr::Column(c) => lemma_float_stays_float_expr(*c, x, env),
        _ => {},
    }
}

/// No spurious promotion: a variable that is a number on entry and that
/// every path through `s` only assigns number literals is typed as a number
/// (never `Variable`) after `s`, branches and loops included.
pub proof fn lemma_float_stays_float(s: Stmt, x: Seq<char>, env: TypeEnv)
    requires
        env.contains_key(x),
        env[x] == AwkT::Float,
        float_assigns_stmt(s, x),
    ensures
        stmt_env(s, env).contains_key(x),
        stmt_env(s, env)[x] == AwkT::Float,
    decreases s, 0nat,
{
    match s {
        Stmt::Expr(e) => lemma_float_stays_float_expr(e, x, env),
        Stmt::Print(e) => lemma_float_stays_float_expr(e, x, env),
        Stmt::Group(v) => lemma_float_stays_float_group(v@, v@.len() as nat, x, env),
        Stmt::If(t, a, b) => {
            lemma_float_stays_float_expr(t, x, env);
            let e0 = expr_env(t, env);
            lemma_float_stays_float(*a, x, e0);
            match b {
                Some(b) => lemma_float_stays_float(*b, x, e0),
                None => {},
            }
            let eb = match b {
                Some(b) => stmt_env(*b, e0),
                None => e0,
            };
            lemma_join_env(stmt_env(*a, e0), eb, x);
        },
        Stmt::While(t, b) => {
            lemma_float_stays_float_expr(t, x, env);
            lemma_float_stays_float(*b, x, expr_env(t, env));
            lemma_join_env(env, stmt_env(*b, expr_env(t, env)), x);
            let m = loop_head_env(t, *b, env);
            lemma_float_stays_float_expr(t, x, m);
            lemma_float_stays_float(*b, x, expr_env(t, m));
        },
    }
}

/// The sequence case of `lemma_float_stays_float`, prefix by prefix.
pub proof fn lemma_float_stays_float_group(ss: Seq<Stmt>, n: nat, x: Seq<char>, env: TypeEnv)
    requires
        env.contains_key(x),
        env[x] == AwkT::Float,
        n <= ss.len(),
        forall|i: int| 0 <= i < ss.len() ==> float_assigns_stmt(#[trigger] ss[i], x),
    ensures
        group_env(ss, n, env).contains_key(x),
        group_env(ss, n, env)[x] == AwkT::Float,
    decreases ss, n,
{
    if n > 0 {
        lemma_float_stays_float_group(ss, (n - 1) as nat, x, env);
        lemma_float_stays_float(ss[n - 1], x, group_env(ss, (n - 1) as nat, env));
    }
}

/// An expression that assigns `x`, only ever number literals, leaves it a
/// number whatever it was before.
pub proof fn lemma_binds_float_expr(e: TypedExpr, x: Seq<char>, env: TypeEnv)
    requires
        expr_binds(e, x),
        float_assigns_expr(e, x),
    ensures
        expr_env(e, env).contains_key(x),
        expr_env(e, env)[x] == AwkT::Float,
    decreases e,
{
    match e.expr {
        Expr::Assign(y, v) => {
            if y@ != x {
                lemma_binds_float_expr(*v, x, env);
            }
        },
        Expr::MathOp(l, _, r) => {
            if expr_binds(*r, x) {
                lemma_binds_float_expr(*r, x, expr_env(*l, env));
            } else {
                lemma_binds_float_expr(*l, x, env);
                lemma_float_stays_float_expr(*r, x, expr_env(*l, env));
            }
        },
        Expr::BinOp(l, _, r) => {
            if expr_binds(*r, x) {
                lemma_binds_float_expr(*r, x, expr_env(*l, env));
            } else {
                lemma_binds_float_expr(*l, x, env);
                lemma_float_stays_float_expr(*r, x, expr_env(*l, env));
            }
        },
        Expr::LogicalOp(l, _, r) => {
            if expr_binds(*r, x) {
                lemma_binds_float_expr(*r, x, expr_env(*l, env));
            } else {
                lemma_binds_float_expr(*l, x, env);
                lemma_float_stays_float_expr(*r, x, expr_env(*l, env));
            }
        },
        Expr::Column(c) => lemma_binds_float_expr(*c, x, env),
        _ => {},
    }
}

/// No spurious promotion, for a variable that every path assigns: if every
/// path through `s` assigns `x` and every assignment to it is a number
/// literal, `x` is typed as a number after `s`, whatever it was before.
pub proof fn lemma_binds_float(s: Stmt, x: Seq<char>, env: TypeEnv)
    requires
        stmt_binds(s, x),
        float_assigns_stmt(s, x),
    ensures
        stmt_env(s, env).contains_key(x),
        stmt_env(s, env)[x] == AwkT::Float,
    decreases s, 0nat,
{
    match s {
        Stmt::Expr(e) => lemma_binds_float_expr(e, x, env),
        Stmt::Print(e) => lemma_binds_float_expr(e, x, env),
        Stmt::Group(v) => {
            let i = choose|i: int| 0 <= i < v@.len() && stmt_binds(#[trigger] v@[i], x);
            lemma_binds_float_group(v@, i, v@.len() as nat, x, env);
        },
        Stmt::If(t, a, b) => {
            let e0 = expr_env(t, env);
            let eb = match b {
                Some(b) => stmt_env(*b, e0),
                None => e0,
            };
            if expr_binds(t, x) {
                lemma_binds_float_expr(t, x, env);
                lemma_float_stays_float(*a, x, e0);
                match b {
                    Some(b) => lemma_float_stays_float(*b, x, e0),
                    None => {},
                }
            } else {
                lemma_binds_float(*a, x, e0);
                match b {
                    Some(b) => lemma_binds_float(*b, x, e0),
                    None => {},
                }
            }
            lemma_join_env(stmt_env(*a, e0), eb, x);
        },
        Stmt::While(t, b) => {
            let m = loop_head_env(t, *b, env);
            lemma_binds_float_expr(t, x, m);
            lemma_float_stays_float(*b, x, expr_env(t, m));
        },
    }
}

/// The sequence case of `lemma_binds_float`: once statement `i` has run,
/// `x` is a number after every longer prefix.
pub proof fn lemma_binds_float_group(ss: Seq<Stmt>, i: int, n: nat, x: Seq<char>, env: TypeEnv)
    requires
        0 <= i < n <= ss.len(),
        stmt_binds(ss[i], x),
        forall|j: int| 0 <= j < ss.len() ==> float_assigns_stmt(#[trigger] ss[j], x),
    ensures
        group_env(ss, n, env).contains_key(x),
        group_env(ss, n, env)[x] == AwkT::Float,
    decreases ss, n,
{
    if n == i + 1 {
        lemma_binds_float(ss[i], x, group_env(ss, i as nat, env));
    } else {
        lemma_binds_float_group(ss, i, (n - 1) as nat, x, env);
        lemma_float_stays_float(ss[n - 1], x, group_env(ss, (n - 1) as nat, env));
    }
}

} // verus!
