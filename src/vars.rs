use vstd::prelude::*;
use crate::ast::{Expr, TypedExpr, Stmt};

verus! {

/// The names of the variables that `e` reads or assigns.
pub open spec fn expr_vars(e: TypedExpr) -> Set<Seq<char>>
    decreases e,
{
    match e.expr {
        Expr::Variable(x) => set![x@],
        Expr::Assign(x, v) => set![x@] + expr_vars(*v),
        Expr::MathOp(l, _, r) => expr_vars(*l) + expr_vars(*r),
        Expr::BinOp(l, _, r) => expr_vars(*l) + expr_vars(*r),
        Expr::LogicalOp(l, _, r) => expr_vars(*l) + expr_vars(*r),
        Expr::Column(c) => expr_vars(*c),
        _ => Set::empty(),
    }
}

/// The names of the variables that `s` reads or assigns.
pub open spec fn stmt_vars(s: Stmt) -> Set<Seq<char>>
    decreases s, 0nat,
{
    match s {
        Stmt::Expr(e) => expr_vars(e),
        Stmt::Print(e) => expr_vars(e),
        Stmt::Group(v) => group_vars(v@, v@.len() as nat),
        Stmt::If(t, a, b) => expr_vars(t) + stmt_vars(*a) + match b {
            Some(b) => stmt_vars(*b),
            None => Set::empty(),
        },
        Stmt::While(t, b) => expr_vars(t) + stmt_vars(*b),
    }
}

/// The names of the variables of the first `n` statements of a sequence.
pub open spec fn group_vars(ss: Seq<Stmt>, n: nat) -> Set<Seq<char>>
    decreases ss, n,
{
    if n == 0 || n > ss.len() {
        Set::empty()
    } else {
        group_vars(ss, (n - 1) as nat) + stmt_vars(ss[n - 1])
    }
}

/// The views of a list of names.
pub open spec fn name_views(names: Seq<String>) -> Seq<Seq<char>> {
    names.map_values(|n: String| n@)
}

/// No name occurs twice.
pub open spec fn distinct_names(names: Seq<String>) -> bool {
    forall|i: int, j: int| 0 <= i < j < names.len() ==> names[i]@ != names[j]@
}

/// The elements of a sequence with one more element pushed.
proof fn lemma_push_to_set(s: Seq<Seq<char>>, x: Seq<char>)
    ensures
        s.push(x).to_set() == s.to_set().insert(x),
{
    assert forall|a: Seq<char>| #[trigger] s.push(x).to_set().contains(a) == s.to_set().insert(x).contains(a) by {
        if s.contains(a) {
            let i = choose|i: int| 0 <= i < s.len() && s[i] == a;
            assert(s.push(x)[i] == a);
        }
        if a == x {
            assert(s.push(x)[s.len() as int] == x);
        }
        if s.push(x).contains(a) {
            let i = choose|i: int| 0 <= i < s.push(x).len() && s.push(x)[i] == a;
            if i < s.len() {
                assert(s[i] == a);
            }
        }
    }
    assert(s.push(x).to_set() =~= s.to_set().insert(x));
}

/// Adds `x` to `names` unless it is already there.
fn add_name(names: &mut Vec<String>, x: &String)
    requires
        distinct_names(old(names)@),
    ensures
        distinct_names(final(names)@),
        name_views(final(names)@).to_set() == name_views(old(names)@).to_set().insert(x@),
        name_views(old(names)@).is_prefix_of(name_views(final(names)@)),
{
    let mut k: usize = 0;
    while k < names.len()
        invariant
            0 <= k <= names.len(),
            names@ == old(names)@,
            distinct_names(names@),
            forall|j: int| 0 <= j < k ==> names@[j]@ != x@,
        decreases names.len() - k,
    {
        if names[k] == *x {
            proof {
                assert(name_views(names@)[k as int] == x@);
                assert(name_views(names@).to_set() =~= name_views(names@).to_set().insert(x@));
            }
            return;
        }
        k = k + 1;
    }
    let ghost before = names@;
    names.push(x.clone());
    proof {
        assert(name_views(names@) =~= name_views(before).push(x@));
        lemma_push_to_set(name_views(before), x@);
    }
}

/// Adds the variables of `e` to `names`, keeping them distinct.
fn extract_expr(e: &TypedExpr, names: &mut Vec<String>)
    requires
        distinct_names(old(names)@),
    ensures
        distinct_names(final(names)@),
        name_views(final(names)@).to_set() == name_views(old(names)@).to_set() + expr_vars(*e),
    decreases e,
{
    match &e.expr {
        Expr::Variable(x) => add_name(names, x),
        Expr::Assign(x, v) => {
            add_name(names, x);
            extract_expr(&**v, names);
        },
        Expr::MathOp(l, _, r) => {
            extract_expr(&**l, names);
            extract_expr(&**r, names);
        },
        Expr::BinOp(l, _, r) => {
            extract_expr(&**l, names);
            extract_expr(&**r, names);
        },
        Expr::LogicalOp(l, _, r) => {
            extract_expr(&**l, names);
            extract_expr(&**r, names);
        },
        Expr::Column(c) => extract_expr(&**c, names),
        _ => {},
    }
    proof {
        assert(name_views(names@).to_set() =~= name_views(old(names)@).to_set() + expr_vars(*e));
    }
}

/// Adds the variables of `s` to `names`, keeping them distinct.
fn extract_stmt(s: &Stmt, names: &mut Vec<String>)
    requires
        distinct_names(old(names)@),
    ensures
        distinct_names(final(names)@),
        name_views(final(names)@).to_set() == name_views(old(names)@).to_set() + stmt_vars(*s),
    decreases s,
{
    let ghost start = name_views(names@).to_set();
    match s {
        Stmt::Expr(e) => extract_expr(e, names),
        Stmt::Print(e) => extract_expr(e, names),
        Stmt::Group(v) => {
            let mut i: usize = 0;
            while i < v.len()
                invariant
                    0 <= i <= v.len(),
                    distinct_names(names@),
                    name_views(names@).to_set() == start + group_vars(v@, i as nat),
                    *s == Stmt::Group(*v),
                decreases v.len() - i,
            {
                proof {
                    assert(decreases_to!(*s => s->Group_0));
                    assert(decreases_to!(*v => v@));
                    assert(decreases_to!(v@ => v@[i as int]));
                }
                extract_stmt(&v[i], names);
                proof {
                    assert(start + group_vars(v@, (i + 1) as nat) =~= start + group_vars(v@, i as nat) + stmt_vars(v@[i as int]));
                }
                i = i + 1;
            }
        },
        Stmt::If(t, a, b) => {
            extract_expr(t, names);
            extract_stmt(&**a, names);
            match b {
                Some(b) => extract_stmt(&**b, names),
                None => {},
            }
        },
        Stmt::While(t, b) => {
            extract_expr(t, names);
            extract_stmt(&**b, names);
        },
    }
    proof {
        assert(name_views(names@).to_set() =~= start + stmt_vars(*s));
    }
}

/// The distinct variable names of a program, each once, in order of first
/// appearance.
pub fn extract(prog: &Stmt) -> (r: Vec<String>)
    ensures
        distinct_names(r@),
        name_views(r@).to_set() == stmt_vars(*prog),
{
    let mut names: Vec<String> = Vec::new();
    proof {
        assert(name_views(names@).to_set() =~= Set::empty());
    }
    extract_stmt(prog, &mut names);
    proof {
        assert(Set::<Seq<char>>::empty() + stmt_vars(*prog) =~= stmt_vars(*prog));
    }
    names
}

} // verus!
