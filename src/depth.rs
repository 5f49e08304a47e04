use vstd::prelude::*;
use crate::ast::{Expr, LogicalOp, Stmt, TypedExpr};
use crate::codegen::{Insn, coerce, expr_code, stmt_code, group_code, lemma_group_code_mono};
use crate::lattice::AwkT;
use crate::value::{FLOAT_ONE, FLOAT_ZERO};

verus! {

/// Instruction `insn` at position `i` agrees with the stack depths `d`
/// (`d[j]` is the depth before instruction `j`): it finds the operands it
/// reads, and every place it leads to expects the depth it leaves.
pub open spec fn insn_depth_ok(insn: Insn, i: int, d: Seq<int>) -> bool {
    match insn {
        Insn::PushNum(_) => d[i + 1] == d[i] + 1,
        Insn::PushStr(_) => d[i + 1] == d[i] + 1,
        Insn::Load(_) => d[i + 1] == d[i] + 1,
        Insn::NextRecord => d[i + 1] == d[i] + 1,
        Insn::Assign(_) => d[i] >= 1 && d[i + 1] == d[i],
        Insn::ToNum => d[i] >= 1 && d[i + 1] == d[i],
        Insn::Field => d[i] >= 1 && d[i + 1] == d[i],
        Insn::Pop => d[i] >= 1 && d[i + 1] == d[i] - 1,
        Insn::Print => d[i] >= 1 && d[i + 1] == d[i] - 1,
        Insn::Arith(_) => d[i] >= 2 && d[i + 1] == d[i] - 1,
        Insn::Compare(_) => d[i] >= 2 && d[i + 1] == d[i] - 1,
        Insn::Skip(k) => i + 1 + k < d.len() && d[i + 1 + k] == d[i],
        Insn::SkipIfFalse(k) => d[i] >= 1 && d[i + 1] == d[i] - 1 && i + 1 + k < d.len() && d[i + 1 + k] == d[i]
            - 1,
        Insn::SkipIfTrue(k) => d[i] >= 1 && d[i + 1] == d[i] - 1 && i + 1 + k < d.len() && d[i + 1 + k] == d[i]
            - 1,
        Insn::Back(k) => k <= i && d[i - k] == d[i],
    }
}

/// `d` gives a stack depth before every instruction of `code` and after the
/// last one, consistent with every instruction.
pub open spec fn depths_ok(code: Seq<Insn>, d: Seq<int>) -> bool {
    &&& d.len() == code.len() + 1
    &&& forall|i: int| 0 <= i < code.len() ==> insn_depth_ok(#[trigger] code[i], i, d)
}

/// Depth-consistent pieces, the second starting at the depth where the
/// first ends, run one after the other consistently.
pub proof fn lemma_depths_concat(a: Seq<Insn>, da: Seq<int>, b: Seq<Insn>, db: Seq<int>)
    requires
        depths_ok(a, da),
        depths_ok(b, db),
        da.last() == db[0],
    ensures
        depths_ok(a + b, da + db.drop_first()),
{
    reveal(depths_ok);
    let code = a + b;
    let d = da + db.drop_first();
    assert forall|j: int| 0 <= j <= a.len() implies d[j] == da[j] by {}
    assert forall|m: int| 0 <= m < db.len() implies d[a.len() + m] == db[m] by {
        if m > 0 {
            assert(d[a.len() + m] == db.drop_first()[m - 1]);
        }
    }
    assert forall|i: int| 0 <= i < code.len() implies insn_depth_ok(#[trigger] code[i], i, d) by {
        if i < a.len() {
            assert(code[i] == a[i]);
            assert(insn_depth_ok(a[i], i, da));
        } else {
            let j = i - a.len();
            assert(code[i] == b[j]);
            assert(insn_depth_ok(b[j], j, db));
        }
    }
}

/// A single instruction with the depths around it.
proof fn lemma_depths_single(insn: Insn, before: int, after: int)
    requires
        insn_depth_ok(insn, 0, seq![before, after]),
    ensures
        depths_ok(seq![insn], seq![before, after]),
{
    reveal(depths_ok);
    assert(seq![insn][0] == insn);
}

/// The depths of a coercion: it leaves the depth as it is.
proof fn lemma_coerce_depths(t: AwkT, x: int) -> (d: Seq<int>)
    requires
        x >= 1,
    ensures
        depths_ok(coerce(t), d),
        d[0] == x,
        d.last() == x,
{
    reveal(depths_ok);
    if t == AwkT::Float {
        seq![x]
    } else {
        lemma_depths_single(Insn::ToNum, x, x);
        seq![x, x]
    }
}

/// The depths of a short-circuit tail: a jump over the right operand's
/// code and the four instructions that push the result.
proof fn lemma_logical_tail_depths(op: LogicalOp, rc: Seq<Insn>, dr: Seq<int>, b: int) -> (d: Seq<int>)
    requires
        depths_ok(rc, dr),
        dr[0] == b,
        dr.last() == b + 1,
        b >= 0,
        rc.len() + 3 <= usize::MAX,
    ensures
        depths_ok(
            match op {
                LogicalOp::And => seq![Insn::SkipIfFalse((rc.len() + 3) as usize)] + rc + seq![
                    Insn::SkipIfFalse(2),
                    Insn::PushNum(FLOAT_ONE),
                    Insn::Skip(1),
                    Insn::PushNum(FLOAT_ZERO),
                ],
                LogicalOp::Or => seq![Insn::SkipIfTrue((rc.len() + 3) as usize)] + rc + seq![
                    Insn::SkipIfTrue(2),
                    Insn::PushNum(FLOAT_ZERO),
                    Insn::Skip(1),
                    Insn::PushNum(FLOAT_ONE),
                ],
            },
            d,
        ),
        d[0] == b + 1,
        d.last() == b + 1,
{
    reveal(depths_ok);
    let code = match op {
        LogicalOp::And => seq![Insn::SkipIfFalse((rc.len() + 3) as usize)] + rc + seq![
            Insn::SkipIfFalse(2),
            Insn::PushNum(FLOAT_ONE),
            Insn::Skip(1),
            Insn::PushNum(FLOAT_ZERO),
        ],
        LogicalOp::Or => seq![Insn::SkipIfTrue((rc.len() + 3) as usize)] + rc + seq![
            Insn::SkipIfTrue(2),
            Insn::PushNum(FLOAT_ZERO),
            Insn::Skip(1),
            Insn::PushNum(FLOAT_ONE),
        ],
    };
    let d = seq![b + 1] + dr + seq![b, b + 1, b, b + 1];
    let r = rc.len() as int;
    assert(d.len() == code.len() + 1);
    assert forall|i: int| 0 <= i < code.len() implies insn_depth_ok(#[trigger] code[i], i, d) by {
        if 1 <= i < 1 + r {
            assert(code[i] == rc[i - 1]);
            assert(insn_depth_ok(rc[i - 1], i - 1, dr));
            assert(d[i] == dr[i - 1]);
            assert(d[i + 1] == dr[i]);
            assert forall|k: int| 0 <= k < dr.len() implies d[1 + k] == dr[k] by {}
        }
    }
    d
}

/// The code of a short-circuit operator, from the depths of the operands'
/// own code.
proof fn lemma_logical_depths(lc: Seq<Insn>, op: LogicalOp, rc: Seq<Insn>, dl: Seq<int>, dr: Seq<int>, b: int) -> (d: Seq<int>)
    requires
        b >= 0,
        rc.len() + 3 <= usize::MAX,
        depths_ok(lc, dl),
        dl[0] == b,
        dl.last() == b + 1,
        depths_ok(rc, dr),
        dr[0] == b,
        dr.last() == b + 1,
    ensures
        depths_ok(
            match op {
                LogicalOp::And => lc + seq![Insn::SkipIfFalse((rc.len() + 3) as usize)] + rc + seq![
                    Insn::SkipIfFalse(2),
                    Insn::PushNum(FLOAT_ONE),
                    Insn::Skip(1),
                    Insn::PushNum(FLOAT_ZERO),
                ],
                LogicalOp::Or => lc + seq![Insn::SkipIfTrue((rc.len() + 3) as usize)] + rc + seq![
                    Insn::SkipIfTrue(2),
                    Insn::PushNum(FLOAT_ZERO),
                    Insn::Skip(1),
                    Insn::PushNum(FLOAT_ONE),
                ],
            },
            d,
        ),
        d[0] == b,
        d.last() == b + 1,
{
    let dt = lemma_logical_tail_depths(op, rc, dr, b);
    let tail = match op {
        LogicalOp::And => seq![Insn::SkipIfFalse((rc.len() + 3) as usize)] + rc + seq![
            Insn::SkipIfFalse(2),
            Insn::PushNum(FLOAT_ONE),
            Insn::Skip(1),
            Insn::PushNum(FLOAT_ZERO),
        ],
        LogicalOp::Or => seq![Insn::SkipIfTrue((rc.len() + 3) as usize)] + rc + seq![
            Insn::SkipIfTrue(2),
            Insn::PushNum(FLOAT_ZERO),
            Insn::Skip(1),
            Insn::PushNum(FLOAT_ONE),
        ],
    };
    lemma_depths_concat(lc, dl, tail, dt);
    match op {
        LogicalOp::And => assert(lc + tail =~= lc + seq![Insn::SkipIfFalse((rc.len() + 3) as usize)] + rc + seq![
            Insn::SkipIfFalse(2),
            Insn::PushNum(FLOAT_ONE),
            Insn::Skip(1),
            Insn::PushNum(FLOAT_ZERO),
        ]),
        LogicalOp::Or => assert(lc + tail =~= lc + seq![Insn::SkipIfTrue((rc.len() + 3) as usize)] + rc + seq![
            Insn::SkipIfTrue(2),
            Insn::PushNum(FLOAT_ZERO),
            Insn::Skip(1),
            Insn::PushNum(FLOAT_ONE),
        ]),
    }
    dl + dt.drop_first()
}

/// The code of an expression, started at depth `b`, ends at depth `b + 1`
/// and never reads below its start.
#[verifier::rlimit(100)]
pub proof fn lemma_expr_depths(e: TypedExpr, names: Seq<Seq<char>>, b: int) -> (d: Seq<int>)
    requires
        b >= 0,
        expr_code(e, names).len() <= usize::MAX,
    ensures
        depths_ok(expr_code(e, names), d),
        d[0] == b,
        d.last() == b + 1,
    decreases e,
{
    let code = expr_code(e, names);
    match e.expr {
        Expr::Assign(_, v) => {
            let dv = lemma_expr_depths(*v, names, b);
            lemma_depths_single(code.last(), b + 1, b + 1);
            lemma_depths_concat(expr_code(*v, names), dv, seq![code.last()], seq![b + 1, b + 1]);
            assert(code =~= expr_code(*v, names) + seq![code.last()]);
            dv + seq![b + 1, b + 1].drop_first()
        },
        Expr::MathOp(l, op, r) => {
            let dl = lemma_expr_depths(*l, names, b);
            let dr = lemma_expr_depths(*r, names, b + 1);
            lemma_operand_depths(expr_code(*l, names), l.typ, expr_code(*r, names), r.typ, Insn::Arith(op), dl, dr, b)
        },
        Expr::BinOp(l, op, r) => {
            let dl = lemma_expr_depths(*l, names, b);
            let dr = lemma_expr_depths(*r, names, b + 1);
            lemma_operand_depths(expr_code(*l, names), l.typ, expr_code(*r, names), r.typ, Insn::Compare(op), dl, dr, b)
        },
        Expr::LogicalOp(l, op, r) => {
            let dl = lemma_expr_depths(*l, names, b);
            let dr = lemma_expr_depths(*r, names, b);
            lemma_logical_depths(expr_code(*l, names), op, expr_code(*r, names), dl, dr, b)
        },
        Expr::Column(c) => {
            let dc = lemma_expr_depths(*c, names, b);
            let dk = lemma_coerce_depths(c.typ, b + 1);
            lemma_depths_concat(expr_code(*c, names), dc, coerce(c.typ), dk);
            lemma_depths_single(Insn::Field, b + 1, b + 1);
            lemma_depths_concat(
                expr_code(*c, names) + coerce(c.typ),
                dc + dk.drop_first(),
                seq![Insn::Field],
                seq![b + 1, b + 1],
            );
            dc + dk.drop_first() + seq![b + 1, b + 1].drop_first()
        },
        _ => {
            lemma_depths_single(code[0], b, b + 1);
            assert(code =~= seq![code[0]]);
            seq![b, b + 1]
        },
    }
}

/// The two-operand case of `lemma_expr_depths`, from the depths of the
/// operands' own code.
proof fn lemma_operand_depths(
    lc: Seq<Insn>,
    lt: AwkT,
    rc: Seq<Insn>,
    rt: AwkT,
    last: Insn,
    dl: Seq<int>,
    dr: Seq<int>,
    b: int,
) -> (d: Seq<int>)
    requires
        b >= 0,
        last is Arith || last is Compare,
        depths_ok(lc, dl),
        dl[0] == b,
        dl.last() == b + 1,
        depths_ok(rc, dr),
        dr[0] == b + 1,
        dr.last() == b + 2,
    ensures
        depths_ok(lc + coerce(lt) + rc + coerce(rt) + seq![last], d),
        d[0] == b,
        d.last() == b + 1,
{
    let d1 = lemma_coerce_depths(lt, b + 1);
    let d2 = lemma_coerce_depths(rt, b + 2);
    lemma_depths_single(last, b + 2, b + 1);
    lemma_depths_concat(lc, dl, coerce(lt), d1);
    let x1 = dl + d1.drop_first();
    lemma_depths_concat(lc + coerce(lt), x1, rc, dr);
    let x2 = x1 + dr.drop_first();
    lemma_depths_concat(lc + coerce(lt) + rc, x2, coerce(rt), d2);
    let x3 = x2 + d2.drop_first();
    lemma_depths_concat(lc + coerce(lt) + rc + coerce(rt), x3, seq![last], seq![b + 2, b + 1]);
    x3 + seq![b + 2, b + 1].drop_first()
}

/// A conditional without else, from the depths of its parts.
proof fn lemma_if_depths(tc: Seq<Insn>, dt: Seq<int>, ac: Seq<Insn>, da: Seq<int>, b: int) -> (d: Seq<int>)
    requires
        b >= 0,
        ac.len() <= usize::MAX,
        depths_ok(tc, dt),
        dt[0] == b,
        dt.last() == b + 1,
        depths_ok(ac, da),
        da[0] == b,
        da.last() == b,
    ensures
        depths_ok(tc + seq![Insn::SkipIfFalse(ac.len() as usize)] + ac, d),
        d[0] == b,
        d.last() == b,
{
    reveal(depths_ok);
    let code = tc + seq![Insn::SkipIfFalse(ac.len() as usize)] + ac;
    let d = dt + da;
    let t = tc.len() as int;
    assert forall|i: int| 0 <= i < code.len() implies insn_depth_ok(#[trigger] code[i], i, d) by {
        if i < t {
            assert(code[i] == tc[i]);
            assert(insn_depth_ok(tc[i], i, dt));
            assert(d[i] == dt[i] && d[i + 1] == dt[i + 1]);
            assert forall|k: int| 0 <= k < dt.len() implies d[k] == dt[k] by {}
        } else if i > t {
            let j = i - t - 1;
            assert(code[i] == ac[j]);
            assert(insn_depth_ok(ac[j], j, da));
            assert forall|k: int| 0 <= k < da.len() implies d[t + 1 + k] == da[k] by {}
        }
    }
    d
}

/// A conditional with an else branch, from the depths of its parts.
proof fn lemma_if_else_depths(
    tc: Seq<Insn>,
    dt: Seq<int>,
    ac: Seq<Insn>,
    da: Seq<int>,
    bc: Seq<Insn>,
    db: Seq<int>,
    b: int,
) -> (d: Seq<int>)
    requires
        b >= 0,
        ac.len() + 1 <= usize::MAX,
        bc.len() <= usize::MAX,
        depths_ok(tc, dt),
        dt[0] == b,
        dt.last() == b + 1,
        depths_ok(ac, da),
        da[0] == b,
        da.last() == b,
        depths_ok(bc, db),
        db[0] == b,
        db.last() == b,
    ensures
        depths_ok(
            tc + seq![Insn::SkipIfFalse((ac.len() + 1) as usize)] + ac + seq![Insn::Skip(bc.len() as usize)] + bc,
            d,
        ),
        d[0] == b,
        d.last() == b,
{
    reveal(depths_ok);
    let code = tc + seq![Insn::SkipIfFalse((ac.len() + 1) as usize)] + ac + seq![Insn::Skip(bc.len() as usize)] + bc;
    let d = dt + da + db;
    let t = tc.len() as int;
    let a = ac.len() as int;
    assert forall|k: int| 0 <= k < dt.len() implies d[k] == dt[k] by {}
    assert forall|k: int| 0 <= k < da.len() implies d[t + 1 + k] == da[k] by {}
    assert forall|k: int| 0 <= k < db.len() implies d[t + a + 2 + k] == db[k] by {}
    assert forall|i: int| 0 <= i < code.len() implies insn_depth_ok(#[trigger] code[i], i, d) by {
        if i < t {
            assert(code[i] == tc[i]);
            assert(insn_depth_ok(tc[i], i, dt));
        } else if t < i < t + 1 + a {
            let j = i - t - 1;
            assert(code[i] == ac[j]);
            assert(insn_depth_ok(ac[j], j, da));
        } else if i > t + 1 + a {
            let j = i - t - a - 2;
            assert(code[i] == bc[j]);
            assert(insn_depth_ok(bc[j], j, db));
        }
    }
    d
}

/// A loop, from the depths of its parts.
proof fn lemma_while_depths(tc: Seq<Insn>, dt: Seq<int>, bc: Seq<Insn>, db: Seq<int>, b: int) -> (d: Seq<int>)
    requires
        b >= 0,
        tc.len() + bc.len() + 1 <= usize::MAX,
        depths_ok(tc, dt),
        dt[0] == b,
        dt.last() == b + 1,
        depths_ok(bc, db),
        db[0] == b,
        db.last() == b,
    ensures
        depths_ok(
            tc + seq![Insn::SkipIfFalse((bc.len() + 1) as usize)] + bc + seq![
                Insn::Back((tc.len() + bc.len() + 1) as usize),
            ],
            d,
        ),
        d[0] == b,
        d.last() == b,
{
    reveal(depths_ok);
    let code = tc + seq![Insn::SkipIfFalse((bc.len() + 1) as usize)] + bc + seq![
        Insn::Back((tc.len() + bc.len() + 1) as usize),
    ];
    let d = dt + db + seq![b];
    let t = tc.len() as int;
    assert forall|k: int| 0 <= k < dt.len() implies d[k] == dt[k] by {}
    assert forall|k: int| 0 <= k < db.len() implies d[t + 1 + k] == db[k] by {}
    assert forall|i: int| 0 <= i < code.len() implies insn_depth_ok(#[trigger] code[i], i, d) by {
        if i < t {
            assert(code[i] == tc[i]);
            assert(insn_depth_ok(tc[i], i, dt));
        } else if t < i < t + 1 + bc.len() {
            let j = i - t - 1;
            assert(code[i] == bc[j]);
            assert(insn_depth_ok(bc[j], j, db));
        }
    }
    d
}

/// The code of a statement, started at depth `b`, ends at depth `b` and
/// never reads below its start: statements leave the stack as they found
/// it.
#[verifier::rlimit(100)]
pub proof fn lemma_stmt_depths(s: Stmt, names: Seq<Seq<char>>, b: int) -> (d: Seq<int>)
    requires
        b >= 0,
        stmt_code(s, names).len() <= usize::MAX,
    ensures
        depths_ok(stmt_code(s, names), d),
        d[0] == b,
        d.last() == b,
    decreases s, 0nat,
{
    match s {
        Stmt::Expr(e) => {
            let de = lemma_expr_depths(e, names, b);
            lemma_depths_single(Insn::Pop, b + 1, b);
            lemma_depths_concat(expr_code(e, names), de, seq![Insn::Pop], seq![b + 1, b]);
            de + seq![b + 1, b].drop_first()
        },
        Stmt::Print(e) => {
            let de = lemma_expr_depths(e, names, b);
            lemma_depths_single(Insn::Print, b + 1, b);
            lemma_depths_concat(expr_code(e, names), de, seq![Insn::Print], seq![b + 1, b]);
            de + seq![b + 1, b].drop_first()
        },
        Stmt::Group(v) => lemma_group_depths(v@, v@.len() as nat, names, b),
        Stmt::If(t, a, other) => {
            let dt = lemma_expr_depths(t, names, b);
            let da = lemma_stmt_depths(*a, names, b);
            match other {
                None => lemma_if_depths(expr_code(t, names), dt, stmt_code(*a, names), da, b),
                Some(o) => {
                    let db = lemma_stmt_depths(*o, names, b);
                    lemma_if_else_depths(
                        expr_code(t, names),
                        dt,
                        stmt_code(*a, names),
                        da,
                        stmt_code(*o, names),
                        db,
                        b,
                    )
                },
            }
        },
        Stmt::While(t, body) => {
            let dt = lemma_expr_depths(t, names, b);
            let db = lemma_stmt_depths(*body, names, b);
            lemma_while_depths(expr_code(t, names), dt, stmt_code(*body, names), db, b)
        },
    }
}

/// The code of the first `k` statements of a sequence leaves the stack as
/// it found it.
pub proof fn lemma_group_depths(ss: Seq<Stmt>, k: nat, names: Seq<Seq<char>>, b: int) -> (d: Seq<int>)
    requires
        b >= 0,
        k <= ss.len(),
        group_code(ss, ss.len() as nat, names).len() <= usize::MAX,
    ensures
        depths_ok(group_code(ss, k, names), d),
        d[0] == b,
        d.last() == b,
    decreases ss, k,
{
    if k == 0 {
        reveal(depths_ok);
        seq![b]
    } else {
        let d0 = lemma_group_depths(ss, (k - 1) as nat, names, b);
        lemma_group_code_mono(ss, k, ss.len() as nat, names);
        let d1 = lemma_stmt_depths(ss[k - 1], names, b);
        lemma_depths_concat(group_code(ss, (k - 1) as nat, names), d0, stmt_code(ss[k - 1], names), d1);
        d0 + d1.drop_first()
    }
}

} // verus!
