use vstd::prelude::*;
use crate::ast::{Expr, TypedExpr, Stmt, MathOp, BinOp, LogicalOp};
use crate::lattice::AwkT;
use crate::value::{FLOAT_ONE, FLOAT_ZERO};
use crate::depth::{depths_ok, lemma_stmt_depths};
use crate::vars::{extract, name_views, distinct_names, expr_vars, stmt_vars, group_vars};

verus! {

/// One instruction of a compiled routine, for a stack machine over tagged
/// values with one storage slot per variable. Jumps are relative: `Skip(n)`
/// goes to the instruction `n` past the next one, `Back(n)` goes `n`
/// instructions back.
#[derive(Debug)]
pub enum Insn {
    /// Push a number (IEEE-754 bits).
    PushNum(u64),
    /// Push a fresh copy of a string literal.
    PushStr(String),
    /// Push a copy of a variable's slot.
    Load(usize),
    /// Pop a value, store a copy of it in a slot (freeing the old payload),
    /// and push the value back as the assignment's result.
    Assign(usize),
    /// Pop and free a value.
    Pop,
    /// Coerce the top of the stack to a number (a string is parsed).
    ToNum,
    /// Pop two numbers, push the result of the operator.
    Arith(MathOp),
    /// Pop two numbers, push 1 if the comparison holds, else 0.
    Compare(BinOp),
    /// Pop a number, push a fresh copy of that field of the current record.
    Field,
    /// Advance to the next record; push 1 if there is one, else 0.
    NextRecord,
    /// Pop a value and print it.
    Print,
    /// Jump forward.
    Skip(usize),
    /// Pop a value; skip if it is false.
    SkipIfFalse(usize),
    /// Pop a value; skip if it is true.
    SkipIfTrue(usize),
    /// Jump backward.
    Back(usize),
}

/// The slot of variable `x`: its first position among `names`.
pub open spec fn slot_of(names: Seq<Seq<char>>, x: Seq<char>) -> nat
    decreases names.len(),
{
    if names.len() == 0 || names[0] == x {
        0
    } else {
        1 + slot_of(names.drop_first(), x)
    }
}

/// The coercion that an operand of static type `t` needs before numeric use.
pub open spec fn coerce(t: AwkT) -> Seq<Insn> {
    if t == AwkT::Float {
        Seq::empty()
    } else {
        seq![Insn::ToNum]
    }
}

/// The code of an expression: it leaves the expression's value on the stack.
pub open spec fn expr_code(e: TypedExpr, names: Seq<Seq<char>>) -> Seq<Insn>
    decreases e,
{
    match e.expr {
        Expr::Number(b) => seq![Insn::PushNum(b)],
        Expr::String(s) => seq![Insn::PushStr(s)],
        Expr::Variable(x) => seq![Insn::Load(slot_of(names, x@) as usize)],
        Expr::Assign(x, v) => expr_code(*v, names) + seq![Insn::Assign(slot_of(names, x@) as usize)],
        Expr::MathOp(l, op, r) => expr_code(*l, names) + coerce(l.typ) + expr_code(*r, names) + coerce(r.typ)
            + seq![Insn::Arith(op)],
        Expr::BinOp(l, op, r) => expr_code(*l, names) + coerce(l.typ) + expr_code(*r, names) + coerce(r.typ)
            + seq![Insn::Compare(op)],
        Expr::LogicalOp(l, LogicalOp::And, r) => {
            let rc = expr_code(*r, names);
            expr_code(*l, names) + seq![Insn::SkipIfFalse((rc.len() + 3) as usize)] + rc + seq![
                Insn::SkipIfFalse(2),
                Insn::PushNum(FLOAT_ONE),
                Insn::Skip(1),
                Insn::PushNum(FLOAT_ZERO),
            ]
        },
        Expr::LogicalOp(l, LogicalOp::Or, r) => {
            let rc = expr_code(*r, names);
            expr_code(*l, names) + seq![Insn::SkipIfTrue((rc.len() + 3) as usize)] + rc + seq![
                Insn::SkipIfTrue(2),
                Insn::PushNum(FLOAT_ZERO),
                Insn::Skip(1),
                Insn::PushNum(FLOAT_ONE),
            ]
        },
        Expr::Column(c) => expr_code(*c, names) + coerce(c.typ) + seq![Insn::Field],
        Expr::Call => seq![Insn::NextRecord],
    }
}

/// The code of a statement: it leaves the stack as it found it.
pub open spec fn stmt_code(s: Stmt, names: Seq<Seq<char>>) -> Seq<Insn>
    decreases s, 0nat,
{
    match s {
        Stmt::Expr(e) => expr_code(e, names) + seq![Insn::Pop],
        Stmt::Print(e) => expr_code(e, names) + seq![Insn::Print],
        Stmt::Group(v) => group_code(v@, v@.len() as nat, names),
        Stmt::If(t, a, b) => {
            let tc = expr_code(t, names);
            let ac = stmt_code(*a, names);
            match b {
                None => tc + seq![Insn::SkipIfFalse(ac.len() as usize)] + ac,
                Some(b) => {
                    let bc = stmt_code(*b, names);
                    tc + seq![Insn::SkipIfFalse((ac.len() + 1) as usize)] + ac + seq![Insn::Skip(bc.len() as usize)]
                        + bc
                },
            }
        },
        Stmt::While(t, b) => {
            let tc = expr_code(t, names);
            let bc = stmt_code(*b, names);
            tc + seq![Insn::SkipIfFalse((bc.len() + 1) as usize)] + bc + seq![
                Insn::Back((tc.len() + bc.len() + 1) as usize),
            ]
        },
    }
}

/// The code of the first `n` statements of a sequence, one after another.
pub open spec fn group_code(ss: Seq<Stmt>, n: nat, names: Seq<Seq<char>>) -> Seq<Insn>
    decreases ss, n,
{
    if n == 0 || n > ss.len() {
        Seq::empty()
    } else {
        group_code(ss, (n - 1) as nat, names) + stmt_code(ss[n - 1], names)
    }
}

/// Instruction `insn` at position `i` of a routine of `len` instructions
/// with `n` slots names a slot that exists and jumps inside the routine.
pub open spec fn insn_ok(insn: Insn, i: int, len: int, n: nat) -> bool {
    match insn {
        Insn::Load(k) => k < n,
        Insn::Assign(k) => k < n,
        Insn::Skip(k) => i + 1 + k <= len,
        Insn::SkipIfFalse(k) => i + 1 + k <= len,
        Insn::SkipIfTrue(k) => i + 1 + k <= len,
        Insn::Back(k) => k <= i,
        _ => true,
    }
}

/// Every instruction of `code` names an existing slot (of `n`) and jumps
/// inside `code`.
pub open spec fn well_formed_code(code: Seq<Insn>, n: nat) -> bool {
    forall|i: int| 0 <= i < code.len() ==> insn_ok(#[trigger] code[i], i, code.len() as int, n)
}

/// Well-formed pieces placed one after the other stay well formed.
pub proof fn lemma_wf_concat(a: Seq<Insn>, b: Seq<Insn>, n: nat)
    requires
        well_formed_code(a, n),
        well_formed_code(b, n),
    ensures
        well_formed_code(a + b, n),
{
    assert forall|i: int| 0 <= i < (a + b).len() implies insn_ok(
        #[trigger] (a + b)[i],
        i,
        (a + b).len() as int,
        n,
    ) by {
        if i < a.len() {
            assert(insn_ok(a[i], i, a.len() as int, n));
        } else {
            assert(insn_ok(b[i - a.len()], i - a.len(), b.len() as int, n));
        }
    }
}

/// A variable among the names has a slot among them.
proof fn lemma_slot_in_range(names: Seq<Seq<char>>, x: Seq<char>)
    requires
        names.contains(x),
    ensures
        slot_of(names, x) < names.len(),
    decreases names.len(),
{
    if names[0] != x {
        let j = choose|j: int| 0 <= j < names.len() && names[j] == x;
        assert(names.drop_first()[j - 1] == x);
        lemma_slot_in_range(names.drop_first(), x);
    }
}

/// A forward jump over a well-formed block, followed by a well-formed
/// tail, is well formed when the jump lands inside the whole.
proof fn lemma_wf_guarded(first: Insn, body: Seq<Insn>, tail: Seq<Insn>, n: nat)
    requires
        well_formed_code(body, n),
        well_formed_code(tail, n),
        insn_ok(first, 0, (1 + body.len() + tail.len()) as int, n),
    ensures
        well_formed_code(seq![first] + body + tail, n),
{
    let code = seq![first] + body + tail;
    assert forall|i: int| 0 <= i < code.len() implies insn_ok(#[trigger] code[i], i, code.len() as int, n) by {
        if i == 0 {
            assert(code[0] == first);
        } else if 1 <= i < 1 + body.len() {
            assert(code[i] == body[i - 1]);
            assert(insn_ok(body[i - 1], i - 1, body.len() as int, n));
        } else if i >= 1 + body.len() {
            assert(code[i] == tail[i - 1 - body.len()]);
            assert(insn_ok(tail[i - 1 - body.len()], i - 1 - body.len(), tail.len() as int, n));
        }
    }
}

/// The code of a numeric operator over two well-formed operand codes is
/// well formed.
proof fn lemma_wf_operands(lc: Seq<Insn>, lt: AwkT, rc: Seq<Insn>, rt: AwkT, last: Insn, n: nat)
    requires
        well_formed_code(lc, n),
        well_formed_code(rc, n),
        last is Arith || last is Compare,
    ensures
        well_formed_code(lc + coerce(lt) + rc + coerce(rt) + seq![last], n),
{
    lemma_wf_concat(lc, coerce(lt), n);
    lemma_wf_concat(lc + coerce(lt), rc, n);
    lemma_wf_concat(lc + coerce(lt) + rc, coerce(rt), n);
    lemma_wf_concat(lc + coerce(lt) + rc + coerce(rt), seq![last], n);
}

/// The code of a short-circuit operator over two well-formed operand codes
/// is well formed.
proof fn lemma_wf_logical(lc: Seq<Insn>, op: LogicalOp, rc: Seq<Insn>, n: nat)
    requires
        well_formed_code(lc, n),
        well_formed_code(rc, n),
        rc.len() + 3 <= usize::MAX,
    ensures
        well_formed_code(
            match op {
                LogicalOp::And => lc + seq![Insn::SkipIfFalse((rc.len() + 3) as usize)] + rc + seq![
                    Insn::SkipIfFalse(2),
                    Insn::PushNum(FLOAT_ONE),
                    Insn::Skip(1),
                    Insn::PushNum(FLOAT_ZERO),
                ],
                LogicalOp::Or => lc + seq![Insn::SkipIfTrue((rc.len() + 3) as usize)] + rc + seq![
                    Insn::SkipIfTrue(2),
                    Insn::PushNum(FLOAT_ZERO),
                    Insn::Skip(1),
                    Insn::PushNum(FLOAT_ONE),
                ],
            },
            n,
        ),
{
    let (first, tail) = match op {
        LogicalOp::And => (
            Insn::SkipIfFalse((rc.len() + 3) as usize),
            seq![Insn::SkipIfFalse(2), Insn::PushNum(FLOAT_ONE), Insn::Skip(1), Insn::PushNum(FLOAT_ZERO)],
        ),
        LogicalOp::Or => (
            Insn::SkipIfTrue((rc.len() + 3) as usize),
            seq![Insn::SkipIfTrue(2), Insn::PushNum(FLOAT_ZERO), Insn::Skip(1), Insn::PushNum(FLOAT_ONE)],
        ),
    };
    assert(insn_ok(tail[0], 0, 4, n));
    assert(insn_ok(tail[2], 2, 4, n));
    assert(well_formed_code(tail, n));
    lemma_wf_guarded(first, rc, tail, n);
    lemma_wf_concat(lc, seq![first] + rc + tail, n);
    assert(lc + seq![first] + rc + tail =~= lc + (seq![first] + rc + tail));
}

/// The code of an expression is well formed.
pub proof fn lemma_expr_code_wf(e: TypedExpr, names: Seq<Seq<char>>)
    requires
        expr_vars(e).subset_of(names.to_set()),
        expr_code(e, names).len() <= usize::MAX,
    ensures
        well_formed_code(expr_code(e, names), names.len()),
    decreases e,
{
    let n = names.len();
    match e.expr {
        Expr::Variable(x) => {
            assert(names.to_set().contains(x@));
            lemma_slot_in_range(names, x@);
        },
        Expr::Assign(x, v) => {
            assert(names.to_set().contains(x@));
            lemma_slot_in_range(names, x@);
            lemma_expr_code_wf(*v, names);
            lemma_wf_concat(expr_code(*v, names), seq![Insn::Assign(slot_of(names, x@) as usize)], n);
        },
        Expr::MathOp(l, op, r) => {
            lemma_expr_code_wf(*l, names);
            lemma_expr_code_wf(*r, names);
            lemma_wf_operands(expr_code(*l, names), l.typ, expr_code(*r, names), r.typ, Insn::Arith(op), n);
        },
        Expr::BinOp(l, op, r) => {
            lemma_expr_code_wf(*l, names);
            lemma_expr_code_wf(*r, names);
            lemma_wf_operands(expr_code(*l, names), l.typ, expr_code(*r, names), r.typ, Insn::Compare(op), n);
        },
        Expr::LogicalOp(l, op, r) => {
            lemma_expr_code_wf(*l, names);
            lemma_expr_code_wf(*r, names);
            lemma_wf_logical(expr_code(*l, names), op, expr_code(*r, names), n);
        },
        Expr::Column(c) => {
            lemma_expr_code_wf(*c, names);
            lemma_wf_concat(expr_code(*c, names), coerce(c.typ), n);
            lemma_wf_concat(expr_code(*c, names) + coerce(c.typ), seq![Insn::Field], n);
        },
        _ => {},
    }
}

/// The code of a statement is well formed.
pub proof fn lemma_stmt_code_wf(s: Stmt, names: Seq<Seq<char>>)
    requires
        stmt_vars(s).subset_of(names.to_set()),
        stmt_code(s, names).len() <= usize::MAX,
    ensures
        well_formed_code(stmt_code(s, names), names.len()),
    decreases s, 0nat,
{
    let n = names.len();
    match s {
        Stmt::Expr(e) => {
            lemma_expr_code_wf(e, names);
            lemma_wf_concat(expr_code(e, names), seq![Insn::Pop], n);
        },
        Stmt::Print(e) => {
            lemma_expr_code_wf(e, names);
            lemma_wf_concat(expr_code(e, names), seq![Insn::Print], n);
        },
        Stmt::Group(v) => lemma_group_code_wf(v@, v@.len() as nat, names),
        Stmt::If(t, a, b) => {
            lemma_expr_code_wf(t, names);
            lemma_stmt_code_wf(*a, names);
            let (tc, ac) = (expr_code(t, names), stmt_code(*a, names));
            match b {
                None => {
                    lemma_wf_guarded(Insn::SkipIfFalse(ac.len() as usize), ac, Seq::empty(), n);
                    let m = seq![Insn::SkipIfFalse(ac.len() as usize)] + ac + Seq::empty();
                    lemma_wf_concat(tc, m, n);
                    assert(stmt_code(s, names) =~= tc + m);
                },
                Some(b) => {
                    lemma_stmt_code_wf(*b, names);
                    let bc = stmt_code(*b, names);
                    lemma_wf_guarded(Insn::Skip(bc.len() as usize), bc, Seq::empty(), n);
                    let tail = seq![Insn::Skip(bc.len() as usize)] + bc + Seq::empty();
                    lemma_wf_guarded(Insn::SkipIfFalse((ac.len() + 1) as usize), ac, tail, n);
                    let m = seq![Insn::SkipIfFalse((ac.len() + 1) as usize)] + ac + tail;
                    lemma_wf_concat(tc, m, n);
                    assert(stmt_code(s, names) =~= tc + m);
                },
            }
        },
        Stmt::While(t, b) => {
            lemma_expr_code_wf(t, names);
            lemma_stmt_code_wf(*b, names);
            let (tc, bc) = (expr_code(t, names), stmt_code(*b, names));
            let code = stmt_code(s, names);
            assert forall|i: int| 0 <= i < code.len() implies insn_ok(#[trigger] code[i], i, code.len() as int, n) by {
                if i < tc.len() {
                    assert(code[i] == tc[i]);
                    assert(insn_ok(tc[i], i, tc.len() as int, n));
                } else if tc.len() < i < tc.len() + 1 + bc.len() {
                    let j = i - tc.len() - 1;
                    assert(code[i] == bc[j]);
                    assert(insn_ok(bc[j], j, bc.len() as int, n));
                }
            }
        },
    }
}

/// The code of the first `k` statements of a sequence is well formed.
pub proof fn lemma_group_code_wf(ss: Seq<Stmt>, k: nat, names: Seq<Seq<char>>)
    requires
        k <= ss.len(),
        group_vars(ss, ss.len() as nat).subset_of(names.to_set()),
        group_code(ss, ss.len() as nat, names).len() <= usize::MAX,
    ensures
        well_formed_code(group_code(ss, k, names), names.len()),
    decreases ss, k,
{
    if k > 0 {
        lemma_group_code_wf(ss, (k - 1) as nat, names);
        lemma_group_code_mono(ss, k, ss.len() as nat, names);
        lemma_group_vars(ss, k - 1, ss.len() as nat);
        lemma_stmt_code_wf(ss[k - 1], names);
        lemma_wf_concat(group_code(ss, (k - 1) as nat, names), stmt_code(ss[k - 1], names), names.len());
    }
}

/// Short-circuit lowering of `l && r`: right after the left operand's code
/// stands a jump, taken when the left value is false, that lands past the
/// whole of the right operand's code on the instruction pushing 0; so when
/// the left operand is false nothing of the right one (a division, say)
/// runs.
pub proof fn lemma_and_skips_right(l: TypedExpr, r: TypedExpr, typ: AwkT, names: Seq<Seq<char>>)
    requires
        expr_code(r, names).len() + 3 <= usize::MAX,
    ensures
        ({
            let code = expr_code(
                TypedExpr { expr: Expr::LogicalOp(Box::new(l), LogicalOp::And, Box::new(r)), typ },
                names,
            );
            let (a, b) = (expr_code(l, names).len() as int, expr_code(r, names).len() as int);
            &&& code[a] == Insn::SkipIfFalse((b + 3) as usize)
            &&& code.subrange(a + 1, a + 1 + b) == expr_code(r, names)
            &&& code[a + 1 + b + 3] == Insn::PushNum(FLOAT_ZERO)
            &&& code.len() == a + 1 + b + 4
        }),
{
    let code = expr_code(
        TypedExpr { expr: Expr::LogicalOp(Box::new(l), LogicalOp::And, Box::new(r)), typ },
        names,
    );
    let (a, b) = (expr_code(l, names).len() as int, expr_code(r, names).len() as int);
    assert(code.subrange(a + 1, a + 1 + b) =~= expr_code(r, names));
}

/// Short-circuit lowering of `l || r`: right after the left operand's code
/// stands a jump, taken when the left value is true, that lands past the
/// whole of the right operand's code on the instruction pushing 1.
pub proof fn lemma_or_skips_right(l: TypedExpr, r: TypedExpr, typ: AwkT, names: Seq<Seq<char>>)
    requires
        expr_code(r, names).len() + 3 <= usize::MAX,
    ensures
        ({
            let code = expr_code(
                TypedExpr { expr: Expr::LogicalOp(Box::new(l), LogicalOp::Or, Box::new(r)), typ },
                names,
            );
            let (a, b) = (expr_code(l, names).len() as int, expr_code(r, names).len() as int);
            &&& code[a] == Insn::SkipIfTrue((b + 3) as usize)
            &&& code.subrange(a + 1, a + 1 + b) == expr_code(r, names)
            &&& code[a + 1 + b + 3] == Insn::PushNum(FLOAT_ONE)
            &&& code.len() == a + 1 + b + 4
        }),
{
    let code = expr_code(
        TypedExpr { expr: Expr::LogicalOp(Box::new(l), LogicalOp::Or, Box::new(r)), typ },
        names,
    );
    let (a, b) = (expr_code(l, names).len() as int, expr_code(r, names).len() as int);
    assert(code.subrange(a + 1, a + 1 + b) =~= expr_code(r, names));
}

/// The first position holding `x` is its slot.
proof fn lemma_slot_of(names: Seq<Seq<char>>, x: Seq<char>, k: int)
    requires
        0 <= k < names.len(),
        names[k] == x,
        forall|j: int| 0 <= j < k ==> names[j] != x,
    ensures
        slot_of(names, x) == k,
    decreases k,
{
    if k > 0 {
        lemma_slot_of(names.drop_first(), x, k - 1);
    }
}

/// Code length does not depend on the slot numbering (expressions).
proof fn lemma_expr_code_len(e: TypedExpr, n1: Seq<Seq<char>>, n2: Seq<Seq<char>>)
    ensures
        expr_code(e, n1).len() == expr_code(e, n2).len(),
    decreases e,
{
    match e.expr {
        Expr::Assign(_, v) => lemma_expr_code_len(*v, n1, n2),
        Expr::MathOp(l, _, r) => {
            lemma_expr_code_len(*l, n1, n2);
            lemma_expr_code_len(*r, n1, n2);
        },
        Expr::BinOp(l, _, r) => {
            lemma_expr_code_len(*l, n1, n2);
            lemma_expr_code_len(*r, n1, n2);
        },
        Expr::LogicalOp(l, _, r) => {
            lemma_expr_code_len(*l, n1, n2);
            lemma_expr_code_len(*r, n1, n2);
        },
        Expr::Column(c) => lemma_expr_code_len(*c, n1, n2),
        _ => {},
    }
}

/// Code length does not depend on the slot numbering (statements).
proof fn lemma_stmt_code_len(s: Stmt, n1: Seq<Seq<char>>, n2: Seq<Seq<char>>)
    ensures
        stmt_code(s, n1).len() == stmt_code(s, n2).len(),
    decreases s, 0nat,
{
    match s {
        Stmt::Expr(e) => lemma_expr_code_len(e, n1, n2),
        Stmt::Print(e) => lemma_expr_code_len(e, n1, n2),
        Stmt::Group(v) => lemma_group_code_len(v@, v@.len() as nat, n1, n2),
        Stmt::If(t, a, b) => {
            lemma_expr_code_len(t, n1, n2);
            lemma_stmt_code_len(*a, n1, n2);
            match b {
                Some(b) => lemma_stmt_code_len(*b, n1, n2),
                None => {},
            }
        },
        Stmt::While(t, b) => {
            lemma_expr_code_len(t, n1, n2);
            lemma_stmt_code_len(*b, n1, n2);
        },
    }
}

/// Code length does not depend on the slot numbering (sequences).
proof fn lemma_group_code_len(ss: Seq<Stmt>, n: nat, n1: Seq<Seq<char>>, n2: Seq<Seq<char>>)
    ensures
        group_code(ss, n, n1).len() == group_code(ss, n, n2).len(),
    decreases ss, n,
{
    if n > 0 && n <= ss.len() {
        lemma_group_code_len(ss, (n - 1) as nat, n1, n2);
        lemma_stmt_code_len(ss[n - 1], n1, n2);
    }
}

/// A prefix of a sequence has no more code than a longer prefix.
pub proof fn lemma_group_code_mono(ss: Seq<Stmt>, n: nat, m: nat, names: Seq<Seq<char>>)
    requires
        n <= m <= ss.len(),
    ensures
        group_code(ss, n, names).len() <= group_code(ss, m, names).len(),
    decreases m,
{
    if n < m {
        lemma_group_code_mono(ss, n, (m - 1) as nat, names);
    }
}

/// A statement of a sequence reads and assigns only variables of the
/// sequence.
proof fn lemma_group_vars(ss: Seq<Stmt>, i: int, n: nat)
    requires
        0 <= i < n <= ss.len(),
    ensures
        stmt_vars(ss[i]).subset_of(group_vars(ss, n)),
    decreases n,
{
    if i < n - 1 {
        lemma_group_vars(ss, i, (n - 1) as nat);
    }
}

/// The slot of variable `x`.
fn slot(names: &Vec<String>, x: &String) -> (r: usize)
    requires
        name_views(names@).contains(x@),
    ensures
        r as nat == slot_of(name_views(names@), x@),
        r < names.len(),
{
    let ghost nv = name_views(names@);
    let mut k: usize = 0;
    while k < names.len()
        invariant
            0 <= k <= names.len(),
            nv == name_views(names@),
            nv.contains(x@),
            forall|j: int| 0 <= j < k ==> nv[j] != x@,
        decreases names.len() - k,
    {
        if names[k] == *x {
            proof {
                lemma_slot_of(nv, x@, k as int);
            }
            return k;
        }
        k = k + 1;
    }
    proof {
        let j = choose|j: int| 0 <= j < nv.len() && nv[j] == x@;
    }
    0
}

/// Lowers the two operands of a numeric operator, each coerced to a number
/// unless it is statically one.
fn compile_operands(l: TypedExpr, r: TypedExpr, names: &Vec<String>, Ghost(whole): Ghost<TypedExpr>) -> (c: Vec<Insn>)
    requires
        decreases_to!(whole => l),
        decreases_to!(whole => r),
        expr_code(l, name_views(names@)).len() + expr_code(r, name_views(names@)).len() + 1 <= usize::MAX,
        expr_vars(l).subset_of(name_views(names@).to_set()),
        expr_vars(r).subset_of(name_views(names@).to_set()),
    ensures
        c@ == expr_code(l, name_views(names@)) + coerce(l.typ) + expr_code(r, name_views(names@)) + coerce(
            r.typ,
        ),
    decreases whole, 0nat,
{
    let ghost nv = name_views(names@);
    let ghost (l0, r0) = (l, r);
    let (lt, rt) = (l.typ, r.typ);
    let mut c = compile_expr(l, names);
    if lt != AwkT::Float {
        c.push(Insn::ToNum);
    }
    let mut rc = compile_expr(r, names);
    c.append(&mut rc);
    if rt != AwkT::Float {
        c.push(Insn::ToNum);
    }
    proof {
        assert(c@ =~= expr_code(l0, nv) + coerce(l0.typ) + expr_code(r0, nv) + coerce(r0.typ));
    }
    c
}

/// Lowers a short-circuit operator: the right operand runs only when the
/// left one does not decide the result.
fn compile_logical(
    l: TypedExpr,
    op: LogicalOp,
    r: TypedExpr,
    names: &Vec<String>,
    Ghost(whole): Ghost<TypedExpr>,
) -> (c: Vec<Insn>)
    requires
        decreases_to!(whole => l),
        decreases_to!(whole => r),
        expr_code(l, name_views(names@)).len() + expr_code(r, name_views(names@)).len() + 5 <= usize::MAX,
        expr_vars(l).subset_of(name_views(names@).to_set()),
        expr_vars(r).subset_of(name_views(names@).to_set()),
    ensures
        c@ == expr_code(
            TypedExpr { expr: Expr::LogicalOp(Box::new(l), op, Box::new(r)), typ: AwkT::Float },
            name_views(names@),
        ),
    decreases whole, 0nat,
{
    let ghost nv = name_views(names@);
    let ghost (l0, r0) = (l, r);
    let mut c = compile_expr(l, names);
    let mut rc = compile_expr(r, names);
    let n = rc.len() + 3;
    match op {
        LogicalOp::And => {
            c.push(Insn::SkipIfFalse(n));
            c.append(&mut rc);
            c.push(Insn::SkipIfFalse(2));
            c.push(Insn::PushNum(FLOAT_ONE));
            c.push(Insn::Skip(1));
            c.push(Insn::PushNum(FLOAT_ZERO));
        },
        LogicalOp::Or => {
            c.push(Insn::SkipIfTrue(n));
            c.append(&mut rc);
            c.push(Insn::SkipIfTrue(2));
            c.push(Insn::PushNum(FLOAT_ZERO));
            c.push(Insn::Skip(1));
            c.push(Insn::PushNum(FLOAT_ONE));
        },
    }
    proof {
        assert(c@ =~= expr_code(
            TypedExpr { expr: Expr::LogicalOp(Box::new(l0), op, Box::new(r0)), typ: AwkT::Float },
            nv,
        ));
    }
    c
}

/// Lowers an expression to code that leaves its value on the stack; an
/// operand that is not statically a number is coerced before numeric use.
pub fn compile_expr(e: TypedExpr, names: &Vec<String>) -> (r: Vec<Insn>)
    requires
        expr_code(e, name_views(names@)).len() <= usize::MAX,
        expr_vars(e).subset_of(name_views(names@).to_set()),
    ensures
        r@ == expr_code(e, name_views(names@)),
    decreases e, 1nat,
{
    let ghost nv = name_views(names@);
    let ghost whole = e;
    let TypedExpr { expr, typ: _ } = e;
    match expr {
        Expr::Number(b) => vec![Insn::PushNum(b)],
        Expr::String(s) => vec![Insn::PushStr(s)],
        Expr::Variable(x) => {
            proof {
                assert(nv.to_set().contains(x@));
            }
            vec![Insn::Load(slot(names, &x))]
        },
        Expr::Assign(x, v) => {
            proof {
                assert(nv.to_set().contains(x@));
            }
            let k = slot(names, &x);
            let mut c = compile_expr(*v, names);
            c.push(Insn::Assign(k));
            proof {
                assert(c@ =~= expr_code(whole, nv));
            }
            c
        },
        Expr::MathOp(l, op, r) => {
            proof {
                assert(decreases_to!(whole => whole.expr));
            }
            let mut c = compile_operands(*l, *r, names, Ghost(whole));
            c.push(Insn::Arith(op));
            proof {
                assert(c@ =~= expr_code(whole, nv));
            }
            c
        },
        Expr::BinOp(l, op, r) => {
            proof {
                assert(decreases_to!(whole => whole.expr));
            }
            let mut c = compile_operands(*l, *r, names, Ghost(whole));
            c.push(Insn::Compare(op));
            proof {
                assert(c@ =~= expr_code(whole, nv));
            }
            c
        },
        Expr::LogicalOp(l, op, r) => {
            proof {
                assert(expr_code(whole, nv) == match op {
                    LogicalOp::And => expr_code(
                        TypedExpr { expr: Expr::LogicalOp(l, op, r), typ: AwkT::Float },
                        nv,
                    ),
                    LogicalOp::Or => expr_code(
                        TypedExpr { expr: Expr::LogicalOp(l, op, r), typ: AwkT::Float },
                        nv,
                    ),
                });
            }
            proof {
                assert(decreases_to!(whole => whole.expr));
            }
            compile_logical(*l, op, *r, names, Ghost(whole))
        },
        Expr::Column(col) => {
            let ct = col.typ;
            let mut c = compile_expr(*col, names);
            if ct != AwkT::Float {
                c.push(Insn::ToNum);
            }
            c.push(Insn::Field);
            proof {
                assert(c@ =~= expr_code(whole, nv));
            }
            c
        },
        Expr::Call => vec![Insn::NextRecord],
    }
}

/// Lowers a statement to code that leaves the stack as it found it.
pub fn compile_stmt(s: Stmt, names: &Vec<String>) -> (r: Vec<Insn>)
    requires
        stmt_code(s, name_views(names@)).len() <= usize::MAX,
        stmt_vars(s).subset_of(name_views(names@).to_set()),
    ensures
        r@ == stmt_code(s, name_views(names@)),
    decreases s,
{
    let ghost nv = name_views(names@);
    let ghost whole = s;
    match s {
        Stmt::Expr(e) => {
            let mut c = compile_expr(e, names);
            c.push(Insn::Pop);
            c
        },
        Stmt::Print(e) => {
            let mut c = compile_expr(e, names);
            c.push(Insn::Print);
            c
        },
        Stmt::Group(v) => {
            let ghost orig = v@;
            let ghost vec_whole = v;
            proof {
                broadcast use vstd::std_specs::vec::axiom_vec_decreases_to_view;
                assert(decreases_to!(vec_whole => orig));
            }
            let mut rest = v;
            assert(orig.len() == rest.len());
            let mut out: Vec<Insn> = Vec::new();
            let mut i: usize = 0;
            while rest.len() > 0
                invariant
                    i + rest.len() == orig.len(),
                    rest@ == orig.subrange(i as int, orig.len() as int),
                    out@ == group_code(orig, i as nat, nv),
                    group_code(orig, orig.len() as nat, nv).len() <= usize::MAX,
                    group_vars(orig, orig.len() as nat).subset_of(nv.to_set()),
                    nv == name_views(names@),
                    decreases_to!(vec_whole => orig),
                    s == Stmt::Group(vec_whole),
                    orig.len() <= usize::MAX,
                decreases rest.len(),
            {
                let first = rest.remove(0);
                proof {
                    assert(first == orig[i as int]);
                    assert(decreases_to!(s => s->Group_0));
                    assert(decreases_to!(orig => orig[i as int]));
                    lemma_group_code_mono(orig, (i + 1) as nat, orig.len() as nat, nv);
                    lemma_group_vars(orig, i as int, orig.len() as nat);
                }
                let mut c = compile_stmt(first, names);
                out.append(&mut c);
                i = i + 1;
            }
            out
        },
        Stmt::If(t, a, b) => {
            let mut c = compile_expr(t, names);
            let mut ac = compile_stmt(*a, names);
            match b {
                None => {
                    c.push(Insn::SkipIfFalse(ac.len()));
                    c.append(&mut ac);
                },
                Some(b) => {
                    let mut bc = compile_stmt(*b, names);
                    c.push(Insn::SkipIfFalse(ac.len() + 1));
                    c.append(&mut ac);
                    c.push(Insn::Skip(bc.len()));
                    c.append(&mut bc);
                },
            }
            proof {
                assert(c@ =~= stmt_code(whole, nv));
            }
            c
        },
        Stmt::While(t, b) => {
            let mut c = compile_expr(t, names);
            let tl = c.len();
            let mut bc = compile_stmt(*b, names);
            let bl = bc.len();
            c.push(Insn::SkipIfFalse(bl + 1));
            c.append(&mut bc);
            c.push(Insn::Back(tl + bl + 1));
            proof {
                assert(c@ =~= stmt_code(whole, nv));
            }
            c
        },
    }
}

/// A compiled routine: its code and the variable that each storage slot
/// holds.
pub struct Compiled {
    pub code: Vec<Insn>,
    pub names: Vec<String>,
}

/// Compiles a typed program into one routine: one zero-initialised slot per
/// distinct variable, and the lowered statement tree.
pub fn compile(prog: Stmt) -> (r: Compiled)
    requires
        stmt_code(prog, Seq::empty()).len() <= usize::MAX,
    ensures
        distinct_names(r.names@),
        name_views(r.names@).to_set() == stmt_vars(prog),
        r.code@ == stmt_code(prog, name_views(r.names@)),
        well_formed_code(r.code@, r.names@.len()),
        exists|d: Seq<int>| depths_ok(r.code@, d) && d[0] == 0 && d.last() == 0,
{
    let names = extract(&prog);
    proof {
        lemma_stmt_code_len(prog, Seq::empty(), name_views(names@));
        lemma_stmt_code_wf(prog, name_views(names@));
        let d = lemma_stmt_depths(prog, name_views(names@), 0);
    }
    let code = compile_stmt(prog, &names);
    Compiled { code, names }
}

} // verus!