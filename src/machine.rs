use vstd::prelude::*;
use vstd::utf8::encode_utf8;
use crate::ast::{MathOp, BinOp};
use crate::codegen::{Insn, Compiled, stmt_code, expr_code, slot_of, lemma_and_skips_right, well_formed_code, insn_ok};
use crate::ast::LogicalOp;
use crate::ast::{Expr, Stmt, TypedExpr};
use crate::lattice::AwkT;
use crate::columns::Columns;
use crate::text::bytes_of;
use crate::depth::{depths_ok, insn_depth_ok};
use crate::value::{Value, Scalar, FLOAT_ONE, FLOAT_ZERO, truthy, truthy_spec, copy_value};

verus! {

/// What the machine waits for from its host before it can go on.
#[derive(Clone, Copy, Debug, PartialEq, Eq, Structural)]
pub enum Await {
    Nothing,
    /// A number: the parsed string or the arithmetic result asked for.
    Number,
    /// The outcome of the comparison asked for.
    Truth,
    /// The field index that the number asked about rounds to.
    Field,
}

/// What one step of the machine asks of its host.
#[derive(Debug)]
pub enum Action {
    /// An instruction was carried out; step again.
    Continue,
    /// The routine has finished.
    Halt,
    /// The code is malformed at this point (a stack or slot out of range, a
    /// jump out of the routine, a string where a number must be); nothing
    /// was changed.
    Fault,
    /// Print these bytes.
    Output(Vec<u8>),
    /// Print this number (IEEE-754 bits) followed by a newline.
    PrintNumber(u64),
    /// Parse this text as a number and hand it back with `resume_number`;
    /// malformed numeric text is fatal.
    ParseNumber(Vec<u8>),
    /// Compute this operation on two numbers and hand it back with
    /// `resume_number`.
    Arith(MathOp, u64, u64),
    /// Compare two numbers and hand the outcome back with `resume_truth`.
    Compare(BinOp, u64, u64),
    /// Round this number to a field index and hand it back with
    /// `resume_field`.
    FieldIndex(u64),
}

/// Overwriting a slot frees what it held: no step changes the number of
/// slots, so however many assignments a run makes, its variables hold at
/// most one payload each.
pub proof fn lemma_step_keeps_slots(m0: Machine, m1: Machine, r: Action)
    requires
        Machine::step_post(m0, m1, r),
    ensures
        m1.slots().len() == m0.slots().len(),
{
}

/// On well-formed code (as `compile` produces) no step faults for want of
/// a slot or for a jump out of the routine: a fault can only come from an
/// instruction that reads the operand stack when the stack lacks what it
/// reads.
pub proof fn lemma_well_formed_faults(m0: Machine, m1: Machine, r: Action)
    requires
        Machine::step_post(m0, m1, r),
        well_formed_code(m0.code(), m0.slots().len()),
        0 <= m0.pc(),
        r is Fault,
    ensures
        m0.pc() < m0.code().len(),
        !(m0.code()[m0.pc()] is Load || m0.code()[m0.pc()] is Skip || m0.code()[m0.pc()] is Back
            || m0.code()[m0.pc()] is PushNum || m0.code()[m0.pc()] is PushStr || m0.code()[m0.pc()] is NextRecord),
        (m0.code()[m0.pc()] is Assign || m0.code()[m0.pc()] is SkipIfFalse || m0.code()[m0.pc()] is SkipIfTrue
            || m0.code()[m0.pc()] is Pop || m0.code()[m0.pc()] is Print || m0.code()[m0.pc()] is ToNum)
            ==> m0.stack().len() == 0,
{
    let pc = m0.pc();
    assert(insn_ok(m0.code()[pc], pc, m0.code().len() as int, m0.slots().len()));
}

/// Running depth-consistent, well-formed code (as `compile` produces) from
/// a stack as deep as the code expects: every step keeps the stack at the
/// depth expected where it leads (one short while the host is asked for a
/// value, which resuming pushes), and the only possible fault is a string
/// where an operator needs a number.
pub proof fn lemma_depth_step(m0: Machine, m1: Machine, r: Action, d: Seq<int>)
    requires
        Machine::step_post(m0, m1, r),
        depths_ok(m0.code(), d),
        well_formed_code(m0.code(), m0.slots().len()),
        0 <= m0.pc() <= m0.code().len(),
        m0.stack().len() == d[m0.pc()],
    ensures
        0 <= m1.pc() <= m1.code().len(),
        (r is Continue || r is Halt || r is Output || r is PrintNumber) ==> m1.stack().len() == d[m1.pc()],
        (r is ParseNumber || r is Arith || r is Compare || r is FieldIndex) ==> m1.stack().len() + 1 == d[m1.pc()],
        r is Fault ==> (m0.code()[m0.pc()] is Arith || m0.code()[m0.pc()] is Compare || m0.code()[m0.pc()] is Field),
{
    reveal(depths_ok);
    let pc = m0.pc();
    if pc < m0.code().len() {
        assert(insn_depth_ok(m0.code()[pc], pc, d));
        assert(insn_ok(m0.code()[pc], pc, m0.code().len() as int, m0.slots().len()));
    }
}

/// Short circuit at run time: when the code of `l && r` sits at `base` and
/// the left operand has left a false value, the next step jumps over every
/// instruction of the right operand (a division in it is never asked for)
/// to the instruction that pushes 0.
pub proof fn lemma_and_short_circuits(
    l: TypedExpr,
    r: TypedExpr,
    typ: AwkT,
    names: Seq<Seq<char>>,
    base: int,
    m0: Machine,
    m1: Machine,
    act: Action,
)
    requires
        expr_code(r, names).len() + 3 <= usize::MAX,
        ({
            let code = expr_code(
                TypedExpr { expr: Expr::LogicalOp(Box::new(l), LogicalOp::And, Box::new(r)), typ },
                names,
            );
            &&& 0 <= base
            &&& base + code.len() <= m0.code().len()
            &&& m0.code().subrange(base, base + code.len()) == code
        }),
        m0.pc() == base + expr_code(l, names).len(),
        m0.stack().len() > 0,
        !truthy_spec(m0.stack().last()),
        Machine::step_post(m0, m1, act),
    ensures
        m1.pc() == base + expr_code(l, names).len() + 1 + expr_code(r, names).len() + 3,
        m1.code()[m1.pc()] == Insn::PushNum(FLOAT_ZERO),
        m1.stack() == m0.stack().drop_last(),
{
    lemma_and_skips_right(l, r, typ, names);
    let code = expr_code(
        TypedExpr { expr: Expr::LogicalOp(Box::new(l), LogicalOp::And, Box::new(r)), typ },
        names,
    );
    let a = expr_code(l, names).len() as int;
    let b = expr_code(r, names).len() as int;
    assert(m0.code()[base + a] == code[a]);
    assert(m0.code()[base + a + 1 + b + 3] == code[a + 1 + b + 3]);
}

/// The statement `x = "text"` compiles to three instructions, and running
/// them replaces the payload in `x`'s slot and leaves the stack as it was:
/// however many times a string slot is overwritten, the values alive stay
/// the slots plus the stack the statement started with.
pub proof fn lemma_string_assignment_replaces(
    x: String,
    text: String,
    typ: AwkT,
    typ2: AwkT,
    names: Seq<Seq<char>>,
    m0: Machine,
    m1: Machine,
    m2: Machine,
    m3: Machine,
    r1: Action,
    r2: Action,
    r3: Action,
)
    requires
        ({
            let stmt = Stmt::Expr(
                TypedExpr {
                    expr: Expr::Assign(x, Box::new(TypedExpr { expr: Expr::String(text), typ: typ2 })),
                    typ,
                },
            );
            let code = stmt_code(stmt, names);
            &&& m0.pc() + 3 <= m0.code().len()
            &&& m0.code().subrange(m0.pc(), m0.pc() + 3) == code
        }),
        slot_of(names, x@) < m0.slots().len(),
        slot_of(names, x@) <= usize::MAX,
        Machine::step_post(m0, m1, r1),
        Machine::step_post(m1, m2, r2),
        Machine::step_post(m2, m3, r3),
    ensures
        stmt_code(
            Stmt::Expr(
                TypedExpr {
                    expr: Expr::Assign(x, Box::new(TypedExpr { expr: Expr::String(text), typ: typ2 })),
                    typ,
                },
            ),
            names,
        ) == seq![Insn::PushStr(text), Insn::Assign(slot_of(names, x@) as usize), Insn::Pop],
        m3.pc() == m0.pc() + 3,
        m3.stack() == m0.stack(),
        m3.slots() == m0.slots().update(slot_of(names, x@) as int, Scalar::Text(encode_utf8(text@))),
        m3.columns() == m0.columns(),
{
    let stmt = Stmt::Expr(
        TypedExpr {
            expr: Expr::Assign(x, Box::new(TypedExpr { expr: Expr::String(text), typ: typ2 })),
            typ,
        },
    );
    let inner = TypedExpr { expr: Expr::String(text), typ: typ2 };
    let assign = TypedExpr { expr: Expr::Assign(x, Box::new(inner)), typ };
    let code = stmt_code(stmt, names);
    assert(expr_code(inner, names) == seq![Insn::PushStr(text)]);
    assert(expr_code(assign, names) =~= seq![
        Insn::PushStr(text),
        Insn::Assign(slot_of(names, x@) as usize),
    ]);
    assert(code =~= seq![Insn::PushStr(text), Insn::Assign(slot_of(names, x@) as usize), Insn::Pop]);
    let p = m0.pc();
    assert(m0.code()[p] == code[0]);
    assert(m1.code()[p + 1] == code[1]);
    assert(m2.code()[p + 2] == code[2]);
    assert(m2.stack().drop_last() =~= m0.stack());
}

/// A printed string is followed by a newline unless it already ends in one.
pub open spec fn line_of(t: Seq<u8>) -> Seq<u8> {
    if t.len() > 0 && t.last() == 10u8 {
        t
    } else {
        t.push(10u8)
    }
}

/// The number that stands for a truth value.
pub open spec fn num_of(b: bool) -> u64 {
    if b {
        FLOAT_ONE
    } else {
        FLOAT_ZERO
    }
}

/// The machine that runs a compiled routine: code, program counter,
/// operand stack, one slot per variable, and the input cursor.
pub struct Machine {
    code: Vec<Insn>,
    pc: usize,
    stack: Vec<Value>,
    slots: Vec<Value>,
    columns: Columns,
    waiting: Await,
}

impl Machine {
    /// The routine being run.
    pub closed spec fn code(&self) -> Seq<Insn> {
        self.code@
    }

    /// The program counter.
    pub closed spec fn pc(&self) -> int {
        self.pc as int
    }

    /// The operand stack, bottom first.
    pub closed spec fn stack(&self) -> Seq<Scalar> {
        self.stack@.map_values(|v: Value| v@)
    }

    /// The variable slots.
    pub closed spec fn slots(&self) -> Seq<Scalar> {
        self.slots@.map_values(|v: Value| v@)
    }

    /// The input cursor.
    pub closed spec fn columns(&self) -> Columns {
        self.columns
    }

    /// What the machine waits for from its host.
    pub closed spec fn waiting(&self) -> Await {
        self.waiting
    }

    /// The machine's bookkeeping is consistent.
    pub closed spec fn wf(&self) -> bool {
        &&& self.pc <= self.code.len()
        &&& self.columns.wf()
    }

    /// `m1` is `m0` after an instruction that changed only the program
    /// counter and the stack.
    pub open spec fn moved(m0: Machine, m1: Machine, pc: int, stack: Seq<Scalar>) -> bool {
        &&& m1.pc() == pc
        &&& m1.stack() == stack
        &&& m1.slots() == m0.slots()
        &&& m1.columns() == m0.columns()
        &&& m1.waiting() == m0.waiting()
    }

    /// `m1` is `m0` after an instruction that popped what it reads and now
    /// waits for the host.
    pub open spec fn asked(m0: Machine, m1: Machine, popped: nat, w: Await) -> bool {
        &&& m1.pc() == m0.pc() + 1
        &&& m1.stack() == m0.stack().subrange(0, m0.stack().len() - popped)
        &&& m1.slots() == m0.slots()
        &&& m1.columns() == m0.columns()
        &&& m1.waiting() == w
    }

    /// One step, instruction by instruction.
    pub open spec fn step_post(m0: Machine, m1: Machine, r: Action) -> bool {
        let pc = m0.pc();
        let st = m0.stack();
        let n = st.len();
        let fault = r is Fault && m1 == m0;
        &&& m1.code() == m0.code()
        &&& if pc >= m0.code().len() {
            r is Halt && m1 == m0
        } else {
            match m0.code()[pc] {
                Insn::PushNum(b) => r is Continue && Machine::moved(m0, m1, pc + 1, st.push(Scalar::Num(b))),
                Insn::PushStr(s) => r is Continue && Machine::moved(
                    m0,
                    m1,
                    pc + 1,
                    st.push(Scalar::Text(encode_utf8(s@))),
                ),
                Insn::Load(k) => if k < m0.slots().len() {
                    r is Continue && Machine::moved(m0, m1, pc + 1, st.push(m0.slots()[k as int]))
                } else {
                    fault
                },
                Insn::Assign(k) => if k < m0.slots().len() && n > 0 {
                    &&& r is Continue
                    &&& m1.pc() == pc + 1
                    &&& m1.stack() == st
                    &&& m1.slots() == m0.slots().update(k as int, st.last())
                    &&& m1.columns() == m0.columns()
                    &&& m1.waiting() == m0.waiting()
                } else {
                    fault
                },
                Insn::Pop => if n > 0 {
                    r is Continue && Machine::moved(m0, m1, pc + 1, st.drop_last())
                } else {
                    fault
                },
                Insn::ToNum => if n > 0 {
                    match st.last() {
                        Scalar::Num(_) => r is Continue && Machine::moved(m0, m1, pc + 1, st),
                        Scalar::Text(t) => r is ParseNumber && r->ParseNumber_0@ == t && Machine::asked(
                            m0,
                            m1,
                            1,
                            Await::Number,
                        ),
                    }
                } else {
                    fault
                },
                Insn::Arith(op) => if n >= 2 && st[n - 2] is Num && st[n - 1] is Num {
                    r == Action::Arith(op, st[n - 2]->Num_0, st[n - 1]->Num_0) && Machine::asked(
                        m0,
                        m1,
                        2,
                        Await::Number,
                    )
                } else {
                    fault
                },
                Insn::Compare(op) => if n >= 2 && st[n - 2] is Num && st[n - 1] is Num {
                    r == Action::Compare(op, st[n - 2]->Num_0, st[n - 1]->Num_0) && Machine::asked(
                        m0,
                        m1,
                        2,
                        Await::Truth,
                    )
                } else {
                    fault
                },
                Insn::Field => if n > 0 && st.last() is Num {
                    r == Action::FieldIndex(st.last()->Num_0) && Machine::asked(m0, m1, 1, Await::Field)
                } else {
                    fault
                },
                Insn::NextRecord => {
                    let has = m0.columns().stream().len() > 0;
                    &&& r is Continue
                    &&& m1.pc() == pc + 1
                    &&& m1.stack() == st.push(Scalar::Num(num_of(has)))
                    &&& m1.slots() == m0.slots()
                    &&& Columns::advanced(m0.columns(), m1.columns(), has)
                    &&& m1.waiting() == m0.waiting()
                },
                Insn::Print => if n > 0 {
                    &&& match st.last() {
                        Scalar::Text(t) => r is Output && r->Output_0@ == line_of(t),
                        Scalar::Num(b) => r == Action::PrintNumber(b),
                    }
                    &&& Machine::moved(m0, m1, pc + 1, st.drop_last())
                } else {
                    fault
                },
                Insn::Skip(k) => if pc + 1 + k <= m0.code().len() {
                    r is Continue && Machine::moved(m0, m1, pc + 1 + k, st)
                } else {
                    fault
                },
                Insn::SkipIfFalse(k) => if n > 0 && pc + 1 + k <= m0.code().len() {
                    r is Continue && Machine::moved(
                        m0,
                        m1,
                        if truthy_spec(st.last()) { pc + 1 } else { pc + 1 + k },
                        st.drop_last(),
                    )
                } else {
                    fault
                },
                Insn::SkipIfTrue(k) => if n > 0 && pc + 1 + k <= m0.code().len() {
                    r is Continue && Machine::moved(
                        m0,
                        m1,
                        if truthy_spec(st.last()) { pc + 1 + k } else { pc + 1 },
                        st.drop_last(),
                    )
                } else {
                    fault
                },
                Insn::Back(k) => if k <= pc {
                    r is Continue && Machine::moved(m0, m1, pc - k, st)
                } else {
                    fault
                },
            }
        }
    }

    /// A machine ready to run `compiled` against `columns`: every slot
    /// holds the number 0, the stack is empty, the program counter is at
    /// the start.
    pub fn new(compiled: Compiled, columns: Columns) -> (m: Machine)
        requires
            columns.wf(),
        ensures
            m.wf(),
            m.code() == compiled.code@,
            m.pc() == 0,
            m.stack() == Seq::<Scalar>::empty(),
            m.slots() == Seq::new(compiled.names@.len(), |i: int| Scalar::Num(FLOAT_ZERO)),
            m.columns() == columns,
            m.waiting() == Await::Nothing,
    {
        let mut slots: Vec<Value> = Vec::new();
        let mut i: usize = 0;
        while i < compiled.names.len()
            invariant
                0 <= i <= compiled.names.len(),
                slots@.map_values(|v: Value| v@) == Seq::new(i as nat, |j: int| Scalar::Num(FLOAT_ZERO)),
            decreases compiled.names.len() - i,
        {
            let ghost before = slots@;
            slots.push(Value::Float(FLOAT_ZERO));
            proof {
                assert(slots@.map_values(|v: Value| v@) =~= before.map_values(|v: Value| v@).push(
                    Scalar::Num(FLOAT_ZERO),
                ));
                assert(slots@.map_values(|v: Value| v@) =~= Seq::new((i + 1) as nat, |j: int| Scalar::Num(FLOAT_ZERO)));
            }
            i = i + 1;
        }
        let m = Machine { code: compiled.code, pc: 0, stack: Vec::new(), slots, columns, waiting: Await::Nothing };
        proof {
            assert(m.stack@.map_values(|v: Value| v@) =~= Seq::<Scalar>::empty());
        }
        m
    }

    /// Pushes a value on the operand stack.
    fn push(&mut self, v: Value)
        ensures
            final(self).stack() == old(self).stack().push(v@),
            final(self).code == old(self).code,
            final(self).pc == old(self).pc,
            final(self).slots == old(self).slots,
            final(self).columns == old(self).columns,
            final(self).waiting == old(self).waiting,
    {
        self.stack.push(v);
        proof {
            assert(self.stack() =~= old(self).stack().push(v@));
        }
    }

    /// Pops the top of the operand stack.
    fn pop(&mut self) -> (v: Value)
        requires
            old(self).stack.len() > 0,
        ensures
            v@ == old(self).stack().last(),
            final(self).stack() == old(self).stack().drop_last(),
            final(self).stack.len() == old(self).stack.len() - 1,
            final(self).code == old(self).code,
            final(self).pc == old(self).pc,
            final(self).slots == old(self).slots,
            final(self).columns == old(self).columns,
            final(self).waiting == old(self).waiting,
    {
        let v = self.stack.pop().unwrap();
        proof {
            assert(self.stack() =~= old(self).stack().drop_last());
        }
        v
    }

    /// Carries out the instruction at the program counter.
    pub fn step(&mut self) -> (r: Action)
        requires
            old(self).wf(),
            old(self).waiting() == Await::Nothing,
        ensures
            final(self).wf(),
            Machine::step_post(*old(self), *final(self), r),
    {
        let pc = self.pc;
        if pc >= self.code.len() {
            return Action::Halt;
        }
        let n = self.stack.len();
        proof {
            assert(self.stack().len() == n);
        }
        match &self.code[pc] {
            Insn::PushNum(b) => {
                let b = *b;
                self.push(Value::Float(b));
                self.pc = pc + 1;
                Action::Continue
            },
            Insn::PushStr(s) => {
                let bytes = bytes_of(s.as_str());
                self.push(Value::Str(bytes));
                self.pc = pc + 1;
                Action::Continue
            },
            Insn::Load(k) => {
                let k = *k;
                if k >= self.slots.len() {
                    return Action::Fault;
                }
                let v = copy_value(&self.slots[k]);
                self.push(v);
                self.pc = pc + 1;
                Action::Continue
            },
            Insn::Assign(k) => {
                let k = *k;
                if k >= self.slots.len() || n == 0 {
                    return Action::Fault;
                }
                let v = copy_value(&self.stack[n - 1]);
                self.slots.set(k, v);
                proof {
                    assert(self.slots() =~= old(self).slots().update(k as int, old(self).stack().last()));
                }
                self.pc = pc + 1;
                Action::Continue
            },
            Insn::Pop => {
                if n == 0 {
                    return Action::Fault;
                }
                let _ = self.pop();
                self.pc = pc + 1;
                Action::Continue
            },
            Insn::ToNum => {
                if n == 0 {
                    return Action::Fault;
                }
                if let Value::Float(_) = &self.stack[n - 1] {
                    self.pc = pc + 1;
                    return Action::Continue;
                }
                let v = self.pop();
                self.pc = pc + 1;
                self.waiting = Await::Number;
                match v {
                    Value::Str(t) => Action::ParseNumber(t),
                    Value::Float(_) => Action::Fault,
                }
            },
            Insn::Arith(op) => {
                let op = *op;
                match self.pop_two_numbers() {
                    Some((a, b)) => {
                        self.pc = pc + 1;
                        self.waiting = Await::Number;
                        Action::Arith(op, a, b)
                    },
                    None => Action::Fault,
                }
            },
            Insn::Compare(op) => {
                let op = *op;
                match self.pop_two_numbers() {
                    Some((a, b)) => {
                        self.pc = pc + 1;
                        self.waiting = Await::Truth;
                        Action::Compare(op, a, b)
                    },
                    None => Action::Fault,
                }
            },
            Insn::Field => {
                if n == 0 {
                    return Action::Fault;
                }
                if let Value::Str(_) = &self.stack[n - 1] {
                    return Action::Fault;
                }
                let v = self.pop();
                self.pc = pc + 1;
                self.waiting = Await::Field;
                match v {
                    Value::Float(b) => Action::FieldIndex(b),
                    Value::Str(_) => Action::Fault,
                }
            },
            Insn::NextRecord => {
                let has = self.columns.next_line();
                self.push(Value::Float(if has { FLOAT_ONE } else { FLOAT_ZERO }));
                self.pc = pc + 1;
                Action::Continue
            },
            Insn::Print => {
                if n == 0 {
                    return Action::Fault;
                }
                let v = self.pop();
                self.pc = pc + 1;
                match v {
                    Value::Float(b) => Action::PrintNumber(b),
                    Value::Str(t) => {
                        let mut t = t;
                        if t.len() == 0 || t[t.len() - 1] != 10u8 {
                            t.push(10u8);
                        }
                        Action::Output(t)
                    },
                }
            },
            Insn::Skip(k) => {
                let k = *k;
                if k >= self.code.len() - pc {
                    return Action::Fault;
                }
                self.pc = pc + 1 + k;
                Action::Continue
            },
            Insn::SkipIfFalse(k) => {
                let k = *k;
                if n == 0 || k >= self.code.len() - pc {
                    return Action::Fault;
                }
                let v = self.pop();
                self.pc = if truthy(&v) { pc + 1 } else { pc + 1 + k };
                Action::Continue
            },
            Insn::SkipIfTrue(k) => {
                let k = *k;
                if n == 0 || k >= self.code.len() - pc {
                    return Action::Fault;
                }
                let v = self.pop();
                self.pc = if truthy(&v) { pc + 1 + k } else { pc + 1 };
                Action::Continue
            },
            Insn::Back(k) => {
                let k = *k;
                if k > pc {
                    return Action::Fault;
                }
                self.pc = pc - k;
                Action::Continue
            },
        }
    }

    /// Pops two numbers (the deeper one first in the result), or changes
    /// nothing if the top two entries are not both numbers.
    fn pop_two_numbers(&mut self) -> (r: Option<(u64, u64)>)
        ensures
            ({
                let st = old(self).stack();
                let n = st.len();
                if n >= 2 && st[n - 2] is Num && st[n - 1] is Num {
                    &&& r == Some((st[n - 2]->Num_0, st[n - 1]->Num_0))
                    &&& final(self).stack() == st.subrange(0, n - 2)
                } else {
                    r is None && *final(self) == *old(self)
                }
            }),
            final(self).code == old(self).code,
            final(self).pc == old(self).pc,
            final(self).slots == old(self).slots,
            final(self).columns == old(self).columns,
            final(self).waiting == old(self).waiting,
    {
        let n = self.stack.len();
        if n < 2 {
            return None;
        }
        let (a, b) = match (&self.stack[n - 2], &self.stack[n - 1]) {
            (Value::Float(a), Value::Float(b)) => (*a, *b),
            _ => return None,
        };
        let _ = self.pop();
        let _ = self.pop();
        proof {
            assert(self.stack() =~= old(self).stack().subrange(0, n - 2));
        }
        Some((a, b))
    }

    /// Hands back the number that the last step asked for.
    pub fn resume_number(&mut self, bits: u64)
        requires
            old(self).wf(),
            old(self).waiting() == Await::Number,
        ensures
            final(self).wf(),
            final(self).code() == old(self).code(),
            final(self).waiting() == Await::Nothing,
            final(self).pc() == old(self).pc(),
            final(self).stack() == old(self).stack().push(Scalar::Num(bits)),
            final(self).slots() == old(self).slots(),
            final(self).columns() == old(self).columns(),
    {
        self.push(Value::Float(bits));
        self.waiting = Await::Nothing;
    }

    /// Hands back the outcome of the comparison that the last step asked
    /// for; it is pushed as the number 1 or 0.
    pub fn resume_truth(&mut self, holds: bool)
        requires
            old(self).wf(),
            old(self).waiting() == Await::Truth,
        ensures
            final(self).wf(),
            final(self).code() == old(self).code(),
            final(self).waiting() == Await::Nothing,
            final(self).pc() == old(self).pc(),
            final(self).stack() == old(self).stack().push(Scalar::Num(num_of(holds))),
            final(self).slots() == old(self).slots(),
            final(self).columns() == old(self).columns(),
    {
        self.push(Value::Float(if holds { FLOAT_ONE } else { FLOAT_ZERO }));
        self.waiting = Await::Nothing;
    }

    /// Hands back the field index that the last step asked for; a fresh
    /// copy of that field of the current record is pushed.
    pub fn resume_field(&mut self, index: usize)
        requires
            old(self).wf(),
            old(self).waiting() == Await::Field,
        ensures
            final(self).wf(),
            final(self).code() == old(self).code(),
            final(self).waiting() == Await::Nothing,
            final(self).pc() == old(self).pc(),
            final(self).stack() == old(self).stack().push(Scalar::Text(old(self).columns().field(index))),
            final(self).slots() == old(self).slots(),
            final(self).columns() == old(self).columns(),
    {
        let text = self.columns.get(index);
        self.push(Value::Str(text));
        self.waiting = Await::Nothing;
    }
}

} // verus!