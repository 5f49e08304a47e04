use awkc::ast::{BinOp, Expr, LogicalOp, MathOp, Stmt, TypedExpr};
use awkc::codegen::compile;
use awkc::columns::Columns;
use awkc::machine::{Action, Machine};
use awkc::typing::analyze;

const ONE_LINE: &str = "1 2 3\n";
const NUMBERS: &str = "1 2 3\n4 5 6\n7 8 9";

fn num(f: f64) -> TypedExpr {
    TypedExpr::new(Expr::Number(f.to_bits()))
}

fn text(s: &str) -> TypedExpr {
    TypedExpr::new(Expr::String(s.to_string()))
}

fn var(name: &str) -> TypedExpr {
    TypedExpr::new(Expr::Variable(name.to_string()))
}

fn assign(name: &str, value: TypedExpr) -> TypedExpr {
    TypedExpr::new(Expr::Assign(name.to_string(), Box::new(value)))
}

fn math(l: TypedExpr, op: MathOp, r: TypedExpr) -> TypedExpr {
    TypedExpr::new(Expr::MathOp(Box::new(l), op, Box::new(r)))
}

fn cmp(l: TypedExpr, op: BinOp, r: TypedExpr) -> TypedExpr {
    TypedExpr::new(Expr::BinOp(Box::new(l), op, Box::new(r)))
}

fn logical(l: TypedExpr, op: LogicalOp, r: TypedExpr) -> TypedExpr {
    TypedExpr::new(Expr::LogicalOp(Box::new(l), op, Box::new(r)))
}

fn column(c: TypedExpr) -> TypedExpr {
    TypedExpr::new(Expr::Column(Box::new(c)))
}

fn if_else(t: TypedExpr, a: Stmt, b: Option<Stmt>) -> Stmt {
    Stmt::If(t, Box::new(a), b.map(Box::new))
}

/// A main rule `{ body }`: run once per record.
fn per_record(body: Vec<Stmt>) -> Stmt {
    Stmt::Group(vec![Stmt::While(
        TypedExpr::new(Expr::Call),
        Box::new(Stmt::Group(vec![Stmt::Group(body)])),
    )])
}

struct Run {
    output: String,
    arith_asked: usize,
}

fn run(prog: Stmt, input: &str) -> Run {
    let mut prog = prog;
    analyze(&mut prog);
    let compiled = compile(prog);
    let columns = Columns::new(vec![input.as_bytes().to_vec()]);
    let mut m = Machine::new(compiled, columns);
    let mut out: Vec<u8> = Vec::new();
    let mut arith_asked = 0;
    loop {
        match m.step() {
            Action::Continue => {}
            Action::Halt => break,
            Action::Fault => panic!("malformed code"),
            Action::Output(bytes) => out.extend(bytes),
            Action::PrintNumber(bits) => out.extend(format!("{}\n", f64::from_bits(bits)).bytes()),
            Action::ParseNumber(t) => {
                let v: f64 = std::str::from_utf8(&t).unwrap().trim().parse().unwrap();
                m.resume_number(v.to_bits());
            }
            Action::Arith(op, a, b) => {
                arith_asked += 1;
                let (a, b) = (f64::from_bits(a), f64::from_bits(b));
                let v = match op {
                    MathOp::Plus => a + b,
                    MathOp::Minus => a - b,
                    MathOp::Star => a * b,
                    MathOp::Slash => a / b,
                };
                m.resume_number(v.to_bits());
            }
            Action::Compare(op, a, b) => {
                let (a, b) = (f64::from_bits(a), f64::from_bits(b));
                let holds = match op {
                    BinOp::Greater => a > b,
                    BinOp::GreaterEq => a >= b,
                    BinOp::Less => a < b,
                    BinOp::LessEq => a <= b,
                    BinOp::BangEq => a != b,
                    BinOp::EqEq => a == b,
                };
                m.resume_truth(holds);
            }
            Action::FieldIndex(bits) => m.resume_field(f64::from_bits(bits).round() as usize),
        }
    }
    Run { output: String::from_utf8(out).unwrap(), arith_asked }
}

#[test]
fn test_print_int() {
    let prog = per_record(vec![Stmt::Print(num(1.0))]);
    assert_eq!(run(prog, ONE_LINE).output, "1\n");
}

#[test]
fn test_print_str() {
    let prog = per_record(vec![Stmt::Print(text("abc"))]);
    assert_eq!(run(prog, ONE_LINE).output, "abc\n");
}

#[test]
fn test_assignment_in_ifs() {
    let prog = per_record(vec![
        Stmt::Expr(assign("x", num(0.0))),
        if_else(
            num(1.0),
            Stmt::Expr(assign("x", num(1.0))),
            Some(Stmt::Expr(assign("x", num(2.2)))),
        ),
        Stmt::Print(var("x")),
    ]);
    assert_eq!(run(prog, ONE_LINE).output, "1\n");
}

#[test]
fn test_mixed_int_float_assignment() {
    let prog = per_record(vec![
        Stmt::Expr(assign("x", num(0.0))),
        if_else(
            var("x"),
            Stmt::Expr(assign("x", num(1.0))),
            Some(Stmt::Expr(assign("x", num(2.2)))),
        ),
        Stmt::Print(var("x")),
    ]);
    assert_eq!(run(prog, ONE_LINE).output, "2.2\n");
}

#[test]
fn test_column_access_1_line() {
    let prog = per_record(vec![
        Stmt::Print(column(num(1.0))),
        Stmt::Print(column(num(2.0))),
        Stmt::Print(column(num(3.0))),
        Stmt::Print(column(num(0.0))),
    ]);
    assert_eq!(run(prog, ONE_LINE).output, "1\n2\n3\n1 2 3\n");
}

#[test]
fn test_column_access_many_line() {
    let prog = per_record(vec![
        Stmt::Print(column(num(1.0))),
        Stmt::Print(column(num(2.0))),
        Stmt::Print(column(num(3.0))),
        Stmt::Print(column(num(0.0))),
    ]);
    assert_eq!(
        run(prog, NUMBERS).output,
        "1\n2\n3\n1 2 3\n4\n5\n6\n4 5 6\n7\n8\n9\n7 8 9\n"
    );
}

#[test]
fn test_while() {
    let prog = per_record(vec![
        Stmt::While(
            cmp(var("x"), BinOp::Less, num(4.0)),
            Box::new(Stmt::Group(vec![
                Stmt::Expr(assign("x", math(var("x"), MathOp::Plus, num(1.0)))),
                Stmt::Print(var("x")),
            ])),
        ),
        Stmt::Print(num(555.0)),
    ]);
    assert_eq!(run(prog, ONE_LINE).output, "1\n2\n3\n4\n555\n");
}

#[test]
fn test_short_circuit_and() {
    let prog = Stmt::Group(vec![Stmt::Print(logical(
        num(0.0),
        LogicalOp::And,
        math(num(4.0), MathOp::Slash, num(0.0)),
    ))]);
    let r = run(prog, ONE_LINE);
    assert_eq!(r.output, "0\n");
    assert_eq!(r.arith_asked, 0);
}

#[test]
fn test_short_circuit_or() {
    let prog = Stmt::Group(vec![Stmt::Print(logical(
        num(1.0),
        LogicalOp::Or,
        math(num(1.0), MathOp::Slash, num(0.0)),
    ))]);
    let r = run(prog, ONE_LINE);
    assert_eq!(r.output, "1\n");
    assert_eq!(r.arith_asked, 0);
}

#[test]
fn test_logical_evaluates_right_when_needed() {
    let prog = Stmt::Group(vec![
        Stmt::Print(logical(num(1.0), LogicalOp::And, math(num(4.0), MathOp::Minus, num(4.0)))),
        Stmt::Print(logical(num(0.0), LogicalOp::Or, text("x"))),
    ]);
    let r = run(prog, ONE_LINE);
    assert_eq!(r.output, "0\n1\n");
    assert_eq!(r.arith_asked, 1);
}

#[test]
fn test_int_plus_float() {
    let prog = per_record(vec![Stmt::Print(math(num(1.0), MathOp::Plus, num(1.1)))]);
    assert_eq!(run(prog, ONE_LINE).output, "2.1\n");
}

#[test]
fn test_mixed_addition() {
    let prog = Stmt::Group(vec![
        Stmt::Expr(assign("x", num(0.0))),
        Stmt::Expr(assign("x", math(var("x"), MathOp::Plus, text("123")))),
        Stmt::Expr(assign("x", math(var("x"), MathOp::Plus, num(5.0)))),
        Stmt::Print(var("x")),
    ]);
    assert_eq!(run(prog, ONE_LINE).output, "128\n");
}

#[test]
fn test_str_truthyness() {
    let branch = |t: &str| {
        per_record(vec![if_else(
            text(t),
            Stmt::Print(text("abc")),
            Some(Stmt::Print(text("cde"))),
        )])
    };
    assert_eq!(run(branch(""), ONE_LINE).output, "cde\n");
    assert_eq!(run(branch("a"), ONE_LINE).output, "abc\n");
    assert_eq!(run(branch("0"), ONE_LINE).output, "abc\n");
}

#[test]
fn test_float_truthyness() {
    let branch = |f: f64| {
        per_record(vec![if_else(
            num(f),
            Stmt::Print(text("abc")),
            Some(Stmt::Print(text("cde"))),
        )])
    };
    assert_eq!(run(branch(0.0), ONE_LINE).output, "cde\n");
    assert_eq!(run(branch(-0.0), ONE_LINE).output, "cde\n");
    assert_eq!(run(branch(1.0), ONE_LINE).output, "abc\n");
    assert_eq!(run(branch(100.0), ONE_LINE).output, "abc\n");
}

#[test]
fn test_print_col_big() {
    let prog = Stmt::Group(vec![
        Stmt::While(
            TypedExpr::new(Expr::Call),
            Box::new(Stmt::Expr(assign("a", column(num(44.0))))),
        ),
        Stmt::Print(var("a")),
    ]);
    assert_eq!(run(prog, NUMBERS).output, "\n");
}

#[test]
fn test_print_col2() {
    let prog = Stmt::Group(vec![
        Stmt::While(
            TypedExpr::new(Expr::Call),
            Box::new(Stmt::Expr(assign("a", column(num(2.0))))),
        ),
        Stmt::Print(var("a")),
    ]);
    assert_eq!(run(prog, NUMBERS).output, "8\n");
}

#[test]
fn test_comparisons() {
    let outcome = |l: f64, op: BinOp, r: f64| {
        let prog = Stmt::Group(vec![if_else(
            cmp(num(l), op, num(r)),
            Stmt::Print(num(123.0)),
            Some(Stmt::Print(num(456.0))),
        )]);
        run(prog, ONE_LINE).output
    };
    assert_eq!(outcome(0.0, BinOp::EqEq, 0.0), "123\n");
    assert_eq!(outcome(0.0, BinOp::EqEq, 1.0), "456\n");
    assert_eq!(outcome(0.0, BinOp::BangEq, 0.0), "456\n");
    assert_eq!(outcome(0.0, BinOp::Less, 123.0), "123\n");
    assert_eq!(outcome(1.0, BinOp::LessEq, 0.0), "456\n");
    assert_eq!(outcome(1.0, BinOp::Greater, 0.0), "123\n");
    assert_eq!(outcome(0.0, BinOp::GreaterEq, 1.0), "456\n");
}

#[test]
fn test_assignment_expr() {
    let prog = Stmt::Group(vec![
        Stmt::Expr(assign("x", assign("y", num(123.0)))),
        Stmt::Print(var("x")),
        Stmt::Print(var("y")),
    ]);
    assert_eq!(run(prog, ONE_LINE).output, "123\n123\n");
}

#[test]
fn test_string_slot_overwritten_many_times() {
    let mut body = Vec::new();
    for i in 0..50 {
        body.push(Stmt::Expr(assign("s", text(&format!("v{}", i)))));
    }
    body.push(Stmt::Print(var("s")));
    assert_eq!(run(Stmt::Group(body), ONE_LINE).output, "v49\n");
}
