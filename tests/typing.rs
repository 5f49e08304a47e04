use awkc::ast::{Expr, MathOp, Stmt, TypedExpr, BinOp};
use awkc::codegen::{compile, Insn};
use awkc::lattice::{merge_types, AwkT};
use awkc::typing::analyze;
use awkc::vars::extract;
use awkc::program::{transform, PatternAction, Program};

fn num(f: f64) -> TypedExpr {
    TypedExpr::new(Expr::Number(f.to_bits()))
}

fn text(s: &str) -> TypedExpr {
    TypedExpr::new(Expr::String(s.to_string()))
}

fn var(name: &str) -> TypedExpr {
    TypedExpr::new(Expr::Variable(name.to_string()))
}

fn assign(name: &str, value: TypedExpr) -> Stmt {
    Stmt::Expr(TypedExpr::new(Expr::Assign(name.to_string(), Box::new(value))))
}

fn column(c: TypedExpr) -> TypedExpr {
    TypedExpr::new(Expr::Column(Box::new(c)))
}

fn if_else(t: TypedExpr, a: Stmt, b: Option<Stmt>) -> Stmt {
    Stmt::If(t, Box::new(a), b.map(Box::new))
}

fn analyzed(stmts: Vec<Stmt>) -> Vec<Stmt> {
    let mut prog = Stmt::Group(stmts);
    analyze(&mut prog);
    match prog {
        Stmt::Group(v) => v,
        _ => panic!("analysis changed the program's shape"),
    }
}

fn typ_of(s: &Stmt) -> AwkT {
    match s {
        Stmt::Print(e) | Stmt::Expr(e) => e.typ,
        Stmt::If(t, _, _) | Stmt::While(t, _) => t.typ,
        Stmt::Group(_) => panic!("no expression"),
    }
}

fn then_branch(s: &Stmt) -> &Stmt {
    match s {
        Stmt::If(_, a, _) => a,
        _ => panic!("not an if"),
    }
}

#[test]
fn test_typing_basic() {
    let v = analyzed(vec![Stmt::Print(text("a"))]);
    assert_eq!(typ_of(&v[0]), AwkT::String);
}

#[test]
fn test_typing_basic2() {
    let v = analyzed(vec![Stmt::Print(num(123.0))]);
    assert_eq!(typ_of(&v[0]), AwkT::Float);
}

#[test]
fn test_if_basic() {
    let v = analyzed(vec![
        assign("a", num(1.0)),
        Stmt::Print(var("a")),
        if_else(column(num(1.0)), Stmt::Print(var("a")), None),
    ]);
    assert_eq!(typ_of(&v[0]), AwkT::Float);
    assert_eq!(typ_of(&v[1]), AwkT::Float);
    assert_eq!(typ_of(&v[2]), AwkT::String);
    match &v[2] {
        Stmt::If(t, _, _) => match &t.expr {
            Expr::Column(c) => assert_eq!(c.typ, AwkT::Float),
            _ => panic!("not a column"),
        },
        _ => panic!("not an if"),
    }
    assert_eq!(typ_of(then_branch(&v[2])), AwkT::Float);
}

#[test]
fn test_if_polluting() {
    let v = analyzed(vec![
        assign("a", num(1.0)),
        Stmt::Print(var("a")),
        if_else(column(num(1.0)), assign("a", text("a")), None),
        Stmt::Print(var("a")),
        Stmt::Print(var("a")),
    ]);
    assert_eq!(typ_of(&v[1]), AwkT::Float);
    assert_eq!(typ_of(then_branch(&v[2])), AwkT::String);
    assert_eq!(typ_of(&v[3]), AwkT::Variable);
    assert_eq!(typ_of(&v[4]), AwkT::Variable);
}

#[test]
fn test_if_nonpolluting() {
    let v = analyzed(vec![
        assign("a", num(1.0)),
        Stmt::Print(var("a")),
        if_else(column(num(1.0)), assign("a", num(5.0)), None),
        Stmt::Print(var("a")),
    ]);
    assert_eq!(typ_of(&v[1]), AwkT::Float);
    assert_eq!(typ_of(then_branch(&v[2])), AwkT::Float);
    assert_eq!(typ_of(&v[3]), AwkT::Float);
}

#[test]
fn test_ifelse_polluting() {
    let v = analyzed(vec![
        assign("a", num(1.0)),
        Stmt::Print(var("a")),
        if_else(column(num(1.0)), assign("a", num(5.0)), Some(assign("a", text("a")))),
        Stmt::Print(var("a")),
    ]);
    assert_eq!(typ_of(&v[1]), AwkT::Float);
    assert_eq!(typ_of(&v[3]), AwkT::Variable);
}

#[test]
fn test_ifelse_swapping() {
    let v = analyzed(vec![
        assign("a", num(1.0)),
        Stmt::Print(var("a")),
        if_else(column(num(1.0)), assign("a", text("a")), Some(assign("a", text("a")))),
        Stmt::Print(var("a")),
    ]);
    assert_eq!(typ_of(&v[1]), AwkT::Float);
    assert_eq!(typ_of(&v[3]), AwkT::String);
}

#[test]
fn test_ifelse_swapping_2() {
    let v = analyzed(vec![
        assign("a", text("a")),
        Stmt::Print(var("a")),
        if_else(column(num(1.0)), assign("a", num(3.0)), Some(assign("a", num(4.0)))),
        Stmt::Print(var("a")),
    ]);
    assert_eq!(typ_of(&v[1]), AwkT::String);
    assert_eq!(typ_of(&v[3]), AwkT::Float);
}

#[test]
fn test_if_else_polluting() {
    let v = analyzed(vec![
        assign("a", num(1.0)),
        Stmt::Print(var("a")),
        if_else(column(num(1.0)), assign("a", text("a")), Some(assign("a", text("a")))),
        Stmt::Print(var("a")),
    ]);
    assert_eq!(typ_of(&v[3]), AwkT::String);
}

#[test]
fn test_branch_only_assignment_is_variable() {
    let v = analyzed(vec![
        if_else(column(num(1.0)), assign("b", num(1.0)), None),
        Stmt::Print(var("b")),
    ]);
    assert_eq!(typ_of(&v[1]), AwkT::Variable);
}

#[test]
fn test_unassigned_read_is_float() {
    let v = analyzed(vec![Stmt::Print(var("never"))]);
    assert_eq!(typ_of(&v[0]), AwkT::Float);
}

#[test]
fn test_merge_types_table() {
    let (f, s, v) = (AwkT::Float, AwkT::String, AwkT::Variable);
    assert_eq!(merge_types(&f, &f), f);
    assert_eq!(merge_types(&s, &s), s);
    assert_eq!(merge_types(&f, &s), v);
    assert_eq!(merge_types(&s, &f), v);
    for x in [f, s, v] {
        assert_eq!(merge_types(&v, &x), v);
        assert_eq!(merge_types(&x, &v), v);
        for y in [f, s, v] {
            assert_eq!(merge_types(&x, &y), merge_types(&y, &x));
        }
    }
}

#[test]
fn test_loop_float_assignments_stay_float() {
    let v = analyzed(vec![
        assign("x", num(0.0)),
        Stmt::While(
            TypedExpr::new(Expr::BinOp(Box::new(var("x")), BinOp::Less, Box::new(num(3.0)))),
            Box::new(Stmt::Group(vec![
                if_else(var("x"), assign("x", num(1.0)), Some(assign("x", num(2.0)))),
                Stmt::Print(var("x")),
            ])),
        ),
        Stmt::Print(var("x")),
    ]);
    assert_eq!(typ_of(&v[2]), AwkT::Float);
    match &v[1] {
        Stmt::While(t, body) => {
            match &t.expr {
                Expr::BinOp(l, _, _) => assert_eq!(l.typ, AwkT::Float),
                _ => panic!("not a comparison"),
            }
            match &**body {
                Stmt::Group(b) => assert_eq!(typ_of(&b[1]), AwkT::Float),
                _ => panic!("not a group"),
            }
        }
        _ => panic!("not a loop"),
    }
}

#[test]
fn test_loop_promotion_seen_by_test() {
    let v = analyzed(vec![
        assign("x", num(0.0)),
        Stmt::While(
            var("x"),
            Box::new(Stmt::Group(vec![Stmt::Print(var("x")), assign("x", text("s"))])),
        ),
    ]);
    match &v[1] {
        Stmt::While(t, body) => {
            assert_eq!(t.typ, AwkT::Variable);
            match &**body {
                Stmt::Group(b) => assert_eq!(typ_of(&b[0]), AwkT::Variable),
                _ => panic!("not a group"),
            }
        }
        _ => panic!("not a loop"),
    }
}

#[test]
fn test_extract_distinct_in_order() {
    let prog = Stmt::Group(vec![
        assign("b", var("a")),
        Stmt::Print(var("b")),
        assign("c", var("a")),
    ]);
    assert_eq!(extract(&prog), vec!["b".to_string(), "a".to_string(), "c".to_string()]);
}

#[test]
fn test_compile_coerces_only_non_numbers() {
    let mut prog = Stmt::Group(vec![Stmt::Print(TypedExpr::new(Expr::MathOp(
        Box::new(num(1.0)),
        MathOp::Plus,
        Box::new(text("2")),
    )))]);
    analyze(&mut prog);
    let c = compile(prog);
    let kinds: Vec<String> = c.code.iter().map(|i| format!("{:?}", i)).collect();
    assert_eq!(kinds.len(), 5);
    assert!(matches!(c.code[0], Insn::PushNum(_)));
    assert!(matches!(c.code[1], Insn::PushStr(_)));
    assert!(matches!(c.code[2], Insn::ToNum));
    assert!(matches!(c.code[3], Insn::Arith(MathOp::Plus)));
    assert!(matches!(c.code[4], Insn::Print));
}

#[test]
fn test_compile_while_jumps() {
    let mut prog = Stmt::While(var("x"), Box::new(Stmt::Print(var("x"))));
    analyze(&mut prog);
    let c = compile(prog);
    assert_eq!(c.names, vec!["x".to_string()]);
    assert!(matches!(c.code[0], Insn::Load(0)));
    assert!(matches!(c.code[1], Insn::SkipIfFalse(3)));
    assert!(matches!(c.code[2], Insn::Load(0)));
    assert!(matches!(c.code[3], Insn::Print));
    assert!(matches!(c.code[4], Insn::Back(4)));
    assert_eq!(c.code.len(), 5);
}

#[test]
fn test_transform_layout() {
    let prog = Program::new(
        vec![Stmt::Print(num(1.0))],
        vec![Stmt::Print(num(3.0)), Stmt::Print(num(4.0))],
        vec![
            PatternAction::new_action_only(Stmt::Print(num(2.0))),
            PatternAction::new_pattern_only(var("p")),
        ],
    );
    match transform(prog) {
        Stmt::Group(v) => {
            assert_eq!(v.len(), 4);
            assert!(matches!(&v[0], Stmt::Print(_)));
            match &v[1] {
                Stmt::While(t, body) => {
                    assert!(matches!(t.expr, Expr::Call));
                    match &**body {
                        Stmt::Group(rules) => {
                            assert_eq!(rules.len(), 2);
                            assert!(matches!(&rules[0], Stmt::Print(_)));
                            assert!(matches!(&rules[1], Stmt::If(_, _, None)));
                        }
                        _ => panic!("rules are not a group"),
                    }
                }
                _ => panic!("no record loop"),
            }
            assert!(matches!(&v[3], Stmt::Print(_)));
        }
        _ => panic!("not a group"),
    }
}

#[test]
fn test_transform_begin_only() {
    match transform(Program::new(vec![Stmt::Print(num(1.0))], vec![], vec![])) {
        Stmt::Group(v) => {
            assert_eq!(v.len(), 1);
            assert!(matches!(&v[0], Stmt::Print(_)));
        }
        _ => panic!("not a group"),
    }
}
