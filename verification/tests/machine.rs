//! Runs lowered programs on a reference stack machine and checks the
//! run-time properties of the emitted code: statements leave the stack depth
//! unchanged, expressions net exactly one value, loops jump to the right
//! targets, and a ternary executes exactly one of its branches.

use irgen::ast::{BinaryOp, Decl, Expr, Func, Prog, Stmt, UnaryOp};
use irgen::ir::{ast2ir, IrFunc, IrStmt, LowerError};

fn prog(stmts: Vec<Stmt>) -> Prog {
    Prog { func: Func { name: "main".to_string(), stmts } }
}

fn lower_ok(stmts: Vec<Stmt>) -> IrFunc {
    ast2ir(&prog(stmts)).map(|p| p.func).expect("lowering should succeed")
}

fn lit(x: i32) -> Expr {
    Expr::Int(x)
}

fn var(n: &str) -> Expr {
    Expr::Var(n.to_string())
}

fn assign(n: &str, e: Expr) -> Expr {
    Expr::Assign(n.to_string(), Box::new(e))
}

fn bin(op: BinaryOp, l: Expr, r: Expr) -> Expr {
    Expr::Binary(op, Box::new(l), Box::new(r))
}

fn un(op: UnaryOp, x: Expr) -> Expr {
    Expr::Unary(op, Box::new(x))
}

fn tern(c: Expr, t: Expr, f: Expr) -> Expr {
    Expr::Condition(Box::new(c), Box::new(t), Box::new(f))
}

fn decl_init(n: &str, e: Expr) -> Stmt {
    Stmt::Decl(Decl { name: n.to_string(), init: Some(e) })
}

fn decl_plain(n: &str) -> Stmt {
    Stmt::Decl(Decl { name: n.to_string(), init: None })
}

fn apply_unary(op: UnaryOp, v: i32) -> i32 {
    match op {
        UnaryOp::Neg => v.wrapping_neg(),
        UnaryOp::BitNot => !v,
        UnaryOp::LogicNot => (v == 0) as i32,
    }
}

fn apply_binary(op: BinaryOp, l: i32, r: i32) -> i32 {
    match op {
        BinaryOp::Add => l.wrapping_add(r),
        BinaryOp::Sub => l.wrapping_sub(r),
        BinaryOp::Mul => l.wrapping_mul(r),
        BinaryOp::Div => l / r,
        BinaryOp::Mod => l % r,
        BinaryOp::Lt => (l < r) as i32,
        BinaryOp::Le => (l <= r) as i32,
        BinaryOp::Gt => (l > r) as i32,
        BinaryOp::Ge => (l >= r) as i32,
        BinaryOp::Equal => (l == r) as i32,
        BinaryOp::NotEqual => (l != r) as i32,
        BinaryOp::And => ((l != 0) && (r != 0)) as i32,
        BinaryOp::Or => ((l != 0) || (r != 0)) as i32,
    }
}

struct RunResult {
    ret: i32,
    const_execs: usize,
}

/// Executes a lowered function on the reference stack machine, checking on
/// the way that the stack never underflows and holds exactly the return
/// value when the function returns.
fn run(f: &IrFunc) -> RunResult {
    let mut labels = std::collections::HashMap::new();
    for (idx, ins) in f.stmts.iter().enumerate() {
        if let IrStmt::Label(l) = ins {
            let previous = labels.insert(*l, idx);
            assert!(previous.is_none(), "a label id must be placed only once");
        }
    }
    let mut stack: Vec<i32> = Vec::new();
    let mut locals = vec![0i32; f.var_cnt as usize];
    let mut pc: usize = 0;
    let mut steps: usize = 0;
    let mut const_execs: usize = 0;
    loop {
        assert!(steps < 100_000, "execution did not terminate");
        steps += 1;
        assert!(pc < f.stmts.len(), "execution fell off the end of the code");
        match f.stmts[pc] {
            IrStmt::Const(x) => {
                stack.push(x);
                const_execs += 1;
            }
            IrStmt::Unary(op) => {
                let v = stack.pop().expect("stack underflow");
                stack.push(apply_unary(op, v));
            }
            IrStmt::Binary(op) => {
                let r = stack.pop().expect("stack underflow");
                let l = stack.pop().expect("stack underflow");
                stack.push(apply_binary(op, l, r));
            }
            IrStmt::LocalAddr(id) => stack.push(id as i32),
            IrStmt::Load => {
                let a = stack.pop().expect("stack underflow");
                stack.push(locals[a as usize]);
            }
            IrStmt::Store => {
                let a = stack.pop().expect("stack underflow");
                let v = stack.pop().expect("stack underflow");
                locals[a as usize] = v;
                stack.push(v);
            }
            IrStmt::Label(_) => {}
            IrStmt::Bz(l) => {
                let v = stack.pop().expect("stack underflow");
                if v == 0 {
                    pc = labels[&l];
                }
            }
            IrStmt::Bnz(l) => {
                let v = stack.pop().expect("stack underflow");
                if v != 0 {
                    pc = labels[&l];
                }
            }
            IrStmt::Jump(l) => pc = labels[&l],
            IrStmt::Pop => {
                stack.pop().expect("stack underflow");
            }
            IrStmt::Ret => {
                let v = stack.pop().expect("stack underflow");
                assert!(
                    stack.is_empty(),
                    "statements must leave the stack depth unchanged"
                );
                return RunResult { ret: v, const_execs };
            }
        }
        pc += 1;
    }
}

fn run_ret(stmts: Vec<Stmt>) -> i32 {
    run(&lower_ok(stmts)).ret
}

#[test]
fn test_run_sum() {
    let r = run_ret(vec![
        decl_init("a", lit(1)),
        decl_init("b", lit(2)),
        Stmt::Ret(bin(BinaryOp::Add, var("a"), var("b"))),
    ]);
    assert_eq!(r, 3);
}

#[test]
fn test_run_implicit_return_zero() {
    assert_eq!(run_ret(vec![Stmt::Expr(lit(1))]), 0);
}

#[test]
fn test_run_operators() {
    // 2*3 + 4/2 - 5%3 == 6
    let r = run_ret(vec![Stmt::Ret(bin(
        BinaryOp::Sub,
        bin(
            BinaryOp::Add,
            bin(BinaryOp::Mul, lit(2), lit(3)),
            bin(BinaryOp::Div, lit(4), lit(2)),
        ),
        bin(BinaryOp::Mod, lit(5), lit(3)),
    ))]);
    assert_eq!(r, 6);
    let r2 = run_ret(vec![Stmt::Ret(bin(
        BinaryOp::Or,
        bin(BinaryOp::And, lit(1), lit(0)),
        bin(BinaryOp::Lt, lit(2), lit(3)),
    ))]);
    assert_eq!(r2, 1);
    assert_eq!(run_ret(vec![Stmt::Ret(un(UnaryOp::LogicNot, lit(0)))]), 1);
    assert_eq!(run_ret(vec![Stmt::Ret(un(UnaryOp::BitNot, lit(0)))]), -1);
    assert_eq!(run_ret(vec![Stmt::Ret(un(UnaryOp::Neg, lit(7)))]), -7);
    assert_eq!(
        run_ret(vec![Stmt::Ret(bin(BinaryOp::Ge, lit(3), lit(3)))]),
        1
    );
    assert_eq!(
        run_ret(vec![Stmt::Ret(bin(BinaryOp::NotEqual, lit(3), lit(3)))]),
        0
    );
}

#[test]
fn test_run_assignment_has_a_value() {
    // return x = 7; the store leaves the assigned value on the stack.
    let r = run_ret(vec![decl_plain("x"), Stmt::Ret(assign("x", lit(7)))]);
    assert_eq!(r, 7);
}

#[test]
fn test_run_if_both_ways() {
    let branchy = |c: i32| {
        vec![Stmt::If(
            lit(c),
            Box::new(Stmt::Ret(lit(10))),
            Some(Box::new(Stmt::Ret(lit(20)))),
        )]
    };
    assert_eq!(run_ret(branchy(1)), 10);
    assert_eq!(run_ret(branchy(0)), 20);
}

#[test]
fn test_run_shadowing() {
    // int x = 1; { int x = 2; } return x; -> the outer binding is intact.
    let r = run_ret(vec![
        decl_init("x", lit(1)),
        Stmt::Block(vec![decl_init("x", lit(2))]),
        Stmt::Ret(var("x")),
    ]);
    assert_eq!(r, 1);
    // int x = 1; int y = 0; { int x = 2; y = x; } return y; -> inner x wins
    // inside the block.
    let r2 = run_ret(vec![
        decl_init("x", lit(1)),
        decl_init("y", lit(0)),
        Stmt::Block(vec![decl_init("x", lit(2)), Stmt::Expr(assign("y", var("x")))]),
        Stmt::Ret(var("y")),
    ]);
    assert_eq!(r2, 2);
    // int x = 1; { x = 2; } return x; -> without shadowing, the inner
    // assignment reaches the outer slot.
    let r3 = run_ret(vec![
        decl_init("x", lit(1)),
        Stmt::Block(vec![Stmt::Expr(assign("x", lit(2)))]),
        Stmt::Ret(var("x")),
    ]);
    assert_eq!(r3, 2);
}

#[test]
fn test_run_dowhile_counts() {
    // int i = 0; do { i = i + 1; } while (i < 3); return i; -> 3, and the
    // body runs at least once even when the condition is false at entry.
    let r = run_ret(vec![
        decl_init("i", lit(0)),
        Stmt::DoWhile(
            Box::new(Stmt::Expr(assign("i", bin(BinaryOp::Add, var("i"), lit(1))))),
            bin(BinaryOp::Lt, var("i"), lit(3)),
        ),
        Stmt::Ret(var("i")),
    ]);
    assert_eq!(r, 3);
    let once = run_ret(vec![
        decl_init("i", lit(10)),
        Stmt::DoWhile(
            Box::new(Stmt::Expr(assign("i", bin(BinaryOp::Add, var("i"), lit(1))))),
            bin(BinaryOp::Lt, var("i"), lit(3)),
        ),
        Stmt::Ret(var("i")),
    ]);
    assert_eq!(once, 11);
}

#[test]
fn test_run_dowhile_continue_reaches_condition() {
    // int i = 0; do { i = i + 1; continue; } while (i < 3); return i;
    // continue must jump to the re-evaluation of the condition, so the loop
    // still terminates with i == 3.
    let r = run_ret(vec![
        decl_init("i", lit(0)),
        Stmt::DoWhile(
            Box::new(Stmt::Block(vec![
                Stmt::Expr(assign("i", bin(BinaryOp::Add, var("i"), lit(1)))),
                Stmt::Continue,
            ])),
            bin(BinaryOp::Lt, var("i"), lit(3)),
        ),
        Stmt::Ret(var("i")),
    ]);
    assert_eq!(r, 3);
}

#[test]
fn test_run_dowhile_break_leaves_loop() {
    // int i = 0; do { i = i + 1; if (i == 2) break; } while (1); return i;
    let r = run_ret(vec![
        decl_init("i", lit(0)),
        Stmt::DoWhile(
            Box::new(Stmt::Block(vec![
                Stmt::Expr(assign("i", bin(BinaryOp::Add, var("i"), lit(1)))),
                Stmt::If(
                    bin(BinaryOp::Equal, var("i"), lit(2)),
                    Box::new(Stmt::Break),
                    None,
                ),
            ])),
            lit(1),
        ),
        Stmt::Ret(var("i")),
    ]);
    assert_eq!(r, 2);
}

#[test]
fn test_run_for_continue_still_updates() {
    // int s = 0; int i = 0; for (; i < 5; i = i + 1) { if (i == 2) continue;
    // s = s + i; } return s; -> 0+1+3+4 == 8; continue must route through
    // the update expression or the loop would never terminate.
    let r = run_ret(vec![
        decl_init("s", lit(0)),
        decl_init("i", lit(0)),
        Stmt::For {
            cond: Some(bin(BinaryOp::Lt, var("i"), lit(5))),
            update: Some(assign("i", bin(BinaryOp::Add, var("i"), lit(1)))),
            body: Box::new(Stmt::Block(vec![
                Stmt::If(
                    bin(BinaryOp::Equal, var("i"), lit(2)),
                    Box::new(Stmt::Continue),
                    None,
                ),
                Stmt::Expr(assign("s", bin(BinaryOp::Add, var("s"), var("i")))),
            ])),
        },
        Stmt::Ret(var("s")),
    ]);
    assert_eq!(r, 8);
}

#[test]
fn test_run_for_break_and_no_cond() {
    // int i = 0; for (;;) { i = i + 1; if (i == 4) break; } return i;
    let r = run_ret(vec![
        decl_init("i", lit(0)),
        Stmt::For {
            cond: None,
            update: None,
            body: Box::new(Stmt::Block(vec![
                Stmt::Expr(assign("i", bin(BinaryOp::Add, var("i"), lit(1)))),
                Stmt::If(
                    bin(BinaryOp::Equal, var("i"), lit(4)),
                    Box::new(Stmt::Break),
                    None,
                ),
            ])),
        },
        Stmt::Ret(var("i")),
    ]);
    assert_eq!(r, 4);
}

#[test]
fn test_run_ternary_takes_one_branch() {
    // int x; x = (5 ? 1 : 2); return x; -> 1, and exactly two Const
    // instructions execute (the condition and one branch literal).
    let t = lower_ok(vec![
        decl_plain("x"),
        Stmt::Expr(assign("x", tern(lit(5), lit(1), lit(2)))),
        Stmt::Ret(var("x")),
    ]);
    let rt = run(&t);
    assert_eq!(rt.ret, 1);
    assert_eq!(rt.const_execs, 2);
    let e = lower_ok(vec![
        decl_plain("x"),
        Stmt::Expr(assign("x", tern(lit(0), lit(1), lit(2)))),
        Stmt::Ret(var("x")),
    ]);
    let re = run(&e);
    assert_eq!(re.ret, 2);
    assert_eq!(re.const_execs, 2);
}

#[test]
fn test_run_binary_evaluates_left_then_right() {
    // int x = 1; return (x = 2) + x; both operands are fully evaluated,
    // left strictly before right, so the right operand sees the store.
    let r = run_ret(vec![
        decl_init("x", lit(1)),
        Stmt::Ret(bin(BinaryOp::Add, assign("x", lit(2)), var("x"))),
    ]);
    assert_eq!(r, 4);
}

#[test]
fn test_run_no_short_circuit() {
    // (0 && (x = 1)) evaluates the right operand too: x ends up 1.
    let r = run_ret(vec![
        decl_init("x", lit(0)),
        Stmt::Expr(bin(BinaryOp::And, lit(0), assign("x", lit(1)))),
        Stmt::Ret(var("x")),
    ]);
    assert_eq!(r, 1);
}

#[test]
fn test_errors_are_reported_not_lowered() {
    let r = ast2ir(&prog(vec![Stmt::DoWhile(Box::new(Stmt::Empty), var("q"))]));
    assert_eq!(
        r.map(|p| p.func.stmts).unwrap_err(),
        LowerError::UnboundVariable("q".to_string())
    );
}
