use irgen::ast::{BinaryOp, Decl, Expr, Func, Prog, Stmt, UnaryOp};
use irgen::ir::{ast2ir, IrFunc, IrStmt, LowerError};

fn prog(stmts: Vec<Stmt>) -> Prog {
    Prog { func: Func { name: "main".to_string(), stmts } }
}

fn lower(stmts: Vec<Stmt>) -> Result<IrFunc, LowerError> {
    ast2ir(&prog(stmts)).map(|p| p.func)
}

fn lower_ok(stmts: Vec<Stmt>) -> IrFunc {
    lower(stmts).expect("lowering should succeed")
}

fn lit(x: i32) -> Expr {
    Expr::Int(x)
}

fn var(n: &str) -> Expr {
    Expr::Var(n.to_string())
}

fn assign(n: &str, e: Expr) -> Expr {
    Expr::Assign(n.to_string(), Box::new(e))
}

fn bin(op: BinaryOp, l: Expr, r: Expr) -> Expr {
    Expr::Binary(op, Box::new(l), Box::new(r))
}

fn tern(c: Expr, t: Expr, f: Expr) -> Expr {
    Expr::Condition(Box::new(c), Box::new(t), Box::new(f))
}

fn decl_init(n: &str, e: Expr) -> Stmt {
    Stmt::Decl(Decl { name: n.to_string(), init: Some(e) })
}

fn decl_plain(n: &str) -> Stmt {
    Stmt::Decl(Decl { name: n.to_string(), init: None })
}

#[test]
fn test_end_to_end_sum() {
    // { int a = 1; int b = 2; return a + b; }
    let f = lower_ok(vec![
        decl_init("a", lit(1)),
        decl_init("b", lit(2)),
        Stmt::Ret(bin(BinaryOp::Add, var("a"), var("b"))),
    ]);
    assert_eq!(f.var_cnt, 2);
    assert_eq!(
        f.stmts,
        vec![
            IrStmt::Const(1),
            IrStmt::LocalAddr(0),
            IrStmt::Store,
            IrStmt::Pop,
            IrStmt::Const(2),
            IrStmt::LocalAddr(1),
            IrStmt::Store,
            IrStmt::Pop,
            IrStmt::LocalAddr(0),
            IrStmt::Load,
            IrStmt::LocalAddr(1),
            IrStmt::Load,
            IrStmt::Binary(BinaryOp::Add),
            IrStmt::Ret,
        ]
    );
}

#[test]
fn test_implicit_return() {
    // { 1; } gets the implicit "push 0, return" after the statement's Pop.
    let f = lower_ok(vec![Stmt::Expr(lit(1))]);
    assert_eq!(
        f.stmts,
        vec![IrStmt::Const(1), IrStmt::Pop, IrStmt::Const(0), IrStmt::Ret]
    );
}

#[test]
fn test_empty_body_returns_zero() {
    let f = lower_ok(vec![]);
    assert_eq!(f.stmts, vec![IrStmt::Const(0), IrStmt::Ret]);
    assert_eq!(f.var_cnt, 0);
}

#[test]
fn test_explicit_return_not_duplicated() {
    let f = lower_ok(vec![Stmt::Ret(lit(5))]);
    assert_eq!(f.stmts, vec![IrStmt::Const(5), IrStmt::Ret]);
}

#[test]
fn test_unary_chain() {
    let f = lower_ok(vec![Stmt::Ret(Expr::Unary(UnaryOp::Neg, Box::new(lit(2))))]);
    assert_eq!(
        f.stmts,
        vec![IrStmt::Const(2), IrStmt::Unary(UnaryOp::Neg), IrStmt::Ret]
    );
}

#[test]
fn test_if_else_shape() {
    // if (1) 7; else 8;
    let f = lower_ok(vec![Stmt::If(
        lit(1),
        Box::new(Stmt::Expr(lit(7))),
        Some(Box::new(Stmt::Expr(lit(8)))),
    )]);
    assert_eq!(
        f.stmts,
        vec![
            IrStmt::Const(1),
            IrStmt::Bz(0),
            IrStmt::Const(7),
            IrStmt::Pop,
            IrStmt::Jump(1),
            IrStmt::Label(0),
            IrStmt::Const(8),
            IrStmt::Pop,
            IrStmt::Label(1),
            IrStmt::Const(0),
            IrStmt::Ret,
        ]
    );
}

#[test]
fn test_dowhile_break_shape() {
    // do { break; } while (1): break jumps past the condition re-evaluation.
    let f = lower_ok(vec![Stmt::DoWhile(Box::new(Stmt::Break), lit(1))]);
    assert_eq!(
        f.stmts,
        vec![
            IrStmt::Label(0),
            IrStmt::Jump(2),
            IrStmt::Label(1),
            IrStmt::Const(1),
            IrStmt::Bnz(0),
            IrStmt::Label(2),
            IrStmt::Const(0),
            IrStmt::Ret,
        ]
    );
}

#[test]
fn test_dowhile_continue_shape() {
    // do { continue; } while (0): continue jumps to the re-evaluation of the
    // condition, the label placed just before the condition's code.
    let f = lower_ok(vec![Stmt::DoWhile(Box::new(Stmt::Continue), lit(0))]);
    assert_eq!(
        f.stmts,
        vec![
            IrStmt::Label(0),
            IrStmt::Jump(1),
            IrStmt::Label(1),
            IrStmt::Const(0),
            IrStmt::Bnz(0),
            IrStmt::Label(2),
            IrStmt::Const(0),
            IrStmt::Ret,
        ]
    );
}

#[test]
fn test_for_continue_shape() {
    // for (; 0; 3) { continue; }: continue jumps to the update expression,
    // which runs before the condition is re-checked; break target is past
    // the loop.
    let f = lower_ok(vec![Stmt::For {
        cond: Some(lit(0)),
        update: Some(lit(3)),
        body: Box::new(Stmt::Continue),
    }]);
    assert_eq!(
        f.stmts,
        vec![
            IrStmt::Label(0),
            IrStmt::Const(0),
            IrStmt::Bz(2),
            IrStmt::Jump(1),
            IrStmt::Label(1),
            IrStmt::Const(3),
            IrStmt::Pop,
            IrStmt::Jump(0),
            IrStmt::Label(2),
            IrStmt::Const(0),
            IrStmt::Ret,
        ]
    );
}

#[test]
fn test_for_without_cond_or_update() {
    // for (;;) { break; }
    let f = lower_ok(vec![Stmt::For {
        cond: None,
        update: None,
        body: Box::new(Stmt::Break),
    }]);
    assert_eq!(
        f.stmts,
        vec![
            IrStmt::Label(0),
            IrStmt::Jump(2),
            IrStmt::Label(1),
            IrStmt::Jump(0),
            IrStmt::Label(2),
            IrStmt::Const(0),
            IrStmt::Ret,
        ]
    );
}

#[test]
fn test_ternary_shape() {
    // int x; x = (5 ? 1 : 2);
    let f = lower_ok(vec![
        decl_plain("x"),
        Stmt::Expr(assign("x", tern(lit(5), lit(1), lit(2)))),
    ]);
    assert_eq!(
        f.stmts,
        vec![
            IrStmt::Const(5),
            IrStmt::Bz(0),
            IrStmt::Const(1),
            IrStmt::Jump(1),
            IrStmt::Label(0),
            IrStmt::Const(2),
            IrStmt::Label(1),
            IrStmt::LocalAddr(0),
            IrStmt::Store,
            IrStmt::Pop,
            IrStmt::Const(0),
            IrStmt::Ret,
        ]
    );
}

#[test]
fn test_shadowing_slots() {
    // int x = 1; { int x = 2; x = 3; } x = 4;
    // Inside the block, x resolves to the new slot 1; after the block exits,
    // x resolves to the outer slot 0 again.
    let f = lower_ok(vec![
        decl_init("x", lit(1)),
        Stmt::Block(vec![decl_init("x", lit(2)), Stmt::Expr(assign("x", lit(3)))]),
        Stmt::Expr(assign("x", lit(4))),
    ]);
    assert_eq!(f.var_cnt, 2);
    assert_eq!(
        f.stmts,
        vec![
            IrStmt::Const(1),
            IrStmt::LocalAddr(0),
            IrStmt::Store,
            IrStmt::Pop,
            IrStmt::Const(2),
            IrStmt::LocalAddr(1),
            IrStmt::Store,
            IrStmt::Pop,
            IrStmt::Const(3),
            IrStmt::LocalAddr(1),
            IrStmt::Store,
            IrStmt::Pop,
            IrStmt::Const(4),
            IrStmt::LocalAddr(0),
            IrStmt::Store,
            IrStmt::Pop,
            IrStmt::Const(0),
            IrStmt::Ret,
        ]
    );
}

#[test]
fn test_sibling_blocks_distinct_slots() {
    // { int x = 1; } { int x = 2; }: same name in sibling blocks succeeds
    // and gets two distinct slot ids.
    let f = lower_ok(vec![
        Stmt::Block(vec![decl_init("x", lit(1))]),
        Stmt::Block(vec![decl_init("x", lit(2))]),
    ]);
    assert_eq!(f.var_cnt, 2);
    assert_eq!(
        f.stmts,
        vec![
            IrStmt::Const(1),
            IrStmt::LocalAddr(0),
            IrStmt::Store,
            IrStmt::Pop,
            IrStmt::Const(2),
            IrStmt::LocalAddr(1),
            IrStmt::Store,
            IrStmt::Pop,
            IrStmt::Const(0),
            IrStmt::Ret,
        ]
    );
}

#[test]
fn test_duplicate_declaration_rejected() {
    let r = lower(vec![decl_plain("x"), decl_plain("x")]);
    assert_eq!(
        r.unwrap_err(),
        LowerError::DuplicateDeclaration("x".to_string())
    );
}

#[test]
fn test_unbound_variable_reference() {
    let r = lower(vec![Stmt::Expr(var("y"))]);
    assert_eq!(r.unwrap_err(), LowerError::UnboundVariable("y".to_string()));
}

#[test]
fn test_unbound_variable_assignment() {
    let r = lower(vec![Stmt::Expr(assign("z", lit(1)))]);
    assert_eq!(r.unwrap_err(), LowerError::UnboundVariable("z".to_string()));
}

#[test]
fn test_out_of_scope_after_block() {
    // { int x; } x = 1; fails: the binding died with its block.
    let r = lower(vec![
        Stmt::Block(vec![decl_plain("x")]),
        Stmt::Expr(assign("x", lit(1))),
    ]);
    assert_eq!(r.unwrap_err(), LowerError::UnboundVariable("x".to_string()));
}

#[test]
fn test_break_outside_loop() {
    let r = lower(vec![Stmt::Break]);
    assert_eq!(r.unwrap_err(), LowerError::BreakOutsideLoop);
}

#[test]
fn test_continue_outside_loop() {
    let r = lower(vec![Stmt::Continue]);
    assert_eq!(r.unwrap_err(), LowerError::ContinueOutsideLoop);
}

#[test]
fn test_break_applies_to_innermost_loop() {
    // A break after an inner loop has been left still targets the outer loop.
    let f = lower_ok(vec![Stmt::DoWhile(
        Box::new(Stmt::Block(vec![
            Stmt::DoWhile(Box::new(Stmt::Break), lit(0)),
            Stmt::Break,
        ])),
        lit(1),
    )]);
    // Outer labels: body 0, cond 1, end 2; inner labels: body 3, cond 4, end 5.
    assert_eq!(
        f.stmts,
        vec![
            IrStmt::Label(0),
            IrStmt::Label(3),
            IrStmt::Jump(5),
            IrStmt::Label(4),
            IrStmt::Const(0),
            IrStmt::Bnz(3),
            IrStmt::Label(5),
            IrStmt::Jump(2),
            IrStmt::Label(1),
            IrStmt::Const(1),
            IrStmt::Bnz(0),
            IrStmt::Label(2),
            IrStmt::Const(0),
            IrStmt::Ret,
        ]
    );
}

#[test]
fn test_label_uniqueness_and_targets_placed() {
    // A program exercising if, do-while, for, ternary, break and continue:
    // every label id is placed by exactly one Label instruction, and every
    // branch or jump target is a placed label.
    let f = lower_ok(vec![
        decl_init("n", lit(3)),
        Stmt::If(
            var("n"),
            Box::new(Stmt::DoWhile(
                Box::new(Stmt::Block(vec![
                    Stmt::Expr(assign(
                        "n",
                        bin(BinaryOp::Sub, var("n"), lit(1)),
                    )),
                    Stmt::If(
                        bin(BinaryOp::Equal, var("n"), lit(1)),
                        Box::new(Stmt::Continue),
                        Some(Box::new(Stmt::Empty)),
                    ),
                ])),
                var("n"),
            )),
            None,
        ),
        Stmt::For {
            cond: Some(var("n")),
            update: Some(assign("n", bin(BinaryOp::Sub, var("n"), lit(1)))),
            body: Box::new(Stmt::If(
                bin(BinaryOp::Gt, var("n"), lit(10)),
                Box::new(Stmt::Break),
                None,
            )),
        },
        Stmt::Ret(tern(var("n"), lit(1), lit(2))),
    ]);
    let mut placed: Vec<u32> = Vec::new();
    let mut targets: Vec<u32> = Vec::new();
    for ins in &f.stmts {
        match ins {
            IrStmt::Label(l) => placed.push(*l),
            IrStmt::Bz(l) | IrStmt::Bnz(l) | IrStmt::Jump(l) => targets.push(*l),
            IrStmt::LocalAddr(id) => {
                assert!(*id < f.var_cnt, "a local address must be a valid slot")
            }
            _ => {}
        }
    }
    let mut sorted = placed.clone();
    sorted.sort();
    for w in sorted.windows(2) {
        assert_ne!(w[0], w[1], "two Label instructions share an id");
    }
    for t in &targets {
        assert_eq!(
            placed.iter().filter(|l| *l == t).count(),
            1,
            "a branch target must be placed by exactly one Label"
        );
    }
}

#[test]
fn test_declaration_initializer_sees_earlier_names() {
    // int a = 2; int b = a; is accepted and reads slot 0.
    let f = lower_ok(vec![decl_init("a", lit(2)), decl_init("b", var("a"))]);
    assert_eq!(
        f.stmts,
        vec![
            IrStmt::Const(2),
            IrStmt::LocalAddr(0),
            IrStmt::Store,
            IrStmt::Pop,
            IrStmt::LocalAddr(0),
            IrStmt::Load,
            IrStmt::LocalAddr(1),
            IrStmt::Store,
            IrStmt::Pop,
            IrStmt::Const(0),
            IrStmt::Ret,
        ]
    );
}

#[test]
fn test_function_name_kept() {
    let p = ast2ir(&Prog {
        func: Func { name: "answer".to_string(), stmts: vec![Stmt::Ret(lit(42))] },
    })
    .unwrap();
    assert_eq!(p.func.name, "answer");
}
