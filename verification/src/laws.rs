//! Proved laws of the lowering: scope shadowing and redeclaration, label
//! uniqueness and placement of every branch target, the jump targets of
//! `break` and `continue`, the implicit return, and the net stack effect of
//! the emitted instructions.

use vstd::prelude::*;
use crate::ast::{Expr, Stmt, Decl, Func};
use crate::ast::{expr_size, stmt_size, stmts_size, decl_size, opt_stmt_size};
use crate::ir::{IrStmt, CtxView, ErrView};
use crate::ir::{scope_lookup, scope_binds, resolve};
use crate::ir::{lower_expr, lower_decl, lower_stmt, lower_stmts, lower_func};
use crate::ir::{emit, enter_scope, exit_scope, bind_name, push_loop, pop_loop, init_ctx,
    ends_with_ret};

verus! {

/// How often `Label(l)` occurs in an instruction sequence.
pub open spec fn label_count(code: Seq<IrStmt>, l: u32) -> nat
    decreases code.len(),
{
    if code.len() == 0 {
        0
    } else {
        (if code.last() == IrStmt::Label(l) {
            1nat
        } else {
            0nat
        }) + label_count(code.drop_last(), l)
    }
}

/// Whether an instruction names `l` as a branch or jump target.
pub open spec fn is_jump_to(i: IrStmt, l: u32) -> bool {
    i == IrStmt::Bz(l) || i == IrStmt::Bnz(l) || i == IrStmt::Jump(l)
}

/// How often an instruction sequence names `l` as a branch or jump target.
pub open spec fn ref_count(code: Seq<IrStmt>, l: u32) -> nat
    decreases code.len(),
{
    if code.len() == 0 {
        0
    } else {
        (if is_jump_to(code.last(), l) {
            1nat
        } else {
            0nat
        }) + ref_count(code.drop_last(), l)
    }
}

pub broadcast proof fn lemma_label_count_push(code: Seq<IrStmt>, x: IrStmt, l: u32)
    ensures
        #[trigger] label_count(code.push(x), l) == label_count(code, l) + (if x == IrStmt::Label(
            l,
        ) {
            1nat
        } else {
            0nat
        }),
{
    assert(code.push(x).drop_last() =~= code);
}

pub broadcast proof fn lemma_ref_count_push(code: Seq<IrStmt>, x: IrStmt, l: u32)
    ensures
        #[trigger] ref_count(code.push(x), l) == ref_count(code, l) + (if is_jump_to(x, l) {
            1nat
        } else {
            0nat
        }),
{
    assert(code.push(x).drop_last() =~= code);
}

/// Whether some enclosing loop context uses `l` as its break or continue
/// target.
pub open spec fn loop_has_label(loops: Seq<(u32, u32)>, l: u32) -> bool {
    exists|k: int| 0 <= k < loops.len() && ((#[trigger] loops[k]).0 == l || loops[k].1 == l)
}

proof fn lemma_loop_has_label_push(loops: Seq<(u32, u32)>, brk: u32, cont: u32, l: u32)
    ensures
        loop_has_label(loops.push((brk, cont)), l) <==> (loop_has_label(loops, l) || l == brk || l
            == cont),
{
    let pushed = loops.push((brk, cont));
    assert(pushed[loops.len() as int] == (brk, cont));
    if loop_has_label(pushed, l) {
        let k = choose|k: int| 0 <= k < pushed.len() && ((#[trigger] pushed[k]).0 == l
            || pushed[k].1 == l);
        if k < loops.len() {
            assert(loops[k] == pushed[k]);
        }
    }
    if loop_has_label(loops, l) {
        let k = choose|k: int| 0 <= k < loops.len() && ((#[trigger] loops[k]).0 == l || loops[k].1
            == l);
        assert(pushed[k] == loops[k]);
    }
}

/// Shadowing: a binding in the innermost scope wins over any outer binding of
/// the same name, and once that scope exits, every name resolves exactly as
/// it did before the scope was entered.
pub proof fn lemma_shadowing(
    scopes: Seq<Seq<(Seq<char>, u32)>>,
    inner: Seq<(Seq<char>, u32)>,
    name: Seq<char>,
    id: u32,
)
    requires
        scope_lookup(inner, name) == Some(id),
    ensures
        resolve(scopes.push(inner), name) == Some(id),
        resolve(scopes.push(inner).drop_last(), name) == resolve(scopes, name),
{
    assert(scopes.push(inner).last() == inner);
    assert(scopes.push(inner).drop_last() =~= scopes);
}

/// Lowering an expression never touches the scope stack, the loop stack or
/// the slot counter.
pub proof fn lemma_expr_preserves(e: Expr, st: CtxView)
    ensures
        lower_expr(e, st) matches Ok(st2) ==> {
            &&& st2.scopes == st.scopes
            &&& st2.loops == st.loops
            &&& st2.var_cnt == st.var_cnt
        },
    decreases e,
{
    match e {
        Expr::Int(_) => {},
        Expr::Unary(_, x) => {
            lemma_expr_preserves(*x, st);
        },
        Expr::Binary(_, l, r) => {
            lemma_expr_preserves(*l, st);
            match lower_expr(*l, st) {
                Ok(st1) => {
                    lemma_expr_preserves(*r, st1);
                },
                Err(_) => {},
            }
        },
        Expr::Var(_) => {},
        Expr::Assign(_, rhs) => {
            lemma_expr_preserves(*rhs, st);
        },
        Expr::Condition(c, t, f) => {
            lemma_expr_preserves(*c, st);
            match lower_expr(*c, st) {
                Ok(st1) => {
                    let (st2a, before_f) = crate::ir::alloc_label(st1);
                    let (st3, after_f) = crate::ir::alloc_label(st2a);
                    lemma_expr_preserves(*t, emit(st3, IrStmt::Bz(before_f)));
                    match lower_expr(*t, emit(st3, IrStmt::Bz(before_f))) {
                        Ok(st4) => {
                            let st5 = emit(
                                emit(st4, IrStmt::Jump(after_f)),
                                IrStmt::Label(before_f),
                            );
                            lemma_expr_preserves(*f, st5);
                        },
                        Err(_) => {},
                    }
                },
                Err(_) => {},
            }
        },
    }
}

/// Redeclaration: once a declaration of a name has succeeded, a second
/// declaration of the same name in the same scope is rejected with
/// `DuplicateDeclaration`.
pub proof fn lemma_redeclaration(d1: Decl, d2: Decl, st: CtxView, st1: CtxView)
    requires
        d1.name@ == d2.name@,
        st.scopes.len() >= 1,
        lower_decl(d1, st) == Ok::<CtxView, ErrView>(st1),
    ensures
        lower_decl(d2, st1) == Err::<CtxView, ErrView>(ErrView::DuplicateDeclaration(d2.name@)),
{
    let stb = bind_name(st, d1.name@);
    assert(stb.scopes.last() == st.scopes.last().push((d1.name@, st.var_cnt)));
    assert(stb.scopes.last()[st.scopes.last().len() as int] == (d1.name@, st.var_cnt));
    assert(scope_binds(stb.scopes.last(), d1.name@));
    match d1.init {
        None => {},
        Some(e) => {
            lemma_expr_preserves(e, stb);
        },
    }
    assert(st1.scopes == stb.scopes);
}

/// Sibling blocks: declaring a name in a block, leaving the block, and
/// declaring the same (or any) name in a sibling block both succeed, and the
/// two declarations get two distinct slot ids.
pub proof fn lemma_sibling_slots(d1: Decl, d2: Decl, st: CtxView)
    requires
        d1.init is None,
        d2.init is None,
        st.var_cnt < u32::MAX,
    ensures
        lower_decl(d1, enter_scope(st)) matches Ok(st1) && lower_decl(
            d2,
            enter_scope(exit_scope(st1)),
        ) matches Ok(st2) && {
            &&& st1.scopes.last().last() == (d1.name@, st.var_cnt)
            &&& st2.scopes.last().last() == (d2.name@, ((st.var_cnt + 1) as u32))
            &&& st.var_cnt != ((st.var_cnt + 1) as u32)
        },
{
    let sta = enter_scope(st);
    assert(sta.scopes.last() =~= Seq::<(Seq<char>, u32)>::empty());
    assert(!scope_binds(sta.scopes.last(), d1.name@));
    let st1 = bind_name(sta, d1.name@);
    assert(lower_decl(d1, sta) == Ok::<CtxView, ErrView>(st1));
    assert(st1.scopes.last() == sta.scopes.last().push((d1.name@, st.var_cnt)));
    let stb = enter_scope(exit_scope(st1));
    assert(stb.scopes.last() =~= Seq::<(Seq<char>, u32)>::empty());
    assert(!scope_binds(stb.scopes.last(), d2.name@));
    let st2 = bind_name(stb, d2.name@);
    assert(lower_decl(d2, stb) == Ok::<CtxView, ErrView>(st2));
    assert(st2.scopes.last() == stb.scopes.last().push((d2.name@, st1.var_cnt)));
}

/// `break` jumps to the innermost loop's break target; outside any loop it
/// is a `BreakOutsideLoop` error.
pub proof fn lemma_break_target(st: CtxView)
    ensures
        st.loops.len() == 0 ==> lower_stmt(Stmt::Break, st) == Err::<CtxView, ErrView>(
            ErrView::BreakOutsideLoop,
        ),
        st.loops.len() > 0 ==> lower_stmt(Stmt::Break, st) == Ok::<CtxView, ErrView>(
            emit(st, IrStmt::Jump(st.loops.last().0)),
        ),
{
}

/// `continue` jumps to the innermost loop's continue target; outside any
/// loop it is a `ContinueOutsideLoop` error.
pub proof fn lemma_continue_target(st: CtxView)
    ensures
        st.loops.len() == 0 ==> lower_stmt(Stmt::Continue, st) == Err::<CtxView, ErrView>(
            ErrView::ContinueOutsideLoop,
        ),
        st.loops.len() > 0 ==> lower_stmt(Stmt::Continue, st) == Ok::<CtxView, ErrView>(
            emit(st, IrStmt::Jump(st.loops.last().1)),
        ),
{
}

/// All labels placed in the emitted code are pairwise distinct and below the
/// label counter.
pub open spec fn labels_wf(st: CtxView) -> bool {
    forall|l: u32|
        #![trigger label_count(st.code, l)]
        label_count(st.code, l) <= 1 && (label_count(st.code, l) == 1 ==> l < st.label_cnt)
}

/// How one lowering step extends the emitted code, as far as labels and
/// branch targets go: labels placed earlier are untouched, every label the
/// step allocates is placed exactly once, and every branch target the step
/// adds is either a label the step allocated or a break/continue target of a
/// loop enclosing the step.
pub open spec fn labels_extended(st: CtxView, st2: CtxView) -> bool {
    &&& st.label_cnt <= st2.label_cnt
    &&& (forall|l: u32|
        l < st.label_cnt ==> #[trigger] label_count(st2.code, l) == label_count(st.code, l))
    &&& (forall|l: u32|
        st.label_cnt <= l < st2.label_cnt ==> #[trigger] label_count(st2.code, l) == 1)
    &&& (forall|l: u32| #[trigger] ref_count(st2.code, l) >= ref_count(st.code, l))
    &&& (forall|l: u32|
        #[trigger] ref_count(st2.code, l) > ref_count(st.code, l) ==> st.label_cnt <= l
            < st2.label_cnt || loop_has_label(st.loops, l))
}

proof fn lemma_labels_extended_trans(a: CtxView, b: CtxView, c: CtxView)
    requires
        labels_extended(a, b),
        labels_extended(b, c),
        b.loops == a.loops,
    ensures
        labels_extended(a, c),
{
    assert forall|l: u32| a.label_cnt <= l < c.label_cnt implies #[trigger] label_count(
        c.code,
        l,
    ) == 1 by {
        if l < b.label_cnt {
            assert(label_count(b.code, l) == 1);
        }
    }
    assert forall|l: u32| #[trigger] ref_count(c.code, l) > ref_count(a.code, l) implies a.label_cnt
        <= l < c.label_cnt || loop_has_label(a.loops, l) by {
        if ref_count(c.code, l) > ref_count(b.code, l) {
        } else {
            assert(ref_count(b.code, l) > ref_count(a.code, l));
        }
    }
}

/// Lowering an expression keeps the placed labels pairwise distinct, places
/// every label it allocates exactly once, and adds branch targets only to
/// its own labels or to enclosing loop targets.
pub proof fn lemma_expr_labels(e: Expr, st: CtxView)
    requires
        labels_wf(st),
        st.label_cnt + expr_size(e) <= u32::MAX,
    ensures
        lower_expr(e, st) matches Ok(st2) ==> {
            &&& labels_wf(st2)
            &&& labels_extended(st, st2)
            &&& st2.label_cnt <= st.label_cnt + expr_size(e)
            &&& st2.loops == st.loops
        },
    decreases e,
{
    broadcast use lemma_label_count_push, lemma_ref_count_push;

    match e {
        Expr::Int(_) => {},
        Expr::Unary(_, x) => {
            lemma_expr_labels(*x, st);
        },
        Expr::Binary(_, l, r) => {
            lemma_expr_labels(*l, st);
            match lower_expr(*l, st) {
                Ok(st1) => {
                    lemma_expr_labels(*r, st1);
                    match lower_expr(*r, st1) {
                        Ok(st2) => {
                            lemma_labels_extended_trans(st, st1, st2);
                        },
                        Err(_) => {},
                    }
                },
                Err(_) => {},
            }
        },
        Expr::Var(_) => {},
        Expr::Assign(_, rhs) => {
            lemma_expr_labels(*rhs, st);
        },
        Expr::Condition(c, t, f) => {
            lemma_expr_labels(*c, st);
            match lower_expr(*c, st) {
                Ok(st1) => {
                    let (st2a, before_f) = crate::ir::alloc_label(st1);
                    let (st3, after_f) = crate::ir::alloc_label(st2a);
                    let stb = emit(st3, IrStmt::Bz(before_f));
                    assert(label_count(stb.code, before_f) == 0);
                    assert(label_count(stb.code, after_f) == 0);
                    lemma_expr_labels(*t, stb);
                    match lower_expr(*t, stb) {
                        Ok(st4) => {
                            assert(label_count(st4.code, before_f) == 0);
                            assert(label_count(st4.code, after_f) == 0);
                            let st5 = emit(
                                emit(st4, IrStmt::Jump(after_f)),
                                IrStmt::Label(before_f),
                            );
                            assert(label_count(st5.code, before_f) == 1);
                            assert(label_count(st5.code, after_f) == 0);
                            assert(labels_wf(st5));
                            lemma_expr_labels(*f, st5);
                            match lower_expr(*f, st5) {
                                Ok(st6) => {
                                    assert(label_count(st6.code, after_f) == 0);
                                    let stz = emit(st6, IrStmt::Label(after_f));
                                    assert(labels_wf(stz));
                                    assert(labels_extended(st1, stz));
                                    lemma_labels_extended_trans(st, st1, stz);
                                },
                                Err(_) => {},
                            }
                        },
                        Err(_) => {},
                    }
                },
                Err(_) => {},
            }
        },
    }
}

/// Lowering a declaration keeps the placed labels pairwise distinct and adds
/// branch targets only as its initializer does.
pub proof fn lemma_decl_labels(d: Decl, st: CtxView)
    requires
        labels_wf(st),
        st.label_cnt + decl_size(d) <= u32::MAX,
    ensures
        lower_decl(d, st) matches Ok(st2) ==> {
            &&& labels_wf(st2)
            &&& labels_extended(st, st2)
            &&& st2.label_cnt <= st.label_cnt + decl_size(d)
            &&& st2.loops == st.loops
        },
{
    broadcast use lemma_label_count_push, lemma_ref_count_push;

    if !scope_binds(st.scopes.last(), d.name@) {
        let st1 = bind_name(st, d.name@);
        match d.init {
            None => {},
            Some(e) => {
                lemma_expr_labels(e, st1);
            },
        }
    }
}

/// Lowering a statement keeps the placed labels pairwise distinct, places
/// every label it allocates exactly once, and adds branch targets only to
/// its own labels or to break/continue targets of enclosing loops.
#[verifier::rlimit(100)]
pub proof fn lemma_stmt_labels(s: Stmt, st: CtxView)
    requires
        labels_wf(st),
        st.label_cnt + stmt_size(s) <= u32::MAX,
    ensures
        lower_stmt(s, st) matches Ok(st2) ==> {
            &&& labels_wf(st2)
            &&& labels_extended(st, st2)
            &&& st2.label_cnt <= st.label_cnt + stmt_size(s)
            &&& st2.loops == st.loops
        },
    decreases s,
{
    broadcast use lemma_label_count_push, lemma_ref_count_push;

    match s {
        Stmt::Empty => {},
        Stmt::Ret(e) => {
            lemma_expr_labels(e, st);
        },
        Stmt::Decl(d) => {
            lemma_decl_labels(d, st);
        },
        Stmt::Expr(e) => {
            lemma_expr_labels(e, st);
        },
        Stmt::If(cond, t, f) => {
            assert(stmt_size(s) == 2 + expr_size(cond) + stmt_size(*t) + opt_stmt_size(f));
            let (st1, before_f) = crate::ir::alloc_label(st);
            let (st2, after_f) = crate::ir::alloc_label(st1);
            lemma_expr_labels(cond, st2);
            match lower_expr(cond, st2) {
                Ok(st3) => {
                    let stb = emit(st3, IrStmt::Bz(before_f));
                    assert(label_count(stb.code, before_f) == 0);
                    assert(label_count(stb.code, after_f) == 0);
                    lemma_stmt_labels(*t, stb);
                    match lower_stmt(*t, stb) {
                        Ok(st4) => {
                            assert(label_count(st4.code, before_f) == 0);
                            assert(label_count(st4.code, after_f) == 0);
                            let st5 = emit(
                                emit(st4, IrStmt::Jump(after_f)),
                                IrStmt::Label(before_f),
                            );
                            assert(label_count(st5.code, before_f) == 1);
                            assert(label_count(st5.code, after_f) == 0);
                            assert(labels_wf(st5));
                            match f {
                                None => {
                                    let stz = emit(st5, IrStmt::Label(after_f));
                                    assert(labels_wf(stz));
                                    assert(labels_extended(st, stz));
                                },
                                Some(fs) => {
                                    assert(opt_stmt_size(f) == stmt_size(*fs));
                                    lemma_stmt_labels(*fs, st5);
                                    match lower_stmt(*fs, st5) {
                                        Ok(st6) => {
                                            assert(label_count(st6.code, after_f) == 0);
                                            let stz = emit(st6, IrStmt::Label(after_f));
                                            assert(labels_wf(stz));
                                            assert(labels_extended(st, stz));
                                        },
                                        Err(_) => {},
                                    }
                                },
                            }
                        },
                        Err(_) => {},
                    }
                },
                Err(_) => {},
            }
        },
        Stmt::Block(v) => {
            lemma_stmts_labels(v@, enter_scope(st));
        },
        Stmt::DoWhile(body, cond) => {
            let (st1, before_body) = crate::ir::alloc_label(st);
            let (st2, before_cond) = crate::ir::alloc_label(st1);
            let (st3, after_cond) = crate::ir::alloc_label(st2);
            let st4 = emit(push_loop(st3, after_cond, before_cond), IrStmt::Label(before_body));
            assert(label_count(st4.code, before_body) == 1);
            assert(label_count(st4.code, before_cond) == 0);
            assert(label_count(st4.code, after_cond) == 0);
            assert(labels_wf(st4));
            lemma_stmt_labels(*body, st4);
            match lower_stmt(*body, st4) {
                Ok(st5) => {
                    assert(label_count(st5.code, before_cond) == 0);
                    assert(label_count(st5.code, after_cond) == 0);
                    let st5b = emit(st5, IrStmt::Label(before_cond));
                    assert(labels_wf(st5b));
                    lemma_expr_labels(cond, st5b);
                    match lower_expr(cond, st5b) {
                        Ok(st6) => {
                            assert(label_count(st6.code, after_cond) == 0);
                            let stz = pop_loop(
                                emit(
                                    emit(st6, IrStmt::Bnz(before_body)),
                                    IrStmt::Label(after_cond),
                                ),
                            );
                            assert(labels_wf(stz));
                            assert forall|l: u32| #[trigger] ref_count(stz.code, l) > ref_count(
                                st.code,
                                l,
                            ) implies st.label_cnt <= l < stz.label_cnt || loop_has_label(
                                st.loops,
                                l,
                            ) by {
                                lemma_loop_has_label_push(st.loops, after_cond, before_cond, l);
                            }
                            assert(labels_extended(st, stz));
                        },
                        Err(_) => {},
                    }
                },
                Err(_) => {},
            }
        },
        Stmt::For { cond, update, body } => {
            let (st1, before_cond) = crate::ir::alloc_label(st);
            let (st2, before_update) = crate::ir::alloc_label(st1);
            let (st3, after_body) = crate::ir::alloc_label(st2);
            let st4 = emit(push_loop(st3, after_body, before_update), IrStmt::Label(before_cond));
            assert(label_count(st4.code, before_cond) == 1);
            assert(label_count(st4.code, before_update) == 0);
            assert(label_count(st4.code, after_body) == 0);
            assert(labels_wf(st4));
            let condres = match cond {
                None => Ok::<CtxView, ErrView>(st4),
                Some(c) => {
                    lemma_expr_labels(c, st4);
                    match lower_expr(c, st4) {
                        Ok(st5) => Ok(emit(st5, IrStmt::Bz(after_body))),
                        Err(er) => Err(er),
                    }
                },
            };
            match condres {
                Ok(st5) => {
                    assert(labels_wf(st5));
                    assert(label_count(st5.code, before_update) == 0);
                    assert(label_count(st5.code, after_body) == 0);
                    lemma_stmt_labels(*body, st5);
                    match lower_stmt(*body, st5) {
                        Ok(st6) => {
                            assert(label_count(st6.code, before_update) == 0);
                            assert(label_count(st6.code, after_body) == 0);
                            let st7 = emit(st6, IrStmt::Label(before_update));
                            assert(labels_wf(st7));
                            let upres = match update {
                                None => Ok::<CtxView, ErrView>(st7),
                                Some(u) => {
                                    lemma_expr_labels(u, st7);
                                    match lower_expr(u, st7) {
                                        Ok(st8) => Ok(emit(st8, IrStmt::Pop)),
                                        Err(er) => Err(er),
                                    }
                                },
                            };
                            match upres {
                                Ok(st8) => {
                                    assert(labels_wf(st8));
                                    assert(label_count(st8.code, after_body) == 0);
                                    let stz = pop_loop(
                                        emit(
                                            emit(st8, IrStmt::Jump(before_cond)),
                                            IrStmt::Label(after_body),
                                        ),
                                    );
                                    assert(labels_wf(stz));
                                    assert forall|l: u32| #[trigger] ref_count(stz.code, l)
                                        > ref_count(st.code, l) implies st.label_cnt <= l
                                        < stz.label_cnt || loop_has_label(st.loops, l) by {
                                        lemma_loop_has_label_push(
                                            st.loops,
                                            after_body,
                                            before_update,
                                            l,
                                        );
                                    }
                                    assert(labels_extended(st, stz));
                                },
                                Err(_) => {},
                            }
                        },
                        Err(_) => {},
                    }
                },
                Err(_) => {},
            }
        },
        Stmt::Break => {
            if st.loops.len() > 0 {
                assert(st.loops[st.loops.len() - 1] == st.loops.last());
                assert(loop_has_label(st.loops, st.loops.last().0));
            }
        },
        Stmt::Continue => {
            if st.loops.len() > 0 {
                assert(st.loops[st.loops.len() - 1] == st.loops.last());
                assert(loop_has_label(st.loops, st.loops.last().1));
            }
        },
    }
}

/// Lowering a statement sequence keeps the placed labels pairwise distinct,
/// places every label it allocates exactly once, and adds branch targets
/// only to its own labels or to enclosing loop targets.
pub proof fn lemma_stmts_labels(ss: Seq<Stmt>, st: CtxView)
    requires
        labels_wf(st),
        st.label_cnt + stmts_size(ss) <= u32::MAX,
    ensures
        lower_stmts(ss, st) matches Ok(st2) ==> {
            &&& labels_wf(st2)
            &&& labels_extended(st, st2)
            &&& st2.label_cnt <= st.label_cnt + stmts_size(ss)
            &&& st2.loops == st.loops
        },
    decreases ss,
{
    if ss.len() > 0 {
        lemma_stmt_labels(ss.first(), st);
        match lower_stmt(ss.first(), st) {
            Ok(st1) => {
                lemma_stmts_labels(ss.drop_first(), st1);
                match lower_stmts(ss.drop_first(), st1) {
                    Ok(st2) => {
                        lemma_labels_extended_trans(st, st1, st2);
                    },
                    Err(_) => {},
                }
            },
            Err(_) => {},
        }
    }
}

/// Label uniqueness: in a lowered function, no two `Label` instructions
/// share an id, and every id a branch or jump instruction targets is placed
/// by exactly one `Label` instruction.
pub proof fn lemma_label_uniqueness(f: Func)
    requires
        stmts_size(f.stmts@) <= u32::MAX,
    ensures
        lower_func(f) matches Ok(ir) ==> {
            &&& forall|l: u32| #[trigger] label_count(ir.code, l) <= 1
            &&& forall|l: u32| #[trigger] ref_count(ir.code, l) >= 1 ==> label_count(ir.code, l)
                == 1
        },
{
    broadcast use lemma_label_count_push, lemma_ref_count_push;

    assert(labels_wf(init_ctx()));
    lemma_stmts_labels(f.stmts@, init_ctx());
}

/// All slot ids bound in the scope stack are below the slot counter.
pub open spec fn slots_wf(st: CtxView) -> bool {
    forall|k: int, j: int|
        0 <= k < st.scopes.len() && 0 <= j < st.scopes[k].len() ==> (#[trigger] st.scopes[k][j]).1
            < st.var_cnt
}

/// Every `LocalAddr` instruction in the code addresses a slot below
/// `var_cnt`.
pub open spec fn addrs_wf(code: Seq<IrStmt>, var_cnt: u32) -> bool {
    forall|i: int|
        0 <= i < code.len() ==> ((#[trigger] code[i]) matches IrStmt::LocalAddr(id) ==> id
            < var_cnt)
}

proof fn lemma_scope_lookup_bound(scope: Seq<(Seq<char>, u32)>, name: Seq<char>, bound: u32)
    requires
        forall|j: int| 0 <= j < scope.len() ==> (#[trigger] scope[j]).1 < bound,
    ensures
        scope_lookup(scope, name) matches Some(id) ==> id < bound,
    decreases scope.len(),
{
    if scope.len() > 0 && !(scope.last().0 == name) {
        lemma_scope_lookup_bound(scope.drop_last(), name, bound);
    }
}

proof fn lemma_resolve_bound(scopes: Seq<Seq<(Seq<char>, u32)>>, name: Seq<char>, bound: u32)
    requires
        forall|k: int, j: int|
            0 <= k < scopes.len() && 0 <= j < scopes[k].len() ==> (#[trigger] scopes[k][j]).1
                < bound,
    ensures
        resolve(scopes, name) matches Some(id) ==> id < bound,
    decreases scopes.len(),
{
    if scopes.len() > 0 {
        lemma_scope_lookup_bound(scopes.last(), name, bound);
        lemma_resolve_bound(scopes.drop_last(), name, bound);
    }
}

/// Lowering an expression emits local addresses only for slots the scope
/// stack binds, all below the slot counter.
pub proof fn lemma_expr_slots(e: Expr, st: CtxView)
    requires
        slots_wf(st),
        addrs_wf(st.code, st.var_cnt),
    ensures
        lower_expr(e, st) matches Ok(st2) ==> {
            &&& slots_wf(st2)
            &&& addrs_wf(st2.code, st2.var_cnt)
        },
    decreases e,
{
    lemma_expr_preserves(e, st);
    match e {
        Expr::Int(_) => {},
        Expr::Unary(_, x) => {
            lemma_expr_slots(*x, st);
        },
        Expr::Binary(_, l, r) => {
            lemma_expr_slots(*l, st);
            match lower_expr(*l, st) {
                Ok(st1) => {
                    lemma_expr_preserves(*l, st);
                    lemma_expr_slots(*r, st1);
                },
                Err(_) => {},
            }
        },
        Expr::Var(name) => {
            lemma_resolve_bound(st.scopes, name@, st.var_cnt);
        },
        Expr::Assign(name, rhs) => {
            lemma_expr_slots(*rhs, st);
            match lower_expr(*rhs, st) {
                Ok(st1) => {
                    lemma_expr_preserves(*rhs, st);
                    lemma_resolve_bound(st1.scopes, name@, st1.var_cnt);
                },
                Err(_) => {},
            }
        },
        Expr::Condition(c, t, f) => {
            lemma_expr_slots(*c, st);
            match lower_expr(*c, st) {
                Ok(st1) => {
                    lemma_expr_preserves(*c, st);
                    let (st2a, before_f) = crate::ir::alloc_label(st1);
                    let (st3, after_f) = crate::ir::alloc_label(st2a);
                    let stb = emit(st3, IrStmt::Bz(before_f));
                    lemma_expr_slots(*t, stb);
                    match lower_expr(*t, stb) {
                        Ok(st4) => {
                            lemma_expr_preserves(*t, stb);
                            let st5 = emit(
                                emit(st4, IrStmt::Jump(after_f)),
                                IrStmt::Label(before_f),
                            );
                            lemma_expr_slots(*f, st5);
                        },
                        Err(_) => {},
                    }
                },
                Err(_) => {},
            }
        },
    }
}

/// Lowering a declaration binds a fresh slot below the advanced slot counter
/// and keeps every emitted local address in range.
pub proof fn lemma_decl_slots(d: Decl, st: CtxView)
    requires
        slots_wf(st),
        addrs_wf(st.code, st.var_cnt),
        st.scopes.len() >= 1,
        st.var_cnt + decl_size(d) <= u32::MAX,
    ensures
        lower_decl(d, st) matches Ok(st2) ==> {
            &&& slots_wf(st2)
            &&& addrs_wf(st2.code, st2.var_cnt)
            &&& st.var_cnt <= st2.var_cnt
        },
{
    if !scope_binds(st.scopes.last(), d.name@) {
        let st1 = bind_name(st, d.name@);
        assert(slots_wf(st1)) by {
            assert forall|k: int, j: int|
                0 <= k < st1.scopes.len() && 0 <= j < st1.scopes[k].len() implies (
            #[trigger] st1.scopes[k][j]).1 < st1.var_cnt by {
                if k == st.scopes.len() - 1 && j == st.scopes.last().len() {
                    assert(st1.scopes[k][j] == (d.name@, st.var_cnt));
                } else {
                    assert(st1.scopes[k][j] == st.scopes[k][j]);
                }
            }
        }
        match d.init {
            None => {},
            Some(e) => {
                lemma_expr_slots(e, st1);
                lemma_expr_preserves(e, st1);
            },
        }
    }
}

/// Lowering a statement keeps every bound slot and every emitted local
/// address below the slot counter.
#[verifier::rlimit(100)]
pub proof fn lemma_stmt_slots(s: Stmt, st: CtxView)
    requires
        slots_wf(st),
        addrs_wf(st.code, st.var_cnt),
        st.scopes.len() >= 1,
        st.var_cnt + stmt_size(s) <= u32::MAX,
    ensures
        lower_stmt(s, st) matches Ok(st2) ==> {
            &&& slots_wf(st2)
            &&& addrs_wf(st2.code, st2.var_cnt)
            &&& st.var_cnt <= st2.var_cnt
            &&& st2.var_cnt <= st.var_cnt + stmt_size(s)
            &&& st2.scopes.len() == st.scopes.len()
        },
    decreases s,
{
    match s {
        Stmt::Empty => {},
        Stmt::Ret(e) => {
            lemma_expr_slots(e, st);
            lemma_expr_preserves(e, st);
        },
        Stmt::Decl(d) => {
            lemma_decl_slots(d, st);
            if !scope_binds(st.scopes.last(), d.name@) {
                match d.init {
                    None => {},
                    Some(e) => {
                        lemma_expr_preserves(e, bind_name(st, d.name@));
                    },
                }
            }
        },
        Stmt::Expr(e) => {
            lemma_expr_slots(e, st);
            lemma_expr_preserves(e, st);
        },
        Stmt::If(cond, t, f) => {
            let (st1, before_f) = crate::ir::alloc_label(st);
            let (st2, after_f) = crate::ir::alloc_label(st1);
            lemma_expr_slots(cond, st2);
            lemma_expr_preserves(cond, st2);
            match lower_expr(cond, st2) {
                Ok(st3) => {
                    let stb = emit(st3, IrStmt::Bz(before_f));
                    lemma_stmt_slots(*t, stb);
                    match lower_stmt(*t, stb) {
                        Ok(st4) => {
                            let st5 = emit(
                                emit(st4, IrStmt::Jump(after_f)),
                                IrStmt::Label(before_f),
                            );
                            match f {
                                None => {},
                                Some(fs) => {
                                    assert(opt_stmt_size(f) == stmt_size(*fs));
                                    lemma_stmt_slots(*fs, st5);
                                },
                            }
                        },
                        Err(_) => {},
                    }
                },
                Err(_) => {},
            }
        },
        Stmt::Block(v) => {
            let sta = enter_scope(st);
            assert(slots_wf(sta)) by {
                assert forall|k: int, j: int|
                    0 <= k < sta.scopes.len() && 0 <= j < sta.scopes[k].len() implies (
                #[trigger] sta.scopes[k][j]).1 < sta.var_cnt by {
                    if k < st.scopes.len() {
                        assert(sta.scopes[k][j] == st.scopes[k][j]);
                    }
                }
            }
            lemma_stmts_slots(v@, sta);
            match lower_stmts(v@, sta) {
                Ok(st1) => {
                    assert(slots_wf(exit_scope(st1))) by {
                        assert forall|k: int, j: int|
                            0 <= k < exit_scope(st1).scopes.len() && 0 <= j < exit_scope(
                                st1,
                            ).scopes[k].len() implies (#[trigger] exit_scope(st1).scopes[k][j]).1
                            < exit_scope(st1).var_cnt by {
                            assert(exit_scope(st1).scopes[k] == st1.scopes[k]);
                        }
                    }
                },
                Err(_) => {},
            }
        },
        Stmt::DoWhile(body, cond) => {
            let (st1, before_body) = crate::ir::alloc_label(st);
            let (st2, before_cond) = crate::ir::alloc_label(st1);
            let (st3, after_cond) = crate::ir::alloc_label(st2);
            let st4 = emit(push_loop(st3, after_cond, before_cond), IrStmt::Label(before_body));
            lemma_stmt_slots(*body, st4);
            match lower_stmt(*body, st4) {
                Ok(st5) => {
                    let st5b = emit(st5, IrStmt::Label(before_cond));
                    lemma_expr_slots(cond, st5b);
                    lemma_expr_preserves(cond, st5b);
                },
                Err(_) => {},
            }
        },
        Stmt::For { cond, update, body } => {
            let (st1, before_cond) = crate::ir::alloc_label(st);
            let (st2, before_update) = crate::ir::alloc_label(st1);
            let (st3, after_body) = crate::ir::alloc_label(st2);
            let st4 = emit(push_loop(st3, after_body, before_update), IrStmt::Label(before_cond));
            let condres = match cond {
                None => Ok::<CtxView, ErrView>(st4),
                Some(c) => {
                    lemma_expr_slots(c, st4);
                    lemma_expr_preserves(c, st4);
                    match lower_expr(c, st4) {
                        Ok(st5) => Ok(emit(st5, IrStmt::Bz(after_body))),
                        Err(er) => Err(er),
                    }
                },
            };
            match condres {
                Ok(st5) => {
                    lemma_stmt_slots(*body, st5);
                    match lower_stmt(*body, st5) {
                        Ok(st6) => {
                            let st7 = emit(st6, IrStmt::Label(before_update));
                            match update {
                                None => {},
                                Some(u) => {
                                    lemma_expr_slots(u, st7);
                                    lemma_expr_preserves(u, st7);
                                },
                            }
                        },
                        Err(_) => {},
                    }
                },
                Err(_) => {},
            }
        },
        Stmt::Break => {},
        Stmt::Continue => {},
    }
}

/// Lowering a statement sequence keeps every bound slot and every emitted
/// local address below the slot counter.
pub proof fn lemma_stmts_slots(ss: Seq<Stmt>, st: CtxView)
    requires
        slots_wf(st),
        addrs_wf(st.code, st.var_cnt),
        st.scopes.len() >= 1,
        st.var_cnt + stmts_size(ss) <= u32::MAX,
    ensures
        lower_stmts(ss, st) matches Ok(st2) ==> {
            &&& slots_wf(st2)
            &&& addrs_wf(st2.code, st2.var_cnt)
            &&& st.var_cnt <= st2.var_cnt
            &&& st2.var_cnt <= st.var_cnt + stmts_size(ss)
            &&& st2.scopes.len() == st.scopes.len()
        },
    decreases ss,
{
    if ss.len() > 0 {
        lemma_stmt_slots(ss.first(), st);
        match lower_stmt(ss.first(), st) {
            Ok(st1) => {
                lemma_stmts_slots(ss.drop_first(), st1);
            },
            Err(_) => {},
        }
    }
}

/// Valid addressing: every `LocalAddr` instruction of a lowered function
/// addresses one of the function's `var_cnt` local slots, so the IR consumer
/// can allocate exactly `var_cnt` slots.
pub proof fn lemma_addresses_in_range(f: Func)
    requires
        stmts_size(f.stmts@) <= u32::MAX,
    ensures
        lower_func(f) matches Ok(ir) ==> addrs_wf(ir.code, ir.var_cnt),
{
    assert(slots_wf(init_ctx()));
    assert(addrs_wf(init_ctx().code, 0));
    lemma_stmts_slots(f.stmts@, init_ctx());
    match lower_stmts(f.stmts@, init_ctx()) {
        Ok(st) => {
            if !ends_with_ret(st.code) {
                let code2 = st.code.push(IrStmt::Const(0)).push(IrStmt::Ret);
                assert(addrs_wf(code2, st.var_cnt)) by {
                    assert forall|i: int|
                        0 <= i < code2.len() implies ((#[trigger] code2[i]) matches
                    IrStmt::LocalAddr(id) ==> id < st.var_cnt) by {
                        if i < st.code.len() {
                            assert(code2[i] == st.code[i]);
                        }
                    }
                }
            }
        },
        Err(_) => {},
    }
}

/// The net effect of one instruction on the operand stack depth when it is
/// executed.
pub open spec fn instr_delta(i: IrStmt) -> int {
    match i {
        IrStmt::Const(_) => 1,
        IrStmt::Unary(_) => 0,
        IrStmt::Binary(_) => -1,
        IrStmt::LocalAddr(_) => 1,
        IrStmt::Load => 0,
        IrStmt::Store => -1,
        IrStmt::Label(_) => 0,
        IrStmt::Bz(_) => -1,
        IrStmt::Bnz(_) => -1,
        IrStmt::Jump(_) => 0,
        IrStmt::Pop => -1,
        IrStmt::Ret => -1,
    }
}

/// The per-instruction stack deltas of an instruction sequence, summed.
pub open spec fn code_delta(code: Seq<IrStmt>) -> int
    decreases code.len(),
{
    if code.len() == 0 {
        0
    } else {
        code_delta(code.drop_last()) + instr_delta(code.last())
    }
}

pub broadcast proof fn lemma_code_delta_push(code: Seq<IrStmt>, x: IrStmt)
    ensures
        #[trigger] code_delta(code.push(x)) == code_delta(code) + instr_delta(x),
{
    assert(code.push(x).drop_last() =~= code);
}

/// Whether an expression contains no ternary. The ternary emits the
/// instructions of both of its branches though only one executes at run
/// time, so summing per-instruction deltas over the emitted sequence only
/// reflects the run-time stack effect for ternary-free code.
pub open spec fn expr_ternary_free(e: Expr) -> bool
    decreases e,
{
    match e {
        Expr::Int(_) => true,
        Expr::Unary(_, x) => expr_ternary_free(*x),
        Expr::Binary(_, l, r) => expr_ternary_free(*l) && expr_ternary_free(*r),
        Expr::Var(_) => true,
        Expr::Assign(_, rhs) => expr_ternary_free(*rhs),
        Expr::Condition(_, _, _) => false,
    }
}

/// Whether an optional expression contains no ternary.
pub open spec fn opt_expr_ternary_free(oe: Option<Expr>) -> bool {
    match oe {
        None => true,
        Some(e) => expr_ternary_free(e),
    }
}

/// Whether every expression contained in a statement is ternary-free.
pub open spec fn stmt_ternary_free(s: Stmt) -> bool
    decreases s,
{
    match s {
        Stmt::Empty => true,
        Stmt::Ret(e) => expr_ternary_free(e),
        Stmt::Decl(d) => opt_expr_ternary_free(d.init),
        Stmt::Expr(e) => expr_ternary_free(e),
        Stmt::If(cond, t, f) => expr_ternary_free(cond) && stmt_ternary_free(*t)
            && opt_stmt_ternary_free(f),
        Stmt::Block(v) => stmts_ternary_free(v@),
        Stmt::DoWhile(body, cond) => stmt_ternary_free(*body) && expr_ternary_free(cond),
        Stmt::For { cond, update, body } => opt_expr_ternary_free(cond) && opt_expr_ternary_free(
            update,
        ) && stmt_ternary_free(*body),
        Stmt::Break => true,
        Stmt::Continue => true,
    }
}

/// Whether every expression contained in an optional statement is
/// ternary-free.
pub open spec fn opt_stmt_ternary_free(os: Option<Box<Stmt>>) -> bool
    decreases os,
{
    match os {
        None => true,
        Some(s) => stmt_ternary_free(*s),
    }
}

/// Whether every expression contained in a statement sequence is
/// ternary-free.
pub open spec fn stmts_ternary_free(ss: Seq<Stmt>) -> bool
    decreases ss,
{
    if ss.len() == 0 {
        true
    } else {
        stmt_ternary_free(ss.first()) && stmts_ternary_free(ss.drop_first())
    }
}

/// Expression single-value: the instructions emitted for a ternary-free
/// expression sum to a net stack effect of exactly +1 — the expression's
/// value.
pub proof fn lemma_expr_delta(e: Expr, st: CtxView)
    requires
        expr_ternary_free(e),
    ensures
        lower_expr(e, st) matches Ok(st2) ==> code_delta(st2.code) == code_delta(st.code) + 1,
    decreases e,
{
    broadcast use lemma_code_delta_push;

    match e {
        Expr::Int(_) => {},
        Expr::Unary(_, x) => {
            lemma_expr_delta(*x, st);
        },
        Expr::Binary(_, l, r) => {
            lemma_expr_delta(*l, st);
            match lower_expr(*l, st) {
                Ok(st1) => {
                    lemma_expr_delta(*r, st1);
                },
                Err(_) => {},
            }
        },
        Expr::Var(_) => {},
        Expr::Assign(_, rhs) => {
            lemma_expr_delta(*rhs, st);
        },
        Expr::Condition(_, _, _) => {},
    }
}

/// The instructions emitted for a ternary-free declaration sum to a net
/// stack effect of 0.
pub proof fn lemma_decl_delta(d: Decl, st: CtxView)
    requires
        opt_expr_ternary_free(d.init),
    ensures
        lower_decl(d, st) matches Ok(st2) ==> code_delta(st2.code) == code_delta(st.code),
{
    broadcast use lemma_code_delta_push;

    if !scope_binds(st.scopes.last(), d.name@) {
        let st1 = bind_name(st, d.name@);
        match d.init {
            None => {},
            Some(e) => {
                lemma_expr_delta(e, st1);
            },
        }
    }
}

/// Stack neutrality: the instructions emitted for a ternary-free statement
/// sum to a net stack effect of exactly 0.
#[verifier::rlimit(100)]
pub proof fn lemma_stmt_delta(s: Stmt, st: CtxView)
    requires
        stmt_ternary_free(s),
    ensures
        lower_stmt(s, st) matches Ok(st2) ==> code_delta(st2.code) == code_delta(st.code),
    decreases s,
{
    broadcast use lemma_code_delta_push;

    match s {
        Stmt::Empty => {},
        Stmt::Ret(e) => {
            lemma_expr_delta(e, st);
        },
        Stmt::Decl(d) => {
            lemma_decl_delta(d, st);
        },
        Stmt::Expr(e) => {
            lemma_expr_delta(e, st);
        },
        Stmt::If(cond, t, f) => {
            let (st1, before_f) = crate::ir::alloc_label(st);
            let (st2, after_f) = crate::ir::alloc_label(st1);
            lemma_expr_delta(cond, st2);
            match lower_expr(cond, st2) {
                Ok(st3) => {
                    let stb = emit(st3, IrStmt::Bz(before_f));
                    lemma_stmt_delta(*t, stb);
                    match lower_stmt(*t, stb) {
                        Ok(st4) => {
                            let st5 = emit(
                                emit(st4, IrStmt::Jump(after_f)),
                                IrStmt::Label(before_f),
                            );
                            match f {
                                None => {},
                                Some(fs) => {
                                    assert(opt_stmt_ternary_free(f) == stmt_ternary_free(*fs));
                                    lemma_stmt_delta(*fs, st5);
                                },
                            }
                        },
                        Err(_) => {},
                    }
                },
                Err(_) => {},
            }
        },
        Stmt::Block(v) => {
            lemma_stmts_delta(v@, enter_scope(st));
        },
        Stmt::DoWhile(body, cond) => {
            let (st1, before_body) = crate::ir::alloc_label(st);
            let (st2, before_cond) = crate::ir::alloc_label(st1);
            let (st3, after_cond) = crate::ir::alloc_label(st2);
            let st4 = emit(push_loop(st3, after_cond, before_cond), IrStmt::Label(before_body));
            lemma_stmt_delta(*body, st4);
            match lower_stmt(*body, st4) {
                Ok(st5) => {
                    lemma_expr_delta(cond, emit(st5, IrStmt::Label(before_cond)));
                },
                Err(_) => {},
            }
        },
        Stmt::For { cond, update, body } => {
            let (st1, before_cond) = crate::ir::alloc_label(st);
            let (st2, before_update) = crate::ir::alloc_label(st1);
            let (st3, after_body) = crate::ir::alloc_label(st2);
            let st4 = emit(push_loop(st3, after_body, before_update), IrStmt::Label(before_cond));
            let condres = match cond {
                None => Ok::<CtxView, ErrView>(st4),
                Some(c) => {
                    lemma_expr_delta(c, st4);
                    match lower_expr(c, st4) {
                        Ok(st5) => Ok(emit(st5, IrStmt::Bz(after_body))),
                        Err(er) => Err(er),
                    }
                },
            };
            match condres {
                Ok(st5) => {
                    lemma_stmt_delta(*body, st5);
                    match lower_stmt(*body, st5) {
                        Ok(st6) => {
                            let st7 = emit(st6, IrStmt::Label(before_update));
                            match update {
                                None => {},
                                Some(u) => {
                                    lemma_expr_delta(u, st7);
                                },
                            }
                        },
                        Err(_) => {},
                    }
                },
                Err(_) => {},
            }
        },
        Stmt::Break => {},
        Stmt::Continue => {},
    }
}

/// The instructions emitted for a ternary-free statement sequence sum to a
/// net stack effect of 0.
pub proof fn lemma_stmts_delta(ss: Seq<Stmt>, st: CtxView)
    requires
        stmts_ternary_free(ss),
    ensures
        lower_stmts(ss, st) matches Ok(st2) ==> code_delta(st2.code) == code_delta(st.code),
    decreases ss,
{
    if ss.len() > 0 {
        lemma_stmt_delta(ss.first(), st);
        match lower_stmt(ss.first(), st) {
            Ok(st1) => {
                lemma_stmts_delta(ss.drop_first(), st1);
            },
            Err(_) => {},
        }
    }
}

/// Every successfully lowered function's instruction sequence ends in a
/// return: either the body already ends in one, or `Const(0), Ret` is
/// appended.
pub proof fn lemma_function_ends_with_ret(f: Func)
    ensures
        lower_func(f) matches Ok(ir) ==> ends_with_ret(ir.code),
{
    match lower_stmts(f.stmts@, init_ctx()) {
        Ok(st) => {
            if !ends_with_ret(st.code) {
                assert(st.code.push(IrStmt::Const(0)).push(IrStmt::Ret).last() == IrStmt::Ret);
            }
        },
        Err(_) => {},
    }
}

} // verus!
