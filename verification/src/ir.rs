//! Lowering from the abstract syntax tree to the stack-machine instruction
//! sequence.
//!
//! The mathematical model of the pass is the family of spec functions
//! `lower_expr`, `lower_stmt`, `lower_stmts`, `lower_decl` and `lower_func`,
//! which transform a [`CtxView`] — the state of one lowering session — exactly
//! as the executable functions transform a [`FuncCtx`]. Every executable
//! function here is proved to produce precisely the state that its spec
//! counterpart describes.

use vstd::prelude::*;
use crate::ast::{Expr, Stmt, Decl, Func, Prog, UnaryOp, BinaryOp};
use crate::ast::{expr_size, stmt_size, stmts_size, decl_size, opt_stmt_size};

verus! {

/// One instruction of the stack-machine intermediate representation.
#[derive(Clone, Copy, PartialEq, Eq, Structural, Debug)]
pub enum IrStmt {
    /// Push a constant onto the operand stack.
    Const(i32),
    /// Pop one value, apply the unary operator, push the result.
    Unary(UnaryOp),
    /// Pop the right operand (top) and the left operand (beneath), apply the
    /// binary operator, push the result.
    Binary(BinaryOp),
    /// Push the address of the local variable with the given slot id.
    LocalAddr(u32),
    /// Pop an address, push the value stored at that address.
    Load,
    /// Pop an address (top) and a value (beneath), store the value at the
    /// address, then push the value back.
    Store,
    /// Define a control-flow label; performs no operation.
    Label(u32),
    /// Pop a value; jump to the label if the value is zero.
    Bz(u32),
    /// Pop a value; jump to the label if the value is nonzero.
    Bnz(u32),
    /// Jump unconditionally to the label.
    Jump(u32),
    /// Pop and discard the top of the stack.
    Pop,
    /// Pop the top of the stack and return it as the function's result.
    Ret,
}

/// A lowered function: its name, the count of allocated local slots, and the
/// flat instruction sequence.
#[derive(Debug)]
pub struct IrFunc {
    pub name: String,
    pub var_cnt: u32,
    pub stmts: Vec<IrStmt>,
}

/// A lowered program holds exactly one lowered function.
#[derive(Debug)]
pub struct IrProg {
    pub func: IrFunc,
}

/// The static semantic errors that abort a lowering pass.
#[derive(PartialEq, Eq, Debug)]
pub enum LowerError {
    /// A second declaration of the name within the same block scope.
    DuplicateDeclaration(String),
    /// A reference to, or assignment of, a name no enclosing scope binds.
    UnboundVariable(String),
    /// `break` outside of any loop.
    BreakOutsideLoop,
    /// `continue` outside of any loop.
    ContinueOutsideLoop,
}

/// The mathematical counterpart of [`LowerError`], over character sequences.
pub enum ErrView {
    DuplicateDeclaration(Seq<char>),
    UnboundVariable(Seq<char>),
    BreakOutsideLoop,
    ContinueOutsideLoop,
}

impl View for LowerError {
    type V = ErrView;

    open spec fn view(&self) -> ErrView {
        match self {
            LowerError::DuplicateDeclaration(n) => ErrView::DuplicateDeclaration(n@),
            LowerError::UnboundVariable(n) => ErrView::UnboundVariable(n@),
            LowerError::BreakOutsideLoop => ErrView::BreakOutsideLoop,
            LowerError::ContinueOutsideLoop => ErrView::ContinueOutsideLoop,
        }
    }
}

/// The mutable state of one function's lowering session: the scope stack, the
/// instructions emitted so far, the loop-context stack, and the slot and
/// label counters.
pub struct FuncCtx {
    /// One symbol table per open lexical block, innermost last; each maps a
    /// name to its slot id.
    pub names: Vec<Vec<(String, u32)>>,
    /// The instructions emitted so far, in program order.
    pub stmts: Vec<IrStmt>,
    /// The (break target, continue target) label pair of each lexically
    /// enclosing loop, innermost last.
    pub loops: Vec<(u32, u32)>,
    /// The count of local-variable slots allocated so far.
    pub var_cnt: u32,
    /// The count of labels allocated so far.
    pub label_cnt: u32,
}

/// The mathematical view of one scope's symbol table.
pub open spec fn scope_view(sc: Vec<(String, u32)>) -> Seq<(Seq<char>, u32)> {
    sc@.map_values(|p: (String, u32)| (p.0@, p.1))
}

/// The mathematical view of the whole scope stack.
pub open spec fn scopes_view(names: Seq<Vec<(String, u32)>>) -> Seq<Seq<(Seq<char>, u32)>> {
    names.map_values(|sc: Vec<(String, u32)>| scope_view(sc))
}

/// The mathematical view of a lowering session's state.
#[verifier::ext_equal]
pub struct CtxView {
    pub scopes: Seq<Seq<(Seq<char>, u32)>>,
    pub code: Seq<IrStmt>,
    pub loops: Seq<(u32, u32)>,
    pub var_cnt: u32,
    pub label_cnt: u32,
}

impl View for FuncCtx {
    type V = CtxView;

    open spec fn view(&self) -> CtxView {
        CtxView {
            scopes: scopes_view(self.names@),
            code: self.stmts@,
            loops: self.loops@,
            var_cnt: self.var_cnt,
            label_cnt: self.label_cnt,
        }
    }
}

/// The mathematical view of a lowered function.
#[verifier::ext_equal]
pub struct IrFuncView {
    pub name: Seq<char>,
    pub var_cnt: u32,
    pub code: Seq<IrStmt>,
}

impl View for IrFunc {
    type V = IrFuncView;

    open spec fn view(&self) -> IrFuncView {
        IrFuncView { name: self.name@, var_cnt: self.var_cnt, code: self.stmts@ }
    }
}

/// Whether some entry of one scope binds `name`.
pub open spec fn scope_binds(scope: Seq<(Seq<char>, u32)>, name: Seq<char>) -> bool {
    exists|k: int| 0 <= k < scope.len() && scope[k].0 == name
}

/// The slot a single scope resolves `name` to, searching the most recent
/// binding first.
pub open spec fn scope_lookup(scope: Seq<(Seq<char>, u32)>, name: Seq<char>) -> Option<u32>
    decreases scope.len(),
{
    if scope.len() == 0 {
        None
    } else if scope.last().0 == name {
        Some(scope.last().1)
    } else {
        scope_lookup(scope.drop_last(), name)
    }
}

/// The slot the scope stack resolves `name` to: scopes are searched from the
/// innermost outward, so an inner binding shadows any outer one.
pub open spec fn resolve(scopes: Seq<Seq<(Seq<char>, u32)>>, name: Seq<char>) -> Option<u32>
    decreases scopes.len(),
{
    if scopes.len() == 0 {
        None
    } else {
        match scope_lookup(scopes.last(), name) {
            Some(id) => Some(id),
            None => resolve(scopes.drop_last(), name),
        }
    }
}

/// Appends one instruction to the session state.
pub open spec fn emit(st: CtxView, i: IrStmt) -> CtxView {
    CtxView { code: st.code.push(i), ..st }
}

/// Allocates a fresh label: the state with the counter advanced, and the
/// fresh label id.
pub open spec fn alloc_label(st: CtxView) -> (CtxView, u32) {
    (CtxView { label_cnt: ((st.label_cnt + 1) as u32), ..st }, st.label_cnt)
}

/// Opens a fresh, empty lexical scope.
pub open spec fn enter_scope(st: CtxView) -> CtxView {
    CtxView { scopes: st.scopes.push(Seq::empty()), ..st }
}

/// Closes the innermost lexical scope.
pub open spec fn exit_scope(st: CtxView) -> CtxView {
    CtxView { scopes: st.scopes.drop_last(), ..st }
}

/// Records the innermost enclosing loop's (break target, continue target).
pub open spec fn push_loop(st: CtxView, brk: u32, cont: u32) -> CtxView {
    CtxView { loops: st.loops.push((brk, cont)), ..st }
}

/// Forgets the innermost loop context.
pub open spec fn pop_loop(st: CtxView) -> CtxView {
    CtxView { loops: st.loops.drop_last(), ..st }
}

/// Binds `name` to the next free slot in the innermost scope and advances the
/// slot counter.
pub open spec fn bind_name(st: CtxView, name: Seq<char>) -> CtxView {
    CtxView {
        scopes: st.scopes.update(st.scopes.len() - 1, st.scopes.last().push((name, st.var_cnt))),
        var_cnt: ((st.var_cnt + 1) as u32),
        ..st
    }
}

/// What lowering an expression does to the session state. The emitted
/// instructions leave exactly one value — the expression's value — on the
/// operand stack.
pub open spec fn lower_expr(e: Expr, st: CtxView) -> Result<CtxView, ErrView>
    decreases e,
{
    match e {
        Expr::Int(x) => Ok(emit(st, IrStmt::Const(x))),
        Expr::Unary(op, x) => match lower_expr(*x, st) {
            Ok(st1) => Ok(emit(st1, IrStmt::Unary(op))),
            Err(er) => Err(er),
        },
        Expr::Binary(op, l, r) => match lower_expr(*l, st) {
            Ok(st1) => match lower_expr(*r, st1) {
                Ok(st2) => Ok(emit(st2, IrStmt::Binary(op))),
                Err(er) => Err(er),
            },
            Err(er) => Err(er),
        },
        Expr::Var(name) => match resolve(st.scopes, name@) {
            Some(id) => Ok(emit(emit(st, IrStmt::LocalAddr(id)), IrStmt::Load)),
            None => Err(ErrView::UnboundVariable(name@)),
        },
        Expr::Assign(name, rhs) => match lower_expr(*rhs, st) {
            Ok(st1) => match resolve(st1.scopes, name@) {
                Some(id) => Ok(emit(emit(st1, IrStmt::LocalAddr(id)), IrStmt::Store)),
                None => Err(ErrView::UnboundVariable(name@)),
            },
            Err(er) => Err(er),
        },
        Expr::Condition(c, t, f) => match lower_expr(*c, st) {
            Ok(st1) => {
                let (st2, before_f) = alloc_label(st1);
                let (st3, after_f) = alloc_label(st2);
                match lower_expr(*t, emit(st3, IrStmt::Bz(before_f))) {
                    Ok(st4) => {
                        let st5 = emit(emit(st4, IrStmt::Jump(after_f)), IrStmt::Label(before_f));
                        match lower_expr(*f, st5) {
                            Ok(st6) => Ok(emit(st6, IrStmt::Label(after_f))),
                            Err(er) => Err(er),
                        }
                    },
                    Err(er) => Err(er),
                }
            },
            Err(er) => Err(er),
        },
    }
}

/// What lowering a declaration does to the session state: reject a name the
/// innermost scope already binds, otherwise bind it to a fresh slot and, when
/// an initializer is present, lower it as an assignment whose value is then
/// discarded.
pub open spec fn lower_decl(d: Decl, st: CtxView) -> Result<CtxView, ErrView>
    decreases d,
{
    if scope_binds(st.scopes.last(), d.name@) {
        Err(ErrView::DuplicateDeclaration(d.name@))
    } else {
        let id = st.var_cnt;
        let st1 = bind_name(st, d.name@);
        match d.init {
            None => Ok(st1),
            Some(e) => match lower_expr(e, st1) {
                Ok(st2) => Ok(
                    emit(emit(emit(st2, IrStmt::LocalAddr(id)), IrStmt::Store), IrStmt::Pop),
                ),
                Err(er) => Err(er),
            },
        }
    }
}

/// What lowering one statement does to the session state. The emitted
/// instructions leave the operand stack depth unchanged.
pub open spec fn lower_stmt(s: Stmt, st: CtxView) -> Result<CtxView, ErrView>
    decreases s,
{
    match s {
        Stmt::Empty => Ok(st),
        Stmt::Ret(e) => match lower_expr(e, st) {
            Ok(st1) => Ok(emit(st1, IrStmt::Ret)),
            Err(er) => Err(er),
        },
        Stmt::Decl(d) => lower_decl(d, st),
        Stmt::Expr(e) => match lower_expr(e, st) {
            Ok(st1) => Ok(emit(st1, IrStmt::Pop)),
            Err(er) => Err(er),
        },
        Stmt::If(cond, t, f) => {
            let (st1, before_f) = alloc_label(st);
            let (st2, after_f) = alloc_label(st1);
            match lower_expr(cond, st2) {
                Ok(st3) => match lower_stmt(*t, emit(st3, IrStmt::Bz(before_f))) {
                    Ok(st4) => {
                        let st5 = emit(emit(st4, IrStmt::Jump(after_f)), IrStmt::Label(before_f));
                        match f {
                            None => Ok(emit(st5, IrStmt::Label(after_f))),
                            Some(fs) => match lower_stmt(*fs, st5) {
                                Ok(st6) => Ok(emit(st6, IrStmt::Label(after_f))),
                                Err(er) => Err(er),
                            },
                        }
                    },
                    Err(er) => Err(er),
                },
                Err(er) => Err(er),
            }
        },
        Stmt::Block(v) => match lower_stmts(v@, enter_scope(st)) {
            Ok(st1) => Ok(exit_scope(st1)),
            Err(er) => Err(er),
        },
        Stmt::DoWhile(body, cond) => {
            let (st1, before_body) = alloc_label(st);
            let (st2, before_cond) = alloc_label(st1);
            let (st3, after_cond) = alloc_label(st2);
            let st4 = emit(push_loop(st3, after_cond, before_cond), IrStmt::Label(before_body));
            match lower_stmt(*body, st4) {
                Ok(st5) => match lower_expr(cond, emit(st5, IrStmt::Label(before_cond))) {
                    Ok(st6) => Ok(
                        pop_loop(
                            emit(emit(st6, IrStmt::Bnz(before_body)), IrStmt::Label(after_cond)),
                        ),
                    ),
                    Err(er) => Err(er),
                },
                Err(er) => Err(er),
            }
        },
        Stmt::For { cond, update, body } => {
            let (st1, before_cond) = alloc_label(st);
            let (st2, before_update) = alloc_label(st1);
            let (st3, after_body) = alloc_label(st2);
            let st4 = emit(push_loop(st3, after_body, before_update), IrStmt::Label(before_cond));
            let condres = match cond {
                None => Ok(st4),
                Some(c) => match lower_expr(c, st4) {
                    Ok(st5) => Ok(emit(st5, IrStmt::Bz(after_body))),
                    Err(er) => Err(er),
                },
            };
            match condres {
                Ok(st5) => match lower_stmt(*body, st5) {
                    Ok(st6) => {
                        let st7 = emit(st6, IrStmt::Label(before_update));
                        let upres = match update {
                            None => Ok(st7),
                            Some(u) => match lower_expr(u, st7) {
                                Ok(st8) => Ok(emit(st8, IrStmt::Pop)),
                                Err(er) => Err(er),
                            },
                        };
                        match upres {
                            Ok(st8) => Ok(
                                pop_loop(
                                    emit(
                                        emit(st8, IrStmt::Jump(before_cond)),
                                        IrStmt::Label(after_body),
                                    ),
                                ),
                            ),
                            Err(er) => Err(er),
                        }
                    },
                    Err(er) => Err(er),
                },
                Err(er) => Err(er),
            }
        },
        Stmt::Break => if st.loops.len() == 0 {
            Err(ErrView::BreakOutsideLoop)
        } else {
            Ok(emit(st, IrStmt::Jump(st.loops.last().0)))
        },
        Stmt::Continue => if st.loops.len() == 0 {
            Err(ErrView::ContinueOutsideLoop)
        } else {
            Ok(emit(st, IrStmt::Jump(st.loops.last().1)))
        },
    }
}

/// What lowering a statement sequence does: the statements are lowered in
/// order, stopping at the first error.
pub open spec fn lower_stmts(ss: Seq<Stmt>, st: CtxView) -> Result<CtxView, ErrView>
    decreases ss,
{
    if ss.len() == 0 {
        Ok(st)
    } else {
        match lower_stmt(ss.first(), st) {
            Ok(st1) => lower_stmts(ss.drop_first(), st1),
            Err(er) => Err(er),
        }
    }
}

/// The state a lowering session starts from: one empty top-level scope, no
/// instructions, no enclosing loop, and both counters at zero.
pub open spec fn init_ctx() -> CtxView {
    CtxView {
        scopes: seq![Seq::empty()],
        code: Seq::empty(),
        loops: Seq::empty(),
        var_cnt: 0,
        label_cnt: 0,
    }
}

/// Whether an instruction sequence ends in a return.
pub open spec fn ends_with_ret(code: Seq<IrStmt>) -> bool {
    code.len() > 0 && code.last() is Ret
}

/// What lowering a whole function yields: its body lowered in one top-level
/// scope, with `Const(0), Ret` appended when the body's instructions do not
/// already end in a return.
pub open spec fn lower_func(f: Func) -> Result<IrFuncView, ErrView> {
    match lower_stmts(f.stmts@, init_ctx()) {
        Ok(st) => {
            let code = if ends_with_ret(st.code) {
                st.code
            } else {
                st.code.push(IrStmt::Const(0)).push(IrStmt::Ret)
            };
            Ok(IrFuncView { name: f.name@, var_cnt: st.var_cnt, code: code })
        },
        Err(er) => Err(er),
    }
}

impl FuncCtx {
    /// Issues a fresh control-flow label id, strictly increasing within one
    /// lowering session.
    pub fn new_label(&mut self) -> (r: u32)
        requires
            old(self)@.label_cnt < u32::MAX,
        ensures
            r == alloc_label(old(self)@).1,
            final(self)@ == alloc_label(old(self)@).0,
    {
        let l = self.label_cnt;
        self.label_cnt = l + 1;
        l
    }

    /// Resolves `name` against the scope stack, innermost scope first and
    /// most recent binding first within a scope; an unbound name is an
    /// `UnboundVariable` error.
    pub fn lookup(&self, name: &str) -> (r: Result<u32, LowerError>)
        ensures
            match r {
                Ok(id) => resolve(self@.scopes, name@) == Some(id),
                Err(er) => {
                    &&& resolve(self@.scopes, name@) is None
                    &&& er@ == ErrView::UnboundVariable(name@)
                },
            },
    {
        let key: String = String::from_str(name);
        proof {
            assert(self@.scopes.take(self@.scopes.len() as int) =~= self@.scopes);
        }
        let mut i: usize = self.names.len();
        while i > 0
            invariant
                i <= self.names.len(),
                key@ == name@,
                resolve(self@.scopes.take(i as int), name@) == resolve(self@.scopes, name@),
            decreases i,
        {
            i = i - 1;
            let sc: &Vec<(String, u32)> = &self.names[i];
            let ghost sv = self@.scopes[i as int];
            proof {
                assert(sv == scope_view(*sc));
                assert(sv.take(sv.len() as int) =~= sv);
            }
            let mut j: usize = sc.len();
            while j > 0
                invariant
                    j <= sc.len(),
                    key@ == name@,
                    i < self@.scopes.len(),
                    sv == self@.scopes[i as int],
                    sv == scope_view(*sc),
                    resolve(self@.scopes.take(i as int + 1), name@) == resolve(
                        self@.scopes,
                        name@,
                    ),
                    scope_lookup(sv.take(j as int), name@) == scope_lookup(sv, name@),
                decreases j,
            {
                j = j - 1;
                let p: &(String, u32) = &sc[j];
                proof {
                    assert(sv[j as int] == (p.0@, p.1));
                    assert(sv.take(j as int + 1).last() == sv[j as int]);
                    assert(sv.take(j as int + 1).drop_last() =~= sv.take(j as int));
                }
                if p.0 == key {
                    proof {
                        assert(scope_lookup(sv.take(j as int + 1), name@) == Some(p.1));
                        assert(scope_lookup(sv, name@) == Some(p.1));
                        assert(self@.scopes.take(i as int + 1).last() == sv);
                        assert(self@.scopes.take(i as int + 1).drop_last() =~= self@.scopes.take(
                            i as int,
                        ));
                        assert(resolve(self@.scopes.take(i as int + 1), name@) == Some(p.1));
                    }
                    return Ok(p.1);
                }
            }
            proof {
                assert(sv.take(0) =~= Seq::<(Seq<char>, u32)>::empty());
                assert(self@.scopes.take(i as int + 1).last() == sv);
                assert(self@.scopes.take(i as int + 1).drop_last() =~= self@.scopes.take(i as int));
            }
        }
        proof {
            assert(self@.scopes.take(0) =~= Seq::<Seq<(Seq<char>, u32)>>::empty());
        }
        Err(LowerError::UnboundVariable(key))
    }
}

/// Lowers one expression, appending instructions that leave exactly the
/// expression's value on the operand stack; produces precisely the state
/// that `lower_expr` describes.
pub fn expr(ctx: &mut FuncCtx, e: &Expr) -> (r: Result<(), LowerError>)
    requires
        old(ctx)@.label_cnt + expr_size(*e) <= u32::MAX,
    ensures
        match r {
            Ok(()) => {
                &&& lower_expr(*e, old(ctx)@) == Ok::<CtxView, ErrView>(final(ctx)@)
                &&& final(ctx)@.scopes == old(ctx)@.scopes
                &&& final(ctx)@.loops == old(ctx)@.loops
                &&& final(ctx)@.var_cnt == old(ctx)@.var_cnt
                &&& old(ctx)@.label_cnt <= final(ctx)@.label_cnt
                &&& final(ctx)@.label_cnt <= old(ctx)@.label_cnt + expr_size(*e)
            },
            Err(er) => lower_expr(*e, old(ctx)@) == Err::<CtxView, ErrView>(er@),
        },
    decreases *e,
{
    match e {
        Expr::Int(x) => {
            ctx.stmts.push(IrStmt::Const(*x));
            Ok(())
        },
        Expr::Unary(op, x) => {
            match expr(ctx, x) {
                Ok(()) => {},
                Err(er) => {
                    return Err(er);
                },
            }
            ctx.stmts.push(IrStmt::Unary(*op));
            Ok(())
        },
        Expr::Binary(op, l, r) => {
            match expr(ctx, l) {
                Ok(()) => {},
                Err(er) => {
                    return Err(er);
                },
            }
            match expr(ctx, r) {
                Ok(()) => {},
                Err(er) => {
                    return Err(er);
                },
            }
            ctx.stmts.push(IrStmt::Binary(*op));
            Ok(())
        },
        Expr::Var(name) => {
            match ctx.lookup(name.as_str()) {
                Ok(id) => {
                    ctx.stmts.push(IrStmt::LocalAddr(id));
                    ctx.stmts.push(IrStmt::Load);
                    Ok(())
                },
                Err(er) => Err(er),
            }
        },
        Expr::Assign(name, rhs) => {
            match expr(ctx, rhs) {
                Ok(()) => {},
                Err(er) => {
                    return Err(er);
                },
            }
            match ctx.lookup(name.as_str()) {
                Ok(id) => {
                    ctx.stmts.push(IrStmt::LocalAddr(id));
                    ctx.stmts.push(IrStmt::Store);
                    Ok(())
                },
                Err(er) => Err(er),
            }
        },
        Expr::Condition(c, t, f) => {
            match expr(ctx, c) {
                Ok(()) => {},
                Err(er) => {
                    return Err(er);
                },
            }
            let before_f = ctx.new_label();
            let after_f = ctx.new_label();
            ctx.stmts.push(IrStmt::Bz(before_f));
            match expr(ctx, t) {
                Ok(()) => {},
                Err(er) => {
                    return Err(er);
                },
            }
            ctx.stmts.push(IrStmt::Jump(after_f));
            ctx.stmts.push(IrStmt::Label(before_f));
            match expr(ctx, f) {
                Ok(()) => {},
                Err(er) => {
                    return Err(er);
                },
            }
            ctx.stmts.push(IrStmt::Label(after_f));
            Ok(())
        },
    }
}

/// Whether some entry of one scope's symbol table binds `name`.
fn scope_contains(sc: &Vec<(String, u32)>, name: &String) -> (r: bool)
    ensures
        r == scope_binds(scope_view(*sc), name@),
{
    let mut j: usize = 0;
    while j < sc.len()
        invariant
            j <= sc.len(),
            forall|k: int| 0 <= k < j ==> scope_view(*sc)[k].0 != name@,
        decreases sc.len() - j,
    {
        let p: &(String, u32) = &sc[j];
        proof {
            assert(scope_view(*sc)[j as int] == (p.0@, p.1));
        }
        if p.0 == *name {
            proof {
                assert(scope_view(*sc)[j as int].0 == name@);
            }
            return true;
        }
        j = j + 1;
    }
    false
}

/// Lowers one declaration: binds the name to a fresh slot in the innermost
/// scope — rejecting a name that scope already binds — and lowers any
/// initializer as an assignment whose value is then discarded.
pub fn decl(ctx: &mut FuncCtx, d: &Decl) -> (r: Result<(), LowerError>)
    requires
        old(ctx)@.scopes.len() >= 1,
        old(ctx)@.label_cnt + decl_size(*d) <= u32::MAX,
        old(ctx)@.var_cnt + decl_size(*d) <= u32::MAX,
    ensures
        match r {
            Ok(()) => {
                &&& lower_decl(*d, old(ctx)@) == Ok::<CtxView, ErrView>(final(ctx)@)
                &&& final(ctx)@.scopes.len() == old(ctx)@.scopes.len()
                &&& final(ctx)@.loops == old(ctx)@.loops
                &&& old(ctx)@.label_cnt <= final(ctx)@.label_cnt
                &&& final(ctx)@.label_cnt <= old(ctx)@.label_cnt + decl_size(*d)
                &&& old(ctx)@.var_cnt <= final(ctx)@.var_cnt
                &&& final(ctx)@.var_cnt <= old(ctx)@.var_cnt + decl_size(*d)
            },
            Err(er) => lower_decl(*d, old(ctx)@) == Err::<CtxView, ErrView>(er@),
        },
    decreases *d,
{
    let nlen = ctx.names.len();
    proof {
        assert(scope_view(ctx.names@[nlen as int - 1]) == old(ctx)@.scopes.last());
    }
    if scope_contains(&ctx.names[nlen - 1], &d.name) {
        return Err(LowerError::DuplicateDeclaration(d.name.clone()));
    }
    let id = ctx.var_cnt;
    match ctx.names.pop() {
        Some(mut inner) => {
            inner.push((d.name.clone(), id));
            ctx.names.push(inner);
        },
        None => {
            proof {
                assert(false);
            }
        },
    }
    ctx.var_cnt = id + 1;
    proof {
        assert(ctx@.scopes =~~= bind_name(old(ctx)@, d.name@).scopes);
        assert(ctx@ =~= bind_name(old(ctx)@, d.name@));
    }
    match &d.init {
        None => Ok(()),
        Some(e) => {
            match expr(ctx, e) {
                Ok(()) => {},
                Err(er) => {
                    return Err(er);
                },
            }
            ctx.stmts.push(IrStmt::LocalAddr(id));
            ctx.stmts.push(IrStmt::Store);
            ctx.stmts.push(IrStmt::Pop);
            Ok(())
        },
    }
}

/// Lowers one statement, appending instructions that leave the operand stack
/// depth unchanged; produces precisely the state that `lower_stmt`
/// describes.
#[verifier::rlimit(100)]
pub fn stmt(ctx: &mut FuncCtx, s: &Stmt) -> (r: Result<(), LowerError>)
    requires
        old(ctx)@.scopes.len() >= 1,
        old(ctx)@.label_cnt + stmt_size(*s) <= u32::MAX,
        old(ctx)@.var_cnt + stmt_size(*s) <= u32::MAX,
    ensures
        match r {
            Ok(()) => {
                &&& lower_stmt(*s, old(ctx)@) == Ok::<CtxView, ErrView>(final(ctx)@)
                &&& final(ctx)@.scopes.len() == old(ctx)@.scopes.len()
                &&& final(ctx)@.loops == old(ctx)@.loops
                &&& old(ctx)@.label_cnt <= final(ctx)@.label_cnt
                &&& final(ctx)@.label_cnt <= old(ctx)@.label_cnt + stmt_size(*s)
                &&& old(ctx)@.var_cnt <= final(ctx)@.var_cnt
                &&& final(ctx)@.var_cnt <= old(ctx)@.var_cnt + stmt_size(*s)
            },
            Err(er) => lower_stmt(*s, old(ctx)@) == Err::<CtxView, ErrView>(er@),
        },
    decreases *s,
{
    match s {
        Stmt::Empty => Ok(()),
        Stmt::Ret(e) => {
            match expr(ctx, e) {
                Ok(()) => {},
                Err(er) => {
                    return Err(er);
                },
            }
            ctx.stmts.push(IrStmt::Ret);
            Ok(())
        },
        Stmt::Decl(d) => decl(ctx, d),
        Stmt::Expr(e) => {
            match expr(ctx, e) {
                Ok(()) => {},
                Err(er) => {
                    return Err(er);
                },
            }
            ctx.stmts.push(IrStmt::Pop);
            Ok(())
        },
        Stmt::If(cond, t, f) => {
            proof {
                assert(stmt_size(*s) == 2 + expr_size(*cond) + stmt_size(**t) + opt_stmt_size(*f));
            }
            let before_f = ctx.new_label();
            let after_f = ctx.new_label();
            match expr(ctx, cond) {
                Ok(()) => {},
                Err(er) => {
                    return Err(er);
                },
            }
            ctx.stmts.push(IrStmt::Bz(before_f));
            match stmt(ctx, t) {
                Ok(()) => {},
                Err(er) => {
                    return Err(er);
                },
            }
            ctx.stmts.push(IrStmt::Jump(after_f));
            ctx.stmts.push(IrStmt::Label(before_f));
            match f {
                None => {},
                Some(fs) => {
                    proof {
                        assert(opt_stmt_size(*f) == stmt_size(**fs));
                    }
                    match stmt(ctx, fs) {
                        Ok(()) => {},
                        Err(er) => {
                            return Err(er);
                        },
                    }
                },
            }
            ctx.stmts.push(IrStmt::Label(after_f));
            Ok(())
        },
        Stmt::Block(v) => {
            ctx.names.push(Vec::new());
            proof {
                assert(ctx@.scopes =~~= enter_scope(old(ctx)@).scopes);
                assert(ctx@ =~= enter_scope(old(ctx)@));
            }
            let ghost st_a = ctx@;
            proof {
                assert(v@.skip(0) =~= v@);
            }
            let mut k: usize = 0;
            while k < v.len()
                invariant
                    k <= v.len(),
                    ctx@.scopes.len() == st_a.scopes.len(),
                    st_a.scopes.len() == old(ctx)@.scopes.len() + 1,
                    ctx@.loops == st_a.loops,
                    st_a.label_cnt == old(ctx)@.label_cnt,
                    st_a.var_cnt == old(ctx)@.var_cnt,
                    old(ctx)@.label_cnt <= ctx@.label_cnt,
                    old(ctx)@.var_cnt <= ctx@.var_cnt,
                    ctx@.label_cnt + stmts_size(v@.skip(k as int)) <= old(ctx)@.label_cnt
                        + stmts_size(v@),
                    ctx@.var_cnt + stmts_size(v@.skip(k as int)) <= old(ctx)@.var_cnt
                        + stmts_size(v@),
                    old(ctx)@.label_cnt + stmt_size(*s) <= u32::MAX,
                    old(ctx)@.var_cnt + stmt_size(*s) <= u32::MAX,
                    *s == Stmt::Block(*v),
                    st_a == enter_scope(old(ctx)@),
                    lower_stmts(v@.skip(k as int), ctx@) == lower_stmts(v@, st_a),
                decreases v.len() - k,
            {
                proof {
                    assert(v@.skip(k as int).first() == v@[k as int]);
                    assert(v@.skip(k as int).drop_first() =~= v@.skip(k as int + 1));
                }
                match stmt(ctx, &v[k]) {
                    Ok(()) => {},
                    Err(er) => {
                        return Err(er);
                    },
                }
                k = k + 1;
            }
            proof {
                assert(v@.skip(v@.len() as int) =~= Seq::<Stmt>::empty());
            }
            let ghost st_end = ctx@;
            match ctx.names.pop() {
                Some(_) => {},
                None => {
                    proof {
                        assert(false);
                    }
                },
            }
            proof {
                assert(ctx@.scopes =~~= exit_scope(st_end).scopes);
                assert(ctx@ =~= exit_scope(st_end));
            }
            Ok(())
        },
        Stmt::DoWhile(body, cond) => {
            let before_body = ctx.new_label();
            let before_cond = ctx.new_label();
            let after_cond = ctx.new_label();
            ctx.loops.push((after_cond, before_cond));
            ctx.stmts.push(IrStmt::Label(before_body));
            match stmt(ctx, body) {
                Ok(()) => {},
                Err(er) => {
                    return Err(er);
                },
            }
            ctx.stmts.push(IrStmt::Label(before_cond));
            match expr(ctx, cond) {
                Ok(()) => {},
                Err(er) => {
                    return Err(er);
                },
            }
            ctx.stmts.push(IrStmt::Bnz(before_body));
            ctx.stmts.push(IrStmt::Label(after_cond));
            let ghost st_end = ctx@;
            match ctx.loops.pop() {
                Some(_) => {},
                None => {
                    proof {
                        assert(false);
                    }
                },
            }
            proof {
                assert(ctx@ =~= pop_loop(st_end));
                assert(ctx@.loops =~= old(ctx)@.loops);
            }
            Ok(())
        },
        Stmt::For { cond, update, body } => {
            let before_cond = ctx.new_label();
            let before_update = ctx.new_label();
            let after_body = ctx.new_label();
            ctx.loops.push((after_body, before_update));
            ctx.stmts.push(IrStmt::Label(before_cond));
            match cond {
                None => {},
                Some(c) => {
                    match expr(ctx, c) {
                        Ok(()) => {},
                        Err(er) => {
                            return Err(er);
                        },
                    }
                    ctx.stmts.push(IrStmt::Bz(after_body));
                },
            }
            match stmt(ctx, body) {
                Ok(()) => {},
                Err(er) => {
                    return Err(er);
                },
            }
            ctx.stmts.push(IrStmt::Label(before_update));
            match update {
                None => {},
                Some(u) => {
                    match expr(ctx, u) {
                        Ok(()) => {},
                        Err(er) => {
                            return Err(er);
                        },
                    }
                    ctx.stmts.push(IrStmt::Pop);
                },
            }
            ctx.stmts.push(IrStmt::Jump(before_cond));
            ctx.stmts.push(IrStmt::Label(after_body));
            let ghost st_end = ctx@;
            match ctx.loops.pop() {
                Some(_) => {},
                None => {
                    proof {
                        assert(false);
                    }
                },
            }
            proof {
                assert(ctx@ =~= pop_loop(st_end));
                assert(ctx@.loops =~= old(ctx)@.loops);
            }
            Ok(())
        },
        Stmt::Break => {
            let n = ctx.loops.len();
            if n == 0 {
                Err(LowerError::BreakOutsideLoop)
            } else {
                let p = ctx.loops[n - 1];
                ctx.stmts.push(IrStmt::Jump(p.0));
                Ok(())
            }
        },
        Stmt::Continue => {
            let n = ctx.loops.len();
            if n == 0 {
                Err(LowerError::ContinueOutsideLoop)
            } else {
                let p = ctx.loops[n - 1];
                ctx.stmts.push(IrStmt::Jump(p.1));
                Ok(())
            }
        },
    }
}

/// Lowers a whole function: its body in one top-level scope, then the
/// implicit `Const(0), Ret` when the body's instructions do not already end
/// in a return.
pub fn func(f: &Func) -> (r: Result<IrFunc, LowerError>)
    requires
        stmts_size(f.stmts@) <= u32::MAX,
    ensures
        match r {
            Ok(ir) => lower_func(*f) == Ok::<IrFuncView, ErrView>(ir@),
            Err(er) => lower_func(*f) == Err::<IrFuncView, ErrView>(er@),
        },
{
    let mut ctx = FuncCtx {
        names: Vec::new(),
        stmts: Vec::new(),
        loops: Vec::new(),
        var_cnt: 0,
        label_cnt: 0,
    };
    ctx.names.push(Vec::new());
    proof {
        assert(ctx@.scopes =~~= init_ctx().scopes);
        assert(ctx@ =~= init_ctx());
    }
    let v: &Vec<Stmt> = &f.stmts;
    proof {
        assert(v@.skip(0) =~= v@);
    }
    let mut k: usize = 0;
    while k < v.len()
        invariant
            k <= v.len(),
            ctx@.scopes.len() == 1,
            ctx@.label_cnt + stmts_size(v@.skip(k as int)) <= stmts_size(v@),
            ctx@.var_cnt + stmts_size(v@.skip(k as int)) <= stmts_size(v@),
            stmts_size(v@) <= u32::MAX,
            v@ == f.stmts@,
            lower_stmts(v@.skip(k as int), ctx@) == lower_stmts(v@, init_ctx()),
        decreases v.len() - k,
    {
        proof {
            assert(v@.skip(k as int).first() == v@[k as int]);
            assert(v@.skip(k as int).drop_first() =~= v@.skip(k as int + 1));
        }
        match stmt(&mut ctx, &v[k]) {
            Ok(()) => {},
            Err(er) => {
                return Err(er);
            },
        }
        k = k + 1;
    }
    proof {
        assert(v@.skip(v@.len() as int) =~= Seq::<Stmt>::empty());
    }
    let n = ctx.stmts.len();
    let has_ret = if n == 0 {
        false
    } else {
        matches!(ctx.stmts[n - 1], IrStmt::Ret)
    };
    if !has_ret {
        ctx.stmts.push(IrStmt::Const(0));
        ctx.stmts.push(IrStmt::Ret);
    }
    let res = IrFunc { name: f.name.clone(), var_cnt: ctx.var_cnt, stmts: ctx.stmts };
    Ok(res)
}

/// Translates a parsed program into its stack-machine intermediate
/// representation, lowering its one function.
pub fn ast2ir(p: &Prog) -> (r: Result<IrProg, LowerError>)
    requires
        stmts_size(p.func.stmts@) <= u32::MAX,
    ensures
        match r {
            Ok(ir) => lower_func(p.func) == Ok::<IrFuncView, ErrView>(ir.func@),
            Err(er) => lower_func(p.func) == Err::<IrFuncView, ErrView>(er@),
        },
{
    match func(&p.func) {
        Ok(irf) => Ok(IrProg { func: irf }),
        Err(er) => Err(er),
    }
}

} // verus!
