//! Abstraction of memory accesses at constant addresses: each such access
//! becomes a variable of its own.

use crate::helpers::abs_access_name;
use crate::propagation::{block_stmts, operands};
use crate::text::{dec_digits, str_eq};
use crate::veriv_ast::{
    expr_views, var_views, visit_expr, visit_exprs, visit_stmt, visited_block, visited_expr,
    visited_exprs, visited_operands, visited_stmt, ASTRewriter, AssignView, Expr, ExprView,
    FuncCallView, IfThenElseView, Op, OpView, Stmt, StmtView, Type, TypeView, Var, VarView,
};
use vstd::prelude::*;

verus! {

/// The width in bits of the elements of the memory named `name`: 8 for
/// `mem_b`, 16 for `mem_h`, 32 for `mem_w`, 64 for `mem_d`.
pub open spec fn mem_width(name: Seq<char>) -> Option<u64> {
    if name == "mem_b"@ {
        Some(8u64)
    } else if name == "mem_h"@ {
        Some(16u64)
    } else if name == "mem_w"@ {
        Some(32u64)
    } else if name == "mem_d"@ {
        Some(64u64)
    } else {
        None
    }
}

/// The name of the variable that stands for the memory at `addr`.
pub open spec fn access_name(addr: u64) -> Seq<char> {
    "mem_access_"@ + dec_digits(addr as nat)
}

/// The variable that stands for the access `e`, where `e` is an access to
/// one of the four memories at a literal address: it is named after the
/// address and as wide as an element of the memory.
pub open spec fn access_var(e: ExprView) -> Option<VarView> {
    match e {
        ExprView::OpApp(OpView::ArrayIndex, ops, _) => if ops.len() > 1 && ops[1] is Literal
            && ops[0] is Var && mem_width(ops[0]->Var_0.name) is Some {
            Some(
                VarView {
                    name: access_name(ops[1].lit_value()->0),
                    typ: TypeView::Bv { w: mem_width(ops[0]->Var_0.name)->0 },
                },
            )
        } else {
            None
        },
        _ => None,
    }
}

/// The expression `e` itself, or the variable that stands for it where it
/// is an access to a memory at a literal address; the variable is given
/// the type that the access had.
pub open spec fn abstract_node(e: ExprView) -> ExprView {
    match access_var(e) {
        Some(v) => ExprView::Var(VarView { name: v.name, typ: e.typ() }, e.typ()),
        None => e,
    }
}

/// The expression `e` with its operands abstracted.
pub open spec fn rebuilt(e: ExprView) -> ExprView
    decreases e, 1int,
{
    match e {
        ExprView::OpApp(op, _, t) => ExprView::OpApp(op, abstracted_args(e), t),
        ExprView::FuncApp(name, _, t) => ExprView::FuncApp(name, abstracted_args(e), t),
        _ => e,
    }
}

/// The expression `e` with a variable in place of each access to a memory
/// at a literal address, from the leaves up.
pub open spec fn abstracted(e: ExprView) -> ExprView
    decreases e, 2int,
{
    abstract_node(rebuilt(e))
}

/// The operands of `e`, each abstracted.
pub open spec fn abstracted_args(e: ExprView) -> Seq<ExprView>
    decreases e, 0int,
{
    Seq::new(
        operands(e).len(),
        |i: int|
            if 0 <= i < operands(e).len() {
                abstracted(operands(e)[i])
            } else {
                arbitrary()
            },
    )
}

/// `acc` followed by the variables that the abstraction of `e` brings, in
/// the order in which it brings them.
pub open spec fn abstract_vars(e: ExprView, acc: Seq<VarView>) -> Seq<VarView>
    decreases e, operands(e).len() + 1,
{
    let inner = abstract_vars_args(e, 0, acc);
    match access_var(rebuilt(e)) {
        Some(v) => inner.push(v),
        None => inner,
    }
}

/// `acc` followed by the variables that the abstraction of the operands of
/// `e` from index `i` on brings.
pub open spec fn abstract_vars_args(e: ExprView, i: nat, acc: Seq<VarView>) -> Seq<VarView>
    decreases e, operands(e).len() - i,
{
    if i >= operands(e).len() {
        acc
    } else {
        abstract_vars_args(e, i + 1, abstract_vars(operands(e)[i as int], acc))
    }
}

/// The expressions of `v`, each abstracted.
pub open spec fn abstracted_list(v: Seq<ExprView>) -> Seq<ExprView> {
    Seq::new(v.len(), |i: int| abstracted(v[i]))
}

/// `acc` followed by the variables that the abstraction of the expressions
/// of `v` from index `i` on brings.
pub open spec fn abstract_vars_list(v: Seq<ExprView>, i: nat, acc: Seq<VarView>) -> Seq<VarView>
    decreases v.len() - i,
{
    if i >= v.len() {
        acc
    } else {
        abstract_vars_list(v, i + 1, abstract_vars(v[i as int], acc))
    }
}

/// The statement `s` with every expression in it abstracted.
pub open spec fn abstracted_stmt(s: StmtView) -> StmtView
    decreases s, 1int,
{
    match s {
        StmtView::Assume(e) => StmtView::Assume(abstracted(e)),
        StmtView::FuncCall(fc) => StmtView::FuncCall(
            FuncCallView {
                func_name: fc.func_name,
                lhs: abstracted_list(fc.lhs),
                operands: abstracted_list(fc.operands),
            },
        ),
        StmtView::Assign(a) => StmtView::Assign(
            AssignView { lhs: abstracted_list(a.lhs), rhs: abstracted_list(a.rhs) },
        ),
        StmtView::IfThenElse(ite) => StmtView::IfThenElse(
            IfThenElseView {
                cond: abstracted(ite.cond),
                then_stmt: Box::new(abstracted_stmt(*ite.then_stmt)),
                else_stmt: match ite.else_stmt {
                    Some(e) => Some(Box::new(abstracted_stmt(*e))),
                    None => None,
                },
            },
        ),
        StmtView::Block(_) => StmtView::Block(abstracted_block(s)),
        StmtView::Comment(_) => s,
    }
}

/// The statements of the block `s`, each abstracted.
pub open spec fn abstracted_block(s: StmtView) -> Seq<StmtView>
    decreases s, 0int,
{
    Seq::new(
        block_stmts(s).len(),
        |i: int|
            if 0 <= i < block_stmts(s).len() {
                abstracted_stmt(block_stmts(s)[i])
            } else {
                arbitrary()
            },
    )
}

/// `acc` followed by the variables that the abstraction of `s` brings.
pub open spec fn abstract_vars_stmt(s: StmtView, acc: Seq<VarView>) -> Seq<VarView>
    decreases s, block_stmts(s).len() + 1,
{
    match s {
        StmtView::Assume(e) => abstract_vars(e, acc),
        StmtView::FuncCall(fc) => abstract_vars_list(
            fc.operands,
            0,
            abstract_vars_list(fc.lhs, 0, acc),
        ),
        StmtView::Assign(a) => abstract_vars_list(a.rhs, 0, abstract_vars_list(a.lhs, 0, acc)),
        StmtView::IfThenElse(ite) => {
            let a1 = abstract_vars_stmt(*ite.then_stmt, abstract_vars(ite.cond, acc));
            match ite.else_stmt {
                Some(e) => abstract_vars_stmt(*e, a1),
                None => a1,
            }
        },
        StmtView::Block(_) => abstract_vars_block(s, 0, acc),
        StmtView::Comment(_) => acc,
    }
}

/// `acc` followed by the variables that the abstraction of the statements
/// of the block `s` from index `i` on brings.
pub open spec fn abstract_vars_block(s: StmtView, i: nat, acc: Seq<VarView>) -> Seq<VarView>
    decreases s, block_stmts(s).len() - i,
{
    if i >= block_stmts(s).len() {
        acc
    } else {
        abstract_vars_block(s, i + 1, abstract_vars_stmt(block_stmts(s)[i as int], acc))
    }
}

/// The width in bits of the elements of the memory named `name`.
pub fn memory_width(name: &str) -> (r: Option<u64>)
    ensures
        r == mem_width(name@),
{
    if str_eq(name, "mem_b") {
        Some(8)
    } else if str_eq(name, "mem_h") {
        Some(16)
    } else if str_eq(name, "mem_w") {
        Some(32)
    } else if str_eq(name, "mem_d") {
        Some(64)
    } else {
        None
    }
}

/// The variables that a pass has brought so far.
#[derive(Debug, PartialEq, Eq)]
pub struct NewVars {
    pub vars: Vec<Var>,
}

impl View for NewVars {
    type V = Seq<VarView>;

    open spec fn view(&self) -> Seq<VarView> {
        var_views(self.vars@)
    }
}

impl NewVars {
    /// No variables.
    pub fn new() -> (r: Self)
        ensures
            r@ == Seq::<VarView>::empty(),
    {
        let r = NewVars { vars: Vec::new() };
        assert(r@ =~= Seq::<VarView>::empty());
        r
    }
}

/// Abstraction of the accesses to memory at constant addresses.
pub struct DataMemoryAbstractor;

impl ASTRewriter<NewVars> for DataMemoryAbstractor {
    open spec fn expr_rewritten(e: ExprView, c: Seq<VarView>) -> (ExprView, Seq<VarView>) {
        (
            abstract_node(e),
            match access_var(e) {
                Some(v) => c.push(v),
                None => c,
            },
        )
    }

    open spec fn stmt_rewritten(s: StmtView, c: Seq<VarView>) -> (StmtView, Seq<VarView>) {
        (s, c)
    }

    /// Puts a variable in place of `expr` where `expr` is an access to one
    /// of the four memories at a literal address, and adds the variable,
    /// as wide as an element of that memory, to `ctx`.
    fn rewrite_expr(expr: Expr, ctx: &mut NewVars) -> (r: Expr) {
        let ghost before = ctx@;
        let found: Option<(String, u64)> = match &expr {
            Expr::OpApp(opapp, t) => {
                proof {
                    Expr::lemma_view_opapp(*opapp, *t);
                }
                match opapp.op {
                    Op::ArrayIndex => {
                        if opapp.operands.len() > 1 {
                            let ghost ops = expr_views(opapp.operands@);
                            assert(ops[0] == opapp.operands@[0]@ && ops[1] == opapp.operands@[1]@);
                            match (&opapp.operands[0], opapp.operands[1].get_lit_value()) {
                                (Expr::Var(v, _), Some(addr)) => match memory_width(
                                    v.name.as_str(),
                                ) {
                                    Some(w) => Some((abs_access_name(&addr), w)),
                                    None => None,
                                },
                                _ => None,
                            }
                        } else {
                            None
                        }
                    },
                    _ => None,
                }
            },
            _ => None,
        };
        match found {
            Some((name, w)) => {
                ctx.vars.push(Var { name: name.clone(), typ: Type::Bv { w } });
                assert(ctx@ =~= before.push(VarView { name: name@, typ: TypeView::Bv { w } }));
                Expr::var(name.as_str(), expr.typ().clone())
            },
            None => expr,
        }
    }

    fn rewrite_stmt(stmt: Stmt, ctx: &mut NewVars) -> (r: Stmt) {
        stmt
    }
}

/// The expressions of `v` from index `i` on, each abstracted.
pub open spec fn abstracted_from(v: Seq<ExprView>, i: nat) -> Seq<ExprView> {
    Seq::new((v.len() - i) as nat, |j: int| abstracted(v[i + j]))
}

/// The statements of `v` from index `i` on, each abstracted.
pub open spec fn abstracted_stmts_from(v: Seq<StmtView>, i: nat) -> Seq<StmtView> {
    Seq::new((v.len() - i) as nat, |j: int| abstracted_stmt(v[i + j]))
}

/// The abstraction pass turns the operands of an expression into the
/// abstracted operands, and brings their variables.
proof fn lemma_abstract_visits_operands(e: ExprView, i: nat, acc: Seq<VarView>, done: Seq<ExprView>)
    requires
        i <= operands(e).len(),
    ensures
        visited_operands::<NewVars, DataMemoryAbstractor>(e, i, acc, done) == (
            done + abstracted_from(operands(e), i),
            abstract_vars_args(e, i, acc),
        ),
    decreases e, operands(e).len() - i,
{
    let v = operands(e);
    if i < v.len() {
        lemma_abstract_visits(v[i as int], acc);
        lemma_abstract_visits_operands(
            e,
            i + 1,
            abstract_vars(v[i as int], acc),
            done.push(abstracted(v[i as int])),
        );
        assert(done.push(abstracted(v[i as int])) + abstracted_from(v, i + 1) =~= done
            + abstracted_from(v, i));
    } else {
        assert(done + abstracted_from(v, i) =~= done);
    }
}

/// The abstraction pass turns an expression into the abstracted
/// expression, and brings the variables of the abstraction.
pub proof fn lemma_abstract_visits(e: ExprView, acc: Seq<VarView>)
    ensures
        visited_expr::<NewVars, DataMemoryAbstractor>(e, acc) == (
            abstracted(e),
            abstract_vars(e, acc),
        ),
    decreases e, operands(e).len() + 1,
{
    match e {
        ExprView::OpApp(op, args, typ) => {
            lemma_abstract_visits_operands(e, 0, acc, Seq::empty());
            assert(Seq::<ExprView>::empty() + abstracted_from(args, 0) =~= abstracted_args(e));
        },
        ExprView::FuncApp(name, args, typ) => {
            lemma_abstract_visits_operands(e, 0, acc, Seq::empty());
            assert(Seq::<ExprView>::empty() + abstracted_from(args, 0) =~= abstracted_args(e));
        },
        _ => {},
    }
}

/// The abstraction pass turns a list of expressions into the abstracted
/// expressions, and brings their variables.
proof fn lemma_abstract_visits_list(v: Seq<ExprView>, i: nat, acc: Seq<VarView>, done: Seq<ExprView>)
    requires
        i <= v.len(),
    ensures
        visited_exprs::<NewVars, DataMemoryAbstractor>(v, i, acc, done) == (
            done + abstracted_from(v, i),
            abstract_vars_list(v, i, acc),
        ),
    decreases v.len() - i,
{
    if i < v.len() {
        lemma_abstract_visits(v[i as int], acc);
        lemma_abstract_visits_list(
            v,
            i + 1,
            abstract_vars(v[i as int], acc),
            done.push(abstracted(v[i as int])),
        );
        assert(done.push(abstracted(v[i as int])) + abstracted_from(v, i + 1) =~= done
            + abstracted_from(v, i));
    } else {
        assert(done + abstracted_from(v, i) =~= done);
    }
}

/// The abstraction pass turns the whole of a list of expressions into the
/// abstracted list.
proof fn lemma_abstract_visits_whole(v: Seq<ExprView>, acc: Seq<VarView>)
    ensures
        visited_exprs::<NewVars, DataMemoryAbstractor>(v, 0, acc, Seq::empty()) == (
            abstracted_list(v),
            abstract_vars_list(v, 0, acc),
        ),
{
    lemma_abstract_visits_list(v, 0, acc, Seq::empty());
    assert(Seq::<ExprView>::empty() + abstracted_from(v, 0) =~= abstracted_list(v));
}

/// The abstraction pass turns the statements of a block into the
/// abstracted statements, and brings their variables.
proof fn lemma_abstract_visits_block(s: StmtView, i: nat, acc: Seq<VarView>, done: Seq<StmtView>)
    requires
        i <= block_stmts(s).len(),
    ensures
        visited_block::<NewVars, DataMemoryAbstractor>(s, i, acc, done) == (
            done + abstracted_stmts_from(block_stmts(s), i),
            abstract_vars_block(s, i, acc),
        ),
    decreases s, block_stmts(s).len() - i,
{
    let v = block_stmts(s);
    if i < v.len() {
        lemma_abstract_visits_stmt(v[i as int], acc);
        lemma_abstract_visits_block(
            s,
            i + 1,
            abstract_vars_stmt(v[i as int], acc),
            done.push(abstracted_stmt(v[i as int])),
        );
        assert(done.push(abstracted_stmt(v[i as int])) + abstracted_stmts_from(v, i + 1) =~= done
            + abstracted_stmts_from(v, i));
    } else {
        assert(done + abstracted_stmts_from(v, i) =~= done);
    }
}

/// The abstraction pass turns a statement into the abstracted statement,
/// and brings the variables of the abstraction.
pub proof fn lemma_abstract_visits_stmt(s: StmtView, acc: Seq<VarView>)
    ensures
        visited_stmt::<NewVars, DataMemoryAbstractor>(s, acc) == (
            abstracted_stmt(s),
            abstract_vars_stmt(s, acc),
        ),
    decreases s, block_stmts(s).len() + 1,
{
    match s {
        StmtView::Assume(e) => {
            lemma_abstract_visits(e, acc);
        },
        StmtView::FuncCall(fc) => {
            lemma_abstract_visits_whole(fc.lhs, acc);
            lemma_abstract_visits_whole(fc.operands, abstract_vars_list(fc.lhs, 0, acc));
        },
        StmtView::Assign(a) => {
            lemma_abstract_visits_whole(a.lhs, acc);
            lemma_abstract_visits_whole(a.rhs, abstract_vars_list(a.lhs, 0, acc));
        },
        StmtView::IfThenElse(ite) => {
            lemma_abstract_visits(ite.cond, acc);
            let a1 = abstract_vars(ite.cond, acc);
            lemma_abstract_visits_stmt(*ite.then_stmt, a1);
            match ite.else_stmt {
                Some(e) => {
                    lemma_abstract_visits_stmt(*e, abstract_vars_stmt(*ite.then_stmt, a1));
                },
                None => {},
            }
        },
        StmtView::Block(v) => {
            lemma_abstract_visits_block(s, 0, acc, Seq::empty());
            assert(Seq::<StmtView>::empty() + abstracted_stmts_from(v, 0) =~= abstracted_block(s));
        },
        StmtView::Comment(_) => {},
    }
}

impl DataMemoryAbstractor {
    /// Abstracts the accesses inside an expression, from the leaves up.
    pub fn visit_expr(expr: &Expr, ctx: &mut NewVars) -> (r: Expr)
        ensures
            r@ == abstracted(expr@),
            final(ctx)@ == abstract_vars(expr@, old(ctx)@),
    {
        proof {
            lemma_abstract_visits(expr@, ctx@);
        }
        visit_expr::<NewVars, DataMemoryAbstractor>(expr, ctx)
    }

    /// Abstracts the accesses inside each expression of a list.
    pub fn visit_exprs(v: &Vec<Expr>, ctx: &mut NewVars) -> (r: Vec<Expr>)
        ensures
            expr_views(r@) == abstracted_list(expr_views(v@)),
            final(ctx)@ == abstract_vars_list(expr_views(v@), 0, old(ctx)@),
    {
        proof {
            lemma_abstract_visits_whole(expr_views(v@), ctx@);
        }
        visit_exprs::<NewVars, DataMemoryAbstractor>(v, ctx)
    }

    /// Abstracts the accesses inside every expression of a statement.
    pub fn visit_stmt(stmt: &Stmt, ctx: &mut NewVars) -> (r: Stmt)
        ensures
            r@ == abstracted_stmt(stmt@),
            final(ctx)@ == abstract_vars_stmt(stmt@, old(ctx)@),
    {
        proof {
            lemma_abstract_visits_stmt(stmt@, ctx@);
        }
        visit_stmt::<NewVars, DataMemoryAbstractor>(stmt, ctx)
    }
}

} // verus!
