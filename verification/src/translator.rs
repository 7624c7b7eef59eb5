//! The function-model builder: from the control-flow graph of a function
//! to a procedure that dispatches, guarded by the program counter, to one
//! procedure per basic block.

use crate::cfg::{
    block_at, block_views, find_block, inst_views, BasicBlock, BasicBlockView, Cfg, CfgView,
    InstView, RegOperand, RegOperandView,
};
use crate::dwarf::{
    dwarf_var_views, fields_of, struct_field_views, DwarfCtx, DwarfCtxView, DwarfTypeDefn,
    DwarfTypeView, DwarfVarView,
};
use crate::helpers::{Error, ErrorView};
use crate::lowering::{bits_of, reg_var};
use crate::memory::{abstract_vars_stmt, abstracted_stmt, DataMemoryAbstractor, NewVars};
use crate::modifies::{callee_set, infer_mod_set, mod_set_of, ModSetMap};
use crate::names::{sorted, union_sorted, NameSet};
use crate::propagation::{
    block_stmts, bv_lit, propagated, propagated_block, ConstMap, ConstantPropagator,
};
use crate::sl_ast::{spec_views, FuncSpec, FuncSpecView, Spec, SpecView};
use crate::spec_lowering::func_spec_views;
use crate::text::{
    dec_digits, hex_digits, lemma_str_lt_total, lemma_str_lt_transitive, str_eq, str_lt,
    str_precedes, u64_to_hex,
};
use crate::topo::{layered, pop_in_order, ts_add_dependency, ts_insert, ts_items, ts_links, ts_new};
use crate::veriv_ast::{
    expr_views, field_views, func_model_views, has_func, holds_vars, lemma_with_vars, stmt_views,
    var_views, vars_sorted, with_func, with_funcs, with_vars, BoolOp, CompOp, Expr, ExprView,
    Field, FieldView, FuncCallView, FuncModel, FuncModelView, FuncSigView, IfThenElseView, Model,
    ModelView, Op, OpView, Stmt, StmtView, Type, TypeView, Var, VarView,
};
use topological_sort::TopologicalSort;
use vstd::prelude::*;

verus! {

// =============================================================================
// Labels

/// `acc` followed by the name and the address of each block of `blocks`
/// from index `i` on that starts at the label of a function.
pub open spec fn labels_from(blocks: Seq<BasicBlockView>, i: nat, acc: Seq<(Seq<char>, u64)>) -> Seq<
    (Seq<char>, u64),
>
    decreases blocks.len() - i,
{
    if i >= blocks.len() {
        acc
    } else {
        labels_from(
            blocks,
            i + 1,
            if blocks[i as int].is_label_entry {
                acc.push((blocks[i as int].function_name, blocks[i as int].entry_addr))
            } else {
                acc
            },
        )
    }
}

/// The labels of the functions of a program, with their addresses.
pub open spec fn labels_of(blocks: Seq<BasicBlockView>) -> Seq<(Seq<char>, u64)> {
    labels_from(blocks, 0, Seq::empty())
}

/// The address recorded for the label `name`; of several the last counts.
pub open spec fn label_addr(labels: Seq<(Seq<char>, u64)>, name: Seq<char>) -> Option<u64>
    decreases labels.len(),
{
    if labels.len() == 0 {
        None
    } else if labels.last().0 == name {
        Some(labels.last().1)
    } else {
        label_addr(labels.drop_last(), name)
    }
}

/// The views of a list of labels.
pub open spec fn label_views(v: Seq<(String, u64)>) -> Seq<(Seq<char>, u64)> {
    Seq::new(v.len(), |i: int| (v[i].0@, v[i].1))
}

/// The address recorded for the label `name`.
pub fn find_label(labels: &Vec<(String, u64)>, name: &str) -> (r: Option<u64>)
    ensures
        r == label_addr(label_views(labels@), name@),
{
    let ghost all = label_views(labels@);
    let mut i: usize = labels.len();
    assert(all.take(i as int) =~= all);
    while i > 0
        invariant
            i <= labels.len(),
            all == label_views(labels@),
            label_addr(all, name@) == label_addr(all.take(i as int), name@),
        decreases i,
    {
        i -= 1;
        proof {
            assert(all.take(i + 1).drop_last() =~= all.take(i as int));
            assert(all.take(i + 1).last() == all[i as int]);
        }
        if str_eq(labels[i].0.as_str(), name) {
            return Some(labels[i].1);
        }
    }
    None
}

/// The name of the function that starts at `addr`: `Some` where the block
/// at `addr` is the entry of a function, `None` where it is another block.
pub open spec fn func_at(blocks: Seq<BasicBlockView>, addr: u64) -> Result<
    Option<Seq<char>>,
    ErrorView,
> {
    match block_at(blocks, addr) {
        Some(b) => if b.is_label_entry {
            Ok(Some(b.function_name))
        } else {
            Ok(None)
        },
        None => Err(ErrorView::MissingBlock(addr)),
    }
}

/// The name of the function that starts at `addr`. Fails where no block
/// starts there.
pub fn get_func_at(bbs: &Vec<BasicBlock>, addr: u64) -> (r: Result<Option<String>, Error>)
    ensures
        match func_at(block_views(bbs@), addr) {
            Ok(Some(n)) => r is Ok && r->Ok_0 is Some && r->Ok_0->0@ == n,
            Ok(None) => r is Ok && r->Ok_0 is None,
            Err(e) => r is Err && r->Err_0@ == e,
        },
{
    match find_block(bbs, addr) {
        Some(i) => {
            assert(block_views(bbs@)[i as int] == bbs@[i as int]@);
            if bbs[i].is_label_entry {
                Ok(Some(bbs[i].function_name.clone()))
            } else {
                Ok(None)
            }
        },
        None => Err(Error::MissingBlock(addr)),
    }
}

// =============================================================================
// Procedure names and guards

/// The name of the procedure of the basic block at `addr`.
pub open spec fn bb_name(addr: u64) -> Seq<char> {
    "bb_0x"@ + hex_digits(addr as nat)
}

/// The name of the procedure of the basic block at `addr`: `bb_0x` and the
/// address in hexadecimal.
pub fn bb_proc_name(addr: u64) -> (r: String)
    ensures
        r@ == bb_name(addr),
{
    let mut s = String::from_str("bb_0x");
    let h = u64_to_hex(addr);
    s.append(h.as_str());
    s
}

/// The comparison `a == b`.
pub open spec fn equality(a: ExprView, b: ExprView) -> ExprView {
    ExprView::OpApp(OpView::Comp(CompOp::Equality), seq![a, b], TypeView::Bool)
}

/// The condition under which the code at `entry` runs: the program counter
/// is `entry`, and the function has not returned.
pub open spec fn guard(xlen: u64, entry: u64) -> ExprView {
    ExprView::OpApp(
        OpView::Bool(BoolOp::Conj),
        seq![
            equality(reg_var("pc"@, xlen), bv_lit(entry, xlen)),
            equality(reg_var("returned"@, 1), bv_lit(0, 1)),
        ],
        TypeView::Bool,
    )
}

/// The statement that runs `blk` under the guard of `entry`.
pub open spec fn guarded(xlen: u64, entry: u64, blk: StmtView) -> StmtView {
    StmtView::IfThenElse(
        IfThenElseView { cond: guard(xlen, entry), then_stmt: Box::new(blk), else_stmt: None },
    )
}

/// The statement that assigns `v` to the returned flag.
pub open spec fn set_returned(v: u64) -> StmtView {
    StmtView::Assign(
        crate::veriv_ast::AssignView { lhs: seq![reg_var("returned"@, 1)], rhs: seq![bv_lit(v, 1)] },
    )
}

/// The statement `blk`, to run when the program counter is `entry` and the
/// function has not returned.
pub fn guarded_call(xlen: u64, entry: u64, blk: Stmt) -> (r: Stmt)
    ensures
        r@ == guarded(xlen, entry, blk@),
{
    let pc = Expr::var("pc", Type::Bv { w: xlen });
    let target = Expr::bv_lit(entry, xlen);
    let mut pc_ops: Vec<Expr> = Vec::new();
    pc_ops.push(pc);
    pc_ops.push(target);
    assert(expr_views(pc_ops@) =~= seq![reg_var("pc"@, xlen), bv_lit(entry, xlen)]);
    let if_pc_guard = Expr::op_app(Op::Comp(CompOp::Equality), pc_ops);
    let returned = Expr::var("returned", Type::Bv { w: 1 });
    let zero = Expr::bv_lit(0, 1);
    let mut ret_ops: Vec<Expr> = Vec::new();
    ret_ops.push(returned);
    ret_ops.push(zero);
    assert(expr_views(ret_ops@) =~= seq![reg_var("returned"@, 1), bv_lit(0, 1)]);
    let if_returned_guard = Expr::op_app(Op::Comp(CompOp::Equality), ret_ops);
    let mut both: Vec<Expr> = Vec::new();
    both.push(if_pc_guard);
    both.push(if_returned_guard);
    assert(expr_views(both@) =~= seq![
        equality(reg_var("pc"@, xlen), bv_lit(entry, xlen)),
        equality(reg_var("returned"@, 1), bv_lit(0, 1)),
    ]);
    let if_guard = Expr::op_app(Op::Bool(BoolOp::Conj), both);
    Stmt::if_then_else(if_guard, Box::new(blk), None)
}

/// The statement that assigns `v` to the returned flag.
pub fn assign_returned(v: u64) -> (r: Stmt)
    ensures
        r@ == set_returned(v),
{
    let mut lhs: Vec<Expr> = Vec::new();
    lhs.push(Expr::var("returned", Type::Bv { w: 1 }));
    let mut rhs: Vec<Expr> = Vec::new();
    rhs.push(Expr::bv_lit(v, 1));
    assert(expr_views(lhs@) =~= seq![reg_var("returned"@, 1)]);
    assert(expr_views(rhs@) =~= seq![bv_lit(v, 1)]);
    Stmt::assign(lhs, rhs)
}

/// The block of the statements that model the instructions of a basic
/// block.
pub fn cfg_node_to_block(bb: &BasicBlock) -> (r: Stmt)
    ensures
        r@ == StmtView::Block(bb@.stmts),
{
    let mut out: Vec<Box<Stmt>> = Vec::new();
    let mut i: usize = 0;
    while i < bb.stmts.len()
        invariant
            i <= bb.stmts.len(),
            out@.len() == i,
            forall|j: int| 0 <= j < i ==> (*out@[j])@ == bb.stmts@[j]@,
        decreases bb.stmts.len() - i,
    {
        out.push(Box::new(bb.stmts[i].clone()));
        i += 1;
    }
    proof {
        Stmt::lemma_view_block(out);
        assert(stmt_views(out@) =~= bb@.stmts);
    }
    Stmt::Block(out)
}

// =============================================================================
// Types and arguments from debugging information

/// Whether the names of the fields ascend strictly.
pub open spec fn fields_sorted(s: Seq<FieldView>) -> bool {
    forall|i: int, j: int|
        0 <= i < j < s.len() ==> str_lt((#[trigger] s[i]).name, (#[trigger] s[j]).name)
}

/// The number of leading fields of `s` whose names precede `x`.
pub open spec fn field_place(s: Seq<FieldView>, x: Seq<char>) -> int
    decreases s.len(),
{
    if s.len() == 0 || !str_lt(s[0].name, x) {
        0
    } else {
        1 + field_place(s.drop_first(), x)
    }
}

/// `s` with the field `f`: behind the fields whose names precede its name,
/// and in the place of the field of its name where there is one.
pub open spec fn with_field(s: Seq<FieldView>, f: FieldView) -> Seq<FieldView> {
    let p = field_place(s, f.name);
    if p < s.len() && s[p].name == f.name {
        s.update(p, f)
    } else {
        s.insert(p, f)
    }
}

/// The IR type of a value of the DWARF type `d`: a bit-vector for a
/// primitive or a pointer, as wide as its size says; arrays and structs
/// part by part, the fields of a struct in the order of their names.
pub open spec fn dwarf_ir_type(d: DwarfTypeView) -> TypeView
    decreases d, fields_of(d).len() + 1,
{
    match d {
        DwarfTypeView::Primitive { bytes } => TypeView::Bv { w: bytes.wrapping_mul(8) },
        DwarfTypeView::Pointer { value_typ, bytes } => TypeView::Bv { w: bytes.wrapping_mul(8) },
        DwarfTypeView::Array { in_typ, out_typ, bytes } => TypeView::Array {
            in_typs: seq![dwarf_ir_type(*in_typ)],
            out_typ: Box::new(dwarf_ir_type(*out_typ)),
        },
        DwarfTypeView::Struct { id, fields, bytes } => TypeView::Struct {
            id,
            fields: ir_fields(d, 0, Seq::empty()),
            w: bytes.wrapping_mul(8),
        },
    }
}

/// `acc` with the IR fields for the fields of `d` from index `i` on, put
/// in one after the other.
pub open spec fn ir_fields(d: DwarfTypeView, i: nat, acc: Seq<FieldView>) -> Seq<FieldView>
    decreases d, fields_of(d).len() - i,
{
    if i >= fields_of(d).len() {
        acc
    } else {
        ir_fields(
            d,
            i + 1,
            with_field(
                acc,
                FieldView {
                    name: fields_of(d)[i as int].name,
                    typ: dwarf_ir_type(fields_of(d)[i as int].typ),
                },
            ),
        )
    }
}

/// Where a field goes: the names before that place precede `x`, and the
/// name at that place does not.
pub proof fn lemma_field_place(s: Seq<FieldView>, x: Seq<char>)
    ensures
        0 <= field_place(s, x) <= s.len(),
        forall|i: int| 0 <= i < field_place(s, x) ==> str_lt((#[trigger] s[i]).name, x),
        field_place(s, x) < s.len() ==> !str_lt(s[field_place(s, x)].name, x),
    decreases s.len(),
{
    if s.len() == 0 || !str_lt(s[0].name, x) {
    } else {
        let t = s.drop_first();
        lemma_field_place(t, x);
        assert forall|i: int| 0 <= i < field_place(s, x) implies str_lt(
            (#[trigger] s[i]).name,
            x,
        ) by {
            if i > 0 {
                assert(s[i] == t[i - 1]);
            }
        }
    }
}

/// Putting a field in keeps the names of the fields strictly ascending.
pub proof fn lemma_with_field_sorted(s: Seq<FieldView>, f: FieldView)
    requires
        fields_sorted(s),
    ensures
        fields_sorted(with_field(s, f)),
{
    lemma_field_place(s, f.name);
    let p = field_place(s, f.name);
    let r = with_field(s, f);
    if p < s.len() && s[p].name == f.name {
        assert forall|i: int, j: int| 0 <= i < j < r.len() implies str_lt(
            (#[trigger] r[i]).name,
            (#[trigger] r[j]).name,
        ) by {
            assert(r[i].name == s[i].name && r[j].name == s[j].name);
        }
    } else {
        if p < s.len() {
            lemma_str_lt_total(s[p].name, f.name);
        }
        assert forall|i: int, j: int| 0 <= i < j < r.len() implies str_lt(
            (#[trigger] r[i]).name,
            (#[trigger] r[j]).name,
        ) by {
            if j < p {
                assert(r[i] == s[i] && r[j] == s[j]);
            } else if j == p {
                assert(r[i] == s[i]);
            } else if i > p {
                assert(r[i] == s[i - 1] && r[j] == s[j - 1]);
            } else if i == p {
                assert(r[j] == s[j - 1]);
                if j - 1 > p {
                    assert(str_lt(s[p].name, s[j - 1].name));
                    lemma_str_lt_transitive(f.name, s[p].name, s[j - 1].name);
                }
            } else {
                assert(r[i] == s[i] && r[j] == s[j - 1]);
                if j - 1 > p {
                    assert(str_lt(s[p].name, s[j - 1].name));
                    lemma_str_lt_transitive(f.name, s[p].name, s[j - 1].name);
                }
                lemma_str_lt_transitive(s[i].name, f.name, s[j - 1].name);
            }
        }
    }
}

/// Putting the fields of a struct in keeps the names strictly ascending.
proof fn lemma_ir_fields_sorted(d: DwarfTypeView, i: nat, acc: Seq<FieldView>)
    requires
        fields_sorted(acc),
    ensures
        fields_sorted(ir_fields(d, i, acc)),
    decreases fields_of(d).len() - i,
{
    if i < fields_of(d).len() {
        let f = FieldView {
            name: fields_of(d)[i as int].name,
            typ: dwarf_ir_type(fields_of(d)[i as int].typ),
        };
        lemma_with_field_sorted(acc, f);
        lemma_ir_fields_sorted(d, i + 1, with_field(acc, f));
    }
}

/// The fields of the IR type of a struct stand in the strict order of their
/// names, whatever the order in which the debugging information lists them.
pub proof fn lemma_struct_fields_sorted(d: DwarfTypeView)
    requires
        d is Struct,
    ensures
        fields_sorted(dwarf_ir_type(d)->Struct_fields),
{
    lemma_ir_fields_sorted(d, 0, Seq::empty());
}

/// Puts the field `f` into `v` at the place of its name.
fn put_field(v: &mut Vec<Field>, f: Field)
    ensures
        field_views(final(v)@) == with_field(field_views(old(v)@), f@),
{
    let ghost s = field_views(v@);
    proof {
        lemma_field_place(s, f@.name);
    }
    let mut i: usize = 0;
    assert(s.skip(0) =~= s);
    while i < v.len() && str_precedes(v[i].name.as_str(), f.name.as_str())
        invariant
            i <= v.len(),
            field_views(v@) == s,
            *v == *old(v),
            field_place(s, f@.name) == i + field_place(s.skip(i as int), f@.name),
        decreases v.len() - i,
    {
        assert(s.skip(i as int)[0] == s[i as int]);
        assert(s[i as int] == v@[i as int]@);
        assert(s.skip(i as int).drop_first() =~= s.skip(i + 1));
        i += 1;
    }
    proof {
        if i < s.len() {
            assert(s.skip(i as int)[0] == s[i as int]);
            assert(s[i as int] == v@[i as int]@);
        }
        assert(field_place(s, f@.name) == i);
    }
    if i < v.len() && str_eq(v[i].name.as_str(), f.name.as_str()) {
        assert(s[i as int] == v@[i as int]@);
        v.set(i, f);
        assert(field_views(v@) =~= s.update(i as int, f@));
    } else {
        if i < v.len() {
            assert(s[i as int] == v@[i as int]@);
        }
        v.insert(i, f);
        assert(field_views(v@) =~= s.insert(i as int, f@));
    }
}

/// The IR type of a value of a DWARF type.
pub fn to_ir_type(dtd: &DwarfTypeDefn) -> (r: Type)
    ensures
        r@ == dwarf_ir_type(dtd@),
    decreases dtd,
{
    match dtd {
        DwarfTypeDefn::Primitive { bytes } => Type::Bv { w: bytes.wrapping_mul(8) },
        DwarfTypeDefn::Pointer { value_typ: _, bytes } => Type::Bv { w: bytes.wrapping_mul(8) },
        DwarfTypeDefn::Array { in_typ, out_typ, bytes: _ } => {
            let i = to_ir_type(in_typ);
            let o = to_ir_type(out_typ);
            let mut in_typs: Vec<Box<Type>> = Vec::new();
            in_typs.push(Box::new(i));
            let out_typ = Box::new(o);
            proof {
                Type::lemma_view_array(in_typs, out_typ);
                assert(crate::veriv_ast::boxed_type_views(in_typs@) =~= seq![i@]);
            }
            Type::Array { in_typs, out_typ }
        },
        DwarfTypeDefn::Struct { id, fields, bytes } => {
            proof {
                DwarfTypeDefn::lemma_view_struct(*id, *fields, *bytes);
            }
            let ghost dv = dtd@;
            let mut v: Vec<Field> = Vec::new();
            let mut i: usize = 0;
            assert(field_views(v@) =~= Seq::<FieldView>::empty());
            while i < fields.len()
                invariant
                    i <= fields.len(),
                    dv == dtd@,
                    fields_of(dv) == struct_field_views(fields@),
                    ir_fields(dv, 0, Seq::empty()) == ir_fields(dv, i as nat, field_views(v@)),
                    decreases_to!(dtd => fields),
                decreases fields.len() - i,
            {
                assert(fields_of(dv)[i as int] == fields@[i as int]@);
                let t = to_ir_type(&fields[i].typ);
                put_field(&mut v, Field { name: fields[i].name.clone(), typ: t });
                i += 1;
            }
            let id2 = id.clone();
            let w = bytes.wrapping_mul(8);
            proof {
                Type::lemma_view_struct(id2, v, w);
            }
            Type::Struct { id: id2, fields: v, w }
        },
    }
}

/// The formal arguments of a function as variables of their own types.
pub open spec fn typed_args(args: Seq<DwarfVarView>) -> Seq<ExprView> {
    Seq::new(
        args.len(),
        |i: int|
            ExprView::Var(
                VarView { name: args[i].name, typ: dwarf_ir_type(args[i].typ_defn) },
                dwarf_ir_type(args[i].typ_defn),
            ),
    )
}

/// The formal arguments of a function as variables as wide as a register.
pub open spec fn reg_args(args: Seq<DwarfVarView>, xlen: u64) -> Seq<ExprView> {
    Seq::new(args.len(), |i: int| reg_var(args[i].name, xlen))
}

/// The formal arguments of the function `name`; none where the debugging
/// information does not know the function.
pub open spec fn formals(dwarf: DwarfCtxView, name: Seq<char>) -> Seq<DwarfVarView> {
    match dwarf.sig(name) {
        Some(s) => s.args,
        None => Seq::empty(),
    }
}

/// The formal arguments of the function `func_name` as variables of their
/// own types.
pub fn func_args(dwarf_ctx: &DwarfCtx, func_name: &str) -> (r: Vec<Expr>)
    ensures
        expr_views(r@) == typed_args(formals(dwarf_ctx@, func_name@)),
{
    let mut out: Vec<Expr> = Vec::new();
    match dwarf_ctx.func_sig(func_name) {
        Ok(fs) => {
            let ghost args = dwarf_var_views(fs.args@);
            let mut i: usize = 0;
            while i < fs.args.len()
                invariant
                    i <= fs.args.len(),
                    out@.len() == i,
                    args == dwarf_var_views(fs.args@),
                    forall|j: int| 0 <= j < i ==> out@[j]@ == typed_args(args)[j],
                decreases fs.args.len() - i,
            {
                assert(args[i as int] == fs.args@[i as int]@);
                let t = to_ir_type(&fs.args[i].typ_defn);
                out.push(Expr::var(fs.args[i].name.as_str(), t));
                i += 1;
            }
            assert(expr_views(out@) =~= typed_args(args));
        },
        Err(_) => {
            assert(expr_views(out@) =~= typed_args(Seq::<DwarfVarView>::empty()));
        },
    }
    out
}

/// The formal arguments of the function `func_name` as variables as wide
/// as a register.
pub fn func_reg_args(dwarf_ctx: &DwarfCtx, func_name: &str, xlen: u64) -> (r: Vec<Expr>)
    ensures
        expr_views(r@) == reg_args(formals(dwarf_ctx@, func_name@), xlen),
        crate::veriv_ast::all_vars(expr_views(r@)),
{
    let mut out: Vec<Expr> = Vec::new();
    match dwarf_ctx.func_sig(func_name) {
        Ok(fs) => {
            let ghost args = dwarf_var_views(fs.args@);
            let mut i: usize = 0;
            while i < fs.args.len()
                invariant
                    i <= fs.args.len(),
                    out@.len() == i,
                    args == dwarf_var_views(fs.args@),
                    forall|j: int| 0 <= j < i ==> out@[j]@ == reg_var(args[j].name, xlen),
                decreases fs.args.len() - i,
            {
                assert(args[i as int] == fs.args@[i as int]@);
                out.push(Expr::var(fs.args[i].name.as_str(), Type::Bv { w: xlen }));
                i += 1;
            }
            assert(expr_views(out@) =~= reg_args(args, xlen));
        },
        Err(_) => {
            assert(expr_views(out@) =~= reg_args(Seq::<DwarfVarView>::empty(), xlen));
        },
    }
    out
}

// =============================================================================
// Contracts by function

/// The kinds of clauses of a contract.
#[derive(Debug, Clone, Copy, PartialEq, Eq, Structural)]
pub enum SpecKind {
    Requires,
    Ensures,
    Modifies,
    Track,
}

/// The kind of a clause.
pub open spec fn kind_of(s: SpecView) -> SpecKind {
    match s {
        SpecView::Requires(_) => SpecKind::Requires,
        SpecView::Ensures(_) => SpecKind::Ensures,
        SpecView::Modifies(_) => SpecKind::Modifies,
        SpecView::Track(_, _) => SpecKind::Track,
    }
}

/// The clauses recorded for the function `name`; of several records the
/// last counts.
pub open spec fn specs_for(map: Seq<FuncSpecView>, name: Seq<char>) -> Option<Seq<SpecView>>
    decreases map.len(),
{
    if map.len() == 0 {
        None
    } else if map.last().fname == name {
        Some(map.last().specs)
    } else {
        specs_for(map.drop_last(), name)
    }
}

/// `acc` followed by the clauses of `specs` from index `i` on that are of
/// the kind `kind`.
pub open spec fn of_kind(specs: Seq<SpecView>, kind: SpecKind, i: nat, acc: Seq<SpecView>) -> Seq<
    SpecView,
>
    decreases specs.len() - i,
{
    if i >= specs.len() {
        acc
    } else {
        of_kind(
            specs,
            kind,
            i + 1,
            if kind_of(specs[i as int]) == kind {
                acc.push(specs[i as int])
            } else {
                acc
            },
        )
    }
}

/// The clauses of the kind `kind` of the function `name`; `None` where no
/// contract is recorded for the function.
pub open spec fn filtered_specs(map: Seq<FuncSpecView>, name: Seq<char>, kind: SpecKind) -> Option<
    Seq<SpecView>,
> {
    match specs_for(map, name) {
        Some(specs) => Some(of_kind(specs, kind, 0, Seq::empty())),
        None => None,
    }
}

/// `acc` with the names of the `modifies` clauses of `specs` from index `i`
/// on.
pub open spec fn modifies_of(specs: Seq<SpecView>, i: nat, acc: Seq<Seq<char>>) -> Seq<Seq<char>>
    decreases specs.len() - i,
{
    if i >= specs.len() {
        acc
    } else {
        modifies_of(
            specs,
            i + 1,
            match specs[i as int] {
                SpecView::Modifies(names) => union_sorted(acc, names),
                _ => acc,
            },
        )
    }
}

/// The names that the contract of the function `name` lets it write;
/// `None` where no contract is recorded for the function.
pub open spec fn spec_mod_set(map: Seq<FuncSpecView>, name: Seq<char>) -> Option<Seq<Seq<char>>> {
    match specs_for(map, name) {
        Some(specs) => Some(modifies_of(specs, 0, Seq::empty())),
        None => None,
    }
}

/// The clauses recorded for the function `name`.
pub fn find_specs<'a>(specs_map: &'a Vec<FuncSpec>, name: &str) -> (r: Option<&'a Vec<Spec>>)
    ensures
        match specs_for(func_spec_views(specs_map@), name@) {
            Some(s) => r is Some && spec_views(r->0@) == s,
            None => r is None,
        },
{
    let ghost all = func_spec_views(specs_map@);
    let mut i: usize = specs_map.len();
    assert(all.take(i as int) =~= all);
    while i > 0
        invariant
            i <= specs_map.len(),
            all == func_spec_views(specs_map@),
            specs_for(all, name@) == specs_for(all.take(i as int), name@),
        decreases i,
    {
        i -= 1;
        proof {
            assert(all.take(i + 1).drop_last() =~= all.take(i as int));
            assert(all.take(i + 1).last() == all[i as int]);
            assert(all[i as int] == specs_map@[i as int]@);
        }
        if str_eq(specs_map[i].fname.as_str(), name) {
            return Some(&specs_map[i].specs);
        }
    }
    None
}

/// The kind of a clause.
pub fn spec_kind(s: &Spec) -> (r: SpecKind)
    ensures
        r == kind_of(s@),
{
    match s {
        Spec::Requires(_) => SpecKind::Requires,
        Spec::Ensures(_) => SpecKind::Ensures,
        Spec::Modifies(_) => SpecKind::Modifies,
        Spec::Track(_, _) => SpecKind::Track,
    }
}

/// The view of an optional list of clauses.
pub open spec fn opt_specs_view(v: Option<Vec<Spec>>) -> Option<Seq<SpecView>> {
    match v {
        Some(v) => Some(spec_views(v@)),
        None => None,
    }
}

/// The clauses of the kind `kind` of the function `func_name`.
pub fn filter_from_spec_map(specs_map: &Vec<FuncSpec>, func_name: &str, kind: SpecKind) -> (r:
    Option<Vec<Spec>>)
    ensures
        opt_specs_view(r) == filtered_specs(func_spec_views(specs_map@), func_name@, kind),
{
    match find_specs(specs_map, func_name) {
        Some(spec_vec) => {
            let ghost all = spec_views(spec_vec@);
            let mut out: Vec<Spec> = Vec::new();
            let mut i: usize = 0;
            assert(spec_views(out@) =~= Seq::<SpecView>::empty());
            while i < spec_vec.len()
                invariant
                    i <= spec_vec.len(),
                    all == spec_views(spec_vec@),
                    of_kind(all, kind, 0, Seq::empty()) == of_kind(
                        all,
                        kind,
                        i as nat,
                        spec_views(out@),
                    ),
                decreases spec_vec.len() - i,
            {
                assert(all[i as int] == spec_vec@[i as int]@);
                if spec_kind(&spec_vec[i]) == kind {
                    let ghost before = spec_views(out@);
                    out.push(spec_vec[i].clone());
                    assert(spec_views(out@) =~= before.push(all[i as int]));
                }
                i += 1;
            }
            Some(out)
        },
        None => None,
    }
}

/// The preconditions of the function `func_name`.
pub fn requires_from_spec_map(specs_map: &Vec<FuncSpec>, func_name: &str) -> (r: Option<Vec<Spec>>)
    ensures
        opt_specs_view(r) == filtered_specs(
            func_spec_views(specs_map@),
            func_name@,
            SpecKind::Requires,
        ),
{
    filter_from_spec_map(specs_map, func_name, SpecKind::Requires)
}

/// The postconditions of the function `func_name`.
pub fn ensures_from_spec_map(specs_map: &Vec<FuncSpec>, func_name: &str) -> (r: Option<Vec<Spec>>)
    ensures
        opt_specs_view(r) == filtered_specs(
            func_spec_views(specs_map@),
            func_name@,
            SpecKind::Ensures,
        ),
{
    filter_from_spec_map(specs_map, func_name, SpecKind::Ensures)
}

/// The tracked expressions of the function `func_name`.
pub fn tracked_from_spec_map(specs_map: &Vec<FuncSpec>, func_name: &str) -> (r: Option<Vec<Spec>>)
    ensures
        opt_specs_view(r) == filtered_specs(func_spec_views(specs_map@), func_name@, SpecKind::Track),
{
    filter_from_spec_map(specs_map, func_name, SpecKind::Track)
}

/// The view of an optional set of names.
pub open spec fn opt_names_view(s: Option<NameSet>) -> Option<Seq<Seq<char>>> {
    match s {
        Some(s) => Some(s@),
        None => None,
    }
}

/// The names that the contract of the function `func_name` lets it write:
/// those of all its `modifies` clauses together.
pub fn mod_set_from_spec_map(specs_map: &Vec<FuncSpec>, func_name: &str) -> (r: Option<NameSet>)
    ensures
        opt_names_view(r) == spec_mod_set(func_spec_views(specs_map@), func_name@),
        r is Some ==> sorted(r->0@),
{
    match find_specs(specs_map, func_name) {
        Some(spec_vec) => {
            let ghost all = spec_views(spec_vec@);
            let mut out = NameSet::new();
            let mut i: usize = 0;
            while i < spec_vec.len()
                invariant
                    i <= spec_vec.len(),
                    all == spec_views(spec_vec@),
                    sorted(out@),
                    modifies_of(all, 0, Seq::empty()) == modifies_of(all, i as nat, out@),
                decreases spec_vec.len() - i,
            {
                assert(all[i as int] == spec_vec@[i as int]@);
                match &spec_vec[i] {
                    Spec::Modifies(hs) => {
                        out.extend(hs);
                    },
                    _ => {},
                }
                i += 1;
            }
            Some(out)
        },
        None => None,
    }
}


// =============================================================================
// Dependencies between blocks

/// Whether the block at `addr` is the entry of a function that is ignored.
pub open spec fn ignored_at(blocks: Seq<BasicBlockView>, ignored: Seq<Seq<char>>, addr: u64) -> bool {
    func_at(blocks, addr) matches Ok(Some(n)) && ignored.contains(n)
}

/// Whether the block at `x` hands its successors on as dependencies: it is
/// a block of the graph, and not the entry of a function that is ignored.
pub open spec fn expands(
    cfg: CfgView,
    blocks: Seq<BasicBlockView>,
    ignored: Seq<Seq<char>>,
    x: u64,
) -> bool {
    cfg.node(x) is Some && !ignored_at(blocks, ignored, x)
}

/// Whether the block at `t` is followed further: it is a block of the
/// graph, and not the entry of a function.
pub open spec fn followed(cfg: CfgView, t: u64) -> bool {
    cfg.node(t) is Some && !cfg.node(t)->0.is_label_entry
}

/// Whether a link of `links` ends at `x`.
pub open spec fn has_pred(links: Set<(u64, u64)>, x: u64) -> bool {
    exists|p: u64| links.contains((p, x))
}

/// Whether the control flow of the function goes in one step from the
/// block at `x` to the block at `t`, and on from there: `x` hands its
/// successors on, `t` is one of them, and `t` is followed further.
pub open spec fn steps_to(
    cfg: CfgView,
    blocks: Seq<BasicBlockView>,
    ignored: Seq<Seq<char>>,
    x: u64,
    t: u64,
) -> bool {
    expands(cfg, blocks, ignored, x) && cfg.node(x)->0.successors.contains(t) && followed(cfg, t)
}

/// Whether `path` leads from the entry of the function along its control
/// flow.
pub open spec fn is_path(
    cfg: CfgView,
    blocks: Seq<BasicBlockView>,
    ignored: Seq<Seq<char>>,
    path: Seq<u64>,
) -> bool {
    &&& path.len() > 0
    &&& path[0] == cfg.entry_addr
    &&& forall|i: int|
        0 <= i < path.len() - 1 ==> steps_to(cfg, blocks, ignored, #[trigger] path[i], path[i + 1])
}

/// Whether the block at `x` is reached from the entry of the function.
pub open spec fn reached(
    cfg: CfgView,
    blocks: Seq<BasicBlockView>,
    ignored: Seq<Seq<char>>,
    x: u64,
) -> bool {
    exists|path: Seq<u64>| #[trigger] is_path(cfg, blocks, ignored, path) && path.last() == x
}

/// Whether `a` is an address that the dependencies of the function need a
/// block for and that has none: a reached address without a block in the
/// graph or in the program, or a successor, without a block in the graph,
/// of a reached block that hands its successors on.
pub open spec fn missing_at(
    cfg: CfgView,
    blocks: Seq<BasicBlockView>,
    ignored: Seq<Seq<char>>,
    a: u64,
) -> bool {
    ||| reached(cfg, blocks, ignored, a) && (cfg.node(a) is None || func_at(blocks, a) is Err)
    ||| cfg.node(a) is None && exists|x: u64|
        reached(cfg, blocks, ignored, x) && expands(cfg, blocks, ignored, x) && #[trigger] cfg.node(
            x,
        )->0.successors.contains(a)
}

/// Whether the dependencies of the function can be told: no address that
/// they need a block for is without one.
pub open spec fn deps_defined(
    cfg: CfgView,
    blocks: Seq<BasicBlockView>,
    ignored: Seq<Seq<char>>,
) -> bool {
    forall|a: u64| !missing_at(cfg, blocks, ignored, a)
}

/// The links between the blocks of the function: from each reached block
/// that hands its successors on to each of its successors.
pub open spec fn dep_links(
    cfg: CfgView,
    blocks: Seq<BasicBlockView>,
    ignored: Seq<Seq<char>>,
) -> Set<(u64, u64)> {
    Set::new(
        |l: (u64, u64)|
            reached(cfg, blocks, ignored, l.0) && expands(cfg, blocks, ignored, l.0) && cfg.node(
                l.0,
            )->0.successors.contains(l.1),
    )
}

/// The blocks that take part in the order of the function: its entry, and
/// the ends of the links.
pub open spec fn dep_items(
    cfg: CfgView,
    blocks: Seq<BasicBlockView>,
    ignored: Seq<Seq<char>>,
) -> Set<u64> {
    Set::new(|x: u64| x == cfg.entry_addr || has_pred(dep_links(cfg, blocks, ignored), x))
}

/// The entry of a function is reached.
pub proof fn lemma_entry_reached(cfg: CfgView, blocks: Seq<BasicBlockView>, ignored: Seq<Seq<char>>)
    ensures
        reached(cfg, blocks, ignored, cfg.entry_addr),
{
    let p = seq![cfg.entry_addr];
    assert(is_path(cfg, blocks, ignored, p) && p.last() == cfg.entry_addr);
}

/// One step on from a reached block leads to a reached block.
pub proof fn lemma_step_reached(
    cfg: CfgView,
    blocks: Seq<BasicBlockView>,
    ignored: Seq<Seq<char>>,
    x: u64,
    t: u64,
)
    requires
        reached(cfg, blocks, ignored, x),
        steps_to(cfg, blocks, ignored, x, t),
    ensures
        reached(cfg, blocks, ignored, t),
{
    let p = choose|p: Seq<u64>| #[trigger] is_path(cfg, blocks, ignored, p) && p.last() == x;
    let q = p.push(t);
    assert forall|i: int| 0 <= i < q.len() - 1 implies steps_to(
        cfg,
        blocks,
        ignored,
        #[trigger] q[i],
        q[i + 1],
    ) by {
        if i < p.len() - 1 {
            assert(q[i] == p[i] && q[i + 1] == p[i + 1]);
        }
    }
    assert(is_path(cfg, blocks, ignored, q) && q.last() == t);
}

/// A reached block other than the entry is one step on from a reached
/// block.
pub proof fn lemma_reached_from(
    cfg: CfgView,
    blocks: Seq<BasicBlockView>,
    ignored: Seq<Seq<char>>,
    x: u64,
) -> (p: u64)
    requires
        reached(cfg, blocks, ignored, x),
        x != cfg.entry_addr,
    ensures
        reached(cfg, blocks, ignored, p),
        steps_to(cfg, blocks, ignored, p, x),
{
    let path = choose|path: Seq<u64>| #[trigger]
        is_path(cfg, blocks, ignored, path) && path.last() == x;
    let pre = path.drop_last();
    assert(path.len() >= 2);
    assert forall|i: int| 0 <= i < pre.len() - 1 implies steps_to(
        cfg,
        blocks,
        ignored,
        #[trigger] pre[i],
        pre[i + 1],
    ) by {
        assert(pre[i] == path[i] && pre[i + 1] == path[i + 1]);
    }
    assert(is_path(cfg, blocks, ignored, pre) && pre.last() == path[path.len() - 2]);
    assert(steps_to(cfg, blocks, ignored, path[path.len() - 2], path[path.len() - 2 + 1]));
    path[path.len() - 2]
}

/// A dependency graph over block addresses, with the blocks that were
/// visited to build it.
pub struct DepGraph {
    pub items: Set<u64>,
    pub links: Set<(u64, u64)>,
    pub visited: Set<u64>,
}

/// Whether `g` is a dependency graph of the function of `cfg`.
///
/// The function's entry is visited, and so is every successor, other than
/// the entry of a function, of a visited block that hands its successors
/// on. The links are the edges from such blocks to all their successors;
/// the items are the entry and the ends of the links. Every visited block
/// other than the entry is the end of a link.
pub open spec fn is_dep_graph(
    cfg: CfgView,
    blocks: Seq<BasicBlockView>,
    ignored: Seq<Seq<char>>,
    g: DepGraph,
) -> bool {
    &&& g.visited.contains(cfg.entry_addr)
    &&& g.items.contains(cfg.entry_addr)
    &&& forall|x: u64, t: u64| #[trigger]
        g.links.contains((x, t)) ==> g.visited.contains(x) && expands(cfg, blocks, ignored, x)
            && cfg.node(x)->0.successors.contains(t) && g.items.contains(x) && g.items.contains(t)
    &&& forall|x: u64, i: int|
        g.visited.contains(x) && expands(cfg, blocks, ignored, x) && 0 <= i < cfg.node(
            x,
        )->0.successors.len() ==> g.links.contains((x, #[trigger] cfg.node(x)->0.successors[i]))
    &&& forall|x: u64, i: int|
        g.visited.contains(x) && expands(cfg, blocks, ignored, x) && 0 <= i < cfg.node(
            x,
        )->0.successors.len() && followed(cfg, #[trigger] cfg.node(x)->0.successors[i])
            ==> g.visited.contains(cfg.node(x)->0.successors[i])
    &&& forall|x: u64| #[trigger]
        g.items.contains(x) ==> x == cfg.entry_addr || has_pred(g.links, x)
    &&& forall|x: u64| #[trigger]
        g.visited.contains(x) ==> x == cfg.entry_addr || (followed(cfg, x) && has_pred(g.links, x))
}

/// A dependency graph has visited the block at the end of every path.
proof fn lemma_path_visited(
    cfg: CfgView,
    blocks: Seq<BasicBlockView>,
    ignored: Seq<Seq<char>>,
    g: DepGraph,
    path: Seq<u64>,
)
    requires
        is_dep_graph(cfg, blocks, ignored, g),
        is_path(cfg, blocks, ignored, path),
    ensures
        g.visited.contains(path.last()),
    decreases path.len(),
{
    if path.len() > 1 {
        let pre = path.drop_last();
        assert forall|i: int| 0 <= i < pre.len() - 1 implies steps_to(
            cfg,
            blocks,
            ignored,
            #[trigger] pre[i],
            pre[i + 1],
        ) by {
            assert(pre[i] == path[i] && pre[i + 1] == path[i + 1]);
        }
        lemma_path_visited(cfg, blocks, ignored, g, pre);
        let x = path[path.len() - 2];
        let t = path.last();
        assert(pre.last() == x);
        assert(steps_to(cfg, blocks, ignored, path[path.len() - 2], path[path.len() - 2 + 1]));
        let succ = cfg.node(x)->0.successors;
        let i = choose|i: int| 0 <= i < succ.len() && succ[i] == t;
        assert(followed(cfg, cfg.node(x)->0.successors[i]));
    }
}

/// A dependency graph that has visited reached blocks only is the graph of
/// the reached blocks: there is one such graph.
pub proof fn lemma_dep_graph_unique(
    cfg: CfgView,
    blocks: Seq<BasicBlockView>,
    ignored: Seq<Seq<char>>,
    g: DepGraph,
)
    requires
        is_dep_graph(cfg, blocks, ignored, g),
        forall|x: u64| g.visited.contains(x) ==> reached(cfg, blocks, ignored, x),
    ensures
        forall|x: u64| g.visited.contains(x) <==> reached(cfg, blocks, ignored, x),
        g.links == dep_links(cfg, blocks, ignored),
        g.items == dep_items(cfg, blocks, ignored),
{
    assert forall|x: u64| reached(cfg, blocks, ignored, x) implies g.visited.contains(x) by {
        let path = choose|path: Seq<u64>| #[trigger]
            is_path(cfg, blocks, ignored, path) && path.last() == x;
        lemma_path_visited(cfg, blocks, ignored, g, path);
    }
    let links = dep_links(cfg, blocks, ignored);
    assert forall|l: (u64, u64)| g.links.contains(l) <==> links.contains(l) by {
        assert(l == (l.0, l.1));
        if g.links.contains((l.0, l.1)) {
            assert(g.visited.contains(l.0));
        }
        if links.contains(l) {
            let succ = cfg.node(l.0)->0.successors;
            let i = choose|i: int| 0 <= i < succ.len() && succ[i] == l.1;
            assert(g.links.contains((l.0, cfg.node(l.0)->0.successors[i])));
        }
    }
    assert(g.links =~= links);
    let items = dep_items(cfg, blocks, ignored);
    assert forall|x: u64| g.items.contains(x) <==> items.contains(x) by {
        if items.contains(x) && x != cfg.entry_addr {
            let q = choose|q: u64| links.contains((q, x));
            assert(g.links.contains((q, x)));
        }
    }
    assert(g.items =~= items);
}

/// Different numbers below `n` are at most `n`.
proof fn lemma_distinct_bounded(s: Seq<int>, n: nat)
    requires
        s.no_duplicates(),
        forall|i: int| 0 <= i < s.len() ==> 0 <= (#[trigger] s[i]) && s[i] < n,
    ensures
        s.len() <= n,
    decreases n,
{
    if n == 0 {
        if s.len() > 0 {
            let x = s[0];
            assert(0 <= x && x < n);
        }
    } else if exists|p: int| 0 <= p < s.len() && s[p] == n - 1 {
        let p = choose|p: int| 0 <= p < s.len() && s[p] == n - 1;
        let t = s.remove(p);
        assert forall|i: int| 0 <= i < t.len() implies 0 <= (#[trigger] t[i]) && t[i] < n - 1 by {
            if i < p {
                assert(t[i] == s[i]);
            } else {
                assert(t[i] == s[i + 1]);
            }
        }
        assert forall|i: int, j: int| 0 <= i < t.len() && 0 <= j < t.len() && i != j implies t[i]
            != t[j] by {
            let a = if i < p {
                i
            } else {
                i + 1
            };
            let b = if j < p {
                j
            } else {
                j + 1
            };
            assert(t[i] == s[a] && t[j] == s[b]);
        }
        lemma_distinct_bounded(t, (n - 1) as nat);
    } else {
        assert forall|i: int| 0 <= i < s.len() implies 0 <= (#[trigger] s[i]) && s[i] < n - 1 by {
            let x = s[i];
            assert(0 <= x && x < n);
        }
        lemma_distinct_bounded(s, (n - 1) as nat);
    }
}

/// Different addresses of blocks of a graph are no more than its blocks.
proof fn lemma_visited_bounded(nodes: Seq<BasicBlockView>, work: Seq<u64>)
    requires
        work.no_duplicates(),
        forall|j: int| 0 <= j < work.len() ==> block_at(nodes, #[trigger] work[j]) is Some,
    ensures
        work.len() <= nodes.len(),
{
    let idx = Seq::new(work.len(), |j: int| crate::cfg::block_index(nodes, work[j]));
    assert forall|i: int| 0 <= i < idx.len() implies 0 <= (#[trigger] idx[i]) && idx[i]
        < nodes.len() by {
        crate::cfg::lemma_block_index(nodes, work[i]);
        assert(block_at(nodes, work[i]) is Some);
    }
    assert forall|i: int, j: int| 0 <= i < idx.len() && 0 <= j < idx.len() && i != j implies idx[i]
        != idx[j] by {
        crate::cfg::lemma_block_index(nodes, work[i]);
        crate::cfg::lemma_block_index(nodes, work[j]);
        assert(block_at(nodes, work[i]) is Some);
        assert(block_at(nodes, work[j]) is Some);
    }
    lemma_distinct_bounded(idx, nodes.len());
}

/// Whether `x` is among the numbers of `v`.
fn contains_addr(v: &Vec<u64>, x: u64) -> (r: bool)
    ensures
        r == v@.contains(x),
{
    let mut i: usize = 0;
    while i < v.len()
        invariant
            i <= v.len(),
            forall|j: int| 0 <= j < i ==> v@[j] != x,
        decreases v.len() - i,
    {
        if v[i] == x {
            return true;
        }
        i += 1;
    }
    false
}

/// Whether the block at `addr` is the entry of a function that is ignored.
/// Fails where no block of the program starts at `addr`.
pub fn is_ignored_at(bbs: &Vec<BasicBlock>, ignored_funcs: &NameSet, addr: u64) -> (r: Result<
    bool,
    Error,
>)
    ensures
        func_at(block_views(bbs@), addr) is Ok ==> r == Ok::<bool, Error>(
            ignored_at(block_views(bbs@), ignored_funcs@, addr),
        ),
        func_at(block_views(bbs@), addr) is Err ==> r is Err && r->Err_0@
            == ErrorView::MissingBlock(addr),
{
    match get_func_at(bbs, addr) {
        Ok(Some(name)) => Ok(ignored_funcs.contains(name.as_str())),
        Ok(None) => Ok(false),
        Err(e) => Err(e),
    }
}

/// Registers the dependencies between the blocks of a function: from each
/// block that is reached to its successors. The entries of other functions
/// are successors, and are not followed further. Fails, with an address
/// that has no block, where a block that the dependencies need is not
/// there.
pub fn compute_deps(cfg: &Cfg, bbs: &Vec<BasicBlock>, ignored_funcs: &NameSet) -> (r: Result<
    TopologicalSort<u64>,
    Error,
>)
    ensures
        deps_defined(cfg@, block_views(bbs@), ignored_funcs@) <==> r is Ok,
        r matches Ok(ts) ==> ts_items(ts).finite() && ts_items(ts) == dep_items(
            cfg@,
            block_views(bbs@),
            ignored_funcs@,
        ) && ts_links(ts) == dep_links(cfg@, block_views(bbs@), ignored_funcs@),
        r matches Err(e) ==> e@ matches ErrorView::MissingBlock(a) && missing_at(
            cfg@,
            block_views(bbs@),
            ignored_funcs@,
            a,
        ),
{
    let ghost cv = cfg@;
    let ghost bv = block_views(bbs@);
    let ghost ig = ignored_funcs@;
    let entry = cfg.entry_addr;
    proof {
        lemma_entry_reached(cv, bv, ig);
    }
    let mut ts = ts_new();
    ts_insert(&mut ts, entry);
    let mut work: Vec<u64> = Vec::new();
    work.push(entry);
    let mut k: usize = 0;
    // The first block is looked up before the loop, so that every address
    // on the list is that of a block of the graph.
    if cfg.node(entry).is_none() {
        assert(missing_at(cv, bv, ig, entry));
        return Err(Error::MissingBlock(entry));
    }
    while k < work.len()
        invariant
            k <= work.len(),
            cv == cfg@,
            bv == block_views(bbs@),
            ig == ignored_funcs@,
            entry == cv.entry_addr,
            work@.len() >= 1,
            work@[0] == entry,
            work@.no_duplicates(),
            forall|j: int| 0 <= j < work@.len() ==> cv.node(#[trigger] work@[j]) is Some,
            forall|j: int| 1 <= j < work@.len() ==> followed(cv, #[trigger] work@[j]),
            forall|j: int| 0 <= j < work@.len() ==> reached(cv, bv, ig, #[trigger] work@[j]),
            forall|j: int| 0 <= j < k ==> func_at(bv, #[trigger] work@[j]) is Ok,
            forall|j: int, i: int|
                0 <= j < k && expands(cv, bv, ig, work@[j]) && 0 <= i < cv.node(
                    work@[j],
                )->0.successors.len() ==> cv.node(
                    #[trigger] cv.node(#[trigger] work@[j])->0.successors[i],
                ) is Some,
            ts_items(ts).finite(),
            ts_items(ts).contains(entry),
            forall|x: u64, t: u64| #[trigger]
                ts_links(ts).contains((x, t)) ==> work@.take(k as int).contains(x) && expands(
                    cv,
                    bv,
                    ig,
                    x,
                ) && cv.node(x)->0.successors.contains(t) && ts_items(ts).contains(x) && ts_items(
                    ts,
                ).contains(t),
            forall|j: int, i: int|
                0 <= j < k && expands(cv, bv, ig, work@[j]) && 0 <= i < cv.node(
                    work@[j],
                )->0.successors.len() ==> ts_links(ts).contains(
                    (work@[j], #[trigger] cv.node(#[trigger] work@[j])->0.successors[i]),
                ),
            forall|j: int, i: int|
                0 <= j < k && expands(cv, bv, ig, work@[j]) && 0 <= i < cv.node(
                    work@[j],
                )->0.successors.len() && followed(
                    cv,
                    #[trigger] cv.node(#[trigger] work@[j])->0.successors[i],
                ) ==> work@.contains(cv.node(work@[j])->0.successors[i]),
            forall|x: u64| #[trigger]
                ts_items(ts).contains(x) ==> x == entry || has_pred(ts_links(ts), x),
            forall|j: int| 1 <= j < work@.len() ==> has_pred(ts_links(ts), #[trigger] work@[j]),
        decreases cfg.nodes.len() - k,
    {
        proof {
            lemma_visited_bounded(cv.nodes, work@);
        }
        let curr = work[k];
        let node = match cfg.node(curr) {
            Some(n) => n,
            None => {
                return Err(Error::MissingBlock(curr));
            },
        };
        assert(reached(cv, bv, ig, work@[k as int]));
        let skip = match is_ignored_at(bbs, ignored_funcs, curr) {
            Ok(b) => b,
            Err(e) => {
                assert(missing_at(cv, bv, ig, curr));
                return Err(e);
            },
        };
        let ghost succ = node@.successors;
        assert(succ == cv.node(curr)->0.successors);
        if !skip {
            let mut m: usize = 0;
            while m < node.successors.len()
                invariant
                    m <= node.successors.len(),
                    k < work.len(),
                    cv == cfg@,
                    bv == block_views(bbs@),
                    ig == ignored_funcs@,
                    entry == cv.entry_addr,
                    curr == work@[k as int],
                    cv.node(curr) == Some(node@),
                    succ == node@.successors,
                    expands(cv, bv, ig, curr),
                    work@.len() >= 1,
                    work@[0] == entry,
                    work@.no_duplicates(),
                    forall|j: int| 0 <= j < work@.len() ==> cv.node(#[trigger] work@[j]) is Some,
                    forall|j: int| 1 <= j < work@.len() ==> followed(cv, #[trigger] work@[j]),
                    forall|j: int|
                        0 <= j < work@.len() ==> reached(cv, bv, ig, #[trigger] work@[j]),
                    forall|j: int| 0 <= j < k ==> func_at(bv, #[trigger] work@[j]) is Ok,
                    func_at(bv, curr) is Ok,
                    forall|j: int, i: int|
                        0 <= j < k && expands(cv, bv, ig, work@[j]) && 0 <= i < cv.node(
                            work@[j],
                        )->0.successors.len() ==> cv.node(
                            #[trigger] cv.node(#[trigger] work@[j])->0.successors[i],
                        ) is Some,
                    forall|i: int| 0 <= i < m ==> cv.node(#[trigger] succ[i]) is Some,
                    ts_items(ts).finite(),
                    ts_items(ts).contains(entry),
                    forall|x: u64, t: u64| #[trigger]
                        ts_links(ts).contains((x, t)) ==> work@.take(k + 1).contains(x) && expands(
                            cv,
                            bv,
                            ig,
                            x,
                        ) && cv.node(x)->0.successors.contains(t) && ts_items(ts).contains(x)
                            && ts_items(ts).contains(t),
                    forall|j: int, i: int|
                        0 <= j < k && expands(cv, bv, ig, work@[j]) && 0 <= i < cv.node(
                            work@[j],
                        )->0.successors.len() ==> ts_links(ts).contains(
                            (work@[j], #[trigger] cv.node(#[trigger] work@[j])->0.successors[i]),
                        ),
                    forall|j: int, i: int|
                        0 <= j < k && expands(cv, bv, ig, work@[j]) && 0 <= i < cv.node(
                            work@[j],
                        )->0.successors.len() && followed(
                            cv,
                            #[trigger] cv.node(#[trigger] work@[j])->0.successors[i],
                        ) ==> work@.contains(cv.node(work@[j])->0.successors[i]),
                    forall|i: int| 0 <= i < m ==> ts_links(ts).contains((curr, #[trigger] succ[i])),
                    forall|i: int|
                        0 <= i < m && followed(cv, #[trigger] succ[i]) ==> work@.contains(succ[i]),
                    forall|x: u64| #[trigger]
                        ts_items(ts).contains(x) ==> x == entry || has_pred(ts_links(ts), x),
                    forall|j: int|
                        1 <= j < work@.len() ==> has_pred(ts_links(ts), #[trigger] work@[j]),
                decreases node.successors.len() - m,
            {
                let target = node.successors[m];
                let ghost old_links = ts_links(ts);
                let ghost old_work = work@;
                ts_add_dependency(&mut ts, curr, target);
                proof {
                    assert(succ[m as int] == target);
                    assert(succ.contains(target));
                    assert(work@.take(k + 1)[k as int] == curr);
                    assert(ts_links(ts).contains((curr, target)));
                    assert forall|x: u64| #[trigger] ts_items(ts).contains(x) implies x == entry
                        || has_pred(ts_links(ts), x) by {
                        if x == target {
                            assert(ts_links(ts).contains((curr, x)));
                        } else if x == curr {
                            if k > 0 {
                                assert(has_pred(old_links, old_work[k as int]));
                                let p = choose|p: u64| old_links.contains((p, old_work[k as int]));
                                assert(ts_links(ts).contains((p, x)));
                            }
                        } else {
                            if x != entry {
                                assert(has_pred(old_links, x));
                                let p = choose|p: u64| old_links.contains((p, x));
                                assert(ts_links(ts).contains((p, x)));
                            }
                        }
                    }
                    assert forall|j: int| 1 <= j < work@.len() implies has_pred(
                        ts_links(ts),
                        #[trigger] work@[j],
                    ) by {
                        assert(has_pred(old_links, old_work[j]));
                        let p = choose|p: u64| old_links.contains((p, old_work[j]));
                        assert(ts_links(ts).contains((p, work@[j])));
                    }
                }
                let follow = match cfg.node(target) {
                    Some(tnode) => !tnode.is_label_entry,
                    None => {
                        assert(reached(cv, bv, ig, work@[k as int]));
                        assert(cv.node(curr)->0.successors.contains(target));
                        assert(missing_at(cv, bv, ig, target));
                        return Err(Error::MissingBlock(target));
                    },
                };
                if follow && !contains_addr(&work, target) {
                    work.push(target);
                    proof {
                        assert(work@ == old_work.push(target));
                        assert(reached(cv, bv, ig, old_work[k as int]));
                        lemma_step_reached(cv, bv, ig, curr, target);
                        assert forall|j: int| 0 <= j < work@.len() implies reached(
                            cv,
                            bv,
                            ig,
                            #[trigger] work@[j],
                        ) by {
                            if j < old_work.len() {
                                assert(work@[j] == old_work[j]);
                            }
                        }
                        assert forall|j: int| 0 <= j < k implies func_at(
                            bv,
                            #[trigger] work@[j],
                        ) is Ok by {
                            assert(work@[j] == old_work[j]);
                        }
                        assert forall|j: int, i: int|
                            0 <= j < k && expands(cv, bv, ig, work@[j]) && 0 <= i < cv.node(
                                work@[j],
                            )->0.successors.len() implies cv.node(
                            #[trigger] cv.node(#[trigger] work@[j])->0.successors[i],
                        ) is Some by {
                            assert(work@[j] == old_work[j]);
                        }
                        assert(work@.take(k + 1) =~= old_work.take(k + 1));
                        assert forall|j: int| 1 <= j < work@.len() implies has_pred(
                            ts_links(ts),
                            #[trigger] work@[j],
                        ) by {
                            if j < old_work.len() {
                                assert(work@[j] == old_work[j]);
                                assert(has_pred(ts_links(ts), old_work[j]));
                            } else {
                                assert(ts_links(ts).contains((curr, work@[j])));
                            }
                        }
                        assert forall|j: int, i: int|
                            0 <= j < k && expands(cv, bv, ig, work@[j]) && 0 <= i < cv.node(
                                work@[j],
                            )->0.successors.len() && followed(
                                cv,
                                #[trigger] cv.node(#[trigger] work@[j])->0.successors[i],
                            ) implies work@.contains(cv.node(work@[j])->0.successors[i]) by {
                            assert(work@[j] == old_work[j]);
                            let t = cv.node(old_work[j])->0.successors[i];
                            assert(old_work.contains(t));
                            let q = choose|q: int| 0 <= q < old_work.len() && old_work[q] == t;
                            assert(work@[q] == t);
                        }
                        assert forall|i: int|
                            0 <= i < m + 1 && followed(cv, #[trigger] succ[i]) implies work@.contains(
                            succ[i],
                        ) by {
                            if i < m {
                                assert(old_work.contains(succ[i]));
                                let q = choose|q: int|
                                    0 <= q < old_work.len() && old_work[q] == succ[i];
                                assert(work@[q] == succ[i]);
                            } else {
                                assert(work@[old_work.len() as int] == target);
                            }
                        }
                    }
                }
                m += 1;
            }
        }
        proof {
            assert(work@.take(k + 1) =~= work@.take(k as int).push(curr));
            assert forall|x: u64, t: u64| #[trigger] ts_links(ts).contains((x, t)) implies work@.take(
                k + 1,
            ).contains(x) by {
                if work@.take(k as int).contains(x) {
                    let q = choose|q: int| 0 <= q < k && work@.take(k as int)[q] == x;
                    assert(work@.take(k + 1)[q] == x);
                }
            }
        }
        k += 1;
    }
    proof {
        assert(work@.take(k as int) =~= work@);
        let g = DepGraph { items: ts_items(ts), links: ts_links(ts), visited: work@.to_set() };
        assert forall|x: u64, i: int|
            g.visited.contains(x) && expands(cv, bv, ig, x) && 0 <= i < cv.node(
                x,
            )->0.successors.len() implies g.links.contains(
            (x, #[trigger] cv.node(x)->0.successors[i]),
        ) by {
            let j = choose|j: int| 0 <= j < work@.len() && work@[j] == x;
            assert(work@[j] == x);
        }
        assert forall|x: u64, i: int|
            g.visited.contains(x) && expands(cv, bv, ig, x) && 0 <= i < cv.node(
                x,
            )->0.successors.len() && followed(
                cv,
                #[trigger] cv.node(x)->0.successors[i],
            ) implies g.visited.contains(cv.node(x)->0.successors[i]) by {
            let j = choose|j: int| 0 <= j < work@.len() && work@[j] == x;
            assert(work@[j] == x);
        }
        assert forall|x: u64| #[trigger] g.visited.contains(x) implies x == cv.entry_addr || (
        followed(cv, x) && has_pred(g.links, x)) by {
            let j = choose|j: int| 0 <= j < work@.len() && work@[j] == x;
            if j >= 1 {
                assert(followed(cv, work@[j]));
                assert(has_pred(ts_links(ts), work@[j]));
            }
        }
        assert(work@[0] == entry);
        assert(g.visited.contains(entry));
        assert(is_dep_graph(cv, bv, ig, g));
        assert forall|x: u64| g.visited.contains(x) implies reached(cv, bv, ig, x) by {
            let j = choose|j: int| 0 <= j < work@.len() && work@[j] == x;
            assert(reached(cv, bv, ig, work@[j]));
        }
        lemma_dep_graph_unique(cv, bv, ig, g);
        assert forall|a: u64| !missing_at(cv, bv, ig, a) by {
            if reached(cv, bv, ig, a) {
                assert(g.visited.contains(a));
                let j = choose|j: int| 0 <= j < work@.len() && work@[j] == a;
                assert(cv.node(work@[j]) is Some);
                assert(func_at(bv, work@[j]) is Ok);
            }
            if cv.node(a) is None && exists|x: u64|
                reached(cv, bv, ig, x) && expands(cv, bv, ig, x) && #[trigger] cv.node(
                    x,
                )->0.successors.contains(a) {
                let x = choose|x: u64|
                    reached(cv, bv, ig, x) && expands(cv, bv, ig, x) && #[trigger] cv.node(
                        x,
                    )->0.successors.contains(a);
                assert(g.visited.contains(x));
                let j = choose|j: int| 0 <= j < work@.len() && work@[j] == x;
                let succ = cv.node(x)->0.successors;
                let i = choose|i: int| 0 <= i < succ.len() && succ[i] == a;
                assert(cv.node(cv.node(work@[j])->0.successors[i]) is Some);
            }
        }
    }
    Ok(ts)
}


/// Whether `r` is what ordering the blocks of the function gives: with
/// the dependencies told, their order, or `CycleInCFG` with the blocks
/// that cannot be ordered; else `MissingBlock` with an address that lacks
/// a block.
pub open spec fn is_order_result(
    cfg: CfgView,
    blocks: Seq<BasicBlockView>,
    ignored: Seq<Seq<char>>,
    r: Result<Seq<u64>, ErrorView>,
) -> bool {
    if deps_defined(cfg, blocks, ignored) {
        dep_items(cfg, blocks, ignored).finite() && r == match layered(
            dep_items(cfg, blocks, ignored),
            dep_links(cfg, blocks, ignored),
        ) {
            Ok(order) => Ok::<Seq<u64>, ErrorView>(order),
            Err(cycle) => Err::<Seq<u64>, ErrorView>(ErrorView::CycleInCFG(cycle)),
        }
    } else {
        r matches Err(ErrorView::MissingBlock(a)) && missing_at(cfg, blocks, ignored, a)
    }
}

/// The view of the result of ordering blocks.
pub open spec fn order_result_view(r: Result<Vec<u64>, Error>) -> Result<Seq<u64>, ErrorView> {
    match r {
        Ok(v) => Ok(v@),
        Err(e) => Err(e@),
    }
}

/// The addresses of the blocks of a function in dependency order: each
/// block after the blocks that lead to it, and blocks that are ready
/// together in ascending order. Fails with `CycleInCFG` where the blocks
/// cannot be ordered, and with `MissingBlock` where an address has no
/// block.
pub fn topo_sort(cfg: &Cfg, bbs: &Vec<BasicBlock>, ignored_funcs: &NameSet) -> (r: Result<
    Vec<u64>,
    Error,
>)
    ensures
        is_order_result(cfg@, block_views(bbs@), ignored_funcs@, order_result_view(r)),
{
    let mut ts = match compute_deps(cfg, bbs, ignored_funcs) {
        Ok(ts) => ts,
        Err(e) => {
            return Err(e);
        },
    };
    match pop_in_order(&mut ts) {
        Ok(order) => Ok(order),
        Err(cycle) => Err(Error::CycleInCFG(cycle)),
    }
}

// =============================================================================
// The body of a function

/// The call of the procedure of the basic block at `addr`.
pub open spec fn bb_call(addr: u64) -> StmtView {
    StmtView::Block(
        seq![
            StmtView::FuncCall(
                FuncCallView { func_name: bb_name(addr), lhs: Seq::empty(), operands: Seq::empty() },
            ),
        ],
    )
}

/// The argument registers `a0`, `a1`, and so on, `n` of them.
pub open spec fn arg_regs(n: nat, xlen: u64) -> Seq<ExprView> {
    Seq::new(n, |i: int| reg_var("a"@ + dec_digits(i as nat), xlen))
}

/// The call of the function `name` with `n` arguments, after which the
/// returned flag is cleared for the caller.
pub open spec fn callee_call(name: Seq<char>, n: nat, xlen: u64) -> StmtView {
    StmtView::Block(
        seq![
            StmtView::FuncCall(
                FuncCallView { func_name: name, lhs: Seq::empty(), operands: arg_regs(n, xlen) },
            ),
            set_returned(0),
        ],
    )
}

/// Whether the block `n` at `a` gets a statement of its own in the body of
/// the function that starts at `func_entry`: the entries of other
/// functions do not.
pub open spec fn emitted(n: BasicBlockView, a: u64, func_entry: u64) -> bool {
    !n.is_label_entry || a == func_entry
}

/// The statements that the block `n` at `a` brings to the body of a
/// function: the guarded call of the block's procedure, and after it,
/// where the block ends in a jump to the entry of a function, the guarded
/// call of that function.
pub open spec fn block_dispatch(
    xlen: u64,
    dwarf: DwarfCtxView,
    cfg: CfgView,
    n: BasicBlockView,
    a: u64,
) -> Result<Seq<StmtView>, ErrorView> {
    let first = seq![guarded(xlen, a, bb_call(a))];
    match n.exit() {
        Some(exit) => if exit.op == "jal"@ {
            match exit.imm {
                None => Err(ErrorView::MalformedInst(exit.address)),
                Some(v) => {
                    let target = crate::sl_ast::i64_bits(v);
                    match cfg.node(target) {
                        None => Err(ErrorView::MissingBlock(target)),
                        Some(t) => if t.is_label_entry {
                            Ok(
                                first.push(
                                    guarded(
                                        xlen,
                                        target,
                                        callee_call(
                                            t.function_name,
                                            formals(dwarf, t.function_name).len(),
                                            xlen,
                                        ),
                                    ),
                                ),
                            )
                        } else {
                            Ok(first)
                        },
                    }
                },
            }
        } else {
            Ok(first)
        },
        None => Ok(first),
    }
}

/// `acc` followed by the statements of the blocks of `order` from index
/// `i` on, and at the end the statement that sets the returned flag.
pub open spec fn body_from(
    xlen: u64,
    dwarf: DwarfCtxView,
    cfg: CfgView,
    func_entry: u64,
    order: Seq<u64>,
    i: nat,
    acc: Seq<StmtView>,
) -> Result<Seq<StmtView>, ErrorView>
    decreases order.len() - i,
{
    if i >= order.len() {
        Ok(acc.push(set_returned(1)))
    } else {
        match cfg.node(order[i as int]) {
            None => Err(ErrorView::MissingBlock(order[i as int])),
            Some(n) => if !emitted(n, order[i as int], func_entry) {
                body_from(xlen, dwarf, cfg, func_entry, order, i + 1, acc)
            } else {
                match block_dispatch(xlen, dwarf, cfg, n, order[i as int]) {
                    Ok(d) => body_from(xlen, dwarf, cfg, func_entry, order, i + 1, acc + d),
                    Err(e) => Err(e),
                }
            },
        }
    }
}

/// The body of the function that starts at `func_entry`, for the blocks in
/// the order `order`.
pub open spec fn function_body(
    xlen: u64,
    dwarf: DwarfCtxView,
    cfg: CfgView,
    func_entry: u64,
    order: Seq<u64>,
) -> Result<StmtView, ErrorView> {
    match body_from(xlen, dwarf, cfg, func_entry, order, 0, Seq::empty()) {
        Ok(stmts) => Ok(StmtView::Block(stmts)),
        Err(e) => Err(e),
    }
}

/// The argument registers `a0`, `a1`, and so on, `n` of them.
pub fn make_arg_regs(n: usize, xlen: u64) -> (r: Vec<Expr>)
    ensures
        expr_views(r@) == arg_regs(n as nat, xlen),
{
    let mut out: Vec<Expr> = Vec::new();
    let mut i: usize = 0;
    while i < n
        invariant
            i <= n,
            out@.len() == i,
            forall|j: int| 0 <= j < i ==> out@[j]@ == reg_var("a"@ + dec_digits(j as nat), xlen),
        decreases n - i,
    {
        let mut name = String::from_str("a");
        let d = crate::text::u64_to_dec(i as u64);
        name.append(d.as_str());
        out.push(Expr::var(name.as_str(), Type::Bv { w: xlen }));
        i += 1;
    }
    assert(expr_views(out@) =~= arg_regs(n as nat, xlen));
    out
}

/// The statements that one block brings to the body of a function.
fn dispatch_block(xlen: u64, dwarf_ctx: &DwarfCtx, cfg: &Cfg, node: &BasicBlock, a: u64) -> (r:
    Result<Vec<Box<Stmt>>, Error>)
    ensures
        match block_dispatch(xlen, dwarf_ctx@, cfg@, node@, a) {
            Ok(d) => r is Ok && stmt_views(r->Ok_0@) == d,
            Err(e) => r is Err && r->Err_0@ == e,
        },
{
    let mut out: Vec<Box<Stmt>> = Vec::new();
    let no_lhs: Vec<Expr> = Vec::new();
    let no_args: Vec<Expr> = Vec::new();
    assert(expr_views(no_lhs@) =~= Seq::<ExprView>::empty());
    assert(expr_views(no_args@) =~= Seq::<ExprView>::empty());
    let bb_call_stmt = Stmt::func_call(bb_proc_name(a), no_lhs, no_args);
    let mut inner: Vec<Box<Stmt>> = Vec::new();
    inner.push(Box::new(bb_call_stmt));
    proof {
        Stmt::lemma_view_block(inner);
        assert(stmt_views(inner@) =~= seq![bb_call_stmt@]);
    }
    let g = guarded_call(xlen, a, Stmt::Block(inner));
    out.push(Box::new(g));
    assert(stmt_views(out@) =~= seq![guarded(xlen, a, bb_call(a))]);
    if node.insts.len() == 0 {
        return Ok(out);
    }
    let exit = &node.insts[node.insts.len() - 1];
    assert(node@.exit() == Some(exit@)) by {
        assert(node@.insts.last() == node.insts@[node.insts.len() - 1]@);
    }
    if !str_eq(exit.op.as_str(), "jal") {
        return Ok(out);
    }
    let target = match exit.imm {
        Some(v) => bits_of(v),
        None => {
            return Err(Error::MalformedInst(exit.address));
        },
    };
    let tnode = match cfg.node(target) {
        Some(t) => t,
        None => {
            return Err(Error::MissingBlock(target));
        },
    };
    if tnode.is_label_entry {
        let nargs = match dwarf_ctx.func_sig(tnode.function_name.as_str()) {
            Ok(sig) => sig.args.len(),
            Err(_) => 0,
        };
        let f_args = make_arg_regs(nargs, xlen);
        let lhss: Vec<Expr> = Vec::new();
        assert(expr_views(lhss@) =~= Seq::<ExprView>::empty());
        let f_call_stmt = Stmt::func_call(tnode.function_name.clone(), lhss, f_args);
        let reset = assign_returned(0);
        let mut then_stmts: Vec<Box<Stmt>> = Vec::new();
        then_stmts.push(Box::new(f_call_stmt));
        then_stmts.push(Box::new(reset));
        proof {
            Stmt::lemma_view_block(then_stmts);
            assert(stmt_views(then_stmts@) =~= seq![f_call_stmt@, reset@]);
        }
        let ghost before = stmt_views(out@);
        let g2 = guarded_call(xlen, target, Stmt::Block(then_stmts));
        out.push(Box::new(g2));
        assert(stmt_views(out@) =~= before.push(g2@));
    }
    Ok(out)
}

/// The body of the function that starts at `func_entry`: for each block of
/// `order` in turn the guarded call of its procedure and, where the block
/// ends in a jump to a function, the guarded call of that function; at the
/// end the returned flag is set.
pub fn symbolic_blk(
    xlen: u64,
    dwarf_ctx: &DwarfCtx,
    func_entry: u64,
    cfg: &Cfg,
    order: &Vec<u64>,
) -> (r: Result<Stmt, Error>)
    ensures
        match function_body(xlen, dwarf_ctx@, cfg@, func_entry, order@) {
            Ok(b) => r is Ok && r->Ok_0@ == b,
            Err(e) => r is Err && r->Err_0@ == e,
        },
{
    let mut stmts_vec: Vec<Box<Stmt>> = Vec::new();
    let mut i: usize = 0;
    assert(stmt_views(stmts_vec@) =~= Seq::<StmtView>::empty());
    while i < order.len()
        invariant
            i <= order.len(),
            body_from(xlen, dwarf_ctx@, cfg@, func_entry, order@, 0, Seq::empty()) == body_from(
                xlen,
                dwarf_ctx@,
                cfg@,
                func_entry,
                order@,
                i as nat,
                stmt_views(stmts_vec@),
            ),
        decreases order.len() - i,
    {
        let bb_entry = order[i];
        let cfg_node = match cfg.node(bb_entry) {
            Some(n) => n,
            None => {
                return Err(Error::MissingBlock(bb_entry));
            },
        };
        if !(cfg_node.is_label_entry && bb_entry != func_entry) {
            let mut d = match dispatch_block(xlen, dwarf_ctx, cfg, cfg_node, bb_entry) {
                Ok(d) => d,
                Err(e) => {
                    return Err(e);
                },
            };
            let ghost before = stmt_views(stmts_vec@);
            let ghost dv = stmt_views(d@);
            stmts_vec.append(&mut d);
            assert(stmt_views(stmts_vec@) =~= before + dv);
        }
        i += 1;
    }
    let ghost before = stmt_views(stmts_vec@);
    let last = assign_returned(1);
    stmts_vec.push(Box::new(last));
    proof {
        assert(stmt_views(stmts_vec@) =~= before.push(set_returned(1)));
        Stmt::lemma_view_block(stmts_vec);
    }
    Ok(Stmt::Block(stmts_vec))
}

/// Whether `r` is what building the body of the function of `cfg` that
/// starts at `func_entry` gives: with the dependencies told and the blocks
/// ordered, the body for that order, or the reason why there is none;
/// `CycleInCFG` with the blocks that cannot be ordered; `MissingBlock`
/// with an address that lacks a block.
pub open spec fn is_body_result(
    xlen: u64,
    dwarf: DwarfCtxView,
    blocks: Seq<BasicBlockView>,
    ignored: Seq<Seq<char>>,
    cfg: CfgView,
    func_entry: u64,
    r: Result<StmtView, ErrorView>,
) -> bool {
    if deps_defined(cfg, blocks, ignored) {
        dep_items(cfg, blocks, ignored).finite() && r == match layered(
            dep_items(cfg, blocks, ignored),
            dep_links(cfg, blocks, ignored),
        ) {
            Ok(order) => function_body(xlen, dwarf, cfg, func_entry, order),
            Err(cycle) => Err::<StmtView, ErrorView>(ErrorView::CycleInCFG(cycle)),
        }
    } else {
        r matches Err(ErrorView::MissingBlock(a)) && missing_at(cfg, blocks, ignored, a)
    }
}

/// Whether `body` is the body of the function of `cfg` that starts at
/// `func_entry`: the statements of the blocks in the dependency order of
/// the function.
pub open spec fn is_function_body(
    xlen: u64,
    dwarf: DwarfCtxView,
    blocks: Seq<BasicBlockView>,
    ignored: Seq<Seq<char>>,
    cfg: CfgView,
    func_entry: u64,
    body: StmtView,
) -> bool {
    is_body_result(xlen, dwarf, blocks, ignored, cfg, func_entry, Ok(body))
}

/// The view of the result of building a body.
pub open spec fn body_result_view(r: Result<Stmt, Error>) -> Result<StmtView, ErrorView> {
    match r {
        Ok(b) => Ok(b@),
        Err(e) => Err(e@),
    }
}

/// The body of a function: its blocks in dependency order, each called
/// under the guard of its address. Fails where the blocks cannot be
/// ordered, where an address has no block, and where a jump has no target.
pub fn cfg_to_symbolic_blk(
    xlen: u64,
    dwarf_ctx: &DwarfCtx,
    bbs: &Vec<BasicBlock>,
    ignored_funcs: &NameSet,
    func_entry_addr: u64,
    cfg: &Cfg,
) -> (r: Result<Stmt, Error>)
    ensures
        is_body_result(
            xlen,
            dwarf_ctx@,
            block_views(bbs@),
            ignored_funcs@,
            cfg@,
            func_entry_addr,
            body_result_view(r),
        ),
{
    let sorted_entries = match topo_sort(cfg, bbs, ignored_funcs) {
        Ok(o) => o,
        Err(e) => {
            return Err(e);
        },
    };
    symbolic_blk(xlen, dwarf_ctx, func_entry_addr, cfg, &sorted_entries)
}


// =============================================================================
// The procedure of a basic block

/// The body of the procedure of the block `bb`: the statements of its
/// instructions after constant propagation and memory abstraction.
pub open spec fn bb_body(bb: BasicBlockView) -> StmtView {
    abstracted_stmt(propagated(StmtView::Block(bb.stmts), Map::empty()).0)
}

/// The variables that the memory abstraction of the block `bb` brings.
pub open spec fn bb_vars(bb: BasicBlockView) -> Seq<VarView> {
    abstract_vars_stmt(propagated(StmtView::Block(bb.stmts), Map::empty()).0, Seq::empty())
}

/// The procedure of the block `bb`: it is named after the block's address,
/// takes no arguments, is inlined, and may write what its body may write.
pub open spec fn bb_model(map: Seq<(Seq<char>, Seq<Seq<char>>)>, bb: BasicBlockView) -> FuncModelView {
    FuncModelView {
        sig: FuncSigView {
            name: bb_name(bb.entry_addr),
            entry_addr: bb.entry_addr,
            arg_decls: Seq::empty(),
            ret_decl: None,
            preconds: Seq::empty(),
            postconds: Seq::empty(),
            tracks: Seq::empty(),
            mod_set: mod_set_of(map, bb_body(bb)),
        },
        body: bb_body(bb),
        inline: true,
    }
}

/// Constant propagation leaves a block a block.
pub proof fn lemma_propagated_block_is_block(
    s: StmtView,
    i: nat,
    env: Map<Seq<char>, u64>,
    done: Seq<StmtView>,
)
    ensures
        propagated_block(s, i, env, done).0 is Block,
    decreases block_stmts(s).len() - i,
{
    if i < block_stmts(s).len() {
        let p = propagated(block_stmts(s)[i as int], env);
        lemma_propagated_block_is_block(s, i + 1, p.1, done.push(p.0));
    }
}

/// The procedure of a basic block, and the variables that stand for the
/// memory that it reads and writes at constant addresses.
pub fn gen_bb_model(mod_set_map: &ModSetMap, bb: &BasicBlock) -> (r: (FuncModel, Vec<Var>))
    ensures
        r.0@ == bb_model(mod_set_map@, bb@),
        var_views(r.1@) == bb_vars(bb@),
        sorted(r.0@.sig.mod_set),
{
    let bb_proc_name = bb_proc_name(bb.entry_addr);
    let body = cfg_node_to_block(bb);
    let mut consts = ConstMap::new();
    let processed = ConstantPropagator::visit_stmt(&body, &mut consts);
    let mut abs_vars = NewVars::new();
    let processed_body = DataMemoryAbstractor::visit_stmt(&processed, &mut abs_vars);
    proof {
        lemma_propagated_block_is_block(body@, 0, Map::empty(), Seq::empty());
    }
    let mod_set = infer_mod_set(mod_set_map, &processed_body);
    let no_args: Vec<Expr> = Vec::new();
    assert(expr_views(no_args@) =~= Seq::<ExprView>::empty());
    let fm = FuncModel::new(
        bb_proc_name.as_str(),
        bb.entry_addr,
        no_args,
        None,
        None,
        None,
        None,
        Some(mod_set),
        processed_body,
        true,
    );
    (fm, abs_vars.vars)
}

// =============================================================================
// Registers and callees

/// `acc` followed by the variable of the register `reg`, where there is
/// one.
pub open spec fn with_reg(acc: Seq<VarView>, reg: Option<RegOperandView>, xlen: u64) -> Seq<VarView> {
    match reg {
        Some(r) => acc.push(VarView { name: r.name, typ: TypeView::Bv { w: xlen } }),
        None => acc,
    }
}

/// `acc` followed by the variables of the registers of the instruction
/// `inst`: `rd`, `rs1`, `rs2`, `csr`.
pub open spec fn with_inst_regs(acc: Seq<VarView>, inst: InstView, xlen: u64) -> Seq<VarView> {
    with_reg(with_reg(with_reg(with_reg(acc, inst.rd, xlen), inst.rs1, xlen), inst.rs2, xlen), inst.csr, xlen)
}

/// `acc` followed by the variables of the registers of the instructions of
/// `insts` from index `i` on.
pub open spec fn with_insts_regs(insts: Seq<InstView>, i: nat, acc: Seq<VarView>, xlen: u64) -> Seq<
    VarView,
>
    decreases insts.len() - i,
{
    if i >= insts.len() {
        acc
    } else {
        with_insts_regs(insts, i + 1, with_inst_regs(acc, insts[i as int], xlen), xlen)
    }
}

/// `acc` followed by the variables of the registers of the blocks of
/// `nodes` from index `i` on.
pub open spec fn with_nodes_regs(nodes: Seq<BasicBlockView>, i: nat, acc: Seq<VarView>, xlen: u64) -> Seq<
    VarView,
>
    decreases nodes.len() - i,
{
    if i >= nodes.len() {
        acc
    } else {
        with_nodes_regs(
            nodes,
            i + 1,
            with_insts_regs(nodes[i as int].insts, 0, acc, xlen),
            xlen,
        )
    }
}

/// The variables of the registers that the instructions of a function
/// name, in the order of the instructions.
pub open spec fn cfg_regs(cfg: CfgView, xlen: u64) -> Seq<VarView> {
    with_nodes_regs(cfg.nodes, 0, Seq::empty(), xlen)
}

/// Adds the variable of a register.
fn push_reg(acc: &mut Vec<Var>, reg: &Option<RegOperand>, xlen: u64)
    ensures
        var_views(final(acc)@) == with_reg(var_views(old(acc)@), crate::cfg::opt_reg_view(*reg), xlen),
{
    let ghost before = var_views(acc@);
    match reg {
        Some(r) => {
            let v = Var { name: r.name.clone(), typ: Type::Bv { w: xlen } };
            acc.push(v);
            assert(var_views(acc@) =~= before.push(
                VarView { name: r.name@, typ: TypeView::Bv { w: xlen } },
            ));
        },
        None => {},
    }
}

/// The variables of the registers that the instructions of a function
/// name.
pub fn infer_vars(cfg: &Cfg, xlen: u64) -> (r: Vec<Var>)
    ensures
        var_views(r@) == cfg_regs(cfg@, xlen),
{
    let ghost nodes = cfg@.nodes;
    let mut out: Vec<Var> = Vec::new();
    assert(var_views(out@) =~= Seq::<VarView>::empty());
    let mut i: usize = 0;
    while i < cfg.nodes.len()
        invariant
            i <= cfg.nodes.len(),
            nodes == cfg@.nodes,
            cfg_regs(cfg@, xlen) == with_nodes_regs(nodes, i as nat, var_views(out@), xlen),
        decreases cfg.nodes.len() - i,
    {
        let node = &cfg.nodes[i];
        assert(nodes[i as int] == node@);
        let ghost insts = node@.insts;
        let ghost acc0 = var_views(out@);
        let mut k: usize = 0;
        while k < node.insts.len()
            invariant
                k <= node.insts.len(),
                insts == inst_views(node.insts@),
                with_insts_regs(insts, 0, acc0, xlen) == with_insts_regs(
                    insts,
                    k as nat,
                    var_views(out@),
                    xlen,
                ),
            decreases node.insts.len() - k,
        {
            let al = &node.insts[k];
            assert(insts[k as int] == al@);
            push_reg(&mut out, &al.rd, xlen);
            push_reg(&mut out, &al.rs1, xlen);
            push_reg(&mut out, &al.rs2, xlen);
            push_reg(&mut out, &al.csr, xlen);
            k += 1;
        }
        i += 1;
    }
    out
}

/// `acc` followed by the targets of the jumps among the instructions of
/// `insts` from index `i` on that belong to the function `name`, each with
/// the address of its jump. A jump without a target is an error.
pub open spec fn callees_insts(
    insts: Seq<InstView>,
    name: Seq<char>,
    i: nat,
    acc: Seq<(u64, u64)>,
) -> Result<Seq<(u64, u64)>, ErrorView>
    decreases insts.len() - i,
{
    if i >= insts.len() {
        Ok(acc)
    } else {
        let al = insts[i as int];
        if al.function_name == name && al.op == "jal"@ {
            match al.imm {
                Some(v) => callees_insts(
                    insts,
                    name,
                    i + 1,
                    acc.push((crate::sl_ast::i64_bits(v), al.address)),
                ),
                None => Err(ErrorView::MalformedInst(al.address)),
            }
        } else {
            callees_insts(insts, name, i + 1, acc)
        }
    }
}

/// `acc` followed by the targets of the jumps of the function `name` in
/// the blocks of `nodes` from index `i` on.
pub open spec fn callees_nodes(
    nodes: Seq<BasicBlockView>,
    name: Seq<char>,
    i: nat,
    acc: Seq<(u64, u64)>,
) -> Result<Seq<(u64, u64)>, ErrorView>
    decreases nodes.len() - i,
{
    if i >= nodes.len() {
        Ok(acc)
    } else {
        match callees_insts(nodes[i as int].insts, name, 0, acc) {
            Ok(a) => callees_nodes(nodes, name, i + 1, a),
            Err(e) => Err(e),
        }
    }
}

/// The targets of the jumps of the function `func_name`, each with the
/// address of its jump.
pub fn get_callee_addrs(func_name: &str, cfg: &Cfg) -> (r: Result<Vec<(u64, u64)>, Error>)
    ensures
        match callees_nodes(cfg@.nodes, func_name@, 0, Seq::empty()) {
            Ok(c) => r is Ok && r->Ok_0@ == c,
            Err(e) => r is Err && r->Err_0@ == e,
        },
{
    let ghost nodes = cfg@.nodes;
    let mut callee_addrs: Vec<(u64, u64)> = Vec::new();
    let mut i: usize = 0;
    while i < cfg.nodes.len()
        invariant
            i <= cfg.nodes.len(),
            nodes == cfg@.nodes,
            callees_nodes(nodes, func_name@, 0, Seq::empty()) == callees_nodes(
                nodes,
                func_name@,
                i as nat,
                callee_addrs@,
            ),
        decreases cfg.nodes.len() - i,
    {
        let node = &cfg.nodes[i];
        assert(nodes[i as int] == node@);
        let ghost insts = node@.insts;
        let ghost acc0 = callee_addrs@;
        let mut k: usize = 0;
        while k < node.insts.len()
            invariant
                k <= node.insts.len(),
                i < cfg.nodes.len(),
                nodes == cfg@.nodes,
                nodes[i as int].insts == insts,
                insts == inst_views(node.insts@),
                callees_nodes(nodes, func_name@, 0, Seq::empty()) == callees_nodes(
                    nodes,
                    func_name@,
                    i as nat,
                    acc0,
                ),
                callees_insts(insts, func_name@, 0, acc0) == callees_insts(
                    insts,
                    func_name@,
                    k as nat,
                    callee_addrs@,
                ),
            decreases node.insts.len() - k,
        {
            let al = &node.insts[k];
            assert(insts[k as int] == al@);
            if str_eq(al.function_name.as_str(), func_name) && str_eq(al.op.as_str(), "jal") {
                match al.imm {
                    Some(v) => {
                        callee_addrs.push((bits_of(v), al.address));
                    },
                    None => {
                        return Err(Error::MalformedInst(al.address));
                    },
                }
            }
            k += 1;
        }
        i += 1;
    }
    Ok(callee_addrs)
}


// =============================================================================
// The translator

/// The function-model builder: its inputs, the model that it fills, and
/// what it remembers between functions.
#[derive(Debug, PartialEq)]
pub struct Translator {
    /// The width of a register in bits.
    pub xlen: u64,
    /// The model under construction.
    pub model: Model,
    /// All basic blocks of the program.
    pub bbs: Vec<BasicBlock>,
    /// The control-flow graph of each function.
    pub cfgs: Vec<Cfg>,
    /// The functions that are not translated: stubs stand for them.
    pub ignored_funcs: NameSet,
    /// The functions to verify.
    pub verify_funcs: Vec<String>,
    /// The debugging information.
    pub dwarf_ctx: DwarfCtx,
    /// The lowered contracts, by function.
    pub specs_map: Vec<FuncSpec>,
    /// Whether contracts are left out and functions inlined.
    pub ignore_specs: bool,
    /// The labels of the functions, with their addresses.
    pub labels_to_addr: Vec<(String, u64)>,
    /// The entry addresses of the functions generated so far.
    pub generated: Vec<u64>,
    /// The names that each procedure generated so far may write.
    pub mod_set_map: ModSetMap,
}

/// The sequence inside an option, or the empty sequence.
pub open spec fn opt_seq<T>(o: Option<Seq<T>>) -> Seq<T> {
    match o {
        Some(s) => s,
        None => Seq::empty(),
    }
}

/// The clauses of the kind `kind` that the procedure of the function
/// `name` carries: none where contracts are left out.
pub open spec fn carried_specs(
    specs: Seq<FuncSpecView>,
    ignore_specs: bool,
    name: Seq<char>,
    kind: SpecKind,
) -> Seq<SpecView> {
    if ignore_specs {
        Seq::empty()
    } else {
        opt_seq(filtered_specs(specs, name, kind))
    }
}

/// The stub that stands for the ignored function `name`: it has the
/// function's arguments and contract, writes what the contract lets it
/// write, has an empty body, and is not inlined.
pub open spec fn stub_model(
    xlen: u64,
    dwarf: DwarfCtxView,
    specs: Seq<FuncSpecView>,
    ignore_specs: bool,
    name: Seq<char>,
    entry: u64,
) -> FuncModelView {
    FuncModelView {
        sig: FuncSigView {
            name,
            entry_addr: entry,
            arg_decls: reg_args(formals(dwarf, name), xlen),
            ret_decl: None,
            preconds: carried_specs(specs, ignore_specs, name, SpecKind::Requires),
            postconds: carried_specs(specs, ignore_specs, name, SpecKind::Ensures),
            tracks: carried_specs(specs, ignore_specs, name, SpecKind::Track),
            mod_set: opt_seq(spec_mod_set(specs, name)),
        },
        body: StmtView::Block(Seq::empty()),
        inline: false,
    }
}

/// The addresses that labels stand for.
pub open spec fn label_addr_set(labels: Seq<(Seq<char>, u64)>) -> Set<u64> {
    labels.map_values(|l: (Seq<char>, u64)| l.1).to_set()
}

/// The address of a label is among the addresses that labels stand for.
pub proof fn lemma_label_addr_in_set(labels: Seq<(Seq<char>, u64)>, name: Seq<char>)
    requires
        label_addr(labels, name) is Some,
    ensures
        label_addr_set(labels).contains(label_addr(labels, name)->0),
    decreases labels.len(),
{
    let m = labels.map_values(|l: (Seq<char>, u64)| l.1);
    if labels.last().0 == name {
        assert(m[labels.len() - 1] == labels.last().1);
    } else {
        lemma_label_addr_in_set(labels.drop_last(), name);
        let m2 = labels.drop_last().map_values(|l: (Seq<char>, u64)| l.1);
        let a = label_addr(labels, name)->0;
        let k = choose|k: int| 0 <= k < m2.len() && m2[k] == a;
        assert(m[k] == a);
    }
}

/// The number of functions that have a label and are not generated.
pub open spec fn pending_count(labels: Seq<(Seq<char>, u64)>, generated: Seq<u64>) -> nat {
    label_addr_set(labels).difference(generated.to_set()).len()
}

/// Generating a function that was pending leaves one pending function
/// fewer.
pub proof fn lemma_pending_decreases(labels: Seq<(Seq<char>, u64)>, generated: Seq<u64>, a: u64)
    requires
        label_addr_set(labels).contains(a),
        !generated.contains(a),
    ensures
        pending_count(labels, generated.push(a)) < pending_count(labels, generated),
{
    let l = label_addr_set(labels);
    let d = l.difference(generated.to_set());
    assert(d.contains(a));
    assert(l.difference(generated.push(a).to_set()) =~= d.remove(a)) by {
        assert forall|x: u64| l.difference(generated.push(a).to_set()).contains(x) <==> d.remove(
            a,
        ).contains(x) by {
            if generated.push(a).to_set().contains(x) {
                let k = choose|k: int| 0 <= k < generated.push(a).len() && generated.push(a)[k] == x;
                if k < generated.len() {
                    assert(generated[k] == x);
                }
            }
            if generated.to_set().contains(x) {
                let k = choose|k: int| 0 <= k < generated.len() && generated[k] == x;
                assert(generated.push(a)[k] == x);
            }
            if x == a {
                assert(generated.push(a)[generated.len() as int] == a);
            }
        }
    }
}

/// As more functions are generated, no more functions become pending.
pub proof fn lemma_pending_monotone(labels: Seq<(Seq<char>, u64)>, g1: Seq<u64>, g2: Seq<u64>)
    requires
        g1.is_prefix_of(g2),
    ensures
        pending_count(labels, g2) <= pending_count(labels, g1),
{
    let l = label_addr_set(labels);
    let d1 = l.difference(g1.to_set());
    let d2 = l.difference(g2.to_set());
    assert(d2.subset_of(d1)) by {
        assert forall|x: u64| d2.contains(x) implies d1.contains(x) by {
            if g1.to_set().contains(x) {
                let k = choose|k: int| 0 <= k < g1.len() && g1[k] == x;
                assert(g2[k] == x);
            }
        }
    }
    vstd::set_lib::lemma_len_subset(d2, d1);
}

/// Adding a procedure leaves those that were there in front.
pub proof fn lemma_with_func_extends(fms: Seq<FuncModelView>, fm: FuncModelView)
    ensures
        fms.is_prefix_of(with_func(fms, fm)),
        has_func(with_func(fms, fm), fm.sig.name),
        forall|n: Seq<char>| has_func(fms, n) ==> has_func(with_func(fms, fm), n),
{
    let r = with_func(fms, fm);
    if !has_func(fms, fm.sig.name) {
        assert(r[fms.len() as int].sig.name == fm.sig.name);
    }
    assert forall|n: Seq<char>| has_func(fms, n) implies has_func(r, n) by {
        let i = choose|i: int| 0 <= i < fms.len() && (#[trigger] fms[i]).sig.name == n;
        assert(r[i].sig.name == n);
    }
}

/// Adding procedures leaves those that were there in front.
pub proof fn lemma_with_funcs_extends(fms: Seq<FuncModelView>, more: Seq<FuncModelView>)
    ensures
        fms.is_prefix_of(with_funcs(fms, more)),
        forall|n: Seq<char>| has_func(fms, n) ==> has_func(with_funcs(fms, more), n),
        forall|j: int|
            0 <= j < more.len() ==> has_func(with_funcs(fms, more), (#[trigger] more[j]).sig.name),
    decreases more.len(),
{
    if more.len() > 0 {
        let mid = with_funcs(fms, more.drop_last());
        lemma_with_funcs_extends(fms, more.drop_last());
        lemma_with_func_extends(mid, more.last());
        assert forall|j: int| 0 <= j < more.len() implies has_func(
            with_funcs(fms, more),
            (#[trigger] more[j]).sig.name,
        ) by {
            if j < more.len() - 1 {
                assert(more.drop_last()[j] == more[j]);
            }
        }
    }
}

/// A procedure that is in a list is in every list that starts with it.
pub proof fn lemma_has_func_extends(a: Seq<FuncModelView>, b: Seq<FuncModelView>, n: Seq<char>)
    requires
        a.is_prefix_of(b),
        has_func(a, n),
    ensures
        has_func(b, n),
{
    let i = choose|i: int| 0 <= i < a.len() && (#[trigger] a[i]).sig.name == n;
    assert(b[i].sig.name == n);
}

impl Translator {
    /// The number of functions that have a label and are not generated.
    pub open spec fn pending(&self) -> nat {
        pending_count(label_views(self.labels_to_addr@), self.generated@)
    }

    /// Whether the inputs of `self` are those of `other`.
    pub open spec fn same_inputs(&self, other: &Translator) -> bool {
        &&& self.xlen == other.xlen
        &&& self.bbs == other.bbs
        &&& self.cfgs == other.cfgs
        &&& self.ignored_funcs == other.ignored_funcs
        &&& self.verify_funcs == other.verify_funcs
        &&& self.dwarf_ctx == other.dwarf_ctx
        &&& self.specs_map == other.specs_map
        &&& self.ignore_specs == other.ignore_specs
        &&& self.labels_to_addr == other.labels_to_addr
        &&& self.model@.name == other.model@.name
    }

    /// Whether every function that is generated is done: the model has
    /// its procedure, and what it may write is recorded unless it is
    /// ignored. This holds of a new translator, and stays so with every
    /// function that is generated, where each label has an address of its
    /// own.
    pub open spec fn is_settled(&self) -> bool {
        forall|n: Seq<char>|
            (#[trigger] label_addr(label_views(self.labels_to_addr@), n)) is Some
                && self.generated@.contains(label_addr(label_views(self.labels_to_addr@), n)->0)
                ==> is_done(*self, n)
    }

    /// What the translator is given of the program.
    pub open spec fn program(&self) -> ProgramView {
        ProgramView {
            xlen: self.xlen,
            dwarf: self.dwarf_ctx@,
            blocks: block_views(self.bbs@),
            ignored: self.ignored_funcs@,
            labels: label_views(self.labels_to_addr@),
            cfgs: graph_views(self.cfgs@),
        }
    }

    /// Whether every function of the program that has a label and is not
    /// ignored can be generated.
    pub open spec fn is_complete(&self) -> bool {
        program_complete(
            self.xlen,
            self.dwarf_ctx@,
            block_views(self.bbs@),
            self.ignored_funcs@,
            label_views(self.labels_to_addr@),
            self.cfgs@,
        )
    }

    /// The labels of the functions of a program, with their addresses.
    pub fn create_label_to_addr_map(bbs: &Vec<BasicBlock>) -> (r: Vec<(String, u64)>)
        ensures
            label_views(r@) == labels_of(block_views(bbs@)),
    {
        let ghost all = block_views(bbs@);
        let mut out: Vec<(String, u64)> = Vec::new();
        let mut i: usize = 0;
        assert(label_views(out@) =~= Seq::<(Seq<char>, u64)>::empty());
        while i < bbs.len()
            invariant
                i <= bbs.len(),
                all == block_views(bbs@),
                labels_of(all) == labels_from(all, i as nat, label_views(out@)),
            decreases bbs.len() - i,
        {
            assert(all[i as int] == bbs@[i as int]@);
            if bbs[i].is_label_entry {
                let ghost before = label_views(out@);
                out.push((bbs[i].function_name.clone(), bbs[i].entry_addr));
                assert(label_views(out@) =~= before.push(
                    (bbs@[i as int].function_name@, bbs@[i as int].entry_addr),
                ));
            }
            i += 1;
        }
        out
    }

    /// A translator for the program of `bbs` and `cfgs`. The model starts
    /// with the variables of the machine state, `sys_vars`.
    pub fn new(
        xlen: u64,
        module_name: &str,
        sys_vars: &Vec<Var>,
        bbs: Vec<BasicBlock>,
        cfgs: Vec<Cfg>,
        ignored_funcs: NameSet,
        verify_funcs: Vec<String>,
        dwarf_ctx: DwarfCtx,
        specs_map: Vec<FuncSpec>,
        ignore_specs: bool,
    ) -> (r: Self)
        ensures
            r.xlen == xlen,
            r.bbs == bbs,
            r.cfgs == cfgs,
            r.ignored_funcs == ignored_funcs,
            r.verify_funcs == verify_funcs,
            r.dwarf_ctx == dwarf_ctx,
            r.specs_map == specs_map,
            r.ignore_specs == ignore_specs,
            r.model@ == (ModelView {
                name: module_name@,
                vars: with_vars(Seq::empty(), var_views(sys_vars@)),
                func_models: Seq::empty(),
            }),
            label_views(r.labels_to_addr@) == labels_of(block_views(bbs@)),
            r.generated@ == Seq::<u64>::empty(),
            r.mod_set_map@ == Seq::<(Seq<char>, Seq<Seq<char>>)>::empty(),
            r.is_settled(),
    {
        let mut model = Model::new(module_name);
        model.add_vars(sys_vars);
        let labels_to_addr = Self::create_label_to_addr_map(&bbs);
        Translator {
            xlen,
            model,
            bbs,
            cfgs,
            ignored_funcs,
            verify_funcs,
            dwarf_ctx,
            specs_map,
            ignore_specs,
            labels_to_addr,
            generated: Vec::new(),
            mod_set_map: ModSetMap::new(),
        }
    }

    /// Starts over with an empty model of the same name, and with no
    /// function generated.
    pub fn clear(&mut self)
        ensures
            final(self).same_inputs(old(self)),
            final(self).model@ == (ModelView {
                name: old(self).model@.name,
                vars: Seq::empty(),
                func_models: Seq::empty(),
            }),
            final(self).generated@ == Seq::<u64>::empty(),
            final(self).mod_set_map == old(self).mod_set_map,
            final(self).is_settled(),
    {
        let name = self.model.name.clone();
        self.model = Model::new(name.as_str());
        self.generated = Vec::new();
    }

    /// The entry address of the function named `func_name`.
    pub fn func_entry_addr(&self, func_name: &str) -> (r: Option<u64>)
        ensures
            r == label_addr(label_views(self.labels_to_addr@), func_name@),
    {
        find_label(&self.labels_to_addr, func_name)
    }

    /// The index of the control-flow graph of the function that starts at
    /// `addr`.
    pub fn get_func_cfg(&self, addr: u64) -> (r: Result<usize, Error>)
        ensures
            r matches Ok(i) ==> i < self.cfgs@.len() && self.cfgs@[i as int].entry_addr == addr
                && forall|j: int| 0 <= j < i ==> (#[trigger] self.cfgs@[j]).entry_addr != addr,
            r matches Err(e) ==> e@ == ErrorView::MissingBlock(addr) && forall|j: int|
                0 <= j < self.cfgs@.len() ==> (#[trigger] self.cfgs@[j]).entry_addr != addr,
    {
        let mut i: usize = 0;
        while i < self.cfgs.len()
            invariant
                i <= self.cfgs.len(),
                forall|j: int| 0 <= j < i ==> (#[trigger] self.cfgs@[j]).entry_addr != addr,
            decreases self.cfgs.len() - i,
        {
            if self.cfgs[i].entry_addr == addr {
                return Ok(i);
            }
            i += 1;
        }
        Err(Error::MissingBlock(addr))
    }

    /// Adds the stub that stands for the ignored function `func_name`.
    /// Fails where the function has no label.
    pub fn gen_func_model_stub(&mut self, func_name: &str) -> (r: Result<(), Error>)
        ensures
            final(self).same_inputs(old(self)),
            final(self).generated == old(self).generated,
            final(self).mod_set_map == old(self).mod_set_map,
            match label_addr(label_views(old(self).labels_to_addr@), func_name@) {
                Some(entry) => r is Ok && final(self).model@ == (ModelView {
                    func_models: with_func(
                        old(self).model@.func_models,
                        stub_model(
                            old(self).xlen,
                            old(self).dwarf_ctx@,
                            func_spec_views(old(self).specs_map@),
                            old(self).ignore_specs,
                            func_name@,
                            entry,
                        ),
                    ),
                    ..old(self).model@
                }),
                None => r is Err && r->Err_0@ == ErrorView::MissingLabel(func_name@)
                    && final(self).model == old(self).model,
            },
    {
        let entry_addr = match self.func_entry_addr(func_name) {
            Some(a) => a,
            None => {
                return Err(Error::MissingLabel(String::from_str(func_name)));
            },
        };
        let arg_exprs = func_reg_args(&self.dwarf_ctx, func_name, self.xlen);
        let mod_set = mod_set_from_spec_map(&self.specs_map, func_name);
        let preconds = if !self.ignore_specs {
            requires_from_spec_map(&self.specs_map, func_name)
        } else {
            None
        };
        let postconds = if !self.ignore_specs {
            ensures_from_spec_map(&self.specs_map, func_name)
        } else {
            None
        };
        let tracks = if !self.ignore_specs {
            tracked_from_spec_map(&self.specs_map, func_name)
        } else {
            None
        };
        let empty: Vec<Box<Stmt>> = Vec::new();
        proof {
            Stmt::lemma_view_block(empty);
            assert(stmt_views(empty@) =~= Seq::<StmtView>::empty());
        }
        let stub_fm = FuncModel::new(
            func_name,
            entry_addr,
            arg_exprs,
            None,
            preconds,
            postconds,
            tracks,
            mod_set,
            Stmt::Block(empty),
            false,
        );
        self.model.add_func_model(stub_fm);
        Ok(())
    }
}


/// The procedures of the blocks of `cfg`, in the order of the blocks.
pub open spec fn block_models(map: Seq<(Seq<char>, Seq<Seq<char>>)>, cfg: CfgView) -> Seq<
    FuncModelView,
> {
    Seq::new(cfg.nodes.len(), |j: int| bb_model(map, cfg.nodes[j]))
}

/// Whether every name of `b` is a name of `a`.
pub open spec fn includes(a: Seq<Seq<char>>, b: Seq<Seq<char>>) -> bool {
    forall|n: Seq<char>| b.contains(n) ==> a.contains(n)
}

/// `acc` with what the procedures of `bms` from index `i` on may write.
pub open spec fn with_block_sets(bms: Seq<FuncModelView>, i: nat, acc: Seq<Seq<char>>) -> Seq<
    Seq<char>,
>
    decreases bms.len() - i,
{
    if i >= bms.len() {
        acc
    } else {
        with_block_sets(bms, i + 1, union_sorted(acc, bms[i as int].sig.mod_set))
    }
}

/// What a jump to `target` may write. Where `target` is the entry of an
/// ignored function: what the contract of that function lets it write.
/// Where it is the entry of another function: what is recorded in `map`
/// for that function. Nothing where nothing is known, and nothing where
/// `target` is no entry of a function.
pub open spec fn callee_writes(
    blocks: Seq<BasicBlockView>,
    ignored: Seq<Seq<char>>,
    specs: Seq<FuncSpecView>,
    map: Seq<(Seq<char>, Seq<Seq<char>>)>,
    target: u64,
) -> Seq<Seq<char>> {
    match func_at(blocks, target) {
        Ok(Some(n)) => if ignored.contains(n) {
            opt_seq(spec_mod_set(specs, n))
        } else {
            opt_seq(callee_set(map, n))
        },
        _ => Seq::empty(),
    }
}

/// `acc` with what the jumps of `callees` from index `i` on may write.
pub open spec fn with_callee_sets(
    blocks: Seq<BasicBlockView>,
    ignored: Seq<Seq<char>>,
    specs: Seq<FuncSpecView>,
    map: Seq<(Seq<char>, Seq<Seq<char>>)>,
    callees: Seq<(u64, u64)>,
    i: nat,
    acc: Seq<Seq<char>>,
) -> Seq<Seq<char>>
    decreases callees.len() - i,
{
    if i >= callees.len() {
        acc
    } else {
        with_callee_sets(
            blocks,
            ignored,
            specs,
            map,
            callees,
            i + 1,
            union_sorted(acc, callee_writes(blocks, ignored, specs, map, callees[i as int].0)),
        )
    }
}

/// The targets of the jumps of the function `name` with the graph `cfg`,
/// each with the address of its jump; none where a jump has no target.
pub open spec fn callees_of(cfg: CfgView, name: Seq<char>) -> Seq<(u64, u64)> {
    match callees_nodes(cfg.nodes, name, 0, Seq::empty()) {
        Ok(c) => c,
        Err(_) => Seq::empty(),
    }
}

/// What the function `name` with the graph `cfg` may write: what the
/// procedures of its blocks may write, and what its jumps may. `before`
/// holds what was recorded when the function was begun, `then` what was
/// recorded when its callees were generated.
pub open spec fn function_writes(
    blocks: Seq<BasicBlockView>,
    ignored: Seq<Seq<char>>,
    specs: Seq<FuncSpecView>,
    before: Seq<(Seq<char>, Seq<Seq<char>>)>,
    then: Seq<(Seq<char>, Seq<Seq<char>>)>,
    cfg: CfgView,
    name: Seq<char>,
) -> Seq<Seq<char>> {
    with_callee_sets(
        blocks,
        ignored,
        specs,
        then,
        callees_of(cfg, name),
        0,
        with_block_sets(block_models(before, cfg), 0, Seq::empty()),
    )
}

/// Whether `fm` is the procedure of the function `name` that starts at
/// `entry` and has the control-flow graph `cfg`: it takes the function's
/// arguments as registers, returns nothing, carries the function's
/// contract unless contracts are left out, is inlined exactly where they
/// are, has a body that dispatches to the blocks in dependency order, and
/// may write what its blocks and its jumps may write.
pub open spec fn is_func_model_of(
    xlen: u64,
    dwarf: DwarfCtxView,
    blocks: Seq<BasicBlockView>,
    ignored: Seq<Seq<char>>,
    specs: Seq<FuncSpecView>,
    ignore_specs: bool,
    before: Seq<(Seq<char>, Seq<Seq<char>>)>,
    then: Seq<(Seq<char>, Seq<Seq<char>>)>,
    cfg: CfgView,
    name: Seq<char>,
    entry: u64,
    fm: FuncModelView,
) -> bool {
    &&& fm.sig.name == name
    &&& fm.sig.entry_addr == entry
    &&& fm.sig.arg_decls == reg_args(formals(dwarf, name), xlen)
    &&& fm.sig.ret_decl is None
    &&& fm.sig.preconds == carried_specs(specs, ignore_specs, name, SpecKind::Requires)
    &&& fm.sig.postconds == carried_specs(specs, ignore_specs, name, SpecKind::Ensures)
    &&& fm.sig.tracks == carried_specs(specs, ignore_specs, name, SpecKind::Track)
    &&& fm.inline == ignore_specs
    &&& is_function_body(xlen, dwarf, blocks, ignored, cfg, entry, fm.body)
    &&& fm.sig.mod_set == function_writes(blocks, ignored, specs, before, then, cfg, name)
}

/// Whether the jumps of `callees` lead to blocks of the program, and those
/// among them that lead to the entry of a function lead to a function
/// that has a label.
pub open spec fn callees_known(
    blocks: Seq<BasicBlockView>,
    labels: Seq<(Seq<char>, u64)>,
    callees: Seq<(u64, u64)>,
) -> bool {
    forall|c: int|
        0 <= c < callees.len() ==> match func_at(blocks, (#[trigger] callees[c]).0) {
            Ok(Some(n)) => label_addr(labels, n) is Some,
            Ok(None) => true,
            Err(_) => false,
        }
}

/// Whether the function `name` that starts at `entry` and has the graph
/// `cfg` can be generated once its callees are: its jumps have targets
/// that are known, its blocks can be ordered, and its body can be built.
pub open spec fn function_ok(
    xlen: u64,
    dwarf: DwarfCtxView,
    blocks: Seq<BasicBlockView>,
    ignored: Seq<Seq<char>>,
    labels: Seq<(Seq<char>, u64)>,
    cfg: CfgView,
    name: Seq<char>,
    entry: u64,
) -> bool {
    &&& callees_nodes(cfg.nodes, name, 0, Seq::empty()) is Ok
    &&& callees_known(blocks, labels, callees_of(cfg, name))
    &&& deps_defined(cfg, blocks, ignored)
    &&& layered(dep_items(cfg, blocks, ignored), dep_links(cfg, blocks, ignored)) is Ok
    &&& function_body(
        xlen,
        dwarf,
        cfg,
        entry,
        layered(dep_items(cfg, blocks, ignored), dep_links(cfg, blocks, ignored))->Ok_0,
    ) is Ok
}

/// Whether every function of the program that has a label and is not
/// ignored can be generated: it has a graph, and with each graph that
/// starts at its entry it can be generated once its callees are.
pub open spec fn program_complete(
    xlen: u64,
    dwarf: DwarfCtxView,
    blocks: Seq<BasicBlockView>,
    ignored: Seq<Seq<char>>,
    labels: Seq<(Seq<char>, u64)>,
    cfgs: Seq<Cfg>,
) -> bool {
    forall|name: Seq<char>|
        (#[trigger] label_addr(labels, name)) is Some && !ignored.contains(name) ==> {
            &&& exists|i: int|
                0 <= i < cfgs.len() && (#[trigger] cfgs[i]).entry_addr == label_addr(
                    labels,
                    name,
                )->0
            &&& forall|i: int|
                0 <= i < cfgs.len() && (#[trigger] cfgs[i]).entry_addr == label_addr(
                    labels,
                    name,
                )->0 ==> function_ok(
                    xlen,
                    dwarf,
                    blocks,
                    ignored,
                    labels,
                    cfgs[i]@,
                    name,
                    label_addr(labels, name)->0,
                )
        }
}

/// Whether each label has an address of its own: no two names stand for
/// one address.
pub open spec fn labels_distinct(labels: Seq<(Seq<char>, u64)>) -> bool {
    forall|m: Seq<char>, n: Seq<char>|
        (#[trigger] label_addr(labels, m)) is Some && label_addr(labels, m) == #[trigger] label_addr(
            labels,
            n,
        ) ==> m == n
}

/// Whether `n` is the name of the procedure of a block.
pub open spec fn is_block_name(n: Seq<char>) -> bool {
    exists|x: u64| n == #[trigger] bb_name(x)
}

/// A name that does not begin with the letter `b` is not the name of the
/// procedure of a block.
pub proof fn lemma_not_block_name(n: Seq<char>)
    requires
        n.len() == 0 || n[0] != 'b',
    ensures
        !is_block_name(n),
{
    reveal_strlit("bb_0x");
    assert forall|x: u64| n != #[trigger] bb_name(x) by {
        assert(bb_name(x)[0] == 'b');
    }
}

/// Whether the function `n` has been generated between `before` and
/// `after`: it has a label, and its address is among the generated ones
/// of `after` and not among those of `before`.
pub open spec fn marked_since(before: Translator, after: Translator, n: Seq<char>) -> bool {
    let a = label_addr(label_views(before.labels_to_addr@), n);
    a is Some && after.generated@.contains(a->0) && !before.generated@.contains(a->0)
}

/// Whether `fm` is the first procedure of its name among `fms`.
pub open spec fn is_first_named(fms: Seq<FuncModelView>, fm: FuncModelView) -> bool {
    exists|j: int|
        0 <= j < fms.len() && #[trigger] fms[j] == fm && forall|i: int|
            0 <= i < j ==> (#[trigger] fms[i]).sig.name != fm.sig.name
}

/// Whether in `after` the function `n` is done: the model has a procedure
/// of its name; where the function is not ignored, what it may write is
/// recorded; where it is ignored, the procedure of its name is its stub,
/// unless the name is that of a block procedure or a procedure of the name
/// was in the model of `before`.
pub open spec fn callee_done(before: Translator, after: Translator, n: Seq<char>) -> bool {
    &&& has_func(after.model@.func_models, n)
    &&& !before.ignored_funcs@.contains(n) ==> callee_set(after.mod_set_map@, n) is Some
    &&& before.ignored_funcs@.contains(n) && !is_block_name(n) && !has_func(
        before.model@.func_models,
        n,
    ) ==> is_first_named(
        after.model@.func_models,
        stub_model(
            before.xlen,
            before.dwarf_ctx@,
            func_spec_views(before.specs_map@),
            before.ignore_specs,
            n,
            label_addr(label_views(before.labels_to_addr@), n)->0,
        ),
    )
}

/// Whether every function that has been generated between `before` and
/// `after` is done in `after`.
pub open spec fn all_done(before: Translator, after: Translator) -> bool {
    forall|n: Seq<char>| #[trigger] marked_since(before, after, n) ==> callee_done(before, after, n)
}

/// Whether every procedure that `after` has more than `before` is the
/// procedure of a block or of a function that has been generated between
/// the two.
pub open spec fn all_accounted(before: Translator, after: Translator) -> bool {
    forall|j: int|
        before.model@.func_models.len() <= j < after.model@.func_models.len() ==> is_block_name(
            (#[trigger] after.model@.func_models[j]).sig.name,
        ) || marked_since(before, after, after.model@.func_models[j].sig.name)
}

/// Whether the callees of the function `name`, which has the graph at
/// index `i`, are generated in `after`: each jump target that is the
/// entry of a function leads to a function whose address is among the
/// generated ones; and where each label has an address of its own, each
/// such function that was not generated in `before` is done.
pub open spec fn callees_generated(before: Translator, after: Translator, name: Seq<char>, i: int) -> bool {
    forall|c: int|
        0 <= c < callees_of(before.cfgs@[i]@, name).len() ==> match func_at(
            block_views(before.bbs@),
            (#[trigger] callees_of(before.cfgs@[i]@, name)[c]).0,
        ) {
            Ok(Some(n)) => {
                let a = label_addr(label_views(before.labels_to_addr@), n);
                &&& a is Some
                &&& after.generated@.contains(a->0)
                &&& labels_distinct(label_views(before.labels_to_addr@))
                    && !before.generated@.contains(a->0) ==> callee_done(before, after, n)
            },
            _ => true,
        }
}

/// A set that is recorded stays recorded as more is recorded.
pub proof fn lemma_callee_set_extends(
    a: Seq<(Seq<char>, Seq<Seq<char>>)>,
    b: Seq<(Seq<char>, Seq<Seq<char>>)>,
    n: Seq<char>,
)
    requires
        a.is_prefix_of(b),
        callee_set(a, n) is Some,
    ensures
        callee_set(b, n) is Some,
    decreases b.len(),
{
    if b.len() == a.len() {
        assert(a =~= b);
    } else if b.last().0 != n {
        lemma_callee_set_extends(a, b.drop_last(), n);
    }
}

/// The first procedure of a name stays the first of its name as
/// procedures are added.
pub proof fn lemma_first_named_extends(
    a: Seq<FuncModelView>,
    b: Seq<FuncModelView>,
    fm: FuncModelView,
)
    requires
        a.is_prefix_of(b),
        is_first_named(a, fm),
    ensures
        is_first_named(b, fm),
{
    let j = choose|j: int|
        0 <= j < a.len() && #[trigger] a[j] == fm && forall|i: int|
            0 <= i < j ==> (#[trigger] a[i]).sig.name != fm.sig.name;
    assert(b[j] == fm);
    assert forall|i: int| 0 <= i < j implies (#[trigger] b[i]).sig.name != fm.sig.name by {
        assert(b[i] == a[i]);
    }
}

/// A procedure that is added where none of its name was is the first of
/// its name.
pub proof fn lemma_added_is_first(fms: Seq<FuncModelView>, fm: FuncModelView)
    requires
        !has_func(fms, fm.sig.name),
    ensures
        is_first_named(with_func(fms, fm), fm),
{
    let r = with_func(fms, fm);
    assert(r[fms.len() as int] == fm);
    assert forall|i: int| 0 <= i < fms.len() implies (#[trigger] r[i]).sig.name != fm.sig.name by {
        assert(r[i] == fms[i]);
    }
}

/// A function that is done stays done as procedures are added and sets
/// are recorded.
pub proof fn lemma_done_extends(before: Translator, mid: Translator, after: Translator, n: Seq<char>)
    requires
        callee_done(before, mid, n),
        mid.model@.func_models.is_prefix_of(after.model@.func_models),
        mid.mod_set_map@.is_prefix_of(after.mod_set_map@),
    ensures
        callee_done(before, after, n),
{
    lemma_has_func_extends(mid.model@.func_models, after.model@.func_models, n);
    if !before.ignored_funcs@.contains(n) {
        lemma_callee_set_extends(mid.mod_set_map@, after.mod_set_map@, n);
    }
    if before.ignored_funcs@.contains(n) && !is_block_name(n) && !has_func(
        before.model@.func_models,
        n,
    ) {
        lemma_first_named_extends(
            mid.model@.func_models,
            after.model@.func_models,
            stub_model(
                before.xlen,
                before.dwarf_ctx@,
                func_spec_views(before.specs_map@),
                before.ignore_specs,
                n,
                label_addr(label_views(before.labels_to_addr@), n)->0,
            ),
        );
    }
}

/// Where every added procedure is accounted for, a function that was not
/// generated, whose name is not that of a block procedure, and of whose
/// name no procedure was in the model before, has no procedure of its
/// name yet.
pub proof fn lemma_not_yet_added(before: Translator, now: Translator, n: Seq<char>)
    requires
        all_accounted(before, now),
        before.model@.func_models.is_prefix_of(now.model@.func_models),
        !is_block_name(n),
        !has_func(before.model@.func_models, n),
        !marked_since(before, now, n),
    ensures
        !has_func(now.model@.func_models, n),
{
    let fms = now.model@.func_models;
    if has_func(fms, n) {
        let j = choose|j: int| 0 <= j < fms.len() && (#[trigger] fms[j]).sig.name == n;
        if j < before.model@.func_models.len() {
            assert(before.model@.func_models[j].sig.name == n);
        } else {
            assert(is_block_name(fms[j].sig.name) || marked_since(before, now, fms[j].sig.name));
        }
    }
}

/// What a step of generation brings to what came before: with `mid`
/// reached from `before` and `after` from `mid`, every added procedure is
/// accounted for, and every function generated since `before` is done.
pub proof fn lemma_step_accounted(before: Translator, mid: Translator, after: Translator)
    requires
        mid.same_inputs(&before),
        after.same_inputs(&mid),
        before.generated@.is_prefix_of(mid.generated@),
        mid.generated@.is_prefix_of(after.generated@),
        before.model@.func_models.is_prefix_of(mid.model@.func_models),
        mid.model@.func_models.is_prefix_of(after.model@.func_models),
        all_accounted(before, mid),
        all_accounted(mid, after),
    ensures
        all_accounted(before, after),
{
    let fa = after.model@.func_models;
    let fm = mid.model@.func_models;
    assert forall|j: int| before.model@.func_models.len() <= j < fa.len() implies is_block_name(
        (#[trigger] fa[j]).sig.name,
    ) || marked_since(before, after, fa[j].sig.name) by {
        let nm = fa[j].sig.name;
        if j < fm.len() {
            assert(fm[j] == fa[j]);
            if marked_since(before, mid, nm) {
                let a = label_addr(label_views(before.labels_to_addr@), nm)->0;
                lemma_contains_extends(mid.generated@, after.generated@, a);
            }
        } else {
            if marked_since(mid, after, nm) {
                let a = label_addr(label_views(before.labels_to_addr@), nm)->0;
                if before.generated@.contains(a) {
                    lemma_contains_extends(before.generated@, mid.generated@, a);
                }
            }
        }
    }
}

/// What is in a list is in every list that it begins.
pub proof fn lemma_contains_extends(a: Seq<u64>, b: Seq<u64>, x: u64)
    requires
        a.is_prefix_of(b),
        a.contains(x),
    ensures
        b.contains(x),
{
    let k = choose|k: int| 0 <= k < a.len() && a[k] == x;
    assert(b[k] == x);
}

/// With `mid` reached from `before` and `after` from `mid`, the functions
/// that were done at `mid` and those that have been generated since are
/// done at `after`. The function at `skip`, which is being generated, is
/// left out.
pub proof fn lemma_step_done(before: Translator, mid: Translator, after: Translator, skip: u64)
    requires
        mid.same_inputs(&before),
        after.same_inputs(&mid),
        before.generated@.is_prefix_of(mid.generated@),
        mid.generated@.is_prefix_of(after.generated@),
        before.model@.func_models.is_prefix_of(mid.model@.func_models),
        mid.model@.func_models.is_prefix_of(after.model@.func_models),
        mid.mod_set_map@.is_prefix_of(after.mod_set_map@),
        mid.generated@.contains(skip),
        all_accounted(before, mid),
        forall|n: Seq<char>| #[trigger]
            marked_since(before, mid, n) && label_addr(label_views(before.labels_to_addr@), n)->0
                != skip ==> callee_done(before, mid, n),
        all_done(mid, after),
    ensures
        forall|n: Seq<char>| #[trigger]
            marked_since(before, after, n) && label_addr(
                label_views(before.labels_to_addr@),
                n,
            )->0 != skip ==> callee_done(before, after, n),
{
    assert forall|n: Seq<char>| #[trigger]
        marked_since(before, after, n) && label_addr(label_views(before.labels_to_addr@), n)->0
            != skip implies callee_done(before, after, n) by {
        let a = label_addr(label_views(before.labels_to_addr@), n)->0;
        if mid.generated@.contains(a) {
            assert(marked_since(before, mid, n));
            lemma_done_extends(before, mid, after, n);
        } else {
            assert(marked_since(mid, after, n));
            assert(callee_done(mid, after, n));
            if before.ignored_funcs@.contains(n) && !is_block_name(n) && !has_func(
                before.model@.func_models,
                n,
            ) {
                lemma_not_yet_added(before, mid, n);
            }
        }
    }
}

/// The procedures that a list gets are among those that were to be
/// added.
pub proof fn lemma_with_funcs_added(fms: Seq<FuncModelView>, more: Seq<FuncModelView>)
    ensures
        fms.len() <= with_funcs(fms, more).len(),
        forall|j: int|
            fms.len() <= j < with_funcs(fms, more).len() ==> more.contains(
                #[trigger] with_funcs(fms, more)[j],
            ),
    decreases more.len(),
{
    if more.len() > 0 {
        let mid = with_funcs(fms, more.drop_last());
        lemma_with_funcs_added(fms, more.drop_last());
        let r = with_funcs(fms, more);
        assert forall|j: int| fms.len() <= j < r.len() implies more.contains(#[trigger] r[j]) by {
            if j < mid.len() {
                assert(r[j] == mid[j]);
                let k = choose|k: int|
                    0 <= k < more.drop_last().len() && more.drop_last()[k] == mid[j];
                assert(more[k] == r[j]);
            } else {
                assert(r[j] == more.last());
                assert(more[more.len() - 1] == r[j]);
            }
        }
    }
}

/// What is in a list with one more item was in the list, or is that item.
pub proof fn lemma_pushed_contains(s: Seq<u64>, x: u64, a: u64)
    requires
        s.push(x).contains(a),
    ensures
        s.contains(a) || a == x,
{
    let k = choose|k: int| 0 <= k < s.push(x).len() && s.push(x)[k] == a;
    if k < s.len() {
        assert(s[k] == a);
    }
}

/// Whether the jump target `target`, where it is the entry of a function,
/// leads to a function that has a label whose address is among `done`.
pub open spec fn callee_marked(
    blocks: Seq<BasicBlockView>,
    labels: Seq<(Seq<char>, u64)>,
    done: Seq<u64>,
    target: u64,
) -> bool {
    match func_at(blocks, target) {
        Ok(Some(n)) => label_addr(labels, n) is Some && done.contains(label_addr(labels, n)->0),
        _ => true,
    }
}

/// A jump that a function fails on has no target.
pub proof fn lemma_callees_error(
    nodes: Seq<BasicBlockView>,
    name: Seq<char>,
    i: nat,
    acc: Seq<(u64, u64)>,
)
    requires
        callees_nodes(nodes, name, i, acc) is Err,
    ensures
        callees_nodes(nodes, name, i, acc)->Err_0 is MalformedInst,
    decreases nodes.len() - i,
{
    if i < nodes.len() {
        match callees_insts(nodes[i as int].insts, name, 0, acc) {
            Ok(a) => {
                lemma_callees_error(nodes, name, i + 1, a);
            },
            Err(e) => {
                lemma_callees_insts_error(nodes[i as int].insts, name, 0, acc);
            },
        }
    }
}

/// A jump that a block fails on has no target.
pub proof fn lemma_callees_insts_error(
    insts: Seq<InstView>,
    name: Seq<char>,
    i: nat,
    acc: Seq<(u64, u64)>,
)
    requires
        callees_insts(insts, name, i, acc) is Err,
    ensures
        callees_insts(insts, name, i, acc)->Err_0 is MalformedInst,
    decreases insts.len() - i,
{
    if i < insts.len() {
        let al = insts[i as int];
        if al.function_name == name && al.op == "jal"@ {
            if al.imm is Some {
                lemma_callees_insts_error(
                    insts,
                    name,
                    i + 1,
                    acc.push((crate::sl_ast::i64_bits(al.imm->0), al.address)),
                );
            }
        } else {
            lemma_callees_insts_error(insts, name, i + 1, acc);
        }
    }
}

/// A body that cannot be built lacks a block or the target of a jump.
pub proof fn lemma_body_error(
    xlen: u64,
    dwarf: DwarfCtxView,
    cfg: CfgView,
    func_entry: u64,
    order: Seq<u64>,
    i: nat,
    acc: Seq<StmtView>,
)
    requires
        body_from(xlen, dwarf, cfg, func_entry, order, i, acc) is Err,
    ensures
        body_from(xlen, dwarf, cfg, func_entry, order, i, acc)->Err_0 is MissingBlock || body_from(
            xlen,
            dwarf,
            cfg,
            func_entry,
            order,
            i,
            acc,
        )->Err_0 is MalformedInst,
    decreases order.len() - i,
{
    if i < order.len() {
        match cfg.node(order[i as int]) {
            None => {},
            Some(n) => if !emitted(n, order[i as int], func_entry) {
                lemma_body_error(xlen, dwarf, cfg, func_entry, order, i + 1, acc);
            } else {
                match block_dispatch(xlen, dwarf, cfg, n, order[i as int]) {
                    Ok(d) => {
                        lemma_body_error(xlen, dwarf, cfg, func_entry, order, i + 1, acc + d);
                    },
                    Err(e) => {},
                }
            },
        }
    }
}

/// Whether `e` is one of the errors that generating a function ends in: a
/// name without a label, an address without a block, a jump without a
/// target, or blocks that cannot be ordered.
pub open spec fn is_generation_error(e: ErrorView) -> bool {
    e is MissingLabel || e is MissingBlock || e is MalformedInst || e is CycleInCFG
}

/// With the procedures of the blocks of a function added, and the
/// function marked, every added procedure is accounted for, and no
/// function but that one has been generated.
pub proof fn lemma_blocks_accounted(before: Translator, now: Translator, cfg: CfgView, entry: u64)
    requires
        now.model@.func_models == with_funcs(
            before.model@.func_models,
            block_models(before.mod_set_map@, cfg),
        ),
        now.generated@ == before.generated@.push(entry),
    ensures
        all_accounted(before, now),
        forall|n: Seq<char>| #[trigger]
            marked_since(before, now, n) && label_addr(label_views(before.labels_to_addr@), n)->0
                != entry ==> callee_done(before, now, n),
{
    let bms = block_models(before.mod_set_map@, cfg);
    let fms = now.model@.func_models;
    lemma_with_funcs_added(before.model@.func_models, bms);
    assert forall|j: int| before.model@.func_models.len() <= j < fms.len() implies is_block_name(
        (#[trigger] fms[j]).sig.name,
    ) by {
        let k = choose|k: int| 0 <= k < bms.len() && bms[k] == fms[j];
        assert(fms[j].sig.name == bb_name(cfg.nodes[k].entry_addr));
    }
    assert forall|n: Seq<char>| #[trigger]
        marked_since(before, now, n) && label_addr(label_views(before.labels_to_addr@), n)->0
            != entry implies callee_done(before, now, n) by {
        lemma_pushed_contains(
            before.generated@,
            entry,
            label_addr(label_views(before.labels_to_addr@), n)->0,
        );
    }
}

/// With the procedure of a function added at the end, every added
/// procedure is accounted for, and every function generated since
/// `before` is done.
pub proof fn lemma_function_added(
    before: Translator,
    mid: Translator,
    after: Translator,
    name: Seq<char>,
    entry: u64,
    fm: FuncModelView,
)
    requires
        mid.same_inputs(&before),
        after.same_inputs(&mid),
        before.generated@.is_prefix_of(mid.generated@),
        after.generated@ == mid.generated@,
        before.model@.func_models.is_prefix_of(mid.model@.func_models),
        after.model@.func_models == with_func(mid.model@.func_models, fm),
        fm.sig.name == name,
        mid.mod_set_map@.is_prefix_of(after.mod_set_map@),
        callee_set(after.mod_set_map@, name) is Some,
        label_addr(label_views(before.labels_to_addr@), name) == Some(entry),
        mid.generated@.contains(entry),
        !before.generated@.contains(entry),
        !before.ignored_funcs@.contains(name),
        all_accounted(before, mid),
        labels_distinct(label_views(before.labels_to_addr@)) ==> forall|n: Seq<char>| #[trigger]
            marked_since(before, mid, n) && label_addr(label_views(before.labels_to_addr@), n)->0
                != entry ==> callee_done(before, mid, n),
    ensures
        all_accounted(before, after),
        labels_distinct(label_views(before.labels_to_addr@)) ==> all_done(before, after),
{
    let labels = label_views(before.labels_to_addr@);
    let fa = after.model@.func_models;
    let fmid = mid.model@.func_models;
    lemma_with_func_extends(fmid, fm);
    assert(marked_since(before, after, name));
    assert forall|j: int| before.model@.func_models.len() <= j < fa.len() implies is_block_name(
        (#[trigger] fa[j]).sig.name,
    ) || marked_since(before, after, fa[j].sig.name) by {
        if j < fmid.len() {
            assert(fa[j] == fmid[j]);
            assert(is_block_name(fmid[j].sig.name) || marked_since(before, mid, fmid[j].sig.name));
        }
    }
    if labels_distinct(labels) {
        assert forall|n: Seq<char>| #[trigger] marked_since(before, after, n) implies callee_done(
            before,
            after,
            n,
        ) by {
            if label_addr(labels, n)->0 != entry {
                assert(marked_since(before, mid, n));
                lemma_done_extends(before, mid, after, n);
            } else {
                assert(label_addr(labels, n) == label_addr(labels, name));
                assert(n == name);
            }
        }
    }
}

/// Where the targets of the jumps of a function lead to functions that
/// are generated, and the functions generated since `before` are done,
/// the callees of the function are generated.
pub proof fn lemma_callees_generated(before: Translator, after: Translator, name: Seq<char>, i: int)
    requires
        after.same_inputs(&before),
        forall|c: int|
            0 <= c < callees_of(before.cfgs@[i]@, name).len() ==> callee_marked(
                block_views(before.bbs@),
                label_views(before.labels_to_addr@),
                after.generated@,
                (#[trigger] callees_of(before.cfgs@[i]@, name)[c]).0,
            ),
        labels_distinct(label_views(before.labels_to_addr@)) ==> all_done(before, after),
    ensures
        callees_generated(before, after, name, i),
{
    let callees = callees_of(before.cfgs@[i]@, name);
    assert forall|c: int| 0 <= c < callees.len() implies match func_at(
        block_views(before.bbs@),
        (#[trigger] callees[c]).0,
    ) {
        Ok(Some(n)) => {
            let a = label_addr(label_views(before.labels_to_addr@), n);
            &&& a is Some
            &&& after.generated@.contains(a->0)
            &&& labels_distinct(label_views(before.labels_to_addr@)) && !before.generated@.contains(
                a->0,
            ) ==> callee_done(before, after, n)
        },
        _ => true,
    } by {
        assert(callee_marked(
            block_views(before.bbs@),
            label_views(before.labels_to_addr@),
            after.generated@,
            callees[c].0,
        ));
        match func_at(block_views(before.bbs@), callees[c].0) {
            Ok(Some(n)) => {
                let a = label_addr(label_views(before.labels_to_addr@), n);
                if labels_distinct(label_views(before.labels_to_addr@)) && !before.generated@.contains(
                    a->0,
                ) {
                    assert(marked_since(before, after, n));
                }
            },
            _ => {},
        }
    }
}

/// What the reason is where a body cannot be built: it is one of the
/// errors that generating a function ends in.
pub proof fn lemma_body_result_error(
    xlen: u64,
    dwarf: DwarfCtxView,
    blocks: Seq<BasicBlockView>,
    ignored: Seq<Seq<char>>,
    cfg: CfgView,
    func_entry: u64,
    e: ErrorView,
)
    requires
        is_body_result(xlen, dwarf, blocks, ignored, cfg, func_entry, Err(e)),
    ensures
        is_generation_error(e),
{
    if deps_defined(cfg, blocks, ignored) {
        match layered(dep_items(cfg, blocks, ignored), dep_links(cfg, blocks, ignored)) {
            Ok(order) => {
                lemma_body_error(xlen, dwarf, cfg, func_entry, order, 0, Seq::empty());
            },
            Err(_) => {},
        }
    }
}

/// What a translator is given of a program: the width of a register, the
/// debugging information, the blocks, the functions that are ignored, the
/// labels, and the graphs of the functions.
pub struct ProgramView {
    pub xlen: u64,
    pub dwarf: DwarfCtxView,
    pub blocks: Seq<BasicBlockView>,
    pub ignored: Seq<Seq<char>>,
    pub labels: Seq<(Seq<char>, u64)>,
    pub cfgs: Seq<CfgView>,
}

/// The views of a list of graphs.
pub open spec fn graph_views(v: Seq<Cfg>) -> Seq<CfgView> {
    Seq::new(v.len(), |i: int| v[i]@)
}

/// Whether the graph at index `i` is the graph of the function that starts
/// at `entry`: the first graph that starts there.
pub open spec fn is_graph_of(p: ProgramView, i: int, entry: u64) -> bool {
    0 <= i < p.cfgs.len() && p.cfgs[i].entry_addr == entry && forall|j: int|
        0 <= j < i ==> (#[trigger] p.cfgs[j]).entry_addr != entry
}

/// Whether the function `f` calls the function `n`: `f` has a label and a
/// graph and is not ignored, and one of its jumps leads to the entry of
/// `n`.
pub open spec fn calls(p: ProgramView, f: Seq<char>, n: Seq<char>) -> bool {
    let e = label_addr(p.labels, f);
    e is Some && !p.ignored.contains(f) && exists|i: int, c: int|
        is_graph_of(p, i, e->0) && 0 <= c < callees_of(p.cfgs[i], f).len() && func_at(
            p.blocks,
            (#[trigger] callees_of(p.cfgs[i], f)[c]).0,
        ) == Ok::<Option<Seq<char>>, ErrorView>(Some(n))
}

/// Whether each function of `path` calls the next.
pub open spec fn is_call_path(p: ProgramView, path: Seq<Seq<char>>) -> bool {
    path.len() > 0 && forall|k: int|
        0 <= k < path.len() - 1 ==> calls(p, #[trigger] path[k], path[k + 1])
}

/// Whether calls lead from the function `f` to the function `n`; every
/// function leads to itself.
pub open spec fn reaches(p: ProgramView, f: Seq<char>, n: Seq<char>) -> bool {
    exists|path: Seq<Seq<char>>| #[trigger]
        is_call_path(p, path) && path[0] == f && path.last() == n
}

/// Whether generating the function `n`, which starts at `entry` and has
/// the graph at index `i`, fails with `e` at the function itself: at a
/// jump without a target, at a jump to an address without a block, or
/// where its body cannot be built.
pub open spec fn fails_in_graph(p: ProgramView, i: int, n: Seq<char>, entry: u64, e: ErrorView) -> bool {
    ||| callees_nodes(p.cfgs[i].nodes, n, 0, Seq::empty()) == Err::<Seq<(u64, u64)>, ErrorView>(e)
    ||| exists|c: int|
        0 <= c < callees_of(p.cfgs[i], n).len() && func_at(
            p.blocks,
            (#[trigger] callees_of(p.cfgs[i], n)[c]).0,
        ) == Err::<Option<Seq<char>>, ErrorView>(e)
    ||| is_body_result(p.xlen, p.dwarf, p.blocks, p.ignored, p.cfgs[i], entry, Err(e))
}

/// Whether generating the function `n` fails with `e` at the function
/// itself: it has no label; or it is not ignored and has no graph, or
/// fails in its graph.
pub open spec fn fails_with(p: ProgramView, n: Seq<char>, e: ErrorView) -> bool {
    match label_addr(p.labels, n) {
        None => e == ErrorView::MissingLabel(n),
        Some(entry) => !p.ignored.contains(n) && ((e == ErrorView::MissingBlock(entry) && forall|
            j: int,
        |
            0 <= j < p.cfgs.len() ==> (#[trigger] p.cfgs[j]).entry_addr != entry) || exists|i: int|
            #[trigger] is_graph_of(p, i, entry) && fails_in_graph(p, i, n, entry, e)),
    }
}

/// Whether the error `e` has its cause in what the function `f` reaches:
/// calls lead from `f` to a function that fails with `e`.
pub open spec fn caused(p: ProgramView, f: Seq<char>, e: ErrorView) -> bool {
    exists|n: Seq<char>| #[trigger] reaches(p, f, n) && fails_with(p, n, e)
}

/// Whether the function `f` and every function that it reaches can be
/// generated: none of them fails.
pub open spec fn can_generate(p: ProgramView, f: Seq<char>) -> bool {
    forall|n: Seq<char>, e: ErrorView| #[trigger] reaches(p, f, n) ==> !#[trigger] fails_with(p, n, e)
}

/// Every function leads to itself.
pub proof fn lemma_reaches_self(p: ProgramView, f: Seq<char>)
    ensures
        reaches(p, f, f),
{
    let path = seq![f];
    assert(is_call_path(p, path) && path[0] == f && path.last() == f);
}

/// What a callee reaches, its caller reaches.
pub proof fn lemma_reaches_step(p: ProgramView, f: Seq<char>, n: Seq<char>, m: Seq<char>)
    requires
        calls(p, f, n),
        reaches(p, n, m),
    ensures
        reaches(p, f, m),
{
    let path = choose|path: Seq<Seq<char>>| #[trigger]
        is_call_path(p, path) && path[0] == n && path.last() == m;
    let q = seq![f] + path;
    assert forall|k: int| 0 <= k < q.len() - 1 implies calls(p, #[trigger] q[k], q[k + 1]) by {
        if k == 0 {
            assert(q[0] == f && q[1] == path[0]);
        } else {
            assert(q[k] == path[k - 1] && q[k + 1] == path[k - 1 + 1]);
        }
    }
    assert(is_call_path(p, q) && q[0] == f && q.last() == m);
}

/// An error that has its cause in what a callee reaches has its cause in
/// what the caller reaches.
pub proof fn lemma_caused_step(p: ProgramView, f: Seq<char>, n: Seq<char>, e: ErrorView)
    requires
        calls(p, f, n),
        caused(p, n, e),
    ensures
        caused(p, f, e),
{
    let m = choose|m: Seq<char>| #[trigger] reaches(p, n, m) && fails_with(p, m, e);
    lemma_reaches_step(p, f, n, m);
}

/// Where a function fails in its graph, the error has its cause in what
/// the function reaches, and the function cannot be generated.
pub proof fn lemma_fails_in_graph(
    p: ProgramView,
    i: int,
    f: Seq<char>,
    entry: u64,
    e: ErrorView,
)
    requires
        label_addr(p.labels, f) == Some(entry),
        !p.ignored.contains(f),
        is_graph_of(p, i, entry),
        fails_in_graph(p, i, f, entry, e),
    ensures
        caused(p, f, e),
        !can_generate(p, f),
{
    assert(fails_with(p, f, e));
    lemma_reaches_self(p, f);
}

/// Where a callee of a function cannot be generated, the error has its
/// cause in what the function reaches, and the function cannot be
/// generated.
pub proof fn lemma_callee_failed(
    p: ProgramView,
    i: int,
    f: Seq<char>,
    entry: u64,
    c: int,
    n: Seq<char>,
    e: ErrorView,
)
    requires
        label_addr(p.labels, f) == Some(entry),
        !p.ignored.contains(f),
        is_graph_of(p, i, entry),
        0 <= c < callees_of(p.cfgs[i], f).len(),
        func_at(p.blocks, callees_of(p.cfgs[i], f)[c].0) == Ok::<Option<Seq<char>>, ErrorView>(
            Some(n),
        ),
        caused(p, n, e),
    ensures
        caused(p, f, e),
        !can_generate(p, f),
{
    assert(calls(p, f, n));
    lemma_caused_step(p, f, n, e);
    let m = choose|m: Seq<char>| #[trigger] reaches(p, f, m) && fails_with(p, m, e);
    assert(reaches(p, f, m) && fails_with(p, m, e));
}

/// Where a function has no label or no graph, the error has its cause in
/// what the function reaches, and the function cannot be generated.
pub proof fn lemma_fails_here(p: ProgramView, f: Seq<char>, e: ErrorView)
    requires
        fails_with(p, f, e),
    ensures
        caused(p, f, e),
        !can_generate(p, f),
{
    lemma_reaches_self(p, f);
}

/// Whether in `t` the function `n` is done: the model has a procedure of
/// its name, and where the function is not ignored, what it may write is
/// recorded.
pub open spec fn is_done(t: Translator, n: Seq<char>) -> bool {
    has_func(t.model@.func_models, n) && (!t.ignored_funcs@.contains(n) ==> callee_set(
        t.mod_set_map@,
        n,
    ) is Some)
}

/// Where every generated function was done, and every function generated
/// since is done, every generated function is done.
pub proof fn lemma_settled(before: Translator, after: Translator)
    requires
        before.is_settled(),
        after.same_inputs(&before),
        before.model@.func_models.is_prefix_of(after.model@.func_models),
        before.mod_set_map@.is_prefix_of(after.mod_set_map@),
        all_done(before, after),
    ensures
        after.is_settled(),
{
    let labels = label_views(before.labels_to_addr@);
    assert forall|n: Seq<char>|
        (#[trigger] label_addr(labels, n)) is Some && after.generated@.contains(
            label_addr(labels, n)->0,
        ) implies is_done(after, n) by {
        if before.generated@.contains(label_addr(labels, n)->0) {
            assert(is_done(before, n));
            lemma_has_func_extends(before.model@.func_models, after.model@.func_models, n);
            if !before.ignored_funcs@.contains(n) {
                lemma_callee_set_extends(before.mod_set_map@, after.mod_set_map@, n);
            }
        } else {
            assert(marked_since(before, after, n));
        }
    }
}

/// Whether the model's procedures `fms` hold the procedure of each block of
/// `cfg`.
pub open spec fn has_block_models(fms: Seq<FuncModelView>, cfg: CfgView) -> bool {
    forall|j: int|
        0 <= j < cfg.nodes.len() ==> has_func(fms, bb_name((#[trigger] cfg.nodes[j]).entry_addr))
}

impl Translator {
    /// Generates the model of the function `func_name`, and of the
    /// functions that it calls.
    ///
    /// A function that is generated already is left alone. For an ignored
    /// function a stub is added. For any other function the procedures of
    /// its blocks are added, then the models of its callees, then the
    /// procedure of the function itself: it takes the function's arguments
    /// as registers, carries its contract unless contracts are left out,
    /// and dispatches to the blocks in dependency order.
    ///
    /// Each jump target that is the entry of a function is generated in
    /// its turn: an ignored callee gets its stub, and for any other callee
    /// what it may write is recorded and becomes part of what the function
    /// may write. A callee that is generated already, or is being
    /// generated, is not generated again.
    ///
    /// Fails where the function has no label, where an address has no
    /// block, where a jump has no target, and where the blocks of a
    /// function cannot be ordered. The error is that of the function
    /// itself or of a function that calls lead to from it; where neither
    /// the function nor any function that it reaches fails, it is
    /// generated.
    #[verifier::rlimit(100)]
    pub fn gen_func_model(&mut self, func_name: &str) -> (r: Result<(), Error>)
        ensures
            final(self).same_inputs(old(self)),
            old(self).generated@.is_prefix_of(final(self).generated@),
            old(self).model@.func_models.is_prefix_of(final(self).model@.func_models),
            final(self).pending() <= old(self).pending(),
            old(self).mod_set_map@.is_prefix_of(final(self).mod_set_map@),
            holds_vars(final(self).model@.vars, old(self).model@.vars),
            vars_sorted(old(self).model@.vars) ==> vars_sorted(final(self).model@.vars),
            all_accounted(*old(self), *final(self)),
            r is Ok && labels_distinct(label_views(old(self).labels_to_addr@)) ==> all_done(
                *old(self),
                *final(self),
            ),
            r is Ok && labels_distinct(label_views(old(self).labels_to_addr@)) && old(
                self,
            ).is_settled() ==> final(self).is_settled(),
            r is Err ==> is_generation_error(r->Err_0@) && caused(
                old(self).program(),
                func_name@,
                r->Err_0@,
            ),
            can_generate(old(self).program(), func_name@) ==> r is Ok,
            old(self).is_complete() && label_addr(
                label_views(old(self).labels_to_addr@),
                func_name@,
            ) is Some ==> r is Ok,
            match label_addr(label_views(old(self).labels_to_addr@), func_name@) {
                None => r is Err && r->Err_0@ == ErrorView::MissingLabel(func_name@)
                    && *final(self) == *old(self),
                Some(entry) => {
                    &&& old(self).generated@.contains(entry) ==> r is Ok && *final(self) == *old(
                        self,
                    )
                    &&& !old(self).generated@.contains(entry) && old(self).ignored_funcs@.contains(
                        func_name@,
                    ) ==> r is Ok && final(self).generated@ == old(self).generated@.push(entry)
                        && final(self).mod_set_map == old(self).mod_set_map && final(self).model@
                        == (ModelView {
                        func_models: with_func(
                            old(self).model@.func_models,
                            stub_model(
                                old(self).xlen,
                                old(self).dwarf_ctx@,
                                func_spec_views(old(self).specs_map@),
                                old(self).ignore_specs,
                                func_name@,
                                entry,
                            ),
                        ),
                        ..old(self).model@
                    })
                    &&& r is Ok ==> final(self).generated@.contains(entry)
                    &&& r is Ok && !old(self).generated@.contains(entry) && !old(
                        self,
                    ).ignored_funcs@.contains(func_name@) ==> has_func(
                        final(self).model@.func_models,
                        func_name@,
                    ) && callee_set(final(self).mod_set_map@, func_name@) is Some && exists|i: int|
                        0 <= i < old(self).cfgs@.len() && (#[trigger] old(self).cfgs@[i]).entry_addr
                            == entry && has_block_models(
                            final(self).model@.func_models,
                            old(self).cfgs@[i]@,
                        ) && generated_function(*old(self), *final(self), func_name@, entry, i)
                            && callees_generated(*old(self), *final(self), func_name@, i)
                    &&& !old(self).generated@.contains(entry) && !old(
                        self,
                    ).ignored_funcs@.contains(func_name@) && (forall|j: int|
                        0 <= j < old(self).cfgs@.len() ==> (#[trigger] old(
                            self,
                        ).cfgs@[j]).entry_addr != entry) ==> r is Err && r->Err_0@
                        == ErrorView::MissingBlock(entry)
                },
            },
        decreases old(self).pending(),
    {
        let ghost labels = label_views(self.labels_to_addr@);
        let ghost prog = self.program();
        let func_entry = match self.func_entry_addr(func_name) {
            Some(a) => a,
            None => {
                proof {
                    lemma_fails_here(prog, func_name@, ErrorView::MissingLabel(func_name@));
                }
                return Err(Error::MissingLabel(String::from_str(func_name)));
            },
        };
        // Skip the functions that have already been generated
        if contains_addr(&self.generated, func_entry) {
            return Ok(());
        }
        proof {
            lemma_label_addr_in_set(labels, func_name@);
            lemma_pending_decreases(labels, self.generated@, func_entry);
        }
        // Mark the function as generated
        self.generated.push(func_entry);
        assert(self.generated@[self.generated@.len() - 1] == func_entry);
        // If the function is ignored, only generate a stub
        if self.ignored_funcs.contains(func_name) {
            let r = self.gen_func_model_stub(func_name);
            proof {
                lemma_with_func_extends(
                    old(self).model@.func_models,
                    stub_model(
                        old(self).xlen,
                        old(self).dwarf_ctx@,
                        func_spec_views(old(self).specs_map@),
                        old(self).ignore_specs,
                        func_name@,
                        func_entry,
                    ),
                );
                lemma_pending_monotone(labels, old(self).generated@, self.generated@);
                let stub = stub_model(
                    old(self).xlen,
                    old(self).dwarf_ctx@,
                    func_spec_views(old(self).specs_map@),
                    old(self).ignore_specs,
                    func_name@,
                    func_entry,
                );
                assert(self.generated@.contains(func_entry));
                assert(marked_since(*old(self), *self, func_name@));
                if labels_distinct(labels) {
                    assert forall|n: Seq<char>| #[trigger]
                        marked_since(*old(self), *self, n) implies callee_done(
                        *old(self),
                        *self,
                        n,
                    ) by {
                        lemma_pushed_contains(
                            old(self).generated@,
                            func_entry,
                            label_addr(labels, n)->0,
                        );
                        assert(label_addr(labels, n) == label_addr(labels, func_name@));
                        assert(n == func_name@);
                        if !has_func(old(self).model@.func_models, n) {
                            lemma_added_is_first(old(self).model@.func_models, stub);
                        }
                    }
                    if old(self).is_settled() {
                        lemma_settled(*old(self), *self);
                    }
                }
            }
            return r;
        }
        let ghost marked = self.generated@;
        assert(marked.contains(func_entry));
        proof {
            lemma_pending_monotone(labels, old(self).generated@, marked);
        }
        let ghost complete = old(self).is_complete();
        let ghost bv = block_views(self.bbs@);
        let ghost ig = self.ignored_funcs@;
        let ghost sv = func_spec_views(self.specs_map@);
        let cfg_idx = match self.get_func_cfg(func_entry) {
            Ok(i) => i,
            Err(e) => {
                proof {
                    assert forall|j: int| 0 <= j < prog.cfgs.len() implies (
                    #[trigger] prog.cfgs[j]).entry_addr != func_entry by {
                        assert(self.cfgs@[j].entry_addr != func_entry);
                    }
                    lemma_fails_here(prog, func_name@, e@);
                }
                return Err(e);
            },
        };
        let ghost cfg_view = self.cfgs@[cfg_idx as int]@;
        assert(old(self).cfgs@[cfg_idx as int].entry_addr == func_entry);
        proof {
            assert forall|j: int| 0 <= j < cfg_idx implies (#[trigger] prog.cfgs[j]).entry_addr
                != func_entry by {
                assert(self.cfgs@[j].entry_addr != func_entry);
            }
            assert(prog.cfgs[cfg_idx as int] == cfg_view);
            assert(is_graph_of(prog, cfg_idx as int, func_entry));
        }
        assert(complete ==> function_ok(
            self.xlen,
            self.dwarf_ctx@,
            bv,
            ig,
            labels,
            self.cfgs@[cfg_idx as int]@,
            func_name@,
            func_entry,
        ));
        // The registers that the function names
        let regs = infer_vars(&self.cfgs[cfg_idx], self.xlen);
        proof {
            lemma_with_vars(self.model@.vars, var_views(regs@));
        }
        self.model.add_vars(&regs);
        let ghost reg_vars = self.model@.vars;
        // The procedure of each basic block
        let mut bb_fms: Vec<FuncModel> = Vec::new();
        let mut mod_set = NameSet::new();
        let mut i: usize = 0;
        while i < self.cfgs[cfg_idx].nodes.len()
            invariant
                i <= self.cfgs@[cfg_idx as int].nodes.len(),
                cfg_idx < self.cfgs@.len(),
                cfg_view == self.cfgs@[cfg_idx as int]@,
                self.same_inputs(old(self)),
                self.generated@ == marked,
                self.mod_set_map == old(self).mod_set_map,
                self.model@.func_models == old(self).model@.func_models,
                bb_fms@.len() == i,
                sorted(mod_set@),
                forall|j: int|
                    0 <= j < i ==> (#[trigger] bb_fms@[j])@ == bb_model(
                        old(self).mod_set_map@,
                        cfg_view.nodes[j],
                    ),
                with_block_sets(
                    block_models(old(self).mod_set_map@, cfg_view),
                    0,
                    Seq::empty(),
                ) == with_block_sets(
                    block_models(old(self).mod_set_map@, cfg_view),
                    i as nat,
                    mod_set@,
                ),
                holds_vars(self.model@.vars, reg_vars),
                vars_sorted(old(self).model@.vars) ==> vars_sorted(self.model@.vars),
                forall|j: int|
                    0 <= j < i ==> holds_vars(
                        self.model@.vars,
                        bb_vars(#[trigger] cfg_view.nodes[j]),
                    ),
            decreases self.cfgs@[cfg_idx as int].nodes.len() - i,
        {
            assert(cfg_view.nodes[i as int] == self.cfgs@[cfg_idx as int].nodes@[i as int]@);
            let (fm, abs_vars) = gen_bb_model(&self.mod_set_map, &self.cfgs[cfg_idx].nodes[i]);
            proof {
                lemma_with_vars(self.model@.vars, var_views(abs_vars@));
            }
            self.model.add_vars(&abs_vars);
            mod_set.extend(&fm.sig.mod_set);
            assert(block_models(old(self).mod_set_map@, cfg_view)[i as int] == fm@);
            bb_fms.push(fm);
            i += 1;
        }
        let ghost block_sets = mod_set@;
        let ghost map0 = old(self).mod_set_map@;
        let ghost vars_mid = self.model@.vars;
        assert(func_model_views(bb_fms@) =~= block_models(map0, cfg_view));
        assert(block_sets == with_block_sets(block_models(map0, cfg_view), 0, Seq::empty()));
        assert(holds_vars(vars_mid, old(self).model@.vars));
        assert(holds_vars(vars_mid, cfg_regs(cfg_view, self.xlen)));
        // Record what each block may write
        let mut k: usize = 0;
        while k < bb_fms.len()
            invariant
                k <= bb_fms.len(),
                self.same_inputs(old(self)),
                self.generated@ == marked,
                self.model@.func_models == old(self).model@.func_models,
                self.model@.vars == vars_mid,
                old(self).mod_set_map@.is_prefix_of(self.mod_set_map@),
            decreases bb_fms.len() - k,
        {
            self.mod_set_map.insert(bb_fms[k].sig.name.clone(), bb_fms[k].sig.mod_set.clone());
            k += 1;
        }
        let ghost bb_views = func_model_views(bb_fms@);
        self.model.add_func_models(bb_fms);
        let ghost mid = self.model@.func_models;
        proof {
            lemma_with_funcs_extends(old(self).model@.func_models, bb_views);
            assert forall|j: int| 0 <= j < cfg_view.nodes.len() implies has_func(
                mid,
                bb_name((#[trigger] cfg_view.nodes[j]).entry_addr),
            ) by {
                assert(bb_views[j].sig.name == bb_name(cfg_view.nodes[j].entry_addr));
            }
            assert(mid == with_funcs(old(self).model@.func_models, block_models(map0, cfg_view)));
            lemma_blocks_accounted(*old(self), *self, cfg_view, func_entry);
        }
        // The functions that this one calls
        let callees = match get_callee_addrs(func_name, &self.cfgs[cfg_idx]) {
            Ok(c) => c,
            Err(e) => {
                proof {
                    lemma_callees_error(cfg_view.nodes, func_name@, 0, Seq::empty());
                    lemma_fails_in_graph(prog, cfg_idx as int, func_name@, func_entry, e@);
                }
                return Err(e);
            },
        };
        assert(callees@ == callees_of(cfg_view, func_name@));
        let mut c: usize = 0;
        while c < callees.len()
            invariant
                c <= callees.len(),
                self.same_inputs(old(self)),
                complete == old(self).is_complete(),
                complete ==> callees_known(
                    block_views(old(self).bbs@),
                    labels,
                    callees@,
                ),
                cfg_idx < old(self).cfgs@.len(),
                old(self).cfgs@[cfg_idx as int].entry_addr == func_entry,
                prog == old(self).program(),
                is_graph_of(prog, cfg_idx as int, func_entry),
                callees@ == callees_of(prog.cfgs[cfg_idx as int], func_name@),
                marked.contains(func_entry),
                old(self).mod_set_map@.is_prefix_of(self.mod_set_map@),
                all_accounted(*old(self), *self),
                labels_distinct(labels) ==> forall|n: Seq<char>| #[trigger]
                    marked_since(*old(self), *self, n) && label_addr(labels, n)->0 != func_entry
                        ==> callee_done(*old(self), *self, n),
                forall|j: int|
                    0 <= j < c ==> callee_marked(
                        block_views(old(self).bbs@),
                        labels,
                        self.generated@,
                        (#[trigger] callees@[j]).0,
                    ),
                holds_vars(self.model@.vars, vars_mid),
                holds_vars(self.model@.vars, old(self).model@.vars),
                vars_sorted(old(self).model@.vars) ==> vars_sorted(self.model@.vars),
                labels == label_views(old(self).labels_to_addr@),
                label_addr(labels, func_name@) == Some(func_entry),
                !old(self).generated@.contains(func_entry),
                !old(self).ignored_funcs@.contains(func_name@),
                marked.is_prefix_of(self.generated@),
                old(self).generated@.is_prefix_of(marked),
                pending_count(labels, marked) < old(self).pending(),
                mid.is_prefix_of(self.model@.func_models),
                old(self).model@.func_models.is_prefix_of(mid),
            decreases callees.len() - c,
        {
            let target = callees[c].0;
            proof {
                lemma_pending_monotone(labels, marked, self.generated@);
            }
            match get_func_at(&self.bbs, target) {
                Ok(Some(name)) => {
                    assert(complete ==> self.is_complete() && label_addr(labels, name@) is Some);
                    let ghost s = *self;
                    let res = self.gen_func_model(name.as_str());
                    proof {
                        lemma_contains_extends(marked, s.generated@, func_entry);
                        lemma_step_accounted(*old(self), s, *self);
                        if res is Ok && labels_distinct(labels) {
                            lemma_step_done(*old(self), s, *self, func_entry);
                        }
                        assert forall|j: int| 0 <= j < c implies callee_marked(
                            block_views(old(self).bbs@),
                            labels,
                            self.generated@,
                            (#[trigger] callees@[j]).0,
                        ) by {
                            match func_at(block_views(old(self).bbs@), callees@[j].0) {
                                Ok(Some(n)) => {
                                    lemma_contains_extends(
                                        s.generated@,
                                        self.generated@,
                                        label_addr(labels, n)->0,
                                    );
                                },
                                _ => {},
                            }
                        }
                    }
                    match res {
                        Ok(()) => {},
                        Err(e) => {
                            proof {
                                lemma_pending_monotone(labels, old(self).generated@, self.generated@);
                                assert(s.program() == prog);
                                lemma_callee_failed(
                                    prog,
                                    cfg_idx as int,
                                    func_name@,
                                    func_entry,
                                    c as int,
                                    name@,
                                    e@,
                                );
                            }
                            return Err(e);
                        },
                    }
                },
                Ok(None) => {},
                Err(e) => {
                    proof {
                        lemma_pending_monotone(labels, old(self).generated@, self.generated@);
                        lemma_fails_in_graph(prog, cfg_idx as int, func_name@, func_entry, e@);
                    }
                    return Err(e);
                },
            }
            c += 1;
        }
        proof {
            lemma_pending_monotone(labels, old(self).generated@, self.generated@);
        }
        // What the callees may write
        let ghost map_then = self.mod_set_map@;
        let ghost at_callees = *self;
        let mut d: usize = 0;
        while d < callees.len()
            invariant
                d <= callees.len(),
                self.same_inputs(old(self)),
                bv == block_views(old(self).bbs@),
                ig == old(self).ignored_funcs@,
                sv == func_spec_views(old(self).specs_map@),
                self.mod_set_map@ == map_then,
                complete == old(self).is_complete(),
                complete ==> callees_known(bv, labels, callees@),
                cfg_idx < old(self).cfgs@.len(),
                old(self).cfgs@[cfg_idx as int].entry_addr == func_entry,
                old(self).mod_set_map@.is_prefix_of(self.mod_set_map@),
                all_accounted(*old(self), *self),
                *self == at_callees,
                prog == old(self).program(),
                is_graph_of(prog, cfg_idx as int, func_entry),
                callees@ == callees_of(prog.cfgs[cfg_idx as int], func_name@),
                holds_vars(self.model@.vars, vars_mid),
                holds_vars(self.model@.vars, old(self).model@.vars),
                vars_sorted(old(self).model@.vars) ==> vars_sorted(self.model@.vars),
                with_callee_sets(bv, ig, sv, map_then, callees@, 0, block_sets) == with_callee_sets(
                    bv,
                    ig,
                    sv,
                    map_then,
                    callees@,
                    d as nat,
                    mod_set@,
                ),
                labels == label_views(old(self).labels_to_addr@),
                label_addr(labels, func_name@) == Some(func_entry),
                !old(self).generated@.contains(func_entry),
                !old(self).ignored_funcs@.contains(func_name@),
                marked.is_prefix_of(self.generated@),
                old(self).generated@.is_prefix_of(self.generated@),
                pending_count(labels, self.generated@) <= pending_count(
                    labels,
                    old(self).generated@,
                ),
                mid.is_prefix_of(self.model@.func_models),
                old(self).model@.func_models.is_prefix_of(self.model@.func_models),
            decreases callees.len() - d,
        {
            let target = callees[d].0;
            assert(complete ==> func_at(bv, callees@[d as int].0) is Ok);
            match get_func_at(&self.bbs, target) {
                Ok(Some(name)) => {
                    if self.ignored_funcs.contains(name.as_str()) {
                        match mod_set_from_spec_map(&self.specs_map, name.as_str()) {
                            Some(ms) => {
                                mod_set.extend(&ms);
                            },
                            None => {},
                        }
                    } else {
                        match self.mod_set_map.get(name.as_str()) {
                            Some(callee_ms) => {
                                mod_set.extend(callee_ms);
                            },
                            None => {},
                        }
                    }
                },
                Ok(None) => {},
                Err(e) => {
                    proof {
                        lemma_fails_in_graph(prog, cfg_idx as int, func_name@, func_entry, e@);
                    }
                    return Err(e);
                },
            }
            d += 1;
        }
        // Create the procedure of the function
        let arg_exprs = func_reg_args(&self.dwarf_ctx, func_name, self.xlen);
        let preconds = if !self.ignore_specs {
            requires_from_spec_map(&self.specs_map, func_name)
        } else {
            None
        };
        let postconds = if !self.ignore_specs {
            ensures_from_spec_map(&self.specs_map, func_name)
        } else {
            None
        };
        let tracks = if !self.ignore_specs {
            tracked_from_spec_map(&self.specs_map, func_name)
        } else {
            None
        };
        let body = match cfg_to_symbolic_blk(
            self.xlen,
            &self.dwarf_ctx,
            &self.bbs,
            &self.ignored_funcs,
            func_entry,
            &self.cfgs[cfg_idx],
        ) {
            Ok(b) => b,
            Err(e) => {
                proof {
                    lemma_body_result_error(
                        self.xlen,
                        self.dwarf_ctx@,
                        bv,
                        ig,
                        cfg_view,
                        func_entry,
                        e@,
                    );
                    lemma_fails_in_graph(prog, cfg_idx as int, func_name@, func_entry, e@);
                }
                return Err(e);
            },
        };
        self.mod_set_map.insert(String::from_str(func_name), mod_set.clone());
        let fm = FuncModel::new(
            func_name,
            func_entry,
            arg_exprs,
            None,
            preconds,
            postconds,
            tracks,
            Some(mod_set),
            body,
            self.ignore_specs,
        );
        let ghost before = self.model@.func_models;
        self.model.add_func_model(fm);
        proof {
            lemma_with_func_extends(before, fm@);
            let after = self.model@.func_models;
            assert(marked[marked.len() - 1] == func_entry);
            assert(self.generated@[marked.len() - 1] == func_entry);
            assert forall|j: int| 0 <= j < cfg_view.nodes.len() implies has_func(
                after,
                bb_name((#[trigger] cfg_view.nodes[j]).entry_addr),
            ) by {
                lemma_has_func_extends(mid, after, bb_name(cfg_view.nodes[j].entry_addr));
            }
            assert(old(self).cfgs@[cfg_idx as int].entry_addr == func_entry);
            assert(has_block_models(after, old(self).cfgs@[cfg_idx as int]@));
            assert(self.mod_set_map@.drop_last() =~= map_then);
            assert(is_func_model_of(
                old(self).xlen,
                old(self).dwarf_ctx@,
                block_views(old(self).bbs@),
                old(self).ignored_funcs@,
                func_spec_views(old(self).specs_map@),
                old(self).ignore_specs,
                map0,
                map_then,
                cfg_view,
                func_name@,
                func_entry,
                fm@,
            ));
            assert(after == with_func(before, fm@));
            assert(with_funcs(old(self).model@.func_models, block_models(map0, cfg_view)).is_prefix_of(
                before,
            ));
            assert(generated_function(*old(self), *self, func_name@, func_entry, cfg_idx as int));
            lemma_contains_extends(marked, at_callees.generated@, func_entry);
            lemma_function_added(*old(self), at_callees, *self, func_name@, func_entry, fm@);
            lemma_callees_generated(*old(self), *self, func_name@, cfg_idx as int);
            if labels_distinct(labels) && old(self).is_settled() {
                lemma_settled(*old(self), *self);
            }
        }
        Ok(())
    }
}

/// Whether `after` is what generating the function `name`, which starts
/// at `entry` and has the graph at index `i`, makes of `before`.
///
/// The procedures are those of `before`, then the procedures of the
/// blocks of the function, then what the callees of the function brought,
/// and at the end the procedure of the function itself, unless a
/// procedure of its name was there already. What the function may write
/// is recorded last. The variables hold the registers that the function
/// names and the variables that stand for its memory accesses.
pub open spec fn generated_function(
    before: Translator,
    after: Translator,
    name: Seq<char>,
    entry: u64,
    i: int,
) -> bool {
    exists|mid: Seq<FuncModelView>, fm: FuncModelView|
        {
            &&& after.model@.func_models == with_func(mid, fm)
            &&& with_funcs(
                before.model@.func_models,
                block_models(before.mod_set_map@, before.cfgs@[i]@),
            ).is_prefix_of(mid)
            &&& after.mod_set_map@.len() > 0
            &&& after.mod_set_map@.last() == (name, fm.sig.mod_set)
            &&& is_func_model_of(
                before.xlen,
                before.dwarf_ctx@,
                block_views(before.bbs@),
                before.ignored_funcs@,
                func_spec_views(before.specs_map@),
                before.ignore_specs,
                before.mod_set_map@,
                after.mod_set_map@.drop_last(),
                before.cfgs@[i]@,
                name,
                entry,
                fm,
            )
            &&& holds_vars(after.model@.vars, cfg_regs(before.cfgs@[i]@, before.xlen))
            &&& forall|j: int|
                0 <= j < before.cfgs@[i]@.nodes.len() ==> holds_vars(
                    after.model@.vars,
                    bb_vars(#[trigger] before.cfgs@[i]@.nodes[j]),
                )
        }
}

} // verus!
