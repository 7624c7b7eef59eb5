//! Lowering of contracts: type inference with the dereferences that it
//! implies, replacement of global variables by their addresses, and
//! constant folding.

use crate::dwarf::{find_var, DwarfCtx, DwarfCtxView, DwarfTypeDefn, DwarfTypeView};
use crate::helpers::{abs_access_name, mask, mask_bits, Error, ErrorView};
use crate::sl_ast::{
    bexpr_operands, bexpr_views, func_app_type, op_type, spec_views, vexpr_operands, vexpr_views,
    vfield_views, visit_bexpr, visit_vexpr, visited_bexpr, visited_bexprs, visited_operands,
    visited_vexpr, visited_vexprs, ASTRewriter, BExpr, BExprView, BoolOp, BoolOpView, FuncSpec,
    FuncSpecView, NoContext, Spec, SpecView, VExpr, VExprView, VField, VFieldView, VType, VTypeView,
    ValueOp,
};
use crate::text::{dec_digits, str_eq};
use vstd::prelude::*;

verus! {

// ====================================================================
// Types from debugging information

/// The specification type of a value of the DWARF type `d`: a bit-vector
/// for a primitive or a pointer, as wide as its size says; arrays and
/// structs part by part.
pub open spec fn dwarf_vtype(d: DwarfTypeView) -> VTypeView
    decreases d,
{
    match d {
        DwarfTypeView::Primitive { bytes } => VTypeView::Bv(
            (bytes.wrapping_mul(8) % 0x10000) as u16,
        ),
        DwarfTypeView::Pointer { value_typ, bytes } => VTypeView::Bv(
            (bytes.wrapping_mul(8) % 0x10000) as u16,
        ),
        DwarfTypeView::Array { in_typ, out_typ, bytes } => VTypeView::Array {
            in_type: Box::new(dwarf_vtype(*in_typ)),
            out_type: Box::new(dwarf_vtype(*out_typ)),
        },
        DwarfTypeView::Struct { id, fields, bytes } => VTypeView::Struct {
            id,
            fields: Seq::new(
                fields.len(),
                |i: int|
                    if 0 <= i < fields.len() {
                        VFieldView { name: fields[i].name, typ: dwarf_vtype(fields[i].typ) }
                    } else {
                        arbitrary()
                    },
            ),
            size: bytes.wrapping_mul(8),
        },
    }
}

/// The specification type of a value of a DWARF type.
pub fn from_dwarf_type(dtd: &DwarfTypeDefn) -> (r: VType)
    ensures
        r@ == dwarf_vtype(dtd@),
    decreases dtd,
{
    match dtd {
        DwarfTypeDefn::Primitive { bytes } => VType::Bv((bytes.wrapping_mul(8) % 0x10000) as u16),
        DwarfTypeDefn::Pointer { value_typ: _, bytes } => VType::Bv(
            (bytes.wrapping_mul(8) % 0x10000) as u16,
        ),
        DwarfTypeDefn::Array { in_typ, out_typ, bytes: _ } => {
            let i = from_dwarf_type(in_typ);
            let o = from_dwarf_type(out_typ);
            VType::Array { in_type: Box::new(i), out_type: Box::new(o) }
        },
        DwarfTypeDefn::Struct { id, fields, bytes } => {
            proof {
                DwarfTypeDefn::lemma_view_struct(*id, *fields, *bytes);
            }
            let mut v: Vec<VField> = Vec::new();
            let mut i: usize = 0;
            while i < fields.len()
                invariant
                    i <= fields.len(),
                    v@.len() == i,
                    forall|j: int|
                        0 <= j < i ==> v@[j]@ == (VFieldView {
                            name: fields@[j].name@,
                            typ: dwarf_vtype(fields@[j].typ@),
                        }),
                    decreases_to!(dtd => fields),
                decreases fields.len() - i,
            {
                let t = from_dwarf_type(&fields[i].typ);
                v.push(VField { name: fields[i].name.clone(), typ: t });
                i += 1;
            }
            let r = VType::Struct { id: id.clone(), fields: v, size: bytes.wrapping_mul(8) };
            assert(r@->Struct_fields =~= dwarf_vtype(dtd@)->Struct_fields);
            r
        },
    }
}

// ====================================================================
// Type inference

/// Whether `name` names a part of the machine state: the program counter,
/// the returned flag, the privilege level, one of the four memories, or one
/// of the registers `a0`, `sp` and `ra`.
pub open spec fn is_system_ident(name: Seq<char>) -> bool {
    name == "pc"@ || name == "returned"@ || name == "current_priv"@ || name == "mem_b"@ || name
        == "mem_h"@ || name == "mem_w"@ || name == "mem_d"@ || name == "a0"@ || name == "sp"@
        || name == "ra"@
}

/// Whether `name` names a part of the machine state.
pub fn system_ident(name: &str) -> (r: bool)
    ensures
        r == is_system_ident(name@),
{
    str_eq(name, "pc") || str_eq(name, "returned") || str_eq(name, "current_priv") || str_eq(
        name,
        "mem_b",
    ) || str_eq(name, "mem_h") || str_eq(name, "mem_w") || str_eq(name, "mem_d") || str_eq(
        name,
        "a0",
    ) || str_eq(name, "sp") || str_eq(name, "ra")
}

/// The type that `scope` records for the bound variable `name`; of
/// several bindings of a name the latest counts.
pub open spec fn scope_type(scope: Seq<VFieldView>, name: Seq<char>) -> Option<VTypeView>
    decreases scope.len(),
{
    if scope.len() == 0 {
        None
    } else if scope.last().name == name {
        Some(scope.last().typ)
    } else {
        scope_type(scope.drop_last(), name)
    }
}

/// The width of a register, cut to 16 bits.
pub open spec fn xlen16(dwarf: DwarfCtxView) -> u16 {
    (dwarf.xlen % 0x10000) as u16
}

/// The type of `name` where it is known without looking at the global
/// variables. The first of these that knows the name gives the type: a
/// part of the machine state is as wide as a register; a formal argument
/// of the function `fname` has the type that the debugging information
/// gives it; a bound variable has the type that it was bound with.
pub open spec fn local_type(
    dwarf: DwarfCtxView,
    fname: Seq<char>,
    scope: Seq<VFieldView>,
    name: Seq<char>,
) -> Option<VTypeView> {
    if is_system_ident(name) {
        Some(VTypeView::Bv(xlen16(dwarf)))
    } else if dwarf.formal(fname, name) is Some {
        Some(dwarf_vtype(dwarf.formal(fname, name)->0.typ_defn))
    } else {
        scope_type(scope, name)
    }
}

/// Whether `name` is known without looking at the global variables: as a
/// part of the machine state, as a formal argument of the function `fname`,
/// or as a bound variable.
pub open spec fn is_local(
    dwarf: DwarfCtxView,
    fname: Seq<char>,
    scope: Seq<VFieldView>,
    name: Seq<char>,
) -> bool {
    local_type(dwarf, fname, scope, name) is Some
}

/// The identifier `name` after type inference. A name known locally gets
/// the type of what knows it. A global variable gets its own type, and is
/// dereferenced where that type is a bit-vector. A name that is not known
/// at all stays as it is where it names a struct field (`field_pos`), and
/// is an error elsewhere.
pub open spec fn typed_ident(
    dwarf: DwarfCtxView,
    fname: Seq<char>,
    scope: Seq<VFieldView>,
    name: Seq<char>,
    typ: VTypeView,
    field_pos: bool,
) -> Result<VExprView, ErrorView> {
    match local_type(dwarf, fname, scope, name) {
        Some(t) => Ok(VExprView::Ident(name, t)),
        None => match dwarf.global(name) {
            Some(g) => {
                let t = dwarf_vtype(g.typ_defn);
                if t is Bv {
                    Ok(VExprView::OpApp(ValueOp::Deref, seq![VExprView::Ident(name, t)], t))
                } else {
                    Ok(VExprView::Ident(name, t))
                }
            },
            None => if field_pos {
                Ok(VExprView::Ident(name, typ))
            } else {
                Err(ErrorView::MissingVar(name))
            },
        },
    }
}

/// The type that `scope` records for the bound variable `name`.
pub fn find_scoped<'a>(scope: &'a Vec<VField>, name: &str) -> (r: Option<&'a VType>)
    ensures
        match scope_type(vfield_views(scope@), name@) {
            Some(t) => r is Some && r->0@ == t,
            None => r is None,
        },
{
    let ghost all = vfield_views(scope@);
    let mut i: usize = scope.len();
    assert(all.take(i as int) =~= all);
    while i > 0
        invariant
            i <= scope.len(),
            all == vfield_views(scope@),
            scope_type(all, name@) == scope_type(all.take(i as int), name@),
        decreases i,
    {
        i -= 1;
        proof {
            assert(all.take(i + 1).drop_last() =~= all.take(i as int));
            assert(all.take(i + 1).last() == scope@[i as int]@);
        }
        if str_eq(scope[i].name.as_str(), name) {
            return Some(&scope[i].typ);
        }
    }
    None
}

/// The application of `op` to operands `a` that have their types: the
/// result type comes from the operator's table, a field access names its
/// field with the field's type, and an access to a field or an array
/// element of bit-vector type is dereferenced.
pub open spec fn typed_opapp(op: ValueOp, a: Seq<VExprView>) -> Result<VExprView, ErrorView> {
    match op_type(op, a) {
        None => Err(ErrorView::TypeMismatch),
        Some(t) => match op {
            ValueOp::GetField => {
                let sel = VExprView::OpApp(
                    ValueOp::GetField,
                    seq![a[0], VExprView::Ident(a[1]->Ident_0, t)],
                    t,
                );
                if t is Bv {
                    Ok(VExprView::OpApp(ValueOp::Deref, seq![sel], t))
                } else {
                    Ok(sel)
                }
            },
            ValueOp::ArrayIndex => {
                let node = VExprView::OpApp(ValueOp::ArrayIndex, a, t);
                if t is Bv {
                    Ok(VExprView::OpApp(ValueOp::Deref, seq![node], t))
                } else {
                    Ok(node)
                }
            },
            _ => Ok(VExprView::OpApp(op, a, t)),
        },
    }
}

/// The operands of an application; none for other expressions.
pub open spec fn vargs(e: VExprView) -> Seq<VExprView> {
    match e {
        VExprView::OpApp(_, args, _) => args,
        VExprView::FuncApp(_, args, _) => args,
        _ => Seq::empty(),
    }
}

/// Whether the operand at index `i` of `e` names a struct field.
pub open spec fn is_field_pos(e: VExprView, i: int) -> bool {
    e matches VExprView::OpApp(ValueOp::GetField, _, _) && i >= 1
}

/// `done` followed by what `rest` holds, or the error of `rest`.
pub open spec fn after<T>(done: Seq<T>, rest: Result<Seq<T>, ErrorView>) -> Result<
    Seq<T>,
    ErrorView,
> {
    match rest {
        Ok(r) => Ok(done + r),
        Err(e) => Err(e),
    }
}

/// The expression `e` after type inference in the function `fname`, with
/// the bound variables of `scope`.
pub open spec fn typed_vexpr(
    dwarf: DwarfCtxView,
    fname: Seq<char>,
    scope: Seq<VFieldView>,
    e: VExprView,
    field_pos: bool,
) -> Result<VExprView, ErrorView>
    decreases e, vargs(e).len() + 1,
{
    match e {
        VExprView::Ident(name, typ) => typed_ident(dwarf, fname, scope, name, typ, field_pos),
        VExprView::OpApp(op, args, typ) => match typed_vargs(dwarf, fname, scope, e, 0) {
            Ok(a) => typed_opapp(op, a),
            Err(err) => Err(err),
        },
        VExprView::FuncApp(name, args, typ) => match typed_vargs(dwarf, fname, scope, e, 0) {
            Ok(a) => match func_app_type(name, a) {
                Some(t) => Ok(VExprView::FuncApp(name, a, t)),
                None => Err(ErrorView::TypeMismatch),
            },
            Err(err) => Err(err),
        },
        _ => Ok(e),
    }
}

/// The operands of `e` from index `i` on after type inference, or the
/// error of the first of them that has one.
pub open spec fn typed_vargs(
    dwarf: DwarfCtxView,
    fname: Seq<char>,
    scope: Seq<VFieldView>,
    e: VExprView,
    i: nat,
) -> Result<Seq<VExprView>, ErrorView>
    decreases e, vargs(e).len() - i,
{
    if i >= vargs(e).len() {
        Ok(Seq::empty())
    } else {
        match typed_vexpr(dwarf, fname, scope, vargs(e)[i as int], is_field_pos(e, i as int)) {
            Ok(x) => after(seq![x], typed_vargs(dwarf, fname, scope, e, i + 1)),
            Err(err) => Err(err),
        }
    }
}

/// The expressions of `v` from index `i` on after type inference, or the
/// error of the first of them that has one.
pub open spec fn typed_vexprs(
    dwarf: DwarfCtxView,
    fname: Seq<char>,
    scope: Seq<VFieldView>,
    v: Seq<VExprView>,
    i: nat,
) -> Result<Seq<VExprView>, ErrorView>
    decreases v.len() - i,
{
    if i >= v.len() {
        Ok(Seq::empty())
    } else {
        match typed_vexpr(dwarf, fname, scope, v[i as int], false) {
            Ok(x) => after(seq![x], typed_vexprs(dwarf, fname, scope, v, i + 1)),
            Err(err) => Err(err),
        }
    }
}

/// The scope after the connective `op` is entered: a quantifier records
/// its bound variable with the type given for it.
pub open spec fn entered(scope: Seq<VFieldView>, op: BoolOpView) -> Result<
    Seq<VFieldView>,
    ErrorView,
> {
    match op {
        BoolOpView::Forall(v, t) => match v {
            VExprView::Ident(name, _) => Ok(scope.push(VFieldView { name, typ: t })),
            _ => Err(ErrorView::TypeMismatch),
        },
        BoolOpView::Exists(v, t) => match v {
            VExprView::Ident(name, _) => Ok(scope.push(VFieldView { name, typ: t })),
            _ => Err(ErrorView::TypeMismatch),
        },
        _ => Ok(scope),
    }
}

/// The operands of a connective's application; none for other expressions.
pub open spec fn bargs(b: BExprView) -> Seq<BExprView> {
    match b {
        BExprView::BOpApp(_, args) => args,
        _ => Seq::empty(),
    }
}

/// `done` followed by what `rest` holds, with the scope of `rest`, or the
/// error of `rest`.
pub open spec fn after_scoped(
    done: Seq<BExprView>,
    rest: Result<(Seq<BExprView>, Seq<VFieldView>), ErrorView>,
) -> Result<(Seq<BExprView>, Seq<VFieldView>), ErrorView> {
    match rest {
        Ok(r) => Ok((done + r.0, r.1)),
        Err(e) => Err(e),
    }
}

/// The condition `b` after type inference, and the scope that it leaves: a
/// bound variable stays in scope once its quantifier has been entered.
pub open spec fn typed_bexpr(
    dwarf: DwarfCtxView,
    fname: Seq<char>,
    scope: Seq<VFieldView>,
    b: BExprView,
) -> Result<(BExprView, Seq<VFieldView>), ErrorView>
    decreases b, bargs(b).len() + 1,
{
    match b {
        BExprView::Bool(_) => Ok((b, scope)),
        BExprView::BOpApp(op, args) => match entered(scope, op) {
            Ok(inner) => match typed_bargs(dwarf, fname, inner, b, 0) {
                Ok(r) => Ok((BExprView::BOpApp(op, r.0), r.1)),
                Err(err) => Err(err),
            },
            Err(err) => Err(err),
        },
        BExprView::COpApp(op, args) => match typed_vexprs(dwarf, fname, scope, args, 0) {
            Ok(a) => Ok((BExprView::COpApp(op, a), scope)),
            Err(err) => Err(err),
        },
    }
}

/// The operands of `b` from index `i` on after type inference, each in the
/// scope that the one before it leaves.
pub open spec fn typed_bargs(
    dwarf: DwarfCtxView,
    fname: Seq<char>,
    scope: Seq<VFieldView>,
    b: BExprView,
    i: nat,
) -> Result<(Seq<BExprView>, Seq<VFieldView>), ErrorView>
    decreases b, bargs(b).len() - i,
{
    if i >= bargs(b).len() {
        Ok((Seq::empty(), scope))
    } else {
        match typed_bexpr(dwarf, fname, scope, bargs(b)[i as int]) {
            Ok(x) => after_scoped(seq![x.0], typed_bargs(dwarf, fname, x.1, b, i + 1)),
            Err(err) => Err(err),
        }
    }
}

/// Whether a result holds the value `v`, or the error `e` where `v` is an
/// error.
pub open spec fn vexpr_result_is(r: Result<VExpr, Error>, v: Result<VExprView, ErrorView>) -> bool {
    match v {
        Ok(x) => r is Ok && r->Ok_0@ == x,
        Err(e) => r is Err && r->Err_0@ == e,
    }
}

/// The pass that gives the value expressions of a contract their types, and
/// inserts the dereferences that the types imply. It is no instance of the
/// general traversal: what it makes of an identifier depends on where the
/// identifier stands, and it can fail.
pub struct VExprTypeInference;

impl VExprTypeInference {

/// Gives the identifier `name` its type.
pub fn rewrite_vexpr_ident(
    dwarf_ctx: &DwarfCtx,
    fname: &str,
    scope: &Vec<VField>,
    name: &String,
    typ: &VType,
    field_pos: bool,
) -> (r: Result<VExpr, Error>)
    ensures
        vexpr_result_is(
            r,
            typed_ident(dwarf_ctx@, fname@, vfield_views(scope@), name@, typ@, field_pos),
        ),
{
    let var_id = name.as_str();
    if system_ident(var_id) {
        return Ok(VExpr::Ident(name.clone(), VType::Bv((dwarf_ctx.xlen % 0x10000) as u16)));
    }
    match dwarf_ctx.func_sig(fname) {
        Ok(sig) => {
            match find_var(&sig.args, var_id) {
                Some(formal) => {
                    return Ok(VExpr::Ident(name.clone(), from_dwarf_type(&formal.typ_defn)));
                },
                None => {},
            }
        },
        Err(_) => {},
    }
    match find_scoped(scope, var_id) {
        Some(t) => {
            return Ok(VExpr::Ident(name.clone(), t.clone()));
        },
        None => {},
    }
    match dwarf_ctx.global_var_type(var_id) {
        Ok(dt) => {
            let t = from_dwarf_type(dt);
            match &t {
                VType::Bv(_) => {
                    let inner = VExpr::Ident(name.clone(), t.clone());
                    let mut args: Vec<VExpr> = Vec::new();
                    args.push(inner);
                    let t2 = t.clone();
                    proof {
                        VExpr::lemma_view_opapp(ValueOp::Deref, args, t2);
                        assert(vexpr_views(args@) =~= seq![inner@]);
                    }
                    Ok(VExpr::OpApp(ValueOp::Deref, args, t2))
                },
                _ => Ok(VExpr::Ident(name.clone(), t)),
            }
        },
        Err(_) => {
            if field_pos {
                Ok(VExpr::Ident(name.clone(), typ.clone()))
            } else {
                Err(Error::MissingVar(name.clone()))
            }
        },
    }
}

/// Builds the application of `op` to operands that have their types.
pub fn rewrite_vexpr_opapp(op: ValueOp, exprs: Vec<VExpr>) -> (r: Result<VExpr, Error>)
    ensures
        vexpr_result_is(r, typed_opapp(op, vexpr_views(exprs@))),
{
    let ghost a = vexpr_views(exprs@);
    let rw_typ = match VType::try_infer_op_type(&op, &exprs) {
        Some(t) => t,
        None => {
            return Err(Error::TypeMismatch);
        },
    };
    let primitive = match &rw_typ {
        VType::Bv(_) => true,
        _ => false,
    };
    let node = match op {
        ValueOp::GetField => {
            assert(a[0] == exprs@[0]@ && a[1] == exprs@[1]@);
            let field_ident = VExpr::Ident(
                String::from_str(exprs[1].get_ident_name()),
                rw_typ.clone(),
            );
            let mut args: Vec<VExpr> = Vec::new();
            args.push(exprs[0].clone());
            args.push(field_ident);
            let t = rw_typ.clone();
            proof {
                VExpr::lemma_view_opapp(ValueOp::GetField, args, t);
                assert(vexpr_views(args@) =~= seq![a[0], VExprView::Ident(a[1]->Ident_0, t@)]);
            }
            VExpr::OpApp(ValueOp::GetField, args, t)
        },
        _ => {
            let t = rw_typ.clone();
            proof {
                VExpr::lemma_view_opapp(op, exprs, t);
            }
            VExpr::OpApp(op, exprs, t)
        },
    };
    let deref = match op {
        ValueOp::GetField => primitive,
        ValueOp::ArrayIndex => primitive,
        _ => false,
    };
    if deref {
        let mut args: Vec<VExpr> = Vec::new();
        let ghost n = node@;
        args.push(node);
        proof {
            VExpr::lemma_view_opapp(ValueOp::Deref, args, rw_typ);
            assert(vexpr_views(args@) =~= seq![n]);
        }
        Ok(VExpr::OpApp(ValueOp::Deref, args, rw_typ))
    } else {
        Ok(node)
    }
}

/// Builds the application of the built-in function `name` to arguments
/// that have their types.
pub fn rewrite_vexpr_funcapp(name: &String, exprs: Vec<VExpr>) -> (r: Result<VExpr, Error>)
    ensures
        vexpr_result_is(
            r,
            match func_app_type(name@, vexpr_views(exprs@)) {
                Some(t) => Ok(VExprView::FuncApp(name@, vexpr_views(exprs@), t)),
                None => Err(ErrorView::TypeMismatch),
            },
        ),
{
    match VType::try_infer_func_app_type(name.as_str(), &exprs) {
        Some(t) => {
            let n = name.clone();
            proof {
                VExpr::lemma_view_funcapp(n, exprs, t);
            }
            Ok(VExpr::FuncApp(n, exprs, t))
        },
        None => Err(Error::TypeMismatch),
    }
}

/// Records the bound variable of a quantifier in `scope`.
pub fn rewrite_bexpr_boolop(op: &BoolOp, scope: &mut Vec<VField>) -> (r: Result<(), Error>)
    ensures
        match entered(vfield_views(old(scope)@), op@) {
            Ok(s) => r is Ok && vfield_views(final(scope)@) == s,
            Err(e) => r is Err && r->Err_0@ == e,
        },
{
    let ghost before = vfield_views(scope@);
    match op {
        BoolOp::Forall(v, t) => match v {
            VExpr::Ident(name, _) => {
                scope.push(VField { name: name.clone(), typ: t.clone() });
                assert(vfield_views(scope@) =~= before.push(
                    VFieldView { name: name@, typ: t@ },
                ));
                Ok(())
            },
            _ => Err(Error::TypeMismatch),
        },
        BoolOp::Exists(v, t) => match v {
            VExpr::Ident(name, _) => {
                scope.push(VField { name: name.clone(), typ: t.clone() });
                assert(vfield_views(scope@) =~= before.push(
                    VFieldView { name: name@, typ: t@ },
                ));
                Ok(())
            },
            _ => Err(Error::TypeMismatch),
        },
        _ => Ok(()),
    }
}

}

/// Gives the expression `e` its types, and inserts the dereferences that
/// they imply.
pub fn infer_vexpr(
    e: &VExpr,
    dwarf_ctx: &DwarfCtx,
    fname: &str,
    scope: &Vec<VField>,
    field_pos: bool,
) -> (r: Result<VExpr, Error>)
    ensures
        vexpr_result_is(
            r,
            typed_vexpr(dwarf_ctx@, fname@, vfield_views(scope@), e@, field_pos),
        ),
    decreases e,
{
    let ghost ev = e@;
    let ghost sc = vfield_views(scope@);
    match e {
        VExpr::Ident(name, typ) => VExprTypeInference::rewrite_vexpr_ident(
            dwarf_ctx,
            fname,
            scope,
            name,
            typ,
            field_pos,
        ),
        VExpr::OpApp(op, args, typ) => {
            proof {
                VExpr::lemma_view_opapp(*op, *args, *typ);
            }
            let is_get_field = match op {
                ValueOp::GetField => true,
                _ => false,
            };
            let mut out: Vec<VExpr> = Vec::new();
            let mut i: usize = 0;
            assert(vexpr_views(out@) =~= Seq::<VExprView>::empty());
            while i < args.len()
                invariant
                    i <= args.len(),
                    out@.len() == i,
                    ev == e@,
                    ev == VExprView::OpApp(*op, vexpr_views(args@), typ@),
                    sc == vfield_views(scope@),
                    is_get_field == (*op == ValueOp::GetField),
                    typed_vargs(dwarf_ctx@, fname@, sc, ev, 0) == after(
                        vexpr_views(out@),
                        typed_vargs(dwarf_ctx@, fname@, sc, ev, i as nat),
                    ),
                    decreases_to!(e => args),
                decreases args.len() - i,
            {
                let ghost before = vexpr_views(out@);
                assert(vargs(ev)[i as int] == args@[i as int]@);
                let x = match infer_vexpr(&args[i], dwarf_ctx, fname, scope, is_get_field && i >= 1) {
                    Ok(x) => x,
                    Err(err) => {
                        return Err(err);
                    },
                };
                out.push(x);
                proof {
                    assert(vexpr_views(out@) =~= before + seq![x@]);
                    let rest = typed_vargs(dwarf_ctx@, fname@, sc, ev, (i + 1) as nat);
                    if rest is Ok {
                        assert(before + (seq![x@] + rest->Ok_0) =~= (before + seq![x@])
                            + rest->Ok_0);
                    }
                }
                i += 1;
            }
            proof {
                assert(vexpr_views(out@) + Seq::<VExprView>::empty() =~= vexpr_views(out@));
            }
            VExprTypeInference::rewrite_vexpr_opapp(*op, out)
        },
        VExpr::FuncApp(name, args, typ) => {
            proof {
                VExpr::lemma_view_funcapp(*name, *args, *typ);
            }
            let mut out: Vec<VExpr> = Vec::new();
            let mut i: usize = 0;
            assert(vexpr_views(out@) =~= Seq::<VExprView>::empty());
            while i < args.len()
                invariant
                    i <= args.len(),
                    out@.len() == i,
                    ev == e@,
                    ev == VExprView::FuncApp(name@, vexpr_views(args@), typ@),
                    sc == vfield_views(scope@),
                    typed_vargs(dwarf_ctx@, fname@, sc, ev, 0) == after(
                        vexpr_views(out@),
                        typed_vargs(dwarf_ctx@, fname@, sc, ev, i as nat),
                    ),
                    decreases_to!(e => args),
                decreases args.len() - i,
            {
                let ghost before = vexpr_views(out@);
                assert(vargs(ev)[i as int] == args@[i as int]@);
                let x = match infer_vexpr(&args[i], dwarf_ctx, fname, scope, false) {
                    Ok(x) => x,
                    Err(err) => {
                        return Err(err);
                    },
                };
                out.push(x);
                proof {
                    assert(vexpr_views(out@) =~= before + seq![x@]);
                    let rest = typed_vargs(dwarf_ctx@, fname@, sc, ev, (i + 1) as nat);
                    if rest is Ok {
                        assert(before + (seq![x@] + rest->Ok_0) =~= (before + seq![x@])
                            + rest->Ok_0);
                    }
                }
                i += 1;
            }
            proof {
                assert(vexpr_views(out@) + Seq::<VExprView>::empty() =~= vexpr_views(out@));
            }
            VExprTypeInference::rewrite_vexpr_funcapp(name, out)
        },
        other => Ok(other.clone()),
    }
}


/// Gives the expressions of `v` their types.
pub fn infer_vexprs(v: &Vec<VExpr>, dwarf_ctx: &DwarfCtx, fname: &str, scope: &Vec<VField>) -> (r:
    Result<Vec<VExpr>, Error>)
    ensures
        match typed_vexprs(dwarf_ctx@, fname@, vfield_views(scope@), vexpr_views(v@), 0) {
            Ok(a) => r is Ok && vexpr_views(r->Ok_0@) == a,
            Err(e) => r is Err && r->Err_0@ == e,
        },
{
    let ghost all = vexpr_views(v@);
    let ghost sc = vfield_views(scope@);
    let mut out: Vec<VExpr> = Vec::new();
    let mut i: usize = 0;
    assert(vexpr_views(out@) =~= Seq::<VExprView>::empty());
    while i < v.len()
        invariant
            i <= v.len(),
            out@.len() == i,
            all == vexpr_views(v@),
            sc == vfield_views(scope@),
            typed_vexprs(dwarf_ctx@, fname@, sc, all, 0) == after(
                vexpr_views(out@),
                typed_vexprs(dwarf_ctx@, fname@, sc, all, i as nat),
            ),
        decreases v.len() - i,
    {
        let ghost before = vexpr_views(out@);
        assert(all[i as int] == v@[i as int]@);
        let x = match infer_vexpr(&v[i], dwarf_ctx, fname, scope, false) {
            Ok(x) => x,
            Err(err) => {
                return Err(err);
            },
        };
        out.push(x);
        proof {
            assert(vexpr_views(out@) =~= before + seq![x@]);
            let rest = typed_vexprs(dwarf_ctx@, fname@, sc, all, (i + 1) as nat);
            if rest is Ok {
                assert(before + (seq![x@] + rest->Ok_0) =~= (before + seq![x@]) + rest->Ok_0);
            }
        }
        i += 1;
    }
    proof {
        assert(vexpr_views(out@) + Seq::<VExprView>::empty() =~= vexpr_views(out@));
    }
    Ok(out)
}

/// Gives the value expressions of the condition `b` their types; the bound
/// variables of the quantifiers that are entered are added to `scope`.
pub fn infer_bexpr(b: &BExpr, dwarf_ctx: &DwarfCtx, fname: &str, scope: &mut Vec<VField>) -> (r:
    Result<BExpr, Error>)
    ensures
        match typed_bexpr(dwarf_ctx@, fname@, vfield_views(old(scope)@), b@) {
            Ok(x) => r is Ok && r->Ok_0@ == x.0 && vfield_views(final(scope)@) == x.1,
            Err(e) => r is Err && r->Err_0@ == e,
        },
    decreases b,
{
    let ghost bv = b@;
    match b {
        BExpr::Bool(v) => Ok(BExpr::Bool(*v)),
        BExpr::BOpApp(op, args) => {
            proof {
                BExpr::lemma_view_bopapp(*op, *args);
            }
            match VExprTypeInference::rewrite_bexpr_boolop(op, scope) {
                Ok(()) => {},
                Err(err) => {
                    return Err(err);
                },
            }
            let ghost inner = vfield_views(scope@);
            let mut out: Vec<BExpr> = Vec::new();
            let mut i: usize = 0;
            assert(bexpr_views(out@) =~= Seq::<BExprView>::empty());
            while i < args.len()
                invariant
                    i <= args.len(),
                    out@.len() == i,
                    bv == b@,
                    bv == BExprView::BOpApp(op@, bexpr_views(args@)),
                    entered(vfield_views(old(scope)@), op@) == Ok::<Seq<VFieldView>, ErrorView>(
                        inner,
                    ),
                    typed_bargs(dwarf_ctx@, fname@, inner, bv, 0) == after_scoped(
                        bexpr_views(out@),
                        typed_bargs(dwarf_ctx@, fname@, vfield_views(scope@), bv, i as nat),
                    ),
                    decreases_to!(b => args),
                decreases args.len() - i,
            {
                let ghost before = bexpr_views(out@);
                let ghost sc = vfield_views(scope@);
                assert(bargs(bv)[i as int] == args@[i as int]@);
                let x = match infer_bexpr(&args[i], dwarf_ctx, fname, scope) {
                    Ok(x) => x,
                    Err(err) => {
                        return Err(err);
                    },
                };
                out.push(x);
                proof {
                    assert(bexpr_views(out@) =~= before + seq![x@]);
                    let rest = typed_bargs(
                        dwarf_ctx@,
                        fname@,
                        vfield_views(scope@),
                        bv,
                        (i + 1) as nat,
                    );
                    if rest is Ok {
                        assert(before + (seq![x@] + rest->Ok_0.0) =~= (before + seq![x@])
                            + rest->Ok_0.0);
                    }
                }
                i += 1;
            }
            proof {
                assert(bexpr_views(out@) + Seq::<BExprView>::empty() =~= bexpr_views(out@));
            }
            let o = op.clone();
            proof {
                BExpr::lemma_view_bopapp(o, out);
            }
            Ok(BExpr::BOpApp(o, out))
        },
        BExpr::COpApp(op, args) => {
            match infer_vexprs(args, dwarf_ctx, fname, scope) {
                Ok(a) => Ok(BExpr::COpApp(*op, a)),
                Err(err) => Err(err),
            }
        },
    }
}

// ====================================================================
// Global variables

/// Whether the expression `e` is, or holds as an operand at any depth, the
/// name of a global variable.
pub open spec fn mentions_global(dwarf: DwarfCtxView, e: VExprView) -> bool
    decreases e, vargs(e).len() + 1,
{
    match e {
        VExprView::Ident(name, _) => dwarf.is_global(name),
        VExprView::OpApp(_, _, _) => operand_mentions_global(dwarf, e, 0),
        VExprView::FuncApp(_, _, _) => operand_mentions_global(dwarf, e, 0),
        _ => false,
    }
}

/// Whether an operand of `e` from index `i` on mentions a global variable.
pub open spec fn operand_mentions_global(dwarf: DwarfCtxView, e: VExprView, i: nat) -> bool
    decreases e, vargs(e).len() - i,
{
    i < vargs(e).len() && (mentions_global(dwarf, vargs(e)[i as int]) || operand_mentions_global(
        dwarf,
        e,
        i + 1,
    ))
}

/// Whether an expression of `v` from index `i` on mentions a global
/// variable.
pub open spec fn any_mentions_global(dwarf: DwarfCtxView, v: Seq<VExprView>, i: nat) -> bool
    decreases v.len() - i,
{
    i < v.len() && (mentions_global(dwarf, v[i as int]) || any_mentions_global(dwarf, v, i + 1))
}

/// Whether `vexpr` is, or holds at any depth, the name of a global
/// variable.
pub fn is_global(vexpr: &VExpr, dwarf_ctx: &DwarfCtx) -> (r: bool)
    ensures
        r == mentions_global(dwarf_ctx@, vexpr@),
    decreases vexpr,
{
    let ghost ev = vexpr@;
    match vexpr {
        VExpr::Ident(name, _) => dwarf_ctx.global_var(name.as_str()).is_ok(),
        VExpr::OpApp(op, vexprs, t) => {
            proof {
                VExpr::lemma_view_opapp(*op, *vexprs, *t);
            }
            let mut i: usize = 0;
            while i < vexprs.len()
                invariant
                    i <= vexprs.len(),
                    ev == vexpr@,
                    ev == VExprView::OpApp(*op, vexpr_views(vexprs@), t@),
                    mentions_global(dwarf_ctx@, ev) == operand_mentions_global(
                        dwarf_ctx@,
                        ev,
                        i as nat,
                    ),
                    decreases_to!(vexpr => vexprs),
                decreases vexprs.len() - i,
            {
                assert(vargs(ev)[i as int] == vexprs@[i as int]@);
                if is_global(&vexprs[i], dwarf_ctx) {
                    return true;
                }
                i += 1;
            }
            false
        },
        VExpr::FuncApp(f, vexprs, t) => {
            proof {
                VExpr::lemma_view_funcapp(*f, *vexprs, *t);
            }
            let mut i: usize = 0;
            while i < vexprs.len()
                invariant
                    i <= vexprs.len(),
                    ev == vexpr@,
                    ev == VExprView::FuncApp(f@, vexpr_views(vexprs@), t@),
                    mentions_global(dwarf_ctx@, ev) == operand_mentions_global(
                        dwarf_ctx@,
                        ev,
                        i as nat,
                    ),
                    decreases_to!(vexpr => vexprs),
                decreases vexprs.len() - i,
            {
                assert(vargs(ev)[i as int] == vexprs@[i as int]@);
                if is_global(&vexprs[i], dwarf_ctx) {
                    return true;
                }
                i += 1;
            }
            false
        },
        _ => false,
    }
}

/// Whether one of `vexprs` is, or holds at any depth, the name of a global
/// variable.
pub fn has_global(vexprs: &Vec<VExpr>, dwarf_ctx: &DwarfCtx) -> (r: bool)
    ensures
        r == any_mentions_global(dwarf_ctx@, vexpr_views(vexprs@), 0),
{
    let ghost all = vexpr_views(vexprs@);
    let mut i: usize = 0;
    while i < vexprs.len()
        invariant
            i <= vexprs.len(),
            all == vexpr_views(vexprs@),
            any_mentions_global(dwarf_ctx@, all, 0) == any_mentions_global(
                dwarf_ctx@,
                all,
                i as nat,
            ),
        decreases vexprs.len() - i,
    {
        assert(all[i as int] == vexprs@[i as int]@);
        if is_global(&vexprs[i], dwarf_ctx) {
            return true;
        }
        i += 1;
    }
    false
}

/// The expression `e` with the address of each global variable in place of
/// its name.
pub open spec fn renamed(dwarf: DwarfCtxView, e: VExprView) -> VExprView
    decreases e,
{
    match e {
        VExprView::Ident(name, typ) => match dwarf.global(name) {
            Some(g) => VExprView::Bv { value: g.memory_addr, typ },
            None => e,
        },
        VExprView::OpApp(op, args, typ) => VExprView::OpApp(
            op,
            Seq::new(
                args.len(),
                |i: int|
                    if 0 <= i < args.len() {
                        renamed(dwarf, args[i])
                    } else {
                        arbitrary()
                    },
            ),
            typ,
        ),
        VExprView::FuncApp(name, args, typ) => VExprView::FuncApp(
            name,
            Seq::new(
                args.len(),
                |i: int|
                    if 0 <= i < args.len() {
                        renamed(dwarf, args[i])
                    } else {
                        arbitrary()
                    },
            ),
            typ,
        ),
        _ => e,
    }
}

/// The condition `b` with the address of each global variable in place of
/// its name, in the operands of its comparisons.
pub open spec fn renamed_bexpr(dwarf: DwarfCtxView, b: BExprView) -> BExprView
    decreases b,
{
    match b {
        BExprView::Bool(_) => b,
        BExprView::BOpApp(op, args) => BExprView::BOpApp(
            op,
            Seq::new(
                args.len(),
                |i: int|
                    if 0 <= i < args.len() {
                        renamed_bexpr(dwarf, args[i])
                    } else {
                        arbitrary()
                    },
            ),
        ),
        BExprView::COpApp(op, args) => BExprView::COpApp(
            op,
            Seq::new(args.len(), |i: int| renamed(dwarf, args[i])),
        ),
    }
}

/// The debugging information, as the context of a pass that only reads
/// it.
pub struct DwarfRef<'a> {
    pub dwarf: &'a DwarfCtx,
}

impl<'a> View for DwarfRef<'a> {
    type V = DwarfCtxView;

    open spec fn view(&self) -> DwarfCtxView {
        self.dwarf@
    }
}

/// The pass that puts the address of each global variable in place of its
/// name.
pub struct RenameGlobals;

impl<'a> ASTRewriter<DwarfRef<'a>> for RenameGlobals {
    open spec fn vexpr_rewritten(e: VExprView, c: DwarfCtxView) -> (VExprView, DwarfCtxView) {
        (
            match e {
                VExprView::Ident(name, typ) => match c.global(name) {
                    Some(g) => VExprView::Bv { value: g.memory_addr, typ },
                    None => e,
                },
                _ => e,
            },
            c,
        )
    }

    open spec fn boolop_rewritten(op: BoolOpView, c: DwarfCtxView) -> (BoolOpView, DwarfCtxView) {
        (op, c)
    }

    open spec fn bexpr_rewritten(b: BExprView, c: DwarfCtxView) -> (BExprView, DwarfCtxView) {
        (b, c)
    }

    fn rewrite_vexpr(vexpr: VExpr, ctx: &mut DwarfRef<'a>) -> (r: VExpr) {
        let found: Option<u64> = match &vexpr {
            VExpr::Ident(name, _) => match ctx.dwarf.global_var(name.as_str()) {
                Ok(g) => Some(g.memory_addr),
                Err(_) => None,
            },
            _ => None,
        };
        match found {
            Some(addr) => match vexpr {
                VExpr::Ident(_, typ) => VExpr::Bv { value: addr, typ },
                other => other,
            },
            None => vexpr,
        }
    }

    fn rewrite_bexpr_boolop(bop: BoolOp, ctx: &mut DwarfRef<'a>) -> (r: BoolOp) {
        bop
    }

    fn rewrite_bexpr(bexpr: BExpr, ctx: &mut DwarfRef<'a>) -> (r: BExpr) {
        bexpr
    }
}

/// The operands of `e` from index `i` on, each with the addresses of the
/// global variables in place of their names.
pub open spec fn renamed_from(dwarf: DwarfCtxView, v: Seq<VExprView>, i: nat) -> Seq<VExprView> {
    Seq::new((v.len() - i) as nat, |j: int| renamed(dwarf, v[i + j]))
}

/// The renaming pass turns the operands of an expression into the renamed
/// operands.
proof fn lemma_rename_visits_operands(
    dwarf: DwarfCtxView,
    e: VExprView,
    i: nat,
    done: Seq<VExprView>,
)
    requires
        i <= vexpr_operands(e).len(),
    ensures
        visited_operands::<DwarfRef<'static>, RenameGlobals>(e, i, dwarf, done) == (
            done + renamed_from(dwarf, vexpr_operands(e), i),
            dwarf,
        ),
    decreases e, vexpr_operands(e).len() - i,
{
    let v = vexpr_operands(e);
    if i < v.len() {
        lemma_rename_visits(dwarf, v[i as int]);
        lemma_rename_visits_operands(dwarf, e, i + 1, done.push(renamed(dwarf, v[i as int])));
        assert(done.push(renamed(dwarf, v[i as int])) + renamed_from(dwarf, v, i + 1) =~= done
            + renamed_from(dwarf, v, i));
    } else {
        assert(done + renamed_from(dwarf, v, i) =~= done);
    }
}

/// The renaming pass turns an expression into the renamed expression, and
/// leaves its context alone.
pub proof fn lemma_rename_visits(dwarf: DwarfCtxView, e: VExprView)
    ensures
        visited_vexpr::<DwarfRef<'static>, RenameGlobals>(e, dwarf) == (renamed(dwarf, e), dwarf),
    decreases e, vexpr_operands(e).len() + 1,
{
    match e {
        VExprView::OpApp(op, args, typ) => {
            lemma_rename_visits_operands(dwarf, e, 0, Seq::empty());
            assert(Seq::<VExprView>::empty() + renamed_from(dwarf, args, 0) =~= renamed(
                dwarf,
                e,
            )->OpApp_1);
        },
        VExprView::FuncApp(name, args, typ) => {
            lemma_rename_visits_operands(dwarf, e, 0, Seq::empty());
            assert(Seq::<VExprView>::empty() + renamed_from(dwarf, args, 0) =~= renamed(
                dwarf,
                e,
            )->FuncApp_1);
        },
        _ => {},
    }
}

/// The renaming pass turns a list of expressions into the renamed
/// expressions.
proof fn lemma_rename_visits_list(
    dwarf: DwarfCtxView,
    v: Seq<VExprView>,
    i: nat,
    done: Seq<VExprView>,
)
    requires
        i <= v.len(),
    ensures
        visited_vexprs::<DwarfRef<'static>, RenameGlobals>(v, i, dwarf, done) == (
            done + renamed_from(dwarf, v, i),
            dwarf,
        ),
    decreases v.len() - i,
{
    if i < v.len() {
        lemma_rename_visits(dwarf, v[i as int]);
        lemma_rename_visits_list(dwarf, v, i + 1, done.push(renamed(dwarf, v[i as int])));
        assert(done.push(renamed(dwarf, v[i as int])) + renamed_from(dwarf, v, i + 1) =~= done
            + renamed_from(dwarf, v, i));
    } else {
        assert(done + renamed_from(dwarf, v, i) =~= done);
    }
}

/// The operands of `b` from index `i` on, each renamed.
pub open spec fn renamed_bexprs_from(dwarf: DwarfCtxView, v: Seq<BExprView>, i: nat) -> Seq<
    BExprView,
> {
    Seq::new((v.len() - i) as nat, |j: int| renamed_bexpr(dwarf, v[i + j]))
}

/// The renaming pass turns the operands of a condition into the renamed
/// operands.
proof fn lemma_rename_visits_parts(
    dwarf: DwarfCtxView,
    b: BExprView,
    i: nat,
    done: Seq<BExprView>,
)
    requires
        i <= bexpr_operands(b).len(),
    ensures
        visited_bexprs::<DwarfRef<'static>, RenameGlobals>(b, i, dwarf, done) == (
            done + renamed_bexprs_from(dwarf, bexpr_operands(b), i),
            dwarf,
        ),
    decreases b, bexpr_operands(b).len() - i,
{
    let v = bexpr_operands(b);
    if i < v.len() {
        lemma_rename_visits_bexpr(dwarf, v[i as int]);
        lemma_rename_visits_parts(
            dwarf,
            b,
            i + 1,
            done.push(renamed_bexpr(dwarf, v[i as int])),
        );
        assert(done.push(renamed_bexpr(dwarf, v[i as int])) + renamed_bexprs_from(dwarf, v, i + 1)
            =~= done + renamed_bexprs_from(dwarf, v, i));
    } else {
        assert(done + renamed_bexprs_from(dwarf, v, i) =~= done);
    }
}

/// The renaming pass turns a condition into the renamed condition.
pub proof fn lemma_rename_visits_bexpr(dwarf: DwarfCtxView, b: BExprView)
    ensures
        visited_bexpr::<DwarfRef<'static>, RenameGlobals>(b, dwarf) == (renamed_bexpr(dwarf, b), dwarf),
    decreases b, bexpr_operands(b).len() + 1,
{
    match b {
        BExprView::Bool(_) => {},
        BExprView::BOpApp(op, args) => {
            lemma_rename_visits_parts(dwarf, b, 0, Seq::empty());
            assert(Seq::<BExprView>::empty() + renamed_bexprs_from(dwarf, args, 0) =~= renamed_bexpr(
                dwarf,
                b,
            )->BOpApp_1);
        },
        BExprView::COpApp(op, args) => {
            lemma_rename_visits_list(dwarf, args, 0, Seq::empty());
            assert(Seq::<VExprView>::empty() + renamed_from(dwarf, args, 0) =~= renamed_bexpr(
                dwarf,
                b,
            )->COpApp_1);
        },
    }
}

/// Puts the address of each global variable in place of its name. No
/// identifier that is left names a global variable.
pub fn rename_globals(e: &VExpr, dwarf_ctx: &DwarfCtx) -> (r: VExpr)
    ensures
        r@ == renamed(dwarf_ctx@, e@),
        !mentions_global(dwarf_ctx@, r@),
{
    let mut ctx = DwarfRef { dwarf: dwarf_ctx };
    proof {
        lemma_rename_visits(dwarf_ctx@, e@);
        lemma_renamed_mentions_no_global(dwarf_ctx@, e@);
    }
    visit_vexpr::<DwarfRef, RenameGlobals>(e, &mut ctx)
}

/// Puts the address of each global variable in place of its name, in the
/// operands of the comparisons of a condition. No identifier that is left
/// there names a global variable.
pub fn rename_globals_bexpr(b: &BExpr, dwarf_ctx: &DwarfCtx) -> (r: BExpr)
    ensures
        r@ == renamed_bexpr(dwarf_ctx@, b@),
        !bexpr_mentions_global(dwarf_ctx@, r@),
{
    let mut ctx = DwarfRef { dwarf: dwarf_ctx };
    proof {
        lemma_rename_visits_bexpr(dwarf_ctx@, b@);
        lemma_renamed_bexpr_mentions_no_global(dwarf_ctx@, b@);
    }
    visit_bexpr::<DwarfRef, RenameGlobals>(b, &mut ctx)
}

// ====================================================================
// Constant folding

/// `x` shifted right by `k` bits, the sign bit filling in from the left.
pub open spec fn sar64(x: u64, k: u64) -> u64 {
    if x < 0x8000_0000_0000_0000 {
        x >> k
    } else {
        !((!x) >> k)
    }
}

/// The value of `op` on the 64-bit numbers `x` and `y`. Arithmetic wraps
/// round, and a shift is by `y` modulo 64 bits. `None` for a division by
/// zero and for the operators that are not arithmetic.
pub open spec fn binop_value(op: ValueOp, x: u64, y: u64) -> Option<u64> {
    match op {
        ValueOp::Add => Some(x.wrapping_add(y)),
        ValueOp::Sub => Some(x.wrapping_sub(y)),
        ValueOp::Mul => Some(x.wrapping_mul(y)),
        ValueOp::Div => if y != 0 {
            Some((x / y) as u64)
        } else {
            None
        },
        ValueOp::BvXor => Some(x ^ y),
        ValueOp::BvOr => Some(x | y),
        ValueOp::BvAnd => Some(x & y),
        ValueOp::RightShift => Some(sar64(x, (y % 64) as u64)),
        ValueOp::URightShift => Some(x >> ((y % 64) as u64)),
        ValueOp::LeftShift => Some(x << ((y % 64) as u64)),
        _ => None,
    }
}

/// The name of the variable that stands for the memory at `addr`.
pub open spec fn mem_access_name(addr: u64) -> Seq<char> {
    "mem_access_"@ + dec_digits(addr as nat)
}

/// The application of `op` to operands `a` that are folded already, with
/// the type `typ` that the application had.
///
/// Where the first two operands are literals: arithmetic gives a literal
/// of the first operand's type; a slice of two bit-vectors gives the bits
/// under the mask, typed as wide as both operands together; an element of
/// an array at a literal address gives that address plus the element's
/// size in bytes times the index, typed as the element; a dereference of
/// a literal address gives the variable that stands for the memory there.
/// Everything else stays an application of `op` to `a`.
pub open spec fn fold_node(op: ValueOp, a: Seq<VExprView>, typ: VTypeView) -> VExprView {
    let same = VExprView::OpApp(op, a, typ);
    if a.len() == 0 || !a[0].is_lit() || (a.len() > 1 && !a[1].is_lit()) {
        same
    } else {
        let x = a[0].lit_value()->0;
        match op {
            ValueOp::Deref => VExprView::Ident(mem_access_name(x), typ),
            ValueOp::Concat => same,
            ValueOp::GetField => same,
            ValueOp::Slice { lo, hi } => if a.len() > 1 && a[0].typ() is Bv && a[1].typ() is Bv
                && a[0].typ()->Bv_0 + a[1].typ()->Bv_0 <= u16::MAX {
                VExprView::Bv {
                    value: x & mask_bits(hi as u64, lo as u64),
                    typ: VTypeView::Bv((a[0].typ()->Bv_0 + a[1].typ()->Bv_0) as u16),
                }
            } else {
                same
            },
            ValueOp::ArrayIndex => if a.len() > 1 && a[0].typ().array_out_size() is Some {
                VExprView::Bv {
                    value: x.wrapping_add(
                        ((a[0].typ().array_out_size()->0 / 8) as u64).wrapping_mul(
                            a[1].lit_value()->0,
                        ),
                    ),
                    typ: *a[0].typ()->Array_out_type,
                }
            } else {
                same
            },
            _ => if a.len() > 1 && binop_value(op, x, a[1].lit_value()->0) is Some {
                VExprView::Bv { value: binop_value(op, x, a[1].lit_value()->0)->0, typ: a[0].typ() }
            } else {
                same
            },
        }
    }
}

/// The expression `e` with its constant parts folded, from the leaves up.
pub open spec fn folded(e: VExprView) -> VExprView
    decreases e, 1int,
{
    match e {
        VExprView::OpApp(op, args, typ) => fold_node(op, folded_args(e), typ),
        VExprView::FuncApp(name, args, typ) => VExprView::FuncApp(name, folded_args(e), typ),
        _ => e,
    }
}

/// The operands of `e`, each with its constant parts folded.
pub open spec fn folded_args(e: VExprView) -> Seq<VExprView>
    decreases e, 0int,
{
    Seq::new(
        vargs(e).len(),
        |i: int|
            if 0 <= i < vargs(e).len() {
                folded(vargs(e)[i])
            } else {
                arbitrary()
            },
    )
}

/// The condition `b` with the constant parts of its value expressions
/// folded.
pub open spec fn folded_bexpr(b: BExprView) -> BExprView
    decreases b,
{
    match b {
        BExprView::Bool(_) => b,
        BExprView::BOpApp(op, args) => BExprView::BOpApp(
            op,
            Seq::new(
                args.len(),
                |i: int|
                    if 0 <= i < args.len() {
                        folded_bexpr(args[i])
                    } else {
                        arbitrary()
                    },
            ),
        ),
        BExprView::COpApp(op, args) => BExprView::COpApp(
            op,
            Seq::new(args.len(), |i: int| folded(args[i])),
        ),
    }
}

/// The value of an arithmetic operator on two 64-bit numbers.
fn eval_binop(op: ValueOp, x: u64, y: u64) -> (r: Option<u64>)
    ensures
        r == binop_value(op, x, y),
{
    match op {
        ValueOp::Add => Some(x.wrapping_add(y)),
        ValueOp::Sub => Some(x.wrapping_sub(y)),
        ValueOp::Mul => Some(x.wrapping_mul(y)),
        ValueOp::Div => if y != 0 {
            Some(x / y)
        } else {
            None
        },
        ValueOp::BvXor => Some(x ^ y),
        ValueOp::BvOr => Some(x | y),
        ValueOp::BvAnd => Some(x & y),
        ValueOp::RightShift => {
            let k: u64 = y % 64;
            if x < 0x8000_0000_0000_0000 {
                Some(x >> k)
            } else {
                Some(!((!x) >> k))
            }
        },
        ValueOp::URightShift => Some(x >> (y % 64)),
        ValueOp::LeftShift => Some(x << (y % 64)),
        _ => None,
    }
}

/// Folds the application of `op` to operands that are folded already.
fn fold_opapp(op: ValueOp, a: Vec<VExpr>, typ: VType) -> (r: VExpr)
    ensures
        r@ == fold_node(op, vexpr_views(a@), typ@),
{
    let ghost av = vexpr_views(a@);
    proof {
        VExpr::lemma_view_opapp(op, a, typ);
    }
    if a.len() == 0 || !a[0].is_lit() || (a.len() > 1 && !a[1].is_lit()) {
        return VExpr::OpApp(op, a, typ);
    }
    assert(av[0] == a@[0]@);
    let x: u64 = match a[0].get_lit_value() {
        Some(x) => x,
        None => 0,
    };
    let folded: Option<VExpr> = match op {
        ValueOp::Deref => Some(VExpr::Ident(abs_access_name(&x), typ.clone())),
        ValueOp::Concat => None,
        ValueOp::GetField => None,
        ValueOp::Slice { lo, hi } => {
            if a.len() > 1 {
                assert(av[1] == a@[1]@);
                match (a[0].typ(), a[1].typ()) {
                    (VType::Bv(w0), VType::Bv(w1)) => match w0.checked_add(*w1) {
                        Some(w) => Some(
                            VExpr::Bv { value: x & mask(hi as u64, lo as u64), typ: VType::Bv(w) },
                        ),
                        None => None,
                    },
                    _ => None,
                }
            } else {
                None
            }
        },
        ValueOp::ArrayIndex => {
            if a.len() > 1 {
                assert(av[1] == a@[1]@);
                let index: u64 = match a[1].get_lit_value() {
                    Some(y) => y,
                    None => 0,
                };
                proof {
                    reveal_with_fuel(VType::model, 2);
                }
                match a[0].typ() {
                    VType::Array { in_type: _, out_type } => {
                        let size: Option<u64> = match &**out_type {
                            VType::Bv(w) => Some(*w as u64),
                            VType::Struct { id: _, fields: _, size } => Some(*size),
                            _ => None,
                        };
                        match size {
                            Some(bits) => Some(
                                VExpr::Bv {
                                    value: x.wrapping_add((bits / 8).wrapping_mul(index)),
                                    typ: out_type.dup(),
                                },
                            ),
                            None => None,
                        }
                    },
                    _ => None,
                }
            } else {
                None
            }
        },
        _ => {
            if a.len() > 1 {
                assert(av[1] == a@[1]@);
                let y: u64 = match a[1].get_lit_value() {
                    Some(y) => y,
                    None => 0,
                };
                match eval_binop(op, x, y) {
                    Some(v) => Some(VExpr::Bv { value: v, typ: a[0].typ().clone() }),
                    None => None,
                }
            } else {
                None
            }
        },
    };
    match folded {
        Some(e) => e,
        None => VExpr::OpApp(op, a, typ),
    }
}

/// The pass that folds constants.
pub struct ConstantFolder;

impl ASTRewriter<NoContext> for ConstantFolder {
    open spec fn vexpr_rewritten(e: VExprView, c: ()) -> (VExprView, ()) {
        (
            match e {
                VExprView::OpApp(op, args, typ) => fold_node(op, args, typ),
                _ => e,
            },
            c,
        )
    }

    open spec fn boolop_rewritten(op: BoolOpView, c: ()) -> (BoolOpView, ()) {
        (op, c)
    }

    open spec fn bexpr_rewritten(b: BExprView, c: ()) -> (BExprView, ()) {
        (b, c)
    }

    fn rewrite_vexpr(vexpr: VExpr, ctx: &mut NoContext) -> (r: VExpr) {
        match vexpr {
            VExpr::OpApp(op, args, typ) => {
                proof {
                    VExpr::lemma_view_opapp(op, args, typ);
                }
                fold_opapp(op, args, typ)
            },
            other => other,
        }
    }

    fn rewrite_bexpr_boolop(bop: BoolOp, ctx: &mut NoContext) -> (r: BoolOp) {
        bop
    }

    fn rewrite_bexpr(bexpr: BExpr, ctx: &mut NoContext) -> (r: BExpr) {
        bexpr
    }
}

/// The expressions of `v` from index `i` on, each folded.
pub open spec fn folded_from(v: Seq<VExprView>, i: nat) -> Seq<VExprView> {
    Seq::new((v.len() - i) as nat, |j: int| folded(v[i + j]))
}

/// The conditions of `v` from index `i` on, each folded.
pub open spec fn folded_bexprs_from(v: Seq<BExprView>, i: nat) -> Seq<BExprView> {
    Seq::new((v.len() - i) as nat, |j: int| folded_bexpr(v[i + j]))
}

/// The folding pass turns the operands of an expression into the folded
/// operands.
proof fn lemma_fold_visits_operands(e: VExprView, i: nat, done: Seq<VExprView>)
    requires
        i <= vexpr_operands(e).len(),
    ensures
        visited_operands::<NoContext, ConstantFolder>(e, i, (), done) == (
            done + folded_from(vexpr_operands(e), i),
            (),
        ),
    decreases e, vexpr_operands(e).len() - i,
{
    let v = vexpr_operands(e);
    if i < v.len() {
        lemma_fold_visits(v[i as int]);
        lemma_fold_visits_operands(e, i + 1, done.push(folded(v[i as int])));
        assert(done.push(folded(v[i as int])) + folded_from(v, i + 1) =~= done + folded_from(v, i));
    } else {
        assert(done + folded_from(v, i) =~= done);
    }
}

/// The folding pass turns an expression into the folded expression.
pub proof fn lemma_fold_visits(e: VExprView)
    ensures
        visited_vexpr::<NoContext, ConstantFolder>(e, ()) == (folded(e), ()),
    decreases e, vexpr_operands(e).len() + 1,
{
    match e {
        VExprView::OpApp(op, args, typ) => {
            lemma_fold_visits_operands(e, 0, Seq::empty());
            assert(Seq::<VExprView>::empty() + folded_from(args, 0) =~= folded_args(e));
        },
        VExprView::FuncApp(name, args, typ) => {
            lemma_fold_visits_operands(e, 0, Seq::empty());
            assert(Seq::<VExprView>::empty() + folded_from(args, 0) =~= folded_args(e));
        },
        _ => {},
    }
}

/// The folding pass turns a list of expressions into the folded
/// expressions.
proof fn lemma_fold_visits_list(v: Seq<VExprView>, i: nat, done: Seq<VExprView>)
    requires
        i <= v.len(),
    ensures
        visited_vexprs::<NoContext, ConstantFolder>(v, i, (), done) == (
            done + folded_from(v, i),
            (),
        ),
    decreases v.len() - i,
{
    if i < v.len() {
        lemma_fold_visits(v[i as int]);
        lemma_fold_visits_list(v, i + 1, done.push(folded(v[i as int])));
        assert(done.push(folded(v[i as int])) + folded_from(v, i + 1) =~= done + folded_from(v, i));
    } else {
        assert(done + folded_from(v, i) =~= done);
    }
}

/// The folding pass turns the operands of a condition into the folded
/// operands.
proof fn lemma_fold_visits_parts(b: BExprView, i: nat, done: Seq<BExprView>)
    requires
        i <= bexpr_operands(b).len(),
    ensures
        visited_bexprs::<NoContext, ConstantFolder>(b, i, (), done) == (
            done + folded_bexprs_from(bexpr_operands(b), i),
            (),
        ),
    decreases b, bexpr_operands(b).len() - i,
{
    let v = bexpr_operands(b);
    if i < v.len() {
        lemma_fold_visits_bexpr(v[i as int]);
        lemma_fold_visits_parts(b, i + 1, done.push(folded_bexpr(v[i as int])));
        assert(done.push(folded_bexpr(v[i as int])) + folded_bexprs_from(v, i + 1) =~= done
            + folded_bexprs_from(v, i));
    } else {
        assert(done + folded_bexprs_from(v, i) =~= done);
    }
}

/// The folding pass turns a condition into the folded condition.
pub proof fn lemma_fold_visits_bexpr(b: BExprView)
    ensures
        visited_bexpr::<NoContext, ConstantFolder>(b, ()) == (folded_bexpr(b), ()),
    decreases b, bexpr_operands(b).len() + 1,
{
    match b {
        BExprView::Bool(_) => {},
        BExprView::BOpApp(op, args) => {
            lemma_fold_visits_parts(b, 0, Seq::empty());
            assert(Seq::<BExprView>::empty() + folded_bexprs_from(args, 0) =~= folded_bexpr(
                b,
            )->BOpApp_1);
        },
        BExprView::COpApp(op, args) => {
            lemma_fold_visits_list(args, 0, Seq::empty());
            assert(Seq::<VExprView>::empty() + folded_from(args, 0) =~= folded_bexpr(b)->COpApp_1);
        },
    }
}

/// Folds the constant parts of an expression, from the leaves up.
pub fn constant_fold(vexpr: &VExpr) -> (r: VExpr)
    ensures
        r@ == folded(vexpr@),
{
    let mut ctx = NoContext;
    proof {
        lemma_fold_visits(vexpr@);
    }
    visit_vexpr::<NoContext, ConstantFolder>(vexpr, &mut ctx)
}

/// Folds the constant parts of the value expressions of a condition.
pub fn constant_fold_bexpr(b: &BExpr) -> (r: BExpr)
    ensures
        r@ == folded_bexpr(b@),
{
    let mut ctx = NoContext;
    proof {
        lemma_fold_visits_bexpr(b@);
    }
    visit_bexpr::<NoContext, ConstantFolder>(b, &mut ctx)
}

// ====================================================================
// The three passes together

/// The condition `b` of a contract of the function `fname` after the three
/// passes: type inference from an empty scope, replacement of global
/// variables by their addresses, constant folding.
pub open spec fn lowered_bexpr(dwarf: DwarfCtxView, fname: Seq<char>, b: BExprView) -> Result<
    BExprView,
    ErrorView,
> {
    match typed_bexpr(dwarf, fname, Seq::empty(), b) {
        Ok(x) => Ok(folded_bexpr(renamed_bexpr(dwarf, x.0))),
        Err(e) => Err(e),
    }
}

/// A clause after lowering: the condition of a pre- or postcondition is
/// lowered, other clauses stay as they are.
pub open spec fn lowered_spec(dwarf: DwarfCtxView, fname: Seq<char>, s: SpecView) -> Result<
    SpecView,
    ErrorView,
> {
    match s {
        SpecView::Requires(b) => match lowered_bexpr(dwarf, fname, b) {
            Ok(x) => Ok(SpecView::Requires(x)),
            Err(e) => Err(e),
        },
        SpecView::Ensures(b) => match lowered_bexpr(dwarf, fname, b) {
            Ok(x) => Ok(SpecView::Ensures(x)),
            Err(e) => Err(e),
        },
        _ => Ok(s),
    }
}

/// The clauses of `v` from index `i` on after lowering, or the error of
/// the first that has one.
pub open spec fn lowered_specs(dwarf: DwarfCtxView, fname: Seq<char>, v: Seq<SpecView>, i: nat) -> Result<
    Seq<SpecView>,
    ErrorView,
>
    decreases v.len() - i,
{
    if i >= v.len() {
        Ok(Seq::empty())
    } else {
        match lowered_spec(dwarf, fname, v[i as int]) {
            Ok(x) => after(seq![x], lowered_specs(dwarf, fname, v, i + 1)),
            Err(e) => Err(e),
        }
    }
}

/// The contracts of `v` from index `i` on after lowering, or the error of
/// the first clause that has one.
pub open spec fn lowered_func_specs(dwarf: DwarfCtxView, v: Seq<FuncSpecView>, i: nat) -> Result<
    Seq<FuncSpecView>,
    ErrorView,
>
    decreases v.len() - i,
{
    if i >= v.len() {
        Ok(Seq::empty())
    } else {
        match lowered_specs(dwarf, v[i as int].fname, v[i as int].specs, 0) {
            Ok(x) => after(
                seq![FuncSpecView { fname: v[i as int].fname, specs: x }],
                lowered_func_specs(dwarf, v, i + 1),
            ),
            Err(e) => Err(e),
        }
    }
}

/// The views of a sequence of contracts.
pub open spec fn func_spec_views(v: Seq<FuncSpec>) -> Seq<FuncSpecView> {
    Seq::new(v.len(), |i: int| v[i]@)
}

/// Runs the three passes over a condition of a contract of the function
/// `fname`.
pub fn sl_bexpr_rewrite_passes(bexpr: &BExpr, dwarf_ctx: &DwarfCtx, fname: &str) -> (r: Result<
    BExpr,
    Error,
>)
    ensures
        match lowered_bexpr(dwarf_ctx@, fname@, bexpr@) {
            Ok(x) => r is Ok && r->Ok_0@ == x,
            Err(e) => r is Err && r->Err_0@ == e,
        },
{
    let mut scope: Vec<VField> = Vec::new();
    assert(vfield_views(scope@) =~= Seq::<VFieldView>::empty());
    let typed = match infer_bexpr(bexpr, dwarf_ctx, fname, &mut scope) {
        Ok(x) => x,
        Err(e) => {
            return Err(e);
        },
    };
    let renamed = rename_globals_bexpr(&typed, dwarf_ctx);
    Ok(constant_fold_bexpr(&renamed))
}

/// Lowers one clause of a contract of the function `fname`.
pub fn lower_spec(spec: &Spec, dwarf_ctx: &DwarfCtx, fname: &str) -> (r: Result<Spec, Error>)
    ensures
        match lowered_spec(dwarf_ctx@, fname@, spec@) {
            Ok(x) => r is Ok && r->Ok_0@ == x,
            Err(e) => r is Err && r->Err_0@ == e,
        },
{
    match spec {
        Spec::Requires(b) => match sl_bexpr_rewrite_passes(b, dwarf_ctx, fname) {
            Ok(x) => Ok(Spec::Requires(x)),
            Err(e) => Err(e),
        },
        Spec::Ensures(b) => match sl_bexpr_rewrite_passes(b, dwarf_ctx, fname) {
            Ok(x) => Ok(Spec::Ensures(x)),
            Err(e) => Err(e),
        },
        _ => Ok(spec.clone()),
    }
}

/// Lowers the contracts of all functions: every pre- and postcondition
/// goes through the three passes, in the order in which they are given.
pub fn process_specs(fun_specs: &Vec<FuncSpec>, dwarf_ctx: &DwarfCtx) -> (r: Result<
    Vec<FuncSpec>,
    Error,
>)
    ensures
        match lowered_func_specs(dwarf_ctx@, func_spec_views(fun_specs@), 0) {
            Ok(x) => r is Ok && func_spec_views(r->Ok_0@) == x,
            Err(e) => r is Err && r->Err_0@ == e,
        },
{
    let ghost all = func_spec_views(fun_specs@);
    let mut ret: Vec<FuncSpec> = Vec::new();
    let mut k: usize = 0;
    assert(func_spec_views(ret@) =~= Seq::<FuncSpecView>::empty());
    while k < fun_specs.len()
        invariant
            k <= fun_specs.len(),
            ret@.len() == k,
            all == func_spec_views(fun_specs@),
            lowered_func_specs(dwarf_ctx@, all, 0) == after(
                func_spec_views(ret@),
                lowered_func_specs(dwarf_ctx@, all, k as nat),
            ),
        decreases fun_specs.len() - k,
    {
        let fun_spec = &fun_specs[k];
        let ghost fv = all[k as int];
        assert(fv == fun_spec@);
        let ghost sv = spec_views(fun_spec.specs@);
        let mut rw_specs: Vec<Spec> = Vec::new();
        let mut i: usize = 0;
        assert(spec_views(rw_specs@) =~= Seq::<SpecView>::empty());
        while i < fun_spec.specs.len()
            invariant
                i <= fun_spec.specs.len(),
                rw_specs@.len() == i,
                k < fun_specs.len(),
                all == func_spec_views(fun_specs@),
                fun_spec == &fun_specs@[k as int],
                fv == fun_spec@,
                fv == all[k as int],
                sv == spec_views(fun_spec.specs@),
                lowered_func_specs(dwarf_ctx@, all, 0) == after(
                    func_spec_views(ret@),
                    lowered_func_specs(dwarf_ctx@, all, k as nat),
                ),
                lowered_specs(dwarf_ctx@, fv.fname, sv, 0) == after(
                    spec_views(rw_specs@),
                    lowered_specs(dwarf_ctx@, fv.fname, sv, i as nat),
                ),
            decreases fun_spec.specs.len() - i,
        {
            let ghost before = spec_views(rw_specs@);
            assert(sv[i as int] == fun_spec.specs@[i as int]@);
            let x = match lower_spec(&fun_spec.specs[i], dwarf_ctx, fun_spec.fname.as_str()) {
                Ok(x) => x,
                Err(e) => {
                    return Err(e);
                },
            };
            rw_specs.push(x);
            proof {
                assert(spec_views(rw_specs@) =~= before + seq![x@]);
                let rest = lowered_specs(dwarf_ctx@, fv.fname, sv, (i + 1) as nat);
                if rest is Ok {
                    assert(before + (seq![x@] + rest->Ok_0) =~= (before + seq![x@]) + rest->Ok_0);
                }
            }
            i += 1;
        }
        proof {
            assert(spec_views(rw_specs@) + Seq::<SpecView>::empty() =~= spec_views(rw_specs@));
        }
        let ghost before = func_spec_views(ret@);
        let item = FuncSpec { fname: fun_spec.fname.clone(), specs: rw_specs };
        ret.push(item);
        proof {
            assert(func_spec_views(ret@) =~= before + seq![item@]);
            let rest = lowered_func_specs(dwarf_ctx@, all, (k + 1) as nat);
            if rest is Ok {
                assert(before + (seq![item@] + rest->Ok_0) =~= (before + seq![item@])
                    + rest->Ok_0);
            }
        }
        k += 1;
    }
    proof {
        assert(func_spec_views(ret@) + Seq::<FuncSpecView>::empty() =~= func_spec_views(ret@));
    }
    Ok(ret)
}


// ====================================================================
// Laws

/// Operands of which none mentions a global variable do not mention one
/// together.
proof fn lemma_operands_mention_none(dwarf: DwarfCtxView, e: VExprView, i: nat)
    requires
        forall|j: int| 0 <= j < vargs(e).len() ==> !mentions_global(dwarf, #[trigger] vargs(e)[j]),
    ensures
        !operand_mentions_global(dwarf, e, i),
    decreases vargs(e).len() - i,
{
    if i < vargs(e).len() {
        lemma_operands_mention_none(dwarf, e, i + 1);
    }
}

/// Once the global variables have been replaced by their addresses, no
/// identifier that is left in the expression names a global variable.
pub proof fn lemma_renamed_mentions_no_global(dwarf: DwarfCtxView, e: VExprView)
    ensures
        !mentions_global(dwarf, renamed(dwarf, e)),
    decreases e,
{
    let r = renamed(dwarf, e);
    match e {
        VExprView::OpApp(op, args, typ) => {
            assert forall|j: int| 0 <= j < vargs(r).len() implies !mentions_global(
                dwarf,
                #[trigger] vargs(r)[j],
            ) by {
                lemma_renamed_mentions_no_global(dwarf, args[j]);
            }
            lemma_operands_mention_none(dwarf, r, 0);
        },
        VExprView::FuncApp(name, args, typ) => {
            assert forall|j: int| 0 <= j < vargs(r).len() implies !mentions_global(
                dwarf,
                #[trigger] vargs(r)[j],
            ) by {
                lemma_renamed_mentions_no_global(dwarf, args[j]);
            }
            lemma_operands_mention_none(dwarf, r, 0);
        },
        _ => {},
    }
}

/// Whether a comparison inside the condition `b` has an operand that
/// mentions a global variable.
pub open spec fn bexpr_mentions_global(dwarf: DwarfCtxView, b: BExprView) -> bool
    decreases b, bargs(b).len() + 1,
{
    match b {
        BExprView::Bool(_) => false,
        BExprView::BOpApp(_, _) => part_mentions_global(dwarf, b, 0),
        BExprView::COpApp(_, args) => any_mentions_global(dwarf, args, 0),
    }
}

/// Whether an operand of the connective `b` from index `i` on mentions a
/// global variable.
pub open spec fn part_mentions_global(dwarf: DwarfCtxView, b: BExprView, i: nat) -> bool
    decreases b, bargs(b).len() - i,
{
    i < bargs(b).len() && (bexpr_mentions_global(dwarf, bargs(b)[i as int])
        || part_mentions_global(dwarf, b, i + 1))
}

/// Expressions of which none mentions a global variable do not mention one
/// together.
proof fn lemma_any_mention_none(dwarf: DwarfCtxView, v: Seq<VExprView>, i: nat)
    requires
        forall|j: int| 0 <= j < v.len() ==> !mentions_global(dwarf, #[trigger] v[j]),
    ensures
        !any_mentions_global(dwarf, v, i),
    decreases v.len() - i,
{
    if i < v.len() {
        lemma_any_mention_none(dwarf, v, i + 1);
    }
}

/// Conditions of which none mentions a global variable do not mention one
/// together.
proof fn lemma_parts_mention_none(dwarf: DwarfCtxView, b: BExprView, i: nat)
    requires
        forall|j: int|
            0 <= j < bargs(b).len() ==> !bexpr_mentions_global(dwarf, #[trigger] bargs(b)[j]),
    ensures
        !part_mentions_global(dwarf, b, i),
    decreases bargs(b).len() - i,
{
    if i < bargs(b).len() {
        lemma_parts_mention_none(dwarf, b, i + 1);
    }
}

/// Once the global variables have been replaced by their addresses, no
/// identifier that is left in an operand of a comparison of the condition
/// names a global variable.
pub proof fn lemma_renamed_bexpr_mentions_no_global(dwarf: DwarfCtxView, b: BExprView)
    ensures
        !bexpr_mentions_global(dwarf, renamed_bexpr(dwarf, b)),
    decreases b,
{
    let r = renamed_bexpr(dwarf, b);
    match b {
        BExprView::Bool(_) => {},
        BExprView::BOpApp(op, args) => {
            assert forall|j: int| 0 <= j < bargs(r).len() implies !bexpr_mentions_global(
                dwarf,
                #[trigger] bargs(r)[j],
            ) by {
                lemma_renamed_bexpr_mentions_no_global(dwarf, args[j]);
            }
            lemma_parts_mention_none(dwarf, r, 0);
        },
        BExprView::COpApp(op, args) => {
            let ra = r->COpApp_1;
            assert forall|j: int| 0 <= j < ra.len() implies !mentions_global(
                dwarf,
                #[trigger] ra[j],
            ) by {
                lemma_renamed_mentions_no_global(dwarf, args[j]);
            }
            lemma_any_mention_none(dwarf, ra, 0);
        },
    }
}

/// The value of a closed arithmetic expression: a literal stands for its
/// number, and an arithmetic operator applied to two such expressions for
/// the operator's value on theirs. `None` for every other expression.
pub open spec fn eval(e: VExprView) -> Option<u64>
    decreases e,
{
    match e {
        VExprView::OpApp(op, args, _) => if args.len() == 2 && eval(args[0]) is Some && eval(
            args[1],
        ) is Some {
            binop_value(op, eval(args[0])->0, eval(args[1])->0)
        } else {
            None
        },
        VExprView::Ident(_, _) => None,
        VExprView::FuncApp(_, _, _) => None,
        _ => e.lit_value(),
    }
}

/// Folding a closed arithmetic expression gives the literal of its value.
pub proof fn lemma_fold_evaluates(e: VExprView)
    requires
        eval(e) is Some,
    ensures
        folded(e).is_lit(),
        folded(e).lit_value() == eval(e),
    decreases e,
{
    match e {
        VExprView::OpApp(op, args, typ) => {
            lemma_fold_evaluates(args[0]);
            lemma_fold_evaluates(args[1]);
            let a = folded_args(e);
            assert(a.len() == 2);
            assert(a[0] == folded(args[0]));
            assert(a[1] == folded(args[1]));
        },
        _ => {},
    }
}

/// The type that folding gives to the literal of a closed arithmetic
/// expression is the type of its leftmost literal.
pub open spec fn leftmost_type(e: VExprView) -> VTypeView
    decreases e,
{
    match e {
        VExprView::OpApp(_, args, t) => if args.len() > 0 {
            leftmost_type(args[0])
        } else {
            t
        },
        _ => e.typ(),
    }
}

/// Folding a closed arithmetic expression gives a literal of the type of
/// the expression's leftmost literal.
pub proof fn lemma_fold_type(e: VExprView)
    requires
        eval(e) is Some,
    ensures
        folded(e).typ() == leftmost_type(e),
    decreases e,
{
    match e {
        VExprView::OpApp(op, args, typ) => {
            lemma_fold_evaluates(args[0]);
            lemma_fold_evaluates(args[1]);
            lemma_fold_type(args[0]);
            let a = folded_args(e);
            assert(a.len() == 2);
            assert(a[0] == folded(args[0]));
            assert(a[1] == folded(args[1]));
        },
        _ => {},
    }
}

} // verus!
