//! Type inference leaves its own results alone, unless it has to insert a
//! dereference.

use crate::dwarf::DwarfCtxView;
use crate::helpers::ErrorView;
use crate::sl_ast::{op_type, BExprView, VExprView, VFieldView, VTypeView, ValueOp};
use crate::spec_lowering::{
    bargs, dwarf_vtype, entered, is_field_pos, is_local, typed_bargs, typed_bexpr, typed_ident,
    typed_vargs, typed_vexpr, typed_vexprs, vargs,
};
use vstd::prelude::*;

verus! {

/// Whether an access by `op` to operands with the types of `a` is
/// dereferenced: it is an access to a field or to an element of an array,
/// of bit-vector type.
pub open spec fn dereferenced(op: ValueOp, a: Seq<VExprView>) -> bool {
    (op == ValueOp::GetField || op == ValueOp::ArrayIndex) && op_type(op, a) is Some && op_type(
        op,
        a,
    )->0 is Bv
}

/// Whether type inference inserts no dereference into `e`: no identifier
/// in it names a global variable of bit-vector type, and no access to a
/// field or to an element of an array in it is of bit-vector type.
pub open spec fn adds_no_deref(
    dwarf: DwarfCtxView,
    fname: Seq<char>,
    scope: Seq<VFieldView>,
    e: VExprView,
    field_pos: bool,
) -> bool
    decreases e, vargs(e).len() + 1,
{
    match e {
        VExprView::Ident(name, _) => is_local(dwarf, fname, scope, name) || !(dwarf.global(
            name,
        ) is Some && dwarf_vtype(dwarf.global(name)->0.typ_defn) is Bv),
        VExprView::OpApp(op, _, _) => args_add_no_deref(dwarf, fname, scope, e, 0)
            && match typed_vargs(dwarf, fname, scope, e, 0) {
            Ok(a) => !dereferenced(op, a),
            Err(_) => true,
        },
        VExprView::FuncApp(_, _, _) => args_add_no_deref(dwarf, fname, scope, e, 0),
        _ => true,
    }
}

/// Whether type inference inserts no dereference into the operands of `e`
/// from index `i` on.
pub open spec fn args_add_no_deref(
    dwarf: DwarfCtxView,
    fname: Seq<char>,
    scope: Seq<VFieldView>,
    e: VExprView,
    i: nat,
) -> bool
    decreases e, vargs(e).len() - i,
{
    i >= vargs(e).len() || (adds_no_deref(
        dwarf,
        fname,
        scope,
        vargs(e)[i as int],
        is_field_pos(e, i as int),
    ) && args_add_no_deref(dwarf, fname, scope, e, i + 1))
}

/// Whether type inference inserts no dereference into the expressions of
/// `v` from index `i` on.
pub open spec fn list_adds_no_deref(
    dwarf: DwarfCtxView,
    fname: Seq<char>,
    scope: Seq<VFieldView>,
    v: Seq<VExprView>,
    i: nat,
) -> bool
    decreases v.len() - i,
{
    i >= v.len() || (adds_no_deref(dwarf, fname, scope, v[i as int], false) && list_adds_no_deref(
        dwarf,
        fname,
        scope,
        v,
        i + 1,
    ))
}

/// Whether type inference inserts no dereference into the condition `b`,
/// when it starts with the bound variables of `scope`.
pub open spec fn bexpr_adds_no_deref(
    dwarf: DwarfCtxView,
    fname: Seq<char>,
    scope: Seq<VFieldView>,
    b: BExprView,
) -> bool
    decreases b, bargs(b).len() + 1,
{
    match b {
        BExprView::Bool(_) => true,
        BExprView::BOpApp(op, _) => match entered(scope, op) {
            Ok(inner) => parts_add_no_deref(dwarf, fname, inner, b, 0),
            Err(_) => true,
        },
        BExprView::COpApp(_, args) => list_adds_no_deref(dwarf, fname, scope, args, 0),
    }
}

/// Whether type inference inserts no dereference into the operands of `b`
/// from index `i` on, each in the scope that the one before it leaves.
pub open spec fn parts_add_no_deref(
    dwarf: DwarfCtxView,
    fname: Seq<char>,
    scope: Seq<VFieldView>,
    b: BExprView,
    i: nat,
) -> bool
    decreases b, bargs(b).len() - i,
{
    i >= bargs(b).len() || (bexpr_adds_no_deref(dwarf, fname, scope, bargs(b)[i as int])
        && match typed_bexpr(dwarf, fname, scope, bargs(b)[i as int]) {
        Ok(x) => parts_add_no_deref(dwarf, fname, x.1, b, i + 1),
        Err(_) => true,
    })
}

/// What the inference of the operands of `e` gives, operand by operand.
proof fn lemma_typed_vargs_each(
    dwarf: DwarfCtxView,
    fname: Seq<char>,
    scope: Seq<VFieldView>,
    e: VExprView,
    i: nat,
)
    requires
        typed_vargs(dwarf, fname, scope, e, i) is Ok,
        i <= vargs(e).len(),
    ensures
        typed_vargs(dwarf, fname, scope, e, i)->Ok_0.len() == vargs(e).len() - i,
        forall|j: int|
            0 <= j < vargs(e).len() - i ==> typed_vexpr(
                dwarf,
                fname,
                scope,
                #[trigger] vargs(e)[i + j],
                is_field_pos(e, i + j),
            ) == Ok::<VExprView, ErrorView>(typed_vargs(dwarf, fname, scope, e, i)->Ok_0[j]),
    decreases vargs(e).len() - i,
{
    if i < vargs(e).len() {
        let x = typed_vexpr(dwarf, fname, scope, vargs(e)[i as int], is_field_pos(e, i as int))->Ok_0;
        let rest = typed_vargs(dwarf, fname, scope, e, i + 1)->Ok_0;
        lemma_typed_vargs_each(dwarf, fname, scope, e, i + 1);
        let r = typed_vargs(dwarf, fname, scope, e, i)->Ok_0;
        assert(r == seq![x] + rest);
        assert forall|j: int| 0 <= j < vargs(e).len() - i implies typed_vexpr(
            dwarf,
            fname,
            scope,
            #[trigger] vargs(e)[i + j],
            is_field_pos(e, i + j),
        ) == Ok::<VExprView, ErrorView>(r[j]) by {
            if j > 0 {
                assert(r[j] == rest[j - 1]);
                assert(vargs(e)[i + j] == vargs(e)[(i + 1) + (j - 1)]);
            }
        }
    }
}

/// The inference of the operands of `p` gives `r`, where it gives `r`
/// operand by operand.
proof fn lemma_typed_vargs_from_each(
    dwarf: DwarfCtxView,
    fname: Seq<char>,
    scope: Seq<VFieldView>,
    p: VExprView,
    i: nat,
    r: Seq<VExprView>,
)
    requires
        i <= vargs(p).len(),
        r.len() == vargs(p).len() - i,
        forall|j: int|
            0 <= j < r.len() ==> typed_vexpr(
                dwarf,
                fname,
                scope,
                vargs(p)[i + j],
                is_field_pos(p, i + j),
            ) == Ok::<VExprView, ErrorView>(#[trigger] r[j]),
    ensures
        typed_vargs(dwarf, fname, scope, p, i) == Ok::<Seq<VExprView>, ErrorView>(r),
    decreases vargs(p).len() - i,
{
    if i < vargs(p).len() {
        let rest = r.drop_first();
        assert forall|j: int| 0 <= j < rest.len() implies typed_vexpr(
            dwarf,
            fname,
            scope,
            vargs(p)[(i + 1) + j],
            is_field_pos(p, (i + 1) + j),
        ) == Ok::<VExprView, ErrorView>(#[trigger] rest[j]) by {
            assert(rest[j] == r[j + 1]);
            assert(vargs(p)[(i + 1) + j] == vargs(p)[i + (j + 1)]);
        }
        lemma_typed_vargs_from_each(dwarf, fname, scope, p, i + 1, rest);
        assert(typed_vexpr(dwarf, fname, scope, vargs(p)[i as int + 0], is_field_pos(p, i as int + 0)) == Ok::<
            VExprView,
            ErrorView,
        >(r[0]));
        assert(seq![r[0]] + rest =~= r);
    } else {
        assert(r =~= Seq::<VExprView>::empty());
    }
}

/// Each operand from index `i` on gets no dereference, where the operands
/// from index `i` on get none.
proof fn lemma_args_add_no_deref_each(
    dwarf: DwarfCtxView,
    fname: Seq<char>,
    scope: Seq<VFieldView>,
    e: VExprView,
    i: nat,
)
    requires
        args_add_no_deref(dwarf, fname, scope, e, i),
    ensures
        forall|j: int|
            i <= j < vargs(e).len() ==> adds_no_deref(
                dwarf,
                fname,
                scope,
                #[trigger] vargs(e)[j],
                is_field_pos(e, j),
            ),
    decreases vargs(e).len() - i,
{
    if i < vargs(e).len() {
        lemma_args_add_no_deref_each(dwarf, fname, scope, e, i + 1);
    }
}

/// An identifier that inference has left an identifier is not changed by
/// inference again, whatever type it carries, but for that type.
proof fn lemma_ident_again(
    dwarf: DwarfCtxView,
    fname: Seq<char>,
    scope: Seq<VFieldView>,
    name: Seq<char>,
    t1: VTypeView,
    t2: VTypeView,
    field_pos: bool,
)
    requires
        typed_ident(dwarf, fname, scope, name, t1, field_pos) is Ok,
        typed_ident(dwarf, fname, scope, name, t1, field_pos)->Ok_0 is Ident,
    ensures
        typed_ident(dwarf, fname, scope, name, t2, field_pos) is Ok,
        typed_ident(dwarf, fname, scope, name, t2, field_pos)->Ok_0 is Ident,
        typed_ident(dwarf, fname, scope, name, t2, field_pos)->Ok_0->Ident_0 == name,
        typed_ident(dwarf, fname, scope, name, t1, field_pos)->Ok_0->Ident_0 == name,
{
}

/// Type inference does not change an expression that it has given its
/// types, provided that it inserted no dereference into it.
pub proof fn lemma_inference_is_idempotent(
    dwarf: DwarfCtxView,
    fname: Seq<char>,
    scope: Seq<VFieldView>,
    e: VExprView,
    field_pos: bool,
)
    requires
        typed_vexpr(dwarf, fname, scope, e, field_pos) is Ok,
        adds_no_deref(dwarf, fname, scope, e, field_pos),
    ensures
        typed_vexpr(
            dwarf,
            fname,
            scope,
            typed_vexpr(dwarf, fname, scope, e, field_pos)->Ok_0,
            field_pos,
        ) == typed_vexpr(dwarf, fname, scope, e, field_pos),
    decreases e,
{
    let y = typed_vexpr(dwarf, fname, scope, e, field_pos)->Ok_0;
    match e {
        VExprView::Ident(name, typ) => {},
        VExprView::OpApp(op, args, typ) => {
            let a = typed_vargs(dwarf, fname, scope, e, 0)->Ok_0;
            lemma_typed_vargs_each(dwarf, fname, scope, e, 0);
            lemma_args_add_no_deref_each(dwarf, fname, scope, e, 0);
            assert forall|j: int| 0 <= j < a.len() implies typed_vexpr(
                dwarf,
                fname,
                scope,
                #[trigger] a[j],
                is_field_pos(e, j),
            ) == Ok::<VExprView, ErrorView>(a[j]) by {
                assert(vargs(e)[0 + j] == args[j]);
                lemma_inference_is_idempotent(dwarf, fname, scope, args[j], is_field_pos(e, j));
            }
            let t = op_type(op, a)->0;
            if op == ValueOp::GetField {
                let n1 = a[1]->Ident_0;
                let t1 = a[1]->Ident_1;
                assert(y == VExprView::OpApp(
                    ValueOp::GetField,
                    seq![a[0], VExprView::Ident(n1, t)],
                    t,
                ));
                assert(is_field_pos(e, 1));
                assert(typed_vexpr(dwarf, fname, scope, a[1], true) == Ok::<VExprView, ErrorView>(
                    a[1],
                ));
                lemma_ident_again(dwarf, fname, scope, n1, t1, t, true);
                let x = typed_ident(dwarf, fname, scope, n1, t, true)->Ok_0;
                let a2 = seq![a[0], x];
                assert(vargs(y) =~= seq![a[0], VExprView::Ident(n1, t)]);
                assert forall|j: int| 0 <= j < a2.len() implies typed_vexpr(
                    dwarf,
                    fname,
                    scope,
                    vargs(y)[0 + j],
                    is_field_pos(y, 0 + j),
                ) == Ok::<VExprView, ErrorView>(#[trigger] a2[j]) by {
                    if j == 0 {
                        assert(!is_field_pos(e, 0));
                    }
                }
                lemma_typed_vargs_from_each(dwarf, fname, scope, y, 0, a2);
                assert(op_type(ValueOp::GetField, a2) == op_type(ValueOp::GetField, a));
                assert(seq![a2[0], VExprView::Ident(a2[1]->Ident_0, t)] =~= seq![
                    a[0],
                    VExprView::Ident(n1, t),
                ]);
            } else {
                assert(y == VExprView::OpApp(op, a, t));
                assert(vargs(y) == a);
                assert forall|j: int| 0 <= j < a.len() implies typed_vexpr(
                    dwarf,
                    fname,
                    scope,
                    vargs(y)[0 + j],
                    is_field_pos(y, 0 + j),
                ) == Ok::<VExprView, ErrorView>(#[trigger] a[j]) by {
                    assert(is_field_pos(y, j) == is_field_pos(e, j));
                }
                lemma_typed_vargs_from_each(dwarf, fname, scope, y, 0, a);
            }
        },
        VExprView::FuncApp(name, args, typ) => {
            let a = typed_vargs(dwarf, fname, scope, e, 0)->Ok_0;
            lemma_typed_vargs_each(dwarf, fname, scope, e, 0);
            lemma_args_add_no_deref_each(dwarf, fname, scope, e, 0);
            assert forall|j: int| 0 <= j < a.len() implies typed_vexpr(
                dwarf,
                fname,
                scope,
                vargs(y)[0 + j],
                is_field_pos(y, 0 + j),
            ) == Ok::<VExprView, ErrorView>(#[trigger] a[j]) by {
                assert(vargs(e)[0 + j] == args[j]);
                lemma_inference_is_idempotent(dwarf, fname, scope, args[j], false);
            }
            lemma_typed_vargs_from_each(dwarf, fname, scope, y, 0, a);
        },
        _ => {},
    }
}

/// Type inference does not change a list of expressions that it has given
/// their types, provided that it inserted no dereference into them.
proof fn lemma_list_inference_is_idempotent(
    dwarf: DwarfCtxView,
    fname: Seq<char>,
    scope: Seq<VFieldView>,
    v: Seq<VExprView>,
    w: Seq<VExprView>,
    i: nat,
)
    requires
        typed_vexprs(dwarf, fname, scope, v, i) is Ok,
        list_adds_no_deref(dwarf, fname, scope, v, i),
        w.len() == v.len(),
        i <= v.len(),
        w.skip(i as int) == typed_vexprs(dwarf, fname, scope, v, i)->Ok_0,
    ensures
        typed_vexprs(dwarf, fname, scope, w, i) == typed_vexprs(dwarf, fname, scope, v, i),
    decreases v.len() - i,
{
    if i < v.len() {
        let x = typed_vexpr(dwarf, fname, scope, v[i as int], false)->Ok_0;
        let rest = typed_vexprs(dwarf, fname, scope, v, i + 1)->Ok_0;
        let r = typed_vexprs(dwarf, fname, scope, v, i)->Ok_0;
        assert(r == seq![x] + rest);
        assert(w.skip(i as int)[0] == w[i as int]);
        assert(w[i as int] == x);
        assert(w.skip(i as int + 1) =~= rest) by {
            assert forall|j: int| 0 <= j < rest.len() implies w.skip(i as int + 1)[j] == rest[j] by {
                assert(w.skip(i as int)[j + 1] == w[i + 1 + j]);
                assert(r[j + 1] == rest[j]);
            }
        }
        lemma_inference_is_idempotent(dwarf, fname, scope, v[i as int], false);
        lemma_list_inference_is_idempotent(dwarf, fname, scope, v, w, i + 1);
    }
}

/// Type inference does not change the operands of a connective that it has
/// given their types, provided that it inserted no dereference into them.
proof fn lemma_parts_inference_is_idempotent(
    dwarf: DwarfCtxView,
    fname: Seq<char>,
    scope: Seq<VFieldView>,
    b: BExprView,
    y: BExprView,
    i: nat,
)
    requires
        typed_bargs(dwarf, fname, scope, b, i) is Ok,
        parts_add_no_deref(dwarf, fname, scope, b, i),
        bargs(y).len() == bargs(b).len(),
        i <= bargs(b).len(),
        bargs(y).skip(i as int) == typed_bargs(dwarf, fname, scope, b, i)->Ok_0.0,
    ensures
        typed_bargs(dwarf, fname, scope, y, i) == typed_bargs(dwarf, fname, scope, b, i),
    decreases b, bargs(b).len() - i,
{
    if i < bargs(b).len() {
        let x = typed_bexpr(dwarf, fname, scope, bargs(b)[i as int])->Ok_0;
        let rest = typed_bargs(dwarf, fname, x.1, b, i + 1)->Ok_0;
        let r = typed_bargs(dwarf, fname, scope, b, i)->Ok_0;
        assert(r.0 == seq![x.0] + rest.0);
        assert(bargs(y).skip(i as int)[0] == bargs(y)[i as int]);
        assert(bargs(y)[i as int] == x.0);
        assert(bargs(y).skip(i as int + 1) =~= rest.0) by {
            assert forall|j: int| 0 <= j < rest.0.len() implies bargs(y).skip(i as int + 1)[j]
                == rest.0[j] by {
                assert(bargs(y).skip(i as int)[j + 1] == bargs(y)[i + 1 + j]);
                assert(r.0[j + 1] == rest.0[j]);
            }
        }
        lemma_condition_inference_is_idempotent(dwarf, fname, scope, bargs(b)[i as int]);
        lemma_parts_inference_is_idempotent(dwarf, fname, x.1, b, y, i + 1);
    }
}

/// Running type inference a second time on a condition gives the
/// condition of the first time, and leaves the same bound variables in
/// scope, provided that the first time inserted no dereference.
pub proof fn lemma_condition_inference_is_idempotent(
    dwarf: DwarfCtxView,
    fname: Seq<char>,
    scope: Seq<VFieldView>,
    b: BExprView,
)
    requires
        typed_bexpr(dwarf, fname, scope, b) is Ok,
        bexpr_adds_no_deref(dwarf, fname, scope, b),
    ensures
        typed_bexpr(dwarf, fname, scope, typed_bexpr(dwarf, fname, scope, b)->Ok_0.0)
            == typed_bexpr(dwarf, fname, scope, b),
    decreases b, bargs(b).len() + 1,
{
    let y = typed_bexpr(dwarf, fname, scope, b)->Ok_0.0;
    match b {
        BExprView::Bool(_) => {},
        BExprView::BOpApp(op, args) => {
            let inner = entered(scope, op)->Ok_0;
            let r = typed_bargs(dwarf, fname, inner, b, 0)->Ok_0;
            assert(y == BExprView::BOpApp(op, r.0));
            lemma_typed_bargs_len(dwarf, fname, inner, b, 0);
            assert(bargs(y).skip(0) =~= r.0);
            lemma_parts_inference_is_idempotent(dwarf, fname, inner, b, y, 0);
        },
        BExprView::COpApp(op, args) => {
            let a = typed_vexprs(dwarf, fname, scope, args, 0)->Ok_0;
            lemma_typed_vexprs_len(dwarf, fname, scope, args, 0);
            assert(a.skip(0) =~= a);
            lemma_list_inference_is_idempotent(dwarf, fname, scope, args, a, 0);
        },
    }
}

/// Inference gives as many expressions as it is given.
proof fn lemma_typed_vexprs_len(
    dwarf: DwarfCtxView,
    fname: Seq<char>,
    scope: Seq<VFieldView>,
    v: Seq<VExprView>,
    i: nat,
)
    requires
        typed_vexprs(dwarf, fname, scope, v, i) is Ok,
        i <= v.len(),
    ensures
        typed_vexprs(dwarf, fname, scope, v, i)->Ok_0.len() == v.len() - i,
    decreases v.len() - i,
{
    if i < v.len() {
        lemma_typed_vexprs_len(dwarf, fname, scope, v, i + 1);
    }
}

/// Inference gives as many conditions as it is given.
proof fn lemma_typed_bargs_len(
    dwarf: DwarfCtxView,
    fname: Seq<char>,
    scope: Seq<VFieldView>,
    b: BExprView,
    i: nat,
)
    requires
        typed_bargs(dwarf, fname, scope, b, i) is Ok,
        i <= bargs(b).len(),
    ensures
        typed_bargs(dwarf, fname, scope, b, i)->Ok_0.0.len() == bargs(b).len() - i,
    decreases bargs(b).len() - i,
{
    if i < bargs(b).len() {
        let x = typed_bexpr(dwarf, fname, scope, bargs(b)[i as int])->Ok_0;
        lemma_typed_bargs_len(dwarf, fname, x.1, b, i + 1);
    }
}

} // verus!
