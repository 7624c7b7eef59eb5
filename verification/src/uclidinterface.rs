//! The UCLID5 backend: renders a model as the text of a UCLID5 module.

use crate::helpers::{indent_text, indented};
use crate::propagation::{block_stmts, operands};
use crate::text::{
    dec_digits, i64_to_dec, join, join_strings, replace_char, replace_each, signed_dec_digits,
    str_chars, str_eq, u64_to_dec, views,
};
use crate::veriv_ast::{
    expr_views, stmt_views, Assign, AssignView, BVOp, BoolOp, CompOp, Expr, ExprView, FuncApp,
    FuncCall, FuncCallView, IfThenElse, Literal, Op, OpApp, OpView, Stmt, StmtView, Type, TypeView,
    Var,
};
use vstd::prelude::*;

verus! {

/// The UCLID5 backend.
#[derive(Debug)]
pub struct Uclid5Interface;

// ============================================================================
// Literals and types

/// The number of 64 bits read as a signed number.
pub open spec fn as_signed(v: u64) -> int {
    if v < 0x8000_0000_0000_0000 {
        v as int
    } else {
        v - 0x1_0000_0000_0000_0000
    }
}

/// The text of a literal: a bit-vector as its value, read as a signed
/// number, `bv` and its width; a boolean as `true` or `false`; an integer
/// as its value.
pub open spec fn lit_text(lit: Literal) -> Seq<char> {
    match lit {
        Literal::Bv { val, width } => signed_dec_digits(as_signed(val)) + "bv"@ + dec_digits(
            width as nat,
        ),
        Literal::Bool { val } => if val {
            "true"@
        } else {
            "false"@
        },
        Literal::Int { val } => dec_digits(val as nat),
    }
}

/// The index types of an array type; none for other types.
pub open spec fn index_types(t: TypeView) -> Seq<TypeView> {
    match t {
        TypeView::Array { in_typs, out_typ } => in_typs,
        _ => Seq::empty(),
    }
}

/// Whether a type can be written: it is not unknown and not a struct, and
/// so are the parts of an array type.
pub open spec fn printable(t: TypeView) -> bool
    decreases t, index_types(t).len() + 1,
{
    match t {
        TypeView::Unknown => false,
        TypeView::Struct { .. } => false,
        TypeView::Array { in_typs, out_typ } => printable(*out_typ) && printable_from(t, 0),
        _ => true,
    }
}

/// Whether the index types of `t` from index `i` on can be written.
pub open spec fn printable_from(t: TypeView, i: nat) -> bool
    decreases t, index_types(t).len() - i,
{
    i >= index_types(t).len() || (printable(index_types(t)[i as int]) && printable_from(t, i + 1))
}

/// The texts of the index types of an array type.
pub open spec fn typ_texts(t: TypeView) -> Seq<Seq<char>>
    decreases t, 0int,
{
    Seq::new(
        index_types(t).len(),
        |i: int|
            if 0 <= i < index_types(t).len() {
                typ_text(index_types(t)[i])
            } else {
                arbitrary()
            },
    )
}

/// The text of a type: `boolean`, `integer`, `bv` and the width, or, for
/// an array, the index types in brackets before the element type.
pub open spec fn typ_text(t: TypeView) -> Seq<char>
    decreases t, 1int,
{
    match t {
        TypeView::Bool => "boolean"@,
        TypeView::Int => "integer"@,
        TypeView::Bv { w } => "bv"@ + dec_digits(w as nat),
        TypeView::Array { in_typs, out_typ } => "["@ + join(typ_texts(t), ", "@) + "]"@ + typ_text(
            *out_typ,
        ),
        _ => Seq::empty(),
    }
}

/// The number that 64 bits stand for when read as an `i64`.
pub fn to_signed(v: u64) -> (r: i64)
    ensures
        r == as_signed(v),
{
    if v < 0x8000_0000_0000_0000 {
        v as i64
    } else {
        let d: u64 = u64::MAX - v;
        -(d as i64) - 1
    }
}

impl Uclid5Interface {
    /// The text of a literal.
    pub fn lit_to_string(lit: &Literal) -> (r: String)
        ensures
            r@ == lit_text(*lit),
    {
        match lit {
            Literal::Bv { val, width } => {
                let mut s = i64_to_dec(to_signed(*val));
                s.append("bv");
                s.append(u64_to_dec(*width).as_str());
                s
            },
            Literal::Bool { val } => if *val {
                String::from_str("true")
            } else {
                String::from_str("false")
            },
            Literal::Int { val } => u64_to_dec(*val),
        }
    }

    /// Whether a type can be written.
    pub fn typ_is_printable(typ: &Type) -> (r: bool)
        ensures
            r == printable(typ@),
        decreases typ,
    {
        match typ {
            Type::Unknown => false,
            Type::Struct { id: _, fields: _, w: _ } => false,
            Type::Array { in_typs, out_typ } => {
                proof {
                    Type::lemma_view_array(*in_typs, *out_typ);
                }
                if !Self::typ_is_printable(out_typ) {
                    return false;
                }
                let ghost tv = typ@;
                let mut i: usize = 0;
                while i < in_typs.len()
                    invariant
                        i <= in_typs.len(),
                        tv == typ@,
                        index_types(tv) == crate::veriv_ast::boxed_type_views(in_typs@),
                        printable_from(tv, 0) == printable_from(tv, i as nat),
                        decreases_to!(typ => in_typs),
                    decreases in_typs.len() - i,
                {
                    assert(index_types(tv)[i as int] == (*in_typs@[i as int])@);
                    if !Self::typ_is_printable(&in_typs[i]) {
                        return false;
                    }
                    i += 1;
                }
                true
            },
            _ => true,
        }
    }

    /// The text of a type that can be written.
    pub fn typ_to_string(typ: &Type) -> (r: String)
        requires
            printable(typ@),
        ensures
            r@ == typ_text(typ@),
        decreases typ,
    {
        match typ {
            Type::Bool => String::from_str("boolean"),
            Type::Int => String::from_str("integer"),
            Type::Bv { w } => {
                let mut s = String::from_str("bv");
                s.append(u64_to_dec(*w).as_str());
                s
            },
            Type::Array { in_typs, out_typ } => {
                proof {
                    Type::lemma_view_array(*in_typs, *out_typ);
                }
                let ghost tv = typ@;
                let mut parts: Vec<String> = Vec::new();
                let mut i: usize = 0;
                while i < in_typs.len()
                    invariant
                        i <= in_typs.len(),
                        parts@.len() == i,
                        tv == typ@,
                        index_types(tv) == crate::veriv_ast::boxed_type_views(in_typs@),
                        printable_from(tv, i as nat),
                        forall|j: int| 0 <= j < i ==> parts@[j]@ == typ_text(index_types(tv)[j]),
                        decreases_to!(typ => in_typs),
                    decreases in_typs.len() - i,
                {
                    assert(index_types(tv)[i as int] == (*in_typs@[i as int])@);
                    let t = Self::typ_to_string(&in_typs[i]);
                    parts.push(t);
                    i += 1;
                }
                assert(views(parts@) =~= typ_texts(tv));
                let mut s = String::from_str("[");
                s.append(join_strings(&parts, ", ").as_str());
                s.append("]");
                s.append(Self::typ_to_string(out_typ).as_str());
                s
            },
            _ => String::new(),
        }
    }
}


// ============================================================================
// Expressions

/// The number of operands that the text of an application of `op` names.
pub open spec fn op_arity(op: OpView) -> nat {
    match op {
        OpView::Comp(_) => 2,
        OpView::Bv(b) => match b {
            BVOp::Slice { .. } => 1,
            _ => 2,
        },
        OpView::Bool(b) => if b == BoolOp::Neg {
            1
        } else {
            2
        },
        OpView::ArrayIndex => 2,
        OpView::GetField(_) => 1,
    }
}

/// Whether an expression can be written: each operator in it has the
/// operands that its text names.
pub open spec fn renderable(e: ExprView) -> bool
    decreases e, operands(e).len() + 1,
{
    match e {
        ExprView::OpApp(op, args, _) => args.len() >= op_arity(op) && renderable_from(e, 0),
        ExprView::FuncApp(_, _, _) => renderable_from(e, 0),
        _ => true,
    }
}

/// Whether the operands of `e` from index `i` on can be written.
pub open spec fn renderable_from(e: ExprView, i: nat) -> bool
    decreases e, operands(e).len() - i,
{
    i >= operands(e).len() || (renderable(operands(e)[i as int]) && renderable_from(e, i + 1))
}

/// Whether the expressions of `v` from index `i` on can be written.
pub open spec fn all_renderable(v: Seq<ExprView>, i: nat) -> bool
    decreases v.len() - i,
{
    i >= v.len() || (renderable(v[i as int]) && all_renderable(v, i + 1))
}

/// The symbol of a comparison operator.
pub open spec fn comp_symbol(op: CompOp) -> Seq<char> {
    match op {
        CompOp::Equality => "=="@,
        CompOp::Inequality => "!="@,
        CompOp::Lt => "<"@,
        CompOp::Le => "<="@,
        CompOp::Gt => ">"@,
        CompOp::Ge => ">="@,
        CompOp::Ltu => "<_u"@,
        CompOp::Leu => "<=_u"@,
        CompOp::Gtu => ">_u"@,
        CompOp::Geu => ">=_u"@,
    }
}

/// The text of a comparison of `a` and `b`.
pub open spec fn comp_text(op: CompOp, a: Seq<char>, b: Seq<char>) -> Seq<char> {
    "("@ + a + " "@ + comp_symbol(op) + " "@ + b + ")"@
}

/// The part of `s` before its first `bv`; all of `s` where it has none.
pub open spec fn before_bv(s: Seq<char>) -> Seq<char>
    decreases s.len(),
{
    if s.len() < 2 {
        s
    } else if s[0] == 'b' && s[1] == 'v' {
        Seq::empty()
    } else {
        seq![s[0]] + before_bv(s.drop_first())
    }
}

/// The text of an extension of `a` by the width written in `b`: the
/// function `f` applied to the width and `a`, and `a` alone where the
/// width is zero.
pub open spec fn extend_text(f: Seq<char>, a: Seq<char>, b: Seq<char>) -> Seq<char> {
    if before_bv(b) != "0"@ {
        f + "("@ + before_bv(b) + ", "@ + a + ")"@
    } else {
        a
    }
}

/// The text of a bit-vector operator on `a` and `b`.
pub open spec fn bv_text(op: BVOp, a: Seq<char>, b: Seq<char>) -> Seq<char> {
    match op {
        BVOp::Add => "("@ + a + " + "@ + b + ")"@,
        BVOp::Sub => "("@ + a + " - "@ + b + ")"@,
        BVOp::Mul => "("@ + a + " * "@ + b + ")"@,
        BVOp::And => "("@ + a + " & "@ + b + ")"@,
        BVOp::Or => "("@ + a + " | "@ + b + ")"@,
        BVOp::Xor => "("@ + a + " ^ "@ + b + ")"@,
        BVOp::SignExt => extend_text("bv_sign_extend"@, a, b),
        BVOp::ZeroExt => extend_text("bv_zero_extend"@, a, b),
        BVOp::LeftShift => "bv_left_shift("@ + b + ", "@ + a + ")"@,
        BVOp::RightShift => "bv_l_right_shift("@ + b + ", "@ + a + ")"@,
        BVOp::ARightShift => "bv_a_right_shift("@ + b + ", "@ + a + ")"@,
        BVOp::Concat => "("@ + a + " ++ "@ + b + ")"@,
        BVOp::Slice { l, r } => a + "["@ + dec_digits(l as nat) + ":"@ + dec_digits(r as nat)
            + "]"@,
    }
}

/// The text of a connective on `a` and `b`.
pub open spec fn bool_text(op: BoolOp, a: Seq<char>, b: Seq<char>) -> Seq<char> {
    match op {
        BoolOp::Conj => "("@ + a + " && "@ + b + ")"@,
        BoolOp::Disj => "("@ + a + " || "@ + b + ")"@,
        BoolOp::Iff => "("@ + a + " <==> "@ + b + ")"@,
        BoolOp::Impl => "("@ + a + " ==> "@ + b + ")"@,
        BoolOp::Neg => "!"@ + a,
    }
}

/// The text at index `i` of `t`, or the empty text where there is none.
pub open spec fn text_at(t: Seq<Seq<char>>, i: int) -> Seq<char> {
    if 0 <= i < t.len() {
        t[i]
    } else {
        Seq::empty()
    }
}

/// The text of the application of `op` to operands with the texts `t`.
pub open spec fn opapp_text(op: OpView, t: Seq<Seq<char>>) -> Seq<char> {
    match op {
        OpView::Comp(c) => comp_text(c, text_at(t, 0), text_at(t, 1)),
        OpView::Bv(b) => bv_text(b, text_at(t, 0), text_at(t, 1)),
        OpView::Bool(b) => bool_text(b, text_at(t, 0), text_at(t, 1)),
        OpView::ArrayIndex => text_at(t, 0) + "["@ + text_at(t, 1) + "]"@,
        OpView::GetField(f) => text_at(t, 0) + "."@ + f,
    }
}

/// The text of an expression.
pub open spec fn expr_text(e: ExprView) -> Seq<char>
    decreases e, 1int,
{
    match e {
        ExprView::Literal(l, _) => lit_text(l),
        ExprView::Var(v, _) => v.name,
        ExprView::OpApp(op, _, _) => opapp_text(op, operand_texts(e)),
        ExprView::FuncApp(name, _, _) => name + "("@ + join(operand_texts(e), ", "@) + ")"@,
    }
}

/// The texts of the operands of `e`.
pub open spec fn operand_texts(e: ExprView) -> Seq<Seq<char>>
    decreases e, 0int,
{
    Seq::new(
        operands(e).len(),
        |i: int|
            if 0 <= i < operands(e).len() {
                expr_text(operands(e)[i])
            } else {
                arbitrary()
            },
    )
}

/// The texts of the expressions of `v`.
pub open spec fn expr_texts(v: Seq<ExprView>) -> Seq<Seq<char>> {
    Seq::new(v.len(), |i: int| expr_text(v[i]))
}

impl Uclid5Interface {
    /// The symbol of a comparison operator.
    pub fn comp_op_symbol(compop: &CompOp) -> (r: &'static str)
        ensures
            r@ == comp_symbol(*compop),
    {
        match compop {
            CompOp::Equality => "==",
            CompOp::Inequality => "!=",
            CompOp::Lt => "<",
            CompOp::Le => "<=",
            CompOp::Gt => ">",
            CompOp::Ge => ">=",
            CompOp::Ltu => "<_u",
            CompOp::Leu => "<=_u",
            CompOp::Gtu => ">_u",
            CompOp::Geu => ">=_u",
        }
    }

    /// The text of a comparison of `e1` and `e2`.
    pub fn comp_app_to_string(compop: &CompOp, e1: Option<String>, e2: Option<String>) -> (r:
        String)
        requires
            e1 is Some,
            e2 is Some,
        ensures
            r@ == comp_text(*compop, e1->0@, e2->0@),
    {
        let a = e1.unwrap();
        let b = e2.unwrap();
        let mut s = String::from_str("(");
        s.append(a.as_str());
        s.append(" ");
        s.append(Self::comp_op_symbol(compop));
        s.append(" ");
        s.append(b.as_str());
        s.append(")");
        s
    }

    /// `open`, `a`, `mid`, `b` and `close` in a row.
    fn wrap(open: &str, a: &str, mid: &str, b: &str, close: &str) -> (r: String)
        ensures
            r@ == open@ + a@ + mid@ + b@ + close@,
    {
        let mut s = String::from_str(open);
        s.append(a);
        s.append(mid);
        s.append(b);
        s.append(close);
        s
    }

    /// The part of a text before its first `bv`.
    fn prefix_before_bv(text: &str) -> (r: String)
        ensures
            r@ == before_bv(text@),
    {
        let cs = str_chars(text);
        let mut out = String::new();
        let mut i: usize = 0;
        assert(cs@.skip(0) =~= cs@);
        assert(out@ + before_bv(cs@) =~= before_bv(cs@));
        while i < cs.len()
            invariant
                i <= cs.len(),
                cs@ == text@,
                before_bv(cs@) == out@ + before_bv(cs@.skip(i as int)),
            decreases cs.len() - i,
        {
            let ghost rest = cs@.skip(i as int);
            assert(rest[0] == cs@[i as int]);
            if i + 1 < cs.len() {
                assert(rest[1] == cs@[i + 1]);
                if cs[i] == 'b' && cs[i + 1] == 'v' {
                    assert(out@ + Seq::<char>::empty() =~= out@);
                    return out;
                }
                assert(rest.drop_first() =~= cs@.skip(i + 1));
                let ghost before = out@;
                crate::text::push_char(&mut out, cs[i]);
                assert(before + (seq![cs@[i as int]] + before_bv(cs@.skip(i + 1))) =~= out@
                    + before_bv(cs@.skip(i + 1)));
            } else {
                assert(rest.len() == 1);
                assert(before_bv(rest) == rest);
                let ghost before = out@;
                crate::text::push_char(&mut out, cs[i]);
                assert(cs@.skip(i + 1).len() == 0);
                assert(before + rest =~= out@ + before_bv(cs@.skip(i + 1)));
            }
            i += 1;
        }
        assert(out@ + before_bv(cs@.skip(cs.len() as int)) =~= out@);
        out
    }

    /// The text of an extension of `a` by the width written in `b`.
    fn extend_to_string(f: &str, a: &str, b: &str) -> (r: String)
        ensures
            r@ == extend_text(f@, a@, b@),
    {
        let width = Self::prefix_before_bv(b);
        if !str_eq(width.as_str(), "0") {
            let mut s = String::from_str(f);
            s.append("(");
            s.append(width.as_str());
            s.append(", ");
            s.append(a);
            s.append(")");
            s
        } else {
            String::from_str(a)
        }
    }

    /// The text of a bit-vector operator on `e1` and `e2`.
    pub fn bv_app_to_string(bvop: &BVOp, e1: Option<String>, e2: Option<String>) -> (r: String)
        requires
            e1 is Some,
            (bvop is Slice) || e2 is Some,
        ensures
            r@ == bv_text(
                *bvop,
                e1->0@,
                match e2 {
                    Some(b) => b@,
                    None => Seq::empty(),
                },
            ),
    {
        let a = e1.unwrap();
        let b = match e2 {
            Some(b) => b,
            None => String::new(),
        };
        match bvop {
            BVOp::Add => Self::wrap("(", a.as_str(), " + ", b.as_str(), ")"),
            BVOp::Sub => Self::wrap("(", a.as_str(), " - ", b.as_str(), ")"),
            BVOp::Mul => Self::wrap("(", a.as_str(), " * ", b.as_str(), ")"),
            BVOp::And => Self::wrap("(", a.as_str(), " & ", b.as_str(), ")"),
            BVOp::Or => Self::wrap("(", a.as_str(), " | ", b.as_str(), ")"),
            BVOp::Xor => Self::wrap("(", a.as_str(), " ^ ", b.as_str(), ")"),
            BVOp::SignExt => Self::extend_to_string("bv_sign_extend", a.as_str(), b.as_str()),
            BVOp::ZeroExt => Self::extend_to_string("bv_zero_extend", a.as_str(), b.as_str()),
            BVOp::LeftShift => Self::wrap("bv_left_shift(", b.as_str(), ", ", a.as_str(), ")"),
            BVOp::RightShift => Self::wrap("bv_l_right_shift(", b.as_str(), ", ", a.as_str(), ")"),
            BVOp::ARightShift => Self::wrap(
                "bv_a_right_shift(",
                b.as_str(),
                ", ",
                a.as_str(),
                ")",
            ),
            BVOp::Concat => Self::wrap("(", a.as_str(), " ++ ", b.as_str(), ")"),
            BVOp::Slice { l, r } => {
                let mut s = a;
                s.append("[");
                s.append(u64_to_dec(*l).as_str());
                s.append(":");
                s.append(u64_to_dec(*r).as_str());
                s.append("]");
                s
            },
        }
    }

    /// The text of a connective on `e1` and `e2`.
    pub fn bool_app_to_string(bop: &BoolOp, e1: Option<String>, e2: Option<String>) -> (r: String)
        requires
            e1 is Some,
            (bop is Neg) || e2 is Some,
        ensures
            r@ == bool_text(
                *bop,
                e1->0@,
                match e2 {
                    Some(b) => b@,
                    None => Seq::empty(),
                },
            ),
    {
        let a = e1.unwrap();
        let b = match e2 {
            Some(b) => b,
            None => String::new(),
        };
        match bop {
            BoolOp::Conj => Self::wrap("(", a.as_str(), " && ", b.as_str(), ")"),
            BoolOp::Disj => Self::wrap("(", a.as_str(), " || ", b.as_str(), ")"),
            BoolOp::Iff => Self::wrap("(", a.as_str(), " <==> ", b.as_str(), ")"),
            BoolOp::Impl => Self::wrap("(", a.as_str(), " ==> ", b.as_str(), ")"),
            BoolOp::Neg => {
                let mut s = String::from_str("!");
                s.append(a.as_str());
                s
            },
        }
    }

    /// The text of a variable: its name.
    pub fn var_to_string(var: &Var) -> (r: String)
        ensures
            r@ == var@.name,
    {
        var.name.clone()
    }

    /// The text of the element `e2` of the array `e1`.
    pub fn array_index_to_string(e1: String, e2: String) -> (r: String)
        ensures
            r@ == e1@ + "["@ + e2@ + "]"@,
    {
        let mut s = e1;
        s.append("[");
        s.append(e2.as_str());
        s.append("]");
        s
    }

    /// The text of the field `field` of `e1`.
    pub fn get_field_to_string(e1: String, field: String) -> (r: String)
        ensures
            r@ == e1@ + "."@ + field@,
    {
        let mut s = e1;
        s.append(".");
        s.append(field.as_str());
        s
    }

    /// The texts of the operands of an application.
    fn operands_to_strings(parent: &Expr, ops: &Vec<Expr>, xlen: &u64) -> (r: Vec<String>)
        requires
            renderable_from(parent@, 0),
            operands(parent@) == expr_views(ops@),
            decreases_to!(parent => ops),
        ensures
            views(r@) == operand_texts(parent@),
        decreases parent, 0int,
    {
        let ghost pv = parent@;
        let mut out: Vec<String> = Vec::new();
        let mut i: usize = 0;
        while i < ops.len()
            invariant
                i <= ops.len(),
                out@.len() == i,
                pv == parent@,
                operands(pv) == expr_views(ops@),
                renderable_from(pv, i as nat),
                forall|j: int| 0 <= j < i ==> out@[j]@ == expr_text(operands(pv)[j]),
                decreases_to!(parent => ops),
            decreases ops.len() - i,
        {
            assert(operands(pv)[i as int] == ops@[i as int]@);
            let t = Self::expr_to_string(&ops[i], xlen);
            out.push(t);
            i += 1;
        }
        assert(views(out@) =~= operand_texts(pv));
        out
    }

    /// The text of an application of an operator.
    pub fn opapp_to_string(expr: &Expr, xlen: &u64) -> (r: String)
        requires
            expr@ is OpApp,
            renderable(expr@),
        ensures
            r@ == expr_text(expr@),
        decreases expr, 1int,
    {
        match expr {
            Expr::OpApp(opapp, t) => {
                proof {
                    Expr::lemma_view_opapp(*opapp, *t);
                }
                let texts = Self::operands_to_strings(expr, &opapp.operands, xlen);
                let ghost tv = views(texts@);
                assert(tv.len() == texts@.len());
                assert(operand_texts(expr@).len() == operands(expr@).len());
                assert(texts@.len() >= op_arity(opapp.op@));
                let e1 = if texts.len() > 0 {
                    assert(tv[0] == texts@[0]@);
                    Some(texts[0].clone())
                } else {
                    None
                };
                let e2 = if texts.len() > 1 {
                    assert(tv[1] == texts@[1]@);
                    Some(texts[1].clone())
                } else {
                    None
                };
                match &opapp.op {
                    Op::Comp(c) => Self::comp_app_to_string(c, e1, e2),
                    Op::Bv(b) => Self::bv_app_to_string(b, e1, e2),
                    Op::Bool(b) => Self::bool_app_to_string(b, e1, e2),
                    Op::ArrayIndex => Self::array_index_to_string(e1.unwrap(), e2.unwrap()),
                    Op::GetField(f) => Self::get_field_to_string(e1.unwrap(), f.clone()),
                }
            },
            _ => String::new(),
        }
    }

    /// The text of an application of a function: its name, and its
    /// arguments in parentheses.
    pub fn fapp_to_string(expr: &Expr, xlen: &u64) -> (r: String)
        requires
            expr@ is FuncApp,
            renderable(expr@),
        ensures
            r@ == expr_text(expr@),
        decreases expr, 1int,
    {
        match expr {
            Expr::FuncApp(fapp, t) => {
                proof {
                    Expr::lemma_view_funcapp(*fapp, *t);
                }
                let texts = Self::operands_to_strings(expr, &fapp.operands, xlen);
                let mut s = fapp.func_name.clone();
                s.append("(");
                s.append(join_strings(&texts, ", ").as_str());
                s.append(")");
                s
            },
            _ => String::new(),
        }
    }

    /// The text of an expression.
    pub fn expr_to_string(expr: &Expr, xlen: &u64) -> (r: String)
        requires
            renderable(expr@),
        ensures
            r@ == expr_text(expr@),
        decreases expr, 2int,
    {
        match expr {
            Expr::Literal(l, _) => Self::lit_to_string(l),
            Expr::Var(v, _) => Self::var_to_string(v),
            Expr::OpApp(_, _) => Self::opapp_to_string(expr, xlen),
            Expr::FuncApp(_, _) => Self::fapp_to_string(expr, xlen),
        }
    }

    /// Whether an expression can be written.
    pub fn is_renderable(expr: &Expr) -> (r: bool)
        ensures
            r == renderable(expr@),
        decreases expr,
    {
        let ghost ev = expr@;
        match expr {
            Expr::OpApp(opapp, t) => {
                proof {
                    Expr::lemma_view_opapp(*opapp, *t);
                }
                let arity: usize = match &opapp.op {
                    Op::Comp(_) => 2,
                    Op::Bv(b) => match b {
                        BVOp::Slice { l: _, r: _ } => 1,
                        _ => 2,
                    },
                    Op::Bool(b) => match b {
                        BoolOp::Neg => 1,
                        _ => 2,
                    },
                    Op::ArrayIndex => 2,
                    Op::GetField(_) => 1,
                };
                if opapp.operands.len() < arity {
                    return false;
                }
                let mut i: usize = 0;
                while i < opapp.operands.len()
                    invariant
                        i <= opapp.operands.len(),
                        ev == expr@,
                        operands(ev) == expr_views(opapp.operands@),
                        renderable_from(ev, 0) == renderable_from(ev, i as nat),
                        decreases_to!(expr => opapp.operands),
                    decreases opapp.operands.len() - i,
                {
                    assert(operands(ev)[i as int] == opapp.operands@[i as int]@);
                    if !Self::is_renderable(&opapp.operands[i]) {
                        return false;
                    }
                    i += 1;
                }
                true
            },
            Expr::FuncApp(fapp, t) => {
                proof {
                    Expr::lemma_view_funcapp(*fapp, *t);
                }
                let mut i: usize = 0;
                while i < fapp.operands.len()
                    invariant
                        i <= fapp.operands.len(),
                        ev == expr@,
                        operands(ev) == expr_views(fapp.operands@),
                        renderable_from(ev, 0) == renderable_from(ev, i as nat),
                        decreases_to!(expr => fapp.operands),
                    decreases fapp.operands.len() - i,
                {
                    assert(operands(ev)[i as int] == fapp.operands@[i as int]@);
                    if !Self::is_renderable(&fapp.operands[i]) {
                        return false;
                    }
                    i += 1;
                }
                true
            },
            _ => true,
        }
    }
}


// ============================================================================
// Statements

/// Whether a statement can be written: every expression in it can.
pub open spec fn renderable_stmt(s: StmtView) -> bool
    decreases s, block_stmts(s).len() + 1,
{
    match s {
        StmtView::Assume(e) => renderable(e),
        StmtView::FuncCall(fc) => all_renderable(fc.lhs, 0) && all_renderable(fc.operands, 0),
        StmtView::Assign(a) => all_renderable(a.lhs, 0) && all_renderable(a.rhs, 0),
        StmtView::IfThenElse(ite) => renderable(ite.cond) && renderable_stmt(*ite.then_stmt)
            && match ite.else_stmt {
            Some(e) => renderable_stmt(*e),
            None => true,
        },
        StmtView::Block(_) => renderable_block(s, 0),
        StmtView::Comment(_) => true,
    }
}

/// Whether the statements of the block `s` from index `i` on can be
/// written.
pub open spec fn renderable_block(s: StmtView, i: nat) -> bool
    decreases s, block_stmts(s).len() - i,
{
    i >= block_stmts(s).len() || (renderable_stmt(block_stmts(s)[i as int]) && renderable_block(
        s,
        i + 1,
    ))
}

/// The text of an argument of a call: a literal zero of register width for
/// the register `zero`, and the text of the expression otherwise.
pub open spec fn call_arg_text(e: ExprView, xlen: u64) -> Seq<char> {
    if expr_text(e) == "zero"@ {
        "0bv"@ + dec_digits(xlen as nat)
    } else {
        expr_text(e)
    }
}

/// The texts of the arguments of a call.
pub open spec fn call_arg_texts(v: Seq<ExprView>, xlen: u64) -> Seq<Seq<char>> {
    Seq::new(v.len(), |i: int| call_arg_text(v[i], xlen))
}

/// The text of a call: the targets in parentheses, the procedure's name
/// with `_` for each `.`, and the arguments.
pub open spec fn call_text(fc: FuncCallView, xlen: u64) -> Seq<char> {
    "call ("@ + join(expr_texts(fc.lhs), ", "@) + ") = "@ + replace_char(
        fc.func_name,
        '.',
        "_"@,
    ) + "("@ + join(call_arg_texts(fc.operands, xlen), ", "@) + ");"@
}

/// The text of an assignment.
pub open spec fn assign_text(a: AssignView) -> Seq<char> {
    join(expr_texts(a.lhs), ", "@) + " = "@ + join(expr_texts(a.rhs), ", "@) + ";"@
}

/// The text of a statement.
pub open spec fn stmt_text(s: StmtView, xlen: u64) -> Seq<char>
    decreases s, 1int,
{
    match s {
        StmtView::Assume(e) => "assume ("@ + expr_text(e) + ");"@,
        StmtView::FuncCall(fc) => call_text(fc, xlen),
        StmtView::Assign(a) => assign_text(a),
        StmtView::IfThenElse(ite) => "if ("@ + expr_text(ite.cond) + ") {\n"@ + indented(
            stmt_text(*ite.then_stmt, xlen),
            4,
        ) + "\n}"@ + match ite.else_stmt {
            Some(e) => "else {\n"@ + indented(stmt_text(*e, xlen), 4) + "\n}"@,
            None => Seq::empty(),
        },
        StmtView::Block(_) => "{\n"@ + indented(join(block_texts(s, xlen), "\n"@), 4) + "\n}"@,
        StmtView::Comment(c) => "// "@ + c + "\n"@,
    }
}

/// The texts of the statements of the block `s`.
pub open spec fn block_texts(s: StmtView, xlen: u64) -> Seq<Seq<char>>
    decreases s, 0int,
{
    Seq::new(
        block_stmts(s).len(),
        |i: int|
            if 0 <= i < block_stmts(s).len() {
                stmt_text(block_stmts(s)[i], xlen)
            } else {
                arbitrary()
            },
    )
}

impl Uclid5Interface {
    /// The texts of the expressions of a list.
    pub fn exprs_to_strings(v: &Vec<Expr>, xlen: &u64) -> (r: Vec<String>)
        requires
            all_renderable(expr_views(v@), 0),
        ensures
            views(r@) == expr_texts(expr_views(v@)),
    {
        let ghost all = expr_views(v@);
        let mut out: Vec<String> = Vec::new();
        let mut i: usize = 0;
        while i < v.len()
            invariant
                i <= v.len(),
                out@.len() == i,
                all == expr_views(v@),
                all_renderable(all, i as nat),
                forall|j: int| 0 <= j < i ==> out@[j]@ == expr_text(all[j]),
            decreases v.len() - i,
        {
            assert(all[i as int] == v@[i as int]@);
            out.push(Self::expr_to_string(&v[i], xlen));
            i += 1;
        }
        assert(views(out@) =~= expr_texts(all));
        out
    }

    /// Whether the expressions of a list can be written.
    pub fn all_are_renderable(v: &Vec<Expr>) -> (r: bool)
        ensures
            r == all_renderable(expr_views(v@), 0),
    {
        let ghost all = expr_views(v@);
        let mut i: usize = 0;
        while i < v.len()
            invariant
                i <= v.len(),
                all == expr_views(v@),
                all_renderable(all, 0) == all_renderable(all, i as nat),
            decreases v.len() - i,
        {
            assert(all[i as int] == v@[i as int]@);
            if !Self::is_renderable(&v[i]) {
                return false;
            }
            i += 1;
        }
        true
    }

    /// Whether a statement can be written.
    pub fn stmt_is_renderable(stmt: &Stmt) -> (r: bool)
        ensures
            r == renderable_stmt(stmt@),
        decreases stmt,
    {
        let ghost sv = stmt@;
        match stmt {
            Stmt::Assume(e) => Self::is_renderable(e),
            Stmt::FuncCall(fc) => Self::all_are_renderable(&fc.lhs) && Self::all_are_renderable(
                &fc.operands,
            ),
            Stmt::Assign(a) => Self::all_are_renderable(&a.lhs) && Self::all_are_renderable(&a.rhs),
            Stmt::IfThenElse(ite) => {
                if !Self::is_renderable(&ite.cond) {
                    return false;
                }
                if !Self::stmt_is_renderable(&ite.then_stmt) {
                    return false;
                }
                match &ite.else_stmt {
                    Some(e) => Self::stmt_is_renderable(e),
                    None => true,
                }
            },
            Stmt::Block(blk) => {
                proof {
                    Stmt::lemma_view_block(*blk);
                }
                let mut i: usize = 0;
                while i < blk.len()
                    invariant
                        i <= blk.len(),
                        sv == stmt@,
                        sv == StmtView::Block(stmt_views(blk@)),
                        renderable_block(sv, 0) == renderable_block(sv, i as nat),
                        decreases_to!(stmt => blk),
                    decreases blk.len() - i,
                {
                    assert(block_stmts(sv)[i as int] == (*blk@[i as int])@);
                    if !Self::stmt_is_renderable(&blk[i]) {
                        return false;
                    }
                    i += 1;
                }
                true
            },
            Stmt::Comment(_) => true,
        }
    }

    /// The text of a statement.
    pub fn stmt_to_string(stmt: &Stmt, xlen: &u64) -> (r: String)
        requires
            renderable_stmt(stmt@),
        ensures
            r@ == stmt_text(stmt@, *xlen),
        decreases stmt, 1int,
    {
        match stmt {
            Stmt::Assume(expr) => Self::assume_to_string(expr, xlen),
            Stmt::FuncCall(fc) => Self::func_call_to_string(fc, xlen),
            Stmt::Assign(assign) => Self::assign_to_string(assign, xlen),
            Stmt::IfThenElse(ite) => {
                let cond = Self::expr_to_string(&ite.cond, xlen);
                let thn = indent_text(Self::stmt_to_string(&ite.then_stmt, xlen), 4);
                let mut s = String::from_str("if (");
                s.append(cond.as_str());
                s.append(") {\n");
                s.append(thn.as_str());
                s.append("\n}");
                match &ite.else_stmt {
                    Some(else_stmt) => {
                        let els = indent_text(Self::stmt_to_string(else_stmt, xlen), 4);
                        let mut e = String::from_str("else {\n");
                        e.append(els.as_str());
                        e.append("\n}");
                        s.append(e.as_str());
                    },
                    None => {
                        assert(s@ + Seq::<char>::empty() =~= s@);
                    },
                }
                s
            },
            Stmt::Block(stmt_vec) => Self::block_to_string(stmt, xlen),
            Stmt::Comment(comment) => Self::comment_to_string(comment),
        }
    }

    /// The text of an empty statement.
    pub fn skip_to_string() -> (r: String)
        ensures
            r@ == Seq::<char>::empty(),
    {
        String::new()
    }

    /// The text of an assertion.
    pub fn assert_to_string(expr: &Expr, xlen: &u64) -> (r: String)
        requires
            renderable(expr@),
        ensures
            r@ == "assert ("@ + expr_text(expr@) + ");"@,
    {
        let mut s = String::from_str("assert (");
        s.append(Self::expr_to_string(expr, xlen).as_str());
        s.append(");");
        s
    }

    /// The text of an assumption.
    pub fn assume_to_string(expr: &Expr, xlen: &u64) -> (r: String)
        requires
            renderable(expr@),
        ensures
            r@ == "assume ("@ + expr_text(expr@) + ");"@,
    {
        let mut s = String::from_str("assume (");
        s.append(Self::expr_to_string(expr, xlen).as_str());
        s.append(");");
        s
    }

    /// The text of a statement that gives a variable an arbitrary value.
    pub fn havoc_to_string(var: &Var) -> (r: String)
        ensures
            r@ == "havoc "@ + var@.name + ";"@,
    {
        let mut s = String::from_str("havoc ");
        s.append(var.name.as_str());
        s.append(";");
        s
    }

    /// The text of a call.
    pub fn func_call_to_string(func_call: &FuncCall, xlen: &u64) -> (r: String)
        requires
            all_renderable(func_call@.lhs, 0),
            all_renderable(func_call@.operands, 0),
        ensures
            r@ == call_text(func_call@, *xlen),
    {
        let lhs_texts = Self::exprs_to_strings(&func_call.lhs, xlen);
        let lhs = join_strings(&lhs_texts, ", ");
        let raw = Self::exprs_to_strings(&func_call.operands, xlen);
        let ghost ops = func_call@.operands;
        let mut arg_texts: Vec<String> = Vec::new();
        let mut i: usize = 0;
        assert(views(raw@).len() == raw@.len());
        assert(expr_texts(ops).len() == ops.len());
        while i < raw.len()
            invariant
                i <= raw.len(),
                arg_texts@.len() == i,
                raw@.len() == ops.len(),
                ops == expr_views(func_call.operands@),
                views(raw@) == expr_texts(ops),
                forall|j: int| 0 <= j < i ==> arg_texts@[j]@ == call_arg_text(ops[j], *xlen),
            decreases raw.len() - i,
        {
            assert(views(raw@)[i as int] == raw@[i as int]@);
            assert(expr_texts(ops)[i as int] == expr_text(ops[i as int]));
            if str_eq(raw[i].as_str(), "zero") {
                let mut z = String::from_str("0bv");
                z.append(u64_to_dec(*xlen).as_str());
                arg_texts.push(z);
            } else {
                arg_texts.push(raw[i].clone());
            }
            i += 1;
        }
        assert(views(raw@).len() == raw@.len());
        assert(views(arg_texts@) =~= call_arg_texts(ops, *xlen));
        let args = join_strings(&arg_texts, ", ");
        let mut s = String::from_str("call (");
        s.append(lhs.as_str());
        s.append(") = ");
        s.append(replace_each(func_call.func_name.as_str(), '.', "_").as_str());
        s.append("(");
        s.append(args.as_str());
        s.append(");");
        s
    }

    /// The text of an assignment.
    pub fn assign_to_string(assign: &Assign, xlen: &u64) -> (r: String)
        requires
            all_renderable(assign@.lhs, 0),
            all_renderable(assign@.rhs, 0),
        ensures
            r@ == assign_text(assign@),
    {
        let lhs_texts = Self::exprs_to_strings(&assign.lhs, xlen);
        let rhs_texts = Self::exprs_to_strings(&assign.rhs, xlen);
        let mut s = join_strings(&lhs_texts, ", ");
        s.append(" = ");
        s.append(join_strings(&rhs_texts, ", ").as_str());
        s.append(";");
        s
    }

    /// The text of a conditional statement.
    pub fn ite_to_string(ite: &IfThenElse, xlen: &u64) -> (r: String)
        requires
            renderable_stmt(StmtView::IfThenElse(ite@)),
        ensures
            r@ == stmt_text(StmtView::IfThenElse(ite@), *xlen),
    {
        let cond = Self::expr_to_string(&ite.cond, xlen);
        let thn = indent_text(Self::stmt_to_string(&ite.then_stmt, xlen), 4);
        let mut s = String::from_str("if (");
        s.append(cond.as_str());
        s.append(") {\n");
        s.append(thn.as_str());
        s.append("\n}");
        match &ite.else_stmt {
            Some(else_stmt) => {
                let els = indent_text(Self::stmt_to_string(else_stmt, xlen), 4);
                let mut e = String::from_str("else {\n");
                e.append(els.as_str());
                e.append("\n}");
                s.append(e.as_str());
            },
            None => {
                assert(s@ + Seq::<char>::empty() =~= s@);
            },
        }
        s
    }

    /// The text of a block: its statements, one per line, indented between
    /// braces.
    pub fn block_to_string(stmt: &Stmt, xlen: &u64) -> (r: String)
        requires
            stmt@ is Block,
            renderable_stmt(stmt@),
        ensures
            r@ == stmt_text(stmt@, *xlen),
        decreases stmt, 0int,
    {
        let ghost sv = stmt@;
        match stmt {
            Stmt::Block(blk) => {
                proof {
                    Stmt::lemma_view_block(*blk);
                }
                let mut parts: Vec<String> = Vec::new();
                let mut i: usize = 0;
                while i < blk.len()
                    invariant
                        i <= blk.len(),
                        parts@.len() == i,
                        sv == stmt@,
                        sv == StmtView::Block(stmt_views(blk@)),
                        renderable_block(sv, i as nat),
                        forall|j: int|
                            0 <= j < i ==> parts@[j]@ == stmt_text(block_stmts(sv)[j], *xlen),
                        decreases_to!(stmt => blk),
                    decreases blk.len() - i,
                {
                    assert(block_stmts(sv)[i as int] == (*blk@[i as int])@);
                    parts.push(Self::stmt_to_string(&blk[i], xlen));
                    i += 1;
                }
                assert(views(parts@) =~= block_texts(sv, *xlen));
                let inner = indent_text(join_strings(&parts, "\n"), 4);
                let mut s = String::from_str("{\n");
                s.append(inner.as_str());
                s.append("\n}");
                s
            },
            _ => String::new(),
        }
    }

    /// The text of a comment.
    pub fn comment_to_string(string: &String) -> (r: String)
        ensures
            r@ == "// "@ + string@ + "\n"@,
    {
        let mut s = String::from_str("// ");
        s.append(string.as_str());
        s.append("\n");
        s
    }
}

} // verus!
