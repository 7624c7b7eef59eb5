//! The verification IR: types, expressions and statements over bit-vectors,
//! booleans, integers, arrays and structs, and the procedures and models
//! built from them.

use crate::names::NameSet;
use crate::propagation::{block_stmts, operands};
use crate::sl_ast::{clone_specs, spec_views, Spec, SpecView};
use crate::text::{
    dec_digits, join, join_strings, lemma_str_lt_transitive, str_eq, str_lt, str_precedes,
    u64_to_dec, views,
};
use vstd::prelude::*;

verus! {

// =======================================================
// Types

/// A named field of a struct type.
#[derive(Debug, PartialEq, Eq)]
pub struct Field {
    pub name: String,
    pub typ: Type,
}

/// The mathematical value of a [`Field`].
pub struct FieldView {
    pub name: Seq<char>,
    pub typ: TypeView,
}

/// A type of the verification IR.
#[derive(Debug, PartialEq, Eq)]
pub enum Type {
    Unknown,
    Bool,
    Int,
    Bv { w: u64 },
    Array { in_typs: Vec<Box<Type>>, out_typ: Box<Type> },
    /// A struct of `w` bits; `fields` lists each field's name and type.
    Struct { id: String, fields: Vec<Field>, w: u64 },
}

/// The mathematical value of a [`Type`].
pub enum TypeView {
    Unknown,
    Bool,
    Int,
    Bv { w: u64 },
    Array { in_typs: Seq<TypeView>, out_typ: Box<TypeView> },
    Struct { id: Seq<char>, fields: Seq<FieldView>, w: u64 },
}

/// The type of the first field of `fields` that is named `name`.
pub open spec fn field_type(fields: Seq<FieldView>, name: Seq<char>) -> Option<TypeView>
    decreases fields.len(),
{
    if fields.len() == 0 {
        None
    } else if fields[0].name == name {
        Some(fields[0].typ)
    } else {
        field_type(fields.drop_first(), name)
    }
}

/// The views of a sequence of boxed types.
pub open spec fn boxed_type_views(v: Seq<Box<Type>>) -> Seq<TypeView> {
    Seq::new(v.len(), |i: int| (*v[i])@)
}

/// The views of a list of named fields.
pub open spec fn field_views(v: Seq<Field>) -> Seq<FieldView> {
    Seq::new(v.len(), |i: int| v[i]@)
}

impl Type {
    pub open spec fn model(&self) -> TypeView
        decreases self,
    {
        match self {
            Type::Unknown => TypeView::Unknown,
            Type::Bool => TypeView::Bool,
            Type::Int => TypeView::Int,
            Type::Bv { w } => TypeView::Bv { w: *w },
            Type::Array { in_typs, out_typ } => TypeView::Array {
                in_typs: Seq::new(
                    in_typs@.len(),
                    |i: int|
                        if 0 <= i < in_typs@.len() {
                            (*in_typs@[i]).model()
                        } else {
                            TypeView::Unknown
                        },
                ),
                out_typ: Box::new((**out_typ).model()),
            },
            Type::Struct { id, fields, w } => TypeView::Struct {
                id: id@,
                fields: Seq::new(
                    fields@.len(),
                    |i: int|
                        if 0 <= i < fields@.len() {
                            FieldView { name: fields@[i].name@, typ: fields@[i].typ.model() }
                        } else {
                            FieldView { name: Seq::empty(), typ: TypeView::Unknown }
                        },
                ),
                w: *w,
            },
        }
    }

    /// The view of an array type is made of the views of its parts.
    pub proof fn lemma_view_array(in_typs: Vec<Box<Type>>, out_typ: Box<Type>)
        ensures
            (Type::Array { in_typs, out_typ })@ == (TypeView::Array {
                in_typs: boxed_type_views(in_typs@),
                out_typ: Box::new((*out_typ)@),
            }),
    {
        assert((Type::Array { in_typs, out_typ })@->Array_in_typs =~= boxed_type_views(in_typs@));
    }

    /// The view of a struct type is made of the views of its parts.
    pub proof fn lemma_view_struct(id: String, fields: Vec<Field>, w: u64)
        ensures
            (Type::Struct { id, fields, w })@ == (TypeView::Struct {
                id: id@,
                fields: field_views(fields@),
                w,
            }),
    {
        assert((Type::Struct { id, fields, w })@->Struct_fields =~= field_views(fields@));
    }

    pub fn mk_unknown_type() -> (r: Self)
        ensures
            r@ == TypeView::Unknown,
    {
        Type::Unknown
    }

    pub fn mk_bool_type() -> (r: Self)
        ensures
            r@ == TypeView::Bool,
    {
        Type::Bool
    }

    pub fn mk_int_type() -> (r: Self)
        ensures
            r@ == TypeView::Int,
    {
        Type::Int
    }

    pub fn mk_bv_type(w: u64) -> (r: Self)
        ensures
            r@ == (TypeView::Bv { w }),
    {
        Type::Bv { w }
    }

    pub fn mk_array_type(in_typs: Vec<Box<Type>>, out_typ: Box<Type>) -> (r: Self)
        ensures
            r@ == (TypeView::Array {
                in_typs: boxed_type_views(in_typs@),
                out_typ: Box::new((*out_typ)@),
            }),
    {
        proof {
            Type::lemma_view_array(in_typs, out_typ);
        }
        Type::Array { in_typs, out_typ }
    }

    pub fn mk_struct_type(id: String, fields: Vec<Field>, w: u64) -> (r: Self)
        ensures
            r@ == (TypeView::Struct { id: id@, fields: field_views(fields@), w }),
    {
        proof {
            Type::lemma_view_struct(id, fields, w);
        }
        Type::Struct { id, fields, w }
    }

    /// The width in bits of a bit-vector or struct type.
    pub fn get_expect_bv_width(&self) -> (r: u64)
        requires
            self@ is Bv || self@ is Struct,
        ensures
            self@ matches TypeView::Bv { w } ==> r == w,
            self@ matches TypeView::Struct { w, .. } ==> r == w,
    {
        match self {
            Type::Bv { w } => *w,
            Type::Struct { id: _, fields: _, w } => *w,
            _ => 0,
        }
    }

    /// The element type of an array type.
    pub fn get_array_out_type(&self) -> (r: &Type)
        requires
            self@ is Array,
        ensures
            r@ == *self@->Array_out_typ,
    {
        match self {
            Type::Array { in_typs: _, out_typ } => out_typ,
            _ => self,
        }
    }

    /// The name of a struct type.
    pub fn get_struct_id(&self) -> (r: String)
        requires
            self@ is Struct,
        ensures
            r@ == self@->Struct_id,
    {
        match self {
            Type::Struct { id, fields: _, w: _ } => id.clone(),
            _ => String::new(),
        }
    }

    /// A copy of this type.
    pub fn dup(&self) -> (r: Type)
        ensures
            r@ == self@,
        decreases self,
    {
        match self {
            Type::Unknown => Type::Unknown,
            Type::Bool => Type::Bool,
            Type::Int => Type::Int,
            Type::Bv { w } => Type::Bv { w: *w },
            Type::Array { in_typs, out_typ } => {
                let mut v: Vec<Box<Type>> = Vec::new();
                let mut i: usize = 0;
                while i < in_typs.len()
                    invariant
                        i <= in_typs.len(),
                        v@.len() == i,
                        forall|j: int| 0 <= j < i ==> (*v@[j])@ == (*in_typs@[j])@,
                        decreases_to!(self => in_typs),
                    decreases in_typs.len() - i,
                {
                    let t = in_typs[i].dup();
                    v.push(Box::new(t));
                    i += 1;
                }
                let o = out_typ.dup();
                let r = Type::Array { in_typs: v, out_typ: Box::new(o) };
                assert(r@->Array_in_typs =~= self@->Array_in_typs);
                r
            },
            Type::Struct { id, fields, w } => {
                let mut v: Vec<Field> = Vec::new();
                let mut i: usize = 0;
                while i < fields.len()
                    invariant
                        i <= fields.len(),
                        v@.len() == i,
                        forall|j: int| 0 <= j < i ==> v@[j]@ == fields@[j]@,
                        decreases_to!(self => fields),
                    decreases fields.len() - i,
                {
                    let t = fields[i].typ.dup();
                    v.push(Field { name: fields[i].name.clone(), typ: t });
                    i += 1;
                }
                let r = Type::Struct { id: id.clone(), fields: v, w: *w };
                assert(r@->Struct_fields =~= self@->Struct_fields);
                r
            },
        }
    }

    /// Whether two types are the same.
    pub fn equals(&self, other: &Type) -> (r: bool)
        ensures
            r == (self@ == other@),
        decreases self,
    {
        match (self, other) {
            (Type::Unknown, Type::Unknown) => true,
            (Type::Bool, Type::Bool) => true,
            (Type::Int, Type::Int) => true,
            (Type::Bv { w: a }, Type::Bv { w: b }) => *a == *b,
            (
                Type::Array { in_typs: ia, out_typ: oa },
                Type::Array { in_typs: ib, out_typ: ob },
            ) => {
                if ia.len() != ib.len() {
                    assert(self@->Array_in_typs.len() != other@->Array_in_typs.len());
                    return false;
                }
                let mut i: usize = 0;
                while i < ia.len()
                    invariant
                        i <= ia.len(),
                        ia.len() == ib.len(),
                        forall|j: int| 0 <= j < i ==> (*ia@[j])@ == (*ib@[j])@,
                        self@->Array_in_typs.len() == ia@.len(),
                        other@->Array_in_typs.len() == ib@.len(),
                        forall|j: int|
                            0 <= j < ia@.len() ==> self@->Array_in_typs[j] == (*ia@[j])@,
                        forall|j: int|
                            0 <= j < ib@.len() ==> other@->Array_in_typs[j] == (*ib@[j])@,
                        decreases_to!(self => ia),
                    decreases ia.len() - i,
                {
                    if !ia[i].equals(&ib[i]) {
                        assert(self@->Array_in_typs[i as int] != other@->Array_in_typs[i as int]);
                        return false;
                    }
                    i += 1;
                }
                let o = oa.equals(ob);
                assert(self@->Array_in_typs =~= other@->Array_in_typs);
                o
            },
            (
                Type::Struct { id: da, fields: fa, w: wa },
                Type::Struct { id: db, fields: fb, w: wb },
            ) => {
                if !(*da == *db) || *wa != *wb || fa.len() != fb.len() {
                    assert(self@->Struct_fields.len() == fa@.len());
                    assert(other@->Struct_fields.len() == fb@.len());
                    return false;
                }
                let mut i: usize = 0;
                while i < fa.len()
                    invariant
                        i <= fa.len(),
                        fa.len() == fb.len(),
                        forall|j: int| 0 <= j < i ==> fa@[j]@ == fb@[j]@,
                        self@->Struct_fields.len() == fa@.len(),
                        other@->Struct_fields.len() == fb@.len(),
                        forall|j: int| 0 <= j < fa@.len() ==> self@->Struct_fields[j] == fa@[j]@,
                        forall|j: int| 0 <= j < fb@.len() ==> other@->Struct_fields[j] == fb@[j]@,
                        decreases_to!(self => fa),
                    decreases fa.len() - i,
                {
                    if !(fa[i].name == fb[i].name) || !fa[i].typ.equals(&fb[i].typ) {
                        assert(self@->Struct_fields[i as int] != other@->Struct_fields[i as int]);
                        return false;
                    }
                    i += 1;
                }
                assert(self@->Struct_fields =~= other@->Struct_fields);
                true
            },
            _ => false,
        }
    }
}

impl View for Type {
    type V = TypeView;

    open spec fn view(&self) -> TypeView {
        self.model()
    }
}

impl Clone for Type {
    fn clone(&self) -> (r: Self)
        ensures
            r@ == self@,
    {
        self.dup()
    }
}

impl View for Field {
    type V = FieldView;

    open spec fn view(&self) -> FieldView {
        FieldView { name: self.name@, typ: self.typ@ }
    }
}

impl Clone for Field {
    fn clone(&self) -> (r: Self)
        ensures
            r@ == self@,
    {
        Field { name: self.name.clone(), typ: self.typ.dup() }
    }
}


// =======================================================
// Expressions

/// A literal value.
#[allow(inconsistent_fields)]
#[derive(Debug, Clone, Copy, PartialEq, Eq)]
pub enum Literal {
    Bv { val: u64, width: u64 },
    Bool { val: bool },
    Int { val: u64 },
}

impl Literal {
    /// The number a literal stands for; `false` is 0 and `true` is 1.
    pub open spec fn value(self) -> u64 {
        match self {
            Literal::Bv { val, width } => val,
            Literal::Bool { val } => if val {
                1
            } else {
                0
            },
            Literal::Int { val } => val,
        }
    }

    /// The width of a bit-vector literal.
    pub fn get_expect_bv_width(&self) -> (r: u64)
        requires
            self is Bv,
        ensures
            r == self->width,
    {
        match self {
            Literal::Bv { val: _, width } => *width,
            _ => 0,
        }
    }
}

/// A named, typed variable.
#[derive(Debug, PartialEq, Eq)]
pub struct Var {
    pub name: String,
    pub typ: Type,
}

/// The mathematical value of a [`Var`].
pub struct VarView {
    pub name: Seq<char>,
    pub typ: TypeView,
}

impl View for Var {
    type V = VarView;

    open spec fn view(&self) -> VarView {
        VarView { name: self.name@, typ: self.typ@ }
    }
}

impl Clone for Var {
    fn clone(&self) -> (r: Self)
        ensures
            r@ == self@,
    {
        Var { name: self.name.clone(), typ: self.typ.clone() }
    }
}

/// Comparison operators; those ending in `u` compare unsigned.
#[derive(Debug, Clone, Copy, PartialEq, Eq, Structural)]
pub enum CompOp {
    Equality,
    Inequality,
    Lt,
    Le,
    Gt,
    Ge,
    Ltu,
    Leu,
    Gtu,
    Geu,
}

/// Bit-vector operators.
#[derive(Debug, Clone, Copy, PartialEq, Eq, Structural)]
pub enum BVOp {
    Add,
    Sub,
    Mul,
    And,
    Or,
    Xor,
    SignExt,
    ZeroExt,
    LeftShift,
    RightShift,
    ARightShift,
    Concat,
    Slice { l: u64, r: u64 },
}

/// Boolean connectives.
#[derive(Debug, Clone, Copy, PartialEq, Eq, Structural)]
pub enum BoolOp {
    Conj,
    Disj,
    Iff,
    Impl,
    Neg,
}

/// Operators of the verification IR.
#[derive(Debug, PartialEq, Eq)]
pub enum Op {
    Comp(CompOp),
    Bv(BVOp),
    Bool(BoolOp),
    ArrayIndex,
    GetField(String),
}

/// The mathematical value of an [`Op`].
pub enum OpView {
    Comp(CompOp),
    Bv(BVOp),
    Bool(BoolOp),
    ArrayIndex,
    GetField(Seq<char>),
}

impl View for Op {
    type V = OpView;

    open spec fn view(&self) -> OpView {
        match self {
            Op::Comp(c) => OpView::Comp(*c),
            Op::Bv(b) => OpView::Bv(*b),
            Op::Bool(b) => OpView::Bool(*b),
            Op::ArrayIndex => OpView::ArrayIndex,
            Op::GetField(f) => OpView::GetField(f@),
        }
    }
}

impl Clone for Op {
    fn clone(&self) -> (r: Self)
        ensures
            r@ == self@,
    {
        match self {
            Op::Comp(c) => Op::Comp(*c),
            Op::Bv(b) => Op::Bv(*b),
            Op::Bool(b) => Op::Bool(*b),
            Op::ArrayIndex => Op::ArrayIndex,
            Op::GetField(f) => Op::GetField(f.clone()),
        }
    }
}

/// An operator applied to operands.
#[derive(Debug, PartialEq, Eq)]
pub struct OpApp {
    pub op: Op,
    pub operands: Vec<Expr>,
}

/// A named function applied to operands.
#[derive(Debug, PartialEq, Eq)]
pub struct FuncApp {
    pub func_name: String,
    pub operands: Vec<Expr>,
}

/// An expression, annotated with its type.
#[derive(Debug, PartialEq, Eq)]
pub enum Expr {
    Literal(Literal, Type),
    Var(Var, Type),
    OpApp(OpApp, Type),
    FuncApp(FuncApp, Type),
}

/// The mathematical value of an [`Expr`].
pub enum ExprView {
    Literal(Literal, TypeView),
    Var(VarView, TypeView),
    OpApp(OpView, Seq<ExprView>, TypeView),
    FuncApp(Seq<char>, Seq<ExprView>, TypeView),
}

impl ExprView {
    /// The type an expression is annotated with.
    pub open spec fn typ(self) -> TypeView {
        match self {
            ExprView::Literal(_, t) => t,
            ExprView::Var(_, t) => t,
            ExprView::OpApp(_, _, t) => t,
            ExprView::FuncApp(_, _, t) => t,
        }
    }

    /// The number a literal expression stands for.
    pub open spec fn lit_value(self) -> Option<u64> {
        match self {
            ExprView::Literal(l, _) => Some(l.value()),
            _ => None,
        }
    }

    /// The array of an array access that has one.
    pub open spec fn array_expr(self) -> Option<ExprView> {
        match self {
            ExprView::OpApp(OpView::ArrayIndex, ops, _) => if ops.len() > 0 {
                Some(ops[0])
            } else {
                None
            },
            _ => None,
        }
    }

    /// The index of an array access that has one.
    pub open spec fn array_index(self) -> Option<ExprView> {
        match self {
            ExprView::OpApp(OpView::ArrayIndex, ops, _) => if ops.len() > 1 {
                Some(ops[1])
            } else {
                None
            },
            _ => None,
        }
    }
}

/// The views of a sequence of expressions.
pub open spec fn expr_views(v: Seq<Expr>) -> Seq<ExprView> {
    Seq::new(v.len(), |i: int| v[i]@)
}

/// The type of an operator application: `Bool` for comparisons and
/// connectives, the first operand's type for bit-vector operators, the
/// element type for an array access, the field's type for a field access.
/// `None` where the operands do not fit the operator.
pub open spec fn op_result_type(op: OpView, operands: Seq<ExprView>) -> Option<TypeView> {
    match op {
        OpView::Comp(_) => Some(TypeView::Bool),
        OpView::Bool(_) => Some(TypeView::Bool),
        OpView::Bv(_) => if operands.len() > 0 {
            Some(operands[0].typ())
        } else {
            None
        },
        OpView::ArrayIndex => if operands.len() > 0 && operands[0].typ() is Array {
            Some(*operands[0].typ()->Array_out_typ)
        } else {
            None
        },
        OpView::GetField(f) => if operands.len() > 0 && operands[0].typ() is Struct {
            field_type(operands[0].typ()->Struct_fields, f)
        } else {
            None
        },
    }
}

impl Expr {
    pub open spec fn model(&self) -> ExprView
        decreases self,
    {
        match self {
            Expr::Literal(l, t) => ExprView::Literal(*l, t@),
            Expr::Var(v, t) => ExprView::Var(v@, t@),
            Expr::OpApp(oa, t) => ExprView::OpApp(
                oa.op@,
                Seq::new(
                    oa.operands@.len(),
                    |i: int|
                        if 0 <= i < oa.operands@.len() {
                            oa.operands@[i].model()
                        } else {
                            arbitrary()
                        },
                ),
                t@,
            ),
            Expr::FuncApp(fa, t) => ExprView::FuncApp(
                fa.func_name@,
                Seq::new(
                    fa.operands@.len(),
                    |i: int|
                        if 0 <= i < fa.operands@.len() {
                            fa.operands@[i].model()
                        } else {
                            arbitrary()
                        },
                ),
                t@,
            ),
        }
    }

    /// The view of an operator application is made of the views of its parts.
    pub proof fn lemma_view_opapp(oa: OpApp, t: Type)
        ensures
            (Expr::OpApp(oa, t))@ == ExprView::OpApp(oa.op@, expr_views(oa.operands@), t@),
    {
        assert((Expr::OpApp(oa, t))@->OpApp_1 =~= expr_views(oa.operands@));
    }

    /// The view of a function application is made of the views of its parts.
    pub proof fn lemma_view_funcapp(fa: FuncApp, t: Type)
        ensures
            (Expr::FuncApp(fa, t))@ == ExprView::FuncApp(
                fa.func_name@,
                expr_views(fa.operands@),
                t@,
            ),
    {
        assert((Expr::FuncApp(fa, t))@->FuncApp_1 =~= expr_views(fa.operands@));
    }

    /// The type of the expression.
    pub fn typ(&self) -> (r: &Type)
        ensures
            r@ == self@.typ(),
    {
        match self {
            Expr::Literal(_, t) => t,
            Expr::Var(_, t) => t,
            Expr::OpApp(_, t) => t,
            Expr::FuncApp(_, t) => t,
        }
    }

    /// The name of a variable.
    pub fn get_var_name(&self) -> (r: String)
        requires
            self@ is Var,
        ensures
            r@ == self@->Var_0.name,
    {
        match self {
            Expr::Var(v, _) => v.name.clone(),
            _ => String::new(),
        }
    }

    /// Whether the expression is a variable.
    pub fn is_var(&self) -> (r: bool)
        ensures
            r == (self@ is Var),
    {
        match self {
            Expr::Var(_, _) => true,
            _ => false,
        }
    }

    /// Whether the expression is a literal.
    pub fn is_lit(&self) -> (r: bool)
        ensures
            r == (self@ is Literal),
    {
        match self {
            Expr::Literal(_, _) => true,
            _ => false,
        }
    }

    /// The literal of a literal expression.
    pub fn get_lit(&self) -> (r: Option<&Literal>)
        ensures
            self@ is Literal ==> r == Some(&self@->Literal_0),
            !(self@ is Literal) ==> r is None,
    {
        match self {
            Expr::Literal(lit, _) => Some(lit),
            _ => None,
        }
    }

    /// The number a literal expression stands for; `false` is 0 and `true`
    /// is 1.
    pub fn get_lit_value(&self) -> (r: Option<u64>)
        ensures
            r == self@.lit_value(),
    {
        match self {
            Expr::Literal(lit, _) => Some(
                match lit {
                    Literal::Bv { val, width: _ } => *val,
                    Literal::Bool { val } => if *val {
                        1
                    } else {
                        0
                    },
                    Literal::Int { val } => *val,
                },
            ),
            _ => None,
        }
    }

    /// The width of a bit-vector literal expression.
    pub fn get_expect_bv_width(&self) -> (r: u64)
        requires
            self@ matches ExprView::Literal(l, _) && l is Bv,
        ensures
            r == self@->Literal_0->width,
    {
        match self {
            Expr::Literal(lit, _) => lit.get_expect_bv_width(),
            _ => 0,
        }
    }

    /// The array of an array access.
    pub fn get_array_expr(&self) -> (r: Option<&Expr>)
        ensures
            self@.array_expr() is Some ==> r is Some && r->0@ == self@.array_expr()->0,
            self@.array_expr() is None ==> r is None,
    {
        match self {
            Expr::OpApp(opapp, t) => {
                proof {
                    Expr::lemma_view_opapp(*opapp, *t);
                }
                opapp.get_array_expr()
            },
            _ => None,
        }
    }

    /// The index of an array access.
    pub fn get_array_index(&self) -> (r: Option<&Expr>)
        ensures
            self@.array_index() is Some ==> r is Some && r->0@ == self@.array_index()->0,
            self@.array_index() is None ==> r is None,
    {
        match self {
            Expr::OpApp(opapp, t) => {
                proof {
                    Expr::lemma_view_opapp(*opapp, *t);
                }
                opapp.get_array_index()
            },
            _ => None,
        }
    }

    /// A bit-vector literal of value `val` and width `width`.
    pub fn bv_lit(val: u64, width: u64) -> (r: Self)
        ensures
            r@ == ExprView::Literal(Literal::Bv { val, width }, TypeView::Bv { w: width }),
    {
        Expr::Literal(Literal::Bv { val, width }, Type::Bv { w: width })
    }

    /// An integer literal of value `val`.
    pub fn int_lit(val: u64) -> (r: Self)
        ensures
            r@ == ExprView::Literal(Literal::Int { val }, TypeView::Int),
    {
        Expr::Literal(Literal::Int { val }, Type::Int)
    }

    /// A boolean literal of value `val`.
    pub fn bool_lit(val: bool) -> (r: Self)
        ensures
            r@ == ExprView::Literal(Literal::Bool { val }, TypeView::Bool),
    {
        Expr::Literal(Literal::Bool { val }, Type::Bool)
    }

    /// A variable named `name` of type `typ`.
    pub fn var(name: &str, typ: Type) -> (r: Self)
        ensures
            r@ == ExprView::Var(VarView { name: name@, typ: typ@ }, typ@),
    {
        let t = typ.clone();
        Expr::Var(Var { name: String::from_str(name), typ: t }, typ)
    }

    /// Whether `op` can be applied to `operands`.
    pub fn op_fits(op: &Op, operands: &Vec<Expr>) -> (r: bool)
        ensures
            r == (op_result_type(op@, expr_views(operands@)) is Some),
    {
        match op {
            Op::Comp(_) => true,
            Op::Bool(_) => true,
            Op::Bv(_) => operands.len() > 0,
            Op::ArrayIndex => {
                if operands.len() == 0 {
                    false
                } else {
                    match operands[0].typ() {
                        Type::Array { in_typs: _, out_typ: _ } => true,
                        _ => false,
                    }
                }
            },
            Op::GetField(f) => {
                if operands.len() == 0 {
                    false
                } else {
                    match operands[0].typ() {
                        Type::Struct { id, fields, w } => {
                            proof {
                                Type::lemma_view_struct(*id, *fields, *w);
                            }
                            find_field(fields, f.as_str()).is_some()
                        },
                        _ => false,
                    }
                }
            },
        }
    }

    /// Applies `op` to `operands`; the result is annotated with the type
    /// that the operator gives it.
    pub fn op_app(op: Op, operands: Vec<Self>) -> (r: Self)
        requires
            op_result_type(op@, expr_views(operands@)) is Some,
        ensures
            r@ == ExprView::OpApp(
                op@,
                expr_views(operands@),
                op_result_type(op@, expr_views(operands@))->0,
            ),
    {
        let typ = match &op {
            Op::Comp(_) => Type::Bool,
            Op::Bool(_) => Type::Bool,
            Op::Bv(_) => operands[0].typ().clone(),
            Op::ArrayIndex => match operands[0].typ() {
                Type::Array { in_typs: _, out_typ } => out_typ.dup(),
                _ => Type::Unknown,
            },
            Op::GetField(f) => match operands[0].typ() {
                Type::Struct { id, fields, w } => {
                    proof {
                        Type::lemma_view_struct(*id, *fields, *w);
                    }
                    match find_field(fields, f.as_str()) {
                        Some(t) => t.clone(),
                        None => Type::Unknown,
                    }
                },
                _ => Type::Unknown,
            },
        };
        let oa = OpApp { op, operands };
        proof {
            Expr::lemma_view_opapp(oa, typ);
        }
        Expr::OpApp(oa, typ)
    }

    /// Applies the function named `func_name` to `operands`, with result
    /// type `typ`.
    pub fn func_app(func_name: String, operands: Vec<Self>, typ: Type) -> (r: Self)
        ensures
            r@ == ExprView::FuncApp(func_name@, expr_views(operands@), typ@),
    {
        let fa = FuncApp { func_name, operands };
        proof {
            Expr::lemma_view_funcapp(fa, typ);
        }
        Expr::FuncApp(fa, typ)
    }

    /// A copy of this expression.
    pub fn dup(&self) -> (r: Expr)
        ensures
            r@ == self@,
        decreases self,
    {
        match self {
            Expr::Literal(l, t) => Expr::Literal(*l, t.clone()),
            Expr::Var(v, t) => Expr::Var(v.clone(), t.clone()),
            Expr::OpApp(oa, t) => {
                let mut v: Vec<Expr> = Vec::new();
                let mut i: usize = 0;
                while i < oa.operands.len()
                    invariant
                        i <= oa.operands.len(),
                        v@.len() == i,
                        forall|j: int| 0 <= j < i ==> v@[j]@ == oa.operands@[j]@,
                        decreases_to!(self => oa.operands),
                    decreases oa.operands.len() - i,
                {
                    let e = oa.operands[i].dup();
                    v.push(e);
                    i += 1;
                }
                let r = Expr::OpApp(OpApp { op: oa.op.clone(), operands: v }, t.clone());
                assert(r@->OpApp_1 =~= self@->OpApp_1);
                r
            },
            Expr::FuncApp(fa, t) => {
                let mut v: Vec<Expr> = Vec::new();
                let mut i: usize = 0;
                while i < fa.operands.len()
                    invariant
                        i <= fa.operands.len(),
                        v@.len() == i,
                        forall|j: int| 0 <= j < i ==> v@[j]@ == fa.operands@[j]@,
                        decreases_to!(self => fa.operands),
                    decreases fa.operands.len() - i,
                {
                    let e = fa.operands[i].dup();
                    v.push(e);
                    i += 1;
                }
                let r = Expr::FuncApp(
                    FuncApp { func_name: fa.func_name.clone(), operands: v },
                    t.clone(),
                );
                assert(r@->FuncApp_1 =~= self@->FuncApp_1);
                r
            },
        }
    }
}

impl View for Expr {
    type V = ExprView;

    open spec fn view(&self) -> ExprView {
        self.model()
    }
}

impl Clone for Expr {
    fn clone(&self) -> (r: Self)
        ensures
            r@ == self@,
    {
        self.dup()
    }
}

/// The type of the first field of `fields` that is named `name`.
pub fn find_field<'a>(fields: &'a Vec<Field>, name: &str) -> (r: Option<&'a Type>)
    ensures
        field_type(field_views(fields@), name@) is Some ==> r is Some && r->0@ == field_type(
            field_views(fields@),
            name@,
        )->0,
        field_type(field_views(fields@), name@) is None ==> r is None,
{
    let mut i: usize = 0;
    assert(field_views(fields@).skip(0) =~= field_views(fields@));
    while i < fields.len()
        invariant
            i <= fields.len(),
            field_type(field_views(fields@), name@) == field_type(
                field_views(fields@).skip(i as int),
                name@,
            ),
        decreases fields.len() - i,
    {
        assert(field_views(fields@).skip(i as int)[0] == fields@[i as int]@);
        assert(field_views(fields@).skip(i as int).drop_first() =~= field_views(fields@).skip(
            i + 1,
        ));
        if str_eq(fields[i].name.as_str(), name) {
            return Some(&fields[i].typ);
        }
        i += 1;
    }
    None
}

impl OpApp {
    /// The array of an array access.
    pub fn get_array_expr(&self) -> (r: Option<&Expr>)
        ensures
            self.op@ is ArrayIndex && self.operands@.len() > 0 ==> r == Some(&self.operands@[0]),
            !(self.op@ is ArrayIndex && self.operands@.len() > 0) ==> r is None,
    {
        match self.op {
            Op::ArrayIndex => if self.operands.len() > 0 {
                Some(&self.operands[0])
            } else {
                None
            },
            _ => None,
        }
    }

    /// The index of an array access.
    pub fn get_array_index(&self) -> (r: Option<&Expr>)
        ensures
            self.op@ is ArrayIndex && self.operands@.len() > 1 ==> r == Some(&self.operands@[1]),
            !(self.op@ is ArrayIndex && self.operands@.len() > 1) ==> r is None,
    {
        match self.op {
            Op::ArrayIndex => if self.operands.len() > 1 {
                Some(&self.operands[1])
            } else {
                None
            },
            _ => None,
        }
    }
}


// =======================================================
// Statements

/// A call of a procedure: `lhs` receive what it returns.
#[derive(Debug, PartialEq, Eq)]
pub struct FuncCall {
    pub func_name: String,
    pub lhs: Vec<Expr>,
    pub operands: Vec<Expr>,
}

/// The mathematical value of a [`FuncCall`].
pub struct FuncCallView {
    pub func_name: Seq<char>,
    pub lhs: Seq<ExprView>,
    pub operands: Seq<ExprView>,
}

impl View for FuncCall {
    type V = FuncCallView;

    open spec fn view(&self) -> FuncCallView {
        FuncCallView {
            func_name: self.func_name@,
            lhs: expr_views(self.lhs@),
            operands: expr_views(self.operands@),
        }
    }
}

/// A parallel assignment of `rhs` to `lhs`.
#[derive(Debug, PartialEq, Eq)]
pub struct Assign {
    pub lhs: Vec<Expr>,
    pub rhs: Vec<Expr>,
}

/// The mathematical value of an [`Assign`].
pub struct AssignView {
    pub lhs: Seq<ExprView>,
    pub rhs: Seq<ExprView>,
}

impl View for Assign {
    type V = AssignView;

    open spec fn view(&self) -> AssignView {
        AssignView { lhs: expr_views(self.lhs@), rhs: expr_views(self.rhs@) }
    }
}

/// A conditional statement.
#[derive(Debug, PartialEq, Eq)]
pub struct IfThenElse {
    pub cond: Expr,
    pub then_stmt: Box<Stmt>,
    pub else_stmt: Option<Box<Stmt>>,
}

/// The mathematical value of an [`IfThenElse`].
pub struct IfThenElseView {
    pub cond: ExprView,
    pub then_stmt: Box<StmtView>,
    pub else_stmt: Option<Box<StmtView>>,
}

/// A statement.
#[derive(Debug, PartialEq, Eq)]
pub enum Stmt {
    Assume(Expr),
    FuncCall(FuncCall),
    Assign(Assign),
    IfThenElse(IfThenElse),
    Block(Vec<Box<Stmt>>),
    Comment(String),
}

/// The mathematical value of a [`Stmt`].
pub enum StmtView {
    Assume(ExprView),
    FuncCall(FuncCallView),
    Assign(AssignView),
    IfThenElse(IfThenElseView),
    Block(Seq<StmtView>),
    Comment(Seq<char>),
}

/// The views of a sequence of boxed statements.
pub open spec fn stmt_views(v: Seq<Box<Stmt>>) -> Seq<StmtView> {
    Seq::new(v.len(), |i: int| (*v[i])@)
}

/// Copies a list of expressions.
pub fn clone_exprs(v: &Vec<Expr>) -> (r: Vec<Expr>)
    ensures
        expr_views(r@) == expr_views(v@),
{
    let mut out: Vec<Expr> = Vec::new();
    let mut i: usize = 0;
    while i < v.len()
        invariant
            i <= v.len(),
            out@.len() == i,
            forall|j: int| 0 <= j < i ==> out@[j]@ == v@[j]@,
        decreases v.len() - i,
    {
        out.push(v[i].clone());
        i += 1;
    }
    assert(expr_views(out@) =~= expr_views(v@));
    out
}

impl Stmt {
    pub open spec fn model(&self) -> StmtView
        decreases self,
    {
        match self {
            Stmt::Assume(e) => StmtView::Assume(e@),
            Stmt::FuncCall(fc) => StmtView::FuncCall(fc@),
            Stmt::Assign(a) => StmtView::Assign(a@),
            Stmt::IfThenElse(ite) => StmtView::IfThenElse(
                IfThenElseView {
                    cond: ite.cond@,
                    then_stmt: Box::new((*ite.then_stmt).model()),
                    else_stmt: match ite.else_stmt {
                        Some(e) => Some(Box::new((*e).model())),
                        None => None,
                    },
                },
            ),
            Stmt::Block(v) => StmtView::Block(
                Seq::new(
                    v@.len(),
                    |i: int|
                        if 0 <= i < v@.len() {
                            (*v@[i]).model()
                        } else {
                            arbitrary()
                        },
                ),
            ),
            Stmt::Comment(c) => StmtView::Comment(c@),
        }
    }

    /// The view of a block is made of the views of its statements.
    pub proof fn lemma_view_block(v: Vec<Box<Stmt>>)
        ensures
            (Stmt::Block(v))@ == StmtView::Block(stmt_views(v@)),
    {
        assert((Stmt::Block(v))@->Block_0 =~= stmt_views(v@));
    }

    /// The statements of a block.
    pub fn get_expect_block(&self) -> (r: &Vec<Box<Stmt>>)
        requires
            self@ is Block,
        ensures
            stmt_views(r@) == self@->Block_0,
            *self == Stmt::Block(*r),
    {
        match self {
            Stmt::Block(b) => {
                proof {
                    Stmt::lemma_view_block(*b);
                }
                b
            },
            _ => vstd::pervasive::unreached(),
        }
    }

    /// Whether the statement is a block.
    pub fn is_blk(&self) -> (r: bool)
        ensures
            r == (self@ is Block),
    {
        match self {
            Stmt::Block(_) => true,
            _ => false,
        }
    }

    /// A call of `func_name` on `operands`, assigning what it returns to
    /// `lhs`.
    pub fn func_call(func_name: String, lhs: Vec<Expr>, operands: Vec<Expr>) -> (r: Self)
        ensures
            r@ == StmtView::FuncCall(
                FuncCallView {
                    func_name: func_name@,
                    lhs: expr_views(lhs@),
                    operands: expr_views(operands@),
                },
            ),
    {
        Stmt::FuncCall(FuncCall { func_name, lhs, operands })
    }

    /// A conditional statement.
    pub fn if_then_else(cond: Expr, then_stmt: Box<Stmt>, else_stmt: Option<Box<Stmt>>) -> (r:
        Self)
        ensures
            r@ == StmtView::IfThenElse(
                IfThenElseView {
                    cond: cond@,
                    then_stmt: Box::new((*then_stmt)@),
                    else_stmt: match else_stmt {
                        Some(e) => Some(Box::new((*e)@)),
                        None => None,
                    },
                },
            ),
    {
        Stmt::IfThenElse(IfThenElse { cond, then_stmt, else_stmt })
    }

    /// An assignment of `rhs` to `lhs`.
    pub fn assign(lhs: Vec<Expr>, rhs: Vec<Expr>) -> (r: Self)
        ensures
            r@ == StmtView::Assign(AssignView { lhs: expr_views(lhs@), rhs: expr_views(rhs@) }),
    {
        Stmt::Assign(Assign { lhs, rhs })
    }

    /// A copy of this statement.
    pub fn dup(&self) -> (r: Stmt)
        ensures
            r@ == self@,
        decreases self,
    {
        match self {
            Stmt::Assume(e) => Stmt::Assume(e.clone()),
            Stmt::FuncCall(fc) => Stmt::FuncCall(
                FuncCall {
                    func_name: fc.func_name.clone(),
                    lhs: clone_exprs(&fc.lhs),
                    operands: clone_exprs(&fc.operands),
                },
            ),
            Stmt::Assign(a) => Stmt::Assign(
                Assign { lhs: clone_exprs(&a.lhs), rhs: clone_exprs(&a.rhs) },
            ),
            Stmt::IfThenElse(ite) => {
                let t = ite.then_stmt.dup();
                let e = match &ite.else_stmt {
                    Some(e) => Some(Box::new(e.dup())),
                    None => None,
                };
                Stmt::IfThenElse(
                    IfThenElse { cond: ite.cond.clone(), then_stmt: Box::new(t), else_stmt: e },
                )
            },
            Stmt::Block(v) => {
                let mut out: Vec<Box<Stmt>> = Vec::new();
                let mut i: usize = 0;
                while i < v.len()
                    invariant
                        i <= v.len(),
                        out@.len() == i,
                        forall|j: int| 0 <= j < i ==> (*out@[j])@ == (*v@[j])@,
                        decreases_to!(self => v),
                    decreases v.len() - i,
                {
                    let st = v[i].dup();
                    out.push(Box::new(st));
                    i += 1;
                }
                let r = Stmt::Block(out);
                assert(r@->Block_0 =~= self@->Block_0);
                r
            },
            Stmt::Comment(c) => Stmt::Comment(c.clone()),
        }
    }
}

impl View for Stmt {
    type V = StmtView;

    open spec fn view(&self) -> StmtView {
        self.model()
    }
}

impl Clone for Stmt {
    fn clone(&self) -> (r: Self)
        ensures
            r@ == self@,
    {
        self.dup()
    }
}

impl View for IfThenElse {
    type V = IfThenElseView;

    open spec fn view(&self) -> IfThenElseView {
        IfThenElseView {
            cond: self.cond@,
            then_stmt: Box::new((*self.then_stmt)@),
            else_stmt: match self.else_stmt {
                Some(e) => Some(Box::new((*e)@)),
                None => None,
            },
        }
    }
}

impl Clone for FuncCall {
    fn clone(&self) -> (r: Self)
        ensures
            r@ == self@,
    {
        FuncCall {
            func_name: self.func_name.clone(),
            lhs: clone_exprs(&self.lhs),
            operands: clone_exprs(&self.operands),
        }
    }
}

impl Clone for Assign {
    fn clone(&self) -> (r: Self)
        ensures
            r@ == self@,
    {
        Assign { lhs: clone_exprs(&self.lhs), rhs: clone_exprs(&self.rhs) }
    }
}

impl Clone for IfThenElse {
    fn clone(&self) -> (r: Self)
        ensures
            r@ == self@,
    {
        let e = match &self.else_stmt {
            Some(e) => Some(Box::new(e.dup())),
            None => None,
        };
        IfThenElse {
            cond: self.cond.clone(),
            then_stmt: Box::new(self.then_stmt.dup()),
            else_stmt: e,
        }
    }
}

impl Clone for OpApp {
    fn clone(&self) -> (r: Self)
        ensures
            r.op@ == self.op@,
            expr_views(r.operands@) == expr_views(self.operands@),
    {
        OpApp { op: self.op.clone(), operands: clone_exprs(&self.operands) }
    }
}

impl Clone for FuncApp {
    fn clone(&self) -> (r: Self)
        ensures
            r.func_name@ == self.func_name@,
            expr_views(r.operands@) == expr_views(self.operands@),
    {
        FuncApp { func_name: self.func_name.clone(), operands: clone_exprs(&self.operands) }
    }
}


// =======================================================
// Procedures

/// The signature of a procedure: its name and entry address, its formal
/// arguments and result, its contract, and the names it may write.
#[derive(Debug, PartialEq)]
pub struct FuncSig {
    pub name: String,
    pub entry_addr: u64,
    pub arg_decls: Vec<Expr>,
    pub ret_decl: Option<Type>,
    pub preconds: Vec<Spec>,
    pub postconds: Vec<Spec>,
    pub tracks: Vec<Spec>,
    pub mod_set: NameSet,
}

/// The mathematical value of a [`FuncSig`].
pub struct FuncSigView {
    pub name: Seq<char>,
    pub entry_addr: u64,
    pub arg_decls: Seq<ExprView>,
    pub ret_decl: Option<TypeView>,
    pub preconds: Seq<SpecView>,
    pub postconds: Seq<SpecView>,
    pub tracks: Seq<SpecView>,
    pub mod_set: Seq<Seq<char>>,
}

/// The view of an optional type.
pub open spec fn opt_type_view(t: Option<Type>) -> Option<TypeView> {
    match t {
        Some(t) => Some(t@),
        None => None,
    }
}

/// Whether every expression of `args` is a variable.
pub open spec fn all_vars(args: Seq<ExprView>) -> bool {
    forall|i: int| 0 <= i < args.len() ==> #[trigger] args[i] is Var
}

impl View for FuncSig {
    type V = FuncSigView;

    open spec fn view(&self) -> FuncSigView {
        FuncSigView {
            name: self.name@,
            entry_addr: self.entry_addr,
            arg_decls: expr_views(self.arg_decls@),
            ret_decl: opt_type_view(self.ret_decl),
            preconds: spec_views(self.preconds@),
            postconds: spec_views(self.postconds@),
            tracks: spec_views(self.tracks@),
            mod_set: self.mod_set@,
        }
    }
}

impl Clone for FuncSig {
    fn clone(&self) -> (r: Self)
        ensures
            r@ == self@,
    {
        FuncSig {
            name: self.name.clone(),
            entry_addr: self.entry_addr,
            arg_decls: clone_exprs(&self.arg_decls),
            ret_decl: match &self.ret_decl {
                Some(t) => Some(t.clone()),
                None => None,
            },
            preconds: clone_specs(&self.preconds),
            postconds: clone_specs(&self.postconds),
            tracks: clone_specs(&self.tracks),
            mod_set: self.mod_set.clone(),
        }
    }
}

impl FuncSig {
    /// A signature; each formal argument must be a variable.
    pub fn new(
        name: &str,
        entry_addr: u64,
        arg_decls: Vec<Expr>,
        ret_decl: Option<Type>,
        preconds: Vec<Spec>,
        postconds: Vec<Spec>,
        tracks: Vec<Spec>,
        mod_set: NameSet,
    ) -> (r: Self)
        requires
            all_vars(expr_views(arg_decls@)),
        ensures
            r@ == (FuncSigView {
                name: name@,
                entry_addr,
                arg_decls: expr_views(arg_decls@),
                ret_decl: opt_type_view(ret_decl),
                preconds: spec_views(preconds@),
                postconds: spec_views(postconds@),
                tracks: spec_views(tracks@),
                mod_set: mod_set@,
            }),
    {
        FuncSig {
            name: String::from_str(name),
            entry_addr,
            arg_decls,
            ret_decl,
            preconds,
            postconds,
            tracks,
            mod_set,
        }
    }
}

/// A procedure: a signature, a body that is a block, and whether calls of
/// it are to be replaced by its body.
#[derive(Debug, PartialEq)]
pub struct FuncModel {
    pub sig: FuncSig,
    pub body: Stmt,
    pub inline: bool,
}

/// The mathematical value of a [`FuncModel`].
pub struct FuncModelView {
    pub sig: FuncSigView,
    pub body: StmtView,
    pub inline: bool,
}

impl View for FuncModel {
    type V = FuncModelView;

    open spec fn view(&self) -> FuncModelView {
        FuncModelView { sig: self.sig@, body: self.body@, inline: self.inline }
    }
}

impl Clone for FuncModel {
    fn clone(&self) -> (r: Self)
        ensures
            r@ == self@,
    {
        FuncModel { sig: self.sig.clone(), body: self.body.clone(), inline: self.inline }
    }
}

/// The clauses of an optional list, none where it is absent.
pub open spec fn opt_spec_views(v: Option<Vec<Spec>>) -> Seq<SpecView> {
    match v {
        Some(v) => spec_views(v@),
        None => Seq::empty(),
    }
}

/// The names of an optional set, none where it is absent.
pub open spec fn opt_names(s: Option<NameSet>) -> Seq<Seq<char>> {
    match s {
        Some(s) => s@,
        None => Seq::empty(),
    }
}

impl FuncModel {
    /// A procedure. Absent clauses and an absent set of written names count
    /// as empty. The body must be a block and each formal argument a
    /// variable.
    pub fn new(
        name: &str,
        entry_addr: u64,
        arg_decls: Vec<Expr>,
        ret_decl: Option<Type>,
        preconds: Option<Vec<Spec>>,
        postconds: Option<Vec<Spec>>,
        tracks: Option<Vec<Spec>>,
        mod_set: Option<NameSet>,
        body: Stmt,
        inline: bool,
    ) -> (r: Self)
        requires
            body@ is Block,
            all_vars(expr_views(arg_decls@)),
        ensures
            r@ == (FuncModelView {
                sig: FuncSigView {
                    name: name@,
                    entry_addr,
                    arg_decls: expr_views(arg_decls@),
                    ret_decl: opt_type_view(ret_decl),
                    preconds: opt_spec_views(preconds),
                    postconds: opt_spec_views(postconds),
                    tracks: opt_spec_views(tracks),
                    mod_set: opt_names(mod_set),
                },
                body: body@,
                inline,
            }),
    {
        let mod_set = match mod_set {
            Some(s) => s,
            None => NameSet::new(),
        };
        let preconds = match preconds {
            Some(v) => v,
            None => {
                let v: Vec<Spec> = Vec::new();
                assert(spec_views(v@) =~= Seq::<SpecView>::empty());
                v
            },
        };
        let postconds = match postconds {
            Some(v) => v,
            None => {
                let v: Vec<Spec> = Vec::new();
                assert(spec_views(v@) =~= Seq::<SpecView>::empty());
                v
            },
        };
        let tracks = match tracks {
            Some(v) => v,
            None => {
                let v: Vec<Spec> = Vec::new();
                assert(spec_views(v@) =~= Seq::<SpecView>::empty());
                v
            },
        };
        FuncModel {
            sig: FuncSig::new(
                name,
                entry_addr,
                arg_decls,
                ret_decl,
                preconds,
                postconds,
                tracks,
                mod_set,
            ),
            body,
            inline,
        }
    }
}

// =======================================================
// Verification model

/// A model: state variables, listed in the order of their names, and
/// procedures, no two of the same name.
#[derive(Debug, PartialEq)]
pub struct Model {
    pub name: String,
    pub vars: Vec<Var>,
    pub func_models: Vec<FuncModel>,
}

/// The mathematical value of a [`Model`].
pub struct ModelView {
    pub name: Seq<char>,
    pub vars: Seq<VarView>,
    pub func_models: Seq<FuncModelView>,
}

/// The views of a sequence of variables.
pub open spec fn var_views(v: Seq<Var>) -> Seq<VarView> {
    Seq::new(v.len(), |i: int| v[i]@)
}

/// The views of a sequence of procedures.
pub open spec fn func_model_views(v: Seq<FuncModel>) -> Seq<FuncModelView> {
    Seq::new(v.len(), |i: int| v[i]@)
}

/// Whether a procedure named `name` is among `fms`.
pub open spec fn has_func(fms: Seq<FuncModelView>, name: Seq<char>) -> bool {
    exists|i: int| 0 <= i < fms.len() && (#[trigger] fms[i]).sig.name == name
}

/// `fms` with `fm` at its end, unless a procedure of that name is there
/// already: the first procedure of a name is the one that stays.
pub open spec fn with_func(fms: Seq<FuncModelView>, fm: FuncModelView) -> Seq<FuncModelView> {
    if has_func(fms, fm.sig.name) {
        fms
    } else {
        fms.push(fm)
    }
}

/// `fms` with the procedures of `more` added one after the other.
pub open spec fn with_funcs(fms: Seq<FuncModelView>, more: Seq<FuncModelView>) -> Seq<
    FuncModelView,
>
    decreases more.len(),
{
    if more.len() == 0 {
        fms
    } else {
        with_func(with_funcs(fms, more.drop_last()), more.last())
    }
}

/// Whether no name of a later variable precedes that of an earlier one.
pub open spec fn vars_sorted(s: Seq<VarView>) -> bool {
    forall|i: int, j: int|
        0 <= i < j < s.len() ==> !str_lt((#[trigger] s[j]).name, (#[trigger] s[i]).name)
}

/// The number of leading variables of `s` whose name `x` does not precede.
pub open spec fn var_pos(s: Seq<VarView>, x: Seq<char>) -> int
    decreases s.len(),
{
    if s.len() == 0 || str_lt(x, s[0].name) {
        0
    } else {
        1 + var_pos(s.drop_first(), x)
    }
}

/// `s` with `v` added: behind the variables whose names come before or are
/// `v`'s; a variable that is there already is not added again.
pub open spec fn with_var(s: Seq<VarView>, v: VarView) -> Seq<VarView> {
    if s.contains(v) {
        s
    } else {
        s.insert(var_pos(s, v.name), v)
    }
}

/// `s` with the variables of `more` added one after the other.
pub open spec fn with_vars(s: Seq<VarView>, more: Seq<VarView>) -> Seq<VarView>
    decreases more.len(),
{
    if more.len() == 0 {
        s
    } else {
        with_var(with_vars(s, more.drop_last()), more.last())
    }
}

/// Where a variable goes: `x` precedes no name before that place, and
/// precedes the name at that place.
pub proof fn lemma_var_pos(s: Seq<VarView>, x: Seq<char>)
    ensures
        0 <= var_pos(s, x) <= s.len(),
        forall|i: int| 0 <= i < var_pos(s, x) ==> !str_lt(x, (#[trigger] s[i]).name),
        var_pos(s, x) < s.len() ==> str_lt(x, s[var_pos(s, x)].name),
    decreases s.len(),
{
    if s.len() == 0 || str_lt(x, s[0].name) {
    } else {
        let t = s.drop_first();
        lemma_var_pos(t, x);
        assert forall|i: int| 0 <= i < var_pos(s, x) implies !str_lt(x, (#[trigger] s[i]).name) by {
            if i > 0 {
                assert(s[i] == t[i - 1]);
            }
        }
    }
}

/// Putting a variable in at its place keeps the variables in the order of
/// their names.
pub proof fn lemma_insert_var_sorted(s: Seq<VarView>, v: VarView)
    requires
        vars_sorted(s),
    ensures
        vars_sorted(s.insert(var_pos(s, v.name), v)),
{
    lemma_var_pos(s, v.name);
    let p = var_pos(s, v.name);
    let r = s.insert(p, v);
    assert forall|i: int, j: int| 0 <= i < j < r.len() implies !str_lt(
        (#[trigger] r[j]).name,
        (#[trigger] r[i]).name,
    ) by {
        if j < p {
            assert(r[i] == s[i] && r[j] == s[j]);
        } else if j == p {
            assert(r[i] == s[i]);
        } else if i > p {
            assert(r[i] == s[i - 1] && r[j] == s[j - 1]);
        } else if i == p {
            assert(r[j] == s[j - 1]);
            if str_lt(s[j - 1].name, v.name) {
                lemma_str_lt_transitive(s[j - 1].name, v.name, s[p].name);
                if j - 1 > p {
                    assert(!str_lt(s[j - 1].name, s[p].name));
                } else {
                    crate::text::lemma_str_lt_irreflexive(s[p].name);
                }
            }
        } else {
            assert(r[i] == s[i] && r[j] == s[j - 1]);
        }
    }
}

/// Adding a variable keeps the variables in the order of their names, and
/// adds that variable and no other.
pub proof fn lemma_with_var(s: Seq<VarView>, v: VarView)
    ensures
        vars_sorted(s) ==> vars_sorted(with_var(s, v)),
        with_var(s, v).contains(v),
        forall|w: VarView| s.contains(w) ==> with_var(s, v).contains(w),
        forall|w: VarView| with_var(s, v).contains(w) ==> w == v || s.contains(w),
{
    lemma_var_pos(s, v.name);
    let p = var_pos(s, v.name);
    let r = with_var(s, v);
    if !s.contains(v) {
        assert(r[p] == v);
        assert forall|w: VarView| s.contains(w) implies r.contains(w) by {
            let i = choose|i: int| 0 <= i < s.len() && s[i] == w;
            if i < p {
                assert(r[i] == w);
            } else {
                assert(r[i + 1] == w);
            }
        }
        assert forall|w: VarView| r.contains(w) implies w == v || s.contains(w) by {
            let i = choose|i: int| 0 <= i < r.len() && r[i] == w;
            if i < p {
                assert(s[i] == w);
            } else if i > p {
                assert(s[i - 1] == w);
            }
        }
        if vars_sorted(s) {
            lemma_insert_var_sorted(s, v);
        }
    }
}

/// The variables of `vars` in the order of their names; variables of one
/// name stay in the order in which they stand.
pub open spec fn vars_by_name(vars: Seq<VarView>) -> Seq<VarView>
    decreases vars.len(),
{
    if vars.len() == 0 {
        Seq::empty()
    } else {
        let t = vars_by_name(vars.drop_last());
        t.insert(var_pos(t, vars.last().name), vars.last())
    }
}

/// A variable whose name precedes none of the names of a list goes behind
/// the list.
pub proof fn lemma_var_pos_at_end(s: Seq<VarView>, x: Seq<char>)
    requires
        forall|i: int| 0 <= i < s.len() ==> !str_lt(x, (#[trigger] s[i]).name),
    ensures
        var_pos(s, x) == s.len(),
    decreases s.len(),
{
    if s.len() > 0 {
        let t = s.drop_first();
        assert(!str_lt(x, s[0].name));
        assert forall|i: int| 0 <= i < t.len() implies !str_lt(x, (#[trigger] t[i]).name) by {
            assert(t[i] == s[i + 1]);
        }
        lemma_var_pos_at_end(t, x);
    }
}

/// Ordering variables by name gives a list in the order of the names, as
/// long as the list that was given, with the same variables; a list
/// that is in the order of the names already is left as it is.
pub proof fn lemma_vars_by_name(vars: Seq<VarView>)
    ensures
        vars_sorted(vars_by_name(vars)),
        vars_by_name(vars).len() == vars.len(),
        holds_vars(vars_by_name(vars), vars),
        holds_vars(vars, vars_by_name(vars)),
        vars_sorted(vars) ==> vars_by_name(vars) == vars,
    decreases vars.len(),
{
    if vars.len() > 0 {
        let d = vars.drop_last();
        let t = vars_by_name(d);
        let v = vars.last();
        lemma_vars_by_name(d);
        lemma_var_pos(t, v.name);
        lemma_insert_var_sorted(t, v);
        let p = var_pos(t, v.name);
        let r = t.insert(p, v);
        assert forall|w: VarView| vars.contains(w) implies r.contains(w) by {
            let i = choose|i: int| 0 <= i < vars.len() && vars[i] == w;
            if i < vars.len() - 1 {
                assert(d[i] == w);
                assert(d.contains(w));
                let k = choose|k: int| 0 <= k < t.len() && t[k] == w;
                if k < p {
                    assert(r[k] == w);
                } else {
                    assert(r[k + 1] == w);
                }
            } else {
                assert(r[p] == w);
            }
        }
        assert forall|w: VarView| r.contains(w) implies vars.contains(w) by {
            let k = choose|k: int| 0 <= k < r.len() && r[k] == w;
            if k == p {
                assert(vars[vars.len() - 1] == w);
            } else {
                let k2 = if k < p {
                    k
                } else {
                    k - 1
                };
                assert(t[k2] == w);
                assert(t.contains(w));
                let i = choose|i: int| 0 <= i < d.len() && d[i] == w;
                assert(vars[i] == w);
            }
        }
        if vars_sorted(vars) {
            assert forall|i: int, j: int| 0 <= i < j < d.len() implies !str_lt(
                (#[trigger] d[j]).name,
                (#[trigger] d[i]).name,
            ) by {
                assert(d[i] == vars[i] && d[j] == vars[j]);
            }
            assert(t == d);
            assert forall|i: int| 0 <= i < d.len() implies !str_lt(
                v.name,
                (#[trigger] d[i]).name,
            ) by {
                assert(d[i] == vars[i]);
                assert(!str_lt(vars[vars.len() - 1].name, vars[i].name));
            }
            lemma_var_pos_at_end(d, v.name);
            assert(r =~= vars);
        }
    }
}

/// Whether every variable of `b` is among those of `a`.
pub open spec fn holds_vars(a: Seq<VarView>, b: Seq<VarView>) -> bool {
    forall|v: VarView| b.contains(v) ==> a.contains(v)
}

/// Adding variables keeps the variables in the order of their names, and
/// keeps those that were there and adds those that are new.
pub proof fn lemma_with_vars(s: Seq<VarView>, more: Seq<VarView>)
    ensures
        vars_sorted(s) ==> vars_sorted(with_vars(s, more)),
        holds_vars(with_vars(s, more), s),
        holds_vars(with_vars(s, more), more),
    decreases more.len(),
{
    if more.len() > 0 {
        let t = with_vars(s, more.drop_last());
        lemma_with_vars(s, more.drop_last());
        lemma_with_var(t, more.last());
        assert forall|w: VarView| more.contains(w) implies with_vars(s, more).contains(w) by {
            let i = choose|i: int| 0 <= i < more.len() && more[i] == w;
            if i < more.len() - 1 {
                assert(more.drop_last()[i] == w);
                assert(more.drop_last().contains(w));
            }
        }
    }
}

impl View for Model {
    type V = ModelView;

    open spec fn view(&self) -> ModelView {
        ModelView {
            name: self.name@,
            vars: var_views(self.vars@),
            func_models: func_model_views(self.func_models@),
        }
    }
}

impl Clone for Model {
    fn clone(&self) -> (r: Self)
        ensures
            r@ == self@,
    {
        let mut vars: Vec<Var> = Vec::new();
        let mut i: usize = 0;
        while i < self.vars.len()
            invariant
                i <= self.vars.len(),
                vars@.len() == i,
                forall|j: int| 0 <= j < i ==> vars@[j]@ == self.vars@[j]@,
            decreases self.vars.len() - i,
        {
            vars.push(self.vars[i].clone());
            i += 1;
        }
        let mut fms: Vec<FuncModel> = Vec::new();
        let mut k: usize = 0;
        while k < self.func_models.len()
            invariant
                k <= self.func_models.len(),
                fms@.len() == k,
                forall|j: int| 0 <= j < k ==> fms@[j]@ == self.func_models@[j]@,
            decreases self.func_models.len() - k,
        {
            fms.push(self.func_models[k].clone());
            k += 1;
        }
        assert(var_views(vars@) =~= var_views(self.vars@));
        assert(func_model_views(fms@) =~= func_model_views(self.func_models@));
        Model { name: self.name.clone(), vars, func_models: fms }
    }
}

impl Model {
    /// A model named `name`, without variables or procedures.
    pub fn new(name: &str) -> (r: Self)
        ensures
            r@ == (ModelView { name: name@, vars: Seq::empty(), func_models: Seq::empty() }),
    {
        let r = Model { name: String::from_str(name), vars: Vec::new(), func_models: Vec::new() };
        assert(var_views(r.vars@) =~= Seq::<VarView>::empty());
        assert(func_model_views(r.func_models@) =~= Seq::<FuncModelView>::empty());
        r
    }

    /// Whether a procedure named `name` is in the model.
    pub fn has_func_model(&self, name: &str) -> (r: bool)
        ensures
            r == has_func(self@.func_models, name@),
    {
        let mut i: usize = 0;
        while i < self.func_models.len()
            invariant
                i <= self.func_models.len(),
                forall|j: int| 0 <= j < i ==> (#[trigger] self@.func_models[j]).sig.name != name@,
            decreases self.func_models.len() - i,
        {
            if str_eq(self.func_models[i].sig.name.as_str(), name) {
                assert(self@.func_models[i as int].sig.name == name@);
                return true;
            }
            i += 1;
        }
        false
    }

    /// Adds a procedure, unless one of its name is there already.
    pub fn add_func_model(&mut self, fm: FuncModel)
        ensures
            final(self)@ == (ModelView {
                func_models: with_func(old(self)@.func_models, fm@),
                ..old(self)@
            }),
    {
        if !self.has_func_model(fm.sig.name.as_str()) {
            self.func_models.push(fm);
            assert(self@.func_models =~= old(self)@.func_models.push(fm@));
        }
    }

    /// Adds procedures one after the other.
    pub fn add_func_models(&mut self, fms: Vec<FuncModel>)
        ensures
            final(self)@ == (ModelView {
                func_models: with_funcs(old(self)@.func_models, func_model_views(fms@)),
                ..old(self)@
            }),
    {
        let ghost all = func_model_views(fms@);
        let mut i: usize = 0;
        assert(all.take(0) =~= Seq::<FuncModelView>::empty());
        while i < fms.len()
            invariant
                i <= fms.len(),
                all == func_model_views(fms@),
                self@ == (ModelView {
                    func_models: with_funcs(old(self)@.func_models, all.take(i as int)),
                    ..old(self)@
                }),
            decreases fms.len() - i,
        {
            proof {
                assert(all.take(i + 1).drop_last() =~= all.take(i as int));
                assert(all.take(i + 1).last() == fms@[i as int]@);
            }
            self.add_func_model(fms[i].clone());
            i += 1;
        }
        assert(all.take(fms.len() as int) =~= all);
    }

    /// Whether `var` is among the variables.
    pub fn has_var(&self, var: &Var) -> (r: bool)
        ensures
            r == self@.vars.contains(var@),
    {
        let mut i: usize = 0;
        while i < self.vars.len()
            invariant
                i <= self.vars.len(),
                forall|j: int| 0 <= j < i ==> self@.vars[j] != var@,
            decreases self.vars.len() - i,
        {
            if str_eq(self.vars[i].name.as_str(), var.name.as_str()) && self.vars[i].typ.equals(
                &var.typ,
            ) {
                assert(self@.vars[i as int] == var@);
                return true;
            }
            i += 1;
        }
        false
    }

    /// The variables of the model in the order of their names.
    pub fn vars_in_order(&self) -> (r: Vec<Var>)
        ensures
            var_views(r@) == vars_by_name(self@.vars),
    {
        let ghost vars = self@.vars;
        let mut out: Vec<Var> = Vec::new();
        let mut i: usize = 0;
        assert(vars.take(0) =~= Seq::<VarView>::empty());
        assert(var_views(out@) =~= Seq::<VarView>::empty());
        while i < self.vars.len()
            invariant
                i <= self.vars.len(),
                vars == var_views(self.vars@),
                var_views(out@) == vars_by_name(vars.take(i as int)),
            decreases self.vars.len() - i,
        {
            let v = self.vars[i].clone();
            assert(v@ == vars[i as int]);
            let ghost t = var_views(out@);
            proof {
                lemma_var_pos(t, v@.name);
            }
            let mut p: usize = 0;
            assert(t.skip(0) =~= t);
            while p < out.len() && !str_precedes(v.name.as_str(), out[p].name.as_str())
                invariant
                    p <= out.len(),
                    var_views(out@) == t,
                    var_pos(t, v@.name) == p + var_pos(t.skip(p as int), v@.name),
                decreases out.len() - p,
            {
                assert(t.skip(p as int)[0] == t[p as int]);
                assert(t[p as int] == out@[p as int]@);
                assert(t.skip(p as int).drop_first() =~= t.skip(p + 1));
                p += 1;
            }
            proof {
                if p < t.len() {
                    assert(t.skip(p as int)[0] == t[p as int]);
                    assert(t[p as int] == out@[p as int]@);
                }
                assert(var_pos(t, v@.name) == p);
            }
            out.insert(p, v);
            proof {
                assert(var_views(out@) =~= t.insert(p as int, v@));
                assert(vars.take(i + 1).drop_last() =~= vars.take(i as int));
                assert(vars.take(i + 1).last() == vars[i as int]);
            }
            i += 1;
        }
        assert(vars.take(self.vars.len() as int) =~= vars);
        out
    }

    /// Adds a variable, keeping the variables in the order of their names.
    pub fn add_var(&mut self, var: Var)
        ensures
            final(self)@ == (ModelView { vars: with_var(old(self)@.vars, var@), ..old(self)@ }),
            vars_sorted(old(self)@.vars) ==> vars_sorted(final(self)@.vars),
    {
        let ghost s = self@.vars;
        proof {
            lemma_var_pos(s, var@.name);
            lemma_with_var(s, var@);
        }
        if self.has_var(&var) {
            return ;
        }
        let mut i: usize = 0;
        assert(s.skip(0) =~= s);
        while i < self.vars.len() && !str_precedes(var.name.as_str(), self.vars[i].name.as_str())
            invariant
                i <= self.vars.len(),
                self@.vars == s,
                *self == *old(self),
                var_pos(s, var@.name) == i + var_pos(s.skip(i as int), var@.name),
            decreases self.vars.len() - i,
        {
            assert(s.skip(i as int)[0] == s[i as int]);
            assert(s.skip(i as int).drop_first() =~= s.skip(i + 1));
            i += 1;
        }
        proof {
            if i < s.len() {
                assert(s.skip(i as int)[0] == s[i as int]);
            }
            assert(var_pos(s, var@.name) == i);
        }
        self.vars.insert(i, var);
        assert(self@.vars =~= s.insert(i as int, var@));
    }

    /// Adds variables one after the other.
    pub fn add_vars(&mut self, vars: &Vec<Var>)
        ensures
            final(self)@ == (ModelView {
                vars: with_vars(old(self)@.vars, var_views(vars@)),
                ..old(self)@
            }),
            vars_sorted(old(self)@.vars) ==> vars_sorted(final(self)@.vars),
    {
        let ghost all = var_views(vars@);
        let mut i: usize = 0;
        assert(all.take(0) =~= Seq::<VarView>::empty());
        while i < vars.len()
            invariant
                i <= vars.len(),
                all == var_views(vars@),
                self@ == (ModelView {
                    vars: with_vars(old(self)@.vars, all.take(i as int)),
                    ..old(self)@
                }),
                vars_sorted(old(self)@.vars) ==> vars_sorted(self@.vars),
            decreases vars.len() - i,
        {
            proof {
                assert(all.take(i + 1).drop_last() =~= all.take(i as int));
                assert(all.take(i + 1).last() == vars@[i as int]@);
            }
            self.add_var(vars[i].clone());
            i += 1;
        }
        assert(all.take(vars.len() as int) =~= all);
    }
}


// =======================================================
// Rewriting

/// A rewriting pass over statements, with a context of type `C` that is
/// handed to every hook.
///
/// A traversal visits the parts of a node first, from left to right, and
/// then hands the node, with its parts rewritten, to the hook for it. A
/// pass says with its `*_rewritten` functions what its hooks make of a
/// node and of the context.
pub trait ASTRewriter<C: View> {
    /// What the pass makes of an expression whose operands are rewritten
    /// already.
    spec fn expr_rewritten(e: ExprView, c: C::V) -> (ExprView, C::V);

    /// What the pass makes of a statement whose parts are rewritten
    /// already.
    spec fn stmt_rewritten(s: StmtView, c: C::V) -> (StmtView, C::V);

    /// Rewrites an expression whose operands are rewritten already.
    fn rewrite_expr(expr: Expr, ctx: &mut C) -> (r: Expr)
        ensures
            (r@, final(ctx)@) == Self::expr_rewritten(expr@, old(ctx)@),
    ;

    /// Rewrites a statement whose parts are rewritten already.
    fn rewrite_stmt(stmt: Stmt, ctx: &mut C) -> (r: Stmt)
        ensures
            (r@, final(ctx)@) == Self::stmt_rewritten(stmt@, old(ctx)@),
    ;
}

/// The expression `e` with the operands `args` in place of its own.
pub open spec fn with_operands(e: ExprView, args: Seq<ExprView>) -> ExprView {
    match e {
        ExprView::OpApp(op, _, t) => ExprView::OpApp(op, args, t),
        ExprView::FuncApp(name, _, t) => ExprView::FuncApp(name, args, t),
        _ => e,
    }
}

/// What the pass `R` makes of the expression `e` and the context `c`: of
/// its operands first, then of the expression itself.
pub open spec fn visited_expr<C: View, R: ASTRewriter<C>>(e: ExprView, c: C::V) -> (ExprView, C::V)
    decreases e, operands(e).len() + 1,
{
    match e {
        ExprView::OpApp(_, _, _) => {
            let p = visited_operands::<C, R>(e, 0, c, Seq::empty());
            R::expr_rewritten(with_operands(e, p.0), p.1)
        },
        ExprView::FuncApp(_, _, _) => {
            let p = visited_operands::<C, R>(e, 0, c, Seq::empty());
            R::expr_rewritten(with_operands(e, p.0), p.1)
        },
        _ => R::expr_rewritten(e, c),
    }
}

/// What the pass `R` makes of the operands of `e` from index `i` on, after
/// the operands before them have become `done`.
pub open spec fn visited_operands<C: View, R: ASTRewriter<C>>(
    e: ExprView,
    i: nat,
    c: C::V,
    done: Seq<ExprView>,
) -> (Seq<ExprView>, C::V)
    decreases e, operands(e).len() - i,
{
    if i >= operands(e).len() {
        (done, c)
    } else {
        let p = visited_expr::<C, R>(operands(e)[i as int], c);
        visited_operands::<C, R>(e, i + 1, p.1, done.push(p.0))
    }
}

/// What the pass `R` makes of the expressions of `v` from index `i` on,
/// after the expressions before them have become `done`.
pub open spec fn visited_exprs<C: View, R: ASTRewriter<C>>(
    v: Seq<ExprView>,
    i: nat,
    c: C::V,
    done: Seq<ExprView>,
) -> (Seq<ExprView>, C::V)
    decreases v.len() - i,
{
    if i >= v.len() {
        (done, c)
    } else {
        let p = visited_expr::<C, R>(v[i as int], c);
        visited_exprs::<C, R>(v, i + 1, p.1, done.push(p.0))
    }
}

/// What the pass `R` makes of the statement `s` and the context `c`: of
/// its parts first, then of the statement itself.
pub open spec fn visited_stmt<C: View, R: ASTRewriter<C>>(s: StmtView, c: C::V) -> (StmtView, C::V)
    decreases s, block_stmts(s).len() + 1,
{
    match s {
        StmtView::Assume(e) => {
            let p = visited_expr::<C, R>(e, c);
            R::stmt_rewritten(StmtView::Assume(p.0), p.1)
        },
        StmtView::FuncCall(fc) => {
            let l = visited_exprs::<C, R>(fc.lhs, 0, c, Seq::empty());
            let o = visited_exprs::<C, R>(fc.operands, 0, l.1, Seq::empty());
            R::stmt_rewritten(
                StmtView::FuncCall(
                    FuncCallView { func_name: fc.func_name, lhs: l.0, operands: o.0 },
                ),
                o.1,
            )
        },
        StmtView::Assign(a) => {
            let l = visited_exprs::<C, R>(a.lhs, 0, c, Seq::empty());
            let r = visited_exprs::<C, R>(a.rhs, 0, l.1, Seq::empty());
            R::stmt_rewritten(StmtView::Assign(AssignView { lhs: l.0, rhs: r.0 }), r.1)
        },
        StmtView::IfThenElse(ite) => {
            let cond = visited_expr::<C, R>(ite.cond, c);
            let thn = visited_stmt::<C, R>(*ite.then_stmt, cond.1);
            match ite.else_stmt {
                Some(e) => {
                    let els = visited_stmt::<C, R>(*e, thn.1);
                    R::stmt_rewritten(
                        StmtView::IfThenElse(
                            IfThenElseView {
                                cond: cond.0,
                                then_stmt: Box::new(thn.0),
                                else_stmt: Some(Box::new(els.0)),
                            },
                        ),
                        els.1,
                    )
                },
                None => R::stmt_rewritten(
                    StmtView::IfThenElse(
                        IfThenElseView {
                            cond: cond.0,
                            then_stmt: Box::new(thn.0),
                            else_stmt: None,
                        },
                    ),
                    thn.1,
                ),
            }
        },
        StmtView::Block(_) => {
            let p = visited_block::<C, R>(s, 0, c, Seq::empty());
            R::stmt_rewritten(StmtView::Block(p.0), p.1)
        },
        StmtView::Comment(_) => R::stmt_rewritten(s, c),
    }
}

/// What the pass `R` makes of the statements of the block `s` from index
/// `i` on, after the statements before them have become `done`.
pub open spec fn visited_block<C: View, R: ASTRewriter<C>>(
    s: StmtView,
    i: nat,
    c: C::V,
    done: Seq<StmtView>,
) -> (Seq<StmtView>, C::V)
    decreases s, block_stmts(s).len() - i,
{
    if i >= block_stmts(s).len() {
        (done, c)
    } else {
        let p = visited_stmt::<C, R>(block_stmts(s)[i as int], c);
        visited_block::<C, R>(s, i + 1, p.1, done.push(p.0))
    }
}

/// Runs the pass `R` over an expression: over its operands from left to
/// right, then over the expression itself.
pub fn visit_expr<C: View, R: ASTRewriter<C>>(expr: &Expr, ctx: &mut C) -> (r: Expr)
    ensures
        (r@, final(ctx)@) == visited_expr::<C, R>(expr@, old(ctx)@),
    decreases expr,
{
    let ghost ev = expr@;
    match expr {
        Expr::OpApp(opapp, typ) => {
            proof {
                Expr::lemma_view_opapp(*opapp, *typ);
            }
            let mut out: Vec<Expr> = Vec::new();
            let mut i: usize = 0;
            assert(expr_views(out@) =~= Seq::<ExprView>::empty());
            while i < opapp.operands.len()
                invariant
                    i <= opapp.operands.len(),
                    ev == expr@,
                    ev == ExprView::OpApp(opapp.op@, expr_views(opapp.operands@), typ@),
                    visited_operands::<C, R>(ev, 0, old(ctx)@, Seq::empty()) == visited_operands::<
                        C,
                        R,
                    >(ev, i as nat, ctx@, expr_views(out@)),
                    decreases_to!(expr => opapp.operands),
                decreases opapp.operands.len() - i,
            {
                let ghost done = expr_views(out@);
                assert(operands(ev)[i as int] == opapp.operands@[i as int]@);
                let x = visit_expr::<C, R>(&opapp.operands[i], ctx);
                out.push(x);
                assert(expr_views(out@) =~= done.push(x@));
                i += 1;
            }
            let oa = OpApp { op: opapp.op.clone(), operands: out };
            let t = typ.clone();
            proof {
                Expr::lemma_view_opapp(oa, t);
            }
            R::rewrite_expr(Expr::OpApp(oa, t), ctx)
        },
        Expr::FuncApp(fapp, typ) => {
            proof {
                Expr::lemma_view_funcapp(*fapp, *typ);
            }
            let mut out: Vec<Expr> = Vec::new();
            let mut i: usize = 0;
            assert(expr_views(out@) =~= Seq::<ExprView>::empty());
            while i < fapp.operands.len()
                invariant
                    i <= fapp.operands.len(),
                    ev == expr@,
                    ev == ExprView::FuncApp(fapp.func_name@, expr_views(fapp.operands@), typ@),
                    visited_operands::<C, R>(ev, 0, old(ctx)@, Seq::empty()) == visited_operands::<
                        C,
                        R,
                    >(ev, i as nat, ctx@, expr_views(out@)),
                    decreases_to!(expr => fapp.operands),
                decreases fapp.operands.len() - i,
            {
                let ghost done = expr_views(out@);
                assert(operands(ev)[i as int] == fapp.operands@[i as int]@);
                let x = visit_expr::<C, R>(&fapp.operands[i], ctx);
                out.push(x);
                assert(expr_views(out@) =~= done.push(x@));
                i += 1;
            }
            let fa = FuncApp { func_name: fapp.func_name.clone(), operands: out };
            let t = typ.clone();
            proof {
                Expr::lemma_view_funcapp(fa, t);
            }
            R::rewrite_expr(Expr::FuncApp(fa, t), ctx)
        },
        _ => R::rewrite_expr(expr.clone(), ctx),
    }
}

/// Runs the pass `R` over the expressions of a list, from left to right.
pub fn visit_exprs<C: View, R: ASTRewriter<C>>(exprs: &Vec<Expr>, ctx: &mut C) -> (r: Vec<Expr>)
    ensures
        (expr_views(r@), final(ctx)@) == visited_exprs::<C, R>(
            expr_views(exprs@),
            0,
            old(ctx)@,
            Seq::empty(),
        ),
{
    let ghost all = expr_views(exprs@);
    let mut out: Vec<Expr> = Vec::new();
    let mut i: usize = 0;
    assert(expr_views(out@) =~= Seq::<ExprView>::empty());
    while i < exprs.len()
        invariant
            i <= exprs.len(),
            all == expr_views(exprs@),
            visited_exprs::<C, R>(all, 0, old(ctx)@, Seq::empty()) == visited_exprs::<C, R>(
                all,
                i as nat,
                ctx@,
                expr_views(out@),
            ),
        decreases exprs.len() - i,
    {
        let ghost done = expr_views(out@);
        assert(all[i as int] == exprs@[i as int]@);
        let x = visit_expr::<C, R>(&exprs[i], ctx);
        out.push(x);
        assert(expr_views(out@) =~= done.push(x@));
        i += 1;
    }
    out
}

/// Runs the pass `R` over a statement: over its parts from left to right,
/// then over the statement itself.
pub fn visit_stmt<C: View, R: ASTRewriter<C>>(stmt: &Stmt, ctx: &mut C) -> (r: Stmt)
    ensures
        (r@, final(ctx)@) == visited_stmt::<C, R>(stmt@, old(ctx)@),
    decreases stmt,
{
    let ghost sv = stmt@;
    match stmt {
        Stmt::Assume(e) => {
            let x = visit_expr::<C, R>(e, ctx);
            R::rewrite_stmt(Stmt::Assume(x), ctx)
        },
        Stmt::FuncCall(fc) => {
            let lhs = visit_exprs::<C, R>(&fc.lhs, ctx);
            let ops = visit_exprs::<C, R>(&fc.operands, ctx);
            R::rewrite_stmt(
                Stmt::FuncCall(FuncCall { func_name: fc.func_name.clone(), lhs, operands: ops }),
                ctx,
            )
        },
        Stmt::Assign(a) => {
            let lhs = visit_exprs::<C, R>(&a.lhs, ctx);
            let rhs = visit_exprs::<C, R>(&a.rhs, ctx);
            R::rewrite_stmt(Stmt::Assign(Assign { lhs, rhs }), ctx)
        },
        Stmt::IfThenElse(ite) => {
            let cond = visit_expr::<C, R>(&ite.cond, ctx);
            let thn = visit_stmt::<C, R>(&ite.then_stmt, ctx);
            let els = match &ite.else_stmt {
                Some(e) => Some(Box::new(visit_stmt::<C, R>(e, ctx))),
                None => None,
            };
            R::rewrite_stmt(
                Stmt::IfThenElse(IfThenElse { cond, then_stmt: Box::new(thn), else_stmt: els }),
                ctx,
            )
        },
        Stmt::Block(stmts) => {
            proof {
                Stmt::lemma_view_block(*stmts);
            }
            let mut out: Vec<Box<Stmt>> = Vec::new();
            let mut i: usize = 0;
            assert(stmt_views(out@) =~= Seq::<StmtView>::empty());
            while i < stmts.len()
                invariant
                    i <= stmts.len(),
                    sv == stmt@,
                    sv == StmtView::Block(stmt_views(stmts@)),
                    visited_block::<C, R>(sv, 0, old(ctx)@, Seq::empty()) == visited_block::<C, R>(
                        sv,
                        i as nat,
                        ctx@,
                        stmt_views(out@),
                    ),
                    decreases_to!(stmt => stmts),
                decreases stmts.len() - i,
            {
                let ghost done = stmt_views(out@);
                assert(block_stmts(sv)[i as int] == (*stmts@[i as int])@);
                let x = visit_stmt::<C, R>(&stmts[i], ctx);
                out.push(Box::new(x));
                assert(stmt_views(out@) =~= done.push(x@));
                i += 1;
            }
            proof {
                Stmt::lemma_view_block(out);
            }
            R::rewrite_stmt(Stmt::Block(out), ctx)
        },
        Stmt::Comment(c) => R::rewrite_stmt(Stmt::Comment(c.clone()), ctx),
    }
}


// =======================================================
// Names for messages

/// The index types of an array type; none for other types.
pub open spec fn array_index_types(t: TypeView) -> Seq<TypeView> {
    match t {
        TypeView::Array { in_typs, out_typ } => in_typs,
        _ => Seq::empty(),
    }
}

/// Whether the type `t` has a name: every array type that the name shows
/// says what it is indexed by.
pub open spec fn has_label(t: TypeView) -> bool
    decreases t, 1int, 0nat,
{
    match t {
        TypeView::Array { in_typs, out_typ } => in_typs.len() > 0 && have_labels(t, 0)
            && has_label(*out_typ),
        _ => true,
    }
}

/// Whether the index types of the array type `t` from index `i` on have
/// names.
pub open spec fn have_labels(t: TypeView, i: nat) -> bool
    decreases t, 0int, array_index_types(t).len() - i,
{
    i >= array_index_types(t).len() || (has_label(array_index_types(t)[i as int])
        && have_labels(t, i + 1))
}

/// The name of a type, as it is shown in messages: `Unknown`, `bool`,
/// `int`, `bv` and the width, the index types in brackets before the
/// element type, or `struct` and the struct's name.
pub open spec fn type_label(t: TypeView) -> Seq<char>
    decreases t, 1int,
{
    match t {
        TypeView::Unknown => "Unknown"@,
        TypeView::Bool => "bool"@,
        TypeView::Int => "int"@,
        TypeView::Bv { w } => "bv"@ + dec_digits(w as nat),
        TypeView::Array { in_typs, out_typ } => "["@ + join(type_labels(t), ", "@) + "]"@
            + type_label(*out_typ),
        TypeView::Struct { id, fields, w } => "struct "@ + id,
    }
}

/// The names of the index types of an array type.
pub open spec fn type_labels(t: TypeView) -> Seq<Seq<char>>
    decreases t, 0int,
{
    Seq::new(
        array_index_types(t).len(),
        |i: int|
            if 0 <= i < array_index_types(t).len() {
                type_label(array_index_types(t)[i])
            } else {
                arbitrary()
            },
    )
}

/// Where the index types of an array type have names from an index on,
/// each of them has.
proof fn lemma_have_labels(t: TypeView, i: nat, j: int)
    requires
        have_labels(t, i),
        i <= j < array_index_types(t).len(),
    ensures
        has_label(array_index_types(t)[j]),
    decreases array_index_types(t).len() - i,
{
    if i < j {
        lemma_have_labels(t, i + 1, j);
    }
}

/// The name of a literal, as it is shown in messages.
pub open spec fn literal_label(l: Literal) -> Seq<char> {
    match l {
        Literal::Bv { val, width } => dec_digits(val as nat) + "bv"@ + dec_digits(width as nat),
        Literal::Bool { val } => if val {
            "true"@
        } else {
            "false"@
        },
        Literal::Int { val } => dec_digits(val as nat),
    }
}

impl Type {
    /// Whether the type has a name.
    pub fn is_labelled(&self) -> (r: bool)
        ensures
            r == has_label(self@),
        decreases self,
    {
        match self {
            Type::Array { in_typs, out_typ } => {
                proof {
                    Type::lemma_view_array(*in_typs, *out_typ);
                }
                let ghost tv = self@;
                if in_typs.len() == 0 {
                    return false;
                }
                let mut i: usize = 0;
                while i < in_typs.len()
                    invariant
                        i <= in_typs.len(),
                        tv == self@,
                        array_index_types(tv) == boxed_type_views(in_typs@),
                        have_labels(tv, 0) == have_labels(tv, i as nat),
                        decreases_to!(self => in_typs),
                    decreases in_typs.len() - i,
                {
                    assert(array_index_types(tv)[i as int] == (*in_typs@[i as int])@);
                    if !in_typs[i].is_labelled() {
                        return false;
                    }
                    i += 1;
                }
                out_typ.is_labelled()
            },
            _ => true,
        }
    }

    /// The name of the type, as it is shown in messages.
    pub fn to_string(&self) -> (r: String)
        requires
            has_label(self@),
        ensures
            r@ == type_label(self@),
        decreases self,
    {
        match self {
            Type::Unknown => String::from_str("Unknown"),
            Type::Bool => String::from_str("bool"),
            Type::Int => String::from_str("int"),
            Type::Bv { w } => {
                let mut s = String::from_str("bv");
                s.append(u64_to_dec(*w).as_str());
                s
            },
            Type::Array { in_typs, out_typ } => {
                proof {
                    Type::lemma_view_array(*in_typs, *out_typ);
                }
                let ghost tv = self@;
                let mut parts: Vec<String> = Vec::new();
                let mut i: usize = 0;
                while i < in_typs.len()
                    invariant
                        i <= in_typs.len(),
                        parts@.len() == i,
                        tv == self@,
                        have_labels(tv, 0),
                        array_index_types(tv) == boxed_type_views(in_typs@),
                        forall|j: int|
                            0 <= j < i ==> parts@[j]@ == type_label(array_index_types(tv)[j]),
                        decreases_to!(self => in_typs),
                    decreases in_typs.len() - i,
                {
                    assert(array_index_types(tv)[i as int] == (*in_typs@[i as int])@);
                    proof {
                        lemma_have_labels(tv, 0, i as int);
                    }
                    let t = in_typs[i].to_string();
                    parts.push(t);
                    i += 1;
                }
                assert(views(parts@) =~= type_labels(tv));
                let mut s = String::from_str("[");
                s.append(join_strings(&parts, ", ").as_str());
                s.append("]");
                s.append(out_typ.to_string().as_str());
                s
            },
            Type::Struct { id, fields, w } => {
                proof {
                    Type::lemma_view_struct(*id, *fields, *w);
                }
                let mut s = String::from_str("struct ");
                s.append(id.as_str());
                s
            },
        }
    }
}

impl Literal {
    /// The name of the literal, as it is shown in messages.
    pub fn to_string(&self) -> (r: String)
        ensures
            r@ == literal_label(*self),
    {
        match self {
            Literal::Bv { val, width } => {
                let mut s = u64_to_dec(*val);
                s.append("bv");
                s.append(u64_to_dec(*width).as_str());
                s
            },
            Literal::Bool { val } => if *val {
                String::from_str("true")
            } else {
                String::from_str("false")
            },
            Literal::Int { val } => u64_to_dec(*val),
        }
    }
}

impl Var {
    /// The name of the variable.
    pub fn to_string(&self) -> (r: String)
        ensures
            r@ == self@.name,
    {
        self.name.clone()
    }

    /// Whether this variable comes before `other` in the order of
    /// variables, which is that of their names.
    pub fn precedes(&self, other: &Var) -> (r: bool)
        ensures
            r == str_lt(self@.name, other@.name),
    {
        str_precedes(self.name.as_str(), other.name.as_str())
    }
}

} // verus!
