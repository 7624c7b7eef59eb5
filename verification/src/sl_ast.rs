//! The specification IR: the boolean and value expressions in which the
//! contracts of functions are written, and their types.

use crate::names::NameSet;
use crate::text::str_eq;
use crate::veriv_ast::{Type, TypeView};
use vstd::prelude::*;

verus! {

// ==================================================================
// Types

/// A named field of a struct type.
#[derive(Debug, PartialEq)]
pub struct VField {
    pub name: String,
    pub typ: VType,
}

/// The mathematical value of a [`VField`].
pub struct VFieldView {
    pub name: Seq<char>,
    pub typ: VTypeView,
}

/// A type of the specification IR.
#[derive(Debug, PartialEq)]
pub enum VType {
    Unknown,
    Bv(u16),
    Int,
    Bool,
    Array { in_type: Box<VType>, out_type: Box<VType> },
    /// A struct of `size` bits; `fields` lists each field's name and type.
    Struct { id: String, fields: Vec<VField>, size: u64 },
}

/// The mathematical value of a [`VType`].
pub enum VTypeView {
    Unknown,
    Bv(u16),
    Int,
    Bool,
    Array { in_type: Box<VTypeView>, out_type: Box<VTypeView> },
    Struct { id: Seq<char>, fields: Seq<VFieldView>, size: u64 },
}

/// The type of the first field of `fields` that is named `name`.
pub open spec fn vfield_type(fields: Seq<VFieldView>, name: Seq<char>) -> Option<VTypeView>
    decreases fields.len(),
{
    if fields.len() == 0 {
        None
    } else if fields[0].name == name {
        Some(fields[0].typ)
    } else {
        vfield_type(fields.drop_first(), name)
    }
}

/// The views of a list of named fields.
pub open spec fn vfield_views(v: Seq<VField>) -> Seq<VFieldView> {
    Seq::new(v.len(), |i: int| v[i]@)
}

impl VTypeView {
    /// The size in bits of what an array of this type holds, where it is an
    /// array of bit-vectors or of structs.
    pub open spec fn array_out_size(self) -> Option<u64> {
        match self {
            VTypeView::Array { in_type, out_type } => match *out_type {
                VTypeView::Bv(w) => Some(w as u64),
                VTypeView::Struct { id, fields, size } => Some(size),
                _ => None,
            },
            _ => None,
        }
    }
}

impl VType {
    pub open spec fn model(&self) -> VTypeView
        decreases self,
    {
        match self {
            VType::Unknown => VTypeView::Unknown,
            VType::Bv(w) => VTypeView::Bv(*w),
            VType::Int => VTypeView::Int,
            VType::Bool => VTypeView::Bool,
            VType::Array { in_type, out_type } => VTypeView::Array {
                in_type: Box::new((**in_type).model()),
                out_type: Box::new((**out_type).model()),
            },
            VType::Struct { id, fields, size } => VTypeView::Struct {
                id: id@,
                fields: Seq::new(
                    fields@.len(),
                    |i: int|
                        if 0 <= i < fields@.len() {
                            VFieldView { name: fields@[i].name@, typ: fields@[i].typ.model() }
                        } else {
                            arbitrary()
                        },
                ),
                size: *size,
            },
        }
    }

    /// The view of a struct type is made of the views of its parts.
    pub proof fn lemma_view_struct(id: String, fields: Vec<VField>, size: u64)
        ensures
            (VType::Struct { id, fields, size })@ == (VTypeView::Struct {
                id: id@,
                fields: vfield_views(fields@),
                size,
            }),
    {
        assert((VType::Struct { id, fields, size })@->Struct_fields =~= vfield_views(fields@));
    }

    /// The element type of an array type.
    pub fn get_array_out_type(&self) -> (r: &VType)
        requires
            self@ is Array,
        ensures
            r@ == *self@->Array_out_type,
    {
        match self {
            VType::Array { in_type: _, out_type } => out_type,
            _ => self,
        }
    }

    /// The size in bits of the elements of an array of bit-vectors or of
    /// structs.
    pub fn get_array_out_type_size(&self) -> (r: u64)
        requires
            self@.array_out_size() is Some,
        ensures
            r == self@.array_out_size()->0,
    {
        proof {
            reveal_with_fuel(VType::model, 2);
        }
        match self {
            VType::Array { in_type: _, out_type } => match &**out_type {
                VType::Bv(w) => *w as u64,
                VType::Struct { id: _, fields: _, size } => *size,
                _ => 0,
            },
            _ => 0,
        }
    }

    /// The width of a bit-vector type.
    pub fn get_bv_width(&self) -> (r: u16)
        requires
            self@ is Bv,
        ensures
            r == self@->Bv_0,
    {
        match self {
            VType::Bv(width) => *width,
            _ => 0,
        }
    }

    /// A copy of this type.
    pub fn dup(&self) -> (r: VType)
        ensures
            r@ == self@,
        decreases self,
    {
        match self {
            VType::Unknown => VType::Unknown,
            VType::Bv(w) => VType::Bv(*w),
            VType::Int => VType::Int,
            VType::Bool => VType::Bool,
            VType::Array { in_type, out_type } => {
                let i = in_type.dup();
                let o = out_type.dup();
                VType::Array { in_type: Box::new(i), out_type: Box::new(o) }
            },
            VType::Struct { id, fields, size } => {
                let mut v: Vec<VField> = Vec::new();
                let mut i: usize = 0;
                while i < fields.len()
                    invariant
                        i <= fields.len(),
                        v@.len() == i,
                        forall|j: int| 0 <= j < i ==> v@[j]@ == fields@[j]@,
                        decreases_to!(self => fields),
                    decreases fields.len() - i,
                {
                    let t = fields[i].typ.dup();
                    v.push(VField { name: fields[i].name.clone(), typ: t });
                    i += 1;
                }
                let r = VType::Struct { id: id.clone(), fields: v, size: *size };
                assert(r@->Struct_fields =~= self@->Struct_fields);
                r
            },
        }
    }

    /// Whether two types are the same.
    pub fn equals(&self, other: &VType) -> (r: bool)
        ensures
            r == (self@ == other@),
        decreases self,
    {
        match (self, other) {
            (VType::Unknown, VType::Unknown) => true,
            (VType::Bv(a), VType::Bv(b)) => *a == *b,
            (VType::Int, VType::Int) => true,
            (VType::Bool, VType::Bool) => true,
            (
                VType::Array { in_type: ia, out_type: oa },
                VType::Array { in_type: ib, out_type: ob },
            ) => {
                let x = ia.equals(ib);
                let y = oa.equals(ob);
                x && y
            },
            (
                VType::Struct { id: da, fields: fa, size: wa },
                VType::Struct { id: db, fields: fb, size: wb },
            ) => {
                if !(*da == *db) || *wa != *wb || fa.len() != fb.len() {
                    assert(self@->Struct_fields.len() == fa@.len());
                    assert(other@->Struct_fields.len() == fb@.len());
                    return false;
                }
                let mut i: usize = 0;
                while i < fa.len()
                    invariant
                        i <= fa.len(),
                        fa.len() == fb.len(),
                        forall|j: int| 0 <= j < i ==> fa@[j]@ == fb@[j]@,
                        self@->Struct_fields.len() == fa@.len(),
                        other@->Struct_fields.len() == fb@.len(),
                        forall|j: int| 0 <= j < fa@.len() ==> self@->Struct_fields[j] == fa@[j]@,
                        forall|j: int| 0 <= j < fb@.len() ==> other@->Struct_fields[j] == fb@[j]@,
                        decreases_to!(self => fa),
                    decreases fa.len() - i,
                {
                    if !(fa[i].name == fb[i].name) || !fa[i].typ.equals(&fb[i].typ) {
                        assert(self@->Struct_fields[i as int] != other@->Struct_fields[i as int]);
                        return false;
                    }
                    i += 1;
                }
                assert(self@->Struct_fields =~= other@->Struct_fields);
                true
            },
            _ => false,
        }
    }
}

impl View for VType {
    type V = VTypeView;

    open spec fn view(&self) -> VTypeView {
        self.model()
    }
}

impl Clone for VType {
    fn clone(&self) -> (r: Self)
        ensures
            r@ == self@,
    {
        self.dup()
    }
}

impl View for VField {
    type V = VFieldView;

    open spec fn view(&self) -> VFieldView {
        VFieldView { name: self.name@, typ: self.typ@ }
    }
}

impl Clone for VField {
    fn clone(&self) -> (r: Self)
        ensures
            r@ == self@,
    {
        VField { name: self.name.clone(), typ: self.typ.dup() }
    }
}

/// The type of the first field of `fields` that is named `name`.
pub fn find_vfield<'a>(fields: &'a Vec<VField>, name: &str) -> (r: Option<&'a VType>)
    ensures
        vfield_type(vfield_views(fields@), name@) is Some ==> r is Some && r->0@ == vfield_type(
            vfield_views(fields@),
            name@,
        )->0,
        vfield_type(vfield_views(fields@), name@) is None ==> r is None,
{
    let mut i: usize = 0;
    assert(vfield_views(fields@).skip(0) =~= vfield_views(fields@));
    while i < fields.len()
        invariant
            i <= fields.len(),
            vfield_type(vfield_views(fields@), name@) == vfield_type(
                vfield_views(fields@).skip(i as int),
                name@,
            ),
        decreases fields.len() - i,
    {
        assert(vfield_views(fields@).skip(i as int)[0] == fields@[i as int]@);
        assert(vfield_views(fields@).skip(i as int).drop_first() =~= vfield_views(fields@).skip(
            i + 1,
        ));
        if str_eq(fields[i].name.as_str(), name) {
            return Some(&fields[i].typ);
        }
        i += 1;
    }
    None
}

// ==================================================================
// Expressions

/// Operators on values.
#[derive(Debug, Clone, Copy, PartialEq, Eq, Structural)]
pub enum ValueOp {
    Add,
    Sub,
    Div,
    Mul,
    BvXor,
    BvOr,
    BvAnd,
    /// Arithmetic shift to the right.
    RightShift,
    /// Logical shift to the right.
    URightShift,
    LeftShift,
    ArrayIndex,
    GetField,
    Slice { lo: u16, hi: u16 },
    Concat,
    Deref,
}

/// Comparison operators; those ending in `u` compare unsigned.
#[derive(Debug, Clone, Copy, PartialEq, Eq, Structural)]
pub enum CompOp {
    Equal,
    Nequal,
    Gt,
    Lt,
    Gtu,
    Ltu,
    Geq,
    Leq,
    Geu,
    Leu,
}

/// A value expression, annotated with its type.
#[derive(Debug, PartialEq)]
pub enum VExpr {
    Bv { value: u64, typ: VType },
    Int(i64, VType),
    Bool(bool, VType),
    Ident(String, VType),
    OpApp(ValueOp, Vec<VExpr>, VType),
    FuncApp(String, Vec<VExpr>, VType),
}

/// The mathematical value of a [`VExpr`].
pub enum VExprView {
    Bv { value: u64, typ: VTypeView },
    Int(i64, VTypeView),
    Bool(bool, VTypeView),
    Ident(Seq<char>, VTypeView),
    OpApp(ValueOp, Seq<VExprView>, VTypeView),
    FuncApp(Seq<char>, Seq<VExprView>, VTypeView),
}

/// The number that an `i64` becomes when its bits are read as a `u64`.
pub open spec fn i64_bits(v: i64) -> u64 {
    if v >= 0 {
        v as u64
    } else {
        (v + 0x1_0000_0000_0000_0000) as u64
    }
}

impl VExprView {
    /// The type an expression is annotated with.
    pub open spec fn typ(self) -> VTypeView {
        match self {
            VExprView::Bv { value, typ } => typ,
            VExprView::Int(_, t) => t,
            VExprView::Bool(_, t) => t,
            VExprView::Ident(_, t) => t,
            VExprView::OpApp(_, _, t) => t,
            VExprView::FuncApp(_, _, t) => t,
        }
    }

    /// Whether the expression is a literal.
    pub open spec fn is_lit(self) -> bool {
        self is Bv || self is Int || self is Bool
    }

    /// The number a literal stands for; `false` is 0 and `true` is 1, and
    /// an integer is read as 64 bits.
    pub open spec fn lit_value(self) -> Option<u64> {
        match self {
            VExprView::Bv { value, typ } => Some(value),
            VExprView::Int(v, _) => Some(i64_bits(v)),
            VExprView::Bool(b, _) => Some(
                if b {
                    1u64
                } else {
                    0u64
                },
            ),
            _ => None,
        }
    }
}

/// The views of a sequence of value expressions.
pub open spec fn vexpr_views(v: Seq<VExpr>) -> Seq<VExprView> {
    Seq::new(v.len(), |i: int| v[i]@)
}

/// Copies a list of value expressions.
pub fn clone_vexprs(v: &Vec<VExpr>) -> (r: Vec<VExpr>)
    ensures
        vexpr_views(r@) == vexpr_views(v@),
{
    let mut out: Vec<VExpr> = Vec::new();
    let mut i: usize = 0;
    while i < v.len()
        invariant
            i <= v.len(),
            out@.len() == i,
            forall|j: int| 0 <= j < i ==> out@[j]@ == v@[j]@,
        decreases v.len() - i,
    {
        out.push(v[i].clone());
        i += 1;
    }
    assert(vexpr_views(out@) =~= vexpr_views(v@));
    out
}

impl VExpr {
    pub open spec fn model(&self) -> VExprView
        decreases self,
    {
        match self {
            VExpr::Bv { value, typ } => VExprView::Bv { value: *value, typ: typ@ },
            VExpr::Int(v, t) => VExprView::Int(*v, t@),
            VExpr::Bool(b, t) => VExprView::Bool(*b, t@),
            VExpr::Ident(n, t) => VExprView::Ident(n@, t@),
            VExpr::OpApp(op, args, t) => VExprView::OpApp(
                *op,
                Seq::new(
                    args@.len(),
                    |i: int|
                        if 0 <= i < args@.len() {
                            args@[i].model()
                        } else {
                            arbitrary()
                        },
                ),
                t@,
            ),
            VExpr::FuncApp(f, args, t) => VExprView::FuncApp(
                f@,
                Seq::new(
                    args@.len(),
                    |i: int|
                        if 0 <= i < args@.len() {
                            args@[i].model()
                        } else {
                            arbitrary()
                        },
                ),
                t@,
            ),
        }
    }

    /// The view of an operator application is made of the views of its parts.
    pub proof fn lemma_view_opapp(op: ValueOp, args: Vec<VExpr>, t: VType)
        ensures
            (VExpr::OpApp(op, args, t))@ == VExprView::OpApp(op, vexpr_views(args@), t@),
    {
        assert((VExpr::OpApp(op, args, t))@->OpApp_1 =~= vexpr_views(args@));
    }

    /// The view of a function application is made of the views of its parts.
    pub proof fn lemma_view_funcapp(f: String, args: Vec<VExpr>, t: VType)
        ensures
            (VExpr::FuncApp(f, args, t))@ == VExprView::FuncApp(f@, vexpr_views(args@), t@),
    {
        assert((VExpr::FuncApp(f, args, t))@->FuncApp_1 =~= vexpr_views(args@));
    }

    /// The type of the expression.
    pub fn typ(&self) -> (r: &VType)
        ensures
            r@ == self@.typ(),
    {
        match self {
            VExpr::Bv { value: _, typ } => typ,
            VExpr::Int(_, typ) => typ,
            VExpr::Bool(_, typ) => typ,
            VExpr::Ident(_, typ) => typ,
            VExpr::OpApp(_, _, typ) => typ,
            VExpr::FuncApp(_, _, typ) => typ,
        }
    }

    /// Whether the expression is a literal.
    pub fn is_lit(&self) -> (r: bool)
        ensures
            r == self@.is_lit(),
    {
        match self {
            VExpr::Bv { value: _, typ: _ } => true,
            VExpr::Int(_, _) => true,
            VExpr::Bool(_, _) => true,
            _ => false,
        }
    }

    /// The number a literal stands for.
    pub fn get_lit_value(&self) -> (r: Option<u64>)
        ensures
            r == self@.lit_value(),
    {
        match self {
            VExpr::Bv { value, typ: _ } => Some(*value),
            VExpr::Int(value, _) => {
                let v: i64 = *value;
                if v >= 0 {
                    Some(v as u64)
                } else {
                    Some(u64::MAX - ((-(v + 1)) as u64))
                }
            },
            VExpr::Bool(b, _) => Some(
                if *b {
                    1
                } else {
                    0
                },
            ),
            _ => None,
        }
    }

    /// The name of an identifier.
    pub fn get_ident_name(&self) -> (r: &str)
        requires
            self@ is Ident,
        ensures
            r@ == self@->Ident_0,
    {
        match self {
            VExpr::Ident(name, _) => name.as_str(),
            _ => "",
        }
    }

    /// A copy of this expression.
    pub fn dup(&self) -> (r: VExpr)
        ensures
            r@ == self@,
        decreases self,
    {
        match self {
            VExpr::Bv { value, typ } => VExpr::Bv { value: *value, typ: typ.clone() },
            VExpr::Int(v, t) => VExpr::Int(*v, t.clone()),
            VExpr::Bool(b, t) => VExpr::Bool(*b, t.clone()),
            VExpr::Ident(n, t) => VExpr::Ident(n.clone(), t.clone()),
            VExpr::OpApp(op, args, t) => {
                let mut v: Vec<VExpr> = Vec::new();
                let mut i: usize = 0;
                while i < args.len()
                    invariant
                        i <= args.len(),
                        v@.len() == i,
                        forall|j: int| 0 <= j < i ==> v@[j]@ == args@[j]@,
                        decreases_to!(self => args),
                    decreases args.len() - i,
                {
                    let e = args[i].dup();
                    v.push(e);
                    i += 1;
                }
                let r = VExpr::OpApp(*op, v, t.clone());
                assert(r@->OpApp_1 =~= self@->OpApp_1);
                r
            },
            VExpr::FuncApp(f, args, t) => {
                let mut v: Vec<VExpr> = Vec::new();
                let mut i: usize = 0;
                while i < args.len()
                    invariant
                        i <= args.len(),
                        v@.len() == i,
                        forall|j: int| 0 <= j < i ==> v@[j]@ == args@[j]@,
                        decreases_to!(self => args),
                    decreases args.len() - i,
                {
                    let e = args[i].dup();
                    v.push(e);
                    i += 1;
                }
                let r = VExpr::FuncApp(f.clone(), v, t.clone());
                assert(r@->FuncApp_1 =~= self@->FuncApp_1);
                r
            },
        }
    }
}

impl View for VExpr {
    type V = VExprView;

    open spec fn view(&self) -> VExprView {
        self.model()
    }
}

impl Clone for VExpr {
    fn clone(&self) -> (r: Self)
        ensures
            r@ == self@,
    {
        self.dup()
    }
}

/// Boolean connectives and quantifiers; a quantifier names its bound
/// variable and that variable's type.
#[derive(Debug, PartialEq)]
pub enum BoolOp {
    Conj,
    Disj,
    Neg,
    Implies,
    Forall(VExpr, VType),
    Exists(VExpr, VType),
}

/// The mathematical value of a [`BoolOp`].
pub enum BoolOpView {
    Conj,
    Disj,
    Neg,
    Implies,
    Forall(VExprView, VTypeView),
    Exists(VExprView, VTypeView),
}

impl View for BoolOp {
    type V = BoolOpView;

    open spec fn view(&self) -> BoolOpView {
        match self {
            BoolOp::Conj => BoolOpView::Conj,
            BoolOp::Disj => BoolOpView::Disj,
            BoolOp::Neg => BoolOpView::Neg,
            BoolOp::Implies => BoolOpView::Implies,
            BoolOp::Forall(v, t) => BoolOpView::Forall(v@, t@),
            BoolOp::Exists(v, t) => BoolOpView::Exists(v@, t@),
        }
    }
}

impl Clone for BoolOp {
    fn clone(&self) -> (r: Self)
        ensures
            r@ == self@,
    {
        match self {
            BoolOp::Conj => BoolOp::Conj,
            BoolOp::Disj => BoolOp::Disj,
            BoolOp::Neg => BoolOp::Neg,
            BoolOp::Implies => BoolOp::Implies,
            BoolOp::Forall(v, t) => BoolOp::Forall(v.clone(), t.clone()),
            BoolOp::Exists(v, t) => BoolOp::Exists(v.clone(), t.clone()),
        }
    }
}

/// A boolean expression.
#[derive(Debug, PartialEq)]
pub enum BExpr {
    Bool(bool),
    BOpApp(BoolOp, Vec<BExpr>),
    COpApp(CompOp, Vec<VExpr>),
}

/// The mathematical value of a [`BExpr`].
pub enum BExprView {
    Bool(bool),
    BOpApp(BoolOpView, Seq<BExprView>),
    COpApp(CompOp, Seq<VExprView>),
}

/// The views of a sequence of boolean expressions.
pub open spec fn bexpr_views(v: Seq<BExpr>) -> Seq<BExprView> {
    Seq::new(v.len(), |i: int| v[i]@)
}

impl BExpr {
    pub open spec fn model(&self) -> BExprView
        decreases self,
    {
        match self {
            BExpr::Bool(b) => BExprView::Bool(*b),
            BExpr::BOpApp(op, args) => BExprView::BOpApp(
                op@,
                Seq::new(
                    args@.len(),
                    |i: int|
                        if 0 <= i < args@.len() {
                            args@[i].model()
                        } else {
                            arbitrary()
                        },
                ),
            ),
            BExpr::COpApp(op, args) => BExprView::COpApp(*op, vexpr_views(args@)),
        }
    }

    /// The view of a connective's application is made of the views of its
    /// parts.
    pub proof fn lemma_view_bopapp(op: BoolOp, args: Vec<BExpr>)
        ensures
            (BExpr::BOpApp(op, args))@ == BExprView::BOpApp(op@, bexpr_views(args@)),
    {
        assert((BExpr::BOpApp(op, args))@->BOpApp_1 =~= bexpr_views(args@));
    }

    /// A copy of this expression.
    pub fn dup(&self) -> (r: BExpr)
        ensures
            r@ == self@,
        decreases self,
    {
        match self {
            BExpr::Bool(b) => BExpr::Bool(*b),
            BExpr::BOpApp(op, args) => {
                let mut v: Vec<BExpr> = Vec::new();
                let mut i: usize = 0;
                while i < args.len()
                    invariant
                        i <= args.len(),
                        v@.len() == i,
                        forall|j: int| 0 <= j < i ==> v@[j]@ == args@[j]@,
                        decreases_to!(self => args),
                    decreases args.len() - i,
                {
                    let e = args[i].dup();
                    v.push(e);
                    i += 1;
                }
                let r = BExpr::BOpApp(op.clone(), v);
                assert(r@->BOpApp_1 =~= self@->BOpApp_1);
                r
            },
            BExpr::COpApp(op, args) => BExpr::COpApp(*op, clone_vexprs(args)),
        }
    }
}

impl View for BExpr {
    type V = BExprView;

    open spec fn view(&self) -> BExprView {
        self.model()
    }
}

impl Clone for BExpr {
    fn clone(&self) -> (r: Self)
        ensures
            r@ == self@,
    {
        self.dup()
    }
}

// ==================================================================
// Contracts

/// One clause of a function's contract.
#[derive(Debug, PartialEq)]
pub enum Spec {
    Requires(BExpr),
    Ensures(BExpr),
    Modifies(NameSet),
    Track(String, VExpr),
}

/// The mathematical value of a [`Spec`].
pub enum SpecView {
    Requires(BExprView),
    Ensures(BExprView),
    Modifies(Seq<Seq<char>>),
    Track(Seq<char>, VExprView),
}

impl View for Spec {
    type V = SpecView;

    open spec fn view(&self) -> SpecView {
        match self {
            Spec::Requires(e) => SpecView::Requires(e@),
            Spec::Ensures(e) => SpecView::Ensures(e@),
            Spec::Modifies(s) => SpecView::Modifies(s@),
            Spec::Track(n, e) => SpecView::Track(n@, e@),
        }
    }
}

impl Clone for Spec {
    fn clone(&self) -> (r: Self)
        ensures
            r@ == self@,
    {
        match self {
            Spec::Requires(e) => Spec::Requires(e.clone()),
            Spec::Ensures(e) => Spec::Ensures(e.clone()),
            Spec::Modifies(s) => Spec::Modifies(s.clone()),
            Spec::Track(n, e) => Spec::Track(n.clone(), e.clone()),
        }
    }
}

impl Spec {
    /// The condition of a pre- or postcondition.
    pub fn get_bexpr(&self) -> (r: Result<&BExpr, ()>)
        ensures
            self@ matches SpecView::Requires(e) ==> r is Ok && r->Ok_0@ == e,
            self@ matches SpecView::Ensures(e) ==> r is Ok && r->Ok_0@ == e,
            (self@ is Modifies || self@ is Track) ==> r is Err,
    {
        match self {
            Spec::Requires(e) => Ok(e),
            Spec::Ensures(e) => Ok(e),
            _ => Err(()),
        }
    }
}

/// The views of a sequence of contract clauses.
pub open spec fn spec_views(v: Seq<Spec>) -> Seq<SpecView> {
    Seq::new(v.len(), |i: int| v[i]@)
}

/// Copies a list of contract clauses.
pub fn clone_specs(v: &Vec<Spec>) -> (r: Vec<Spec>)
    ensures
        spec_views(r@) == spec_views(v@),
{
    let mut out: Vec<Spec> = Vec::new();
    let mut i: usize = 0;
    while i < v.len()
        invariant
            i <= v.len(),
            out@.len() == i,
            forall|j: int| 0 <= j < i ==> out@[j]@ == v@[j]@,
        decreases v.len() - i,
    {
        out.push(v[i].clone());
        i += 1;
    }
    assert(spec_views(out@) =~= spec_views(v@));
    out
}

/// The contract of one function.
#[derive(Debug, PartialEq)]
pub struct FuncSpec {
    pub fname: String,
    pub specs: Vec<Spec>,
}

/// The mathematical value of a [`FuncSpec`].
pub struct FuncSpecView {
    pub fname: Seq<char>,
    pub specs: Seq<SpecView>,
}

impl View for FuncSpec {
    type V = FuncSpecView;

    open spec fn view(&self) -> FuncSpecView {
        FuncSpecView { fname: self.fname@, specs: spec_views(self.specs@) }
    }
}

impl Clone for FuncSpec {
    fn clone(&self) -> (r: Self)
        ensures
            r@ == self@,
    {
        FuncSpec { fname: self.fname.clone(), specs: clone_specs(&self.specs) }
    }
}


// ==================================================================
// Type inference tables

/// Whether every expression of `args` has the type of the first.
pub open spec fn all_same_type(args: Seq<VExprView>) -> bool {
    forall|i: int| 0 <= i < args.len() ==> (#[trigger] args[i]).typ() == args[0].typ()
}

/// The type that the operator `op` gives to its application to `args`:
/// the element type for an array access; `hi - lo` bits for a slice; the
/// field's type for a field access; the operands' common type for
/// arithmetic, bitwise operators and dereference; the sum of the widths for
/// a concatenation; the second operand's type for a shift. `None` where the
/// operands do not fit the operator.
pub open spec fn op_type(op: ValueOp, args: Seq<VExprView>) -> Option<VTypeView> {
    if args.len() == 0 {
        None
    } else {
        match op {
            ValueOp::ArrayIndex => if args[0].typ() is Array {
                Some(*args[0].typ()->Array_out_type)
            } else {
                None
            },
            ValueOp::Slice { lo, hi } => if lo <= hi {
                Some(VTypeView::Bv((hi - lo) as u16))
            } else {
                None
            },
            ValueOp::GetField => if args.len() > 1 && args[0].typ() is Struct && args[1] is Ident {
                vfield_type(args[0].typ()->Struct_fields, args[1]->Ident_0)
            } else {
                None
            },
            ValueOp::Concat => if args.len() > 1 && args[0].typ() is Bv && args[1].typ() is Bv
                && args[0].typ()->Bv_0 + args[1].typ()->Bv_0 <= u16::MAX {
                Some(VTypeView::Bv((args[0].typ()->Bv_0 + args[1].typ()->Bv_0) as u16))
            } else {
                None
            },
            ValueOp::RightShift | ValueOp::URightShift | ValueOp::LeftShift => if args.len() > 1 {
                Some(args[1].typ())
            } else {
                None
            },
            _ => if all_same_type(args) {
                Some(args[0].typ())
            } else {
                None
            },
        }
    }
}

/// The type of the application of the built-in function `name` to `args`:
/// the first argument's type for `old` and `value`; for `sext` and `uext`
/// a bit-vector as wide as the second argument and the first argument's
/// literal value together. `None` for other names and for arguments that do
/// not fit.
pub open spec fn func_app_type(name: Seq<char>, args: Seq<VExprView>) -> Option<VTypeView> {
    if args.len() == 0 {
        None
    } else if name == "old"@ || name == "value"@ {
        Some(args[0].typ())
    } else if name == "sext"@ || name == "uext"@ {
        if args.len() > 1 && args[1].typ() is Bv && args[0].lit_value() is Some {
            let ext = args[0].lit_value()->0 % 0x10000;
            if args[1].typ()->Bv_0 + ext <= u16::MAX {
                Some(VTypeView::Bv((args[1].typ()->Bv_0 + ext) as u16))
            } else {
                None
            }
        } else {
            None
        }
    } else {
        None
    }
}

/// Whether every array type inside `t` names what it is indexed by.
pub open spec fn arrays_indexed(t: TypeView) -> bool
    decreases t,
{
    match t {
        TypeView::Array { in_typs, out_typ } => in_typs.len() > 0 && arrays_indexed(in_typs[0])
            && arrays_indexed(*out_typ),
        TypeView::Struct { id, fields, w } => forall|i: int|
            0 <= i < fields.len() ==> arrays_indexed((#[trigger] fields[i]).typ),
        _ => true,
    }
}

/// The specification type that stands for the IR type `t`: widths are
/// cut to 16 bits, and an array is indexed by its first index type.
pub open spec fn ast_type(t: TypeView) -> VTypeView
    decreases t,
{
    match t {
        TypeView::Unknown => VTypeView::Unknown,
        TypeView::Bool => VTypeView::Bool,
        TypeView::Int => VTypeView::Int,
        TypeView::Bv { w } => VTypeView::Bv((w % 0x10000) as u16),
        TypeView::Array { in_typs, out_typ } => VTypeView::Array {
            in_type: Box::new(
                if in_typs.len() > 0 {
                    ast_type(in_typs[0])
                } else {
                    VTypeView::Unknown
                },
            ),
            out_type: Box::new(ast_type(*out_typ)),
        },
        TypeView::Struct { id, fields, w } => VTypeView::Struct {
            id,
            fields: Seq::new(
                fields.len(),
                |i: int|
                    if 0 <= i < fields.len() {
                        VFieldView { name: fields[i].name, typ: ast_type(fields[i].typ) }
                    } else {
                        arbitrary()
                    },
            ),
            size: w,
        },
    }
}

impl VType {
    /// The type of `op` applied to `exprs`, where they fit.
    pub fn try_infer_op_type(op: &ValueOp, exprs: &Vec<VExpr>) -> (r: Option<VType>)
        ensures
            op_type(*op, vexpr_views(exprs@)) is Some ==> r is Some && r->0@ == op_type(
                *op,
                vexpr_views(exprs@),
            )->0,
            op_type(*op, vexpr_views(exprs@)) is None ==> r is None,
    {
        if exprs.len() == 0 {
            return None;
        }
        let ghost args = vexpr_views(exprs@);
        match op {
            ValueOp::ArrayIndex => match exprs[0].typ() {
                VType::Array { in_type: _, out_type } => Some(out_type.dup()),
                _ => None,
            },
            ValueOp::Slice { lo, hi } => if *lo <= *hi {
                Some(VType::Bv(*hi - *lo))
            } else {
                None
            },
            ValueOp::GetField => {
                if exprs.len() < 2 {
                    return None;
                }
                match exprs[0].typ() {
                    VType::Struct { id, fields, size } => {
                        proof {
                            VType::lemma_view_struct(*id, *fields, *size);
                        }
                        match &exprs[1] {
                            VExpr::Ident(name, _) => match find_vfield(fields, name.as_str()) {
                                Some(t) => Some(t.clone()),
                                None => None,
                            },
                            _ => None,
                        }
                    },
                    _ => None,
                }
            },
            ValueOp::Concat => {
                if exprs.len() < 2 {
                    return None;
                }
                match (exprs[0].typ(), exprs[1].typ()) {
                    (VType::Bv(w0), VType::Bv(w1)) => match w0.checked_add(*w1) {
                        Some(w) => Some(VType::Bv(w)),
                        None => None,
                    },
                    _ => None,
                }
            },
            ValueOp::RightShift | ValueOp::URightShift | ValueOp::LeftShift => {
                if exprs.len() < 2 {
                    return None;
                }
                Some(exprs[1].typ().clone())
            },
            _ => {
                let mut i: usize = 0;
                while i < exprs.len()
                    invariant
                        i <= exprs.len(),
                        exprs.len() > 0,
                        args == vexpr_views(exprs@),
                        op_type(*op, args) == (if all_same_type(args) {
                            Some(args[0].typ())
                        } else {
                            None
                        }),
                        forall|j: int| 0 <= j < i ==> (#[trigger] args[j]).typ() == args[0].typ(),
                    decreases exprs.len() - i,
                {
                    assert(args[i as int] == exprs@[i as int]@ && args[0] == exprs@[0]@);
                    if !exprs[0].typ().equals(exprs[i].typ()) {
                        assert(args[i as int].typ() != args[0].typ());
                        assert(!all_same_type(args));
                        return None;
                    }
                    i += 1;
                }
                Some(exprs[0].typ().clone())
            },
        }
    }

    /// The type of `op` applied to `exprs`.
    pub fn infer_op_type(op: &ValueOp, exprs: &Vec<VExpr>) -> (r: VType)
        requires
            op_type(*op, vexpr_views(exprs@)) is Some,
        ensures
            r@ == op_type(*op, vexpr_views(exprs@))->0,
    {
        match VType::try_infer_op_type(op, exprs) {
            Some(t) => t,
            None => vstd::pervasive::unreached(),
        }
    }

    /// The type of the built-in function `fapp` applied to `exprs`, where
    /// the function is known and they fit.
    pub fn try_infer_func_app_type(fapp: &str, exprs: &Vec<VExpr>) -> (r: Option<VType>)
        ensures
            func_app_type(fapp@, vexpr_views(exprs@)) is Some ==> r is Some && r->0@
                == func_app_type(fapp@, vexpr_views(exprs@))->0,
            func_app_type(fapp@, vexpr_views(exprs@)) is None ==> r is None,
    {
        if exprs.len() == 0 {
            return None;
        }
        if str_eq(fapp, "old") || str_eq(fapp, "value") {
            Some(exprs[0].typ().clone())
        } else if str_eq(fapp, "sext") || str_eq(fapp, "uext") {
            if exprs.len() < 2 {
                return None;
            }
            match (exprs[1].typ(), exprs[0].get_lit_value()) {
                (VType::Bv(w), Some(v)) => {
                    let ext: u16 = (v % 0x10000) as u16;
                    match w.checked_add(ext) {
                        Some(sum) => Some(VType::Bv(sum)),
                        None => None,
                    }
                },
                _ => None,
            }
        } else {
            None
        }
    }

    /// The type of the built-in function `fapp` applied to `exprs`.
    pub fn infer_func_app_type(fapp: &str, exprs: &Vec<VExpr>) -> (r: VType)
        requires
            func_app_type(fapp@, vexpr_views(exprs@)) is Some,
        ensures
            r@ == func_app_type(fapp@, vexpr_views(exprs@))->0,
    {
        match VType::try_infer_func_app_type(fapp, exprs) {
            Some(t) => t,
            None => vstd::pervasive::unreached(),
        }
    }

    /// The specification type that stands for an IR type.
    pub fn from_ast_type(typ: &Type) -> (r: Self)
        requires
            arrays_indexed(typ@),
        ensures
            r@ == ast_type(typ@),
        decreases typ,
    {
        match typ {
            Type::Unknown => VType::Unknown,
            Type::Bool => VType::Bool,
            Type::Int => VType::Int,
            Type::Bv { w } => VType::Bv((*w % 0x10000) as u16),
            Type::Array { in_typs, out_typ } => {
                proof {
                    Type::lemma_view_array(*in_typs, *out_typ);
                }
                let in_type = Box::new(VType::from_ast_type(&in_typs[0]));
                let out_type = Box::new(VType::from_ast_type(out_typ));
                VType::Array { in_type, out_type }
            },
            Type::Struct { id, fields, w } => {
                proof {
                    Type::lemma_view_struct(*id, *fields, *w);
                }
                let mut v: Vec<VField> = Vec::new();
                let mut i: usize = 0;
                while i < fields.len()
                    invariant
                        i <= fields.len(),
                        v@.len() == i,
                        typ@ matches TypeView::Struct { fields: fs, .. } && fs
                            == crate::veriv_ast::field_views(fields@),
                        arrays_indexed(typ@),
                        forall|j: int|
                            0 <= j < i ==> v@[j]@ == (VFieldView {
                                name: fields@[j].name@,
                                typ: ast_type(fields@[j].typ@),
                            }),
                        decreases_to!(typ => fields),
                    decreases fields.len() - i,
                {
                    assert(crate::veriv_ast::field_views(fields@)[i as int].typ
                        == fields@[i as int].typ@);
                    let t = VType::from_ast_type(&fields[i].typ);
                    v.push(VField { name: fields[i].name.clone(), typ: t });
                    i += 1;
                }
                let r = VType::Struct { id: id.clone(), fields: v, size: *w };
                assert(r@->Struct_fields =~= ast_type(typ@)->Struct_fields);
                r
            },
        }
    }
}


// ==================================================================
// Rewriting

/// A rewriting pass over contracts, with a context of type `C` that is
/// handed to every hook.
///
/// A traversal visits the operands of a node first, from left to right,
/// and then hands the node, with its operands rewritten, to the hook for
/// it. The connective of a condition is handed to its hook before its
/// operands are visited. A pass says with its `*_rewritten` functions what
/// its hooks make of a node and of the context.
pub trait ASTRewriter<C: View> {
    /// What the pass makes of a value expression whose operands are
    /// rewritten already.
    spec fn vexpr_rewritten(e: VExprView, c: C::V) -> (VExprView, C::V);

    /// What the pass makes of a connective or quantifier.
    spec fn boolop_rewritten(op: BoolOpView, c: C::V) -> (BoolOpView, C::V);

    /// What the pass makes of a condition whose operands are rewritten
    /// already.
    spec fn bexpr_rewritten(b: BExprView, c: C::V) -> (BExprView, C::V);

    /// Rewrites a value expression whose operands are rewritten already.
    fn rewrite_vexpr(vexpr: VExpr, ctx: &mut C) -> (r: VExpr)
        ensures
            (r@, final(ctx)@) == Self::vexpr_rewritten(vexpr@, old(ctx)@),
    ;

    /// Rewrites a connective or quantifier.
    fn rewrite_bexpr_boolop(bop: BoolOp, ctx: &mut C) -> (r: BoolOp)
        ensures
            (r@, final(ctx)@) == Self::boolop_rewritten(bop@, old(ctx)@),
    ;

    /// Rewrites a condition whose operands are rewritten already.
    fn rewrite_bexpr(bexpr: BExpr, ctx: &mut C) -> (r: BExpr)
        ensures
            (r@, final(ctx)@) == Self::bexpr_rewritten(bexpr@, old(ctx)@),
    ;
}

/// The context of a pass that needs none.
pub struct NoContext;

impl View for NoContext {
    type V = ();

    open spec fn view(&self) -> () {
        ()
    }
}

/// The operands of an application; none for other expressions.
pub open spec fn vexpr_operands(e: VExprView) -> Seq<VExprView> {
    match e {
        VExprView::OpApp(_, args, _) => args,
        VExprView::FuncApp(_, args, _) => args,
        _ => Seq::empty(),
    }
}

/// The operands of a connective's application; none for other conditions.
pub open spec fn bexpr_operands(b: BExprView) -> Seq<BExprView> {
    match b {
        BExprView::BOpApp(_, args) => args,
        _ => Seq::empty(),
    }
}

/// The expression `e` with the operands `args` in place of its own.
pub open spec fn with_operands(e: VExprView, args: Seq<VExprView>) -> VExprView {
    match e {
        VExprView::OpApp(op, _, t) => VExprView::OpApp(op, args, t),
        VExprView::FuncApp(name, _, t) => VExprView::FuncApp(name, args, t),
        _ => e,
    }
}

/// What the pass `R` makes of the value expression `e` and the context
/// `c`: of its operands first, then of the expression itself.
pub open spec fn visited_vexpr<C: View, R: ASTRewriter<C>>(e: VExprView, c: C::V) -> (
    VExprView,
    C::V,
)
    decreases e, vexpr_operands(e).len() + 1,
{
    match e {
        VExprView::OpApp(_, _, _) => {
            let p = visited_operands::<C, R>(e, 0, c, Seq::empty());
            R::vexpr_rewritten(with_operands(e, p.0), p.1)
        },
        VExprView::FuncApp(_, _, _) => {
            let p = visited_operands::<C, R>(e, 0, c, Seq::empty());
            R::vexpr_rewritten(with_operands(e, p.0), p.1)
        },
        _ => R::vexpr_rewritten(e, c),
    }
}

/// What the pass `R` makes of the operands of `e` from index `i` on, after
/// the operands before them have become `done`.
pub open spec fn visited_operands<C: View, R: ASTRewriter<C>>(
    e: VExprView,
    i: nat,
    c: C::V,
    done: Seq<VExprView>,
) -> (Seq<VExprView>, C::V)
    decreases e, vexpr_operands(e).len() - i,
{
    if i >= vexpr_operands(e).len() {
        (done, c)
    } else {
        let p = visited_vexpr::<C, R>(vexpr_operands(e)[i as int], c);
        visited_operands::<C, R>(e, i + 1, p.1, done.push(p.0))
    }
}

/// What the pass `R` makes of the expressions of `v` from index `i` on,
/// after the expressions before them have become `done`.
pub open spec fn visited_vexprs<C: View, R: ASTRewriter<C>>(
    v: Seq<VExprView>,
    i: nat,
    c: C::V,
    done: Seq<VExprView>,
) -> (Seq<VExprView>, C::V)
    decreases v.len() - i,
{
    if i >= v.len() {
        (done, c)
    } else {
        let p = visited_vexpr::<C, R>(v[i as int], c);
        visited_vexprs::<C, R>(v, i + 1, p.1, done.push(p.0))
    }
}

/// What the pass `R` makes of the condition `b` and the context `c`: of
/// its connective first, then of its operands, then of the condition
/// itself.
pub open spec fn visited_bexpr<C: View, R: ASTRewriter<C>>(b: BExprView, c: C::V) -> (
    BExprView,
    C::V,
)
    decreases b, bexpr_operands(b).len() + 1,
{
    match b {
        BExprView::Bool(_) => R::bexpr_rewritten(b, c),
        BExprView::BOpApp(op, _) => {
            let o = R::boolop_rewritten(op, c);
            let p = visited_bexprs::<C, R>(b, 0, o.1, Seq::empty());
            R::bexpr_rewritten(BExprView::BOpApp(o.0, p.0), p.1)
        },
        BExprView::COpApp(op, args) => {
            let p = visited_vexprs::<C, R>(args, 0, c, Seq::empty());
            R::bexpr_rewritten(BExprView::COpApp(op, p.0), p.1)
        },
    }
}

/// What the pass `R` makes of the operands of `b` from index `i` on, after
/// the operands before them have become `done`.
pub open spec fn visited_bexprs<C: View, R: ASTRewriter<C>>(
    b: BExprView,
    i: nat,
    c: C::V,
    done: Seq<BExprView>,
) -> (Seq<BExprView>, C::V)
    decreases b, bexpr_operands(b).len() - i,
{
    if i >= bexpr_operands(b).len() {
        (done, c)
    } else {
        let p = visited_bexpr::<C, R>(bexpr_operands(b)[i as int], c);
        visited_bexprs::<C, R>(b, i + 1, p.1, done.push(p.0))
    }
}

/// Runs the pass `R` over a value expression: over its operands from left
/// to right, then over the expression itself.
pub fn visit_vexpr<C: View, R: ASTRewriter<C>>(vexpr: &VExpr, ctx: &mut C) -> (r: VExpr)
    ensures
        (r@, final(ctx)@) == visited_vexpr::<C, R>(vexpr@, old(ctx)@),
    decreases vexpr,
{
    let ghost ev = vexpr@;
    match vexpr {
        VExpr::OpApp(op, exprs, typ) => {
            proof {
                VExpr::lemma_view_opapp(*op, *exprs, *typ);
            }
            let mut out: Vec<VExpr> = Vec::new();
            let mut i: usize = 0;
            assert(vexpr_views(out@) =~= Seq::<VExprView>::empty());
            while i < exprs.len()
                invariant
                    i <= exprs.len(),
                    ev == vexpr@,
                    ev == VExprView::OpApp(*op, vexpr_views(exprs@), typ@),
                    visited_operands::<C, R>(ev, 0, old(ctx)@, Seq::empty()) == visited_operands::<
                        C,
                        R,
                    >(ev, i as nat, ctx@, vexpr_views(out@)),
                    decreases_to!(vexpr => exprs),
                decreases exprs.len() - i,
            {
                let ghost done = vexpr_views(out@);
                assert(vexpr_operands(ev)[i as int] == exprs@[i as int]@);
                let x = visit_vexpr::<C, R>(&exprs[i], ctx);
                out.push(x);
                assert(vexpr_views(out@) =~= done.push(x@));
                i += 1;
            }
            let t = typ.clone();
            proof {
                VExpr::lemma_view_opapp(*op, out, t);
            }
            R::rewrite_vexpr(VExpr::OpApp(*op, out, t), ctx)
        },
        VExpr::FuncApp(fid, exprs, typ) => {
            proof {
                VExpr::lemma_view_funcapp(*fid, *exprs, *typ);
            }
            let mut out: Vec<VExpr> = Vec::new();
            let mut i: usize = 0;
            assert(vexpr_views(out@) =~= Seq::<VExprView>::empty());
            while i < exprs.len()
                invariant
                    i <= exprs.len(),
                    ev == vexpr@,
                    ev == VExprView::FuncApp(fid@, vexpr_views(exprs@), typ@),
                    visited_operands::<C, R>(ev, 0, old(ctx)@, Seq::empty()) == visited_operands::<
                        C,
                        R,
                    >(ev, i as nat, ctx@, vexpr_views(out@)),
                    decreases_to!(vexpr => exprs),
                decreases exprs.len() - i,
            {
                let ghost done = vexpr_views(out@);
                assert(vexpr_operands(ev)[i as int] == exprs@[i as int]@);
                let x = visit_vexpr::<C, R>(&exprs[i], ctx);
                out.push(x);
                assert(vexpr_views(out@) =~= done.push(x@));
                i += 1;
            }
            let t = typ.clone();
            let n = fid.clone();
            proof {
                VExpr::lemma_view_funcapp(n, out, t);
            }
            R::rewrite_vexpr(VExpr::FuncApp(n, out, t), ctx)
        },
        _ => R::rewrite_vexpr(vexpr.clone(), ctx),
    }
}

/// Runs the pass `R` over the expressions of a list, from left to right.
pub fn visit_vexprs<C: View, R: ASTRewriter<C>>(exprs: &Vec<VExpr>, ctx: &mut C) -> (r: Vec<VExpr>)
    ensures
        (vexpr_views(r@), final(ctx)@) == visited_vexprs::<C, R>(
            vexpr_views(exprs@),
            0,
            old(ctx)@,
            Seq::empty(),
        ),
{
    let ghost all = vexpr_views(exprs@);
    let mut out: Vec<VExpr> = Vec::new();
    let mut i: usize = 0;
    assert(vexpr_views(out@) =~= Seq::<VExprView>::empty());
    while i < exprs.len()
        invariant
            i <= exprs.len(),
            all == vexpr_views(exprs@),
            visited_vexprs::<C, R>(all, 0, old(ctx)@, Seq::empty()) == visited_vexprs::<C, R>(
                all,
                i as nat,
                ctx@,
                vexpr_views(out@),
            ),
        decreases exprs.len() - i,
    {
        let ghost done = vexpr_views(out@);
        assert(all[i as int] == exprs@[i as int]@);
        let x = visit_vexpr::<C, R>(&exprs[i], ctx);
        out.push(x);
        assert(vexpr_views(out@) =~= done.push(x@));
        i += 1;
    }
    out
}

/// Runs the pass `R` over a condition: over its connective, then over its
/// operands from left to right, then over the condition itself.
pub fn visit_bexpr<C: View, R: ASTRewriter<C>>(bexpr: &BExpr, ctx: &mut C) -> (r: BExpr)
    ensures
        (r@, final(ctx)@) == visited_bexpr::<C, R>(bexpr@, old(ctx)@),
    decreases bexpr,
{
    let ghost bv = bexpr@;
    match bexpr {
        BExpr::Bool(b) => R::rewrite_bexpr(BExpr::Bool(*b), ctx),
        BExpr::BOpApp(bop, exprs) => {
            proof {
                BExpr::lemma_view_bopapp(*bop, *exprs);
            }
            let rw_bop = R::rewrite_bexpr_boolop(bop.clone(), ctx);
            let ghost c1 = ctx@;
            let mut out: Vec<BExpr> = Vec::new();
            let mut i: usize = 0;
            assert(bexpr_views(out@) =~= Seq::<BExprView>::empty());
            while i < exprs.len()
                invariant
                    i <= exprs.len(),
                    bv == bexpr@,
                    bv == BExprView::BOpApp(bop@, bexpr_views(exprs@)),
                    visited_bexprs::<C, R>(bv, 0, c1, Seq::empty()) == visited_bexprs::<C, R>(
                        bv,
                        i as nat,
                        ctx@,
                        bexpr_views(out@),
                    ),
                    decreases_to!(bexpr => exprs),
                decreases exprs.len() - i,
            {
                let ghost done = bexpr_views(out@);
                assert(bexpr_operands(bv)[i as int] == exprs@[i as int]@);
                let x = visit_bexpr::<C, R>(&exprs[i], ctx);
                out.push(x);
                assert(bexpr_views(out@) =~= done.push(x@));
                i += 1;
            }
            proof {
                BExpr::lemma_view_bopapp(rw_bop, out);
            }
            R::rewrite_bexpr(BExpr::BOpApp(rw_bop, out), ctx)
        },
        BExpr::COpApp(cop, exprs) => {
            let rw_vexprs = visit_vexprs::<C, R>(exprs, ctx);
            R::rewrite_bexpr(BExpr::COpApp(*cop, rw_vexprs), ctx)
        },
    }
}

} // verus!
