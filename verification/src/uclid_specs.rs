//! The UCLID5 text of contracts.

use crate::sl_ast::{
    vexpr_views, BExpr, BExprView, BoolOp, BoolOpView, CompOp, VExpr, VExprView, VType, VTypeView,
    ValueOp,
};
use crate::spec_lowering::{bargs, vargs};
use crate::text::{dec_digits, i64_to_dec, join, join_strings, signed_dec_digits, u64_to_dec, views};
use crate::uclidinterface::{text_at, Uclid5Interface};
use vstd::prelude::*;

verus! {

/// The text of a type of the specification IR.
pub open spec fn vtype_text(t: VTypeView) -> Seq<char>
    decreases t,
{
    match t {
        VTypeView::Unknown => "unknown"@,
        VTypeView::Bv(w) => "bv"@ + dec_digits(w as nat),
        VTypeView::Int => "integer"@,
        VTypeView::Bool => "boolean"@,
        VTypeView::Array { in_type, out_type } => "["@ + vtype_text(*in_type) + "]"@ + vtype_text(
            *out_type,
        ),
        VTypeView::Struct { id, fields, size } => id,
    }
}

/// The symbol of an arithmetic or bitwise operator; empty for the others.
pub open spec fn value_symbol(op: ValueOp) -> Seq<char> {
    match op {
        ValueOp::Add => "+"@,
        ValueOp::Sub => "-"@,
        ValueOp::Div => "/"@,
        ValueOp::Mul => "*"@,
        ValueOp::BvXor => "^"@,
        ValueOp::BvOr => "|"@,
        ValueOp::BvAnd => "&"@,
        ValueOp::Concat => "++"@,
        _ => Seq::empty(),
    }
}

/// The symbol of a connective, or the word of a quantifier.
pub open spec fn bool_symbol(op: BoolOpView) -> Seq<char> {
    match op {
        BoolOpView::Conj => "&&"@,
        BoolOpView::Disj => "||"@,
        BoolOpView::Neg => "!"@,
        BoolOpView::Implies => "==>"@,
        BoolOpView::Forall(_, _) => "forall"@,
        BoolOpView::Exists(_, _) => "exists"@,
    }
}

/// The symbol of a comparison operator.
pub open spec fn cop_symbol(op: CompOp) -> Seq<char> {
    match op {
        CompOp::Equal => "=="@,
        CompOp::Nequal => "!="@,
        CompOp::Gt => ">"@,
        CompOp::Lt => "<"@,
        CompOp::Gtu => ">_u"@,
        CompOp::Ltu => "<_u"@,
        CompOp::Geq => ">="@,
        CompOp::Leq => "<="@,
        CompOp::Geu => ">=_u"@,
        CompOp::Leu => "<=_u"@,
    }
}

/// The name of the memory that holds values of the type `t`: by width a
/// byte, a half word or a word, and a double word otherwise.
pub open spec fn memory_of(t: VTypeView) -> Seq<char> {
    match t {
        VTypeView::Bv(w) => if w == 8 {
            "mem_b"@
        } else if w == 16 {
            "mem_h"@
        } else if w == 32 {
            "mem_w"@
        } else {
            "mem_d"@
        },
        _ => "mem_d"@,
    }
}

/// The upper bound that is written for a slice that ends before bit `hi`.
pub open spec fn slice_top(hi: u16) -> nat {
    if hi > 0 {
        (hi - 1) as nat
    } else {
        0
    }
}

/// The text of the application of `op`, where `first` is the type of the
/// first operand, `typ` the type of the application, and `t` the texts of
/// the operands.
///
/// Arithmetic and bitwise operators stand between their operands, in
/// parentheses. A shift is a call of `bv_left_shift`, `bv_l_right_shift`
/// or `bv_a_right_shift` on the amount and the value. An element of an
/// array is a call of the index macro of the element's size in bytes, a
/// field of a struct a call of the field's macro. A slice names its
/// highest and its lowest bit. A dereference reads the memory of the
/// width of its type.
pub open spec fn vopapp_text(op: ValueOp, first: VTypeView, typ: VTypeView, t: Seq<Seq<char>>) -> Seq<
    char,
> {
    match op {
        ValueOp::LeftShift => "bv_left_shift("@ + text_at(t, 1) + ", "@ + text_at(t, 0) + ")"@,
        ValueOp::URightShift => "bv_l_right_shift("@ + text_at(t, 1) + ", "@ + text_at(t, 0)
            + ")"@,
        ValueOp::RightShift => "bv_a_right_shift("@ + text_at(t, 1) + ", "@ + text_at(t, 0) + ")"@,
        ValueOp::ArrayIndex => match first.array_out_size() {
            Some(bits) => "index_by_"@ + dec_digits((bits / 8) as nat) + "("@ + text_at(t, 0)
                + ", "@ + text_at(t, 1) + ")"@,
            None => text_at(t, 0) + "["@ + text_at(t, 1) + "]"@,
        },
        ValueOp::GetField => match first {
            VTypeView::Struct { id, fields, size } => id + "_"@ + text_at(t, 1) + "("@ + text_at(
                t,
                0,
            ) + ")"@,
            _ => text_at(t, 0) + "."@ + text_at(t, 1),
        },
        ValueOp::Slice { lo, hi } => text_at(t, 0) + "["@ + dec_digits(slice_top(hi)) + ":"@
            + dec_digits(lo as nat) + "]"@,
        ValueOp::Deref => memory_of(typ) + "["@ + text_at(t, 0) + "]"@,
        _ => "("@ + join(t, " "@ + value_symbol(op) + " "@) + ")"@,
    }
}

/// The type of the first operand of `e`, where it has one.
pub open spec fn first_type(e: VExprView) -> VTypeView {
    if vargs(e).len() > 0 {
        vargs(e)[0].typ()
    } else {
        VTypeView::Unknown
    }
}

/// The text of a value expression. A literal address that is not typed as
/// a bit-vector is written as wide as a register.
pub open spec fn vexpr_text(e: VExprView, xlen: u64) -> Seq<char>
    decreases e, 1int,
{
    match e {
        VExprView::Bv { value, typ } => dec_digits(value as nat) + "bv"@ + (match typ {
            VTypeView::Bv(w) => dec_digits(w as nat),
            _ => dec_digits(xlen as nat),
        }),
        VExprView::Int(v, _) => signed_dec_digits(v as int),
        VExprView::Bool(b, _) => if b {
            "true"@
        } else {
            "false"@
        },
        VExprView::Ident(name, _) => name,
        VExprView::OpApp(op, _, typ) => vopapp_text(op, first_type(e), typ, varg_texts(e, xlen)),
        VExprView::FuncApp(name, _, _) => name + "("@ + join(varg_texts(e, xlen), ", "@) + ")"@,
    }
}

/// The texts of the operands of `e`.
pub open spec fn varg_texts(e: VExprView, xlen: u64) -> Seq<Seq<char>>
    decreases e, 0int,
{
    Seq::new(
        vargs(e).len(),
        |i: int|
            if 0 <= i < vargs(e).len() {
                vexpr_text(vargs(e)[i], xlen)
            } else {
                arbitrary()
            },
    )
}

/// The texts of the expressions of `v`.
pub open spec fn vexpr_texts(v: Seq<VExprView>, xlen: u64) -> Seq<Seq<char>> {
    Seq::new(v.len(), |i: int| vexpr_text(v[i], xlen))
}

/// The text of the application of a connective or a quantifier to operands
/// with the texts `t`: a negation before its operand, the other
/// connectives between their operands, and a quantifier before the
/// conjunction of its operands, with its variable and the variable's type.
pub open spec fn bopapp_text(op: BoolOpView, t: Seq<Seq<char>>, xlen: u64) -> Seq<char> {
    match op {
        BoolOpView::Conj => join(t, " && "@),
        BoolOpView::Disj => join(t, " || "@),
        BoolOpView::Neg => "!"@ + text_at(t, 0),
        BoolOpView::Implies => join(t, " ==> "@),
        BoolOpView::Forall(v, ty) => "(forall ("@ + vexpr_text(v, xlen) + ": "@ + vtype_text(ty)
            + ") :: "@ + join(t, " && "@) + ")"@,
        BoolOpView::Exists(v, ty) => "(exists ("@ + vexpr_text(v, xlen) + ": "@ + vtype_text(ty)
            + ") :: "@ + join(t, " && "@) + ")"@,
    }
}

/// The text of a condition.
pub open spec fn bexpr_text(b: BExprView, xlen: u64) -> Seq<char>
    decreases b, 1int,
{
    match b {
        BExprView::Bool(v) => if v {
            "true"@
        } else {
            "false"@
        },
        BExprView::BOpApp(op, _) => bopapp_text(op, barg_texts(b, xlen), xlen),
        BExprView::COpApp(op, args) => join(vexpr_texts(args, xlen), " "@ + cop_symbol(op) + " "@),
    }
}

/// The texts of the operands of `b`.
pub open spec fn barg_texts(b: BExprView, xlen: u64) -> Seq<Seq<char>>
    decreases b, 0int,
{
    Seq::new(
        bargs(b).len(),
        |i: int|
            if 0 <= i < bargs(b).len() {
                bexpr_text(bargs(b)[i], xlen)
            } else {
                arbitrary()
            },
    )
}

impl Uclid5Interface {
    /// The text of a type of the specification IR.
    pub fn vtype_to_string(typ: &VType) -> (r: String)
        ensures
            r@ == vtype_text(typ@),
        decreases typ,
    {
        match typ {
            VType::Unknown => String::from_str("unknown"),
            VType::Bv(w) => {
                let mut s = String::from_str("bv");
                s.append(u64_to_dec(*w as u64).as_str());
                s
            },
            VType::Int => String::from_str("integer"),
            VType::Bool => String::from_str("boolean"),
            VType::Array { in_type, out_type } => {
                let mut s = String::from_str("[");
                s.append(Self::vtype_to_string(in_type).as_str());
                s.append("]");
                s.append(Self::vtype_to_string(out_type).as_str());
                s
            },
            VType::Struct { id, fields: _, size: _ } => id.clone(),
        }
    }

    /// The text of a boolean literal of a condition.
    pub fn bexpr_bool_to_string(b: &bool) -> (r: String)
        ensures
            r@ == (if *b {
                "true"@
            } else {
                "false"@
            }),
    {
        if *b {
            String::from_str("true")
        } else {
            String::from_str("false")
        }
    }

    /// The symbol of a comparison operator.
    pub fn cop_to_string(cop: &CompOp) -> (r: String)
        ensures
            r@ == cop_symbol(*cop),
    {
        String::from_str(
            match cop {
                CompOp::Equal => "==",
                CompOp::Nequal => "!=",
                CompOp::Gt => ">",
                CompOp::Lt => "<",
                CompOp::Gtu => ">_u",
                CompOp::Ltu => "<_u",
                CompOp::Geq => ">=",
                CompOp::Leq => "<=",
                CompOp::Geu => ">=_u",
                CompOp::Leu => "<=_u",
            },
        )
    }

    /// The symbol of a connective, or the word of a quantifier.
    pub fn bopp_to_string(bop: &BoolOp) -> (r: String)
        ensures
            r@ == bool_symbol(bop@),
    {
        match bop {
            BoolOp::Conj => String::from_str("&&"),
            BoolOp::Disj => String::from_str("||"),
            BoolOp::Neg => String::from_str("!"),
            BoolOp::Implies => String::from_str("==>"),
            BoolOp::Forall(_, _) => String::from_str("forall"),
            BoolOp::Exists(_, _) => String::from_str("exists"),
        }
    }

    /// The text of a read of `bytes` bytes of memory at the address `ptr`;
    /// with `old`, of the memory before the call.
    pub fn deref_app_to_string(bytes: u64, ptr: String, old: bool) -> (r: String)
        ensures
            r@ == "deref_"@ + dec_digits(bytes as nat) + "("@ + (if old {
                "old"@
            } else {
                Seq::empty()
            }) + "(mem), "@ + ptr@ + ")"@,
    {
        let mut s = String::from_str("deref_");
        s.append(u64_to_dec(bytes).as_str());
        s.append("(");
        if old {
            s.append("old");
        } else {
            assert(s@ + Seq::<char>::empty() =~= s@);
        }
        s.append("(mem), ");
        s.append(ptr.as_str());
        s.append(")");
        s
    }

    /// The symbol of an arithmetic or bitwise operator.
    pub fn valueop_to_string(op: &ValueOp) -> (r: String)
        ensures
            r@ == value_symbol(*op),
    {
        match op {
            ValueOp::Add => String::from_str("+"),
            ValueOp::Sub => String::from_str("-"),
            ValueOp::Div => String::from_str("/"),
            ValueOp::Mul => String::from_str("*"),
            ValueOp::BvXor => String::from_str("^"),
            ValueOp::BvOr => String::from_str("|"),
            ValueOp::BvAnd => String::from_str("&"),
            ValueOp::Concat => String::from_str("++"),
            _ => String::new(),
        }
    }

    /// The text of a bit-vector literal of a contract.
    pub fn vexpr_bv_to_string(value: &u64, typ: &VType, xlen: u64) -> (r: String)
        ensures
            r@ == dec_digits(*value as nat) + "bv"@ + (match typ@ {
                VTypeView::Bv(w) => dec_digits(w as nat),
                _ => dec_digits(xlen as nat),
            }),
    {
        let mut s = u64_to_dec(*value);
        s.append("bv");
        match typ {
            VType::Bv(width) => {
                s.append(u64_to_dec(*width as u64).as_str());
            },
            _ => {
                s.append(u64_to_dec(xlen).as_str());
            },
        }
        s
    }

    /// The text of an integer literal of a contract.
    pub fn vexpr_int_to_string(i: &i64) -> (r: String)
        ensures
            r@ == signed_dec_digits(*i as int),
    {
        i64_to_dec(*i)
    }

    /// The text of a boolean literal of a contract.
    pub fn vexpr_bool_to_string(b: &bool) -> (r: String)
        ensures
            r@ == (if *b {
                "true"@
            } else {
                "false"@
            }),
    {
        Self::bexpr_bool_to_string(b)
    }

    /// The text of an identifier of a contract.
    pub fn vexpr_ident_to_string(v: &String) -> (r: String)
        ensures
            r@ == v@,
    {
        v.clone()
    }

    /// The text at index `i` of a list, or the empty text.
    fn nth_text(texts: &Vec<String>, i: usize) -> (r: String)
        ensures
            r@ == text_at(views(texts@), i as int),
    {
        if i < texts.len() {
            assert(views(texts@)[i as int] == texts@[i as int]@);
            texts[i].clone()
        } else {
            String::new()
        }
    }

    /// `a`, `b`, `c`, `d` and `e` in a row.
    fn cat5(a: &str, b: &str, c: &str, d: &str, e: &str) -> (r: String)
        ensures
            r@ == a@ + b@ + c@ + d@ + e@,
    {
        let mut s = String::from_str(a);
        s.append(b);
        s.append(c);
        s.append(d);
        s.append(e);
        s
    }

    /// The text of the application of a value operator.
    pub fn vexpr_opapp_to_string(op: &ValueOp, first: &VType, typ: &VType, texts: &Vec<String>) -> (r:
        String)
        ensures
            r@ == vopapp_text(*op, first@, typ@, views(texts@)),
    {
        let t0 = Self::nth_text(texts, 0);
        let t1 = Self::nth_text(texts, 1);
        match op {
            ValueOp::LeftShift => Self::cat5("bv_left_shift(", t1.as_str(), ", ", t0.as_str(), ")"),
            ValueOp::URightShift => Self::cat5(
                "bv_l_right_shift(",
                t1.as_str(),
                ", ",
                t0.as_str(),
                ")",
            ),
            ValueOp::RightShift => Self::cat5(
                "bv_a_right_shift(",
                t1.as_str(),
                ", ",
                t0.as_str(),
                ")",
            ),
            ValueOp::ArrayIndex => {
                proof {
                    reveal_with_fuel(VType::model, 2);
                }
                let size: Option<u64> = match first {
                    VType::Array { in_type: _, out_type } => match &**out_type {
                        VType::Bv(w) => Some(*w as u64),
                        VType::Struct { id: _, fields: _, size } => Some(*size),
                        _ => None,
                    },
                    _ => None,
                };
                match size {
                    Some(bits) => {
                        let mut s = String::from_str("index_by_");
                        s.append(u64_to_dec(bits / 8).as_str());
                        s.append("(");
                        s.append(t0.as_str());
                        s.append(", ");
                        s.append(t1.as_str());
                        s.append(")");
                        s
                    },
                    None => {
                        let mut s = t0;
                        s.append("[");
                        s.append(t1.as_str());
                        s.append("]");
                        s
                    },
                }
            },
            ValueOp::GetField => match first {
                VType::Struct { id, fields: _, size: _ } => {
                    let mut s = id.clone();
                    s.append("_");
                    s.append(t1.as_str());
                    s.append("(");
                    s.append(t0.as_str());
                    s.append(")");
                    s
                },
                _ => {
                    let mut s = t0;
                    s.append(".");
                    s.append(t1.as_str());
                    s
                },
            },
            ValueOp::Slice { lo, hi } => {
                let top: u64 = if *hi > 0 {
                    (*hi - 1) as u64
                } else {
                    0
                };
                let mut s = t0;
                s.append("[");
                s.append(u64_to_dec(top).as_str());
                s.append(":");
                s.append(u64_to_dec(*lo as u64).as_str());
                s.append("]");
                s
            },
            ValueOp::Deref => {
                let mem = match typ {
                    VType::Bv(w) => if *w == 8 {
                        "mem_b"
                    } else if *w == 16 {
                        "mem_h"
                    } else if *w == 32 {
                        "mem_w"
                    } else {
                        "mem_d"
                    },
                    _ => "mem_d",
                };
                let mut s = String::from_str(mem);
                s.append("[");
                s.append(t0.as_str());
                s.append("]");
                s
            },
            _ => {
                let mut sep = String::from_str(" ");
                sep.append(Self::valueop_to_string(op).as_str());
                sep.append(" ");
                let mut s = String::from_str("(");
                s.append(join_strings(texts, sep.as_str()).as_str());
                s.append(")");
                s
            },
        }
    }

    /// The text of the application of a function of a contract: its name,
    /// and its arguments in parentheses.
    pub fn vexpr_funcapp_to_string(fname: &String, texts: &Vec<String>) -> (r: String)
        ensures
            r@ == fname@ + "("@ + join(views(texts@), ", "@) + ")"@,
    {
        let mut s = fname.clone();
        s.append("(");
        s.append(join_strings(texts, ", ").as_str());
        s.append(")");
        s
    }

    /// The text of a value expression.
    pub fn vexpr_to_string(e: &VExpr, xlen: u64) -> (r: String)
        ensures
            r@ == vexpr_text(e@, xlen),
        decreases e,
    {
        let ghost ev = e@;
        match e {
            VExpr::Bv { value, typ } => Self::vexpr_bv_to_string(value, typ, xlen),
            VExpr::Int(i, _) => Self::vexpr_int_to_string(i),
            VExpr::Bool(b, _) => Self::vexpr_bool_to_string(b),
            VExpr::Ident(v, _) => Self::vexpr_ident_to_string(v),
            VExpr::OpApp(op, args, typ) => {
                proof {
                    VExpr::lemma_view_opapp(*op, *args, *typ);
                }
                let mut texts: Vec<String> = Vec::new();
                let mut i: usize = 0;
                while i < args.len()
                    invariant
                        i <= args.len(),
                        texts@.len() == i,
                        forall|j: int| 0 <= j < i ==> texts@[j]@ == vexpr_text(args@[j]@, xlen),
                        decreases_to!(e => args),
                    decreases args.len() - i,
                {
                    texts.push(Self::vexpr_to_string(&args[i], xlen));
                    i += 1;
                }
                assert(views(texts@) =~= varg_texts(ev, xlen));
                let unknown = VType::Unknown;
                let first = if args.len() > 0 {
                    assert(vargs(ev)[0] == args@[0]@);
                    args[0].typ()
                } else {
                    &unknown
                };
                Self::vexpr_opapp_to_string(op, first, typ, &texts)
            },
            VExpr::FuncApp(name, args, typ) => {
                proof {
                    VExpr::lemma_view_funcapp(*name, *args, *typ);
                }
                let mut texts: Vec<String> = Vec::new();
                let mut i: usize = 0;
                while i < args.len()
                    invariant
                        i <= args.len(),
                        texts@.len() == i,
                        forall|j: int| 0 <= j < i ==> texts@[j]@ == vexpr_text(args@[j]@, xlen),
                        decreases_to!(e => args),
                    decreases args.len() - i,
                {
                    texts.push(Self::vexpr_to_string(&args[i], xlen));
                    i += 1;
                }
                assert(views(texts@) =~= varg_texts(ev, xlen));
                Self::vexpr_funcapp_to_string(name, &texts)
            },
        }
    }

    /// The text of the application of a connective or a quantifier.
    pub fn bexpr_bopapp_to_string(bop: &BoolOp, texts: &Vec<String>, xlen: u64) -> (r: String)
        ensures
            r@ == bopapp_text(bop@, views(texts@), xlen),
    {
        match bop {
            BoolOp::Conj => join_strings(texts, " && "),
            BoolOp::Disj => join_strings(texts, " || "),
            BoolOp::Neg => {
                let mut s = String::from_str("!");
                s.append(Self::nth_text(texts, 0).as_str());
                s
            },
            BoolOp::Implies => join_strings(texts, " ==> "),
            BoolOp::Forall(v, ty) => {
                let mut s = String::from_str("(forall (");
                s.append(Self::vexpr_to_string(v, xlen).as_str());
                s.append(": ");
                s.append(Self::vtype_to_string(ty).as_str());
                s.append(") :: ");
                s.append(join_strings(texts, " && ").as_str());
                s.append(")");
                s
            },
            BoolOp::Exists(v, ty) => {
                let mut s = String::from_str("(exists (");
                s.append(Self::vexpr_to_string(v, xlen).as_str());
                s.append(": ");
                s.append(Self::vtype_to_string(ty).as_str());
                s.append(") :: ");
                s.append(join_strings(texts, " && ").as_str());
                s.append(")");
                s
            },
        }
    }

    /// The text of a comparison: its operands with the operator between
    /// them.
    pub fn bexpr_copapp_to_string(cop: &CompOp, exprs: &Vec<VExpr>, xlen: u64) -> (r: String)
        ensures
            r@ == join(vexpr_texts(vexpr_views(exprs@), xlen), " "@ + cop_symbol(*cop) + " "@),
    {
        let mut texts: Vec<String> = Vec::new();
        let mut i: usize = 0;
        while i < exprs.len()
            invariant
                i <= exprs.len(),
                texts@.len() == i,
                forall|j: int| 0 <= j < i ==> texts@[j]@ == vexpr_text(exprs@[j]@, xlen),
            decreases exprs.len() - i,
        {
            texts.push(Self::vexpr_to_string(&exprs[i], xlen));
            i += 1;
        }
        assert(views(texts@) =~= vexpr_texts(vexpr_views(exprs@), xlen));
        let mut sep = String::from_str(" ");
        sep.append(Self::cop_to_string(cop).as_str());
        sep.append(" ");
        join_strings(&texts, sep.as_str())
    }

    /// The text of a condition.
    pub fn bexpr_to_string(b: &BExpr, xlen: u64) -> (r: String)
        ensures
            r@ == bexpr_text(b@, xlen),
        decreases b,
    {
        let ghost bv = b@;
        match b {
            BExpr::Bool(v) => Self::bexpr_bool_to_string(v),
            BExpr::BOpApp(op, args) => {
                proof {
                    BExpr::lemma_view_bopapp(*op, *args);
                }
                let mut texts: Vec<String> = Vec::new();
                let mut i: usize = 0;
                while i < args.len()
                    invariant
                        i <= args.len(),
                        texts@.len() == i,
                        forall|j: int| 0 <= j < i ==> texts@[j]@ == bexpr_text(args@[j]@, xlen),
                        decreases_to!(b => args),
                    decreases args.len() - i,
                {
                    texts.push(Self::bexpr_to_string(&args[i], xlen));
                    i += 1;
                }
                assert(views(texts@) =~= barg_texts(bv, xlen));
                Self::bexpr_bopapp_to_string(op, &texts, xlen)
            },
            BExpr::COpApp(op, args) => Self::bexpr_copapp_to_string(op, args, xlen),
        }
    }
}

} // verus!
