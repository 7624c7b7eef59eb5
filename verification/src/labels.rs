//! The names of operators and expressions, as they are shown in messages.

use crate::propagation::operands;
use crate::text::{dec_digits, join, join_strings, u64_to_dec, views};
use crate::veriv_ast::{
    expr_views, literal_label, BVOp, BoolOp, CompOp, Expr, ExprView, FuncApp, Op, OpApp, OpView,
};
use vstd::prelude::*;

verus! {

/// The text that the `Debug` formatting of the standard library writes for
/// the string `s`: the string between double quotes, with the characters
/// that the library escapes written as escapes.
pub uninterp spec fn quoted(s: Seq<char>) -> Seq<char>;

/// Writes a string as `format!("{:?}", ..)` of the standard library
/// does. The result depends on the string alone; the contract gives it its
/// name and says nothing more of it.
#[verifier::external_body]
pub(crate) fn debug_quoted(s: &str) -> (r: String)
    ensures
        r@ == quoted(s@),
{
    format!("{:?}", s)
}

/// The name of a comparison operator.
pub open spec fn comp_label(op: CompOp) -> Seq<char> {
    match op {
        CompOp::Equality => "Equality"@,
        CompOp::Inequality => "Inequality"@,
        CompOp::Lt => "Lt"@,
        CompOp::Le => "Le"@,
        CompOp::Gt => "Gt"@,
        CompOp::Ge => "Ge"@,
        CompOp::Ltu => "Ltu"@,
        CompOp::Leu => "Leu"@,
        CompOp::Gtu => "Gtu"@,
        CompOp::Geu => "Geu"@,
    }
}

/// The name of a bit-vector operator; that of a slice shows its bounds.
pub open spec fn bv_label(op: BVOp) -> Seq<char> {
    match op {
        BVOp::Add => "Add"@,
        BVOp::Sub => "Sub"@,
        BVOp::Mul => "Mul"@,
        BVOp::And => "And"@,
        BVOp::Or => "Or"@,
        BVOp::Xor => "Xor"@,
        BVOp::SignExt => "SignExt"@,
        BVOp::ZeroExt => "ZeroExt"@,
        BVOp::LeftShift => "LeftShift"@,
        BVOp::RightShift => "RightShift"@,
        BVOp::ARightShift => "ARightShift"@,
        BVOp::Concat => "Concat"@,
        BVOp::Slice { l, r } => "Slice { l: "@ + dec_digits(l as nat) + ", r: "@ + dec_digits(
            r as nat,
        ) + " }"@,
    }
}

/// The name of a connective.
pub open spec fn bool_label(op: BoolOp) -> Seq<char> {
    match op {
        BoolOp::Conj => "Conj"@,
        BoolOp::Disj => "Disj"@,
        BoolOp::Iff => "Iff"@,
        BoolOp::Impl => "Impl"@,
        BoolOp::Neg => "Neg"@,
    }
}

/// The name of an operator, given the quoted name of the field for an
/// access to a field: the kind of the operator, and in brackets which
/// operator of the kind it is.
pub open spec fn op_label_with(op: OpView, field: Seq<char>) -> Seq<char> {
    match op {
        OpView::Comp(c) => "Comp"@ + "("@ + comp_label(c) + ")"@,
        OpView::Bv(b) => "Bv"@ + "("@ + bv_label(b) + ")"@,
        OpView::Bool(b) => "Bool"@ + "("@ + bool_label(b) + ")"@,
        OpView::ArrayIndex => "ArrayIndex"@,
        OpView::GetField(_) => "GetField"@ + "("@ + field + ")"@,
    }
}

/// The name of an operator.
pub open spec fn op_label(op: OpView) -> Seq<char> {
    op_label_with(
        op,
        match op {
            OpView::GetField(f) => quoted(f),
            _ => Seq::empty(),
        },
    )
}

/// Whether the expression `e` has a name: every application in it has an
/// operand.
pub open spec fn expr_has_label(e: ExprView) -> bool
    decreases e, operands(e).len() + 1,
{
    match e {
        ExprView::OpApp(_, args, _) => args.len() > 0 && operands_have_labels(e, 0),
        ExprView::FuncApp(_, args, _) => args.len() > 0 && operands_have_labels(e, 0),
        _ => true,
    }
}

/// Whether the operands of `e` from index `i` on have names.
pub open spec fn operands_have_labels(e: ExprView, i: nat) -> bool
    decreases e, operands(e).len() - i,
{
    i >= operands(e).len() || (expr_has_label(operands(e)[i as int]) && operands_have_labels(
        e,
        i + 1,
    ))
}

/// Whether the expressions of `v` from index `i` on have names.
pub open spec fn all_have_labels(v: Seq<ExprView>, i: nat) -> bool
    decreases v.len() - i,
{
    i >= v.len() || (expr_has_label(v[i as int]) && all_have_labels(v, i + 1))
}

/// The name of an expression: a literal's or a variable's own name; an
/// operator before its operands, in brackets; a function before its
/// operands in brackets.
pub open spec fn expr_label(e: ExprView) -> Seq<char>
    decreases e, 1int,
{
    match e {
        ExprView::Literal(l, _) => literal_label(l),
        ExprView::Var(v, _) => v.name,
        ExprView::OpApp(op, _, _) => "("@ + op_label(op) + " "@ + join(operand_labels(e), ", "@)
            + ")"@,
        ExprView::FuncApp(name, _, _) => name + "("@ + join(operand_labels(e), ", "@) + ")"@,
    }
}

/// The names of the operands of `e`.
pub open spec fn operand_labels(e: ExprView) -> Seq<Seq<char>>
    decreases e, 0int,
{
    Seq::new(
        operands(e).len(),
        |i: int|
            if 0 <= i < operands(e).len() {
                expr_label(operands(e)[i])
            } else {
                arbitrary()
            },
    )
}

/// The names of the expressions of `v`.
pub open spec fn expr_labels(v: Seq<ExprView>) -> Seq<Seq<char>> {
    Seq::new(v.len(), |i: int| expr_label(v[i]))
}

/// The name of a comparison operator.
fn comp_to_string(op: &CompOp) -> (r: String)
    ensures
        r@ == comp_label(*op),
{
    match op {
        CompOp::Equality => String::from_str("Equality"),
        CompOp::Inequality => String::from_str("Inequality"),
        CompOp::Lt => String::from_str("Lt"),
        CompOp::Le => String::from_str("Le"),
        CompOp::Gt => String::from_str("Gt"),
        CompOp::Ge => String::from_str("Ge"),
        CompOp::Ltu => String::from_str("Ltu"),
        CompOp::Leu => String::from_str("Leu"),
        CompOp::Gtu => String::from_str("Gtu"),
        CompOp::Geu => String::from_str("Geu"),
    }
}

/// The name of a bit-vector operator.
fn bv_to_string(op: &BVOp) -> (r: String)
    ensures
        r@ == bv_label(*op),
{
    match op {
        BVOp::Add => String::from_str("Add"),
        BVOp::Sub => String::from_str("Sub"),
        BVOp::Mul => String::from_str("Mul"),
        BVOp::And => String::from_str("And"),
        BVOp::Or => String::from_str("Or"),
        BVOp::Xor => String::from_str("Xor"),
        BVOp::SignExt => String::from_str("SignExt"),
        BVOp::ZeroExt => String::from_str("ZeroExt"),
        BVOp::LeftShift => String::from_str("LeftShift"),
        BVOp::RightShift => String::from_str("RightShift"),
        BVOp::ARightShift => String::from_str("ARightShift"),
        BVOp::Concat => String::from_str("Concat"),
        BVOp::Slice { l, r } => {
            let mut s = String::from_str("Slice { l: ");
            s.append(u64_to_dec(*l).as_str());
            s.append(", r: ");
            s.append(u64_to_dec(*r).as_str());
            s.append(" }");
            s
        },
    }
}

/// The name of a connective.
fn bool_to_string(op: &BoolOp) -> (r: String)
    ensures
        r@ == bool_label(*op),
{
    match op {
        BoolOp::Conj => String::from_str("Conj"),
        BoolOp::Disj => String::from_str("Disj"),
        BoolOp::Iff => String::from_str("Iff"),
        BoolOp::Impl => String::from_str("Impl"),
        BoolOp::Neg => String::from_str("Neg"),
    }
}

/// `kind`, and `inner` in brackets after it.
fn bracketed(kind: &str, inner: &str) -> (r: String)
    ensures
        r@ == kind@ + "("@ + inner@ + ")"@,
{
    let mut s = String::from_str(kind);
    s.append("(");
    s.append(inner);
    s.append(")");
    s
}

impl Op {
    /// The name of the operator, given the quoted name of the field for an
    /// access to a field.
    pub fn to_string_with(&self, field: &str) -> (r: String)
        ensures
            r@ == op_label_with(self@, field@),
    {
        match self {
            Op::Comp(c) => bracketed("Comp", comp_to_string(c).as_str()),
            Op::Bv(b) => bracketed("Bv", bv_to_string(b).as_str()),
            Op::Bool(b) => bracketed("Bool", bool_to_string(b).as_str()),
            Op::ArrayIndex => String::from_str("ArrayIndex"),
            Op::GetField(_) => bracketed("GetField", field),
        }
    }

    /// The name of the operator.
    pub fn to_string(&self) -> (r: String)
        ensures
            r@ == op_label(self@),
    {
        match self {
            Op::GetField(f) => {
                let q = debug_quoted(f.as_str());
                self.to_string_with(q.as_str())
            },
            _ => self.to_string_with(""),
        }
    }
}

/// The names of the expressions of `v`.
pub fn exprs_to_labels(v: &Vec<Expr>) -> (r: Vec<String>)
    requires
        all_have_labels(expr_views(v@), 0),
    ensures
        views(r@) == expr_labels(expr_views(v@)),
{
    let ghost all = expr_views(v@);
    let mut out: Vec<String> = Vec::new();
    let mut i: usize = 0;
    while i < v.len()
        invariant
            i <= v.len(),
            out@.len() == i,
            all == expr_views(v@),
            all_have_labels(all, i as nat),
            forall|j: int| 0 <= j < i ==> out@[j]@ == expr_label(all[j]),
        decreases v.len() - i,
    {
        assert(all[i as int] == v@[i as int]@);
        let t = v[i].to_string();
        out.push(t);
        i += 1;
    }
    assert(views(out@) =~= expr_labels(all));
    out
}

/// The names of the operands of an application.
fn operands_to_strings(parent: &Expr, ops: &Vec<Expr>) -> (r: Vec<String>)
    requires
        operands_have_labels(parent@, 0),
        operands(parent@) == expr_views(ops@),
        decreases_to!(parent => ops),
    ensures
        views(r@) == operand_labels(parent@),
    decreases parent, 0int,
{
    let ghost pv = parent@;
    let mut out: Vec<String> = Vec::new();
    let mut i: usize = 0;
    while i < ops.len()
        invariant
            i <= ops.len(),
            out@.len() == i,
            pv == parent@,
            operands(pv) == expr_views(ops@),
            operands_have_labels(pv, i as nat),
            forall|j: int| 0 <= j < i ==> out@[j]@ == expr_label(operands(pv)[j]),
            decreases_to!(parent => ops),
        decreases ops.len() - i,
    {
        assert(operands(pv)[i as int] == ops@[i as int]@);
        let t = ops[i].to_string();
        out.push(t);
        i += 1;
    }
    assert(views(out@) =~= operand_labels(pv));
    out
}

/// An operator's name before the names of its operands, in brackets.
fn applied_op(op: &str, operands: &Vec<String>) -> (r: String)
    ensures
        r@ == "("@ + op@ + " "@ + join(views(operands@), ", "@) + ")"@,
{
    let mut s = String::from_str("(");
    s.append(op);
    s.append(" ");
    s.append(join_strings(operands, ", ").as_str());
    s.append(")");
    s
}

impl Expr {
    /// The name of the expression, as it is shown in messages.
    pub fn to_string(&self) -> (r: String)
        requires
            expr_has_label(self@),
        ensures
            r@ == expr_label(self@),
        decreases self, 1int,
    {
        match self {
            Expr::Literal(l, _) => l.to_string(),
            Expr::Var(v, _) => v.to_string(),
            Expr::OpApp(opapp, t) => {
                proof {
                    Expr::lemma_view_opapp(*opapp, *t);
                }
                let texts = operands_to_strings(self, &opapp.operands);
                applied_op(opapp.op.to_string().as_str(), &texts)
            },
            Expr::FuncApp(fapp, t) => {
                proof {
                    Expr::lemma_view_funcapp(*fapp, *t);
                }
                let texts = operands_to_strings(self, &fapp.operands);
                bracketed(fapp.func_name.as_str(), join_strings(&texts, ", ").as_str())
            },
        }
    }

    /// Whether the expression has a name.
    pub fn is_labelled(&self) -> (r: bool)
        ensures
            r == expr_has_label(self@),
        decreases self,
    {
        let ghost ev = self@;
        let ops = match self {
            Expr::OpApp(opapp, t) => {
                proof {
                    Expr::lemma_view_opapp(*opapp, *t);
                }
                &opapp.operands
            },
            Expr::FuncApp(fapp, t) => {
                proof {
                    Expr::lemma_view_funcapp(*fapp, *t);
                }
                &fapp.operands
            },
            _ => {
                return true;
            },
        };
        if ops.len() == 0 {
            return false;
        }
        let mut i: usize = 0;
        while i < ops.len()
            invariant
                i <= ops.len(),
                ev == self@,
                operands(ev) == expr_views(ops@),
                operands_have_labels(ev, 0) == operands_have_labels(ev, i as nat),
                decreases_to!(self => ops),
            decreases ops.len() - i,
        {
            assert(operands(ev)[i as int] == ops@[i as int]@);
            if !ops[i].is_labelled() {
                return false;
            }
            i += 1;
        }
        true
    }
}

impl OpApp {
    /// The name of the application, as it is shown in messages: the
    /// operator before its operands, in brackets.
    pub fn to_string(&self) -> (r: String)
        requires
            self.operands@.len() > 0,
            all_have_labels(expr_views(self.operands@), 0),
        ensures
            r@ == "("@ + op_label(self.op@) + " "@ + join(
                expr_labels(expr_views(self.operands@)),
                ", "@,
            ) + ")"@,
    {
        let texts = exprs_to_labels(&self.operands);
        applied_op(self.op.to_string().as_str(), &texts)
    }
}

impl FuncApp {
    /// The name of the application, as it is shown in messages: the
    /// function before its operands in brackets.
    pub fn to_string(&self) -> (r: String)
        requires
            self.operands@.len() > 0,
            all_have_labels(expr_views(self.operands@), 0),
        ensures
            r@ == self.func_name@ + "("@ + join(expr_labels(expr_views(self.operands@)), ", "@)
                + ")"@,
    {
        let texts = exprs_to_labels(&self.operands);
        bracketed(self.func_name.as_str(), join_strings(&texts, ", ").as_str())
    }
}

} // verus!
