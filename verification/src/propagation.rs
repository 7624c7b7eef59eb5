//! Constant propagation through the statements of one basic block.

use crate::helpers::{mask, mask_bits};
use crate::text::str_eq;
use crate::veriv_ast::{
    expr_views, op_result_type, stmt_views, Assign, AssignView, BVOp, BoolOp, CompOp, Expr,
    ExprView, FuncApp, Literal, Op, OpApp, OpView, Stmt, StmtView, Type, TypeView,
};
use vstd::prelude::*;

verus! {

// ================================================================================
// Known constants

/// What is known of the variables at one point of a block: for each name
/// that is listed, the constant that the variable holds. Of several entries
/// for one name the last one counts.
#[derive(Debug, PartialEq, Eq)]
pub struct ConstMap {
    pub entries: Vec<(String, u64)>,
}

/// The views of the entries of a constant map.
pub open spec fn entry_views(v: Seq<(String, u64)>) -> Seq<(Seq<char>, u64)> {
    Seq::new(v.len(), |i: int| (v[i].0@, v[i].1))
}

/// The map that a list of entries stands for.
pub open spec fn env_of(s: Seq<(Seq<char>, u64)>) -> Map<Seq<char>, u64>
    decreases s.len(),
{
    if s.len() == 0 {
        Map::empty()
    } else {
        env_of(s.drop_last()).insert(s.last().0, s.last().1)
    }
}

/// The test that an entry is for another name than `name`.
pub open spec fn not_named(name: Seq<char>) -> spec_fn((Seq<char>, u64)) -> bool {
    |e: (Seq<char>, u64)| e.0 != name
}

/// Taking the entries for one name out of a list takes the name out of the
/// map, and leaves the rest of the map as it is.
proof fn lemma_env_filter(s: Seq<(Seq<char>, u64)>, name: Seq<char>)
    ensures
        env_of(s.filter(not_named(name))) == env_of(s).remove(name),
    decreases s.len(),
{
    let keep = not_named(name);
    reveal(Seq::filter);
    if s.len() == 0 {
        assert(env_of(s).remove(name) =~= Map::<Seq<char>, u64>::empty());
    } else {
        lemma_env_filter(s.drop_last(), name);
        let f = s.drop_last().filter(keep);
        if keep(s.last()) {
            assert(s.filter(keep) == f.push(s.last()));
            assert(f.push(s.last()).drop_last() =~= f);
            assert(env_of(s.filter(keep)) =~= env_of(s).remove(name));
        } else {
            assert(s.filter(keep) == f);
            assert(env_of(f) =~= env_of(s).remove(name));
        }
    }
}

impl View for ConstMap {
    type V = Map<Seq<char>, u64>;

    open spec fn view(&self) -> Map<Seq<char>, u64> {
        env_of(entry_views(self.entries@))
    }
}

impl ConstMap {
    /// A map that knows of no variable.
    pub fn new() -> (r: Self)
        ensures
            r@ == Map::<Seq<char>, u64>::empty(),
    {
        let r = ConstMap { entries: Vec::new() };
        assert(entry_views(r.entries@) =~= Seq::<(Seq<char>, u64)>::empty());
        r
    }

    /// The constant that the variable `name` holds, where one is known.
    pub fn get(&self, name: &str) -> (r: Option<u64>)
        ensures
            r is Some <==> self@.contains_key(name@),
            r is Some ==> r->0 == self@[name@],
    {
        let ghost all = entry_views(self.entries@);
        let mut i: usize = self.entries.len();
        assert(all.take(i as int) =~= all);
        while i > 0
            invariant
                i <= self.entries.len(),
                all == entry_views(self.entries@),
                env_of(all).contains_key(name@) == env_of(all.take(i as int)).contains_key(name@),
                env_of(all).contains_key(name@) ==> env_of(all)[name@] == env_of(
                    all.take(i as int),
                )[name@],
            decreases i,
        {
            i -= 1;
            proof {
                assert(all.take(i + 1).drop_last() =~= all.take(i as int));
                assert(all.take(i + 1).last() == all[i as int]);
            }
            if str_eq(self.entries[i].0.as_str(), name) {
                return Some(self.entries[i].1);
            }
        }
        None
    }

    /// Records that the variable `name` holds `value`.
    pub fn insert(&mut self, name: String, value: u64)
        ensures
            final(self)@ == old(self)@.insert(name@, value),
    {
        let ghost before = entry_views(self.entries@);
        self.entries.push((name, value));
        proof {
            let after = entry_views(self.entries@);
            assert(after.drop_last() =~= before);
            assert(after.last() == (name@, value));
        }
    }

    /// Forgets what is known of the variable `name`.
    pub fn remove(&mut self, name: &str)
        ensures
            final(self)@ == old(self)@.remove(name@),
    {
        let ghost all = entry_views(self.entries@);
        let ghost keep = not_named(name@);
        let mut out: Vec<(String, u64)> = Vec::new();
        let mut i: usize = 0;
        proof {
            reveal(Seq::filter);
            assert(all.take(0) =~= Seq::<(Seq<char>, u64)>::empty());
            assert(entry_views(out@) =~= all.take(0).filter(keep));
        }
        while i < self.entries.len()
            invariant
                i <= self.entries.len(),
                all == entry_views(self.entries@),
                keep == not_named(name@),
                entry_views(out@) == all.take(i as int).filter(keep),
            decreases self.entries.len() - i,
        {
            proof {
                reveal(Seq::filter);
                assert(all.take(i + 1).drop_last() =~= all.take(i as int));
                assert(all.take(i + 1).last() == all[i as int]);
            }
            let ghost before = entry_views(out@);
            if !str_eq(self.entries[i].0.as_str(), name) {
                out.push((self.entries[i].0.clone(), self.entries[i].1));
                assert(entry_views(out@) =~= before.push(all[i as int]));
            }
            i += 1;
        }
        proof {
            assert(all.take(self.entries.len() as int) =~= all);
            lemma_env_filter(all, name@);
        }
        self.entries = out;
    }

    /// Forgets everything.
    pub fn clear(&mut self)
        ensures
            final(self)@ == Map::<Seq<char>, u64>::empty(),
    {
        self.entries = Vec::new();
        assert(entry_views(self.entries@) =~= Seq::<(Seq<char>, u64)>::empty());
    }
}

// ================================================================================
// Folding

/// The number that 64 bits stand for when the highest is the sign.
pub open spec fn signed64(x: u64) -> int {
    if x < 0x8000_0000_0000_0000 {
        x as int
    } else {
        x - 0x1_0000_0000_0000_0000
    }
}

/// `x` shifted right by `k` bits, the sign bit filling in from the left.
pub open spec fn sar(x: u64, k: u64) -> u64 {
    if x < 0x8000_0000_0000_0000 {
        x >> k
    } else {
        !((!x) >> k)
    }
}

/// The outcome of a comparison of two 64-bit numbers.
pub open spec fn comp_value(op: CompOp, x: u64, y: u64) -> bool {
    match op {
        CompOp::Equality => x == y,
        CompOp::Inequality => x != y,
        CompOp::Lt => signed64(x) < signed64(y),
        CompOp::Le => signed64(x) <= signed64(y),
        CompOp::Gt => signed64(x) > signed64(y),
        CompOp::Ge => signed64(x) >= signed64(y),
        CompOp::Ltu => x < y,
        CompOp::Leu => x <= y,
        CompOp::Gtu => x > y,
        CompOp::Geu => x >= y,
    }
}

/// The value of an arithmetic, bitwise or shift operator on two 64-bit
/// numbers: arithmetic wraps round, a shift is by `y` modulo 64 bits.
/// `None` for the other operators.
pub open spec fn bv_value(op: BVOp, x: u64, y: u64) -> Option<u64> {
    match op {
        BVOp::Add => Some(x.wrapping_add(y)),
        BVOp::Sub => Some(x.wrapping_sub(y)),
        BVOp::Mul => Some(x.wrapping_mul(y)),
        BVOp::And => Some(x & y),
        BVOp::Or => Some(x | y),
        BVOp::Xor => Some(x ^ y),
        BVOp::LeftShift => Some(x << ((y % 64) as u64)),
        BVOp::RightShift => Some(x >> ((y % 64) as u64)),
        BVOp::ARightShift => Some(sar(x, (y % 64) as u64)),
        _ => None,
    }
}

/// The value of a connective on truth values given as numbers, 1 for true.
pub open spec fn bool_value(op: BoolOp, x: u64, y: u64) -> bool {
    match op {
        BoolOp::Conj => x + y == 2,
        BoolOp::Disj => x + y > 0,
        BoolOp::Iff => x == y,
        BoolOp::Impl => x <= y,
        BoolOp::Neg => x != 1,
    }
}

/// A boolean literal.
pub open spec fn bool_lit(v: bool) -> ExprView {
    ExprView::Literal(Literal::Bool { val: v }, TypeView::Bool)
}

/// A bit-vector literal.
pub open spec fn bv_lit(v: u64, w: u64) -> ExprView {
    ExprView::Literal(Literal::Bv { val: v, width: w }, TypeView::Bv { w })
}

/// An integer literal.
pub open spec fn int_lit(v: u64) -> ExprView {
    ExprView::Literal(Literal::Int { val: v }, TypeView::Int)
}

/// The application of `op` to operands `a` that are folded already, with
/// the type `typ` that the application had.
///
/// Where the first two operands are literals: a comparison or a connective
/// gives a boolean literal; arithmetic on a bit-vector literal gives a
/// bit-vector literal of its width; an extension widens by the second
/// operand's value; a slice gives the bits under the mask, `l - r + 1`
/// wide. Everything else stays an application of `op` to `a`.
pub open spec fn fold_node(op: OpView, a: Seq<ExprView>, typ: TypeView) -> ExprView {
    let same = ExprView::OpApp(op, a, typ);
    if a.len() == 0 || !(a[0] is Literal) || (a.len() > 1 && !(a[1] is Literal)) {
        same
    } else {
        let x = a[0].lit_value()->0;
        match op {
            OpView::Comp(c) => if a.len() > 1 {
                bool_lit(comp_value(c, x, a[1].lit_value()->0))
            } else {
                same
            },
            OpView::Bv(b) => match b {
                BVOp::Concat => same,
                BVOp::Slice { l, r } => if r <= l && l - r < u64::MAX {
                    bv_lit(x & mask_bits(l, r), (l - r + 1) as u64)
                } else {
                    same
                },
                BVOp::SignExt | BVOp::ZeroExt => if a.len() > 1 && a[0]->Literal_0 is Bv
                    && a[0]->Literal_0->width + a[1].lit_value()->0 <= u64::MAX {
                    bv_lit(x, (a[0]->Literal_0->width + a[1].lit_value()->0) as u64)
                } else {
                    same
                },
                _ => if a.len() > 1 && a[0]->Literal_0 is Bv {
                    bv_lit(bv_value(b, x, a[1].lit_value()->0)->0, a[0]->Literal_0->width)
                } else {
                    same
                },
            },
            OpView::Bool(b) => if b == BoolOp::Neg {
                bool_lit(x != 1)
            } else if a.len() > 1 {
                bool_lit(bool_value(b, x, a[1].lit_value()->0))
            } else {
                same
            },
            OpView::ArrayIndex => same,
            OpView::GetField(_) => same,
        }
    }
}

/// The operands of an application; none for other expressions.
pub open spec fn operands(e: ExprView) -> Seq<ExprView> {
    match e {
        ExprView::OpApp(_, args, _) => args,
        ExprView::FuncApp(_, args, _) => args,
        _ => Seq::empty(),
    }
}

/// The expression `e` with its constant parts folded, from the leaves up.
/// The arguments of a function are not looked into.
pub open spec fn folded(e: ExprView) -> ExprView
    decreases e, 1int,
{
    match e {
        ExprView::OpApp(op, args, typ) => fold_node(op, folded_args(e), typ),
        _ => e,
    }
}

/// The operands of `e`, each with its constant parts folded.
pub open spec fn folded_args(e: ExprView) -> Seq<ExprView>
    decreases e, 0int,
{
    Seq::new(
        operands(e).len(),
        |i: int|
            if 0 <= i < operands(e).len() {
                folded(operands(e)[i])
            } else {
                arbitrary()
            },
    )
}

/// The expression `e` with the constant of `env` in place of each variable
/// of bit-vector, boolean or integer type that `env` knows; the types of
/// operator applications are worked out again from the new operands, and
/// stay as they were where the operands do not fit the operator.
pub open spec fn constified(e: ExprView, env: Map<Seq<char>, u64>) -> ExprView
    decreases e, 1int,
{
    match e {
        ExprView::Literal(_, _) => e,
        ExprView::Var(var, vtyp) => if env.contains_key(var.name) {
            match var.typ {
                TypeView::Bv { w } => bv_lit(env[var.name], w),
                TypeView::Bool => bool_lit(env[var.name] == 1),
                TypeView::Int => int_lit(env[var.name]),
                _ => e,
            }
        } else {
            e
        },
        ExprView::OpApp(op, args, typ) => {
            let a = constified_args(e, env);
            match op_result_type(op, a) {
                Some(t) => ExprView::OpApp(op, a, t),
                None => ExprView::OpApp(op, a, typ),
            }
        },
        ExprView::FuncApp(name, args, typ) => ExprView::FuncApp(name, constified_args(e, env), typ),
    }
}

/// The operands of `e`, each with the constants of `env` in place of the
/// variables that `env` knows.
pub open spec fn constified_args(e: ExprView, env: Map<Seq<char>, u64>) -> Seq<ExprView>
    decreases e, 0int,
{
    Seq::new(
        operands(e).len(),
        |i: int|
            if 0 <= i < operands(e).len() {
                constified(operands(e)[i], env)
            } else {
                arbitrary()
            },
    )
}

/// The expression `e` with the constants of `env` put in and folded.
pub open spec fn made_constant(e: ExprView, env: Map<Seq<char>, u64>) -> ExprView {
    folded(constified(e, env))
}

/// What is known after `e`, made constant, has been assigned to the
/// variable `id`: the new constant where `e` has become a literal, and what
/// was known before otherwise.
pub open spec fn propagated_env(id: Seq<char>, e: ExprView, env: Map<Seq<char>, u64>) -> Map<
    Seq<char>,
    u64,
> {
    match made_constant(e, env).lit_value() {
        Some(v) => env.insert(id, v),
        None => env,
    }
}

/// Constant propagation through straight-line code.
pub struct ConstantPropagator;

impl ConstantPropagator {
    /// Whether the signed number of `x` is below that of `y`.
    fn signed_lt(x: u64, y: u64) -> (r: bool)
        ensures
            r == (signed64(x) < signed64(y)),
    {
        let nx = x >= 0x8000_0000_0000_0000;
        let ny = y >= 0x8000_0000_0000_0000;
        if nx != ny {
            nx
        } else {
            x < y
        }
    }

    /// The outcome of a comparison of two 64-bit numbers.
    fn eval_comp(op: CompOp, x: u64, y: u64) -> (r: bool)
        ensures
            r == comp_value(op, x, y),
    {
        match op {
            CompOp::Equality => x == y,
            CompOp::Inequality => x != y,
            CompOp::Lt => Self::signed_lt(x, y),
            CompOp::Le => !Self::signed_lt(y, x),
            CompOp::Gt => Self::signed_lt(y, x),
            CompOp::Ge => !Self::signed_lt(x, y),
            CompOp::Ltu => x < y,
            CompOp::Leu => x <= y,
            CompOp::Gtu => x > y,
            CompOp::Geu => x >= y,
        }
    }

    /// The value of an arithmetic, bitwise or shift operator.
    fn eval_bv(op: BVOp, x: u64, y: u64) -> (r: Option<u64>)
        ensures
            r == bv_value(op, x, y),
    {
        match op {
            BVOp::Add => Some(x.wrapping_add(y)),
            BVOp::Sub => Some(x.wrapping_sub(y)),
            BVOp::Mul => Some(x.wrapping_mul(y)),
            BVOp::And => Some(x & y),
            BVOp::Or => Some(x | y),
            BVOp::Xor => Some(x ^ y),
            BVOp::LeftShift => Some(x << (y % 64)),
            BVOp::RightShift => Some(x >> (y % 64)),
            BVOp::ARightShift => {
                let k: u64 = y % 64;
                if x < 0x8000_0000_0000_0000 {
                    Some(x >> k)
                } else {
                    Some(!((!x) >> k))
                }
            },
            _ => None,
        }
    }

    /// The value of a connective on truth values given as numbers.
    fn eval_bool(op: BoolOp, x: u64, y: u64) -> (r: bool)
        ensures
            r == bool_value(op, x, y),
    {
        match op {
            BoolOp::Conj => (x == 0 && y == 2) || (x == 1 && y == 1) || (x == 2 && y == 0),
            BoolOp::Disj => x > 0 || y > 0,
            BoolOp::Iff => x == y,
            BoolOp::Impl => x <= y,
            BoolOp::Neg => x != 1,
        }
    }

    /// Folds the application of `op` to operands that are folded already.
    fn fold_opapp(op: Op, a: Vec<Expr>, typ: Type) -> (r: Expr)
        ensures
            r@ == fold_node(op@, expr_views(a@), typ@),
    {
        let ghost av = expr_views(a@);
        if a.len() == 0 || !a[0].is_lit() || (a.len() > 1 && !a[1].is_lit()) {
            let oa = OpApp { op, operands: a };
            proof {
                Expr::lemma_view_opapp(oa, typ);
            }
            return Expr::OpApp(oa, typ);
        }
        assert(av[0] == a@[0]@);
        let x: u64 = match a[0].get_lit_value() {
            Some(x) => x,
            None => 0,
        };
        let y_opt: Option<u64> = if a.len() > 1 {
            assert(av[1] == a@[1]@);
            a[1].get_lit_value()
        } else {
            None
        };
        let width: Option<u64> = match a[0].get_lit() {
            Some(Literal::Bv { val: _, width }) => Some(*width),
            _ => None,
        };
        let folded: Option<Expr> = match &op {
            Op::Comp(c) => match y_opt {
                Some(y) => Some(Expr::bool_lit(Self::eval_comp(*c, x, y))),
                None => None,
            },
            Op::Bv(b) => match b {
                BVOp::Concat => None,
                BVOp::Slice { l, r } => if *r <= *l && *l - *r < u64::MAX {
                    Some(Expr::bv_lit(x & mask(*l, *r), *l - *r + 1))
                } else {
                    None
                },
                BVOp::SignExt | BVOp::ZeroExt => match (width, y_opt) {
                    (Some(w), Some(y)) => match w.checked_add(y) {
                        Some(sum) => Some(Expr::bv_lit(x, sum)),
                        None => None,
                    },
                    _ => None,
                },
                _ => match (width, y_opt) {
                    (Some(w), Some(y)) => match Self::eval_bv(*b, x, y) {
                        Some(v) => Some(Expr::bv_lit(v, w)),
                        None => None,
                    },
                    _ => None,
                },
            },
            Op::Bool(b) => match b {
                BoolOp::Neg => Some(Expr::bool_lit(x != 1)),
                _ => match y_opt {
                    Some(y) => Some(Expr::bool_lit(Self::eval_bool(*b, x, y))),
                    None => None,
                },
            },
            Op::ArrayIndex => None,
            Op::GetField(_) => None,
        };
        match folded {
            Some(e) => e,
            None => {
                let oa = OpApp { op, operands: a };
                proof {
                    Expr::lemma_view_opapp(oa, typ);
                }
                Expr::OpApp(oa, typ)
            },
        }
    }

    /// Folds the constant parts of an expression, from the leaves up.
    pub fn constant_fold(expr: &Expr) -> (r: Expr)
        ensures
            r@ == folded(expr@),
        decreases expr,
    {
        match expr {
            Expr::OpApp(opapp, typ) => {
                proof {
                    Expr::lemma_view_opapp(*opapp, *typ);
                }
                let mut out: Vec<Expr> = Vec::new();
                let mut i: usize = 0;
                while i < opapp.operands.len()
                    invariant
                        i <= opapp.operands.len(),
                        out@.len() == i,
                        forall|j: int| 0 <= j < i ==> out@[j]@ == folded(opapp.operands@[j]@),
                        decreases_to!(expr => opapp.operands),
                    decreases opapp.operands.len() - i,
                {
                    let x = Self::constant_fold(&opapp.operands[i]);
                    out.push(x);
                    i += 1;
                }
                proof {
                    assert(expr_views(out@) =~= folded_args(expr@));
                }
                Self::fold_opapp(opapp.op.clone(), out, typ.clone())
            },
            _ => expr.clone(),
        }
    }

    /// Puts the constants of `ctx` in place of the variables that it knows.
    pub fn constified_expr(expr: &Expr, ctx: &ConstMap) -> (r: Expr)
        ensures
            r@ == constified(expr@, ctx@),
        decreases expr,
    {
        match expr {
            Expr::Literal(lit, typ) => Expr::Literal(*lit, typ.clone()),
            Expr::Var(var, vtyp) => match ctx.get(var.name.as_str()) {
                Some(val) => match &var.typ {
                    Type::Bv { w } => Expr::bv_lit(val, *w),
                    Type::Bool => Expr::bool_lit(val == 1),
                    Type::Int => Expr::int_lit(val),
                    _ => Expr::Var(var.clone(), vtyp.clone()),
                },
                None => Expr::Var(var.clone(), vtyp.clone()),
            },
            Expr::OpApp(opapp, typ) => {
                proof {
                    Expr::lemma_view_opapp(*opapp, *typ);
                }
                let mut out: Vec<Expr> = Vec::new();
                let mut i: usize = 0;
                while i < opapp.operands.len()
                    invariant
                        i <= opapp.operands.len(),
                        out@.len() == i,
                        forall|j: int|
                            0 <= j < i ==> out@[j]@ == constified(opapp.operands@[j]@, ctx@),
                        decreases_to!(expr => opapp.operands),
                    decreases opapp.operands.len() - i,
                {
                    let x = Self::constified_expr(&opapp.operands[i], ctx);
                    out.push(x);
                    i += 1;
                }
                proof {
                    assert(expr_views(out@) =~= constified_args(expr@, ctx@));
                }
                let op = opapp.op.clone();
                if Expr::op_fits(&op, &out) {
                    Expr::op_app(op, out)
                } else {
                    let oa = OpApp { op, operands: out };
                    let t = typ.clone();
                    proof {
                        Expr::lemma_view_opapp(oa, t);
                    }
                    Expr::OpApp(oa, t)
                }
            },
            Expr::FuncApp(fapp, typ) => {
                proof {
                    Expr::lemma_view_funcapp(*fapp, *typ);
                }
                let mut out: Vec<Expr> = Vec::new();
                let mut i: usize = 0;
                while i < fapp.operands.len()
                    invariant
                        i <= fapp.operands.len(),
                        out@.len() == i,
                        forall|j: int|
                            0 <= j < i ==> out@[j]@ == constified(fapp.operands@[j]@, ctx@),
                        decreases_to!(expr => fapp.operands),
                    decreases fapp.operands.len() - i,
                {
                    let x = Self::constified_expr(&fapp.operands[i], ctx);
                    out.push(x);
                    i += 1;
                }
                proof {
                    assert(expr_views(out@) =~= constified_args(expr@, ctx@));
                }
                Expr::func_app(fapp.func_name.clone(), out, typ.clone())
            },
        }
    }

    /// Puts the known constants into an expression and folds it.
    pub fn try_make_constant(expr: &Expr, ctx: &ConstMap) -> (r: Expr)
        ensures
            r@ == made_constant(expr@, ctx@),
    {
        let constified_expr = Self::constified_expr(expr, ctx);
        Self::constant_fold(&constified_expr)
    }

    /// Makes `expr` constant as far as is known, and records the constant
    /// for the variable `id` where `expr` has become a literal.
    pub fn constant_propagate(id: String, expr: &Expr, ctx: &mut ConstMap) -> (r: Expr)
        ensures
            r@ == made_constant(expr@, old(ctx)@),
            final(ctx)@ == propagated_env(id@, expr@, old(ctx)@),
    {
        let folded_expr = Self::try_make_constant(expr, ctx);
        match folded_expr.get_lit_value() {
            Some(v) => {
                ctx.insert(id, v);
            },
            None => {},
        }
        folded_expr
    }
}


// ================================================================================
// Statements

/// What one assignment `l = r` turns into, given what is known in `env`.
///
/// Where `l` is a variable, `r` is made constant; the variable is then
/// known where `r` has become a literal, and unknown otherwise. Where `l`
/// is an element of an array, its index and `r` are made constant, and
/// nothing is learnt. Any other assignment stays as it is.
pub open spec fn assign_pair(l: ExprView, r: ExprView, env: Map<Seq<char>, u64>) -> (
    ExprView,
    ExprView,
    Map<Seq<char>, u64>,
) {
    match l {
        ExprView::Var(var, _) => {
            let rw = made_constant(r, env);
            match rw.lit_value() {
                Some(v) => (l, rw, env.insert(var.name, v)),
                None => (l, rw, env.remove(var.name)),
            }
        },
        ExprView::OpApp(OpView::ArrayIndex, ops, t) => if ops.len() > 1 {
            let new_ops = seq![ops[0], made_constant(ops[1], env)];
            let rw_l = match op_result_type(OpView::ArrayIndex, new_ops) {
                Some(nt) => ExprView::OpApp(OpView::ArrayIndex, new_ops, nt),
                None => ExprView::OpApp(OpView::ArrayIndex, new_ops, t),
            };
            (rw_l, made_constant(r, env), env)
        } else {
            (l, r, env)
        },
        _ => (l, r, env),
    }
}

/// The assignment `a` from its pair `i` on, after the pairs before it have
/// given the targets `ls`, the values `rs` and the knowledge `env`. Targets
/// and values are paired off as far as both last.
pub open spec fn assign_pairs(
    a: AssignView,
    i: nat,
    env: Map<Seq<char>, u64>,
    ls: Seq<ExprView>,
    rs: Seq<ExprView>,
) -> (AssignView, Map<Seq<char>, u64>)
    decreases a.lhs.len() - i,
{
    if i >= a.lhs.len() || i >= a.rhs.len() {
        (AssignView { lhs: ls, rhs: rs }, env)
    } else {
        let p = assign_pair(a.lhs[i as int], a.rhs[i as int], env);
        assign_pairs(a, i + 1, p.2, ls.push(p.0), rs.push(p.1))
    }
}

/// The assignment `a` after constant propagation, and what is known after
/// it.
pub open spec fn propagated_assign(a: AssignView, env: Map<Seq<char>, u64>) -> (
    AssignView,
    Map<Seq<char>, u64>,
) {
    assign_pairs(a, 0, env, Seq::empty(), Seq::empty())
}

/// The statements of a block; none for other statements.
pub open spec fn block_stmts(s: StmtView) -> Seq<StmtView> {
    match s {
        StmtView::Block(v) => v,
        _ => Seq::empty(),
    }
}

/// The statement `s` after constant propagation, and what is known after
/// it. Assignments are rewritten one after the other; a conditional
/// statement stays as it is, and after it nothing is known; other
/// statements neither change nor teach anything.
pub open spec fn propagated(s: StmtView, env: Map<Seq<char>, u64>) -> (
    StmtView,
    Map<Seq<char>, u64>,
)
    decreases s, block_stmts(s).len() + 1,
{
    match s {
        StmtView::Assign(a) => {
            let r = propagated_assign(a, env);
            (StmtView::Assign(r.0), r.1)
        },
        StmtView::IfThenElse(_) => (s, Map::empty()),
        StmtView::Block(_) => propagated_block(s, 0, env, Seq::empty()),
        _ => (s, env),
    }
}

/// The block `s` from its statement `i` on, after the statements before it
/// have given `done` and the knowledge `env`.
pub open spec fn propagated_block(
    s: StmtView,
    i: nat,
    env: Map<Seq<char>, u64>,
    done: Seq<StmtView>,
) -> (StmtView, Map<Seq<char>, u64>)
    decreases s, block_stmts(s).len() - i,
{
    if i >= block_stmts(s).len() {
        (StmtView::Block(done), env)
    } else {
        let p = propagated(block_stmts(s)[i as int], env);
        propagated_block(s, i + 1, p.1, done.push(p.0))
    }
}

impl ConstantPropagator {
    /// Rewrites one assignment `l = r`.
    fn rewrite_pair(l: &Expr, r: &Expr, ctx: &mut ConstMap) -> (res: (Expr, Expr))
        ensures
            (res.0@, res.1@, final(ctx)@) == assign_pair(l@, r@, old(ctx)@),
    {
        match l {
            Expr::Var(var, _) => {
                let rw_r = Self::constant_propagate(var.name.clone(), r, ctx);
                if !rw_r.is_lit() {
                    ctx.remove(var.name.as_str());
                }
                (l.clone(), rw_r)
            },
            Expr::OpApp(opapp, t) => {
                proof {
                    Expr::lemma_view_opapp(*opapp, *t);
                }
                match opapp.op {
                    Op::ArrayIndex => {
                        if opapp.operands.len() > 1 {
                            let ghost ops = expr_views(opapp.operands@);
                            assert(ops[0] == opapp.operands@[0]@ && ops[1] == opapp.operands@[1]@);
                            let folded_index = Self::try_make_constant(&opapp.operands[1], ctx);
                            let mut new_ops: Vec<Expr> = Vec::new();
                            new_ops.push(opapp.operands[0].clone());
                            new_ops.push(folded_index);
                            assert(expr_views(new_ops@) =~= seq![
                                ops[0],
                                made_constant(ops[1], ctx@),
                            ]);
                            let rw_l = if Expr::op_fits(&Op::ArrayIndex, &new_ops) {
                                Expr::op_app(Op::ArrayIndex, new_ops)
                            } else {
                                let oa = OpApp { op: Op::ArrayIndex, operands: new_ops };
                                let t2 = t.clone();
                                proof {
                                    Expr::lemma_view_opapp(oa, t2);
                                }
                                Expr::OpApp(oa, t2)
                            };
                            let rw_r = Self::try_make_constant(r, ctx);
                            (rw_l, rw_r)
                        } else {
                            (l.clone(), r.clone())
                        }
                    },
                    _ => (l.clone(), r.clone()),
                }
            },
            _ => (l.clone(), r.clone()),
        }
    }

    /// Propagates constants through the pairs of an assignment, one after
    /// the other.
    pub fn rewrite_assign(a: &Assign, ctx: &mut ConstMap) -> (r: Assign)
        ensures
            (r@, final(ctx)@) == propagated_assign(a@, old(ctx)@),
    {
        let mut rw_lhss: Vec<Expr> = Vec::new();
        let mut rw_rhss: Vec<Expr> = Vec::new();
        let mut i: usize = 0;
        assert(expr_views(rw_lhss@) =~= Seq::<ExprView>::empty());
        assert(expr_views(rw_rhss@) =~= Seq::<ExprView>::empty());
        while i < a.lhs.len() && i < a.rhs.len()
            invariant
                i <= a.lhs.len(),
                i <= a.rhs.len(),
                propagated_assign(a@, old(ctx)@) == assign_pairs(
                    a@,
                    i as nat,
                    ctx@,
                    expr_views(rw_lhss@),
                    expr_views(rw_rhss@),
                ),
            decreases a.lhs.len() - i,
        {
            let ghost ls = expr_views(rw_lhss@);
            let ghost rs = expr_views(rw_rhss@);
            assert(a@.lhs[i as int] == a.lhs@[i as int]@ && a@.rhs[i as int] == a.rhs@[i as int]@);
            let p = Self::rewrite_pair(&a.lhs[i], &a.rhs[i], ctx);
            rw_lhss.push(p.0);
            rw_rhss.push(p.1);
            assert(expr_views(rw_lhss@) =~= ls.push(p.0@));
            assert(expr_views(rw_rhss@) =~= rs.push(p.1@));
            i += 1;
        }
        Assign { lhs: rw_lhss, rhs: rw_rhss }
    }

    /// Propagates constants through a statement.
    pub fn visit_stmt(stmt: &Stmt, ctx: &mut ConstMap) -> (r: Stmt)
        ensures
            (r@, final(ctx)@) == propagated(stmt@, old(ctx)@),
        decreases stmt,
    {
        match stmt {
            Stmt::Assign(a) => Stmt::Assign(Self::rewrite_assign(a, ctx)),
            Stmt::IfThenElse(_) => Self::visit_stmt_ifthenelse(stmt, ctx),
            Stmt::Block(stmts) => {
                proof {
                    Stmt::lemma_view_block(*stmts);
                }
                let mut out: Vec<Box<Stmt>> = Vec::new();
                let mut i: usize = 0;
                assert(stmt_views(out@) =~= Seq::<StmtView>::empty());
                while i < stmts.len()
                    invariant
                        i <= stmts.len(),
                        stmt@ == StmtView::Block(stmt_views(stmts@)),
                        propagated(stmt@, old(ctx)@) == propagated_block(
                            stmt@,
                            i as nat,
                            ctx@,
                            stmt_views(out@),
                        ),
                        decreases_to!(stmt => stmts),
                    decreases stmts.len() - i,
                {
                    let ghost done = stmt_views(out@);
                    assert(block_stmts(stmt@)[i as int] == (*stmts@[i as int])@);
                    let x = Self::visit_stmt(&stmts[i], ctx);
                    out.push(Box::new(x));
                    assert(stmt_views(out@) =~= done.push(x@));
                    i += 1;
                }
                proof {
                    Stmt::lemma_view_block(out);
                }
                Stmt::Block(out)
            },
            _ => stmt.clone(),
        }
    }

    /// Leaves a conditional statement as it is, and forgets everything.
    pub fn visit_stmt_ifthenelse(stmt: &Stmt, ctx: &mut ConstMap) -> (r: Stmt)
        requires
            stmt@ is IfThenElse,
        ensures
            r@ == stmt@,
            final(ctx)@ == Map::<Seq<char>, u64>::empty(),
    {
        ctx.clear();
        stmt.clone()
    }
}

} // verus!
