//! The names that a statement may write.

use crate::names::{
    insert_sorted, lemma_insert_sorted_members, lemma_union_sorted, sorted, union_sorted, NameSet,
};
use crate::propagation::block_stmts;
use crate::text::str_eq;
use crate::veriv_ast::{expr_views, stmt_views, Expr, ExprView, Op, OpView, Stmt, StmtView};
use vstd::prelude::*;

verus! {

/// The names that each procedure generated so far may write. Of several
/// entries for one procedure the last one counts.
#[derive(Debug, PartialEq, Eq)]
pub struct ModSetMap {
    pub entries: Vec<(String, NameSet)>,
}

/// The views of the entries of a map of written names.
pub open spec fn mod_entry_views(v: Seq<(String, NameSet)>) -> Seq<(Seq<char>, Seq<Seq<char>>)> {
    Seq::new(v.len(), |i: int| (v[i].0@, v[i].1@))
}

/// The names recorded for the procedure `name`, where there are any.
pub open spec fn callee_set(map: Seq<(Seq<char>, Seq<Seq<char>>)>, name: Seq<char>) -> Option<
    Seq<Seq<char>>,
>
    decreases map.len(),
{
    if map.len() == 0 {
        None
    } else if map.last().0 == name {
        Some(map.last().1)
    } else {
        callee_set(map.drop_last(), name)
    }
}

impl View for ModSetMap {
    type V = Seq<(Seq<char>, Seq<Seq<char>>)>;

    open spec fn view(&self) -> Seq<(Seq<char>, Seq<Seq<char>>)> {
        mod_entry_views(self.entries@)
    }
}

impl ModSetMap {
    /// A map without entries.
    pub fn new() -> (r: Self)
        ensures
            r@ == Seq::<(Seq<char>, Seq<Seq<char>>)>::empty(),
    {
        let r = ModSetMap { entries: Vec::new() };
        assert(r@ =~= Seq::<(Seq<char>, Seq<Seq<char>>)>::empty());
        r
    }

    /// The names recorded for the procedure `name`.
    pub fn get(&self, name: &str) -> (r: Option<&NameSet>)
        ensures
            callee_set(self@, name@) is Some ==> r is Some && r->0@ == callee_set(self@, name@)->0,
            callee_set(self@, name@) is None ==> r is None,
    {
        let ghost all = self@;
        let mut i: usize = self.entries.len();
        assert(all.take(i as int) =~= all);
        while i > 0
            invariant
                i <= self.entries.len(),
                all == self@,
                callee_set(all, name@) == callee_set(all.take(i as int), name@),
            decreases i,
        {
            i -= 1;
            proof {
                assert(all.take(i + 1).drop_last() =~= all.take(i as int));
                assert(all.take(i + 1).last() == all[i as int]);
            }
            if str_eq(self.entries[i].0.as_str(), name) {
                return Some(&self.entries[i].1);
            }
        }
        None
    }

    /// Records the names that the procedure `name` may write.
    pub fn insert(&mut self, name: String, set: NameSet)
        ensures
            final(self)@ == old(self)@.push((name@, set@)),
            callee_set(final(self)@, name@) == Some(set@),
    {
        let ghost before = self@;
        self.entries.push((name, set));
        assert(self@ =~= before.push((name@, set@)));
    }
}

/// The name that an assignment to `e` writes: the variable's name where `e`
/// is a variable, the array's name where `e` is an element of an array
/// variable.
pub open spec fn lhs_base(e: ExprView) -> Option<Seq<char>> {
    match e {
        ExprView::Var(v, _) => Some(v.name),
        ExprView::OpApp(OpView::ArrayIndex, ops, _) => if ops.len() > 0 && ops[0] is Var {
            Some(ops[0]->Var_0.name)
        } else {
            None
        },
        _ => None,
    }
}

/// The name of `e` where `e` is a variable.
pub open spec fn var_name(e: ExprView) -> Option<Seq<char>> {
    match e {
        ExprView::Var(v, _) => Some(v.name),
        _ => None,
    }
}

/// `acc` with the names that assignments to the expressions of `lhs` from
/// index `i` on write.
pub open spec fn with_bases(lhs: Seq<ExprView>, i: nat, acc: Seq<Seq<char>>) -> Seq<Seq<char>>
    decreases lhs.len() - i,
{
    if i >= lhs.len() {
        acc
    } else {
        with_bases(
            lhs,
            i + 1,
            match lhs_base(lhs[i as int]) {
                Some(n) => insert_sorted(acc, n),
                None => acc,
            },
        )
    }
}

/// `acc` with the names of the variables among the expressions of `lhs`
/// from index `i` on.
pub open spec fn with_var_names(lhs: Seq<ExprView>, i: nat, acc: Seq<Seq<char>>) -> Seq<
    Seq<char>,
>
    decreases lhs.len() - i,
{
    if i >= lhs.len() {
        acc
    } else {
        with_var_names(
            lhs,
            i + 1,
            match var_name(lhs[i as int]) {
                Some(n) => insert_sorted(acc, n),
                None => acc,
            },
        )
    }
}

/// `acc` with the program counter and the returned flag.
pub open spec fn with_control(acc: Seq<Seq<char>>) -> Seq<Seq<char>> {
    insert_sorted(insert_sorted(acc, "pc"@), "returned"@)
}

/// `acc` with the names that the statement `s` may write: always the
/// program counter and the returned flag; for an assignment what its
/// targets name; for a call what is recorded in `map` for the procedure,
/// and the variables that receive its results; for a conditional statement
/// and a block what their parts may write.
pub open spec fn mod_names(
    map: Seq<(Seq<char>, Seq<Seq<char>>)>,
    s: StmtView,
    acc: Seq<Seq<char>>,
) -> Seq<Seq<char>>
    decreases s, block_stmts(s).len() + 1,
{
    let acc0 = with_control(acc);
    match s {
        StmtView::FuncCall(fc) => {
            let acc1 = match callee_set(map, fc.func_name) {
                Some(ms) => union_sorted(acc0, ms),
                None => acc0,
            };
            with_var_names(fc.lhs, 0, acc1)
        },
        StmtView::Assign(a) => with_bases(a.lhs, 0, acc0),
        StmtView::IfThenElse(ite) => {
            let a1 = mod_names(map, *ite.then_stmt, acc0);
            match ite.else_stmt {
                Some(e) => mod_names(map, *e, a1),
                None => a1,
            }
        },
        StmtView::Block(_) => mod_names_block(map, s, 0, acc0),
        _ => acc0,
    }
}

/// `acc` with the names that the statements of the block `s` from index
/// `i` on may write.
pub open spec fn mod_names_block(
    map: Seq<(Seq<char>, Seq<Seq<char>>)>,
    s: StmtView,
    i: nat,
    acc: Seq<Seq<char>>,
) -> Seq<Seq<char>>
    decreases s, block_stmts(s).len() - i,
{
    if i >= block_stmts(s).len() {
        acc
    } else {
        mod_names_block(map, s, i + 1, mod_names(map, block_stmts(s)[i as int], acc))
    }
}

/// The names that the statement `s` may write.
pub open spec fn mod_set_of(map: Seq<(Seq<char>, Seq<Seq<char>>)>, s: StmtView) -> Seq<Seq<char>> {
    mod_names(map, s, Seq::empty())
}

/// The name that an assignment to `e` writes.
fn lhs_base_name(e: &Expr) -> (r: Option<&str>)
    ensures
        lhs_base(e@) is Some ==> r is Some && r->0@ == lhs_base(e@)->0,
        lhs_base(e@) is None ==> r is None,
{
    match e {
        Expr::Var(v, _) => Some(v.name.as_str()),
        Expr::OpApp(opapp, t) => {
            proof {
                Expr::lemma_view_opapp(*opapp, *t);
            }
            match opapp.op {
                Op::ArrayIndex => {
                    if opapp.operands.len() > 0 {
                        assert(expr_views(opapp.operands@)[0] == opapp.operands@[0]@);
                        match &opapp.operands[0] {
                            Expr::Var(v, _) => Some(v.name.as_str()),
                            _ => None,
                        }
                    } else {
                        None
                    }
                },
                _ => None,
            }
        },
        _ => None,
    }
}

/// Adds to `acc` the names that the statement `stmt` may write.
pub fn collect_mod_set(map: &ModSetMap, stmt: &Stmt, acc: &mut NameSet)
    ensures
        final(acc)@ == mod_names(map@, stmt@, old(acc)@),
        sorted(old(acc)@) ==> sorted(final(acc)@),
    decreases stmt,
{
    let ghost sv = stmt@;
    let ghost a_in = acc@;
    acc.insert("pc");
    acc.insert("returned");
    let ghost acc0 = acc@;
    match stmt {
        Stmt::FuncCall(fc) => {
            match map.get(fc.func_name.as_str()) {
                Some(fc_mod_set) => {
                    acc.extend(fc_mod_set);
                },
                None => {},
            }
            let ghost acc1 = acc@;
            let ghost lhs = expr_views(fc.lhs@);
            let mut i: usize = 0;
            while i < fc.lhs.len()
                invariant
                    i <= fc.lhs.len(),
                    lhs == expr_views(fc.lhs@),
                    with_var_names(lhs, 0, acc1) == with_var_names(lhs, i as nat, acc@),
                    sorted(a_in) ==> sorted(acc@),
                decreases fc.lhs.len() - i,
            {
                assert(lhs[i as int] == fc.lhs@[i as int]@);
                match &fc.lhs[i] {
                    Expr::Var(v, _) => {
                        acc.insert(v.name.as_str());
                    },
                    _ => {},
                }
                i += 1;
            }
        },
        Stmt::Assign(a) => {
            let ghost lhs = expr_views(a.lhs@);
            let mut i: usize = 0;
            while i < a.lhs.len()
                invariant
                    i <= a.lhs.len(),
                    lhs == expr_views(a.lhs@),
                    with_bases(lhs, 0, acc0) == with_bases(lhs, i as nat, acc@),
                    sorted(a_in) ==> sorted(acc@),
                decreases a.lhs.len() - i,
            {
                assert(lhs[i as int] == a.lhs@[i as int]@);
                match lhs_base_name(&a.lhs[i]) {
                    Some(n) => {
                        acc.insert(n);
                    },
                    None => {},
                }
                i += 1;
            }
        },
        Stmt::IfThenElse(ite) => {
            collect_mod_set(map, &ite.then_stmt, acc);
            match &ite.else_stmt {
                Some(else_stmt) => {
                    collect_mod_set(map, else_stmt, acc);
                },
                None => {},
            }
        },
        Stmt::Block(blk) => {
            proof {
                Stmt::lemma_view_block(*blk);
            }
            let mut i: usize = 0;
            while i < blk.len()
                invariant
                    i <= blk.len(),
                    sv == stmt@,
                    sv == StmtView::Block(stmt_views(blk@)),
                    mod_names_block(map@, sv, 0, acc0) == mod_names_block(
                        map@,
                        sv,
                        i as nat,
                        acc@,
                    ),
                    sorted(a_in) ==> sorted(acc@),
                    decreases_to!(stmt => blk),
                decreases blk.len() - i,
            {
                assert(block_stmts(sv)[i as int] == (*blk@[i as int])@);
                collect_mod_set(map, &blk[i], acc);
                i += 1;
            }
        },
        _ => {},
    }
}

/// The names that the statement `stmt` may write, in ascending order.
pub fn infer_mod_set(map: &ModSetMap, stmt: &Stmt) -> (r: NameSet)
    ensures
        r@ == mod_set_of(map@, stmt@),
        sorted(r@),
{
    let mut acc = NameSet::new();
    collect_mod_set(map, stmt, &mut acc);
    acc
}


// ================================================================================
// Soundness

/// Adding the names of targets loses no name.
pub proof fn lemma_with_bases_grows(lhs: Seq<ExprView>, i: nat, acc: Seq<Seq<char>>)
    ensures
        forall|n: Seq<char>| acc.contains(n) ==> with_bases(lhs, i, acc).contains(n),
    decreases lhs.len() - i,
{
    if i < lhs.len() {
        let next = match lhs_base(lhs[i as int]) {
            Some(n) => insert_sorted(acc, n),
            None => acc,
        };
        if lhs_base(lhs[i as int]) is Some {
            lemma_insert_sorted_members(acc, lhs_base(lhs[i as int])->0);
        }
        lemma_with_bases_grows(lhs, i + 1, next);
    }
}

/// Adding the names of variables loses no name.
pub proof fn lemma_with_var_names_grows(lhs: Seq<ExprView>, i: nat, acc: Seq<Seq<char>>)
    ensures
        forall|n: Seq<char>| acc.contains(n) ==> with_var_names(lhs, i, acc).contains(n),
    decreases lhs.len() - i,
{
    if i < lhs.len() {
        let next = match var_name(lhs[i as int]) {
            Some(n) => insert_sorted(acc, n),
            None => acc,
        };
        if var_name(lhs[i as int]) is Some {
            lemma_insert_sorted_members(acc, var_name(lhs[i as int])->0);
        }
        lemma_with_var_names_grows(lhs, i + 1, next);
    }
}

/// The program counter and the returned flag are always among the names
/// that may be written, and no name is lost.
pub proof fn lemma_with_control(acc: Seq<Seq<char>>)
    ensures
        with_control(acc).contains("pc"@),
        with_control(acc).contains("returned"@),
        forall|n: Seq<char>| acc.contains(n) ==> with_control(acc).contains(n),
{
    lemma_insert_sorted_members(acc, "pc"@);
    lemma_insert_sorted_members(insert_sorted(acc, "pc"@), "returned"@);
}

/// The names that a statement may write hold the program counter, the
/// returned flag, and every name that was there before.
pub proof fn lemma_mod_names_grows(
    map: Seq<(Seq<char>, Seq<Seq<char>>)>,
    s: StmtView,
    acc: Seq<Seq<char>>,
)
    ensures
        mod_names(map, s, acc).contains("pc"@),
        mod_names(map, s, acc).contains("returned"@),
        forall|n: Seq<char>| acc.contains(n) ==> mod_names(map, s, acc).contains(n),
    decreases s, block_stmts(s).len() + 1,
{
    let acc0 = with_control(acc);
    lemma_with_control(acc);
    match s {
        StmtView::FuncCall(fc) => {
            let acc1 = match callee_set(map, fc.func_name) {
                Some(ms) => union_sorted(acc0, ms),
                None => acc0,
            };
            if callee_set(map, fc.func_name) is Some {
                lemma_union_sorted(acc0, callee_set(map, fc.func_name)->0);
            }
            lemma_with_var_names_grows(fc.lhs, 0, acc1);
        },
        StmtView::Assign(a) => {
            lemma_with_bases_grows(a.lhs, 0, acc0);
        },
        StmtView::IfThenElse(ite) => {
            let a1 = mod_names(map, *ite.then_stmt, acc0);
            lemma_mod_names_grows(map, *ite.then_stmt, acc0);
            match ite.else_stmt {
                Some(e) => {
                    lemma_mod_names_grows(map, *e, a1);
                },
                None => {},
            }
        },
        StmtView::Block(_) => {
            lemma_mod_names_block_grows(map, s, 0, acc0);
        },
        _ => {},
    }
}

/// The names that the rest of a block may write hold every name that was
/// there before.
pub proof fn lemma_mod_names_block_grows(
    map: Seq<(Seq<char>, Seq<Seq<char>>)>,
    s: StmtView,
    i: nat,
    acc: Seq<Seq<char>>,
)
    ensures
        forall|n: Seq<char>| acc.contains(n) ==> mod_names_block(map, s, i, acc).contains(n),
    decreases s, block_stmts(s).len() - i,
{
    if i < block_stmts(s).len() {
        let next = mod_names(map, block_stmts(s)[i as int], acc);
        lemma_mod_names_grows(map, block_stmts(s)[i as int], acc);
        lemma_mod_names_block_grows(map, s, i + 1, next);
    }
}

/// Whether an assignment inside the statement `s`, at any depth, writes the
/// name `n`.
pub open spec fn assigns_to(s: StmtView, n: Seq<char>) -> bool
    decreases s, block_stmts(s).len() + 1,
{
    match s {
        StmtView::Assign(a) => exists|i: int|
            0 <= i < a.lhs.len() && lhs_base(#[trigger] a.lhs[i]) == Some(n),
        StmtView::IfThenElse(ite) => assigns_to(*ite.then_stmt, n) || match ite.else_stmt {
            Some(e) => assigns_to(*e, n),
            None => false,
        },
        StmtView::Block(_) => assigns_in_block(s, 0, n),
        _ => false,
    }
}

/// Whether an assignment inside the block `s`, in its statement `i` or a
/// later one, writes the name `n`.
pub open spec fn assigns_in_block(s: StmtView, i: nat, n: Seq<char>) -> bool
    decreases s, block_stmts(s).len() - i,
{
    i < block_stmts(s).len() && (assigns_to(block_stmts(s)[i as int], n) || assigns_in_block(
        s,
        i + 1,
        n,
    ))
}

/// Whether the statement `s` holds, at any depth, a call of the procedure
/// `f`.
pub open spec fn calls(s: StmtView, f: Seq<char>) -> bool
    decreases s, block_stmts(s).len() + 1,
{
    match s {
        StmtView::FuncCall(fc) => fc.func_name == f,
        StmtView::IfThenElse(ite) => calls(*ite.then_stmt, f) || match ite.else_stmt {
            Some(e) => calls(*e, f),
            None => false,
        },
        StmtView::Block(_) => calls_in_block(s, 0, f),
        _ => false,
    }
}

/// Whether the block `s` holds a call of the procedure `f` in its
/// statement `i` or a later one.
pub open spec fn calls_in_block(s: StmtView, i: nat, f: Seq<char>) -> bool
    decreases s, block_stmts(s).len() - i,
{
    i < block_stmts(s).len() && (calls(block_stmts(s)[i as int], f) || calls_in_block(s, i + 1, f))
}

/// The name that the target at index `k` names is among the names added
/// from any index up to `k` on.
proof fn lemma_with_bases_has(lhs: Seq<ExprView>, i: nat, k: int, acc: Seq<Seq<char>>)
    requires
        i <= k < lhs.len(),
        lhs_base(lhs[k]) is Some,
    ensures
        with_bases(lhs, i, acc).contains(lhs_base(lhs[k])->0),
    decreases k - i,
{
    let next = match lhs_base(lhs[i as int]) {
        Some(n) => insert_sorted(acc, n),
        None => acc,
    };
    if i == k {
        lemma_insert_sorted_members(acc, lhs_base(lhs[k])->0);
        lemma_with_bases_grows(lhs, i + 1, next);
    } else {
        lemma_with_bases_has(lhs, i + 1, k, next);
    }
}

/// Every name that an assignment inside a statement writes is among the
/// names that the statement may write.
pub proof fn lemma_assigned_names_in_mod_set(
    map: Seq<(Seq<char>, Seq<Seq<char>>)>,
    s: StmtView,
    acc: Seq<Seq<char>>,
    n: Seq<char>,
)
    requires
        assigns_to(s, n),
    ensures
        mod_names(map, s, acc).contains(n),
    decreases s, block_stmts(s).len() + 1,
{
    let acc0 = with_control(acc);
    match s {
        StmtView::Assign(a) => {
            let k = choose|i: int| 0 <= i < a.lhs.len() && lhs_base(#[trigger] a.lhs[i]) == Some(n);
            lemma_with_bases_has(a.lhs, 0, k, acc0);
        },
        StmtView::IfThenElse(ite) => {
            let a1 = mod_names(map, *ite.then_stmt, acc0);
            if assigns_to(*ite.then_stmt, n) {
                lemma_assigned_names_in_mod_set(map, *ite.then_stmt, acc0, n);
                match ite.else_stmt {
                    Some(e) => {
                        lemma_mod_names_grows(map, *e, a1);
                    },
                    None => {},
                }
            } else {
                lemma_assigned_names_in_mod_set(map, *ite.else_stmt->0, a1, n);
            }
        },
        StmtView::Block(_) => {
            lemma_assigned_names_in_block(map, s, 0, acc0, n);
        },
        _ => {},
    }
}

/// Every name that an assignment inside the rest of a block writes is
/// among the names that the rest of the block may write.
proof fn lemma_assigned_names_in_block(
    map: Seq<(Seq<char>, Seq<Seq<char>>)>,
    s: StmtView,
    i: nat,
    acc: Seq<Seq<char>>,
    n: Seq<char>,
)
    requires
        assigns_in_block(s, i, n),
    ensures
        mod_names_block(map, s, i, acc).contains(n),
    decreases s, block_stmts(s).len() - i,
{
    let next = mod_names(map, block_stmts(s)[i as int], acc);
    if assigns_to(block_stmts(s)[i as int], n) {
        lemma_assigned_names_in_mod_set(map, block_stmts(s)[i as int], acc, n);
        lemma_mod_names_block_grows(map, s, i + 1, next);
    } else {
        lemma_assigned_names_in_block(map, s, i + 1, next, n);
    }
}

/// Every name recorded for a procedure that a statement calls is among the
/// names that the statement may write.
pub proof fn lemma_callee_names_in_mod_set(
    map: Seq<(Seq<char>, Seq<Seq<char>>)>,
    s: StmtView,
    acc: Seq<Seq<char>>,
    f: Seq<char>,
    n: Seq<char>,
)
    requires
        calls(s, f),
        callee_set(map, f) is Some,
        callee_set(map, f)->0.contains(n),
    ensures
        mod_names(map, s, acc).contains(n),
    decreases s, block_stmts(s).len() + 1,
{
    let acc0 = with_control(acc);
    match s {
        StmtView::FuncCall(fc) => {
            let acc1 = union_sorted(acc0, callee_set(map, f)->0);
            lemma_union_sorted(acc0, callee_set(map, f)->0);
            lemma_with_var_names_grows(fc.lhs, 0, acc1);
        },
        StmtView::IfThenElse(ite) => {
            let a1 = mod_names(map, *ite.then_stmt, acc0);
            if calls(*ite.then_stmt, f) {
                lemma_callee_names_in_mod_set(map, *ite.then_stmt, acc0, f, n);
                match ite.else_stmt {
                    Some(e) => {
                        lemma_mod_names_grows(map, *e, a1);
                    },
                    None => {},
                }
            } else {
                lemma_callee_names_in_mod_set(map, *ite.else_stmt->0, a1, f, n);
            }
        },
        StmtView::Block(_) => {
            lemma_callee_names_in_block(map, s, 0, acc0, f, n);
        },
        _ => {},
    }
}

/// Every name recorded for a procedure that the rest of a block calls is
/// among the names that the rest of the block may write.
proof fn lemma_callee_names_in_block(
    map: Seq<(Seq<char>, Seq<Seq<char>>)>,
    s: StmtView,
    i: nat,
    acc: Seq<Seq<char>>,
    f: Seq<char>,
    n: Seq<char>,
)
    requires
        calls_in_block(s, i, f),
        callee_set(map, f) is Some,
        callee_set(map, f)->0.contains(n),
    ensures
        mod_names_block(map, s, i, acc).contains(n),
    decreases s, block_stmts(s).len() - i,
{
    let next = mod_names(map, block_stmts(s)[i as int], acc);
    if calls(block_stmts(s)[i as int], f) {
        lemma_callee_names_in_mod_set(map, block_stmts(s)[i as int], acc, f, n);
        lemma_mod_names_block_grows(map, s, i + 1, next);
    } else {
        lemma_callee_names_in_block(map, s, i + 1, next, f, n);
    }
}

} // verus!
