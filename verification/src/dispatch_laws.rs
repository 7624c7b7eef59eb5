//! What holds of the body of every generated function: each block is
//! called under the guard of its address, and in an order that follows the
//! control flow.

use crate::cfg::{BasicBlockView, CfgView};
use crate::dwarf::DwarfCtxView;
use crate::topo::{layered, lemma_layered_respects_links, precedes};
use crate::translator::{
    bb_call, block_dispatch, body_from, callee_call, dep_items, dep_links, emitted, expands,
    followed, guarded, has_pred, is_function_body, is_order_result, lemma_reached_from, reached,
    set_returned,
};
use crate::veriv_ast::StmtView;
use vstd::prelude::*;

verus! {

/// Whether `s` is the guarded call of the procedure of a block, or the
/// guarded call of a function: in either case a call under the condition
/// that the program counter is at the entry of what is called, and that
/// the function has not returned.
pub open spec fn is_dispatch(s: StmtView, xlen: u64) -> bool {
    (exists|a: u64| s == guarded(xlen, a, bb_call(a))) || (exists|a: u64, f: Seq<char>, n: nat|
        s == guarded(xlen, a, callee_call(f, n, xlen)))
}

/// The statements that a block brings to a body are guarded calls, the
/// first of them that of the block's own procedure.
pub proof fn lemma_block_dispatch_is_guarded(
    xlen: u64,
    dwarf: DwarfCtxView,
    cfg: CfgView,
    n: BasicBlockView,
    a: u64,
)
    requires
        block_dispatch(xlen, dwarf, cfg, n, a) is Ok,
    ensures
        block_dispatch(xlen, dwarf, cfg, n, a)->Ok_0.len() >= 1,
        block_dispatch(xlen, dwarf, cfg, n, a)->Ok_0[0] == guarded(xlen, a, bb_call(a)),
        forall|j: int|
            0 <= j < block_dispatch(xlen, dwarf, cfg, n, a)->Ok_0.len() ==> is_dispatch(
                #[trigger] block_dispatch(xlen, dwarf, cfg, n, a)->Ok_0[j],
                xlen,
            ),
{
    let d = block_dispatch(xlen, dwarf, cfg, n, a)->Ok_0;
    assert(d[0] == guarded(xlen, a, bb_call(a)));
    assert(is_dispatch(d[0], xlen));
    if d.len() > 1 {
        let target = crate::sl_ast::i64_bits(n.exit()->0.imm->0);
        let t = cfg.node(target)->0;
        assert(d[1] == guarded(
            xlen,
            target,
            callee_call(
                t.function_name,
                crate::translator::formals(dwarf, t.function_name).len(),
                xlen,
            ),
        ));
        assert(is_dispatch(d[1], xlen));
    }
}

/// Every statement of the body of a function but the last is a guarded
/// call, and the last sets the returned flag: no block is ever called
/// outside the guard of its address.
pub proof fn lemma_body_is_guarded(
    xlen: u64,
    dwarf: DwarfCtxView,
    cfg: CfgView,
    func_entry: u64,
    order: Seq<u64>,
    i: nat,
    acc: Seq<StmtView>,
)
    requires
        body_from(xlen, dwarf, cfg, func_entry, order, i, acc) is Ok,
        forall|j: int| 0 <= j < acc.len() ==> is_dispatch(#[trigger] acc[j], xlen),
    ensures
        body_from(xlen, dwarf, cfg, func_entry, order, i, acc)->Ok_0.len() >= 1,
        body_from(xlen, dwarf, cfg, func_entry, order, i, acc)->Ok_0.last() == set_returned(1),
        forall|j: int|
            0 <= j < body_from(xlen, dwarf, cfg, func_entry, order, i, acc)->Ok_0.len() - 1
                ==> is_dispatch(
                #[trigger] body_from(xlen, dwarf, cfg, func_entry, order, i, acc)->Ok_0[j],
                xlen,
            ),
    decreases order.len() - i,
{
    if i < order.len() {
        let a = order[i as int];
        let n = cfg.node(a)->0;
        if !emitted(n, a, func_entry) {
            lemma_body_is_guarded(xlen, dwarf, cfg, func_entry, order, i + 1, acc);
        } else {
            let d = block_dispatch(xlen, dwarf, cfg, n, a)->Ok_0;
            lemma_block_dispatch_is_guarded(xlen, dwarf, cfg, n, a);
            assert forall|j: int| 0 <= j < (acc + d).len() implies is_dispatch(
                #[trigger] (acc + d)[j],
                xlen,
            ) by {
                if j < acc.len() {
                    assert((acc + d)[j] == acc[j]);
                } else {
                    assert((acc + d)[j] == d[j - acc.len()]);
                }
            }
            lemma_body_is_guarded(xlen, dwarf, cfg, func_entry, order, i + 1, acc + d);
        }
    }
}

/// The number of statements that the block at `a` brings to a body.
pub open spec fn steps(xlen: u64, dwarf: DwarfCtxView, cfg: CfgView, func_entry: u64, a: u64) -> nat {
    match cfg.node(a) {
        Some(n) => if emitted(n, a, func_entry) {
            match block_dispatch(xlen, dwarf, cfg, n, a) {
                Ok(d) => d.len(),
                Err(_) => 0,
            }
        } else {
            0
        },
        None => 0,
    }
}

/// The number of statements that the blocks of `order` from index `i` up
/// to, and without, index `k` bring to a body.
pub open spec fn offset(
    xlen: u64,
    dwarf: DwarfCtxView,
    cfg: CfgView,
    func_entry: u64,
    order: Seq<u64>,
    i: nat,
    k: nat,
) -> nat
    decreases k - i,
{
    if i >= k {
        0
    } else {
        steps(xlen, dwarf, cfg, func_entry, order[i as int]) + offset(
            xlen,
            dwarf,
            cfg,
            func_entry,
            order,
            i + 1,
            k,
        )
    }
}

/// What was in a body stays at its front as the body grows.
pub proof fn lemma_body_keeps_prefix(
    xlen: u64,
    dwarf: DwarfCtxView,
    cfg: CfgView,
    func_entry: u64,
    order: Seq<u64>,
    i: nat,
    acc: Seq<StmtView>,
)
    requires
        body_from(xlen, dwarf, cfg, func_entry, order, i, acc) is Ok,
    ensures
        acc.is_prefix_of(body_from(xlen, dwarf, cfg, func_entry, order, i, acc)->Ok_0),
        body_from(xlen, dwarf, cfg, func_entry, order, i, acc)->Ok_0.len() > acc.len(),
    decreases order.len() - i,
{
    if i < order.len() {
        let a = order[i as int];
        let n = cfg.node(a)->0;
        if !emitted(n, a, func_entry) {
            lemma_body_keeps_prefix(xlen, dwarf, cfg, func_entry, order, i + 1, acc);
        } else {
            let d = block_dispatch(xlen, dwarf, cfg, n, a)->Ok_0;
            lemma_body_keeps_prefix(xlen, dwarf, cfg, func_entry, order, i + 1, acc + d);
            let r = body_from(xlen, dwarf, cfg, func_entry, order, i, acc)->Ok_0;
            assert forall|j: int| 0 <= j < acc.len() implies acc[j] == r[j] by {
                assert((acc + d)[j] == acc[j]);
            }
        }
    } else {
        let r = acc.push(set_returned(1));
        assert forall|j: int| 0 <= j < acc.len() implies acc[j] == r[j] by {}
    }
}

/// The guarded call of the block at index `k` of the order stands in the
/// body where the statements of the blocks before it end.
pub proof fn lemma_body_position(
    xlen: u64,
    dwarf: DwarfCtxView,
    cfg: CfgView,
    func_entry: u64,
    order: Seq<u64>,
    i: nat,
    acc: Seq<StmtView>,
    k: nat,
)
    requires
        body_from(xlen, dwarf, cfg, func_entry, order, i, acc) is Ok,
        i <= k < order.len(),
        cfg.node(order[k as int]) is Some,
        emitted(cfg.node(order[k as int])->0, order[k as int], func_entry),
    ensures
        acc.len() + offset(xlen, dwarf, cfg, func_entry, order, i, k) < body_from(
            xlen,
            dwarf,
            cfg,
            func_entry,
            order,
            i,
            acc,
        )->Ok_0.len(),
        body_from(xlen, dwarf, cfg, func_entry, order, i, acc)->Ok_0[(acc.len() + offset(
            xlen,
            dwarf,
            cfg,
            func_entry,
            order,
            i,
            k,
        )) as int] == guarded(xlen, order[k as int], bb_call(order[k as int])),
    decreases order.len() - i,
{
    let a = order[i as int];
    let n = cfg.node(a)->0;
    if i == k {
        let d = block_dispatch(xlen, dwarf, cfg, n, a)->Ok_0;
        lemma_block_dispatch_is_guarded(xlen, dwarf, cfg, n, a);
        lemma_body_keeps_prefix(xlen, dwarf, cfg, func_entry, order, i + 1, acc + d);
        assert((acc + d)[acc.len() as int] == d[0]);
    } else if !emitted(n, a, func_entry) {
        lemma_body_position(xlen, dwarf, cfg, func_entry, order, i + 1, acc, k);
    } else {
        let d = block_dispatch(xlen, dwarf, cfg, n, a)->Ok_0;
        lemma_body_position(xlen, dwarf, cfg, func_entry, order, i + 1, acc + d, k);
    }
}

/// The statements of the blocks up to a later index are more than those up
/// to an earlier index, where the block at the earlier index brings a
/// statement.
pub proof fn lemma_offset_grows(
    xlen: u64,
    dwarf: DwarfCtxView,
    cfg: CfgView,
    func_entry: u64,
    order: Seq<u64>,
    i: nat,
    k1: nat,
    k2: nat,
)
    requires
        i <= k1 < k2 <= order.len(),
        steps(xlen, dwarf, cfg, func_entry, order[k1 as int]) >= 1,
    ensures
        offset(xlen, dwarf, cfg, func_entry, order, i, k1) < offset(
            xlen,
            dwarf,
            cfg,
            func_entry,
            order,
            i,
            k2,
        ),
    decreases k1 - i,
{
    if i < k1 {
        lemma_offset_grows(xlen, dwarf, cfg, func_entry, order, i + 1, k1, k2);
    } else {
        assert(offset(xlen, dwarf, cfg, func_entry, order, i, k1) == 0);
    }
}

/// Where one block comes before another in the order, the guarded call of
/// the first stands before that of the second in the body.
pub proof fn lemma_body_respects_order(
    xlen: u64,
    dwarf: DwarfCtxView,
    cfg: CfgView,
    func_entry: u64,
    order: Seq<u64>,
    a: u64,
    b: u64,
)
    requires
        body_from(xlen, dwarf, cfg, func_entry, order, 0, Seq::empty()) is Ok,
        precedes(order, a, b),
        cfg.node(a) is Some,
        emitted(cfg.node(a)->0, a, func_entry),
        cfg.node(b) is Some,
        emitted(cfg.node(b)->0, b, func_entry),
    ensures
        exists|j1: int, j2: int|
            0 <= j1 < j2 < body_from(
                xlen,
                dwarf,
                cfg,
                func_entry,
                order,
                0,
                Seq::empty(),
            )->Ok_0.len() && body_from(xlen, dwarf, cfg, func_entry, order, 0, Seq::empty())->Ok_0[j1]
                == guarded(xlen, a, bb_call(a)) && body_from(
                xlen,
                dwarf,
                cfg,
                func_entry,
                order,
                0,
                Seq::empty(),
            )->Ok_0[j2] == guarded(xlen, b, bb_call(b)),
{
    let stmts = body_from(xlen, dwarf, cfg, func_entry, order, 0, Seq::empty())->Ok_0;
    let (k1, k2) = choose|k1: int, k2: int|
        0 <= k1 < k2 < order.len() && order[k1] == a && order[k2] == b;
    let none = Seq::<StmtView>::empty();
    lemma_body_position(xlen, dwarf, cfg, func_entry, order, 0, none, k1 as nat);
    lemma_body_position(xlen, dwarf, cfg, func_entry, order, 0, none, k2 as nat);
    lemma_steps_of_emitted(xlen, dwarf, cfg, func_entry, order, 0, none, k1 as nat);
    lemma_offset_grows(xlen, dwarf, cfg, func_entry, order, 0, k1 as nat, k2 as nat);
    let j1 = offset(xlen, dwarf, cfg, func_entry, order, 0, k1 as nat) as int;
    let j2 = offset(xlen, dwarf, cfg, func_entry, order, 0, k2 as nat) as int;
    assert(stmts[j1] == guarded(xlen, a, bb_call(a)));
    assert(stmts[j2] == guarded(xlen, b, bb_call(b)));
}

/// In a body that could be built, each block that gets a statement of its
/// own brings at least one.
pub proof fn lemma_steps_of_emitted(
    xlen: u64,
    dwarf: DwarfCtxView,
    cfg: CfgView,
    func_entry: u64,
    order: Seq<u64>,
    i: nat,
    acc: Seq<StmtView>,
    k: nat,
)
    requires
        body_from(xlen, dwarf, cfg, func_entry, order, i, acc) is Ok,
        i <= k < order.len(),
        cfg.node(order[k as int]) is Some,
        emitted(cfg.node(order[k as int])->0, order[k as int], func_entry),
    ensures
        steps(xlen, dwarf, cfg, func_entry, order[k as int]) >= 1,
    decreases order.len() - i,
{
    let a = order[i as int];
    let n = cfg.node(a)->0;
    if i == k {
        lemma_block_dispatch_is_guarded(xlen, dwarf, cfg, n, a);
    } else if !emitted(n, a, func_entry) {
        lemma_steps_of_emitted(xlen, dwarf, cfg, func_entry, order, i + 1, acc, k);
    } else {
        let d = block_dispatch(xlen, dwarf, cfg, n, a)->Ok_0;
        lemma_steps_of_emitted(xlen, dwarf, cfg, func_entry, order, i + 1, acc + d, k);
    }
}

/// In the dependency order of a function, each reached block that hands
/// its successors on comes before each of its successors.
pub proof fn lemma_order_follows_edges(
    cfg: CfgView,
    blocks: Seq<BasicBlockView>,
    ignored: Seq<Seq<char>>,
    order: Seq<u64>,
    a: u64,
    i: int,
)
    requires
        is_order_result(cfg, blocks, ignored, Ok(order)),
        reached(cfg, blocks, ignored, a),
        expands(cfg, blocks, ignored, a),
        0 <= i < cfg.node(a)->0.successors.len(),
    ensures
        precedes(order, a, cfg.node(a)->0.successors[i]),
{
    let b = cfg.node(a)->0.successors[i];
    let items = dep_items(cfg, blocks, ignored);
    let links = dep_links(cfg, blocks, ignored);
    assert(cfg.node(a)->0.successors.contains(b));
    assert(links.contains((a, b)));
    assert(has_pred(links, b));
    if a != cfg.entry_addr {
        let p = lemma_reached_from(cfg, blocks, ignored, a);
        assert(links.contains((p, a)));
        assert(has_pred(links, a));
    }
    lemma_layered_respects_links(items, links, a, b);
}

/// In the body of a function every statement but the last is a guarded
/// call, and the last sets the returned flag.
pub proof fn lemma_function_body_is_guarded(
    xlen: u64,
    dwarf: DwarfCtxView,
    blocks: Seq<BasicBlockView>,
    ignored: Seq<Seq<char>>,
    cfg: CfgView,
    func_entry: u64,
    body: StmtView,
)
    requires
        is_function_body(xlen, dwarf, blocks, ignored, cfg, func_entry, body),
    ensures
        body is Block,
        body->Block_0.len() >= 1,
        body->Block_0.last() == set_returned(1),
        forall|j: int|
            0 <= j < body->Block_0.len() - 1 ==> is_dispatch(#[trigger] body->Block_0[j], xlen),
{
    let order = layered(dep_items(cfg, blocks, ignored), dep_links(cfg, blocks, ignored))->Ok_0;
    lemma_body_is_guarded(xlen, dwarf, cfg, func_entry, order, 0, Seq::empty());
}

/// For every edge of the control flow of a function from a reached block
/// `a` to a block `b` that is not the entry of a function, the guarded
/// call of `a` stands before that of `b` in the function's body.
pub proof fn lemma_edges_precede_in_body(
    xlen: u64,
    dwarf: DwarfCtxView,
    blocks: Seq<BasicBlockView>,
    ignored: Seq<Seq<char>>,
    cfg: CfgView,
    body: StmtView,
    a: u64,
    i: int,
)
    requires
        is_function_body(xlen, dwarf, blocks, ignored, cfg, cfg.entry_addr, body),
        reached(cfg, blocks, ignored, a),
        expands(cfg, blocks, ignored, a),
        0 <= i < cfg.node(a)->0.successors.len(),
        followed(cfg, cfg.node(a)->0.successors[i]),
    ensures
        body is Block,
        ({
            let b = cfg.node(a)->0.successors[i];
            exists|j1: int, j2: int|
                0 <= j1 < j2 < body->Block_0.len() && body->Block_0[j1] == guarded(
                    xlen,
                    a,
                    bb_call(a),
                ) && body->Block_0[j2] == guarded(xlen, b, bb_call(b))
        }),
{
    let b = cfg.node(a)->0.successors[i];
    let items = dep_items(cfg, blocks, ignored);
    let links = dep_links(cfg, blocks, ignored);
    let order = layered(items, links)->Ok_0;
    lemma_order_follows_edges(cfg, blocks, ignored, order, a, i);
    if a != cfg.entry_addr {
        lemma_reached_from(cfg, blocks, ignored, a);
    }
    lemma_body_respects_order(xlen, dwarf, cfg, cfg.entry_addr, order, a, b);
    let stmts = body_from(xlen, dwarf, cfg, cfg.entry_addr, order, 0, Seq::empty())->Ok_0;
    assert(body == StmtView::Block(stmts));
    let (j1, j2) = choose|j1: int, j2: int|
        0 <= j1 < j2 < stmts.len() && stmts[j1] == guarded(xlen, a, bb_call(a)) && stmts[j2]
            == guarded(xlen, b, bb_call(b));
    assert(0 <= j1 < j2 < body->Block_0.len() && body->Block_0[j1] == guarded(
        xlen,
        a,
        bb_call(a),
    ) && body->Block_0[j2] == guarded(xlen, b, bb_call(b)));
}

} // verus!
