//! What holds of the names that every generated function may write: they
//! are kept in order, and they cover what the blocks of the function and
//! the functions that it calls may write.

use crate::cfg::{block_views, BasicBlockView, CfgView};
use crate::names::{lemma_union_sorted, sorted, union_sorted};
use crate::sl_ast::FuncSpecView;
use crate::modifies::callee_set;
use crate::spec_lowering::func_spec_views;
use crate::translator::{
    bb_model, block_models, callee_writes, callees_of, func_at, function_writes,
    generated_function, includes, opt_seq, spec_mod_set, with_block_sets, with_callee_sets,
    Translator,
};
use crate::veriv_ast::FuncModelView;
use vstd::prelude::*;

verus! {

/// Adding what procedures may write keeps what was there, covers what each
/// of the procedures may write, and keeps the names in order.
pub proof fn lemma_block_sets(bms: Seq<FuncModelView>, i: nat, acc: Seq<Seq<char>>)
    ensures
        includes(with_block_sets(bms, i, acc), acc),
        forall|j: int|
            i <= j < bms.len() ==> includes(
                with_block_sets(bms, i, acc),
                (#[trigger] bms[j]).sig.mod_set,
            ),
        sorted(acc) ==> sorted(with_block_sets(bms, i, acc)),
    decreases bms.len() - i,
{
    if i < bms.len() {
        let next = union_sorted(acc, bms[i as int].sig.mod_set);
        lemma_union_sorted(acc, bms[i as int].sig.mod_set);
        lemma_block_sets(bms, i + 1, next);
    }
}

/// Adding what jumps may write keeps what was there, covers what each of
/// the jumps may write, and keeps the names in order.
pub proof fn lemma_callee_sets(
    blocks: Seq<BasicBlockView>,
    ignored: Seq<Seq<char>>,
    specs: Seq<FuncSpecView>,
    map: Seq<(Seq<char>, Seq<Seq<char>>)>,
    callees: Seq<(u64, u64)>,
    i: nat,
    acc: Seq<Seq<char>>,
)
    ensures
        includes(with_callee_sets(blocks, ignored, specs, map, callees, i, acc), acc),
        forall|c: int|
            i <= c < callees.len() ==> includes(
                with_callee_sets(blocks, ignored, specs, map, callees, i, acc),
                callee_writes(blocks, ignored, specs, map, (#[trigger] callees[c]).0),
            ),
        sorted(acc) ==> sorted(with_callee_sets(blocks, ignored, specs, map, callees, i, acc)),
    decreases callees.len() - i,
{
    if i < callees.len() {
        let w = callee_writes(blocks, ignored, specs, map, callees[i as int].0);
        lemma_union_sorted(acc, w);
        lemma_callee_sets(blocks, ignored, specs, map, callees, i + 1, union_sorted(acc, w));
    }
}

/// What a function may write is kept in the strict order of the names,
/// and covers what the procedure of each of its blocks may write and what
/// each of its jumps may write: a function writes nothing that its set
/// does not name.
pub proof fn lemma_function_writes(
    blocks: Seq<BasicBlockView>,
    ignored: Seq<Seq<char>>,
    specs: Seq<FuncSpecView>,
    before: Seq<(Seq<char>, Seq<Seq<char>>)>,
    then: Seq<(Seq<char>, Seq<Seq<char>>)>,
    cfg: CfgView,
    name: Seq<char>,
)
    ensures
        sorted(function_writes(blocks, ignored, specs, before, then, cfg, name)),
        forall|j: int|
            0 <= j < cfg.nodes.len() ==> includes(
                function_writes(blocks, ignored, specs, before, then, cfg, name),
                bb_model(before, #[trigger] cfg.nodes[j]).sig.mod_set,
            ),
        forall|c: int|
            0 <= c < callees_of(cfg, name).len() ==> includes(
                function_writes(blocks, ignored, specs, before, then, cfg, name),
                callee_writes(blocks, ignored, specs, then, (#[trigger] callees_of(cfg, name)[c]).0),
            ),
{
    let bms = block_models(before, cfg);
    let none = Seq::<Seq<char>>::empty();
    let block_sets = with_block_sets(bms, 0, none);
    lemma_block_sets(bms, 0, none);
    lemma_callee_sets(blocks, ignored, specs, then, callees_of(cfg, name), 0, block_sets);
    let fw = function_writes(blocks, ignored, specs, before, then, cfg, name);
    assert forall|j: int| 0 <= j < cfg.nodes.len() implies includes(
        fw,
        bb_model(before, #[trigger] cfg.nodes[j]).sig.mod_set,
    ) by {
        assert(bms[j] == bb_model(before, cfg.nodes[j]));
        assert(includes(block_sets, bms[j].sig.mod_set));
    }
}

/// After a function is generated, what is recorded for it covers what is
/// recorded for each function that it calls, and what the contract of
/// each ignored function that it calls lets that function write.
pub proof fn lemma_callee_sets_included(
    before: Translator,
    after: Translator,
    name: Seq<char>,
    entry: u64,
    i: int,
    c: int,
)
    requires
        generated_function(before, after, name, entry, i),
        0 <= c < callees_of(before.cfgs@[i]@, name).len(),
    ensures
        callee_set(after.mod_set_map@, name) is Some,
        match func_at(block_views(before.bbs@), callees_of(before.cfgs@[i]@, name)[c].0) {
            Ok(Some(n)) => if before.ignored_funcs@.contains(n) {
                includes(
                    callee_set(after.mod_set_map@, name)->0,
                    opt_seq(spec_mod_set(func_spec_views(before.specs_map@), n)),
                )
            } else {
                includes(
                    callee_set(after.mod_set_map@, name)->0,
                    opt_seq(callee_set(after.mod_set_map@, n)),
                )
            },
            _ => true,
        },
{
    let map = after.mod_set_map@;
    let then = map.drop_last();
    let blocks = block_views(before.bbs@);
    let ignored = before.ignored_funcs@;
    let specs = func_spec_views(before.specs_map@);
    let cfg = before.cfgs@[i]@;
    let set = map.last().1;
    assert(callee_set(map, name) == Some(set));
    lemma_function_writes(blocks, ignored, specs, before.mod_set_map@, then, cfg, name);
    let target = callees_of(cfg, name)[c].0;
    assert(includes(set, callee_writes(blocks, ignored, specs, then, target)));
    match func_at(blocks, target) {
        Ok(Some(n)) => {
            if !ignored.contains(n) && n != name {
                assert(callee_set(map, n) == callee_set(then, n));
            }
        },
        _ => {},
    }
}

} // verus!
