//! Ordering of block addresses by dependency, on top of the
//! `topological_sort` crate.

use topological_sort::TopologicalSort;
use vstd::prelude::*;

verus! {

/// `TopologicalSort` of the `topological_sort` crate: items, and links that
/// say which item has to wait for which. Nothing is known of a value but
/// what the functions below say of it.
#[verifier::external_type_specification]
#[verifier::external_body]
#[verifier::reject_recursive_types(T)]
pub struct ExTopologicalSort<T>(TopologicalSort<T>);

/// The items that are still in a sort.
pub uninterp spec fn ts_items(ts: TopologicalSort<u64>) -> Set<u64>;

/// The dependency links that are still in a sort: `(p, s)` says that `s`
/// has to wait for `p`.
pub uninterp spec fn ts_links(ts: TopologicalSort<u64>) -> Set<(u64, u64)>;

/// The items of `items` that wait for no item under `links`.
pub open spec fn ready(items: Set<u64>, links: Set<(u64, u64)>) -> Set<u64> {
    Set::new(|x: u64| items.contains(x) && forall|p: u64| !links.contains((p, x)))
}

/// The links of `links` that do not start at an item of `gone`.
pub open spec fn links_without(links: Set<(u64, u64)>, gone: Set<u64>) -> Set<(u64, u64)> {
    Set::new(|l: (u64, u64)| links.contains(l) && !gone.contains(l.0))
}

/// `TopologicalSort::new`: a sort without items or links.
#[verifier::external_body]
pub(crate) fn ts_new() -> (ts: TopologicalSort<u64>)
    ensures
        ts_items(ts) == Set::<u64>::empty(),
        ts_links(ts) == Set::<(u64, u64)>::empty(),
{
    TopologicalSort::new()
}

/// `TopologicalSort::insert`: puts `item` among the items, where it is not
/// there yet, and leaves the links alone.
#[verifier::external_body]
pub(crate) fn ts_insert(ts: &mut TopologicalSort<u64>, item: u64)
    ensures
        ts_items(*final(ts)) == ts_items(*old(ts)).insert(item),
        ts_links(*final(ts)) == ts_links(*old(ts)),
{
    ts.insert(item);
}

/// `TopologicalSort::add_dependency`: puts `prec` and `succ` among the
/// items, and the link from `prec` to `succ` among the links.
#[verifier::external_body]
pub(crate) fn ts_add_dependency(ts: &mut TopologicalSort<u64>, prec: u64, succ: u64)
    ensures
        ts_items(*final(ts)) == ts_items(*old(ts)).insert(prec).insert(succ),
        ts_links(*final(ts)) == ts_links(*old(ts)).insert((prec, succ)),
{
    ts.add_dependency(prec, succ);
}

/// `TopologicalSort::len`: the number of items that are left.
#[verifier::external_body]
pub(crate) fn ts_len(ts: &TopologicalSort<u64>) -> (n: usize)
    ensures
        ts_items(*ts).finite() ==> n == ts_items(*ts).len(),
{
    ts.len()
}

/// `TopologicalSort::pop_batch`: takes out the items that wait for no
/// other item, with the links that start at them, and returns them, each
/// once, in no particular order.
#[verifier::external_body]
pub(crate) fn ts_pop_batch(ts: &mut TopologicalSort<u64>) -> (v: Vec<u64>)
    ensures
        v@.no_duplicates(),
        v@.to_set() == ready(ts_items(*old(ts)), ts_links(*old(ts))),
        ts_items(*final(ts)) == ts_items(*old(ts)).difference(
            ready(ts_items(*old(ts)), ts_links(*old(ts))),
        ),
        ts_links(*final(ts)) == links_without(
            ts_links(*old(ts)),
            ready(ts_items(*old(ts)), ts_links(*old(ts))),
        ),
{
    ts.pop_batch::<Vec<u64>>()
}

/// `TopologicalSort::items`: the items that are left, each once, in no
/// particular order.
#[verifier::external_body]
pub(crate) fn ts_remaining(ts: &TopologicalSort<u64>) -> (v: Vec<u64>)
    ensures
        v@.no_duplicates(),
        v@.to_set() == ts_items(*ts),
{
    ts.items().copied().collect()
}


// ================================================================================
// Ascending lists

/// Whether each number of `s` is below those after it.
pub open spec fn ascending(s: Seq<u64>) -> bool {
    forall|i: int, j: int| 0 <= i < j < s.len() ==> s[i] < s[j]
}

/// The numbers of the finite set `s` in ascending order.
pub open spec fn listing(s: Set<u64>) -> Seq<u64> {
    choose|q: Seq<u64>| ascending(q) && q.to_set() == s
}

/// Two ascending lists of the same numbers are the same list.
pub proof fn lemma_ascending_unique(a: Seq<u64>, b: Seq<u64>)
    requires
        ascending(a),
        ascending(b),
        a.to_set() == b.to_set(),
    ensures
        a == b,
    decreases a.len(),
{
    if a.len() == 0 {
        if b.len() > 0 {
            assert(b.to_set().contains(b[0]));
            assert(a.to_set().contains(b[0]));
        }
        assert(a =~= b);
    } else {
        assert(a.to_set().contains(a.last()));
        assert(b.to_set().contains(a.last()));
        assert(b.len() > 0);
        assert(b.to_set().contains(b.last()));
        assert(a.to_set().contains(b.last()));
        let i = choose|i: int| 0 <= i < a.len() && a[i] == b.last();
        let j = choose|j: int| 0 <= j < b.len() && b[j] == a.last();
        assert(a.last() == b.last());
        let a2 = a.drop_last();
        let b2 = b.drop_last();
        assert forall|x: u64| a2.to_set().contains(x) <==> b2.to_set().contains(x) by {
            if a2.to_set().contains(x) {
                let k = choose|k: int| 0 <= k < a2.len() && a2[k] == x;
                assert(a[k] == x);
                assert(x < a.last());
                assert(a.to_set().contains(x));
                assert(b.to_set().contains(x));
                let m = choose|m: int| 0 <= m < b.len() && b[m] == x;
                assert(m < b.len() - 1);
                assert(b2[m] == x);
            }
            if b2.to_set().contains(x) {
                let k = choose|k: int| 0 <= k < b2.len() && b2[k] == x;
                assert(b[k] == x);
                assert(x < b.last());
                assert(b.to_set().contains(x));
                assert(a.to_set().contains(x));
                let m = choose|m: int| 0 <= m < a.len() && a[m] == x;
                assert(m < a.len() - 1);
                assert(a2[m] == x);
            }
        }
        assert(a2.to_set() =~= b2.to_set());
        lemma_ascending_unique(a2, b2);
        assert(a =~= a2.push(a.last()));
        assert(b =~= b2.push(b.last()));
    }
}

/// An ascending list is the listing of its numbers.
pub proof fn lemma_listing_of(q: Seq<u64>)
    requires
        ascending(q),
    ensures
        listing(q.to_set()) == q,
{
    let l = listing(q.to_set());
    assert(ascending(q) && q.to_set() == q.to_set());
    lemma_ascending_unique(l, q);
}

/// Puts `x` into the ascending list `v`, unless it is there already.
pub fn insert_ascending(v: &mut Vec<u64>, x: u64)
    requires
        ascending(old(v)@),
    ensures
        ascending(final(v)@),
        final(v)@.to_set() == old(v)@.to_set().insert(x),
{
    let ghost s = v@;
    let mut i: usize = 0;
    while i < v.len() && v[i] < x
        invariant
            i <= v.len(),
            v@ == s,
            forall|j: int| 0 <= j < i ==> s[j] < x,
        decreases v.len() - i,
    {
        i += 1;
    }
    if i < v.len() && v[i] == x {
        assert(s.to_set().contains(x));
        assert(s.to_set().insert(x) =~= s.to_set());
        return ;
    }
    v.insert(i, x);
    proof {
        let r = v@;
        assert(r == s.insert(i as int, x));
        assert forall|a: int, b: int| 0 <= a < b < r.len() implies r[a] < r[b] by {
            if b < i {
            } else if b == i {
            } else if a > i {
                assert(r[a] == s[a - 1] && r[b] == s[b - 1]);
            } else if a == i {
                assert(r[b] == s[b - 1]);
                if b - 1 > i {
                    assert(s[i as int] < s[b - 1]);
                }
            } else {
                assert(r[b] == s[b - 1]);
            }
        }
        assert forall|y: u64| r.to_set().contains(y) <==> s.to_set().insert(x).contains(y) by {
            if r.to_set().contains(y) {
                let k = choose|k: int| 0 <= k < r.len() && r[k] == y;
                if k < i {
                    assert(s[k] == y);
                } else if k > i {
                    assert(s[k - 1] == y);
                }
            }
            if s.to_set().contains(y) {
                let k = choose|k: int| 0 <= k < s.len() && s[k] == y;
                if k < i {
                    assert(r[k] == y);
                } else {
                    assert(r[k + 1] == y);
                }
            }
            if y == x {
                assert(r[i as int] == x);
            }
        }
        assert(r.to_set() =~= s.to_set().insert(x));
    }
}

/// The numbers of `v` in ascending order, each once.
pub fn sort_ascending(v: &Vec<u64>) -> (r: Vec<u64>)
    ensures
        r@ == listing(v@.to_set()),
        ascending(r@),
        r@.to_set() == v@.to_set(),
{
    let mut out: Vec<u64> = Vec::new();
    let mut i: usize = 0;
    assert(out@.to_set() =~= v@.take(0).to_set());
    while i < v.len()
        invariant
            i <= v.len(),
            ascending(out@),
            out@.to_set() == v@.take(i as int).to_set(),
        decreases v.len() - i,
    {
        insert_ascending(&mut out, v[i]);
        proof {
            let a = v@.take(i as int);
            let b = v@.take(i + 1);
            assert(b =~= a.push(v@[i as int]));
            assert forall|y: u64| b.to_set().contains(y) <==> a.to_set().insert(
                v@[i as int],
            ).contains(y) by {
                if b.to_set().contains(y) {
                    let k = choose|k: int| 0 <= k < b.len() && b[k] == y;
                    if k < i {
                        assert(a[k] == y);
                    }
                }
                if a.to_set().contains(y) {
                    let k = choose|k: int| 0 <= k < a.len() && a[k] == y;
                    assert(b[k] == y);
                }
                if y == v@[i as int] {
                    assert(b[i as int] == y);
                }
            }
            assert(b.to_set() =~= a.to_set().insert(v@[i as int]));
        }
        i += 1;
    }
    proof {
        assert(v@.take(v.len() as int) =~= v@);
        lemma_listing_of(out@);
    }
    out
}

// ================================================================================
// Layers

/// `done` followed by the order in `rest`, or the failure of `rest`.
pub open spec fn then_order(done: Seq<u64>, rest: Result<Seq<u64>, Seq<u64>>) -> Result<
    Seq<u64>,
    Seq<u64>,
> {
    match rest {
        Ok(t) => Ok(done + t),
        Err(c) => Err(c),
    }
}

/// The items in dependency order: first, in ascending order, those that
/// wait for no other; then, with them and their links gone, the rest in
/// the same way. Where items are left of which each waits for another,
/// they lie on a cycle or behind one, and the order fails with those
/// items, in ascending order.
pub open spec fn layered(items: Set<u64>, links: Set<(u64, u64)>) -> Result<Seq<u64>, Seq<u64>>
    decreases items.len(),
    when items.finite()
    via layered_decreases
{
    let r = ready(items, links);
    if items.len() == 0 {
        Ok(Seq::empty())
    } else if r.len() == 0 {
        Err(listing(items))
    } else {
        then_order(listing(r), layered(items.difference(r), links_without(links, r)))
    }
}

/// Taking the ready items out leaves fewer items, where there are ready
/// items.
pub proof fn lemma_fewer_items(items: Set<u64>, links: Set<(u64, u64)>)
    requires
        items.finite(),
        ready(items, links).len() != 0,
    ensures
        ready(items, links).finite(),
        items.difference(ready(items, links)).finite(),
        items.difference(ready(items, links)).len() < items.len(),
{
    let r = ready(items, links);
    assert(r.subset_of(items));
    vstd::set_lib::lemma_len_subset(r, items);
    vstd::set_lib::lemma_set_difference_len(items, r);
    assert(items.intersect(r) =~= r);
}

#[via_fn]
proof fn layered_decreases(items: Set<u64>, links: Set<(u64, u64)>) {
    if items.finite() && items.len() != 0 && ready(items, links).len() != 0 {
        lemma_fewer_items(items, links);
    }
}

/// Takes the items out of `ts` in dependency order, those that are ready
/// together in ascending order. Fails, with the items that are left in
/// ascending order, where each item that is left waits for another.
pub fn pop_in_order(ts: &mut TopologicalSort<u64>) -> (r: Result<Vec<u64>, Vec<u64>>)
    requires
        ts_items(*old(ts)).finite(),
    ensures
        match layered(ts_items(*old(ts)), ts_links(*old(ts))) {
            Ok(o) => r is Ok && r->Ok_0@ == o,
            Err(c) => r is Err && r->Err_0@ == c,
        },
{
    let ghost items0 = ts_items(*ts);
    let ghost links0 = ts_links(*ts);
    let mut sorted: Vec<u64> = Vec::new();
    proof {
        let l = layered(items0, links0);
        match l {
            Ok(t) => {
                assert(sorted@ + t =~= t);
            },
            Err(_) => {},
        }
    }
    loop
        invariant
            items0 == ts_items(*old(ts)),
            links0 == ts_links(*old(ts)),
            items0.finite(),
            ts_items(*ts).finite(),
            layered(items0, links0) == then_order(
                sorted@,
                layered(ts_items(*ts), ts_links(*ts)),
            ),
        decreases ts_items(*ts).len(),
    {
        let ghost items = ts_items(*ts);
        let ghost links = ts_links(*ts);
        let ghost r = ready(items, links);
        let v = ts_pop_batch(ts);
        proof {
            assert(r.subset_of(items));
            vstd::set_lib::lemma_len_subset(r, items);
            v@.unique_seq_to_set();
        }
        if v.len() == 0 {
            assert(r.len() == 0);
            proof {
                r.lemma_len0_is_empty();
                assert(items.difference(r) =~= items);
                assert(ts_items(*ts) == items);
            }
            if ts_len(ts) != 0 {
                let rest = ts_remaining(ts);
                let out = sort_ascending(&rest);
                assert(layered(items, links) == Err::<Seq<u64>, Seq<u64>>(listing(items)));
                return Err(out);
            } else {
                proof {
                    assert(items.len() == 0);
                    assert(layered(items, links) == Ok::<Seq<u64>, Seq<u64>>(Seq::empty()));
                    assert(sorted@ + Seq::<u64>::empty() =~= sorted@);
                }
                return Ok(sorted);
            }
        }
        proof {
            assert(r.len() > 0);
            if items.len() == 0 {
                items.lemma_len0_is_empty();
                assert(r =~= Set::<u64>::empty());
            }
            lemma_fewer_items(items, links);
        }
        let mut batch = sort_ascending(&v);
        let ghost before = sorted@;
        let ghost b = batch@;
        sorted.append(&mut batch);
        proof {
            let rest = layered(ts_items(*ts), ts_links(*ts));
            match rest {
                Ok(t) => {
                    assert(before + (b + t) =~= (before + b) + t);
                },
                Err(_) => {},
            }
        }
    }
}


// ================================================================================
// Properties of the order

/// An ascending list with `x` put in its place.
proof fn lemma_insert_ascending(q: Seq<u64>, x: u64) -> (r: Seq<u64>)
    requires
        ascending(q),
    ensures
        ascending(r),
        r.to_set() == q.to_set().insert(x),
    decreases q.len(),
{
    if q.len() == 0 {
        let r = seq![x];
        assert(r.to_set() =~= q.to_set().insert(x)) by {
            assert forall|y: u64| r.to_set().contains(y) <==> q.to_set().insert(x).contains(y) by {
                if y == x {
                    assert(r[0] == y);
                }
                if q.to_set().contains(y) {
                    let k = choose|k: int| 0 <= k < q.len() && q[k] == y;
                }
            }
        }
        r
    } else if q.last() < x {
        let r = q.push(x);
        assert forall|y: u64| r.to_set().contains(y) <==> q.to_set().insert(x).contains(y) by {
            if r.to_set().contains(y) {
                let k = choose|k: int| 0 <= k < r.len() && r[k] == y;
                if k < q.len() {
                    assert(q[k] == y);
                }
            }
            if q.to_set().contains(y) {
                let k = choose|k: int| 0 <= k < q.len() && q[k] == y;
                assert(r[k] == y);
            }
            if y == x {
                assert(r[q.len() as int] == y);
            }
        }
        assert(r.to_set() =~= q.to_set().insert(x));
        r
    } else if q.last() == x {
        assert(q.to_set().contains(x));
        assert(q.to_set() =~= q.to_set().insert(x));
        q
    } else {
        let h = q.drop_last();
        let r0 = lemma_insert_ascending(h, x);
        let r = r0.push(q.last());
        assert forall|i: int, j: int| 0 <= i < j < r.len() implies r[i] < r[j] by {
            if j < r0.len() {
            } else {
                assert(r0.to_set().contains(r0[i]));
                if r0[i] != x {
                    assert(h.to_set().contains(r0[i]));
                    let k = choose|k: int| 0 <= k < h.len() && h[k] == r0[i];
                    assert(q[k] == r0[i]);
                }
            }
        }
        assert forall|y: u64| r.to_set().contains(y) <==> q.to_set().insert(x).contains(y) by {
            if r.to_set().contains(y) {
                let k = choose|k: int| 0 <= k < r.len() && r[k] == y;
                if k < r0.len() {
                    assert(r0.to_set().contains(y));
                    if y != x {
                        assert(h.to_set().contains(y));
                        let m = choose|m: int| 0 <= m < h.len() && h[m] == y;
                        assert(q[m] == y);
                    }
                } else {
                    assert(q[q.len() - 1] == y);
                }
            }
            if q.to_set().contains(y) {
                let k = choose|k: int| 0 <= k < q.len() && q[k] == y;
                if k < h.len() {
                    assert(h[k] == y);
                    assert(h.to_set().contains(y));
                    assert(r0.to_set().contains(y));
                    let m = choose|m: int| 0 <= m < r0.len() && r0[m] == y;
                    assert(r[m] == y);
                } else {
                    assert(r[r0.len() as int] == y);
                }
            }
            if y == x {
                assert(r0.to_set().contains(x));
                let m = choose|m: int| 0 <= m < r0.len() && r0[m] == x;
                assert(r[m] == x);
            }
        }
        assert(r.to_set() =~= q.to_set().insert(x));
        r
    }
}

/// The listing of a finite set is ascending and holds the numbers of the
/// set.
pub proof fn lemma_listing(s: Set<u64>)
    requires
        s.finite(),
    ensures
        ascending(listing(s)),
        listing(s).to_set() == s,
    decreases s.len(),
{
    if s.len() == 0 {
        s.lemma_len0_is_empty();
        let q = Seq::<u64>::empty();
        assert(q.to_set() =~= s);
        assert(ascending(q) && q.to_set() == s);
    } else {
        let x = s.choose();
        lemma_listing(s.remove(x));
        let q = lemma_insert_ascending(listing(s.remove(x)), x);
        assert(s.remove(x).insert(x) =~= s);
        assert(ascending(q) && q.to_set() == s);
    }
}

/// Whether `p` comes before `s` in `order`.
pub open spec fn precedes(order: Seq<u64>, p: u64, s: u64) -> bool {
    exists|i: int, j: int| 0 <= i < j < order.len() && order[i] == p && order[j] == s
}

/// A dependency order holds every item.
pub proof fn lemma_layered_items(items: Set<u64>, links: Set<(u64, u64)>)
    requires
        items.finite(),
        layered(items, links) is Ok,
    ensures
        layered(items, links)->Ok_0.to_set() == items,
    decreases items.len(),
{
    let r = ready(items, links);
    let order = layered(items, links)->Ok_0;
    if items.len() == 0 {
        items.lemma_len0_is_empty();
        assert(order.to_set() =~= items);
    } else {
        lemma_fewer_items(items, links);
        lemma_listing(r);
        let rest = items.difference(r);
        let t = layered(rest, links_without(links, r))->Ok_0;
        lemma_layered_items(rest, links_without(links, r));
        let l = listing(r);
        assert(order == l + t);
        assert forall|y: u64| order.to_set().contains(y) <==> items.contains(y) by {
            if order.to_set().contains(y) {
                let k = choose|k: int| 0 <= k < order.len() && order[k] == y;
                if k < l.len() {
                    assert(l[k] == y);
                    assert(l.to_set().contains(y));
                } else {
                    assert(t[k - l.len()] == y);
                    assert(t.to_set().contains(y));
                }
            }
            if items.contains(y) {
                if r.contains(y) {
                    assert(l.to_set().contains(y));
                    let k = choose|k: int| 0 <= k < l.len() && l[k] == y;
                    assert(order[k] == y);
                } else {
                    assert(rest.contains(y));
                    assert(t.to_set().contains(y));
                    let k = choose|k: int| 0 <= k < t.len() && t[k] == y;
                    assert(order[l.len() + k] == y);
                }
            }
        }
        assert(order.to_set() =~= items);
    }
}

/// In a dependency order each item comes after the items that it waits
/// for.
pub proof fn lemma_layered_respects_links(items: Set<u64>, links: Set<(u64, u64)>, p: u64, s: u64)
    requires
        items.finite(),
        layered(items, links) is Ok,
        links.contains((p, s)),
        items.contains(p),
        items.contains(s),
    ensures
        precedes(layered(items, links)->Ok_0, p, s),
    decreases items.len(),
{
    let r = ready(items, links);
    let order = layered(items, links)->Ok_0;
    if items.len() == 0 {
        items.lemma_len0_is_empty();
    } else {
        lemma_fewer_items(items, links);
        lemma_listing(r);
        let rest = items.difference(r);
        let links2 = links_without(links, r);
        let t = layered(rest, links2)->Ok_0;
        let l = listing(r);
        assert(order == l + t);
        assert(!r.contains(s));
        assert(rest.contains(s));
        lemma_layered_items(rest, links2);
        if r.contains(p) {
            assert(l.to_set().contains(p));
            let i = choose|i: int| 0 <= i < l.len() && l[i] == p;
            assert(t.to_set().contains(s));
            let j = choose|j: int| 0 <= j < t.len() && t[j] == s;
            assert(order[i] == p);
            assert(order[l.len() + j] == s);
        } else {
            assert(links2.contains((p, s)));
            assert(rest.contains(p));
            lemma_layered_respects_links(rest, links2, p, s);
            let (i, j) = choose|i: int, j: int|
                0 <= i < j < t.len() && t[i] == p && t[j] == s;
            assert(order[l.len() + i] == p);
            assert(order[l.len() + j] == s);
        }
    }
}

} // verus!
