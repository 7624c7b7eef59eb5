//! Sets of names, kept as ascending lists so that they print the same way
//! however they were filled.

use crate::text::{lemma_str_lt_total, lemma_str_lt_transitive, str_eq, str_lt, str_precedes, views};
use vstd::prelude::*;

verus! {

/// Whether each name of `s` precedes those after it.
pub open spec fn sorted(s: Seq<Seq<char>>) -> bool {
    forall|i: int, j: int| 0 <= i < j < s.len() ==> str_lt(#[trigger] s[i], #[trigger] s[j])
}

/// The number of leading names of `s` that precede `x`.
pub open spec fn insert_pos(s: Seq<Seq<char>>, x: Seq<char>) -> int
    decreases s.len(),
{
    if s.len() == 0 || !str_lt(s[0], x) {
        0
    } else {
        1 + insert_pos(s.drop_first(), x)
    }
}

/// `s` with `x` put before the first name that does not precede it, unless
/// that name is `x` itself.
pub open spec fn insert_sorted(s: Seq<Seq<char>>, x: Seq<char>) -> Seq<Seq<char>> {
    let p = insert_pos(s, x);
    if p < s.len() && s[p] == x {
        s
    } else {
        s.insert(p, x)
    }
}

/// `a` with the names of `b` inserted one after the other.
pub open spec fn union_sorted(a: Seq<Seq<char>>, b: Seq<Seq<char>>) -> Seq<Seq<char>>
    decreases b.len(),
{
    if b.len() == 0 {
        a
    } else {
        insert_sorted(union_sorted(a, b.drop_last()), b.last())
    }
}

/// Where `x` goes: all names before that place precede `x`, and the name at
/// that place does not.
pub proof fn lemma_insert_pos(s: Seq<Seq<char>>, x: Seq<char>)
    ensures
        0 <= insert_pos(s, x) <= s.len(),
        forall|i: int| 0 <= i < insert_pos(s, x) ==> str_lt(#[trigger] s[i], x),
        insert_pos(s, x) < s.len() ==> !str_lt(s[insert_pos(s, x)], x),
    decreases s.len(),
{
    if s.len() == 0 || !str_lt(s[0], x) {
    } else {
        let t = s.drop_first();
        lemma_insert_pos(t, x);
        assert forall|i: int| 0 <= i < insert_pos(s, x) implies str_lt(#[trigger] s[i], x) by {
            if i > 0 {
                assert(s[i] == t[i - 1]);
            }
        }
    }
}

/// Inserting a name adds that name and no other.
pub proof fn lemma_insert_sorted_members(s: Seq<Seq<char>>, x: Seq<char>)
    ensures
        insert_sorted(s, x).contains(x),
        forall|y: Seq<char>| s.contains(y) ==> insert_sorted(s, x).contains(y),
        forall|y: Seq<char>| insert_sorted(s, x).contains(y) ==> y == x || s.contains(y),
{
    lemma_insert_pos(s, x);
    let p = insert_pos(s, x);
    let r = insert_sorted(s, x);
    if p < s.len() && s[p] == x {
        assert(s[p] == x);
    } else {
        assert(r[p] == x);
        assert forall|y: Seq<char>| s.contains(y) implies r.contains(y) by {
            let i = choose|i: int| 0 <= i < s.len() && s[i] == y;
            if i < p {
                assert(r[i] == y);
            } else {
                assert(r[i + 1] == y);
            }
        }
        assert forall|y: Seq<char>| r.contains(y) implies y == x || s.contains(y) by {
            let i = choose|i: int| 0 <= i < r.len() && r[i] == y;
            if i < p {
                assert(s[i] == y);
            } else if i > p {
                assert(s[i - 1] == y);
            }
        }
    }
}

/// Inserting a name into an ascending list leaves it ascending.
pub proof fn lemma_insert_sorted_keeps_sorted(s: Seq<Seq<char>>, x: Seq<char>)
    requires
        sorted(s),
    ensures
        sorted(insert_sorted(s, x)),
{
    lemma_insert_pos(s, x);
    let p = insert_pos(s, x);
    let r = insert_sorted(s, x);
    if p < s.len() && s[p] == x {
    } else {
        assert forall|i: int, j: int| 0 <= i < j < r.len() implies str_lt(
            #[trigger] r[i],
            #[trigger] r[j],
        ) by {
            if j < p {
                assert(r[i] == s[i] && r[j] == s[j]);
            } else if j == p {
                assert(r[i] == s[i]);
            } else if i > p {
                assert(r[i] == s[i - 1] && r[j] == s[j - 1]);
            } else if i == p {
                // x precedes s[p], which precedes or is s[j - 1]
                lemma_str_lt_total(s[p], x);
                assert(str_lt(x, s[p]));
                if j - 1 > p {
                    assert(str_lt(s[p], s[j - 1]));
                    lemma_str_lt_transitive(x, s[p], s[j - 1]);
                }
                assert(r[j] == s[j - 1]);
            } else {
                assert(r[i] == s[i] && r[j] == s[j - 1]);
                if i < j - 1 {
                } else {
                    assert(false);
                }
            }
        }
    }
}

/// A union holds the names of both lists and no others, and is ascending
/// where the first list is.
pub proof fn lemma_union_sorted(a: Seq<Seq<char>>, b: Seq<Seq<char>>)
    ensures
        forall|y: Seq<char>| a.contains(y) ==> union_sorted(a, b).contains(y),
        forall|y: Seq<char>| b.contains(y) ==> union_sorted(a, b).contains(y),
        forall|y: Seq<char>| union_sorted(a, b).contains(y) ==> a.contains(y) || b.contains(y),
        sorted(a) ==> sorted(union_sorted(a, b)),
    decreases b.len(),
{
    if b.len() > 0 {
        let u = union_sorted(a, b.drop_last());
        lemma_union_sorted(a, b.drop_last());
        lemma_insert_sorted_members(u, b.last());
        if sorted(a) {
            lemma_insert_sorted_keeps_sorted(u, b.last());
        }
        assert forall|y: Seq<char>| b.contains(y) implies union_sorted(a, b).contains(y) by {
            let i = choose|i: int| 0 <= i < b.len() && b[i] == y;
            if i < b.len() - 1 {
                assert(b.drop_last()[i] == y);
                assert(b.drop_last().contains(y));
                assert(u.contains(y));
            } else {
                assert(y == b.last());
            }
        }
        assert forall|y: Seq<char>| union_sorted(a, b).contains(y) implies a.contains(y)
            || b.contains(y) by {
            if y == b.last() {
                assert(b[b.len() - 1] == y);
            } else if !a.contains(y) {
                assert(b.drop_last().contains(y));
                let i = choose|i: int| 0 <= i < b.drop_last().len() && b.drop_last()[i] == y;
                assert(b[i] == y);
            }
        }
    }
}

/// A set of names, listed in ascending order.
#[derive(Debug, PartialEq, Eq)]
pub struct NameSet {
    pub names: Vec<String>,
}

impl View for NameSet {
    type V = Seq<Seq<char>>;

    open spec fn view(&self) -> Seq<Seq<char>> {
        views(self.names@)
    }
}

impl Clone for NameSet {
    fn clone(&self) -> (r: Self)
        ensures
            r@ == self@,
    {
        let mut out: Vec<String> = Vec::new();
        let mut i: usize = 0;
        while i < self.names.len()
            invariant
                i <= self.names.len(),
                out@.len() == i,
                forall|j: int| 0 <= j < i ==> out@[j]@ == self.names@[j]@,
            decreases self.names.len() - i,
        {
            out.push(self.names[i].clone());
            i += 1;
        }
        assert(views(out@) =~= views(self.names@));
        NameSet { names: out }
    }
}

impl NameSet {
    /// The empty set.
    pub fn new() -> (r: Self)
        ensures
            r@ == Seq::<Seq<char>>::empty(),
            sorted(r@),
    {
        let r = NameSet { names: Vec::new() };
        assert(r@ =~= Seq::<Seq<char>>::empty());
        r
    }

    /// The number of names listed.
    pub fn len(&self) -> (r: usize)
        ensures
            r == self@.len(),
    {
        self.names.len()
    }

    /// Whether `name` is listed.
    pub fn contains(&self, name: &str) -> (r: bool)
        ensures
            r == self@.contains(name@),
    {
        let mut i: usize = 0;
        while i < self.names.len()
            invariant
                i <= self.names.len(),
                forall|j: int| 0 <= j < i ==> self@[j] != name@,
            decreases self.names.len() - i,
        {
            if str_eq(self.names[i].as_str(), name) {
                assert(self@[i as int] == name@);
                return true;
            }
            i += 1;
        }
        false
    }

    /// Adds `name`, keeping the list ascending; a name already listed is
    /// not added again.
    pub fn insert(&mut self, name: &str)
        ensures
            final(self)@ == insert_sorted(old(self)@, name@),
            sorted(old(self)@) ==> sorted(final(self)@),
            final(self)@.contains(name@),
    {
        let ghost s = self@;
        proof {
            lemma_insert_pos(s, name@);
            lemma_insert_sorted_members(s, name@);
            if sorted(s) {
                lemma_insert_sorted_keeps_sorted(s, name@);
            }
        }
        let mut i: usize = 0;
        assert(s.skip(0) =~= s);
        while i < self.names.len() && str_precedes(self.names[i].as_str(), name)
            invariant
                i <= self.names.len(),
                self@ == s,
                insert_pos(s, name@) == i + insert_pos(s.skip(i as int), name@),
            decreases self.names.len() - i,
        {
            assert(s.skip(i as int)[0] == s[i as int]);
            assert(s.skip(i as int).drop_first() =~= s.skip(i + 1));
            i += 1;
        }
        proof {
            if i < s.len() {
                assert(s.skip(i as int)[0] == s[i as int]);
            }
            assert(insert_pos(s, name@) == i);
        }
        if i < self.names.len() && str_eq(self.names[i].as_str(), name) {
            return ;
        }
        self.names.insert(i, String::from_str(name));
        assert(self@ =~= s.insert(i as int, name@));
    }

    /// Adds every name of `other`.
    pub fn extend(&mut self, other: &NameSet)
        ensures
            final(self)@ == union_sorted(old(self)@, other@),
            sorted(old(self)@) ==> sorted(final(self)@),
    {
        let mut i: usize = 0;
        assert(other@.take(0) =~= Seq::<Seq<char>>::empty());
        while i < other.names.len()
            invariant
                i <= other.names.len(),
                self@ == union_sorted(old(self)@, other@.take(i as int)),
                sorted(old(self)@) ==> sorted(self@),
            decreases other.names.len() - i,
        {
            proof {
                assert(other@.take(i + 1).drop_last() =~= other@.take(i as int));
                assert(other@.take(i + 1).last() == other@[i as int]);
            }
            self.insert(other.names[i].as_str());
            i += 1;
        }
        assert(other@.take(other.names.len() as int) =~= other@);
    }

    /// The set that holds the names of `names`.
    pub fn from_names(names: &Vec<String>) -> (r: Self)
        ensures
            r@ == union_sorted(Seq::empty(), views(names@)),
            sorted(r@),
    {
        let mut r = NameSet::new();
        let other = NameSet { names: clone_names(names) };
        r.extend(&other);
        r
    }
}

/// Copies a list of strings.
pub fn clone_names(v: &Vec<String>) -> (r: Vec<String>)
    ensures
        views(r@) == views(v@),
{
    let mut out: Vec<String> = Vec::new();
    let mut i: usize = 0;
    while i < v.len()
        invariant
            i <= v.len(),
            out@.len() == i,
            forall|j: int| 0 <= j < i ==> out@[j]@ == v@[j]@,
        decreases v.len() - i,
    {
        out.push(v[i].clone());
        i += 1;
    }
    assert(views(out@) =~= views(v@));
    out
}

} // verus!
