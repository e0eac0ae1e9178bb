//! The order of identifiers, and the one ascending list of a set of them.

use vstd::prelude::*;

verus! {

/// `a` comes strictly before `b`: the lexicographic order of the code points,
/// which is the order of `str`.
pub open spec fn precedes(a: Seq<char>, b: Seq<char>) -> bool
    decreases a.len(),
{
    if b.len() == 0 {
        false
    } else if a.len() == 0 {
        true
    } else if a[0] == b[0] {
        precedes(a.drop_first(), b.drop_first())
    } else {
        a[0] < b[0]
    }
}

/// No text comes before itself.
pub proof fn lemma_irreflexive(a: Seq<char>)
    ensures
        !precedes(a, a),
    decreases a.len(),
{
    if a.len() > 0 {
        lemma_irreflexive(a.drop_first());
    }
}

/// The order is transitive.
pub proof fn lemma_transitive(a: Seq<char>, b: Seq<char>, c: Seq<char>)
    requires
        precedes(a, b),
        precedes(b, c),
    ensures
        precedes(a, c),
    decreases a.len(),
{
    if a.len() > 0 && a[0] == b[0] && b[0] == c[0] {
        lemma_transitive(a.drop_first(), b.drop_first(), c.drop_first());
    }
}

/// Two texts neither of which comes before the other are the same.
pub proof fn lemma_total(a: Seq<char>, b: Seq<char>)
    ensures
        precedes(a, b) || precedes(b, a) || a == b,
    decreases a.len(),
{
    if a.len() > 0 && b.len() > 0 && a[0] == b[0] {
        lemma_total(a.drop_first(), b.drop_first());
        if a.drop_first() == b.drop_first() {
            assert(a =~= seq![a[0]] + a.drop_first());
            assert(b =~= seq![b[0]] + b.drop_first());
        }
    } else if a.len() == 0 && b.len() == 0 {
        assert(a =~= b);
    }
}

/// Every text of the list comes before those after it.
pub open spec fn ascending(list: Seq<Seq<char>>) -> bool {
    forall|i: int, j: int| 0 <= i < j < list.len() ==> precedes(#[trigger] list[i], #[trigger] list[j])
}

/// `list` holds the texts of `set`, each once, in order.
pub open spec fn lists(list: Seq<Seq<char>>, set: Set<Seq<char>>) -> bool {
    &&& ascending(list)
    &&& forall|x: Seq<char>| #[trigger] set.contains(x) <==> list.contains(x)
}

/// The texts of `set` in order: the only list that [`lists`] it.
pub open spec fn listing(set: Set<Seq<char>>) -> Seq<Seq<char>> {
    choose|list: Seq<Seq<char>>| lists(list, set)
}

/// A set has at most one ascending list.
pub proof fn lemma_lists_unique(a: Seq<Seq<char>>, b: Seq<Seq<char>>, set: Set<Seq<char>>)
    requires
        lists(a, set),
        lists(b, set),
    ensures
        a == b,
{
    lemma_same_prefix(a, b, set, a.len());
    lemma_same_prefix(b, a, set, b.len());
    assert(a =~= b);
}

/// The lists of one set agree up to `n`.
proof fn lemma_same_prefix(a: Seq<Seq<char>>, b: Seq<Seq<char>>, set: Set<Seq<char>>, n: nat)
    requires
        lists(a, set),
        lists(b, set),
        n <= a.len(),
    ensures
        n <= b.len(),
        forall|i: int| 0 <= i < n ==> a[i] == b[i],
    decreases n,
{
    if n > 0 {
        let m: int = n - 1;
        lemma_same_prefix(a, b, set, m as nat);
        assert(a.contains(a[m]));
        assert(set.contains(a[m]));
        let j = choose|j: int| 0 <= j < b.len() && b[j] == a[m];
        lemma_irreflexive(a[m]);
        if j < m {
            assert(a[j] == b[j]);
            assert(precedes(a[j], a[m]));
        }
        assert(b.contains(b[m]));
        assert(set.contains(b[m]));
        let k = choose|k: int| 0 <= k < a.len() && a[k] == b[m];
        if k < m {
            assert(a[k] == b[k]);
            assert(precedes(b[k], b[m]));
            lemma_irreflexive(b[m]);
        }
        if j > m {
            assert(precedes(b[m], b[j]));
            if k > m {
                assert(precedes(a[m], a[k]));
                lemma_transitive(a[m], a[k], a[m]);
            }
        }
    }
}

/// A list that [`lists`] a set is its [`listing`].
pub proof fn lemma_listing(list: Seq<Seq<char>>, set: Set<Seq<char>>)
    requires
        lists(list, set),
    ensures
        listing(set) == list,
{
    lemma_lists_unique(list, listing(set), set);
}

/// Every finite set has an ascending list.
pub proof fn lemma_listing_exists(set: Set<Seq<char>>)
    requires
        set.finite(),
    ensures
        lists(listing(set), set),
    decreases set.len(),
{
    if set.len() == 0 {
        assert(set =~= Set::empty());
        assert(lists(Seq::empty(), set));
    } else {
        let x = set.choose();
        let rest = set.remove(x);
        lemma_listing_exists(rest);
        let list = listing(rest);
        let at = lemma_place(list, x);
        let longer = list.insert(at, x);
        assert forall|y: Seq<char>| #[trigger] set.contains(y) <==> longer.contains(y) by {
            if set.contains(y) {
                if y == x {
                    assert(longer[at] == x);
                } else {
                    assert(rest.contains(y));
                    let i = choose|i: int| 0 <= i < list.len() && list[i] == y;
                    if i < at {
                        assert(longer[i] == y);
                    } else {
                        assert(longer[i + 1] == y);
                    }
                }
            }
            if longer.contains(y) {
                let i = choose|i: int| 0 <= i < longer.len() && longer[i] == y;
                if i < at {
                    assert(list[i] == y);
                    assert(list.contains(y));
                } else if i > at {
                    assert(list[i - 1] == y);
                    assert(list.contains(y));
                }
            }
        }
        assert(!list.contains(x));
        lemma_insert_ascending(list, at, x);
        assert(lists(longer, set));
    }
}

/// Where `x` belongs in an ascending list.
proof fn lemma_place(list: Seq<Seq<char>>, x: Seq<char>) -> (at: int)
    requires
        ascending(list),
        !list.contains(x),
    ensures
        0 <= at <= list.len(),
        forall|i: int| 0 <= i < at ==> precedes(#[trigger] list[i], x),
        forall|i: int| at <= i < list.len() ==> precedes(x, #[trigger] list[i]),
    decreases list.len(),
{
    if list.len() == 0 {
        0
    } else {
        let shorter = list.drop_last();
        assert(!shorter.contains(x)) by {
            if shorter.contains(x) {
                let i = choose|i: int| 0 <= i < shorter.len() && shorter[i] == x;
                assert(list[i] == x);
            }
        }
        let at = lemma_place(shorter, x);
        let last = list.last();
        assert(list.contains(last));
        lemma_total(last, x);
        if precedes(last, x) {
            assert forall|i: int| 0 <= i < list.len() implies precedes(#[trigger] list[i], x) by {
                if i < list.len() - 1 {
                    lemma_transitive(list[i], last, x);
                }
            }
            list.len() as int
        } else {
            assert forall|i: int| 0 <= i < at implies precedes(#[trigger] list[i], x) by {
                assert(shorter[i] == list[i]);
            }
            assert forall|i: int| at <= i < list.len() implies precedes(x, #[trigger] list[i]) by {
                if i < list.len() - 1 {
                    assert(shorter[i] == list[i]);
                }
            }
            at
        }
    }
}

/// Putting a text where it belongs keeps the list ascending.
pub proof fn lemma_insert_ascending(list: Seq<Seq<char>>, at: int, x: Seq<char>)
    requires
        ascending(list),
        0 <= at <= list.len(),
        forall|i: int| 0 <= i < at ==> precedes(#[trigger] list[i], x),
        forall|i: int| at <= i < list.len() ==> precedes(x, #[trigger] list[i]),
    ensures
        ascending(list.insert(at, x)),
{
    let longer = list.insert(at, x);
    assert forall|i: int, j: int| 0 <= i < j < longer.len() implies precedes(
        #[trigger] longer[i],
        #[trigger] longer[j],
    ) by {
        let a = if i < at { list[i] } else if i == at { x } else { list[i - 1] };
        let b = if j < at { list[j] } else if j == at { x } else { list[j - 1] };
        assert(longer[i] == a);
        assert(longer[j] == b);
    }
}

/// How two texts stand to each other in the order.
#[derive(Debug, Clone, Copy, PartialEq, Eq)]
pub enum Place {
    Before,
    Same,
    After,
}

/// Compares two texts.
pub fn place(a: &str, b: &str) -> (r: Place)
    ensures
        r == Place::Before <==> precedes(a@, b@),
        r == Place::Same <==> a@ == b@,
        r == Place::After <==> precedes(b@, a@),
{
    proof {
        lemma_total(a@, b@);
        lemma_irreflexive(a@);
        if precedes(a@, b@) && precedes(b@, a@) {
            lemma_transitive(a@, b@, a@);
        }
    }
    let mut x = a.chars();
    let mut y = b.chars();
    loop
        invariant
            precedes(a@, b@) == precedes(vstd::std_specs::iter::IteratorSpec::remaining(&x), vstd::std_specs::iter::IteratorSpec::remaining(&y)),
            precedes(b@, a@) == precedes(vstd::std_specs::iter::IteratorSpec::remaining(&y), vstd::std_specs::iter::IteratorSpec::remaining(&x)),
            precedes(a@, b@) || precedes(b@, a@) || a@ == b@,
            !(precedes(a@, b@) && precedes(b@, a@)),
            !(precedes(a@, b@) && a@ == b@),
            !(precedes(b@, a@) && a@ == b@),
            vstd::std_specs::iter::IteratorSpec::decrease(&x) is Some,
            vstd::std_specs::iter::IteratorSpec::decrease(&y) is Some,
        decreases vstd::std_specs::iter::IteratorSpec::decrease(&x)->0,
    {
        let c = x.next();
        let d = y.next();
        match (c, d) {
            (None, None) => {
                return Place::Same;
            },
            (None, Some(_)) => {
                return Place::Before;
            },
            (Some(_), None) => {
                return Place::After;
            },
            (Some(c), Some(d)) => {
                if c < d {
                    return Place::Before;
                }
                if c > d {
                    return Place::After;
                }
            },
        }
    }
}

} // verus!
