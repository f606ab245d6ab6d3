use vstd::prelude::*;
use vstd::set_lib::{lemma_int_range, lemma_len_subset, set_int_range};

verus! {

/// A link of the graph: two factory ids and the travel time between them.
pub type Link = (usize, usize, i64);

/// An entry of a neighbour list: the travel time, then the neighbour's id.
pub type Neighbor = (i64, usize);

/// The two links join the same unordered pair of factories.
pub open spec fn same_pair(l: Link, m: Link) -> bool {
    (l.0 == m.0 && l.1 == m.1) || (l.0 == m.1 && l.1 == m.0)
}

/// No unordered pair of factories has two links.
pub open spec fn links_unique(ls: Seq<Link>) -> bool {
    forall|p: int, q: int| 0 <= p < q < ls.len() ==> !same_pair(#[trigger] ls[p], #[trigger] ls[q])
}

/// The link `l` makes `x` an entry of the neighbour list of factory `i`.
pub open spec fn link_gives(l: Link, i: int, x: Neighbor) -> bool {
    l.2 == x.0 && ((l.0 == i && l.1 == x.1) || (l.1 == i && l.0 == x.1))
}

/// Some link of `ls` makes `x` an entry of the neighbour list of factory `i`.
pub open spec fn linked(ls: Seq<Link>, i: int, x: Neighbor) -> bool {
    exists|q: int| 0 <= q < ls.len() && link_gives(#[trigger] ls[q], i, x)
}

/// Nearest first; equal travel times by increasing id.
pub open spec fn before(x: Neighbor, y: Neighbor) -> bool {
    x.0 < y.0 || (x.0 == y.0 && x.1 < y.1)
}

pub open spec fn sorted(ns: Seq<Neighbor>) -> bool {
    forall|a: int, b: int| 0 <= a < b < ns.len() ==> before(#[trigger] ns[a], #[trigger] ns[b])
}

/// The neighbour list of factory `i`: every link that touches it, nearest first.
pub open spec fn is_neighbor_list(ns: Seq<Neighbor>, ls: Seq<Link>, i: int) -> bool {
    &&& sorted(ns)
    &&& forall|x: Neighbor| ns.contains(x) <==> linked(ls, i, x)
}

/// No factory appears twice in the list.
pub open spec fn distinct_ids(ns: Seq<Neighbor>) -> bool {
    forall|a: int, b: int| 0 <= a < b < ns.len() ==> (#[trigger] ns[a]).1 != (#[trigger] ns[b]).1
}

/// A list of distinct ids below `n` has at most `n` entries.
pub proof fn lemma_distinct_ids_len(ns: Seq<Neighbor>, n: int)
    requires
        0 <= n,
        distinct_ids(ns),
        forall|k: int| 0 <= k < ns.len() ==> (#[trigger] ns[k]).1 < n,
    ensures
        ns.len() <= n,
{
    let ids = Seq::new(ns.len(), |k: int| ns[k].1 as int);
    assert(ids.no_duplicates()) by {
        assert forall|a: int, b: int| 0 <= a < ids.len() && 0 <= b < ids.len() && a != b implies ids[a]
            != ids[b] by {
            if a < b {
                assert(ns[a].1 != ns[b].1);
            } else {
                assert(ns[b].1 != ns[a].1);
            }
        }
    }
    ids.unique_seq_to_set();
    lemma_int_range(0, n);
    assert(ids.to_set().subset_of(set_int_range(0, n))) by {
        assert forall|x: int| ids.to_set().contains(x) implies set_int_range(0, n).contains(x) by {
            let k = choose|k: int| 0 <= k < ids.len() && ids[k] == x;
            assert(ns[k].1 < n);
        }
    }
    lemma_len_subset(ids.to_set(), set_int_range(0, n));
}

/// The link table with `(a, b, distance)` in place of the entries of the pair
/// `{a, b}`, or added at the end where the pair had none.
pub open spec fn with_link(ls: Seq<Link>, a: usize, b: usize, distance: i64) -> Seq<Link> {
    if exists|q: int| 0 <= q < ls.len() && same_pair(#[trigger] ls[q], (a, b, distance)) {
        Seq::new(
            ls.len(),
            |q: int|
                if same_pair(ls[q], (a, b, distance)) {
                    (a, b, distance)
                } else {
                    ls[q]
                },
        )
    } else {
        ls.push((a, b, distance))
    }
}

/// Sets the travel time of the pair `{a, b}`.
pub fn set_link(links: &mut Vec<Link>, a: usize, b: usize, distance: i64)
    ensures
        final(links)@ == with_link(old(links)@, a, b, distance),
        links_unique(old(links)@) ==> links_unique(final(links)@),
{
    let ghost ls0 = links@;
    let l = (a, b, distance);
    let mut found = false;
    let mut q: usize = 0;
    while q < links.len()
        invariant
            q <= ls0.len(),
            l == (a, b, distance),
            links@.len() == ls0.len(),
            found <==> exists|p: int| 0 <= p < q && same_pair(#[trigger] ls0[p], l),
            forall|p: int|
                0 <= p < ls0.len() ==> #[trigger] links@[p] == if p < q && same_pair(ls0[p], l) {
                    l
                } else {
                    ls0[p]
                },
        decreases ls0.len() - q,
    {
        let m = links[q];
        assert(m == ls0[q as int]);
        if (m.0 == a && m.1 == b) || (m.0 == b && m.1 == a) {
            assert(same_pair(ls0[q as int], l));
            links.set(q, l);
            found = true;
        }
        q = q + 1;
    }
    if !found {
        links.push(l);
    }
    proof {
        assert(links@ =~= with_link(ls0, a, b, distance));
    }
}

/// Position at which `x` goes in the sorted list `ns` that does not hold it.
fn insertion_point(ns: &Vec<Neighbor>, x: Neighbor) -> (p: usize)
    requires
        sorted(ns@),
        !ns@.contains(x),
    ensures
        p <= ns@.len(),
        forall|j: int| 0 <= j < p ==> before(#[trigger] ns@[j], x),
        forall|j: int| p <= j < ns@.len() ==> before(x, #[trigger] ns@[j]),
{
    let mut p: usize = 0;
    while p < ns.len()
        invariant
            p <= ns@.len(),
            sorted(ns@),
            !ns@.contains(x),
            forall|j: int| 0 <= j < p ==> before(#[trigger] ns@[j], x),
        decreases ns@.len() - p,
    {
        let y = ns[p];
        if x.0 < y.0 || (x.0 == y.0 && x.1 < y.1) {
            assert forall|j: int| p <= j < ns@.len() implies before(x, #[trigger] ns@[j]) by {
                if j > p {
                    assert(before(ns@[p as int], ns@[j]));
                }
            }
            return p;
        }
        assert(ns@[p as int] != x);
        p = p + 1;
    }
    p
}

/// The neighbour list of factory `i` under the link table `links`.
pub fn neighbor_list(links: &Vec<Link>, i: usize) -> (r: Vec<Neighbor>)
    requires
        links_unique(links@),
    ensures
        is_neighbor_list(r@, links@, i as int),
        distinct_ids(r@),
{
    let ghost ls = links@;
    let mut r: Vec<Neighbor> = Vec::new();
    let mut k: usize = 0;
    while k < links.len()
        invariant
            k <= ls.len(),
            links@ == ls,
            links_unique(ls),
            sorted(r@),
            distinct_ids(r@),
            forall|x: Neighbor| r@.contains(x) <==> linked(ls.take(k as int), i as int, x),
        decreases ls.len() - k,
    {
        let l = links[k];
        let ghost before_r = r@;
        let ghost mut ins: int = 0;
        assert(forall|x: Neighbor| before_r.contains(x) <==> linked(ls.take(k as int), i as int, x));
        if l.0 == i || l.1 == i {
            let other = if l.0 == i {
                l.1
            } else {
                l.0
            };
            let x: Neighbor = (l.2, other);
            proof {
                if r@.contains(x) {
                    let q = choose|q: int|
                        0 <= q < ls.take(k as int).len() && link_gives(
                            #[trigger] ls.take(k as int)[q],
                            i as int,
                            x,
                        );
                    assert(ls.take(k as int)[q] == ls[q]);
                    assert(same_pair(ls[q], ls[k as int]));
                    assert(false);
                }
            }
            proof {
                assert forall|a: int| 0 <= a < r@.len() implies (#[trigger] r@[a]).1 != other by {
                    if r@[a].1 == other {
                        let y = r@[a];
                        assert(r@.contains(y));
                        let q = choose|q: int|
                            0 <= q < ls.take(k as int).len() && link_gives(
                                #[trigger] ls.take(k as int)[q],
                                i as int,
                                y,
                            );
                        assert(ls.take(k as int)[q] == ls[q]);
                        assert(same_pair(ls[q], ls[k as int]));
                        assert(false);
                    }
                }
            }
            let p = insertion_point(&r, x);
            r.insert(p, x);
            proof {
                ins = p as int;
            }
            proof {
                before_r.insert_ensures(p as int, x);
                assert forall|a: int, b: int| 0 <= a < b < r@.len() implies before(
                    #[trigger] r@[a],
                    #[trigger] r@[b],
                ) by {
                    if b < p {
                    } else if b == p {
                    } else if a < p {
                        assert(r@[b] == before_r[b - 1]);
                    } else if a == p {
                        assert(r@[b] == before_r[b - 1]);
                    } else {
                        assert(r@[a] == before_r[a - 1]);
                        assert(r@[b] == before_r[b - 1]);
                    }
                }
                assert forall|a: int, b: int| 0 <= a < b < r@.len() implies (#[trigger] r@[a]).1
                    != (#[trigger] r@[b]).1 by {
                    if b < p {
                    } else if b == p {
                    } else if a < p {
                        assert(r@[b] == before_r[b - 1]);
                    } else if a == p {
                        assert(r@[b] == before_r[b - 1]);
                    } else {
                        assert(r@[a] == before_r[a - 1]);
                        assert(r@[b] == before_r[b - 1]);
                    }
                }
            }
        }
        proof {
            let tk = ls.take(k as int);
            let tk1 = ls.take(k + 1);
            assert forall|y: Neighbor| r@.contains(y) <==> linked(tk1, i as int, y) by {
                if linked(tk1, i as int, y) {
                    let q = choose|q: int|
                        0 <= q < tk1.len() && link_gives(#[trigger] tk1[q], i as int, y);
                    if q < k {
                        assert(tk[q] == tk1[q]);
                        assert(linked(tk, i as int, y));
                        if l.0 == i || l.1 == i {
                            assert(before_r.contains(y));
                            assert(r@.contains(y)) by {
                                let p = choose|p: int|
                                    0 <= p < before_r.len() && before_r[p] == y;
                                let x: Neighbor = (l.2, if l.0 == i { l.1 } else { l.0 });
                                before_r.insert_ensures(ins, x);
                                if p < ins {
                                    assert(r@[p] == y);
                                } else {
                                    assert(r@[p + 1] == y);
                                }
                            }
                        }
                    } else {
                        assert(tk1[q] == l);
                        let x: Neighbor = (l.2, if l.0 == i { l.1 } else { l.0 });
                        assert(y == x);
                    }
                }
                if r@.contains(y) {
                    let j = choose|j: int| 0 <= j < r@.len() && r@[j] == y;
                    if l.0 == i || l.1 == i {
                        let x: Neighbor = (l.2, if l.0 == i { l.1 } else { l.0 });
                        if y == x {
                            assert(link_gives(tk1[k as int], i as int, y));
                        } else {
                            assert(before_r.contains(y));
                            let q = choose|q: int|
                                0 <= q < tk.len() && link_gives(#[trigger] tk[q], i as int, y);
                            assert(tk1[q] == tk[q]);
                        }
                    } else {
                        let q = choose|q: int|
                            0 <= q < tk.len() && link_gives(#[trigger] tk[q], i as int, y);
                        assert(tk1[q] == tk[q]);
                    }
                }
            }
        }
        k = k + 1;
    }
    proof {
        assert(ls.take(ls.len() as int) =~= ls);
    }
    r
}

} // verus!
