use vstd::prelude::*;

use crate::distance::Neighbor;
use crate::entity::{Factory, Troop, MAX_DISTANCE, MAX_FACTORIES, MAX_ORDERS};
use crate::game::GameState;
use crate::owner::Owner;
use crate::simulation::valid_troop;

verus! {

/// A movement of `size` cyborgs of the player from `source` to `destination`,
/// `distance` ticks away.
pub open spec fn move_order(source: int, destination: int, size: int, distance: int) -> Troop {
    Troop {
        owner: Owner::Player,
        source: source as usize,
        destination: destination as usize,
        size: size as i64,
        ticks: distance as i64,
    }
}

/// The factories once `size` cyborgs of `source` are promised to an order.
pub open spec fn debit(fs: Seq<Factory>, source: int, size: int) -> Seq<Factory> {
    fs.update(source, Factory { uncommitted: (fs[source].uncommitted - size) as i64, ..fs[source] })
}

/// `a` and `b` agree on every field but the uncommitted garrison.
pub open spec fn same_but_uncommitted(a: Factory, b: Factory) -> bool {
    &&& a.id == b.id
    &&& a.owner == b.owner
    &&& a.garrison == b.garrison
    &&& a.production == b.production
}

// ---------------------------------------------------------------- max

/// Factory `m` is the player's factory with the most uncommitted cyborgs,
/// the lowest id among equals.
pub open spec fn is_busiest(fs: Seq<Factory>, m: int) -> bool {
    &&& 0 <= m < fs.len()
    &&& fs[m].owner == Owner::Player
    &&& forall|j: int|
        0 <= j < fs.len() && (#[trigger] fs[j]).owner == Owner::Player ==> fs[j].uncommitted
            <= fs[m].uncommitted
    &&& forall|j: int|
        0 <= j < m && (#[trigger] fs[j]).owner == Owner::Player ==> fs[j].uncommitted
            < fs[m].uncommitted
}

/// A worthwhile target of `max_strategy`: not the player's, and producing.
pub open spec fn open_target(fs: Seq<Factory>, nb: Neighbor) -> bool {
    fs[nb.1 as int].owner != Owner::Player && fs[nb.1 as int].production > 0
}

/// Position of the first worthwhile target in `ns` from position `k` on, or -1.
pub open spec fn open_target_from(fs: Seq<Factory>, ns: Seq<Neighbor>, k: int) -> int
    decreases ns.len() - k,
{
    if k < 0 || k >= ns.len() {
        -1
    } else if open_target(fs, ns[k]) {
        k
    } else {
        open_target_from(fs, ns, k + 1)
    }
}

/// Factories and orders after `max_strategy`: the busiest factory sends all
/// its uncommitted cyborgs to the nearest worthwhile target.
pub open spec fn max_result(fs: Seq<Factory>, nbs: Seq<Vec<Neighbor>>, os: Seq<Troop>) -> (
    Seq<Factory>,
    Seq<Troop>,
) {
    if exists|m: int| is_busiest(fs, m) {
        let m = choose|m: int| is_busiest(fs, m);
        let u = fs[m].uncommitted as int;
        let ns = nbs[m]@;
        let k = open_target_from(fs, ns, 0);
        if u > 0 && k >= 0 {
            (debit(fs, m, u), os.push(move_order(m, ns[k].1 as int, u, ns[k].0 as int)))
        } else {
            (fs, os)
        }
    } else {
        (fs, os)
    }
}

proof fn lemma_busiest_unique(fs: Seq<Factory>, m: int)
    requires
        is_busiest(fs, m),
    ensures
        (exists|x: int| is_busiest(fs, x)),
        (choose|x: int| is_busiest(fs, x)) == m,
{
    let x = choose|x: int| is_busiest(fs, x);
    assert(fs[x].uncommitted <= fs[m].uncommitted);
    assert(fs[m].uncommitted <= fs[x].uncommitted);
    if x < m {
        assert(fs[x].uncommitted < fs[m].uncommitted);
    }
    if m < x {
        assert(fs[m].uncommitted < fs[x].uncommitted);
    }
}

// ---------------------------------------------------------------- neutral first

/// Scanning the neighbour list `ns` of a neutral factory from position `k`,
/// an enemy factory comes before factory `i`.
pub open spec fn contested_from(fs: Seq<Factory>, ns: Seq<Neighbor>, i: int, k: int) -> bool
    decreases ns.len() - k,
{
    if k < 0 || k >= ns.len() {
        false
    } else if ns[k].1 == i {
        false
    } else if fs[ns[k].1 as int].owner == Owner::Enemy {
        true
    } else {
        contested_from(fs, ns, i, k + 1)
    }
}

/// Factory `i`, with `u` cyborgs uncommitted, can take the neighbour `nb`:
/// a producing neutral factory whose garrison it outnumbers, with no enemy
/// factory closer to it than `i`.
pub open spec fn claimable(
    fs: Seq<Factory>,
    nbs: Seq<Vec<Neighbor>>,
    i: int,
    nb: Neighbor,
    u: int,
) -> bool {
    let t = fs[nb.1 as int];
    &&& t.production > 0
    &&& t.owner == Owner::Neutral
    &&& t.garrison < u
    &&& !contested_from(fs, nbs[nb.1 as int]@, i, 0)
}

/// The orders by which factory `i`, with `u` cyborgs uncommitted, claims
/// neutral neighbours, its neighbour list scanned from position `k`.
pub open spec fn claims_from(fs: Seq<Factory>, nbs: Seq<Vec<Neighbor>>, i: int, k: int, u: int) -> Seq<
    Troop,
>
    decreases nbs[i]@.len() - k,
{
    let ns = nbs[i]@;
    if k < 0 || k >= ns.len() {
        Seq::empty()
    } else if claimable(fs, nbs, i, ns[k], u) {
        let cost = fs[ns[k].1 as int].garrison + 1;
        seq![move_order(i, ns[k].1 as int, cost, ns[k].0 as int)] + claims_from(
            fs,
            nbs,
            i,
            k + 1,
            u - cost,
        )
    } else {
        claims_from(fs, nbs, i, k + 1, u)
    }
}

/// What remains uncommitted of `u` after the claims of `claims_from`.
pub open spec fn left_from(fs: Seq<Factory>, nbs: Seq<Vec<Neighbor>>, i: int, k: int, u: int) -> int
    decreases nbs[i]@.len() - k,
{
    let ns = nbs[i]@;
    if k < 0 || k >= ns.len() {
        u
    } else if claimable(fs, nbs, i, ns[k], u) {
        left_from(fs, nbs, i, k + 1, u - (fs[ns[k].1 as int].garrison + 1))
    } else {
        left_from(fs, nbs, i, k + 1, u)
    }
}

/// The claims of the player's factories `i, i + 1, ...`, in that order.
pub open spec fn neutral_orders_from(fs: Seq<Factory>, nbs: Seq<Vec<Neighbor>>, i: int) -> Seq<Troop>
    decreases fs.len() - i,
{
    if i < 0 || i >= fs.len() {
        Seq::empty()
    } else {
        let own = if fs[i].owner == Owner::Player {
            claims_from(fs, nbs, i, 0, fs[i].uncommitted as int)
        } else {
            Seq::empty()
        };
        own + neutral_orders_from(fs, nbs, i + 1)
    }
}

/// Factory `i` once its claims are paid.
pub open spec fn after_claims(fs: Seq<Factory>, nbs: Seq<Vec<Neighbor>>, i: int) -> Factory {
    if fs[i].owner == Owner::Player {
        Factory { uncommitted: left_from(fs, nbs, i, 0, fs[i].uncommitted as int) as i64, ..fs[i] }
    } else {
        fs[i]
    }
}

/// Factories and orders after `neutral_first_strategy`.
pub open spec fn neutral_first_result(
    fs: Seq<Factory>,
    nbs: Seq<Vec<Neighbor>>,
    os: Seq<Troop>,
) -> (Seq<Factory>, Seq<Troop>) {
    let c = neutral_orders_from(fs, nbs, 0);
    if c.len() > 0 {
        (Seq::new(fs.len(), |i: int| after_claims(fs, nbs, i)), os + c)
    } else {
        max_result(fs, nbs, os)
    }
}

// ---------------------------------------------------------------- swarm

/// The one-cyborg orders from factory `i` to each neighbour in `ns` that
/// the player does not hold, from position `k` on.
pub open spec fn harass_from(fs: Seq<Factory>, ns: Seq<Neighbor>, i: int, k: int) -> Seq<Troop>
    decreases ns.len() - k,
{
    if k < 0 || k >= ns.len() {
        Seq::empty()
    } else {
        let own = if fs[ns[k].1 as int].owner != Owner::Player {
            seq![move_order(i, ns[k].1 as int, 1, ns[k].0 as int)]
        } else {
            Seq::empty()
        };
        own + harass_from(fs, ns, i, k + 1)
    }
}

/// The orders of `swarm_strategy` from factories `i, i + 1, ...`: each of the
/// player's factories whose garrison exceeds the number of factories sends
/// one cyborg to every neighbour that the player does not hold.
pub open spec fn swarm_from(fs: Seq<Factory>, nbs: Seq<Vec<Neighbor>>, i: int) -> Seq<Troop>
    decreases fs.len() - i,
{
    if i < 0 || i >= fs.len() {
        Seq::empty()
    } else {
        let own = if fs[i].owner == Owner::Player && fs[i].garrison > fs.len() {
            harass_from(fs, nbs[i]@, i, 0)
        } else {
            Seq::empty()
        };
        own + swarm_from(fs, nbs, i + 1)
    }
}

proof fn lemma_no_claims_from(fs: Seq<Factory>, nbs: Seq<Vec<Neighbor>>, i: int, k: int, u: int)
    requires
        claims_from(fs, nbs, i, k, u).len() == 0,
    ensures
        left_from(fs, nbs, i, k, u) == u,
    decreases nbs[i]@.len() - k,
{
    let ns = nbs[i]@;
    if 0 <= k < ns.len() && !claimable(fs, nbs, i, ns[k], u) {
        lemma_no_claims_from(fs, nbs, i, k + 1, u);
    }
}

proof fn lemma_no_claims_upto(fs: Seq<Factory>, nbs: Seq<Vec<Neighbor>>, i: int, j: int)
    requires
        0 <= i <= j < fs.len(),
        neutral_orders_from(fs, nbs, i).len() == 0,
        fs[j].owner == Owner::Player,
    ensures
        claims_from(fs, nbs, j, 0, fs[j].uncommitted as int).len() == 0,
    decreases j - i,
{
    if i < j {
        lemma_no_claims_upto(fs, nbs, i + 1, j);
    }
}

/// Where no factory claims anything, no uncommitted garrison changes.
proof fn lemma_no_claims_left(fs: Seq<Factory>, nbs: Seq<Vec<Neighbor>>, j: int)
    requires
        0 <= j < fs.len(),
        neutral_orders_from(fs, nbs, 0).len() == 0,
    ensures
        after_claims(fs, nbs, j) == fs[j],
{
    if fs[j].owner == Owner::Player {
        lemma_no_claims_upto(fs, nbs, 0, j);
        lemma_no_claims_from(fs, nbs, j, 0, fs[j].uncommitted as int);
    }
}

impl GameState {
    /// Queues a movement of `size` uncommitted cyborgs from `source` to the
    /// neighbour `nb`.
    pub(crate) fn commit_move(&mut self, source: usize, nb: Neighbor, size: i64)
        requires
            old(self).wf(),
            old(self).orders@.len() < MAX_ORDERS,
            source < old(self).factories@.len(),
            nb.1 < old(self).factories@.len(),
            1 <= nb.0 <= MAX_DISTANCE,
            1 <= size <= old(self).factories@[source as int].uncommitted,
        ensures
            final(self).wf(),
            final(self).factories@ == debit(old(self).factories@, source as int, size as int),
            final(self).orders@ == old(self).orders@.push(
                move_order(source as int, nb.1 as int, size as int, nb.0 as int),
            ),
            final(self).links == old(self).links,
            final(self).neighbors == old(self).neighbors,
            final(self).troops == old(self).troops,
            final(self).commands == old(self).commands,
            final(self).bomb_count == old(self).bomb_count,
            final(self).bomb_last == old(self).bomb_last,
    {
        let f = self.factories[source];
        self.factories.set(source, Factory { uncommitted: f.uncommitted - size, ..f });
        self.orders.push(
            Troop { owner: Owner::Player, source, destination: nb.1, size, ticks: nb.0 },
        );
        proof {
            let n = self.factories@.len() as int;
            assert forall|k: int| 0 <= k < self.orders@.len() implies valid_troop(
                #[trigger] self.orders@[k],
                n,
            ) by {
                if k < old(self).orders@.len() {
                    assert(self.orders@[k] == old(self).orders@[k]);
                }
            }
        }
    }

    /// The player's factory with the most uncommitted cyborgs, lowest id first.
    fn busiest_factory(&self) -> (r: Option<usize>)
        requires
            self.wf(),
        ensures
            r.is_none() ==> !exists|m: int| is_busiest(self.factories@, m),
            r.is_some() ==> is_busiest(self.factories@, r.unwrap() as int),
    {
        let ghost fs = self.factories@;
        let n = self.factories.len();
        let mut best: Option<usize> = None;
        let mut i: usize = 0;
        while i < n
            invariant
                i <= n,
                n == fs.len(),
                self.factories@ == fs,
                best.is_none() ==> forall|j: int|
                    0 <= j < i ==> (#[trigger] fs[j]).owner != Owner::Player,
                best.is_some() ==> {
                    let m = best.unwrap() as int;
                    &&& m < i
                    &&& fs[m].owner == Owner::Player
                    &&& forall|j: int|
                        0 <= j < i && (#[trigger] fs[j]).owner == Owner::Player
                            ==> fs[j].uncommitted <= fs[m].uncommitted
                    &&& forall|j: int|
                        0 <= j < m && (#[trigger] fs[j]).owner == Owner::Player
                            ==> fs[j].uncommitted < fs[m].uncommitted
                },
            decreases n - i,
        {
            let f = self.factories[i];
            if f.owner == Owner::Player {
                match best {
                    None => {
                        best = Some(i);
                    },
                    Some(m) => {
                        if f.uncommitted > self.factories[m].uncommitted {
                            best = Some(i);
                        }
                    },
                }
            }
            i = i + 1;
        }
        if best.is_none() {
            proof {
                assert forall|m: int| !is_busiest(fs, m) by {
                    if 0 <= m < fs.len() {
                        assert(fs[m].owner != Owner::Player);
                    }
                }
            }
        }
        best
    }

    /// The busiest of the player's factories sends all its uncommitted
    /// cyborgs to the nearest factory that the player does not hold and that
    /// produces.
    pub fn max_strategy(&mut self)
        requires
            old(self).wf(),
            old(self).orders@.len() < MAX_ORDERS,
        ensures
            final(self).wf(),
            (final(self).factories@, final(self).orders@) == max_result(
                old(self).factories@,
                old(self).neighbors@,
                old(self).orders@,
            ),
            final(self).links == old(self).links,
            final(self).neighbors == old(self).neighbors,
            final(self).troops == old(self).troops,
            final(self).commands == old(self).commands,
            final(self).bomb_count == old(self).bomb_count,
            final(self).bomb_last == old(self).bomb_last,
    {
        let ghost fs = self.factories@;
        let ghost nbs = self.neighbors@;
        let best = self.busiest_factory();
        match best {
            None => {},
            Some(m) => {
                proof {
                    lemma_busiest_unique(fs, m as int);
                }
                let u = self.factories[m].uncommitted;
                if u > 0 {
                    let ghost ns = nbs[m as int]@;
                    let len = self.neighbors[m].len();
                    let mut k: usize = 0;
                    while k < len
                        invariant
                            self.wf(),
                            self.factories@ == fs,
                            self.orders@ == old(self).orders@,
                            self.orders@.len() < MAX_ORDERS,
                            self.links == old(self).links,
                            self.neighbors == old(self).neighbors,
                            self.troops == old(self).troops,
                            self.commands == old(self).commands,
                            self.bomb_count == old(self).bomb_count,
                            self.bomb_last == old(self).bomb_last,
                            m < fs.len(),
                            fs == old(self).factories@,
                            nbs == old(self).neighbors@,
                            exists|x: int| is_busiest(fs, x),
                            (choose|x: int| is_busiest(fs, x)) == m as int,
                            u == fs[m as int].uncommitted,
                            u > 0,
                            self.neighbors@ == nbs,
                            m < fs.len(),
                            len == ns.len(),
                            ns == nbs[m as int]@,
                            k <= len,
                            open_target_from(fs, ns, 0) == open_target_from(fs, ns, k as int),
                        decreases len - k,
                    {
                        let nb = self.neighbors[m][k];
                        proof {
                            assert(nb == self.neighbors@[m as int]@[k as int]);
                        }
                        let t = self.factories[nb.1];
                        if t.owner != Owner::Player && t.production > 0 {
                            proof {
                                assert(open_target_from(fs, ns, k as int) == k as int);
                                assert(ns[k as int] == nb);
                            }
                            self.commit_move(m, nb, u);
                            return ;
                        }
                        k = k + 1;
                    }
                }
            },
        }
    }

    /// Each of the player's factories, in id order, takes the producing
    /// neutral neighbours that it outnumbers and that no enemy factory is
    /// closer to, nearest first, sending one cyborg more than each garrison.
    /// Where no factory can, `max_strategy` decides instead.
    pub fn neutral_first_strategy(&mut self)
        requires
            old(self).wf(),
            old(self).orders@.len() + MAX_FACTORIES * MAX_FACTORIES < MAX_ORDERS,
        ensures
            final(self).wf(),
            (final(self).factories@, final(self).orders@) == neutral_first_result(
                old(self).factories@,
                old(self).neighbors@,
                old(self).orders@,
            ),
            final(self).links == old(self).links,
            final(self).neighbors == old(self).neighbors,
            final(self).troops == old(self).troops,
            final(self).commands == old(self).commands,
            final(self).bomb_count == old(self).bomb_count,
            final(self).bomb_last == old(self).bomb_last,
    {
        let ghost fs = self.factories@;
        let ghost nbs = self.neighbors@;
        let ghost os = self.orders@;
        let start = self.orders.len();
        let n = self.factories.len();
        let mut i: usize = 0;
        while i < n
            invariant
                self.wf(),
                n == fs.len(),
                i <= n,
                n <= MAX_FACTORIES,
                os.len() + MAX_FACTORIES * MAX_FACTORIES < MAX_ORDERS,
                self.neighbors@ == nbs,
                self.neighbors == old(self).neighbors,
                self.links == old(self).links,
                self.troops == old(self).troops,
                self.commands == old(self).commands,
                self.bomb_count == old(self).bomb_count,
                self.bomb_last == old(self).bomb_last,
                self.factories@.len() == n,
                self.orders@.len() <= os.len() + i * MAX_FACTORIES,
                self.orders@ + neutral_orders_from(fs, nbs, i as int) == os + neutral_orders_from(
                    fs,
                    nbs,
                    0,
                ),
                forall|j: int|
                    0 <= j < n ==> same_but_uncommitted(#[trigger] self.factories@[j], fs[j]),
                forall|j: int| 0 <= j < i ==> #[trigger] self.factories@[j] == after_claims(fs, nbs, j),
                forall|j: int| i <= j < n ==> #[trigger] self.factories@[j] == fs[j],
            decreases n - i,
        {
            let ghost old_orders = self.orders@;
            proof {
                assert(i * MAX_FACTORIES + MAX_FACTORIES <= MAX_FACTORIES * MAX_FACTORIES)
                    by (nonlinear_arith)
                    requires
                        i < MAX_FACTORIES,
                ;
                assert(self.factories@[i as int] == fs[i as int]);
            }
            self.claim_neutrals(i, Ghost(fs));
            proof {
                assert(self.orders@ + neutral_orders_from(fs, nbs, i + 1) =~= old_orders
                    + neutral_orders_from(fs, nbs, i as int));
            }
            i = i + 1;
        }
        proof {
            assert(neutral_orders_from(fs, nbs, n as int) =~= Seq::<Troop>::empty());
            assert(self.orders@ =~= os + neutral_orders_from(fs, nbs, 0));
        }
        if self.orders.len() == start {
            proof {
                assert(neutral_orders_from(fs, nbs, 0).len() == 0);
                assert forall|j: int| 0 <= j < n implies #[trigger] self.factories@[j] == fs[j] by {
                    assert(same_but_uncommitted(self.factories@[j], fs[j]));
                    lemma_no_claims_left(fs, nbs, j);
                }
                assert(self.factories@ =~= fs);
                assert(self.orders@ =~= os);
            }
            self.max_strategy();
        } else {
            proof {
                assert(self.factories@ =~= Seq::new(fs.len(), |j: int| after_claims(fs, nbs, j)));
            }
        }
    }

    /// Scanning the neighbour list of the neutral factory `j`, an enemy
    /// factory comes before factory `i`.
    fn contested(&self, j: usize, i: usize, Ghost(fs): Ghost<Seq<Factory>>) -> (r: bool)
        requires
            self.wf(),
            j < self.factories@.len(),
            fs.len() == self.factories@.len(),
            forall|q: int|
                0 <= q < fs.len() ==> (#[trigger] self.factories@[q]).owner == fs[q].owner,
        ensures
            r == contested_from(fs, self.neighbors@[j as int]@, i as int, 0),
    {
        let ghost ns = self.neighbors@[j as int]@;
        let len = self.neighbors[j].len();
        let mut k: usize = 0;
        while k < len
            invariant
                self.wf(),
                j < self.factories@.len(),
                fs.len() == self.factories@.len(),
                forall|q: int|
                    0 <= q < fs.len() ==> (#[trigger] self.factories@[q]).owner == fs[q].owner,
                ns == self.neighbors@[j as int]@,
                len == ns.len(),
                k <= len,
                contested_from(fs, ns, i as int, 0) == contested_from(fs, ns, i as int, k as int),
            decreases len - k,
        {
            let nb = self.neighbors[j][k];
            proof {
                assert(nb == self.neighbors@[j as int]@[k as int]);
            }
            if nb.1 == i {
                return false;
            }
            if self.factories[nb.1].owner == Owner::Enemy {
                return true;
            }
            k = k + 1;
        }
        false
    }

    /// Factory `i` claims its neutral neighbours (see `claims_from`).
    fn claim_neutrals(&mut self, i: usize, Ghost(fs): Ghost<Seq<Factory>>)
        requires
            old(self).wf(),
            i < fs.len(),
            fs.len() == old(self).factories@.len(),
            forall|j: int|
                0 <= j < fs.len() ==> same_but_uncommitted(#[trigger] old(self).factories@[j], fs[j]),
            old(self).factories@[i as int] == fs[i as int],
            old(self).orders@.len() + MAX_FACTORIES < MAX_ORDERS,
        ensures
            final(self).wf(),
            final(self).orders@ == old(self).orders@ + if fs[i as int].owner == Owner::Player {
                claims_from(fs, old(self).neighbors@, i as int, 0, fs[i as int].uncommitted as int)
            } else {
                Seq::empty()
            },
            final(self).orders@.len() <= old(self).orders@.len() + MAX_FACTORIES,
            final(self).factories@ == old(self).factories@.update(
                i as int,
                after_claims(fs, old(self).neighbors@, i as int),
            ),
            final(self).links == old(self).links,
            final(self).neighbors == old(self).neighbors,
            final(self).troops == old(self).troops,
            final(self).commands == old(self).commands,
            final(self).bomb_count == old(self).bomb_count,
            final(self).bomb_last == old(self).bomb_last,
    {
        let ghost nbs = self.neighbors@;
        let ghost fs1 = self.factories@;
        let ghost os1 = self.orders@;
        if self.factories[i].owner != Owner::Player {
            proof {
                assert(self.orders@ =~= os1 + Seq::<Troop>::empty());
                assert(self.factories@ =~= fs1.update(i as int, after_claims(fs, nbs, i as int)));
            }
            return ;
        }
        let ghost u0 = fs[i as int].uncommitted as int;
        let ghost ns = nbs[i as int]@;
        let len = self.neighbors[i].len();
        proof {
            assert(self.neighbors@[i as int]@.len() <= MAX_FACTORIES);
        }
        let mut u = self.factories[i].uncommitted;
        let mut k: usize = 0;
        while k < len
            invariant
                self.wf(),
                i < fs.len(),
                fs.len() == fs1.len(),
                self.factories@.len() == fs1.len(),
                fs[i as int].owner == Owner::Player,
                u0 == fs[i as int].uncommitted,
                forall|j: int| 0 <= j < fs.len() ==> same_but_uncommitted(#[trigger] fs1[j], fs[j]),
                self.factories@ == fs1.update(i as int, Factory { uncommitted: u, ..fs[i as int] }),
                self.neighbors@ == nbs,
                self.neighbors == old(self).neighbors,
                ns == nbs[i as int]@,
                len == ns.len(),
                len <= MAX_FACTORIES,
                k <= len,
                os1.len() + MAX_FACTORIES < MAX_ORDERS,
                self.orders@.len() <= os1.len() + k,
                self.orders@ + claims_from(fs, nbs, i as int, k as int, u as int) == os1
                    + claims_from(fs, nbs, i as int, 0, u0),
                left_from(fs, nbs, i as int, k as int, u as int) == left_from(
                    fs,
                    nbs,
                    i as int,
                    0,
                    u0,
                ),
                self.links == old(self).links,
                self.troops == old(self).troops,
                self.commands == old(self).commands,
                self.bomb_count == old(self).bomb_count,
                self.bomb_last == old(self).bomb_last,
            decreases len - k,
        {
            let nb = self.neighbors[i][k];
            proof {
                assert(nb == self.neighbors@[i as int]@[k as int]);
                assert(same_but_uncommitted(fs1[nb.1 as int], fs[nb.1 as int]));
            }
            let t = self.factories[nb.1];
            let ghost before = self.orders@;
            if t.production > 0 && t.owner == Owner::Neutral && t.garrison < u {
                proof {
                    assert forall|q: int| 0 <= q < fs.len() implies (
                    #[trigger] self.factories@[q]).owner == fs[q].owner by {
                        assert(same_but_uncommitted(fs1[q], fs[q]));
                    }
                }
                if !self.contested(nb.1, i, Ghost(fs)) {
                    let cost = t.garrison + 1;
                    self.commit_move(i, nb, cost);
                    u = u - cost;
                    proof {
                        assert(self.factories@ =~= fs1.update(
                            i as int,
                            Factory { uncommitted: u, ..fs[i as int] },
                        ));
                        assert(self.orders@ + claims_from(fs, nbs, i as int, k + 1, u as int)
                            =~= before + claims_from(fs, nbs, i as int, k as int, (u + cost) as int));
                    }
                }
            }
            k = k + 1;
        }
        proof {
            assert(self.orders@ =~= os1 + claims_from(fs, nbs, i as int, 0, u0));
            assert(self.factories@ =~= fs1.update(i as int, after_claims(fs, nbs, i as int)));
        }
    }

    /// Every factory of the player whose garrison exceeds the number of
    /// factories sends one cyborg to each neighbour that the player does not
    /// hold.
    pub fn swarm_strategy(&mut self)
        requires
            old(self).wf(),
            old(self).orders@.len() + MAX_FACTORIES * MAX_FACTORIES < MAX_ORDERS,
        ensures
            final(self).wf(),
            final(self).orders@ == old(self).orders@ + swarm_from(
                old(self).factories@,
                old(self).neighbors@,
                0,
            ),
            final(self).factories == old(self).factories,
            final(self).links == old(self).links,
            final(self).neighbors == old(self).neighbors,
            final(self).troops == old(self).troops,
            final(self).commands == old(self).commands,
            final(self).bomb_count == old(self).bomb_count,
            final(self).bomb_last == old(self).bomb_last,
    {
        let ghost fs = self.factories@;
        let ghost nbs = self.neighbors@;
        let ghost os = self.orders@;
        let n = self.factories.len();
        let mut i: usize = 0;
        while i < n
            invariant
                self.wf(),
                i <= n,
                n == fs.len(),
                n <= MAX_FACTORIES,
                fs == self.factories@,
                nbs == self.neighbors@,
                os.len() + MAX_FACTORIES * MAX_FACTORIES < MAX_ORDERS,
                self.orders@.len() <= os.len() + i * MAX_FACTORIES,
                self.orders@ + swarm_from(fs, nbs, i as int) == os + swarm_from(fs, nbs, 0),
                self.factories == old(self).factories,
                self.links == old(self).links,
                self.neighbors == old(self).neighbors,
                self.troops == old(self).troops,
                self.commands == old(self).commands,
                self.bomb_count == old(self).bomb_count,
                self.bomb_last == old(self).bomb_last,
            decreases n - i,
        {
            let ghost at_start = self.orders@;
            proof {
                assert(i * MAX_FACTORIES + MAX_FACTORIES <= MAX_FACTORIES * MAX_FACTORIES)
                    by (nonlinear_arith)
                    requires
                        i < MAX_FACTORIES,
                ;
            }
            let f = self.factories[i];
            if f.owner == Owner::Player && f.garrison > n as i64 {
                let ghost ns = nbs[i as int]@;
                let len = self.neighbors[i].len();
                proof {
                    assert(self.neighbors@[i as int]@.len() <= MAX_FACTORIES);
                }
                let mut k: usize = 0;
                while k < len
                    invariant
                        self.wf(),
                        i < n,
                        n == fs.len(),
                        fs == self.factories@,
                        nbs == self.neighbors@,
                        ns == nbs[i as int]@,
                        len == ns.len(),
                        len <= MAX_FACTORIES,
                        k <= len,
                        at_start.len() + MAX_FACTORIES < MAX_ORDERS,
                        self.orders@.len() <= at_start.len() + k,
                        self.orders@ + harass_from(fs, ns, i as int, k as int) == at_start
                            + harass_from(fs, ns, i as int, 0),
                        self.factories == old(self).factories,
                        self.links == old(self).links,
                        self.neighbors == old(self).neighbors,
                        self.troops == old(self).troops,
                        self.commands == old(self).commands,
                        self.bomb_count == old(self).bomb_count,
                        self.bomb_last == old(self).bomb_last,
                    decreases len - k,
                {
                    let nb = self.neighbors[i][k];
                    proof {
                        assert(nb == self.neighbors@[i as int]@[k as int]);
                    }
                    let ghost before = self.orders@;
                    if self.factories[nb.1].owner != Owner::Player {
                        self.orders.push(
                            Troop {
                                owner: Owner::Player,
                                source: i,
                                destination: nb.1,
                                size: 1,
                                ticks: nb.0,
                            },
                        );
                        proof {
                            assert forall|q: int| 0 <= q < self.orders@.len() implies valid_troop(
                                #[trigger] self.orders@[q],
                                n as int,
                            ) by {
                                if q < before.len() {
                                    assert(self.orders@[q] == before[q]);
                                }
                            }
                        }
                    }
                    proof {
                        assert(self.orders@ + harass_from(fs, ns, i as int, k + 1) =~= before
                            + harass_from(fs, ns, i as int, k as int));
                    }
                    k = k + 1;
                }
                proof {
                    assert(harass_from(fs, ns, i as int, len as int) =~= Seq::<Troop>::empty());
                    assert(self.orders@ + swarm_from(fs, nbs, i + 1) =~= at_start + swarm_from(
                        fs,
                        nbs,
                        i as int,
                    ));
                }
            } else {
                proof {
                    assert(self.orders@ + swarm_from(fs, nbs, i + 1) =~= at_start + swarm_from(
                        fs,
                        nbs,
                        i as int,
                    ));
                }
            }
            i = i + 1;
        }
        proof {
            assert(swarm_from(fs, nbs, n as int) =~= Seq::<Troop>::empty());
            assert(self.orders@ =~= os + swarm_from(fs, nbs, 0));
        }
    }
}

} // verus!
