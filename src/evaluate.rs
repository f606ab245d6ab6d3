use vstd::prelude::*;

use crate::entity::{Factory, Troop, MAX_FACTORIES, MAX_IN_FLIGHT, MAX_UNITS};
use crate::game::GameState;
use crate::owner::Owner;
use crate::simulation::{sim_limits, total, valid_troop, SIM_CAP};

verus! {

/// Weight of a unit of production against a cyborg.
pub const PRODUCTION_WEIGHT: i64 = 10;

/// The garrison counted positive for the player, negative for the enemy,
/// not at all for the neutral side.
pub open spec fn signed_garrison(f: Factory) -> int {
    if f.owner == Owner::Player {
        f.garrison as int
    } else if f.owner == Owner::Enemy {
        -f.garrison
    } else {
        0
    }
}

/// Garrison and weighted production, signed by the owner.
pub open spec fn factory_score(f: Factory) -> int {
    if f.owner == Owner::Player {
        f.garrison + PRODUCTION_WEIGHT * f.production
    } else if f.owner == Owner::Enemy {
        -(f.garrison + PRODUCTION_WEIGHT * f.production)
    } else {
        0
    }
}

/// A troop on its way to factory `i`, signed by its owner.
pub open spec fn heading_term(i: int) -> spec_fn(Troop) -> int {
    |t: Troop|
        if t.destination == i {
            t.signed_size()
        } else {
            0
        }
}

pub open spec fn signed_term() -> spec_fn(Troop) -> int {
    |t: Troop| t.signed_size()
}

/// The side that the garrison of factory `i` and every troop on its way
/// there favour, whatever the order of arrival, gains its weighted
/// production.
pub open spec fn capture_bonus(f: Factory, i: int, ts: Seq<Troop>) -> int {
    let net = signed_garrison(f) + total(ts, heading_term(i));
    if net > 0 {
        PRODUCTION_WEIGHT * f.production
    } else if net < 0 {
        -(PRODUCTION_WEIGHT * f.production)
    } else {
        0
    }
}

/// The factory part of the score, over factories `0 .. k`.
pub open spec fn factories_score(fs: Seq<Factory>, ts: Seq<Troop>, k: int) -> int
    decreases k,
{
    if k <= 0 {
        0
    } else {
        factories_score(fs, ts, k - 1) + factory_score(fs[k - 1]) + capture_bonus(fs[k - 1], k - 1, ts)
    }
}

/// The heuristic value of a world for the player.
pub open spec fn score(fs: Seq<Factory>, ts: Seq<Troop>) -> int {
    factories_score(fs, ts, fs.len() as int) + total(ts, signed_term())
}

/// Largest part that one factory adds to the score: `SIM_CAP + 20 * MAX_UNITS`.
pub const FACTORY_BOUND: i64 = 1125899927814144;

proof fn lemma_factories_score_bound(fs: Seq<Factory>, ts: Seq<Troop>, k: int)
    requires
        0 <= k <= fs.len(),
        forall|i: int|
            0 <= i < fs.len() ==> -SIM_CAP <= (#[trigger] fs[i]).garrison <= SIM_CAP && 0
                <= fs[i].production <= MAX_UNITS,
    ensures
        -(k * FACTORY_BOUND) <= factories_score(fs, ts, k) <= k * FACTORY_BOUND,
    decreases k,
{
    if k > 0 {
        lemma_factories_score_bound(fs, ts, k - 1);
        assert(k * FACTORY_BOUND == (k - 1) * FACTORY_BOUND + FACTORY_BOUND) by (nonlinear_arith);
        let f = fs[k - 1];
        assert(-FACTORY_BOUND <= factory_score(f) + capture_bonus(f, k - 1, ts)
            <= FACTORY_BOUND);
    }
}

impl GameState {
    /// The troops on their way to factory `i`, signed by owner.
    fn heading_to(&self, i: usize) -> (r: i64)
        requires
            sim_limits(self.factories@, self.troops@, self.orders@, SIM_CAP as int),
        ensures
            r == total(self.troops@, heading_term(i as int)),
            -(MAX_IN_FLIGHT * MAX_UNITS) <= r <= MAX_IN_FLIGHT * MAX_UNITS,
    {
        let ghost ts = self.troops@;
        let ghost n = self.factories@.len() as int;
        let mut sum: i64 = 0;
        let mut k: usize = 0;
        while k < self.troops.len()
            invariant
                ts == self.troops@,
                ts.len() <= MAX_IN_FLIGHT,
                forall|j: int| 0 <= j < ts.len() ==> valid_troop(#[trigger] ts[j], n),
                k <= ts.len(),
                sum == total(ts.take(k as int), heading_term(i as int)),
                -(k * MAX_UNITS) <= sum <= k * MAX_UNITS,
            decreases ts.len() - k,
        {
            let t = self.troops[k];
            proof {
                assert(ts.take(k + 1).drop_last() =~= ts.take(k as int));
                assert(valid_troop(ts[k as int], n));
            }
            if t.destination == i {
                if t.owner == Owner::Player {
                    sum = sum + t.size;
                } else if t.owner == Owner::Enemy {
                    sum = sum - t.size;
                }
            }
            k = k + 1;
        }
        proof {
            assert(ts.take(ts.len() as int) =~= ts);
        }
        sum
    }

    /// The heuristic value of this world for the player: the signed
    /// garrisons and weighted productions, the signed troops in flight, and
    /// for each factory the weighted production of the side that the troops
    /// heading there favour.
    pub fn evaluate(&self) -> (r: i64)
        requires
            sim_limits(self.factories@, self.troops@, self.orders@, SIM_CAP as int),
        ensures
            r == score(self.factories@, self.troops@),
    {
        let ghost fs = self.factories@;
        let ghost ts = self.troops@;
        let n = self.factories.len();
        let mut acc: i64 = 0;
        let mut i: usize = 0;
        while i < n
            invariant
                fs == self.factories@,
                ts == self.troops@,
                sim_limits(fs, ts, self.orders@, SIM_CAP as int),
                n == fs.len(),
                n <= MAX_FACTORIES,
                i <= n,
                acc == factories_score(fs, ts, i as int),
                -(i * FACTORY_BOUND) <= acc <= i * FACTORY_BOUND,
            decreases n - i,
        {
            let f = self.factories[i];
            let net_troops = self.heading_to(i);
            let g = if f.owner == Owner::Player {
                f.garrison
            } else if f.owner == Owner::Enemy {
                -f.garrison
            } else {
                0
            };
            let weighted = PRODUCTION_WEIGHT * f.production;
            let own = if f.owner == Owner::Player {
                f.garrison + weighted
            } else if f.owner == Owner::Enemy {
                -(f.garrison + weighted)
            } else {
                0
            };
            let net = g + net_troops;
            let bonus = if net > 0 {
                weighted
            } else if net < 0 {
                -weighted
            } else {
                0
            };
            proof {
                lemma_factories_score_bound(fs, ts, i + 1);
                assert((i + 1) * FACTORY_BOUND <= MAX_FACTORIES * FACTORY_BOUND) by (nonlinear_arith)
                    requires
                        i < MAX_FACTORIES,
                ;
            }
            acc = acc + own + bonus;
            i = i + 1;
        }
        let mut k: usize = 0;
        while k < self.troops.len()
            invariant
                fs == self.factories@,
                ts == self.troops@,
                sim_limits(fs, ts, self.orders@, SIM_CAP as int),
                k <= ts.len(),
                acc == factories_score(fs, ts, n as int) + total(ts.take(k as int), signed_term()),
                -(n * FACTORY_BOUND) - k * MAX_UNITS <= acc <= n * FACTORY_BOUND + k
                    * MAX_UNITS,
                n == fs.len(),
            decreases ts.len() - k,
        {
            let t = self.troops[k];
            proof {
                assert(ts.take(k + 1).drop_last() =~= ts.take(k as int));
                assert(valid_troop(ts[k as int], n as int));
                assert(n * FACTORY_BOUND <= MAX_FACTORIES * FACTORY_BOUND) by (nonlinear_arith)
                    requires
                        n <= MAX_FACTORIES,
                ;
            }
            if t.owner == Owner::Player {
                acc = acc + t.size;
            } else if t.owner == Owner::Enemy {
                acc = acc - t.size;
            }
            k = k + 1;
        }
        proof {
            assert(ts.take(ts.len() as int) =~= ts);
        }
        acc
    }
}

} // verus!
