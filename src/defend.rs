use vstd::prelude::*;

use crate::distance::Neighbor;
use crate::entity::{Factory, Troop, MAX_FACTORIES, MAX_ORDERS, MAX_TROOPS, MAX_UNITS};
use crate::game::{Command, GameState};
use crate::owner::Owner;
use crate::simulation::{
    advance, lemma_next_limits, next_factories, next_troops, sim_limits, total, valid_troop,
    GROWTH,
};
use crate::strategy::{debit, max_result, move_order, neutral_first_result};

verus! {

/// How many ticks the lookahead simulates at most.
pub const HORIZON: i64 = 20;

/// Uncommitted cyborgs above which a safe factory pays for an upgrade.
pub const SLACK: i64 = 15;

/// Cyborgs that an upgrade costs.
pub const UPGRADE_COST: i64 = 10;

/// Smallest reinforcement sent to a threatened factory.
pub const MIN_REINFORCEMENT: i64 = 2;

/// The simulated world `k` ticks after the world `(fs, ts, os)`.
pub open spec fn world_after(fs: Seq<Factory>, ts: Seq<Troop>, os: Seq<Troop>, k: nat) -> (
    Seq<Factory>,
    Seq<Troop>,
    Seq<Troop>,
)
    decreases k,
{
    if k == 0 {
        (fs, ts, os)
    } else {
        let w = world_after(fs, ts, os, (k - 1) as nat);
        (next_factories(w.0, w.1, w.2), next_troops(w.1, w.2), Seq::empty())
    }
}

/// The first tick from `t` to `HORIZON` at which factory `i` is the enemy's
/// in the simulated world, or 0 where there is none.
pub open spec fn capture_from(fs: Seq<Factory>, ts: Seq<Troop>, os: Seq<Troop>, i: int, t: int) -> int
    decreases HORIZON + 1 - t,
{
    if 1 <= t <= HORIZON {
        if world_after(fs, ts, os, t as nat).0[i].owner == Owner::Enemy {
            t
        } else {
            capture_from(fs, ts, os, i, t + 1)
        }
    } else {
        0
    }
}

/// An enemy troop on its way to factory `i` counts against it.
pub open spec fn threat_term(i: int) -> spec_fn(Troop) -> int {
    |t: Troop|
        if t.destination == i && t.owner == Owner::Enemy {
            t.size as int
        } else {
            0
        }
}

/// The enemy cyborgs on their way to factory `i`.
pub open spec fn threat(ts: Seq<Troop>, i: int) -> int {
    total(ts, threat_term(i))
}

/// Factory `i` of the player is safe and has enough to spare for an upgrade.
pub open spec fn upgrades(f: Factory, i: int, ts: Seq<Troop>) -> bool {
    &&& f.owner == Owner::Player
    &&& threat(ts, i) < f.garrison
    &&& f.uncommitted - threat(ts, i) > SLACK
}

/// Factory `i` once the threat against it is accounted for.
pub open spec fn guarded(f: Factory, i: int, ts: Seq<Troop>) -> Factory {
    if f.owner != Owner::Player {
        f
    } else if threat(ts, i) >= f.garrison {
        Factory { uncommitted: 0, ..f }
    } else if upgrades(f, i, ts) {
        Factory { uncommitted: (f.uncommitted - threat(ts, i) - UPGRADE_COST) as i64, ..f }
    } else {
        Factory { uncommitted: (f.uncommitted - threat(ts, i)) as i64, ..f }
    }
}

pub open spec fn guarded_factories(fs: Seq<Factory>, ts: Seq<Troop>) -> Seq<Factory> {
    Seq::new(fs.len(), |i: int| guarded(fs[i], i, ts))
}

/// The upgrades of factories `i, i + 1, ...`, in that order.
pub open spec fn upgrades_from(fs: Seq<Factory>, ts: Seq<Troop>, i: int) -> Seq<Command>
    decreases fs.len() - i,
{
    if i < 0 || i >= fs.len() {
        Seq::empty()
    } else {
        let own = if upgrades(fs[i], i, ts) {
            seq![Command::Upgrade(i as usize)]
        } else {
            Seq::empty()
        };
        own + upgrades_from(fs, ts, i + 1)
    }
}

/// Position, from `k` on, of the first neighbour in `ns` that is the
/// player's, at most `t` ticks away, with `need` cyborgs uncommitted; or -1.
pub open spec fn helper_from(fs: Seq<Factory>, ns: Seq<Neighbor>, t: int, need: int, k: int) -> int
    decreases ns.len() - k,
{
    if k < 0 || k >= ns.len() {
        -1
    } else if ns[k].0 <= t && fs[ns[k].1 as int].owner == Owner::Player && fs[
        ns[k].1 as int
    ].uncommitted >= need {
        k
    } else {
        helper_from(fs, ns, t, need, k + 1)
    }
}

/// The reinforcement that factory `i`, captured at tick `t` of the lookahead,
/// asks for: what the enemy holds there then, less what `i` would have
/// produced meanwhile, and at least `MIN_REINFORCEMENT`.
pub open spec fn needed(fs: Seq<Factory>, ts: Seq<Troop>, os: Seq<Troop>, i: int, t: int) -> int {
    let e = world_after(fs, ts, os, t as nat).0[i].garrison - t * fs[i].production;
    if e < MIN_REINFORCEMENT {
        MIN_REINFORCEMENT as int
    } else {
        e
    }
}

/// Factories and orders once factory `i` has asked for reinforcement.
pub open spec fn reinforce_one(
    fs: Seq<Factory>,
    ts: Seq<Troop>,
    os: Seq<Troop>,
    nbs: Seq<Vec<Neighbor>>,
    i: int,
) -> (Seq<Factory>, Seq<Troop>) {
    let t = capture_from(fs, ts, os, i, 1);
    if fs[i].owner == Owner::Player && fs[i].production != 0 && t != 0 {
        let need = needed(fs, ts, os, i, t);
        let ns = nbs[i]@;
        let k = helper_from(fs, ns, t, need, 0);
        if k >= 0 {
            (debit(fs, ns[k].1 as int, need), os.push(move_order(ns[k].1 as int, i, need, ns[k].0 as int)))
        } else {
            (fs, os)
        }
    } else {
        (fs, os)
    }
}

/// Factories and orders once factories `i, i + 1, ...` have asked for
/// reinforcement, in that order.
pub open spec fn reinforce_from(
    fs: Seq<Factory>,
    ts: Seq<Troop>,
    os: Seq<Troop>,
    nbs: Seq<Vec<Neighbor>>,
    i: int,
    n: int,
) -> (Seq<Factory>, Seq<Troop>)
    decreases n - i,
{
    if 0 <= i < n {
        let r = reinforce_one(fs, ts, os, nbs, i);
        reinforce_from(r.0, ts, r.1, nbs, i + 1, n)
    } else {
        (fs, os)
    }
}

/// Factories, orders and commands after `defend_strategy`.
pub open spec fn defend_result(
    fs: Seq<Factory>,
    ts: Seq<Troop>,
    os: Seq<Troop>,
    nbs: Seq<Vec<Neighbor>>,
    cs: Seq<Command>,
) -> (Seq<Factory>, Seq<Troop>, Seq<Command>) {
    let g = guarded_factories(fs, ts);
    let cs1 = cs + upgrades_from(fs, ts, 0);
    let r = reinforce_from(g, ts, os, nbs, 0, fs.len() as int);
    if r.1.len() > os.len() {
        (r.0, r.1, cs1)
    } else {
        let nf = neutral_first_result(r.0, nbs, r.1);
        (nf.0, nf.1, cs1)
    }
}

/// The clock of the standard library, read only through `elapsed_ms`.
#[verifier::external_type_specification]
#[verifier::external_body]
pub struct ExInstant(std::time::Instant);

/// Relies on `Instant::elapsed`: the milliseconds since `start`. The value
/// depends on the clock, so nothing is promised of it.
#[verifier::external_body]
fn elapsed_ms(start: &std::time::Instant) -> (r: u64) {
    start.elapsed().as_millis() as u64
}

/// A copy of `v`.
pub fn copy_vec<T: Copy>(v: &Vec<T>) -> (r: Vec<T>)
    ensures
        r@ == v@,
{
    let mut r: Vec<T> = Vec::new();
    let mut k: usize = 0;
    while k < v.len()
        invariant
            k <= v@.len(),
            r@ == v@.take(k as int),
        decreases v@.len() - k,
    {
        r.push(v[k]);
        k = k + 1;
        proof {
            assert(r@ =~= v@.take(k as int));
        }
    }
    proof {
        assert(v@.take(v@.len() as int) =~= v@);
    }
    r
}

/// Largest garrison, in absolute value, that the lookahead can meet.
pub open spec fn lookahead_cap() -> int {
    MAX_UNITS + HORIZON * GROWTH
}

impl GameState {
    /// The state as the strategies see it at the start of a tick, before any
    /// of the garrison is committed.
    pub open spec fn fresh(&self) -> bool {
        forall|i: int|
            0 <= i < self.factories@.len() ==> (#[trigger] self.factories@[i]).uncommitted
                == self.factories@[i].garrison
    }

    /// Simulates this world up to `HORIZON` ticks on a copy and returns the
    /// first tick at which factory `i` is the enemy's, with its garrison then;
    /// `(0, 0)` where that does not happen.
    pub fn capture_forecast(&self, i: usize) -> (r: (i64, i64))
        requires
            self.wf(),
            i < self.factories@.len(),
        ensures
            r.0 == capture_from(self.factories@, self.troops@, self.orders@, i as int, 1),
            r.0 != 0 ==> r.1 == world_after(
                self.factories@,
                self.troops@,
                self.orders@,
                r.0 as nat,
            ).0[i as int].garrison,
            r.0 != 0 ==> -lookahead_cap() <= r.1 <= lookahead_cap(),
            0 <= r.0 <= HORIZON,
    {
        let ghost fs = self.factories@;
        let ghost ts = self.troops@;
        let ghost os = self.orders@;
        let mut f = copy_vec(&self.factories);
        let mut t = copy_vec(&self.troops);
        let mut o = copy_vec(&self.orders);
        let mut tick: i64 = 0;
        proof {
            assert(sim_limits(fs, ts, os, MAX_UNITS as int));
        }
        while tick < HORIZON
            invariant
                0 <= tick <= HORIZON,
                fs == self.factories@,
                ts == self.troops@,
                os == self.orders@,
                i < fs.len(),
                f@.len() == fs.len(),
                (f@, t@, o@) == world_after(fs, ts, os, tick as nat),
                sim_limits(f@, t@, o@, MAX_UNITS + tick * GROWTH),
                capture_from(fs, ts, os, i as int, 1) == capture_from(
                    fs,
                    ts,
                    os,
                    i as int,
                    tick + 1,
                ),
            decreases HORIZON - tick,
        {
            proof {
                lemma_next_limits(f@, t@, o@, MAX_UNITS + tick * GROWTH);
            }
            advance(&mut f, &mut t, &mut o);
            tick = tick + 1;
            proof {
                assert(o@ =~= Seq::<Troop>::empty());
                assert((f@, t@, o@) == world_after(fs, ts, os, tick as nat));
            }
            if f[i].owner == Owner::Enemy {
                return (tick, f[i].garrison);
            }
        }
        (0, 0)
    }

    /// The enemy cyborgs on their way to factory `i`.
    fn threat_on(&self, i: usize) -> (r: i64)
        requires
            self.wf(),
        ensures
            r == threat(self.troops@, i as int),
            0 <= r,
    {
        let ghost ts = self.troops@;
        let mut sum: i64 = 0;
        let mut k: usize = 0;
        while k < self.troops.len()
            invariant
                self.wf(),
                ts == self.troops@,
                k <= ts.len(),
                sum == total(ts.take(k as int), threat_term(i as int)),
                0 <= sum <= k * MAX_UNITS,
            decreases ts.len() - k,
        {
            let t = self.troops[k];
            proof {
                assert(ts.take(k + 1).drop_last() =~= ts.take(k as int));
                assert(valid_troop(ts[k as int], self.factories@.len() as int));
                assert(k < MAX_TROOPS);
            }
            if t.destination == i && t.owner == Owner::Enemy {
                sum = sum + t.size;
            }
            k = k + 1;
        }
        proof {
            assert(ts.take(ts.len() as int) =~= ts);
        }
        sum
    }

    /// Accounts for the enemy troops on their way to each of the player's
    /// factories: a factory that cannot hold spares nothing; one that can
    /// keeps back the threat, and pays for an upgrade from what is left
    /// above `SLACK`.
    fn guard_factories(&mut self)
        requires
            old(self).wf(),
            old(self).fresh(),
        ensures
            final(self).wf(),
            final(self).factories@ == guarded_factories(old(self).factories@, old(self).troops@),
            final(self).commands@ == old(self).commands@ + upgrades_from(
                old(self).factories@,
                old(self).troops@,
                0,
            ),
            final(self).links == old(self).links,
            final(self).neighbors == old(self).neighbors,
            final(self).troops == old(self).troops,
            final(self).orders == old(self).orders,
            final(self).bomb_count == old(self).bomb_count,
            final(self).bomb_last == old(self).bomb_last,
    {
        let ghost fs = self.factories@;
        let ghost ts = self.troops@;
        let ghost cs = self.commands@;
        let n = self.factories.len();
        let mut i: usize = 0;
        while i < n
            invariant
                self.wf(),
                i <= n,
                n == fs.len(),
                self.factories@.len() == n,
                forall|j: int|
                    0 <= j < n ==> (#[trigger] fs[j]).uncommitted == fs[j].garrison,
                forall|j: int| 0 <= j < i ==> #[trigger] self.factories@[j] == guarded(fs[j], j, ts),
                forall|j: int| i <= j < n ==> #[trigger] self.factories@[j] == fs[j],
                self.commands@ + upgrades_from(fs, ts, i as int) == cs + upgrades_from(fs, ts, 0),
                self.troops@ == ts,
                self.links == old(self).links,
                self.neighbors == old(self).neighbors,
                self.troops == old(self).troops,
                self.orders == old(self).orders,
                self.bomb_count == old(self).bomb_count,
                self.bomb_last == old(self).bomb_last,
            decreases n - i,
        {
            let f = self.factories[i];
            let ghost before = self.commands@;
            proof {
                assert(f == fs[i as int]);
            }
            if f.owner == Owner::Player {
                let th = self.threat_on(i);
                if th >= f.garrison {
                    self.factories.set(i, Factory { uncommitted: 0, ..f });
                } else {
                    let u = f.uncommitted - th;
                    if u > SLACK {
                        self.factories.set(i, Factory { uncommitted: u - UPGRADE_COST, ..f });
                        self.commands.push(Command::Upgrade(i));
                    } else {
                        self.factories.set(i, Factory { uncommitted: u, ..f });
                    }
                }
            }
            proof {
                assert(self.commands@ + upgrades_from(fs, ts, i + 1) =~= before + upgrades_from(
                    fs,
                    ts,
                    i as int,
                ));
            }
            i = i + 1;
        }
        proof {
            assert(self.factories@ =~= guarded_factories(fs, ts));
            assert(upgrades_from(fs, ts, n as int) =~= Seq::<Command>::empty());
            assert(self.commands@ =~= cs + upgrades_from(fs, ts, 0));
        }
    }

    /// Where the lookahead sees factory `i` of the player fall within the
    /// horizon, the nearest of the player's factories that is close enough
    /// and can spare the reinforcement sends it.
    fn reinforce(&mut self, i: usize)
        requires
            old(self).wf(),
            i < old(self).factories@.len(),
            old(self).orders@.len() < MAX_ORDERS,
        ensures
            final(self).wf(),
            (final(self).factories@, final(self).orders@) == reinforce_one(
                old(self).factories@,
                old(self).troops@,
                old(self).orders@,
                old(self).neighbors@,
                i as int,
            ),
            final(self).orders@.len() <= old(self).orders@.len() + 1,
            final(self).links == old(self).links,
            final(self).neighbors == old(self).neighbors,
            final(self).troops == old(self).troops,
            final(self).commands == old(self).commands,
            final(self).bomb_count == old(self).bomb_count,
            final(self).bomb_last == old(self).bomb_last,
    {
        let ghost fs = self.factories@;
        let ghost ts = self.troops@;
        let ghost os = self.orders@;
        let ghost nbs = self.neighbors@;
        let f = self.factories[i];
        if f.owner != Owner::Player || f.production == 0 {
            return ;
        }
        let (t, g) = self.capture_forecast(i);
        if t == 0 {
            return ;
        }
        proof {
            assert(0 <= t * f.production <= HORIZON * MAX_UNITS) by (nonlinear_arith)
                requires
                    0 <= t <= HORIZON,
                    0 <= f.production <= MAX_UNITS,
            ;
        }
        let raw = g - t * f.production;
        let need = if raw < MIN_REINFORCEMENT {
            MIN_REINFORCEMENT
        } else {
            raw
        };
        let ghost ns = nbs[i as int]@;
        let len = self.neighbors[i].len();
        let mut k: usize = 0;
        while k < len
            invariant
                self.wf(),
                fs == self.factories@,
                os == self.orders@,
                nbs == self.neighbors@,
                fs == old(self).factories@,
                ts == old(self).troops@,
                os == old(self).orders@,
                nbs == old(self).neighbors@,
                i < fs.len(),
                os.len() < MAX_ORDERS,
                ns == nbs[i as int]@,
                len == ns.len(),
                k <= len,
                t == capture_from(fs, ts, os, i as int, 1),
                t != 0,
                fs[i as int].owner == Owner::Player,
                fs[i as int].production != 0,
                need == needed(fs, ts, os, i as int, t as int),
                helper_from(fs, ns, t as int, need as int, 0) == helper_from(
                    fs,
                    ns,
                    t as int,
                    need as int,
                    k as int,
                ),
                self.links == old(self).links,
                self.neighbors == old(self).neighbors,
                self.troops == old(self).troops,
                self.commands == old(self).commands,
                self.bomb_count == old(self).bomb_count,
                self.bomb_last == old(self).bomb_last,
            decreases len - k,
        {
            let nb = self.neighbors[i][k];
            proof {
                assert(nb == self.neighbors@[i as int]@[k as int]);
            }
            let h = self.factories[nb.1];
            if nb.0 <= t && h.owner == Owner::Player && h.uncommitted >= need {
                proof {
                    assert(helper_from(fs, ns, t as int, need as int, k as int) == k as int);
                }
                self.commit_move(nb.1, (nb.0, i), need);
                return ;
            }
            k = k + 1;
        }
    }

    /// Factories `0, 1, ...` in turn ask for reinforcement. Given a
    /// deadline, the work stops before any factory once `budget_ms`
    /// milliseconds have passed since `start`: the state is then left as it
    /// was and the result is `false`.
    fn reinforce_all(&mut self, deadline: Option<(&std::time::Instant, u64)>) -> (done: bool)
        requires
            old(self).wf(),
            old(self).orders@.len() + MAX_FACTORIES < MAX_ORDERS,
        ensures
            final(self).wf(),
            done ==> (final(self).factories@, final(self).orders@) == reinforce_from(
                old(self).factories@,
                old(self).troops@,
                old(self).orders@,
                old(self).neighbors@,
                0,
                old(self).factories@.len() as int,
            ),
            !done ==> final(self).factories@ == old(self).factories@ && final(self).orders@ == old(
                self,
            ).orders@,
            deadline.is_none() ==> done,
            old(self).orders@.len() <= final(self).orders@.len(),
            final(self).links == old(self).links,
            final(self).neighbors == old(self).neighbors,
            final(self).troops == old(self).troops,
            final(self).commands == old(self).commands,
            final(self).bomb_count == old(self).bomb_count,
            final(self).bomb_last == old(self).bomb_last,
    {
        let ghost fs = self.factories@;
        let ghost ts = self.troops@;
        let ghost os = self.orders@;
        let ghost nbs = self.neighbors@;
        let saved_factories = copy_vec(&self.factories);
        let saved_orders = copy_vec(&self.orders);
        let n = self.factories.len();
        let mut i: usize = 0;
        while i < n
            invariant
                self.wf(),
                i <= n,
                n == fs.len(),
                n <= MAX_FACTORIES,
                self.factories@.len() == n,
                saved_factories@ == fs,
                saved_orders@ == os,
                os.len() + MAX_FACTORIES < MAX_ORDERS,
                os.len() <= self.orders@.len() <= os.len() + i,
                reinforce_from(self.factories@, ts, self.orders@, nbs, i as int, n as int)
                    == reinforce_from(fs, ts, os, nbs, 0, n as int),
                self.troops@ == ts,
                self.neighbors@ == nbs,
                fs == old(self).factories@,
                os == old(self).orders@,
                old(self).wf(),
                self.links == old(self).links,
                self.neighbors == old(self).neighbors,
                self.troops == old(self).troops,
                self.commands == old(self).commands,
                self.bomb_count == old(self).bomb_count,
                self.bomb_last == old(self).bomb_last,
            decreases n - i,
        {
            match deadline {
                Some((start, budget_ms)) => {
                    if elapsed_ms(start) >= budget_ms {
                        self.factories = saved_factories;
                        self.orders = saved_orders;
                        return false;
                    }
                },
                None => {},
            }
            self.reinforce(i);
            i = i + 1;
        }
        true
    }

    /// The top-level policy of a tick. The threat against each of the
    /// player's factories is accounted for; then each factory that the
    /// lookahead sees fall within the horizon asks for reinforcement. Where
    /// none is sent, `neutral_first_strategy` decides instead.
    pub fn defend_strategy(&mut self)
        requires
            old(self).wf(),
            old(self).fresh(),
            old(self).orders@.len() + MAX_FACTORIES * MAX_FACTORIES < MAX_ORDERS,
        ensures
            final(self).wf(),
            (final(self).factories@, final(self).orders@, final(self).commands@) == defend_result(
                old(self).factories@,
                old(self).troops@,
                old(self).orders@,
                old(self).neighbors@,
                old(self).commands@,
            ),
            final(self).links == old(self).links,
            final(self).neighbors == old(self).neighbors,
            final(self).troops == old(self).troops,
            final(self).bomb_count == old(self).bomb_count,
            final(self).bomb_last == old(self).bomb_last,
    {
        let start = self.orders.len();
        self.guard_factories();
        self.reinforce_all(None);
        if self.orders.len() == start {
            self.neutral_first_strategy();
        }
    }

    /// `defend_strategy` under a time budget: where `budget_ms` milliseconds
    /// have passed since `tick_start` before the lookahead is done, its
    /// orders are dropped and `max_strategy` decides instead, on the state
    /// whose threats are accounted for.
    pub fn defend_strategy_within(&mut self, tick_start: &std::time::Instant, budget_ms: u64)
        requires
            old(self).wf(),
            old(self).fresh(),
            old(self).orders@.len() + MAX_FACTORIES * MAX_FACTORIES < MAX_ORDERS,
        ensures
            final(self).wf(),
            final(self).commands@ == old(self).commands@ + upgrades_from(
                old(self).factories@,
                old(self).troops@,
                0,
            ),
            ({
                let d = defend_result(
                    old(self).factories@,
                    old(self).troops@,
                    old(self).orders@,
                    old(self).neighbors@,
                    old(self).commands@,
                );
                let m = max_result(
                    guarded_factories(old(self).factories@, old(self).troops@),
                    old(self).neighbors@,
                    old(self).orders@,
                );
                (final(self).factories@, final(self).orders@) == (d.0, d.1) || (
                final(self).factories@, final(self).orders@) == m
            }),
            final(self).links == old(self).links,
            final(self).neighbors == old(self).neighbors,
            final(self).troops == old(self).troops,
            final(self).bomb_count == old(self).bomb_count,
            final(self).bomb_last == old(self).bomb_last,
    {
        let start = self.orders.len();
        self.guard_factories();
        if !self.reinforce_all(Some((tick_start, budget_ms))) {
            self.max_strategy();
        } else if self.orders.len() == start {
            self.neutral_first_strategy();
        }
    }
}

} // verus!
