use vstd::prelude::*;

use crate::entity::{Factory, Troop, MAX_FACTORIES, MAX_IN_FLIGHT, MAX_UNITS};
use crate::owner::Owner;

verus! {

/// How much a garrison can grow, in absolute value, during one tick of a world
/// within the limits: `MAX_UNITS * (3 * MAX_IN_FLIGHT + 1)`, for what lands,
/// what leaves, what attacks and one production.
pub const GROWTH: i64 = 618476339200;

/// Largest garrison, in absolute value, that a simulated world may reach
/// (2^50).
pub const SIM_CAP: i64 = 1125899906842624;

/// Sum of `f` over the troops of `ts`.
pub open spec fn total(ts: Seq<Troop>, f: spec_fn(Troop) -> int) -> int
    decreases ts.len(),
{
    if ts.len() == 0 {
        0
    } else {
        total(ts.drop_last(), f) + f(ts.last())
    }
}

/// The troop reaches factory `i` at this tick.
pub open spec fn lands_on(t: Troop, i: int) -> bool {
    t.ticks == 1 && t.destination == i
}

/// A troop of `owner` that lands on factory `i` joins its garrison.
pub open spec fn reinforcement_term(i: int, owner: Owner) -> spec_fn(Troop) -> int {
    |t: Troop|
        if lands_on(t, i) && t.owner == owner {
            t.size as int
        } else {
            0
        }
}

/// A troop of another side than `owner` that lands on factory `i` attacks it.
pub open spec fn attack_term(i: int, owner: Owner) -> spec_fn(Troop) -> int {
    |t: Troop|
        if lands_on(t, i) && t.owner != owner {
            t.signed_size()
        } else {
            0
        }
}

/// An order leaving factory `i` is paid from its garrison.
pub open spec fn dispatch_term(i: int) -> spec_fn(Troop) -> int {
    |o: Troop|
        if o.source == i {
            o.size as int
        } else {
            0
        }
}

/// The garrison of factory `i` (held as `f`) once the troops of this tick
/// have landed, the orders have been paid and production has been added.
pub open spec fn garrison_before_combat(f: Factory, i: int, ts: Seq<Troop>, os: Seq<Troop>) -> int {
    f.garrison + total(ts, reinforcement_term(i, f.owner)) - total(os, dispatch_term(i)) + if f.owner
        != Owner::Neutral {
        f.production as int
    } else {
        0
    }
}

/// The signed net attack on factory `i` (held as `f`) at this tick.
pub open spec fn attack_on(f: Factory, i: int, ts: Seq<Troop>) -> int {
    total(ts, attack_term(i, f.owner))
}

pub open spec fn abs(x: int) -> int {
    if x < 0 {
        -x
    } else {
        x
    }
}

/// Owner of a factory after a fight of garrison `g` against the net attack `acc`.
pub open spec fn combat_owner(owner: Owner, g: int, acc: int) -> Owner {
    if acc == 0 {
        owner
    } else if owner == Owner::Neutral {
        if g - abs(acc) < 0 {
            if acc < 0 {
                Owner::Enemy
            } else {
                Owner::Player
            }
        } else {
            Owner::Neutral
        }
    } else {
        let r = g * owner.sign() + acc;
        if r < 0 {
            Owner::Enemy
        } else if r > 0 {
            Owner::Player
        } else {
            owner
        }
    }
}

/// Garrison of a factory after a fight of garrison `g` against the net attack `acc`.
pub open spec fn combat_garrison(owner: Owner, g: int, acc: int) -> int {
    if acc == 0 {
        g
    } else if owner == Owner::Neutral {
        abs(g - abs(acc))
    } else {
        abs(g * owner.sign() + acc)
    }
}

/// Factory `i` one tick later.
pub open spec fn next_factory(f: Factory, i: int, ts: Seq<Troop>, os: Seq<Troop>) -> Factory {
    let g = garrison_before_combat(f, i, ts, os);
    let acc = attack_on(f, i, ts);
    Factory {
        owner: combat_owner(f.owner, g, acc),
        garrison: combat_garrison(f.owner, g, acc) as i64,
        ..f
    }
}

pub open spec fn next_factories(fs: Seq<Factory>, ts: Seq<Troop>, os: Seq<Troop>) -> Seq<Factory> {
    Seq::new(fs.len(), |i: int| next_factory(fs[i], i, ts, os))
}

/// A troop one tick closer to its destination.
pub open spec fn moved(t: Troop) -> Troop {
    Troop { ticks: (t.ticks - 1) as i64, ..t }
}

/// The troops of `ts` that are still in flight after this tick.
pub open spec fn in_flight(ts: Seq<Troop>) -> Seq<Troop>
    decreases ts.len(),
{
    if ts.len() == 0 {
        Seq::empty()
    } else if ts.last().ticks > 1 {
        in_flight(ts.drop_last()).push(moved(ts.last()))
    } else {
        in_flight(ts.drop_last())
    }
}

/// The troops in flight one tick later: those still travelling, then the
/// orders of this tick, which set out now.
pub open spec fn next_troops(ts: Seq<Troop>, os: Seq<Troop>) -> Seq<Troop> {
    in_flight(ts) + os
}

pub open spec fn valid_troop(t: Troop, n: int) -> bool {
    &&& 1 <= t.size <= MAX_UNITS
    &&& 1 <= t.ticks
    &&& t.source < n
    &&& t.destination < n
    &&& t.owner != Owner::Neutral
}

/// A world that one tick can be simulated on without overflow: garrisons
/// are at most `cap` in absolute value.
pub open spec fn sim_limits(fs: Seq<Factory>, ts: Seq<Troop>, os: Seq<Troop>, cap: int) -> bool {
    &&& fs.len() <= MAX_FACTORIES
    &&& ts.len() + os.len() <= MAX_IN_FLIGHT
    &&& forall|i: int|
        0 <= i < fs.len() ==> -cap <= #[trigger] fs[i].garrison <= cap && 0 <= fs[i].production
            <= MAX_UNITS
    &&& forall|k: int| 0 <= k < ts.len() ==> valid_troop(#[trigger] ts[k], fs.len() as int)
    &&& forall|k: int| 0 <= k < os.len() ==> valid_troop(#[trigger] os[k], fs.len() as int)
}

proof fn lemma_total_bound(ts: Seq<Troop>, f: spec_fn(Troop) -> int)
    requires
        forall|k: int| 0 <= k < ts.len() ==> -MAX_UNITS <= #[trigger] f(ts[k]) <= MAX_UNITS,
    ensures
        -(ts.len() * MAX_UNITS) <= total(ts, f) <= ts.len() * MAX_UNITS,
    decreases ts.len(),
{
    if ts.len() > 0 {
        let p = ts.drop_last();
        assert forall|k: int| 0 <= k < p.len() implies -MAX_UNITS <= #[trigger] f(p[k])
            <= MAX_UNITS by {
            assert(p[k] == ts[k]);
        }
        lemma_total_bound(p, f);
        assert(f(ts.last()) == f(ts[ts.len() - 1]));
    }
}

proof fn lemma_total_take(ts: Seq<Troop>, f: spec_fn(Troop) -> int, k: int)
    requires
        0 <= k < ts.len(),
    ensures
        total(ts.take(k + 1), f) == total(ts.take(k), f) + f(ts[k]),
{
    assert(ts.take(k + 1).drop_last() =~= ts.take(k));
}

proof fn lemma_in_flight_take(ts: Seq<Troop>, k: int)
    requires
        0 <= k < ts.len(),
    ensures
        in_flight(ts.take(k + 1)) == if ts[k].ticks > 1 {
            in_flight(ts.take(k)).push(moved(ts[k]))
        } else {
            in_flight(ts.take(k))
        },
{
    assert(ts.take(k + 1).drop_last() =~= ts.take(k));
}

proof fn lemma_take_full(ts: Seq<Troop>)
    ensures
        ts.take(ts.len() as int) == ts,
{
    assert(ts.take(ts.len() as int) =~= ts);
}

/// The bounds of the sums that one tick adds to the garrison of factory `i`.
proof fn lemma_tick_bounds(fs: Seq<Factory>, ts: Seq<Troop>, os: Seq<Troop>, i: int, k: int, m: int)
    requires
        0 <= k <= ts.len(),
        0 <= m <= os.len(),
        forall|j: int| 0 <= j < ts.len() ==> valid_troop(#[trigger] ts[j], fs.len() as int),
        forall|j: int| 0 <= j < os.len() ==> valid_troop(#[trigger] os[j], fs.len() as int),
    ensures
        0 <= total(ts.take(k), reinforcement_term(i, fs[i].owner)) <= ts.len() * MAX_UNITS,
        -(ts.len() * MAX_UNITS) <= total(ts.take(k), attack_term(i, fs[i].owner)) <= ts.len()
            * MAX_UNITS,
        0 <= total(os.take(m), dispatch_term(i)) <= os.len() * MAX_UNITS,
{
    let tk = ts.take(k);
    let om = os.take(m);
    let r = reinforcement_term(i, fs[i].owner);
    let a = attack_term(i, fs[i].owner);
    let d = dispatch_term(i);
    assert forall|j: int| 0 <= j < tk.len() implies -MAX_UNITS <= #[trigger] r(tk[j])
        <= MAX_UNITS && -MAX_UNITS <= a(tk[j]) <= MAX_UNITS by {
        assert(tk[j] == ts[j]);
        assert(valid_troop(ts[j], fs.len() as int));
    }
    assert forall|j: int| 0 <= j < om.len() implies -MAX_UNITS <= #[trigger] d(om[j])
        <= MAX_UNITS by {
        assert(om[j] == os[j]);
        assert(valid_troop(os[j], fs.len() as int));
    }
    lemma_total_bound(tk, r);
    lemma_total_bound(tk, a);
    lemma_total_bound(om, d);
    lemma_total_nonneg(tk, r);
    lemma_total_nonneg(om, d);
}

proof fn lemma_total_nonneg(ts: Seq<Troop>, f: spec_fn(Troop) -> int)
    requires
        forall|k: int| 0 <= k < ts.len() ==> 0 <= #[trigger] f(ts[k]),
    ensures
        0 <= total(ts, f),
    decreases ts.len(),
{
    if ts.len() > 0 {
        let p = ts.drop_last();
        assert forall|k: int| 0 <= k < p.len() implies 0 <= #[trigger] f(p[k]) by {
            assert(p[k] == ts[k]);
        }
        lemma_total_nonneg(p, f);
        assert(f(ts.last()) == f(ts[ts.len() - 1]));
    }
}

/// `a` and `b` agree on every field but the garrison.
pub open spec fn same_but_garrison(a: Factory, b: Factory) -> bool {
    &&& a.id == b.id
    &&& a.owner == b.owner
    &&& a.production == b.production
    &&& a.uncommitted == b.uncommitted
}

/// One tick of the world. Troops move one step and those that arrive land
/// (joining a garrison of their own side, or attacking); the queued orders are
/// paid by their source factories and set out; then every factory produces
/// and resolves the fight against what attacked it.
pub fn advance(factories: &mut Vec<Factory>, troops: &mut Vec<Troop>, orders: &mut Vec<Troop>)
    requires
        sim_limits(old(factories)@, old(troops)@, old(orders)@, SIM_CAP - GROWTH),
    ensures
        final(factories)@ == next_factories(old(factories)@, old(troops)@, old(orders)@),
        final(troops)@ == next_troops(old(troops)@, old(orders)@),
        final(orders)@.len() == 0,
{
    let ghost fs0 = factories@;
    let ghost ts0 = troops@;
    let ghost os0 = orders@;
    let n = factories.len();
    let mut attack: Vec<i64> = Vec::new();
    let mut i: usize = 0;
    while i < n
        invariant
            i <= n,
            attack@.len() == i,
            forall|j: int| 0 <= j < i ==> attack@[j] == 0,
        decreases n - i,
    {
        attack.push(0);
        i = i + 1;
    }
    proof {
        assert forall|j: int| 0 <= j < n implies #[trigger] attack@[j] == total(
            ts0.take(0),
            attack_term(j, fs0[j].owner),
        ) && factories@[j].garrison == fs0[j].garrison + total(
            ts0.take(0),
            reinforcement_term(j, fs0[j].owner),
        ) by {
            assert(ts0.take(0).len() == 0);
        }
        assert(ts0.take(0) =~= Seq::<Troop>::empty());
    }
    let mut kept: Vec<Troop> = Vec::new();
    let mut k: usize = 0;
    while k < troops.len()
        invariant
            troops@ == ts0,
            orders@ == os0,
            sim_limits(fs0, ts0, os0, SIM_CAP - GROWTH),
            n == fs0.len(),
            factories@.len() == n,
            attack@.len() == n,
            k <= ts0.len(),
            kept@ == in_flight(ts0.take(k as int)),
            forall|j: int|
                0 <= j < n ==> same_but_garrison(#[trigger] factories@[j], fs0[j])
                    && factories@[j].garrison == fs0[j].garrison + total(
                    ts0.take(k as int),
                    reinforcement_term(j, fs0[j].owner),
                ),
            forall|j: int|
                0 <= j < n ==> #[trigger] attack@[j] == total(
                    ts0.take(k as int),
                    attack_term(j, fs0[j].owner),
                ),
        decreases ts0.len() - k,
    {
        let t = troops[k];
        proof {
            assert(valid_troop(ts0[k as int], n as int));
            lemma_in_flight_take(ts0, k as int);
            assert forall|j: int| 0 <= j < n implies total(
                #[trigger] ts0.take(k + 1),
                reinforcement_term(j, fs0[j].owner),
            ) == total(ts0.take(k as int), reinforcement_term(j, fs0[j].owner)) + (
            reinforcement_term(j, fs0[j].owner))(t) && total(
                ts0.take(k + 1),
                attack_term(j, fs0[j].owner),
            ) == total(ts0.take(k as int), attack_term(j, fs0[j].owner)) + (attack_term(
                j,
                fs0[j].owner,
            ))(t) by {
                lemma_total_take(ts0, reinforcement_term(j, fs0[j].owner), k as int);
                lemma_total_take(ts0, attack_term(j, fs0[j].owner), k as int);
            }
        }
        if t.ticks == 1 {
            let d = t.destination;
            let f = factories[d];
            proof {
                lemma_tick_bounds(fs0, ts0, os0, d as int, k + 1, 0);
            }
            if f.owner == t.owner {
                factories[d] = Factory { garrison: f.garrison + t.size, ..f };
            } else {
                let a = attack[d];
                let na = if t.owner == Owner::Player {
                    a + t.size
                } else if t.owner == Owner::Enemy {
                    a - t.size
                } else {
                    a
                };
                attack[d] = na;
            }
        } else {
            kept.push(Troop { ticks: t.ticks - 1, ..t });
        }
        k = k + 1;
    }
    proof {
        lemma_take_full(ts0);
        assert(os0.take(0) =~= Seq::<Troop>::empty());
    }
    let mut m: usize = 0;
    while m < orders.len()
        invariant
            troops@ == ts0,
            orders@ == os0,
            sim_limits(fs0, ts0, os0, SIM_CAP - GROWTH),
            n == fs0.len(),
            factories@.len() == n,
            attack@.len() == n,
            m <= os0.len(),
            forall|j: int|
                0 <= j < n ==> same_but_garrison(#[trigger] factories@[j], fs0[j])
                    && factories@[j].garrison == fs0[j].garrison + total(
                    ts0,
                    reinforcement_term(j, fs0[j].owner),
                ) - total(os0.take(m as int), dispatch_term(j)),
            forall|j: int|
                0 <= j < n ==> #[trigger] attack@[j] == total(ts0, attack_term(j, fs0[j].owner)),
        decreases os0.len() - m,
    {
        let o = orders[m];
        proof {
            assert(valid_troop(os0[m as int], n as int));
            assert forall|j: int| 0 <= j < n implies total(
                #[trigger] os0.take(m + 1),
                dispatch_term(j),
            ) == total(os0.take(m as int), dispatch_term(j)) + (dispatch_term(j))(o) by {
                lemma_total_take(os0, dispatch_term(j), m as int);
            }
            lemma_take_full(ts0);
            lemma_tick_bounds(fs0, ts0, os0, o.source as int, ts0.len() as int, m + 1);
        }
        let s = o.source;
        let f = factories[s];
        factories[s] = Factory { garrison: f.garrison - o.size, ..f };
        m = m + 1;
    }
    proof {
        lemma_take_full(os0);
    }
    kept.append(orders);
    *troops = kept;
    let mut j: usize = 0;
    while j < n
        invariant
            sim_limits(fs0, ts0, os0, SIM_CAP - GROWTH),
            n == fs0.len(),
            factories@.len() == n,
            attack@.len() == n,
            j <= n,
            forall|q: int|
                0 <= q < j ==> #[trigger] factories@[q] == next_factory(fs0[q], q, ts0, os0),
            forall|q: int|
                j <= q < n ==> same_but_garrison(#[trigger] factories@[q], fs0[q])
                    && factories@[q].garrison == fs0[q].garrison + total(
                    ts0,
                    reinforcement_term(q, fs0[q].owner),
                ) - total(os0, dispatch_term(q)),
            forall|q: int|
                0 <= q < n ==> #[trigger] attack@[q] == total(ts0, attack_term(q, fs0[q].owner)),
        decreases n - j,
    {
        let f = factories[j];
        proof {
            lemma_take_full(ts0);
            lemma_take_full(os0);
            lemma_tick_bounds(fs0, ts0, os0, j as int, ts0.len() as int, os0.len() as int);
        }
        let mut g = f.garrison;
        if !f.owner.is_neutral() {
            g = g + f.production;
        }
        let a = attack[j];
        let ghost g0 = g as int;
        proof {
            let acc = attack_on(fs0[j as int], j as int, ts0);
            assert(g0 == garrison_before_combat(fs0[j as int], j as int, ts0, os0));
            assert(a == acc);
            if f.owner == Owner::Player {
                assert(g0 * f.owner.sign() == g0);
            } else if f.owner == Owner::Enemy {
                assert(f.owner.sign() == -1);
                assert(g0 * -1 == -g0);
            }
        }
        let mut owner = f.owner;
        if a != 0 {
            if owner.is_neutral() {
                let magnitude = if a < 0 {
                    -a
                } else {
                    a
                };
                g = g - magnitude;
                if g < 0 {
                    owner = if a < 0 {
                        Owner::Enemy
                    } else {
                        Owner::Player
                    };
                    g = -g;
                }
            } else {
                let r = if owner.is_player() {
                    g + a
                } else {
                    a - g
                };
                if r < 0 {
                    owner = Owner::Enemy;
                    g = -r;
                } else if r > 0 {
                    owner = Owner::Player;
                    g = r;
                } else {
                    g = 0;
                }
            }
        }
        proof {
            assert(owner == combat_owner(f.owner, g0, a as int));
            assert(g == combat_garrison(f.owner, g0, a as int));
        }
        factories[j] = Factory { owner, garrison: g, ..f };
        j = j + 1;
    }
    proof {
        assert(factories@ =~= next_factories(fs0, ts0, os0));
    }
}

proof fn lemma_in_flight_valid(ts: Seq<Troop>, n: int)
    requires
        forall|k: int| 0 <= k < ts.len() ==> valid_troop(#[trigger] ts[k], n),
    ensures
        in_flight(ts).len() <= ts.len(),
        forall|k: int|
            0 <= k < in_flight(ts).len() ==> valid_troop(#[trigger] in_flight(ts)[k], n),
    decreases ts.len(),
{
    if ts.len() > 0 {
        let p = ts.drop_last();
        assert forall|k: int| 0 <= k < p.len() implies valid_troop(#[trigger] p[k], n) by {
            assert(p[k] == ts[k]);
        }
        lemma_in_flight_valid(p, n);
        assert(valid_troop(ts[ts.len() - 1], n));
    }
}

/// Within the limits, the garrison that a fight leaves fits the limits of
/// the next tick.
pub proof fn lemma_combat_in_range(fs: Seq<Factory>, ts: Seq<Troop>, os: Seq<Troop>, cap: int, i: int)
    requires
        sim_limits(fs, ts, os, cap),
        0 <= cap <= SIM_CAP - GROWTH,
        0 <= i < fs.len(),
    ensures
        -(cap + GROWTH) <= combat_garrison(
            fs[i].owner,
            garrison_before_combat(fs[i], i, ts, os),
            attack_on(fs[i], i, ts),
        ) <= cap + GROWTH,
{
    lemma_take_full(ts);
    lemma_take_full(os);
    lemma_tick_bounds(fs, ts, os, i, ts.len() as int, os.len() as int);
    let f = fs[i];
    let g = garrison_before_combat(f, i, ts, os);
    if f.owner == Owner::Player {
        assert(g * f.owner.sign() == g);
    } else if f.owner == Owner::Enemy {
        assert(f.owner.sign() == -1);
        assert(g * -1 == -g);
    }
}

/// A world within the limits for garrisons of at most `cap` is, one tick
/// later, within the limits for garrisons of at most `cap + GROWTH`, with an
/// empty order queue.
pub proof fn lemma_next_limits(fs: Seq<Factory>, ts: Seq<Troop>, os: Seq<Troop>, cap: int)
    requires
        sim_limits(fs, ts, os, cap),
        0 <= cap <= SIM_CAP - GROWTH,
    ensures
        sim_limits(next_factories(fs, ts, os), next_troops(ts, os), Seq::empty(), cap + GROWTH),
{
    let n = fs.len() as int;
    lemma_in_flight_valid(ts, n);
    lemma_take_full(ts);
    lemma_take_full(os);
    let nf = next_factories(fs, ts, os);
    assert forall|i: int| 0 <= i < nf.len() implies -(cap + GROWTH) <= #[trigger] nf[i].garrison
        <= cap + GROWTH && 0 <= nf[i].production <= MAX_UNITS by {
        lemma_combat_in_range(fs, ts, os, cap, i);
    }
    let nt = next_troops(ts, os);
    assert forall|k: int| 0 <= k < nt.len() implies valid_troop(#[trigger] nt[k], n) by {
        if k < in_flight(ts).len() {
            assert(nt[k] == in_flight(ts)[k]);
        } else {
            assert(nt[k] == os[k - in_flight(ts).len()]);
        }
    }
}

} // verus!
