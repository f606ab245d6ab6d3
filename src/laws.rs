use vstd::prelude::*;

use crate::entity::{Factory, Troop};
use crate::evaluate::{signed_garrison, signed_term};
use crate::owner::Owner;
use crate::simulation::{
    abs, attack_on, attack_term, combat_garrison, combat_owner, dispatch_term, garrison_before_combat,
    in_flight, lands_on, lemma_combat_in_range, moved, next_factories, next_troops,
    reinforcement_term, sim_limits, total, valid_troop, GROWTH, SIM_CAP,
};

verus! {

/// A fight that ends exactly even leaves an owned factory to its owner,
/// with an empty garrison.
pub proof fn lemma_combat_tie(owner: Owner, g: int, acc: int)
    requires
        owner != Owner::Neutral,
        acc != 0,
        g * owner.sign() + acc == 0,
    ensures
        combat_owner(owner, g, acc) == owner,
        combat_garrison(owner, g, acc) == 0,
{
}

/// Attacks of either side on a neutral factory are mirror images: an attack
/// of `a` cyborgs takes the factory exactly when it outnumbers the garrison
/// `g`, for the player or for the enemy alike, and leaves the same garrison.
pub proof fn lemma_neutral_capture_symmetric(g: int, a: int)
    requires
        a > 0,
    ensures
        combat_garrison(Owner::Neutral, g, a) == combat_garrison(Owner::Neutral, g, -a),
        combat_owner(Owner::Neutral, g, a) == if a > g {
            Owner::Player
        } else {
            Owner::Neutral
        },
        combat_owner(Owner::Neutral, g, -a) == if a > g {
            Owner::Enemy
        } else {
            Owner::Neutral
        },
{
}

/// The tick is a function of the world alone: two equal worlds give equal
/// worlds one tick later.
pub proof fn lemma_advance_deterministic(
    fs1: Seq<Factory>,
    ts1: Seq<Troop>,
    os1: Seq<Troop>,
    fs2: Seq<Factory>,
    ts2: Seq<Troop>,
    os2: Seq<Troop>,
)
    requires
        fs1 == fs2,
        ts1 == ts2,
        os1 == os2,
    ensures
        next_factories(fs1, ts1, os1) == next_factories(fs2, ts2, os2),
        next_troops(ts1, os1) == next_troops(ts2, os2),
{
}

/// An order is paid when it sets out: queuing `o` lowers the garrison of its
/// source factory, at the tick that follows, by exactly its size, whatever
/// its travel time, and leaves every other garrison as it was; the order
/// then flies with the travel time it was given.
pub proof fn lemma_order_cost(fs: Seq<Factory>, ts: Seq<Troop>, os: Seq<Troop>, o: Troop, i: int)
    ensures
        garrison_before_combat(fs[i], i, ts, os.push(o)) == garrison_before_combat(fs[i], i, ts, os)
            - if o.source == i {
            o.size as int
        } else {
            0
        },
        next_troops(ts, os.push(o)) == next_troops(ts, os).push(o),
{
    assert(os.push(o).drop_last() =~= os);
    assert(total(os.push(o), dispatch_term(i)) == total(os, dispatch_term(i)) + (dispatch_term(i))(
        o,
    ));
    assert(in_flight(ts) + os.push(o) =~= (in_flight(ts) + os).push(o));
}

pub open spec fn zero_term() -> spec_fn(Troop) -> int {
    |t: Troop| 0int
}

pub open spec fn destination_key() -> spec_fn(Troop) -> int {
    |t: Troop| t.destination as int
}

pub open spec fn source_key() -> spec_fn(Troop) -> int {
    |t: Troop| t.source as int
}

/// Sum of `f` over factories `0 .. n`.
pub open spec fn sum_to(n: int, f: spec_fn(int) -> int) -> int
    decreases n,
{
    if n <= 0 {
        0
    } else {
        sum_to(n - 1, f) + f(n - 1)
    }
}

/// A troop that lands on factory `i` at this tick, signed by its owner.
pub open spec fn landing_term(i: int) -> spec_fn(Troop) -> int {
    |t: Troop|
        if lands_on(t, i) {
            t.signed_size()
        } else {
            0
        }
}

/// A troop that lands somewhere at this tick, signed by its owner.
pub open spec fn landed_term() -> spec_fn(Troop) -> int {
    |t: Troop|
        if t.ticks == 1 {
            t.signed_size()
        } else {
            0
        }
}

/// An order leaving factory `i`, signed by its owner.
pub open spec fn signed_dispatch_term(i: int) -> spec_fn(Troop) -> int {
    |o: Troop|
        if o.source == i {
            o.signed_size()
        } else {
            0
        }
}

/// The production of factory `i`, signed by its owner.
pub open spec fn signed_production(f: Factory) -> int {
    if f.owner == Owner::Player {
        f.production as int
    } else if f.owner == Owner::Enemy {
        -f.production
    } else {
        0
    }
}

/// The player's strength less the enemy's, over garrisons and troops in flight.
pub open spec fn balance(fs: Seq<Factory>, ts: Seq<Troop>) -> int {
    sum_to(fs.len() as int, |i: int| signed_garrison(fs[i])) + total(ts, signed_term())
}

/// What the productions of one tick add to the balance.
pub open spec fn production_gain(fs: Seq<Factory>) -> int {
    sum_to(fs.len() as int, |i: int| signed_production(fs[i]))
}

/// What the garrison of factory `i`, if neutral, stops of the net attack on
/// it at this tick: all of it where the factory holds, its own garrison where
/// it falls.
pub open spec fn absorbed(f: Factory, i: int, ts: Seq<Troop>, os: Seq<Troop>) -> int {
    let acc = attack_on(f, i, ts);
    let g = garrison_before_combat(f, i, ts, os);
    if f.owner != Owner::Neutral || acc == 0 {
        0
    } else if g - abs(acc) < 0 {
        if acc < 0 {
            -g
        } else {
            g
        }
    } else {
        acc
    }
}

/// What the neutral garrisons absorb at this tick.
pub open spec fn absorbed_total(fs: Seq<Factory>, ts: Seq<Troop>, os: Seq<Troop>) -> int {
    sum_to(fs.len() as int, |i: int| absorbed(fs[i], i, ts, os))
}

proof fn lemma_total_combo(
    ts: Seq<Troop>,
    f: spec_fn(Troop) -> int,
    g: spec_fn(Troop) -> int,
    h: spec_fn(Troop) -> int,
    c: int,
)
    requires
        c == 1 || c == -1 || c == 0,
        forall|k: int| 0 <= k < ts.len() ==> c * f(ts[k]) + g(ts[k]) == #[trigger] h(ts[k]),
    ensures
        c * total(ts, f) + total(ts, g) == total(ts, h),
    decreases ts.len(),
{
    if ts.len() > 0 {
        let p = ts.drop_last();
        assert forall|k: int| 0 <= k < p.len() implies c * f(p[k]) + g(p[k]) == #[trigger] h(
            p[k],
        ) by {
            assert(p[k] == ts[k]);
        }
        lemma_total_combo(p, f, g, h, c);
        let l = ts[ts.len() - 1];
        assert(c * f(l) + g(l) == h(l));
        assert(c * total(ts, f) == c * total(p, f) + c * f(l)) by (nonlinear_arith)
            requires
                total(ts, f) == total(p, f) + f(l),
        ;
    }
}

proof fn lemma_total_concat(a: Seq<Troop>, b: Seq<Troop>, f: spec_fn(Troop) -> int)
    ensures
        total(a + b, f) == total(a, f) + total(b, f),
    decreases b.len(),
{
    if b.len() > 0 {
        lemma_total_concat(a, b.drop_last(), f);
        assert((a + b).drop_last() =~= a + b.drop_last());
    } else {
        assert(a + b =~= a);
    }
}

/// The troops still in flight after the tick are those that did not land.
proof fn lemma_in_flight_total(ts: Seq<Troop>)
    requires
        forall|k: int| 0 <= k < ts.len() ==> 1 <= (#[trigger] ts[k]).ticks,
    ensures
        total(in_flight(ts), signed_term()) + total(ts, landed_term()) == total(ts, signed_term()),
    decreases ts.len(),
{
    if ts.len() > 0 {
        let p = ts.drop_last();
        assert forall|k: int| 0 <= k < p.len() implies 1 <= (#[trigger] p[k]).ticks by {
            assert(p[k] == ts[k]);
        }
        lemma_in_flight_total(p);
        let l = ts.last();
        assert(1 <= ts[ts.len() - 1].ticks);
        if l.ticks > 1 {
            assert(in_flight(ts).drop_last() =~= in_flight(p));
            assert((signed_term())(moved(l)) == (signed_term())(l));
        }
    }
}

proof fn lemma_sum_add(n: int, f: spec_fn(int) -> int, g: spec_fn(int) -> int, h: spec_fn(int) -> int)
    requires
        forall|i: int| 0 <= i < n ==> #[trigger] h(i) == f(i) + g(i),
    ensures
        sum_to(n, h) == sum_to(n, f) + sum_to(n, g),
    decreases n,
{
    if n > 0 {
        lemma_sum_add(n - 1, f, g, h);
    }
}

proof fn lemma_sum_indicator(n: int, f: spec_fn(int) -> int, key: int, v: int)
    requires
        0 <= key < n,
        forall|i: int|
            0 <= i < n ==> #[trigger] f(i) == if i == key {
                v
            } else {
                0
            },
    ensures
        sum_to(n, f) == v,
    decreases n,
{
    if n - 1 > key {
        lemma_sum_indicator(n - 1, f, key, v);
    } else {
        lemma_sum_zero(n - 1, f);
    }
}

proof fn lemma_sum_zero(n: int, f: spec_fn(int) -> int)
    requires
        forall|i: int| 0 <= i < n ==> #[trigger] f(i) == 0,
    ensures
        sum_to(n, f) == 0,
    decreases n,
{
    if n > 0 {
        lemma_sum_zero(n - 1, f);
    }
}

/// Summing per factory the troops keyed to it sums every troop once.
proof fn lemma_sum_swap(
    ts: Seq<Troop>,
    n: int,
    f: spec_fn(int) -> int,
    fam: spec_fn(int) -> spec_fn(Troop) -> int,
    key: spec_fn(Troop) -> int,
    v: spec_fn(Troop) -> int,
)
    requires
        forall|i: int, t: Troop| #[trigger] (fam(i))(t) == if key(t) == i {
            v(t)
        } else {
            0
        },
        forall|k: int| 0 <= k < ts.len() ==> 0 <= #[trigger] key(ts[k]) < n,
        forall|i: int| 0 <= i < n ==> #[trigger] f(i) == total(ts, fam(i)),
    ensures
        sum_to(n, f) == total(ts, v),
    decreases ts.len(),
{
    if ts.len() == 0 {
        lemma_sum_zero(n, f);
    } else {
        let p = ts.drop_last();
        let l = ts.last();
        assert forall|k: int| 0 <= k < p.len() implies 0 <= #[trigger] key(p[k]) < n by {
            assert(p[k] == ts[k]);
        }
        let fp = |i: int| total(p, fam(i));
        lemma_sum_swap(p, n, fp, fam, key, v);
        assert(0 <= key(ts[ts.len() - 1]) < n);
        lemma_sum_indicator(n, |i: int| (fam(i))(l), key(l), v(l));
        lemma_sum_add(n, fp, |i: int| (fam(i))(l), f);
    }
}

/// One factory's share of the conservation: its signed garrison one tick
/// later is the signed garrison now, plus the signed troops landing on it,
/// less the signed orders it pays, plus its signed production, less what a
/// neutral garrison absorbs.
proof fn lemma_factory_conservation(fs: Seq<Factory>, ts: Seq<Troop>, os: Seq<Troop>, i: int)
    requires
        sim_limits(fs, ts, os, SIM_CAP - GROWTH),
        0 <= i < fs.len(),
        forall|k: int|
            0 <= k < os.len() ==> (#[trigger] os[k]).owner == fs[os[k].source as int].owner,
    ensures
        signed_garrison(next_factories(fs, ts, os)[i]) == signed_garrison(fs[i]) + total(
            ts,
            landing_term(i),
        ) - total(os, signed_dispatch_term(i)) + signed_production(fs[i]) - absorbed(
            fs[i],
            i,
            ts,
            os,
        ),
{
    let f = fs[i];
    let s = f.owner.sign();
    let r = total(ts, reinforcement_term(i, f.owner));
    let d = total(os, dispatch_term(i));
    let acc = attack_on(f, i, ts);
    let g = garrison_before_combat(f, i, ts, os);
    lemma_combat_in_range(fs, ts, os, SIM_CAP - GROWTH, i);
    assert forall|k: int| 0 <= k < os.len() implies s * (dispatch_term(i))(os[k]) + (zero_term())(
        os[k],
    ) == #[trigger] (signed_dispatch_term(i))(os[k]) by {
        assert(valid_troop(os[k], fs.len() as int));
        if os[k].source == i {
            assert(os[k].owner == f.owner);
        }
    }
    if f.owner == Owner::Neutral {
        lemma_total_combo(os, dispatch_term(i), zero_term(), signed_dispatch_term(i), 0);
        lemma_total_combo(ts, landing_term(i), zero_term(), attack_term(i, f.owner), 1);
        assert forall|k: int| 0 <= k < ts.len() implies 1 * (landing_term(i))(ts[k]) + (
        zero_term())(ts[k]) == #[trigger] (attack_term(i, f.owner))(ts[k]) by {
            assert(valid_troop(ts[k], fs.len() as int));
        }
        assert forall|k: int| 0 <= k < ts.len() implies 1 * (zero_term())(ts[k]) + (zero_term())(
            ts[k],
        ) == #[trigger] (reinforcement_term(i, f.owner))(ts[k]) by {
            assert(valid_troop(ts[k], fs.len() as int));
        }
        lemma_total_combo(ts, zero_term(), zero_term(), reinforcement_term(i, f.owner), 1);
        assert forall|k: int| 0 <= k < os.len() implies 1 * (zero_term())(os[k]) + (zero_term())(
            os[k],
        ) == #[trigger] (dispatch_term(i))(os[k]) by {
            assert(valid_troop(os[k], fs.len() as int));
        }
        lemma_total_combo(os, zero_term(), zero_term(), dispatch_term(i), 1);
        assert(total(ts, zero_term()) == 0) by {
            lemma_total_combo(ts, zero_term(), zero_term(), zero_term(), 1);
        }
        assert(total(os, zero_term()) == 0) by {
            lemma_total_combo(os, zero_term(), zero_term(), zero_term(), 1);
        }
    } else {
        assert forall|k: int| 0 <= k < ts.len() implies s * (reinforcement_term(i, f.owner))(ts[k])
            + (attack_term(i, f.owner))(ts[k]) == #[trigger] (landing_term(i))(ts[k]) by {
            assert(valid_troop(ts[k], fs.len() as int));
        }
        lemma_total_combo(ts, reinforcement_term(i, f.owner), attack_term(i, f.owner), landing_term(i), s);
        lemma_total_combo(os, dispatch_term(i), zero_term(), signed_dispatch_term(i), s);
        assert(total(os, zero_term()) == 0) by {
            lemma_total_combo(os, zero_term(), zero_term(), zero_term(), 1);
        }
        if f.owner == Owner::Player {
            assert(g * f.owner.sign() == g);
        } else {
            assert(f.owner.sign() == -1);
            assert(g * -1 == -g);
        }
    }
}

/// Conservation of strength. Over garrisons and troops in flight, the
/// player's cyborgs less the enemy's change in one tick by exactly the signed
/// production of the owned factories, less what neutral garrisons absorb:
/// an order moves cyborgs from a garrison into flight without making or
/// losing any, a reinforcement joins a garrison, and a fight between the two
/// sides costs both the same number of cyborgs. This holds wherever every
/// order belongs to the owner of the factory that pays it.
pub proof fn lemma_conservation(fs: Seq<Factory>, ts: Seq<Troop>, os: Seq<Troop>)
    requires
        sim_limits(fs, ts, os, SIM_CAP - GROWTH),
        forall|k: int|
            0 <= k < os.len() ==> (#[trigger] os[k]).owner == fs[os[k].source as int].owner,
    ensures
        balance(next_factories(fs, ts, os), next_troops(ts, os)) == balance(fs, ts)
            + production_gain(fs) - absorbed_total(fs, ts, os),
{
    let n = fs.len() as int;
    let nf = next_factories(fs, ts, os);
    assert forall|i: int| 0 <= i < n implies #[trigger] signed_garrison(nf[i]) == signed_garrison(
        fs[i],
    ) + total(ts, landing_term(i)) - total(os, signed_dispatch_term(i)) + signed_production(fs[i])
        - absorbed(fs[i], i, ts, os) by {
        lemma_factory_conservation(fs, ts, os, i);
    }
    let a = |i: int| signed_garrison(fs[i]) + signed_production(fs[i]);
    let b = |i: int| total(ts, landing_term(i)) - total(os, signed_dispatch_term(i));
    let ab = |i: int| a(i) + b(i);
    let lost = |i: int| -absorbed(fs[i], i, ts, os);
    lemma_sum_add(n, ab, lost, |i: int| signed_garrison(nf[i]));
    lemma_sum_add(n, a, b, ab);
    lemma_sum_add(n, lost, |i: int| absorbed(fs[i], i, ts, os), |i: int| 0int);
    lemma_sum_add(n, |i: int| signed_garrison(fs[i]), |i: int| signed_production(fs[i]), a);
    let neg = |i: int| -total(os, signed_dispatch_term(i));
    lemma_sum_add(n, |i: int| total(ts, landing_term(i)), neg, b);
    assert forall|k: int| 0 <= k < ts.len() implies 0 <= (destination_key())(#[trigger] ts[k]) < n by {
        assert(valid_troop(ts[k], n));
    }
    lemma_sum_swap(
        ts,
        n,
        |i: int| total(ts, landing_term(i)),
        |i: int| landing_term(i),
        destination_key(),
        landed_term(),
    );
    assert forall|k: int| 0 <= k < os.len() implies 0 <= (source_key())(#[trigger] os[k]) < n by {
        assert(valid_troop(os[k], n));
    }
    lemma_sum_swap(
        os,
        n,
        |i: int| total(os, signed_dispatch_term(i)),
        |i: int| signed_dispatch_term(i),
        source_key(),
        signed_term(),
    );
    lemma_sum_add(
        n,
        neg,
        |i: int| total(os, signed_dispatch_term(i)),
        |i: int| 0int,
    );
    lemma_sum_zero(n, |i: int| 0int);
    assert forall|k: int| 0 <= k < ts.len() implies 1 <= (#[trigger] ts[k]).ticks by {
        assert(valid_troop(ts[k], n));
    }
    lemma_in_flight_total(ts);
    lemma_total_concat(in_flight(ts), os, signed_term());
}

} // verus!
