use vstd::prelude::*;

use crate::entity::{MAX_FACTORIES, MAX_ORDERS};
use crate::game::GameState;
use crate::owner::Owner;
use crate::strategy::{debit, move_order, same_but_uncommitted};

verus! {

/// Relies on rand's `Rng::gen_range` on `thread_rng()`: a value in
/// `[0, bound)`. It panics on an empty range, which `requires` rules out.
#[verifier::external_body]
fn draw_below(bound: u64) -> (r: u64)
    requires
        0 < bound,
    ensures
        r < bound,
{
    rand::Rng::gen_range(&mut rand::thread_rng(), 0u64, bound)
}

/// A uniformly drawn number in `[0, max)`.
pub fn rnd_range(max: i64) -> (r: i64)
    requires
        0 < max,
    ensures
        0 <= r < max,
{
    draw_below(max as u64) as i64
}

impl GameState {
    /// The order that `random_strategy` gives factory `i` for the draws
    /// `count` (how many cyborgs) and `pick` (which neighbour): where `i` is
    /// the player's, `count` is positive and `pick` names a neighbour,
    /// `count` cyborgs go to that neighbour; otherwise nothing happens.
    pub fn random_order(&mut self, i: usize, count: i64, pick: usize)
        requires
            old(self).wf(),
            old(self).orders@.len() < MAX_ORDERS,
            i < old(self).factories@.len(),
            0 <= count <= old(self).factories@[i as int].uncommitted,
        ensures
            final(self).wf(),
            ({
                let fs = old(self).factories@;
                let ns = old(self).neighbors@[i as int]@;
                if fs[i as int].owner == Owner::Player && count > 0 && pick < ns.len() {
                    &&& final(self).factories@ == debit(fs, i as int, count as int)
                    &&& final(self).orders@ == old(self).orders@.push(
                        move_order(i as int, ns[pick as int].1 as int, count as int, ns[pick as int].0 as int),
                    )
                } else {
                    &&& final(self).factories@ == fs
                    &&& final(self).orders@ == old(self).orders@
                }
            }),
            final(self).links == old(self).links,
            final(self).neighbors == old(self).neighbors,
            final(self).troops == old(self).troops,
            final(self).commands == old(self).commands,
            final(self).bomb_count == old(self).bomb_count,
            final(self).bomb_last == old(self).bomb_last,
    {
        if self.factories[i].owner == Owner::Player && count > 0 && pick < self.neighbors[i].len() {
            let nb = self.neighbors[i][pick];
            proof {
                assert(nb == self.neighbors@[i as int]@[pick as int]);
            }
            self.commit_move(i, nb, count);
        }
    }

    /// Each of the player's factories sends a random part of its uncommitted
    /// cyborgs to a random neighbour.
    pub fn random_strategy(&mut self)
        requires
            old(self).wf(),
            old(self).orders@.len() + MAX_FACTORIES < MAX_ORDERS,
        ensures
            final(self).wf(),
            final(self).orders@.len() <= old(self).orders@.len() + old(self).factories@.len(),
            final(self).orders@.subrange(0, old(self).orders@.len() as int) == old(self).orders@,
            forall|k: int|
                old(self).orders@.len() <= k < final(self).orders@.len() ==> {
                    let o = #[trigger] final(self).orders@[k];
                    &&& o.owner == Owner::Player
                    &&& old(self).factories@[o.source as int].owner == Owner::Player
                    &&& 1 <= o.size
                },
            final(self).factories@.len() == old(self).factories@.len(),
            forall|j: int|
                0 <= j < old(self).factories@.len() ==> same_but_uncommitted(
                    #[trigger] final(self).factories@[j],
                    old(self).factories@[j],
                ) && final(self).factories@[j].uncommitted <= old(self).factories@[j].uncommitted,
            final(self).links == old(self).links,
            final(self).neighbors == old(self).neighbors,
            final(self).troops == old(self).troops,
            final(self).commands == old(self).commands,
            final(self).bomb_count == old(self).bomb_count,
            final(self).bomb_last == old(self).bomb_last,
    {
        let ghost fs = self.factories@;
        let ghost os = self.orders@;
        let n = self.factories.len();
        let mut i: usize = 0;
        while i < n
            invariant
                self.wf(),
                i <= n,
                n == fs.len(),
                self.factories@.len() == n,
                os.len() + MAX_FACTORIES < MAX_ORDERS,
                n <= MAX_FACTORIES,
                os.len() <= self.orders@.len() <= os.len() + i,
                self.orders@.subrange(0, os.len() as int) == os,
                forall|k: int|
                    os.len() <= k < self.orders@.len() ==> {
                        let o = #[trigger] self.orders@[k];
                        &&& o.owner == Owner::Player
                        &&& fs[o.source as int].owner == Owner::Player
                        &&& 1 <= o.size
                    },
                forall|j: int|
                    0 <= j < n ==> same_but_uncommitted(#[trigger] self.factories@[j], fs[j])
                        && self.factories@[j].uncommitted <= fs[j].uncommitted,
                self.links == old(self).links,
                self.neighbors == old(self).neighbors,
                self.troops == old(self).troops,
                self.commands == old(self).commands,
                self.bomb_count == old(self).bomb_count,
                self.bomb_last == old(self).bomb_last,
            decreases n - i,
        {
            let f = self.factories[i];
            let len = self.neighbors[i].len();
            if f.owner == Owner::Player && len > 0 {
                let ghost before_f = self.factories@;
                let ghost before_o = self.orders@;
                let count = rnd_range(f.uncommitted + 1);
                let pick = rnd_range(len as i64) as usize;
                self.random_order(i, count, pick);
                proof {
                    assert(same_but_uncommitted(before_f[i as int], fs[i as int]));
                    assert forall|j: int| 0 <= j < n implies same_but_uncommitted(
                        #[trigger] self.factories@[j],
                        fs[j],
                    ) && self.factories@[j].uncommitted <= fs[j].uncommitted by {
                        assert(same_but_uncommitted(before_f[j], fs[j]));
                    }
                    assert(self.orders@.subrange(0, os.len() as int) =~= os) by {
                        assert(before_o.subrange(0, os.len() as int) == os);
                    }
                    assert forall|k: int| os.len() <= k < self.orders@.len() implies {
                        let o = #[trigger] self.orders@[k];
                        &&& o.owner == Owner::Player
                        &&& fs[o.source as int].owner == Owner::Player
                        &&& 1 <= o.size
                    } by {
                        if k < before_o.len() {
                            assert(self.orders@[k] == before_o[k]);
                        }
                    }
                }
            }
            i = i + 1;
        }
    }
}

} // verus!
