use vstd::prelude::*;

use crate::distance::Neighbor;
use crate::entity::Factory;
use crate::game::{Command, GameState};
use crate::owner::Owner;

verus! {

/// Factory `j` may be bombed: the enemy's, producing more than 2, and not
/// the factory bombed last.
pub open spec fn bombable(fs: Seq<Factory>, last: Option<usize>, j: int) -> bool {
    &&& 0 <= j < fs.len()
    &&& fs[j].owner == Owner::Enemy
    &&& fs[j].production > 2
    &&& last != Some(j as usize)
}

/// Factory `m` is the bombable factory with the largest garrison, the
/// lowest id among equals.
pub open spec fn is_bomb_target(fs: Seq<Factory>, last: Option<usize>, m: int) -> bool {
    &&& bombable(fs, last, m)
    &&& forall|j: int| #[trigger] bombable(fs, last, j) ==> fs[j].garrison <= fs[m].garrison
    &&& forall|j: int| j < m && #[trigger] bombable(fs, last, j) ==> fs[j].garrison < fs[m].garrison
}

/// Position, from `k` on, of the first factory of the player in `ns`, or -1.
pub open spec fn bomber_from(fs: Seq<Factory>, ns: Seq<Neighbor>, k: int) -> int
    decreases ns.len() - k,
{
    if k < 0 || k >= ns.len() {
        -1
    } else if fs[ns[k].1 as int].owner == Owner::Player {
        k
    } else {
        bomber_from(fs, ns, k + 1)
    }
}

/// The bomb of this tick, as (source, target), if one is sent.
pub open spec fn bomb_choice(
    fs: Seq<Factory>,
    nbs: Seq<Vec<Neighbor>>,
    count: i64,
    last: Option<usize>,
) -> Option<(usize, usize)> {
    if count != 0 && exists|m: int| is_bomb_target(fs, last, m) {
        let m = choose|m: int| is_bomb_target(fs, last, m);
        let ns = nbs[m]@;
        let k = bomber_from(fs, ns, 0);
        if k >= 0 {
            Some((ns[k].1, m as usize))
        } else {
            None
        }
    } else {
        None
    }
}

proof fn lemma_bomb_target_unique(fs: Seq<Factory>, last: Option<usize>, m: int)
    requires
        is_bomb_target(fs, last, m),
    ensures
        exists|x: int| is_bomb_target(fs, last, x),
        (choose|x: int| is_bomb_target(fs, last, x)) == m,
{
    let x = choose|x: int| is_bomb_target(fs, last, x);
    assert(bombable(fs, last, x));
    assert(bombable(fs, last, m));
}

/// After a bomb on `t` (which `compute_bomb` records as the last target),
/// the next bomb goes elsewhere: a state whose last target is `t` never
/// chooses `t`, whatever its factories.
pub proof fn lemma_bomb_not_repeated(
    fs: Seq<Factory>,
    nbs: Seq<Vec<Neighbor>>,
    count: i64,
    t: usize,
)
    ensures
        match bomb_choice(fs, nbs, count, Some(t)) {
            Some(b) => b.1 != t,
            None => true,
        },
{
    if bomb_choice(fs, nbs, count, Some(t)) is Some {
        let m = choose|m: int| is_bomb_target(fs, Some(t), m);
        assert(bombable(fs, Some(t), m));
    }
}

impl GameState {
    /// The bombable factory with the largest garrison, lowest id first.
    fn bomb_target(&self) -> (r: Option<usize>)
        requires
            self.wf(),
        ensures
            r.is_none() ==> !exists|m: int| is_bomb_target(self.factories@, self.bomb_last, m),
            r.is_some() ==> is_bomb_target(self.factories@, self.bomb_last, r.unwrap() as int),
    {
        let ghost fs = self.factories@;
        let ghost last = self.bomb_last;
        let n = self.factories.len();
        let mut best: Option<usize> = None;
        let mut i: usize = 0;
        while i < n
            invariant
                i <= n,
                n == fs.len(),
                self.factories@ == fs,
                self.bomb_last == last,
                best.is_none() ==> forall|j: int| j < i ==> !#[trigger] bombable(fs, last, j),
                best.is_some() ==> {
                    let m = best.unwrap() as int;
                    &&& m < i
                    &&& bombable(fs, last, m)
                    &&& forall|j: int|
                        j < i && #[trigger] bombable(fs, last, j) ==> fs[j].garrison
                            <= fs[m].garrison
                    &&& forall|j: int|
                        j < m && #[trigger] bombable(fs, last, j) ==> fs[j].garrison
                            < fs[m].garrison
                },
            decreases n - i,
        {
            let f = self.factories[i];
            let candidate = f.owner == Owner::Enemy && f.production > 2 && match self.bomb_last {
                Some(b) => b != i,
                None => true,
            };
            if candidate {
                match best {
                    None => {
                        best = Some(i);
                    },
                    Some(m) => {
                        if f.garrison > self.factories[m].garrison {
                            best = Some(i);
                        }
                    },
                }
            }
            i = i + 1;
        }
        if best.is_none() {
            proof {
                assert forall|m: int| !is_bomb_target(fs, last, m) by {
                    if bombable(fs, last, m) {
                        assert(m < n);
                    }
                }
            }
        }
        best
    }

    /// While bombs remain, sends one to the bombable factory with the
    /// largest garrison, from the player's factory nearest to it.
    pub fn compute_bomb(&mut self)
        requires
            old(self).wf(),
        ensures
            final(self).wf(),
            match bomb_choice(
                old(self).factories@,
                old(self).neighbors@,
                old(self).bomb_count,
                old(self).bomb_last,
            ) {
                Some(b) => {
                    &&& final(self).bomb_count == old(self).bomb_count - 1
                    &&& final(self).bomb_last == Some(b.1)
                    &&& final(self).commands@ == old(self).commands@.push(Command::Bomb(b.0, b.1))
                },
                None => {
                    &&& final(self).bomb_count == old(self).bomb_count
                    &&& final(self).bomb_last == old(self).bomb_last
                    &&& final(self).commands@ == old(self).commands@
                },
            },
            final(self).links == old(self).links,
            final(self).neighbors == old(self).neighbors,
            final(self).factories == old(self).factories,
            final(self).troops == old(self).troops,
            final(self).orders == old(self).orders,
    {
        if self.bomb_count == 0 {
            return ;
        }
        let ghost fs = self.factories@;
        let ghost nbs = self.neighbors@;
        let target = self.bomb_target();
        match target {
            None => {},
            Some(m) => {
                proof {
                    lemma_bomb_target_unique(fs, self.bomb_last, m as int);
                }
                let ghost ns = nbs[m as int]@;
                let len = self.neighbors[m].len();
                let mut k: usize = 0;
                while k < len
                    invariant
                        self.wf(),
                        fs == self.factories@,
                        nbs == self.neighbors@,
                        fs == old(self).factories@,
                        nbs == old(self).neighbors@,
                        self.bomb_count == old(self).bomb_count,
                        self.bomb_last == old(self).bomb_last,
                        self.commands == old(self).commands,
                        self.links == old(self).links,
                        self.neighbors == old(self).neighbors,
                        self.factories == old(self).factories,
                        self.troops == old(self).troops,
                        self.orders == old(self).orders,
                        self.bomb_count != 0,
                        m < fs.len(),
                        exists|x: int| is_bomb_target(fs, self.bomb_last, x),
                        (choose|x: int| is_bomb_target(fs, self.bomb_last, x)) == m as int,
                        ns == nbs[m as int]@,
                        len == ns.len(),
                        k <= len,
                        bomber_from(fs, ns, 0) == bomber_from(fs, ns, k as int),
                    decreases len - k,
                {
                    let nb = self.neighbors[m][k];
                    proof {
                        assert(nb == self.neighbors@[m as int]@[k as int]);
                    }
                    if self.factories[nb.1].owner == Owner::Player {
                        proof {
                            assert(bomber_from(fs, ns, k as int) == k as int);
                        }
                        self.bomb_count = self.bomb_count - 1;
                        self.bomb_last = Some(m);
                        self.commands.push(Command::Bomb(nb.1, m));
                        return ;
                    }
                    k = k + 1;
                }
            },
        }
    }
}

} // verus!
