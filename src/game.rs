use vstd::prelude::*;

use crate::distance::{
    distinct_ids, is_neighbor_list, lemma_distinct_ids_len, linked, links_unique, neighbor_list,
    set_link, with_link, Link, Neighbor,
};
use crate::entity::{
    Factory, Troop, MAX_DISTANCE, MAX_FACTORIES, MAX_ORDERS, MAX_TROOPS, MAX_UNITS,
};
use crate::defend::copy_vec;
use crate::owner::Owner;
use crate::simulation::{
    advance, next_factories, next_troops, sim_limits, valid_troop, GROWTH, SIM_CAP,
};

verus! {

/// An order that is not a troop movement.
#[derive(Clone, Copy, Debug, PartialEq, Eq, Structural)]
pub enum Command {
    /// Spend cyborgs of a factory to raise its production.
    Upgrade(usize),
    /// Send a bomb from the first factory to the second.
    Bomb(usize, usize),
}

/// Everything the agent knows and has decided at a tick.
///
/// `neighbors[i]` is the routing order of factory `i`: the factories linked
/// to it, nearest first. `orders` are the movements decided at this tick,
/// `commands` the other orders.
pub struct GameState {
    pub links: Vec<Link>,
    pub neighbors: Vec<Vec<Neighbor>>,
    pub factories: Vec<Factory>,
    pub troops: Vec<Troop>,
    pub orders: Vec<Troop>,
    pub commands: Vec<Command>,
    pub bomb_count: i64,
    pub bomb_last: Option<usize>,
}

/// Bombs available at the start of a game.
pub const INITIAL_BOMBS: i64 = 2;

impl GameState {
    /// The state as the strategies see it at a tick.
    pub open spec fn wf(&self) -> bool {
        let n = self.factories@.len();
        &&& n == self.neighbors@.len()
        &&& n <= MAX_FACTORIES
        &&& self.troops@.len() <= MAX_TROOPS
        &&& self.orders@.len() <= MAX_ORDERS
        &&& forall|i: int|
            0 <= i < n ==> {
                let f = #[trigger] self.factories@[i];
                &&& f.id == i
                &&& 0 <= f.uncommitted <= f.garrison <= MAX_UNITS
                &&& 0 <= f.production <= MAX_UNITS
            }
        &&& forall|i: int| 0 <= i < n ==> (#[trigger] self.neighbors@[i])@.len() <= MAX_FACTORIES
        &&& forall|i: int, k: int|
            0 <= i < n && 0 <= k < self.neighbors@[i]@.len() ==> {
                let nb = #[trigger] self.neighbors@[i]@[k];
                1 <= nb.0 <= MAX_DISTANCE && nb.1 < n
            }
        &&& forall|k: int| 0 <= k < self.troops@.len() ==> valid_troop(#[trigger] self.troops@[k], n as int)
        &&& forall|k: int| 0 <= k < self.orders@.len() ==> valid_troop(#[trigger] self.orders@[k], n as int)
        &&& 0 <= self.bomb_count <= INITIAL_BOMBS
    }

    /// A state with no factory, no link and the bombs of a new game.
    pub fn new() -> (r: GameState)
        ensures
            r.links@.len() == 0,
            r.neighbors@.len() == 0,
            r.factories@.len() == 0,
            r.troops@.len() == 0,
            r.orders@.len() == 0,
            r.commands@.len() == 0,
            r.bomb_count == INITIAL_BOMBS,
            r.bomb_last.is_none(),
            r.wf(),
    {
        GameState {
            links: Vec::new(),
            neighbors: Vec::new(),
            factories: Vec::new(),
            troops: Vec::new(),
            orders: Vec::new(),
            commands: Vec::new(),
            bomb_count: INITIAL_BOMBS,
            bomb_last: None,
        }
    }

    /// Records the travel time between factories `a` and `b`, in place of
    /// any earlier one for that pair.
    pub fn add_link(&mut self, a: usize, b: usize, distance: i64)
        ensures
            final(self).links@ == with_link(old(self).links@, a, b, distance),
            links_unique(old(self).links@) ==> links_unique(final(self).links@),
            final(self).neighbors == old(self).neighbors,
            final(self).factories == old(self).factories,
            final(self).troops == old(self).troops,
            final(self).orders == old(self).orders,
            final(self).commands == old(self).commands,
            final(self).bomb_count == old(self).bomb_count,
            final(self).bomb_last == old(self).bomb_last,
    {
        set_link(&mut self.links, a, b, distance);
    }

    /// Creates factories `0 .. factory_count`, not yet seen (neutral, empty),
    /// and the neighbour list of each from the link table.
    pub fn init_factories_distance(&mut self, factory_count: usize)
        requires
            factory_count <= MAX_FACTORIES,
            links_unique(old(self).links@),
            forall|q: int|
                0 <= q < old(self).links@.len() ==> {
                    let l = #[trigger] old(self).links@[q];
                    l.0 < factory_count && l.1 < factory_count && 1 <= l.2 <= MAX_DISTANCE
                },
        ensures
            final(self).factories@.len() == factory_count,
            forall|i: int|
                0 <= i < factory_count ==> #[trigger] final(self).factories@[i] == (Factory {
                    id: i as usize,
                    owner: Owner::Neutral,
                    garrison: 0,
                    production: 0,
                    uncommitted: 0,
                }),
            final(self).neighbors@.len() == factory_count,
            forall|i: int|
                0 <= i < factory_count ==> is_neighbor_list(
                    #[trigger] final(self).neighbors@[i]@,
                    old(self).links@,
                    i,
                ),
            final(self).links == old(self).links,
            final(self).troops == old(self).troops,
            final(self).orders == old(self).orders,
            final(self).commands == old(self).commands,
            final(self).bomb_count == old(self).bomb_count,
            final(self).bomb_last == old(self).bomb_last,
            old(self).troops@.len() == 0 && old(self).orders@.len() == 0 && 0 <= old(self).bomb_count
                <= INITIAL_BOMBS ==> final(self).wf(),
    {
        let ghost ls = self.links@;
        let mut factories: Vec<Factory> = Vec::new();
        let mut neighbors: Vec<Vec<Neighbor>> = Vec::new();
        let mut i: usize = 0;
        while i < factory_count
            invariant
                i <= factory_count,
                self.links@ == ls,
                links_unique(ls),
                forall|q: int|
                    0 <= q < ls.len() ==> {
                        let l = #[trigger] ls[q];
                        l.0 < factory_count && l.1 < factory_count && 1 <= l.2 <= MAX_DISTANCE
                    },
                factories@.len() == i,
                neighbors@.len() == i,
                forall|j: int|
                    0 <= j < i ==> #[trigger] factories@[j] == (Factory {
                        id: j as usize,
                        owner: Owner::Neutral,
                        garrison: 0,
                        production: 0,
                        uncommitted: 0,
                    }),
                forall|j: int| 0 <= j < i ==> is_neighbor_list(#[trigger] neighbors@[j]@, ls, j),
                forall|j: int| 0 <= j < i ==> distinct_ids(#[trigger] neighbors@[j]@),
            decreases factory_count - i,
        {
            factories.push(
                Factory { id: i, owner: Owner::Neutral, garrison: 0, production: 0, uncommitted: 0 },
            );
            let ns = neighbor_list(&self.links, i);
            neighbors.push(ns);
            i = i + 1;
        }
        self.factories = factories;
        self.neighbors = neighbors;
        proof {
            let n = factory_count as int;
            assert forall|j: int, k: int|
                0 <= j < n && 0 <= k < self.neighbors@[j]@.len() implies {
                let nb = #[trigger] self.neighbors@[j]@[k];
                1 <= nb.0 <= MAX_DISTANCE && nb.1 < n
            } by {
                let nb = self.neighbors@[j]@[k];
                assert(self.neighbors@[j]@.contains(nb));
                assert(linked(ls, j, nb));
                let q = choose|q: int|
                    0 <= q < ls.len() && crate::distance::link_gives(#[trigger] ls[q], j, nb);
                assert(ls[q].0 < factory_count);
            }
            assert forall|j: int| 0 <= j < n implies (#[trigger] self.neighbors@[j])@.len()
                <= MAX_FACTORIES by {
                let ns = self.neighbors@[j]@;
                assert forall|k: int| 0 <= k < ns.len() implies (#[trigger] ns[k]).1 < n by {
                    assert(self.neighbors@[j]@[k] == ns[k]);
                }
                lemma_distinct_ids_len(ns, n);
            }
        }
    }

    /// Writes the snapshot of factory `id` for this tick; its whole garrison
    /// is uncommitted again.
    pub fn set_factory(&mut self, id: usize, owner: Owner, garrison: i64, production: i64)
        requires
            old(self).wf(),
            id < old(self).factories@.len(),
            0 <= garrison <= MAX_UNITS,
            0 <= production <= MAX_UNITS,
        ensures
            final(self).wf(),
            old(self).fresh() ==> final(self).fresh(),
            final(self).factories@ == old(self).factories@.update(
                id as int,
                Factory { id, owner, garrison, production, uncommitted: garrison },
            ),
            final(self).links == old(self).links,
            final(self).neighbors == old(self).neighbors,
            final(self).troops == old(self).troops,
            final(self).orders == old(self).orders,
            final(self).commands == old(self).commands,
            final(self).bomb_count == old(self).bomb_count,
            final(self).bomb_last == old(self).bomb_last,
    {
        self.factories.set(id, Factory { id, owner, garrison, production, uncommitted: garrison });
    }

    /// Starts the snapshot of a tick: the troops of the previous one are
    /// forgotten and every garrison is uncommitted again.
    pub fn begin_tick(&mut self)
        requires
            old(self).wf(),
        ensures
            final(self).wf(),
            final(self).fresh(),
            final(self).troops@.len() == 0,
            final(self).factories@.len() == old(self).factories@.len(),
            forall|i: int|
                0 <= i < old(self).factories@.len() ==> #[trigger] final(self).factories@[i] == (
                Factory { uncommitted: old(self).factories@[i].garrison, ..old(self).factories@[i] }),
            final(self).links == old(self).links,
            final(self).neighbors == old(self).neighbors,
            final(self).orders == old(self).orders,
            final(self).commands == old(self).commands,
            final(self).bomb_count == old(self).bomb_count,
            final(self).bomb_last == old(self).bomb_last,
    {
        self.troops.clear();
        let n = self.factories.len();
        let mut i: usize = 0;
        while i < n
            invariant
                self.wf(),
                i <= n,
                n == old(self).factories@.len(),
                self.factories@.len() == n,
                self.troops@.len() == 0,
                forall|j: int|
                    0 <= j < i ==> #[trigger] self.factories@[j] == (Factory {
                        uncommitted: old(self).factories@[j].garrison,
                        ..old(self).factories@[j]
                    }),
                forall|j: int| i <= j < n ==> #[trigger] self.factories@[j] == old(self).factories@[j],
                self.links == old(self).links,
                self.neighbors == old(self).neighbors,
                self.orders == old(self).orders,
                self.commands == old(self).commands,
                self.bomb_count == old(self).bomb_count,
                self.bomb_last == old(self).bomb_last,
            decreases n - i,
        {
            let f = self.factories[i];
            self.factories.set(i, Factory { uncommitted: f.garrison, ..f });
            i = i + 1;
        }
    }

    /// Adds a troop of the snapshot.
    pub fn add_troop(&mut self, troop: Troop)
        requires
            old(self).wf(),
            old(self).troops@.len() < MAX_TROOPS,
            valid_troop(troop, old(self).factories@.len() as int),
        ensures
            final(self).wf(),
            final(self).troops@ == old(self).troops@.push(troop),
            final(self).links == old(self).links,
            final(self).neighbors == old(self).neighbors,
            final(self).factories == old(self).factories,
            final(self).orders == old(self).orders,
            final(self).commands == old(self).commands,
            final(self).bomb_count == old(self).bomb_count,
            final(self).bomb_last == old(self).bomb_last,
    {
        self.troops.push(troop);
    }

    /// Plays one tick on this state (see `advance`).
    pub fn sim_next_turn(&mut self)
        requires
            sim_limits(
                old(self).factories@,
                old(self).troops@,
                old(self).orders@,
                SIM_CAP - GROWTH,
            ),
        ensures
            final(self).factories@ == next_factories(
                old(self).factories@,
                old(self).troops@,
                old(self).orders@,
            ),
            final(self).troops@ == next_troops(old(self).troops@, old(self).orders@),
            final(self).orders@.len() == 0,
            final(self).links == old(self).links,
            final(self).neighbors == old(self).neighbors,
            final(self).commands == old(self).commands,
            final(self).bomb_count == old(self).bomb_count,
            final(self).bomb_last == old(self).bomb_last,
    {
        advance(&mut self.factories, &mut self.troops, &mut self.orders);
    }

    /// Takes a copy of the order lists and empties the copy; the state itself
    /// is left as it was.
    pub fn test(&mut self)
        ensures
            final(self).links == old(self).links,
            final(self).neighbors == old(self).neighbors,
            final(self).factories == old(self).factories,
            final(self).troops == old(self).troops,
            final(self).orders == old(self).orders,
            final(self).commands == old(self).commands,
            final(self).bomb_count == old(self).bomb_count,
            final(self).bomb_last == old(self).bomb_last,
    {
        let mut scratch = copy_vec(&self.commands);
        scratch.clear();
    }
}

} // verus!
