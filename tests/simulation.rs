use factory_ai::entity::{Factory, Troop};
use factory_ai::game::GameState;
use factory_ai::owner::Owner;

fn world(
    n: usize,
    links: &[(usize, usize, i64)],
    factories: &[(Owner, i64, i64)],
    troops: &[Troop],
) -> GameState {
    let mut s = GameState::new();
    for &(a, b, d) in links {
        s.add_link(a, b, d);
    }
    s.init_factories_distance(n);
    for (i, &(o, g, p)) in factories.iter().enumerate() {
        s.set_factory(i, o, g, p);
    }
    s.begin_tick();
    for t in troops {
        s.add_troop(*t);
    }
    s
}

fn troop(owner: Owner, source: usize, destination: usize, size: i64, ticks: i64) -> Troop {
    Troop { owner, source, destination, size, ticks }
}

fn triangle() -> Vec<(usize, usize, i64)> {
    vec![(0, 1, 2), (0, 2, 5), (1, 2, 4)]
}

fn balance(s: &GameState) -> i64 {
    let mut b = 0;
    for f in &s.factories {
        b += f.garrison * f.owner.code();
    }
    for t in &s.troops {
        b += t.size * t.owner.code();
    }
    b
}

#[test]
fn owned_combat_tie_keeps_owner_with_empty_garrison() {
    let mut s = world(
        3,
        &triangle(),
        &[(Owner::Enemy, 4, 0), (Owner::Player, 10, 0), (Owner::Neutral, 0, 0)],
        &[troop(Owner::Player, 1, 0, 4, 1)],
    );
    s.sim_next_turn();
    assert_eq!(s.factories[0].owner, Owner::Enemy);
    assert_eq!(s.factories[0].garrison, 0);
    assert!(s.troops.is_empty());
}

#[test]
fn player_side_combat_tie_keeps_owner() {
    let mut s = world(
        3,
        &triangle(),
        &[(Owner::Player, 4, 0), (Owner::Enemy, 10, 0), (Owner::Neutral, 0, 0)],
        &[troop(Owner::Enemy, 1, 0, 4, 1)],
    );
    s.sim_next_turn();
    assert_eq!(s.factories[0].owner, Owner::Player);
    assert_eq!(s.factories[0].garrison, 0);
}

#[test]
fn neutral_capture_by_player() {
    let mut s = world(
        3,
        &triangle(),
        &[(Owner::Neutral, 5, 0), (Owner::Player, 20, 0), (Owner::Enemy, 20, 0)],
        &[troop(Owner::Player, 1, 0, 10, 1)],
    );
    s.sim_next_turn();
    assert_eq!(s.factories[0].owner, Owner::Player);
    assert_eq!(s.factories[0].garrison, 5);
}

#[test]
fn neutral_capture_by_enemy() {
    let mut s = world(
        3,
        &triangle(),
        &[(Owner::Neutral, 5, 0), (Owner::Player, 20, 0), (Owner::Enemy, 20, 0)],
        &[troop(Owner::Enemy, 2, 0, 10, 1)],
    );
    s.sim_next_turn();
    assert_eq!(s.factories[0].owner, Owner::Enemy);
    assert_eq!(s.factories[0].garrison, 5);
}

#[test]
fn neutral_holds_against_small_attack() {
    let mut s = world(
        3,
        &triangle(),
        &[(Owner::Neutral, 5, 3), (Owner::Player, 20, 0), (Owner::Enemy, 20, 0)],
        &[troop(Owner::Player, 1, 0, 3, 1)],
    );
    s.sim_next_turn();
    assert_eq!(s.factories[0].owner, Owner::Neutral);
    assert_eq!(s.factories[0].garrison, 2);
}

#[test]
fn reinforcement_joins_garrison_and_production_adds() {
    let mut s = world(
        3,
        &triangle(),
        &[(Owner::Player, 5, 2), (Owner::Player, 20, 1), (Owner::Neutral, 7, 3)],
        &[troop(Owner::Player, 1, 0, 6, 1), troop(Owner::Player, 1, 2, 3, 4)],
    );
    s.sim_next_turn();
    assert_eq!(s.factories[0].garrison, 13);
    assert_eq!(s.factories[1].garrison, 21);
    // neutral factories do not produce
    assert_eq!(s.factories[2].garrison, 7);
    assert_eq!(s.troops, vec![troop(Owner::Player, 1, 2, 3, 3)]);
}

#[test]
fn advance_is_deterministic() {
    let make = || {
        world(
            3,
            &triangle(),
            &[(Owner::Player, 9, 2), (Owner::Enemy, 6, 1), (Owner::Neutral, 3, 1)],
            &[
                troop(Owner::Player, 0, 1, 7, 1),
                troop(Owner::Enemy, 1, 2, 5, 1),
                troop(Owner::Player, 0, 2, 2, 3),
            ],
        )
    };
    let mut a = make();
    let mut b = make();
    a.sim_next_turn();
    b.sim_next_turn();
    assert_eq!(a.factories, b.factories);
    assert_eq!(a.troops, b.troops);
    a.sim_next_turn();
    b.sim_next_turn();
    assert_eq!(a.factories, b.factories);
    assert_eq!(a.troops, b.troops);
}

#[test]
fn order_is_paid_at_departure_whatever_the_distance() {
    let mut s = world(
        3,
        &[(0, 1, 9), (0, 2, 2), (1, 2, 4)],
        &[(Owner::Player, 10, 0), (Owner::Neutral, 2, 3), (Owner::Enemy, 0, 0)],
        &[],
    );
    s.max_strategy();
    assert_eq!(s.orders.len(), 1);
    let sent = s.orders[0];
    assert_eq!(sent.size, 10);
    s.sim_next_turn();
    assert_eq!(s.factories[0].garrison, 0);
    assert!(s.orders.is_empty());
    assert_eq!(s.troops, vec![sent]);
}

#[test]
fn conservation_through_a_fight() {
    let mut s = world(
        3,
        &triangle(),
        &[(Owner::Player, 10, 2), (Owner::Enemy, 6, 1), (Owner::Neutral, 3, 0)],
        &[troop(Owner::Player, 0, 1, 4, 1), troop(Owner::Enemy, 1, 0, 2, 3)],
    );
    let before = balance(&s);
    s.sim_next_turn();
    assert_eq!(s.factories[1].owner, Owner::Enemy);
    assert_eq!(s.factories[1].garrison, 3);
    assert_eq!(balance(&s), before + 2 - 1);
}

#[test]
fn conservation_when_a_factory_changes_hands() {
    let mut s = world(
        3,
        &triangle(),
        &[(Owner::Player, 10, 2), (Owner::Enemy, 6, 1), (Owner::Neutral, 3, 0)],
        &[troop(Owner::Player, 0, 1, 12, 1)],
    );
    let before = balance(&s);
    s.sim_next_turn();
    assert_eq!(s.factories[1].owner, Owner::Player);
    assert_eq!(s.factories[1].garrison, 5);
    assert_eq!(balance(&s), before + 2 - 1);
}

#[test]
fn conservation_less_what_neutral_garrisons_absorb() {
    let mut s = world(
        3,
        &triangle(),
        &[(Owner::Player, 10, 2), (Owner::Enemy, 6, 1), (Owner::Neutral, 5, 4)],
        &[troop(Owner::Player, 0, 2, 3, 1), troop(Owner::Enemy, 1, 2, 1, 1)],
    );
    let before = balance(&s);
    s.sim_next_turn();
    // the neutral garrison stops the net attack of 2
    assert_eq!(s.factories[2].owner, Owner::Neutral);
    assert_eq!(s.factories[2].garrison, 3);
    assert_eq!(balance(&s), before + 2 - 1 - 2);
}

#[test]
fn capture_forecast_reports_the_capture_tick() {
    let s = world(
        3,
        &triangle(),
        &[(Owner::Player, 5, 1), (Owner::Player, 12, 0), (Owner::Enemy, 30, 0)],
        &[troop(Owner::Enemy, 2, 0, 20, 3)],
    );
    assert_eq!(s.capture_forecast(0), (3, 12));
    assert_eq!(s.capture_forecast(1), (0, 0));
}

#[test]
fn capture_forecast_beyond_horizon_is_none() {
    let s = world(
        3,
        &triangle(),
        &[(Owner::Player, 5, 1), (Owner::Player, 12, 0), (Owner::Enemy, 30, 0)],
        &[troop(Owner::Enemy, 2, 0, 50, 21)],
    );
    assert_eq!(s.capture_forecast(0), (0, 0));
}

#[test]
fn neighbour_lists_are_nearest_first_with_ties_by_id() {
    let mut s = GameState::new();
    s.add_link(0, 2, 3);
    s.add_link(1, 0, 3);
    s.add_link(0, 3, 1);
    s.add_link(1, 2, 4);
    s.add_link(1, 3, 2);
    s.add_link(2, 3, 6);
    s.init_factories_distance(4);
    assert_eq!(s.neighbors[0], vec![(1, 3), (3, 1), (3, 2)]);
    assert_eq!(s.neighbors[1], vec![(2, 3), (3, 0), (4, 2)]);
    assert_eq!(s.neighbors[3], vec![(1, 0), (2, 1), (6, 2)]);
    assert_eq!(
        s.factories[2],
        Factory { id: 2, owner: Owner::Neutral, garrison: 0, production: 0, uncommitted: 0 }
    );
}

#[test]
fn add_link_replaces_the_same_pair() {
    let mut s = GameState::new();
    s.add_link(0, 1, 3);
    s.add_link(1, 0, 7);
    assert_eq!(s.links, vec![(1, 0, 7)]);
    s.init_factories_distance(2);
    assert_eq!(s.neighbors[0], vec![(7, 1)]);
}

#[test]
fn new_state_has_two_bombs() {
    let s = GameState::new();
    assert_eq!(s.bomb_count, 2);
    assert_eq!(s.bomb_last, None);
    assert!(s.factories.is_empty());
}

#[test]
fn owner_codes() {
    assert_eq!(Owner::from_code(1), Some(Owner::Player));
    assert_eq!(Owner::from_code(-1), Some(Owner::Enemy));
    assert_eq!(Owner::from_code(0), Some(Owner::Neutral));
    assert_eq!(Owner::from_code(-99), None);
    assert_eq!(Owner::Enemy.code(), -1);
    assert!(Owner::Player.is_player());
    assert!(Owner::Neutral.is_neutral());
    assert!(!Owner::Neutral.is_enemy());
}

#[test]
fn evaluate_scores_garrisons_troops_and_projected_captures() {
    let s = world(
        3,
        &triangle(),
        &[(Owner::Player, 10, 2), (Owner::Enemy, 6, 1), (Owner::Neutral, 3, 3)],
        &[troop(Owner::Player, 0, 1, 8, 2), troop(Owner::Enemy, 1, 2, 5, 3)],
    );
    // factories: (10 + 20) - (6 + 10) = 14; troops: 8 - 5 = 3;
    // projected: factory 0 net +10 -> +20; factory 1 net -6 + 8 = +2 -> +10;
    // factory 2 net -5 -> -30.
    assert_eq!(s.evaluate(), 14 + 3 + 20 + 10 - 30);
}

#[test]
fn test_leaves_the_state_alone() {
    let mut s = world(
        3,
        &triangle(),
        &[(Owner::Player, 10, 2), (Owner::Enemy, 6, 1), (Owner::Neutral, 3, 3)],
        &[],
    );
    s.compute_bomb();
    let commands = s.commands.clone();
    s.test();
    assert_eq!(s.commands, commands);
}
