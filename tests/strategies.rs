use factory_ai::entity::Troop;
use factory_ai::game::{Command, GameState};
use factory_ai::owner::Owner;
use factory_ai::random::rnd_range;

fn world(
    n: usize,
    links: &[(usize, usize, i64)],
    factories: &[(Owner, i64, i64)],
    troops: &[Troop],
) -> GameState {
    let mut s = GameState::new();
    for &(a, b, d) in links {
        s.add_link(a, b, d);
    }
    s.init_factories_distance(n);
    for (i, &(o, g, p)) in factories.iter().enumerate() {
        s.set_factory(i, o, g, p);
    }
    s.begin_tick();
    for t in troops {
        s.add_troop(*t);
    }
    s
}

fn order(source: usize, destination: usize, size: i64, ticks: i64) -> Troop {
    Troop { owner: Owner::Player, source, destination, size, ticks }
}

fn triangle() -> Vec<(usize, usize, i64)> {
    vec![(0, 1, 5), (0, 2, 2), (1, 2, 4)]
}

#[test]
fn max_strategy_sends_everything_to_nearest_producing_target() {
    let mut s = world(
        3,
        &triangle(),
        &[(Owner::Player, 10, 0), (Owner::Player, 3, 0), (Owner::Neutral, 4, 1)],
        &[],
    );
    s.max_strategy();
    assert_eq!(s.orders, vec![order(0, 2, 10, 2)]);
    assert_eq!(s.factories[0].uncommitted, 0);
    assert_eq!(s.print_commands(), "MSG El Psy Congroo;MOVE 0 2 10");
}

#[test]
fn max_strategy_ties_go_to_the_lowest_id() {
    let mut s = world(
        3,
        &triangle(),
        &[(Owner::Player, 7, 0), (Owner::Player, 7, 0), (Owner::Enemy, 4, 2)],
        &[],
    );
    s.max_strategy();
    assert_eq!(s.orders, vec![order(0, 2, 7, 2)]);
}

#[test]
fn max_strategy_without_player_or_target_does_nothing() {
    let mut s = world(
        3,
        &triangle(),
        &[(Owner::Enemy, 7, 1), (Owner::Neutral, 7, 0), (Owner::Enemy, 4, 2)],
        &[],
    );
    s.max_strategy();
    assert!(s.orders.is_empty());
    let mut t = world(
        3,
        &triangle(),
        &[(Owner::Player, 7, 1), (Owner::Neutral, 7, 0), (Owner::Player, 4, 2)],
        &[],
    );
    t.max_strategy();
    assert!(t.orders.is_empty());
}

#[test]
fn neutral_first_takes_uncontested_neutrals() {
    let mut s = world(
        4,
        &[(0, 1, 2), (0, 2, 3), (0, 3, 9), (1, 2, 4), (1, 3, 8), (2, 3, 7)],
        &[
            (Owner::Player, 10, 1),
            (Owner::Neutral, 3, 2),
            (Owner::Neutral, 4, 1),
            (Owner::Enemy, 20, 3),
        ],
        &[],
    );
    s.neutral_first_strategy();
    assert_eq!(s.orders, vec![order(0, 1, 4, 2), order(0, 2, 5, 3)]);
    assert_eq!(s.factories[0].uncommitted, 1);
}

#[test]
fn neutral_first_skips_contested_and_falls_back_to_max() {
    let mut s = world(
        3,
        &[(0, 1, 5), (1, 2, 1), (0, 2, 9)],
        &[(Owner::Player, 10, 1), (Owner::Neutral, 3, 2), (Owner::Enemy, 20, 3)],
        &[],
    );
    s.neutral_first_strategy();
    // the enemy is nearer to the neutral factory: max_strategy decides
    assert_eq!(s.orders, vec![order(0, 1, 10, 5)]);
}

#[test]
fn neutral_first_needs_more_than_the_garrison() {
    let mut s = world(
        3,
        &triangle(),
        &[(Owner::Player, 4, 1), (Owner::Neutral, 4, 2), (Owner::Enemy, 20, 3)],
        &[],
    );
    s.neutral_first_strategy();
    // no claim: max_strategy sends the four cyborgs to the nearest target
    assert_eq!(s.orders, vec![order(0, 2, 4, 2)]);
}

#[test]
fn defend_reinforces_a_factory_that_would_fall() {
    let mut s = world(
        3,
        &[(0, 1, 2), (0, 2, 5), (1, 2, 6)],
        &[(Owner::Player, 5, 1), (Owner::Player, 12, 0), (Owner::Enemy, 30, 0)],
        &[Troop { owner: Owner::Enemy, source: 2, destination: 0, size: 20, ticks: 3 }],
    );
    s.defend_strategy();
    // captured at tick 3 with 12 enemy cyborgs: 12 - 3 * 1 = 9 needed
    assert_eq!(s.orders, vec![order(1, 0, 9, 2)]);
    assert_eq!(s.factories[0].uncommitted, 0);
    assert_eq!(s.factories[1].uncommitted, 3);
    assert!(s.commands.is_empty());
}

#[test]
fn defend_needs_a_helper_close_enough() {
    let mut s = world(
        3,
        &[(0, 1, 4), (0, 2, 5), (1, 2, 6)],
        &[(Owner::Player, 5, 1), (Owner::Player, 12, 0), (Owner::Enemy, 30, 1)],
        &[Troop { owner: Owner::Enemy, source: 2, destination: 0, size: 20, ticks: 3 }],
    );
    s.defend_strategy();
    // the helper is 4 ticks away, too far; factory 0 has nothing to spare and
    // factory 1 falls back on the nearest target
    assert_eq!(s.orders, vec![order(1, 2, 12, 6)]);
}

#[test]
fn defend_sends_at_least_two() {
    let mut s = world(
        3,
        &[(0, 1, 1), (0, 2, 5), (1, 2, 6)],
        &[(Owner::Player, 5, 4), (Owner::Player, 12, 0), (Owner::Enemy, 30, 0)],
        &[Troop { owner: Owner::Enemy, source: 2, destination: 0, size: 18, ticks: 2 }],
    );
    // tick 2: 5 + 4 + 4 = 13 against 18: captured with 5; 5 - 2 * 4 < 2
    assert_eq!(s.capture_forecast(0), (2, 5));
    s.defend_strategy();
    assert_eq!(s.orders, vec![order(1, 0, 2, 1)]);
}

#[test]
fn defend_upgrades_safe_rich_factories() {
    let mut s = world(
        3,
        &triangle(),
        &[(Owner::Player, 30, 0), (Owner::Player, 16, 0), (Owner::Enemy, 3, 1)],
        &[Troop { owner: Owner::Enemy, source: 2, destination: 1, size: 1, ticks: 9 }],
    );
    s.defend_strategy();
    assert_eq!(s.commands, vec![Command::Upgrade(0)]);
    assert_eq!(s.factories[1].uncommitted, 15);
    // nothing to reinforce, no neutral: the busiest factory sends the 20
    // cyborgs left after the upgrade
    assert_eq!(s.orders, vec![order(0, 2, 20, 2)]);
    assert_eq!(s.factories[0].uncommitted, 0);
}

#[test]
fn bomb_targets_the_largest_enemy_and_never_twice_in_a_row() {
    let mut s = world(
        4,
        &[(0, 1, 2), (0, 2, 3), (0, 3, 4), (1, 2, 5), (1, 3, 6), (2, 3, 7)],
        &[
            (Owner::Player, 10, 1),
            (Owner::Enemy, 30, 3),
            (Owner::Enemy, 20, 3),
            (Owner::Enemy, 50, 2),
        ],
        &[],
    );
    s.compute_bomb();
    assert_eq!(s.commands, vec![Command::Bomb(0, 1)]);
    assert_eq!(s.bomb_count, 1);
    assert_eq!(s.bomb_last, Some(1));
    s.commands.clear();
    s.compute_bomb();
    assert_eq!(s.commands, vec![Command::Bomb(0, 2)]);
    assert_eq!(s.bomb_count, 0);
    s.commands.clear();
    s.compute_bomb();
    assert!(s.commands.is_empty());
}

#[test]
fn bomb_skips_the_last_target_when_it_is_the_only_one() {
    let mut s = world(
        2,
        &[(0, 1, 3)],
        &[(Owner::Player, 10, 1), (Owner::Enemy, 30, 3)],
        &[],
    );
    s.compute_bomb();
    assert_eq!(s.commands, vec![Command::Bomb(0, 1)]);
    s.commands.clear();
    s.compute_bomb();
    assert!(s.commands.is_empty());
    assert_eq!(s.bomb_count, 1);
}

#[test]
fn bomb_needs_a_player_factory() {
    let mut s = world(
        2,
        &[(0, 1, 3)],
        &[(Owner::Neutral, 10, 1), (Owner::Enemy, 30, 3)],
        &[],
    );
    s.compute_bomb();
    assert!(s.commands.is_empty());
    assert_eq!(s.bomb_count, 2);
    assert_eq!(s.bomb_last, None);
}

#[test]
fn swarm_harasses_every_other_factory() {
    let mut s = world(
        3,
        &triangle(),
        &[(Owner::Player, 4, 0), (Owner::Player, 2, 0), (Owner::Enemy, 3, 0)],
        &[],
    );
    s.swarm_strategy();
    // only factory 0 has more than 3 cyborgs
    assert_eq!(s.orders, vec![order(0, 2, 1, 2)]);
    assert_eq!(s.factories[0].garrison, 4);
}

#[test]
fn random_order_follows_its_draws() {
    let mut s = world(
        3,
        &triangle(),
        &[(Owner::Player, 9, 0), (Owner::Neutral, 2, 0), (Owner::Enemy, 3, 0)],
        &[],
    );
    s.random_order(0, 4, 1);
    assert_eq!(s.orders, vec![order(0, 1, 4, 5)]);
    assert_eq!(s.factories[0].uncommitted, 5);
    s.random_order(0, 0, 0);
    s.random_order(0, 2, 7);
    s.random_order(2, 1, 0);
    assert_eq!(s.orders.len(), 1);
}

#[test]
fn random_strategy_only_moves_player_cyborgs() {
    let mut s = world(
        3,
        &triangle(),
        &[(Owner::Player, 9, 0), (Owner::Neutral, 2, 0), (Owner::Enemy, 3, 0)],
        &[],
    );
    s.random_strategy();
    assert!(s.orders.len() <= 1);
    for o in &s.orders {
        assert_eq!(o.source, 0);
        assert!(o.size >= 1 && o.size <= 9);
        assert_eq!(s.factories[0].uncommitted, 9 - o.size);
    }
}

#[test]
fn rnd_range_stays_below_its_bound() {
    let mut seen_nonzero = false;
    for _ in 0..200 {
        let r = rnd_range(5);
        assert!((0..5).contains(&r));
        if r != 0 {
            seen_nonzero = true;
        }
    }
    assert!(seen_nonzero);
    assert_eq!(rnd_range(1), 0);
}

#[test]
fn print_commands_lists_commands_then_moves_and_clears() {
    let mut s = world(
        3,
        &triangle(),
        &[(Owner::Player, 30, 0), (Owner::Player, 16, 0), (Owner::Enemy, 3, 0)],
        &[],
    );
    s.commands.push(Command::Upgrade(0));
    s.commands.push(Command::Bomb(1, 2));
    s.orders.push(order(0, 2, 12, 2));
    assert_eq!(s.print_commands(), "MSG El Psy Congroo;INC 0;BOMB 1 2;MOVE 0 2 12");
    assert!(s.commands.is_empty());
    assert!(s.orders.is_empty());
    assert_eq!(s.print_commands(), "MSG El Psy Congroo");
}

#[test]
fn print_factories_reports_each_factory() {
    let s = world(
        3,
        &triangle(),
        &[(Owner::Player, 30, 1), (Owner::Neutral, 0, 0), (Owner::Enemy, 105, 3)],
        &[],
    );
    assert_eq!(s.print_factories(), "0 1 30 1\n1 0 0 0\n2 -1 105 3\n");
}

#[test]
fn defend_within_budget_matches_defend() {
    let make = || {
        world(
            3,
            &[(0, 1, 2), (0, 2, 5), (1, 2, 6)],
            &[(Owner::Player, 5, 1), (Owner::Player, 12, 0), (Owner::Enemy, 30, 1)],
            &[Troop { owner: Owner::Enemy, source: 2, destination: 0, size: 20, ticks: 3 }],
        )
    };
    let mut timed = make();
    timed.defend_strategy_within(&std::time::Instant::now(), 60_000);
    assert_eq!(timed.orders, vec![order(1, 0, 9, 2)]);
    let mut plain = make();
    plain.defend_strategy();
    assert_eq!(timed.orders, plain.orders);
    assert_eq!(timed.factories, plain.factories);
}

#[test]
fn defend_out_of_time_falls_back_to_max() {
    let mut s = world(
        3,
        &[(0, 1, 2), (0, 2, 5), (1, 2, 6)],
        &[(Owner::Player, 5, 1), (Owner::Player, 12, 0), (Owner::Enemy, 30, 1)],
        &[Troop { owner: Owner::Enemy, source: 2, destination: 0, size: 20, ticks: 3 }],
    );
    s.defend_strategy_within(&std::time::Instant::now(), 0);
    // no lookahead: the busiest factory left after the threat accounting attacks
    assert_eq!(s.orders, vec![order(1, 2, 12, 6)]);
    assert_eq!(s.factories[0].uncommitted, 0);
}
