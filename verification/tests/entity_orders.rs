use lycan::data::Stats;
use lycan::entity::{AttackState, Entity, EntityType, Error, MonsterData, PlayerData,
    DEFAULT_AI_SPEED_MILLI, DEFAULT_SPEED_MILLI};
use lycan::geometry::{Direction, Vec2};
use lycan::messages::{Notification, Order};

fn stats() -> Stats {
    Stats { level: 1, strength: 30, dexterity: 3, constitution: 4, intelligence: 5, precision: 6, wisdom: 7 }
}

fn player_entity(id: u64) -> Entity {
    Entity::new(
        id,
        EntityType::Player(PlayerData {
            name: String::from("alice"),
            id: 1,
            map: 7,
            experience: 0,
            gold: 0,
            guild: String::new(),
        }),
        Vec2 { x: 0, y: 0 },
        Direction::East,
        5,
        stats(),
        100,
    )
}

#[test]
fn walk_sets_orientation_and_walking() {
    let mut e = player_entity(11);
    assert!(!e.walking);
    let r = e.apply(Order::Walk(Some(Direction::North)));
    assert!(e.walking);
    assert!(e.get_orientation() == Direction::North);
    match r {
        Ok(Some(Notification::Walk { entity, orientation })) => {
            assert_eq!(entity, 11);
            assert!(orientation == Some(Direction::North));
        }
        _ => panic!("expected a Walk notification"),
    }
}

#[test]
fn walk_none_stops_without_turning() {
    let mut e = player_entity(11);
    let _ = e.apply(Order::Walk(Some(Direction::West)));
    let _ = e.apply(Order::Walk(None));
    assert!(!e.walking);
    assert!(e.get_orientation() == Direction::West);
}

#[test]
fn attack_from_idle_starts_attacking() {
    let mut e = player_entity(11);
    let r = e.apply(Order::Attack);
    assert!(matches!(r, Ok(None)));
    assert!(matches!(e.attacking, AttackState::Attacking));
}

#[test]
fn attack_while_attacking_is_refused() {
    let mut e = player_entity(11);
    let _ = e.apply(Order::Attack);
    let r = e.apply(Order::Attack);
    assert!(matches!(r, Err(Error::AlreadyAttacking)));
    assert!(matches!(e.attacking, AttackState::Attacking));
}

#[test]
fn attack_while_reloading_is_refused() {
    let mut e = player_entity(11);
    e.attacking = AttackState::Reloading(500_000_000);
    let r = e.apply(Order::Attack);
    assert!(matches!(r, Err(Error::AlreadyAttacking)));
    assert!(matches!(e.attacking, AttackState::Reloading(500_000_000)));
}

#[test]
fn say_changes_nothing_and_notifies() {
    let mut e = player_entity(4);
    let r = e.apply(Order::Say(vec![104, 105]));
    match r {
        Ok(Some(Notification::Say { entity, message })) => {
            assert_eq!(entity, 4);
            assert_eq!(message, vec![104, 105]);
        }
        _ => panic!("expected a Say notification"),
    }
    assert!(!e.walking);
}

#[test]
fn nominal_speeds_by_kind() {
    let p = player_entity(1);
    assert_eq!(p.get_nominal_speed(), DEFAULT_SPEED_MILLI);
    let m = Entity::new(
        2,
        EntityType::Monster(MonsterData { class: 9 }),
        Vec2 { x: 0, y: 0 },
        Direction::South,
        5,
        stats(),
        100,
    );
    assert_eq!(m.get_nominal_speed(), DEFAULT_AI_SPEED_MILLI);
    assert!(p.is_player() && !p.is_monster());
    assert!(m.is_monster() && !m.is_player());
}

#[test]
fn player_record_round_trips_through_entity() {
    let e = player_entity(12);
    let p = e.into_player().expect("player entity yields a record");
    assert_eq!(p.id, 1);
    assert_eq!(p.current_pv, 100);
    assert_eq!(p.position.map, 7);
    let m = Entity::new(
        2,
        EntityType::Monster(MonsterData { class: 9 }),
        Vec2 { x: 0, y: 0 },
        Direction::South,
        5,
        stats(),
        100,
    );
    assert!(m.into_player().is_none());
}
