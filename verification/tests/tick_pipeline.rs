use lycan::actor::NetworkActor;
use lycan::data::Stats;
use lycan::entity::{Entity, EntityType, MonsterData, PlayerData};
use lycan::geometry::{Direction, Vec2};
use lycan::instance::{Instance, TickEvent};
use lycan::messages::{Command, EntityOrder, NetworkCommand, Notification, Order, Request};
use lycan::update::StrengthRules;

const TICK_US: u32 = 16_666;

fn area() -> Vec2 {
    Vec2 { x: 100_000_000_000, y: 100_000_000_000 }
}

fn stats(strength: u64) -> Stats {
    Stats { level: 1, strength, dexterity: 3, constitution: 4, intelligence: 5, precision: 6, wisdom: 7 }
}

fn player_entity(id: u64, uuid: u128, x: i64, y: i64, strength: u64, pv: u64) -> Entity {
    Entity::new(
        id,
        EntityType::Player(PlayerData {
            name: String::from("p"),
            id: uuid,
            map: 7,
            experience: 0,
            gold: 0,
            guild: String::new(),
        }),
        Vec2 { x, y },
        Direction::East,
        5,
        stats(strength),
        pv,
    )
}

fn join(instance: &mut Instance, actor_id: u64, entity: Entity) {
    let mut actor = NetworkActor::new(actor_id);
    actor.register_entity(entity.get_id());
    let mut out: Vec<Request> = Vec::new();
    let done = instance.apply(Command::NewClient(actor, vec![entity]), &mut out);
    assert!(!done);
}

fn send_order(instance: &mut Instance, actor_id: u64, entity: u64, order: Order) {
    let pushed = instance.push_client_command(
        actor_id,
        NetworkCommand::EntityOrder(EntityOrder { entity, order }),
    );
    assert!(pushed);
}

#[test]
fn walk_integration_one_second() {
    let mut instance = Instance::new(1, 7, TICK_US, area(), 0);
    join(&mut instance, 100, player_entity(10, 1, 0, 0, 30, 100));
    send_order(&mut instance, 100, 10, Order::Walk(Some(Direction::East)));
    let mut rules = StrengthRules;
    let mut out: Vec<Request> = Vec::new();
    let mut t = 0;
    while t < 60 {
        let _ = instance.calculate_tick(&mut rules, &mut out);
        t += 1;
    }
    let listing = instance.get_entities();
    assert_eq!(listing.len(), 1);
    let x = listing[0].position.x;
    assert!(x >= 9_950_000_000 && x <= 10_050_000_000, "x was {}", x);
    assert_eq!(listing[0].position.y, 0);
}

#[test]
fn walk_round_trips_to_the_originating_client() {
    let mut instance = Instance::new(1, 7, TICK_US, area(), 0);
    join(&mut instance, 100, player_entity(10, 1, 0, 0, 30, 100));
    let _ = instance.take_outboxes();
    send_order(&mut instance, 100, 10, Order::Walk(Some(Direction::North)));
    let mut rules = StrengthRules;
    let mut out: Vec<Request> = Vec::new();
    let _ = instance.calculate_tick(&mut rules, &mut out);
    let outboxes = instance.take_outboxes();
    assert_eq!(outboxes.len(), 1);
    assert_eq!(outboxes[0].0, 100);
    let seen = outboxes[0].1.iter().any(|n| match n {
        Notification::Walk { entity, orientation } => {
            *entity == 10 && *orientation == Some(Direction::North)
        }
        _ => false,
    });
    assert!(seen, "the originating client observes its Walk in the same tick");
}

#[test]
fn game_update_counts_every_surviving_entity() {
    let mut instance = Instance::new(1, 7, TICK_US, area(), 0);
    join(&mut instance, 100, player_entity(10, 1, 0, 0, 30, 100));
    join(&mut instance, 101, player_entity(11, 2, 5_000_000_000, 0, 30, 100));
    let _ = instance.take_outboxes();
    let mut rules = StrengthRules;
    let mut out: Vec<Request> = Vec::new();
    let _ = instance.calculate_tick(&mut rules, &mut out);
    let outboxes = instance.take_outboxes();
    let last = outboxes[0].1.last().expect("a tick broadcasts at least the update");
    match last {
        Notification::GameUpdate { tick_id, entities } => {
            assert_eq!(*tick_id, 0);
            assert_eq!(entities.len(), instance.get_entities().len());
            assert_eq!(entities.len(), 2);
        }
        _ => panic!("the tick's last notification is the GameUpdate"),
    }
}

#[test]
fn attack_damages_the_target_once() {
    let mut instance = Instance::new(1, 7, TICK_US, area(), 0);
    join(&mut instance, 100, player_entity(10, 1, 0, 0, 30, 100));
    join(&mut instance, 101, player_entity(11, 2, 1_000_000_000, 0, 30, 100));
    let _ = instance.take_outboxes();
    send_order(&mut instance, 100, 10, Order::Attack);
    send_order(&mut instance, 100, 10, Order::Attack);
    let mut rules = StrengthRules;
    let mut out: Vec<Request> = Vec::new();
    let _ = instance.calculate_tick(&mut rules, &mut out);
    let listing = instance.get_entities();
    let target = listing.iter().find(|e| e.id == 11).expect("target still there");
    assert_eq!(target.current_pv, 70, "damaged once by strength 30, not twice");
    let outboxes = instance.take_outboxes();
    let damages: Vec<&Notification> = outboxes[0]
        .1
        .iter()
        .filter(|n| matches!(n, Notification::Damage { .. }))
        .collect();
    assert_eq!(damages.len(), 1);
    match damages[0] {
        Notification::Damage { source, victim, amount } => {
            assert_eq!(*source, 10);
            assert_eq!(*victim, 11);
            assert_eq!(*amount, 30);
        }
        _ => unreachable!(),
    }
}

#[test]
fn lethal_damage_removes_the_entity_and_announces_death() {
    let mut instance = Instance::new(1, 7, TICK_US, area(), 0);
    join(&mut instance, 100, player_entity(10, 1, 0, 0, 30, 100));
    join(&mut instance, 101, player_entity(11, 2, 1_000_000_000, 0, 30, 10));
    let _ = instance.take_outboxes();
    send_order(&mut instance, 100, 10, Order::Attack);
    let mut rules = StrengthRules;
    let mut out: Vec<Request> = Vec::new();
    let events = instance.calculate_tick(&mut rules, &mut out);
    assert_eq!(events.len(), 1);
    match &events[0] {
        TickEvent::EntityDeath(entity) => {
            assert_eq!(entity.get_id(), 11);
            assert_eq!(entity.get_pv(), 0);
        }
    }
    assert_eq!(instance.get_entities().len(), 1, "dead entity absent from the store");
    let outboxes = instance.take_outboxes();
    let notifs = &outboxes[0].1;
    let death_at = notifs
        .iter()
        .position(|n| matches!(n, Notification::Death { entity } if *entity == 11))
        .expect("a Death notification for the dead entity");
    match &notifs[death_at + 1] {
        Notification::EntityHasQuit { entity } => assert_eq!(*entity, 11),
        _ => panic!("EntityHasQuit follows Death"),
    }
}

#[test]
fn tick_quantisation_runs_floor_of_accumulated_time() {
    let mut instance = Instance::new(1, 7, TICK_US, area(), 0);
    let mut rules = StrengthRules;
    let mut out: Vec<Request> = Vec::new();
    let ticks = instance.tick_signal(50_000, &mut rules, &mut out);
    assert_eq!(ticks, 3, "floor(50000/16666) ticks");
    assert_eq!(instance.get_lag(), 50_000 - 3 * 16_666);
    assert_eq!(instance.get_tick_id(), 3);
    let ticks = instance.tick_signal(50_000 + 10_000, &mut rules, &mut out);
    assert_eq!(ticks, 0, "lag 2 + 10000 is below one period");
    assert_eq!(instance.get_lag(), 10_002);
}

#[test]
fn notifications_of_a_tick_precede_the_next_ticks() {
    let mut instance = Instance::new(1, 7, TICK_US, area(), 0);
    join(&mut instance, 100, player_entity(10, 1, 0, 0, 30, 100));
    let _ = instance.take_outboxes();
    let mut rules = StrengthRules;
    let mut out: Vec<Request> = Vec::new();
    let _ = instance.calculate_tick(&mut rules, &mut out);
    let _ = instance.calculate_tick(&mut rules, &mut out);
    let outboxes = instance.take_outboxes();
    let ticks: Vec<u64> = outboxes[0]
        .1
        .iter()
        .filter_map(|n| match n {
            Notification::GameUpdate { tick_id, .. } => Some(*tick_id),
            _ => None,
        })
        .collect();
    assert_eq!(ticks, vec![0, 1], "per-tick batches stay in order in one outbox");
}

#[test]
fn unregister_collects_entities_and_reports_upstream() {
    let mut instance = Instance::new(1, 7, TICK_US, area(), 0);
    join(&mut instance, 100, player_entity(10, 1, 0, 0, 30, 100));
    let mut out: Vec<Request> = Vec::new();
    let done = instance.apply(Command::UnregisterActor(100), &mut out);
    assert!(!done);
    assert_eq!(instance.get_entities().len(), 0);
    assert_eq!(out.len(), 1);
    match &out[0] {
        Request::UnregisteredActor { actor, entities } => {
            assert_eq!(actor.get_id(), 100);
            assert_eq!(entities.len(), 1);
            assert_eq!(entities[0].get_id(), 10);
        }
        _ => panic!("an UnregisteredActor request goes upstream"),
    }
}

#[test]
fn shutdown_drains_actors_and_acknowledges() {
    let mut instance = Instance::new(1, 7, TICK_US, area(), 0);
    join(&mut instance, 100, player_entity(10, 1, 0, 0, 30, 100));
    let mut out: Vec<Request> = Vec::new();
    let done = instance.apply(Command::Shutdown, &mut out);
    assert!(done);
    match &out[0] {
        Request::InstanceShuttingDown(state) => {
            assert_eq!(state.id, 1);
            assert_eq!(state.external_actors.len(), 1);
            assert_eq!(state.external_actors[0].1.len(), 1);
        }
        _ => panic!("a ShuttingDownState goes upstream"),
    }
}

#[test]
fn monster_kind_is_distinct_in_updates() {
    let mut instance = Instance::new(1, 7, TICK_US, area(), 0);
    join(
        &mut instance,
        100,
        Entity::new(
            10,
            EntityType::Monster(MonsterData { class: 3 }),
            Vec2 { x: 0, y: 0 },
            Direction::South,
            5,
            stats(2),
            100,
        ),
    );
    let listing = instance.get_entities();
    assert_eq!(listing.len(), 1);
    assert!(matches!(listing[0].entity_type, lycan::data::EntityDataType::Monster(_)));
}
