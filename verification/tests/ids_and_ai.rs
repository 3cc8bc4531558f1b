use lycan::ai::{get_closest_target, walk_to_target, BehaviourTreeData, LeafNode, TreeNode,
    VisitResult};
use lycan::data::{Player, SpawnMonster};
use lycan::entity::Entity;
use lycan::geometry::{Direction, Vec2};
use lycan::id::{get_id_if_exists, ConvertTo, HasForgeableId, HasId, Id, IdAllocator, WeakId};
use lycan::instance::{Instance, RemoveEntityError};
use lycan::store::EntityStore;

struct Session;

impl HasId for Session {
    type Value = u64;
}

struct Ticket;

impl HasId for Ticket {
    type Value = u64;
}

impl HasForgeableId for Ticket {}

impl ConvertTo<Session> for Ticket {}

#[test]
fn allocation_is_monotonic() {
    let mut allocator = IdAllocator::new();
    let a: Id<Session> = Id::new(&mut allocator);
    let b: Id<Session> = Id::new(&mut allocator);
    assert_eq!(a.as_u64(), 10);
    assert_eq!(b.as_u64(), 11);
    assert_eq!(allocator.peek(), 12);
}

#[test]
fn forged_and_weak_ids_carry_their_value() {
    let forged: Id<Ticket> = Id::forge(99);
    assert_eq!(forged.as_u64(), 99);
    let weak: WeakId<Ticket> = WeakId::new(5);
    assert_eq!(weak.as_u64(), 5);
    assert_eq!(weak.upgrade().as_u64(), 5);
    assert_eq!(forged.into_inner(), 99);
    let converted: Id<Session> = Id::<Ticket>::forge(7).convert();
    assert_eq!(converted.as_u64(), 7);
}

#[test]
fn id_lookup_finds_only_present_values() {
    let mut allocator = IdAllocator::new();
    let owned: Vec<Id<Session>> = vec![Id::new(&mut allocator), Id::new(&mut allocator)];
    assert!(get_id_if_exists(&owned, 10).is_some());
    assert!(get_id_if_exists(&owned, 12).is_none());
}

fn store_with(players: &[(u128, i64, i64)]) -> (EntityStore, Vec<u64>) {
    let mut allocator = IdAllocator::new();
    let mut store = EntityStore::new();
    let mut ids = Vec::new();
    for (uuid, x, y) in players {
        let mut player = Player::default_player(*uuid);
        player.position.x = *x;
        player.position.y = *y;
        let id = allocator.allocate();
        ids.push(id);
        assert!(store.push(Entity::from_player(id, player)).is_none());
    }
    (store, ids)
}

#[test]
fn closest_target_picks_the_nearest_other() {
    let (store, ids) = store_with(&[
        (1, 0, 0),
        (2, 3_000_000_000, 0),
        (3, 1_000_000_000, 0),
    ]);
    let mut storage = BehaviourTreeData::new();
    let leaf = match get_closest_target() {
        LeafNode::GetClosestTarget(g) => g,
        _ => panic!(),
    };
    let result = leaf.visit(ids[0], &store, &mut storage);
    assert!(result == VisitResult::Success);
    assert_eq!(storage.target, Some(ids[2]), "the nearest other, never the visitor itself");
}

#[test]
fn closest_target_fails_out_of_range() {
    let (store, ids) = store_with(&[(1, 0, 0), (2, 500_000_000_000, 0)]);
    let mut storage = BehaviourTreeData::new();
    let leaf = match get_closest_target() {
        LeafNode::GetClosestTarget(g) => g,
        _ => panic!(),
    };
    let result = leaf.visit(ids[0], &store, &mut storage);
    assert!(result == VisitResult::Failure);
    assert!(storage.target.is_none());
}

#[test]
fn pursuit_turns_towards_the_target() {
    let (mut store, ids) = store_with(&[(1, 0, 0), (2, 3_000_000_000, 0)]);
    let mut storage = BehaviourTreeData::new();
    storage.target = Some(ids[1]);
    let leaf = match walk_to_target() {
        LeafNode::WalkToTarget(w) => w,
        _ => panic!(),
    };
    let result = leaf.visit(ids[0], &mut store, &storage);
    assert!(result == VisitResult::Running);
    let me = store.get(ids[0]).unwrap();
    assert!(me.walking);
    assert!(me.get_orientation() == Direction::East);
}

#[test]
fn pursuit_without_a_target_fails() {
    let (mut store, ids) = store_with(&[(1, 0, 0)]);
    let storage = BehaviourTreeData::new();
    let leaf = match walk_to_target() {
        LeafNode::WalkToTarget(w) => w,
        _ => panic!(),
    };
    let result = leaf.visit(ids[0], &mut store, &storage);
    assert!(result == VisitResult::Failure);
}

#[test]
fn a_sequence_drives_acquire_then_pursue() {
    let (mut store, ids) = store_with(&[(1, 0, 0), (2, 0, 3_000_000_000)]);
    let mut storage = BehaviourTreeData::new();
    let tree = TreeNode::Sequence(
        Box::new(TreeNode::Leaf(get_closest_target())),
        Box::new(TreeNode::Leaf(walk_to_target())),
    );
    let result = tree.visit(ids[0], &mut store, &mut storage);
    assert!(result == VisitResult::Running);
    let me = store.get(ids[0]).unwrap();
    assert!(me.walking);
    assert!(me.get_orientation() == Direction::North);
}

#[test]
fn spawned_monsters_can_be_removed_but_players_cannot() {
    let mut instance = Instance::new(1, 7, 16_666, Vec2 { x: 100_000_000_000, y: 100_000_000_000 }, 0);
    let mut allocator = IdAllocator::new();
    let spawn = SpawnMonster { monster_class: 3, x: 0, y: 0 };
    let tree = TreeNode::Sequence(
        Box::new(TreeNode::Leaf(get_closest_target())),
        Box::new(TreeNode::Leaf(walk_to_target())),
    );
    let record = instance.spawn_monster(spawn, tree, &mut allocator).expect("spawn lands");
    assert_eq!(instance.get_entities().len(), 1);
    assert!(matches!(instance.remove_entity(9999), Err(RemoveEntityError::NotFound)));
    assert!(instance.remove_entity(record.id).is_ok());
    assert_eq!(instance.get_entities().len(), 0);

    let player = Entity::from_player(50, Player::default_player(1));
    let mut out = Vec::new();
    let mut actor = lycan::actor::NetworkActor::new(60);
    actor.register_entity(50);
    let _ = instance.apply(lycan::messages::Command::NewClient(actor, vec![player]), &mut out);
    assert!(matches!(instance.remove_entity(50), Err(RemoveEntityError::IsPlayer)));
}
