use lycan::data::Player;
use lycan::entity::Entity;
use lycan::id::IdAllocator;
use lycan::store::EntityStore;

#[test]
fn test() {
    let mut allocator = IdAllocator::new();
    let mut store = EntityStore::new();
    let mut k = 0;
    while k < 3 {
        let player = Player::default_player(0);
        let id = allocator.allocate();
        let rejected = store.push(Entity::from_player(id, player));
        assert!(rejected.is_none());
        k += 1;
    }
    let mut i = 0;
    while i < store.len() {
        let entity = store.split_off_entity(i);
        let id = entity.get_id();
        let mut j = 0;
        while j < store.len() {
            assert!(id != store.at(j).get_id());
            j += 1;
        }
        assert!(store.get(id).is_none());
        store.put_back(i, entity);
        i += 1;
    }
}

#[test]
fn push_refuses_duplicate_ids() {
    let mut store = EntityStore::new();
    let a = Entity::from_player(20, Player::default_player(1));
    let b = Entity::from_player(20, Player::default_player(2));
    assert!(store.push(a).is_none());
    let rejected = store.push(b);
    assert!(rejected.is_some());
    assert_eq!(store.len(), 1);
}

#[test]
fn remove_returns_the_entity_and_forgets_it() {
    let mut store = EntityStore::new();
    assert!(store.push(Entity::from_player(30, Player::default_player(1))).is_none());
    assert!(store.push(Entity::from_player(31, Player::default_player(2))).is_none());
    let removed = store.remove(30).expect("present");
    assert_eq!(removed.get_id(), 30);
    assert!(store.get(30).is_none());
    assert!(store.get(31).is_some());
    assert!(store.remove(30).is_none());
}
