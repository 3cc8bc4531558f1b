//! Orders coming in from clients and notifications going out to them.
//!
//! `Notification` is the server-authored event stream; its abstract view
//! (`NotificationView`) is what the codec's contracts speak of.

use vstd::prelude::*;
use crate::geometry::{Direction, Vec2};

verus! {

/// A client- or AI-initiated intention applied to one entity.
#[derive(Clone, Debug)]
pub enum Order {
    /// Walk in a direction; `None` stops walking.
    Walk(Option<Direction>),
    /// Say a message; the payload is the raw utf-8 text.
    Say(Vec<u8>),
    /// Start an attack.
    Attack,
}

/// An order aimed at a specific entity.
#[derive(Clone, Debug)]
pub struct EntityOrder {
    pub entity: u64,
    pub order: Order,
}

/// What a client may send after the handshake.
#[derive(Clone, Debug)]
pub enum NetworkCommand {
    EntityOrder(EntityOrder),
    GameCommand(NetworkGameCommand),
}

/// The pre-authentication command: a character identity and its token.
#[derive(Clone, Debug)]
pub enum NetworkGameCommand {
    Authenticate(u128, Vec<u8>),
}

/// One entity's per-tick state snapshot inside a `GameUpdate`.
#[derive(Clone, Copy, Debug, PartialEq, Eq, Structural)]
pub struct EntityUpdate {
    pub entity_id: u64,
    /// Position in nano-units.
    pub position: Vec2,
    /// Speed in milli-units per second.
    pub speed: Vec2,
    pub pv: u64,
}

/// A server-authored event broadcast to clients.
#[derive(Clone, Debug)]
pub enum Notification {
    Walk { entity: u64, orientation: Option<Direction> },
    Say { entity: u64, message: Vec<u8> },
    GameUpdate { tick_id: u64, entities: Vec<EntityUpdate> },
    ThisIsYou { entity: u64 },
    NewEntity { entity: u64, position: Vec2, skin: u64, pv: u64, nominal_speed: u32 },
    EntityHasQuit { entity: u64 },
    Damage { source: u64, victim: u64, amount: u64 },
    Death { entity: u64 },
}

/// The abstract value of a notification: vectors become sequences.
pub enum NotificationView {
    Walk { entity: u64, orientation: Option<Direction> },
    Say { entity: u64, message: Seq<u8> },
    GameUpdate { tick_id: u64, entities: Seq<EntityUpdate> },
    ThisIsYou { entity: u64 },
    NewEntity { entity: u64, position: Vec2, skin: u64, pv: u64, nominal_speed: u32 },
    EntityHasQuit { entity: u64 },
    Damage { source: u64, victim: u64, amount: u64 },
    Death { entity: u64 },
}

impl View for Notification {
    type V = NotificationView;

    open spec fn view(&self) -> NotificationView {
        match self {
            Notification::Walk { entity, orientation } => NotificationView::Walk {
                entity: *entity,
                orientation: *orientation,
            },
            Notification::Say { entity, message } => NotificationView::Say {
                entity: *entity,
                message: message@,
            },
            Notification::GameUpdate { tick_id, entities } => NotificationView::GameUpdate {
                tick_id: *tick_id,
                entities: entities@,
            },
            Notification::ThisIsYou { entity } => NotificationView::ThisIsYou { entity: *entity },
            Notification::NewEntity { entity, position, skin, pv, nominal_speed } => {
                NotificationView::NewEntity {
                    entity: *entity,
                    position: *position,
                    skin: *skin,
                    pv: *pv,
                    nominal_speed: *nominal_speed,
                }
            },
            Notification::EntityHasQuit { entity } => NotificationView::EntityHasQuit {
                entity: *entity,
            },
            Notification::Damage { source, victim, amount } => NotificationView::Damage {
                source: *source,
                victim: *victim,
                amount: *amount,
            },
            Notification::Death { entity } => NotificationView::Death { entity: *entity },
        }
    }
}

impl Notification {
    pub fn walk(id: u64, orientation: Option<Direction>) -> (r: Notification)
        ensures
            r@ == (NotificationView::Walk { entity: id, orientation }),
    {
        Notification::Walk { entity: id, orientation }
    }

    pub fn say(id: u64, message: Vec<u8>) -> (r: Notification)
        ensures
            r@ == (NotificationView::Say { entity: id, message: message@ }),
    {
        Notification::Say { entity: id, message }
    }

    pub fn this_is_you(id: u64) -> (r: Notification)
        ensures
            r@ == (NotificationView::ThisIsYou { entity: id }),
    {
        Notification::ThisIsYou { entity: id }
    }

    pub fn new_entity(id: u64, position: Vec2, skin: u64, pv: u64, nominal_speed: u32) -> (r:
        Notification)
        ensures
            r@ == (NotificationView::NewEntity {
                entity: id,
                position,
                skin,
                pv,
                nominal_speed,
            }),
    {
        Notification::NewEntity { entity: id, position, skin, pv, nominal_speed }
    }

    pub fn entity_has_quit(id: u64) -> (r: Notification)
        ensures
            r@ == (NotificationView::EntityHasQuit { entity: id }),
    {
        Notification::EntityHasQuit { entity: id }
    }
}

/// The abstract values of a notification sequence, in order.
pub open spec fn notification_views(s: Seq<Notification>) -> Seq<NotificationView> {
    s.map_values(|n: Notification| n@)
}

/// Appending one notification appends its abstract value.
pub proof fn lemma_views_push(s: Seq<Notification>, n: Notification)
    ensures
        notification_views(s.push(n)) == notification_views(s).push(n@),
{
    assert(notification_views(s.push(n)) =~= notification_views(s).push(n@));
}

/// Compares two notifications by value.
pub fn same_notification(a: &Notification, b: &Notification) -> (r: bool)
    ensures
        r == (a@ == b@),
{
    match (a, b) {
        (
            Notification::Walk { entity: e1, orientation: o1 },
            Notification::Walk { entity: e2, orientation: o2 },
        ) => e1 == e2 && o1 == o2,
        (
            Notification::Say { entity: e1, message: m1 },
            Notification::Say { entity: e2, message: m2 },
        ) => e1 == e2 && bytes_eq(m1, m2),
        (
            Notification::GameUpdate { tick_id: t1, entities: v1 },
            Notification::GameUpdate { tick_id: t2, entities: v2 },
        ) => t1 == t2 && updates_eq(v1, v2),
        (
            Notification::ThisIsYou { entity: e1 },
            Notification::ThisIsYou { entity: e2 },
        ) => e1 == e2,
        (
            Notification::NewEntity { entity: e1, position: p1, skin: s1, pv: h1, nominal_speed: n1 },
            Notification::NewEntity { entity: e2, position: p2, skin: s2, pv: h2, nominal_speed: n2 },
        ) => e1 == e2 && p1 == p2 && s1 == s2 && h1 == h2 && n1 == n2,
        (
            Notification::EntityHasQuit { entity: e1 },
            Notification::EntityHasQuit { entity: e2 },
        ) => e1 == e2,
        (
            Notification::Damage { source: s1, victim: v1, amount: a1 },
            Notification::Damage { source: s2, victim: v2, amount: a2 },
        ) => s1 == s2 && v1 == v2 && a1 == a2,
        (Notification::Death { entity: e1 }, Notification::Death { entity: e2 }) => e1 == e2,
        _ => false,
    }
}

/// Compares two byte strings by contents.
pub fn bytes_eq(a: &Vec<u8>, b: &Vec<u8>) -> (r: bool)
    ensures
        r == (a@ == b@),
{
    if a.len() != b.len() {
        proof {
            assert(a@.len() != b@.len());
        }
        return false;
    }
    let mut i: usize = 0;
    while i < a.len()
        invariant
            i <= a.len(),
            a@.len() == b@.len(),
            forall|j: int| 0 <= j < i ==> a@[j] == b@[j],
        decreases a.len() - i,
    {
        if a[i] != b[i] {
            return false;
        }
        i = i + 1;
    }
    proof {
        assert(a@ =~= b@);
    }
    true
}

/// Compares two update lists by contents.
pub fn updates_eq(a: &Vec<EntityUpdate>, b: &Vec<EntityUpdate>) -> (r: bool)
    ensures
        r == (a@ == b@),
{
    if a.len() != b.len() {
        proof {
            assert(a@.len() != b@.len());
        }
        return false;
    }
    let mut i: usize = 0;
    while i < a.len()
        invariant
            i <= a.len(),
            a@.len() == b@.len(),
            forall|j: int| 0 <= j < i ==> a@[j] == b@[j],
        decreases a.len() - i,
    {
        if a[i] != b[i] {
            return false;
        }
        i = i + 1;
    }
    proof {
        assert(a@ =~= b@);
    }
    true
}

/// Copies a byte string.
pub fn copy_bytes(v: &Vec<u8>) -> (r: Vec<u8>)
    ensures
        r@ == v@,
{
    let mut r: Vec<u8> = Vec::new();
    let mut i: usize = 0;
    while i < v.len()
        invariant
            i <= v.len(),
            r@ == v@.take(i as int),
        decreases v.len() - i,
    {
        r.push(v[i]);
        proof {
            assert(r@ =~= v@.take(i as int + 1));
        }
        i = i + 1;
    }
    proof {
        assert(v@.take(v@.len() as int) =~= v@);
    }
    r
}

/// Copies an update list.
pub fn copy_updates(v: &Vec<EntityUpdate>) -> (r: Vec<EntityUpdate>)
    ensures
        r@ == v@,
{
    let mut r: Vec<EntityUpdate> = Vec::new();
    let mut i: usize = 0;
    while i < v.len()
        invariant
            i <= v.len(),
            r@ == v@.take(i as int),
        decreases v.len() - i,
    {
        r.push(v[i]);
        proof {
            assert(r@ =~= v@.take(i as int + 1));
        }
        i = i + 1;
    }
    proof {
        assert(v@.take(v@.len() as int) =~= v@);
    }
    r
}

impl Notification {
    /// A copy with the same abstract value.
    pub fn duplicate(&self) -> (r: Notification)
        ensures
            r@ == self@,
    {
        match self {
            Notification::Walk { entity, orientation } => Notification::Walk {
                entity: *entity,
                orientation: *orientation,
            },
            Notification::Say { entity, message } => Notification::Say {
                entity: *entity,
                message: copy_bytes(message),
            },
            Notification::GameUpdate { tick_id, entities } => Notification::GameUpdate {
                tick_id: *tick_id,
                entities: copy_updates(entities),
            },
            Notification::ThisIsYou { entity } => Notification::ThisIsYou { entity: *entity },
            Notification::NewEntity { entity, position, skin, pv, nominal_speed } => {
                Notification::NewEntity {
                    entity: *entity,
                    position: *position,
                    skin: *skin,
                    pv: *pv,
                    nominal_speed: *nominal_speed,
                }
            },
            Notification::EntityHasQuit { entity } => Notification::EntityHasQuit {
                entity: *entity,
            },
            Notification::Damage { source, victim, amount } => Notification::Damage {
                source: *source,
                victim: *victim,
                amount: *amount,
            },
            Notification::Death { entity } => Notification::Death { entity: *entity },
        }
    }
}

impl Order {
    /// A copy with nothing to tell it apart: exact for Walk and Attack,
    /// same message contents for Say.
    pub fn duplicate(&self) -> (r: Order)
        ensures
            match *self {
                Order::Walk(d) => r == Order::Walk(d),
                Order::Say(ref m) => r matches Order::Say(m2) && m2@ == m@,
                Order::Attack => r == Order::Attack,
            },
    {
        match self {
            Order::Walk(orientation) => Order::Walk(*orientation),
            Order::Say(message) => Order::Say(copy_bytes(message)),
            Order::Attack => Order::Attack,
        }
    }
}

/// A command addressed to an instance worker.
pub enum Command {
    /// Register a client's actor and its entities.
    NewClient(crate::actor::NetworkActor, Vec<crate::entity::Entity>),
    /// Drain every actor, report the state upstream, stop the worker.
    Shutdown,
    /// Remove an actor, collect its entities, report them upstream.
    UnregisterActor(u64),
    /// Attach an entity to an actor already registered.
    AssignEntity(u64, crate::entity::Entity),
}

/// Identity of a connected client whose link the runtime holds.
#[derive(Clone, Copy, Debug)]
pub struct ClientInfo {
    pub uuid: u128,
}

/// A request addressed to the coordinator.
pub enum Request {
    /// A client finished the handshake.
    NewClient(ClientInfo),
    /// An instance unregistered an actor and hands back its entities.
    UnregisteredActor { actor: crate::actor::NetworkActor, entities: Vec<crate::entity::Entity> },
    /// An instance finished shutting down.
    InstanceShuttingDown(crate::instance::ShuttingDownState),
    /// An instance's periodic roster of its player entities.
    PlayerUpdate(Vec<crate::data::EntityManagement>),
}

/// One entity's announced state: identity, position and orientation.
#[derive(Clone, Copy, Debug, PartialEq, Eq, Structural)]
pub struct EntityState {
    pub id: u64,
    pub position: Vec2,
    pub orientation: Direction,
}

impl EntityState {
    pub fn new(id: u64, position: Vec2, orientation: Direction) -> (r: EntityState)
        ensures
            r == (EntityState { id, position, orientation }),
    {
        EntityState { id, position, orientation }
    }
}

} // verus!
