//! Actors: the controllers attached to entities.  A network actor stands
//! for one connected client, with its inbound order queue and its outbound
//! notification queue; an AI actor drives one entity through a behaviour
//! tree.

use vstd::prelude::*;
use crate::ai::{BehaviourTreeData, TreeNode, ai_frame};
use crate::entity::Entity;
use crate::messages::{Command, EntityOrder, NetworkCommand, Notification, NotificationView, Order,
    lemma_views_push, notification_views};
use crate::store::{EntityStore, contains_id};

verus! {

/// What order execution may change of the store: each entity keeps its
/// place and all its fields but the walking flag, the orientation and the
/// attack state.
pub open spec fn order_frame(pre: Seq<Entity>, post: Seq<Entity>) -> bool {
    &&& post.len() == pre.len()
    &&& forall|i: int|
        0 <= i < pre.len() ==> post[i] == (Entity {
            walking: post[i].walking,
            orientation: post[i].orientation,
            attacking: post[i].attacking,
            ..pre[i]
        })
}

/// One Walk order aimed at an owned entity present in the store has its
/// Walk notification somewhere at or after `base` in the buffer.
pub open spec fn walk_order_notified(o: EntityOrder, owned: Seq<u64>, store: Seq<Entity>,
    base: int, notifs: Seq<Notification>) -> bool {
    match o.order {
        Order::Walk(d) => (owned.contains(o.entity) && contains_id(store, o.entity)) ==> exists|
            p: int,
        |
            base <= p < notifs.len() && notifs[p]@ == (NotificationView::Walk {
                entity: o.entity,
                orientation: d,
            }),
        _ => true,
    }
}

/// What one order emits when its entity is owned and in the store: Walk
/// and Say answer with their notification, Attack answers silently.
pub open spec fn emitted_of(o: EntityOrder, owned: Seq<u64>, store: Seq<Entity>) -> Seq<
    NotificationView,
> {
    if owned.contains(o.entity) && contains_id(store, o.entity) {
        match o.order {
            Order::Walk(d) => seq![
                NotificationView::Walk { entity: o.entity, orientation: d },
            ],
            Order::Say(m) => seq![NotificationView::Say { entity: o.entity, message: m@ }],
            Order::Attack => Seq::<NotificationView>::empty(),
        }
    } else {
        Seq::<NotificationView>::empty()
    }
}

/// What draining a whole order batch appends to the notifications, first
/// order first.  Whether an entity is found depends only on the store's
/// ids, which order execution never changes, so this is exact.
pub open spec fn emitted_views(orders: Seq<EntityOrder>, owned: Seq<u64>, store: Seq<
    Entity,
>) -> Seq<NotificationView>
    decreases orders.len(),
{
    if orders.len() == 0 {
        Seq::<NotificationView>::empty()
    } else {
        emitted_of(orders[0], owned, store) + emitted_views(orders.drop_first(), owned, store)
    }
}

/// Emission reads only the store's ids: two stores with the same ids emit
/// alike.
pub proof fn lemma_emitted_views_ids(orders: Seq<EntityOrder>, owned: Seq<u64>, s1: Seq<Entity>,
    s2: Seq<Entity>)
    requires
        s1.len() == s2.len(),
        forall|i: int| 0 <= i < s1.len() ==> s1[i].id == s2[i].id,
    ensures
        emitted_views(orders, owned, s1) == emitted_views(orders, owned, s2),
    decreases orders.len(),
{
    assert forall|e: u64| contains_id(s1, e) == contains_id(s2, e) by {
        if contains_id(s1, e) {
            let w = choose|i: int| 0 <= i < s1.len() && s1[i].id == e;
            assert(s2[w].id == e);
        }
        if contains_id(s2, e) {
            let w = choose|i: int| 0 <= i < s2.len() && s2[i].id == e;
            assert(s1[w].id == e);
        }
    }
    if orders.len() > 0 {
        lemma_emitted_views_ids(orders.drop_first(), owned, s1, s2);
        assert(contains_id(s1, orders[0].entity) == contains_id(s2, orders[0].entity));
    }
}

/// Unfolding the emission one order at a time, from the front.
pub proof fn lemma_emitted_views_step(orders: Seq<EntityOrder>, owned: Seq<u64>, store: Seq<
    Entity,
>, k: int)
    requires
        0 <= k < orders.len(),
    ensures
        emitted_views(orders.skip(k), owned, store) == emitted_of(orders[k], owned, store)
            + emitted_views(orders.skip(k + 1), owned, store),
{
    assert(orders.skip(k)[0] == orders[k]);
    assert(orders.skip(k).drop_first() =~= orders.skip(k + 1));
}

/// Every Walk order of the batch aimed at an owned entity present in the
/// store has its Walk notification at or after `base` in the buffer.
pub open spec fn walk_notified(orders: Seq<EntityOrder>, owned: Seq<u64>, store: Seq<Entity>,
    base: int, notifs: Seq<Notification>) -> bool {
    forall|k: int|
        0 <= k < orders.len() ==> walk_order_notified(
            #[trigger] orders[k],
            owned,
            store,
            base,
            notifs,
        )
}

/// A notification once in the buffer stays at its place: appending keeps
/// the guarantee.
pub proof fn lemma_walk_order_notified_extend(o: EntityOrder, owned: Seq<u64>, store: Seq<
    Entity,
>, base: int, n1: Seq<Notification>, n2: Seq<Notification>)
    requires
        0 <= base,
        walk_order_notified(o, owned, store, base, n1),
        n2.len() >= n1.len(),
        forall|t: int| 0 <= t < n1.len() ==> n2[t] == n1[t],
    ensures
        walk_order_notified(o, owned, store, base, n2),
{
    match o.order {
        Order::Walk(d) => {
            if owned.contains(o.entity) && contains_id(store, o.entity) {
                let p = choose|p: int|
                    base <= p < n1.len() && n1[p]@ == (NotificationView::Walk {
                        entity: o.entity,
                        orientation: d,
                    });
                assert(n2[p] == n1[p]);
            }
        },
        _ => {},
    }
}

/// The guarantee carries from a later store and base back to an earlier
/// one: the stores hold the same ids, and the earlier base is no larger.
pub proof fn lemma_walk_order_notified_weaken(o: EntityOrder, owned: Seq<u64>, s1: Seq<Entity>,
    s2: Seq<Entity>, b1: int, b2: int, notifs: Seq<Notification>)
    requires
        walk_order_notified(o, owned, s2, b2, notifs),
        s1.len() == s2.len(),
        forall|i: int| 0 <= i < s1.len() ==> s1[i].id == s2[i].id,
        0 <= b1 <= b2,
    ensures
        walk_order_notified(o, owned, s1, b1, notifs),
{
    match o.order {
        Order::Walk(d) => {
            if owned.contains(o.entity) && contains_id(s1, o.entity) {
                let w = choose|i: int| 0 <= i < s1.len() && s1[i].id == o.entity;
                assert(s2[w].id == o.entity);
                assert(contains_id(s2, o.entity));
            }
        },
        _ => {},
    }
}

/// Every command of the sequence is an unregistration request.
pub open spec fn all_unregister(s: Seq<Command>) -> bool {
    forall|k: int| 0 <= k < s.len() ==> (#[trigger] s[k]) matches Command::UnregisterActor(_)
}

/// Whether a sequence of ids holds one.
pub fn contains_u64(v: &Vec<u64>, x: u64) -> (r: bool)
    ensures
        r == v@.contains(x),
{
    let mut i: usize = 0;
    while i < v.len()
        invariant
            i <= v.len(),
            forall|j: int| 0 <= j < i ==> v@[j] != x,
        decreases v.len() - i,
    {
        if v[i] == x {
            return true;
        }
        i = i + 1;
    }
    proof {
        assert(!v@.contains(x));
    }
    false
}

/// A buffer between a client's link and the instance: commands for the
/// instance, orders for the owned entities.
pub struct CommandBuffer {
    commands: Vec<Command>,
    orders: Vec<EntityOrder>,
}

/// The actor standing for one connected client.
pub struct NetworkActor {
    id: u64,
    entities: Vec<u64>,
    commands: CommandBuffer,
    outbox: Vec<Notification>,
}

impl NetworkActor {
    pub closed spec fn spec_id(self) -> u64 {
        self.id
    }

    /// The command buffer only ever holds the actor's own unregistration
    /// request: that is all this actor can ask of its instance.
    pub closed spec fn wf(self) -> bool {
        forall|k: int|
            0 <= k < self.commands.commands@.len() ==> ((#[trigger] self.commands.commands@[k])
                matches Command::UnregisterActor(a) && a == self.id)
    }

    /// The ids of the entities this actor owns.
    pub closed spec fn owned(self) -> Seq<u64> {
        self.entities@
    }

    /// The orders waiting to be executed, oldest first.
    pub closed spec fn orders(self) -> Seq<EntityOrder> {
        self.commands.orders@
    }

    /// The commands waiting to be collected.
    pub closed spec fn commands(self) -> Seq<Command> {
        self.commands.commands@
    }

    /// The notifications waiting to be written to the client.
    pub closed spec fn outbox(self) -> Seq<Notification> {
        self.outbox@
    }

    pub fn new(id: u64) -> (r: NetworkActor)
        ensures
            r.wf(),
            r.spec_id() == id,
            r.owned() == Seq::<u64>::empty(),
            r.orders() == Seq::<EntityOrder>::empty(),
            r.commands() == Seq::<Command>::empty(),
            r.outbox() == Seq::<Notification>::empty(),
    {
        NetworkActor {
            id,
            entities: Vec::new(),
            commands: CommandBuffer { commands: Vec::new(), orders: Vec::new() },
            outbox: Vec::new(),
        }
    }

    pub fn get_id(&self) -> (r: u64)
        ensures
            r == self.spec_id(),
    {
        self.id
    }

    /// Decides well-formedness at run time, for callers outside the
    /// library that must check it before handing the actor to an instance.
    pub fn is_wf(&self) -> (r: bool)
        ensures
            r == self.wf(),
    {
        let mut k: usize = 0;
        while k < self.commands.commands.len()
            invariant
                k <= self.commands.commands@.len(),
                forall|j: int|
                    0 <= j < k ==> ((#[trigger] self.commands.commands@[j])
                        matches Command::UnregisterActor(a) && a == self.spec_id()),
            decreases self.commands.commands@.len() - k,
        {
            let ok = match &self.commands.commands[k] {
                Command::UnregisterActor(a) => *a == self.id,
                _ => false,
            };
            if !ok {
                return false;
            }
            k = k + 1;
        }
        true
    }

    /// Adds an entity to the owned set.
    pub fn register_entity(&mut self, entity: u64)
        ensures
            final(self).wf() == old(self).wf(),
            final(self).owned() == if old(self).owned().contains(entity) {
                old(self).owned()
            } else {
                old(self).owned().push(entity)
            },
            final(self).owned().contains(entity),
            final(self).spec_id() == old(self).spec_id(),
            final(self).orders() == old(self).orders(),
            final(self).commands() == old(self).commands(),
            final(self).outbox() == old(self).outbox(),
    {
        if !contains_u64(&self.entities, entity) {
            self.entities.push(entity);
        }
        proof {
            assert(self.entities@.last() == self.entities@[self.entities@.len() - 1]);
        }
    }

    /// The owned entity ids, in registration order.
    pub fn entities_iter(&self) -> (r: &Vec<u64>)
        ensures
            r@ == self.owned(),
    {
        &self.entities
    }

    /// Feeds one already-parsed command from the client's link.  An order
    /// is queued; a game command after authentication is a protocol
    /// violation, so the actor asks to be unregistered.
    pub fn push_network_command(&mut self, command: NetworkCommand)
        ensures
            old(self).wf() ==> final(self).wf(),
            final(self).spec_id() == old(self).spec_id(),
            final(self).owned() == old(self).owned(),
            final(self).outbox() == old(self).outbox(),
            match command {
                NetworkCommand::EntityOrder(o) => final(self).orders() == old(self).orders().push(
                    o,
                ) && final(self).commands() == old(self).commands(),
                NetworkCommand::GameCommand(_) => final(self).commands() == old(self).commands().push(Command::UnregisterActor(old(self).spec_id())) && final(self).orders() == old(self).orders(),
            },
    {
        match command {
            NetworkCommand::EntityOrder(order) => {
                self.commands.orders.push(order);
            },
            NetworkCommand::GameCommand(_) => {
                self.commands.commands.push(Command::UnregisterActor(self.id));
            },
        }
    }

    /// The client's link broke: the actor asks to be unregistered.
    pub fn disconnected(&mut self)
        ensures
            old(self).wf() ==> final(self).wf(),
            final(self).spec_id() == old(self).spec_id(),
            final(self).owned() == old(self).owned(),
            final(self).outbox() == old(self).outbox(),
            final(self).orders() == old(self).orders(),
            final(self).commands() == old(self).commands().push(
                Command::UnregisterActor(old(self).spec_id()),
            ),
    {
        self.commands.commands.push(Command::UnregisterActor(self.id));
    }

    /// Moves the pending commands into the caller's buffer.
    pub fn get_commands(&mut self, other: &mut Vec<Command>)
        ensures
            final(self).wf(),
            old(self).wf() ==> all_unregister(old(self).commands()),
            final(other)@ == old(other)@ + old(self).commands(),
            final(self).commands() == Seq::<Command>::empty(),
            final(self).spec_id() == old(self).spec_id(),
            final(self).owned() == old(self).owned(),
            final(self).orders() == old(self).orders(),
            final(self).outbox() == old(self).outbox(),
    {
        proof {
            if self.wf() {
                assert forall|k: int| 0 <= k < self.commands.commands@.len() implies (
                #[trigger] self.commands.commands@[k]) matches Command::UnregisterActor(_) by {}
            }
        }
        other.append(&mut self.commands.commands);
    }

    /// Queues a notification for the client.
    pub fn send_message(&mut self, message: Notification)
        ensures
            final(self).wf() == old(self).wf(),
            final(self).outbox() == old(self).outbox().push(message),
            final(self).spec_id() == old(self).spec_id(),
            final(self).owned() == old(self).owned(),
            final(self).orders() == old(self).orders(),
            final(self).commands() == old(self).commands(),
    {
        self.outbox.push(message);
    }

    /// Hands the queued notifications over, emptying the queue.  The
    /// runtime writes them to the client in this order.
    pub fn take_outbox(&mut self) -> (r: Vec<Notification>)
        ensures
            final(self).wf() == old(self).wf(),
            r@ == old(self).outbox(),
            final(self).outbox() == Seq::<Notification>::empty(),
            final(self).spec_id() == old(self).spec_id(),
            final(self).owned() == old(self).owned(),
            final(self).orders() == old(self).orders(),
            final(self).commands() == old(self).commands(),
    {
        let mut taken: Vec<Notification> = Vec::new();
        core::mem::swap(&mut taken, &mut self.outbox);
        taken
    }

    /// Drains the pending orders and applies each to its entity, oldest
    /// first: the order must aim at an owned entity that the store holds,
    /// else it is dropped; a rejected order (attacking while not idle) is
    /// dropped too.  What lands in the notifications is exactly the
    /// emission of the drained batch, in order.
    pub fn execute_orders(&mut self, entities: &mut EntityStore, notifications: &mut Vec<
        Notification,
    >, _previous: &Vec<Notification>)
        requires
            old(entities).wf(),
        ensures
            final(self).wf() == old(self).wf(),
            final(entities).wf(),
            order_frame(old(entities)@, final(entities)@),
            final(self).orders() == Seq::<EntityOrder>::empty(),
            final(self).spec_id() == old(self).spec_id(),
            final(self).owned() == old(self).owned(),
            final(self).commands() == old(self).commands(),
            final(self).outbox() == old(self).outbox(),
            final(notifications)@.len() >= old(notifications)@.len(),
            forall|t: int| 0 <= t < old(notifications)@.len() ==> final(notifications)@[t] == old(notifications)@[t],
            notification_views(final(notifications)@) == notification_views(old(notifications)@)
                + emitted_views(old(self).orders(), old(self).owned(), old(entities)@),
            walk_notified(
                old(self).orders(),
                old(self).owned(),
                old(entities)@,
                old(notifications)@.len() as int,
                final(notifications)@,
            ),
    {
        let mut orders: Vec<EntityOrder> = Vec::new();
        core::mem::swap(&mut orders, &mut self.commands.orders);
        let ghost base = notifications@.len() as int;
        let ghost store0 = entities@;
        proof {
            assert(orders@.skip(0) =~= orders@);
        }
        let mut idx: usize = 0;
        while idx < orders.len()
            invariant
                entities.wf(),
                order_frame(store0, entities@),
                0 <= base,
                notifications@.len() >= base,
                forall|t: int| 0 <= t < base ==> notifications@[t] == old(notifications)@[t],
                idx <= orders.len(),
                notification_views(notifications@) + emitted_views(
                    orders@.skip(idx as int),
                    self.entities@,
                    store0,
                ) == notification_views(old(notifications)@) + emitted_views(
                    orders@,
                    self.entities@,
                    store0,
                ),
                walk_notified(orders@.take(idx as int), self.entities@, store0, base, notifications@),
            decreases orders.len() - idx,
        {
            let ghost notif0 = notifications@;
            let ghost cur = orders@[idx as int];
            proof {
                assert(forall|t: int| 0 <= t < store0.len() ==> store0[t].id == entities@[t].id);
                lemma_emitted_views_step(orders@, self.entities@, store0, idx as int);
            }
            let target = orders[idx].entity;
            let owned = contains_u64(&self.entities, target);
            if owned {
                match entities.index_of(target) {
                    Some(i) => {
                        proof {
                            assert(contains_id(store0, target));
                        }
                        let ghost pre = entities@;
                        let order = orders[idx].order.duplicate();
                        let e = entities.at_mut(i);
                        let res = e.apply(order);
                        let ghost res_g = res;
                        proof {
                            assert(entities@ =~= pre.update(i as int, entities@[i as int]));
                            assert(entities@[i as int].wf());
                        }
                        match res {
                            Ok(Some(notification)) => {
                                notifications.push(notification);
                            },
                            Ok(None) => {},
                            Err(_) => {},
                        }
                        proof {
                            match cur.order {
                                Order::Walk(_) | Order::Say(_) => {
                                    assert(notifications@ == notif0.push(
                                        notifications@.last(),
                                    ));
                                    lemma_views_push(notif0, notifications@.last());
                                    assert(notifications@.last()@ == emitted_of(
                                        cur,
                                        self.entities@,
                                        store0,
                                    )[0]);
                                    assert(notification_views(notifications@)
                                        =~= notification_views(notif0) + emitted_of(
                                        cur,
                                        self.entities@,
                                        store0,
                                    ));
                                },
                                Order::Attack => {
                                    assert(notifications@ == notif0);
                                    assert(emitted_of(cur, self.entities@, store0)
                                        =~= Seq::<NotificationView>::empty());
                                },
                            }
                            assert(notification_views(notif0) + (emitted_of(
                                cur,
                                self.entities@,
                                store0,
                            ) + emitted_views(orders@.skip(idx as int + 1), self.entities@, store0))
                                =~= notification_views(notifications@) + emitted_views(
                                orders@.skip(idx as int + 1),
                                self.entities@,
                                store0,
                            ));
                            if cur.order is Walk {
                                let d = cur.order->Walk_0;
                                assert(order == Order::Walk(d));
                                assert(pre[i as int].id == target);
                                assert(res_g matches Ok(Some(n)) && n@
                                    == (NotificationView::Walk {
                                    entity: target,
                                    orientation: d,
                                }));
                                assert(notifications@.len() == notif0.len() + 1);
                                assert(notifications@.last()@ == (NotificationView::Walk {
                                    entity: target,
                                    orientation: d,
                                }));
                                assert(walk_order_notified(
                                    cur,
                                    self.entities@,
                                    store0,
                                    base,
                                    notifications@,
                                ));
                            }
                        }
                    },
                    None => {
                        proof {
                            assert(!contains_id(entities@, target));
                            if contains_id(store0, target) {
                                let w = choose|t: int|
                                    0 <= t < store0.len() && store0[t].id == target;
                                assert(entities@[w].id == target);
                                assert(false);
                            }
                            assert(emitted_of(cur, self.entities@, store0)
                                =~= Seq::<NotificationView>::empty());
                        }
                    },
                }
            } else {
                proof {
                    assert(!self.entities@.contains(target));
                    assert(emitted_of(cur, self.entities@, store0)
                        =~= Seq::<NotificationView>::empty());
                }
            }
            proof {
                assert(notification_views(notifications@) + emitted_views(
                    orders@.skip(idx as int + 1),
                    self.entities@,
                    store0,
                ) =~= notification_views(old(notifications)@) + emitted_views(
                    orders@,
                    self.entities@,
                    store0,
                ));
                assert(walk_order_notified(cur, self.entities@, store0, base, notifications@));
                assert(orders@.take(idx as int + 1) =~= orders@.take(idx as int).push(cur));
                assert forall|k: int| 0 <= k < idx as int + 1 implies walk_order_notified(
                    #[trigger] orders@.take(idx as int + 1)[k],
                    self.entities@,
                    store0,
                    base,
                    notifications@,
                ) by {
                    if k < idx as int {
                        assert(orders@.take(idx as int + 1)[k] == orders@.take(idx as int)[k]);
                        assert(walk_order_notified(
                            orders@.take(idx as int)[k],
                            self.entities@,
                            store0,
                            base,
                            notif0,
                        ));
                        lemma_walk_order_notified_extend(
                            orders@.take(idx as int)[k],
                            self.entities@,
                            store0,
                            base,
                            notif0,
                            notifications@,
                        );
                    }
                }
            }
            idx = idx + 1;
        }
        proof {
            assert(orders@.take(orders@.len() as int) =~= orders@);
            assert(orders@.skip(orders@.len() as int) =~= Seq::<EntityOrder>::empty());
            assert(emitted_views(Seq::<EntityOrder>::empty(), self.entities@, store0)
                =~= Seq::<NotificationView>::empty());
            assert(notification_views(notifications@) + Seq::<NotificationView>::empty()
                =~= notification_views(notifications@));
        }
    }
}

/// The actor driving one AI entity through its behaviour tree.
pub struct AiActor {
    id: u64,
    entity: Option<u64>,
    entities: Vec<u64>,
    tree: TreeNode,
    tree_data: BehaviourTreeData,
}

impl AiActor {
    pub closed spec fn spec_id(self) -> u64 {
        self.id
    }

    pub closed spec fn spec_entity(self) -> Option<u64> {
        self.entity
    }

    pub fn get_id(&self) -> (r: u64)
        ensures
            r == self.spec_id(),
    {
        self.id
    }

    /// An AI actor never asks anything of the instance.
    pub fn get_commands(&mut self, commands: &mut Vec<Command>)
        ensures
            *final(self) == *old(self),
            *final(commands) == *old(commands),
    {
    }

    /// Visits the behaviour tree once, steering the driven entity.  Without
    /// a driven entity nothing happens.
    pub fn execute_orders(&mut self, entities: &mut EntityStore, notifications: &mut Vec<
        Notification,
    >, _previous: &Vec<Notification>)
        requires
            old(entities).wf(),
        ensures
            final(entities).wf(),
            ai_frame(old(entities)@, final(entities)@),
            *final(notifications) == *old(notifications),
            final(self).spec_id() == old(self).spec_id(),
            final(self).spec_entity() == old(self).spec_entity(),
    {
        let me = match self.entity {
            None => {
                return ;
            },
            Some(me) => me,
        };
        let _ = self.tree.visit(me, entities, &mut self.tree_data);
    }

    /// Makes an entity the driven one; it joins the owned set too.
    pub fn register_entity(&mut self, entity: u64)
        ensures
            final(self).spec_entity() == Some(entity),
            final(self).spec_id() == old(self).spec_id(),
    {
        self.entity = Some(entity);
        if !contains_u64(&self.entities, entity) {
            self.entities.push(entity);
        }
    }

    /// An AI actor driving no entity yet, with the given tree.
    pub fn fake(id: u64, tree: TreeNode) -> (r: AiActor)
        ensures
            r.spec_id() == id,
            r.spec_entity() == Option::<u64>::None,
    {
        AiActor {
            id,
            entity: None,
            entities: Vec::new(),
            tree,
            tree_data: BehaviourTreeData::new(),
        }
    }
}

} // verus!
