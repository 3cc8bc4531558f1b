//! The per-map simulation worker: its actors, its entity store, the
//! fixed-tick pipeline, and the commands it serves.
//!
//! The runtime around the library owns the worker's clock and channels; the
//! instance itself is the state machine those feed: commands go through
//! `apply`, tick signals through `tick_signal`, and everything addressed
//! upstream comes back to the caller as `Request` values.

use vstd::prelude::*;
use vstd::arithmetic::div_mod::lemma_fundamental_div_mod_converse;
use crate::actor::{AiActor, NetworkActor, emitted_views, lemma_emitted_views_ids,
    lemma_walk_order_notified_extend, lemma_walk_order_notified_weaken, order_frame,
    walk_notified};
use crate::ai::TreeNode;
use crate::data::{EntityManagement, SpawnMonster};
use crate::entity::{Entity, EntityType, matches_management};
use crate::geometry::{POS_LIMIT_NANO, TICK_LIMIT_US, Vec2};
use crate::id::IdAllocator;
use crate::messages::{Command, EntityOrder, EntityUpdate, Notification, NotificationView, Request,
    lemma_views_push, notification_views};
use crate::store::{EntityStore, contains_id, spec_index_of};
use crate::update::{CombatRules, collect_deaths, resolve_attacks, resolve_movements};

verus! {

/// Something that happened during a tick and is handed back to the
/// caller: an entity died, was removed from the store and announced.
pub enum TickEvent {
    EntityDeath(Entity),
}

/// The two periodic duties of an instance worker.
pub enum InstanceTick {
    /// Run the simulation ticks that the elapsed time covers.
    CalculateTick,
    /// Report the roster of player entities to the coordinator.
    UpdatePlayers,
}

/// Why removing an entity through the management interface failed.
pub enum RemoveEntityError {
    NotFound,
    IsPlayer,
}

/// What an instance hands upstream when it shuts down: every client actor
/// with the entities it owned.
pub struct ShuttingDownState {
    pub id: u64,
    pub was_saved: bool,
    pub external_actors: Vec<(NetworkActor, Vec<Entity>)>,
}

impl ShuttingDownState {
    pub fn new(id: u64) -> (r: ShuttingDownState)
        ensures
            r.id == id,
            r.was_saved == false,
            r.external_actors@ == Seq::<(NetworkActor, Vec<Entity>)>::empty(),
    {
        ShuttingDownState { id, was_saved: false, external_actors: Vec::new() }
    }

    pub fn push(&mut self, actor: NetworkActor, entities: Vec<Entity>)
        ensures
            final(self).id == old(self).id,
            final(self).was_saved == old(self).was_saved,
            final(self).external_actors@ == old(self).external_actors@.push((actor, entities)),
    {
        self.external_actors.push((actor, entities));
    }
}

/// The actors of one instance: client actors first, AI actors second, each
/// table in registration order with unique ids.
pub struct Actors {
    internal_actors: Vec<AiActor>,
    external_actors: Vec<NetworkActor>,
}

/// No two client actors of the sequence share an id.
pub open spec fn unique_network_ids(s: Seq<NetworkActor>) -> bool {
    forall|a: int, b: int|
        #![trigger s[a].spec_id(), s[b].spec_id()]
        0 <= a < b < s.len() ==> s[a].spec_id() != s[b].spec_id()
}

/// No two AI actors of the sequence share an id.
pub open spec fn unique_ai_ids(s: Seq<AiActor>) -> bool {
    forall|a: int, b: int|
        #![trigger s[a].spec_id(), s[b].spec_id()]
        0 <= a < b < s.len() ==> s[a].spec_id() != s[b].spec_id()
}

/// Every client actor of the sequence is well-formed.
pub open spec fn all_network_wf(s: Seq<NetworkActor>) -> bool {
    forall|a: int| 0 <= a < s.len() ==> (#[trigger] s[a]).wf()
}

impl Actors {
    pub closed spec fn externals(self) -> Seq<NetworkActor> {
        self.external_actors@
    }

    pub closed spec fn internals(self) -> Seq<AiActor> {
        self.internal_actors@
    }

    pub open spec fn wf(self) -> bool {
        &&& unique_network_ids(self.externals())
        &&& unique_ai_ids(self.internals())
        &&& all_network_wf(self.externals())
    }

    pub fn new() -> (r: Actors)
        ensures
            r.wf(),
            r.externals() == Seq::<NetworkActor>::empty(),
            r.internals() == Seq::<AiActor>::empty(),
    {
        Actors { internal_actors: Vec::new(), external_actors: Vec::new() }
    }

    fn ext_index_of(&self, id: u64) -> (r: Option<usize>)
        ensures
            match r {
                Some(i) => i < self.externals().len() && self.externals()[i as int].spec_id()
                    == id,
                None => forall|a: int|
                    0 <= a < self.externals().len() ==> (#[trigger] self.externals()[
                    a]).spec_id() != id,
            },
    {
        let mut a: usize = 0;
        while a < self.external_actors.len()
            invariant
                a <= self.external_actors.len(),
                forall|j: int|
                    0 <= j < a ==> (#[trigger] self.externals()[j]).spec_id() != id,
            decreases self.external_actors.len() - a,
        {
            if self.external_actors[a].get_id() == id {
                return Some(a);
            }
            a = a + 1;
        }
        None
    }

    fn int_index_of(&self, id: u64) -> (r: Option<usize>)
        ensures
            match r {
                Some(i) => i < self.internals().len() && self.internals()[i as int].spec_id()
                    == id,
                None => forall|a: int|
                    0 <= a < self.internals().len() ==> (#[trigger] self.internals()[
                    a]).spec_id() != id,
            },
    {
        let mut a: usize = 0;
        while a < self.internal_actors.len()
            invariant
                a <= self.internal_actors.len(),
                forall|j: int|
                    0 <= j < a ==> (#[trigger] self.internals()[j]).spec_id() != id,
            decreases self.internal_actors.len() - a,
        {
            if self.internal_actors[a].get_id() == id {
                return Some(a);
            }
            a = a + 1;
        }
        None
    }

    /// Registers a client actor; an old actor with the same id is replaced.
    pub fn register_client(&mut self, actor: NetworkActor)
        requires
            old(self).wf(),
            actor.wf(),
        ensures
            final(self).wf(),
            final(self).internals() == old(self).internals(),
            exists|i: int|
                0 <= i < final(self).externals().len() && final(self).externals()[i] == actor,
    {
        match self.ext_index_of(actor.get_id()) {
            Some(i) => {
                let ghost pre = self.externals();
                let slot = &mut self.external_actors[i];
                *slot = actor;
                proof {
                    assert(self.externals() =~= pre.update(i as int, actor));
                    assert(self.externals()[i as int] == actor);
                    assert forall|x: int, y: int|
                        0 <= x < y < self.externals().len() implies self.externals()[
                    x].spec_id() != self.externals()[y].spec_id() by {
                        assert(pre[x].spec_id() != pre[y].spec_id());
                        assert(self.externals()[x].spec_id() == pre[x].spec_id());
                        assert(self.externals()[y].spec_id() == pre[y].spec_id());
                    }
                    assert forall|x: int|
                        0 <= x < self.externals().len() implies (
                    #[trigger] self.externals()[x]).wf() by {
                        if x != i as int {
                            assert(self.externals()[x] == pre[x]);
                        }
                    }
                }
            },
            None => {
                let ghost pre = self.externals();
                self.external_actors.push(actor);
                proof {
                    assert(self.externals()[pre.len() as int] == actor);
                    assert(forall|j: int| 0 <= j < pre.len() ==> self.externals()[j]
                        == pre[j]);
                }
            },
        }
    }

    /// Registers an AI actor; an old actor with the same id is replaced.
    pub fn register_internal(&mut self, actor: AiActor)
        requires
            old(self).wf(),
        ensures
            final(self).wf(),
            final(self).externals() == old(self).externals(),
            exists|i: int|
                0 <= i < final(self).internals().len() && final(self).internals()[i] == actor,
    {
        match self.int_index_of(actor.get_id()) {
            Some(i) => {
                let ghost pre = self.internals();
                let slot = &mut self.internal_actors[i];
                *slot = actor;
                proof {
                    assert(self.internals() =~= pre.update(i as int, actor));
                    assert(self.internals()[i as int] == actor);
                    assert forall|x: int, y: int|
                        0 <= x < y < self.internals().len() implies self.internals()[
                    x].spec_id() != self.internals()[y].spec_id() by {
                        assert(pre[x].spec_id() != pre[y].spec_id());
                        assert(self.internals()[x].spec_id() == pre[x].spec_id());
                        assert(self.internals()[y].spec_id() == pre[y].spec_id());
                    }
                }
            },
            None => {
                let ghost pre = self.internals();
                self.internal_actors.push(actor);
                proof {
                    assert(self.internals()[pre.len() as int] == actor);
                    assert(forall|j: int| 0 <= j < pre.len() ==> self.internals()[j]
                        == pre[j]);
                }
            },
        }
    }

    /// Removes and returns the client actor with this id.
    pub fn unregister_client(&mut self, id: u64) -> (r: Option<NetworkActor>)
        requires
            old(self).wf(),
        ensures
            final(self).wf(),
            final(self).internals() == old(self).internals(),
            match r {
                Some(actor) => actor.spec_id() == id && exists|i: int|
                    0 <= i < old(self).externals().len() && old(self).externals()[i] == actor
                        && final(self).externals() == old(self).externals().remove(i),
                None => final(self).externals() == old(self).externals() && forall|a: int|
                    0 <= a < old(self).externals().len() ==> (#[trigger] old(self).externals()[
                    a]).spec_id() != id,
            },
    {
        match self.ext_index_of(id) {
            Some(i) => {
                let ghost pre = self.externals();
                let actor = self.external_actors.remove(i);
                proof {
                    assert forall|a: int, b: int|
                        0 <= a < b < self.externals().len() implies self.externals()[
                    a].spec_id() != self.externals()[b].spec_id() by {
                        let sa = if a < i as int { a } else { a + 1 };
                        let sb = if b < i as int { b } else { b + 1 };
                        assert(self.externals()[a] == pre[sa]);
                        assert(self.externals()[b] == pre[sb]);
                    }
                    assert forall|a: int| 0 <= a < self.externals().len() implies (
                    #[trigger] self.externals()[a]).wf() by {
                        let sa = if a < i as int { a } else { a + 1 };
                        assert(self.externals()[a] == pre[sa]);
                    }
                }
                Some(actor)
            },
            None => None,
        }
    }

    /// Removes and returns the AI actor with this id.
    pub fn unregister_ai(&mut self, id: u64) -> (r: Option<AiActor>)
        requires
            old(self).wf(),
        ensures
            final(self).wf(),
            final(self).externals() == old(self).externals(),
            match r {
                Some(actor) => actor.spec_id() == id && exists|i: int|
                    0 <= i < old(self).internals().len() && old(self).internals()[i] == actor
                        && final(self).internals() == old(self).internals().remove(i),
                None => final(self).internals() == old(self).internals() && forall|a: int|
                    0 <= a < old(self).internals().len() ==> (#[trigger] old(self).internals()[
                    a]).spec_id() != id,
            },
    {
        match self.int_index_of(id) {
            Some(i) => {
                let ghost pre = self.internals();
                let actor = self.internal_actors.remove(i);
                proof {
                    assert forall|a: int, b: int|
                        0 <= a < b < self.internals().len() implies self.internals()[
                    a].spec_id() != self.internals()[b].spec_id() by {
                        let sa = if a < i as int { a } else { a + 1 };
                        let sb = if b < i as int { b } else { b + 1 };
                        assert(self.internals()[a] == pre[sa]);
                        assert(self.internals()[b] == pre[sb]);
                    }
                }
                Some(actor)
            },
            None => None,
        }
    }

    /// Appends every notification, in order, to every client actor's
    /// outbox.  AI actors receive nothing.
    pub fn broadcast_notifications(&mut self, notifications: &Vec<Notification>)
        requires
            old(self).wf(),
        ensures
            final(self).wf(),
            final(self).internals() == old(self).internals(),
            final(self).externals().len() == old(self).externals().len(),
            forall|a: int|
                0 <= a < old(self).externals().len() ==> {
                    let pre = old(self).externals()[a];
                    let post = #[trigger] final(self).externals()[a];
                    &&& notification_views(post.outbox()) == notification_views(pre.outbox())
                        + notification_views(notifications@)
                    &&& post.spec_id() == pre.spec_id()
                    &&& post.owned() == pre.owned()
                    &&& post.orders() == pre.orders()
                    &&& post.commands() == pre.commands()
                },
    {
        let n = self.external_actors.len();
        let mut a: usize = 0;
        while a < n
            invariant
                self.wf(),
                n == self.externals().len() == old(self).externals().len(),
                self.internals() == old(self).internals(),
                a <= n,
                forall|j: int|
                    0 <= j < a ==> {
                        let pre = old(self).externals()[j];
                        let post = #[trigger] self.externals()[j];
                        &&& notification_views(post.outbox()) == notification_views(pre.outbox())
                            + notification_views(notifications@)
                        &&& post.spec_id() == pre.spec_id()
                        &&& post.owned() == pre.owned()
                        &&& post.orders() == pre.orders()
                        &&& post.commands() == pre.commands()
                    },
                forall|j: int|
                    a <= j < n ==> self.externals()[j] == old(self).externals()[j],
            decreases n - a,
        {
            let ghost pre_actors = self.externals();
            let mut k: usize = 0;
            while k < notifications.len()
                invariant
                    self.wf(),
                    a < n == self.externals().len(),
                    self.internals() == old(self).internals(),
                    k <= notifications.len(),
                    forall|j: int| 0 <= j < n && j != a ==> self.externals()[j]
                        == pre_actors[j],
                    ({
                        let pre = pre_actors[a as int];
                        let post = self.externals()[a as int];
                        &&& notification_views(post.outbox()) == notification_views(pre.outbox())
                            + notification_views(notifications@.take(k as int))
                        &&& post.spec_id() == pre.spec_id()
                        &&& post.owned() == pre.owned()
                        &&& post.orders() == pre.orders()
                        &&& post.commands() == pre.commands()
                        &&& post.wf() == pre.wf()
                    }),
                decreases notifications.len() - k,
            {
                let ghost before = self.externals();
                let ghost outbox_pre = self.externals()[a as int].outbox();
                let message = notifications[k].duplicate();
                self.external_actors[a].send_message(message);
                proof {
                    assert(self.externals() =~= before.update(
                        a as int,
                        self.externals()[a as int],
                    ));
                    assert(forall|j: int|
                        0 <= j < self.externals().len() && j != a as int
                            ==> self.externals()[j] == before[j]);
                    assert(self.externals()[a as int].spec_id() == before[
                    a as int].spec_id());
                    assert(self.externals()[a as int].wf() == before[a as int].wf());
                    assert forall|x: int, y: int|
                        0 <= x < y < self.externals().len() implies self.externals()[
                    x].spec_id() != self.externals()[y].spec_id() by {
                        assert(before[x].spec_id() != before[y].spec_id());
                    }
                    assert forall|x: int|
                        0 <= x < self.externals().len() implies (
                    #[trigger] self.externals()[x]).wf() by {
                        assert(before[x].wf());
                    }
                    assert(notifications@.take(k as int + 1) =~= notifications@.take(
                        k as int,
                    ).push(notifications@[k as int]));
                    lemma_views_push(outbox_pre, message);
                    lemma_views_push(notifications@.take(k as int), notifications@[k as int]);
                    assert(notification_views(self.externals()[a as int].outbox()) =~=
                        notification_views(pre_actors[a as int].outbox()) + notification_views(
                        notifications@.take(k as int + 1),
                    ));
                }
                k = k + 1;
            }
            proof {
                assert(notifications@.take(notifications@.len() as int) =~= notifications@);
                assert forall|j: int| 0 <= j < a + 1 implies {
                    let pre = old(self).externals()[j];
                    let post = #[trigger] self.externals()[j];
                    &&& notification_views(post.outbox()) == notification_views(pre.outbox())
                        + notification_views(notifications@)
                    &&& post.spec_id() == pre.spec_id()
                    &&& post.owned() == pre.owned()
                    &&& post.orders() == pre.orders()
                    &&& post.commands() == pre.commands()
                } by {
                    if j < a as int {
                        assert(self.externals()[j] == pre_actors[j]);
                    } else {
                        assert(self.externals()[j].outbox() == self.externals()[
                        a as int].outbox());
                    }
                }
            }
            a = a + 1;
        }
    }

    /// Collects the commands every actor queued.  Given well-formed actors
    /// these are only unregistration requests.
    pub fn get_commands(&mut self) -> (r: Vec<Command>)
        requires
            old(self).wf(),
        ensures
            final(self).wf(),
            final(self).internals() == old(self).internals(),
            final(self).externals().len() == old(self).externals().len(),
            forall|a: int|
                0 <= a < old(self).externals().len() ==> {
                    let pre = old(self).externals()[a];
                    let post = #[trigger] final(self).externals()[a];
                    &&& post.commands() == Seq::<Command>::empty()
                    &&& post.spec_id() == pre.spec_id()
                    &&& post.owned() == pre.owned()
                    &&& post.orders() == pre.orders()
                    &&& post.outbox() == pre.outbox()
                },
            forall|k: int|
                0 <= k < r@.len() ==> (#[trigger] r@[k]) matches Command::UnregisterActor(_),
    {
        let mut commands_buffer: Vec<Command> = Vec::new();
        let n = self.external_actors.len();
        let mut a: usize = 0;
        while a < n
            invariant
                self.wf(),
                n == self.externals().len() == old(self).externals().len(),
                self.internals() == old(self).internals(),
                a <= n,
                forall|j: int|
                    0 <= j < a ==> {
                        let pre = old(self).externals()[j];
                        let post = #[trigger] self.externals()[j];
                        &&& post.commands() == Seq::<Command>::empty()
                        &&& post.spec_id() == pre.spec_id()
                        &&& post.owned() == pre.owned()
                        &&& post.orders() == pre.orders()
                        &&& post.outbox() == pre.outbox()
                    },
                forall|j: int|
                    a <= j < n ==> self.externals()[j] == old(self).externals()[j],
                forall|k: int|
                    0 <= k < commands_buffer@.len() ==> (#[trigger] commands_buffer@[k])
                        matches Command::UnregisterActor(_),
            decreases n - a,
        {
            let ghost before = self.externals();
            let ghost buf0 = commands_buffer@;
            self.external_actors[a].get_commands(&mut commands_buffer);
            proof {
                assert(self.externals() =~= before.update(
                    a as int,
                    self.externals()[a as int],
                ));
                assert(before[a as int].wf());
                assert(crate::actor::all_unregister(before[a as int].commands()));
                assert forall|k: int|
                    0 <= k < commands_buffer@.len() implies (#[trigger] commands_buffer@[k])
                    matches Command::UnregisterActor(_) by {
                    if k < buf0.len() {
                        assert(commands_buffer@[k] == buf0[k]);
                    } else {
                        assert(commands_buffer@[k] == before[a as int].commands()[k - buf0.len()]);
                    }
                }
                assert(forall|j: int|
                    0 <= j < self.externals().len() && j != a as int
                        ==> self.externals()[j] == before[j]);
                assert(self.externals()[a as int].spec_id() == before[a as int].spec_id());
                assert(self.externals()[a as int].wf());
                assert forall|x: int, y: int|
                    0 <= x < y < self.externals().len() implies self.externals()[
                x].spec_id() != self.externals()[y].spec_id() by {
                    assert(before[x].spec_id() != before[y].spec_id());
                }
                assert forall|x: int|
                    0 <= x < self.externals().len() implies (
                #[trigger] self.externals()[x]).wf() by {
                    assert(before[x].wf());
                }
            }
            a = a + 1;
        }
        let m = self.internal_actors.len();
        let mut b: usize = 0;
        while b < m
            invariant
                self.wf(),
                m == self.internals().len(),
                self.internals() == old(self).internals(),
                self.externals().len() == old(self).externals().len(),
                b <= m,
                forall|j: int|
                    0 <= j < self.externals().len() ==> {
                        let pre = old(self).externals()[j];
                        let post = #[trigger] self.externals()[j];
                        &&& post.commands() == Seq::<Command>::empty()
                        &&& post.spec_id() == pre.spec_id()
                        &&& post.owned() == pre.owned()
                        &&& post.orders() == pre.orders()
                        &&& post.outbox() == pre.outbox()
                    },
                forall|k: int|
                    0 <= k < commands_buffer@.len() ==> (#[trigger] commands_buffer@[k])
                        matches Command::UnregisterActor(_),
            decreases m - b,
        {
            let ghost before = self.internals();
            self.internal_actors[b].get_commands(&mut commands_buffer);
            proof {
                assert(self.internals() =~= before.update(
                    b as int,
                    self.internals()[b as int],
                ));
                assert(self.internals()[b as int] == before[b as int]);
                assert(self.internals() =~= before);
            }
            b = b + 1;
        }
        commands_buffer
    }

    /// Runs order execution for every actor, clients first, then AI, each
    /// in registration order.
    pub fn execute_orders(&mut self, entities: &mut EntityStore, notifications: &mut Vec<
        Notification,
    >, previous: &Vec<Notification>)
        requires
            old(self).wf(),
            old(entities).wf(),
        ensures
            final(self).wf(),
            final(entities).wf(),
            order_frame(old(entities)@, final(entities)@),
            final(notifications)@.len() >= old(notifications)@.len(),
            forall|t: int| 0 <= t < old(notifications)@.len() ==> final(notifications)@[t] == old(notifications)@[t],
            final(self).externals().len() == old(self).externals().len(),
            final(self).internals().len() == old(self).internals().len(),
            forall|a: int|
                0 <= a < old(self).externals().len() ==> {
                    let pre = old(self).externals()[a];
                    let post = #[trigger] final(self).externals()[a];
                    &&& post.spec_id() == pre.spec_id()
                    &&& post.owned() == pre.owned()
                    &&& post.outbox() == pre.outbox()
                    &&& post.orders() == Seq::<crate::messages::EntityOrder>::empty()
                },
            forall|b: int|
                0 <= b < old(self).externals().len() ==> walk_notified(
                    (#[trigger] old(self).externals()[b]).orders(),
                    old(self).externals()[b].owned(),
                    old(entities)@,
                    old(notifications)@.len() as int,
                    final(notifications)@,
                ),
    {
        let ghost store0 = old(entities)@;
        let ghost base = old(notifications)@.len() as int;
        let ghost ext0 = self.externals();
        proof {
            assert(ext0.skip(0) =~= ext0);
        }
        let n = self.external_actors.len();
        let mut a: usize = 0;
        while a < n
            invariant
                self.wf(),
                entities.wf(),
                order_frame(store0, entities@),
                n == self.externals().len() == old(self).externals().len(),
                self.internals() == old(self).internals(),
                0 <= base,
                notifications@.len() >= base,
                forall|t: int| 0 <= t < base ==> notifications@[t] == old(notifications)@[t],
                notification_views(notifications@) + emitted_all_views(ext0.skip(a as int), store0)
                    == notification_views(old(notifications)@) + emitted_all_views(ext0, store0),
                ext0 == old(self).externals(),
                forall|j: int| a <= j < n ==> self.externals()[j] == ext0[j],
                a <= n,
                forall|j: int|
                    0 <= j < a ==> {
                        let pre = old(self).externals()[j];
                        let post = #[trigger] self.externals()[j];
                        &&& post.spec_id() == pre.spec_id()
                        &&& post.owned() == pre.owned()
                        &&& post.outbox() == pre.outbox()
                        &&& post.commands() == pre.commands()
                        &&& post.orders() == Seq::<crate::messages::EntityOrder>::empty()
                    },
                forall|j: int|
                    a <= j < n ==> self.externals()[j] == old(self).externals()[j],
                forall|b: int|
                    0 <= b < a ==> walk_notified(
                        (#[trigger] old(self).externals()[b]).orders(),
                        old(self).externals()[b].owned(),
                        store0,
                        base,
                        notifications@,
                    ),
            decreases n - a,
        {
            let ghost before = self.externals();
            let ghost store_pre = entities@;
            let ghost notif_pre = notifications@;
            proof {
                lemma_emitted_all_views_step(ext0, store0, a as int);
            }
            self.external_actors[a].execute_orders(entities, notifications, previous);
            proof {
                assert(self.externals() =~= before.update(
                    a as int,
                    self.externals()[a as int],
                ));
                assert(forall|i: int|
                    0 <= i < store0.len() ==> store0[i].id == store_pre[i].id);
                lemma_emitted_views_ids(ext0[a as int].orders(), ext0[a as int].owned(), store_pre, store0);
                assert(notification_views(notifications@) =~= notification_views(notif_pre)
                    + emitted_views(ext0[a as int].orders(), ext0[a as int].owned(), store0));
                assert(notification_views(notifications@) + emitted_all_views(
                    ext0.skip(a as int + 1),
                    store0,
                ) =~= notification_views(old(notifications)@) + emitted_all_views(ext0, store0));
                assert(forall|j: int|
                    0 <= j < self.externals().len() && j != a as int
                        ==> self.externals()[j] == before[j]);
                assert(self.externals()[a as int].spec_id() == before[a as int].spec_id());
                assert(self.externals()[a as int].wf() == before[a as int].wf());
                assert forall|x: int, y: int|
                    0 <= x < y < self.externals().len() implies self.externals()[
                x].spec_id() != self.externals()[y].spec_id() by {
                    assert(before[x].spec_id() != before[y].spec_id());
                }
                assert forall|x: int|
                    0 <= x < self.externals().len() implies (
                #[trigger] self.externals()[x]).wf() by {
                    assert(before[x].wf());
                }
                assert(forall|i: int|
                    0 <= i < store0.len() ==> store0[i].id == store_pre[i].id);
                assert forall|b: int| 0 <= b < a + 1 implies walk_notified(
                    (#[trigger] old(self).externals()[b]).orders(),
                    old(self).externals()[b].owned(),
                    store0,
                    base,
                    notifications@,
                ) by {
                    let orders = old(self).externals()[b].orders();
                    let owned = old(self).externals()[b].owned();
                    if b < a {
                        assert(walk_notified(orders, owned, store0, base, notif_pre));
                        assert forall|k: int| 0 <= k < orders.len() implies
                            crate::actor::walk_order_notified(
                            #[trigger] orders[k],
                            owned,
                            store0,
                            base,
                            notifications@,
                        ) by {
                            lemma_walk_order_notified_extend(
                                orders[k],
                                owned,
                                store0,
                                base,
                                notif_pre,
                                notifications@,
                            );
                        }
                    } else {
                        assert(walk_notified(
                            orders,
                            owned,
                            store_pre,
                            notif_pre.len() as int,
                            notifications@,
                        ));
                        assert forall|k: int| 0 <= k < orders.len() implies
                            crate::actor::walk_order_notified(
                            #[trigger] orders[k],
                            owned,
                            store0,
                            base,
                            notifications@,
                        ) by {
                            lemma_walk_order_notified_weaken(
                                orders[k],
                                owned,
                                store0,
                                store_pre,
                                base,
                                notif_pre.len() as int,
                                notifications@,
                            );
                        }
                    }
                }
            }
            a = a + 1;
        }
        proof {
            assert(ext0.skip(n as int) =~= Seq::<NetworkActor>::empty());
            assert(emitted_all_views(Seq::<NetworkActor>::empty(), store0)
                =~= Seq::<NotificationView>::empty());
            assert(notification_views(notifications@) + Seq::<NotificationView>::empty()
                =~= notification_views(notifications@));
        }
        proof {
            assert(ext0.skip(n as int) =~= Seq::<NetworkActor>::empty());
            assert(emitted_all_views(Seq::<NetworkActor>::empty(), store0)
                =~= Seq::<NotificationView>::empty());
            assert(notification_views(notifications@) + Seq::<NotificationView>::empty()
                =~= notification_views(notifications@));
        }
        let m = self.internal_actors.len();
        let mut b: usize = 0;
        while b < m
            invariant
                self.wf(),
                entities.wf(),
                order_frame(store0, entities@),
                m == self.internals().len(),
                self.internals().len() == old(self).internals().len(),
                self.externals().len() == old(self).externals().len(),
                0 <= base,
                notifications@.len() >= base,
                forall|t: int| 0 <= t < base ==> notifications@[t] == old(notifications)@[t],
                b <= m,
                forall|j: int|
                    0 <= j < self.externals().len() ==> {
                        let pre = old(self).externals()[j];
                        let post = #[trigger] self.externals()[j];
                        &&& post.spec_id() == pre.spec_id()
                        &&& post.owned() == pre.owned()
                        &&& post.outbox() == pre.outbox()
                        &&& post.orders() == Seq::<crate::messages::EntityOrder>::empty()
                    },
                forall|c: int|
                    0 <= c < old(self).externals().len() ==> walk_notified(
                        (#[trigger] old(self).externals()[c]).orders(),
                        old(self).externals()[c].owned(),
                        store0,
                        base,
                        notifications@,
                    ),
            decreases m - b,
        {
            let ghost before = self.internals();
            let ghost store_pre = entities@;
            self.internal_actors[b].execute_orders(entities, notifications, previous);
            proof {
                assert(self.internals() =~= before.update(
                    b as int,
                    self.internals()[b as int],
                ));
                assert(forall|j: int|
                    0 <= j < self.internals().len() && j != b as int
                        ==> self.internals()[j] == before[j]);
                assert(self.internals()[b as int].spec_id() == before[b as int].spec_id());
                assert forall|x: int, y: int|
                    0 <= x < y < self.internals().len() implies self.internals()[
                x].spec_id() != self.internals()[y].spec_id() by {
                    assert(before[x].spec_id() != before[y].spec_id());
                }
                assert forall|c: int| 0 <= c < old(self).externals().len() implies walk_notified(
                    (#[trigger] old(self).externals()[c]).orders(),
                    old(self).externals()[c].owned(),
                    store0,
                    base,
                    notifications@,
                ) by {}
            }
            b = b + 1;
        }
    }

    /// Hands an entity to the actor with this id, client first, AI second;
    /// the found actor registers it among its owned entities.
    pub fn assign_entity_to_actor(&mut self, actor: u64, entity: u64) -> (r: bool)
        requires
            old(self).wf(),
        ensures
            final(self).wf(),
            r == (spec_has_ext(old(self).externals(), actor) || spec_has_int(
                old(self).internals(),
                actor,
            )),
            final(self).externals().len() == old(self).externals().len(),
            final(self).internals().len() == old(self).internals().len(),
            forall|j: int|
                0 <= j < old(self).externals().len() ==> (#[trigger] final(self).externals()[
                j]).spec_id() == old(self).externals()[j].spec_id(),
            if spec_has_ext(old(self).externals(), actor) {
                let j = spec_ext_index(old(self).externals(), actor);
                let pre = old(self).externals()[j];
                let post = final(self).externals()[j];
                &&& final(self).internals() == old(self).internals()
                &&& forall|k: int|
                    0 <= k < old(self).externals().len() && k != j ==> final(self).externals()[k]
                        == old(self).externals()[k]
                &&& post.spec_id() == pre.spec_id()
                &&& post.owned() == if pre.owned().contains(entity) {
                    pre.owned()
                } else {
                    pre.owned().push(entity)
                }
                &&& post.owned().contains(entity)
                &&& post.orders() == pre.orders()
                &&& post.commands() == pre.commands()
                &&& post.outbox() == pre.outbox()
            } else if spec_has_int(old(self).internals(), actor) {
                let j = spec_int_index(old(self).internals(), actor);
                &&& final(self).externals() == old(self).externals()
                &&& forall|k: int|
                    0 <= k < old(self).internals().len() && k != j ==> final(self).internals()[k]
                        == old(self).internals()[k]
                &&& final(self).internals()[j].spec_id() == old(self).internals()[j].spec_id()
                &&& final(self).internals()[j].spec_entity() == Some(entity)
            } else {
                final(self).externals() == old(self).externals() && final(self).internals()
                    == old(self).internals()
            },
    {
        let ghost before = self.externals();
        match self.ext_index_of(actor) {
            Some(i) => {
                self.external_actors[i].register_entity(entity);
                proof {
                    assert(spec_ext_index(before, actor) == i as int) by {
                        let w = spec_ext_index(before, actor);
                        assert(0 <= w < before.len() && before[w].spec_id() == actor);
                    }
                    assert(self.externals() =~= before.update(
                        i as int,
                        self.externals()[i as int],
                    ));
                }
                return true;
            },
            None => {},
        }
        let ghost before_int = self.internals();
        match self.int_index_of(actor) {
            Some(i) => {
                self.internal_actors[i].register_entity(entity);
                proof {
                    assert(spec_int_index(before_int, actor) == i as int) by {
                        let w = spec_int_index(before_int, actor);
                        assert(0 <= w < before_int.len() && before_int[w].spec_id() == actor);
                    }
                    assert(self.internals() =~= before_int.update(
                        i as int,
                        self.internals()[i as int],
                    ));
                }
                true
            },
            None => false,
        }
    }

    /// Empties every client actor's outbox, handing each actor's queued
    /// notifications out with its id, in registration order.
    pub fn take_outboxes(&mut self) -> (r: Vec<(u64, Vec<Notification>)>)
        requires
            old(self).wf(),
        ensures
            final(self).wf(),
            final(self).internals() == old(self).internals(),
            final(self).externals().len() == old(self).externals().len(),
            r@.len() == old(self).externals().len(),
            forall|a: int|
                0 <= a < r@.len() ==> (#[trigger] r@[a]).0 == old(self).externals()[a].spec_id()
                    && r@[a].1@ == old(self).externals()[a].outbox() && final(self).externals()[
                a].outbox() == Seq::<Notification>::empty() && final(self).externals()[
                a].spec_id() == old(self).externals()[a].spec_id(),
    {
        let mut r: Vec<(u64, Vec<Notification>)> = Vec::new();
        let n = self.external_actors.len();
        let mut a: usize = 0;
        while a < n
            invariant
                self.wf(),
                n == self.externals().len() == old(self).externals().len(),
                self.internals() == old(self).internals(),
                a <= n,
                r@.len() == a,
                forall|j: int|
                    0 <= j < a ==> (#[trigger] r@[j]).0 == old(self).externals()[j].spec_id()
                        && r@[j].1@ == old(self).externals()[j].outbox() && self.externals()[
                    j].outbox() == Seq::<Notification>::empty() && self.externals()[j].spec_id()
                        == old(self).externals()[j].spec_id(),
                forall|j: int| a <= j < n ==> self.externals()[j] == old(self).externals()[j],
            decreases n - a,
        {
            let ghost before = self.externals();
            let id = self.external_actors[a].get_id();
            let outbox = self.external_actors[a].take_outbox();
            r.push((id, outbox));
            proof {
                assert(self.externals() =~= before.update(a as int, self.externals()[a as int]));
                assert forall|x: int, y: int|
                    0 <= x < y < self.externals().len() implies self.externals()[x].spec_id()
                    != self.externals()[y].spec_id() by {
                    assert(before[x].spec_id() != before[y].spec_id());
                }
                assert forall|x: int|
                    0 <= x < self.externals().len() implies (
                #[trigger] self.externals()[x]).wf() by {
                    assert(before[x].wf());
                }
            }
            a = a + 1;
        }
        r
    }

    /// Feeds one parsed command from a client's link into its actor: an
    /// order joins that actor's order queue, a stray game command makes it
    /// ask to be unregistered.  Reports whether the actor exists.
    pub fn push_client_command(&mut self, actor: u64, command: crate::messages::NetworkCommand)
        -> (r: bool)
        requires
            old(self).wf(),
        ensures
            final(self).wf(),
            final(self).internals() == old(self).internals(),
            final(self).externals().len() == old(self).externals().len(),
            r == spec_has_ext(old(self).externals(), actor),
            if spec_has_ext(old(self).externals(), actor) {
                let j = spec_ext_index(old(self).externals(), actor);
                let pre = old(self).externals()[j];
                let post = final(self).externals()[j];
                &&& forall|k: int|
                    0 <= k < old(self).externals().len() && k != j ==> final(self).externals()[k]
                        == old(self).externals()[k]
                &&& post.spec_id() == pre.spec_id()
                &&& post.owned() == pre.owned()
                &&& post.outbox() == pre.outbox()
                &&& match command {
                    crate::messages::NetworkCommand::EntityOrder(o) => post.orders()
                        == pre.orders().push(o) && post.commands() == pre.commands(),
                    crate::messages::NetworkCommand::GameCommand(_) => post.commands()
                        == pre.commands().push(Command::UnregisterActor(pre.spec_id()))
                        && post.orders() == pre.orders(),
                }
            } else {
                final(self).externals() == old(self).externals()
            },
    {
        let ghost before = self.externals();
        match self.ext_index_of(actor) {
            Some(i) => {
                proof {
                    assert(spec_ext_index(before, actor) == i as int) by {
                        let w = spec_ext_index(before, actor);
                        assert(0 <= w < before.len() && before[w].spec_id() == actor);
                    }
                }
                self.external_actors[i].push_network_command(command);
                proof {
                    assert(self.externals() =~= before.update(
                        i as int,
                        self.externals()[i as int],
                    ));
                    assert forall|x: int, y: int|
                        0 <= x < y < self.externals().len() implies self.externals()[x].spec_id()
                        != self.externals()[y].spec_id() by {
                        assert(before[x].spec_id() != before[y].spec_id());
                    }
                    assert forall|x: int|
                        0 <= x < self.externals().len() implies (
                    #[trigger] self.externals()[x]).wf() by {
                        assert(before[x].wf());
                    }
                }
                true
            },
            None => false,
        }
    }

    /// A client's link broke: its actor asks to be unregistered on the
    /// next tick.  Reports whether the actor exists.
    pub fn client_disconnected(&mut self, actor: u64) -> (r: bool)
        requires
            old(self).wf(),
        ensures
            final(self).wf(),
            final(self).internals() == old(self).internals(),
            final(self).externals().len() == old(self).externals().len(),
            r == spec_has_ext(old(self).externals(), actor),
            if spec_has_ext(old(self).externals(), actor) {
                let j = spec_ext_index(old(self).externals(), actor);
                let pre = old(self).externals()[j];
                let post = final(self).externals()[j];
                &&& forall|k: int|
                    0 <= k < old(self).externals().len() && k != j ==> final(self).externals()[k]
                        == old(self).externals()[k]
                &&& post.spec_id() == pre.spec_id()
                &&& post.owned() == pre.owned()
                &&& post.outbox() == pre.outbox()
                &&& post.orders() == pre.orders()
                &&& post.commands() == pre.commands().push(
                    Command::UnregisterActor(pre.spec_id()),
                )
            } else {
                final(self).externals() == old(self).externals()
            },
    {
        let ghost before = self.externals();
        match self.ext_index_of(actor) {
            Some(i) => {
                proof {
                    assert(spec_ext_index(before, actor) == i as int) by {
                        let w = spec_ext_index(before, actor);
                        assert(0 <= w < before.len() && before[w].spec_id() == actor);
                    }
                }
                self.external_actors[i].disconnected();
                proof {
                    assert(self.externals() =~= before.update(
                        i as int,
                        self.externals()[i as int],
                    ));
                    assert forall|x: int, y: int|
                        0 <= x < y < self.externals().len() implies self.externals()[x].spec_id()
                        != self.externals()[y].spec_id() by {
                        assert(before[x].spec_id() != before[y].spec_id());
                    }
                    assert forall|x: int|
                        0 <= x < self.externals().len() implies (
                    #[trigger] self.externals()[x]).wf() by {
                        assert(before[x].wf());
                    }
                }
                true
            },
            None => false,
        }
    }

    /// Removes and returns every client actor.
    pub fn drain_external(&mut self) -> (r: Vec<NetworkActor>)
        requires
            old(self).wf(),
        ensures
            final(self).wf(),
            r@ == old(self).externals(),
            final(self).externals() == Seq::<NetworkActor>::empty(),
            final(self).internals() == old(self).internals(),
    {
        let mut taken: Vec<NetworkActor> = Vec::new();
        core::mem::swap(&mut taken, &mut self.external_actors);
        taken
    }
}

/// Every entity of `sub` appears, with the same value, somewhere in `sup`.
pub open spec fn values_subset(sub: Seq<Entity>, sup: Seq<Entity>) -> bool {
    forall|i: int| #![trigger sub[i]] 0 <= i < sub.len() ==> sup.contains(sub[i])
}

/// Value-membership is reflexive.
pub proof fn lemma_values_subset_refl(s: Seq<Entity>)
    ensures
        values_subset(s, s),
{
    assert forall|i: int| #![trigger s[i]] 0 <= i < s.len() implies s.contains(s[i]) by {
        assert(s[i] == s[i]);
    }
}

/// Value-membership is transitive.
pub proof fn lemma_values_subset_trans(a: Seq<Entity>, b: Seq<Entity>, c: Seq<Entity>)
    requires
        values_subset(a, b),
        values_subset(b, c),
    ensures
        values_subset(a, c),
{
    assert forall|i: int| #![trigger a[i]] 0 <= i < a.len() implies c.contains(a[i]) by {
        assert(b.contains(a[i]));
        let j = choose|j: int| 0 <= j < b.len() && b[j] == a[i];
        assert(c.contains(b[j]));
    }
}

/// A per-map simulation worker's whole state.
pub struct Instance {
    id: u64,
    map_id: u128,
    entities: EntityStore,
    actors: Actors,
    /// The previous tick's notifications, kept for the AI.
    prev_notifications: Vec<Notification>,
    /// The notifications pending for the next broadcast.
    next_notifications: Vec<Notification>,
    /// Real time not yet consumed by ticks, in microseconds.
    lag_us: u64,
    /// When the last tick signal was handled, in microseconds.
    last_tick_us: u64,
    /// The fixed tick period, in microseconds.
    tick_period_us: u32,
    tick_id: u64,
    shutting_down: bool,
    /// The map area entities are clamped to, in nano-units.
    area: Vec2,
    /// When the instance was created, in microseconds of wall-clock time.
    created_at: u64,
}

impl Instance {
    pub closed spec fn spec_id(self) -> u64 {
        self.id
    }

    pub closed spec fn spec_map(self) -> u128 {
        self.map_id
    }

    pub closed spec fn entities(self) -> Seq<Entity> {
        self.entities@
    }

    pub closed spec fn ext_actors(self) -> Seq<NetworkActor> {
        self.actors.externals()
    }

    pub closed spec fn int_actors(self) -> Seq<AiActor> {
        self.actors.internals()
    }

    pub closed spec fn prev(self) -> Seq<Notification> {
        self.prev_notifications@
    }

    pub closed spec fn next(self) -> Seq<Notification> {
        self.next_notifications@
    }

    pub closed spec fn lag(self) -> u64 {
        self.lag_us
    }

    pub closed spec fn last_tick(self) -> u64 {
        self.last_tick_us
    }

    pub closed spec fn spec_period(self) -> u32 {
        self.tick_period_us
    }

    pub closed spec fn tick(self) -> u64 {
        self.tick_id
    }

    pub closed spec fn shutting_down(self) -> bool {
        self.shutting_down
    }

    pub closed spec fn spec_area(self) -> Vec2 {
        self.area
    }

    pub closed spec fn spec_created(self) -> u64 {
        self.created_at
    }

    /// A sound instance: sound store and actors, a positive bounded tick
    /// period, a bounded area.
    pub open spec fn wf(self) -> bool {
        &&& crate::store::unique_ids(self.entities())
        &&& crate::store::all_wf(self.entities())
        &&& self.actors_wf()
        &&& 1 <= self.spec_period() <= TICK_LIMIT_US
        &&& 0 <= self.spec_area().x <= POS_LIMIT_NANO
        &&& 0 <= self.spec_area().y <= POS_LIMIT_NANO
    }

    pub closed spec fn actors_wf(self) -> bool {
        self.actors.wf() && self.entities.wf()
    }

    pub fn new(id: u64, map_id: u128, tick_period_us: u32, area: Vec2, created_at: u64) -> (r:
        Instance)
        requires
            1 <= tick_period_us <= TICK_LIMIT_US,
            0 <= area.x <= POS_LIMIT_NANO,
            0 <= area.y <= POS_LIMIT_NANO,
        ensures
            r.wf(),
            r.spec_id() == id,
            r.spec_map() == map_id,
            r.spec_period() == tick_period_us,
            r.spec_area() == area,
            r.entities() == Seq::<Entity>::empty(),
            r.ext_actors() == Seq::<NetworkActor>::empty(),
            r.int_actors() == Seq::<AiActor>::empty(),
            r.prev() == Seq::<Notification>::empty(),
            r.next() == Seq::<Notification>::empty(),
            r.lag() == 0,
            r.last_tick() == created_at,
            r.tick() == 0,
            !r.shutting_down(),
    {
        Instance {
            id,
            map_id,
            entities: EntityStore::new(),
            actors: Actors::new(),
            prev_notifications: Vec::new(),
            next_notifications: Vec::new(),
            lag_us: 0,
            last_tick_us: created_at,
            tick_period_us,
            tick_id: 0,
            shutting_down: false,
            area,
            created_at,
        }
    }

    pub fn get_id(&self) -> (r: u64)
        ensures
            r == self.spec_id(),
    {
        self.id
    }

    pub fn get_map(&self) -> (r: u128)
        ensures
            r == self.spec_map(),
    {
        self.map_id
    }

    pub fn created_at(&self) -> (r: u64)
        ensures
            r == self.spec_created(),
    {
        self.created_at
    }

    /// Registers a client's actor: every existing entity is announced to
    /// the newcomer, each of the client's entities is announced to all and
    /// pushed into the store.  An entity whose id the store already holds,
    /// or that is ill-formed, is dropped, as the inconsistency policy says.
    pub fn register_client(&mut self, actor: NetworkActor, entities: Vec<Entity>)
        requires
            old(self).wf(),
            actor.wf(),
        ensures
            final(self).wf(),
            final(self).frame_timing(*old(self)),
            final(self).shutting_down() == old(self).shutting_down(),
            final(self).prev() == old(self).prev(),
            final(self).int_actors() == old(self).int_actors(),
            final(self).entities() == admit_store(old(self).entities(), entities@),
            notification_views(final(self).next()) == notification_views(old(self).next())
                + admit_views(old(self).entities(), entities@),
            final(self).entities().len() >= old(self).entities().len(),
            forall|i: int|
                0 <= i < old(self).entities().len() ==> final(self).entities()[i] == old(
                self).entities()[i],
            final(self).next().len() >= old(self).next().len(),
            forall|t: int| 0 <= t < old(self).next().len() ==> final(self).next()[t] == old(
                self).next()[t],
            exists|i: int|
                #![trigger final(self).ext_actors()[i]]
                0 <= i < final(self).ext_actors().len() && final(self).ext_actors()[i].spec_id()
                    == actor.spec_id() && final(self).ext_actors()[i].owned() == actor.owned()
                    && final(self).ext_actors()[i].orders() == actor.orders() && final(self).ext_actors()[i].commands() == actor.commands() && notification_views(
                    final(self).ext_actors()[i].outbox(),
                ) == notification_views(actor.outbox()) + announce_views(old(self).entities()),
    {
        let mut actor = actor;
        let ghost actor0 = actor;
        let ghost store0 = self.entities@;
        let n = self.entities.len();
        let mut i: usize = 0;
        while i < n
            invariant
                *self == *old(self),
                self.entities.wf(),
                store0 == self.entities@,
                n == self.entities@.len(),
                i <= n,
                actor.wf(),
                actor.spec_id() == actor0.spec_id(),
                actor.owned() == actor0.owned(),
                actor.orders() == actor0.orders(),
                actor.commands() == actor0.commands(),
                notification_views(actor.outbox()) == notification_views(actor0.outbox())
                    + announce_views(store0).take(i as int),
            decreases n - i,
        {
            let e = self.entities.at(i);
            let notification = Notification::new_entity(
                e.get_id(),
                e.get_position(),
                e.get_skin(),
                e.get_pv(),
                e.get_nominal_speed(),
            );
            let ghost outbox_pre = actor.outbox();
            actor.send_message(notification);
            proof {
                lemma_views_push(outbox_pre, actor.outbox().last());
                assert(actor.outbox().last()@ == entity_announce(store0[i as int]));
                assert(announce_views(store0).take(i as int + 1) =~= announce_views(
                    store0,
                ).take(i as int).push(entity_announce(store0[i as int])));
                assert(notification_views(actor.outbox()) =~= notification_views(actor0.outbox())
                    + announce_views(store0).take(i as int + 1));
            }
            i = i + 1;
        }
        proof {
            assert(announce_views(store0).take(n as int) =~= announce_views(store0));
        }
        let ghost inc0 = entities@;
        let mut incoming = entities;
        proof {
            assert(admit_store(self.entities@, incoming@) == admit_store(store0, inc0));
            assert(notification_views(self.next_notifications@) + admit_views(
                self.entities@,
                incoming@,
            ) =~= notification_views(old(self).next()) + admit_views(store0, inc0));
        }
        while incoming.len() > 0
            invariant
                self.frame_timing(*old(self)),
                self.shutting_down() == old(self).shutting_down(),
                self.prev() == old(self).prev(),
                self.actors == old(self).actors,
                self.actors.wf(),
                actor.wf(),
                self.entities.wf(),
                admit_store(self.entities@, incoming@) == admit_store(store0, inc0),
                notification_views(self.next_notifications@) + admit_views(
                    self.entities@,
                    incoming@,
                ) == notification_views(old(self).next()) + admit_views(store0, inc0),
                self.entities@.len() >= old(self).entities().len(),
                forall|t: int|
                    0 <= t < old(self).entities().len() ==> self.entities@[t] == old(
                    self).entities()[t],
                self.next_notifications@.len() >= old(self).next().len(),
                forall|t: int|
                    0 <= t < old(self).next().len() ==> self.next_notifications@[t] == old(
                    self).next()[t],
            decreases incoming.len(),
        {
            let ghost inc_pre = incoming@;
            let ghost st_pre = self.entities@;
            let ghost next_pre = self.next_notifications@;
            let entity = incoming.remove(0);
            let ghost e_g = entity;
            let entity_id = entity.get_id();
            let position = entity.get_position();
            let skin = entity.get_skin();
            let pv = entity.get_pv();
            let ns = entity.get_nominal_speed();
            proof {
                assert(incoming@ =~= inc_pre.drop_first());
                assert(inc_pre[0] == e_g);
            }
            match self.entities.push(entity) {
                Some(_rejected) => {
                    proof {
                        assert(!spec_admitted(st_pre, e_g));
                        assert(admit_step(st_pre, e_g) == st_pre);
                    }
                },
                None => {
                    proof {
                        assert(spec_admitted(st_pre, e_g));
                        assert(self.entities@ == admit_step(st_pre, e_g));
                    }
                    let notification = Notification::new_entity(entity_id, position, skin, pv, ns);
                    self.next_notifications.push(notification);
                    proof {
                        lemma_views_push(next_pre, self.next_notifications@.last());
                        assert(self.next_notifications@.last()@ == entity_announce(e_g));
                        assert(notification_views(self.next_notifications@)
                            =~= notification_views(next_pre) + seq![entity_announce(e_g)]);
                    }
                },
            }
            proof {
                assert(notification_views(self.next_notifications@) + admit_views(
                    self.entities@,
                    incoming@,
                ) =~= notification_views(old(self).next()) + admit_views(store0, inc0));
            }
        }
        proof {
            assert(admit_store(self.entities@, Seq::<Entity>::empty()) == self.entities@);
            assert(admit_views(self.entities@, Seq::<Entity>::empty())
                =~= Seq::<NotificationView>::empty());
            assert(notification_views(self.next_notifications@) + Seq::<
                NotificationView,
            >::empty() =~= notification_views(self.next_notifications@));
        }
        let ghost actor_final = actor;
        self.actors.register_client(actor);
        proof {
            let w = choose|i: int|
                0 <= i < self.actors.externals().len() && self.actors.externals()[i]
                    == actor_final;
            assert(self.ext_actors()[w].spec_id() == actor0.spec_id());
            assert(self.ext_actors()[w].owned() == actor0.owned());
            assert(self.ext_actors()[w].orders() == actor0.orders());
            assert(self.ext_actors()[w].commands() == actor0.commands());
            assert(notification_views(self.ext_actors()[w].outbox()) == notification_views(
                actor0.outbox(),
            ) + announce_views(store0));
        }
    }

    /// Everything a command leaves untouched: identity, clock and timing
    /// state, and the shutdown flag only a Shutdown command may set.
    pub open spec fn frame_timing(self, pre: Instance) -> bool {
        &&& self.spec_id() == pre.spec_id()
        &&& self.spec_map() == pre.spec_map()
        &&& self.spec_period() == pre.spec_period()
        &&& self.spec_area() == pre.spec_area()
        &&& self.lag() == pre.lag()
        &&& self.last_tick() == pre.last_tick()
        &&& self.tick() == pre.tick()
        &&& self.spec_created() == pre.spec_created()
    }

    /// Removes an actor, collects its entities out of the store, announces
    /// each as having quit, and reports the actor and its entities
    /// upstream.  An unknown actor id changes nothing, as the policy says.
    pub fn unregister_client(&mut self, id: u64, out: &mut Vec<Request>)
        requires
            old(self).wf(),
        ensures
            final(self).wf(),
            final(self).frame_timing(*old(self)),
            final(self).shutting_down() == old(self).shutting_down(),
            final(self).prev() == old(self).prev(),
            final(self).int_actors() == old(self).int_actors(),
            values_subset(final(self).entities(), old(self).entities()),
            final(self).next().len() >= old(self).next().len(),
            forall|t: int| 0 <= t < old(self).next().len() ==> final(self).next()[t] == old(
                self).next()[t],
            final(out)@.len() >= old(out)@.len(),
            forall|t: int| 0 <= t < old(out)@.len() ==> final(out)@[t] == old(out)@[t],
            forall|a: int|
                #![trigger final(self).ext_actors()[a]]
                0 <= a < final(self).ext_actors().len() ==> old(self).ext_actors().contains(
                    final(self).ext_actors()[a],
                ),
            !spec_has_ext(old(self).ext_actors(), id) ==> final(self).ext_actors() == old(
                self).ext_actors() && final(self).entities() == old(self).entities() && final(
                self).next() == old(self).next() && final(out)@ == old(out)@,
            spec_has_ext(old(self).ext_actors(), id) ==> {
                let j = spec_ext_index(old(self).ext_actors(), id);
                let act = old(self).ext_actors()[j];
                &&& final(self).ext_actors() == old(self).ext_actors().remove(j)
                &&& final(self).entities() == extract_store(old(self).entities(), act.owned())
                &&& notification_views(final(self).next()) == notification_views(old(self).next())
                    + quit_views(old(self).entities(), act.owned())
                &&& final(out)@.len() == old(out)@.len() + 1
                &&& (final(out)@.last() matches Request::UnregisteredActor { actor: a, entities: es }
                    && a == act && es@ == extract_removed(old(self).entities(), act.owned()))
            },
    {
        let ghost store0 = self.entities@;
        let ghost actors_mid = self.actors;
        match self.actors.unregister_client(id) {
            Some(actor) => {
                let ghost actor_g = actor;
                proof {
                    lemma_values_subset_refl(store0);
                    let i0 = choose|i: int|
                        0 <= i < actors_mid.externals().len() && actors_mid.externals()[i]
                            == actor_g && self.actors.externals()
                            == actors_mid.externals().remove(i);
                    assert(actors_mid.externals()[i0].spec_id() == id);
                    assert(spec_has_ext(old(self).ext_actors(), id));
                    assert(spec_ext_index(old(self).ext_actors(), id) == i0) by {
                        let w = spec_ext_index(old(self).ext_actors(), id);
                        assert(0 <= w < old(self).ext_actors().len() && old(self).ext_actors()[
                        w].spec_id() == id);
                    }
                    assert(old(self).ext_actors()[spec_ext_index(old(self).ext_actors(), id)]
                        == actor_g);
                }
                let ghost actors1 = self.actors;
                let owned = actor.entities_iter();
                let ghost owned_g = actor_g.owned();
                let mut ids: Vec<u64> = Vec::new();
                let mut k: usize = 0;
                while k < owned.len()
                    invariant
                        owned@ == owned_g,
                        k <= owned.len(),
                        ids@ == owned_g.take(k as int),
                    decreases owned.len() - k,
                {
                    ids.push(owned[k]);
                    proof {
                        assert(ids@ =~= owned_g.take(k as int + 1));
                    }
                    k = k + 1;
                }
                proof {
                    assert(owned_g.take(owned_g.len() as int) =~= owned_g);
                    assert(ids@.skip(0) =~= ids@);
                }
                let mut removed: Vec<Entity> = Vec::new();
                let mut t: usize = 0;
                while t < ids.len()
                    invariant
                        self.frame_timing(*old(self)),
                        self.shutting_down() == old(self).shutting_down(),
                        self.prev() == old(self).prev(),
                        self.actors == actors1,
                        self.actors.wf(),
                        self.entities.wf(),
                        t <= ids.len(),
                        ids@ == owned_g,
                        extract_store(self.entities@, ids@.skip(t as int)) == extract_store(
                            store0,
                            owned_g,
                        ),
                        removed@ + extract_removed(self.entities@, ids@.skip(t as int))
                            == extract_removed(store0, owned_g),
                        notification_views(self.next_notifications@) + quit_views(
                            self.entities@,
                            ids@.skip(t as int),
                        ) == notification_views(old(self).next()) + quit_views(store0, owned_g),
                        values_subset(self.entities@, store0),
                        self.next_notifications@.len() >= old(self).next().len(),
                        forall|q: int|
                            0 <= q < old(self).next().len() ==> self.next_notifications@[q]
                                == old(self).next()[q],
                    decreases ids.len() - t,
                {
                    let ghost mid = self.entities@;
                    let ghost next_pre = self.next_notifications@;
                    let ghost removed_pre = removed@;
                    proof {
                        assert(ids@.skip(t as int)[0] == ids@[t as int]);
                        assert(ids@.skip(t as int).drop_first() =~= ids@.skip(t as int + 1));
                    }
                    match self.entities.remove(ids[t]) {
                        Some(entity) => {
                            let ghost e_g = entity;
                            removed.push(entity);
                            let notification = Notification::entity_has_quit(ids[t]);
                            self.next_notifications.push(notification);
                            proof {
                                let j = choose|j: int|
                                    0 <= j < mid.len() && mid[j].id == ids@[t as int] && self.entities@
                                        == mid.remove(j);
                                mid.remove_ensures(j);
                                assert(contains_id(mid, ids@[t as int]));
                                assert(spec_index_of(mid, ids@[t as int]) == j) by {
                                    let w = spec_index_of(mid, ids@[t as int]);
                                    assert(0 <= w < mid.len() && mid[w].id == ids@[t as int]);
                                }
                                assert(extract_step(mid, ids@[t as int]) == self.entities@);
                                assert(e_g == mid[spec_index_of(mid, ids@[t as int])]);
                                assert(removed@ =~= removed_pre.push(e_g));
                                assert(removed@ + extract_removed(
                                    self.entities@,
                                    ids@.skip(t as int + 1),
                                ) =~= extract_removed(store0, owned_g));
                                lemma_views_push(next_pre, self.next_notifications@.last());
                                assert(self.next_notifications@.last()@
                                    == (NotificationView::EntityHasQuit {
                                    entity: ids@[t as int],
                                }));
                                assert(notification_views(self.next_notifications@) + quit_views(
                                    self.entities@,
                                    ids@.skip(t as int + 1),
                                ) =~= notification_views(old(self).next()) + quit_views(
                                    store0,
                                    owned_g,
                                ));
                                assert forall|x: int|
                                    #![trigger self.entities@[x]]
                                    0 <= x < self.entities@.len() implies mid.contains(
                                    self.entities@[x],
                                ) by {
                                    if x < j {
                                        assert(self.entities@[x] == mid[x]);
                                        assert(mid.contains(mid[x]));
                                    } else {
                                        assert(self.entities@[x] == mid[x + 1]);
                                        assert(mid.contains(mid[x + 1]));
                                    }
                                }
                                lemma_values_subset_trans(self.entities@, mid, store0);
                            }
                        },
                        None => {
                            proof {
                                assert(!contains_id(mid, ids@[t as int]));
                                assert(extract_step(mid, ids@[t as int]) == mid);
                                assert(removed@ + extract_removed(
                                    self.entities@,
                                    ids@.skip(t as int + 1),
                                ) =~= extract_removed(store0, owned_g));
                                assert(notification_views(self.next_notifications@) + quit_views(
                                    self.entities@,
                                    ids@.skip(t as int + 1),
                                ) =~= notification_views(old(self).next()) + quit_views(
                                    store0,
                                    owned_g,
                                ));
                            }
                        },
                    }
                    t = t + 1;
                }
                proof {
                    assert(ids@.skip(ids@.len() as int) =~= Seq::<u64>::empty());
                    assert(extract_store(self.entities@, Seq::<u64>::empty())
                        == self.entities@);
                    assert(extract_removed(self.entities@, Seq::<u64>::empty())
                        =~= Seq::<Entity>::empty());
                    assert(quit_views(self.entities@, Seq::<u64>::empty())
                        =~= Seq::<NotificationView>::empty());
                    assert(removed@ + Seq::<Entity>::empty() =~= removed@);
                    assert(notification_views(self.next_notifications@) + Seq::<
                        NotificationView,
                    >::empty() =~= notification_views(self.next_notifications@));
                }
                out.push(Request::UnregisteredActor { actor, entities: removed });
                proof {
                    let i = choose|i: int|
                        0 <= i < actors_mid.externals().len() && actors_mid.externals()[i]
                            == actor && self.actors.externals() == actors_mid.externals().remove(
                            i,
                        );
                    actors_mid.externals().remove_ensures(i);
                    assert forall|x: int|
                        #![trigger self.ext_actors()[x]]
                        0 <= x < self.ext_actors().len() implies old(self).ext_actors().contains(
                        self.ext_actors()[x],
                    ) by {
                        if x < i {
                            assert(self.ext_actors()[x] == old(self).ext_actors()[x]);
                            assert(old(self).ext_actors().contains(old(self).ext_actors()[x]));
                        } else {
                            assert(self.ext_actors()[x] == old(self).ext_actors()[x + 1]);
                            assert(old(self).ext_actors().contains(
                                old(self).ext_actors()[x + 1],
                            ));
                        }
                    }
                }
            },
            None => {
                proof {
                    lemma_values_subset_refl(store0);
                    if spec_has_ext(old(self).ext_actors(), id) {
                        let w = spec_ext_index(old(self).ext_actors(), id);
                        assert(0 <= w < old(self).ext_actors().len() && old(self).ext_actors()[
                        w].spec_id() == id);
                        assert(false);
                    }
                    assert forall|x: int|
                        #![trigger self.ext_actors()[x]]
                        0 <= x < self.ext_actors().len() implies old(self).ext_actors().contains(
                        self.ext_actors()[x],
                    ) by {
                        assert(self.ext_actors()[x] == old(self).ext_actors()[x]);
                        assert(old(self).ext_actors().contains(old(self).ext_actors()[x]));
                    }
                }
            },
        }
    }

    /// Drains every client actor, paired with exactly the store entities it
    /// owned, into one shutting-down report sent upstream, and marks the
    /// instance as stopping: no entity state is lost or reported twice.
    pub fn shutdown(&mut self, out: &mut Vec<Request>)
        requires
            old(self).wf(),
        ensures
            final(self).wf(),
            final(self).frame_timing(*old(self)),
            final(self).shutting_down(),
            final(self).ext_actors() == Seq::<NetworkActor>::empty(),
            final(self).int_actors() == old(self).int_actors(),
            final(self).prev() == old(self).prev(),
            final(self).next() == old(self).next(),
            final(self).entities() == drain_store(old(self).entities(), old(self).ext_actors()),
            final(out)@.len() == old(out)@.len() + 1,
            forall|t: int| 0 <= t < old(out)@.len() ==> final(out)@[t] == old(out)@[t],
            (final(out)@.last() matches Request::InstanceShuttingDown(st) && st.id == old(
                self).spec_id() && st.was_saved == false && st.external_actors@.len() == old(
                self).ext_actors().len() && forall|k: int|
                0 <= k < old(self).ext_actors().len() ==> (#[trigger] st.external_actors@[k]).0
                    == old(self).ext_actors()[k] && st.external_actors@[k].1@ == drain_removed(
                    old(self).entities(),
                    old(self).ext_actors(),
                )[k]),
    {
        let ghost ext0 = self.actors.externals();
        let ghost store0 = self.entities@;
        let mut state = ShuttingDownState::new(self.id);
        let mut drained = self.actors.drain_external();
        let ghost actors1 = self.actors;
        let ghost mut p: int = 0int;
        proof {
            assert(ext0.skip(0) =~= ext0);
        }
        while drained.len() > 0
            invariant
                self.frame_timing(*old(self)),
                self.shutting_down() == old(self).shutting_down(),
                self.actors == actors1,
                self.actors.wf(),
                self.ext_actors() == Seq::<NetworkActor>::empty(),
                self.prev() == old(self).prev(),
                self.next() == old(self).next(),
                self.entities.wf(),
                0 <= p <= ext0.len(),
                drained@ == ext0.skip(p),
                self.entities@ == drain_store_prefix(store0, ext0, p),
                state.id == old(self).spec_id(),
                state.was_saved == false,
                state.external_actors@.len() == p,
                forall|k: int|
                    0 <= k < p ==> (#[trigger] state.external_actors@[k]).0 == ext0[k]
                        && state.external_actors@[k].1@ == drain_removed(store0, ext0)[k],
            decreases drained.len(),
        {
            let ghost drained_pre = drained@;
            let ghost st_pre = self.entities@;
            let actor = drained.remove(0);
            let ghost actor_g = actor;
            proof {
                assert(drained@ =~= drained_pre.drop_first());
                assert(drained_pre[0] == actor_g);
                assert(actor_g == ext0[p]);
                assert(ext0.skip(p).drop_first() =~= ext0.skip(p + 1));
            }
            let owned = actor.entities_iter();
            let ghost owned_g = actor_g.owned();
            let mut ids: Vec<u64> = Vec::new();
            let mut k: usize = 0;
            while k < owned.len()
                invariant
                    owned@ == owned_g,
                    k <= owned.len(),
                    ids@ == owned_g.take(k as int),
                decreases owned.len() - k,
            {
                ids.push(owned[k]);
                proof {
                    assert(ids@ =~= owned_g.take(k as int + 1));
                }
                k = k + 1;
            }
            proof {
                assert(owned_g.take(owned_g.len() as int) =~= owned_g);
                assert(ids@.skip(0) =~= ids@);
            }
            let mut collected: Vec<Entity> = Vec::new();
            let mut t: usize = 0;
            while t < ids.len()
                invariant
                    self.frame_timing(*old(self)),
                    self.shutting_down() == old(self).shutting_down(),
                    self.actors == actors1,
                    self.actors.wf(),
                    self.ext_actors() == Seq::<NetworkActor>::empty(),
                    self.prev() == old(self).prev(),
                    self.next() == old(self).next(),
                    self.entities.wf(),
                    t <= ids.len(),
                    ids@ == owned_g,
                    extract_store(self.entities@, ids@.skip(t as int)) == extract_store(
                        st_pre,
                        owned_g,
                    ),
                    collected@ + extract_removed(self.entities@, ids@.skip(t as int))
                        == extract_removed(st_pre, owned_g),
                decreases ids.len() - t,
            {
                let ghost mid = self.entities@;
                let ghost collected_pre = collected@;
                proof {
                    assert(ids@.skip(t as int)[0] == ids@[t as int]);
                    assert(ids@.skip(t as int).drop_first() =~= ids@.skip(t as int + 1));
                }
                match self.entities.remove(ids[t]) {
                    Some(entity) => {
                        let ghost e_g = entity;
                        collected.push(entity);
                        proof {
                            let j = choose|j: int|
                                0 <= j < mid.len() && mid[j].id == ids@[t as int] && self.entities@
                                    == mid.remove(j);
                            assert(contains_id(mid, ids@[t as int]));
                            assert(spec_index_of(mid, ids@[t as int]) == j) by {
                                let w = spec_index_of(mid, ids@[t as int]);
                                assert(0 <= w < mid.len() && mid[w].id == ids@[t as int]);
                            }
                            assert(extract_step(mid, ids@[t as int]) == self.entities@);
                            assert(e_g == mid[spec_index_of(mid, ids@[t as int])]);
                            assert(collected@ =~= collected_pre.push(e_g));
                            assert(collected@ + extract_removed(
                                self.entities@,
                                ids@.skip(t as int + 1),
                            ) =~= extract_removed(st_pre, owned_g));
                        }
                    },
                    None => {
                        proof {
                            assert(!contains_id(mid, ids@[t as int]));
                            assert(extract_step(mid, ids@[t as int]) == mid);
                            assert(collected@ + extract_removed(
                                self.entities@,
                                ids@.skip(t as int + 1),
                            ) =~= extract_removed(st_pre, owned_g));
                        }
                    },
                }
                t = t + 1;
            }
            proof {
                assert(ids@.skip(ids@.len() as int) =~= Seq::<u64>::empty());
                assert(extract_store(self.entities@, Seq::<u64>::empty()) == self.entities@);
                assert(extract_removed(self.entities@, Seq::<u64>::empty())
                    =~= Seq::<Entity>::empty());
                assert(collected@ + Seq::<Entity>::empty() =~= collected@);
                assert(self.entities@ == extract_store(st_pre, owned_g));
                assert(collected@ == extract_removed(st_pre, owned_g));
                lemma_drain_removed_index(store0, ext0, p);
                assert(st_pre == drain_store_prefix(store0, ext0, p));
                assert(self.entities@ == drain_store_prefix(store0, ext0, p + 1));
                assert(collected@ == drain_removed(store0, ext0)[p]);
            }
            state.push(actor, collected);
            proof {
                p = p + 1;
            }
        }
        proof {
            assert(p == ext0.len());
            lemma_drain_store_prefix_full(store0, ext0);
        }
        out.push(Request::InstanceShuttingDown(state));
        self.shutting_down = true;
    }

    /// Attaches an entity to a registered actor, client or AI: the actor
    /// gains the entity, the entity (back-reference set) joins the store,
    /// and it is announced.  With no such actor the entity is dropped; the
    /// intended improvement, handing it back to the coordinator, is an
    /// open design point.
    pub fn assign_entity_to_actor(&mut self, id: u64, entity: Entity)
        requires
            old(self).wf(),
        ensures
            final(self).wf(),
            final(self).frame_timing(*old(self)),
            final(self).shutting_down() == old(self).shutting_down(),
            final(self).prev() == old(self).prev(),
            !(spec_has_ext(old(self).ext_actors(), id) || spec_has_int(
                old(self).int_actors(),
                id,
            )) ==> final(self).entities() == old(self).entities() && final(self).next() == old(
                self).next() && final(self).ext_actors() == old(self).ext_actors() && final(
                self).int_actors() == old(self).int_actors(),
            final(self).ext_actors().len() == old(self).ext_actors().len(),
            (spec_has_ext(old(self).ext_actors(), id) || spec_has_int(
                old(self).int_actors(),
                id,
            )) ==> {
                let attached = Entity { actor: Some(id), ..entity };
                &&& final(self).entities() == admit_step(old(self).entities(), attached)
                &&& (spec_admitted(old(self).entities(), attached) ==> notification_views(
                    final(self).next(),
                ) == notification_views(old(self).next()).push(entity_announce(attached)))
                &&& (!spec_admitted(old(self).entities(), attached) ==> final(self).next() == old(
                    self).next())
            },
            !spec_has_ext(old(self).ext_actors(), id) ==> final(self).ext_actors() == old(
                self).ext_actors(),
            spec_has_ext(old(self).ext_actors(), id) ==> {
                let j = spec_ext_index(old(self).ext_actors(), id);
                let pre = old(self).ext_actors()[j];
                let post = final(self).ext_actors()[j];
                &&& final(self).int_actors() == old(self).int_actors()
                &&& final(self).ext_actors().len() == old(self).ext_actors().len()
                &&& forall|k: int|
                    0 <= k < old(self).ext_actors().len() && k != j ==> final(self).ext_actors()[
                    k] == old(self).ext_actors()[k]
                &&& post.spec_id() == pre.spec_id()
                &&& post.owned().contains(entity.id)
                &&& post.orders() == pre.orders()
                &&& post.commands() == pre.commands()
                &&& post.outbox() == pre.outbox()
            },
    {
        let mut entity = entity;
        let ghost entity0 = entity;
        let entity_id = entity.get_id();
        let position = entity.get_position();
        let skin = entity.get_skin();
        let pv = entity.get_pv();
        let ns = entity.get_nominal_speed();
        let ghost store_pre = self.entities@;
        let ghost next_pre = self.next_notifications@;
        if self.actors.assign_entity_to_actor(id, entity_id) {
            entity.set_actor(Some(id));
            proof {
                assert(entity == (Entity { actor: Some(id), ..entity0 }));
            }
            match self.entities.push(entity) {
                Some(_rejected) => {
                    proof {
                        assert(!spec_admitted(store_pre, Entity { actor: Some(id), ..entity0 }));
                        assert(admit_step(store_pre, Entity { actor: Some(id), ..entity0 })
                            == store_pre);
                    }
                },
                None => {
                    proof {
                        assert(spec_admitted(store_pre, Entity { actor: Some(id), ..entity0 }));
                        assert(self.entities@ == admit_step(
                            store_pre,
                            Entity { actor: Some(id), ..entity0 },
                        ));
                    }
                    let notification = Notification::new_entity(entity_id, position, skin, pv, ns);
                    self.next_notifications.push(notification);
                    proof {
                        lemma_views_push(next_pre, self.next_notifications@.last());
                        assert(self.next_notifications@.last()@ == entity_announce(
                            Entity { actor: Some(id), ..entity0 },
                        ));
                        assert(notification_views(self.next_notifications@)
                            =~= notification_views(next_pre) + seq![
                            entity_announce(Entity { actor: Some(id), ..entity0 }),
                        ]);
                    }
                },
            }
        }
    }

    /// Whether a command may be applied: the actor a new client brings must
    /// be sound.  `NetworkActor::is_wf` decides this at run time.
    pub open spec fn command_wf(command: Command) -> bool {
        match command {
            Command::NewClient(actor, _) => actor.wf(),
            _ => true,
        }
    }

    /// Applies one command, reporting upstream through `out`; yields true
    /// iff the instance finished shutting down while serving it.  Each
    /// command has the effect its handler promises: a new client is
    /// registered and announced, an unregistration extracts the actor and
    /// its entities, a shutdown drains everything into one report, an
    /// assignment attaches the entity to its actor.
    pub fn apply(&mut self, command: Command, out: &mut Vec<Request>) -> (done: bool)
        requires
            old(self).wf(),
            Instance::command_wf(command),
        ensures
            final(self).wf(),
            final(self).frame_timing(*old(self)),
            done == final(self).shutting_down(),
            !(command is Shutdown) ==> final(self).shutting_down() == old(self).shutting_down(),
            command matches Command::NewClient(actor, es) ==> final(self).entities()
                == admit_store(old(self).entities(), es@) && notification_views(
                final(self).next(),
            ) == notification_views(old(self).next()) + admit_views(old(self).entities(), es@)
                && final(out)@ == old(out)@ && (exists|i: int|
                #![trigger final(self).ext_actors()[i]]
                0 <= i < final(self).ext_actors().len() && final(self).ext_actors()[i].spec_id()
                    == actor.spec_id()),
            command matches Command::UnregisterActor(id) ==> (spec_has_ext(
                old(self).ext_actors(),
                id,
            ) ==> final(self).ext_actors() == old(self).ext_actors().remove(
                spec_ext_index(old(self).ext_actors(), id),
            ) && final(self).entities() == extract_store(
                old(self).entities(),
                old(self).ext_actors()[spec_ext_index(old(self).ext_actors(), id)].owned(),
            ) && notification_views(final(self).next()) == notification_views(old(self).next())
                + quit_views(
                old(self).entities(),
                old(self).ext_actors()[spec_ext_index(old(self).ext_actors(), id)].owned(),
            ) && final(out)@.len() == old(out)@.len() + 1 && (final(out)@.last()
                matches Request::UnregisteredActor { actor: a, entities: es } && a == old(
                self).ext_actors()[spec_ext_index(old(self).ext_actors(), id)] && es@
                == extract_removed(
                old(self).entities(),
                old(self).ext_actors()[spec_ext_index(old(self).ext_actors(), id)].owned(),
            ))),
            command matches Command::UnregisterActor(id) ==> (!spec_has_ext(
                old(self).ext_actors(),
                id,
            ) ==> final(self).ext_actors() == old(self).ext_actors() && final(self).entities()
                == old(self).entities() && final(self).next() == old(self).next() && final(out)@
                == old(out)@),
            (command is Shutdown) ==> final(self).shutting_down() && final(self).ext_actors()
                == Seq::<NetworkActor>::empty() && final(self).entities() == drain_store(
                old(self).entities(),
                old(self).ext_actors(),
            ) && final(out)@.len() == old(out)@.len() + 1 && (final(out)@.last()
                matches Request::InstanceShuttingDown(st) && st.id == old(self).spec_id()
                && st.external_actors@.len() == old(self).ext_actors().len() && forall|k: int|
                0 <= k < old(self).ext_actors().len() ==> (#[trigger] st.external_actors@[k]).0
                    == old(self).ext_actors()[k] && st.external_actors@[k].1@ == drain_removed(
                    old(self).entities(),
                    old(self).ext_actors(),
                )[k]),
            command matches Command::AssignEntity(id, entity) ==> ((spec_has_ext(
                old(self).ext_actors(),
                id,
            ) || spec_has_int(old(self).int_actors(), id)) ==> final(self).entities()
                == admit_step(old(self).entities(), Entity { actor: Some(id), ..entity })
                && (spec_admitted(old(self).entities(), Entity { actor: Some(id), ..entity })
                ==> notification_views(final(self).next()) == notification_views(
                old(self).next(),
            ).push(entity_announce(Entity { actor: Some(id), ..entity }))) && (!spec_admitted(
                old(self).entities(),
                Entity { actor: Some(id), ..entity },
            ) ==> final(self).next() == old(self).next()) && final(out)@ == old(out)@),
            command matches Command::AssignEntity(id, entity) ==> (!(spec_has_ext(
                old(self).ext_actors(),
                id,
            ) || spec_has_int(old(self).int_actors(), id)) ==> final(self).entities() == old(
                self).entities() && final(self).next() == old(self).next() && final(out)@ == old(
                out)@),
    {
        match command {
            Command::NewClient(actor, entities) => {
                self.register_client(actor, entities);
            },
            Command::Shutdown => {
                self.shutdown(out);
            },
            Command::UnregisterActor(id) => {
                self.unregister_client(id, out);
            },
            Command::AssignEntity(id, entity) => {
                self.assign_entity_to_actor(id, entity);
            },
        }
        self.shutting_down
    }
}

/// One client actor of the olds carries the same id as `post`, and
/// `post`'s outbox is that actor's outbox with `batch` appended.
pub open spec fn tick_outbox(olds: Seq<NetworkActor>, post: NetworkActor, batch: Seq<
    NotificationView,
>) -> bool {
    exists|b: int|
        #![trigger olds[b]]
        0 <= b < olds.len() && olds[b].spec_id() == post.spec_id() && notification_views(
            post.outbox(),
        ) == notification_views(olds[b].outbox()) + batch
}

/// A Death notification for this id stands in the buffer with the matching
/// EntityHasQuit notification right after it.
pub open spec fn death_notified(notifs: Seq<Notification>, id: u64) -> bool {
    exists|p: int|
        #![trigger notifs[p]]
        0 <= p < notifs.len() - 1 && notifs[p]@ == (NotificationView::Death { entity: id })
            && notifs[p + 1]@ == (NotificationView::EntityHasQuit { entity: id })
}

/// What a whole actor table emits when orders are executed, clients in
/// registration order; AI actors emit no notifications.
pub open spec fn emitted_all_views(ext: Seq<NetworkActor>, store: Seq<Entity>) -> Seq<
    NotificationView,
>
    decreases ext.len(),
{
    if ext.len() == 0 {
        Seq::<NotificationView>::empty()
    } else {
        emitted_views(ext[0].orders(), ext[0].owned(), store) + emitted_all_views(
            ext.drop_first(),
            store,
        )
    }
}

/// Unfolding the table's emission one client at a time.
pub proof fn lemma_emitted_all_views_step(ext: Seq<NetworkActor>, store: Seq<Entity>, a: int)
    requires
        0 <= a < ext.len(),
    ensures
        emitted_all_views(ext.skip(a), store) == emitted_views(
            ext[a].orders(),
            ext[a].owned(),
            store,
        ) + emitted_all_views(ext.skip(a + 1), store),
{
    assert(ext.skip(a)[0] == ext[a]);
    assert(ext.skip(a).drop_first() =~= ext.skip(a + 1));
}

/// Whether a client actor with this id stands in the table.
pub open spec fn spec_has_ext(s: Seq<NetworkActor>, id: u64) -> bool {
    exists|i: int| #![trigger s[i]] 0 <= i < s.len() && s[i].spec_id() == id
}

/// The position of the client actor with this id; meaningful when it
/// exists and ids are unique.
pub open spec fn spec_ext_index(s: Seq<NetworkActor>, id: u64) -> int {
    choose|i: int| 0 <= i < s.len() && s[i].spec_id() == id
}

/// Whether an AI actor with this id stands in the table.
pub open spec fn spec_has_int(s: Seq<AiActor>, id: u64) -> bool {
    exists|i: int| #![trigger s[i]] 0 <= i < s.len() && s[i].spec_id() == id
}

/// The position of the AI actor with this id.
pub open spec fn spec_int_index(s: Seq<AiActor>, id: u64) -> int {
    choose|i: int| 0 <= i < s.len() && s[i].spec_id() == id
}

/// The announcement of one entity to clients.
pub open spec fn entity_announce(e: Entity) -> NotificationView {
    NotificationView::NewEntity {
        entity: e.id,
        position: e.position,
        skin: e.skin,
        pv: e.pv,
        nominal_speed: e.spec_nominal_speed(),
    }
}

/// The announcements of a whole store, in order.
pub open spec fn announce_views(s: Seq<Entity>) -> Seq<NotificationView> {
    Seq::new(s.len(), |i: int| entity_announce(s[i]))
}

/// Whether an arriving entity is admitted: sound, and its id fresh.
pub open spec fn spec_admitted(store: Seq<Entity>, e: Entity) -> bool {
    e.wf() && !contains_id(store, e.id)
}

/// The store after one entity arrives: appended iff admitted.
pub open spec fn admit_step(store: Seq<Entity>, e: Entity) -> Seq<Entity> {
    if spec_admitted(store, e) {
        store.push(e)
    } else {
        store
    }
}

/// The store after a batch of entities arrives, first first.
pub open spec fn admit_store(store: Seq<Entity>, incoming: Seq<Entity>) -> Seq<Entity>
    decreases incoming.len(),
{
    if incoming.len() == 0 {
        store
    } else {
        admit_store(admit_step(store, incoming[0]), incoming.drop_first())
    }
}

/// The announcements a batch of arrivals queues: one per admitted entity.
pub open spec fn admit_views(store: Seq<Entity>, incoming: Seq<Entity>) -> Seq<NotificationView>
    decreases incoming.len(),
{
    if incoming.len() == 0 {
        Seq::<NotificationView>::empty()
    } else {
        (if spec_admitted(store, incoming[0]) {
            seq![entity_announce(incoming[0])]
        } else {
            Seq::<NotificationView>::empty()
        }) + admit_views(admit_step(store, incoming[0]), incoming.drop_first())
    }
}

/// The store after the entity with one id is pulled out, if present.
pub open spec fn extract_step(store: Seq<Entity>, id: u64) -> Seq<Entity> {
    if contains_id(store, id) {
        store.remove(spec_index_of(store, id))
    } else {
        store
    }
}

/// The store after a list of owned ids is pulled out, first first.
pub open spec fn extract_store(store: Seq<Entity>, ids: Seq<u64>) -> Seq<Entity>
    decreases ids.len(),
{
    if ids.len() == 0 {
        store
    } else {
        extract_store(extract_step(store, ids[0]), ids.drop_first())
    }
}

/// The entities a list of owned ids pulls out, in order.
pub open spec fn extract_removed(store: Seq<Entity>, ids: Seq<u64>) -> Seq<Entity>
    decreases ids.len(),
{
    if ids.len() == 0 {
        Seq::<Entity>::empty()
    } else {
        (if contains_id(store, ids[0]) {
            seq![store[spec_index_of(store, ids[0])]]
        } else {
            Seq::<Entity>::empty()
        }) + extract_removed(extract_step(store, ids[0]), ids.drop_first())
    }
}

/// The departure notifications the extraction queues, one per entity found.
pub open spec fn quit_views(store: Seq<Entity>, ids: Seq<u64>) -> Seq<NotificationView>
    decreases ids.len(),
{
    if ids.len() == 0 {
        Seq::<NotificationView>::empty()
    } else {
        (if contains_id(store, ids[0]) {
            seq![NotificationView::EntityHasQuit { entity: ids[0] }]
        } else {
            Seq::<NotificationView>::empty()
        }) + quit_views(extract_step(store, ids[0]), ids.drop_first())
    }
}

/// The store after every actor of the table drains its owned entities.
pub open spec fn drain_store(store: Seq<Entity>, actors: Seq<NetworkActor>) -> Seq<Entity>
    decreases actors.len(),
{
    if actors.len() == 0 {
        store
    } else {
        drain_store(extract_store(store, actors[0].owned()), actors.drop_first())
    }
}

/// What each actor of the table drains, in table order.
pub open spec fn drain_removed(store: Seq<Entity>, actors: Seq<NetworkActor>) -> Seq<Seq<Entity>>
    decreases actors.len(),
{
    if actors.len() == 0 {
        Seq::<Seq<Entity>>::empty()
    } else {
        seq![extract_removed(store, actors[0].owned())] + drain_removed(
            extract_store(store, actors[0].owned()),
            actors.drop_first(),
        )
    }
}

/// One drained-pair list per actor.
pub proof fn lemma_drain_removed_len(store: Seq<Entity>, actors: Seq<NetworkActor>)
    ensures
        drain_removed(store, actors).len() == actors.len(),
    decreases actors.len(),
{
    if actors.len() > 0 {
        lemma_drain_removed_len(extract_store(store, actors[0].owned()), actors.drop_first());
    }
}

/// The k-th drained pair is what the k-th actor extracts from the store
/// the earlier actors left behind.
pub proof fn lemma_drain_removed_index(store: Seq<Entity>, actors: Seq<NetworkActor>, k: int)
    requires
        0 <= k < actors.len(),
    ensures
        drain_removed(store, actors).len() == actors.len(),
        drain_removed(store, actors)[k] == extract_removed(
            drain_store_prefix(store, actors, k),
            actors[k].owned(),
        ),
        drain_store_prefix(store, actors, k + 1) == extract_store(
            drain_store_prefix(store, actors, k),
            actors[k].owned(),
        ),
    decreases k,
{
    lemma_drain_removed_len(store, actors);
    if k == 0 {
        assert(drain_store_prefix(store, actors, 0) == store);
        assert(drain_removed(store, actors)[0] == extract_removed(store, actors[0].owned()));
        assert(drain_store_prefix(store, actors, 1) == drain_store_prefix(
            extract_store(store, actors[0].owned()),
            actors.drop_first(),
            0,
        ));
    } else {
        lemma_drain_removed_index(
            extract_store(store, actors[0].owned()),
            actors.drop_first(),
            k - 1,
        );
        assert(actors.drop_first()[k - 1] == actors[k]);
        assert(drain_removed(store, actors)[k] == drain_removed(
            extract_store(store, actors[0].owned()),
            actors.drop_first(),
        )[k - 1]);
        assert(drain_store_prefix(store, actors, k) == drain_store_prefix(
            extract_store(store, actors[0].owned()),
            actors.drop_first(),
            k - 1,
        ));
        assert(drain_store_prefix(store, actors, k + 1) == drain_store_prefix(
            extract_store(store, actors[0].owned()),
            actors.drop_first(),
            k,
        ));
    }
}

/// Draining the whole table is draining every prefix.
pub proof fn lemma_drain_store_prefix_full(store: Seq<Entity>, actors: Seq<NetworkActor>)
    ensures
        drain_store_prefix(store, actors, actors.len() as int) == drain_store(store, actors),
    decreases actors.len(),
{
    if actors.len() > 0 {
        lemma_drain_store_prefix_full(
            extract_store(store, actors[0].owned()),
            actors.drop_first(),
        );
    }
}

/// The store after the first `k` actors of the table drained.
pub open spec fn drain_store_prefix(store: Seq<Entity>, actors: Seq<NetworkActor>, k: int) -> Seq<
    Entity,
>
    decreases k,
{
    if k <= 0 {
        store
    } else {
        drain_store_prefix(
            extract_store(store, actors[0].owned()),
            actors.drop_first(),
            k - 1,
        )
    }
}

/// Actor-value membership, like `values_subset` for entities.
pub open spec fn actors_subset(sub: Seq<NetworkActor>, sup: Seq<NetworkActor>) -> bool {
    forall|i: int| #![trigger sub[i]] 0 <= i < sub.len() ==> sup.contains(sub[i])
}

impl Instance {
    /// Advances the simulation by exactly one tick, in the fixed order:
    /// order execution, movement, attacks, death collection, the actors'
    /// own unregistrations, the GameUpdate broadcast, and the rotation of
    /// the notification buffers.  Returns the entities that died.
    #[verifier::rlimit(100)]
    pub fn calculate_tick<R: CombatRules>(&mut self, rules: &mut R, out: &mut Vec<Request>) -> (
        events: Vec<TickEvent>)
        requires
            old(self).wf(),
            old(self).tick() < u64::MAX,
        ensures
            final(self).wf(),
            final(self).frame_timing_ticked(*old(self)),
            final(self).shutting_down() == old(self).shutting_down(),
            final(self).tick() == old(self).tick() + 1,
            final(self).next() == Seq::<Notification>::empty(),
            final(self).prev().len() >= 1,
            (final(self).prev().last()@ matches NotificationView::GameUpdate {
                tick_id,
                entities,
            } && tick_id == old(self).tick() && entities.len() == final(self).entities().len()
                && (forall|i: int|
                0 <= i < entities.len() ==> entities[i] == final(self).entities()[
                i].spec_entity_update())),
            forall|i: int|
                0 <= i < final(self).entities().len() ==> (#[trigger] final(self).entities()[
                i]).pv != 0,
            forall|k: int|
                0 <= k < events@.len() ==> {
                    let e = (#[trigger] events@[k])->EntityDeath_0;
                    e.pv == 0 && death_notified(final(self).prev(), e.id)
                },
            forall|a: int|
                #![trigger final(self).ext_actors()[a]]
                0 <= a < final(self).ext_actors().len() ==> tick_outbox(
                    old(self).ext_actors(),
                    final(self).ext_actors()[a],
                    notification_views(final(self).prev()),
                ),
            forall|b: int|
                0 <= b < old(self).ext_actors().len() ==> walk_notified(
                    (#[trigger] old(self).ext_actors()[b]).orders(),
                    old(self).ext_actors()[b].owned(),
                    old(self).entities(),
                    0,
                    final(self).prev(),
                ),
    {
        let ghost store0 = self.entities@;
        let ghost ext0 = self.actors.externals();
        let ghost next0 = self.next_notifications@;
        let dt = self.tick_period_us;
        let area = self.area;

        self.actors.execute_orders(
            &mut self.entities,
            &mut self.next_notifications,
            &self.prev_notifications,
        );
        let ghost ext1 = self.actors.externals();
        let ghost next1 = self.next_notifications@;

        resolve_movements(&mut self.entities, dt, area);
        resolve_attacks(&mut self.entities, &mut self.next_notifications, rules, dt);
        let ghost next2 = self.next_notifications@;
        let dead = collect_deaths(&mut self.entities, &mut self.next_notifications);
        let ghost next3 = self.next_notifications@;
        let ghost store3 = self.entities@;
        proof {
            assert(forall|t: int| 0 <= t < next1.len() ==> next3[t] == next1[t]);
            assert(forall|i: int|
                0 <= i < store3.len() ==> (#[trigger] store3[i]).pv != 0);
        }

        let commands_buffer = self.actors.get_commands();
        let ghost ext2 = self.actors.externals();
        let mut commands = commands_buffer;
        let ghost deadv = dead@;
        let ghost out0 = out@;
        while commands.len() > 0
            invariant
                self.wf(),
                self.frame_timing_ticked_partial(*old(self)),
                self.shutting_down() == old(self).shutting_down(),
                self.prev() == old(self).prev(),
                forall|k: int|
                    0 <= k < commands@.len() ==> (#[trigger] commands@[k])
                        matches Command::UnregisterActor(_),
                values_subset(self.entities(), store3),
                forall|i: int|
                    0 <= i < store3.len() ==> (#[trigger] store3[i]).pv != 0,
                self.next().len() >= next3.len(),
                forall|t: int| 0 <= t < next3.len() ==> self.next()[t] == next3[t],
                actors_subset(self.ext_actors(), ext2),
            decreases commands.len(),
        {
            proof {
                lemma_values_subset_refl(self.entities());
            }
            let ghost entities_mid = self.entities();
            let ghost ext_mid = self.ext_actors();
            let ghost next_mid = self.next();
            let command = commands.remove(0);
            match command {
                Command::UnregisterActor(id) => {
                    self.unregister_client(id, out);
                    proof {
                        lemma_values_subset_trans(self.entities(), entities_mid, store3);
                        assert forall|i: int|
                            #![trigger self.ext_actors()[i]]
                            0 <= i < self.ext_actors().len() implies ext2.contains(
                            self.ext_actors()[i],
                        ) by {
                            assert(ext_mid.contains(self.ext_actors()[i]));
                            let j = choose|j: int|
                                0 <= j < ext_mid.len() && ext_mid[j] == self.ext_actors()[i];
                            assert(ext2.contains(ext_mid[j]));
                        }
                    }
                },
                _ => {
                    proof {
                        assert(false);
                    }
                },
            }
        }
        proof {
            assert forall|i: int|
                0 <= i < self.entities().len() implies (#[trigger] self.entities()[i]).pv
                != 0 by {
                assert(store3.contains(self.entities()[i]));
                let j = choose|j: int| 0 <= j < store3.len() && store3[j] == self.entities()[i];
                assert(store3[j].pv != 0);
            }
        }

        let mut updates: Vec<EntityUpdate> = Vec::new();
        let ghost frozen = *self;
        let n = self.entities.len();
        let mut i: usize = 0;
        while i < n
            invariant
                *self == frozen,
                n == self.entities().len(),
                i <= n,
                updates@.len() == i,
                forall|t: int|
                    0 <= t < i ==> updates@[t] == (#[trigger] self.entities()[
                    t]).spec_entity_update(),
            decreases n - i,
        {
            updates.push(self.entities.at(i).to_entity_update());
            i = i + 1;
        }
        let game_update = Notification::GameUpdate { tick_id: self.tick_id, entities: updates };
        let ghost game_update_g = game_update;
        self.next_notifications.push(game_update);
        let ghost next4 = self.next_notifications@;
        let ghost ext3 = self.actors.externals();
        let ghost next_loopend = next4.take(next4.len() - 1);
        proof {
            assert(next_loopend =~= next4.take(next4.len() - 1));
            assert(forall|t: int| 0 <= t < next3.len() ==> next4[t] == next3[t]);
            assert(forall|t: int| 0 <= t < next1.len() ==> next4[t] == next1[t]);
        }

        self.actors.broadcast_notifications(&self.next_notifications);

        self.prev_notifications.clear();
        core::mem::swap(&mut self.prev_notifications, &mut self.next_notifications);
        self.tick_id = self.tick_id + 1;

        proof {
            assert(self.prev() == next4);
            assert(self.prev().last() == game_update_g);
            assert forall|a: int|
                #![trigger self.ext_actors()[a]]
                0 <= a < self.ext_actors().len() implies tick_outbox(
                ext0,
                self.ext_actors()[a],
                notification_views(self.prev()),
            ) by {
                let post = self.ext_actors()[a];
                let v = ext3[a];
                assert(notification_views(post.outbox()) == notification_views(v.outbox())
                    + notification_views(next4));
                assert(post.spec_id() == v.spec_id());
                assert(ext2.contains(v));
                let j = choose|j: int| 0 <= j < ext2.len() && ext2[j] == v;
                assert(ext2[j].outbox() == ext1[j].outbox());
                assert(ext1[j].outbox() == ext0[j].outbox());
                assert(ext2[j].spec_id() == ext0[j].spec_id());
                assert(0 <= j < ext0.len() && ext0[j].spec_id() == post.spec_id()
                    && notification_views(post.outbox()) == notification_views(ext0[j].outbox())
                    + notification_views(self.prev()));
            }
            assert forall|b: int| 0 <= b < ext0.len() implies walk_notified(
                (#[trigger] ext0[b]).orders(),
                ext0[b].owned(),
                store0,
                0,
                self.prev(),
            ) by {
                assert(walk_notified(ext0[b].orders(), ext0[b].owned(), store0, next0.len() as int, next1));
                assert forall|k: int|
                    0 <= k < ext0[b].orders().len() implies crate::actor::walk_order_notified(
                    #[trigger] ext0[b].orders()[k],
                    ext0[b].owned(),
                    store0,
                    0,
                    self.prev(),
                ) by {
                    lemma_walk_order_notified_extend(
                        ext0[b].orders()[k],
                        ext0[b].owned(),
                        store0,
                        next0.len() as int,
                        next1,
                        self.prev(),
                    );
                    lemma_walk_order_notified_weaken(
                        ext0[b].orders()[k],
                        ext0[b].owned(),
                        store0,
                        store0,
                        0,
                        next0.len() as int,
                        self.prev(),
                    );
                }
            }
            assert forall|k: int| 0 <= k < deadv.len() implies (#[trigger] deadv[k]).pv == 0
                && death_notified(self.prev(), deadv[k].id) by {
                let p = next2.len() + 2 * k;
                assert(next3[p]@ == (NotificationView::Death { entity: deadv[k].id }));
                assert(next3[p + 1]@ == (NotificationView::EntityHasQuit {
                    entity: deadv[k].id,
                }));
                assert(self.prev()[p] == next3[p]);
                assert(self.prev()[p + 1] == next3[p + 1]);
            }
        }
        let mut events: Vec<TickEvent> = Vec::new();
        let mut dead = dead;
        while dead.len() > 0
            invariant
                events@.len() + dead@.len() == deadv.len(),
                forall|k: int|
                    0 <= k < events@.len() ==> (#[trigger] events@[k]) == TickEvent::EntityDeath(
                        deadv[k],
                    ),
                forall|k: int|
                    0 <= k < dead@.len() ==> dead@[k] == deadv[events@.len() + k],
            decreases dead@.len(),
        {
            let entity = dead.remove(0);
            events.push(TickEvent::EntityDeath(entity));
        }
        events
    }

    /// What a tick leaves untouched besides the tick counter.
    pub open spec fn frame_timing_ticked(self, pre: Instance) -> bool {
        &&& self.spec_id() == pre.spec_id()
        &&& self.spec_map() == pre.spec_map()
        &&& self.spec_period() == pre.spec_period()
        &&& self.spec_area() == pre.spec_area()
        &&& self.lag() == pre.lag()
        &&& self.last_tick() == pre.last_tick()
        &&& self.spec_created() == pre.spec_created()
    }

    /// As `frame_timing_ticked`, with the tick counter also untouched; the
    /// state while a tick is still in progress.
    pub open spec fn frame_timing_ticked_partial(self, pre: Instance) -> bool {
        self.frame_timing_ticked(pre) && self.tick() == pre.tick()
    }

    /// Handles one tick signal at the given wall-clock time: the elapsed
    /// real time joins the lag, and one full tick runs for every whole tick
    /// period the lag covers, keeping simulation time strictly quantised.
    /// Returns how many ticks ran: the floor of the accumulated time over
    /// the period, the remainder staying as lag.
    pub fn tick_signal<R: CombatRules>(&mut self, now_us: u64, rules: &mut R, out: &mut Vec<
        Request,
    >) -> (ticks: u64)
        requires
            old(self).wf(),
            now_us >= old(self).last_tick(),
            old(self).lag() + (now_us - old(self).last_tick()) <= u64::MAX,
            old(self).tick() + (old(self).lag() + (now_us - old(self).last_tick())) as int
                / old(self).spec_period() as int <= u64::MAX,
        ensures
            final(self).wf(),
            ticks == (old(self).lag() + (now_us - old(self).last_tick())) as int / old(self).spec_period() as int,
            final(self).lag() == (old(self).lag() + (now_us - old(self).last_tick())) as int % old(self).spec_period() as int,
            final(self).last_tick() == now_us,
            final(self).tick() == old(self).tick() + ticks,
            final(self).spec_period() == old(self).spec_period(),
            final(self).spec_id() == old(self).spec_id(),
            final(self).spec_map() == old(self).spec_map(),
            final(self).shutting_down() == old(self).shutting_down(),
    {
        let elapsed: u64 = now_us - self.last_tick_us;
        let ghost total = self.lag_us + elapsed;
        self.lag_us = self.lag_us + elapsed;
        let mut ticks: u64 = 0;
        while self.lag_us >= self.tick_period_us as u64
            invariant
                self.wf(),
                self.spec_id() == old(self).spec_id(),
                self.spec_map() == old(self).spec_map(),
                self.spec_period() == old(self).spec_period(),
                self.spec_area() == old(self).spec_area(),
                self.last_tick() == old(self).last_tick(),
                self.spec_created() == old(self).spec_created(),
                self.shutting_down() == old(self).shutting_down(),
                self.tick() == old(self).tick() + ticks,
                total <= u64::MAX,
                self.lag() + ticks * self.spec_period() as int == total,
                old(self).tick() + total as int / self.spec_period() as int <= u64::MAX,
                ticks <= total as int / self.spec_period() as int,
            decreases self.lag(),
        {
            proof {
                assert(ticks < total as int / self.spec_period() as int) by (nonlinear_arith)
                    requires
                        self.lag() + ticks * self.spec_period() as int == total,
                        self.lag() >= self.spec_period() as int,
                        self.spec_period() >= 1,
                        ticks >= 0,
                        total <= u64::MAX,
                ;
            }
            let _ = self.calculate_tick(rules, out);
            self.lag_us = self.lag_us - self.tick_period_us as u64;
            ticks = ticks + 1;
            proof {
                assert(self.lag() + ticks * self.spec_period() as int == total) by (
                nonlinear_arith)
                    requires
                        self.lag() as int == total - (ticks - 1) * self.spec_period() as int
                            - self.spec_period() as int,
                        ticks >= 1,
                ;
            }
        }
        self.last_tick_us = now_us;
        proof {
            lemma_fundamental_div_mod_converse(
                total as int,
                self.spec_period() as int,
                ticks as int,
                self.lag() as int,
            );
        }
        ticks
    }
}

impl Instance {
    /// Empties every client actor's outbox: what the runtime writes to
    /// each client after a tick, in per-client order.
    pub fn take_outboxes(&mut self) -> (r: Vec<(u64, Vec<Notification>)>)
        requires
            old(self).wf(),
        ensures
            final(self).wf(),
            final(self).frame_timing(*old(self)),
            final(self).shutting_down() == old(self).shutting_down(),
            r@.len() == old(self).ext_actors().len(),
            forall|a: int|
                0 <= a < r@.len() ==> (#[trigger] r@[a]).0 == old(self).ext_actors()[
                a].spec_id() && r@[a].1@ == old(self).ext_actors()[a].outbox(),
    {
        self.actors.take_outboxes()
    }

    /// Feeds one parsed command from a client's link into its actor: an
    /// order joins that actor's queue, a stray game command makes it ask to
    /// be unregistered.  Reports whether the actor exists.
    pub fn push_client_command(&mut self, actor: u64, command: crate::messages::NetworkCommand)
        -> (r: bool)
        requires
            old(self).wf(),
        ensures
            final(self).wf(),
            final(self).frame_timing(*old(self)),
            final(self).shutting_down() == old(self).shutting_down(),
            final(self).entities() == old(self).entities(),
            final(self).prev() == old(self).prev(),
            final(self).next() == old(self).next(),
            final(self).int_actors() == old(self).int_actors(),
            r == spec_has_ext(old(self).ext_actors(), actor),
            if spec_has_ext(old(self).ext_actors(), actor) {
                let j = spec_ext_index(old(self).ext_actors(), actor);
                let pre = old(self).ext_actors()[j];
                let post = final(self).ext_actors()[j];
                &&& final(self).ext_actors().len() == old(self).ext_actors().len()
                &&& forall|k: int|
                    0 <= k < old(self).ext_actors().len() && k != j ==> final(self).ext_actors()[
                    k] == old(self).ext_actors()[k]
                &&& post.spec_id() == pre.spec_id()
                &&& post.owned() == pre.owned()
                &&& post.outbox() == pre.outbox()
                &&& match command {
                    crate::messages::NetworkCommand::EntityOrder(o) => post.orders()
                        == pre.orders().push(o) && post.commands() == pre.commands(),
                    crate::messages::NetworkCommand::GameCommand(_) => post.commands()
                        == pre.commands().push(Command::UnregisterActor(pre.spec_id()))
                        && post.orders() == pre.orders(),
                }
            } else {
                final(self).ext_actors() == old(self).ext_actors()
            },
    {
        self.actors.push_client_command(actor, command)
    }

    /// A client's link broke: its actor asks to be unregistered on the
    /// next tick.
    pub fn client_disconnected(&mut self, actor: u64) -> (r: bool)
        requires
            old(self).wf(),
        ensures
            final(self).wf(),
            final(self).frame_timing(*old(self)),
            final(self).shutting_down() == old(self).shutting_down(),
            final(self).entities() == old(self).entities(),
            final(self).int_actors() == old(self).int_actors(),
            r == spec_has_ext(old(self).ext_actors(), actor),
            if spec_has_ext(old(self).ext_actors(), actor) {
                let j = spec_ext_index(old(self).ext_actors(), actor);
                let pre = old(self).ext_actors()[j];
                let post = final(self).ext_actors()[j];
                &&& final(self).ext_actors().len() == old(self).ext_actors().len()
                &&& forall|k: int|
                    0 <= k < old(self).ext_actors().len() && k != j ==> final(self).ext_actors()[
                    k] == old(self).ext_actors()[k]
                &&& post.spec_id() == pre.spec_id()
                &&& post.owned() == pre.owned()
                &&& post.outbox() == pre.outbox()
                &&& post.orders() == pre.orders()
                &&& post.commands() == pre.commands().push(
                    Command::UnregisterActor(pre.spec_id()),
                )
            } else {
                final(self).ext_actors() == old(self).ext_actors()
            },
    {
        self.actors.client_disconnected(actor)
    }

    pub fn get_tick_id(&self) -> (r: u64)
        ensures
            r == self.tick(),
    {
        self.tick_id
    }

    pub fn get_lag(&self) -> (r: u64)
        ensures
            r == self.lag(),
    {
        self.lag_us
    }

    /// Management listing: every entity's management record.
    pub fn get_entities(&self) -> (r: Vec<EntityManagement>)
        ensures
            r@.len() == self.entities().len(),
            forall|i: int|
                0 <= i < r@.len() ==> matches_management(
                    self.entities()[i],
                    #[trigger] r@[i],
                    self.spec_id(),
                    self.spec_map(),
                ),
    {
        let mut listing: Vec<EntityManagement> = Vec::new();
        let n = self.entities.len();
        let mut i: usize = 0;
        while i < n
            invariant
                n == self.entities().len(),
                i <= n,
                listing@.len() == i,
                forall|t: int|
                    0 <= t < i ==> matches_management(
                        self.entities()[t],
                        #[trigger] listing@[t],
                        self.spec_id(),
                        self.spec_map(),
                    ),
            decreases n - i,
        {
            let record = self.entities.at(i).into_management_representation(self.id, self.map_id);
            listing.push(record);
            i = i + 1;
        }
        listing
    }

    /// The periodic roster: one management record per player entity of the
    /// store, in store order, reported upstream.
    #[verifier::loop_isolation(false)]
    pub fn update_players(&self, out: &mut Vec<Request>)
        ensures
            final(out)@.len() == old(out)@.len() + 1,
            forall|t: int| 0 <= t < old(out)@.len() ==> final(out)@[t] == old(out)@[t],
            (final(out)@.last() matches Request::PlayerUpdate(ps) && ps@.len()
                == self.entities().filter(|e: Entity| e.e_type is Player).len() && forall|k: int|
                0 <= k < ps@.len() ==> matches_management(
                    self.entities().filter(|e: Entity| e.e_type is Player)[k],
                    #[trigger] ps@[k],
                    self.spec_id(),
                    self.spec_map(),
                )),
    {
        let ghost pred = |e: Entity| e.e_type is Player;
        let mut players: Vec<EntityManagement> = Vec::new();
        let n = self.entities.len();
        let mut i: usize = 0;
        proof {
            assert(self.entities().take(0) =~= Seq::<Entity>::empty());
            reveal_with_fuel(Seq::filter, 1);
        }
        while i < n
            invariant
                n == self.entities().len(),
                i <= n,
                players@.len() == self.entities().take(i as int).filter(pred).len(),
                forall|k: int|
                    0 <= k < players@.len() ==> matches_management(
                        self.entities().take(i as int).filter(pred)[k],
                        #[trigger] players@[k],
                        self.spec_id(),
                        self.spec_map(),
                    ),
            decreases n - i,
        {
            proof {
                assert(self.entities().take(i as int + 1) =~= self.entities().take(
                    i as int,
                ).push(self.entities()[i as int]));
                crate::update::lemma_filter_push(
                    self.entities().take(i as int),
                    pred,
                    self.entities()[i as int],
                );
            }
            let e = self.entities.at(i);
            if e.is_player() {
                players.push(e.into_management_representation(self.id, self.map_id));
            }
            i = i + 1;
        }
        proof {
            assert(self.entities().take(n as int) =~= self.entities());
        }
        out.push(Request::PlayerUpdate(players));
    }

    /// Seeds an AI-driven monster: a fresh AI actor with the given tree, a
    /// fresh monster entity of the class at the position, attached to it
    /// and announced.  Returns the entity's id; only a colliding id (from
    /// a foreign allocator) keeps it out of the store.
    pub fn add_fake_ai(&mut self, class: u128, x: i64, y: i64, tree: TreeNode, allocator: &mut
        IdAllocator) -> (r: u64)
        requires
            old(self).wf(),
            -POS_LIMIT_NANO <= x <= POS_LIMIT_NANO,
            -POS_LIMIT_NANO <= y <= POS_LIMIT_NANO,
            old(allocator).next_id() < u64::MAX - 1,
        ensures
            final(self).wf(),
            final(self).frame_timing(*old(self)),
            final(self).shutting_down() == old(self).shutting_down(),
            r == old(allocator).next_id() + 1,
            final(allocator).next_id() == old(allocator).next_id() + 2,
            final(self).ext_actors().len() == old(self).ext_actors().len(),
            !contains_id(old(self).entities(), r) ==> final(self).entities().len() == old(
                self).entities().len() + 1 && (forall|i: int|
                0 <= i < old(self).entities().len() ==> final(self).entities()[i] == old(
                self).entities()[i]) && final(self).entities().last().id == r && (final(
                self).entities().last().e_type matches EntityType::Monster(m) && m.class == class)
                && final(self).entities().last().actor == Some(old(allocator).next_id()) && final(
                self).entities().last().pv == 100 && final(self).entities().last().position == (
            Vec2 { x, y }) && notification_views(final(self).next()) == notification_views(
                old(self).next(),
            ).push(entity_announce(final(self).entities().last())),
            contains_id(old(self).entities(), r) ==> final(self).entities() == old(
                self).entities() && final(self).next() == old(self).next(),
    {
        let ghost store0 = self.entities@;
        let ghost next0 = self.next_notifications@;
        let actor_id = allocator.allocate();
        let ai = AiActor::fake(actor_id, tree);
        let ghost ai_g = ai;
        self.actors.register_internal(ai);
        proof {
            let w = choose|i: int|
                0 <= i < self.actors.internals().len() && self.actors.internals()[i] == ai_g;
            assert(self.int_actors()[w].spec_id() == actor_id);
            assert(spec_has_int(self.int_actors(), actor_id));
        }
        let entity_id = allocator.allocate();
        let entity = Entity::fake_ai(entity_id, class, x, y);
        let ghost e_g = entity;
        let ghost attached = Entity { actor: Some(actor_id), ..e_g };
        proof {
            assert(e_g.wf());
            assert(attached.wf());
            assert(attached.id == entity_id);
        }
        self.assign_entity_to_actor(actor_id, entity);
        proof {
            if !contains_id(store0, entity_id) {
                assert(spec_admitted(store0, attached));
                assert(self.entities@ == store0.push(attached));
                assert(self.entities@.last() == attached);
                assert(notification_views(self.next_notifications@) =~= notification_views(
                    next0,
                ).push(entity_announce(attached)));
            } else {
                assert(!spec_admitted(store0, attached));
                assert(self.entities@ == store0);
            }
        }
        entity_id
    }

    /// Management spawn: creates an AI entity of the given class at the
    /// given position and returns its management record; the record
    /// describes the entity as it stands in the store.
    pub fn spawn_monster(&mut self, monster: SpawnMonster, tree: TreeNode, allocator: &mut
        IdAllocator) -> (r: Option<EntityManagement>)
        requires
            old(self).wf(),
            monster.wf(),
            old(allocator).next_id() < u64::MAX - 1,
        ensures
            final(self).wf(),
            final(self).frame_timing(*old(self)),
            final(self).shutting_down() == old(self).shutting_down(),
            !contains_id(old(self).entities(), (old(allocator).next_id() + 1) as u64) ==> (r
                matches Some(record) && record.id == old(allocator).next_id() + 1
                && contains_id(final(self).entities(), record.id) && matches_management(
                final(self).entities().last(),
                record,
                old(self).spec_id(),
                old(self).spec_map(),
            ) && final(self).entities().len() == old(self).entities().len() + 1 && (final(
                self).entities().last().e_type matches EntityType::Monster(m) && m.class
                == monster.monster_class) && final(self).entities().last().pv == 100),
            contains_id(old(self).entities(), (old(allocator).next_id() + 1) as u64) ==> final(
                self).entities() == old(self).entities(),
    {
        let ghost store0 = self.entities@;
        let id = self.add_fake_ai(monster.monster_class, monster.x, monster.y, tree, allocator);
        match self.entities.index_of(id) {
            Some(i) => {
                let record = self.entities.at(i).into_management_representation(
                    self.id,
                    self.map_id,
                );
                proof {
                    assert(self.entities()[i as int].id == id);
                    if !contains_id(store0, id) {
                        assert(self.entities().last().id == id);
                        assert(i as int == self.entities().len() - 1) by {
                            if i as int != self.entities().len() - 1 {
                                assert(self.entities()[i as int].id != self.entities()[
                                self.entities().len() - 1].id);
                            }
                        }
                    }
                }
                Some(record)
            },
            None => {
                proof {
                    if !contains_id(store0, id) {
                        assert(self.entities().last().id == id);
                        assert(contains_id(self.entities(), id));
                        assert(false);
                    }
                }
                None
            },
        }
    }

    /// Management removal: a monster entity is removed and announced as
    /// having quit, and its actor is dropped; a player is refused, an
    /// unknown id reported as such.
    pub fn remove_entity(&mut self, entity: u64) -> (r: Result<(), RemoveEntityError>)
        requires
            old(self).wf(),
        ensures
            final(self).wf(),
            final(self).frame_timing(*old(self)),
            final(self).shutting_down() == old(self).shutting_down(),
            match r {
                Ok(()) => !contains_id(final(self).entities(), entity),
                Err(RemoveEntityError::NotFound) => !contains_id(old(self).entities(), entity)
                    && final(self).entities() == old(self).entities(),
                Err(RemoveEntityError::IsPlayer) => final(self).entities() == old(self).entities(),
            },
    {
        let is_monster = match self.entities.index_of(entity) {
            None => {
                return Err(RemoveEntityError::NotFound);
            },
            Some(i) => self.entities.at(i).is_monster(),
        };
        if !is_monster {
            return Err(RemoveEntityError::IsPlayer);
        }
        match self.entities.remove(entity) {
            Some(e) => {
                let notification = Notification::entity_has_quit(entity);
                self.next_notifications.push(notification);
                match e.get_actor() {
                    Some(actor) => {
                        let _ = self.actors.unregister_ai(actor);
                    },
                    None => {},
                }
                Ok(())
            },
            None => Err(RemoveEntityError::NotFound),
        }
    }
}

/// Per-tick ordering of what one client observes: when one tick's batch is
/// appended to an outbox and the next tick's batch after it, every
/// notification of the first tick stands at an index strictly below every
/// index of the second tick's notifications, whose ranges the lemma gives.
pub proof fn lemma_notification_order(ob0: Seq<NotificationView>, ob1: Seq<NotificationView>,
    ob2: Seq<NotificationView>, t1: Seq<NotificationView>, t2: Seq<NotificationView>)
    requires
        ob1 == ob0 + t1,
        ob2 == ob1 + t2,
    ensures
        ob2.len() == ob0.len() + t1.len() + t2.len(),
        forall|p: int| 0 <= p < t1.len() ==> ob2[ob0.len() + p] == t1[p],
        forall|q: int| 0 <= q < t2.len() ==> ob2[ob0.len() + t1.len() + q] == t2[q],
{
    assert forall|p: int| 0 <= p < t1.len() implies ob2[ob0.len() + p] == t1[p] by {
        assert(ob1[ob0.len() + p] == t1[p]);
    }
}

} // verus!
