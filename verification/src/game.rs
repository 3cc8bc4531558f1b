//! The coordinator: the singleton that owns global state, routes arriving
//! clients to per-map instances, and drives the shutdown.
//!
//! The coordinator is a state machine: the runtime feeds it requests and
//! the outcomes of fetches and spawns, and performs the `GameAction`s it
//! hands back — kicks, fetches, sends to instance workers, persistence.

use vstd::prelude::*;
use crate::actor::NetworkActor;
use crate::authentication::{AuthenticationManager, AuthenticationToken, spec_has_token,
    spec_token_index};
use crate::data::{EntityManagement, GameMap, GetMaps, Player};
use crate::entity::{Entity, EntityType, spec_into_player};
use crate::geometry::POS_LIMIT_NANO;
use crate::id::IdAllocator;
use crate::instance::ShuttingDownState;
use crate::messages::{ClientInfo, Command, Request};
use crate::resource::ResourceManager;

verus! {

/// How the daemon is configured.
#[derive(Clone, Debug)]
pub struct GameParameters {
    pub port: u16,
    pub configuration_url: String,
    /// The tick period, in microseconds.
    pub tick_period_us: u32,
    pub default_fallback: bool,
}

/// Something the runtime must perform on the coordinator's behalf.
pub enum GameAction {
    /// Disconnect this player's session.
    Kick { player: u128 },
    /// Tell this player which entity is theirs.
    SendThisIsYou { player: u128, entity: u64 },
    /// Fetch this player's record from the resource backend.
    FetchPlayer { player: u128 },
    /// Fetch this map from the resource backend.
    FetchMap { map: u128 },
    /// Start a worker for a new instance of this map.
    SpawnInstance { map: u128 },
    /// Send a command to a running instance worker.
    SendToInstance { instance: u64, command: Command },
    /// Write this player's record to disk.
    PersistPlayer(Player),
}

/// No two loaded maps share a key.
pub open spec fn unique_map_keys(s: Seq<(u128, GameMap, Vec<u64>)>) -> bool {
    forall|i: int, j: int|
        #![trigger s[i], s[j]]
        0 <= i < j < s.len() ==> s[i].0 != s[j].0
}

/// The persistence a list of departing entities demands: one PersistPlayer
/// action per player entity, in order; monsters demand none.
pub open spec fn persist_actions(es: Seq<Entity>) -> Seq<GameAction>
    decreases es.len(),
{
    if es.len() == 0 {
        Seq::<GameAction>::empty()
    } else {
        (match spec_into_player(es[0]) {
            Some(record) => seq![GameAction::PersistPlayer(record)],
            None => Seq::<GameAction>::empty(),
        }) + persist_actions(es.drop_first())
    }
}

/// The persistence a drained instance demands: each actor's entities in
/// turn.
pub open spec fn persist_pairs(pairs: Seq<(NetworkActor, Vec<Entity>)>) -> Seq<GameAction>
    decreases pairs.len(),
{
    if pairs.len() == 0 {
        Seq::<GameAction>::empty()
    } else {
        persist_actions(pairs[0].1@) + persist_pairs(pairs.drop_first())
    }
}

/// The first position of a value in a session list.
pub open spec fn spec_first_at(s: Seq<u128>, x: u128) -> int {
    choose|i: int|
        0 <= i < s.len() && s[i] == x && forall|j: int| #![trigger s[j]] 0 <= j < i ==> s[j] != x
}

/// The session list with the first occurrence of a value removed.
pub open spec fn remove_first_session(s: Seq<u128>, x: u128) -> Seq<u128> {
    if s.contains(x) {
        s.remove(spec_first_at(s, x))
    } else {
        s
    }
}

/// The persistence a list of waiting arrivals demands: each entry's
/// entities in turn.
pub open spec fn persist_pending(entries: Seq<(u128, NetworkActor, Vec<Entity>)>) -> Seq<
    GameAction,
>
    decreases entries.len(),
{
    if entries.len() == 0 {
        Seq::<GameAction>::empty()
    } else {
        persist_actions(entries[0].2@) + persist_pending(entries.drop_first())
    }
}

/// The first position of an instance id.
pub open spec fn spec_first_instance_at(s: Seq<u64>, x: u64) -> int {
    choose|i: int|
        0 <= i < s.len() && s[i] == x && forall|j: int| #![trigger s[j]] 0 <= j < i ==> s[j] != x
}

/// The instance list with the first occurrence of an id removed.
pub open spec fn remove_first_instance(s: Seq<u64>, x: u64) -> Seq<u64> {
    if s.contains(x) {
        s.remove(spec_first_instance_at(s, x))
    } else {
        s
    }
}

/// A fresh actor routed with one loaded entity: the actor owns exactly
/// that entity, a player entity headed for the routed map with no
/// back-reference yet.
pub open spec fn routed_actor_ok(a: NetworkActor, es: Vec<Entity>, eid: u64, aid: u64,
    map: u128) -> bool {
    &&& a.spec_id() == aid
    &&& a.owned() == seq![eid]
    &&& a.orders().len() == 0
    &&& a.commands().len() == 0
    &&& a.outbox().len() == 0
    &&& es@.len() == 1
    &&& es@[0].id == eid
    &&& es@[0].actor is None
    &&& (es@[0].e_type matches EntityType::Player(p) && p.map == map)
}

/// The test for pending entries of one map.
pub open spec fn pending_for(map: u128) -> spec_fn((u128, NetworkActor, Vec<Entity>)) -> bool {
    |e: (u128, NetworkActor, Vec<Entity>)| e.0 == map
}

/// The test for pending entries of any other map.
pub open spec fn pending_not_for(map: u128) -> spec_fn(
    (u128, NetworkActor, Vec<Entity>),
) -> bool {
    |e: (u128, NetworkActor, Vec<Entity>)| e.0 != map
}

/// A formerly waiting arrival is served again: its actor was sent to an
/// instance, or it stands among the pending arrivals once more.
pub open spec fn routed_again(entry: (u128, NetworkActor, Vec<Entity>), base: int, actions: Seq<
    GameAction,
>, pending: Seq<(u128, NetworkActor, Vec<Entity>)>) -> bool {
    ||| exists|t: int|
        #![trigger actions[t]]
        base <= t < actions.len() && (actions[t] matches GameAction::SendToInstance {
            instance: _,
            command: Command::NewClient(a2, es2),
        } && a2 == entry.1 && es2 == entry.2)
    ||| pending.contains((entry.0, entry.1, entry.2))
}

/// Serving later arrivals keeps an earlier arrival served: actions only
/// grow, and pending entries only join.
pub proof fn lemma_routed_again_extend(entry: (u128, NetworkActor, Vec<Entity>), base: int,
    a1: Seq<GameAction>, a2: Seq<GameAction>, p1: Seq<(u128, NetworkActor, Vec<Entity>)>,
    p2: Seq<(u128, NetworkActor, Vec<Entity>)>)
    requires
        0 <= base,
        routed_again(entry, base, a1, p1),
        a2.len() >= a1.len(),
        forall|t: int| 0 <= t < a1.len() ==> a2[t] == a1[t],
        p2 == p1 || p2 == p1.push(p2.last()),
    ensures
        routed_again(entry, base, a2, p2),
{
    if exists|t: int|
        #![trigger a1[t]]
        base <= t < a1.len() && (a1[t] matches GameAction::SendToInstance {
            instance: _,
            command: Command::NewClient(x, y),
        } && x == entry.1 && y == entry.2) {
        let t = choose|t: int|
            #![trigger a1[t]]
            base <= t < a1.len() && (a1[t] matches GameAction::SendToInstance {
                instance: _,
                command: Command::NewClient(x, y),
            } && x == entry.1 && y == entry.2);
        assert(a2[t] == a1[t]);
    } else {
        assert(p1.contains((entry.0, entry.1, entry.2)));
        let w = choose|w: int| 0 <= w < p1.len() && p1[w] == (entry.0, entry.1, entry.2);
        if p2 != p1 {
            assert(p2[w] == p1[w]);
            assert(p2.contains(p2[w]));
        }
    }
}

/// A loaded-map witness at a known index.
pub open spec fn spec_has_map_witness(g: Game, map: u128, i: int) -> bool {
    0 <= i < g.spec_maps().len() && g.spec_maps()[i].0 == map
}

/// What routing one arriving actor with its entities looks like: sent to a
/// running instance, or parked as pending behind an instance spawn, or
/// parked behind a map fetch.
pub open spec fn routed_somewhere(pre: Game, post: Game, appended: GameAction, map: u128,
    actor: NetworkActor, entities: Vec<Entity>) -> bool {
    if pre.spec_has_map(map) {
        if pre.spec_maps()[pre.spec_map_index(map)].2@.len() > 0 {
            &&& appended == (GameAction::SendToInstance {
                instance: pre.spec_maps()[pre.spec_map_index(map)].2@[0],
                command: Command::NewClient(actor, entities),
            })
            &&& post.spec_pending() == pre.spec_pending()
        } else {
            &&& appended == (GameAction::SpawnInstance { map })
            &&& post.spec_pending() == pre.spec_pending().push((map, actor, entities))
        }
    } else {
        &&& appended == (GameAction::FetchMap { map })
        &&& post.spec_pending() == pre.spec_pending().push((map, actor, entities))
    }
}

/// The coordinator's whole state.
pub struct Game {
    /// Loaded maps, each with its live instances.
    maps: Vec<(u128, GameMap, Vec<u64>)>,
    /// Every live instance.
    instances: Vec<u64>,
    /// Players currently in the world, for the management listing.
    players: Vec<(u128, EntityManagement)>,
    /// Players with a live session.
    players_ref: Vec<u128>,
    /// Arrivals waiting for their map to load or its instance to spawn.
    pending: Vec<(u128, NetworkActor, Vec<Entity>)>,
    authentication_manager: AuthenticationManager,
    resource_manager: ResourceManager,
    tick_period_us: u32,
    shutdown: bool,
    allocator: IdAllocator,
}

impl Game {
    pub closed spec fn spec_instances(self) -> Seq<u64> {
        self.instances@
    }

    pub closed spec fn spec_shutdown(self) -> bool {
        self.shutdown
    }

    pub closed spec fn spec_sessions(self) -> Seq<u128> {
        self.players_ref@
    }

    pub closed spec fn spec_tokens(self) -> Seq<(u128, AuthenticationToken)> {
        self.authentication_manager@
    }

    pub closed spec fn spec_maps(self) -> Seq<(u128, GameMap, Vec<u64>)> {
        self.maps@
    }

    pub closed spec fn spec_pending(self) -> Seq<(u128, NetworkActor, Vec<Entity>)> {
        self.pending@
    }

    pub closed spec fn spec_players(self) -> Seq<(u128, EntityManagement)> {
        self.players@
    }

    pub closed spec fn spec_fallback(self) -> bool {
        self.resource_manager.spec_fallback()
    }

    /// Whether a map is loaded.
    pub open spec fn spec_has_map(self, map: u128) -> bool {
        exists|i: int|
            #![trigger self.spec_maps()[i]]
            0 <= i < self.spec_maps().len() && self.spec_maps()[i].0 == map
    }

    /// The loaded map's position; meaningful when loaded, keys unique.
    pub open spec fn spec_map_index(self, map: u128) -> int {
        choose|i: int| 0 <= i < self.spec_maps().len() && self.spec_maps()[i].0 == map
    }

    pub open spec fn wf(self) -> bool {
        &&& self.auth_wf()
        &&& 1 <= self.spec_period() <= crate::geometry::TICK_LIMIT_US
        &&& unique_map_keys(self.spec_maps())
    }

    pub closed spec fn auth_wf(self) -> bool {
        self.authentication_manager.wf()
    }

    pub closed spec fn spec_period(self) -> u32 {
        self.tick_period_us
    }

    pub closed spec fn spec_next_id(self) -> u64 {
        self.allocator.next_id()
    }

    /// The next id the coordinator's allocator will hand out, so the
    /// runtime can check there is room before a connection allocates two.
    pub fn peek_next_id(&self) -> (r: u64)
        ensures
            r == self.spec_next_id(),
    {
        self.allocator.peek()
    }

    pub fn new(parameters: GameParameters) -> (r: Game)
        requires
            1 <= parameters.tick_period_us <= crate::geometry::TICK_LIMIT_US,
        ensures
            r.wf(),
            !r.spec_shutdown(),
            r.spec_instances() == Seq::<u64>::empty(),
            r.spec_sessions() == Seq::<u128>::empty(),
            r.spec_tokens() == Seq::<(u128, AuthenticationToken)>::empty(),
    {
        Game {
            maps: Vec::new(),
            instances: Vec::new(),
            players: Vec::new(),
            players_ref: Vec::new(),
            pending: Vec::new(),
            authentication_manager: AuthenticationManager::new(),
            resource_manager: ResourceManager::new_rest(
                parameters.configuration_url,
                parameters.default_fallback,
            ),
            tick_period_us: parameters.tick_period_us,
            shutdown: false,
            allocator: IdAllocator::new(),
        }
    }

    /// Registers a token so the character may connect.
    pub fn connect_character(&mut self, id: u128, token: AuthenticationToken)
        requires
            old(self).wf(),
        ensures
            final(self).wf(),
            spec_has_token(final(self).spec_tokens(), id),
            if spec_has_token(old(self).spec_tokens(), id) {
                final(self).spec_tokens() == old(self).spec_tokens().update(
                    spec_token_index(old(self).spec_tokens(), id),
                    (id, token),
                )
            } else {
                final(self).spec_tokens() == old(self).spec_tokens().push((id, token))
            },
    {
        self.authentication_manager.add_token(id, token);
    }

    /// Verifies a connecting character's token; a match consumes the token.
    pub fn verify_token(&mut self, id: u128, token: AuthenticationToken) -> (r: bool)
        requires
            old(self).wf(),
        ensures
            final(self).wf(),
            !spec_has_token(old(self).spec_tokens(), id) ==> r == false && final(self).spec_tokens() == old(self).spec_tokens(),
            spec_has_token(old(self).spec_tokens(), id) ==> {
                let i = spec_token_index(old(self).spec_tokens(), id);
                if old(self).spec_tokens()[i].1.0@ == token.0@ {
                    r == true && final(self).spec_tokens() == old(self).spec_tokens().remove(i)
                } else {
                    r == false && final(self).spec_tokens() == old(self).spec_tokens()
                }
            },
    {
        self.authentication_manager.verify_token(id, token)
    }

    fn session_index(&self, player: u128) -> (r: Option<usize>)
        ensures
            match r {
                Some(i) => i < self.spec_sessions().len() && self.spec_sessions()[i as int]
                    == player && forall|j: int| 0 <= j < i ==> self.spec_sessions()[j] != player,
                None => forall|i: int|
                    0 <= i < self.spec_sessions().len() ==> self.spec_sessions()[i] != player,
            },
    {
        let mut i: usize = 0;
        while i < self.players_ref.len()
            invariant
                i <= self.players_ref.len(),
                forall|j: int| 0 <= j < i ==> self.spec_sessions()[j] != player,
            decreases self.players_ref.len() - i,
        {
            if self.players_ref[i] == player {
                return Some(i);
            }
            i = i + 1;
        }
        None
    }

    /// A client finished the handshake.  During shutdown it is dropped.  A
    /// second session for a character already in game kicks both, the open
    /// design point the source left: neither session proceeds.  Otherwise
    /// the session is recorded and the player record fetched.
    pub fn new_client(&mut self, client: ClientInfo, actions: &mut Vec<GameAction>)
        requires
            old(self).wf(),
        ensures
            final(self).wf(),
            final(self).spec_shutdown() == old(self).spec_shutdown(),
            final(self).spec_instances() == old(self).spec_instances(),
            old(self).spec_shutdown() ==> *final(self) == *old(self) && final(actions)@ == old(actions)@,
            !old(self).spec_shutdown() && old(self).spec_sessions().contains(client.uuid)
                ==> *final(self) == *old(self) && final(actions)@ == old(actions)@.push(
                GameAction::Kick { player: client.uuid },
            ),
            !old(self).spec_shutdown() && !old(self).spec_sessions().contains(client.uuid)
                ==> final(self).spec_sessions() == old(self).spec_sessions().push(client.uuid)
                && final(self).spec_tokens() == old(self).spec_tokens() && final(
                self).spec_maps() == old(self).spec_maps() && final(self).spec_pending() == old(
                self).spec_pending() && final(actions)@ == old(actions)@.push(
                GameAction::FetchPlayer { player: client.uuid },
            ),
    {
        if self.shutdown {
            return ;
        }
        match self.session_index(client.uuid) {
            Some(i) => {
                proof {
                    assert(self.spec_sessions().contains(self.spec_sessions()[i as int]));
                }
                actions.push(GameAction::Kick { player: client.uuid });
            },
            None => {
                proof {
                    if self.spec_sessions().contains(client.uuid) {
                        let w = choose|w: int|
                            0 <= w < self.spec_sessions().len() && self.spec_sessions()[w]
                                == client.uuid;
                        assert(false);
                    }
                }
                self.players_ref.push(client.uuid);
                actions.push(GameAction::FetchPlayer { player: client.uuid });
            },
        }
    }

    fn map_index(&self, map: u128) -> (r: Option<usize>)
        ensures
            match r {
                Some(i) => i < self.spec_maps().len() && self.spec_maps()[i as int].0 == map,
                None => forall|i: int|
                    0 <= i < self.spec_maps().len() ==> (#[trigger] self.spec_maps()[i]).0 != map,
            },
    {
        let mut i: usize = 0;
        while i < self.maps.len()
            invariant
                i <= self.maps.len(),
                forall|j: int| 0 <= j < i ==> (#[trigger] self.spec_maps()[j]).0 != map,
            decreases self.maps.len() - i,
        {
            if self.maps[i].0 == map {
                return Some(i);
            }
            i = i + 1;
        }
        None
    }

    /// Routes an actor and its entities to an instance of their map: to a
    /// running instance directly; else a worker spawn or a map fetch is
    /// requested and the arrival waits among the pending ones.
    pub fn assign_actor_to_map(&mut self, map: u128, actor: NetworkActor, entities: Vec<Entity>,
        actions: &mut Vec<GameAction>)
        requires
            old(self).wf(),
        ensures
            final(self).wf(),
            final(self).spec_shutdown() == old(self).spec_shutdown(),
            final(self).spec_instances() == old(self).spec_instances(),
            final(self).spec_maps() == old(self).spec_maps(),
            final(self).spec_sessions() == old(self).spec_sessions(),
            final(self).spec_tokens() == old(self).spec_tokens(),
            final(actions)@.len() == old(actions)@.len() + 1,
            forall|t: int| 0 <= t < old(actions)@.len() ==> final(actions)@[t] == old(actions)@[t],
            routed_somewhere(
                *old(self),
                *final(self),
                final(actions)@.last(),
                map,
                actor,
                entities,
            ),
    {
        match self.map_index(map) {
            Some(i) => {
                proof {
                    assert(self.spec_maps().contains(self.spec_maps()[i as int]) || true);
                    assert(spec_has_map_witness(*self, map, i as int));
                    assert(self.spec_map_index(map) == i as int) by {
                        let w = self.spec_map_index(map);
                        assert(0 <= w < self.spec_maps().len() && self.spec_maps()[w].0 == map);
                    }
                }
                let has_instance = self.maps[i].2.len() > 0;
                if has_instance {
                    let instance = self.maps[i].2[0];
                    actions.push(
                        GameAction::SendToInstance {
                            instance,
                            command: Command::NewClient(actor, entities),
                        },
                    );
                } else {
                    self.pending.push((map, actor, entities));
                    actions.push(GameAction::SpawnInstance { map });
                }
            },
            None => {
                proof {
                    if self.spec_has_map(map) {
                        let w = self.spec_map_index(map);
                        assert(0 <= w < self.spec_maps().len() && self.spec_maps()[w].0 == map);
                        assert(false);
                    }
                }
                self.pending.push((map, actor, entities));
                actions.push(GameAction::FetchMap { map });
            },
        }
    }

    /// The outcome of a player fetch.  A missing record, with no fallback,
    /// ends the session with a kick; otherwise the record becomes an
    /// entity wrapped in a fresh actor, the client learns its entity id,
    /// and the arrival is routed towards the record's map.  Out-of-range
    /// coordinates are clamped into the world.
    pub fn on_player_fetched(&mut self, player: u128, fetched: Option<Player>, actions: &mut Vec<
        GameAction,
    >)
        requires
            old(self).wf(),
            old(self).spec_next_id() < u64::MAX - 2,
        ensures
            final(self).wf(),
            final(self).spec_shutdown() == old(self).spec_shutdown(),
            final(self).spec_instances() == old(self).spec_instances(),
            final(self).spec_maps() == old(self).spec_maps(),
            final(self).spec_tokens() == old(self).spec_tokens(),
            forall|t: int| 0 <= t < old(actions)@.len() ==> final(actions)@[t] == old(actions)@[t],
            fetched is None && !old(self).spec_fallback() ==> final(self).spec_sessions()
                == remove_first_session(old(self).spec_sessions(), player) && final(
                self).spec_pending() == old(self).spec_pending() && final(actions)@ == old(
                actions)@.push(GameAction::Kick { player }),
            (fetched is Some || old(self).spec_fallback()) ==> final(self).spec_sessions() == old(
                self).spec_sessions() && final(actions)@.len() == old(actions)@.len() + 2
                && final(actions)@[old(actions)@.len() as int] == (GameAction::SendThisIsYou {
                player,
                entity: old(self).spec_next_id(),
            }) && (exists|m: u128, a: NetworkActor, es: Vec<Entity>|
                #[trigger] routed_actor_ok(
                    a,
                    es,
                    old(self).spec_next_id(),
                    (old(self).spec_next_id() + 1) as u64,
                    m,
                ) && routed_somewhere(
                    *old(self),
                    *final(self),
                    final(actions)@.last(),
                    m,
                    a,
                    es,
                )),
    {
        let resolved = self.resource_manager.resolve_player_fetch(player, fetched);
        match resolved {
            None => {
                match self.session_index(player) {
                    Some(i) => {
                        proof {
                            assert(self.spec_sessions().contains(
                                self.spec_sessions()[i as int],
                            ));
                            assert(spec_first_at(self.spec_sessions(), player) == i as int) by {
                                let w = spec_first_at(self.spec_sessions(), player);
                                assert(0 <= w < self.spec_sessions().len()
                                    && self.spec_sessions()[w] == player && forall|j: int|
                                    #![trigger self.spec_sessions()[j]]
                                    0 <= j < w ==> self.spec_sessions()[j] != player);
                                if w < (i as int) {
                                    assert(self.spec_sessions()[w] != player);
                                }
                                if (i as int) < w {
                                    assert(self.spec_sessions()[i as int] != player);
                                }
                            }
                        }
                        let _ = self.players_ref.remove(i);
                    },
                    None => {
                        proof {
                            if self.spec_sessions().contains(player) {
                                let w = choose|w: int|
                                    0 <= w < self.spec_sessions().len() && self.spec_sessions()[w]
                                        == player;
                                assert(false);
                            }
                        }
                    },
                }
                actions.push(GameAction::Kick { player });
            },
            Some(mut record) => {
                if record.position.x < -POS_LIMIT_NANO {
                    record.position.x = -POS_LIMIT_NANO;
                }
                if record.position.x > POS_LIMIT_NANO {
                    record.position.x = POS_LIMIT_NANO;
                }
                if record.position.y < -POS_LIMIT_NANO {
                    record.position.y = -POS_LIMIT_NANO;
                }
                if record.position.y > POS_LIMIT_NANO {
                    record.position.y = POS_LIMIT_NANO;
                }
                let map = record.get_map_position();
                let entity_id = self.allocator.allocate();
                let entity = Entity::from_player(entity_id, record);
                let actor_id = self.allocator.allocate();
                let mut actor = NetworkActor::new(actor_id);
                actor.register_entity(entity_id);
                actions.push(GameAction::SendThisIsYou { player, entity: entity_id });
                let mut entities = Vec::new();
                entities.push(entity);
                let ghost a_g = actor;
                let ghost es_g = entities;
                let ghost mid = *self;
                proof {
                    assert(a_g.owned() =~= seq![entity_id]);
                    assert(routed_actor_ok(a_g, es_g, entity_id, actor_id, map));
                    assert(mid.spec_maps() == old(self).spec_maps());
                    assert(mid.spec_pending() == old(self).spec_pending());
                }
                self.assign_actor_to_map(map, actor, entities, actions);
                proof {
                    assert(routed_somewhere(
                        mid,
                        *self,
                        actions@.last(),
                        map,
                        a_g,
                        es_g,
                    ));
                    assert(mid.spec_has_map(map) == old(self).spec_has_map(map)) by {
                        if mid.spec_has_map(map) {
                            let w = mid.spec_map_index(map);
                            assert(0 <= w < mid.spec_maps().len() && mid.spec_maps()[w].0 == map);
                            assert(old(self).spec_maps()[w].0 == map);
                        }
                        if old(self).spec_has_map(map) {
                            let w = old(self).spec_map_index(map);
                            assert(0 <= w < old(self).spec_maps().len() && old(self).spec_maps()[
                            w].0 == map);
                            assert(mid.spec_maps()[w].0 == map);
                        }
                    }
                    if old(self).spec_has_map(map) {
                        assert(mid.spec_map_index(map) == old(self).spec_map_index(map)) by {
                            let w1 = mid.spec_map_index(map);
                            let w2 = old(self).spec_map_index(map);
                            assert(0 <= w1 < mid.spec_maps().len() && mid.spec_maps()[w1].0
                                == map);
                            assert(0 <= w2 < old(self).spec_maps().len() && old(self).spec_maps()[
                            w2].0 == map);
                            assert(old(self).spec_maps()[w1].0 == map);
                            assert(mid.spec_maps()[w2].0 == map);
                        }
                    }
                    assert(routed_somewhere(
                        *old(self),
                        *self,
                        actions@.last(),
                        map,
                        a_g,
                        es_g,
                    ));
                    assert(entity_id == old(self).spec_next_id());
                    assert(actor_id == (old(self).spec_next_id() + 1) as u64);
                    assert(routed_actor_ok(
                        a_g,
                        es_g,
                        old(self).spec_next_id(),
                        (old(self).spec_next_id() + 1) as u64,
                        map,
                    ));
                }
            },
        }
    }

    /// The outcome of a map fetch.  A missing map, with no fallback, drops
    /// every arrival waiting for it, persisting their player entities; a
    /// map is recorded and every waiting arrival is routed again — to a
    /// running instance, or back behind an instance spawn.
    pub fn on_map_fetched(&mut self, map: u128, fetched: Option<GameMap>, actions: &mut Vec<
        GameAction,
    >)
        requires
            old(self).wf(),
        ensures
            final(self).wf(),
            final(self).spec_shutdown() == old(self).spec_shutdown(),
            final(self).spec_instances() == old(self).spec_instances(),
            final(self).spec_tokens() == old(self).spec_tokens(),
            forall|t: int| 0 <= t < old(actions)@.len() ==> final(actions)@[t] == old(actions)@[t],
            fetched is None && !old(self).spec_fallback() ==> final(self).spec_pending() == old(
                self).spec_pending().filter(pending_not_for(map)) && final(self).spec_maps()
                == old(self).spec_maps() && final(actions)@ == old(actions)@ + persist_pending(
                old(self).spec_pending().filter(pending_for(map)),
            ),
            (fetched is Some || old(self).spec_fallback()) ==> final(self).spec_has_map(map)
                && forall|k: int|
                0 <= k < old(self).spec_pending().len() && (#[trigger] old(self).spec_pending()[
                k]).0 == map ==> routed_again(
                    old(self).spec_pending()[k],
                    old(actions)@.len() as int,
                    final(actions)@,
                    final(self).spec_pending(),
                ),
    {
        let ghost keep = pending_for(map);
        let resolved = self.resource_manager.resolve_map_fetch(map, fetched);
        let mut waiting = self.take_pending_for(map);
        let ghost taken0 = waiting@;
        match resolved {
            None => {
                let ghost actions0 = actions@;
                proof {
                    assert(taken0.skip(0) =~= taken0);
                }
                while waiting.len() > 0
                    invariant
                        self.wf(),
                        self.spec_shutdown() == old(self).spec_shutdown(),
                        self.spec_instances() == old(self).spec_instances(),
                        self.spec_tokens() == old(self).spec_tokens(),
                        self.spec_maps() == old(self).spec_maps(),
                        self.spec_pending() == old(self).spec_pending().filter(
                            pending_not_for(map),
                        ),
                        actions@.len() >= actions0.len(),
                        forall|t: int| 0 <= t < actions0.len() ==> actions@[t] == actions0[t],
                        actions@ + persist_pending(waiting@) == actions0 + persist_pending(
                            taken0,
                        ),
                    decreases waiting.len(),
                {
                    let ghost w_pre = waiting@;
                    let ghost actions_pre = actions@;
                    let (_, actor, entities) = waiting.remove(0);
                    let ghost es_g = entities@;
                    proof {
                        assert(waiting@ =~= w_pre.drop_first());
                        assert(w_pre[0].2@ == es_g);
                    }
                    self.actor_leaving(actor, entities, actions);
                    proof {
                        assert(forall|t: int|
                            0 <= t < actions_pre.len() ==> actions@[t] == actions_pre[t]);
                        assert forall|t: int| 0 <= t < actions0.len() implies actions@[t]
                            == actions0[t] by {
                            assert(actions@[t] == actions_pre[t]);
                        }
                        assert(actions@ + persist_pending(waiting@) =~= actions0
                            + persist_pending(taken0));
                    }
                }
                proof {
                    assert(persist_pending(Seq::<(u128, NetworkActor, Vec<Entity>)>::empty())
                        =~= Seq::<GameAction>::empty());
                    assert(actions@ + Seq::<GameAction>::empty() =~= actions@);
                }
            },
            Some(m) => {
                match self.map_index(map) {
                    Some(i) => {
                        proof {
                            assert(spec_has_map_witness(*self, map, i as int));
                        }
                    },
                    None => {
                        let ghost maps_pre = self.spec_maps();
                        self.maps.push((map, m, Vec::new()));
                        proof {
                            assert(self.spec_maps()[maps_pre.len() as int].0 == map);
                            assert(spec_has_map_witness(*self, map, maps_pre.len() as int));
                            assert forall|x: int, y: int|
                                0 <= x < y < self.spec_maps().len() implies (
                            #[trigger] self.spec_maps()[x]).0 != (
                            #[trigger] self.spec_maps()[y]).0 by {
                                if y < maps_pre.len() {
                                    assert(self.spec_maps()[x] == maps_pre[x]);
                                    assert(self.spec_maps()[y] == maps_pre[y]);
                                } else {
                                    assert(self.spec_maps()[x] == maps_pre[x]);
                                }
                            }
                        }
                    },
                }
                let ghost actions0 = actions@;
                let ghost mut k: int = 0int;
                proof {
                    assert(waiting@ =~= taken0.skip(0));
                }
                while waiting.len() > 0
                    invariant
                        self.wf(),
                        self.spec_shutdown() == old(self).spec_shutdown(),
                        self.spec_instances() == old(self).spec_instances(),
                        self.spec_tokens() == old(self).spec_tokens(),
                        self.spec_has_map(map),
                        taken0 == old(self).spec_pending().filter(pending_for(map)),
                        0 <= k <= taken0.len(),
                        waiting@ == taken0.skip(k),
                        actions@.len() >= actions0.len(),
                        actions0.len() >= old(actions)@.len(),
                        forall|t: int| 0 <= t < actions0.len() ==> actions@[t] == actions0[t],
                        forall|q: int|
                            0 <= q < self.spec_pending().len() ==> #[trigger] self.spec_pending()[
                            q] == self.spec_pending()[q],
                        forall|j: int|
                            0 <= j < k ==> routed_again(
                                #[trigger] taken0[j],
                                old(actions)@.len() as int,
                                actions@,
                                self.spec_pending(),
                            ),
                    decreases waiting.len(),
                {
                    let ghost w_pre = waiting@;
                    let ghost pending_pre = self.spec_pending();
                    let ghost actions_pre = actions@;
                    let ghost g_pre = *self;
                    let (waiting_map, actor, entities) = waiting.remove(0);
                    let ghost a_g = actor;
                    let ghost es_g = entities;
                    proof {
                        assert(waiting@ =~= w_pre.drop_first());
                        assert(w_pre[0] == taken0[k]);
                        assert(taken0[k].1 == a_g && taken0[k].2 == es_g);
                        assert(taken0.skip(k).drop_first() =~= taken0.skip(k + 1));
                        assert(pending_for(map)(taken0[k])) by {
                            broadcast use vstd::prelude::Seq::lemma_filter_pred;

                            assert(old(self).spec_pending().filter(pending_for(map))[k]
                                == taken0[k]);
                        }
                        assert(waiting_map == map);
                    }
                    self.assign_actor_to_map(waiting_map, actor, entities, actions);
                    proof {
                        assert(routed_somewhere(
                            g_pre,
                            *self,
                            actions@.last(),
                            waiting_map,
                            a_g,
                            es_g,
                        ));
                        assert(routed_again(
                            taken0[k],
                            old(actions)@.len() as int,
                            actions@,
                            self.spec_pending(),
                        )) by {
                            assert(g_pre.spec_has_map(waiting_map));
                            if g_pre.spec_maps()[g_pre.spec_map_index(waiting_map)].2@.len()
                                > 0 {
                                assert(actions@[actions@.len() - 1] == actions@.last());
                                assert(actions@.last() == (GameAction::SendToInstance {
                                    instance: g_pre.spec_maps()[g_pre.spec_map_index(
                                        waiting_map,
                                    )].2@[0],
                                    command: Command::NewClient(a_g, es_g),
                                }));
                            } else {
                                assert(self.spec_pending() == pending_pre.push(
                                    (waiting_map, a_g, es_g),
                                ));
                                assert(self.spec_pending().last() == (waiting_map, a_g, es_g));
                                assert(self.spec_pending().contains(
                                    self.spec_pending()[self.spec_pending().len() - 1],
                                ));
                            }
                        }
                        assert forall|j: int| 0 <= j < k + 1 implies routed_again(
                            #[trigger] taken0[j],
                            old(actions)@.len() as int,
                            actions@,
                            self.spec_pending(),
                        ) by {
                            if j < k {
                                lemma_routed_again_extend(
                                    taken0[j],
                                    old(actions)@.len() as int,
                                    actions_pre,
                                    actions@,
                                    pending_pre,
                                    self.spec_pending(),
                                );
                            }
                        }
                        k = k + 1;
                    }
                }
                proof {
                    broadcast use vstd::prelude::Seq::lemma_filter_contains;

                    assert(k == taken0.len());
                    assert forall|q: int|
                        0 <= q < old(self).spec_pending().len() && (#[trigger] old(
                    self).spec_pending()[q]).0 == map implies routed_again(
                        old(self).spec_pending()[q],
                        old(actions)@.len() as int,
                        actions@,
                        self.spec_pending(),
                    ) by {
                        let entry = old(self).spec_pending()[q];
                        assert(taken0.contains(entry));
                        let j = choose|j: int| 0 <= j < taken0.len() && taken0[j] == entry;
                        assert(routed_again(
                            taken0[j],
                            old(actions)@.len() as int,
                            actions@,
                            self.spec_pending(),
                        ));
                    }
                }
            },
        }
    }

    /// Removes and returns the arrivals waiting for this map, in order;
    /// the others stay, in order.
    #[verifier::loop_isolation(false)]
    fn take_pending_for(&mut self, map: u128) -> (r: Vec<(u128, NetworkActor, Vec<Entity>)>)
        ensures
            *final(self) == (Game { pending: final(self).pending, ..*old(self) }),
            r@ == old(self).spec_pending().filter(pending_for(map)),
            final(self).spec_pending() == old(self).spec_pending().filter(pending_not_for(map)),
    {
        let ghost keep = pending_for(map);
        let ghost drop_pred = pending_not_for(map);
        let mut taken: Vec<(u128, NetworkActor, Vec<Entity>)> = Vec::new();
        let mut rest: Vec<(u128, NetworkActor, Vec<Entity>)> = Vec::new();
        let mut all: Vec<(u128, NetworkActor, Vec<Entity>)> = Vec::new();
        core::mem::swap(&mut all, &mut self.pending);
        let ghost all0 = all@;
        let ghost mut p: int = 0int;
        proof {
            assert(all0.take(0) =~= Seq::<(u128, NetworkActor, Vec<Entity>)>::empty());
            reveal_with_fuel(Seq::filter, 1);
        }
        while all.len() > 0
            invariant
                (Game { pending: old(self).pending, ..*self }) == *old(self),
                0 <= p <= all0.len(),
                all@ == all0.skip(p),
                taken@ == all0.take(p).filter(keep),
                rest@ == all0.take(p).filter(drop_pred),
            decreases all.len(),
        {
            proof {
                assert(all0.take(p + 1) =~= all0.take(p).push(all0[p]));
                crate::update::lemma_filter_push(all0.take(p), keep, all0[p]);
                crate::update::lemma_filter_push(all0.take(p), drop_pred, all0[p]);
                assert(all0.skip(p)[0] == all0[p]);
                assert(all0.skip(p).drop_first() =~= all0.skip(p + 1));
            }
            let entry = all.remove(0);
            if entry.0 == map {
                taken.push(entry);
            } else {
                rest.push(entry);
            }
            proof {
                p = p + 1;
            }
        }
        proof {
            assert(all0.take(all0.len() as int) =~= all0);
        }
        self.pending = rest;
        taken
    }

    /// A worker for a new instance of this map is running: record it among
    /// the instances and on its map, and send every arrival that waited
    /// for the map to it.
    pub fn on_instance_spawned(&mut self, map: u128, instance: u64, actions: &mut Vec<GameAction>)
        requires
            old(self).wf(),
        ensures
            final(self).wf(),
            final(self).spec_shutdown() == old(self).spec_shutdown(),
            final(self).spec_instances() == old(self).spec_instances().push(instance),
            final(self).spec_tokens() == old(self).spec_tokens(),
            final(self).spec_sessions() == old(self).spec_sessions(),
            final(self).spec_pending() == old(self).spec_pending().filter(pending_not_for(map)),
            forall|t: int| 0 <= t < old(actions)@.len() ==> final(actions)@[t] == old(actions)@[t],
            final(actions)@.len() == old(actions)@.len() + old(self).spec_pending().filter(
                pending_for(map),
            ).len(),
            forall|k: int|
                0 <= k < old(self).spec_pending().filter(pending_for(map)).len()
                    ==> final(actions)@[old(actions)@.len() + k] == (GameAction::SendToInstance {
                    instance,
                    command: Command::NewClient(
                        #[trigger] old(self).spec_pending().filter(pending_for(map))[k].1,
                        old(self).spec_pending().filter(pending_for(map))[k].2,
                    ),
                }),
    {
        self.instances.push(instance);
        match self.map_index(map) {
            Some(i) => {
                let slot = &mut self.maps[i];
                slot.2.push(instance);
            },
            None => {},
        }
        let mut waiting = self.take_pending_for(map);
        let ghost taken0 = waiting@;
        let ghost actions0 = actions@;
        let ghost mut k: int = 0int;
        proof {
            assert(waiting@ =~= taken0.skip(0));
        }
        while waiting.len() > 0
            invariant
                self.wf(),
                self.spec_shutdown() == old(self).spec_shutdown(),
                self.spec_instances() == old(self).spec_instances().push(instance),
                self.spec_tokens() == old(self).spec_tokens(),
                self.spec_sessions() == old(self).spec_sessions(),
                self.spec_pending() == old(self).spec_pending().filter(pending_not_for(map)),
                taken0 == old(self).spec_pending().filter(pending_for(map)),
                actions0 == old(actions)@,
                0 <= k <= taken0.len(),
                waiting@ == taken0.skip(k),
                actions@.len() == actions0.len() + k,
                forall|t: int| 0 <= t < actions0.len() ==> actions@[t] == actions0[t],
                forall|j: int|
                    0 <= j < k ==> actions@[actions0.len() + j] == (GameAction::SendToInstance {
                        instance,
                        command: Command::NewClient(#[trigger] taken0[j].1, taken0[j].2),
                    }),
            decreases waiting.len(),
        {
            let ghost w_pre = waiting@;
            let (_, actor, entities) = waiting.remove(0);
            proof {
                assert(waiting@ =~= w_pre.drop_first());
                assert(w_pre[0] == taken0[k]);
                assert(taken0.skip(k).drop_first() =~= taken0.skip(k + 1));
            }
            actions.push(
                GameAction::SendToInstance {
                    instance,
                    command: Command::NewClient(actor, entities),
                },
            );
            proof {
                k = k + 1;
            }
        }
    }

    /// Begins the shutdown: every instance is told to stop; the coordinator
    /// exits once the last one acknowledges.
    pub fn start_shutdown(&mut self, actions: &mut Vec<GameAction>)
        requires
            old(self).wf(),
        ensures
            final(self).wf(),
            final(self).spec_shutdown(),
            final(self).spec_instances() == old(self).spec_instances(),
            final(actions)@.len() == old(actions)@.len() + old(self).spec_instances().len(),
            forall|t: int| 0 <= t < old(actions)@.len() ==> final(actions)@[t] == old(actions)@[t],
            forall|k: int|
                0 <= k < old(self).spec_instances().len() ==> final(actions)@[old(actions)@.len()
                    + k] == (GameAction::SendToInstance {
                    instance: old(self).spec_instances()[k],
                    command: Command::Shutdown,
                }),
    {
        self.shutdown = true;
        let mut i: usize = 0;
        while i < self.instances.len()
            invariant
                self.wf(),
                self.spec_shutdown(),
                self.spec_instances() == old(self).spec_instances(),
                i <= self.instances@.len(),
                actions@.len() == old(actions)@.len() + i,
                forall|t: int| 0 <= t < old(actions)@.len() ==> actions@[t] == old(actions)@[t],
                forall|k: int|
                    0 <= k < i ==> actions@[old(actions)@.len() + k]
                        == (GameAction::SendToInstance {
                        instance: old(self).spec_instances()[k],
                        command: Command::Shutdown,
                    }),
            decreases self.instances.len() - i,
        {
            let instance = self.instances[i];
            actions.push(GameAction::SendToInstance { instance, command: Command::Shutdown });
            i = i + 1;
        }
    }

    /// An entity coming back from an instance: a player entity is persisted
    /// and its session forgotten; a monster is dropped.
    pub fn entity_leaving(&mut self, entity: Entity, actions: &mut Vec<GameAction>)
        requires
            old(self).wf(),
        ensures
            final(self).wf(),
            final(self).spec_shutdown() == old(self).spec_shutdown(),
            final(self).spec_instances() == old(self).spec_instances(),
            final(self).spec_maps() == old(self).spec_maps(),
            final(self).spec_tokens() == old(self).spec_tokens(),
            final(self).spec_pending() == old(self).spec_pending(),
            match spec_into_player(entity) {
                Some(record) => final(actions)@ == old(actions)@.push(
                    GameAction::PersistPlayer(record),
                ) && final(self).spec_sessions() == remove_first_session(
                    old(self).spec_sessions(),
                    record.id,
                ),
                None => final(actions)@ == old(actions)@ && *final(self) == *old(self),
            },
    {
        let player = entity.into_player();
        match player {
            Some(record) => {
                let id = record.get_id();
                self.forget_player(id);
                actions.push(GameAction::PersistPlayer(record));
            },
            None => {},
        }
    }

    fn forget_player(&mut self, id: u128)
        ensures
            *final(self) == (Game {
                players: final(self).players,
                players_ref: final(self).players_ref,
                ..*old(self)
            }),
            final(self).spec_sessions() == remove_first_session(old(self).spec_sessions(), id),
    {
        match self.session_index(id) {
            Some(i) => {
                proof {
                    assert(self.spec_sessions().contains(self.spec_sessions()[i as int]));
                    assert(spec_first_at(self.spec_sessions(), id) == i as int) by {
                        let w = spec_first_at(self.spec_sessions(), id);
                        assert(0 <= w < self.spec_sessions().len() && self.spec_sessions()[w]
                            == id && forall|j: int|
                            #![trigger self.spec_sessions()[j]]
                            0 <= j < w ==> self.spec_sessions()[j] != id);
                        if w < (i as int) {
                            assert(self.spec_sessions()[w] != id);
                        }
                        if (i as int) < w {
                            assert(self.spec_sessions()[i as int] != id);
                        }
                    }
                }
                let _ = self.players_ref.remove(i);
            },
            None => {
                proof {
                    if self.spec_sessions().contains(id) {
                        let w = choose|w: int|
                            0 <= w < self.spec_sessions().len() && self.spec_sessions()[w] == id;
                        assert(false);
                    }
                }
            },
        }
        let mut i: usize = 0;
        let mut found: Option<usize> = None;
        while i < self.players.len()
            invariant
                (Game { players: old(self).players, players_ref: old(self).players_ref, ..*self })
                    == *old(self),
                i <= self.players.len(),
                found matches Some(f) ==> f < self.players@.len(),
            decreases self.players.len() - i,
        {
            if self.players[i].0 == id && found.is_none() {
                found = Some(i);
            }
            i = i + 1;
        }
        match found {
            Some(f) => {
                let _ = self.players.remove(f);
            },
            None => {},
        }
    }

    /// An actor coming back with its entities: each entity leaves in turn,
    /// every player among them persisted.
    pub fn actor_leaving(&mut self, _actor: NetworkActor, entities: Vec<Entity>, actions: &mut
        Vec<GameAction>)
        requires
            old(self).wf(),
        ensures
            final(self).wf(),
            final(self).spec_shutdown() == old(self).spec_shutdown(),
            final(self).spec_instances() == old(self).spec_instances(),
            final(self).spec_maps() == old(self).spec_maps(),
            final(self).spec_tokens() == old(self).spec_tokens(),
            final(self).spec_pending() == old(self).spec_pending(),
            final(actions)@ == old(actions)@ + persist_actions(entities@),
    {
        let ghost es0 = entities@;
        let mut entities = entities;
        proof {
            assert(es0.skip(0) =~= es0);
        }
        while entities.len() > 0
            invariant
                self.wf(),
                self.spec_shutdown() == old(self).spec_shutdown(),
                self.spec_instances() == old(self).spec_instances(),
                self.spec_maps() == old(self).spec_maps(),
                self.spec_tokens() == old(self).spec_tokens(),
                self.spec_pending() == old(self).spec_pending(),
                actions@ + persist_actions(entities@) == old(actions)@ + persist_actions(es0),
            decreases entities.len(),
        {
            let ghost es_pre = entities@;
            let entity = entities.remove(0);
            let ghost e_g = entity;
            proof {
                assert(entities@ =~= es_pre.drop_first());
                assert(es_pre[0] == e_g);
            }
            self.entity_leaving(entity, actions);
            proof {
                assert(actions@ + persist_actions(entities@) =~= old(actions)@ + persist_actions(
                    es0,
                ));
            }
        }
        proof {
            assert(persist_actions(Seq::<Entity>::empty()) =~= Seq::<GameAction>::empty());
            assert(actions@ + Seq::<GameAction>::empty() =~= actions@);
        }
    }

    fn instance_index(&self, id: u64) -> (r: Option<usize>)
        ensures
            match r {
                Some(i) => i < self.spec_instances().len() && self.spec_instances()[i as int]
                    == id && forall|j: int| 0 <= j < i ==> self.spec_instances()[j] != id,
                None => !self.spec_instances().contains(id),
            },
    {
        let mut i: usize = 0;
        while i < self.instances.len()
            invariant
                i <= self.instances.len(),
                forall|j: int| 0 <= j < i ==> self.spec_instances()[j] != id,
            decreases self.instances.len() - i,
        {
            if self.instances[i] == id {
                return Some(i);
            }
            i = i + 1;
        }
        proof {
            assert(!self.spec_instances().contains(id));
        }
        None
    }

    /// Serves one request: an arriving client is recorded and its record
    /// fetched, a returned actor's player entities are persisted, a
    /// shutdown acknowledgement retires the instance and persists what it
    /// drained, a roster refreshes the player listing.  Returns true iff
    /// the coordinator's loop should exit: the shutdown was started and the
    /// last instance acknowledged.
    pub fn apply(&mut self, request: Request, actions: &mut Vec<GameAction>) -> (exit: bool)
        requires
            old(self).wf(),
        ensures
            final(self).wf(),
            final(self).spec_shutdown() == old(self).spec_shutdown(),
            exit ==> final(self).spec_shutdown() && final(self).spec_instances().len() == 0,
            !(request is InstanceShuttingDown) ==> !exit && final(self).spec_instances() == old(self).spec_instances(),
            forall|t: int| 0 <= t < old(actions)@.len() ==> final(actions)@[t] == old(actions)@[t],
            request matches Request::NewClient(client) ==> final(self).spec_pending() == old(
                self).spec_pending() && (!old(self).spec_shutdown() && !old(
                self).spec_sessions().contains(client.uuid) ==> final(self).spec_sessions()
                == old(self).spec_sessions().push(client.uuid) && final(actions)@ == old(
                actions)@.push(GameAction::FetchPlayer { player: client.uuid })) && (!old(
                self).spec_shutdown() && old(self).spec_sessions().contains(client.uuid)
                ==> final(actions)@ == old(actions)@.push(
                GameAction::Kick { player: client.uuid },
            )) && (old(self).spec_shutdown() ==> final(actions)@ == old(actions)@),
            request matches Request::UnregisteredActor { actor, entities } ==> final(actions)@
                == old(actions)@ + persist_actions(entities@) && final(self).spec_pending()
                == old(self).spec_pending() && final(self).spec_maps() == old(self).spec_maps()
                && final(self).spec_tokens() == old(self).spec_tokens(),
            request matches Request::InstanceShuttingDown(st) ==> final(self).spec_instances()
                == remove_first_instance(old(self).spec_instances(), st.id) && final(actions)@
                == old(actions)@ + persist_pairs(st.external_actors@) && final(
                self).spec_tokens() == old(self).spec_tokens() && (exit == (final(
                self).spec_shutdown() && final(self).spec_instances().len() == 0)),
            request matches Request::PlayerUpdate(ps) ==> final(actions)@ == old(actions)@
                && final(self).spec_sessions() == old(self).spec_sessions() && final(
                self).spec_pending() == old(self).spec_pending() && final(self).spec_maps()
                == old(self).spec_maps() && final(self).spec_tokens() == old(self).spec_tokens(),
    {
        match request {
            Request::NewClient(client) => {
                self.new_client(client, actions);
                false
            },
            Request::UnregisteredActor { actor, entities } => {
                self.actor_leaving(actor, entities, actions);
                false
            },
            Request::InstanceShuttingDown(state) => {
                let ShuttingDownState { id, was_saved: _, external_actors } = state;
                match self.instance_index(id) {
                    Some(i) => {
                        proof {
                            assert(self.spec_instances().contains(
                                self.spec_instances()[i as int],
                            ));
                            assert(spec_first_instance_at(self.spec_instances(), id)
                                == i as int) by {
                                let w = spec_first_instance_at(self.spec_instances(), id);
                                assert(0 <= w < self.spec_instances().len()
                                    && self.spec_instances()[w] == id && forall|j: int|
                                    #![trigger self.spec_instances()[j]]
                                    0 <= j < w ==> self.spec_instances()[j] != id);
                                if w < (i as int) {
                                    assert(self.spec_instances()[w] != id);
                                }
                                if (i as int) < w {
                                    assert(self.spec_instances()[i as int] != id);
                                }
                            }
                        }
                        let _ = self.instances.remove(i);
                        self.remove_instance_from_maps(id);
                    },
                    None => {},
                }
                let ghost pairs0 = external_actors@;
                let ghost actions0 = actions@;
                let mut drained = external_actors;
                proof {
                    assert(drained@ =~= pairs0.skip(0));
                }
                while drained.len() > 0
                    invariant
                        self.wf(),
                        self.spec_shutdown() == old(self).spec_shutdown(),
                        self.spec_instances() == remove_first_instance(
                            old(self).spec_instances(),
                            id,
                        ),
                        self.spec_tokens() == old(self).spec_tokens(),
                        actions@.len() >= actions0.len(),
                        actions0.len() >= old(actions)@.len(),
                        forall|t: int| 0 <= t < actions0.len() ==> actions@[t] == actions0[t],
                        actions@ + persist_pairs(drained@) == actions0 + persist_pairs(pairs0),
                    decreases drained.len(),
                {
                    let ghost d_pre = drained@;
                    let ghost actions_pre = actions@;
                    let (actor, entities) = drained.remove(0);
                    proof {
                        assert(drained@ =~= d_pre.drop_first());
                        assert(d_pre[0].1@ == entities@);
                    }
                    self.actor_leaving(actor, entities, actions);
                    proof {
                        assert forall|t: int| 0 <= t < actions0.len() implies actions@[t]
                            == actions0[t] by {
                            assert(actions@[t] == actions_pre[t]);
                        }
                        assert(actions@ + persist_pairs(drained@) =~= actions0 + persist_pairs(
                            pairs0,
                        ));
                    }
                }
                proof {
                    assert(persist_pairs(Seq::<(NetworkActor, Vec<Entity>)>::empty())
                        =~= Seq::<GameAction>::empty());
                    assert(actions@ + Seq::<GameAction>::empty() =~= actions@);
                }
                self.shutdown && self.instances.len() == 0
            },
            Request::PlayerUpdate(players) => {
                let mut players = players;
                while players.len() > 0
                    invariant
                        self.wf(),
                        self.spec_shutdown() == old(self).spec_shutdown(),
                        self.spec_instances() == old(self).spec_instances(),
                        self.spec_sessions() == old(self).spec_sessions(),
                        self.spec_pending() == old(self).spec_pending(),
                        self.spec_maps() == old(self).spec_maps(),
                        self.spec_tokens() == old(self).spec_tokens(),
                    decreases players.len(),
                {
                    let record = players.remove(0);
                    match &record.entity_type {
                        crate::data::EntityDataType::Player(p) => {
                            let uuid = p.uuid;
                            self.record_player(uuid, record);
                        },
                        crate::data::EntityDataType::Monster(_) => {},
                    }
                }
                false
            },
        }
    }

    fn remove_instance_from_maps(&mut self, id: u64)
        ensures
            *final(self) == (Game { maps: final(self).maps, ..*old(self) }),
            final(self).spec_maps().len() == old(self).spec_maps().len(),
            forall|k: int|
                0 <= k < old(self).spec_maps().len() ==> (#[trigger] final(self).spec_maps()[
                k]).0 == old(self).spec_maps()[k].0 && final(self).spec_maps()[k].1 == old(
                self).spec_maps()[k].1,
    {
        let mut m: usize = 0;
        while m < self.maps.len()
            invariant
                (Game { maps: old(self).maps, ..*self }) == *old(self),
                m <= self.maps.len(),
                self.spec_maps().len() == old(self).spec_maps().len(),
                forall|k: int|
                    0 <= k < old(self).spec_maps().len() ==> (#[trigger] self.spec_maps()[k]).0
                        == old(self).spec_maps()[k].0 && self.spec_maps()[k].1 == old(
                    self).spec_maps()[k].1,
            decreases self.maps.len() - m,
        {
            let mut k: usize = 0;
            let mut found: Option<usize> = None;
            let entry = &self.maps[m];
            while k < entry.2.len()
                invariant
                    k <= entry.2.len(),
                    found matches Some(f) ==> f < entry.2@.len(),
                decreases entry.2.len() - k,
            {
                if entry.2[k] == id && found.is_none() {
                    found = Some(k);
                }
                k = k + 1;
            }
            match found {
                Some(f) => {
                    let ghost maps_pre = self.spec_maps();
                    let slot = &mut self.maps[m];
                    let _ = slot.2.remove(f);
                    proof {
                        assert(self.spec_maps() =~= maps_pre.update(
                            m as int,
                            self.spec_maps()[m as int],
                        ));
                        assert(self.spec_maps()[m as int].0 == maps_pre[m as int].0);
                        assert(self.spec_maps()[m as int].1 == maps_pre[m as int].1);
                    }
                },
                None => {},
            }
            m = m + 1;
        }
    }

    fn record_player(&mut self, uuid: u128, record: EntityManagement)
        ensures
            *final(self) == (Game { players: final(self).players, ..*old(self) }),
    {
        let mut i: usize = 0;
        let mut found: Option<usize> = None;
        while i < self.players.len()
            invariant
                (Game { players: old(self).players, ..*self }) == *old(self),
                i <= self.players.len(),
                found matches Some(f) ==> f < self.players@.len(),
            decreases self.players.len() - i,
        {
            if self.players[i].0 == uuid && found.is_none() {
                found = Some(i);
            }
            i = i + 1;
        }
        match found {
            Some(f) => {
                let slot = &mut self.players[f];
                *slot = (uuid, record);
            },
            None => {
                self.players.push((uuid, record));
            },
        }
    }

    /// The loaded maps, for the management listing.
    pub fn get_active_maps(&self) -> (r: Vec<GetMaps>)
        ensures
            r@.len() == self.spec_maps().len(),
            forall|i: int| 0 <= i < r@.len() ==> (#[trigger] r@[i]).uuid == self.spec_maps()[i].0,
    {
        let mut listing: Vec<GetMaps> = Vec::new();
        let mut i: usize = 0;
        while i < self.maps.len()
            invariant
                i <= self.maps.len(),
                listing@.len() == i,
                forall|t: int| 0 <= t < i ==> (#[trigger] listing@[t]).uuid == self.maps@[t].0,
            decreases self.maps.len() - i,
        {
            let entry = &self.maps[i];
            listing.push(GetMaps { uuid: entry.0, name: entry.1.get_name().clone() });
            i = i + 1;
        }
        listing
    }
}

} // verus!
