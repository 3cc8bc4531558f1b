//! The simulated unit: position, orientation, hitboxes, stats, health and
//! the attack state machine, together with order application.

use vstd::prelude::*;
use crate::data::{EntityDataType, EntityManagement, MonsterStruct, Player, PlayerStruct,
    Position, PositionInstance, Stats};
use crate::geometry::{Direction, HITBOX_LIMIT_NANO, POS_LIMIT_NANO, RectangleHitbox,
    SPEED_LIMIT_MILLI, Vec2};
use crate::messages::{EntityState, EntityUpdate, Notification, NotificationView, Order};
use crate::rng::random_skin;

verus! {

/// Default walking speed of a player, milli-units per second.
pub const DEFAULT_SPEED_MILLI: u32 = 10_000;

/// Default walking speed of a monster, milli-units per second.
pub const DEFAULT_AI_SPEED_MILLI: u32 = 5_000;

/// Default attack cadence, milli-attacks per second.
pub const DEFAULT_ATTACK_SPEED_MILLI: u32 = 2_000;

/// A full reload, in nano-reloads: reloading counts down from here to zero.
pub const RELOAD_FULL_NANO: u32 = 1_000_000_000;

/// Bound on an attack cadence, milli-attacks per second.
pub const ATTACK_SPEED_LIMIT_MILLI: u32 = 1_000_000;

/// Why an order was rejected.
#[derive(Clone, Copy, Debug, PartialEq, Eq, Structural)]
pub enum Error {
    AlreadyAttacking,
}

/// The attack state machine: idle, striking this tick, or reloading with the
/// remaining fraction of the reload in nano-reloads.
#[derive(Clone, Copy, Debug, PartialEq, Eq, Structural)]
pub enum AttackState {
    Idle,
    Attacking,
    Reloading(u32),
}

/// The persistent identity a player entity carries.
#[derive(Clone, Debug)]
pub struct PlayerData {
    pub name: String,
    pub id: u128,
    pub map: u128,
    pub experience: u64,
    pub gold: u64,
    pub guild: String,
}

impl PlayerData {
    pub fn get_id(&self) -> (r: u128)
        ensures
            r == self.id,
    {
        self.id
    }
}

/// The class a monster entity belongs to.
#[derive(Clone, Debug)]
pub struct MonsterData {
    pub class: u128,
}

/// What kind of unit an entity is.
#[derive(Clone, Debug)]
pub enum EntityType {
    Player(PlayerData),
    Monster(MonsterData),
}

/// Stats derived each tick from the base stats and the entity's kind.
#[derive(Clone, Copy, Debug, PartialEq, Eq, Structural)]
pub struct CurrentStats {
    pub level: u64,
    pub strength: u64,
    pub dexterity: u64,
    pub constitution: u64,
    pub intelligence: u64,
    pub precision: u64,
    pub wisdom: u64,
    /// Milli-units per second.
    pub speed: u32,
    /// Milli-attacks per second.
    pub attack_speed: u32,
}

impl Default for CurrentStats {
    fn default() -> (r: CurrentStats)
        ensures
            r == (CurrentStats {
                level: 0,
                strength: 0,
                dexterity: 0,
                constitution: 0,
                intelligence: 0,
                precision: 0,
                wisdom: 0,
                speed: 0,
                attack_speed: 0,
            }),
    {
        CurrentStats {
            level: 0,
            strength: 0,
            dexterity: 0,
            constitution: 0,
            intelligence: 0,
            precision: 0,
            wisdom: 0,
            speed: 0,
            attack_speed: 0,
        }
    }
}

/// The simulated unit the engine advances each tick.
pub struct Entity {
    pub id: u64,
    /// Back-reference to the controlling actor, or `None`.
    pub actor: Option<u64>,
    pub e_type: EntityType,
    /// Nano-units.
    pub position: Vec2,
    /// Milli-units per second; what the last movement resolution applied.
    pub speed: Vec2,
    pub orientation: Direction,
    pub skin: u64,
    pub pv: u64,
    pub hitbox: RectangleHitbox,
    pub attack_box: RectangleHitbox,
    pub attack_offset_x: Vec2,
    pub attack_offset_y: Vec2,
    pub base_stats: Stats,
    pub stats: CurrentStats,
    pub walking: bool,
    pub attacking: AttackState,
}

impl Entity {
    /// Well-formedness: bounded geometry and bounded derived rates, so that
    /// the tick arithmetic cannot overflow.
    pub open spec fn wf(self) -> bool {
        &&& self.position.bounded(POS_LIMIT_NANO as int)
        &&& self.speed.bounded(SPEED_LIMIT_MILLI as int)
        &&& self.hitbox.wf()
        &&& self.attack_box.wf()
        &&& self.attack_offset_x.bounded(HITBOX_LIMIT_NANO as int)
        &&& self.attack_offset_y.bounded(HITBOX_LIMIT_NANO as int)
        &&& self.stats.speed <= SPEED_LIMIT_MILLI
        &&& self.stats.attack_speed <= ATTACK_SPEED_LIMIT_MILLI
        &&& match self.attacking {
            AttackState::Reloading(r) => r <= RELOAD_FULL_NANO,
            _ => true,
        }
    }

    /// What `recompute_current_stats` derives from the base stats: copies of
    /// the base attributes, the kind's nominal speed, the default cadence.
    pub open spec fn spec_current_stats(self) -> CurrentStats {
        CurrentStats {
            level: self.stats.level,
            strength: self.base_stats.strength,
            dexterity: self.base_stats.dexterity,
            constitution: self.base_stats.constitution,
            intelligence: self.base_stats.intelligence,
            precision: self.base_stats.precision,
            wisdom: self.base_stats.wisdom,
            speed: self.spec_nominal_speed(),
            attack_speed: DEFAULT_ATTACK_SPEED_MILLI,
        }
    }

    pub open spec fn spec_nominal_speed(self) -> u32 {
        match self.e_type {
            EntityType::Player(_) => DEFAULT_SPEED_MILLI,
            EntityType::Monster(_) => DEFAULT_AI_SPEED_MILLI,
        }
    }

    /// Decides well-formedness at run time, for values built outside the
    /// library's own constructors.
    pub fn is_wf(&self) -> (r: bool)
        ensures
            r == self.wf(),
    {
        let reload_ok = match self.attacking {
            AttackState::Reloading(r) => r <= RELOAD_FULL_NANO,
            _ => true,
        };
        reload_ok && self.position.x >= -POS_LIMIT_NANO && self.position.x <= POS_LIMIT_NANO
            && self.position.y >= -POS_LIMIT_NANO && self.position.y <= POS_LIMIT_NANO
            && self.speed.x >= -(SPEED_LIMIT_MILLI as i64) && self.speed.x <= SPEED_LIMIT_MILLI
            as i64 && self.speed.y >= -(SPEED_LIMIT_MILLI as i64) && self.speed.y
            <= SPEED_LIMIT_MILLI as i64 && self.hitbox.half_width >= 0 && self.hitbox.half_width
            <= HITBOX_LIMIT_NANO && self.hitbox.half_height >= 0 && self.hitbox.half_height
            <= HITBOX_LIMIT_NANO && self.attack_box.half_width >= 0 && self.attack_box.half_width
            <= HITBOX_LIMIT_NANO && self.attack_box.half_height >= 0
            && self.attack_box.half_height <= HITBOX_LIMIT_NANO && self.attack_offset_x.x
            >= -HITBOX_LIMIT_NANO && self.attack_offset_x.x <= HITBOX_LIMIT_NANO
            && self.attack_offset_x.y >= -HITBOX_LIMIT_NANO && self.attack_offset_x.y
            <= HITBOX_LIMIT_NANO && self.attack_offset_y.x >= -HITBOX_LIMIT_NANO
            && self.attack_offset_y.x <= HITBOX_LIMIT_NANO && self.attack_offset_y.y
            >= -HITBOX_LIMIT_NANO && self.attack_offset_y.y <= HITBOX_LIMIT_NANO
            && self.stats.speed <= SPEED_LIMIT_MILLI && self.stats.attack_speed
            <= ATTACK_SPEED_LIMIT_MILLI
    }

    pub fn new(id: u64, e_type: EntityType, position: Vec2, orientation: Direction, skin: u64,
        base_stats: Stats, pv: u64) -> (r: Entity)
        requires
            position.bounded(POS_LIMIT_NANO as int),
        ensures
            r.wf(),
            r.id == id,
            r.actor == Option::<u64>::None,
            r.e_type == e_type,
            r.position == position,
            r.speed == Vec2::spec_zero(),
            r.orientation == orientation,
            r.skin == skin,
            r.pv == pv,
            r.base_stats == base_stats,
            r.stats == r.spec_current_stats(),
            r.walking == false,
            r.attacking == AttackState::Idle,
            r.hitbox.half_width == 750_000_000 && r.hitbox.half_height == 1_000_000_000,
            r.attack_box.half_width == 500_000_000 && r.attack_box.half_height == 500_000_000,
            r.attack_offset_x == (Vec2 { x: 750_000_000, y: 0 }),
            r.attack_offset_y == (Vec2 { x: 0, y: 1_000_000_000 }),
    {
        let mut e = Entity {
            id,
            actor: None,
            e_type,
            position,
            speed: Vec2::zero(),
            orientation,
            skin,
            pv,
            hitbox: RectangleHitbox::new_default(),
            attack_box: RectangleHitbox::new(500_000_000, 500_000_000),
            attack_offset_x: Vec2 { x: 750_000_000, y: 0 },
            attack_offset_y: Vec2 { x: 0, y: 1_000_000_000 },
            base_stats,
            stats: Default::default(),
            walking: false,
            attacking: AttackState::Idle,
        };
        e.recompute_current_stats();
        e
    }

    pub fn is_player(&self) -> (r: bool)
        ensures
            r == matches!(self.e_type, EntityType::Player(_)),
    {
        match self.e_type {
            EntityType::Player(_) => true,
            EntityType::Monster(_) => false,
        }
    }

    pub fn is_monster(&self) -> (r: bool)
        ensures
            r == matches!(self.e_type, EntityType::Monster(_)),
    {
        match self.e_type {
            EntityType::Monster(_) => true,
            EntityType::Player(_) => false,
        }
    }

    /// Derives the current stats from the base stats and the entity's kind.
    pub fn recompute_current_stats(&mut self)
        ensures
            final(self).stats == old(self).spec_current_stats(),
            *final(self) == (Entity { stats: final(self).stats, ..*old(self) }),
    {
        self.stats.speed = self.get_nominal_speed();
        self.stats.strength = self.base_stats.strength;
        self.stats.dexterity = self.base_stats.dexterity;
        self.stats.constitution = self.base_stats.constitution;
        self.stats.intelligence = self.base_stats.intelligence;
        self.stats.precision = self.base_stats.precision;
        self.stats.wisdom = self.base_stats.wisdom;
        self.stats.attack_speed = DEFAULT_ATTACK_SPEED_MILLI;
    }

    /// Starts or stops walking: a direction turns the entity and starts it
    /// walking, `None` stops it without turning it.
    pub fn walk(&mut self, orientation: Option<Direction>)
        ensures
            match orientation {
                Some(o) => final(self).walking == true && final(self).orientation == o,
                None => final(self).walking == false && final(self).orientation == old(
                    self,
                ).orientation,
            },
            *final(self) == (Entity {
                walking: final(self).walking,
                orientation: final(self).orientation,
                ..*old(self)
            }),
    {
        match orientation {
            Some(o) => {
                self.walking = true;
                self.orientation = o;
            },
            None => {
                self.walking = false;
            },
        }
    }

    /// Applies an order.  Walk always succeeds and yields a Walk
    /// notification; Say yields a Say notification and changes nothing;
    /// Attack succeeds only from the idle state, where it starts an attack
    /// and yields nothing, and is refused while attacking or reloading.
    pub fn apply(&mut self, order: Order) -> (r: Result<Option<Notification>, Error>)
        ensures
            match order {
                Order::Walk(orientation) => {
                    &&& (match orientation {
                        Some(o) => final(self).walking == true && final(self).orientation == o,
                        None => final(self).walking == false && final(self).orientation == old(
                            self,
                        ).orientation,
                    })
                    &&& *final(self) == (Entity {
                        walking: final(self).walking,
                        orientation: final(self).orientation,
                        ..*old(self)
                    })
                    &&& (match r {
                        Ok(Some(n)) => n@ == (NotificationView::Walk {
                            entity: old(self).id,
                            orientation,
                        }),
                        _ => false,
                    })
                },
                Order::Say(message) => {
                    &&& *final(self) == *old(self)
                    &&& (match r {
                        Ok(Some(n)) => n@ == (NotificationView::Say {
                            entity: old(self).id,
                            message: message@,
                        }),
                        _ => false,
                    })
                },
                Order::Attack => {
                    match old(self).attacking {
                        AttackState::Idle => {
                            &&& *final(self) == (Entity {
                                attacking: AttackState::Attacking,
                                ..*old(self)
                            })
                            &&& r == Result::<Option<Notification>, Error>::Ok(
                                Option::<Notification>::None,
                            )
                        },
                        _ => {
                            &&& *final(self) == *old(self)
                            &&& r == Result::<Option<Notification>, Error>::Err(
                                Error::AlreadyAttacking,
                            )
                        },
                    }
                },
            },
    {
        match order {
            Order::Walk(orientation) => {
                self.walk(orientation);
                Ok(Some(Notification::walk(self.id, orientation)))
            },
            Order::Say(message) => Ok(Some(Notification::say(self.id, message))),
            Order::Attack => {
                match self.attacking {
                    AttackState::Idle => {
                        self.attacking = AttackState::Attacking;
                        Ok(None)
                    },
                    AttackState::Attacking => Err(Error::AlreadyAttacking),
                    AttackState::Reloading(_) => Err(Error::AlreadyAttacking),
                }
            },
        }
    }

    /// The map a player entity belongs to; a monster belongs to none.
    pub fn get_map_position(&self) -> (r: Option<u128>)
        ensures
            match self.e_type {
                EntityType::Player(ref p) => r == Some(p.map),
                EntityType::Monster(_) => r == Option::<u128>::None,
            },
    {
        match &self.e_type {
            EntityType::Player(player) => Some(player.map),
            EntityType::Monster(_) => None,
        }
    }

    pub fn get_id(&self) -> (r: u64)
        ensures
            r == self.id,
    {
        self.id
    }

    pub fn get_actor(&self) -> (r: Option<u64>)
        ensures
            r == self.actor,
    {
        self.actor
    }

    pub fn set_actor(&mut self, actor: Option<u64>)
        ensures
            *final(self) == (Entity { actor, ..*old(self) }),
    {
        self.actor = actor;
    }

    pub fn get_position(&self) -> (r: Vec2)
        ensures
            r == self.position,
    {
        self.position
    }

    pub fn get_skin(&self) -> (r: u64)
        ensures
            r == self.skin,
    {
        self.skin
    }

    pub fn get_pv(&self) -> (r: u64)
        ensures
            r == self.pv,
    {
        self.pv
    }

    /// The hardcoded nominal speed of the entity's kind.
    pub fn get_nominal_speed(&self) -> (r: u32)
        ensures
            r == self.spec_nominal_speed(),
    {
        match self.e_type {
            EntityType::Player(_) => DEFAULT_SPEED_MILLI,
            EntityType::Monster(_) => DEFAULT_AI_SPEED_MILLI,
        }
    }

    pub fn get_orientation(&self) -> (r: Direction)
        ensures
            r == self.orientation,
    {
        self.orientation
    }

    pub fn get_type(&self) -> (r: &EntityType)
        ensures
            *r == self.e_type,
    {
        &self.e_type
    }

    /// Wraps a freshly loaded player record in an entity, facing east.
    pub fn from_player(id: u64, player: Player) -> (r: Entity)
        requires
            -POS_LIMIT_NANO <= player.position.x <= POS_LIMIT_NANO,
            -POS_LIMIT_NANO <= player.position.y <= POS_LIMIT_NANO,
        ensures
            r.wf(),
            r.id == id,
            r.e_type matches EntityType::Player(p) && p == (PlayerData {
                name: player.name,
                id: player.id,
                map: player.position.map,
                experience: player.experience,
                gold: player.gold,
                guild: player.guild,
            }),
            r.position == (Vec2 { x: player.position.x, y: player.position.y }),
            r.orientation == Direction::East,
            r.skin == player.skin,
            r.base_stats == player.stats,
            r.pv == player.current_pv,
            r.walking == false,
            r.attacking == AttackState::Idle,
            r.actor == Option::<u64>::None,
    {
        let position = Vec2 { x: player.position.x, y: player.position.y };
        Entity::new(
            id,
            EntityType::Player(
                PlayerData {
                    name: player.name,
                    id: player.id,
                    map: player.position.map,
                    experience: player.experience,
                    gold: player.gold,
                    guild: player.guild,
                },
            ),
            position,
            Direction::East,
            player.skin,
            player.stats,
            player.current_pv,
        )
    }

    /// Turns a player entity back into its persistable record; a monster
    /// entity yields `None`.
    pub fn into_player(self) -> (r: Option<Player>)
        ensures
            r == spec_into_player(self),
            match self.e_type {
                EntityType::Player(ref data) => r matches Some(p) && p == (Player {
                    id: data.id,
                    name: data.name,
                    skin: self.skin,
                    current_pv: self.pv,
                    position: Position { x: self.position.x, y: self.position.y, map: data.map },
                    experience: data.experience,
                    gold: data.gold,
                    guild: data.guild,
                    stats: self.base_stats,
                }),
                EntityType::Monster(_) => r is None,
            },
    {
        let Entity { e_type, position, skin, pv, base_stats, .. } = self;
        match e_type {
            EntityType::Player(data) => {
                let pos = Position { x: position.x, y: position.y, map: data.map };
                Some(
                    Player {
                        id: data.id,
                        name: data.name,
                        skin,
                        current_pv: pv,
                        position: pos,
                        experience: data.experience,
                        gold: data.gold,
                        guild: data.guild,
                        stats: base_stats,
                    },
                )
            },
            EntityType::Monster(_) => None,
        }
    }

    /// The management record for this entity within the given instance.
    pub fn into_management_representation(&self, instance_id: u64, map: u128) -> (r:
        EntityManagement)
        ensures
            matches_management(*self, r, instance_id, map),
    {
        let position = PositionInstance {
            x: self.position.x,
            y: self.position.y,
            map,
            instance: instance_id,
        };
        let entity_type = match &self.e_type {
            EntityType::Player(player) => EntityDataType::Player(
                PlayerStruct {
                    uuid: player.id,
                    name: player.name.clone(),
                    gold: player.gold,
                    guild: player.guild.clone(),
                    experience: player.experience,
                },
            ),
            EntityType::Monster(monster) => EntityDataType::Monster(
                MonsterStruct {
                    monster_class: monster.class,
                    name: String::new(),
                    behaviour_tree: String::new(),
                },
            ),
        };
        EntityManagement {
            id: self.id,
            entity_type,
            skin: self.skin,
            current_pv: self.pv,
            position,
            stats: self.base_stats,
        }
    }

    pub fn to_entity_state(&self) -> (r: EntityState)
        ensures
            r == (EntityState {
                id: self.id,
                position: self.position,
                orientation: self.orientation,
            }),
    {
        EntityState::new(self.id, self.position, self.orientation)
    }

    /// The per-tick snapshot of this entity inside a `GameUpdate`.
    pub fn to_entity_update(&self) -> (r: EntityUpdate)
        ensures
            r == self.spec_entity_update(),
    {
        EntityUpdate { entity_id: self.id, position: self.position, speed: self.speed, pv: self.pv }
    }

    pub open spec fn spec_entity_update(self) -> EntityUpdate {
        EntityUpdate {
            entity_id: self.id,
            position: self.position,
            speed: self.speed,
            pv: self.pv,
        }
    }

    }

/// The persistable record a player entity stands for; a monster entity
/// stands for none.
pub open spec fn spec_into_player(e: Entity) -> Option<Player> {
    match e.e_type {
        EntityType::Player(data) => Some(
            Player {
                id: data.id,
                name: data.name,
                skin: e.skin,
                current_pv: e.pv,
                position: Position { x: e.position.x, y: e.position.y, map: data.map },
                experience: data.experience,
                gold: data.gold,
                guild: data.guild,
                stats: e.base_stats,
            },
        ),
        EntityType::Monster(_) => None,
    }
}

/// Whether a management record faithfully describes an entity as it stands
/// in the given instance on the given map.
pub open spec fn matches_management(e: Entity, r: EntityManagement, instance_id: u64,
    map: u128) -> bool {
    &&& r.id == e.id
    &&& r.skin == e.skin
    &&& r.current_pv == e.pv
    &&& r.position == (PositionInstance { x: e.position.x, y: e.position.y, map, instance: instance_id })
    &&& r.stats == e.base_stats
    &&& match e.e_type {
        EntityType::Player(p) => r.entity_type matches EntityDataType::Player(ps) && ps.uuid
            == p.id && ps.name@ == p.name@ && ps.gold == p.gold && ps.experience == p.experience
            && ps.guild@ == p.guild@,
        EntityType::Monster(m) => r.entity_type matches EntityDataType::Monster(ms)
            && ms.monster_class == m.class,
    }
}

impl Entity {
    /// A canned monster entity with a random skin, facing south, 100 health.
    pub fn fake_ai(id: u64, class: u128, x: i64, y: i64) -> (r: Entity)
        requires
            -POS_LIMIT_NANO <= x <= POS_LIMIT_NANO,
            -POS_LIMIT_NANO <= y <= POS_LIMIT_NANO,
        ensures
            r.wf(),
            r.id == id,
            r.e_type matches EntityType::Monster(m) && m.class == class,
            r.position == (Vec2 { x, y }),
            r.orientation == Direction::South,
            r.pv == 100,
            r.actor == Option::<u64>::None,
            r.base_stats == (Stats {
                level: 1,
                strength: 2,
                dexterity: 3,
                constitution: 4,
                intelligence: 5,
                precision: 6,
                wisdom: 7,
            }),
    {
        let stats = Stats {
            level: 1,
            strength: 2,
            dexterity: 3,
            constitution: 4,
            intelligence: 5,
            precision: 6,
            wisdom: 7,
        };
        let skin = random_skin();
        Entity::new(
            id,
            EntityType::Monster(MonsterData { class }),
            Vec2 { x, y },
            Direction::South,
            skin,
            stats,
            100,
        )
    }
}

} // verus!
