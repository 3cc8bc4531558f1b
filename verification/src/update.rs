//! The simulation update of one tick: movement resolution, attack
//! resolution against the externally supplied combat rules, and the
//! collection of the entities that died this tick.

use vstd::prelude::*;
use vstd::seq_lib::*;
use crate::entity::{AttackState, Entity, RELOAD_FULL_NANO};
use crate::geometry::{Direction, POS_LIMIT_NANO, RectangleHitbox, TICK_LIMIT_US, Vec2,
    spec_boxes_overlap, spec_clamp, clamp_coordinate, direction_unit, spec_direction_unit};
use crate::messages::{Notification, NotificationView};
use crate::store::{EntityStore, contains_id};

verus! {

/// The externally supplied combat rules.  Called with the attacker and the
/// target; yields the damage dealt to the target, or nothing.  The rules are
/// a script outside this library, so nothing is promised of the result: the
/// engine's contracts hold for every outcome.
pub trait CombatRules {
    fn evaluate(&mut self, source: &Entity, target: &Entity) -> Option<u64>;
}

/// A canned rule for tests and fallback: the attacker's current strength,
/// dealt unconditionally.
pub struct StrengthRules;

impl CombatRules for StrengthRules {
    fn evaluate(&mut self, source: &Entity, _target: &Entity) -> Option<u64> {
        Some(source.stats.strength)
    }
}

/// The velocity an entity walks with, in milli-units per second: the unit
/// vector of its orientation scaled by its current speed, or zero when it
/// stands still.
pub open spec fn spec_velocity(e: Entity) -> Vec2 {
    if e.walking {
        let u = spec_direction_unit(e.orientation);
        Vec2 { x: (u.x * e.stats.speed as int) as i64, y: (u.y * e.stats.speed as int) as i64 }
    } else {
        Vec2 { x: 0, y: 0 }
    }
}

/// Where an entity stands after one tick of walking: the position advanced
/// by velocity times duration and clamped into the map area `[0, area]`.
pub open spec fn spec_moved_position(e: Entity, dt: u32, area: Vec2) -> Vec2 {
    let v = spec_velocity(e);
    Vec2 {
        x: spec_clamp(e.position.x + v.x * dt as int, area.x as int) as i64,
        y: spec_clamp(e.position.y + v.y * dt as int, area.y as int) as i64,
    }
}

/// The whole effect of movement resolution on one entity.
pub open spec fn spec_moved(e: Entity, dt: u32, area: Vec2) -> Entity {
    Entity { position: spec_moved_position(e, dt, area), speed: spec_velocity(e), ..e }
}

/// Integrates every entity's position over one tick.  No collisions: the
/// position is clamped to the map area.
pub fn resolve_movements(entities: &mut EntityStore, dt: u32, area: Vec2)
    requires
        old(entities).wf(),
        dt <= TICK_LIMIT_US,
        0 <= area.x <= POS_LIMIT_NANO,
        0 <= area.y <= POS_LIMIT_NANO,
    ensures
        final(entities).wf(),
        final(entities)@.len() == old(entities)@.len(),
        forall|i: int|
            0 <= i < old(entities)@.len() ==> final(entities)@[i] == spec_moved(
                old(entities)@[i],
                dt,
                area,
            ),
{
    let n = entities.len();
    let mut i: usize = 0;
    while i < n
        invariant
            entities.wf(),
            n == entities@.len() == old(entities)@.len(),
            dt <= TICK_LIMIT_US,
            0 <= area.x <= POS_LIMIT_NANO,
            0 <= area.y <= POS_LIMIT_NANO,
            i <= n,
            forall|k: int| 0 <= k < i ==> entities@[k] == spec_moved(old(entities)@[k], dt, area),
            forall|k: int| i <= k < n ==> entities@[k] == old(entities)@[k],
        decreases n - i,
    {
        let ghost prev = entities@;
        let e = entities.at_mut(i);
        let ghost e0 = *e;
        proof {
            assert(e0.wf());
        }
        let velocity = if e.walking {
            let u = direction_unit(e.orientation);
            let s: i64 = e.stats.speed as i64;
            proof {
                assert(-(s as int) <= u.x as int * s as int <= s as int && -(s as int) <= u.y
                    as int * s as int <= s as int) by (nonlinear_arith)
                    requires
                        -1 <= u.x as int <= 1,
                        -1 <= u.y as int <= 1,
                        0 <= s as int,
                ;
            }
            Vec2 { x: u.x * s, y: u.y * s }
        } else {
            Vec2 { x: 0, y: 0 }
        };
        proof {
            assert(velocity == spec_velocity(e0));
            assert(velocity.bounded(crate::geometry::SPEED_LIMIT_MILLI as int));
            assert(-10_000_000_000_000 <= velocity.x as int * dt as int <= 10_000_000_000_000
                && -10_000_000_000_000 <= velocity.y as int * dt as int
                <= 10_000_000_000_000) by (nonlinear_arith)
                requires
                    -1_000_000 <= velocity.x as int <= 1_000_000,
                    -1_000_000 <= velocity.y as int <= 1_000_000,
                    0 <= dt as int <= 10_000_000,
            ;
        }
        let dx: i64 = velocity.x * dt as i64;
        let dy: i64 = velocity.y * dt as i64;
        e.position = Vec2 {
            x: clamp_coordinate(e.position.x + dx, area.x),
            y: clamp_coordinate(e.position.y + dy, area.y),
        };
        e.speed = velocity;
        proof {
            assert(*e == spec_moved(e0, dt, area));
            assert(e.wf());
            assert(entities@ =~= prev.update(i as int, *e));
            assert(forall|a: int, b: int|
                0 <= a < b < entities@.len() ==> entities@[a].id != entities@[b].id);
        }
        i = i + 1;
    }
}

/// One tick's transition of the attack state machine: a strike becomes a
/// full reload, a reload counts down by cadence times duration and falls
/// back to idle when it would go below zero.
pub open spec fn spec_attack_step(e: Entity, dt: u32) -> AttackState {
    match e.attacking {
        AttackState::Idle => AttackState::Idle,
        AttackState::Attacking => AttackState::Reloading(RELOAD_FULL_NANO),
        AttackState::Reloading(r) => {
            let dec = e.stats.attack_speed as int * dt as int;
            if dec > r as int {
                AttackState::Idle
            } else {
                AttackState::Reloading((r as int - dec) as u32)
            }
        },
    }
}

/// The box and position an attacker strikes with: the attack box, rotated
/// for a vertical strike, offset forward from the attacker.
pub open spec fn spec_attack_placement(a: Entity) -> (RectangleHitbox, Vec2) {
    match a.orientation {
        Direction::North => (
            RectangleHitbox {
                half_width: a.attack_box.half_height,
                half_height: a.attack_box.half_width,
            },
            Vec2 {
                x: (a.position.x + a.attack_offset_y.x) as i64,
                y: (a.position.y + a.attack_offset_y.y) as i64,
            },
        ),
        Direction::South => (
            RectangleHitbox {
                half_width: a.attack_box.half_height,
                half_height: a.attack_box.half_width,
            },
            Vec2 {
                x: (a.position.x - a.attack_offset_y.x) as i64,
                y: (a.position.y - a.attack_offset_y.y) as i64,
            },
        ),
        Direction::East => (
            a.attack_box,
            Vec2 {
                x: (a.position.x + a.attack_offset_x.x) as i64,
                y: (a.position.y + a.attack_offset_x.y) as i64,
            },
        ),
        Direction::West => (
            a.attack_box,
            Vec2 {
                x: (a.position.x - a.attack_offset_x.x) as i64,
                y: (a.position.y - a.attack_offset_x.y) as i64,
            },
        ),
    }
}

/// Whether an attacker's strike reaches a target: its directed attack box
/// overlaps the target's hitbox.
pub open spec fn spec_attack_success(attacker: Entity, target: Entity) -> bool {
    let (abox, apos) = spec_attack_placement(attacker);
    spec_boxes_overlap(abox, apos, target.hitbox, target.position)
}

/// Decides whether a strike reaches a target.
pub fn attack_success(attacker: &Entity, target: &Entity) -> (r: bool)
    requires
        attacker.wf(),
        target.wf(),
    ensures
        r == spec_attack_success(*attacker, *target),
{
    let (attack_box, attack_position) = match attacker.orientation {
        Direction::North => (
            attacker.attack_box.rotated(),
            Vec2 {
                x: attacker.position.x + attacker.attack_offset_y.x,
                y: attacker.position.y + attacker.attack_offset_y.y,
            },
        ),
        Direction::South => (
            attacker.attack_box.rotated(),
            Vec2 {
                x: attacker.position.x - attacker.attack_offset_y.x,
                y: attacker.position.y - attacker.attack_offset_y.y,
            },
        ),
        Direction::East => (
            attacker.attack_box,
            Vec2 {
                x: attacker.position.x + attacker.attack_offset_x.x,
                y: attacker.position.y + attacker.attack_offset_x.y,
            },
        ),
        Direction::West => (
            attacker.attack_box,
            Vec2 {
                x: attacker.position.x - attacker.attack_offset_x.x,
                y: attacker.position.y - attacker.attack_offset_x.y,
            },
        ),
    };
    attack_box.collision(attack_position, &target.hitbox, target.position)
}

/// Applies a hit to a live target: emits the Damage notification with the
/// raw amount, and decrements the target's health, clamped at zero.
pub fn apply_damage(target: &mut Entity, source_id: u64, amount: u64, notifications: &mut Vec<
    Notification,
>)
    requires
        old(target).pv > 0,
    ensures
        *final(target) == (Entity {
            pv: if amount >= old(target).pv {
                0
            } else {
                (old(target).pv - amount) as u64
            },
            ..*old(target)
        }),
        final(notifications)@.len() == old(notifications)@.len() + 1,
        final(notifications)@ == old(notifications)@.push(final(notifications)@.last()),
        final(notifications)@.last()@ == (NotificationView::Damage {
            source: source_id,
            victim: old(target).id,
            amount,
        }),
{
    notifications.push(
        Notification::Damage { source: source_id, victim: target.id, amount },
    );
    if amount >= target.pv {
        target.pv = 0;
    } else {
        target.pv = target.pv - amount;
    }
}

/// Some other live entity, striking this tick, reaches tile `i` with its
/// directed attack box: the only licence for `i`'s health to fall.
pub open spec fn struck(s: Seq<Entity>, i: int) -> bool {
    exists|a: int|
        #![trigger s[a]]
        0 <= a < s.len() && a != i && s[a].pv > 0 && s[a].attacking is Attacking
            && spec_attack_success(s[a], s[i])
}

/// Every notification of the old buffer stands unchanged at its place in
/// the new one, and everything appended is a Damage notification.
pub open spec fn damage_extended(old_n: Seq<Notification>, new_n: Seq<Notification>) -> bool {
    &&& new_n.len() >= old_n.len()
    &&& forall|k: int| 0 <= k < old_n.len() ==> new_n[k] == old_n[k]
    &&& forall|k: int|
        old_n.len() <= k < new_n.len() ==> (#[trigger] new_n[k]@) matches NotificationView::Damage {
            ..
        }
}

/// Resolves one attacker's strike against every other live entity it
/// reaches, consulting the combat rules for each.
fn resolve_hit<R: CombatRules>(attacker: &Entity, others: &mut EntityStore, rules: &mut R,
    notifications: &mut Vec<Notification>)
    requires
        attacker.wf(),
        old(others).wf(),
    ensures
        final(others).wf(),
        final(others)@.len() == old(others)@.len(),
        forall|j: int|
            0 <= j < old(others)@.len() ==> final(others)@[j] == (Entity {
                pv: final(others)@[j].pv,
                ..old(others)@[j]
            }) && final(others)@[j].pv <= old(others)@[j].pv,
        forall|j: int|
            0 <= j < old(others)@.len() && final(others)@[j].pv < old(others)@[j].pv ==> old(
                others,
            )@[j].pv > 0 && spec_attack_success(*attacker, old(others)@[j]),
        damage_extended(old(notifications)@, final(notifications)@),
{
    let m = others.len();
    let mut j: usize = 0;
    while j < m
        invariant
            attacker.wf(),
            others.wf(),
            m == others@.len() == old(others)@.len(),
            j <= m,
            forall|k: int|
                0 <= k < m ==> others@[k] == (Entity { pv: others@[k].pv, ..old(others)@[k] })
                    && others@[k].pv <= old(others)@[k].pv,
            forall|k: int|
                0 <= k < m && others@[k].pv < old(others)@[k].pv ==> old(others)@[k].pv > 0
                    && spec_attack_success(*attacker, old(others)@[k]),
            damage_extended(old(notifications)@, notifications@),
        decreases m - j,
    {
        let ghost prev = others@;
        let target_alive = others.at(j).get_pv() > 0;
        let hit = target_alive && attack_success(attacker, others.at(j));
        if hit {
            let damage = rules.evaluate(attacker, others.at(j));
            match damage {
                Some(amount) => {
                    let target = others.at_mut(j);
                    apply_damage(target, attacker.get_id(), amount, notifications);
                    proof {
                        assert(others@ =~= prev.update(j as int, others@[j as int]));
                        assert(forall|a: int, b: int|
                            0 <= a < b < others@.len() ==> others@[a].id != others@[b].id);
                    }
                },
                None => {},
            }
        }
        j = j + 1;
    }
}

/// Resolves attacks for the whole store, in order.  A striking entity
/// transitions to a full reload and hits everything its box reaches; a
/// reloading one counts down.  Dead entities neither act nor are hit.  The
/// health of every entity can only fall, and everything appended to the
/// notifications is a Damage notification.
#[verifier::rlimit(60)]
pub fn resolve_attacks<R: CombatRules>(entities: &mut EntityStore, notifications: &mut Vec<
    Notification,
>, rules: &mut R, dt: u32)
    requires
        old(entities).wf(),
        dt <= TICK_LIMIT_US,
    ensures
        final(entities).wf(),
        final(entities)@.len() == old(entities)@.len(),
        forall|i: int|
            0 <= i < old(entities)@.len() ==> final(entities)@[i] == (Entity {
                pv: final(entities)@[i].pv,
                attacking: final(entities)@[i].attacking,
                ..old(entities)@[i]
            }) && final(entities)@[i].pv <= old(entities)@[i].pv,
        forall|i: int|
            0 <= i < old(entities)@.len() ==> (final(entities)@[i].attacking == spec_attack_step(
                old(entities)@[i],
                dt,
            ) || (final(entities)@[i].attacking == old(entities)@[i].attacking
                && final(entities)@[i].pv == 0)),
        forall|i: int|
            0 <= i < old(entities)@.len() && final(entities)@[i].pv < old(entities)@[i].pv
                ==> old(entities)@[i].pv > 0 && struck(old(entities)@, i),
        damage_extended(old(notifications)@, final(notifications)@),
{
    let n = entities.len();
    let mut i: usize = 0;
    while i < n
        invariant
            entities.wf(),
            n == entities@.len() == old(entities)@.len(),
            dt <= TICK_LIMIT_US,
            i <= n,
            forall|k: int|
                0 <= k < n ==> entities@[k] == (Entity {
                    pv: entities@[k].pv,
                    attacking: entities@[k].attacking,
                    ..old(entities)@[k]
                }) && entities@[k].pv <= old(entities)@[k].pv,
            forall|k: int|
                0 <= k < i ==> (entities@[k].attacking == spec_attack_step(old(entities)@[k], dt)
                    || (entities@[k].attacking == old(entities)@[k].attacking && entities@[k].pv
                    == 0)),
            forall|k: int| i <= k < n ==> entities@[k].attacking == old(entities)@[k].attacking,
            forall|k: int|
                0 <= k < n && entities@[k].pv < old(entities)@[k].pv ==> old(entities)@[k].pv > 0
                    && struck(old(entities)@, k),
            damage_extended(old(notifications)@, notifications@),
        decreases n - i,
    {
        let ghost full = entities@;
        let mut e = entities.split_off_entity(i);
        let ghost e_in = e;
        let ghost others_in = entities@;
        if e.get_pv() > 0 {
            match e.attacking {
                AttackState::Idle => {},
                AttackState::Attacking => {
                    e.attacking = AttackState::Reloading(RELOAD_FULL_NANO);
                    resolve_hit(&e, entities, rules, notifications);
                },
                AttackState::Reloading(r) => {
                    proof {
                        assert(e.stats.attack_speed as int * dt as int <= 1_000_000
                            * 10_000_000) by (nonlinear_arith)
                            requires
                                0 <= e.stats.attack_speed as int <= 1_000_000,
                                0 <= dt as int <= 10_000_000,
                        ;
                    }
                    let dec: u64 = e.stats.attack_speed as u64 * dt as u64;
                    if dec > r as u64 {
                        e.attacking = AttackState::Idle;
                    } else {
                        e.attacking = AttackState::Reloading(r - dec as u32);
                    }
                },
            }
        }
        proof {
            assert(e == (Entity { attacking: e.attacking, ..e_in }));
            assert(e.pv > 0 ==> e.attacking == spec_attack_step(e_in, dt));
            assert(e.pv == 0 ==> e.attacking == e_in.attacking);
            assert(e.wf());
            assert(!contains_id(entities@, e.id));
        }
        let ghost others_out = entities@;
        entities.put_back(i, e);
        proof {
            let cur = entities@;
            let ii = i as int;
            assert(cur == others_out.insert(ii, e));
            others_out.insert_ensures(ii, e);
            full.remove_ensures(ii);
            assert(cur.len() == n);
            assert(cur[ii] == e);
            assert forall|k: int| 0 <= k < n && k != ii implies cur[k] == (Entity {
                pv: cur[k].pv,
                attacking: cur[k].attacking,
                ..full[k]
            }) && cur[k].pv <= full[k].pv && cur[k].attacking == full[k].attacking by {
                if k < ii {
                    assert(cur[k] == others_out[k]);
                    assert(others_in[k] == full[k]);
                } else {
                    assert(cur[k] == others_out[k - 1]);
                    assert(others_in[k - 1] == full[k]);
                }
            }
            assert(forall|a: int, b: int| 0 <= a < b < cur.len() ==> cur[a].id != cur[b].id);
            assert forall|k: int|
                0 <= k < n && cur[k].pv < old(entities)@[k].pv implies old(entities)@[k].pv > 0
                && struck(old(entities)@, k) by {
                if k == ii {
                    assert(cur[k].pv == full[k].pv);
                } else {
                    let oj = if k < ii {
                        k
                    } else {
                        k - 1
                    };
                    assert(cur[k] == others_out[oj]);
                    assert(others_in[oj] == full[k]);
                    if others_out[oj].pv < others_in[oj].pv {
                        assert(others_in[oj].pv > 0);
                        assert(spec_attack_success(e, others_in[oj]));
                        assert(e_in == full[ii]);
                        assert(e.pv > 0 && e_in.attacking is Attacking);
                        assert(old(entities)@[ii].pv >= e_in.pv && e_in.pv >= e.pv);
                        assert(old(entities)@[ii].attacking == e_in.attacking);
                        assert(e.position == old(entities)@[ii].position);
                        assert(e.orientation == old(entities)@[ii].orientation);
                        assert(e.attack_box == old(entities)@[ii].attack_box);
                        assert(e.attack_offset_x == old(entities)@[ii].attack_offset_x);
                        assert(e.attack_offset_y == old(entities)@[ii].attack_offset_y);
                        assert(others_in[oj].hitbox == old(entities)@[k].hitbox);
                        assert(others_in[oj].position == old(entities)@[k].position);
                        assert(spec_attack_success(old(entities)@[ii], old(entities)@[k]));
                        assert(old(entities)@[k].pv >= others_in[oj].pv);
                    }
                }
            }
        }
        i = i + 1;
    }
}

/// Removes every dead entity from the store and announces each death: a
/// Death notification, then an EntityHasQuit notification.  Afterwards no
/// entity of the store has zero health, and every entity either survived at
/// its place or is handed back dead.
#[verifier::rlimit(60)]
#[verifier::loop_isolation(false)]
pub fn collect_deaths(entities: &mut EntityStore, notifications: &mut Vec<Notification>) -> (dead:
    Vec<Entity>)
    requires
        old(entities).wf(),
    ensures
        final(entities).wf(),
        final(entities)@ == old(entities)@.filter(|e: Entity| e.pv != 0),
        dead@ == old(entities)@.filter(|e: Entity| e.pv == 0),
        forall|i: int| 0 <= i < final(entities)@.len() ==> final(entities)@[i].pv != 0,
        forall|k: int| 0 <= k < dead@.len() ==> dead@[k].pv == 0,
        final(notifications)@.len() == old(notifications)@.len() + 2 * dead@.len(),
        forall|k: int| 0 <= k < old(notifications)@.len() ==> final(notifications)@[k] == old(
            notifications,
        )@[k],
        forall|k: int|
            0 <= k < dead@.len() ==> final(notifications)@[old(notifications)@.len() + 2 * k]@
                == (NotificationView::Death { entity: dead@[k].id }) && final(notifications)@[old(
                notifications,
            )@.len() + 2 * k + 1]@ == (NotificationView::EntityHasQuit { entity: dead@[k].id }),
{
    let ghost dead_pred = |e: Entity| e.pv == 0;
    let ghost live_pred = |e: Entity| e.pv != 0;
    let mut dead: Vec<Entity> = Vec::new();
    let mut k: usize = 0;
    let ghost orig = entities@;
    let mut processed: usize = 0;
    proof {
        assert(orig.take(0) =~= Seq::<Entity>::empty());
        reveal_with_fuel(Seq::filter, 1);
    }
    let total = entities.len();
    while processed < total
        invariant
            total == orig.len(),
            entities.wf(),
            processed <= orig.len(),
            entities@.len() + dead@.len() == orig.len(),
            k <= entities@.len(),
            k == orig.take(processed as int).filter(live_pred).len(),
            entities@ =~= orig.take(processed as int).filter(live_pred) + orig.skip(
                processed as int,
            ),
            dead@ =~= orig.take(processed as int).filter(dead_pred),
            notifications@.len() == old(notifications)@.len() + 2 * dead@.len(),
            forall|t: int| 0 <= t < old(notifications)@.len() ==> notifications@[t] == old(
                notifications,
            )@[t],
            forall|t: int|
                0 <= t < dead@.len() ==> notifications@[old(notifications)@.len() + 2 * t]@
                    == (NotificationView::Death { entity: dead@[t].id }) && notifications@[old(
                    notifications,
                )@.len() + 2 * t + 1]@ == (NotificationView::EntityHasQuit {
                    entity: dead@[t].id,
                }),
        decreases orig.len() - processed,
    {
        let ghost p = processed as int;
        let ghost kept = orig.take(p).filter(live_pred);
        proof {
            assert(orig.take(p + 1) =~= orig.take(p).push(orig[p]));
            lemma_filter_push(orig.take(p), live_pred, orig[p]);
            lemma_filter_push(orig.take(p), dead_pred, orig[p]);
            assert(orig.skip(p).len() == orig.len() - p);
            assert(entities@[k as int] == (kept + orig.skip(p))[k as int]);
            assert(entities@[k as int] == orig.skip(p)[0]);
            assert(orig.skip(p)[0] == orig[p]);
            assert(orig.skip(p + 1) =~= orig.skip(p).subrange(1, orig.skip(p).len() as int));
        }
        if entities.at(k).get_pv() == 0 {
            let e = entities.split_off_entity(k);
            proof {
                assert(e == orig[p]);
                assert(!live_pred(orig[p]));
                assert(dead_pred(orig[p]));
                assert(orig.take(p + 1).filter(live_pred) == kept);
                assert(entities@ =~= (kept + orig.skip(p)).remove(k as int));
                assert(entities@ =~= kept + orig.skip(p + 1));
                assert(entities@ =~= orig.take(p + 1).filter(live_pred) + orig.skip(p + 1));
            }
            notifications.push(Notification::Death { entity: e.id });
            notifications.push(Notification::EntityHasQuit { entity: e.id });
            dead.push(e);
            proof {
                assert(orig.take(p + 1).filter(dead_pred) == orig.take(p).filter(dead_pred).push(
                    orig[p],
                ));
                assert(dead@ =~= orig.take(p + 1).filter(dead_pred));
            }
        } else {
            proof {
                assert(entities@[k as int].pv != 0);
                assert(live_pred(orig[p]));
                assert(entities@ =~= orig.take(p + 1).filter(live_pred) + orig.skip(p + 1));
                assert(dead@ =~= orig.take(p + 1).filter(dead_pred));
            }
            k = k + 1;
        }
        processed = processed + 1;
    }
    proof {
        assert(orig.take(orig.len() as int) =~= orig);
        assert(orig.skip(orig.len() as int) =~= Seq::<Entity>::empty());
        assert(entities@ =~= orig.filter(live_pred));
        assert(dead@ =~= orig.filter(dead_pred));
        broadcast use Seq::lemma_filter_pred;
    }
    dead
}

/// Filtering after appending one element keeps the filtered prefix and
/// appends the element iff it satisfies the predicate.
pub proof fn lemma_filter_push<A>(s: Seq<A>, p: spec_fn(A) -> bool, e: A)
    ensures
        s.push(e).filter(p) == if p(e) {
            s.filter(p).push(e)
        } else {
            s.filter(p)
        },
{
    reveal(Seq::filter);
    assert(s.push(e).drop_last() =~= s);
    assert(s.push(e).last() == e);
}

} // verus!
