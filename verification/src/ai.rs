//! Behaviour trees for AI-driven entities: the tree structure, its standard
//! leaves, and the per-tree scratch state (the blackboard).
//!
//! The tree scripts themselves are parsed outside the library; what is
//! parsed is rebuilt as a `TreeNode` and interpreted here.  A leaf only ever
//! reads the store and steers its own entity, so a whole tree visit changes
//! nothing of the world but walking flags and orientations.

use vstd::prelude::*;
use crate::entity::Entity;
use crate::geometry::{Direction, POS_LIMIT_NANO, Vec2, spec_square_distance, square_distance};
use crate::store::{EntityStore, contains_id, spec_index_of};

verus! {

/// The squared distance, in nano-units squared, within which the standard
/// target-acquisition leaf looks for targets: one hundred units.
pub const DEFAULT_TARGET_RANGE_SQ: i128 = 10_000_000_000_000_000_000_000;

/// What a visited node reports upward.
#[derive(Clone, Copy, Debug, PartialEq, Eq, Structural)]
pub enum VisitResult {
    Success,
    Failure,
    Running,
}

/// A path a tree may plan for its entity.  Not filled in yet.
#[derive(Clone, Copy, Debug)]
pub struct Path;

/// Per-tree scratch state: the acquired target and a planned path.
pub struct BehaviourTreeData {
    pub target: Option<u64>,
    pub path: Option<Path>,
}

impl BehaviourTreeData {
    pub fn new() -> (r: BehaviourTreeData)
        ensures
            r.target == Option::<u64>::None,
            r.path == Option::<Path>::None,
    {
        BehaviourTreeData { target: None, path: None }
    }
}

/// A generic prototype: a value that stands ready to be stamped out.
#[derive(Clone, Copy, Debug)]
pub struct Prototype<T> {
    pub inner: T,
}

impl<T> Prototype<T> {
    pub fn new(inner: T) -> (r: Prototype<T>)
        ensures
            r.inner == inner,
    {
        Prototype { inner }
    }
}

/// A leaf prints a message, acquires the closest target, or walks towards
/// the acquired target.
pub enum LeafNode {
    PrintText(PrintText),
    GetClosestTarget(GetClosestTarget),
    WalkToTarget(WalkToTarget),
}

/// A behaviour tree: a leaf, or two subtrees in sequence (the second runs
/// iff the first succeeds), or two alternatives (the second runs iff the
/// first fails).
pub enum TreeNode {
    Leaf(LeafNode),
    Sequence(Box<TreeNode>, Box<TreeNode>),
    Selector(Box<TreeNode>, Box<TreeNode>),
}

/// A tree visit steers entities but neither adds, removes nor harms them:
/// only walking flags and orientations may differ.
pub open spec fn ai_frame(pre: Seq<Entity>, post: Seq<Entity>) -> bool {
    &&& post.len() == pre.len()
    &&& forall|i: int|
        0 <= i < pre.len() ==> post[i] == (Entity {
            walking: post[i].walking,
            orientation: post[i].orientation,
            ..pre[i]
        })
}

/// A leaf that logs a fixed message and always succeeds.
#[derive(Clone, Debug)]
pub struct PrintText {
    pub text: String,
}

/// Builds the message leaf.
pub fn print_text(text: String) -> (r: LeafNode)
    ensures
        r matches LeafNode::PrintText(p) && p.text@ == text@,
{
    LeafNode::PrintText(PrintText { text })
}

/// A leaf that scans the other entities for the closest one within range
/// and writes it to the blackboard.
#[derive(Clone, Copy, Debug)]
pub struct GetClosestTarget {
    pub max_sqdistance: i128,
}

/// Builds the target-acquisition leaf with the standard range.
pub fn get_closest_target() -> (r: LeafNode)
    ensures
        r matches LeafNode::GetClosestTarget(g) && g.max_sqdistance == DEFAULT_TARGET_RANGE_SQ,
{
    LeafNode::GetClosestTarget(GetClosestTarget { max_sqdistance: DEFAULT_TARGET_RANGE_SQ })
}

/// A leaf that turns its entity towards the blackboard's target.
#[derive(Clone, Copy, Debug)]
pub struct WalkToTarget;

/// Builds the pursuit leaf.
pub fn walk_to_target() -> (r: LeafNode)
    ensures
        r is WalkToTarget,
{
    LeafNode::WalkToTarget(WalkToTarget)
}

/// The direction the pursuit heuristic picks: keep the current axis while
/// the off-axis gap is not twice the on-axis gap, else switch axes; on each
/// axis, head towards the target, ties towards north and east.
pub open spec fn spec_pursuit_direction(me: Entity, target_pos: Vec2) -> Direction {
    let dx = target_pos.x - me.position.x;
    let dy = target_pos.y - me.position.y;
    let adx = if dx < 0 {
        -dx
    } else {
        dx
    };
    let ady = if dy < 0 {
        -dy
    } else {
        dy
    };
    match me.orientation {
        Direction::East | Direction::West => {
            if 2 * adx > ady {
                if dx >= 0 {
                    Direction::East
                } else {
                    Direction::West
                }
            } else {
                if dy >= 0 {
                    Direction::North
                } else {
                    Direction::South
                }
            }
        },
        Direction::North | Direction::South => {
            if adx > 2 * ady {
                if dx >= 0 {
                    Direction::East
                } else {
                    Direction::West
                }
            } else {
                if dy >= 0 {
                    Direction::North
                } else {
                    Direction::South
                }
            }
        },
    }
}

impl GetClosestTarget {
    /// Scans every other entity by squared distance from the visiting
    /// entity.  The closest one strictly within range, earliest first on
    /// ties, becomes the blackboard target; success iff one was found.
    pub fn visit(&self, me: u64, entities: &EntityStore, storage: &mut BehaviourTreeData) -> (r:
        VisitResult)
        requires
            entities.wf(),
        ensures
            *final(storage) == (BehaviourTreeData {
                target: final(storage).target,
                ..*old(storage)
            }),
            !contains_id(entities@, me) ==> r == VisitResult::Failure && final(storage).target
                == old(storage).target,
            contains_id(entities@, me) ==> {
                let m = spec_index_of(entities@, me);
                let me_pos = entities@[m].position;
                &&& (r == VisitResult::Success <==> final(storage).target is Some)
                &&& match final(storage).target {
                    Some(tid) => tid != me && exists|j: int|
                        0 <= j < entities@.len() && entities@[j].id == tid && spec_square_distance(
                            me_pos,
                            entities@[j].position,
                        ) < self.max_sqdistance && forall|k: int|
                            0 <= k < entities@.len() && entities@[k].id != me
                                ==> spec_square_distance(me_pos, #[trigger] entities@[k].position)
                                >= spec_square_distance(me_pos, entities@[j].position),
                    None => forall|k: int|
                        0 <= k < entities@.len() && entities@[k].id != me ==> spec_square_distance(
                            me_pos,
                            #[trigger] entities@[k].position,
                        ) >= self.max_sqdistance,
                }
            },
    {
        let m = match entities.index_of(me) {
            Some(m) => m,
            None => {
                return VisitResult::Failure;
            },
        };
        proof {
            assert(spec_index_of(entities@, me) == m as int) by {
                let w = spec_index_of(entities@, me);
                assert(0 <= w < entities@.len() && entities@[w].id == me);
            }
        }
        let me_pos = entities.at(m).get_position();
        let mut closest: Option<u64> = None;
        let ghost mut closest_dist: int = 0int;
        let mut closest_other_sqdistance: i128 = self.max_sqdistance;
        let mut j: usize = 0;
        while j < entities.len()
            invariant
                entities.wf(),
                m < entities@.len(),
                entities@[m as int].id == me,
                me_pos == entities@[m as int].position,
                j <= entities@.len(),
                closest_other_sqdistance <= self.max_sqdistance,
                match closest {
                    Some(tid) => tid != me && closest_dist == closest_other_sqdistance as int
                        && exists|t: int|
                        0 <= t < entities@.len() && entities@[t].id == tid && spec_square_distance(
                            me_pos,
                            entities@[t].position,
                        ) == closest_dist && closest_dist < self.max_sqdistance,
                    None => closest_other_sqdistance == self.max_sqdistance,
                },
                forall|k: int|
                    0 <= k < j && entities@[k].id != me ==> spec_square_distance(
                        me_pos,
                        #[trigger] entities@[k].position,
                    ) >= closest_other_sqdistance,
            decreases entities@.len() - j,
        {
            if j != m {
                let other = entities.at(j);
                let sqdistance = square_distance(me_pos, other.get_position());
                if sqdistance < closest_other_sqdistance {
                    closest = Some(other.get_id());
                    closest_other_sqdistance = sqdistance;
                    proof {
                        closest_dist = sqdistance as int;
                        assert(entities@[j as int].id != me);
                    }
                }
            }
            j = j + 1;
        }
        storage.target = closest;
        match closest {
            Some(_) => VisitResult::Success,
            None => VisitResult::Failure,
        }
    }
}

impl WalkToTarget {
    /// Turns the visiting entity towards the blackboard target and keeps
    /// running; without a target, or with a vanished one, it fails, in the
    /// latter case stopping the entity.
    pub fn visit(&self, me: u64, entities: &mut EntityStore, storage: &BehaviourTreeData) -> (r:
        VisitResult)
        requires
            old(entities).wf(),
        ensures
            final(entities).wf(),
            ai_frame(old(entities)@, final(entities)@),
            !contains_id(old(entities)@, me) ==> final(entities)@ == old(entities)@ && r
                == VisitResult::Failure,
            contains_id(old(entities)@, me) ==> {
                let m = spec_index_of(old(entities)@, me);
                let old_me = old(entities)@[m];
                match storage.target {
                    None => final(entities)@ == old(entities)@ && r == VisitResult::Failure,
                    Some(tid) => {
                        if tid != me && contains_id(old(entities)@, tid) {
                            let t = spec_index_of(old(entities)@, tid);
                            let dir = spec_pursuit_direction(old_me, old(entities)@[t].position);
                            &&& r == VisitResult::Running
                            &&& final(entities)@ == old(entities)@.update(
                                m,
                                Entity { walking: true, orientation: dir, ..old_me },
                            )
                        } else {
                            &&& r == VisitResult::Failure
                            &&& final(entities)@ == old(entities)@.update(
                                m,
                                Entity { walking: false, ..old_me },
                            )
                        }
                    },
                }
            },
    {
        let m = match entities.index_of(me) {
            Some(m) => m,
            None => {
                return VisitResult::Failure;
            },
        };
        proof {
            assert(spec_index_of(entities@, me) == m as int) by {
                let w = spec_index_of(entities@, me);
                assert(0 <= w < entities@.len() && entities@[w].id == me);
            }
        }
        let tid = match storage.target {
            None => {
                return VisitResult::Failure;
            },
            Some(tid) => tid,
        };
        let ghost pre = entities@;
        let mut target_pos: Option<Vec2> = None;
        if tid != me {
            match entities.index_of(tid) {
                Some(t) => {
                    proof {
                        assert(entities@[t as int].wf());
                        assert(spec_index_of(pre, tid) == t as int) by {
                            let w = spec_index_of(pre, tid);
                            assert(0 <= w < pre.len() && pre[w].id == tid);
                        }
                    }
                    target_pos = Some(entities.at(t).get_position());
                },
                None => {},
            }
        }
        match target_pos {
            None => {
                let e = entities.at_mut(m);
                e.walk(None);
                proof {
                    assert(entities@ =~= pre.update(m as int, entities@[m as int]));
                }
                VisitResult::Failure
            },
            Some(tpos) => {
                let e = entities.at_mut(m);
                proof {
                    assert(e.wf());
                }
                let dx: i64 = tpos.x - e.position.x;
                let dy: i64 = tpos.y - e.position.y;
                let adx: i64 = if dx < 0 {
                    -dx
                } else {
                    dx
                };
                let ady: i64 = if dy < 0 {
                    -dy
                } else {
                    dy
                };
                let dir = match e.orientation {
                    Direction::East | Direction::West => {
                        if 2 * adx > ady {
                            if dx >= 0 {
                                Direction::East
                            } else {
                                Direction::West
                            }
                        } else {
                            if dy >= 0 {
                                Direction::North
                            } else {
                                Direction::South
                            }
                        }
                    },
                    Direction::North | Direction::South => {
                        if adx > 2 * ady {
                            if dx >= 0 {
                                Direction::East
                            } else {
                                Direction::West
                            }
                        } else {
                            if dy >= 0 {
                                Direction::North
                            } else {
                                Direction::South
                            }
                        }
                    },
                };
                e.walk(Some(dir));
                proof {
                    assert(entities@ =~= pre.update(m as int, entities@[m as int]));
                }
                VisitResult::Running
            },
        }
    }
}

impl LeafNode {
    /// Visits one leaf: each variant behaves exactly as that leaf's own
    /// visit promises.
    pub fn visit(&self, me: u64, entities: &mut EntityStore, storage: &mut BehaviourTreeData) -> (
        r: VisitResult)
        requires
            old(entities).wf(),
        ensures
            final(entities).wf(),
            ai_frame(old(entities)@, final(entities)@),
            self is PrintText ==> r == VisitResult::Success && final(entities)@ == old(entities)@
                && *final(storage) == *old(storage),
            self matches LeafNode::GetClosestTarget(g) ==> final(entities)@ == old(entities)@
                && (*final(storage) == (BehaviourTreeData {
                target: final(storage).target,
                ..*old(storage)
            })) && (!contains_id(old(entities)@, me) ==> r == VisitResult::Failure && final(
                storage).target == old(storage).target) && (contains_id(old(entities)@, me) ==> ((
            r == VisitResult::Success <==> final(storage).target is Some) && match final(
                storage).target {
                Some(tid) => tid != me && exists|j: int|
                    0 <= j < old(entities)@.len() && old(entities)@[j].id == tid
                        && spec_square_distance(
                        old(entities)@[spec_index_of(old(entities)@, me)].position,
                        old(entities)@[j].position,
                    ) < g.max_sqdistance && forall|k: int|
                        0 <= k < old(entities)@.len() && old(entities)@[k].id != me
                            ==> spec_square_distance(
                            old(entities)@[spec_index_of(old(entities)@, me)].position,
                            #[trigger] old(entities)@[k].position,
                        ) >= spec_square_distance(
                            old(entities)@[spec_index_of(old(entities)@, me)].position,
                            old(entities)@[j].position,
                        ),
                None => forall|k: int|
                    0 <= k < old(entities)@.len() && old(entities)@[k].id != me
                        ==> spec_square_distance(
                        old(entities)@[spec_index_of(old(entities)@, me)].position,
                        #[trigger] old(entities)@[k].position,
                    ) >= g.max_sqdistance,
            })),
            self is WalkToTarget ==> *final(storage) == *old(storage) && (!contains_id(
                old(entities)@,
                me,
            ) ==> final(entities)@ == old(entities)@ && r == VisitResult::Failure) && (
            contains_id(old(entities)@, me) ==> match old(storage).target {
                None => final(entities)@ == old(entities)@ && r == VisitResult::Failure,
                Some(tid) => {
                    if tid != me && contains_id(old(entities)@, tid) {
                        r == VisitResult::Running && final(entities)@ == old(entities)@.update(
                            spec_index_of(old(entities)@, me),
                            Entity {
                                walking: true,
                                orientation: spec_pursuit_direction(
                                    old(entities)@[spec_index_of(old(entities)@, me)],
                                    old(entities)@[spec_index_of(old(entities)@, tid)].position,
                                ),
                                ..old(entities)@[spec_index_of(old(entities)@, me)]
                            },
                        )
                    } else {
                        r == VisitResult::Failure && final(entities)@ == old(entities)@.update(
                            spec_index_of(old(entities)@, me),
                            Entity {
                                walking: false,
                                ..old(entities)@[spec_index_of(old(entities)@, me)]
                            },
                        )
                    }
                },
            }),
    {
        match self {
            LeafNode::PrintText(_) => VisitResult::Success,
            LeafNode::GetClosestTarget(g) => g.visit(me, entities, storage),
            LeafNode::WalkToTarget(w) => w.visit(me, entities, storage),
        }
    }
}

impl TreeNode {
    /// Visits the tree: left to right, a sequence stops at the first child
    /// that does not succeed, a selector at the first that does not fail.
    pub fn visit(&self, me: u64, entities: &mut EntityStore, storage: &mut BehaviourTreeData) -> (
        r: VisitResult)
        requires
            old(entities).wf(),
        ensures
            final(entities).wf(),
            ai_frame(old(entities)@, final(entities)@),
        decreases *self,
    {
        match self {
            TreeNode::Leaf(leaf) => leaf.visit(me, entities, storage),
            TreeNode::Sequence(a, b) => {
                let ra = a.visit(me, entities, storage);
                match ra {
                    VisitResult::Success => b.visit(me, entities, storage),
                    _ => ra,
                }
            },
            TreeNode::Selector(a, b) => {
                let ra = a.visit(me, entities, storage);
                match ra {
                    VisitResult::Failure => b.visit(me, entities, storage),
                    _ => ra,
                }
            },
        }
    }
}

} // verus!
