//! The per-instance entity collection, keyed by entity id and ordered by
//! insertion.
//!
//! Combat needs one entity and the rest of the store mutably at once.  The
//! controlled escape hatch is `split_off_entity` / `put_back`: the entity is
//! moved out, the store itself then stands for "the others", and by the
//! uniqueness of ids nothing in it carries the split-off entity's id.

use vstd::prelude::*;
use crate::entity::Entity;

verus! {

/// No two entities of the sequence carry the same id.
pub open spec fn unique_ids(s: Seq<Entity>) -> bool {
    forall|i: int, j: int| 0 <= i < j < s.len() ==> s[i].id != s[j].id
}

/// Every entity of the sequence is well-formed.
pub open spec fn all_wf(s: Seq<Entity>) -> bool {
    forall|i: int| 0 <= i < s.len() ==> s[i].wf()
}

/// Whether the sequence holds an entity with this id.
pub open spec fn contains_id(s: Seq<Entity>, id: u64) -> bool {
    exists|i: int| 0 <= i < s.len() && s[i].id == id
}

/// The position of the entity with this id; meaningful when the sequence
/// holds one and its ids are unique.
pub open spec fn spec_index_of(s: Seq<Entity>, id: u64) -> int {
    choose|i: int| 0 <= i < s.len() && s[i].id == id
}

/// Indexed collection of the entities within one instance.
pub struct EntityStore {
    entities: Vec<Entity>,
}

impl EntityStore {
    /// The entities, in insertion order.
    pub closed spec fn view(self) -> Seq<Entity> {
        self.entities@
    }

    /// Unique ids, each entity well-formed.
    pub open spec fn wf(self) -> bool {
        unique_ids(self@) && all_wf(self@)
    }

    pub fn new() -> (r: EntityStore)
        ensures
            r@ == Seq::<Entity>::empty(),
            r.wf(),
    {
        EntityStore { entities: Vec::new() }
    }

    pub fn len(&self) -> (r: usize)
        ensures
            r == self@.len(),
    {
        self.entities.len()
    }

    /// The position of the entity with this id, if the store holds one.
    pub fn index_of(&self, id: u64) -> (r: Option<usize>)
        ensures
            match r {
                Some(i) => i < self@.len() && self@[i as int].id == id,
                None => !contains_id(self@, id),
            },
    {
        let mut k: usize = 0;
        while k < self.entities.len()
            invariant
                k <= self.entities.len(),
                forall|j: int| 0 <= j < k ==> self.entities@[j].id != id,
            decreases self.entities.len() - k,
        {
            if self.entities[k].get_id() == id {
                return Some(k);
            }
            k = k + 1;
        }
        None
    }

    pub fn at(&self, i: usize) -> (r: &Entity)
        requires
            i < self@.len(),
        ensures
            *r == self@[i as int],
    {
        &self.entities[i]
    }

    pub fn at_mut(&mut self, i: usize) -> (r: &mut Entity)
        requires
            i < old(self)@.len(),
        ensures
            *r == old(self)@[i as int],
            final(self)@ == old(self)@.update(i as int, *final(r)),
    {
        &mut self.entities[i]
    }

    /// Appends an entity.  An entity whose id the store already holds is
    /// handed back unchanged, so uniqueness of ids is preserved.
    pub fn push(&mut self, entity: Entity) -> (r: Option<Entity>)
        requires
            old(self).wf(),
        ensures
            final(self).wf(),
            if contains_id(old(self)@, entity.id) {
                r matches Some(e) && e == entity && final(self)@ == old(self)@
            } else {
                r is None && final(self)@ == old(self)@.push(entity) && entity.wf()
            } || (r matches Some(e) && e == entity && final(self)@ == old(self)@
                && !entity.wf()),
    {
        if !entity.is_wf() {
            return Some(entity);
        }
        match self.index_of(entity.get_id()) {
            Some(_) => Some(entity),
            None => {
                self.entities.push(entity);
                proof {
                    assert(forall|i: int|
                        0 <= i < old(self)@.len() ==> self@[i] == old(self)@[i]);
                }
                None
            },
        }
    }

    /// Looks an entity up by id.
    pub fn get(&self, id: u64) -> (r: Option<&Entity>)
        ensures
            match r {
                Some(e) => contains_id(self@, id) && e.id == id && exists|i: int|
                    0 <= i < self@.len() && self@[i] == *e,
                None => !contains_id(self@, id),
            },
    {
        match self.index_of(id) {
            Some(i) => Some(&self.entities[i]),
            None => None,
        }
    }

    /// Removes and returns the entity with this id, keeping the order of the
    /// rest.
    pub fn remove(&mut self, id: u64) -> (r: Option<Entity>)
        requires
            old(self).wf(),
        ensures
            final(self).wf(),
            match r {
                Some(e) => e.id == id && exists|i: int|
                    0 <= i < old(self)@.len() && old(self)@[i] == e && final(self)@ == old(
                        self,
                    )@.remove(i),
                None => !contains_id(old(self)@, id) && final(self)@ == old(self)@,
            },
            r is Some ==> !contains_id(final(self)@, id),
    {
        match self.index_of(id) {
            Some(i) => {
                let e = self.entities.remove(i);
                proof {
                    lemma_removed_id_absent(old(self)@, i as int);
                }
                Some(e)
            },
            None => None,
        }
    }

    /// Moves the entity at position `i` out of the store.  What remains is
    /// the accessor for "the others": by uniqueness of ids, no entity left
    /// in the store carries the moved-out entity's id, so a lookup of that
    /// id yields nothing and no iteration over the store yields it.
    pub fn split_off_entity(&mut self, i: usize) -> (r: Entity)
        requires
            old(self).wf(),
            i < old(self)@.len(),
        ensures
            final(self).wf(),
            r == old(self)@[i as int],
            final(self)@ == old(self)@.remove(i as int),
            !contains_id(final(self)@, r.id),
            forall|j: int| 0 <= j < final(self)@.len() ==> final(self)@[j].id != r.id,
    {
        let e = self.entities.remove(i);
        proof {
            lemma_removed_id_absent(old(self)@, i as int);
        }
        e
    }

    /// Puts a split-off entity back at its position.
    pub fn put_back(&mut self, i: usize, entity: Entity)
        requires
            old(self).wf(),
            i <= old(self)@.len(),
            entity.wf(),
            !contains_id(old(self)@, entity.id),
        ensures
            final(self).wf(),
            final(self)@ == old(self)@.insert(i as int, entity),
            final(self)@.len() == old(self)@.len() + 1,
    {
        self.entities.insert(i, entity);
    }
}

/// The double-iteration law: removing the entity at `i` from a store with
/// unique ids leaves no entity carrying its id, so the accessor over the
/// others can never yield it, not even looked up by its own id.
pub proof fn lemma_removed_id_absent(s: Seq<Entity>, i: int)
    requires
        unique_ids(s),
        0 <= i < s.len(),
    ensures
        !contains_id(s.remove(i), s[i].id),
        forall|j: int| 0 <= j < s.remove(i).len() ==> s.remove(i)[j].id != s[i].id,
        unique_ids(s.remove(i)),
        all_wf(s) ==> all_wf(s.remove(i)),
{
    let t = s.remove(i);
    assert forall|j: int| 0 <= j < t.len() implies t[j].id != s[i].id by {
        if j < i {
            assert(t[j] == s[j]);
        } else {
            assert(t[j] == s[j + 1]);
        }
    }
    assert forall|a: int, b: int| 0 <= a < b < t.len() implies t[a].id != t[b].id by {
        let sa = if a < i {
            a
        } else {
            a + 1
        };
        let sb = if b < i {
            b
        } else {
            b + 1
        };
        assert(t[a] == s[sa] && t[b] == s[sb]);
    }
    assert forall|j: int| 0 <= j < t.len() && all_wf(s) implies t[j].wf() by {
        if j < i {
            assert(t[j] == s[j]);
        } else {
            assert(t[j] == s[j + 1]);
        }
    }
}

} // verus!
