//! The entity store: owner of all live entities.
//!
//! Entities live in a sequence and are addressed by a generated id. Removal
//! filters the sequence and is idempotent: removing an id that is already
//! gone leaves the store unchanged. Bulk passes (cull, collision) first scan
//! a fixed snapshot and only then apply their removals, so a removal decided
//! mid-scan never affects what another pair of the same pass sees.

use vstd::prelude::*;
use vstd::seq_lib::*;
use crate::entity::{Entity, Tag, entity_wf};

verus! {

/// The predicate keeping every entity but the one with the given id.
pub open spec fn keeps_id(id: u64) -> spec_fn(Entity) -> bool {
    |e: Entity| e.id != id
}

/// No two entities share an id.
pub open spec fn ids_unique(s: Seq<Entity>) -> bool {
    forall|i: int, j: int| 0 <= i < j < s.len() ==> s[i].id != s[j].id
}

/// Store invariant: unique ids, every id below the generator, and
/// well-formed components.
pub open spec fn entities_wf(s: Seq<Entity>, next_id: u64) -> bool {
    &&& ids_unique(s)
    &&& forall|i: int| 0 <= i < s.len() ==> (#[trigger] s[i]).id < next_id && entity_wf(s[i])
}

/// Holds all live entities; `next_id` is the id the next insertion takes.
#[derive(Clone, Debug)]
pub struct EntityStore {
    pub entities: Vec<Entity>,
    pub next_id: u64,
}

impl View for EntityStore {
    type V = Seq<Entity>;

    open spec fn view(&self) -> Seq<Entity> {
        self.entities@
    }
}

impl EntityStore {
    pub open spec fn wf(&self) -> bool {
        entities_wf(self@, self.next_id)
    }

    /// An empty store.
    pub fn new() -> (s: EntityStore)
        ensures
            s@ == Seq::<Entity>::empty(),
            s.next_id == 0,
            s.wf(),
    {
        EntityStore { entities: Vec::new(), next_id: 0 }
    }

    /// Inserts a new entity with a fresh id and the given components;
    /// returns the id.
    pub fn insert(&mut self, tag: Tag, x: i64, y: i64, vx: i64, vy: i64, half_w: i64, half_h: i64) -> (id: u64)
        requires
            old(self).wf(),
            old(self).next_id < u64::MAX,
            0 <= half_w,
            0 <= half_h,
        ensures
            id == old(self).next_id,
            final(self)@ == old(self)@.push(
                Entity { id, tag, x, y, vx, vy, half_w, half_h },
            ),
            final(self).next_id == old(self).next_id + 1,
            final(self).wf(),
    {
        let id = self.next_id;
        self.entities.push(Entity { id, tag, x, y, vx, vy, half_w, half_h });
        self.next_id = self.next_id + 1;
        id
    }

    /// Removes the entity with the given id, if it is present. Removing an
    /// absent id is a no-op, so a second removal request in the same pass
    /// is harmless.
    pub fn remove(&mut self, id: u64)
        requires
            old(self).wf(),
        ensures
            final(self)@ == old(self)@.filter(keeps_id(id)),
            final(self).next_id == old(self).next_id,
            final(self).wf(),
    {
        let ghost orig = self.entities@;
        let mut kept: Vec<Entity> = Vec::new();
        let n = self.entities.len();
        let mut i: usize = 0;
        while i < n
            invariant
                n == orig.len(),
                self.entities@ == orig,
                0 <= i <= n,
                kept@ == orig.take(i as int).filter(keeps_id(id)),
            decreases n - i,
        {
            let e = self.entities[i];
            if e.id != id {
                kept.push(e);
            }
            proof {
                broadcast use Seq::lemma_take_succ_push, Seq::lemma_filter_push;
                assert(orig.take(i + 1) == orig.take(i as int).push(orig[i as int]));
                assert(orig.take(i + 1).filter(keeps_id(id)) == orig.take(i as int).push(
                    orig[i as int],
                ).filter(keeps_id(id)));
            }
            i = i + 1;
        }
        proof {
            assert(orig.take(n as int) == orig);
        }
        self.entities = kept;
        proof {
            lemma_filter_preserves_entities_wf(orig, keeps_id(id), self.next_id);
        }
    }

    /// How many live entities carry the given tag.
    pub fn count_tag(&self, tag: Tag) -> (n: usize)
        ensures
            n == count_with_tag(self@, tag),
    {
        let mut n: usize = 0;
        let len = self.entities.len();
        let mut i: usize = 0;
        while i < len
            invariant
                len == self@.len(),
                0 <= i <= len,
                n == count_with_tag(self@.take(i as int), tag),
                n <= i,
            decreases len - i,
        {
            let ghost prefix = self@.take(i as int);
            if self.entities[i].tag == tag {
                n = n + 1;
            }
            proof {
                broadcast use Seq::lemma_take_succ_push;
                assert(self@.take(i + 1) == prefix.push(self@[i as int]));
                assert(self@.take(i + 1).drop_last() =~= prefix);
            }
            i = i + 1;
        }
        proof {
            assert(self@.take(len as int) == self@);
        }
        n
    }

    /// Whether an entity with the given id is live.
    pub fn contains_id(&self, id: u64) -> (r: bool)
        ensures
            r == exists|i: int| 0 <= i < self@.len() && (#[trigger] self@[i]).id == id,
    {
        let len = self.entities.len();
        let mut i: usize = 0;
        while i < len
            invariant
                len == self@.len(),
                0 <= i <= len,
                forall|j: int| 0 <= j < i ==> (#[trigger] self@[j]).id != id,
            decreases len - i,
        {
            if self.entities[i].id == id {
                return true;
            }
            i = i + 1;
        }
        false
    }
}

/// How many entities of the sequence carry the given tag.
pub open spec fn count_with_tag(s: Seq<Entity>, tag: Tag) -> nat
    decreases s.len(),
{
    if s.len() == 0 {
        0
    } else {
        count_with_tag(s.drop_last(), tag) + (if s.last().tag == tag {
            1nat
        } else {
            0nat
        })
    }
}

/// A filtered sequence holds exactly the elements of its source that
/// satisfy the predicate.
pub proof fn lemma_filter_membership<A>(s: Seq<A>, pred: spec_fn(A) -> bool)
    ensures
        forall|x: A| #[trigger] s.filter(pred).contains(x) <==> s.contains(x) && pred(x),
{
    broadcast use Seq::lemma_filter_contains_rev, Seq::lemma_filter_pred, Seq::lemma_filter_contains;

    assert forall|x: A| #[trigger] s.filter(pred).contains(x) implies s.contains(x) && pred(x) by {
        let i = choose|i: int| 0 <= i < s.filter(pred).len() && s.filter(pred)[i] == x;
        assert(pred(s.filter(pred)[i]));
    }
    assert forall|x: A| s.contains(x) && pred(x) implies #[trigger] s.filter(pred).contains(x) by {
        let i = choose|i: int| 0 <= i < s.len() && s[i] == x;
        assert(s.filter(pred).contains(s[i]));
    }
}

/// Filtering keeps ids unique.
pub proof fn lemma_filter_preserves_ids_unique(s: Seq<Entity>, pred: spec_fn(Entity) -> bool)
    requires
        ids_unique(s),
    ensures
        ids_unique(s.filter(pred)),
    decreases s.len(),
{
    reveal(Seq::filter);
    if s.len() > 0 {
        let rest = s.drop_last();
        assert(ids_unique(rest));
        lemma_filter_preserves_ids_unique(rest, pred);
        if pred(s.last()) {
            lemma_filter_membership(rest, pred);
            assert forall|i: int, j: int|
                0 <= i < j < s.filter(pred).len() implies s.filter(pred)[i].id != s.filter(pred)[j].id by {
                let f = s.filter(pred);
                if j == f.len() - 1 {
                    assert(f[j] == s.last());
                    assert(f[i] == rest.filter(pred)[i]);
                    assert(rest.filter(pred).contains(f[i]));
                    let k = choose|k: int| 0 <= k < rest.len() && rest[k] == f[i];
                    assert(s[k] == f[i] && s[s.len() - 1] == s.last());
                } else {
                    assert(f[i] == rest.filter(pred)[i] && f[j] == rest.filter(pred)[j]);
                }
            }
        }
    }
}

/// Filtering preserves the store invariant.
pub proof fn lemma_filter_preserves_entities_wf(s: Seq<Entity>, pred: spec_fn(Entity) -> bool, next_id: u64)
    requires
        entities_wf(s, next_id),
    ensures
        entities_wf(s.filter(pred), next_id),
{
    lemma_filter_preserves_ids_unique(s, pred);
    lemma_filter_membership(s, pred);
    assert forall|i: int| 0 <= i < s.filter(pred).len() implies (#[trigger] s.filter(pred)[i]).id
        < next_id && entity_wf(s.filter(pred)[i]) by {
        let f = s.filter(pred);
        assert(f.contains(f[i]));
        let k = choose|k: int| 0 <= k < s.len() && s[k] == f[i];
        assert(s[k].id < next_id && entity_wf(s[k]));
    }
}

} // verus!
