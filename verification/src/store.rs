//! The authoritative entity store: every synchronized entity's component
//! set, keyed by its network-wide identifier.
//!
//! The store is a flat arena with a uniqueness invariant on identifiers; its
//! mathematical model is the map from identifier to component set, given by
//! [`contents_of`]. Each entry also carries a `changed` mark, set by every
//! mutation and cleared when the change has been broadcast.

use vstd::prelude::*;
use crate::errors::EntityInsertError;
use crate::game::{Location, Movable};
use crate::pointer::PlayerPointer;
use crate::protocol::NetworkObjectId;

verus! {

/// One stored entity together with its pending-broadcast mark.
#[derive(Debug, Clone, Copy, PartialEq, Eq, Structural)]
pub struct EntityEntry {
    pub pointer: PlayerPointer,
    pub changed: bool,
}

/// The identifier an entry is keyed by.
pub open spec fn entry_id(e: EntityEntry) -> NetworkObjectId {
    e.pointer.network_sync.unique_id
}

/// No two entries name the same entity.
pub open spec fn ids_distinct(s: Seq<EntityEntry>) -> bool {
    forall|i: int, j: int|
        #![trigger entry_id(s[i]), entry_id(s[j])]
        0 <= i < j < s.len() ==> entry_id(s[i]) != entry_id(s[j])
}

/// Some entry names `id`.
pub open spec fn has_id(s: Seq<EntityEntry>, id: NetworkObjectId) -> bool {
    exists|i: int| 0 <= i < s.len() && #[trigger] entry_id(s[i]) == id
}

/// Some entry names `id` and awaits broadcast.
pub open spec fn changed_here(s: Seq<EntityEntry>, id: NetworkObjectId) -> bool {
    exists|i: int| 0 <= i < s.len() && s[i].changed && #[trigger] entry_id(s[i]) == id
}

/// The mathematical model of a store: identifier to component set.
pub open spec fn contents_of(s: Seq<EntityEntry>) -> Map<NetworkObjectId, PlayerPointer>
    decreases s.len(),
{
    if s.len() == 0 {
        Map::empty()
    } else {
        contents_of(s.drop_last()).insert(entry_id(s.last()), s.last().pointer)
    }
}

/// `contents_of` holds a key exactly when some entry names it.
pub proof fn lemma_contents_key(s: Seq<EntityEntry>, id: NetworkObjectId)
    ensures
        contents_of(s).contains_key(id) <==> has_id(s, id),
    decreases s.len(),
{
    if s.len() == 0 {
    } else {
        let s0 = s.drop_last();
        lemma_contents_key(s0, id);
        if id == entry_id(s.last()) {
            assert(entry_id(s[s.len() - 1]) == id);
        } else {
            if has_id(s0, id) {
                let i = choose|i: int| 0 <= i < s0.len() && #[trigger] entry_id(s0[i]) == id;
                assert(entry_id(s[i]) == id);
            }
            if has_id(s, id) {
                let i = choose|i: int| 0 <= i < s.len() && #[trigger] entry_id(s[i]) == id;
                assert(i < s.len() - 1);
                assert(entry_id(s0[i]) == id);
            }
        }
    }
}

/// With distinct identifiers, each entry is what its key maps to.
pub proof fn lemma_contents_at(s: Seq<EntityEntry>, i: int)
    requires
        ids_distinct(s),
        0 <= i < s.len(),
    ensures
        contents_of(s).contains_key(entry_id(s[i])),
        contents_of(s)[entry_id(s[i])] == s[i].pointer,
    decreases s.len(),
{
    let s0 = s.drop_last();
    if i == s.len() - 1 {
    } else {
        assert(entry_id(s[i]) != entry_id(s.last()));
        assert(s0[i] == s[i]);
        lemma_contents_at(s0, i);
    }
}

/// Dropping the last entry keeps the rest distinct.
pub proof fn lemma_distinct_drop_last(s: Seq<EntityEntry>)
    requires
        ids_distinct(s),
        s.len() > 0,
    ensures
        ids_distinct(s.drop_last()),
{
    let s0 = s.drop_last();
    assert forall|i: int, j: int| 0 <= i < j < s0.len() implies entry_id(s0[i]) != entry_id(s0[j]) by {
        assert(s0[i] == s[i]);
        assert(s0[j] == s[j]);
    }
}

/// Replacing entry `i` by one with the same identifier updates the model at
/// exactly that key and keeps identifiers distinct.
pub proof fn lemma_contents_update(s: Seq<EntityEntry>, i: int, e: EntityEntry)
    requires
        ids_distinct(s),
        0 <= i < s.len(),
        entry_id(e) == entry_id(s[i]),
    ensures
        contents_of(s.update(i, e)) == contents_of(s).insert(entry_id(e), e.pointer),
        ids_distinct(s.update(i, e)),
    decreases s.len(),
{
    let su = s.update(i, e);
    let s0 = s.drop_last();
    assert forall|p: int, q: int| 0 <= p < q < su.len() implies entry_id(su[p]) != entry_id(su[q]) by {
        assert(entry_id(su[p]) == entry_id(s[p]));
        assert(entry_id(su[q]) == entry_id(s[q]));
    }
    if i == s.len() - 1 {
        assert(su.drop_last() =~= s0);
        assert(su.last() == e);
        assert(contents_of(su) == contents_of(s0).insert(entry_id(e), e.pointer));
        assert(contents_of(s0).insert(entry_id(e), e.pointer) =~= contents_of(s).insert(entry_id(e), e.pointer));
    } else {
        lemma_distinct_drop_last(s);
        assert(su.drop_last() =~= s0.update(i, e));
        assert(s0[i] == s[i]);
        lemma_contents_update(s0, i, e);
        assert(su.last() == s.last());
        assert(entry_id(e) != entry_id(s.last()));
        assert(contents_of(su) == contents_of(s0).insert(entry_id(e), e.pointer).insert(
            entry_id(s.last()),
            s.last().pointer,
        ));
        assert(contents_of(s0).insert(entry_id(e), e.pointer).insert(entry_id(s.last()), s.last().pointer)
            =~= contents_of(s).insert(entry_id(e), e.pointer));
    }
}

/// Appending an entry inserts it into the model; a fresh identifier keeps
/// the entries distinct.
pub proof fn lemma_contents_push(s: Seq<EntityEntry>, e: EntityEntry)
    requires
        ids_distinct(s),
    ensures
        contents_of(s.push(e)) == contents_of(s).insert(entry_id(e), e.pointer),
        !has_id(s, entry_id(e)) ==> ids_distinct(s.push(e)),
{
    let sp = s.push(e);
    assert(sp.drop_last() =~= s);
    assert(sp.last() == e);
    if !has_id(s, entry_id(e)) {
        assert forall|i: int, j: int| 0 <= i < j < sp.len() implies entry_id(sp[i]) != entry_id(sp[j]) by {
            if j == s.len() {
                assert(entry_id(sp[i]) == entry_id(s[i]));
                assert(!(entry_id(s[i]) == entry_id(e)));
            } else {
                assert(entry_id(sp[i]) == entry_id(s[i]));
                assert(entry_id(sp[j]) == entry_id(s[j]));
            }
        }
    }
}

/// The model reads only the component sets: entrywise equal pointers give
/// equal contents, whatever the `changed` marks.
pub proof fn lemma_contents_pointwise(s1: Seq<EntityEntry>, s2: Seq<EntityEntry>)
    requires
        s1.len() == s2.len(),
        forall|i: int| 0 <= i < s1.len() ==> #[trigger] s1[i].pointer == s2[i].pointer,
    ensures
        contents_of(s1) == contents_of(s2),
    decreases s1.len(),
{
    if s1.len() > 0 {
        let t1 = s1.drop_last();
        let t2 = s2.drop_last();
        assert forall|i: int| 0 <= i < t1.len() implies #[trigger] t1[i].pointer == t2[i].pointer by {
            assert(s1[i].pointer == s2[i].pointer);
        }
        lemma_contents_pointwise(t1, t2);
        assert(s1.last().pointer == s2.last().pointer);
    }
}

/// The authoritative set of synchronized entities.
#[derive(Debug)]
pub struct EntityStore {
    pub entries: Vec<EntityEntry>,
}

impl EntityStore {
    /// The store's invariant: identifiers are unique.
    pub open spec fn wf(self) -> bool {
        ids_distinct(self.entries@)
    }

    /// The store's mathematical model.
    pub open spec fn contents(self) -> Map<NetworkObjectId, PlayerPointer> {
        contents_of(self.entries@)
    }

    /// Whether the entity named `id` awaits broadcast.
    pub open spec fn is_changed(self, id: NetworkObjectId) -> bool {
        changed_here(self.entries@, id)
    }

    /// An empty store.
    pub fn new() -> (s: EntityStore)
        ensures
            s.wf(),
            s.contents() == Map::<NetworkObjectId, PlayerPointer>::empty(),
            s.entries@.len() == 0,
    {
        EntityStore { entries: Vec::new() }
    }

    /// How many entities are stored.
    pub fn len(&self) -> (n: usize)
        ensures
            n == self.entries@.len(),
    {
        self.entries.len()
    }

    /// The position of the entry naming `id`, if any.
    pub fn index_of(&self, id: NetworkObjectId) -> (r: Option<usize>)
        ensures
            match r {
                Some(i) => i < self.entries@.len() && entry_id(self.entries@[i as int]) == id,
                None => !has_id(self.entries@, id),
            },
    {
        let n = self.entries.len();
        let mut i: usize = 0;
        while i < n
            invariant
                i <= n,
                n == self.entries@.len(),
                forall|j: int| 0 <= j < i ==> #[trigger] entry_id(self.entries@[j]) != id,
            decreases n - i,
        {
            if self.entries[i].pointer.network_sync.unique_id == id {
                return Some(i);
            }
            i = i + 1;
        }
        None
    }

    /// Whether an entity named `id` exists.
    pub fn contains(&self, id: NetworkObjectId) -> (r: bool)
        ensures
            r == contents_of(self.entries@).contains_key(id),
    {
        proof {
            lemma_contents_key(self.entries@, id);
        }
        self.index_of(id).is_some()
    }

    /// Look up the entity named `id`.
    pub fn get(&self, id: NetworkObjectId) -> (r: Option<&PlayerPointer>)
        requires
            self.wf(),
        ensures
            match r {
                Some(p) => self.contents().contains_key(id) && *p == self.contents()[id],
                None => !self.contents().contains_key(id),
            },
    {
        proof {
            lemma_contents_key(self.entries@, id);
        }
        match self.index_of(id) {
            Some(i) => {
                proof {
                    lemma_contents_at(self.entries@, i as int);
                }
                Some(&self.entries[i].pointer)
            },
            None => None,
        }
    }

    /// The entity stored at position `i`, for full-state iteration.
    pub fn get_at(&self, i: usize) -> (p: &PlayerPointer)
        requires
            i < self.entries@.len(),
        ensures
            *p == self.entries@[i as int].pointer,
    {
        &self.entries[i].pointer
    }

    /// Add a brand-new entity, refusing to overwrite: identifiers are meant
    /// to be globally unique, so an existing entry is a distinguishable
    /// error, not a silent replacement.
    pub fn insert(&mut self, pointer: PlayerPointer) -> (r: Result<(), EntityInsertError>)
        requires
            old(self).wf(),
        ensures
            final(self).wf(),
            r is Ok <==> !old(self).contents().contains_key(pointer.network_sync.unique_id),
            r is Ok ==> final(self).contents() == old(self).contents().insert(
                pointer.network_sync.unique_id,
                pointer,
            ),
            r is Ok ==> final(self).entries@ == old(self).entries@.push(
                EntityEntry { pointer, changed: true },
            ),
            r is Err ==> *final(self) == *old(self) && r == Err::<(), EntityInsertError>(
                EntityInsertError::DuplicateNetworkId { id: pointer.network_sync.unique_id },
            ),
    {
        let id = pointer.network_sync.unique_id;
        if self.contains(id) {
            Err(EntityInsertError::DuplicateNetworkId { id })
        } else {
            let entry = EntityEntry { pointer, changed: true };
            proof {
                lemma_contents_key(self.entries@, id);
                lemma_contents_push(self.entries@, entry);
            }
            self.entries.push(entry);
            Ok(())
        }
    }

    /// Insert or overwrite the entity named by `pointer`, marking it as
    /// awaiting broadcast.
    pub fn upsert(&mut self, pointer: PlayerPointer)
        requires
            old(self).wf(),
        ensures
            final(self).wf(),
            final(self).contents() == old(self).contents().insert(pointer.network_sync.unique_id, pointer),
            final(self).is_changed(pointer.network_sync.unique_id),
            forall|id: NetworkObjectId| old(self).is_changed(id) ==> final(self).is_changed(id),
    {
        let id = pointer.network_sync.unique_id;
        let entry = EntityEntry { pointer, changed: true };
        match self.index_of(id) {
            Some(i) => {
                proof {
                    lemma_contents_update(self.entries@, i as int, entry);
                }
                self.entries.set(i, entry);
                proof {
                    assert(entry_id(self.entries@[i as int]) == id && self.entries@[i as int].changed);
                    assert forall|k: NetworkObjectId| old(self).is_changed(k)
                        implies self.is_changed(k) by {
                        let j = choose|j: int| 0 <= j < old(self).entries@.len()
                            && old(self).entries@[j].changed && #[trigger] entry_id(old(self).entries@[j]) == k;
                        if j == i as int {
                            assert(entry_id(self.entries@[i as int]) == k);
                        } else {
                            assert(self.entries@[j] == old(self).entries@[j]);
                        }
                    }
                }
            },
            None => {
                proof {
                    lemma_contents_key(self.entries@, id);
                    lemma_contents_push(self.entries@, entry);
                }
                self.entries.push(entry);
                proof {
                    let n = self.entries@.len() - 1;
                    assert(entry_id(self.entries@[n]) == id && self.entries@[n].changed);
                    assert forall|k: NetworkObjectId| old(self).is_changed(k)
                        implies self.is_changed(k) by {
                        let j = choose|j: int| 0 <= j < old(self).entries@.len()
                            && old(self).entries@[j].changed && #[trigger] entry_id(old(self).entries@[j]) == k;
                        assert(self.entries@[j] == old(self).entries@[j]);
                    }
                }
            },
        }
    }

    /// Overwrite the movement order of the entry at `i`, marking it.
    pub fn set_movable(&mut self, i: usize, m: Movable)
        requires
            old(self).wf(),
            i < old(self).entries@.len(),
        ensures
            final(self).wf(),
            final(self).entries@ == old(self).entries@.update(
                i as int,
                (EntityEntry {
                    pointer: PlayerPointer { movable: m, ..old(self).entries@[i as int].pointer },
                    changed: true,
                }),
            ),
            final(self).contents() == old(self).contents().insert(
                entry_id(old(self).entries@[i as int]),
                (PlayerPointer { movable: m, ..old(self).entries@[i as int].pointer }),
            ),
    {
        let entry = EntityEntry {
            pointer: PlayerPointer { movable: m, ..self.entries[i].pointer },
            changed: true,
        };
        proof {
            lemma_contents_update(self.entries@, i as int, entry);
        }
        self.entries.set(i, entry);
    }

    /// Overwrite the movement order and location of the entry at `i`,
    /// marking it.
    pub fn set_movement(&mut self, i: usize, m: Movable, loc: Location)
        requires
            old(self).wf(),
            i < old(self).entries@.len(),
        ensures
            final(self).wf(),
            final(self).entries@ == old(self).entries@.update(
                i as int,
                (EntityEntry {
                    pointer: PlayerPointer {
                        movable: m,
                        location: loc,
                        ..old(self).entries@[i as int].pointer
                    },
                    changed: true,
                }),
            ),
            final(self).contents() == old(self).contents().insert(
                entry_id(old(self).entries@[i as int]),
                (PlayerPointer { movable: m, location: loc, ..old(self).entries@[i as int].pointer }),
            ),
    {
        let entry = EntityEntry {
            pointer: PlayerPointer { movable: m, location: loc, ..self.entries[i].pointer },
            changed: true,
        };
        proof {
            lemma_contents_update(self.entries@, i as int, entry);
        }
        self.entries.set(i, entry);
    }
}

} // verus!
