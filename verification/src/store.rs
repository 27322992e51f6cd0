//! The object store: exclusive owner of one document's objects, addressed
//! by indirect identifiers, together with the trailer's root and metadata
//! references.

use vstd::prelude::*;
use crate::errors::EngineError;
use crate::object::{clone_object, Object, ObjectId, ObjectVal};

verus! {

/// One document's object store. Entries are kept in strictly increasing
/// object-number order, so no two objects ever share an identifier.
pub struct Store {
    pub objects: Vec<(ObjectId, Object)>,
    /// The root catalog's identifier, from the trailer.
    pub root: Option<ObjectId>,
    /// The metadata dictionary's identifier, from the trailer, if any.
    pub info: Option<ObjectId>,
}

/// The mathematical values of a store's entry sequence.
pub open spec fn view_objects(s: Seq<(ObjectId, Object)>) -> Seq<(ObjectId, ObjectVal)>
    decreases s,
{
    if s.len() == 0 {
        Seq::empty()
    } else {
        view_objects(s.subrange(0, s.len() - 1)).push(
            (s[s.len() - 1].0, s[s.len() - 1].1@),
        )
    }
}

/// `view_objects` keeps the length.
pub broadcast proof fn lemma_view_objects_len(s: Seq<(ObjectId, Object)>)
    ensures
        (#[trigger] view_objects(s)).len() == s.len(),
    decreases s,
{
    if s.len() > 0 {
        lemma_view_objects_len(s.subrange(0, s.len() - 1));
    }
}

/// Indexing into `view_objects` gives the identifier and the value.
pub broadcast proof fn lemma_view_objects_index(s: Seq<(ObjectId, Object)>, i: int)
    requires
        0 <= i < s.len(),
    ensures
        #[trigger] view_objects(s)[i] == (s[i].0, s[i].1@),
    decreases s,
{
    lemma_view_objects_len(s.subrange(0, s.len() - 1));
    if i < s.len() - 1 {
        lemma_view_objects_index(s.subrange(0, s.len() - 1), i);
    }
}

pub broadcast group group_store_views {
    lemma_view_objects_len,
    lemma_view_objects_index,
}

impl View for Store {
    type V = Seq<(ObjectId, ObjectVal)>;

    open spec fn view(&self) -> Seq<(ObjectId, ObjectVal)> {
        view_objects(self.objects@)
    }
}

/// First-match lookup of an identifier in a store's value sequence.
pub open spec fn spec_store_get(s: Seq<(ObjectId, ObjectVal)>, id: ObjectId) -> Option<ObjectVal>
    decreases s.len(),
{
    if s.len() == 0 {
        None
    } else if s[0].0 == id {
        Some(s[0].1)
    } else {
        spec_store_get(s.skip(1), id)
    }
}

/// Entries stand in strictly increasing object-number order, all
/// numbers positive, so each number, and hence each identifier, occurs
/// at most once; number zero stays reserved for the free-list head.
pub open spec fn store_sorted(s: Seq<(ObjectId, ObjectVal)>) -> bool {
    &&& forall|i: int, j: int|
        0 <= i < j < s.len() ==> (#[trigger] s[i]).0.number < (#[trigger] s[j]).0.number
    &&& forall|i: int| 0 <= i < s.len() ==> (#[trigger] s[i]).0.number >= 1
}

/// The store can take `k` more fresh identifiers: the numbers that
/// consecutive insertions would allocate stay within the space.
pub open spec fn has_room(s: Seq<(ObjectId, ObjectVal)>, k: nat) -> bool {
    if s.len() == 0 {
        k <= u32::MAX
    } else {
        s[s.len() - 1].0.number + k <= u32::MAX
    }
}

/// Appending an entry whose identifier matches nothing earlier makes
/// lookup of it find the new value and leaves other lookups unchanged.
pub proof fn lemma_store_get_push(s: Seq<(ObjectId, ObjectVal)>, id: ObjectId, v: ObjectVal)
    requires
        forall|j: int| 0 <= j < s.len() ==> (#[trigger] s[j]).0 != id,
    ensures
        spec_store_get(s.push((id, v)), id) == Some(v),
        forall|id2: ObjectId|
            id2 != id ==> #[trigger] spec_store_get(s.push((id, v)), id2) == spec_store_get(
                s,
                id2,
            ),
        spec_store_get(s, id) is None,
    decreases s.len(),
{
    let pushed = s.push((id, v));
    if s.len() == 0 {
        assert(pushed[0] == (id, v));
        assert forall|id2: ObjectId| id2 != id implies #[trigger] spec_store_get(pushed, id2)
            == spec_store_get(s, id2) by {
            assert(pushed.skip(1) =~= s);
        }
    } else {
        lemma_store_get_push(s.skip(1), id, v);
        assert(pushed[0] == s[0]);
        assert(pushed.skip(1) =~= s.skip(1).push((id, v)));
        assert(spec_store_get(pushed, id) == Some(v));
        assert forall|id2: ObjectId| id2 != id implies #[trigger] spec_store_get(pushed, id2)
            == spec_store_get(s, id2) by {
            assert(spec_store_get(pushed.skip(1), id2) == spec_store_get(
                s.skip(1).push((id, v)),
                id2,
            ));
        }
    }
}

/// In a well-formed sequence the identifiers are distinct, so lookup
/// of an entry's identifier returns that entry's value.
pub proof fn lemma_sorted_get_at(s: Seq<(ObjectId, ObjectVal)>, t: int)
    requires
        store_sorted(s),
        0 <= t < s.len(),
    ensures
        spec_store_get(s, s[t].0) == Some(s[t].1),
    decreases t,
{
    if t == 0 {
    } else {
        assert(s[0].0.number < s[t].0.number);
        assert(s.skip(1).skip(0) =~= s.skip(1));
        lemma_sorted_get_at(s.skip(1), t - 1);
        assert(store_sorted(s.skip(1))) by {
            assert forall|a: int, b: int| 0 <= a < b < s.skip(1).len() implies (#[trigger] s.skip(
                1,
            )[a]).0.number < (#[trigger] s.skip(1)[b]).0.number by {
                assert(s[a + 1].0.number < s[b + 1].0.number);
            }
            assert forall|a: int| 0 <= a < s.skip(1).len() implies (#[trigger] s.skip(
                1,
            )[a]).0.number >= 1 by {
                assert(s[a + 1].0.number >= 1);
            }
        }
        assert(s.skip(1)[t - 1] == s[t]);
    }
}

impl Store {
    /// Well-formed: entries sorted by strictly increasing object number.
    pub open spec fn wf(self) -> bool {
        store_sorted(self@)
    }

    /// An empty store with no trailer references.
    pub fn new() -> (r: Store)
        ensures
            r.wf(),
            r@ =~= Seq::<(ObjectId, ObjectVal)>::empty(),
            r.root is None,
            r.info is None,
    {
        let s = Store { objects: Vec::new(), root: None, info: None };
        proof {
            assert(s.objects@.len() == 0);
        }
        s
    }

    /// How many objects the store holds.
    pub fn len(&self) -> (r: usize)
        ensures
            r == self@.len(),
    {
        proof {
            crate::store::lemma_view_objects_len(self.objects@);
        }
        self.objects.len()
    }

    /// The identifier of the entry at a position.
    pub fn id_at(&self, i: usize) -> (r: ObjectId)
        requires
            i < self@.len(),
        ensures
            r == self@[i as int].0,
    {
        proof {
            lemma_view_objects_len(self.objects@);
            lemma_view_objects_index(self.objects@, i as int);
        }
        self.objects[i].0
    }

    /// The object at a position.
    pub fn obj_at(&self, i: usize) -> (r: &Object)
        requires
            i < self@.len(),
        ensures
            r@ == self@[i as int].1,
    {
        proof {
            lemma_view_objects_len(self.objects@);
            lemma_view_objects_index(self.objects@, i as int);
        }
        &self.objects[i].1
    }

    /// Dereferences an identifier; a missing identifier is a dangling
    /// reference, reported with the offending identifier.
    pub fn get(&self, id: ObjectId) -> (r: Result<&Object, EngineError>)
        ensures
            match r {
                Ok(o) => spec_store_get(self@, id) == Some(o@),
                Err(e) => spec_store_get(self@, id) is None && e
                    == EngineError::DanglingReference(id),
            },
    {
        broadcast use group_store_views;

        proof {
            assert(self@.skip(0) =~= self@);
        }
        let mut i: usize = 0;
        while i < self.objects.len()
            invariant
                i <= self.objects@.len(),
                self@.len() == self.objects@.len(),
                spec_store_get(self@.skip(i as int), id) == spec_store_get(self@, id),
            decreases self.objects@.len() - i,
        {
            proof {
                lemma_view_objects_index(self.objects@, i as int);
                assert(self@.skip(i as int)[0] == self@[i as int]);
                assert(self@.skip(i as int).skip(1) =~= self@.skip(i as int + 1));
            }
            if self.objects[i].0 == id {
                return Ok(&self.objects[i].1);
            }
            i += 1;
        }
        proof {
            assert(self@.skip(i as int) =~= Seq::<(ObjectId, ObjectVal)>::empty());
        }
        Err(EngineError::DanglingReference(id))
    }

    /// Inserts an object under a fresh identifier: one greater than every
    /// number in use, generation zero. Fails only when the number space is
    /// exhausted, leaving the store unchanged.
    pub fn insert(&mut self, o: Object) -> (r: Result<ObjectId, EngineError>)
        requires
            old(self).wf(),
        ensures
            final(self).wf(),
            r is Err <==> !has_room(old(self)@, 1),
            match r {
                Ok(id) => {
                    &&& id.generation == 0
                    &&& id.number == if old(self)@.len() == 0 {
                        1
                    } else {
                        old(self)@[old(self)@.len() - 1].0.number + 1
                    }
                    &&& final(self)@ == old(self)@.push((id, o@))
                    &&& spec_store_get(old(self)@, id) is None
                    &&& spec_store_get(final(self)@, id) == Some(o@)
                    &&& forall|id2: ObjectId|
                        id2 != id ==> #[trigger] spec_store_get(final(self)@, id2)
                            == spec_store_get(old(self)@, id2)
                    &&& final(self).root == old(self).root
                    &&& final(self).info == old(self).info
                },
                Err(e) => e == EngineError::Serialization && *final(self) == *old(self),
            },
    {
        broadcast use group_store_views;

        let n = self.objects.len();
        let number: u32 = if n == 0 {
            1
        } else {
            proof {
                lemma_view_objects_index(self.objects@, n - 1 as int);
            }
            let last = self.objects[n - 1].0.number;
            if last == u32::MAX {
                return Err(EngineError::Serialization);
            }
            last + 1
        };
        let id = ObjectId { number, generation: 0 };
        proof {
            assert forall|j: int| 0 <= j < self@.len() implies (#[trigger] self@[j]).0.number
                < id.number by {
                if j < self@.len() - 1 {
                    assert(self@[j].0.number < self@[self@.len() - 1].0.number);
                }
            }
        }
        let ghost prev = self@;
        let ghost prev_objects = self.objects@;
        self.objects.push((id, o));
        proof {
            lemma_view_objects_len(prev_objects);
            lemma_view_objects_len(self.objects@);
            assert forall|k: int| 0 <= k < self.objects@.len() implies view_objects(
                self.objects@,
            )[k] == prev.push((id, o@))[k] by {
                lemma_view_objects_index(self.objects@, k);
                if k < prev_objects.len() {
                    lemma_view_objects_index(prev_objects, k);
                }
                assert(self.objects@[k] == if k == prev_objects.len() as int {
                    (id, o)
                } else {
                    prev_objects[k]
                });
            }
            assert(self@ =~= prev.push((id, o@)));
            assert forall|j: int| 0 <= j < prev.len() implies (#[trigger] prev[j]).0 != id by {}
            lemma_store_get_push(prev, id, o@);
        }
        Ok(id)
    }

    /// The largest object number in use; zero for an empty store.
    pub fn max_number(&self) -> (r: u32)
        requires
            self.wf(),
        ensures
            forall|t: int| 0 <= t < self@.len() ==> (#[trigger] self@[t]).0.number <= r,
            self@.len() == 0 ==> r == 0,
            self@.len() > 0 ==> r == self@[self@.len() - 1].0.number,
    {
        broadcast use group_store_views;

        let n = self.objects.len();
        if n == 0 {
            0
        } else {
            proof {
                lemma_view_objects_index(self.objects@, n - 1 as int);
                assert forall|t: int| 0 <= t < self@.len() implies (#[trigger] self@[t]).0.number
                    <= self@[self@.len() - 1].0.number by {
                    if t < self@.len() - 1 {
                        assert(self@[t].0.number < self@[self@.len() - 1].0.number);
                    }
                }
            }
            self.objects[n - 1].0.number
        }
    }

    /// Appends an entry under a caller-chosen identifier whose positive
    /// number is greater than every number in use.
    pub fn append_object(&mut self, id: ObjectId, o: Object)
        requires
            old(self).wf(),
            id.number >= 1,
            forall|j: int| 0 <= j < old(self)@.len() ==> (#[trigger] old(self)@[j]).0.number < id.number,
        ensures
            final(self).wf(),
            final(self)@ == old(self)@.push((id, o@)),
            spec_store_get(old(self)@, id) is None,
            spec_store_get(final(self)@, id) == Some(o@),
            forall|id2: ObjectId|
                id2 != id ==> #[trigger] spec_store_get(final(self)@, id2) == spec_store_get(
                    old(self)@,
                    id2,
                ),
            final(self).root == old(self).root,
            final(self).info == old(self).info,
    {
        broadcast use group_store_views;

        let ghost prev = self@;
        let ghost prev_objects = self.objects@;
        self.objects.push((id, o));
        proof {
            lemma_view_objects_len(prev_objects);
            lemma_view_objects_len(self.objects@);
            assert forall|k: int| 0 <= k < self.objects@.len() implies view_objects(
                self.objects@,
            )[k] == prev.push((id, o@))[k] by {
                lemma_view_objects_index(self.objects@, k);
                if k < prev_objects.len() {
                    lemma_view_objects_index(prev_objects, k);
                }
                assert(self.objects@[k] == if k == prev_objects.len() as int {
                    (id, o)
                } else {
                    prev_objects[k]
                });
            }
            assert(self@ =~= prev.push((id, o@)));
            assert forall|j: int| 0 <= j < prev.len() implies (#[trigger] prev[j]).0 != id by {}
            lemma_store_get_push(prev, id, o@);
        }
    }
}

/// Deep copy of a store; the copy has the same values, root and metadata.
pub fn clone_store(s: &Store) -> (r: Store)
    ensures
        r@ == s@,
        r.root == s.root,
        r.info == s.info,
        s.wf() ==> r.wf(),
{
    broadcast use group_store_views;

    let mut out: Vec<(ObjectId, Object)> = Vec::new();
    let mut i: usize = 0;
    while i < s.objects.len()
        invariant
            i <= s.objects@.len(),
            out@.len() == i,
            forall|j: int|
                0 <= j < i ==> (#[trigger] out@[j]).0 == s.objects@[j].0 && out@[j].1@
                    == s.objects@[j].1@,
        decreases s.objects@.len() - i,
    {
        let id = s.objects[i].0;
        let value = clone_object(&s.objects[i].1);
        out.push((id, value));
        i += 1;
    }
    let r = Store { objects: out, root: s.root, info: s.info };
    proof {
        lemma_view_objects_len(out@);
        lemma_view_objects_len(s.objects@);
        assert forall|j: int| 0 <= j < s.objects@.len() implies view_objects(out@)[j]
            == view_objects(s.objects@)[j] by {
            lemma_view_objects_index(out@, j);
            lemma_view_objects_index(s.objects@, j);
        }
        assert(view_objects(out@) =~= view_objects(s.objects@));
    }
    r
}

} // verus!
