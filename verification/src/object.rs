//! The document object model: tagged object values, indirect identifiers,
//! and dictionaries with name keys, together with their mathematical views.

use vstd::prelude::*;

verus! {

/// Identifier of an indirect object inside one store: object number and
/// generation number. Identifiers are local to a store; merging documents
/// remaps them to avoid collisions.
#[derive(Clone, Copy, PartialEq, Eq, Structural, Debug, Hash)]
pub struct ObjectId {
    pub number: u32,
    pub generation: u16,
}

/// A tagged object value. `Real` carries a fixed-point number in
/// thousandths of a unit, so the engine stays within integer arithmetic.
/// `Reference` is a weak link into the owning store, never an embedded
/// child, which lets several pages share one resource object.
pub enum Object {
    Null,
    Boolean(bool),
    Integer(i64),
    Real(i64),
    Str(Vec<u8>),
    Name(Vec<u8>),
    Array(Vec<Object>),
    Dict(Dictionary),
    Stream(Dictionary, Vec<u8>),
    Reference(ObjectId),
}

/// A dictionary: name keys (stored without the leading slash) mapped to
/// objects. Lookup takes the first entry with a matching key.
pub struct Dictionary {
    pub entries: Vec<(Vec<u8>, Object)>,
}

/// The mathematical value of an `Object`.
#[verifier::ext_equal]
pub enum ObjectVal {
    Null,
    Boolean(bool),
    Integer(i64),
    Real(i64),
    Str(Seq<u8>),
    Name(Seq<u8>),
    Array(Seq<ObjectVal>),
    Dict(Seq<(Seq<u8>, ObjectVal)>),
    Stream(Seq<(Seq<u8>, ObjectVal)>, Seq<u8>),
    Reference(ObjectId),
}

/// The mathematical value of an object.
pub open spec fn view_obj(o: Object) -> ObjectVal
    decreases o,
{
    match o {
        Object::Null => ObjectVal::Null,
        Object::Boolean(b) => ObjectVal::Boolean(b),
        Object::Integer(i) => ObjectVal::Integer(i),
        Object::Real(m) => ObjectVal::Real(m),
        Object::Str(v) => ObjectVal::Str(v@),
        Object::Name(v) => ObjectVal::Name(v@),
        Object::Array(items) => ObjectVal::Array(view_arr(items@)),
        Object::Dict(d) => ObjectVal::Dict(view_entries(d.entries@)),
        Object::Stream(d, data) => ObjectVal::Stream(view_entries(d.entries@), data@),
        Object::Reference(id) => ObjectVal::Reference(id),
    }
}

/// The mathematical values of a sequence of objects.
pub open spec fn view_arr(s: Seq<Object>) -> Seq<ObjectVal>
    decreases s,
{
    if s.len() == 0 {
        Seq::empty()
    } else {
        view_arr(s.subrange(0, s.len() - 1)).push(view_obj(s[s.len() - 1]))
    }
}

/// The mathematical values of a sequence of dictionary entries.
pub open spec fn view_entries(s: Seq<(Vec<u8>, Object)>) -> Seq<(Seq<u8>, ObjectVal)>
    decreases s,
{
    if s.len() == 0 {
        Seq::empty()
    } else {
        view_entries(s.subrange(0, s.len() - 1)).push(
            (s[s.len() - 1].0@, view_obj(s[s.len() - 1].1)),
        )
    }
}

impl View for Object {
    type V = ObjectVal;

    open spec fn view(&self) -> ObjectVal {
        view_obj(*self)
    }
}

impl View for Dictionary {
    type V = Seq<(Seq<u8>, ObjectVal)>;

    open spec fn view(&self) -> Seq<(Seq<u8>, ObjectVal)> {
        view_entries(self.entries@)
    }
}

/// `view_arr` maps each element to its value and keeps the length.
pub broadcast proof fn lemma_view_arr_len(s: Seq<Object>)
    ensures
        (#[trigger] view_arr(s)).len() == s.len(),
    decreases s,
{
    if s.len() > 0 {
        lemma_view_arr_len(s.subrange(0, s.len() - 1));
    }
}

/// Indexing into `view_arr` gives the value of the element.
pub broadcast proof fn lemma_view_arr_index(s: Seq<Object>, i: int)
    requires
        0 <= i < s.len(),
    ensures
        #[trigger] view_arr(s)[i] == view_obj(s[i]),
    decreases s,
{
    lemma_view_arr_len(s.subrange(0, s.len() - 1));
    if i < s.len() - 1 {
        lemma_view_arr_index(s.subrange(0, s.len() - 1), i);
    }
}

/// `view_entries` maps each entry to its value and keeps the length.
pub broadcast proof fn lemma_view_entries_len(s: Seq<(Vec<u8>, Object)>)
    ensures
        (#[trigger] view_entries(s)).len() == s.len(),
    decreases s,
{
    if s.len() > 0 {
        lemma_view_entries_len(s.subrange(0, s.len() - 1));
    }
}

/// Indexing into `view_entries` gives the key's bytes and the value.
pub broadcast proof fn lemma_view_entries_index(s: Seq<(Vec<u8>, Object)>, i: int)
    requires
        0 <= i < s.len(),
    ensures
        #[trigger] view_entries(s)[i] == (s[i].0@, view_obj(s[i].1)),
    decreases s,
{
    lemma_view_entries_len(s.subrange(0, s.len() - 1));
    if i < s.len() - 1 {
        lemma_view_entries_index(s.subrange(0, s.len() - 1), i);
    }
}

pub broadcast group group_object_views {
    lemma_view_arr_len,
    lemma_view_arr_index,
    lemma_view_entries_len,
    lemma_view_entries_index,
}

/// First-match lookup over a dictionary's entry values.
pub open spec fn spec_dict_get(entries: Seq<(Seq<u8>, ObjectVal)>, name: Seq<u8>) -> Option<
    ObjectVal,
>
    decreases entries.len(),
{
    if entries.len() == 0 {
        None
    } else if entries[0].0 == name {
        Some(entries[0].1)
    } else {
        spec_dict_get(entries.skip(1), name)
    }
}

/// Byte-slice equality.
pub fn bytes_eq(a: &[u8], b: &[u8]) -> (r: bool)
    ensures
        r <==> a@ == b@,
{
    if a.len() != b.len() {
        return false;
    }
    let mut i: usize = 0;
    while i < a.len()
        invariant
            i <= a.len(),
            a.len() == b.len(),
            forall|j: int| 0 <= j < i ==> a@[j] == b@[j],
        decreases a.len() - i,
    {
        if a[i] != b[i] {
            return false;
        }
        i += 1;
    }
    proof {
        assert(a@ =~= b@);
    }
    true
}

/// Copies a byte vector.
pub fn copy_bytes(v: &Vec<u8>) -> (r: Vec<u8>)
    ensures
        r@ == v@,
{
    let mut out: Vec<u8> = Vec::new();
    let mut i: usize = 0;
    while i < v.len()
        invariant
            i <= v.len(),
            out@ =~= v@.subrange(0, i as int),
        decreases v.len() - i,
    {
        out.push(v[i]);
        i += 1;
    }
    proof {
        assert(out@ =~= v@);
    }
    out
}

/// Copies a byte slice into a fresh vector.
pub fn slice_to_vec(v: &[u8]) -> (r: Vec<u8>)
    ensures
        r@ == v@,
{
    let mut out: Vec<u8> = Vec::new();
    let mut i: usize = 0;
    while i < v.len()
        invariant
            i <= v@.len(),
            out@ =~= v@.subrange(0, i as int),
        decreases v@.len() - i,
    {
        out.push(v[i]);
        i += 1;
    }
    proof {
        assert(out@ =~= v@);
    }
    out
}

impl Dictionary {
    /// What this dictionary maps `name` to, if anything.
    pub open spec fn spec_get(self, name: Seq<u8>) -> Option<ObjectVal> {
        spec_dict_get(self@, name)
    }

    /// An empty dictionary.
    pub fn new() -> (r: Dictionary)
        ensures
            r@ =~= Seq::<(Seq<u8>, ObjectVal)>::empty(),
    {
        let d = Dictionary { entries: Vec::new() };
        proof {
            assert(d.entries@.len() == 0);
        }
        d
    }

    /// Looks a name up; `None` when the key is absent.
    pub fn get(&self, name: &[u8]) -> (r: Option<&Object>)
        ensures
            match r {
                Some(o) => self.spec_get(name@) == Some(o@),
                None => self.spec_get(name@) is None,
            },
    {
        broadcast use group_object_views;

        proof {
            assert(self@.skip(0) =~= self@);
        }
        let mut i: usize = 0;
        while i < self.entries.len()
            invariant
                i <= self.entries@.len(),
                self@.len() == self.entries@.len(),
                spec_dict_get(self@.skip(i as int), name@) == self.spec_get(name@),
                forall|j: int| 0 <= j < i ==> (#[trigger] self@[j]).0 != name@,
            decreases self.entries@.len() - i,
        {
            proof {
                lemma_view_entries_index(self.entries@, i as int);
                assert(self@.skip(i as int)[0] == self@[i as int]);
                assert(self@.skip(i as int).skip(1) =~= self@.skip(i as int + 1));
            }
            if bytes_eq(self.entries[i].0.as_slice(), name) {
                return Some(&self.entries[i].1);
            }
            i += 1;
        }
        proof {
            assert(self@.skip(i as int) =~= Seq::<(Seq<u8>, ObjectVal)>::empty());
        }
        None
    }

    /// Sets `name` to `value`, replacing the first existing entry for the
    /// key or appending a new one.
    pub fn set(&mut self, name: &[u8], value: Object)
        ensures
            final(self).spec_get(name@) == Some(value@),
            forall|n: Seq<u8>|
                n != name@ ==> #[trigger] final(self).spec_get(n) == old(self).spec_get(n),
    {
        broadcast use group_object_views;

        let mut i: usize = 0;
        while i < self.entries.len()
            invariant
                i <= self.entries@.len(),
                *self == *old(self),
                forall|j: int| 0 <= j < i ==> (#[trigger] self@[j]).0 != name@,
            decreases self.entries@.len() - i,
        {
            proof {
                lemma_view_entries_index(self.entries@, i as int);
            }
            if bytes_eq(self.entries[i].0.as_slice(), name) {
                let key = copy_bytes(&self.entries[i].0);
                let ghost prev = self@;
                let ghost prev_entries = self.entries@;
                self.entries.set(i, (key, value));
                proof {
                    lemma_view_entries_len(prev_entries);
                    lemma_view_entries_len(self.entries@);
                    assert forall|k: int| 0 <= k < self.entries@.len() implies view_entries(
                        self.entries@,
                    )[k] == prev.update(i as int, (prev[i as int].0, value@))[k] by {
                        lemma_view_entries_index(self.entries@, k);
                        lemma_view_entries_index(prev_entries, k);
                        assert(self.entries@[k] == if k == i as int {
                            (key, value)
                        } else {
                            prev_entries[k]
                        });
                    }
                    assert(self@ =~= prev.update(i as int, (prev[i as int].0, value@)));
                    lemma_dict_get_update(prev, i as int, name@, value@);
                }
                return;
            }
            i += 1;
        }
        let key = slice_to_vec(name);
        let ghost prev = self@;
        let ghost prev_entries = self.entries@;
        self.entries.push((key, value));
        proof {
            lemma_view_entries_len(prev_entries);
            lemma_view_entries_len(self.entries@);
            assert forall|k: int| 0 <= k < self.entries@.len() implies view_entries(
                self.entries@,
            )[k] == prev.push((name@, value@))[k] by {
                lemma_view_entries_index(self.entries@, k);
                if k < prev_entries.len() {
                    lemma_view_entries_index(prev_entries, k);
                }
                assert(self.entries@[k] == if k == prev_entries.len() as int {
                    (key, value)
                } else {
                    prev_entries[k]
                });
            }
            assert(self@ =~= prev.push((name@, value@)));
            lemma_dict_get_push(prev, name@, value@);
        }
    }
}

/// Replacing the value at the first matching index updates the lookup for
/// that key and leaves every other key's lookup unchanged.
proof fn lemma_dict_get_update(
    entries: Seq<(Seq<u8>, ObjectVal)>,
    i: int,
    name: Seq<u8>,
    value: ObjectVal,
)
    requires
        0 <= i < entries.len(),
        entries[i].0 == name,
        forall|j: int| 0 <= j < i ==> entries[j].0 != name,
    ensures
        spec_dict_get(entries.update(i, (entries[i].0, value)), name) == Some(value),
        forall|n: Seq<u8>|
            n != name ==> #[trigger] spec_dict_get(entries.update(i, (entries[i].0, value)), n)
                == spec_dict_get(entries, n),
    decreases i,
{
    let updated = entries.update(i, (entries[i].0, value));
    if i == 0 {
        assert(updated[0].0 == name);
        assert forall|n: Seq<u8>| n != name implies #[trigger] spec_dict_get(updated, n)
            == spec_dict_get(entries, n) by {
            assert(updated.skip(1) =~= entries.skip(1));
        }
    } else {
        lemma_dict_get_update(entries.skip(1), i - 1, name, value);
        assert(updated.skip(1) =~= entries.skip(1).update(
            i - 1,
            (entries.skip(1)[i - 1].0, value),
        ));
        assert(updated[0] == entries[0]);
        assert(spec_dict_get(updated, name) == Some(value));
        assert forall|n: Seq<u8>| n != name implies spec_dict_get(updated, n) == spec_dict_get(
            entries,
            n,
        ) by {
            assert(spec_dict_get(updated.skip(1), n) == spec_dict_get(entries.skip(1), n));
        }
    }
}

/// Appending an entry for a key with no earlier match makes lookup of that
/// key find it and leaves every other key's lookup unchanged.
proof fn lemma_dict_get_push(entries: Seq<(Seq<u8>, ObjectVal)>, key: Seq<u8>, value: ObjectVal)
    requires
        forall|j: int| 0 <= j < entries.len() ==> entries[j].0 != key,
    ensures
        spec_dict_get(entries.push((key, value)), key) == Some(value),
        forall|n: Seq<u8>|
            n != key ==> #[trigger] spec_dict_get(entries.push((key, value)), n) == spec_dict_get(
                entries,
                n,
            ),
    decreases entries.len(),
{
    let pushed = entries.push((key, value));
    if entries.len() == 0 {
        assert(pushed[0] == (key, value));
        assert forall|n: Seq<u8>| n != key implies #[trigger] spec_dict_get(pushed, n)
            == spec_dict_get(entries, n) by {
            assert(pushed.skip(1) =~= entries);
        }
    } else {
        lemma_dict_get_push(entries.skip(1), key, value);
        assert(pushed[0] == entries[0]);
        assert(pushed.skip(1) =~= entries.skip(1).push((key, value)));
        assert(spec_dict_get(pushed, key) == Some(value));
        assert forall|n: Seq<u8>| n != key implies spec_dict_get(pushed, n) == spec_dict_get(
            entries,
            n,
        ) by {
            assert(spec_dict_get(pushed.skip(1), n) == spec_dict_get(
                entries.skip(1).push((key, value)),
                n,
            ));
        }
    }
}

/// Deep copy of an object; the copy has the same value.
pub fn clone_object(o: &Object) -> (r: Object)
    ensures
        r@ == o@,
    decreases *o,
{
    broadcast use group_object_views;

    match o {
        Object::Null => Object::Null,
        Object::Boolean(b) => Object::Boolean(*b),
        Object::Integer(i) => Object::Integer(*i),
        Object::Real(m) => Object::Real(*m),
        Object::Str(v) => Object::Str(copy_bytes(v)),
        Object::Name(v) => Object::Name(copy_bytes(v)),
        Object::Array(items) => {
            let mut out: Vec<Object> = Vec::new();
            let mut i: usize = 0;
            while i < items.len()
                invariant
                    *o is Array,
                    *items == o->Array_0,
                    i <= items@.len(),
                    out@.len() == i,
                    forall|j: int| 0 <= j < i ==> (#[trigger] out@[j])@ == items@[j]@,
                decreases items@.len() - i,
            {
                proof {
                    assert(decreases_to!(*o => o->Array_0@[i as int]));
                }
                let c = clone_object(&items[i]);
                out.push(c);
                i += 1;
            }
            proof {
                lemma_view_arr_len(out@);
                lemma_view_arr_len(items@);
                assert forall|j: int| 0 <= j < items@.len() implies view_arr(out@)[j] == view_arr(
                    items@,
                )[j] by {
                    lemma_view_arr_index(out@, j);
                    lemma_view_arr_index(items@, j);
                }
                assert(view_arr(out@) =~= view_arr(items@));
            }
            Object::Array(out)
        },
        Object::Dict(d) => Object::Dict(clone_dictionary(d)),
        Object::Stream(d, data) => Object::Stream(clone_dictionary(d), copy_bytes(data)),
        Object::Reference(id) => Object::Reference(*id),
    }
}

/// Deep copy of a dictionary; the copy has the same value.
pub fn clone_dictionary(d: &Dictionary) -> (r: Dictionary)
    ensures
        r@ == d@,
    decreases *d,
{
    broadcast use group_object_views;

    let mut out: Vec<(Vec<u8>, Object)> = Vec::new();
    let mut i: usize = 0;
    while i < d.entries.len()
        invariant
            i <= d.entries@.len(),
            out@.len() == i,
            forall|j: int|
                0 <= j < i ==> (#[trigger] out@[j]).0@ == d.entries@[j].0@ && out@[j].1@
                    == d.entries@[j].1@,
        decreases d.entries@.len() - i,
    {
        let key = copy_bytes(&d.entries[i].0);
        proof {
            assert(decreases_to!(*d => d.entries@[i as int].1));
        }
        let value = clone_object(&d.entries[i].1);
        out.push((key, value));
        i += 1;
    }
    let r = Dictionary { entries: out };
    proof {
        lemma_view_entries_len(out@);
        lemma_view_entries_len(d.entries@);
        assert forall|j: int| 0 <= j < d.entries@.len() implies view_entries(out@)[j]
            == view_entries(d.entries@)[j] by {
            lemma_view_entries_index(out@, j);
            lemma_view_entries_index(d.entries@, j);
        }
        assert(view_entries(out@) =~= view_entries(d.entries@));
    }
    r
}

} // verus!
