//! The merge engine: combines several documents into one. Each source's
//! objects are carried into the destination with every identifier, and
//! every reference inside them, shifted by a per-source offset — the
//! remapping table of this merge, built once per source — so that no two
//! objects collide. The merged page order is the concatenation of the
//! sources' page orders; metadata is taken from the first source only.

use vstd::prelude::*;
use crate::attrs::{name_type, name_media_box, name_rotate, name_page, EffAttrs, InheritedVal};
use crate::errors::EngineError;
use crate::object::{
    view_arr, lemma_view_arr_len, lemma_view_arr_index, Object, ObjectId, ObjectVal,
    Dictionary,
};
use crate::plan::{
    attrs_of, build_tree, built_tree_shape, is_planned_leaf, lemma_built_tree_enumerate,
    lemma_planned_block_intro, mb_array_val, planned_block, planned_recs, refs_of,
};
use crate::store::{spec_store_get, Store};
use crate::walk::{enumerate, spec_enumerate, PageRec};

verus! {

/// An identifier shifted by a merge offset.
pub open spec fn remap_id(id: ObjectId, base: u32) -> ObjectId {
    ObjectId { number: (id.number + base) as u32, generation: id.generation }
}

/// An object value with every reference in it shifted by a merge
/// offset; everything else is unchanged.
pub open spec fn remap_val(v: ObjectVal, base: u32) -> ObjectVal
    decreases v,
{
    match v {
        ObjectVal::Array(items) => ObjectVal::Array(remap_seq(items, base)),
        ObjectVal::Dict(d) => ObjectVal::Dict(remap_entries(d, base)),
        ObjectVal::Stream(d, data) => ObjectVal::Stream(remap_entries(d, base), data),
        ObjectVal::Reference(id) => ObjectVal::Reference(remap_id(id, base)),
        _ => v,
    }
}

/// Each element remapped.
pub open spec fn remap_seq(s: Seq<ObjectVal>, base: u32) -> Seq<ObjectVal>
    decreases s,
{
    if s.len() == 0 {
        Seq::empty()
    } else {
        remap_seq(s.subrange(0, s.len() - 1), base).push(remap_val(s[s.len() - 1], base))
    }
}

/// Each entry's value remapped; keys are unchanged.
pub open spec fn remap_entries(s: Seq<(Seq<u8>, ObjectVal)>, base: u32) -> Seq<(Seq<u8>, ObjectVal)>
    decreases s,
{
    if s.len() == 0 {
        Seq::empty()
    } else {
        remap_entries(s.subrange(0, s.len() - 1), base).push(
            (s[s.len() - 1].0, remap_val(s[s.len() - 1].1, base)),
        )
    }
}

/// `remap_seq` keeps the length.
pub proof fn lemma_remap_seq_len(s: Seq<ObjectVal>, base: u32)
    ensures
        remap_seq(s, base).len() == s.len(),
    decreases s,
{
    if s.len() > 0 {
        lemma_remap_seq_len(s.subrange(0, s.len() - 1), base);
    }
}

/// Indexing into `remap_seq`.
pub proof fn lemma_remap_seq_index(s: Seq<ObjectVal>, base: u32, i: int)
    requires
        0 <= i < s.len(),
    ensures
        remap_seq(s, base)[i] == remap_val(s[i], base),
    decreases s,
{
    lemma_remap_seq_len(s.subrange(0, s.len() - 1), base);
    if i < s.len() - 1 {
        lemma_remap_seq_index(s.subrange(0, s.len() - 1), base, i);
    }
}

/// `remap_entries` keeps the length.
pub proof fn lemma_remap_entries_len(s: Seq<(Seq<u8>, ObjectVal)>, base: u32)
    ensures
        remap_entries(s, base).len() == s.len(),
    decreases s,
{
    if s.len() > 0 {
        lemma_remap_entries_len(s.subrange(0, s.len() - 1), base);
    }
}

/// Indexing into `remap_entries`.
pub proof fn lemma_remap_entries_index(s: Seq<(Seq<u8>, ObjectVal)>, base: u32, i: int)
    requires
        0 <= i < s.len(),
    ensures
        remap_entries(s, base)[i] == (s[i].0, remap_val(s[i].1, base)),
    decreases s,
{
    lemma_remap_entries_len(s.subrange(0, s.len() - 1), base);
    if i < s.len() - 1 {
        lemma_remap_entries_index(s.subrange(0, s.len() - 1), base, i);
    }
}

/// Rebuilds an object with every reference shifted by `base`; fails only
/// when a shifted number would leave the identifier space.
fn remap_object(o: &Object, base: u32) -> (r: Result<Object, EngineError>)
    ensures
        match r {
            Ok(ro) => ro@ == remap_val(o@, base),
            Err(e) => e == EngineError::Serialization,
        },
    decreases *o,
{
    match o {
        Object::Null => Ok(Object::Null),
        Object::Boolean(b) => Ok(Object::Boolean(*b)),
        Object::Integer(i) => Ok(Object::Integer(*i)),
        Object::Real(m) => Ok(Object::Real(*m)),
        Object::Str(v) => Ok(Object::Str(crate::object::copy_bytes(v))),
        Object::Name(v) => Ok(Object::Name(crate::object::copy_bytes(v))),
        Object::Reference(id) => {
            if id.number > u32::MAX - base {
                Err(EngineError::Serialization)
            } else {
                Ok(Object::Reference(ObjectId { number: id.number + base, generation: id.generation }))
            }
        },
        Object::Array(items) => {
            let mut out: Vec<Object> = Vec::new();
            let mut i: usize = 0;
            while i < items.len()
                invariant
                    *o is Array,
                    *items == o->Array_0,
                    i <= items@.len(),
                    out@.len() == i,
                    forall|j: int| 0 <= j < i ==> (#[trigger] out@[j])@ == remap_val(items@[j]@, base),
                decreases items@.len() - i,
            {
                proof {
                    assert(decreases_to!(*o => o->Array_0@[i as int]));
                }
                let c = match remap_object(&items[i], base) {
                    Ok(c) => c,
                    Err(e) => {
                        return Err(e);
                    },
                };
                out.push(c);
                i += 1;
            }
            proof {
                lemma_view_arr_len(out@);
                lemma_view_arr_len(items@);
                lemma_remap_seq_len(view_arr(items@), base);
                assert forall|j: int| 0 <= j < items@.len() implies view_arr(out@)[j] == remap_seq(
                    view_arr(items@),
                    base,
                )[j] by {
                    lemma_view_arr_index(out@, j);
                    lemma_view_arr_index(items@, j);
                    lemma_remap_seq_index(view_arr(items@), base, j);
                }
                assert(view_arr(out@) =~= remap_seq(view_arr(items@), base));
            }
            Ok(Object::Array(out))
        },
        Object::Dict(d) => {
            match remap_dictionary(d, base) {
                Ok(rd) => Ok(Object::Dict(rd)),
                Err(e) => Err(e),
            }
        },
        Object::Stream(d, data) => {
            match remap_dictionary(d, base) {
                Ok(rd) => Ok(Object::Stream(rd, crate::object::copy_bytes(data))),
                Err(e) => Err(e),
            }
        },
    }
}

/// Rebuilds a dictionary with every reference in its values shifted.
fn remap_dictionary(d: &Dictionary, base: u32) -> (r: Result<Dictionary, EngineError>)
    ensures
        match r {
            Ok(rd) => rd@ == remap_entries(d@, base),
            Err(e) => e == EngineError::Serialization,
        },
    decreases *d,
{
    broadcast use crate::object::group_object_views;

    let mut out: Vec<(Vec<u8>, Object)> = Vec::new();
    let mut i: usize = 0;
    while i < d.entries.len()
        invariant
            i <= d.entries@.len(),
            out@.len() == i,
            forall|j: int|
                0 <= j < i ==> (#[trigger] out@[j]).0@ == d.entries@[j].0@ && out@[j].1@
                    == remap_val(d.entries@[j].1@, base),
        decreases d.entries@.len() - i,
    {
        let key = crate::object::copy_bytes(&d.entries[i].0);
        proof {
            assert(decreases_to!(*d => d.entries@[i as int].1));
        }
        let value = match remap_object(&d.entries[i].1, base) {
            Ok(v) => v,
            Err(e) => {
                return Err(e);
            },
        };
        out.push((key, value));
        i += 1;
    }
    let r = Dictionary { entries: out };
    proof {
        lemma_remap_entries_len(crate::object::view_entries(d.entries@), base);
        assert forall|j: int| 0 <= j < d.entries@.len() implies crate::object::view_entries(out@)[j]
            == remap_entries(crate::object::view_entries(d.entries@), base)[j] by {
            crate::object::lemma_view_entries_index(out@, j);
            crate::object::lemma_view_entries_index(d.entries@, j);
            lemma_remap_entries_index(crate::object::view_entries(d.entries@), base, j);
        }
        assert(crate::object::view_entries(out@) =~= remap_entries(
            crate::object::view_entries(d.entries@),
            base,
        ));
    }
    Ok(r)
}

/// The merged target attributes: each source's enumerated page
/// attributes, concatenated in source order; a source that cannot be
/// enumerated fails the merge with its own error.
pub open spec fn spec_merged_attrs(ss: Seq<Store>) -> Result<Seq<EffAttrs>, EngineError>
    decreases ss.len(),
{
    if ss.len() == 0 {
        Ok(Seq::empty())
    } else {
        match spec_enumerate(ss[0]) {
            Err(e) => Err(e),
            Ok(pw) => match spec_merged_attrs(ss.skip(1)) {
                Err(e) => Err(e),
                Ok(rest) => Ok(attrs_of(pw.0) + rest),
            },
        }
    }
}


/// Two planned blocks in sequence make one: the second preserves what
/// the first established.
pub proof fn lemma_planned_block_trans(
    d0: Seq<(ObjectId, ObjectVal)>,
    d1: Seq<(ObjectId, ObjectVal)>,
    d2: Seq<(ObjectId, ObjectVal)>,
    i0: Seq<ObjectId>,
    i1: Seq<ObjectId>,
    i2: Seq<ObjectId>,
    t1: Seq<EffAttrs>,
    t2: Seq<EffAttrs>,
)
    requires
        planned_block(d0, d1, i0, i1, t1),
        planned_block(d1, d2, i1, i2, t2),
    ensures
        planned_block(d0, d2, i0, i2, t1 + t2),
{
    let t = t1 + t2;
    assert(i2.len() == i0.len() + t.len());
    assert forall|x: int| 0 <= x < i0.len() implies i2.subrange(0, i0.len() as int)[x]
        == i0[x] by {
        assert(i2.subrange(0, i1.len() as int)[x] == i1[x]);
        assert(i1.subrange(0, i0.len() as int)[x] == i0[x]);
    }
    assert(i2.subrange(0, i0.len() as int) =~= i0);
    assert forall|k: int| 0 <= k < t.len() implies is_planned_leaf(
        d2,
        i2[i0.len() + k],
        #[trigger] t[k],
    ) && t[k].wf() by {
        if k < t1.len() {
            assert(t[k] == t1[k]);
            assert(is_planned_leaf(d1, i1[i0.len() + k], t1[k]));
            assert(i2.subrange(0, i1.len() as int)[i0.len() + k] == i1[i0.len() + k]);
            assert(i2[i0.len() + k] == i1[i0.len() + k]);
            assert(spec_store_get(d1, i1[i0.len() + k]) is Some);
            assert(spec_store_get(d2, i1[i0.len() + k]) == spec_store_get(d1, i1[i0.len() + k]));
        } else {
            assert(t[k] == t2[k - t1.len()]);
            assert(is_planned_leaf(d2, i2[i1.len() + (k - t1.len())], t2[k - t1.len()]));
            assert(i2[i1.len() + (k - t1.len())] == i2[i0.len() + k]);
        }
    }
    assert forall|id2: ObjectId| spec_store_get(d0, id2) is Some implies #[trigger] spec_store_get(
        d2,
        id2,
    ) == spec_store_get(d0, id2) by {
        assert(spec_store_get(d1, id2) == spec_store_get(d0, id2));
    }
    lemma_planned_block_intro(d0, d2, i0, i2, t);
}

/// Every object of a source re-enters the destination under its
/// identifier shifted by `base`, with every reference inside it
/// shifted alike: the reference-consistent graph copy of one source.
pub open spec fn source_copied(
    src_s: Seq<(ObjectId, ObjectVal)>,
    out_s: Seq<(ObjectId, ObjectVal)>,
    base: u32,
) -> bool {
    forall|t: int|
        0 <= t < src_s.len() ==> #[trigger] spec_store_get(out_s, remap_id(src_s[t].0, base))
            == Some(remap_val(src_s[t].1, base))
}

/// Some per-source offset carries the whole source into the store.
pub open spec fn source_in(out_s: Seq<(ObjectId, ObjectVal)>, src: Store) -> bool {
    exists|base: u32| source_copied(src@, out_s, base)
}

/// Copies every object of `src` into `dest`, numbers and references
/// shifted by `base`; `base` must bound every number already in use.
fn copy_objects(src: &Store, base: u32, dest: &mut Store) -> (r: Result<(), EngineError>)
    requires
        src.wf(),
        old(dest).wf(),
        forall|t: int| 0 <= t < old(dest)@.len() ==> (#[trigger] old(dest)@[t]).0.number <= base,
    ensures
        final(dest).wf(),
        final(dest).root == old(dest).root,
        final(dest).info == old(dest).info,
        forall|id2: ObjectId|
            spec_store_get(old(dest)@, id2) is Some ==> #[trigger] spec_store_get(
                final(dest)@,
                id2,
            ) == spec_store_get(old(dest)@, id2),
        r is Ok ==> final(dest)@.len() == old(dest)@.len() + src@.len() && forall|t: int|
            0 <= t < src@.len() ==> #[trigger] final(dest)@[old(dest)@.len() + t] == (
                remap_id(src@[t].0, base),
                remap_val(src@[t].1, base),
            ),
        r is Ok ==> source_copied(src@, final(dest)@, base),
        r matches Err(e) ==> e == EngineError::Serialization,
{
    let n = src.len();
    let ghost dest0 = dest@;
    let mut j: usize = 0;
    while j < n
        invariant
            src.wf(),
            dest.wf(),
            n == src@.len(),
            j <= n,
            dest.root == old(dest).root,
            dest.info == old(dest).info,
            dest0 == old(dest)@,
            forall|t: int| 0 <= t < dest0.len() ==> (#[trigger] dest0[t]).0.number <= base,
            dest@.len() == dest0.len() + j,
            forall|t: int| 0 <= t < dest0.len() ==> #[trigger] dest@[t] == dest0[t],
            forall|t: int|
                0 <= t < j ==> #[trigger] dest@[dest0.len() + t] == (
                    remap_id(src@[t].0, base),
                    remap_val(src@[t].1, base),
                ),
            forall|t: int| 0 <= t < j ==> (#[trigger] src@[t]).0.number <= u32::MAX - base,
            forall|id2: ObjectId|
                spec_store_get(dest0, id2) is Some ==> #[trigger] spec_store_get(dest@, id2)
                    == spec_store_get(dest0, id2),
        decreases n - j,
    {
        let id = src.id_at(j);
        let obj = src.obj_at(j);
        if id.number > u32::MAX - base {
            return Err(EngineError::Serialization);
        }
        let nid = ObjectId { number: id.number + base, generation: id.generation };
        let ro = match remap_object(obj, base) {
            Ok(ro) => ro,
            Err(e) => {
                return Err(e);
            },
        };
        proof {
            assert(src@[j as int].0.number >= 1);
            assert forall|t: int| 0 <= t < dest@.len() implies (#[trigger] dest@[t]).0.number
                < nid.number by {
                if t < dest0.len() {
                    assert(dest@[t] == dest0[t]);
                } else {
                    let tt = t - dest0.len();
                    assert(dest@[dest0.len() + tt] == (remap_id(src@[tt].0, base), remap_val(
                        src@[tt].1,
                        base,
                    )));
                    assert(src@[tt].0.number < src@[j as int].0.number);
                    assert(src@[tt].0.number <= u32::MAX - base);
                    assert(dest@[t].0.number == src@[tt].0.number + base);
                }
            }
            assert(nid == remap_id(src@[j as int].0, base));
        }
        let ghost mid = dest@;
        dest.append_object(nid, ro);
        proof {
            assert(dest@ == mid.push((nid, ro@)));
            assert forall|id2: ObjectId| spec_store_get(dest0, id2) is Some implies #[trigger]
                spec_store_get(dest@, id2) == spec_store_get(dest0, id2) by {
                if id2 == nid {
                    assert(spec_store_get(mid, nid) is None);
                } else {
                    assert(spec_store_get(dest@, id2) == spec_store_get(mid, id2));
                }
            }
        }
        j += 1;
    }
    proof {
        assert forall|t: int| 0 <= t < src@.len() implies #[trigger] spec_store_get(
            dest@,
            remap_id(src@[t].0, base),
        ) == Some(remap_val(src@[t].1, base)) by {
            assert(dest@[dest0.len() + t] == (remap_id(src@[t].0, base), remap_val(
                src@[t].1,
                base,
            )));
            crate::store::lemma_sorted_get_at(dest@, dest0.len() + t);
        }
    }
    Ok(())
}

/// Materializes every enumerated page of one source, from position `j`
/// on, into `dest`: a remapped clone of the leaf dictionary with Type,
/// page rectangle and rotation written in, under a fresh identifier.
#[verifier::spinoff_prover]
#[verifier::rlimit(60)]
fn merge_leaves(
    src: &Store,
    pages: &Vec<PageRec>,
    base: u32,
    j: usize,
    dest: &mut Store,
    leaf_ids: &mut Vec<ObjectId>,
) -> (r: Result<(), EngineError>)
    requires
        j <= pages@.len(),
        old(dest).wf(),
        forall|k: int|
            0 <= k < pages@.len() ==> (spec_store_get(src@, (#[trigger] pages@[k]).id) matches Some(
                ObjectVal::Dict(_),
            )) && pages@[k].attrs.wf(),
    ensures
        final(dest).wf(),
        final(dest).root == old(dest).root,
        final(dest).info == old(dest).info,
        r is Ok ==> planned_block(
            old(dest)@,
            final(dest)@,
            old(leaf_ids)@,
            final(leaf_ids)@,
            attrs_of(pages@.skip(j as int)),
        ),
        r matches Err(e) ==> e == EngineError::Serialization,
    decreases pages@.len() - j,
{
    let ghost tseq = attrs_of(pages@.skip(j as int));
    if j == pages.len() {
        proof {
            assert(pages@.skip(j as int) =~= Seq::<PageRec>::empty());
            assert(tseq =~= Seq::<EffAttrs>::empty());
            assert(leaf_ids@.subrange(0, leaf_ids@.len() as int) =~= leaf_ids@);
            assert(planned_block(dest@, dest@, leaf_ids@, leaf_ids@, tseq));
        }
        return Ok(());
    }
    proof {
        assert(pages@.skip(j as int)[0] == pages@[j as int]);
        assert(pages@.skip(j as int).skip(1) =~= pages@.skip(j as int + 1));
    }
    let rec = pages[j];
    let target = rec.attrs;
    let leaf_obj = match src.get(rec.id) {
        Ok(o) => o,
        Err(_) => {
            proof {
                assert(false);
            }
            return Err(EngineError::Serialization);
        },
    };
    let leaf_dict = match leaf_obj {
        Object::Dict(d) => d,
        _ => {
            proof {
                assert(false);
            }
            return Err(EngineError::Serialization);
        },
    };
    let mut d2 = match remap_dictionary(leaf_dict, base) {
        Ok(rd) => rd,
        Err(e) => {
            return Err(e);
        },
    };
    let ty_name = name_type();
    let mb_name = name_media_box();
    let rot_name = name_rotate();
    d2.set(ty_name.as_slice(), Object::Name(name_page()));
    let mut mb_items: Vec<Object> = Vec::new();
    mb_items.push(Object::Real(target.media_box.llx));
    mb_items.push(Object::Real(target.media_box.lly));
    mb_items.push(Object::Real(target.media_box.urx));
    mb_items.push(Object::Real(target.media_box.ury));
    proof {
        lemma_view_arr_len(mb_items@);
        lemma_view_arr_index(mb_items@, 0);
        lemma_view_arr_index(mb_items@, 1);
        lemma_view_arr_index(mb_items@, 2);
        lemma_view_arr_index(mb_items@, 3);
        assert(view_arr(mb_items@) =~= mb_array_val(target.media_box)->Array_0);
    }
    d2.set(mb_name.as_slice(), Object::Array(mb_items));
    d2.set(rot_name.as_slice(), Object::Integer(target.rotation));
    proof {
        assert(crate::attrs::nm_type()[0] == 84 && crate::attrs::nm_media_box()[0] == 77
            && crate::attrs::nm_rotate()[0] == 82);
        assert(crate::attrs::nm_type() != crate::attrs::nm_media_box() && crate::attrs::nm_type()
            != crate::attrs::nm_rotate() && crate::attrs::nm_media_box()
            != crate::attrs::nm_rotate());
        assert(d2.spec_get(crate::attrs::nm_type()) == Some(
            ObjectVal::Name(crate::attrs::nm_page()),
        ));
        assert(d2.spec_get(crate::attrs::nm_media_box()) == Some(mb_array_val(target.media_box)));
        assert(d2.spec_get(crate::attrs::nm_rotate()) == Some(
            ObjectVal::Integer(target.rotation),
        ));
    }
    let ghost dest0 = dest@;
    let ghost ids0 = leaf_ids@;
    let new_id = match dest.insert(Object::Dict(d2)) {
        Ok(id) => id,
        Err(e) => {
            return Err(e);
        },
    };
    leaf_ids.push(new_id);
    proof {
        assert(is_planned_leaf(dest@, new_id, target));
        assert(target.wf());
    }
    let ghost dest1 = dest@;
    let ghost ids1 = leaf_ids@;
    let r2 = merge_leaves(src, pages, base, j + 1, dest, leaf_ids);
    proof {
        if r2 is Ok {
            let tseq_rest = attrs_of(pages@.skip(j as int + 1));
            assert(tseq =~= seq![target] + tseq_rest);
            assert(leaf_ids@.subrange(0, ids1.len() as int) == ids1);
            assert(leaf_ids@.subrange(0, ids0.len() as int) =~= ids0);
            assert(leaf_ids@[ids0.len() as int] == ids1[ids0.len() as int]);
            assert(leaf_ids@[ids0.len() as int] == new_id);
            assert(spec_store_get(dest1, new_id) is Some);
            assert(spec_store_get(dest@, new_id) == spec_store_get(dest1, new_id));
            assert(is_planned_leaf(dest@, new_id, target));
            assert forall|k: int| 0 <= k < tseq.len() implies is_planned_leaf(
                dest@,
                leaf_ids@[ids0.len() + k],
                #[trigger] tseq[k],
            ) && tseq[k].wf() by {
                if k == 0 {
                    assert(leaf_ids@[ids0.len() + k] == new_id);
                } else {
                    assert(tseq[k] == tseq_rest[k - 1]);
                    assert(is_planned_leaf(dest@, leaf_ids@[ids1.len() + (k - 1)], tseq_rest[k
                        - 1]));
                    assert(leaf_ids@[ids1.len() + (k - 1)] == leaf_ids@[ids0.len() + k]);
                }
            }
            assert forall|id2: ObjectId| spec_store_get(dest0, id2) is Some implies #[trigger]
                spec_store_get(dest@, id2) == spec_store_get(dest0, id2) by {
                assert(id2 != new_id);
                assert(spec_store_get(dest1, id2) == spec_store_get(dest0, id2));
            }
            assert(leaf_ids@.len() == ids0.len() + tseq.len());
            lemma_planned_block_intro(dest0, dest@, ids0, leaf_ids@, tseq);
        }
    }
    r2
}

/// Merges the sources from position `i` on into `dest`: copies each
/// source's objects under shifted identifiers and materializes its
/// pages in order.
fn merge_from(
    sources: &Vec<Store>,
    i: usize,
    dest: &mut Store,
    leaf_ids: &mut Vec<ObjectId>,
) -> (r: Result<(), EngineError>)
    requires
        i <= sources@.len(),
        old(dest).wf(),
        forall|k: int| 0 <= k < sources@.len() ==> (#[trigger] sources@[k]).wf(),
    ensures
        final(dest).wf(),
        final(dest).root == old(dest).root,
        final(dest).info == old(dest).info,
        r is Ok ==> (spec_merged_attrs(sources@.skip(i as int)) matches Ok(ts) && planned_block(
            old(dest)@,
            final(dest)@,
            old(leaf_ids)@,
            final(leaf_ids)@,
            ts,
        )),
        r is Ok ==> forall|i2: int|
            i <= i2 < sources@.len() ==> #[trigger] source_in(final(dest)@, sources@[i2]),
        r matches Err(e) ==> ((spec_merged_attrs(sources@.skip(i as int)) matches Err(e2) && e
            == e2) || e == EngineError::Serialization),
    decreases sources@.len() - i,
{
    if i == sources.len() {
        proof {
            assert(sources@.skip(i as int) =~= Seq::<Store>::empty());
            assert(leaf_ids@.subrange(0, leaf_ids@.len() as int) =~= leaf_ids@);
            assert(planned_block(dest@, dest@, leaf_ids@, leaf_ids@, Seq::<EffAttrs>::empty()));
        }
        return Ok(());
    }
    proof {
        assert(sources@.skip(i as int)[0] == sources@[i as int]);
        assert(sources@.skip(i as int).skip(1) =~= sources@.skip(i as int + 1));
    }
    let src = &sources[i];
    let pw = match enumerate(src) {
        Ok(pw) => pw,
        Err(e) => {
            return Err(e);
        },
    };
    let pages = pw.0;
    proof {
        let rid = src.root.unwrap();
        let catd = spec_store_get(src@, rid).unwrap()->Dict_0;
        let pid0 = crate::object::spec_dict_get(catd, crate::attrs::nm_pages()).unwrap()
            ->Reference_0;
        crate::walk::lemma_walk_node_pages(
            src@,
            pid0,
            seq![pid0],
            InheritedVal { media_box: None, rotate: None },
            src@.len() as nat,
        );
    }
    let base = dest.max_number();
    let ghost dest0 = dest@;
    let ghost ids0 = leaf_ids@;
    match copy_objects(src, base, dest) {
        Ok(_) => {},
        Err(e) => {
            return Err(e);
        },
    }
    proof {
        assert(ids0.subrange(0, ids0.len() as int) =~= ids0);
        lemma_planned_block_intro(dest0, dest@, ids0, ids0, Seq::<EffAttrs>::empty());
    }
    let ghost dest_copied = dest@;
    match merge_leaves(src, &pages, base, 0, dest, leaf_ids) {
        Ok(_) => {},
        Err(e) => {
            return Err(e);
        },
    }
    proof {
        assert(pages@.skip(0) =~= pages@);
    }
    let ghost dest_leaved = dest@;
    let ghost ids1 = leaf_ids@;
    let r2 = merge_from(sources, i + 1, dest, leaf_ids);
    proof {
        if r2 is Ok {
            assert forall|i2: int| i <= i2 < sources@.len() implies #[trigger] source_in(
                dest@,
                sources@[i2],
            ) by {
                if i2 == i {
                    assert forall|t: int| 0 <= t < src@.len() implies #[trigger] spec_store_get(
                        dest@,
                        remap_id(src@[t].0, base),
                    ) == Some(remap_val(src@[t].1, base)) by {
                        let rid = remap_id(src@[t].0, base);
                        assert(spec_store_get(dest_copied, rid) == Some(remap_val(
                            src@[t].1,
                            base,
                        )));
                        assert(spec_store_get(dest_leaved, rid) == spec_store_get(
                            dest_copied,
                            rid,
                        ));
                        assert(spec_store_get(dest@, rid) == spec_store_get(dest_leaved, rid));
                    }
                    assert(source_copied(sources@[i2]@, dest@, base));
                    assert(source_in(dest@, sources@[i2]));
                } else {
                    assert(i + 1 <= i2 < sources@.len());
                }
            }
            let ts_here = attrs_of(pages@);
            let ts_rest = spec_merged_attrs(sources@.skip(i as int + 1)).unwrap();
            lemma_planned_block_trans(
                dest0,
                dest_copied,
                dest_leaved,
                ids0,
                ids0,
                ids1,
                Seq::<EffAttrs>::empty(),
                ts_here,
            );
            lemma_planned_block_trans(
                dest0,
                dest_leaved,
                dest@,
                ids0,
                ids1,
                leaf_ids@,
                Seq::<EffAttrs>::empty() + ts_here,
                ts_rest,
            );
            let ts = spec_merged_attrs(sources@.skip(i as int)).unwrap();
            assert(attrs_of(pages@) =~= attrs_of(spec_enumerate(sources@[i as int]).unwrap().0));
            assert(ts =~= (Seq::<EffAttrs>::empty() + ts_here) + ts_rest);
        }
    }
    r2
}

/// A merge's selection fails only the way enumerating a source fails:
/// with a parse failure, a cycle, a dangling reference, or a malformed
/// attribute — never with an empty-input error.
pub proof fn lemma_merged_attrs_error(ss: Seq<Store>)
    ensures
        spec_merged_attrs(ss) matches Err(e) ==> (e == EngineError::Parse || e is CyclicPageTree
            || e is DanglingReference || e is MalformedAttribute),
    decreases ss.len(),
{
    if ss.len() > 0 {
        crate::walk::lemma_enumerate_error(ss[0]);
        lemma_merged_attrs_error(ss.skip(1));
    }
}

/// Merges the documents in order into one: the result's page sequence
/// is the concatenation of the sources' page sequences, every object is
/// carried over under a collision-free identifier, and the metadata
/// reference is the first source's. An empty source list is refused.
pub fn merge(sources: &Vec<Store>) -> (r: Result<Store, EngineError>)
    requires
        forall|k: int| 0 <= k < sources@.len() ==> (#[trigger] sources@[k]).wf(),
    ensures
        ({
            match r {
                Ok(out) => ({
                    &&& out.wf()
                    &&& sources@.len() > 0
                    &&& out.info == sources@[0].info
                    &&& spec_merged_attrs(sources@) matches Ok(ts) && spec_enumerate(out) matches Ok(
                        npw,
                    ) && {
                        &&& npw.0.len() == ts.len()
                        &&& forall|k: int|
                            0 <= k < ts.len() ==> (#[trigger] npw.0[k]).attrs == ts[k]
                        &&& npw.1 == Seq::<ObjectId>::empty()
                        &&& built_tree_shape(out, npw.0)
                    }
                    &&& forall|i2: int|
                        0 <= i2 < sources@.len() ==> #[trigger] source_in(out@, sources@[i2])
                }),
                Err(e) => (sources@.len() == 0 && e == EngineError::EmptyInput) || (
                spec_merged_attrs(sources@) matches Err(e2) && e == e2) || e
                    == EngineError::Serialization,
            }
        }),
        r == Err::<Store, EngineError>(EngineError::EmptyInput) <==> sources@.len() == 0,
{
    if sources.len() == 0 {
        return Err(EngineError::EmptyInput);
    }
    let mut dest = Store::new();
    dest.info = sources[0].info;
    let mut leaf_ids: Vec<ObjectId> = Vec::new();
    proof {
        assert(sources@.skip(0) =~= sources@);
    }
    let ghost ids_before = leaf_ids@;
    match merge_from(sources, 0, &mut dest, &mut leaf_ids) {
        Ok(_) => {},
        Err(e) => {
            proof {
                lemma_merged_attrs_error(sources@);
                assert(e != EngineError::EmptyInput);
            }
            return Err(e);
        },
    }
    let ghost tseq = spec_merged_attrs(sources@).unwrap();
    let ghost dest_planned = dest@;
    proof {
        assert(ids_before.len() == 0);
        assert forall|k: int| 0 <= k < leaf_ids@.len() implies is_planned_leaf(
            dest_planned,
            #[trigger] leaf_ids@[k],
            tseq[k],
        ) && tseq[k].wf() by {
            assert(is_planned_leaf(dest_planned, leaf_ids@[ids_before.len() + k], tseq[k])
                && tseq[k].wf());
        }
    }
    let pc = match build_tree(&mut dest, &leaf_ids) {
        Ok(pc) => pc,
        Err(e) => {
            return Err(e);
        },
    };
    proof {
        let pid = pc.0;
        let cid = pc.1;
        assert forall|k: int| 0 <= k < leaf_ids@.len() implies is_planned_leaf(
            dest@,
            #[trigger] leaf_ids@[k],
            tseq[k],
        ) && tseq[k].wf() && leaf_ids@[k] != pid by {
            assert(is_planned_leaf(dest_planned, leaf_ids@[k], tseq[k]));
            assert(spec_store_get(dest_planned, leaf_ids@[k]) is Some);
            assert(leaf_ids@[k] != pid && leaf_ids@[k] != cid);
            assert(spec_store_get(dest@, leaf_ids@[k]) == spec_store_get(
                dest_planned,
                leaf_ids@[k],
            ));
        }
        lemma_built_tree_enumerate(dest, pid, cid, leaf_ids@, tseq);
        assert forall|k: int| 0 <= k < tseq.len() implies (#[trigger] planned_recs(
            leaf_ids@,
            tseq,
        )[k]).attrs == tseq[k] by {}
        assert forall|k: int| 0 <= k < leaf_ids@.len() implies refs_of(leaf_ids@)[k]
            == ObjectVal::Reference((#[trigger] planned_recs(leaf_ids@, tseq)[k]).id) by {}
        assert(built_tree_shape(dest, planned_recs(leaf_ids@, tseq)));
        assert forall|i2: int| 0 <= i2 < sources@.len() implies #[trigger] source_in(
            dest@,
            sources@[i2],
        ) by {
            assert(source_in(dest_planned, sources@[i2]));
            let base = choose|b: u32| source_copied(sources@[i2]@, dest_planned, b);
            assert(source_copied(sources@[i2]@, dest_planned, base));
            assert forall|t: int| 0 <= t < sources@[i2]@.len() implies #[trigger] spec_store_get(
                dest@,
                remap_id(sources@[i2]@[t].0, base),
            ) == Some(remap_val(sources@[i2]@[t].1, base)) by {
                let rid = remap_id(sources@[i2]@[t].0, base);
                assert(spec_store_get(dest_planned, rid) == Some(remap_val(
                    sources@[i2]@[t].1,
                    base,
                )));
                assert(rid != pid && rid != cid);
                assert(spec_store_get(dest@, rid) == spec_store_get(dest_planned, rid));
            }
            assert(source_copied(sources@[i2]@, dest@, base));
            assert(source_in(dest@, sources@[i2]));
        }
    }
    Ok(dest)
}

} // verus!
