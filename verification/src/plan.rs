//! The transform planner: given an edit instruction set — a page order
//! that may omit or repeat pages, absolute rotation overrides, and a set
//! of deleted pages — it computes the target page sequence and builds a
//! fresh, flat page tree over materialized leaf attributes. The new store
//! keeps the source's objects under their identifiers, so references to
//! shared contents and resources stay valid.

use vstd::prelude::*;
use crate::attrs::{
    nm_type, nm_pages, nm_page, nm_kids, nm_media_box, nm_rotate, nm_count, nm_catalog, name_type,
    name_pages, name_page, name_kids, name_media_box, name_rotate, name_count, name_catalog,
    spec_resolve, spec_inherit_val, spec_wrap_degrees, wrap_degrees, EffAttrs, InheritedVal,
    MediaBox,
};
use crate::errors::EngineError;
use crate::object::{
    clone_dictionary, view_arr, lemma_view_arr_len, lemma_view_arr_index, Object,
    ObjectId, ObjectVal, Dictionary, spec_dict_get,
};
use crate::store::{clone_store, has_room, spec_store_get, Store};
use crate::walk::{enumerate, spec_enumerate, spec_walk_kids, spec_walk_node, PageRec, WalkRes};

verus! {

/// An editing instruction set, consumed once by the planner. Page
/// numbers are 1-based positions in the source's traversal order.
pub struct EditInstructions {
    /// The requested output order; a number may be omitted or repeated.
    pub page_order: Vec<usize>,
    /// Absolute rotation overrides per page number; first entry wins.
    pub rotation_overrides: Vec<(usize, i64)>,
    /// Page numbers excluded from the output.
    pub deleted_pages: Vec<usize>,
}

/// First-match lookup of a rotation override.
pub open spec fn spec_rot_override(ros: Seq<(usize, i64)>, n: usize) -> Option<i64>
    decreases ros.len(),
{
    if ros.len() == 0 {
        None
    } else if ros[0].0 == n {
        Some(ros[0].1)
    } else {
        spec_rot_override(ros.skip(1), n)
    }
}

/// The target attribute sequence that an instruction set selects from
/// the source pages: deleted numbers are skipped, unknown numbers are an
/// error, an override that does not wrap to a whole multiple of ninety
/// degrees is a malformed attribute.
pub open spec fn spec_target_attrs(
    pages: Seq<PageRec>,
    order: Seq<usize>,
    ros: Seq<(usize, i64)>,
    dels: Seq<usize>,
) -> Result<Seq<EffAttrs>, EngineError>
    decreases order.len(),
{
    if order.len() == 0 {
        Ok(Seq::empty())
    } else {
        let n = order[0];
        if dels.contains(n) {
            spec_target_attrs(pages, order.skip(1), ros, dels)
        } else if n < 1 || n > pages.len() {
            Err(EngineError::UnknownPageNumber(n))
        } else {
            let base = pages[n - 1].attrs;
            let head = match spec_rot_override(ros, n) {
                None => Some(base),
                Some(rv) => {
                    let w = spec_wrap_degrees(rv);
                    if w == 0 || w == 90 || w == 180 || w == 270 {
                        Some(EffAttrs { media_box: base.media_box, rotation: w as i64 })
                    } else {
                        None
                    }
                },
            };
            match head {
                None => Err(EngineError::MalformedAttribute),
                Some(a) => match spec_target_attrs(pages, order.skip(1), ros, dels) {
                    Ok(rest) => Ok(seq![a] + rest),
                    Err(e) => Err(e),
                },
            }
        }
    }
}

/// The source page record selected at each output position: deleted
/// numbers are skipped; positions past an error carry no meaning, since
/// the selection then fails as `spec_target_attrs` says.
pub open spec fn spec_target_srcs(
    pages: Seq<PageRec>,
    order: Seq<usize>,
    dels: Seq<usize>,
) -> Seq<PageRec>
    decreases order.len(),
{
    if order.len() == 0 {
        Seq::empty()
    } else {
        let n = order[0];
        if dels.contains(n) {
            spec_target_srcs(pages, order.skip(1), dels)
        } else if n < 1 || n > pages.len() {
            spec_target_srcs(pages, order.skip(1), dels)
        } else {
            seq![pages[n - 1]] + spec_target_srcs(pages, order.skip(1), dels)
        }
    }
}

/// Every key other than the three the planner materializes maps to the
/// same value in both dictionaries.
pub open spec fn keeps_other_keys(
    lv: Seq<(Seq<u8>, ObjectVal)>,
    sv: Seq<(Seq<u8>, ObjectVal)>,
) -> bool {
    forall|n: Seq<u8>|
        n != nm_type() && n != nm_media_box() && n != nm_rotate() ==> #[trigger] spec_dict_get(
            lv,
            n,
        ) == spec_dict_get(sv, n)
}

/// The output leaf is a clone of the selected source leaf: whenever the
/// source holds that leaf as a dictionary, the output holds `out_id` as
/// a dictionary agreeing with it on every key the planner did not
/// materialize — Contents and Resources references in particular, so a
/// sub-object shared by several pages stays one shared target.
pub open spec fn leaf_from_source(
    src_s: Seq<(ObjectId, ObjectVal)>,
    src_rec: PageRec,
    out_s: Seq<(ObjectId, ObjectVal)>,
    out_id: ObjectId,
) -> bool {
    spec_store_get(src_s, src_rec.id) matches Some(ObjectVal::Dict(sv)) ==> (spec_store_get(
        out_s,
        out_id,
    ) matches Some(ObjectVal::Dict(lv)) && keeps_other_keys(lv, sv))
}

/// How many entries of the order are selected: those not listed as
/// deleted. Each one costs one fresh identifier.
pub open spec fn selected_count(order: Seq<usize>, dels: Seq<usize>) -> nat
    decreases order.len(),
{
    if order.len() == 0 {
        0
    } else {
        (if dels.contains(order[0]) {
            0nat
        } else {
            1nat
        }) + selected_count(order.skip(1), dels)
    }
}

/// A successful selection has exactly one target per selected entry.
pub proof fn lemma_target_len(
    pages: Seq<PageRec>,
    order: Seq<usize>,
    ros: Seq<(usize, i64)>,
    dels: Seq<usize>,
)
    ensures
        spec_target_attrs(pages, order, ros, dels) matches Ok(ts) ==> ts.len() == selected_count(
            order,
            dels,
        ),
    decreases order.len(),
{
    if order.len() > 0 {
        lemma_target_len(pages, order.skip(1), ros, dels);
    }
}

/// A successful selection picks exactly one source page per target.
pub proof fn lemma_srcs_len(
    pages: Seq<PageRec>,
    order: Seq<usize>,
    ros: Seq<(usize, i64)>,
    dels: Seq<usize>,
)
    ensures
        spec_target_attrs(pages, order, ros, dels) matches Ok(ts) ==> spec_target_srcs(
            pages,
            order,
            dels,
        ).len() == ts.len(),
    decreases order.len(),
{
    if order.len() > 0 {
        lemma_srcs_len(pages, order.skip(1), ros, dels);
    }
}

/// The attribute sequence of enumerated pages.
pub open spec fn attrs_of(pages: Seq<PageRec>) -> Seq<EffAttrs> {
    pages.map_values(|p: PageRec| p.attrs)
}

/// Round trip: the identity instruction set — every page once, in the
/// original order, no rotation overrides, no deletions — selects every
/// page's attributes unchanged, so applying it preserves the page count
/// and each page's effective size and rotation.
pub proof fn lemma_identity_round_trip(pages: Seq<PageRec>, order: Seq<usize>)
    requires
        order.len() == pages.len(),
        forall|k: int| 0 <= k < order.len() ==> #[trigger] order[k] == k + 1,
    ensures
        spec_target_attrs(pages, order, Seq::<(usize, i64)>::empty(), Seq::<usize>::empty())
            == Ok::<Seq<EffAttrs>, EngineError>(attrs_of(pages)),
{
    lemma_identity_from(pages, order, 0);
    assert(attrs_of(pages).skip(0) =~= attrs_of(pages));
}

proof fn lemma_identity_from(pages: Seq<PageRec>, order: Seq<usize>, off: int)
    requires
        0 <= off,
        off + order.len() == pages.len(),
        forall|k: int| 0 <= k < order.len() ==> #[trigger] order[k] == off + k + 1,
    ensures
        spec_target_attrs(pages, order, Seq::<(usize, i64)>::empty(), Seq::<usize>::empty())
            == Ok::<Seq<EffAttrs>, EngineError>(attrs_of(pages).skip(off)),
    decreases order.len(),
{
    if order.len() == 0 {
        assert(attrs_of(pages).skip(off) =~= Seq::<EffAttrs>::empty());
    } else {
        let n = order[0];
        assert(n == off + 1);
        assert(!Seq::<usize>::empty().contains(n));
        assert(spec_rot_override(Seq::<(usize, i64)>::empty(), n) is None);
        assert(1 <= n <= pages.len());
        assert forall|k: int| 0 <= k < order.skip(1).len() implies #[trigger] order.skip(1)[k]
            == (off + 1) + k + 1 by {
            assert(order[k + 1] == off + (k + 1) + 1);
        }
        lemma_identity_from(pages, order.skip(1), off + 1);
        assert(attrs_of(pages)[off] == pages[off].attrs);
        assert(seq![pages[n - 1].attrs] + attrs_of(pages).skip(off + 1) =~= attrs_of(pages).skip(
            off,
        ));
    }
}

/// The page rectangle written back into a materialized leaf.
pub open spec fn mb_array_val(mb: MediaBox) -> ObjectVal {
    ObjectVal::Array(
        seq![
            ObjectVal::Real(mb.llx),
            ObjectVal::Real(mb.lly),
            ObjectVal::Real(mb.urx),
            ObjectVal::Real(mb.ury),
        ],
    )
}

/// The store maps `id` to a leaf dictionary that declares Type `Page`
/// and carries the materialized attributes `a`.
pub open spec fn is_planned_leaf(s: Seq<(ObjectId, ObjectVal)>, id: ObjectId, a: EffAttrs) -> bool {
    match spec_store_get(s, id) {
        Some(ObjectVal::Dict(lv)) => {
            &&& spec_dict_get(lv, nm_type()) == Some(ObjectVal::Name(nm_page()))
            &&& spec_dict_get(lv, nm_media_box()) == Some(mb_array_val(a.media_box))
            &&& spec_dict_get(lv, nm_rotate()) == Some(ObjectVal::Integer(a.rotation))
        },
        _ => false,
    }
}

/// References to a sequence of identifiers, in order.
pub open spec fn refs_of(ids: Seq<ObjectId>) -> Seq<ObjectVal> {
    ids.map_values(|id: ObjectId| ObjectVal::Reference(id))
}

/// The page records that enumerating a built tree yields.
pub open spec fn planned_recs(ids: Seq<ObjectId>, ts: Seq<EffAttrs>) -> Seq<PageRec> {
    Seq::new(ids.len(), |k: int| PageRec { id: ids[k], attrs: ts[k] })
}

/// Walking a materialized leaf yields exactly its planned record,
/// whatever is inherited: the leaf declares both attributes itself.
pub proof fn lemma_planned_leaf_walk(
    s: Seq<(ObjectId, ObjectVal)>,
    id: ObjectId,
    a: EffAttrs,
    path: Seq<ObjectId>,
    inh: InheritedVal,
    fuel: nat,
)
    requires
        fuel >= 1,
        is_planned_leaf(s, id, a),
        a.wf(),
    ensures
        spec_walk_node(s, id, path, inh, fuel) == (WalkRes::Done {
            pages: seq![PageRec { id, attrs: a }],
            warns: Seq::<ObjectId>::empty(),
        }),
{
    let lv = spec_store_get(s, id).unwrap()->Dict_0;
    assert(nm_pages().len() == 5 && nm_page().len() == 4);
    assert(spec_dict_get(lv, nm_type()) != Some(ObjectVal::Name(nm_pages())));
    let mbv = mb_array_val(a.media_box);
    let items = mbv->Array_0;
    assert(items.len() == 4);
    assert(items[0] == ObjectVal::Real(a.media_box.llx));
    assert(items[1] == ObjectVal::Real(a.media_box.lly));
    assert(items[2] == ObjectVal::Real(a.media_box.urx));
    assert(items[3] == ObjectVal::Real(a.media_box.ury));
    assert(spec_wrap_degrees(a.rotation) == a.rotation) by {
        assert(0 <= a.rotation < 360);
        assert(a.rotation >= 0);
        vstd::arithmetic::div_mod::lemma_small_mod(a.rotation as nat, 360);
    }
    assert(spec_resolve(lv, inh) == Ok::<EffAttrs, EngineError>(a));
}

/// Walking a Kids array of references to materialized leaves, none of
/// them on the path, yields exactly the planned records, in order.
pub proof fn lemma_planned_kids_walk(
    s: Seq<(ObjectId, ObjectVal)>,
    ids: Seq<ObjectId>,
    ts: Seq<EffAttrs>,
    path: Seq<ObjectId>,
    inh: InheritedVal,
    fuel: nat,
)
    requires
        fuel >= 1,
        ids.len() == ts.len(),
        forall|k: int|
            0 <= k < ids.len() ==> is_planned_leaf(s, #[trigger] ids[k], ts[k]) && ts[k].wf()
                && !path.contains(ids[k]),
    ensures
        spec_walk_kids(s, refs_of(ids), path, inh, fuel) == (WalkRes::Done {
            pages: planned_recs(ids, ts),
            warns: Seq::<ObjectId>::empty(),
        }),
    decreases ids.len(),
{
    let kids = refs_of(ids);
    assert(kids.len() == ids.len());
    if ids.len() == 0 {
        assert(planned_recs(ids, ts) =~= Seq::<PageRec>::empty());
    } else {
        assert(kids[0] == ObjectVal::Reference(ids[0]));
        lemma_planned_leaf_walk(s, ids[0], ts[0], path.push(ids[0]), inh, fuel);
        lemma_planned_kids_walk(s, ids.skip(1), ts.skip(1), path, inh, fuel);
        assert(kids.skip(1) =~= refs_of(ids.skip(1)));
        assert(seq![PageRec { id: ids[0], attrs: ts[0] }] + planned_recs(ids.skip(1), ts.skip(1))
            =~= planned_recs(ids, ts));
        assert(Seq::<ObjectId>::empty() + Seq::<ObjectId>::empty()
            =~= Seq::<ObjectId>::empty());
    }
}

/// Enumerating a store whose root catalog points at one freshly built
/// Pages node over materialized leaves yields exactly the planned
/// records and no warnings.
pub proof fn lemma_built_tree_enumerate(
    st: Store,
    pid: ObjectId,
    cid: ObjectId,
    ids: Seq<ObjectId>,
    ts: Seq<EffAttrs>,
)
    requires
        st.root == Some(cid),
        spec_store_get(st@, cid) matches Some(ObjectVal::Dict(catv)) && spec_dict_get(
            catv,
            nm_pages(),
        ) == Some(ObjectVal::Reference(pid)),
        spec_store_get(st@, pid) matches Some(ObjectVal::Dict(pv)) && {
            &&& spec_dict_get(pv, nm_type()) == Some(ObjectVal::Name(nm_pages()))
            &&& spec_dict_get(pv, nm_kids()) == Some(ObjectVal::Array(refs_of(ids)))
            &&& spec_dict_get(pv, nm_media_box()) is None
            &&& spec_dict_get(pv, nm_rotate()) is None
        },
        ids.len() == ts.len(),
        forall|k: int|
            0 <= k < ids.len() ==> is_planned_leaf(st@, #[trigger] ids[k], ts[k]) && ts[k].wf()
                && ids[k] != pid,
        st@.len() >= 2,
    ensures
        spec_enumerate(st) == Ok::<(Seq<PageRec>, Seq<ObjectId>), EngineError>(
            (planned_recs(ids, ts), Seq::<ObjectId>::empty()),
        ),
{
    let pv = spec_store_get(st@, pid).unwrap()->Dict_0;
    let fuel = st@.len() as nat;
    assert(fuel >= 2);
    let none_inh = InheritedVal { media_box: None, rotate: None };
    assert(spec_inherit_val(pv, none_inh) =~= none_inh);
    let path = seq![pid];
    assert forall|k: int| 0 <= k < ids.len() implies is_planned_leaf(st@, #[trigger] ids[k], ts[k])
        && ts[k].wf() && !path.contains(ids[k]) by {
        assert(forall|j: int| 0 <= j < path.len() ==> path[j] == pid);
    }
    lemma_planned_kids_walk(st@, ids, ts, path, none_inh, (fuel - 1) as nat);
    assert(spec_walk_node(st@, pid, path, none_inh, fuel) == (WalkRes::Done {
        pages: planned_recs(ids, ts),
        warns: Seq::<ObjectId>::empty(),
    }));
}

/// Builds one Pages node over the given leaves and a root catalog above
/// it, and points the trailer's root at the catalog.
pub fn build_tree(dest: &mut Store, leaf_ids: &Vec<ObjectId>) -> (r: Result<
    (ObjectId, ObjectId),
    EngineError,
>)
    requires
        old(dest).wf(),
    ensures
        final(dest).wf(),
        match r {
            Ok(pc) => {
                let pid = pc.0;
                let cid = pc.1;
                &&& final(dest).root == Some(cid)
                &&& final(dest).info == old(dest).info
                &&& spec_store_get(final(dest)@, cid) matches Some(ObjectVal::Dict(catv))
                    && spec_dict_get(catv, nm_pages()) == Some(ObjectVal::Reference(pid))
                &&& spec_store_get(final(dest)@, pid) matches Some(ObjectVal::Dict(pv)) && {
                    &&& spec_dict_get(pv, nm_type()) == Some(ObjectVal::Name(nm_pages()))
                    &&& spec_dict_get(pv, nm_kids()) == Some(
                        ObjectVal::Array(refs_of(leaf_ids@)),
                    )
                    &&& spec_dict_get(pv, nm_count()) == Some(
                        ObjectVal::Integer(leaf_ids@.len() as i64),
                    )
                    &&& spec_dict_get(pv, nm_media_box()) is None
                    &&& spec_dict_get(pv, nm_rotate()) is None
                }
                &&& pid != cid
                &&& spec_store_get(old(dest)@, pid) is None
                &&& spec_store_get(old(dest)@, cid) is None
                &&& forall|id2: ObjectId|
                    id2 != pid && id2 != cid ==> #[trigger] spec_store_get(final(dest)@, id2)
                        == spec_store_get(old(dest)@, id2)
                &&& final(dest)@.len() == old(dest)@.len() + 2
            },
            Err(e) => e == EngineError::Serialization,
        },
        r is Err <==> (leaf_ids@.len() > i64::MAX || !crate::store::has_room(old(dest)@, 2)),
{
    let mut kids: Vec<Object> = Vec::new();
    let mut i: usize = 0;
    while i < leaf_ids.len()
        invariant
            i <= leaf_ids@.len(),
            kids@.len() == i,
            forall|j: int|
                0 <= j < i ==> #[trigger] kids@[j] == Object::Reference(leaf_ids@[j]),
        decreases leaf_ids@.len() - i,
    {
        kids.push(Object::Reference(leaf_ids[i]));
        i += 1;
    }
    proof {
        lemma_view_arr_len(kids@);
        assert forall|j: int| 0 <= j < kids@.len() implies view_arr(kids@)[j] == refs_of(
            leaf_ids@,
        )[j] by {
            lemma_view_arr_index(kids@, j);
        }
        assert(view_arr(kids@) =~= refs_of(leaf_ids@));
    }
    if leaf_ids.len() as u64 > i64::MAX as u64 {
        return Err(EngineError::Serialization);
    }
    let count = leaf_ids.len() as i64;
    let mut pages_dict = Dictionary::new();
    let ty_name = name_type();
    let pages_name = name_pages();
    let kids_name = name_kids();
    let count_name = name_count();
    let catalog_name = name_catalog();
    pages_dict.set(ty_name.as_slice(), Object::Name(name_pages()));
    pages_dict.set(kids_name.as_slice(), Object::Array(kids));
    pages_dict.set(count_name.as_slice(), Object::Integer(count));
    proof {
        assert(nm_type()[0] == 84 && nm_kids()[0] == 75 && nm_count()[0] == 67
            && nm_media_box()[0] == 77 && nm_rotate()[0] == 82 && nm_pages()[0] == 80);
        assert(nm_type() != nm_kids() && nm_type() != nm_count() && nm_kids() != nm_count());
        assert(nm_media_box() != nm_type() && nm_media_box() != nm_kids() && nm_media_box()
            != nm_count());
        assert(nm_rotate() != nm_type() && nm_rotate() != nm_kids() && nm_rotate() != nm_count());
        assert(nm_media_box() != nm_rotate());
        assert(pages_dict.spec_get(nm_type()) == Some(ObjectVal::Name(nm_pages())));
        assert(pages_dict.spec_get(nm_kids()) == Some(ObjectVal::Array(refs_of(leaf_ids@))));
        assert(pages_dict.spec_get(nm_count()) == Some(ObjectVal::Integer(count)));
        assert(pages_dict.spec_get(nm_media_box()) is None);
        assert(pages_dict.spec_get(nm_rotate()) is None);
    }
    let pid = match dest.insert(Object::Dict(pages_dict)) {
        Ok(id) => id,
        Err(e) => {
            proof {
                assert(!crate::store::has_room(old(dest)@, 2));
            }
            return Err(e);
        },
    };
    let mut cat_dict = Dictionary::new();
    cat_dict.set(ty_name.as_slice(), Object::Name(name_catalog()));
    cat_dict.set(pages_name.as_slice(), Object::Reference(pid));
    proof {
        assert(nm_type()[0] == 84 && nm_pages()[0] == 80);
        assert(nm_type() != nm_pages());
        assert(cat_dict.spec_get(nm_pages()) == Some(ObjectVal::Reference(pid)));
    }
    let cid = match dest.insert(Object::Dict(cat_dict)) {
        Ok(id) => id,
        Err(e) => {
            proof {
                assert(!crate::store::has_room(old(dest)@, 2));
            }
            return Err(e);
        },
    };
    dest.root = Some(cid);
    proof {
        assert(crate::store::has_room(old(dest)@, 2));
    }
    Ok((pid, cid))
}

/// First-match lookup of a rotation override; see `spec_rot_override`.
pub fn find_rot_override(ros: &Vec<(usize, i64)>, n: usize) -> (r: Option<i64>)
    ensures
        r == spec_rot_override(ros@, n),
{
    proof {
        assert(ros@.skip(0) =~= ros@);
    }
    let mut i: usize = 0;
    while i < ros.len()
        invariant
            i <= ros@.len(),
            spec_rot_override(ros@.skip(i as int), n) == spec_rot_override(ros@, n),
        decreases ros@.len() - i,
    {
        proof {
            assert(ros@.skip(i as int)[0] == ros@[i as int]);
            assert(ros@.skip(i as int).skip(1) =~= ros@.skip(i as int + 1));
        }
        if ros[i].0 == n {
            return Some(ros[i].1);
        }
        i += 1;
    }
    proof {
        assert(ros@.skip(i as int) =~= Seq::<(usize, i64)>::empty());
    }
    None
}

/// Whether a page number is listed as deleted.
pub fn is_deleted(dels: &Vec<usize>, n: usize) -> (r: bool)
    ensures
        r <==> dels@.contains(n),
{
    let mut i: usize = 0;
    while i < dels.len()
        invariant
            i <= dels@.len(),
            forall|j: int| 0 <= j < i ==> dels@[j] != n,
        decreases dels@.len() - i,
    {
        if dels[i] == n {
            proof {
                assert(dels@[i as int] == n);
            }
            return true;
        }
        i += 1;
    }
    proof {
        assert(!dels@.contains(n));
    }
    false
}

/// The rebuilt document's tree shape: the trailer's root names a
/// catalog whose Pages entry references one Pages node that declares
/// Type, lists every emitted leaf in order in its Kids, and declares
/// Count equal to the number of leaves.
pub open spec fn built_tree_shape(out: Store, pages: Seq<PageRec>) -> bool {
    &&& out.root matches Some(cid) && spec_store_get(out@, cid) matches Some(
        ObjectVal::Dict(catv),
    ) && spec_dict_get(catv, nm_pages()) matches Some(ObjectVal::Reference(pid))
        && spec_store_get(out@, pid) matches Some(ObjectVal::Dict(pv)) && {
        &&& spec_dict_get(pv, nm_type()) == Some(ObjectVal::Name(nm_pages()))
        &&& spec_dict_get(pv, nm_count()) == Some(ObjectVal::Integer(pages.len() as i64))
        &&& spec_dict_get(pv, nm_kids()) matches Some(ObjectVal::Array(kids)) && kids.len()
            == pages.len() && forall|k: int|
            0 <= k < kids.len() ==> kids[k] == ObjectVal::Reference((#[trigger] pages[k]).id)
    }
}

/// What materializing a selection guarantees: the fresh leaf
/// identifiers extend the collected ones, every lookup that succeeded
/// before still gives the same value, and each fresh leaf is planned
/// with its target attributes.
pub open spec fn planned_block(
    dest_old: Seq<(ObjectId, ObjectVal)>,
    dest_new: Seq<(ObjectId, ObjectVal)>,
    ids_old: Seq<ObjectId>,
    ids_new: Seq<ObjectId>,
    tseq: Seq<EffAttrs>,
) -> bool {
    &&& ids_new.len() == ids_old.len() + tseq.len()
    &&& ids_new.subrange(0, ids_old.len() as int) == ids_old
    &&& forall|id2: ObjectId|
        spec_store_get(dest_old, id2) is Some ==> #[trigger] spec_store_get(dest_new, id2)
            == spec_store_get(dest_old, id2)
    &&& forall|k: int|
        0 <= k < tseq.len() ==> is_planned_leaf(dest_new, ids_new[ids_old.len() + k], #[trigger] tseq[k])
            && tseq[k].wf()
}

/// Assembles `planned_block` from its parts.
pub proof fn lemma_planned_block_intro(
    dest_old: Seq<(ObjectId, ObjectVal)>,
    dest_new: Seq<(ObjectId, ObjectVal)>,
    ids_old: Seq<ObjectId>,
    ids_new: Seq<ObjectId>,
    tseq: Seq<EffAttrs>,
)
    requires
        ids_new.len() == ids_old.len() + tseq.len(),
        ids_new.subrange(0, ids_old.len() as int) == ids_old,
        forall|id2: ObjectId|
            spec_store_get(dest_old, id2) is Some ==> #[trigger] spec_store_get(dest_new, id2)
                == spec_store_get(dest_old, id2),
        forall|k: int|
            0 <= k < tseq.len() ==> is_planned_leaf(dest_new, ids_new[ids_old.len() + k], #[trigger] tseq[k])
                && tseq[k].wf(),
    ensures
        planned_block(dest_old, dest_new, ids_old, ids_new, tseq),
{
}

/// Materializes the selected leaves from position `i` of the page order
/// on: each one a clone of its source page dictionary with Type, page
/// rectangle and rotation written in, inserted under a fresh identifier.
#[verifier::spinoff_prover]
#[verifier::rlimit(60)]
pub fn plan_leaves(
    src: &Store,
    pages: &Vec<PageRec>,
    instr: &EditInstructions,
    i: usize,
    dest: &mut Store,
    leaf_ids: &mut Vec<ObjectId>,
) -> (r: Result<(), EngineError>)
    requires
        i <= instr.page_order@.len(),
        old(dest).wf(),
        forall|k: int|
            0 <= k < pages@.len() ==> (spec_store_get(src@, (#[trigger] pages@[k]).id) matches Some(
                ObjectVal::Dict(_),
            )) && pages@[k].attrs.wf(),
    ensures
        final(dest).wf(),
        final(dest).root == old(dest).root,
        final(dest).info == old(dest).info,
        r is Ok ==> (spec_target_attrs(
            pages@,
            instr.page_order@.skip(i as int),
            instr.rotation_overrides@,
            instr.deleted_pages@,
        ) matches Ok(tseq) && planned_block(
            old(dest)@,
            final(dest)@,
            old(leaf_ids)@,
            final(leaf_ids)@,
            tseq,
        )),
        r matches Err(e) ==> ((spec_target_attrs(
            pages@,
            instr.page_order@.skip(i as int),
            instr.rotation_overrides@,
            instr.deleted_pages@,
        ) matches Err(e2) && e == e2) || e == EngineError::Serialization),
        r matches Err(e) ==> (has_room(
            old(dest)@,
            selected_count(instr.page_order@.skip(i as int), instr.deleted_pages@),
        ) ==> (spec_target_attrs(
            pages@,
            instr.page_order@.skip(i as int),
            instr.rotation_overrides@,
            instr.deleted_pages@,
        ) matches Err(e2) && e == e2)),
        r is Ok ==> forall|k: nat|
            has_room(
                old(dest)@,
                selected_count(instr.page_order@.skip(i as int), instr.deleted_pages@) + k,
            ) ==> #[trigger] has_room(final(dest)@, k),
        r is Ok ==> forall|k: int|
            0 <= k < spec_target_srcs(
                pages@,
                instr.page_order@.skip(i as int),
                instr.deleted_pages@,
            ).len() ==> leaf_from_source(
                src@,
                #[trigger] spec_target_srcs(
                    pages@,
                    instr.page_order@.skip(i as int),
                    instr.deleted_pages@,
                )[k],
                final(dest)@,
                final(leaf_ids)@[old(leaf_ids)@.len() + k],
            ),
    decreases instr.page_order@.len() - i,
{
    let ghost order = instr.page_order@;
    let ghost ros = instr.rotation_overrides@;
    let ghost dels = instr.deleted_pages@;
    if i == instr.page_order.len() {
        proof {
            assert(order.skip(i as int) =~= Seq::<usize>::empty());
            assert(selected_count(order.skip(i as int), dels) == 0);
            assert(spec_target_srcs(pages@, order.skip(i as int), dels) =~= Seq::<
                PageRec,
            >::empty());
            assert(leaf_ids@.subrange(0, leaf_ids@.len() as int) =~= leaf_ids@);
            assert(planned_block(dest@, dest@, leaf_ids@, leaf_ids@, Seq::<EffAttrs>::empty()));
        }
        return Ok(());
    }
    proof {
        assert(order.skip(i as int)[0] == order[i as int]);
        assert(order.skip(i as int).skip(1) =~= order.skip(i as int + 1));
    }
    let n = instr.page_order[i];
    if is_deleted(&instr.deleted_pages, n) {
        proof {
            assert(selected_count(order.skip(i as int), dels) == selected_count(
                order.skip(i as int + 1),
                dels,
            ));
            assert(spec_target_srcs(pages@, order.skip(i as int), dels) == spec_target_srcs(
                pages@,
                order.skip(i as int + 1),
                dels,
            ));
        }
        return plan_leaves(src, pages, instr, i + 1, dest, leaf_ids);
    }
    proof {
        assert(selected_count(order.skip(i as int), dels) == 1 + selected_count(
            order.skip(i as int + 1),
            dels,
        ));
    }
    if n < 1 || n > pages.len() {
        return Err(EngineError::UnknownPageNumber(n));
    }
    let rec = pages[n - 1];
    let base = rec.attrs;
    let target: EffAttrs = match find_rot_override(&instr.rotation_overrides, n) {
        None => base,
        Some(rv) => {
            let w = wrap_degrees(rv);
            if w == 0 || w == 90 || w == 180 || w == 270 {
                EffAttrs { media_box: base.media_box, rotation: w }
            } else {
                return Err(EngineError::MalformedAttribute);
            }
        },
    };
    let leaf_obj = match src.get(rec.id) {
        Ok(o) => o,
        Err(_) => {
            proof {
                assert(false);
            }
            return Err(EngineError::Serialization);
        },
    };
    let leaf_dict = match leaf_obj {
        Object::Dict(d) => d,
        _ => {
            proof {
                assert(false);
            }
            return Err(EngineError::Serialization);
        },
    };
    let ghost svv = leaf_dict@;
    let mut d2 = clone_dictionary(leaf_dict);
    let ty_name = name_type();
    let mb_name = name_media_box();
    let rot_name = name_rotate();
    d2.set(ty_name.as_slice(), Object::Name(name_page()));
    let mut mb_items: Vec<Object> = Vec::new();
    mb_items.push(Object::Real(target.media_box.llx));
    mb_items.push(Object::Real(target.media_box.lly));
    mb_items.push(Object::Real(target.media_box.urx));
    mb_items.push(Object::Real(target.media_box.ury));
    proof {
        lemma_view_arr_len(mb_items@);
        lemma_view_arr_index(mb_items@, 0);
        lemma_view_arr_index(mb_items@, 1);
        lemma_view_arr_index(mb_items@, 2);
        lemma_view_arr_index(mb_items@, 3);
        assert(view_arr(mb_items@) =~= mb_array_val(target.media_box)->Array_0);
    }
    d2.set(mb_name.as_slice(), Object::Array(mb_items));
    d2.set(rot_name.as_slice(), Object::Integer(target.rotation));
    proof {
        assert(nm_type()[0] == 84 && nm_media_box()[0] == 77 && nm_rotate()[0] == 82);
        assert(nm_type() != nm_media_box() && nm_type() != nm_rotate() && nm_media_box()
            != nm_rotate());
        assert(d2.spec_get(nm_type()) == Some(ObjectVal::Name(nm_page())));
        assert(d2.spec_get(nm_media_box()) == Some(mb_array_val(target.media_box)));
        assert(d2.spec_get(nm_rotate()) == Some(ObjectVal::Integer(target.rotation)));
        assert(keeps_other_keys(d2@, svv)) by {
            assert forall|nm: Seq<u8>|
                nm != nm_type() && nm != nm_media_box() && nm != nm_rotate() implies #[trigger]
                spec_dict_get(d2@, nm) == spec_dict_get(svv, nm) by {
                assert(d2.spec_get(nm) == spec_dict_get(svv, nm));
            }
        }
    }
    let ghost d2v = d2@;
    let ghost dest0 = dest@;
    let ghost ids0 = leaf_ids@;
    let new_id = match dest.insert(Object::Dict(d2)) {
        Ok(id) => id,
        Err(e) => {
            proof {
                assert(dest@.len() > 0);
                assert(!has_room(dest@, selected_count(order.skip(i as int), dels)));
            }
            return Err(e);
        },
    };
    leaf_ids.push(new_id);
    proof {
        assert(is_planned_leaf(dest@, new_id, target));
        assert(target.wf());
    }
    let ghost dest1 = dest@;
    let ghost ids1 = leaf_ids@;
    let r2 = plan_leaves(src, pages, instr, i + 1, dest, leaf_ids);
    proof {
        let ts = spec_target_attrs(pages@, order.skip(i as int), ros, dels);
        let ts_rest = spec_target_attrs(pages@, order.skip(i as int + 1), ros, dels);
        if r2 is Ok {
            let tseq_rest = ts_rest.unwrap();
            let tseq = ts.unwrap();
            assert(tseq =~= seq![target] + tseq_rest);
            assert(leaf_ids@.subrange(0, ids1.len() as int) == ids1);
            assert(leaf_ids@.subrange(0, ids0.len() as int) =~= ids0);
            assert(leaf_ids@[ids0.len() as int] == ids1[ids0.len() as int]);
            assert(leaf_ids@[ids0.len() as int] == new_id);
            assert(spec_store_get(dest1, new_id) is Some);
            assert(spec_store_get(dest@, new_id) == spec_store_get(dest1, new_id));
            assert(is_planned_leaf(dest@, new_id, target));
            assert forall|k: int| 0 <= k < tseq.len() implies is_planned_leaf(
                dest@,
                leaf_ids@[ids0.len() + k],
                #[trigger] tseq[k],
            ) && tseq[k].wf() by {
                if k == 0 {
                    assert(leaf_ids@[ids0.len() + k] == new_id);
                } else {
                    assert(tseq[k] == tseq_rest[k - 1]);
                    assert(is_planned_leaf(dest@, leaf_ids@[ids1.len() + (k - 1)], tseq_rest[k
                        - 1]));
                    assert(leaf_ids@[ids1.len() + (k - 1)] == leaf_ids@[ids0.len() + k]);
                }
            }
            assert forall|id2: ObjectId| spec_store_get(dest0, id2) is Some implies #[trigger]
                spec_store_get(dest@, id2) == spec_store_get(dest0, id2) by {
                assert(id2 != new_id);
                assert(spec_store_get(dest1, id2) == spec_store_get(dest0, id2));
            }
            assert(leaf_ids@.len() == ids0.len() + tseq.len());
            lemma_planned_block_intro(dest0, dest@, ids0, leaf_ids@, tseq);
            let srcs = spec_target_srcs(pages@, order.skip(i as int), dels);
            let srcs_rest = spec_target_srcs(pages@, order.skip(i as int + 1), dels);
            assert(srcs =~= seq![pages@[n - 1]] + srcs_rest);
            assert forall|k: int| 0 <= k < srcs.len() implies leaf_from_source(
                src@,
                #[trigger] srcs[k],
                dest@,
                leaf_ids@[ids0.len() + k],
            ) by {
                if k == 0 {
                    assert(srcs[k] == pages@[n - 1]);
                    assert(leaf_ids@[ids0.len() + k] == new_id);
                    assert(spec_store_get(src@, pages@[n - 1].id) == Some(ObjectVal::Dict(svv)));
                    assert(spec_store_get(dest1, new_id) == Some(ObjectVal::Dict(d2v)));
                    assert(spec_store_get(dest@, new_id) == spec_store_get(dest1, new_id));
                    assert(keeps_other_keys(d2v, svv));
                } else {
                    assert(srcs[k] == srcs_rest[k - 1]);
                    assert(leaf_from_source(
                        src@,
                        srcs_rest[k - 1],
                        dest@,
                        leaf_ids@[ids1.len() + (k - 1)],
                    ));
                    assert(leaf_ids@[ids1.len() + (k - 1)] == leaf_ids@[ids0.len() + k]);
                }
            }
            let sc = selected_count(order.skip(i as int), dels);
            let sc_rest = selected_count(order.skip(i as int + 1), dels);
            assert forall|k: nat| has_room(dest0, sc + k) implies #[trigger] has_room(
                dest@,
                k,
            ) by {
                assert(dest1[dest1.len() - 1].0 == new_id);
                assert(has_room(dest1, (sc_rest + k) as nat));
            }
        } else {
            let e = r2->Err_0;
            let ts = spec_target_attrs(pages@, order.skip(i as int), ros, dels);
            let ts_rest = spec_target_attrs(pages@, order.skip(i as int + 1), ros, dels);
            if ts_rest is Err {
                assert(ts == ts_rest);
            }
            assert((ts matches Err(e2) && e == e2) || e == EngineError::Serialization);
            let sc = selected_count(order.skip(i as int), dels);
            let sc_rest = selected_count(order.skip(i as int + 1), dels);
            if has_room(dest0, sc) {
                assert(dest1[dest1.len() - 1].0 == new_id);
                assert(has_room(dest1, sc_rest));
                assert(ts_rest matches Err(e2) && e == e2);
                assert(ts matches Err(e2) && e == e2);
            }
        }
    }
    r2
}

/// Applies an edit instruction set to a loaded document: enumerates the
/// source pages, materializes the selected leaves in the requested
/// order, and rebuilds a flat page tree under a fresh catalog. The
/// source's objects stay in the output under their identifiers, so the
/// leaves' shared contents and resources remain reachable. Deleting
/// every page yields a zero-page but well-formed document.
pub fn apply_edits(src: &Store, instr: &EditInstructions) -> (r: Result<Store, EngineError>)
    requires
        src.wf(),
    ensures
        ({
            let src_res = spec_enumerate(*src);
            match r {
                Ok(out) => ({
                    &&& out.wf()
                    &&& out.info == src.info
                    &&& src_res matches Ok(pw) && {
                        let ts = spec_target_attrs(
                            pw.0,
                            instr.page_order@,
                            instr.rotation_overrides@,
                            instr.deleted_pages@,
                        );
                        ts matches Ok(tseq) && spec_enumerate(out) matches Ok(npw) && {
                            &&& npw.0.len() == tseq.len()
                            &&& forall|k: int|
                                0 <= k < tseq.len() ==> (#[trigger] npw.0[k]).attrs == tseq[k]
                            &&& npw.1 == Seq::<ObjectId>::empty()
                            &&& built_tree_shape(out, npw.0)
                            &&& forall|k: int|
                                0 <= k < tseq.len() ==> leaf_from_source(
                                    src@,
                                    #[trigger] spec_target_srcs(
                                        pw.0,
                                        instr.page_order@,
                                        instr.deleted_pages@,
                                    )[k],
                                    out@,
                                    npw.0[k].id,
                                )
                        }
                    }
                    &&& forall|id2: ObjectId|
                        spec_store_get(src@, id2) is Some ==> #[trigger] spec_store_get(
                            out@,
                            id2,
                        ) == spec_store_get(src@, id2)
                }),
                Err(e) => (src_res matches Err(e2) && e == e2) || (src_res matches Ok(pw)
                    && spec_target_attrs(
                    pw.0,
                    instr.page_order@,
                    instr.rotation_overrides@,
                    instr.deleted_pages@,
                ) matches Err(e2) && e == e2) || e == EngineError::Serialization,
            }
        }),
        r matches Err(e) ==> (has_room(
            src@,
            selected_count(instr.page_order@, instr.deleted_pages@) + 2,
        ) ==> ({
            let src_res = spec_enumerate(*src);
            (src_res matches Err(e2) && e == e2) || (src_res matches Ok(pw)
                && spec_target_attrs(
                pw.0,
                instr.page_order@,
                instr.rotation_overrides@,
                instr.deleted_pages@,
            ) matches Err(e2) && e == e2)
        })),
{
    let pw = match enumerate(src) {
        Ok(pw) => pw,
        Err(e) => {
            return Err(e);
        },
    };
    let pages = pw.0;
    proof {
        let rid = src.root.unwrap();
        let catd = spec_store_get(src@, rid).unwrap()->Dict_0;
        let pid0 = spec_dict_get(catd, nm_pages()).unwrap()->Reference_0;
        crate::walk::lemma_walk_node_pages(
            src@,
            pid0,
            seq![pid0],
            InheritedVal { media_box: None, rotate: None },
            src@.len() as nat,
        );
    }
    let mut dest = clone_store(src);
    let mut leaf_ids: Vec<ObjectId> = Vec::new();
    proof {
        assert(instr.page_order@.skip(0) =~= instr.page_order@);
    }
    let ghost ids_before = leaf_ids@;
    match plan_leaves(src, &pages, instr, 0, &mut dest, &mut leaf_ids) {
        Ok(_) => {},
        Err(e) => {
            proof {
                let sc = selected_count(instr.page_order@, instr.deleted_pages@);
                if has_room(src@, sc + 2) {
                    assert(has_room(src@, sc));
                }
            }
            return Err(e);
        },
    }
    let ghost tseq = spec_target_attrs(
        pages@,
        instr.page_order@,
        instr.rotation_overrides@,
        instr.deleted_pages@,
    ).unwrap();
    let ghost dest_planned = dest@;
    proof {
        assert(ids_before.len() == 0);
        assert forall|k: int| 0 <= k < leaf_ids@.len() implies is_planned_leaf(
            dest_planned,
            #[trigger] leaf_ids@[k],
            tseq[k],
        ) && tseq[k].wf() by {
            assert(is_planned_leaf(dest_planned, leaf_ids@[ids_before.len() + k], tseq[k])
                && tseq[k].wf());
        }
    }
    let pc = match build_tree(&mut dest, &leaf_ids) {
        Ok(pc) => pc,
        Err(e) => {
            proof {
                let sc = selected_count(instr.page_order@, instr.deleted_pages@);
                if has_room(src@, sc + 2) {
                    lemma_target_len(
                        pages@,
                        instr.page_order@,
                        instr.rotation_overrides@,
                        instr.deleted_pages@,
                    );
                    assert(leaf_ids@.len() == sc);
                    assert(has_room(dest_planned, 2));
                    assert(leaf_ids@.len() <= i64::MAX);
                    assert(false);
                }
            }
            return Err(e);
        },
    };
    proof {
        let pid = pc.0;
        let cid = pc.1;
        assert forall|k: int| 0 <= k < leaf_ids@.len() implies is_planned_leaf(
            dest@,
            #[trigger] leaf_ids@[k],
            tseq[k],
        ) && tseq[k].wf() && leaf_ids@[k] != pid by {
            assert(is_planned_leaf(dest_planned, leaf_ids@[k], tseq[k]));
            assert(spec_store_get(dest_planned, leaf_ids@[k]) is Some);
            assert(leaf_ids@[k] != pid && leaf_ids@[k] != cid);
            assert(spec_store_get(dest@, leaf_ids@[k]) == spec_store_get(
                dest_planned,
                leaf_ids@[k],
            ));
        }
        lemma_built_tree_enumerate(dest, pid, cid, leaf_ids@, tseq);
        assert forall|k: int| 0 <= k < tseq.len() implies (#[trigger] planned_recs(
            leaf_ids@,
            tseq,
        )[k]).attrs == tseq[k] by {}
        assert forall|id2: ObjectId| spec_store_get(src@, id2) is Some implies #[trigger]
            spec_store_get(dest@, id2) == spec_store_get(src@, id2) by {
            assert(spec_store_get(dest_planned, id2) == spec_store_get(src@, id2));
            assert(id2 != pid && id2 != cid);
            assert(spec_store_get(dest@, id2) == spec_store_get(dest_planned, id2));
        }
        assert forall|k: int| 0 <= k < leaf_ids@.len() implies refs_of(leaf_ids@)[k]
            == ObjectVal::Reference((#[trigger] planned_recs(leaf_ids@, tseq)[k]).id) by {}
        assert(built_tree_shape(dest, planned_recs(leaf_ids@, tseq)));
        lemma_srcs_len(
            pages@,
            instr.page_order@,
            instr.rotation_overrides@,
            instr.deleted_pages@,
        );
        let srcs = spec_target_srcs(pages@, instr.page_order@, instr.deleted_pages@);
        assert forall|k: int| 0 <= k < tseq.len() implies leaf_from_source(
            src@,
            #[trigger] srcs[k],
            dest@,
            planned_recs(leaf_ids@, tseq)[k].id,
        ) by {
            assert(leaf_from_source(
                src@,
                srcs[k],
                dest_planned,
                leaf_ids@[ids_before.len() + k],
            ));
            assert(leaf_ids@[ids_before.len() + k] == leaf_ids@[k]);
            assert(planned_recs(leaf_ids@, tseq)[k].id == leaf_ids@[k]);
            if spec_store_get(src@, srcs[k].id) matches Some(ObjectVal::Dict(sv)) {
                assert(spec_store_get(dest_planned, leaf_ids@[k]) is Some);
                assert(leaf_ids@[k] != pid && leaf_ids@[k] != cid);
                assert(spec_store_get(dest@, leaf_ids@[k]) == spec_store_get(
                    dest_planned,
                    leaf_ids@[k],
                ));
            }
        }
    }
    Ok(dest)
}

} // verus!
