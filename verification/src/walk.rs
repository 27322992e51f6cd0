//! The page-tree walker: a depth-first, left-to-right traversal of the
//! Kids arrays from the catalog's Pages entry, producing the ordered
//! page leaves with their resolved attributes. A reference to a missing
//! object is a dangling-reference error; a node already on the current
//! path is a cycle error; a non-dictionary node or one whose Type is
//! neither Pages nor Page is skipped and reported as a warning.

use vstd::prelude::*;
use crate::attrs::{
    spec_resolve, resolve, spec_inherit_val, Inherited, InheritedVal, EffAttrs, nm_type, nm_pages,
    nm_page, nm_kids, name_type, name_pages, name_page, name_kids, name_media_box, name_rotate,
};
use crate::errors::EngineError;
use crate::object::{
    bytes_eq, clone_object, Object, ObjectId, ObjectVal, Dictionary, spec_dict_get, view_arr,
    lemma_view_arr_len, lemma_view_arr_index,
};
use crate::store::{spec_store_get, Store};

verus! {

/// One enumerated page: the leaf's identifier and its resolved
/// attributes. Its 1-based page number is its position in the
/// enumeration order plus one.
#[derive(Clone, Copy, PartialEq, Eq, Structural, Debug)]
pub struct PageRec {
    pub id: ObjectId,
    pub attrs: EffAttrs,
}

/// Outcome of walking a subtree: the pages found in order together with
/// the skipped nodes, or the error that ended the walk.
#[verifier::ext_equal]
pub enum WalkRes {
    Done { pages: Seq<PageRec>, warns: Seq<ObjectId> },
    Fail(EngineError),
}

/// Walks the node `id`. `path` holds every identifier on the current
/// root-to-node path, `id` included; `inh` the nearest ancestors' raw
/// inheritable values; `fuel` bounds the recursion depth and is ample
/// for any store when started at the store's size.
pub open spec fn spec_walk_node(
    s: Seq<(ObjectId, ObjectVal)>,
    id: ObjectId,
    path: Seq<ObjectId>,
    inh: InheritedVal,
    fuel: nat,
) -> WalkRes
    decreases fuel, 0nat,
{
    match spec_store_get(s, id) {
        None => WalkRes::Fail(EngineError::DanglingReference(id)),
        Some(v) => if fuel == 0 {
            // Unreachable for any node that resolves: the path holds
            // distinct store identifiers, so its depth, and with it the
            // fuel spent, never exceeds the store's size. A dangling
            // reference is reported above whatever the depth.
            WalkRes::Fail(EngineError::CyclicPageTree(id))
        } else {
            match v {
                ObjectVal::Dict(d) => {
                    let ty = spec_dict_get(d, nm_type());
                    if ty == Some(ObjectVal::Name(nm_pages())) {
                        match spec_dict_get(d, nm_kids()) {
                            Some(ObjectVal::Array(kids)) => spec_walk_kids(
                                s,
                                kids,
                                path,
                                spec_inherit_val(d, inh),
                                (fuel - 1) as nat,
                            ),
                            _ => WalkRes::Done { pages: Seq::empty(), warns: seq![id] },
                        }
                    } else if ty == Some(ObjectVal::Name(nm_page())) {
                        match spec_resolve(d, inh) {
                            Ok(a) => WalkRes::Done {
                                pages: seq![PageRec { id, attrs: a }],
                                warns: Seq::empty(),
                            },
                            Err(e) => WalkRes::Fail(e),
                        }
                    } else {
                        WalkRes::Done { pages: Seq::empty(), warns: seq![id] }
                    }
                },
                _ => WalkRes::Done { pages: Seq::empty(), warns: seq![id] },
            }
        },
    }
}

/// Walks a Kids sequence left to right, concatenating the results. A kid
/// that is not a reference is skipped; a kid already on the path ends
/// the walk with a cycle error naming it.
pub open spec fn spec_walk_kids(
    s: Seq<(ObjectId, ObjectVal)>,
    kids: Seq<ObjectVal>,
    path: Seq<ObjectId>,
    inh: InheritedVal,
    fuel: nat,
) -> WalkRes
    decreases fuel, kids.len() + 1,
{
    if kids.len() == 0 {
        WalkRes::Done { pages: Seq::empty(), warns: Seq::empty() }
    } else {
        let head = match kids[0] {
            ObjectVal::Reference(kid) => if path.contains(kid) {
                WalkRes::Fail(EngineError::CyclicPageTree(kid))
            } else {
                spec_walk_node(s, kid, path.push(kid), inh, fuel)
            },
            _ => WalkRes::Done { pages: Seq::empty(), warns: Seq::empty() },
        };
        match head {
            WalkRes::Fail(e) => WalkRes::Fail(e),
            WalkRes::Done { pages: p1, warns: w1 } => match spec_walk_kids(
                s,
                kids.skip(1),
                path,
                inh,
                fuel,
            ) {
                WalkRes::Fail(e) => WalkRes::Fail(e),
                WalkRes::Done { pages: p2, warns: w2 } => WalkRes::Done {
                    pages: p1 + p2,
                    warns: w1 + w2,
                },
            },
        }
    }
}

/// Enumerates a store's pages in traversal order: finds the root
/// catalog, follows its Pages reference, and walks the tree.
pub open spec fn spec_enumerate(st: Store) -> Result<(Seq<PageRec>, Seq<ObjectId>), EngineError> {
    match st.root {
        None => Err(EngineError::Parse),
        Some(rid) => match spec_store_get(st@, rid) {
            None => Err(EngineError::DanglingReference(rid)),
            Some(cat) => match cat {
                ObjectVal::Dict(catd) => match spec_dict_get(catd, nm_pages()) {
                    Some(ObjectVal::Reference(pid)) => match spec_walk_node(
                        st@,
                        pid,
                        seq![pid],
                        InheritedVal { media_box: None, rotate: None },
                        st@.len() as nat,
                    ) {
                        WalkRes::Done { pages, warns } => Ok((pages, warns)),
                        WalkRes::Fail(e) => Err(e),
                    },
                    _ => Err(EngineError::Parse),
                },
                _ => Err(EngineError::Parse),
            },
        },
    }
}

/// Every page record a node walk returns names an object that the store
/// holds as a dictionary, and carries well-formed attributes.
pub proof fn lemma_walk_node_pages(
    s: Seq<(ObjectId, ObjectVal)>,
    id: ObjectId,
    path: Seq<ObjectId>,
    inh: InheritedVal,
    fuel: nat,
)
    ensures
        spec_walk_node(s, id, path, inh, fuel) matches WalkRes::Done { pages, .. } ==> forall|
            k: int,
        |
            0 <= k < pages.len() ==> (spec_store_get(s, (#[trigger] pages[k]).id) matches Some(
                ObjectVal::Dict(_),
            )) && pages[k].attrs.wf(),
    decreases fuel, 0nat,
{
    if fuel > 0 {
        match spec_store_get(s, id) {
            Some(ObjectVal::Dict(d)) => {
                let ty = spec_dict_get(d, nm_type());
                if ty == Some(ObjectVal::Name(nm_pages())) {
                    match spec_dict_get(d, nm_kids()) {
                        Some(ObjectVal::Array(kids)) => {
                            lemma_walk_kids_pages(
                                s,
                                kids,
                                path,
                                crate::attrs::spec_inherit_val(d, inh),
                                (fuel - 1) as nat,
                            );
                        },
                        _ => {},
                    }
                }
            },
            _ => {},
        }
    }
}

/// Every page record a kids walk returns names an object that the store
/// holds as a dictionary, and carries well-formed attributes.
pub proof fn lemma_walk_kids_pages(
    s: Seq<(ObjectId, ObjectVal)>,
    kids: Seq<ObjectVal>,
    path: Seq<ObjectId>,
    inh: InheritedVal,
    fuel: nat,
)
    ensures
        spec_walk_kids(s, kids, path, inh, fuel) matches WalkRes::Done { pages, .. } ==> forall|
            k: int,
        |
            0 <= k < pages.len() ==> (spec_store_get(s, (#[trigger] pages[k]).id) matches Some(
                ObjectVal::Dict(_),
            )) && pages[k].attrs.wf(),
    decreases fuel, kids.len() + 1,
{
    if kids.len() > 0 {
        match kids[0] {
            ObjectVal::Reference(kid) => {
                if !path.contains(kid) {
                    lemma_walk_node_pages(s, kid, path.push(kid), inh, fuel);
                }
            },
            _ => {},
        }
        lemma_walk_kids_pages(s, kids.skip(1), path, inh, fuel);
    }
}

/// A node walk fails only with a cycle, a dangling reference, or a
/// malformed attribute.
pub proof fn lemma_walk_node_error(
    s: Seq<(ObjectId, ObjectVal)>,
    id: ObjectId,
    path: Seq<ObjectId>,
    inh: InheritedVal,
    fuel: nat,
)
    ensures
        spec_walk_node(s, id, path, inh, fuel) matches WalkRes::Fail(e) ==> (e is CyclicPageTree
            || e is DanglingReference || e is MalformedAttribute),
    decreases fuel, 0nat,
{
    if fuel > 0 {
        match spec_store_get(s, id) {
            Some(ObjectVal::Dict(d)) => {
                let ty = spec_dict_get(d, nm_type());
                if ty == Some(ObjectVal::Name(nm_pages())) {
                    match spec_dict_get(d, nm_kids()) {
                        Some(ObjectVal::Array(kids)) => {
                            lemma_walk_kids_error(
                                s,
                                kids,
                                path,
                                crate::attrs::spec_inherit_val(d, inh),
                                (fuel - 1) as nat,
                            );
                        },
                        _ => {},
                    }
                }
            },
            _ => {},
        }
    }
}

/// A kids walk fails only with a cycle, a dangling reference, or a
/// malformed attribute.
pub proof fn lemma_walk_kids_error(
    s: Seq<(ObjectId, ObjectVal)>,
    kids: Seq<ObjectVal>,
    path: Seq<ObjectId>,
    inh: InheritedVal,
    fuel: nat,
)
    ensures
        spec_walk_kids(s, kids, path, inh, fuel) matches WalkRes::Fail(e) ==> (e is CyclicPageTree
            || e is DanglingReference || e is MalformedAttribute),
    decreases fuel, kids.len() + 1,
{
    if kids.len() > 0 {
        match kids[0] {
            ObjectVal::Reference(kid) => {
                if !path.contains(kid) {
                    lemma_walk_node_error(s, kid, path.push(kid), inh, fuel);
                }
            },
            _ => {},
        }
        lemma_walk_kids_error(s, kids.skip(1), path, inh, fuel);
    }
}

/// An enumeration fails only with a parse failure, a cycle, a dangling
/// reference, or a malformed attribute.
pub proof fn lemma_enumerate_error(st: Store)
    ensures
        spec_enumerate(st) matches Err(e) ==> (e == EngineError::Parse || e is CyclicPageTree
            || e is DanglingReference || e is MalformedAttribute),
{
    match st.root {
        None => {},
        Some(rid) => {
            match spec_store_get(st@, rid) {
                Some(ObjectVal::Dict(catd)) => {
                    match spec_dict_get(catd, nm_pages()) {
                        Some(ObjectVal::Reference(pid)) => {
                            lemma_walk_node_error(
                                st@,
                                pid,
                                seq![pid],
                                InheritedVal { media_box: None, rotate: None },
                                st@.len() as nat,
                            );
                        },
                        _ => {},
                    }
                },
                _ => {},
            }
        },
    }
}

/// Whether an identifier is on the path.
pub fn path_contains(path: &Vec<ObjectId>, id: ObjectId) -> (r: bool)
    ensures
        r <==> path@.contains(id),
{
    let mut i: usize = 0;
    while i < path.len()
        invariant
            i <= path@.len(),
            forall|j: int| 0 <= j < i ==> path@[j] != id,
        decreases path@.len() - i,
    {
        if path[i] == id {
            proof {
                assert(path@[i as int] == id);
            }
            return true;
        }
        i += 1;
    }
    proof {
        assert(!path@.contains(id));
    }
    false
}

/// The path extended by one identifier.
pub fn path_push(path: &Vec<ObjectId>, id: ObjectId) -> (r: Vec<ObjectId>)
    ensures
        r@ == path@.push(id),
{
    let mut out: Vec<ObjectId> = Vec::new();
    let mut i: usize = 0;
    while i < path.len()
        invariant
            i <= path@.len(),
            out@ =~= path@.subrange(0, i as int),
        decreases path@.len() - i,
    {
        out.push(path[i]);
        i += 1;
    }
    out.push(id);
    proof {
        assert(out@ =~= path@.push(id));
    }
    out
}

/// The inheritable raw values seen at an internal node: the node's own
/// entries where present, else the inherited ones.
pub fn inherit_step(d: &Dictionary, inh: &Inherited) -> (r: Inherited)
    ensures
        r@ == spec_inherit_val(d@, inh@),
{
    let mb_name = name_media_box();
    let media_box = match d.get(mb_name.as_slice()) {
        Some(o) => Some(clone_object(o)),
        None => match &inh.media_box {
            Some(o) => Some(clone_object(o)),
            None => None,
        },
    };
    let rot_name = name_rotate();
    let rotate = match d.get(rot_name.as_slice()) {
        Some(o) => Some(clone_object(o)),
        None => match &inh.rotate {
            Some(o) => Some(clone_object(o)),
            None => None,
        },
    };
    let r = Inherited { media_box, rotate };
    proof {
        assert(r@ =~= spec_inherit_val(d@, inh@));
    }
    r
}

/// Walks one node; see `spec_walk_node`. Appends the pages found to
/// `out` and the skipped nodes to `warns`.
pub fn walk_node(
    st: &Store,
    id: ObjectId,
    path: &Vec<ObjectId>,
    inh: &Inherited,
    fuel: usize,
    out: &mut Vec<PageRec>,
    warns: &mut Vec<ObjectId>,
) -> (r: Result<(), EngineError>)
    ensures
        ({
            let res = spec_walk_node(st@, id, path@, inh@, fuel as nat);
            match r {
                Ok(_) => res is Done && final(out)@ == old(out)@ + res->pages && final(warns)@
                    == old(warns)@ + res->warns,
                Err(e) => res == WalkRes::Fail(e),
            }
        }),
    decreases fuel, 0nat,
{
    let obj = match st.get(id) {
        Ok(o) => o,
        Err(e) => {
            return Err(e);
        },
    };
    if fuel == 0 {
        return Err(EngineError::CyclicPageTree(id));
    }
    let d = match obj {
        Object::Dict(dd) => dd,
        _ => {
            warns.push(id);
            proof {
                assert(final(out)@ =~= old(out)@ + Seq::<PageRec>::empty());
                assert(final(warns)@ =~= old(warns)@ + seq![id]);
            }
            return Ok(());
        },
    };
    let ty_name = name_type();
    let ty = d.get(ty_name.as_slice());
    let pages_name = name_pages();
    let page_name = name_page();
    let is_pages = match ty {
        Some(Object::Name(n)) => bytes_eq(n.as_slice(), pages_name.as_slice()),
        _ => false,
    };
    let is_page = if is_pages {
        false
    } else {
        match ty {
            Some(Object::Name(n)) => bytes_eq(n.as_slice(), page_name.as_slice()),
            _ => false,
        }
    };
    proof {
        let tyv = spec_dict_get(d@, nm_type());
        assert(is_pages <==> tyv == Some(ObjectVal::Name(nm_pages())));
        assert(is_page <==> (!is_pages && tyv == Some(ObjectVal::Name(nm_page()))));
    }
    if is_pages {
        let kids_name = name_kids();
        match d.get(kids_name.as_slice()) {
            Some(kobj) => {
                match kobj {
                    Object::Array(kids) => {
                        let inh2 = inherit_step(d, inh);
                        proof {
                            assert(view_arr(kids@).skip(0) =~= view_arr(kids@));
                        }
                        walk_kids(st, kids, 0, path, &inh2, fuel - 1, out, warns)
                    },
                    _ => {
                        warns.push(id);
                        proof {
                            assert(final(out)@ =~= old(out)@ + Seq::<PageRec>::empty());
                            assert(final(warns)@ =~= old(warns)@ + seq![id]);
                        }
                        Ok(())
                    },
                }
            },
            None => {
                warns.push(id);
                proof {
                    assert(final(out)@ =~= old(out)@ + Seq::<PageRec>::empty());
                    assert(final(warns)@ =~= old(warns)@ + seq![id]);
                }
                Ok(())
            },
        }
    } else if is_page {
        match resolve(d, inh) {
            Ok(a) => {
                out.push(PageRec { id, attrs: a });
                proof {
                    assert(final(out)@ =~= old(out)@ + seq![PageRec { id, attrs: a }]);
                    assert(final(warns)@ =~= old(warns)@ + Seq::<ObjectId>::empty());
                }
                Ok(())
            },
            Err(e) => Err(e),
        }
    } else {
        warns.push(id);
        proof {
            assert(final(out)@ =~= old(out)@ + Seq::<PageRec>::empty());
            assert(final(warns)@ =~= old(warns)@ + seq![id]);
        }
        Ok(())
    }
}

/// Walks the kids from position `i` on; see `spec_walk_kids`.
pub fn walk_kids(
    st: &Store,
    kids: &Vec<Object>,
    i: usize,
    path: &Vec<ObjectId>,
    inh: &Inherited,
    fuel: usize,
    out: &mut Vec<PageRec>,
    warns: &mut Vec<ObjectId>,
) -> (r: Result<(), EngineError>)
    requires
        i <= kids@.len(),
    ensures
        ({
            let res = spec_walk_kids(
                st@,
                view_arr(kids@).skip(i as int),
                path@,
                inh@,
                fuel as nat,
            );
            match r {
                Ok(_) => res is Done && final(out)@ == old(out)@ + res->pages && final(warns)@
                    == old(warns)@ + res->warns,
                Err(e) => res == WalkRes::Fail(e),
            }
        }),
    decreases fuel, kids@.len() - i + 1,
{
    proof {
        lemma_view_arr_len(kids@);
    }
    let ghost kv = view_arr(kids@).skip(i as int);
    if i == kids.len() {
        proof {
            assert(kv =~= Seq::<ObjectVal>::empty());
            assert(final(out)@ =~= old(out)@ + Seq::<PageRec>::empty());
            assert(final(warns)@ =~= old(warns)@ + Seq::<ObjectId>::empty());
        }
        return Ok(());
    }
    proof {
        lemma_view_arr_index(kids@, i as int);
        assert(kv[0] == view_arr(kids@)[i as int]);
        assert(kv.skip(1) =~= view_arr(kids@).skip(i as int + 1));
    }
    let ghost out0 = out@;
    let ghost warns0 = warns@;
    match &kids[i] {
        Object::Reference(kid) => {
            if path_contains(path, *kid) {
                return Err(EngineError::CyclicPageTree(*kid));
            }
            let path2 = path_push(path, *kid);
            match walk_node(st, *kid, &path2, inh, fuel, out, warns) {
                Ok(_) => {},
                Err(e) => {
                    return Err(e);
                },
            }
        },
        _ => {},
    }
    let ghost out1 = out@;
    let ghost warns1 = warns@;
    let r = walk_kids(st, kids, i + 1, path, inh, fuel, out, warns);
    proof {
        let head = match kv[0] {
            ObjectVal::Reference(kid) => if path@.contains(kid) {
                WalkRes::Fail(EngineError::CyclicPageTree(kid))
            } else {
                spec_walk_node(st@, kid, path@.push(kid), inh@, fuel as nat)
            },
            _ => WalkRes::Done { pages: Seq::empty(), warns: Seq::empty() },
        };
        let rest = spec_walk_kids(st@, kv.skip(1), path@, inh@, fuel as nat);
        if r is Ok {
            assert(head is Done && rest is Done);
            assert(out1 == out0 + head->pages);
            assert(warns1 == warns0 + head->warns);
            assert(out@ == out1 + rest->pages);
            assert(warns@ == warns1 + rest->warns);
            assert(out@ =~= out0 + (head->pages + rest->pages));
            assert(warns@ =~= warns0 + (head->warns + rest->warns));
        }
    }
    r
}

/// Enumerates the pages of a store in depth-first traversal order,
/// together with the identifiers of skipped nodes; see `spec_enumerate`.
pub fn enumerate(st: &Store) -> (r: Result<(Vec<PageRec>, Vec<ObjectId>), EngineError>)
    ensures
        ({
            let res = spec_enumerate(*st);
            match r {
                Ok(pw) => res matches Ok(sp) && pw.0@ == sp.0 && pw.1@ == sp.1,
                Err(e) => res == Err::<(Seq<PageRec>, Seq<ObjectId>), EngineError>(e),
            }
        }),
{
    let rid = match st.root {
        Some(rid) => rid,
        None => {
            return Err(EngineError::Parse);
        },
    };
    let cat = match st.get(rid) {
        Ok(o) => o,
        Err(e) => {
            return Err(e);
        },
    };
    let catd = match cat {
        Object::Dict(dd) => dd,
        _ => {
            return Err(EngineError::Parse);
        },
    };
    let pages_name = name_pages();
    let pid = match catd.get(pages_name.as_slice()) {
        Some(pobj) => match pobj {
            Object::Reference(pid) => *pid,
            _ => {
                return Err(EngineError::Parse);
            },
        },
        None => {
            return Err(EngineError::Parse);
        },
    };
    let mut path: Vec<ObjectId> = Vec::new();
    path.push(pid);
    proof {
        assert(path@ =~= seq![pid]);
    }
    let inh = Inherited::none();
    let mut pages: Vec<PageRec> = Vec::new();
    let mut warns: Vec<ObjectId> = Vec::new();
    let fuel = st.len();
    match walk_node(st, pid, &path, &inh, fuel, &mut pages, &mut warns) {
        Ok(_) => {
            proof {
                let res = spec_walk_node(st@, pid, seq![pid], inh@, st@.len() as nat);
                assert(pages@ =~= Seq::<PageRec>::empty() + res->pages);
                assert(warns@ =~= Seq::<ObjectId>::empty() + res->warns);
                assert(pages@ == res->pages);
                assert(warns@ == res->warns);
            }
            Ok((pages, warns))
        },
        Err(e) => Err(e),
    }
}

} // verus!
