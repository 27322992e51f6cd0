use pdf_engine::attrs::wrap_degrees;
use pdf_engine::engine::load_document;
use pdf_engine::errors::EngineError;
use pdf_engine::merge::merge;
use pdf_engine::object::{Dictionary, Object, ObjectId};
use pdf_engine::plan::{apply_edits, EditInstructions};
use pdf_engine::serialize::serialize;
use pdf_engine::store::Store;
use pdf_engine::walk::enumerate;

/// A leaf page dictionary; the rectangle is in whole units.
fn leaf(mb: Option<[i64; 4]>, rot: Option<i64>) -> Dictionary {
    let mut d = Dictionary::new();
    d.set(b"Type", Object::Name(b"Page".to_vec()));
    if let Some(m) = mb {
        d.set(
            b"MediaBox",
            Object::Array(vec![
                Object::Integer(m[0]),
                Object::Integer(m[1]),
                Object::Integer(m[2]),
                Object::Integer(m[3]),
            ]),
        );
    }
    if let Some(r) = rot {
        d.set(b"Rotate", Object::Integer(r));
    }
    d
}

/// A document whose flat page tree holds the given leaves; the Pages
/// node may declare its own inheritable attributes.
fn doc(leaves: Vec<Dictionary>, pages_mb: Option<[i64; 4]>, pages_rot: Option<i64>) -> Store {
    let mut st = Store::new();
    let mut kids: Vec<Object> = Vec::new();
    let count = leaves.len() as i64;
    for d in leaves {
        let id = st.insert(Object::Dict(d)).unwrap();
        kids.push(Object::Reference(id));
    }
    let mut pd = Dictionary::new();
    pd.set(b"Type", Object::Name(b"Pages".to_vec()));
    pd.set(b"Kids", Object::Array(kids));
    pd.set(b"Count", Object::Integer(count));
    if let Some(m) = pages_mb {
        pd.set(
            b"MediaBox",
            Object::Array(vec![
                Object::Integer(m[0]),
                Object::Integer(m[1]),
                Object::Integer(m[2]),
                Object::Integer(m[3]),
            ]),
        );
    }
    if let Some(r) = pages_rot {
        pd.set(b"Rotate", Object::Integer(r));
    }
    let pid = st.insert(Object::Dict(pd)).unwrap();
    let mut cat = Dictionary::new();
    cat.set(b"Type", Object::Name(b"Catalog".to_vec()));
    cat.set(b"Pages", Object::Reference(pid));
    let cid = st.insert(Object::Dict(cat)).unwrap();
    st.root = Some(cid);
    st
}

#[test]
fn wrap_degrees_normalizes() {
    assert_eq!(wrap_degrees(450), 90);
    assert_eq!(wrap_degrees(-90), 270);
    assert_eq!(wrap_degrees(90), 90);
    assert_eq!(wrap_degrees(0), 0);
    assert_eq!(wrap_degrees(360), 0);
    assert_eq!(wrap_degrees(-450), 270);
    assert_eq!(wrap_degrees(720), 0);
}

#[test]
fn rotation_overrides_normalize() {
    // Overrides of 450, -90 and 90 yield effective 90, 270, 90.
    for (given, want) in [(450i64, 90i64), (-90, 270), (90, 90)] {
        let st = doc(vec![leaf(Some([0, 0, 100, 200]), None)], None, None);
        let instr = EditInstructions {
            page_order: vec![1],
            rotation_overrides: vec![(1, given)],
            deleted_pages: Vec::new(),
        };
        let out = apply_edits(&st, &instr).unwrap();
        let (pages, _) = enumerate(&out).unwrap();
        assert_eq!(pages.len(), 1);
        assert_eq!(pages[0].attrs.rotation, want);
    }
}

#[test]
fn invalid_rotation_override_is_malformed() {
    let st = doc(vec![leaf(None, None)], None, None);
    let instr = EditInstructions {
        page_order: vec![1],
        rotation_overrides: vec![(1, 45)],
        deleted_pages: Vec::new(),
    };
    assert!(matches!(apply_edits(&st, &instr), Err(EngineError::MalformedAttribute)));
}

#[test]
fn deletion_keeps_the_named_pages() {
    // Five pages with distinct widths; deleting {2,4} and keeping
    // [1,3,5] yields three pages matching the originals 1, 3 and 5.
    let leaves = (1..=5)
        .map(|i| leaf(Some([0, 0, 100 * i, 200]), None))
        .collect::<Vec<_>>();
    let st = doc(leaves, None, None);
    let instr = EditInstructions {
        page_order: vec![1, 3, 5],
        rotation_overrides: Vec::new(),
        deleted_pages: vec![2, 4],
    };
    let out = apply_edits(&st, &instr).unwrap();
    let (pages, warns) = enumerate(&out).unwrap();
    assert_eq!(pages.len(), 3);
    assert!(warns.is_empty());
    let widths: Vec<i64> = pages
        .iter()
        .map(|p| p.attrs.media_box.urx - p.attrs.media_box.llx)
        .collect();
    assert_eq!(widths, vec![100_000, 300_000, 500_000]);
}

#[test]
fn deleting_every_page_yields_an_empty_document() {
    let st = doc(vec![leaf(None, None), leaf(None, None)], None, None);
    let instr = EditInstructions {
        page_order: vec![1, 2],
        rotation_overrides: Vec::new(),
        deleted_pages: vec![1, 2],
    };
    let out = apply_edits(&st, &instr).unwrap();
    let (pages, _) = enumerate(&out).unwrap();
    assert_eq!(pages.len(), 0);
    // The empty document still serializes and loads.
    let bytes = serialize(&out).unwrap();
    let (_, sums, _) = load_document(&bytes).unwrap();
    assert_eq!(sums.len(), 0);
}

#[test]
fn unknown_page_number_is_reported() {
    let st = doc(vec![leaf(None, None)], None, None);
    let instr = EditInstructions {
        page_order: vec![7],
        rotation_overrides: Vec::new(),
        deleted_pages: Vec::new(),
    };
    assert!(matches!(apply_edits(&st, &instr), Err(EngineError::UnknownPageNumber(7))));
}

#[test]
fn page_duplication_is_allowed() {
    let st = doc(vec![leaf(Some([0, 0, 100, 200]), None)], None, None);
    let instr = EditInstructions {
        page_order: vec![1, 1, 1],
        rotation_overrides: Vec::new(),
        deleted_pages: Vec::new(),
    };
    let out = apply_edits(&st, &instr).unwrap();
    let (pages, _) = enumerate(&out).unwrap();
    assert_eq!(pages.len(), 3);
}

#[test]
fn merge_concatenates_pages_without_id_collisions() {
    // Page counts 3 and 4 merge into exactly 7 pages in order.
    let a = doc(
        (1..=3).map(|i| leaf(Some([0, 0, 10 * i, 20]), None)).collect(),
        None,
        None,
    );
    let b = doc(
        (1..=4).map(|i| leaf(Some([0, 0, 100 * i, 20]), None)).collect(),
        None,
        None,
    );
    let merged = merge(&vec![a, b]).unwrap();
    let (pages, _) = enumerate(&merged).unwrap();
    assert_eq!(pages.len(), 7);
    let widths: Vec<i64> = pages
        .iter()
        .map(|p| p.attrs.media_box.urx - p.attrs.media_box.llx)
        .collect();
    assert_eq!(
        widths,
        vec![10_000, 20_000, 30_000, 100_000, 200_000, 300_000, 400_000]
    );
    // No two objects share an identifier: numbers strictly increase.
    for i in 1..merged.len() {
        assert!(merged.id_at(i - 1).number < merged.id_at(i).number);
    }
}

#[test]
fn merge_of_nothing_is_refused() {
    assert!(matches!(merge(&Vec::new()), Err(EngineError::EmptyInput)));
}

#[test]
fn inherited_media_box_resolves_through_the_chain() {
    // A Pages node declaring [0,0,612,792] with a bare leaf resolves to
    // 612 by 792; a leaf overriding to [0,0,300,300] wins regardless.
    let st = doc(
        vec![leaf(None, None), leaf(Some([0, 0, 300, 300]), None)],
        Some([0, 0, 612, 792]),
        None,
    );
    let (pages, _) = enumerate(&st).unwrap();
    assert_eq!(pages.len(), 2);
    assert_eq!(pages[0].attrs.media_box.urx - pages[0].attrs.media_box.llx, 612_000);
    assert_eq!(pages[0].attrs.media_box.ury - pages[0].attrs.media_box.lly, 792_000);
    assert_eq!(pages[1].attrs.media_box.urx - pages[1].attrs.media_box.llx, 300_000);
    assert_eq!(pages[1].attrs.media_box.ury - pages[1].attrs.media_box.lly, 300_000);
}

#[test]
fn absent_media_box_falls_back_to_the_default() {
    let st = doc(vec![leaf(None, None)], None, None);
    let (pages, _) = enumerate(&st).unwrap();
    assert_eq!(pages[0].attrs.media_box.urx, 612_000);
    assert_eq!(pages[0].attrs.media_box.ury, 792_000);
}

#[test]
fn negative_extent_is_malformed_not_defaulted() {
    let st = doc(vec![leaf(Some([100, 0, 50, 200]), None)], None, None);
    assert_eq!(enumerate(&st), Err(EngineError::MalformedAttribute));
}

#[test]
fn dangling_kid_reference_is_reported() {
    let mut st = Store::new();
    let ghost_id = ObjectId { number: 999, generation: 0 };
    let mut pd = Dictionary::new();
    pd.set(b"Type", Object::Name(b"Pages".to_vec()));
    pd.set(b"Kids", Object::Array(vec![Object::Reference(ghost_id)]));
    pd.set(b"Count", Object::Integer(1));
    let pid = st.insert(Object::Dict(pd)).unwrap();
    let mut cat = Dictionary::new();
    cat.set(b"Type", Object::Name(b"Catalog".to_vec()));
    cat.set(b"Pages", Object::Reference(pid));
    let cid = st.insert(Object::Dict(cat)).unwrap();
    st.root = Some(cid);
    assert_eq!(enumerate(&st), Err(EngineError::DanglingReference(ghost_id)));
}

#[test]
fn cyclic_page_tree_is_reported() {
    // The Pages node lists itself among its Kids.
    let mut st = Store::new();
    let pid = ObjectId { number: 1, generation: 0 };
    let mut pd = Dictionary::new();
    pd.set(b"Type", Object::Name(b"Pages".to_vec()));
    pd.set(b"Kids", Object::Array(vec![Object::Reference(pid)]));
    pd.set(b"Count", Object::Integer(1));
    let got = st.insert(Object::Dict(pd)).unwrap();
    assert_eq!(got, pid);
    let mut cat = Dictionary::new();
    cat.set(b"Type", Object::Name(b"Catalog".to_vec()));
    cat.set(b"Pages", Object::Reference(pid));
    let cid = st.insert(Object::Dict(cat)).unwrap();
    st.root = Some(cid);
    assert_eq!(enumerate(&st), Err(EngineError::CyclicPageTree(pid)));
}

#[test]
fn non_page_nodes_are_skipped_with_a_warning() {
    let mut st = Store::new();
    let mut odd = Dictionary::new();
    odd.set(b"Type", Object::Name(b"Outline".to_vec()));
    let odd_id = st.insert(Object::Dict(odd)).unwrap();
    let mut pd = Dictionary::new();
    pd.set(b"Type", Object::Name(b"Pages".to_vec()));
    pd.set(b"Kids", Object::Array(vec![Object::Reference(odd_id)]));
    pd.set(b"Count", Object::Integer(1));
    let pid = st.insert(Object::Dict(pd)).unwrap();
    let mut cat = Dictionary::new();
    cat.set(b"Pages", Object::Reference(pid));
    let cid = st.insert(Object::Dict(cat)).unwrap();
    st.root = Some(cid);
    let (pages, warns) = enumerate(&st).unwrap();
    assert_eq!(pages.len(), 0);
    assert_eq!(warns, vec![odd_id]);
}

#[test]
fn deep_dangling_reference_is_not_misread_as_a_cycle() {
    // A single-object store whose catalog is itself the traversed Pages
    // node: the walk reaches the dangling kid at maximal depth and must
    // still name it as dangling, not as a cycle.
    let mut st = Store::new();
    let self_id = ObjectId { number: 1, generation: 0 };
    let ghost_id = ObjectId { number: 2, generation: 0 };
    let mut pd = Dictionary::new();
    pd.set(b"Type", Object::Name(b"Pages".to_vec()));
    pd.set(b"Pages", Object::Reference(self_id));
    pd.set(b"Kids", Object::Array(vec![Object::Reference(ghost_id)]));
    let got = st.insert(Object::Dict(pd)).unwrap();
    assert_eq!(got, self_id);
    st.root = Some(self_id);
    assert_eq!(enumerate(&st), Err(EngineError::DanglingReference(ghost_id)));
}

#[test]
fn shared_contents_stay_one_target_after_edits() {
    // Two pages share one Contents object; after an edit the output
    // leaves still reference that same single object.
    let mut st = Store::new();
    let mut shared = Dictionary::new();
    shared.set(b"Kind", Object::Name(b"Data".to_vec()));
    let shared_id = st.insert(Object::Dict(shared)).unwrap();
    let mut kids: Vec<Object> = Vec::new();
    for _ in 0..2 {
        let mut d = leaf(Some([0, 0, 100, 100]), None);
        d.set(b"Contents", Object::Reference(shared_id));
        let id = st.insert(Object::Dict(d)).unwrap();
        kids.push(Object::Reference(id));
    }
    let mut pd = Dictionary::new();
    pd.set(b"Type", Object::Name(b"Pages".to_vec()));
    pd.set(b"Kids", Object::Array(kids));
    pd.set(b"Count", Object::Integer(2));
    let pid = st.insert(Object::Dict(pd)).unwrap();
    let mut cat = Dictionary::new();
    cat.set(b"Type", Object::Name(b"Catalog".to_vec()));
    cat.set(b"Pages", Object::Reference(pid));
    let cid = st.insert(Object::Dict(cat)).unwrap();
    st.root = Some(cid);

    let instr = EditInstructions {
        page_order: vec![2, 1],
        rotation_overrides: Vec::new(),
        deleted_pages: Vec::new(),
    };
    let out = apply_edits(&st, &instr).unwrap();
    let (pages, _) = enumerate(&out).unwrap();
    assert_eq!(pages.len(), 2);
    let mut targets = Vec::new();
    for p in &pages {
        if let Object::Dict(d) = out.get(p.id).unwrap() {
            if let Some(Object::Reference(cref)) = d.get(b"Contents") {
                targets.push(*cref);
            }
        }
    }
    assert_eq!(targets.len(), 2);
    assert_eq!(targets[0], shared_id);
    assert_eq!(targets[1], shared_id);
    // The shared object itself survived under its identifier.
    assert!(matches!(out.get(shared_id), Ok(Object::Dict(_))));
}
