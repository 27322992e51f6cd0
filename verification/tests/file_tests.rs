use pdf_engine::engine::{apply_edits_bytes, load_document, merge_bytes};
use pdf_engine::errors::EngineError;
use pdf_engine::object::{Dictionary, Object};
use pdf_engine::plan::EditInstructions;
use pdf_engine::serialize::serialize;
use pdf_engine::parse::parse_document;
use pdf_engine::store::Store;
use pdf_engine::walk::enumerate;

fn leaf(mb: Option<[i64; 4]>, rot: Option<i64>) -> Dictionary {
    let mut d = Dictionary::new();
    d.set(b"Type", Object::Name(b"Page".to_vec()));
    if let Some(m) = mb {
        d.set(
            b"MediaBox",
            Object::Array(vec![
                Object::Integer(m[0]),
                Object::Integer(m[1]),
                Object::Integer(m[2]),
                Object::Integer(m[3]),
            ]),
        );
    }
    if let Some(r) = rot {
        d.set(b"Rotate", Object::Integer(r));
    }
    d
}

fn doc(leaves: Vec<Dictionary>) -> Store {
    let mut st = Store::new();
    let mut kids: Vec<Object> = Vec::new();
    let count = leaves.len() as i64;
    for d in leaves {
        let id = st.insert(Object::Dict(d)).unwrap();
        kids.push(Object::Reference(id));
    }
    let mut pd = Dictionary::new();
    pd.set(b"Type", Object::Name(b"Pages".to_vec()));
    pd.set(b"Kids", Object::Array(kids));
    pd.set(b"Count", Object::Integer(count));
    let pid = st.insert(Object::Dict(pd)).unwrap();
    let mut cat = Dictionary::new();
    cat.set(b"Type", Object::Name(b"Catalog".to_vec()));
    cat.set(b"Pages", Object::Reference(pid));
    let cid = st.insert(Object::Dict(cat)).unwrap();
    st.root = Some(cid);
    st
}

#[test]
fn serialized_bytes_load_back_with_the_same_pages() {
    let st = doc(vec![
        leaf(Some([0, 0, 612, 792]), Some(90)),
        leaf(Some([0, 0, 300, 400]), None),
    ]);
    let bytes = serialize(&st).unwrap();
    assert!(bytes.starts_with(b"%PDF-"));
    let (_, sums, _) = load_document(&bytes).unwrap();
    assert_eq!(sums.len(), 2);
    assert_eq!(sums[0].page_number, 1);
    assert_eq!(sums[0].width_milli, 612_000);
    assert_eq!(sums[0].height_milli, 792_000);
    assert_eq!(sums[0].rotation, 90);
    assert_eq!(sums[1].page_number, 2);
    assert_eq!(sums[1].width_milli, 300_000);
    assert_eq!(sums[1].height_milli, 400_000);
    assert_eq!(sums[1].rotation, 0);
}

#[test]
fn identity_edits_round_trip_preserves_every_summary() {
    // Load, apply the identity instruction set, load again: the same
    // page count and the same effective size and rotation per page.
    let st = doc(vec![
        leaf(Some([0, 0, 612, 792]), Some(180)),
        leaf(Some([10, 20, 310, 420]), None),
        leaf(None, Some(270)),
    ]);
    let bytes = serialize(&st).unwrap();
    let (_, before, _) = load_document(&bytes).unwrap();
    let instr = EditInstructions {
        page_order: vec![1, 2, 3],
        rotation_overrides: Vec::new(),
        deleted_pages: Vec::new(),
    };
    let edited = apply_edits_bytes(&bytes, &instr).unwrap();
    let (_, after, _) = load_document(&edited).unwrap();
    assert_eq!(before.len(), after.len());
    for (b, a) in before.iter().zip(after.iter()) {
        assert_eq!(b.page_number, a.page_number);
        assert_eq!(b.width_milli, a.width_milli);
        assert_eq!(b.height_milli, a.height_milli);
        assert_eq!(b.rotation, a.rotation);
    }
}

#[test]
fn merge_bytes_counts_and_orders_pages() {
    let a = serialize(&doc(vec![
        leaf(Some([0, 0, 100, 50]), None),
        leaf(Some([0, 0, 200, 50]), None),
        leaf(Some([0, 0, 300, 50]), None),
    ]))
    .unwrap();
    let b = serialize(&doc(vec![
        leaf(Some([0, 0, 400, 50]), None),
        leaf(Some([0, 0, 500, 50]), None),
        leaf(Some([0, 0, 600, 50]), None),
        leaf(Some([0, 0, 700, 50]), None),
    ]))
    .unwrap();
    let merged = merge_bytes(&vec![a, b]).unwrap();
    let (_, sums, _) = load_document(&merged).unwrap();
    assert_eq!(sums.len(), 7);
    let widths: Vec<i64> = sums.iter().map(|s| s.width_milli).collect();
    assert_eq!(
        widths,
        vec![100_000, 200_000, 300_000, 400_000, 500_000, 600_000, 700_000]
    );
}

#[test]
fn object_varieties_survive_a_file_round_trip() {
    // Names with escapes, strings with parentheses, reals, booleans,
    // null and a stream all come back from the emitted bytes.
    let mut st = doc(vec![leaf(Some([0, 0, 100, 100]), None)]);
    let mut extras = Dictionary::new();
    extras.set(b"A Key", Object::Str(b"par(en)s \\ and more".to_vec()));
    extras.set(b"Nums", Object::Array(vec![
        Object::Real(1_500),
        Object::Real(-2_250),
        Object::Integer(-7),
        Object::Boolean(true),
        Object::Boolean(false),
        Object::Null,
    ]));
    let _ = st.insert(Object::Dict(extras)).unwrap();
    let mut sd = Dictionary::new();
    sd.set(b"Kind", Object::Name(b"Data".to_vec()));
    let payload = b"raw stream bytes\nwith endstream-looking text? no.".to_vec();
    let _ = st.insert(Object::Stream(sd, payload.clone())).unwrap();
    let bytes = serialize(&st).unwrap();
    let re = parse_document(&bytes).unwrap();
    // The reparsed store holds the same number of objects and still
    // enumerates the one page.
    assert_eq!(re.len(), st.len());
    let (pages, _) = enumerate(&re).unwrap();
    assert_eq!(pages.len(), 1);
    // The stream payload survived byte for byte.
    let mut found_stream = false;
    for i in 0..re.len() {
        if let Object::Stream(_, data) = re.obj_at(i) {
            assert_eq!(data, &payload);
            found_stream = true;
        }
    }
    assert!(found_stream);
}

#[test]
fn later_occurrences_of_an_object_number_win() {
    // Two bodies for object 1: the one later in the file is kept, as
    // with an incremental update.
    let mut bytes = Vec::new();
    bytes.extend_from_slice(b"%PDF-1.5\n");
    bytes.extend_from_slice(b"1 0 obj\n<< /Type /Page /MediaBox [0 0 111 111] >>\nendobj\n");
    bytes.extend_from_slice(b"2 0 obj\n<< /Type /Pages /Kids [1 0 R] /Count 1 >>\nendobj\n");
    bytes.extend_from_slice(b"3 0 obj\n<< /Type /Catalog /Pages 2 0 R >>\nendobj\n");
    bytes.extend_from_slice(b"1 0 obj\n<< /Type /Page /MediaBox [0 0 222 222] >>\nendobj\n");
    bytes.extend_from_slice(b"trailer\n<< /Size 4 /Root 3 0 R >>\n%%EOF\n");
    let (_, sums, _) = load_document(&bytes).unwrap();
    assert_eq!(sums.len(), 1);
    assert_eq!(sums[0].width_milli, 222_000);
}

#[test]
fn a_file_without_a_trailer_still_loads_via_the_catalog() {
    let mut bytes = Vec::new();
    bytes.extend_from_slice(b"%PDF-1.5\n");
    bytes.extend_from_slice(b"1 0 obj\n<< /Type /Page >>\nendobj\n");
    bytes.extend_from_slice(b"2 0 obj\n<< /Type /Pages /Kids [1 0 R] /Count 1 >>\nendobj\n");
    bytes.extend_from_slice(b"3 0 obj\n<< /Type /Catalog /Pages 2 0 R >>\nendobj\n");
    let (_, sums, _) = load_document(&bytes).unwrap();
    assert_eq!(sums.len(), 1);
    assert_eq!(sums[0].width_milli, 612_000);
}

#[test]
fn garbage_bytes_are_a_parse_error() {
    assert!(matches!(load_document(b"not a document"), Err(EngineError::Parse)));
}

#[test]
fn fractional_sizes_round_trip_in_thousandths() {
    let st = doc(vec![leaf(None, None)]);
    let mut with_real = Dictionary::new();
    with_real.set(b"Type", Object::Name(b"Page".to_vec()));
    with_real.set(
        b"MediaBox",
        Object::Array(vec![
            Object::Real(0),
            Object::Real(0),
            Object::Real(612_500),
            Object::Real(792_250),
        ]),
    );
    let mut st2 = st;
    let _ = st2.insert(Object::Dict(with_real));
    let bytes = serialize(&st2).unwrap();
    let re = parse_document(&bytes).unwrap();
    let mut found = false;
    for i in 0..re.len() {
        if let Object::Dict(d) = re.obj_at(i) {
            if let Some(Object::Array(items)) = d.get(b"MediaBox") {
                if let Object::Real(urx) = &items[2] {
                    assert_eq!(*urx, 612_500);
                    if let Object::Real(ury) = &items[3] {
                        assert_eq!(*ury, 792_250);
                        found = true;
                    }
                }
            }
        }
    }
    assert!(found);
}

#[test]
fn skipped_nodes_are_surfaced_at_the_load_boundary() {
    // A Kids entry naming a non-page node loads fine; the node's
    // identifier comes back in the diagnostics list.
    let mut bytes = Vec::new();
    bytes.extend_from_slice(b"%PDF-1.5\n");
    bytes.extend_from_slice(b"1 0 obj\n<< /Type /Page >>\nendobj\n");
    bytes.extend_from_slice(b"2 0 obj\n<< /Type /Outline >>\nendobj\n");
    bytes.extend_from_slice(b"3 0 obj\n<< /Type /Pages /Kids [1 0 R 2 0 R] /Count 2 >>\nendobj\n");
    bytes.extend_from_slice(b"4 0 obj\n<< /Type /Catalog /Pages 3 0 R >>\nendobj\n");
    bytes.extend_from_slice(b"trailer\n<< /Size 5 /Root 4 0 R >>\n%%EOF\n");
    let (_, sums, skipped) = load_document(&bytes).unwrap();
    assert_eq!(sums.len(), 1);
    assert_eq!(skipped.len(), 1);
    assert_eq!(skipped[0].number, 2);
}

#[test]
fn an_object_freed_by_a_later_table_stays_freed() {
    let mut bytes = Vec::new();
    bytes.extend_from_slice(b"%PDF-1.5\n");
    bytes.extend_from_slice(b"1 0 obj\n<< /Type /Page >>\nendobj\n");
    bytes.extend_from_slice(b"2 0 obj\n<< /Type /Pages /Kids [1 0 R] /Count 1 >>\nendobj\n");
    bytes.extend_from_slice(b"3 0 obj\n<< /Type /Catalog /Pages 2 0 R >>\nendobj\n");
    bytes.extend_from_slice(b"4 0 obj\n<< /Note (stale) >>\nendobj\n");
    bytes.extend_from_slice(b"xref\n4 1\n0000000000 00001 f \n");
    bytes.extend_from_slice(b"trailer\n<< /Size 5 /Root 3 0 R >>\n%%EOF\n");
    let st = parse_document(&bytes).unwrap();
    assert_eq!(st.len(), 3);
    let (_, sums, _) = load_document(&bytes).unwrap();
    assert_eq!(sums.len(), 1);
}

#[test]
fn a_body_after_the_freeing_table_is_kept() {
    let mut bytes = Vec::new();
    bytes.extend_from_slice(b"%PDF-1.5\n");
    bytes.extend_from_slice(b"1 0 obj\n<< /Type /Page /MediaBox [0 0 111 111] >>\nendobj\n");
    bytes.extend_from_slice(b"xref\n1 1\n0000000000 00001 f \n");
    bytes.extend_from_slice(b"1 0 obj\n<< /Type /Page /MediaBox [0 0 222 222] >>\nendobj\n");
    bytes.extend_from_slice(b"2 0 obj\n<< /Type /Pages /Kids [1 0 R] /Count 1 >>\nendobj\n");
    bytes.extend_from_slice(b"3 0 obj\n<< /Type /Catalog /Pages 2 0 R >>\nendobj\n");
    bytes.extend_from_slice(b"trailer\n<< /Size 4 /Root 3 0 R >>\n%%EOF\n");
    let (_, sums, _) = load_document(&bytes).unwrap();
    assert_eq!(sums.len(), 1);
    assert_eq!(sums[0].width_milli, 222_000);
}
