//! The engine's boundary operations on whole documents: loading bytes
//! into a store with its ordered page summaries, applying an edit
//! instruction set, and merging several documents, each ending in fresh
//! file bytes. Callers that work with files read and write the bytes
//! themselves and hand them in as plain values.

use vstd::prelude::*;
use crate::errors::EngineError;
use crate::merge::merge;
use crate::parse::parse_document;
use crate::plan::{apply_edits, EditInstructions};
use crate::serialize::{serialize, spec_has_header};
use crate::store::{spec_store_get, Store};
use crate::walk::{enumerate, spec_enumerate, PageRec};
use crate::attrs::InheritedVal;
use crate::object::ObjectId;

verus! {

/// One page as the surrounding shell sees it: its 1-based position in
/// traversal order, its size in thousandths of a unit, and its
/// effective rotation. Thumbnails are the rendering collaborator's
/// business, keyed by the page number; none is produced here.
#[derive(Clone, Copy, PartialEq, Eq, Structural, Debug)]
pub struct PageSummary {
    pub page_number: usize,
    pub width_milli: i64,
    pub height_milli: i64,
    pub rotation: i64,
}

/// The summary of the page at 0-based position `k`.
pub open spec fn spec_summary(k: int, rec: PageRec) -> PageSummary {
    PageSummary {
        page_number: (k + 1) as usize,
        width_milli: (rec.attrs.media_box.urx - rec.attrs.media_box.llx) as i64,
        height_milli: (rec.attrs.media_box.ury - rec.attrs.media_box.lly) as i64,
        rotation: rec.attrs.rotation,
    }
}

/// Summaries of the enumerated pages, in order.
pub fn summarize(pages: &Vec<PageRec>) -> (r: Vec<PageSummary>)
    requires
        pages@.len() < usize::MAX,
        forall|k: int| 0 <= k < pages@.len() ==> (#[trigger] pages@[k]).attrs.wf(),
    ensures
        r@.len() == pages@.len(),
        forall|k: int| 0 <= k < pages@.len() ==> #[trigger] r@[k] == spec_summary(k, pages@[k]),
{
    let mut out: Vec<PageSummary> = Vec::new();
    let mut i: usize = 0;
    while i < pages.len()
        invariant
            i <= pages@.len(),
            pages@.len() < usize::MAX,
            out@.len() == i,
            forall|k: int| 0 <= k < pages@.len() ==> (#[trigger] pages@[k]).attrs.wf(),
            forall|k: int| 0 <= k < i ==> #[trigger] out@[k] == spec_summary(k, pages@[k]),
        decreases pages@.len() - i,
    {
        let rec = pages[i];
        let w = rec.attrs.media_box.width_milli();
        let h = rec.attrs.media_box.height_milli();
        out.push(
            PageSummary {
                page_number: i + 1,
                width_milli: w,
                height_milli: h,
                rotation: rec.attrs.rotation,
            },
        );
        i += 1;
    }
    out
}

/// Loads a document from file bytes: parses the store and enumerates
/// its pages into summaries, together with the identifiers of nodes the
/// walk skipped — the recoverable diagnostics, surfaced rather than
/// dropped. The summaries mirror, one for one, what enumerating the
/// returned store yields.
pub fn load_document(bytes: &[u8]) -> (r: Result<
    (Store, Vec<PageSummary>, Vec<ObjectId>),
    EngineError,
>)
    ensures
        r matches Ok(p) ==> p.0.wf() && (spec_enumerate(p.0) matches Ok(pw) && p.1@.len()
            == pw.0.len() && (forall|k: int|
            0 <= k < pw.0.len() ==> #[trigger] p.1@[k] == spec_summary(k, pw.0[k])) && p.2@
            == pw.1),
        !spec_has_header(bytes@) ==> r == Err::<
            (Store, Vec<PageSummary>, Vec<ObjectId>),
            EngineError,
        >(EngineError::Parse),
        r matches Err(e) ==> (e == EngineError::Parse || e is DanglingReference
            || e is CyclicPageTree || e is MalformedAttribute || e == EngineError::Serialization),
{
    let st = match parse_document(bytes) {
        Ok(st) => st,
        Err(e) => {
            return Err(e);
        },
    };
    let pw = match enumerate(&st) {
        Ok(pw) => pw,
        Err(e) => {
            proof {
                crate::walk::lemma_enumerate_error(st);
            }
            return Err(e);
        },
    };
    let pages = pw.0;
    let warns = pw.1;
    proof {
        let rid = st.root.unwrap();
        let catd = spec_store_get(st@, rid).unwrap()->Dict_0;
        let pid0 = crate::object::spec_dict_get(catd, crate::attrs::nm_pages()).unwrap()
            ->Reference_0;
        crate::walk::lemma_walk_node_pages(
            st@,
            pid0,
            seq![pid0],
            InheritedVal { media_box: None, rotate: None },
            st@.len() as nat,
        );
    }
    if pages.len() == usize::MAX {
        return Err(EngineError::Serialization);
    }
    let sums = summarize(&pages);
    Ok((st, sums, warns))
}

/// Applies an edit instruction set to a document given as file bytes
/// and serializes the result; see `apply_edits` for what the rebuilt
/// document guarantees of the store the output bytes carry.
pub fn apply_edits_bytes(bytes: &[u8], instr: &EditInstructions) -> (r: Result<
    Vec<u8>,
    EngineError,
>)
    ensures
        !spec_has_header(bytes@) ==> r == Err::<Vec<u8>, EngineError>(EngineError::Parse),
        r matches Ok(out) ==> spec_has_header(out@) && out@.len() >= 9,
{
    let st = match parse_document(bytes) {
        Ok(st) => st,
        Err(e) => {
            return Err(e);
        },
    };
    let out = match apply_edits(&st, instr) {
        Ok(out) => out,
        Err(e) => {
            return Err(e);
        },
    };
    serialize(&out)
}

/// Merges documents given as file bytes, in order, and serializes the
/// result; see `merge` for what the merged document guarantees of the
/// store the output bytes carry.
pub fn merge_bytes(docs: &Vec<Vec<u8>>) -> (r: Result<Vec<u8>, EngineError>)
    ensures
        docs@.len() == 0 ==> r == Err::<Vec<u8>, EngineError>(EngineError::EmptyInput),
        docs@.len() > 0 && !spec_has_header(docs@[0]@) ==> r == Err::<Vec<u8>, EngineError>(
            EngineError::Parse,
        ),
        r matches Ok(out) ==> spec_has_header(out@) && out@.len() >= 9,
{
    let mut stores: Vec<Store> = Vec::new();
    let mut i: usize = 0;
    while i < docs.len()
        invariant
            i <= docs@.len(),
            stores@.len() == i,
            forall|k: int| 0 <= k < stores@.len() ==> (#[trigger] stores@[k]).wf(),
            i >= 1 ==> spec_has_header(docs@[0]@),
        decreases docs@.len() - i,
    {
        let st = match parse_document(docs[i].as_slice()) {
            Ok(st) => st,
            Err(e) => {
                return Err(e);
            },
        };
        stores.push(st);
        i += 1;
    }
    let merged = match merge(&stores) {
        Ok(m) => m,
        Err(e) => {
            return Err(e);
        },
    };
    serialize(&merged)
}

} // verus!
