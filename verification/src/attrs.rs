//! Effective page attributes: page size and rotation, resolved from a
//! leaf's own entries and the values inherited from its ancestor chain.
//! A value that is absent falls back along the chain and then to the
//! default size; a value that is present but unusable is a hard error.

use vstd::prelude::*;
use crate::errors::EngineError;
use crate::object::{Object, ObjectVal, Dictionary, spec_dict_get, view_arr};

verus! {

/// Largest whole-unit magnitude that still fits the fixed-point
/// thousandths representation.
pub const MAX_WHOLE_UNITS: i64 = 9_223_372_036_854_775;

/// A page rectangle in thousandths of a unit, lower-left origin.
#[derive(Clone, Copy, PartialEq, Eq, Structural, Debug)]
pub struct MediaBox {
    pub llx: i64,
    pub lly: i64,
    pub urx: i64,
    pub ury: i64,
}

impl MediaBox {
    /// Both extents are present and fit the machine range.
    pub open spec fn wf(self) -> bool {
        &&& 0 <= self.urx - self.llx <= i64::MAX
        &&& 0 <= self.ury - self.lly <= i64::MAX
    }

    /// Width in thousandths of a unit.
    pub fn width_milli(&self) -> (r: i64)
        requires
            self.wf(),
        ensures
            r == self.urx - self.llx,
    {
        self.urx - self.llx
    }

    /// Height in thousandths of a unit.
    pub fn height_milli(&self) -> (r: i64)
        requires
            self.wf(),
        ensures
            r == self.ury - self.lly,
    {
        self.ury - self.lly
    }
}

/// The default page size when no node in the chain declares one:
/// US Letter, 612 by 792 units.
pub open spec fn spec_default_media_box() -> MediaBox {
    MediaBox { llx: 0, lly: 0, urx: 612_000, ury: 792_000 }
}

/// A leaf's resolved attributes: its rectangle and its rotation, the
/// latter always one of 0, 90, 180 or 270.
#[derive(Clone, Copy, PartialEq, Eq, Structural, Debug)]
pub struct EffAttrs {
    pub media_box: MediaBox,
    pub rotation: i64,
}

impl EffAttrs {
    pub open spec fn wf(self) -> bool {
        &&& self.media_box.wf()
        &&& (self.rotation == 0 || self.rotation == 90 || self.rotation == 180
            || self.rotation == 270)
    }
}

/// The nearest ancestor's raw values for the inheritable attributes,
/// carried down the page tree while walking.
pub struct Inherited {
    pub media_box: Option<Object>,
    pub rotate: Option<Object>,
}

/// The mathematical value of an `Inherited`.
#[verifier::ext_equal]
pub struct InheritedVal {
    pub media_box: Option<ObjectVal>,
    pub rotate: Option<ObjectVal>,
}

impl View for Inherited {
    type V = InheritedVal;

    open spec fn view(&self) -> InheritedVal {
        InheritedVal {
            media_box: match self.media_box {
                Some(o) => Some(o@),
                None => None,
            },
            rotate: match self.rotate {
                Some(o) => Some(o@),
                None => None,
            },
        }
    }
}

impl Inherited {
    /// No ancestor has declared either attribute yet.
    pub fn none() -> (r: Inherited)
        ensures
            r@ == (InheritedVal { media_box: None, rotate: None }),
    {
        Inherited { media_box: None, rotate: None }
    }
}

/// The name `Type`.
pub open spec fn nm_type() -> Seq<u8> {
    seq![84u8, 121u8, 112u8, 101u8]
}

/// The name `Pages`.
pub open spec fn nm_pages() -> Seq<u8> {
    seq![80u8, 97u8, 103u8, 101u8, 115u8]
}

/// The name `Page`.
pub open spec fn nm_page() -> Seq<u8> {
    seq![80u8, 97u8, 103u8, 101u8]
}

/// The name `Kids`.
pub open spec fn nm_kids() -> Seq<u8> {
    seq![75u8, 105u8, 100u8, 115u8]
}

/// The name `MediaBox`.
pub open spec fn nm_media_box() -> Seq<u8> {
    seq![77u8, 101u8, 100u8, 105u8, 97u8, 66u8, 111u8, 120u8]
}

/// The name `Rotate`.
pub open spec fn nm_rotate() -> Seq<u8> {
    seq![82u8, 111u8, 116u8, 97u8, 116u8, 101u8]
}

/// The name `Count`.
pub open spec fn nm_count() -> Seq<u8> {
    seq![67u8, 111u8, 117u8, 110u8, 116u8]
}

/// The name `Catalog`.
pub open spec fn nm_catalog() -> Seq<u8> {
    seq![67u8, 97u8, 116u8, 97u8, 108u8, 111u8, 103u8]
}

/// The name `Length`.
pub open spec fn nm_length() -> Seq<u8> {
    seq![76u8, 101u8, 110u8, 103u8, 116u8, 104u8]
}

/// A fixed-point coercion of a numeric object into thousandths; `None`
/// for a non-number or a whole value too large to scale.
pub open spec fn spec_coerce_milli(v: ObjectVal) -> Option<i64> {
    match v {
        ObjectVal::Integer(i) => if -MAX_WHOLE_UNITS <= i <= MAX_WHOLE_UNITS {
            Some((i * 1000) as i64)
        } else {
            None
        },
        ObjectVal::Real(m) => Some(m),
        _ => None,
    }
}

/// Reads a declared page rectangle: an array of exactly four numbers
/// whose extents are non-negative and fit the machine range; anything
/// else is malformed.
pub open spec fn spec_media_box_of(v: ObjectVal) -> Option<MediaBox> {
    match v {
        ObjectVal::Array(items) => if items.len() == 4 {
            match (
                spec_coerce_milli(items[0]),
                spec_coerce_milli(items[1]),
                spec_coerce_milli(items[2]),
                spec_coerce_milli(items[3]),
            ) {
                (Some(llx), Some(lly), Some(urx), Some(ury)) => {
                    let mb = MediaBox { llx, lly, urx, ury };
                    if mb.wf() {
                        Some(mb)
                    } else {
                        None
                    }
                },
                _ => None,
            }
        } else {
            None
        },
        _ => None,
    }
}

/// Wraps a rotation in degrees into the range 0 to 359.
pub open spec fn spec_wrap_degrees(r: i64) -> int {
    if r >= 0 {
        (r as int) % 360
    } else {
        let m = (-(r as int)) % 360;
        if m == 0 {
            0
        } else {
            360 - m
        }
    }
}

/// Reads a declared rotation: an integer that wraps to a whole multiple
/// of ninety degrees; anything else is malformed.
pub open spec fn spec_rotation_of(v: ObjectVal) -> Option<i64> {
    match v {
        ObjectVal::Integer(r) => {
            let n = spec_wrap_degrees(r);
            if n == 0 || n == 90 || n == 180 || n == 270 {
                Some(n as i64)
            } else {
                None
            }
        },
        _ => None,
    }
}

/// The inheritable raw values in force below an internal node: the
/// node's own entries where present, else the values inherited so far.
pub open spec fn spec_inherit_val(
    d: Seq<(Seq<u8>, ObjectVal)>,
    inh: InheritedVal,
) -> InheritedVal {
    InheritedVal {
        media_box: match spec_dict_get(d, nm_media_box()) {
            Some(v) => Some(v),
            None => inh.media_box,
        },
        rotate: match spec_dict_get(d, nm_rotate()) {
            Some(v) => Some(v),
            None => inh.rotate,
        },
    }
}

/// A leaf's own value when present, else the nearest ancestor's.
pub open spec fn spec_nearest(own: Option<ObjectVal>, inherited: Option<ObjectVal>) -> Option<
    ObjectVal,
> {
    if own is Some {
        own
    } else {
        inherited
    }
}

/// Resolves a leaf's effective attributes from its own dictionary and the
/// inherited raw values: the nearest defined value wins; absence falls
/// back to the default size and zero rotation; an unusable present value
/// is a malformed-attribute error.
pub open spec fn spec_resolve(
    leaf: Seq<(Seq<u8>, ObjectVal)>,
    inh: InheritedVal,
) -> Result<EffAttrs, EngineError> {
    let mb = match spec_nearest(spec_dict_get(leaf, nm_media_box()), inh.media_box) {
        None => Some(spec_default_media_box()),
        Some(v) => spec_media_box_of(v),
    };
    let rot = match spec_nearest(spec_dict_get(leaf, nm_rotate()), inh.rotate) {
        None => Some(0i64),
        Some(v) => spec_rotation_of(v),
    };
    match (mb, rot) {
        (Some(media_box), Some(rotation)) => Ok(EffAttrs { media_box, rotation }),
        _ => Err(EngineError::MalformedAttribute),
    }
}

/// A leaf that declares both inheritable attributes itself resolves the
/// same way whatever its ancestors declared: the nearest value wins.
pub proof fn lemma_own_values_win(
    leaf: Seq<(Seq<u8>, ObjectVal)>,
    inh1: InheritedVal,
    inh2: InheritedVal,
)
    requires
        spec_dict_get(leaf, nm_media_box()) is Some,
        spec_dict_get(leaf, nm_rotate()) is Some,
    ensures
        spec_resolve(leaf, inh1) == spec_resolve(leaf, inh2),
{
}

/// A wrapped rotation lies in 0 to 359 and differs from the given value
/// by a whole number of turns.
pub proof fn lemma_wrap_degrees_range(r: i64)
    ensures
        0 <= spec_wrap_degrees(r) < 360,
        (r - spec_wrap_degrees(r)) % 360 == 0,
{
    if r >= 0 {
        vstd::arithmetic::div_mod::lemma_mod_decreases(r as nat, 360);
        vstd::arithmetic::div_mod::lemma_fundamental_div_mod(r as int, 360);
        vstd::arithmetic::div_mod::lemma_mod_multiples_vanish((r as int) / 360, 0, 360);
    } else {
        let m = (-(r as int)) % 360;
        vstd::arithmetic::div_mod::lemma_fundamental_div_mod(-(r as int), 360);
        let q = (-(r as int)) / 360;
        if m == 0 {
            assert(r == -q * 360);
            assert((r - spec_wrap_degrees(r)) == (-q) * 360);
            vstd::arithmetic::div_mod::lemma_mod_multiples_basic(-q, 360);
        } else {
            assert(-(r as int) == q * 360 + m);
            assert(r - spec_wrap_degrees(r) == -(q * 360 + m) - (360 - m));
            assert(r - spec_wrap_degrees(r) == (-q - 1) * 360) by (nonlinear_arith)
                requires
                    r - spec_wrap_degrees(r) == -(q * 360 + m) - (360 - m),
            ;
            vstd::arithmetic::div_mod::lemma_mod_multiples_basic(-q - 1, 360);
        }
    }
}

/// The exec name `Type`.
pub fn name_type() -> (r: Vec<u8>)
    ensures
        r@ == nm_type(),
{
    let mut v: Vec<u8> = Vec::new();
    v.push(84);
    v.push(121);
    v.push(112);
    v.push(101);
    proof {
        assert(v@ =~= nm_type());
    }
    v
}

/// The exec name `Pages`.
pub fn name_pages() -> (r: Vec<u8>)
    ensures
        r@ == nm_pages(),
{
    let mut v: Vec<u8> = Vec::new();
    v.push(80);
    v.push(97);
    v.push(103);
    v.push(101);
    v.push(115);
    proof {
        assert(v@ =~= nm_pages());
    }
    v
}

/// The exec name `Page`.
pub fn name_page() -> (r: Vec<u8>)
    ensures
        r@ == nm_page(),
{
    let mut v: Vec<u8> = Vec::new();
    v.push(80);
    v.push(97);
    v.push(103);
    v.push(101);
    proof {
        assert(v@ =~= nm_page());
    }
    v
}

/// The exec name `Kids`.
pub fn name_kids() -> (r: Vec<u8>)
    ensures
        r@ == nm_kids(),
{
    let mut v: Vec<u8> = Vec::new();
    v.push(75);
    v.push(105);
    v.push(100);
    v.push(115);
    proof {
        assert(v@ =~= nm_kids());
    }
    v
}

/// The exec name `MediaBox`.
pub fn name_media_box() -> (r: Vec<u8>)
    ensures
        r@ == nm_media_box(),
{
    let mut v: Vec<u8> = Vec::new();
    v.push(77);
    v.push(101);
    v.push(100);
    v.push(105);
    v.push(97);
    v.push(66);
    v.push(111);
    v.push(120);
    proof {
        assert(v@ =~= nm_media_box());
    }
    v
}

/// The exec name `Rotate`.
pub fn name_rotate() -> (r: Vec<u8>)
    ensures
        r@ == nm_rotate(),
{
    let mut v: Vec<u8> = Vec::new();
    v.push(82);
    v.push(111);
    v.push(116);
    v.push(97);
    v.push(116);
    v.push(101);
    proof {
        assert(v@ =~= nm_rotate());
    }
    v
}

/// The exec name `Count`.
pub fn name_count() -> (r: Vec<u8>)
    ensures
        r@ == nm_count(),
{
    let mut v: Vec<u8> = Vec::new();
    v.push(67);
    v.push(111);
    v.push(117);
    v.push(110);
    v.push(116);
    proof {
        assert(v@ =~= nm_count());
    }
    v
}

/// The exec name `Catalog`.
pub fn name_catalog() -> (r: Vec<u8>)
    ensures
        r@ == nm_catalog(),
{
    let mut v: Vec<u8> = Vec::new();
    v.push(67);
    v.push(97);
    v.push(116);
    v.push(97);
    v.push(108);
    v.push(111);
    v.push(103);
    proof {
        assert(v@ =~= nm_catalog());
    }
    v
}

/// The exec name `Length`.
pub fn name_length() -> (r: Vec<u8>)
    ensures
        r@ == nm_length(),
{
    let mut v: Vec<u8> = Vec::new();
    v.push(76);
    v.push(101);
    v.push(110);
    v.push(103);
    v.push(116);
    v.push(104);
    proof {
        assert(v@ =~= nm_length());
    }
    v
}

/// Coerces a numeric object into thousandths of a unit.
pub fn coerce_milli(o: &Object) -> (r: Option<i64>)
    ensures
        r == spec_coerce_milli(o@),
{
    match o {
        Object::Integer(i) => {
            if -MAX_WHOLE_UNITS <= *i && *i <= MAX_WHOLE_UNITS {
                Some(*i * 1000)
            } else {
                None
            }
        },
        Object::Real(m) => Some(*m),
        _ => None,
    }
}

/// Wraps a rotation in degrees into the range 0 to 359.
pub fn wrap_degrees(r: i64) -> (n: i64)
    ensures
        n == spec_wrap_degrees(r),
{
    if r >= 0 {
        r % 360
    } else {
        let mag: u64 = ((-(r + 1)) as u64) + 1;
        let m = (mag % 360) as i64;
        proof {
            assert(mag == -(r as int));
        }
        if m == 0 {
            0
        } else {
            360 - m
        }
    }
}

/// Resolves a leaf's effective attributes; see `spec_resolve`.
pub fn resolve(leaf: &Dictionary, inh: &Inherited) -> (r: Result<EffAttrs, EngineError>)
    ensures
        r == spec_resolve(leaf@, inh@),
        r matches Ok(a) ==> a.wf(),
{
    let mb_name = name_media_box();
    let own_mb = leaf.get(mb_name.as_slice());
    let mb_val: Option<&Object> = match own_mb {
        Some(o) => Some(o),
        None => match &inh.media_box {
            Some(o) => Some(o),
            None => None,
        },
    };
    let media_box: MediaBox = match mb_val {
        None => MediaBox { llx: 0, lly: 0, urx: 612_000, ury: 792_000 },
        Some(v) => {
            match media_box_of(v) {
                Some(mb) => mb,
                None => {
                    return Err(EngineError::MalformedAttribute);
                },
            }
        },
    };
    let rot_name = name_rotate();
    let own_rot = leaf.get(rot_name.as_slice());
    let rot_val: Option<&Object> = match own_rot {
        Some(o) => Some(o),
        None => match &inh.rotate {
            Some(o) => Some(o),
            None => None,
        },
    };
    let rotation: i64 = match rot_val {
        None => 0,
        Some(v) => {
            match rotation_of(v) {
                Some(n) => n,
                None => {
                    return Err(EngineError::MalformedAttribute);
                },
            }
        },
    };
    Ok(EffAttrs { media_box, rotation })
}

/// Reads a declared page rectangle; see `spec_media_box_of`.
pub fn media_box_of(v: &Object) -> (r: Option<MediaBox>)
    ensures
        r == spec_media_box_of(v@),
        r matches Some(mb) ==> mb.wf(),
{
    broadcast use crate::object::group_object_views;

    match v {
        Object::Array(items) => {
            proof {
                crate::object::lemma_view_arr_len(items@);
                assert(v@ == ObjectVal::Array(view_arr(items@)));
            }
            if items.len() != 4 {
                return None;
            }
            proof {
                crate::object::lemma_view_arr_index(items@, 0);
                crate::object::lemma_view_arr_index(items@, 1);
                crate::object::lemma_view_arr_index(items@, 2);
                crate::object::lemma_view_arr_index(items@, 3);
            }
            let llx = match coerce_milli(&items[0]) {
                Some(x) => x,
                None => {
                    return None;
                },
            };
            let lly = match coerce_milli(&items[1]) {
                Some(x) => x,
                None => {
                    return None;
                },
            };
            let urx = match coerce_milli(&items[2]) {
                Some(x) => x,
                None => {
                    return None;
                },
            };
            let ury = match coerce_milli(&items[3]) {
                Some(x) => x,
                None => {
                    return None;
                },
            };
            let w_ok = urx >= llx && (llx >= 0 || urx <= i64::MAX + llx);
            let h_ok = ury >= lly && (lly >= 0 || ury <= i64::MAX + lly);
            if w_ok && h_ok {
                Some(MediaBox { llx, lly, urx, ury })
            } else {
                None
            }
        },
        _ => None,
    }
}

/// Reads a declared rotation; see `spec_rotation_of`.
pub fn rotation_of(v: &Object) -> (r: Option<i64>)
    ensures
        r == spec_rotation_of(v@),
{
    match v {
        Object::Integer(raw) => {
            let n = wrap_degrees(*raw);
            if n == 0 || n == 90 || n == 180 || n == 270 {
                Some(n)
            } else {
                None
            }
        },
        _ => None,
    }
}

} // verus!
