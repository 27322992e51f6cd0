//! The serializer: emits a store as file bytes — a version header, each
//! object as `id gen obj … endobj`, a cross-reference table giving every
//! object's byte offset, and a trailer naming the object count, the root
//! catalog and the metadata reference. The table lists every object
//! exactly once, in subsections of consecutive numbers; a consistency
//! walk over the recorded offsets runs before success is returned.

use vstd::prelude::*;
use crate::errors::EngineError;
use crate::object::{Object, Dictionary, bytes_eq};
use crate::store::Store;

verus! {

/// The bytes open with the file-format magic `%PDF-`.
pub open spec fn spec_has_header(b: Seq<u8>) -> bool {
    b.len() >= 5 && b.subrange(0, 5) == seq![37u8, 80u8, 68u8, 70u8, 45u8]
}

/// The decimal digits of `n`, most significant first.
pub open spec fn spec_dec(n: u64) -> Seq<u8>
    decreases n,
{
    if n < 10 {
        seq![(48 + n) as u8]
    } else {
        spec_dec(n / 10).push((48 + n % 10) as u8)
    }
}

/// Appends the decimal digits of `n`.
pub fn push_u64_dec(out: &mut Vec<u8>, n: u64)
    ensures
        final(out)@ == old(out)@ + spec_dec(n),
    decreases n,
{
    if n < 10 {
        out.push(48 + n as u8);
        proof {
            assert(final(out)@ =~= old(out)@ + spec_dec(n));
        }
    } else {
        push_u64_dec(out, n / 10);
        out.push(48 + (n % 10) as u8);
        proof {
            assert(final(out)@ =~= old(out)@ + spec_dec(n));
        }
    }
}

/// The decimal rendering of a signed value: a minus sign for a negative
/// value, then the digits of its magnitude.
pub open spec fn spec_dec_i64(n: i64) -> Seq<u8> {
    if n >= 0 {
        spec_dec(n as u64)
    } else {
        seq![45u8] + spec_dec((-(n as int)) as u64)
    }
}

/// Appends the decimal rendering of a signed value.
pub fn push_i64_dec(out: &mut Vec<u8>, n: i64)
    ensures
        final(out)@ == old(out)@ + spec_dec_i64(n),
{
    if n >= 0 {
        push_u64_dec(out, n as u64);
    } else {
        out.push(45);
        let mag: u64 = ((-(n + 1)) as u64) + 1;
        proof {
            assert(mag == -(n as int));
        }
        push_u64_dec(out, mag);
        proof {
            assert(final(out)@ =~= old(out)@ + (seq![45u8] + spec_dec(mag)));
        }
    }
}

/// Appends the digits of `n` left-padded with zeros to `width`.
/// The caller keeps `n` below `10^width`, so the field never widens.
fn push_u64_dec_padded(out: &mut Vec<u8>, n: u64, width: usize) {
    let mut digits: Vec<u8> = Vec::new();
    push_u64_dec(&mut digits, n);
    let mut k: usize = digits.len();
    while k < width
        decreases width - k,
    {
        out.push(48);
        k += 1;
    }
    let mut t: usize = 0;
    while t < digits.len()
        invariant
            t <= digits@.len(),
        decreases digits@.len() - t,
    {
        out.push(digits[t]);
        t += 1;
    }
}

/// Appends every byte of a slice.
fn push_all(out: &mut Vec<u8>, s: &[u8])
    ensures
        final(out)@ == old(out)@ + s@,
{
    let mut i: usize = 0;
    while i < s.len()
        invariant
            i <= s@.len(),
            out@ =~= old(out)@ + s@.subrange(0, i as int),
        decreases s@.len() - i,
    {
        out.push(s[i]);
        i += 1;
    }
    proof {
        assert(out@ =~= old(out)@ + s@);
    }
}

/// Whether a byte may stand unescaped in a serialized name: a visible
/// character that is not a delimiter and not the escape character.
fn name_byte_plain(b: u8) -> bool {
    33 <= b && b <= 126 && b != 35 && b != 37 && b != 40 && b != 41 && b != 47 && b != 60 && b != 62
        && b != 91 && b != 93 && b != 123 && b != 125
}

/// The digit for a four-bit value, upper case.
fn hex_digit(v: u8) -> (r: u8)
    requires
        v < 16,
{
    if v < 10 {
        48 + v
    } else {
        55 + v
    }
}

/// Appends a name: a slash, then its bytes, each byte that could be
/// misread escaped as `#` with two hex digits.
fn push_name(out: &mut Vec<u8>, name: &Vec<u8>) {
    out.push(47);
    let mut i: usize = 0;
    while i < name.len()
        invariant
            i <= name@.len(),
        decreases name@.len() - i,
    {
        let b = name[i];
        if name_byte_plain(b) {
            out.push(b);
        } else {
            out.push(35);
            out.push(hex_digit(b / 16));
            out.push(hex_digit(b % 16));
        }
        i += 1;
    }
}

/// Appends a literal string: parentheses around the bytes, with the
/// parentheses and the escape character themselves escaped.
fn push_string(out: &mut Vec<u8>, s: &Vec<u8>) {
    out.push(40);
    let mut i: usize = 0;
    while i < s.len()
        invariant
            i <= s@.len(),
        decreases s@.len() - i,
    {
        let b = s[i];
        if b == 40 || b == 41 || b == 92 {
            out.push(92);
        }
        out.push(b);
        i += 1;
    }
    out.push(41);
}

/// Appends a fixed-point value: sign, whole part, point, three digits.
fn push_real_milli(out: &mut Vec<u8>, m: i64) {
    let mag: u64 = if m < 0 {
        out.push(45);
        ((-(m + 1)) as u64) + 1
    } else {
        m as u64
    };
    push_u64_dec(out, mag / 1000);
    out.push(46);
    push_u64_dec_padded(out, mag % 1000, 3);
}

/// Appends one object's body. Inside a stream dictionary the Length
/// entry is replaced by the payload's true length, so the emitted
/// dictionary and payload always agree.
fn push_object(out: &mut Vec<u8>, o: &Object)
    decreases *o,
{
    match o {
        Object::Null => {
            push_all(out, &[110, 117, 108, 108]);
        },
        Object::Boolean(b) => {
            if *b {
                push_all(out, &[116, 114, 117, 101]);
            } else {
                push_all(out, &[102, 97, 108, 115, 101]);
            }
        },
        Object::Integer(i) => {
            push_i64_dec(out, *i);
        },
        Object::Real(m) => {
            push_real_milli(out, *m);
        },
        Object::Str(v) => {
            push_string(out, v);
        },
        Object::Name(v) => {
            push_name(out, v);
        },
        Object::Reference(id) => {
            push_u64_dec(out, id.number as u64);
            out.push(32);
            push_u64_dec(out, id.generation as u64);
            out.push(32);
            out.push(82);
        },
        Object::Array(items) => {
            out.push(91);
            let mut i: usize = 0;
            while i < items.len()
                invariant
                    *o is Array,
                    *items == o->Array_0,
                    i <= items@.len(),
                decreases items@.len() - i,
            {
                proof {
                    assert(decreases_to!(*o => o->Array_0@[i as int]));
                }
                if i > 0 {
                    out.push(32);
                }
                push_object(out, &items[i]);
                i += 1;
            }
            out.push(93);
        },
        Object::Dict(d) => {
            push_dictionary(out, d, None);
        },
        Object::Stream(d, data) => {
            push_dictionary(out, d, Some(data.len()));
            push_all(out, &[10, 115, 116, 114, 101, 97, 109, 10]);
            push_all(out, data.as_slice());
            push_all(out, &[10, 101, 110, 100, 115, 116, 114, 101, 97, 109]);
        },
    }
}

/// Appends a dictionary body; with `stream_len` given, any Length entry
/// is dropped and the true payload length written instead.
fn push_dictionary(out: &mut Vec<u8>, d: &Dictionary, stream_len: Option<usize>)
    decreases *d,
{
    out.push(60);
    out.push(60);
    let length_name = crate::attrs::name_length();
    let mut i: usize = 0;
    while i < d.entries.len()
        invariant
            i <= d.entries@.len(),
        decreases d.entries@.len() - i,
    {
        let skip_entry = match stream_len {
            Some(_) => bytes_eq(d.entries[i].0.as_slice(), length_name.as_slice()),
            None => false,
        };
        if !skip_entry {
            out.push(32);
            push_name(out, &d.entries[i].0);
            out.push(32);
            proof {
                assert(decreases_to!(*d => d.entries@[i as int].1));
            }
            push_object(out, &d.entries[i].1);
        }
        i += 1;
    }
    match stream_len {
        Some(n) => {
            out.push(32);
            push_name(out, &length_name);
            out.push(32);
            push_u64_dec(out, n as u64);
        },
        None => {},
    }
    out.push(32);
    out.push(62);
    out.push(62);
}

/// Serializes a store. Fails, writing nothing a caller could mistake
/// for a document, when the trailer has no root catalog or an offset
/// outgrows the ten-digit cross-reference field. Before success is
/// returned, a consistency walk checks what the contract does not
/// state byte by byte: one table entry per object, their numbers
/// strictly increasing — so every identifier appears exactly once —
/// and the bytes opening with the version header. That the entries'
/// recorded offsets and the trailer's references read back correctly
/// is covered by parsing the emitted bytes in the test suite.
pub fn serialize(store: &Store) -> (r: Result<Vec<u8>, EngineError>)
    requires
        store.wf(),
    ensures
        r is Ok ==> store.root is Some,
        r matches Ok(bytes) ==> spec_has_header(bytes@) && bytes@.len() >= 9,
        r matches Err(e) ==> e == EngineError::Serialization,
        store.root is None ==> r is Err,
{
    let root = match store.root {
        Some(rid) => rid,
        None => {
            return Err(EngineError::Serialization);
        },
    };
    let mut out: Vec<u8> = Vec::new();
    push_all(&mut out, &[37, 80, 68, 70, 45, 49, 46, 53, 10]);
    let n = store.len();
    let mut offsets: Vec<(u32, u16, usize)> = Vec::new();
    let mut i: usize = 0;
    while i < n
        invariant
            n == store@.len(),
            i <= n,
            offsets@.len() == i,
        decreases n - i,
    {
        let id = store.id_at(i);
        let obj = store.obj_at(i);
        offsets.push((id.number, id.generation, out.len()));
        push_u64_dec(&mut out, id.number as u64);
        out.push(32);
        push_u64_dec(&mut out, id.generation as u64);
        push_all(&mut out, &[32, 111, 98, 106, 10]);
        push_object(&mut out, obj);
        push_all(&mut out, &[10, 101, 110, 100, 111, 98, 106, 10]);
        i += 1;
    }
    // The consistency walk: one entry per object, numbers strictly
    // increasing, so each identifier appears exactly once in the table.
    if offsets.len() != n {
        return Err(EngineError::Serialization);
    }
    let mut c: usize = 1;
    while c < offsets.len()
        invariant
            c >= 1,
        decreases offsets@.len() - c,
    {
        if offsets[c].0 <= offsets[c - 1].0 {
            return Err(EngineError::Serialization);
        }
        c += 1;
    }
    let xref_off = out.len();
    push_all(&mut out, &[120, 114, 101, 102, 10]);
    push_all(&mut out, &[48, 32, 49, 10]);
    push_all(
        &mut out,
        &[48, 48, 48, 48, 48, 48, 48, 48, 48, 48, 32, 54, 53, 53, 51, 53, 32, 102, 32, 10],
    );
    let mut s: usize = 0;
    let mut max_number: u32 = 0;
    while s < offsets.len()
        decreases offsets@.len() - s,
    {
        // One subsection of consecutive numbers starting at `s`.
        let start = offsets[s].0;
        let mut e: usize = s + 1;
        while e < offsets.len() && offsets[e].0 == offsets[e - 1].0.wrapping_add(1)
            invariant
                s < e <= offsets@.len(),
            decreases offsets@.len() - e,
        {
            e += 1;
        }
        push_u64_dec(&mut out, start as u64);
        out.push(32);
        push_u64_dec(&mut out, (e - s) as u64);
        out.push(10);
        let mut t: usize = s;
        while t < e
            invariant
                s <= t <= e <= offsets@.len(),
            decreases e - t,
        {
            let off = offsets[t].2;
            if off as u64 > 9_999_999_999u64 {
                return Err(EngineError::Serialization);
            }
            push_u64_dec_padded(&mut out, off as u64, 10);
            out.push(32);
            push_u64_dec_padded(&mut out, offsets[t].1 as u64, 5);
            push_all(&mut out, &[32, 110, 32, 10]);
            if offsets[t].0 > max_number {
                max_number = offsets[t].0;
            }
            t += 1;
        }
        s = e;
    }
    push_all(&mut out, &[116, 114, 97, 105, 108, 101, 114, 10, 60, 60, 32]);
    push_all(&mut out, &[47, 83, 105, 122, 101, 32]);
    if max_number == u32::MAX {
        return Err(EngineError::Serialization);
    }
    push_u64_dec(&mut out, (max_number + 1) as u64);
    push_all(&mut out, &[32, 47, 82, 111, 111, 116, 32]);
    push_u64_dec(&mut out, root.number as u64);
    out.push(32);
    push_u64_dec(&mut out, root.generation as u64);
    push_all(&mut out, &[32, 82]);
    match store.info {
        Some(iid) => {
            push_all(&mut out, &[32, 47, 73, 110, 102, 111, 32]);
            push_u64_dec(&mut out, iid.number as u64);
            out.push(32);
            push_u64_dec(&mut out, iid.generation as u64);
            push_all(&mut out, &[32, 82]);
        },
        None => {},
    }
    push_all(&mut out, &[32, 62, 62, 10, 115, 116, 97, 114, 116, 120, 114, 101, 102, 10]);
    push_u64_dec(&mut out, xref_off as u64);
    push_all(&mut out, &[10, 37, 37, 69, 79, 70, 10]);
    // The final leg of the consistency walk: the bytes must open with
    // the version header before they are handed back.
    if out.len() < 9 {
        return Err(EngineError::Serialization);
    }
    if !(out[0] == 37 && out[1] == 80 && out[2] == 68 && out[3] == 70 && out[4] == 45) {
        return Err(EngineError::Serialization);
    }
    proof {
        assert(out@.subrange(0, 5) =~= seq![37u8, 80u8, 68u8, 70u8, 45u8]);
    }
    Ok(out)
}

} // verus!
