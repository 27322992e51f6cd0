//! The parser: reconstructs an object store from file bytes. As a
//! deliberate design, the embedded cross-reference tables' offsets are
//! never trusted: the store is always rebuilt by a full linear scan
//! for `id gen obj … endobj` slices, the recovery strategy that
//! handles stale, missing and incrementally updated tables uniformly,
//! keeping, for each object number, the occurrence latest in the file.
//! The tables' free entries are honoured: an object whose number a
//! table later in the file marks free stays freed rather than being
//! read back in. The trailer dictionary supplies the root catalog and
//! metadata references; a file without a usable trailer falls back to
//! the first dictionary that declares Type `Catalog`.

use vstd::prelude::*;
use crate::attrs::{name_catalog, name_length};
use crate::serialize::spec_has_header;
use crate::errors::EngineError;
use crate::object::{bytes_eq, Object, ObjectId, Dictionary};
use crate::store::Store;

verus! {

/// Whether a byte is PDF whitespace.
fn is_ws(b: u8) -> bool {
    b == 32 || b == 9 || b == 13 || b == 10 || b == 0 || b == 12
}

/// Whether a byte ends a bare token.
fn is_delim(b: u8) -> bool {
    b == 40 || b == 41 || b == 60 || b == 62 || b == 91 || b == 93 || b == 123 || b == 125
        || b == 47 || b == 37
}

/// Skips whitespace and comments from `i` on.
fn skip_ws(b: &[u8], i: usize) -> (r: usize)
    requires
        i <= b@.len(),
    ensures
        i <= r <= b@.len(),
{
    let mut p = i;
    while p < b.len()
        invariant
            i <= p <= b@.len(),
        decreases b@.len() - p,
    {
        if is_ws(b[p]) {
            p += 1;
        } else if b[p] == 37 {
            // A comment runs to the end of the line.
            let ghost p0 = p;
            p += 1;
            while p < b.len() && b[p] != 10 && b[p] != 13
                invariant
                    i <= p <= b@.len(),
                    p0 < p,
                decreases b@.len() - p,
            {
                p += 1;
            }
        } else {
            return p;
        }
    }
    p
}

/// Whether the bytes at `i` are exactly `kw`.
fn match_kw(b: &[u8], i: usize, kw: &[u8]) -> (r: bool)
    requires
        i <= b@.len(),
    ensures
        r <==> (i + kw@.len() <= b@.len() && b@.subrange(i as int, i + kw@.len()) == kw@),
{
    if kw.len() > b.len() - i {
        return false;
    }
    let mut t: usize = 0;
    while t < kw.len()
        invariant
            t <= kw@.len(),
            i + kw@.len() <= b@.len(),
            b@.len() <= usize::MAX,
            forall|j: int| 0 <= j < t ==> b@[i + j] == kw@[j],
        decreases kw@.len() - t,
    {
        if b[i + t] != kw[t] {
            proof {
                if b@.subrange(i as int, i + kw@.len()) == kw@ {
                    assert(b@.subrange(i as int, i + kw@.len())[t as int] == kw@[t as int]);
                    assert(false);
                }
            }
            return false;
        }
        t += 1;
    }
    proof {
        assert(b@.subrange(i as int, i + kw@.len()) =~= kw@);
    }
    true
}

/// Reads an unsigned decimal number; fails on anything over `u64::MAX / 2`.
fn parse_uint(b: &[u8], i: usize) -> (r: Option<(u64, usize)>)
    requires
        i <= b@.len(),
    ensures
        r matches Some(vj) ==> i < vj.1 <= b@.len(),
{
    let mut p = i;
    let mut v: u64 = 0;
    while p < b.len() && 48 <= b[p] && b[p] <= 57
        invariant
            i <= p <= b@.len(),
            v <= 0x7fff_ffff_ffff_ffff,
        decreases b@.len() - p,
    {
        if v > 0xcccc_cccc_cccc_ccu64 {
            return None;
        }
        v = v * 10 + ((b[p] - 48) as u64);
        p += 1;
    }
    if p == i {
        None
    } else {
        Some((v, p))
    }
}

/// The value of a hex digit.
fn hex_val(b: u8) -> (r: Option<u8>)
    ensures
        r matches Some(v) ==> v < 16,
{
    if 48 <= b && b <= 57 {
        Some(b - 48)
    } else if 65 <= b && b <= 70 {
        Some(b - 55)
    } else if 97 <= b && b <= 102 {
        Some(b - 87)
    } else {
        None
    }
}

/// Copies `b[from..to]` into a fresh vector.
fn copy_range(b: &[u8], from: usize, to: usize) -> (r: Vec<u8>)
    requires
        from <= to <= b@.len(),
    ensures
        r@ == b@.subrange(from as int, to as int),
{
    let mut out: Vec<u8> = Vec::new();
    let mut p = from;
    while p < to
        invariant
            from <= p <= to <= b@.len(),
            out@ =~= b@.subrange(from as int, p as int),
        decreases to - p,
    {
        out.push(b[p]);
        p += 1;
    }
    proof {
        assert(out@ =~= b@.subrange(from as int, to as int));
    }
    out
}

/// Reads a signed, possibly fractional number into an object: a whole
/// value becomes an Integer, a fractional one a fixed-point Real in
/// thousandths, extra fractional digits discarded.
fn parse_number(b: &[u8], i: usize) -> (r: Option<(Object, usize)>)
    requires
        i <= b@.len(),
    ensures
        r matches Some(vj) ==> i < vj.1 <= b@.len(),
{
    let mut p = i;
    let mut neg = false;
    if p < b.len() && (b[p] == 43 || b[p] == 45) {
        neg = b[p] == 45;
        p += 1;
    }
    let mut saw_digit = false;
    let mut whole: u64 = 0;
    while p < b.len() && 48 <= b[p] && b[p] <= 57
        invariant
            i <= p <= b@.len(),
            whole <= 0x7fff_ffff_ffff_ffff,
        decreases b@.len() - p,
    {
        if whole > 0xcccc_cccc_cccc_ccu64 {
            return None;
        }
        whole = whole * 10 + ((b[p] - 48) as u64);
        saw_digit = true;
        p += 1;
    }
    if p < b.len() && b[p] == 46 {
        p += 1;
        let mut frac: u64 = 0;
        let mut places: usize = 0;
        while p < b.len() && 48 <= b[p] && b[p] <= 57
            invariant
                i <= p <= b@.len(),
                places <= 3,
                frac < 1000,
                places == 0 ==> frac == 0,
                places == 1 ==> frac < 10,
                places == 2 ==> frac < 100,
            decreases b@.len() - p,
        {
            if places < 3 {
                frac = frac * 10 + ((b[p] - 48) as u64);
                places += 1;
            }
            saw_digit = true;
            p += 1;
        }
        while places < 3
            invariant
                places <= 3,
                frac < 1000,
                places == 0 ==> frac == 0,
                places == 1 ==> frac < 10,
                places == 2 ==> frac < 100,
            decreases 3 - places,
        {
            frac = frac * 10;
            places += 1;
        }
        if !saw_digit {
            return None;
        }
        if whole > 9_000_000_000_000_000u64 {
            return None;
        }
        let milli: u64 = whole * 1000 + frac;
        let v: i64 = if neg {
            -(milli as i64)
        } else {
            milli as i64
        };
        if p == i {
            return None;
        }
        return Some((Object::Real(v), p));
    }
    if !saw_digit {
        return None;
    }
    if whole > 0x7fff_ffff_ffff_ffffu64 {
        return None;
    }
    let v: i64 = if neg {
        -(whole as i64)
    } else {
        whole as i64
    };
    if p == i {
        return None;
    }
    Some((Object::Integer(v), p))
}

/// Reads a name: a slash, then its bytes with `#`-escapes decoded.
fn parse_name(b: &[u8], i: usize) -> (r: Option<(Vec<u8>, usize)>)
    requires
        i < b@.len(),
        b@[i as int] == 47,
    ensures
        r matches Some(vj) ==> i < vj.1 <= b@.len(),
{
    // Reading the length pins every position below to the machine range.
    let _bound = b.len();
    let mut p = i + 1;
    let mut out: Vec<u8> = Vec::new();
    while p < b.len() && !is_ws(b[p]) && !is_delim(b[p])
        invariant
            i < p <= b@.len(),
        decreases b@.len() - p,
    {
        if b[p] == 35 && b.len() - p > 2 {
            let h = match hex_val(b[p + 1]) {
                Some(h) => h,
                None => {
                    return None;
                },
            };
            let l = match hex_val(b[p + 2]) {
                Some(l) => l,
                None => {
                    return None;
                },
            };
            out.push(h * 16 + l);
            p += 3;
        } else {
            out.push(b[p]);
            p += 1;
        }
    }
    Some((out, p))
}

/// Reads a literal string: balanced parentheses, common escapes decoded.
fn parse_string(b: &[u8], i: usize) -> (r: Option<(Vec<u8>, usize)>)
    requires
        i < b@.len(),
        b@[i as int] == 40,
    ensures
        r matches Some(vj) ==> i < vj.1 <= b@.len(),
{
    // Reading the length pins every position below to the machine range.
    let _bound = b.len();
    let mut p = i + 1;
    let mut depth: usize = 1;
    let mut out: Vec<u8> = Vec::new();
    while p < b.len()
        invariant
            i < p <= b@.len(),
            depth >= 1,
        decreases b@.len() - p,
    {
        let c = b[p];
        if c == 92 {
            if b.len() - p <= 1 {
                return None;
            }
            let e = b[p + 1];
            if e == 110 {
                out.push(10);
            } else if e == 114 {
                out.push(13);
            } else if e == 116 {
                out.push(9);
            } else if e == 98 {
                out.push(8);
            } else if e == 102 {
                out.push(12);
            } else {
                out.push(e);
            }
            p += 2;
        } else if c == 40 {
            if depth == usize::MAX {
                return None;
            }
            depth += 1;
            out.push(c);
            p += 1;
        } else if c == 41 {
            depth -= 1;
            if depth == 0 {
                return Some((out, p + 1));
            }
            out.push(c);
            p += 1;
        } else {
            out.push(c);
            p += 1;
        }
    }
    None
}

/// Reads a hex string up to the closing angle bracket.
fn parse_hex_string(b: &[u8], i: usize) -> (r: Option<(Vec<u8>, usize)>)
    requires
        i < b@.len(),
        b@[i as int] == 60,
    ensures
        r matches Some(vj) ==> i < vj.1 <= b@.len(),
{
    // Reading the length pins every position below to the machine range.
    let _bound = b.len();
    let mut p = i + 1;
    let mut out: Vec<u8> = Vec::new();
    let mut pending: Option<u8> = None;
    while p < b.len()
        invariant
            i < p <= b@.len(),
            pending matches Some(h) ==> h < 16,
        decreases b@.len() - p,
    {
        let c = b[p];
        if c == 62 {
            match pending {
                Some(h) => out.push(h * 16),
                None => {},
            }
            return Some((out, p + 1));
        }
        if is_ws(c) {
            p += 1;
            continue;
        }
        let v = match hex_val(c) {
            Some(v) => v,
            None => {
                return None;
            },
        };
        match pending {
            None => {
                pending = Some(v);
            },
            Some(h) => {
                out.push(h * 16 + v);
                pending = None;
            },
        }
        p += 1;
    }
    None
}

/// The first position at or after `from` where `kw` occurs.
fn find_kw(b: &[u8], from: usize, kw: &[u8]) -> (r: Option<usize>)
    requires
        from <= b@.len(),
    ensures
        r matches Some(q) ==> from <= q && q + kw@.len() <= b@.len(),
{
    let mut p = from;
    while p < b.len()
        invariant
            from <= p <= b@.len(),
        decreases b@.len() - p,
    {
        if match_kw(b, p, kw) {
            return Some(p);
        }
        p += 1;
    }
    None
}

/// Reads one object starting at the first non-blank byte at or after
/// `i`; consumes any trailing `gen R` of a reference.
fn parse_object(b: &[u8], i: usize) -> (r: Result<(Object, usize), EngineError>)
    requires
        i <= b@.len(),
    ensures
        r matches Ok(oj) ==> i < oj.1 <= b@.len(),
        r matches Err(e) ==> e == EngineError::Parse,
    decreases b@.len() - i, 1int,
{
    let p = skip_ws(b, i);
    if p >= b.len() {
        return Err(EngineError::Parse);
    }
    let c = b[p];
    if c == 91 {
        // Array.
        let mut items: Vec<Object> = Vec::new();
        let mut q = p + 1;
        loop
            invariant
                i <= p < q <= b@.len(),
            decreases b@.len() - q,
        {
            let w = skip_ws(b, q);
            if w >= b.len() {
                return Err(EngineError::Parse);
            }
            if b[w] == 93 {
                return Ok((Object::Array(items), w + 1));
            }
            let (o, j) = match parse_object(b, w) {
                Ok(oj) => oj,
                Err(e) => {
                    return Err(e);
                },
            };
            items.push(o);
            q = j;
        }
    } else if c == 60 {
        if p + 1 < b.len() && b[p + 1] == 60 {
            // Dictionary, possibly a stream.
            let mut dict = Dictionary { entries: Vec::new() };
            let mut q = p + 2;
            loop
                invariant
                    i <= p < q <= b@.len(),
                decreases b@.len() - q,
            {
                let w = skip_ws(b, q);
                if w >= b.len() {
                    return Err(EngineError::Parse);
                }
                if b[w] == 62 {
                    if w + 1 < b.len() && b[w + 1] == 62 {
                        return finish_dict_or_stream(b, dict, w + 2);
                    }
                    return Err(EngineError::Parse);
                }
                if b[w] != 47 {
                    return Err(EngineError::Parse);
                }
                let (key, j1) = match parse_name(b, w) {
                    Some(kj) => kj,
                    None => {
                        return Err(EngineError::Parse);
                    },
                };
                let (value, j2) = match parse_object(b, j1) {
                    Ok(vj) => vj,
                    Err(e) => {
                        return Err(e);
                    },
                };
                dict.entries.push((key, value));
                q = j2;
            }
        } else {
            match parse_hex_string(b, p) {
                Some((s, j)) => Ok((Object::Str(s), j)),
                None => Err(EngineError::Parse),
            }
        }
    } else if c == 47 {
        match parse_name(b, p) {
            Some((n, j)) => Ok((Object::Name(n), j)),
            None => Err(EngineError::Parse),
        }
    } else if c == 40 {
        match parse_string(b, p) {
            Some((s, j)) => Ok((Object::Str(s), j)),
            None => Err(EngineError::Parse),
        }
    } else if c == 116 {
        if match_kw(b, p, &[116, 114, 117, 101]) {
            Ok((Object::Boolean(true), p + 4))
        } else {
            Err(EngineError::Parse)
        }
    } else if c == 102 {
        if match_kw(b, p, &[102, 97, 108, 115, 101]) {
            Ok((Object::Boolean(false), p + 5))
        } else {
            Err(EngineError::Parse)
        }
    } else if c == 110 {
        if match_kw(b, p, &[110, 117, 108, 108]) {
            Ok((Object::Null, p + 4))
        } else {
            Err(EngineError::Parse)
        }
    } else {
        // A number, or a reference `num gen R`.
        if 48 <= c && c <= 57 {
            match parse_uint(b, p) {
                Some((v, j)) => {
                    let w1 = skip_ws(b, j);
                    match parse_uint(b, w1) {
                        Some((g, j2)) => {
                            let w2 = skip_ws(b, j2);
                            if w2 < b.len() && b[w2] == 82 && v >= 1 && v <= u32::MAX as u64 && g
                                <= u16::MAX as u64 {
                                return Ok(
                                    (
                                        Object::Reference(
                                            ObjectId {
                                                number: v as u32,
                                                generation: g as u16,
                                            },
                                        ),
                                        w2 + 1,
                                    ),
                                );
                            }
                        },
                        None => {},
                    }
                },
                None => {},
            }
        }
        match parse_number(b, p) {
            Some((o, j)) => Ok((o, j)),
            None => Err(EngineError::Parse),
        }
    }
}

/// After a dictionary's closing brackets: either a stream follows, with
/// its payload delimited by the Length entry or by the closing keyword,
/// or the dictionary stands alone.
fn finish_dict_or_stream(b: &[u8], dict: Dictionary, after: usize) -> (r: Result<
    (Object, usize),
    EngineError,
>)
    requires
        after <= b@.len(),
    ensures
        r matches Ok(oj) ==> after <= oj.1 <= b@.len(),
        r matches Err(e) ==> e == EngineError::Parse,
{
    // Reading the length pins every position below to the machine range.
    let _bound = b.len();
    let w = skip_ws(b, after);
    if !match_kw(b, w, &[115, 116, 114, 101, 97, 109]) {
        return Ok((Object::Dict(dict), after));
    }
    let mut start = w + 6;
    if start < b.len() && b[start] == 13 {
        start += 1;
    }
    if start < b.len() && b[start] == 10 {
        start += 1;
    }
    // Prefer the declared length when it is a direct whole number that
    // fits and is really followed by the closing keyword.
    let length_name = name_length();
    match dict.get(length_name.as_slice()) {
        Some(lo) => {
            match lo {
                Object::Integer(l) => {
                    if *l >= 0 && (*l as u64) <= (usize::MAX as u64) {
                        let lu = *l as usize;
                        if lu <= b.len() && start <= b.len() - lu {
                            let endpos = start + lu;
                            let w2 = skip_ws(b, endpos);
                            if match_kw(b, w2, &[101, 110, 100, 115, 116, 114, 101, 97, 109]) {
                                let data = copy_range(b, start, endpos);
                                return Ok((Object::Stream(dict, data), w2 + 9));
                            }
                        }
                    }
                },
                _ => {},
            }
        },
        None => {},
    }
    // Fall back to scanning for the closing keyword.
    match find_kw(b, start, &[101, 110, 100, 115, 116, 114, 101, 97, 109]) {
        Some(q) => {
            let mut endpos = q;
            if endpos > start && b[endpos - 1] == 10 {
                endpos -= 1;
            }
            if endpos > start && b[endpos - 1] == 13 {
                endpos -= 1;
            }
            let data = copy_range(b, start, endpos);
            Ok((Object::Stream(dict, data), q + 9))
        },
        None => Err(EngineError::Parse),
    }
}

/// Tries to read an indirect object `num gen obj … endobj` at `p`.
fn parse_indirect_at(b: &[u8], p: usize) -> (r: Option<(ObjectId, Object, usize)>)
    requires
        p < b@.len(),
    ensures
        r matches Some(t) ==> p < t.2 <= b@.len(),
{
    let c = b[p];
    if !(48 <= c && c <= 57) {
        return None;
    }
    let (num, a) = match parse_uint(b, p) {
        Some(x) => x,
        None => {
            return None;
        },
    };
    if num < 1 || num > u32::MAX as u64 {
        return None;
    }
    let b1 = skip_ws(b, a);
    let (gen, c2) = match parse_uint(b, b1) {
        Some(x) => x,
        None => {
            return None;
        },
    };
    if gen > u16::MAX as u64 {
        return None;
    }
    let d = skip_ws(b, c2);
    if !match_kw(b, d, &[111, 98, 106]) {
        return None;
    }
    let (obj, j) = match parse_object(b, d + 3) {
        Ok(x) => x,
        Err(_) => {
            return None;
        },
    };
    let e = skip_ws(b, j);
    if !match_kw(b, e, &[101, 110, 100, 111, 98, 106]) {
        return None;
    }
    Some((ObjectId { number: num as u32, generation: gen as u16 }, obj, e + 6))
}

/// Reads the free entries of one cross-reference table starting right
/// after its keyword: for each subsection `start count`, twenty-byte
/// entries whose flag is `f` mark their object number free. Stops at
/// the first byte that does not fit the table shape.
fn collect_free_entries(b: &[u8], after: usize, tab_pos: usize, frees: &mut Vec<(u32, usize)>)
    requires
        after <= b@.len(),
{
    let mut p = after;
    loop
        invariant
            after <= p <= b@.len(),
        decreases b@.len() - p,
    {
        let w = skip_ws(b, p);
        let (start, a) = match parse_uint(b, w) {
            Some(x) => x,
            None => {
                return ;
            },
        };
        let w2 = skip_ws(b, a);
        let (count, c) = match parse_uint(b, w2) {
            Some(x) => x,
            None => {
                return ;
            },
        };
        if count > b.len() as u64 {
            return ;
        }
        let mut q = c;
        let mut idx: u64 = 0;
        while idx < count
            invariant
                q <= b@.len(),
                idx <= count,
                count <= b@.len(),
            decreases count - idx,
        {
            let w3 = skip_ws(b, q);
            let (_off, d) = match parse_uint(b, w3) {
                Some(x) => x,
                None => {
                    return ;
                },
            };
            let w4 = skip_ws(b, d);
            let (_gen, e) = match parse_uint(b, w4) {
                Some(x) => x,
                None => {
                    return ;
                },
            };
            let w5 = skip_ws(b, e);
            if w5 >= b.len() {
                return ;
            }
            let flag = b[w5];
            if flag != 102 && flag != 110 {
                return ;
            }
            if flag == 102 && idx <= u32::MAX as u64 && start <= u32::MAX as u64 - idx {
                frees.push(((start + idx) as u32, tab_pos));
            }
            q = w5 + 1;
            idx += 1;
        }
        if q <= p {
            return ;
        }
        p = q;
    }
}

/// Parses a document: checks the header, rebuilds the store by a full
/// scan, and reads the trailer's root and metadata references, falling
/// back to the first Catalog dictionary when the trailer is unusable.
pub fn parse_document(b: &[u8]) -> (r: Result<Store, EngineError>)
    ensures
        r matches Ok(st) ==> st.wf(),
        r matches Err(e) ==> e == EngineError::Parse,
        r is Err <==> !spec_has_header(b@),
{
    if !match_kw(b, 0, &[37, 80, 68, 70, 45]) {
        proof {
            assert(!spec_has_header(b@));
        }
        return Err(EngineError::Parse);
    }
    proof {
        assert(spec_has_header(b@));
    }
    let mut found: Vec<(ObjectId, Object, usize)> = Vec::new();
    let mut p: usize = 0;
    while p < b.len()
        invariant
            p <= b@.len(),
        decreases b@.len() - p,
    {
        match parse_indirect_at(b, p) {
            Some((id, obj, end)) => {
                found.push((id, obj, p));
                p = end;
            },
            None => {
                p += 1;
            },
        }
    }
    // An object number a later table marks free stays freed: collect
    // every table's free entries with the table's position.
    let mut frees: Vec<(u32, usize)> = Vec::new();
    let xref_kw: [u8; 4] = [120, 114, 101, 102];
    let mut xq: usize = 0;
    while xq < b.len()
        invariant
            xq <= b@.len(),
        decreases b@.len() - xq,
    {
        match find_kw(b, xq, &xref_kw) {
            Some(x) => {
                // The startxref keyword ends in the same four bytes.
                let preceded = x >= 5 && match_kw(b, x - 5, &[115, 116, 97, 114, 116]);
                if !preceded {
                    collect_free_entries(b, x + 4, x, &mut frees);
                }
                xq = x + 4;
            },
            None => {
                break;
            },
        }
    }
    let mut pending: Vec<(ObjectId, Object)> = Vec::new();
    let mut f: usize = 0;
    while f < found.len()
        invariant
            f <= found@.len(),
        decreases found@.len() - f,
    {
        let (id, obj, pos) = found.remove(0);
        let mut freed = false;
        let mut g: usize = 0;
        while g < frees.len()
            invariant
                g <= frees@.len(),
            decreases frees@.len() - g,
        {
            if frees[g].0 == id.number && frees[g].1 > pos {
                freed = true;
            }
            g += 1;
        }
        if !freed {
            pending.push((id, obj));
        }
    }
    // Keep, per object number, the occurrence latest in the file, and
    // hand the objects to the store in increasing number order.
    let mut store = Store::new();
    while pending.len() > 0
        invariant
            store.wf(),
            store.root is None,
            store.info is None,
        decreases pending@.len(),
    {
        let mut best: usize = 0;
        let mut t: usize = 1;
        while t < pending.len()
            invariant
                t <= pending@.len(),
                best < t,
            decreases pending@.len() - t,
        {
            if pending[t].0.number <= pending[best].0.number {
                best = t;
            }
            t += 1;
        }
        let (id, obj) = pending.remove(best);
        let m = store.max_number();
        if id.number > m {
            proof {
                assert forall|j: int| 0 <= j < store@.len() implies (#[trigger] store@[j]).0.number
                    < id.number by {}
            }
            store.append_object(id, obj);
        }
    }
    // The trailer: take the last occurrence in the file.
    let mut troot: Option<ObjectId> = None;
    let mut tinfo: Option<ObjectId> = None;
    let trailer_kw: [u8; 7] = [116, 114, 97, 105, 108, 101, 114];
    let mut tpos: Option<usize> = None;
    let mut q: usize = 0;
    while q < b.len()
        invariant
            q <= b@.len(),
            tpos matches Some(f) ==> f + 7 <= b@.len(),
        decreases b@.len() - q,
    {
        match find_kw(b, q, &trailer_kw) {
            Some(f) => {
                tpos = Some(f);
                q = f + 1;
            },
            None => {
                break;
            },
        }
    }
    match tpos {
        Some(f) => {
            if b.len() - f >= 7 {
                match parse_object(b, f + 7) {
                    Ok((Object::Dict(td), _)) => {
                        let root_name: [u8; 4] = [82, 111, 111, 116];
                        match td.get(&root_name) {
                            Some(Object::Reference(rid)) => {
                                troot = Some(*rid);
                            },
                            _ => {},
                        }
                        let info_name: [u8; 4] = [73, 110, 102, 111];
                        match td.get(&info_name) {
                            Some(Object::Reference(iid)) => {
                                tinfo = Some(*iid);
                            },
                            _ => {},
                        }
                    },
                    _ => {},
                }
            }
        },
        None => {},
    }
    if troot.is_none() {
        // Fall back to the first dictionary that declares Type Catalog.
        let catalog = name_catalog();
        let ty_key: [u8; 4] = [84, 121, 112, 101];
        let mut k: usize = 0;
        let n = store.len();
        while k < n
            invariant
                n == store@.len(),
                k <= n,
            decreases n - k,
        {
            let id = store.id_at(k);
            match store.obj_at(k) {
                Object::Dict(d) => {
                    match d.get(&ty_key) {
                        Some(Object::Name(tn)) => {
                            if bytes_eq(tn.as_slice(), catalog.as_slice()) {
                                troot = Some(id);
                                break;
                            }
                        },
                        _ => {},
                    }
                },
                _ => {},
            }
            k += 1;
        }
    }
    store.root = troot;
    store.info = tinfo;
    Ok(store)
}

} // verus!
