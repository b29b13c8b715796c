//! Little-endian integers and NUL-terminated names read from byte buffers.
use vstd::prelude::*;
use vstd::utf8::valid_utf8;

verus! {

/// The `u16` stored little-endian at `at`.
pub open spec fn le_u16_at(b: Seq<u8>, at: int) -> u16 {
    (b[at] as int + 256 * (b[at + 1] as int)) as u16
}

/// The `u32` stored little-endian at `at`.
pub open spec fn le_u32_at(b: Seq<u8>, at: int) -> u32 {
    (b[at] as int + 256 * (b[at + 1] as int) + 65536 * (b[at + 2] as int) + 16777216 * (
    b[at + 3] as int)) as u32
}

/// The two's-complement `i32` stored little-endian at `at`.
pub open spec fn le_i32_at(b: Seq<u8>, at: int) -> i32 {
    let u = le_u32_at(b, at);
    if u < 0x8000_0000 {
        u as i32
    } else {
        (u as int - 0x1_0000_0000) as i32
    }
}

/// The two's-complement `i16` stored little-endian at `at`.
pub open spec fn le_i16_at(b: Seq<u8>, at: int) -> i16 {
    let u = le_u16_at(b, at);
    if u < 0x8000 {
        u as i16
    } else {
        (u as int - 0x1_0000) as i16
    }
}

pub fn read_i16(b: &[u8], at: usize) -> (r: i16)
    requires
        at + 2 <= b@.len(),
    ensures
        r == le_i16_at(b@, at as int),
{
    let u = read_u16(b, at);
    if u < 0x8000 {
        u as i16
    } else {
        (u as i32 - 0x1_0000i32) as i16
    }
}

pub fn read_u16(b: &[u8], at: usize) -> (r: u16)
    requires
        at + 2 <= b@.len(),
    ensures
        r == le_u16_at(b@, at as int),
{
    b[at] as u16 + 256 * (b[at + 1] as u16)
}

pub fn read_u32(b: &[u8], at: usize) -> (r: u32)
    requires
        at + 4 <= b@.len(),
    ensures
        r == le_u32_at(b@, at as int),
{
    b[at] as u32 + 256 * (b[at + 1] as u32) + 65536 * (b[at + 2] as u32) + 16777216 * (b[at
        + 3] as u32)
}

pub fn read_i32(b: &[u8], at: usize) -> (r: i32)
    requires
        at + 4 <= b@.len(),
    ensures
        r == le_i32_at(b@, at as int),
{
    let u = read_u32(b, at);
    if u < 0x8000_0000 {
        u as i32
    } else {
        (u as i64 - 0x1_0000_0000i64) as i32
    }
}

/// `i` is the position of the first NUL byte of `b`.
pub open spec fn is_first_nul(b: Seq<u8>, i: int) -> bool {
    0 <= i < b.len() && b[i] == 0 && forall|j: int| 0 <= j < i ==> b[j] != 0
}

pub open spec fn has_nul(b: Seq<u8>) -> bool {
    exists|i: int| is_first_nul(b, i)
}

/// A fixed-length name field cut at its first NUL byte; the whole field when
/// it holds none.
pub open spec fn cstr_of(b: Seq<u8>) -> Seq<u8> {
    if has_nul(b) {
        b.subrange(0, choose|i: int| is_first_nul(b, i))
    } else {
        b
    }
}

/// A name field is accepted when it is NUL-terminated or, filling the whole
/// field, is valid UTF-8 text.
pub open spec fn name_field_ok(b: Seq<u8>) -> bool {
    has_nul(b) || valid_utf8(b)
}

/// Relies on `core::str::from_utf8`: it succeeds exactly on valid UTF-8.
#[verifier::external_body]
pub(crate) fn is_utf8(b: &[u8]) -> (r: bool)
    ensures
        r == valid_utf8(b@),
{
    core::str::from_utf8(b).is_ok()
}

/// Position of the first NUL byte, if any.
pub fn find_nul(b: &[u8]) -> (r: Option<usize>)
    ensures
        match r {
            Some(i) => is_first_nul(b@, i as int),
            None => !has_nul(b@) && forall|j: int| 0 <= j < b@.len() ==> b@[j] != 0,
        },
{
    let mut i: usize = 0;
    while i < b.len()
        invariant
            i <= b@.len(),
            forall|j: int| 0 <= j < i ==> b@[j] != 0,
        decreases b@.len() - i,
    {
        if b[i] == 0 {
            return Some(i);
        }
        i = i + 1;
    }
    None
}

/// Cut down a name at its first NUL byte.
pub fn read_name(name: &[u8]) -> (r: Vec<u8>)
    ensures
        r@ == cstr_of(name@),
{
    match find_nul(name) {
        Some(i) => {
            let r = vstd::slice::slice_to_vec(vstd::slice::slice_subrange(name, 0, i));
            proof {
                let c = choose|k: int| is_first_nul(name@, k);
                assert(c == i as int) by {
                    if c < i as int {
                        assert(name@[c] == 0);
                    } else if c > i as int {
                        assert(name@[i as int] == 0);
                    }
                }
            }
            r
        },
        None => vstd::slice::slice_to_vec(name),
    }
}

/// Decode a name field: cut at the first NUL, or the whole field when it is
/// valid UTF-8 without one.
pub fn decode_name(field: &[u8]) -> (r: Option<Vec<u8>>)
    ensures
        match r {
            Some(n) => name_field_ok(field@) && n@ == cstr_of(field@),
            None => !name_field_ok(field@),
        },
{
    if find_nul(field).is_none() && !is_utf8(field) {
        None
    } else {
        Some(read_name(field))
    }
}

} // verus!
