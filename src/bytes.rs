//! Little-endian access to a byte image.
//!
//! A byte image is read as if it went on with zero bytes past its end, so that
//! a record that runs off the image reads as zeros rather than failing.
use vstd::prelude::*;

verus! {

/// The byte at position `i`, or zero outside the image.
pub open spec fn byte_at(b: Seq<u8>, i: int) -> u8 {
    if 0 <= i < b.len() {
        b[i]
    } else {
        0
    }
}

pub open spec fn le16(b: Seq<u8>, off: int) -> int {
    byte_at(b, off) + 256 * byte_at(b, off + 1)
}

pub open spec fn le32(b: Seq<u8>, off: int) -> int {
    le16(b, off) + 65536 * le16(b, off + 2)
}

pub open spec fn le64(b: Seq<u8>, off: int) -> int {
    le32(b, off) + 4294967296 * le32(b, off + 4)
}

/// The image with the four bytes at `off` replaced by `w`, least significant first.
pub open spec fn put32(b: Seq<u8>, off: int, w: u32) -> Seq<u8> {
    b.update(off, (w % 256) as u8)
        .update(off + 1, ((w / 256) % 256) as u8)
        .update(off + 2, ((w / 65536) % 256) as u8)
        .update(off + 3, ((w / 16777216) % 256) as u8)
}

/// An offset plus a multiple of an entry size; `u64::MAX` where the sum does not
/// fit, which lies past the end of every image.
pub fn entry_offset(base: u64, idx: u64, size: u64) -> (r: u64)
    ensures
        base + idx * size <= u64::MAX ==> r == base + idx * size,
        base + idx * size > u64::MAX ==> r == u64::MAX,
{
    match idx.checked_mul(size) {
        Some(m) => match base.checked_add(m) {
            Some(s) => s,
            None => u64::MAX,
        },
        None => {
            proof {
                assert(idx * size <= base + idx * size) by (nonlinear_arith)
                    requires
                        idx >= 0,
                        size >= 0,
                        base >= 0,
                ;
            }
            u64::MAX
        },
    }
}

pub fn read_u8(b: &Vec<u8>, off: u64) -> (r: u8)
    ensures
        r == byte_at(b@, off as int),
{
    let n = b.len();
    if (off as u128) < (n as u128) {
        b[off as usize]
    } else {
        0
    }
}

fn read_u8_plus(b: &Vec<u8>, off: u64, k: u64) -> (r: u8)
    requires
        k < 8,
    ensures
        r == byte_at(b@, off + k),
{
    let _n = b.len();
    match off.checked_add(k) {
        Some(i) => read_u8(b, i),
        None => 0,
    }
}

pub fn read_u16(b: &Vec<u8>, off: u64) -> (r: u16)
    ensures
        r as int == le16(b@, off as int),
{
    let b0 = read_u8_plus(b, off, 0);
    let b1 = read_u8_plus(b, off, 1);
    b0 as u16 + 256 * (b1 as u16)
}

pub fn read_u32(b: &Vec<u8>, off: u64) -> (r: u32)
    ensures
        r as int == le32(b@, off as int),
{
    let b0 = read_u8_plus(b, off, 0);
    let b1 = read_u8_plus(b, off, 1);
    let b2 = read_u8_plus(b, off, 2);
    let b3 = read_u8_plus(b, off, 3);
    b0 as u32 + 256 * (b1 as u32) + 65536 * (b2 as u32 + 256 * (b3 as u32))
}

pub fn read_u64(b: &Vec<u8>, off: u64) -> (r: u64)
    ensures
        r as int == le64(b@, off as int),
{
    let _n = b.len();
    let lo = read_u32(b, off);
    let hi = match off.checked_add(4) {
        Some(o) => read_u32(b, o),
        None => 0,
    };
    lo as u64 + 4294967296 * (hi as u64)
}

/// Replaces the four bytes at `off` with `w`, least significant first.
pub fn write_u32(b: &mut Vec<u8>, off: usize, w: u32)
    requires
        off + 4 <= old(b)@.len(),
    ensures
        final(b)@ == put32(old(b)@, off as int, w),
{
    let _n = b.len();
    b.set(off, (w % 256) as u8);
    b.set(off + 1, ((w / 256) % 256) as u8);
    b.set(off + 2, ((w / 65536) % 256) as u8);
    b.set(off + 3, ((w / 16777216) % 256) as u8);
}

} // verus!
