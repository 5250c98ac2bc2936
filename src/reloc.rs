//! Instruction-word arithmetic of the RISC-V relocations.
//!
//! Every immediate is computed on the low 32 bits of an address difference:
//! the bits that end up in an instruction depend on nothing else.
use vstd::prelude::*;

verus! {

/// The low 32 bits of an integer, as an unsigned word.
pub open spec fn low32(x: int) -> u32 {
    (x % 0x1_0000_0000) as u32
}

/// The upper immediate of a 32-bit value, rounded so that the sign-extended low
/// twelve bits added back give the value.
pub open spec fn hi20_of(x: u32) -> u32 {
    low32(x + 0x800) & 0xfffff000
}

/// The low twelve bits that remain once `hi20_of(x)` is taken away.
pub open spec fn lo12_of(x: u32) -> u32 {
    low32(x - hi20_of(x)) & 0xfff
}

/// A U-type word with its upper twenty bits replaced.
pub open spec fn with_u_imm(word: u32, hi: u32) -> u32 {
    (word & 0xfff) | hi
}

/// An I-type word with bits 31:20 replaced by a twelve-bit immediate.
pub open spec fn with_i_imm(word: u32, lo: u32) -> u32 {
    (word & 0xfffff) | ((lo & 0xfff) << 20u32)
}

/// An S-type word with immediate bits 11:5 in word bits 31:25 and bits 4:0 in
/// word bits 11:7.
pub open spec fn with_s_imm(word: u32, lo: u32) -> u32 {
    (word & 0x1fff07f) | ((lo & 0xfe0) << 20u32) | ((lo & 0x1f) << 7u32)
}

/// The immediate bits of a B-type branch that encodes `off`.
pub open spec fn branch_imm(off: u32) -> u32 {
    ((off & 0x1000) << 19u32) | ((off & 0x800) >> 4u32) | ((off & 0x7e0) << 20u32) | ((off & 0x1e)
        << 7u32)
}

/// The immediate bits of a compressed jump that encodes `off`.
pub open spec fn rvc_jump_imm(off: u16) -> u16 {
    ((off & 0x800) << 1u16) | ((off & 0x400) >> 2u16) | ((off & 0x300) << 1u16) | ((off & 0x80)
        >> 1u16) | ((off & 0x40) << 1u16) | ((off & 0x20) >> 3u16) | ((off & 0x10) << 7u16) | ((
    off & 0xe) << 2u16)
}

/// The immediate bits of a compressed branch that encodes `off`.
pub open spec fn rvc_branch_imm(off: u16) -> u16 {
    ((off & 0x100) << 4u16) | ((off & 0xc0) >> 1u16) | ((off & 0x20) >> 3u16) | ((off & 0x18)
        << 7u16) | ((off & 0x6) << 2u16)
}

proof fn lemma_shift(q: int, r: int)
    ensures
        (q * 0x1_0000_0000 + r) % 0x1_0000_0000 == r % 0x1_0000_0000,
{
    vstd::arithmetic::div_mod::lemma_mod_multiples_vanish(q, r, 0x1_0000_0000);
    assert(q * 0x1_0000_0000 == 0x1_0000_0000 * q) by (nonlinear_arith);
}

/// The low 32 bits of `a - b`.
pub fn diff32(a: u64, b: u64) -> (r: u32)
    ensures
        r == low32(a - b),
{
    let a32 = (a % 0x1_0000_0000) as u32;
    let b32 = (b % 0x1_0000_0000) as u32;
    let r = if a32 >= b32 {
        a32 - b32
    } else {
        ((a32 as u64 + 0x1_0000_0000) - b32 as u64) as u32
    };
    proof {
        let k = 0x1_0000_0000int;
        vstd::arithmetic::div_mod::lemma_fundamental_div_mod(a as int, k);
        vstd::arithmetic::div_mod::lemma_fundamental_div_mod(b as int, k);
        let q = a as int / k - b as int / k;
        if a32 >= b32 {
            assert(a - b == q * k + (a32 - b32));
            lemma_shift(q, a32 - b32);
        } else {
            assert(a - b == (q - 1) * k + (a32 + k - b32));
            lemma_shift(q - 1, a32 + k - b32);
        }
    }
    r
}

/// The low 32 bits of `a + addend`.
pub fn sum32(a: u64, addend: i64) -> (r: u32)
    ensures
        r == low32(a + addend),
{
    let a32 = (a % 0x1_0000_0000) as u32;
    let neg = addend < 0;
    let m: u64 = if neg {
        (-(addend + 1)) as u64 % 0x1_0000_0000
    } else {
        addend as u64 % 0x1_0000_0000
    };
    let r = if !neg {
        ((a32 as u64 + m) % 0x1_0000_0000) as u32
    } else {
        // addend == -(m' + 1) with m' congruent to m
        ((a32 as u64 + 0x1_0000_0000 - m + 0x0_ffff_ffff) % 0x1_0000_0000) as u32
    };
    proof {
        let k = 0x1_0000_0000int;
        vstd::arithmetic::div_mod::lemma_fundamental_div_mod(a as int, k);
        if !neg {
            vstd::arithmetic::div_mod::lemma_fundamental_div_mod(addend as int, k);
            assert(a + addend == (a as int / k + addend as int / k) * k + (a32 + m));
            lemma_shift(a as int / k + addend as int / k, a32 + m);
        } else {
            let p: int = -(addend + 1);
            vstd::arithmetic::div_mod::lemma_fundamental_div_mod(p, k);
            assert(a + addend == (a as int / k - p / k - 2) * k + (a32 + k - m + (k - 1)));
            lemma_shift(a as int / k - p / k - 2, a32 + k - m + (k - 1));
        }
    }
    r
}

/// The upper immediate of `x`, as `hi20_of` states it.
pub fn hi20(x: u32) -> (r: u32)
    ensures
        r == hi20_of(x),
{
    (((x as u64 + 0x800) % 0x1_0000_0000) as u32) & 0xfffff000
}

/// The low immediate of `x`, as `lo12_of` states it.
pub fn lo12(x: u32) -> (r: u32)
    ensures
        r == lo12_of(x),
{
    let h = hi20(x);
    let d = if x >= h {
        x - h
    } else {
        ((x as u64 + 0x1_0000_0000) - h as u64) as u32
    };
    proof {
        let k = 0x1_0000_0000int;
        if x >= h {
            assert((x - h) % k == x - h);
        } else {
            lemma_shift(-1, x - h + k);
        }
    }
    d & 0xfff
}

pub fn with_u_imm_exec(word: u32, hi: u32) -> (r: u32)
    ensures
        r == with_u_imm(word, hi),
{
    (word & 0xfff) | hi
}

pub fn with_i_imm_exec(word: u32, lo: u32) -> (r: u32)
    ensures
        r == with_i_imm(word, lo),
{
    (word & 0xfffff) | ((lo & 0xfff) << 20u32)
}

pub fn with_s_imm_exec(word: u32, lo: u32) -> (r: u32)
    ensures
        r == with_s_imm(word, lo),
{
    (word & 0x1fff07f) | ((lo & 0xfe0) << 20u32) | ((lo & 0x1f) << 7u32)
}

pub fn branch_imm_exec(off: u32) -> (r: u32)
    ensures
        r == branch_imm(off),
{
    ((off & 0x1000) << 19u32) | ((off & 0x800) >> 4u32) | ((off & 0x7e0) << 20u32) | ((off & 0x1e)
        << 7u32)
}

pub fn rvc_jump_imm_exec(off: u16) -> (r: u16)
    ensures
        r == rvc_jump_imm(off),
{
    ((off & 0x800) << 1u16) | ((off & 0x400) >> 2u16) | ((off & 0x300) << 1u16) | ((off & 0x80)
        >> 1u16) | ((off & 0x40) << 1u16) | ((off & 0x20) >> 3u16) | ((off & 0x10) << 7u16) | ((
    off & 0xe) << 2u16)
}

pub fn rvc_branch_imm_exec(off: u16) -> (r: u16)
    ensures
        r == rvc_branch_imm(off),
{
    ((off & 0x100) << 4u16) | ((off & 0xc0) >> 1u16) | ((off & 0x20) >> 3u16) | ((off & 0x18)
        << 7u16) | ((off & 0x6) << 2u16)
}

} // verus!
