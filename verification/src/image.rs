//! The modeled address space: byte-addressed mappings, little-endian stores
//! and per-page protections.
//!
//! The kernel primitives the loader consumes (anonymous mapping, page
//! protection) are modeled as plain data: a mapping is a byte vector with a
//! page-aligned base address in a bump-allocated model address space, and
//! its protection is a vector with one mask per page.

use vstd::prelude::*;
use crate::defs::{PAGE_SIZE, PROT_READ, PROT_WRITE, PROT_EXEC, PF_R, PF_W, PF_X};

verus! {

/// Lowest address the model hands out.
pub const MAP_BASE: u64 = 0x10000;
/// One past the highest address the model hands out.
pub const MAP_END: u64 = 0x10000 + 0x4000_0000;

/// `mem` with `src` written at offset `at`; all other bytes kept.
pub open spec fn spec_write_range(mem: Seq<u8>, at: int, src: Seq<u8>) -> Seq<u8> {
    Seq::new(mem.len(), |i: int| if at <= i < at + src.len() { src[i - at] } else { mem[i] })
}

/// The eight bytes of `v`, least significant first.
pub open spec fn spec_le_bytes(v: u64) -> Seq<u8> {
    seq![
        (v as int % 256) as u8,
        (v as int / 0x100 % 256) as u8,
        (v as int / 0x1_0000 % 256) as u8,
        (v as int / 0x100_0000 % 256) as u8,
        (v as int / 0x1_0000_0000 % 256) as u8,
        (v as int / 0x100_0000_0000 % 256) as u8,
        (v as int / 0x1_0000_0000_0000 % 256) as u8,
        (v as int / 0x100_0000_0000_0000 % 256) as u8,
    ]
}

/// The value read little-endian from the eight bytes of `mem` at `at`.
pub open spec fn spec_le_decode(mem: Seq<u8>, at: int) -> int {
    mem[at] + mem[at + 1] * 0x100 + mem[at + 2] * 0x1_0000 + mem[at + 3] * 0x100_0000
        + mem[at + 4] * 0x1_0000_0000 + mem[at + 5] * 0x100_0000_0000
        + mem[at + 6] * 0x1_0000_0000_0000 + mem[at + 7] * 0x100_0000_0000_0000
}

/// Decoding the eight encoded bytes of a value gives the value back.
pub proof fn lemma_le_decode_encode(v: u64)
    ensures
        spec_le_decode(spec_le_bytes(v), 0) == v,
{
    let x = v as int;
    let q1 = x / 0x100;
    let q2 = x / 0x1_0000;
    let q3 = x / 0x100_0000;
    let q4 = x / 0x1_0000_0000;
    let q5 = x / 0x100_0000_0000;
    let q6 = x / 0x1_0000_0000_0000;
    let q7 = x / 0x100_0000_0000_0000;
    vstd::arithmetic::div_mod::lemma_div_denominator(x, 0x100, 0x100);
    vstd::arithmetic::div_mod::lemma_div_denominator(x, 0x1_0000, 0x100);
    vstd::arithmetic::div_mod::lemma_div_denominator(x, 0x100_0000, 0x100);
    vstd::arithmetic::div_mod::lemma_div_denominator(x, 0x1_0000_0000, 0x100);
    vstd::arithmetic::div_mod::lemma_div_denominator(x, 0x100_0000_0000, 0x100);
    vstd::arithmetic::div_mod::lemma_div_denominator(x, 0x1_0000_0000_0000, 0x100);
    assert(q1 / 0x100 == q2);
    assert(q2 / 0x100 == q3);
    assert(q3 / 0x100 == q4);
    assert(q4 / 0x100 == q5);
    assert(q5 / 0x100 == q6);
    assert(q6 / 0x100 == q7);
    assert(q7 < 256) by (nonlinear_arith)
        requires
            q7 == x / 0x100_0000_0000_0000,
            0 <= x < 0x1_0000_0000_0000_0000,
    ;
}

/// Encoding then decoding at the same spot gives the value back.
pub proof fn lemma_le_roundtrip(mem: Seq<u8>, at: int, v: u64)
    requires
        0 <= at,
        at + 8 <= mem.len(),
    ensures
        spec_le_decode(spec_write_range(mem, at, spec_le_bytes(v)), at) == v,
{
    let w = spec_write_range(mem, at, spec_le_bytes(v));
    assert(w[at] == spec_le_bytes(v)[0]);
    assert(w[at + 1] == spec_le_bytes(v)[1]);
    assert(w[at + 2] == spec_le_bytes(v)[2]);
    assert(w[at + 3] == spec_le_bytes(v)[3]);
    assert(w[at + 4] == spec_le_bytes(v)[4]);
    assert(w[at + 5] == spec_le_bytes(v)[5]);
    assert(w[at + 6] == spec_le_bytes(v)[6]);
    assert(w[at + 7] == spec_le_bytes(v)[7]);
    lemma_le_decode_encode(v);
}

/// Copies `len` bytes of `src` starting at `src_off` into `mem` at `at`.
pub fn copy_into(mem: &mut Vec<u8>, at: usize, src: &Vec<u8>, src_off: usize, len: usize)
    requires
        at + len <= old(mem).len(),
        src_off + len <= src.len(),
    ensures
        final(mem)@ == spec_write_range(
            old(mem)@,
            at as int,
            src@.subrange(src_off as int, src_off + len),
        ),
{
    let mut i: usize = 0;
    while i < len
        invariant
            i <= len,
            at + len <= mem.len(),
            src_off + len <= src.len(),
            mem.len() == old(mem).len(),
            mem@ == spec_write_range(old(mem)@, at as int, src@.subrange(src_off as int, src_off + i)),
        decreases len - i,
    {
        let b = src[src_off + i];
        mem.set(at + i, b);
        proof {
            assert(mem@ =~= spec_write_range(
                old(mem)@,
                at as int,
                src@.subrange(src_off as int, src_off + i + 1),
            ));
        }
        i = i + 1;
    }
    proof {
        assert(mem@ =~= spec_write_range(
            old(mem)@,
            at as int,
            src@.subrange(src_off as int, src_off + len),
        ));
    }
}

/// Stores `v` at offset `at` as a 64-bit little-endian word.
pub fn store_u64_le(mem: &mut Vec<u8>, at: usize, v: u64)
    requires
        at + 8 <= old(mem).len(),
    ensures
        final(mem)@ == spec_write_range(old(mem)@, at as int, spec_le_bytes(v)),
{
    let mut bytes: Vec<u8> = Vec::new();
    bytes.push((v % 256) as u8);
    bytes.push((v / 0x100 % 256) as u8);
    bytes.push((v / 0x1_0000 % 256) as u8);
    bytes.push((v / 0x100_0000 % 256) as u8);
    bytes.push((v / 0x1_0000_0000 % 256) as u8);
    bytes.push((v / 0x100_0000_0000 % 256) as u8);
    bytes.push((v / 0x1_0000_0000_0000 % 256) as u8);
    bytes.push((v / 0x100_0000_0000_0000 % 256) as u8);
    proof {
        assert(bytes@ =~= spec_le_bytes(v));
    }
    copy_into(mem, at, &bytes, 0, 8);
    proof {
        assert(bytes@.subrange(0, 8) =~= spec_le_bytes(v));
    }
}

/// Reads the 64-bit little-endian word at offset `at`.
pub fn read_u64_le(mem: &Vec<u8>, at: usize) -> (r: u64)
    requires
        at + 8 <= mem.len(),
    ensures
        r == spec_le_decode(mem@, at as int),
{
    let r: u64 = mem[at] as u64
        + mem[at + 1] as u64 * 0x100
        + mem[at + 2] as u64 * 0x1_0000
        + mem[at + 3] as u64 * 0x100_0000
        + mem[at + 4] as u64 * 0x1_0000_0000
        + mem[at + 5] as u64 * 0x100_0000_0000
        + mem[at + 6] as u64 * 0x1_0000_0000_0000
        + mem[at + 7] as u64 * 0x100_0000_0000_0000;
    r
}

/// The protection mask a segment's flags translate to, under W^X:
/// execute drops write even when write was requested.
pub open spec fn spec_prot(p_flags: u32) -> u8 {
    let r: u8 = if p_flags & PF_R == PF_R { PROT_READ } else { 0 };
    if p_flags & PF_X == PF_X {
        r | PROT_EXEC
    } else if p_flags & PF_W == PF_W {
        r | PROT_WRITE
    } else {
        r
    }
}

/// No translated mask is both writable and executable.
pub proof fn lemma_prot_wx(p_flags: u32)
    ensures
        !(spec_prot(p_flags) & PROT_WRITE == PROT_WRITE && spec_prot(p_flags) & PROT_EXEC
            == PROT_EXEC),
{
    let r: u8 = if p_flags & PF_R == PF_R { PROT_READ } else { 0 };
    assert(r == 0 || r == 1);
    assert(!((0u8 | 4) & 2 == 2) && !((1u8 | 4) & 2 == 2) && ((0u8 | 4) & 4 == 4) && ((1u8 | 4)
        & 4 == 4) && ((0u8 | 2) & 4 == 0) && ((1u8 | 2) & 4 == 0) && (0u8 & 4 == 0) && (1u8 & 4
        == 0)) by (bit_vector);
}

/// Translates segment flags to the W^X protection mask.
pub fn prot_of_flags(p_flags: u32) -> (r: u8)
    ensures
        r == spec_prot(p_flags),
{
    let base: u8 = if p_flags & PF_R == PF_R { PROT_READ } else { 0 };
    if p_flags & PF_X == PF_X {
        base | PROT_EXEC
    } else if p_flags & PF_W == PF_W {
        base | PROT_WRITE
    } else {
        base
    }
}

/// `prots` with pages `[page_lo, page_hi)` set to `p`; all other pages kept.
pub open spec fn spec_set_pages(prots: Seq<u8>, page_lo: int, page_hi: int, p: u8) -> Seq<u8> {
    Seq::new(prots.len(), |i: int| if page_lo <= i < page_hi { p } else { prots[i] })
}

/// Sets the protection of the pages covering `[vaddr, vaddr + vsize)`.
pub fn protect_pages(prots: &mut Vec<u8>, vaddr: u64, vsize: u64, p: u8)
    requires
        vaddr % PAGE_SIZE == 0,
        vsize % PAGE_SIZE == 0,
        vaddr + vsize <= old(prots).len() * PAGE_SIZE,
        vaddr + vsize <= u64::MAX,
    ensures
        final(prots)@ == spec_set_pages(
            old(prots)@,
            vaddr as int / PAGE_SIZE as int,
            (vaddr + vsize) as int / PAGE_SIZE as int,
            p,
        ),
{
    let page_lo: u64 = vaddr / PAGE_SIZE;
    let page_hi: u64 = (vaddr + vsize) / PAGE_SIZE;
    proof {
        assert(page_hi as int == (vaddr + vsize) as int / PAGE_SIZE as int);
        assert(page_hi <= prots.len()) by {
            assert((vaddr + vsize) as int / PAGE_SIZE as int <= prots@.len() * PAGE_SIZE
                / PAGE_SIZE as int) by (nonlinear_arith)
                requires
                    vaddr + vsize <= prots@.len() * PAGE_SIZE,
                    PAGE_SIZE > 0,
            ;
            assert(prots@.len() * PAGE_SIZE / PAGE_SIZE as int == prots@.len()) by (nonlinear_arith)
                requires
                    PAGE_SIZE > 0,
            ;
        }
    }
    let mut i: u64 = page_lo;
    while i < page_hi
        invariant
            page_lo <= i <= page_hi,
            page_hi <= prots.len(),
            prots.len() == old(prots).len(),
            prots@ == spec_set_pages(old(prots)@, page_lo as int, i as int, p),
        decreases page_hi - i,
    {
        prots.set(i as usize, p);
        proof {
            assert(prots@ =~= spec_set_pages(old(prots)@, page_lo as int, i + 1, p));
        }
        i = i + 1;
    }
}

} // verus!
