//! The segment copier.
//!
//! Copies `PT_LOAD` file images into an object's mapping at their `p_vaddr`
//! offsets, and `PT_TLS` images into the object's slot of the shared TLS
//! buffer.  The primary object's slot sits at the top of the buffer; each
//! non-primary slot is placed `tls_offset` below the top, after which
//! `tls_offset` advances by the segment's page-rounded extent and the TLS
//! index counter by one.  Zero-filled tails are implicit: both the mapping
//! and the TLS buffer start zeroed.

use vstd::prelude::*;
use crate::defs::{Phdr, LinkError, PT_LOAD, PT_TLS, spec_valign, spec_vsize, vsize_of};
use crate::image::{spec_write_range, copy_into};

verus! {

/// An object's assignment in the TLS buffer: its index, the start of its
/// slot, and the length of the file-backed image copied there.
#[derive(Clone, Copy, Debug, PartialEq, Eq, Structural)]
pub struct TlsSlot {
    pub index: u64,
    pub start: u64,
    pub len: u64,
}

/// The fold state of the copy pass over one object's program headers:
/// the mapping, the TLS buffer, the running TLS offset and index counter,
/// the object's recorded slot, and whether a range check failed.
pub ghost struct CopyState {
    pub mem: Seq<u8>,
    pub tls: Seq<u8>,
    pub off: int,
    pub idx: int,
    pub slot: Option<(int, int, int)>,
    pub err: bool,
}

/// One step of the copy fold.
pub open spec fn copy_step(st: CopyState, ph: Phdr, data: Seq<u8>, is_primary: bool) -> CopyState {
    if st.err {
        st
    } else if ph.p_type == PT_LOAD {
        let fstart = ph.p_offset as int;
        let flen = ph.p_filesz as int;
        if fstart + flen > data.len() {
            CopyState { err: true, ..st }
        } else if ph.p_vaddr + flen > st.mem.len() {
            CopyState { err: true, ..st }
        } else {
            CopyState {
                mem: spec_write_range(st.mem, ph.p_vaddr as int, data.subrange(fstart, fstart + flen)),
                ..st
            }
        }
    } else if ph.p_type == PT_TLS {
        let fstart = ph.p_offset as int;
        let flen = ph.p_filesz as int;
        if ph.p_align > 0 && ph.p_memsz + ph.p_align - 1 > u64::MAX {
            CopyState { err: true, ..st }
        } else if spec_vsize(ph) > u64::MAX {
            CopyState { err: true, ..st }
        } else if fstart + flen > data.len() {
            CopyState { err: true, ..st }
        } else {
            let valign = spec_valign(ph);
            let index: int = if is_primary { 0 } else { st.idx + 1 };
            let start: int = if is_primary {
                st.tls.len() - valign
            } else {
                st.tls.len() - (st.off + valign)
            };
            let off2: int = if is_primary { st.off } else { st.off + spec_vsize(ph) };
            let idx2: int = if is_primary { st.idx } else { st.idx + 1 };
            if off2 > u64::MAX || idx2 > u64::MAX || start < 0 || start + flen > st.tls.len() {
                CopyState { err: true, ..st }
            } else {
                CopyState {
                    tls: spec_write_range(st.tls, start, data.subrange(fstart, fstart + flen)),
                    off: off2,
                    idx: idx2,
                    slot: Some((index, start, flen)),
                    ..st
                }
            }
        }
    } else {
        st
    }
}

/// The copy fold over the first `i` program headers.
pub open spec fn copy_fold(
    st0: CopyState,
    phdrs: Seq<Phdr>,
    i: int,
    data: Seq<u8>,
    is_primary: bool,
) -> CopyState
    decreases i,
{
    if i <= 0 {
        st0
    } else {
        copy_step(copy_fold(st0, phdrs, i - 1, data, is_primary), phdrs[i - 1], data, is_primary)
    }
}

/// A failed range check stands to the end of the fold.
pub proof fn lemma_copy_err_sticky(
    st0: CopyState,
    phdrs: Seq<Phdr>,
    i: int,
    j: int,
    data: Seq<u8>,
    is_primary: bool,
)
    requires
        0 <= i <= j,
        copy_fold(st0, phdrs, i, data, is_primary).err,
    ensures
        copy_fold(st0, phdrs, j, data, is_primary) == copy_fold(st0, phdrs, i, data, is_primary),
    decreases j - i,
{
    if i < j {
        lemma_copy_err_sticky(st0, phdrs, i, j - 1, data, is_primary);
    }
}

/// The fold never changes the lengths of the mapping or the TLS buffer.
pub proof fn lemma_copy_len(
    st0: CopyState,
    phdrs: Seq<Phdr>,
    i: int,
    data: Seq<u8>,
    is_primary: bool,
)
    requires
        0 <= i,
    ensures
        copy_fold(st0, phdrs, i, data, is_primary).mem.len() == st0.mem.len(),
        copy_fold(st0, phdrs, i, data, is_primary).tls.len() == st0.tls.len(),
    decreases i,
{
    if i > 0 {
        lemma_copy_len(st0, phdrs, i - 1, data, is_primary);
    }
}

/// Applies one program header of the copy pass: one step of the fold.  On a
/// failed range check nothing is changed and `OutOfBoundsSegment` comes
/// back with the object's name.
#[verifier::rlimit(100)]
fn copy_one(
    name: &str,
    data: &Vec<u8>,
    ph: Phdr,
    mem: &mut Vec<u8>,
    tls: &mut Vec<u8>,
    is_primary: bool,
    off: &mut u64,
    idx: &mut u64,
    slot: &mut Option<TlsSlot>,
) -> (r: Result<(), LinkError>)
    requires
        *old(slot) matches Some(s) ==> s.start <= old(tls)@.len() && s.start + s.len <= old(
            tls,
        )@.len(),
    ensures
        ({
            let st = CopyState {
                mem: old(mem)@,
                tls: old(tls)@,
                off: *old(off) as int,
                idx: *old(idx) as int,
                slot: match *old(slot) {
                    Some(s) => Some((s.index as int, s.start as int, s.len as int)),
                    None => None,
                },
                err: false,
            };
            let st2 = copy_step(st, ph, data@, is_primary);
            if st2.err {
                &&& r matches Err(LinkError::OutOfBoundsSegment(n)) && n@ == name@
                &&& final(mem)@ == old(mem)@ && final(tls)@ == old(tls)@
                &&& *final(off) == *old(off) && *final(idx) == *old(idx) && *final(slot) == *old(
                    slot,
                )
            } else {
                &&& r is Ok
                &&& final(mem)@ == st2.mem && final(tls)@ == st2.tls
                &&& *final(off) as int == st2.off && *final(idx) as int == st2.idx
                &&& match (*final(slot), st2.slot) {
                    (Some(s), Some((i2, s2, l2))) => s.index as int == i2 && s.start as int == s2
                        && s.len as int == l2,
                    (None, None) => true,
                    _ => false,
                }
                &&& (*final(slot) matches Some(s) ==> s.start <= final(tls)@.len() && s.start
                    + s.len <= final(tls)@.len())
            }
        }),
{
    if ph.p_type == PT_LOAD {
        let fstart = ph.p_offset;
        let flen = ph.p_filesz;
        let dlen: usize = data.len();
        let mlen: usize = mem.len();
        if !(fstart <= u64::MAX - flen && fstart + flen <= dlen as u64) {
            return Err(LinkError::OutOfBoundsSegment(name.to_owned()));
        }
        if !(ph.p_vaddr <= u64::MAX - flen && ph.p_vaddr + flen <= mlen as u64) {
            return Err(LinkError::OutOfBoundsSegment(name.to_owned()));
        }
        copy_into(mem, ph.p_vaddr as usize, data, fstart as usize, flen as usize);
        Ok(())
    } else if ph.p_type == PT_TLS {
        let fstart = ph.p_offset;
        let flen = ph.p_filesz;
        let dlen: usize = data.len();
        let tlen: usize = tls.len();
        if ph.p_align > 0 && !(ph.p_memsz <= u64::MAX - (ph.p_align - 1)) {
            return Err(LinkError::OutOfBoundsSegment(name.to_owned()));
        }
        let valign: u64 = if ph.p_align > 0 {
            let q = (ph.p_memsz + (ph.p_align - 1)) / ph.p_align;
            proof {
                let x = (ph.p_memsz + (ph.p_align - 1)) as int;
                vstd::arithmetic::div_mod::lemma_fundamental_div_mod(x, ph.p_align as int);
                vstd::arithmetic::div_mod::lemma_mod_bound(x, ph.p_align as int);
                assert(q as int * ph.p_align as int <= x);
            }
            q * ph.p_align
        } else {
            ph.p_memsz
        };
        let vsize: u64 = match vsize_of(&ph) {
            Some(v) => v,
            None => {
                return Err(LinkError::OutOfBoundsSegment(name.to_owned()));
            },
        };
        if !(fstart <= u64::MAX - flen && fstart + flen <= dlen as u64) {
            return Err(LinkError::OutOfBoundsSegment(name.to_owned()));
        }
        if !is_primary && *idx == u64::MAX {
            return Err(LinkError::OutOfBoundsSegment(name.to_owned()));
        }
        let (index, start_ok): (u64, Option<u64>) = if is_primary {
            (0, if valign <= tlen as u64 { Some(tlen as u64 - valign) } else { None })
        } else {
            let idx2 = *idx + 1;
            let sum_ok = *off <= u64::MAX - valign;
            (
                idx2,
                if sum_ok && *off + valign <= tlen as u64 {
                    Some(tlen as u64 - (*off + valign))
                } else {
                    None
                },
            )
        };
        let off2: Option<u64> = if is_primary {
            Some(*off)
        } else if *off <= u64::MAX - vsize {
            Some(*off + vsize)
        } else {
            None
        };
        match (start_ok, off2) {
            (Some(start), Some(o2)) => {
                if flen <= u64::MAX - start && start + flen <= tlen as u64 {
                    copy_into(tls, start as usize, data, fstart as usize, flen as usize);
                    if !is_primary {
                        *idx = *idx + 1;
                    }
                    *off = o2;
                    *slot = Some(TlsSlot { index, start, len: flen });
                    Ok(())
                } else {
                    Err(LinkError::OutOfBoundsSegment(name.to_owned()))
                }
            },
            _ => Err(LinkError::OutOfBoundsSegment(name.to_owned())),
        }
    } else {
        Ok(())
    }
}

/// Copies one object's segments: the whole copy fold over its program
/// headers.  Hands back the object's TLS slot, if a `PT_TLS` was placed.
pub fn copy_object(
    name: &str,
    data: &Vec<u8>,
    phdrs: &Vec<Phdr>,
    mem: &mut Vec<u8>,
    tls: &mut Vec<u8>,
    is_primary: bool,
    off: &mut u64,
    idx: &mut u64,
) -> (r: Result<Option<TlsSlot>, LinkError>)
    ensures
        ({
            let st0 = CopyState {
                mem: old(mem)@,
                tls: old(tls)@,
                off: *old(off) as int,
                idx: *old(idx) as int,
                slot: None,
                err: false,
            };
            let f = copy_fold(st0, phdrs@, phdrs@.len() as int, data@, is_primary);
            if f.err {
                r matches Err(LinkError::OutOfBoundsSegment(n)) && n@ == name@
            } else {
                &&& r is Ok
                &&& final(mem)@ == f.mem && final(tls)@ == f.tls
                &&& *final(off) as int == f.off && *final(idx) as int == f.idx
                &&& match (r.unwrap(), f.slot) {
                    (Some(s), Some((i2, s2, l2))) => s.index as int == i2 && s.start as int == s2
                        && s.len as int == l2,
                    (None, None) => true,
                    _ => false,
                }
                &&& (r.unwrap() matches Some(s) ==> s.start + s.len <= final(tls)@.len())
            }
        }),
{
    let ghost st0 = CopyState {
        mem: old(mem)@,
        tls: old(tls)@,
        off: *old(off) as int,
        idx: *old(idx) as int,
        slot: None,
        err: false,
    };
    let mut slot: Option<TlsSlot> = None;
    let mut i: usize = 0;
    while i < phdrs.len()
        invariant
            i <= phdrs@.len(),
            st0 == (CopyState {
                mem: old(mem)@,
                tls: old(tls)@,
                off: *old(off) as int,
                idx: *old(idx) as int,
                slot: None,
                err: false,
            }),
            ({
                let f = copy_fold(st0, phdrs@, i as int, data@, is_primary);
                &&& !f.err
                &&& mem@ == f.mem && tls@ == f.tls
                &&& *off as int == f.off && *idx as int == f.idx
                &&& match (slot, f.slot) {
                    (Some(s), Some((i2, s2, l2))) => s.index as int == i2 && s.start as int == s2
                        && s.len as int == l2,
                    (None, None) => true,
                    _ => false,
                }
                &&& (slot matches Some(s) ==> s.start <= tls@.len() && s.start + s.len
                    <= tls@.len())
            }),
        decreases phdrs@.len() - i,
    {
        let ghost fprev = copy_fold(st0, phdrs@, i as int, data@, is_primary);
        let ph = phdrs[i];
        match copy_one(name, data, ph, mem, tls, is_primary, off, idx, &mut slot) {
            Ok(()) => {},
            Err(e) => {
                proof {
                    lemma_copy_err_sticky(st0, phdrs@, i + 1, phdrs@.len() as int, data@, is_primary);
                }
                return Err(e);
            },
        }
        i = i + 1;
    }
    Ok(slot)
}

} // verus!
