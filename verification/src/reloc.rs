//! The relocation engine.
//!
//! Iterates an object's relocation entries and writes 64-bit little-endian
//! words into its mapping.  With `B` the object base, `A` the addend, `S`
//! the resolved symbol address (0 for unresolved or index-0 symbols) and
//! `T` the start of the object's TLS slot, the supported types write:
//! `R_X86_64_64`: `S + A`; `GLOB_DAT`/`JUMP_SLOT`: `S`; `RELATIVE`: `B + A`;
//! `TPOFF64`: `S + A - T` (wrapping).  `IRELATIVE` is deferred: its site and
//! resolver address `B + A` are recorded for a second pass.  Unknown types
//! are skipped and reported.

use vstd::prelude::*;
use crate::defs::{
    Reloc, SymV, DynSym, LinkError, R_X86_64_64, R_X86_64_GLOB_DAT, R_X86_64_JUMP_SLOT,
    R_X86_64_RELATIVE, R_X86_64_TPOFF64, R_X86_64_IRELATIVE, wadd, wsub, spec_i64_as_u64,
    wrapping_add64, wrapping_sub64, i64_as_u64,
};
use crate::image::{spec_write_range, spec_le_bytes, store_u64_le};

verus! {

/// A deferred indirect relocation: the resolver's address `B + A` and the
/// in-mapping offset of the word its return value will be stored at.
#[derive(Clone, Copy, Debug, PartialEq, Eq, Structural)]
pub struct IrelSite {
    pub resolver: u64,
    pub offset: u64,
}

/// Why a relocation pass stopped.
#[derive(Clone, Copy, Debug, PartialEq, Eq, Structural)]
pub enum RelErr {
    /// `r_sym` falls outside the dynamic symbol table.
    BadIndex,
    /// The symbol named by `r_sym` has no name in the string table.
    NoName,
    /// The write site does not lie within the mapping.
    OutOfBounds,
}

/// The fold state of one relocation pass.
pub ghost struct RelState {
    pub mem: Seq<u8>,
    pub unsupported: Seq<u32>,
    pub irel: Seq<IrelSite>,
    pub err: Option<RelErr>,
}

/// The addend of an entry, 0 when absent, as the unsigned word the machine
/// adds.
pub open spec fn spec_addend(r: Reloc) -> u64 {
    match r.r_addend {
        Some(a) => spec_i64_as_u64(a),
        None => 0,
    }
}

/// The value a supported, non-indirect relocation writes.
pub open spec fn spec_reloc_value(r_type: u32, s: u64, a: u64, b: u64, t: u64) -> Option<u64> {
    if r_type == R_X86_64_64 {
        Some(wadd(s, a))
    } else if r_type == R_X86_64_GLOB_DAT || r_type == R_X86_64_JUMP_SLOT {
        Some(s)
    } else if r_type == R_X86_64_RELATIVE {
        Some(wadd(b, a))
    } else if r_type == R_X86_64_TPOFF64 {
        Some(wsub(wadd(s, a), t))
    } else {
        None
    }
}

/// One step of the relocation fold.  The symbol is resolved before the type
/// is examined, so a bad symbol reference fails the pass whatever the type.
pub open spec fn rel_step(
    st: RelState,
    r: Reloc,
    syms: Seq<SymV>,
    globals: Map<Seq<char>, u64>,
    b: u64,
    t: u64,
) -> RelState {
    if st.err is Some {
        st
    } else if r.r_sym > 0 && r.r_sym >= syms.len() {
        RelState { err: Some(RelErr::BadIndex), ..st }
    } else if r.r_sym > 0 && syms[r.r_sym as int].name is None {
        RelState { err: Some(RelErr::NoName), ..st }
    } else {
        let s = if r.r_sym > 0 {
            let n = syms[r.r_sym as int].name.unwrap();
            if globals.contains_key(n) {
                globals[n]
            } else {
                0
            }
        } else {
            0
        };
        let a = spec_addend(r);
        match spec_reloc_value(r.r_type, s, a, b, t) {
            Some(v) => {
                if r.r_offset + 8 <= st.mem.len() {
                    RelState { mem: spec_write_range(st.mem, r.r_offset as int, spec_le_bytes(v)), ..st }
                } else {
                    RelState { err: Some(RelErr::OutOfBounds), ..st }
                }
            },
            None => {
                if r.r_type == R_X86_64_IRELATIVE {
                    if r.r_offset + 8 <= st.mem.len() {
                        RelState {
                            irel: st.irel.push(IrelSite { resolver: wadd(b, a), offset: r.r_offset }),
                            ..st
                        }
                    } else {
                        RelState { err: Some(RelErr::OutOfBounds), ..st }
                    }
                } else {
                    RelState { unsupported: st.unsupported.push(r.r_type), ..st }
                }
            },
        }
    }
}

/// The relocation fold over the first `i` entries.
pub open spec fn rel_fold(
    mem0: Seq<u8>,
    relocs: Seq<Reloc>,
    i: int,
    syms: Seq<SymV>,
    globals: Map<Seq<char>, u64>,
    b: u64,
    t: u64,
) -> RelState
    decreases i,
{
    if i <= 0 {
        RelState { mem: mem0, unsupported: Seq::empty(), irel: Seq::empty(), err: None }
    } else {
        rel_step(rel_fold(mem0, relocs, i - 1, syms, globals, b, t), relocs[i - 1], syms, globals, b, t)
    }
}

/// An error, once hit, stands to the end of the fold.
pub proof fn lemma_rel_err_sticky(
    mem0: Seq<u8>,
    relocs: Seq<Reloc>,
    i: int,
    j: int,
    syms: Seq<SymV>,
    globals: Map<Seq<char>, u64>,
    b: u64,
    t: u64,
)
    requires
        0 <= i <= j,
        rel_fold(mem0, relocs, i, syms, globals, b, t).err is Some,
    ensures
        rel_fold(mem0, relocs, j, syms, globals, b, t) == rel_fold(
            mem0,
            relocs,
            i,
            syms,
            globals,
            b,
            t,
        ),
    decreases j - i,
{
    if i < j {
        lemma_rel_err_sticky(mem0, relocs, i, j - 1, syms, globals, b, t);
    }
}

/// The fold never changes the mapping's length.
pub proof fn lemma_rel_len(
    mem0: Seq<u8>,
    relocs: Seq<Reloc>,
    i: int,
    syms: Seq<SymV>,
    globals: Map<Seq<char>, u64>,
    b: u64,
    t: u64,
)
    requires
        0 <= i,
    ensures
        rel_fold(mem0, relocs, i, syms, globals, b, t).mem.len() == mem0.len(),
    decreases i,
{
    if i > 0 {
        lemma_rel_len(mem0, relocs, i - 1, syms, globals, b, t);
    }
}

/// Every deferred site the fold records lies within the mapping.
pub proof fn lemma_rel_irel_bounds(
    mem0: Seq<u8>,
    relocs: Seq<Reloc>,
    i: int,
    syms: Seq<SymV>,
    globals: Map<Seq<char>, u64>,
    b: u64,
    t: u64,
)
    requires
        0 <= i,
    ensures
        forall|k: int|
            0 <= k < rel_fold(mem0, relocs, i, syms, globals, b, t).irel.len() ==> (
            #[trigger] rel_fold(mem0, relocs, i, syms, globals, b, t).irel[k]).offset + 8
                <= mem0.len(),
    decreases i,
{
    if i > 0 {
        lemma_rel_irel_bounds(mem0, relocs, i - 1, syms, globals, b, t);
        lemma_rel_len(mem0, relocs, i - 1, syms, globals, b, t);
    }
}

/// Whether a pass fails, and how, depends only on the mapping's length,
/// the entries and the symbols: not on the symbol map, base or TLS offset.
pub proof fn lemma_rel_err_params(
    mem0: Seq<u8>,
    relocs: Seq<Reloc>,
    i: int,
    syms: Seq<SymV>,
    g1: Map<Seq<char>, u64>,
    b1: u64,
    t1: u64,
    g2: Map<Seq<char>, u64>,
    b2: u64,
    t2: u64,
)
    requires
        0 <= i,
    ensures
        rel_fold(mem0, relocs, i, syms, g1, b1, t1).err == rel_fold(
            mem0,
            relocs,
            i,
            syms,
            g2,
            b2,
            t2,
        ).err,
    decreases i,
{
    if i > 0 {
        lemma_rel_err_params(mem0, relocs, i - 1, syms, g1, b1, t1, g2, b2, t2);
        lemma_rel_len(mem0, relocs, i - 1, syms, g1, b1, t1);
        lemma_rel_len(mem0, relocs, i - 1, syms, g2, b2, t2);
    }
}

/// Applies one relocation entry: one step of the fold.  On error nothing
/// is changed and the matching error is handed back, the object's name in
/// its message.
#[verifier::rlimit(100)]
fn rel_one(
    name: &str,
    mem: &mut Vec<u8>,
    rel: Reloc,
    syms: &Vec<DynSym>,
    globals: &crate::symbols::SymbolTable,
    b: u64,
    t: u64,
    unsupported: &mut Vec<u32>,
    irel: &mut Vec<IrelSite>,
) -> (r: Result<(), LinkError>)
    requires
        globals.wf(),
    ensures
        ({
            let st = RelState {
                mem: old(mem)@,
                unsupported: old(unsupported)@,
                irel: old(irel)@,
                err: None,
            };
            let st2 = rel_step(st, rel, syms@.map_values(|d: DynSym| d@), globals@, b, t);
            match st2.err {
                None => {
                    &&& r is Ok
                    &&& final(mem)@ == st2.mem
                    &&& final(unsupported)@ == st2.unsupported
                    &&& final(irel)@ == st2.irel
                },
                Some(k) => {
                    &&& final(mem)@ == old(mem)@
                    &&& final(unsupported)@ == old(unsupported)@
                    &&& final(irel)@ == old(irel)@
                    &&& match k {
                        RelErr::BadIndex => r matches Err(LinkError::MissingSymbolIndex(n)) && n@
                            == name@,
                        RelErr::NoName => r matches Err(LinkError::MissingSymbolName(n)) && n@
                            == name@,
                        RelErr::OutOfBounds => r matches Err(LinkError::OutOfBoundsSegment(n))
                            && n@ == name@,
                    }
                },
            }
        }),
{
    let ghost symvs = syms@.map_values(|d: DynSym| d@);
    let ghost st = RelState {
        mem: mem@,
        unsupported: unsupported@,
        irel: irel@,
        err: None,
    };
    let ghost st2 = rel_step(st, rel, symvs, globals@, b, t);
    let s: u64 = if rel.r_sym > 0 {
        if rel.r_sym >= syms.len() {
            proof {
                assert(st2.err == Some(RelErr::BadIndex));
            }
            return Err(LinkError::MissingSymbolIndex(name.to_owned()));
        }
        match &syms[rel.r_sym].name {
            Some(n) => {
                proof {
                    assert(symvs[rel.r_sym as int].name == Some(n@));
                }
                match globals.lookup(n) {
                    Some(v) => v,
                    None => 0,
                }
            },
            None => {
                proof {
                    assert(symvs[rel.r_sym as int].name is None);
                    assert(st2.err == Some(RelErr::NoName));
                }
                return Err(LinkError::MissingSymbolName(name.to_owned()));
            },
        }
    } else {
        0
    };
    let a: u64 = match rel.r_addend {
        Some(x) => i64_as_u64(x),
        None => 0,
    };
    let ghost sspec: u64 = if rel.r_sym > 0 {
        let n = symvs[rel.r_sym as int].name.unwrap();
        if globals@.contains_key(n) {
            globals@[n]
        } else {
            0
        }
    } else {
        0
    };
    proof {
        assert(s == sspec);
        assert(a == spec_addend(rel));
    }
    let value: Option<u64> = if rel.r_type == R_X86_64_64 {
        Some(wrapping_add64(s, a))
    } else if rel.r_type == R_X86_64_GLOB_DAT || rel.r_type == R_X86_64_JUMP_SLOT {
        Some(s)
    } else if rel.r_type == R_X86_64_RELATIVE {
        Some(wrapping_add64(b, a))
    } else if rel.r_type == R_X86_64_TPOFF64 {
        Some(wrapping_sub64(wrapping_add64(s, a), t))
    } else {
        None
    };
    proof {
        assert(value == spec_reloc_value(rel.r_type, s, spec_addend(rel), b, t));
    }
    let mlen: usize = mem.len();
    match value {
        Some(v) => {
            if rel.r_offset <= u64::MAX - 8 && rel.r_offset + 8 <= mlen as u64 {
                store_u64_le(mem, rel.r_offset as usize, v);
                proof {
                    assert(st2.err is None);
                    assert(mem@ == st2.mem);
                }
                Ok(())
            } else {
                proof {
                    assert(mlen <= usize::MAX);
                    assert(rel.r_offset + 8 > st.mem.len());
                    assert(st2.err == Some(RelErr::OutOfBounds));
                }
                Err(LinkError::OutOfBoundsSegment(name.to_owned()))
            }
        },
        None => {
            if rel.r_type == R_X86_64_IRELATIVE {
                if rel.r_offset <= u64::MAX - 8 && rel.r_offset + 8 <= mlen as u64 {
                    irel.push(IrelSite { resolver: wrapping_add64(b, a), offset: rel.r_offset });
                    proof {
                        assert(st2.err is None);
                        assert(irel@ == st2.irel);
                    }
                    Ok(())
                } else {
                    proof {
                        assert(mlen <= usize::MAX);
                        assert(rel.r_offset + 8 > st.mem.len());
                        assert(st2.err == Some(RelErr::OutOfBounds));
                    }
                    Err(LinkError::OutOfBoundsSegment(name.to_owned()))
                }
            } else {
                unsupported.push(rel.r_type);
                proof {
                    assert(st2.err is None);
                    assert(unsupported@ == st2.unsupported);
                }
                Ok(())
            }
        },
    }
}

/// Runs one relocation pass over an object's mapping.  On success the
/// mapping holds exactly the folded writes and the deferred `IRELATIVE`
/// sites and skipped types are handed back; the first bad symbol index,
/// missing symbol name or out-of-range write site aborts the pass with the
/// matching error, the object's name in its message.
pub fn relocate_object(
    name: &str,
    mem: &mut Vec<u8>,
    relocs: &Vec<Reloc>,
    syms: &Vec<DynSym>,
    globals: &crate::symbols::SymbolTable,
    b: u64,
    t: u64,
) -> (r: Result<(Vec<u32>, Vec<IrelSite>), LinkError>)
    requires
        globals.wf(),
    ensures
        ({
            let f = rel_fold(
                old(mem)@,
                relocs@,
                relocs@.len() as int,
                syms@.map_values(|d: DynSym| d@),
                globals@,
                b,
                t,
            );
            match f.err {
                None => {
                    &&& r matches Ok((unsupported, irel)) && unsupported@ == f.unsupported
                        && irel@ == f.irel
                    &&& final(mem)@ == f.mem
                },
                Some(RelErr::BadIndex) => r matches Err(LinkError::MissingSymbolIndex(n)) && n@
                    == name@,
                Some(RelErr::NoName) => r matches Err(LinkError::MissingSymbolName(n)) && n@
                    == name@,
                Some(RelErr::OutOfBounds) => r matches Err(LinkError::OutOfBoundsSegment(n))
                    && n@ == name@,
            }
        }),
{
    let ghost symvs = syms@.map_values(|d: DynSym| d@);
    let ghost mem0 = mem@;
    let mut unsupported: Vec<u32> = Vec::new();
    let mut irel: Vec<IrelSite> = Vec::new();
    let mut i: usize = 0;
    while i < relocs.len()
        invariant
            i <= relocs@.len(),
            globals.wf(),
            mem0 == old(mem)@,
            symvs == syms@.map_values(|d: DynSym| d@),
            ({
                let f = rel_fold(mem0, relocs@, i as int, symvs, globals@, b, t);
                f.err is None && mem@ == f.mem && unsupported@ == f.unsupported && irel@ == f.irel
            }),
        decreases relocs@.len() - i,
    {
        let ghost fprev = rel_fold(mem0, relocs@, i as int, symvs, globals@, b, t);
        let rel = relocs[i];
        match rel_one(name, mem, rel, syms, globals, b, t, &mut unsupported, &mut irel) {
            Ok(()) => {},
            Err(e) => {
                proof {
                    lemma_rel_err_sticky(
                        mem0,
                        relocs@,
                        i + 1,
                        relocs@.len() as int,
                        symvs,
                        globals@,
                        b,
                        t,
                    );
                }
                return Err(e);
            },
        }
        i = i + 1;
    }
    Ok((unsupported, irel))
}

} // verus!
