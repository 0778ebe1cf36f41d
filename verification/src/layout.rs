//! Memory layout planning: per-object virtual bounds and TLS totals.
//!
//! For each object the program headers are folded into the page-rounded
//! bounds of its `PT_LOAD` segments and the summed page-rounded sizes of its
//! `PT_TLS` segments.  A mapping of size `hi` backs the object; `lo` is kept
//! only as a diagnostic and is not subtracted, so `p_vaddr` values serve as
//! direct offsets into the mapping.

use vstd::prelude::*;
use crate::defs::{Phdr, LinkError, PT_LOAD, PT_TLS, PAGE_SIZE, spec_page_floor, spec_vsize};

verus! {

/// The fold state of the measuring pass: `PT_LOAD` bounds and the summed
/// page-rounded `PT_TLS` extents, as unbounded integers.
pub ghost struct MeasureState {
    pub bounds: Option<(int, int)>,
    pub tls: int,
}

/// One step of the measuring fold.
pub open spec fn measure_step(st: MeasureState, ph: Phdr) -> MeasureState {
    if ph.p_type == PT_LOAD {
        let vaddr = spec_page_floor(ph.p_vaddr);
        let vsize = spec_vsize(ph);
        let bounds = match st.bounds {
            Some((lo, hi)) => Some(
                (if vaddr < lo { vaddr } else { lo }, if vaddr + vsize > hi { vaddr + vsize } else { hi }),
            ),
            None => Some((vaddr, vaddr + vsize)),
        };
        MeasureState { bounds, tls: st.tls }
    } else if ph.p_type == PT_TLS {
        MeasureState { bounds: st.bounds, tls: st.tls + spec_vsize(ph) }
    } else {
        st
    }
}

/// The measuring fold over the first `i` program headers.
pub open spec fn measure_fold(phdrs: Seq<Phdr>, i: int) -> MeasureState
    decreases i,
{
    if i <= 0 {
        MeasureState { bounds: None, tls: 0 }
    } else {
        measure_step(measure_fold(phdrs, i - 1), phdrs[i - 1])
    }
}

/// The full measure of an object.
pub open spec fn spec_measure(phdrs: Seq<Phdr>) -> MeasureState {
    measure_fold(phdrs, phdrs.len() as int)
}

/// Whether every quantity the measuring pass computes fits in a 64-bit
/// machine word, so the pass succeeds.
pub open spec fn measure_fits(phdrs: Seq<Phdr>) -> bool {
    &&& forall|j: int|
        0 <= j < phdrs.len() && (phdrs[j].p_type == PT_LOAD || phdrs[j].p_type == PT_TLS)
            ==> spec_vsize(#[trigger] phdrs[j]) <= u64::MAX
    &&& forall|j: int|
        0 <= j < phdrs.len() && phdrs[j].p_type == PT_LOAD ==> spec_page_floor(
            #[trigger] phdrs[j].p_vaddr,
        ) + spec_vsize(phdrs[j]) <= u64::MAX
    &&& spec_measure(phdrs).tls <= u64::MAX
}

/// The measure of one object, as machine words.
pub struct ObjMeasure {
    /// Page-rounded `(lo, hi)` bounds of the `PT_LOAD` segments, or `None`
    /// when the object has none.
    pub bounds: Option<(u64, u64)>,
    /// Summed page-rounded extents of the `PT_TLS` segments.
    pub tls: u64,
}

/// The TLS sum never shrinks as the fold advances.
pub proof fn lemma_measure_tls_monotone(phdrs: Seq<Phdr>, i: int, j: int)
    requires
        0 <= i <= j <= phdrs.len(),
    ensures
        measure_fold(phdrs, i).tls <= measure_fold(phdrs, j).tls,
    decreases j - i,
{
    if i < j {
        lemma_measure_tls_monotone(phdrs, i, j - 1);
    }
}

/// Every `PT_LOAD` span among the first `i` headers lies inside the folded
/// bounds, the bounds are page-aligned, and `0 <= lo <= hi`.
pub proof fn lemma_measure_bounds(phdrs: Seq<Phdr>, i: int)
    requires
        0 <= i <= phdrs.len(),
    ensures
        measure_fold(phdrs, i).bounds matches Some((lo, hi)) ==> 0 <= lo <= hi && lo % (
        PAGE_SIZE as int) == 0 && hi % (PAGE_SIZE as int) == 0,
        forall|j: int|
            0 <= j < i && phdrs[j].p_type == PT_LOAD ==> {
                &&& measure_fold(phdrs, i).bounds is Some
                &&& measure_fold(phdrs, i).bounds.unwrap().0 <= spec_page_floor(
                    #[trigger] phdrs[j].p_vaddr,
                )
                &&& spec_page_floor(phdrs[j].p_vaddr) + spec_vsize(phdrs[j]) <= measure_fold(
                    phdrs,
                    i,
                ).bounds.unwrap().1
            },
    decreases i,
{
    if i > 0 {
        lemma_measure_bounds(phdrs, i - 1);
        let ph = phdrs[i - 1];
        if ph.p_type == PT_LOAD {
            assert(spec_page_floor(ph.p_vaddr) % (PAGE_SIZE as int) == 0) by (nonlinear_arith);
            assert(spec_vsize(ph) % (PAGE_SIZE as int) == 0) by (nonlinear_arith);
            assert(spec_vsize(ph) >= 0) by (nonlinear_arith);
        }
    }
}

/// Measures one object: folds its program headers into `PT_LOAD` bounds and
/// the `PT_TLS` total.  Fails with `MapFailed` exactly when some computed
/// size or address does not fit in a 64-bit word.
pub fn measure_object(name: &str, phdrs: &Vec<Phdr>) -> (r: Result<ObjMeasure, LinkError>)
    ensures
        r is Ok <==> measure_fits(phdrs@),
        r matches Ok(m) ==> {
            &&& match (m.bounds, spec_measure(phdrs@).bounds) {
                (Some((lo, hi)), Some((slo, shi))) => lo == slo && hi == shi,
                (None, None) => true,
                _ => false,
            }
            &&& m.tls == spec_measure(phdrs@).tls
        },
        r matches Err(e) ==> e matches LinkError::MapFailed(n) && n@ == name@,
{
    let mut bounds: Option<(u64, u64)> = None;
    let mut tls: u64 = 0;
    let mut i: usize = 0;
    while i < phdrs.len()
        invariant
            i <= phdrs@.len(),
            forall|j: int|
                0 <= j < i && (phdrs@[j].p_type == PT_LOAD || phdrs@[j].p_type == PT_TLS)
                    ==> spec_vsize(#[trigger] phdrs@[j]) <= u64::MAX,
            forall|j: int|
                0 <= j < i && phdrs@[j].p_type == PT_LOAD ==> spec_page_floor(
                    #[trigger] phdrs@[j].p_vaddr,
                ) + spec_vsize(phdrs@[j]) <= u64::MAX,
            measure_fold(phdrs@, i as int).tls == tls,
            match (bounds, measure_fold(phdrs@, i as int).bounds) {
                (Some((lo, hi)), Some((slo, shi))) => lo == slo && hi == shi,
                (None, None) => true,
                _ => false,
            },
        decreases phdrs@.len() - i,
    {
        let ph = phdrs[i];
        if ph.p_type == PT_LOAD || ph.p_type == PT_TLS {
            let vsize = match crate::defs::vsize_of(&ph) {
                Some(v) => v,
                None => {
                    return Err(LinkError::MapFailed(name.to_owned()));
                },
            };
            if ph.p_type == PT_LOAD {
                let vaddr = crate::defs::page_floor_of(ph.p_vaddr);
                let end = match vaddr.checked_add(vsize) {
                    Some(v) => v,
                    None => {
                        return Err(LinkError::MapFailed(name.to_owned()));
                    },
                };
                bounds = match bounds {
                    Some((lo, hi)) => Some(
                        (if vaddr < lo { vaddr } else { lo }, if end > hi { end } else { hi }),
                    ),
                    None => Some((vaddr, end)),
                };
            } else {
                tls = match tls.checked_add(vsize) {
                    Some(v) => v,
                    None => {
                        proof {
                            lemma_measure_tls_monotone(phdrs@, i + 1, phdrs@.len() as int);
                        }
                        return Err(LinkError::MapFailed(name.to_owned()));
                    },
                };
            }
        }
        i = i + 1;
    }
    Ok(ObjMeasure { bounds, tls })
}

} // verus!
