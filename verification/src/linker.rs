//! The linker driver: object store, dependency bookkeeping and the phased
//! linking pipeline.
//!
//! `link` runs the strict multi-pass over the stored objects: parse and
//! measure every object, allocate page-aligned disjoint regions in the
//! modeled address space, build the global symbol table with the primary
//! object scanned first, allocate the TLS block and thread-control block,
//! copy segments, apply the first relocation pass and the W^X protections,
//! and hand back the image with the primary entry point and the deferred
//! `IRELATIVE` sites.

use vstd::prelude::*;
use crate::defs::{
    Phdr, LinkError, PAGE_SIZE, PROT_READ, PROT_WRITE, PT_LOAD, spec_page_floor, spec_vsize, wadd,
    wrapping_add64,
};
use crate::parse::{ObjView, ElfView, elf_ok, elf_view, parse_object};
use crate::layout::{measure_fits, spec_measure, measure_object, lemma_measure_bounds};
use crate::image::{
    MAP_BASE, MAP_END, spec_write_range, spec_le_bytes, spec_set_pages, spec_prot, store_u64_le,
    protect_pages, prot_of_flags,
};
use crate::symbols::{SymbolTable, spec_scan};
use crate::copy::{TlsSlot, CopyState, copy_fold, copy_object};
use crate::reloc::{IrelSite, rel_fold, relocate_object, lemma_rel_len};
use crate::defs::{DynSym, SymV};

verus! {

/// One stored object: raw file bytes under a logical name.
pub struct StoreEntry {
    pub name: String,
    pub data: Vec<u8>,
}

/// Ghost image of a store entry.
pub ghost struct ObjEntry {
    pub name: Seq<char>,
    pub data: Seq<u8>,
}

impl View for StoreEntry {
    type V = ObjEntry;

    open spec fn view(&self) -> ObjEntry {
        ObjEntry { name: self.name@, data: self.data@ }
    }
}

/// The parse view of a stored entry.
pub open spec fn ent_view(e: ObjEntry) -> ElfView {
    elf_view(e.data)
}

/// The page-rounded TLS contribution of a stored entry (0 when it does not
/// parse).
pub open spec fn ent_tls(e: ObjEntry) -> int {
    if elf_ok(e.data) {
        spec_measure(ent_view(e).phdrs).tls
    } else {
        0
    }
}

/// The summed TLS contributions of the first `i` entries.
pub open spec fn tls_sum(entries: Seq<ObjEntry>, i: int) -> int
    decreases i,
{
    if i <= 0 {
        0
    } else {
        tls_sum(entries, i - 1) + ent_tls(entries[i - 1])
    }
}

/// Each entry's contribution is at most the whole sum: the primary's TLS
/// never exceeds the total.
pub proof fn lemma_tls_sum_bounds(entries: Seq<ObjEntry>, i: int, k: int)
    requires
        0 <= k < i <= entries.len(),
        forall|j: int| 0 <= j < entries.len() ==> ent_tls(#[trigger] entries[j]) >= 0,
    ensures
        ent_tls(entries[k]) <= tls_sum(entries, i),
        tls_sum(entries, i) >= 0,
    decreases i,
{
    if k == i - 1 {
        lemma_tls_sum_nonneg(entries, i - 1);
    } else {
        lemma_tls_sum_bounds(entries, i - 1, k);
    }
}

/// TLS contributions are nonnegative, so the sum is.
pub proof fn lemma_tls_sum_nonneg(entries: Seq<ObjEntry>, i: int)
    requires
        0 <= i,
        forall|j: int| 0 <= j < i ==> ent_tls(#[trigger] entries[j]) >= 0,
    ensures
        tls_sum(entries, i) >= 0,
    decreases i,
{
    if i > 0 {
        lemma_tls_sum_nonneg(entries, i - 1);
    }
}

/// The TLS sum never shrinks as objects are added.
pub proof fn lemma_tls_sum_mono(entries: Seq<ObjEntry>, i: int, j: int)
    requires
        0 <= i <= j,
    ensures
        tls_sum(entries, i) <= tls_sum(entries, j),
    decreases j - i,
{
    if i < j {
        lemma_tls_sum_mono(entries, i, j - 1);
        lemma_ent_tls_nonneg(entries[j - 1]);
    }
}

/// A `PT_TLS` extent is nonnegative.
pub proof fn lemma_ent_tls_nonneg(e: ObjEntry)
    ensures
        ent_tls(e) >= 0,
{
    if elf_ok(e.data) {
        crate::layout::lemma_measure_tls_monotone(
            ent_view(e).phdrs,
            0,
            ent_view(e).phdrs.len() as int,
        );
    }
}

/// The copy fold restricted to the mapping: only `PT_LOAD` headers write,
/// so an object's mapped bytes do not depend on the TLS state.
pub open spec fn load_fold(mem: Seq<u8>, phdrs: Seq<Phdr>, i: int, data: Seq<u8>) -> Seq<u8>
    decreases i,
{
    if i <= 0 {
        mem
    } else {
        let prev = load_fold(mem, phdrs, i - 1, data);
        let ph = phdrs[i - 1];
        if ph.p_type == PT_LOAD && ph.p_offset + ph.p_filesz <= data.len() && ph.p_vaddr
            + ph.p_filesz <= prev.len() {
            spec_write_range(
                prev,
                ph.p_vaddr as int,
                data.subrange(ph.p_offset as int, ph.p_offset + ph.p_filesz),
            )
        } else {
            prev
        }
    }
}

/// On an error-free copy fold, the mapping holds exactly the `PT_LOAD`
/// fold, whatever the TLS state was.
pub proof fn lemma_copy_fold_mem(
    st0: CopyState,
    phdrs: Seq<Phdr>,
    i: int,
    data: Seq<u8>,
    is_primary: bool,
)
    requires
        0 <= i,
        !st0.err,
    ensures
        !copy_fold(st0, phdrs, i, data, is_primary).err ==> copy_fold(
            st0,
            phdrs,
            i,
            data,
            is_primary,
        ).mem == load_fold(st0.mem, phdrs, i, data),
    decreases i,
{
    if i > 0 {
        lemma_copy_fold_mem(st0, phdrs, i - 1, data, is_primary);
        crate::copy::lemma_copy_len(st0, phdrs, i - 1, data, is_primary);
    }
}

/// A primary object's TLS slot always has index 0.
pub proof fn lemma_primary_slot_index(
    st0: CopyState,
    phdrs: Seq<Phdr>,
    i: int,
    data: Seq<u8>,
)
    requires
        0 <= i,
        st0.slot is None,
    ensures
        copy_fold(st0, phdrs, i, data, true).slot matches Some((idx, _s, _l)) ==> idx == 0,
    decreases i,
{
    if i > 0 {
        lemma_primary_slot_index(st0, phdrs, i - 1, data);
    }
}

/// The per-page protections of one object after one finalizer pass.
pub open spec fn prot_fold(prots: Seq<u8>, phdrs: Seq<Phdr>, i: int) -> Seq<u8>
    decreases i,
{
    if i <= 0 {
        prots
    } else {
        let prev = prot_fold(prots, phdrs, i - 1);
        let ph = phdrs[i - 1];
        if ph.p_type == PT_LOAD {
            spec_set_pages(
                prev,
                spec_page_floor(ph.p_vaddr) / PAGE_SIZE as int,
                (spec_page_floor(ph.p_vaddr) + spec_vsize(ph)) / PAGE_SIZE as int,
                spec_prot(ph.p_flags),
            )
        } else {
            prev
        }
    }
}

/// Every page of a folded protection vector holds either its initial mask
/// or the W^X translation of some `PT_LOAD`'s flags.
pub proof fn lemma_prot_fold_cases(prots: Seq<u8>, phdrs: Seq<Phdr>, i: int)
    requires
        0 <= i,
    ensures
        forall|p: int|
            0 <= p < prots.len() ==> prot_fold(prots, phdrs, i)[p] == prots[p] || exists|j: int|
                0 <= j < i && phdrs[j].p_type == PT_LOAD && prot_fold(prots, phdrs, i)[p]
                    == spec_prot(#[trigger] phdrs[j].p_flags),
        prot_fold(prots, phdrs, i).len() == prots.len(),
    decreases i,
{
    if i > 0 {
        lemma_prot_fold_cases(prots, phdrs, i - 1);
        assert forall|p: int| 0 <= p < prots.len() implies prot_fold(prots, phdrs, i)[p]
            == prots[p] || exists|j: int|
            0 <= j < i && phdrs[j].p_type == PT_LOAD && prot_fold(prots, phdrs, i)[p] == spec_prot(
                #[trigger] phdrs[j].p_flags,
            ) by {
            let cur = prot_fold(prots, phdrs, i)[p];
            let prev = prot_fold(prots, phdrs, i - 1)[p];
            if cur == prev {
                if prev != prots[p] {
                    let j = choose|j: int|
                        0 <= j < i - 1 && phdrs[j].p_type == PT_LOAD && prot_fold(
                            prots,
                            phdrs,
                            i - 1,
                        )[p] == spec_prot(#[trigger] phdrs[j].p_flags);
                    assert(phdrs[j].p_type == PT_LOAD && cur == spec_prot(phdrs[j].p_flags));
                }
            } else {
                assert(phdrs[i - 1].p_type == PT_LOAD && cur == spec_prot(phdrs[i - 1].p_flags));
            }
        }
    }
}

/// Applies one protection-finalizer pass to an object's pages.
pub fn protect_object(prots: &mut Vec<u8>, phdrs: &Vec<Phdr>)
    requires
        forall|j: int|
            0 <= j < phdrs@.len() && phdrs@[j].p_type == PT_LOAD ==> spec_vsize(
                #[trigger] phdrs@[j],
            ) <= u64::MAX && spec_page_floor(phdrs@[j].p_vaddr) + spec_vsize(phdrs@[j]) <= old(
                prots,
            )@.len() * PAGE_SIZE && spec_page_floor(phdrs@[j].p_vaddr) + spec_vsize(phdrs@[j])
                <= u64::MAX,
    ensures
        final(prots)@ == prot_fold(old(prots)@, phdrs@, phdrs@.len() as int),
{
    let mut i: usize = 0;
    while i < phdrs.len()
        invariant
            i <= phdrs@.len(),
            forall|j: int|
                0 <= j < phdrs@.len() && phdrs@[j].p_type == PT_LOAD ==> spec_vsize(
                    #[trigger] phdrs@[j],
                ) <= u64::MAX && spec_page_floor(phdrs@[j].p_vaddr) + spec_vsize(phdrs@[j]) <= old(
                    prots,
                )@.len() * PAGE_SIZE && spec_page_floor(phdrs@[j].p_vaddr) + spec_vsize(phdrs@[j])
                    <= u64::MAX,
            prots@ == prot_fold(old(prots)@, phdrs@, i as int),
            prots@.len() == old(prots)@.len(),
        decreases phdrs@.len() - i,
    {
        let ph = phdrs[i];
        if ph.p_type == PT_LOAD {
            let vaddr = crate::defs::page_floor_of(ph.p_vaddr);
            let vsize = match crate::defs::vsize_of(&ph) {
                Some(v) => v,
                None => {
                    proof {
                        assert(false);
                    }
                    0
                },
            };
            let prot = prot_of_flags(ph.p_flags);
            protect_pages(prots, vaddr, vsize, prot);
        }
        i = i + 1;
    }
}

/// Makes a vector of `n` copies of `b`.
pub fn filled(n: usize, b: u8) -> (r: Vec<u8>)
    ensures
        r@ == Seq::new(n as nat, |i: int| b),
{
    let mut r: Vec<u8> = Vec::new();
    let mut i: usize = 0;
    while i < n
        invariant
            i <= n,
            r@ == Seq::new(i as nat, |k: int| b),
        decreases n - i,
    {
        r.push(b);
        proof {
            assert(r@ =~= Seq::new((i + 1) as nat, |k: int| b));
        }
        i = i + 1;
    }
    r
}

/// One mapped object of the finished image.
pub struct MappedObject {
    /// The object's logical name.
    pub name: String,
    /// Base address of its region in the modeled address space.
    pub base: u64,
    /// The mapped bytes; `p_vaddr` values index it directly.
    pub mem: Vec<u8>,
    /// One W^X protection mask per page of `mem`.
    pub prots: Vec<u8>,
    /// The object's program headers, kept for re-protection.
    pub phdrs: Vec<Phdr>,
    /// The object's TLS assignment, if a `PT_TLS` was placed.
    pub tls: Option<TlsSlot>,
}

/// The TLS block shared by all objects, with its thread-control block.
pub struct TlsBlock {
    /// Base address of the TLS buffer.
    pub base: u64,
    /// The TLS bytes.
    pub mem: Vec<u8>,
    /// The thread-control block page; its first word holds the thread
    /// pointer.
    pub tcb: Vec<u8>,
    /// The installed thread pointer: the end address of the TLS buffer.
    pub thread_ptr: u64,
}

/// The finished image of a link run.
pub struct LinkImage {
    /// One slot per stored object, in store order; `None` for objects with
    /// no `PT_LOAD`.
    pub objects: Vec<Option<MappedObject>>,
    /// The TLS arrangement.
    pub tls: TlsBlock,
    /// The global symbol table, primary-first.
    pub globals: SymbolTable,
    /// The primary object's entry address.
    pub entry: u64,
    /// Relocation types that were skipped, in order of encounter.
    pub unsupported: Vec<u32>,
    /// Deferred indirect relocations: store index and site.
    pub irelative: Vec<(usize, IrelSite)>,
}

impl LinkImage {
    /// Well-formed: every recorded site points into its mapped object, and
    /// every mapped object's pages can be re-protected.
    pub open spec fn wf(&self) -> bool {
        &&& forall|k: int|
            0 <= k < self.irelative@.len() ==> {
                let (oi, site) = #[trigger] self.irelative@[k];
                &&& oi < self.objects@.len()
                &&& self.objects@[oi as int] is Some
                &&& site.offset + 8 <= self.objects@[oi as int].unwrap().mem@.len()
            }
        &&& forall|i: int|
            0 <= i < self.objects@.len() && self.objects@[i] is Some ==> {
                let mo = #[trigger] self.objects@[i].unwrap();
                &&& mo.prots@.len() * PAGE_SIZE == mo.mem@.len()
                &&& forall|j: int|
                    0 <= j < mo.phdrs@.len() && mo.phdrs@[j].p_type == PT_LOAD ==> spec_vsize(
                        #[trigger] mo.phdrs@[j],
                    ) <= u64::MAX && spec_page_floor(mo.phdrs@[j].p_vaddr) + spec_vsize(
                        mo.phdrs@[j],
                    ) <= mo.prots@.len() * PAGE_SIZE && spec_page_floor(mo.phdrs@[j].p_vaddr)
                        + spec_vsize(mo.phdrs@[j]) <= u64::MAX
            }
    }

    /// Finds the mapped object of a given name, for inspection.
    pub fn find(&self, name: &str) -> (r: Option<&MappedObject>)
        ensures
            match r {
                Some(mo) => exists|i: int|
                    0 <= i < self.objects@.len() && #[trigger] self.objects@[i] is Some
                        && self.objects@[i].unwrap().name@ == name@ && *mo
                        == self.objects@[i].unwrap(),
                None => forall|i: int|
                    0 <= i < self.objects@.len() && #[trigger] self.objects@[i] is Some
                        ==> self.objects@[i].unwrap().name@ != name@,
            },
    {
        let name_s = name.to_owned();
        let mut i: usize = 0;
        while i < self.objects.len()
            invariant
                i <= self.objects@.len(),
                name_s@ == name@,
                forall|j: int|
                    0 <= j < i && #[trigger] self.objects@[j] is Some
                        ==> self.objects@[j].unwrap().name@ != name@,
            decreases self.objects@.len() - i,
        {
            match &self.objects[i] {
                Some(mo) => {
                    if mo.name == name_s {
                        proof {
                            assert(self.objects@[i as int] is Some);
                            assert(self.objects@[i as int].unwrap().name@ == name@);
                        }
                        return Some(mo);
                    }
                },
                None => {},
            }
            i = i + 1;
        }
        None
    }

    /// Writes an `IRELATIVE` resolver's returned value at its recorded
    /// site, then re-applies the protection finalizer to that object, as
    /// the second relocation pass requires.
    #[verifier::rlimit(100)]
    pub fn apply_irelative(&mut self, k: usize, value: u64)
        requires
            old(self).wf(),
            k < old(self).irelative@.len(),
        ensures
            final(self).wf(),
            ({
                let (oi, site) = old(self).irelative@[k as int];
                let mo = old(self).objects@[oi as int].unwrap();
                &&& final(self).objects@.len() == old(self).objects@.len()
                &&& (final(self).objects@[oi as int] matches Some(m2) && (m2.mem@
                    == spec_write_range(mo.mem@, site.offset as int, spec_le_bytes(value))
                    && m2.prots@ == prot_fold(mo.prots@, mo.phdrs@, mo.phdrs@.len() as int)
                    && m2.name == mo.name && m2.base == mo.base && m2.phdrs == mo.phdrs && m2.tls
                    == mo.tls))
                &&& forall|i: int|
                    0 <= i < old(self).objects@.len() && i != oi ==> final(self).objects@[i] == old(
                        self,
                    ).objects@[i]
                &&& final(self).tls == old(self).tls && final(self).globals == old(self).globals
                    && final(self).entry == old(self).entry && final(self).unsupported == old(
                    self,
                ).unsupported && final(self).irelative == old(self).irelative
            }),
    {
        let (oi, site) = self.irelative[k];
        let mo_opt = self.objects.remove(oi);
        proof {
            assert(mo_opt == old(self).objects@[oi as int]);
        }
        let mut m = mo_opt.unwrap();
        proof {
            assert(m == old(self).objects@[oi as int].unwrap());
            assert(site.offset + 8 <= m.mem@.len());
        }
        let ghost m0 = m;
        let ml: usize = m.mem.len();
        proof {
            assert(site.offset + 8 <= ml);
        }
        store_u64_le(&mut m.mem, site.offset as usize, value);
        proof {
            assert(m.mem@ == spec_write_range(m0.mem@, site.offset as int, spec_le_bytes(value)));
            assert(m.mem@.len() == m0.mem@.len());
        }
        protect_object(&mut m.prots, &m.phdrs);
        proof {
            lemma_prot_fold_cases(m0.prots@, m0.phdrs@, m0.phdrs@.len() as int);
        }
        let ghost mfin = m;
        self.objects.insert(oi, Some(m));
        proof {
            let pre = old(self).objects@;
            assert(self.objects@ =~= pre.update(oi as int, Some(mfin))) by {
                assert(self.objects@.len() == pre.len());
                assert forall|j: int|
                    0 <= j < pre.len() implies self.objects@[j] == pre.update(
                    oi as int,
                    Some(mfin),
                )[j] by {
                    if j < oi as int {
                        assert(self.objects@[j] == pre.remove(oi as int)[j]);
                    } else if j == oi as int {
                    } else {
                        assert(self.objects@[j] == pre.remove(oi as int)[j - 1]);
                        assert(pre.remove(oi as int)[j - 1] == pre[j]);
                    }
                }
            }
            assert(self.objects@[oi as int] == Some(mfin));
            assert forall|i: int|
                0 <= i < self.objects@.len() && i != oi ==> self.objects@[i] == old(
                    self,
                ).objects@[i] by {}
            assert(mfin.mem@.len() == old(self).objects@[oi as int].unwrap().mem@.len());
            assert(mfin.prots@.len() == old(
                self,
            ).objects@[oi as int].unwrap().prots@.len());
            assert(mfin.phdrs == old(self).objects@[oi as int].unwrap().phdrs);
            assert(final(self).wf()) by {
                assert forall|k2: int| 0 <= k2 < self.irelative@.len() implies {
                    let (oi2, site2) = #[trigger] self.irelative@[k2];
                    &&& oi2 < self.objects@.len()
                    &&& self.objects@[oi2 as int] is Some
                    &&& site2.offset + 8 <= self.objects@[oi2 as int].unwrap().mem@.len()
                } by {
                    let (oi2, site2) = self.irelative@[k2];
                    assert(old(self).irelative@[k2] == self.irelative@[k2]);
                    if oi2 as int == oi as int {
                        assert(self.objects@[oi2 as int] == Some(mfin));
                    } else {
                        assert(self.objects@[oi2 as int] == old(self).objects@[oi2 as int]);
                    }
                }
                assert forall|i: int|
                    0 <= i < self.objects@.len() && self.objects@[i] is Some implies {
                    let mo2 = #[trigger] self.objects@[i].unwrap();
                    &&& mo2.prots@.len() * PAGE_SIZE == mo2.mem@.len()
                    &&& forall|j: int|
                        0 <= j < mo2.phdrs@.len() && mo2.phdrs@[j].p_type == PT_LOAD
                            ==> spec_vsize(#[trigger] mo2.phdrs@[j]) <= u64::MAX
                            && spec_page_floor(mo2.phdrs@[j].p_vaddr) + spec_vsize(mo2.phdrs@[j])
                            <= mo2.prots@.len() * PAGE_SIZE && spec_page_floor(
                            mo2.phdrs@[j].p_vaddr,
                        ) + spec_vsize(mo2.phdrs@[j]) <= u64::MAX
                } by {
                    if i == oi as int {
                        assert(self.objects@[i] == Some(mfin));
                    } else {
                        assert(self.objects@[i] == old(self).objects@[i]);
                    }
                }
            }
        }
    }
}


/// Outcome of ingesting one object's bytes.
pub enum LoadOutcome {
    /// All needed libraries were present; the object is stored.
    Loaded,
    /// These needed libraries are absent; the caller loads them, then
    /// hands the same bytes back.  The store is unchanged.
    Missing(Vec<String>),
}

/// The needed libraries among the first `i` that are absent from `names`.
pub open spec fn spec_missing(libs: Seq<Seq<char>>, names: Seq<Seq<char>>, i: int) -> Seq<
    Seq<char>,
>
    decreases i,
{
    if i <= 0 {
        Seq::empty()
    } else {
        let prev = spec_missing(libs, names, i - 1);
        if names.contains(libs[i - 1]) {
            prev
        } else {
            prev.push(libs[i - 1])
        }
    }
}

/// The dynamic loader: a search path and the object store.
pub struct Linker {
    /// The search path handed to `new`.
    pub library_path: String,
    /// Stored objects in insertion order, names unique.
    pub objects: Vec<StoreEntry>,
}

impl Linker {
    /// The stored entries, as mathematical values, in insertion order.
    pub open spec fn entries(&self) -> Seq<ObjEntry> {
        self.objects@.map_values(|e: StoreEntry| e@)
    }

    /// The stored names, in insertion order.
    pub open spec fn names(&self) -> Seq<Seq<char>> {
        self.entries().map_values(|e: ObjEntry| e.name)
    }

    /// Names are unique: each object is stored exactly once.
    pub open spec fn wf_names(&self) -> bool {
        forall|i: int, j: int|
            0 <= i < j < self.names().len() ==> self.names()[i] != self.names()[j]
    }

    /// Dependency closure: every stored object parses, and every library
    /// it needs is stored too.
    pub open spec fn dep_closed(&self) -> bool {
        forall|i: int|
            0 <= i < self.entries().len() ==> elf_ok(#[trigger] self.entries()[i].data)
                && forall|l: int|
                0 <= l < ent_view(self.entries()[i]).libs.len() ==> self.names().contains(
                    #[trigger] ent_view(self.entries()[i]).libs[l],
                )
    }

    /// Well-formed: unique names and a closed dependency set.
    pub open spec fn wf(&self) -> bool {
        self.wf_names() && self.dep_closed()
    }

    /// Constructs a loader over a search path, with an empty store.
    pub fn new(library_path: &str) -> (r: Linker)
        ensures
            r.library_path@ == library_path@,
            r.entries() =~= Seq::<ObjEntry>::empty(),
            r.wf(),
    {
        Linker { library_path: library_path.to_owned(), objects: Vec::new() }
    }

    /// Whether an object is stored under `name`.
    pub fn contains(&self, name: &str) -> (r: bool)
        ensures
            r == self.names().contains(name@),
    {
        let name_s = name.to_owned();
        let mut i: usize = 0;
        while i < self.objects.len()
            invariant
                i <= self.objects@.len(),
                name_s@ == name@,
                forall|j: int| 0 <= j < i ==> self.names()[j] != name@,
            decreases self.objects@.len() - i,
        {
            if self.objects[i].name == name_s {
                proof {
                    assert(self.names()[i as int] == name@);
                }
                return true;
            }
            i = i + 1;
        }
        proof {
            if self.names().contains(name@) {
                let j = choose|j: int| 0 <= j < self.names().len() && self.names()[j] == name@;
                assert(false);
            }
        }
        false
    }

    /// The ordered candidate paths for a library name over the search
    /// path.
    pub fn candidate_paths(&self, name: &str) -> (r: Vec<String>)
        ensures
            r.deep_view() == crate::paths::spec_candidates(self.library_path@, name@),
    {
        let parts = crate::paths::split_string(self.library_path.as_str(), crate::paths::PATH_SEP);
        let mut out: Vec<String> = Vec::new();
        let mut i: usize = 0;
        while i < parts.len()
            invariant
                i <= parts@.len(),
                out@.len() == i,
                parts.deep_view() == crate::paths::spec_split(self.library_path@, crate::paths::PATH_SEP),
                out.deep_view() =~= parts.deep_view().take(i as int).map_values(
                    |p: Seq<char>| crate::paths::spec_candidate(p, name@),
                ),
            decreases parts@.len() - i,
        {
            let c = crate::paths::candidate(&parts[i], name);
            proof {
                assert(parts[i as int]@ == parts.deep_view()[i as int]);
            }
            out.push(c);
            proof {
                let goal = parts.deep_view().take(i + 1).map_values(
                    |p: Seq<char>| crate::paths::spec_candidate(p, name@),
                );
                assert(out@.len() == i + 1);
                assert(out.deep_view().len() == out@.len());
                assert(parts.deep_view().len() == parts@.len());
                assert(parts.deep_view().take(i + 1).len() == i + 1);
                assert(goal.len() == i + 1);
                assert forall|w: int| 0 <= w < goal.len() implies out.deep_view()[w] == goal[w] by {
                    if w < i as int {
                        assert(out.deep_view()[w] == parts.deep_view().take(i as int).map_values(
                            |p: Seq<char>| crate::paths::spec_candidate(p, name@),
                        )[w]);
                    } else {
                        assert(out@[w] == c);
                    }
                }
                assert(out.deep_view() =~~= goal);
            }
            i = i + 1;
        }
        proof {
            assert(parts.deep_view().take(parts.deep_view().len() as int) =~= parts.deep_view());
            assert(out.deep_view() =~~= crate::paths::spec_candidates(self.library_path@, name@));
        }
        out
    }

    /// Ingests one object's bytes under `name`: parses them, and stores
    /// them once every needed library is present.  Fails with
    /// `ParseFailed` exactly when the parser rejects the bytes; otherwise,
    /// if some needed library is absent, hands the missing names back in
    /// table order and stores nothing.  Storing is idempotent: bytes
    /// already stored under `name` are kept as they are.
    pub fn load_data(&mut self, name: &str, data: Vec<u8>) -> (r: Result<LoadOutcome, LinkError>)
        ensures
            r is Err <==> !elf_ok(data@),
            r matches Err(e) ==> e matches LinkError::ParseFailed(n) && n@ == name@
                && *final(self) == *old(self),
            r matches Ok(o) ==> match o {
                LoadOutcome::Loaded => {
                    &&& spec_missing(
                        ent_view(ObjEntry { name: name@, data: data@ }).libs,
                        old(self).names(),
                        ent_view(ObjEntry { name: name@, data: data@ }).libs.len() as int,
                    ) =~= Seq::<Seq<char>>::empty()
                    &&& final(self).entries() == if old(self).names().contains(name@) {
                        old(self).entries()
                    } else {
                        old(self).entries().push(ObjEntry { name: name@, data: data@ })
                    }
                    &&& final(self).library_path == old(self).library_path
                },
                LoadOutcome::Missing(ms) => {
                    &&& ms.deep_view() =~= spec_missing(
                        ent_view(ObjEntry { name: name@, data: data@ }).libs,
                        old(self).names(),
                        ent_view(ObjEntry { name: name@, data: data@ }).libs.len() as int,
                    )
                    &&& ms.deep_view().len() > 0
                    &&& *final(self) == *old(self)
                },
            },
            old(self).wf() ==> final(self).wf(),
    {
        let view = match parse_object(name, &data) {
            Ok(v) => v,
            Err(e) => {
                return Err(e);
            },
        };
        let ghost libs = ent_view(ObjEntry { name: name@, data: data@ }).libs;
        let mut missing: Vec<String> = Vec::new();
        let mut l: usize = 0;
        while l < view.libs.len()
            invariant
                l <= view.libs@.len(),
                view.libs.deep_view() == libs,
                missing.deep_view() =~= spec_missing(libs, self.names(), l as int),
                *self == *old(self),
            decreases view.libs@.len() - l,
        {
            let lib = &view.libs[l];
            proof {
                assert(lib@ == libs[l as int]);
            }
            if !self.contains(lib.as_str()) {
                missing.push(lib.clone());
                proof {
                    assert(missing.deep_view() =~~= spec_missing(libs, self.names(), l + 1));
                }
            }
            l = l + 1;
        }
        if missing.len() > 0 {
            return Ok(LoadOutcome::Missing(missing));
        }
        proof {
            lemma_missing_empty(libs, self.names(), libs.len() as int);
        }
        if !self.contains(name) {
            self.objects.push(StoreEntry { name: name.to_owned(), data });
            proof {
                assert(self.entries() =~= old(self).entries().push(
                    ObjEntry { name: name@, data: data@ },
                ));
                if old(self).wf() {
                    lemma_wf_push(*old(self), *self, ObjEntry { name: name@, data: data@ });
                }
            }
        }
        Ok(LoadOutcome::Loaded)
    }
}

/// An empty missing-list means every needed library is present.
pub proof fn lemma_missing_empty(libs: Seq<Seq<char>>, names: Seq<Seq<char>>, i: int)
    requires
        0 <= i,
        spec_missing(libs, names, i).len() == 0,
    ensures
        forall|l: int| 0 <= l < i ==> names.contains(#[trigger] libs[l]),
    decreases i,
{
    if i > 0 {
        assert(spec_missing(libs, names, i - 1).len() == 0);
        lemma_missing_empty(libs, names, i - 1);
    }
}

/// Pushing a parsed object whose needed libraries are all present, under a
/// fresh name, preserves well-formedness.
pub proof fn lemma_wf_push(pre: Linker, post: Linker, e: ObjEntry)
    requires
        post.entries() == pre.entries().push(e),
        !pre.names().contains(e.name),
        elf_ok(e.data),
        forall|l: int|
            0 <= l < ent_view(e).libs.len() ==> pre.names().contains(#[trigger] ent_view(e).libs[l]),
        pre.wf(),
    ensures
        post.wf(),
{
    assert(post.names() =~= pre.names().push(e.name));
    assert forall|i: int, j: int|
        0 <= i < j < post.names().len() implies post.names()[i] != post.names()[j] by {
        if j < post.names().len() - 1 {
            assert(pre.names()[i] == post.names()[i]);
            assert(pre.names()[j] == post.names()[j]);
        } else {
            assert(post.names()[j] == e.name);
            assert(pre.names()[i] == post.names()[i]);
            assert(pre.names().contains(pre.names()[i]));
        }
    }
    assert forall|i: int|
        0 <= i < post.entries().len() implies elf_ok(#[trigger] post.entries()[i].data) && forall|
        l: int,
    |
        0 <= l < ent_view(post.entries()[i]).libs.len() ==> post.names().contains(
            #[trigger] ent_view(post.entries()[i]).libs[l],
        ) by {
        let cur = post.entries()[i];
        if i < post.entries().len() - 1 {
            assert(cur == pre.entries()[i]);
            assert(elf_ok(cur.data));
            assert forall|l: int|
                0 <= l < ent_view(cur).libs.len() implies post.names().contains(
                #[trigger] ent_view(cur).libs[l],
            ) by {
                assert(pre.names().contains(ent_view(cur).libs[l]));
                let w = choose|w: int|
                    0 <= w < pre.names().len() && pre.names()[w] == ent_view(cur).libs[l];
                assert(post.names()[w] == ent_view(cur).libs[l]);
            }
        } else {
            assert(cur == e);
            assert forall|l: int|
                0 <= l < ent_view(cur).libs.len() implies post.names().contains(
                #[trigger] ent_view(cur).libs[l],
            ) by {
                let w = choose|w: int|
                    0 <= w < pre.names().len() && pre.names()[w] == ent_view(cur).libs[l];
                assert(post.names()[w] == ent_view(cur).libs[l]);
            }
        }
    }
}


/// Copies a byte vector.
fn clone_bytes(v: &Vec<u8>) -> (r: Vec<u8>)
    ensures
        r@ == v@,
{
    let mut r: Vec<u8> = Vec::new();
    let mut i: usize = 0;
    while i < v.len()
        invariant
            i <= v@.len(),
            r@ == v@.take(i as int),
        decreases v@.len() - i,
    {
        r.push(v[i]);
        proof {
            assert(r@ =~= v@.take(i + 1));
        }
        i = i + 1;
    }
    proof {
        assert(v@.take(v@.len() as int) =~= v@);
    }
    r
}

/// Copies a program-header vector.
fn clone_phdrs(v: &Vec<Phdr>) -> (r: Vec<Phdr>)
    ensures
        r@ == v@,
{
    let mut r: Vec<Phdr> = Vec::new();
    let mut i: usize = 0;
    while i < v.len()
        invariant
            i <= v@.len(),
            r@ == v@.take(i as int),
        decreases v@.len() - i,
    {
        r.push(v[i]);
        proof {
            assert(r@ =~= v@.take(i + 1));
        }
        i = i + 1;
    }
    proof {
        assert(v@.take(v@.len() as int) =~= v@);
    }
    r
}

/// The first stored index holding `name`, among the first `i` entries.
pub open spec fn spec_find(entries: Seq<ObjEntry>, name: Seq<char>, i: int) -> Option<int>
    decreases i,
{
    if i <= 0 {
        None
    } else {
        match spec_find(entries, name, i - 1) {
            Some(p) => Some(p),
            None => if entries[i - 1].name == name {
                Some(i - 1)
            } else {
                None
            },
        }
    }
}

/// The global map contributed by one stored object, when it is mapped.
pub open spec fn spec_scan_entry(
    m: Map<Seq<char>, u64>,
    e: ObjEntry,
    base: Option<u64>,
) -> Map<Seq<char>, u64> {
    match base {
        Some(b) => spec_scan(m, b, ent_view(e).syms, ent_view(e).syms.len() as int),
        None => m,
    }
}

/// The global map after scanning the first `i` non-primary objects in
/// store order on top of `m`.
pub open spec fn spec_globals_others(
    m: Map<Seq<char>, u64>,
    entries: Seq<ObjEntry>,
    bases: Seq<Option<u64>>,
    pidx: int,
    i: int,
) -> Map<Seq<char>, u64>
    decreases i,
{
    if i <= 0 {
        m
    } else {
        let prev = spec_globals_others(m, entries, bases, pidx, i - 1);
        if i - 1 == pidx {
            prev
        } else {
            spec_scan_entry(prev, entries[i - 1], bases[i - 1])
        }
    }
}

/// The process-global symbol map: the primary object scanned first, then
/// every other mapped object in store order, insertion first-wins.
pub open spec fn spec_globals(
    entries: Seq<ObjEntry>,
    bases: Seq<Option<u64>>,
    pidx: Option<int>,
) -> Map<Seq<char>, u64> {
    let p: int = match pidx {
        Some(p) => p,
        None => -1,
    };
    let m0: Map<Seq<char>, u64> = if 0 <= p < entries.len() && 0 <= p < bases.len() {
        spec_scan_entry(Map::empty(), entries[p], bases[p])
    } else {
        Map::empty()
    };
    spec_globals_others(m0, entries, bases, p, entries.len() as int)
}

/// Whether a stored object gets a mapping: it parses and has at least one
/// `PT_LOAD`.
pub open spec fn ent_mapped(e: ObjEntry) -> bool {
    elf_ok(e.data) && spec_measure(ent_view(e).phdrs).bounds is Some
}

/// The size of a stored object's mapping: the upper bound of its
/// page-rounded `PT_LOAD` spans (`lo` is not subtracted).
pub open spec fn ent_hi(e: ObjEntry) -> int {
    spec_measure(ent_view(e).phdrs).bounds.unwrap().1
}

/// An object's mapped bytes after copy and first relocation pass: the
/// `PT_LOAD` images written into a zeroed mapping, then the relocation
/// fold over it.
pub open spec fn spec_obj_mem(
    e: ObjEntry,
    g: Map<Seq<char>, u64>,
    base: u64,
    t: u64,
) -> crate::reloc::RelState {
    rel_fold(
        load_fold(
            Seq::new(ent_hi(e) as nat, |p: int| 0u8),
            ent_view(e).phdrs,
            ent_view(e).phdrs.len() as int,
            e.data,
        ),
        ent_view(e).relocs,
        ent_view(e).relocs.len() as int,
        ent_view(e).syms,
        g,
        base,
        t,
    )
}

/// Summed mapping sizes of the mapped objects among the first `i`.
pub open spec fn total_mapped(entries: Seq<ObjEntry>, i: int) -> int
    decreases i,
{
    if i <= 0 {
        0
    } else {
        total_mapped(entries, i - 1) + if ent_mapped(entries[i - 1]) {
            ent_hi(entries[i - 1])
        } else {
            0
        }
    }
}

/// The model base address the allocator hands object `i`: the mapped
/// objects before it, laid out back to back from `MAP_BASE`.
pub open spec fn obj_base(entries: Seq<ObjEntry>, i: int) -> int {
    MAP_BASE + total_mapped(entries, i)
}

/// The whole base table the allocator hands out.
pub open spec fn spec_bases(entries: Seq<ObjEntry>) -> Seq<Option<u64>> {
    Seq::new(
        entries.len(),
        |i: int|
            if ent_mapped(entries[i]) {
                Some(obj_base(entries, i) as u64)
            } else {
                None
            },
    )
}

/// One mapped size is nonnegative.
pub proof fn lemma_ent_hi_nonneg(e: ObjEntry)
    ensures
        ent_mapped(e) ==> ent_hi(e) >= 0,
{
    if ent_mapped(e) {
        crate::layout::lemma_measure_bounds(ent_view(e).phdrs, ent_view(e).phdrs.len() as int);
    }
}

/// Mapped sizes are nonnegative, so the running total never shrinks.
pub proof fn lemma_total_mapped_mono(entries: Seq<ObjEntry>, i: int, j: int)
    requires
        0 <= i <= j,
    ensures
        total_mapped(entries, i) <= total_mapped(entries, j),
        total_mapped(entries, i) >= 0,
    decreases j,
{
    if i < j {
        lemma_total_mapped_mono(entries, i, j - 1);
        lemma_ent_hi_nonneg(entries[j - 1]);
    } else if i > 0 {
        lemma_total_mapped_mono(entries, i - 1, i - 1);
        lemma_ent_hi_nonneg(entries[i - 1]);
    }
}

/// The primary object's TLS contribution (0 when there is no primary).
pub open spec fn tls_primary_of(entries: Seq<ObjEntry>, pidx: Option<int>) -> int {
    match pidx {
        Some(p) => if 0 <= p < entries.len() {
            ent_tls(entries[p])
        } else {
            0
        },
        None => 0,
    }
}

/// The TLS state threaded through the copy pass: the shared buffer, the
/// running offset below the top, the index counter, and whether a copy
/// fold has failed.
pub ghost struct TlsThread {
    pub tls: Seq<u8>,
    pub off: int,
    pub idx: int,
    pub err: bool,
}

/// The copy fold's starting state for one object: its zeroed mapping and
/// the threaded TLS state.
pub open spec fn copy_st0(th: TlsThread, e: ObjEntry) -> CopyState {
    CopyState {
        mem: Seq::new(ent_hi(e) as nat, |p: int| 0u8),
        tls: th.tls,
        off: th.off,
        idx: th.idx,
        slot: None,
        err: false,
    }
}

/// Whether object `i` is the primary: the first stored entry of that name.
pub open spec fn is_primary_at(entries: Seq<ObjEntry>, primary: Seq<char>, i: int) -> bool {
    spec_find(entries, primary, entries.len() as int) == Some(i)
}

/// The TLS thread after the copy pass has visited the first `i` objects:
/// a zeroed buffer of the summed size, offset starting at the primary's
/// contribution, each mapped object folding its segments in turn.
pub open spec fn copy_objs(entries: Seq<ObjEntry>, primary: Seq<char>, i: int) -> TlsThread
    decreases i,
{
    if i <= 0 {
        TlsThread {
            tls: Seq::new(tls_sum(entries, entries.len() as int) as nat, |p: int| 0u8),
            off: tls_primary_of(entries, spec_find(entries, primary, entries.len() as int)),
            idx: 0,
            err: false,
        }
    } else {
        let prev = copy_objs(entries, primary, i - 1);
        let e = entries[i - 1];
        if prev.err || !ent_mapped(e) {
            prev
        } else {
            let c = copy_fold(
                copy_st0(prev, e),
                ent_view(e).phdrs,
                ent_view(e).phdrs.len() as int,
                e.data,
                is_primary_at(entries, primary, i - 1),
            );
            TlsThread { tls: c.tls, off: c.off, idx: c.idx, err: c.err }
        }
    }
}

/// A copy failure stands to the end of the pass.
pub proof fn lemma_copy_objs_sticky(entries: Seq<ObjEntry>, primary: Seq<char>, i: int, j: int)
    requires
        0 <= i <= j,
        copy_objs(entries, primary, i).err,
    ensures
        copy_objs(entries, primary, j).err,
    decreases j - i,
{
    if i < j {
        lemma_copy_objs_sticky(entries, primary, i, j - 1);
    }
}

/// Whether the copy pass fails first at object `i`.
pub open spec fn obj_copy_err(entries: Seq<ObjEntry>, primary: Seq<char>, i: int) -> bool {
    &&& ent_mapped(entries[i])
    &&& !copy_objs(entries, primary, i).err
    &&& copy_fold(
        copy_st0(copy_objs(entries, primary, i), entries[i]),
        ent_view(entries[i]).phdrs,
        ent_view(entries[i]).phdrs.len() as int,
        entries[i].data,
        is_primary_at(entries, primary, i),
    ).err
}

/// The TLS slot the copy pass records for object `i`.
pub open spec fn obj_slot(entries: Seq<ObjEntry>, primary: Seq<char>, i: int) -> Option<
    (int, int, int),
> {
    if ent_mapped(entries[i]) && !copy_objs(entries, primary, i).err {
        copy_fold(
            copy_st0(copy_objs(entries, primary, i), entries[i]),
            ent_view(entries[i]).phdrs,
            ent_view(entries[i]).phdrs.len() as int,
            entries[i].data,
            is_primary_at(entries, primary, i),
        ).slot
    } else {
        None
    }
}

/// Object `i`'s TLS-offset parameter `T`: its slot start, or 0 without a
/// slot.
pub open spec fn obj_t(entries: Seq<ObjEntry>, primary: Seq<char>, i: int) -> u64 {
    match obj_slot(entries, primary, i) {
        Some((_idx, start, _len)) => start as u64,
        None => 0,
    }
}

/// The process-global symbol map over the model base table.
pub open spec fn globals_all(entries: Seq<ObjEntry>, primary: Seq<char>) -> Map<Seq<char>, u64> {
    spec_globals(entries, spec_bases(entries), spec_find(entries, primary, entries.len() as int))
}

/// The relocation outcome of object `i`: its copied mapping folded under
/// the model symbol map, base and TLS offset.
pub open spec fn obj_rel(entries: Seq<ObjEntry>, primary: Seq<char>, i: int) -> crate::reloc::RelState {
    spec_obj_mem(
        entries[i],
        globals_all(entries, primary),
        obj_base(entries, i) as u64,
        obj_t(entries, primary, i),
    )
}

/// Every stored object parses and measures within machine bounds.
pub open spec fn phase_parse_ok(entries: Seq<ObjEntry>) -> bool {
    forall|i: int|
        0 <= i < entries.len() ==> elf_ok(#[trigger] entries[i].data) && measure_fits(
            ent_view(entries[i]).phdrs,
        )
}

/// Every mapping is nonempty and fits in the model address space.
pub open spec fn phase_alloc_ok(entries: Seq<ObjEntry>) -> bool {
    forall|i: int|
        0 <= i < entries.len() && ent_mapped(#[trigger] entries[i]) ==> ent_hi(entries[i]) != 0
            && obj_base(entries, i) + ent_hi(entries[i]) <= MAP_END
}

/// The TLS block fits: its summed size is a machine word and it, with the
/// trailing TCB page, fits above the mappings.
pub open spec fn phase_tls_ok(entries: Seq<ObjEntry>) -> bool {
    &&& tls_sum(entries, entries.len() as int) <= u64::MAX
    &&& MAP_BASE + total_mapped(entries, entries.len() as int) + tls_sum(
        entries,
        entries.len() as int,
    ) + PAGE_SIZE <= MAP_END
}

/// Every copy fold succeeds.
pub open spec fn phase_copy_ok(entries: Seq<ObjEntry>, primary: Seq<char>) -> bool {
    !copy_objs(entries, primary, entries.len() as int).err
}

/// Every relocation fold succeeds.
pub open spec fn phase_rel_ok(entries: Seq<ObjEntry>, primary: Seq<char>) -> bool {
    forall|i: int|
        0 <= i < entries.len() && ent_mapped(#[trigger] entries[i]) ==> obj_rel(
            entries,
            primary,
            i,
        ).err is None
}

/// When linking is owed success: every phase of the pipeline goes through
/// and the primary is stored and mapped.
pub open spec fn link_good(lk: Linker, primary: Seq<char>) -> bool {
    let entries = lk.entries();
    &&& phase_parse_ok(entries)
    &&& phase_alloc_ok(entries)
    &&& phase_tls_ok(entries)
    &&& phase_copy_ok(entries, primary)
    &&& phase_rel_ok(entries, primary)
    &&& exists|p: int|
        0 <= p < entries.len() && (#[trigger] entries[p]).name == primary && ent_mapped(entries[p])
}

/// The base table of an assembled image.
pub open spec fn bases_of(objs: Seq<Option<MappedObject>>) -> Seq<Option<u64>> {
    objs.map_values(
        |o: Option<MappedObject>| match o {
            Some(mo) => Some(mo.base),
            None => None,
        },
    )
}

/// What a successful link guarantees of the image.
pub open spec fn link_ok_post(lk: Linker, primary: Seq<char>, img: LinkImage) -> bool {
                let entries = lk.entries();
                let pidx = spec_find(entries, primary, entries.len() as int);
                let img_bases = bases_of(img.objects@);
                &&& img.wf()
                &&& img.objects@.len() == entries.len()
                &&& forall|i: int|
                    0 <= i < entries.len() ==> elf_ok(#[trigger] entries[i].data)
                        && measure_fits(ent_view(entries[i]).phdrs)
                &&& forall|i: int|
                    0 <= i < entries.len() ==> ((#[trigger] img.objects@[i]) is Some
                        <==> ent_mapped(entries[i]))
                &&& forall|i: int|
                    0 <= i < entries.len() && img.objects@[i] is Some ==> {
                        let mo = (#[trigger] img.objects@[i]).unwrap();
                        let t: u64 = match mo.tls {
                            Some(s) => s.start,
                            None => 0,
                        };
                        &&& mo.name@ == entries[i].name
                        &&& mo.base % PAGE_SIZE == 0
                        &&& MAP_BASE <= mo.base
                        &&& mo.base as int == obj_base(entries, i)
                        &&& mo.base + mo.mem@.len() <= MAP_END
                        &&& mo.mem@.len() == ent_hi(entries[i])
                        &&& mo.phdrs@ == ent_view(entries[i]).phdrs
                        &&& mo.prots@ == prot_fold(
                            Seq::new(
                                (ent_hi(entries[i]) / PAGE_SIZE as int) as nat,
                                |p: int| PROT_READ | PROT_WRITE,
                            ),
                            ent_view(entries[i]).phdrs,
                            ent_view(entries[i]).phdrs.len() as int,
                        )
                        &&& obj_rel(entries, primary, i).err is None
                        &&& mo.mem@ == obj_rel(entries, primary, i).mem
                        &&& match (mo.tls, obj_slot(entries, primary, i)) {
                            (Some(sl), Some((si, ss, sl2))) => sl.index as int == si && sl.start
                                as int == ss && sl.len as int == sl2,
                            (None, None) => true,
                            _ => false,
                        }
                        &&& (mo.tls matches Some(sl) ==> sl.start + sl.len <= img.tls.mem@.len())
                        &&& (pidx == Some(i) && mo.tls is Some ==> mo.tls.unwrap().index == 0)
                    }
                &&& forall|i: int, j: int|
                    0 <= i < j < entries.len() && img.objects@[i] is Some && img.objects@[j]
                        is Some ==> (#[trigger] img.objects@[i]).unwrap().base
                        + img.objects@[i].unwrap().mem@.len() <= (
                    #[trigger] img.objects@[j]).unwrap().base
                &&& img.tls.mem@.len() == tls_sum(entries, entries.len() as int)
                &&& img.tls.mem@ == copy_objs(entries, primary, entries.len() as int).tls
                &&& img.tls.base as int == MAP_BASE + total_mapped(entries, entries.len() as int)
                &&& img.tls.thread_ptr == img.tls.base + img.tls.mem@.len()
                &&& img.tls.tcb@ == spec_write_range(
                    Seq::new(PAGE_SIZE as nat, |p: int| 0u8),
                    0,
                    spec_le_bytes(img.tls.thread_ptr),
                )
                &&& img.globals.wf()
                &&& img_bases == spec_bases(entries)
                &&& img.globals@ == spec_globals(entries, img_bases, pidx)
                &&& img.globals@ == globals_all(entries, primary)
                &&& (pidx matches Some(p) && img.objects@[p] is Some && img.entry == wadd(
                    img.objects@[p].unwrap().base,
                    ent_view(entries[p]).entry,
                ))
}

/// What each linking error says of the store: success was not owed, and
/// the error names its cause.
pub open spec fn link_err_post(lk: Linker, primary: Seq<char>, e: LinkError) -> bool {
    let entries = lk.entries();
    &&& !link_good(lk, primary)
    &&& match e {
        LinkError::ParseFailed(nm) => exists|i: int|
            0 <= i < entries.len() && (#[trigger] entries[i]).name == nm@ && !elf_ok(
                entries[i].data,
            ),
        LinkError::MissingEntry(nm) => nm@ == primary && !(exists|p: int|
            0 <= p < entries.len() && (#[trigger] entries[p]).name == primary && ent_mapped(
                entries[p],
            )),
        LinkError::MapFailed(nm) => (exists|i: int|
            0 <= i < entries.len() && (#[trigger] entries[i]).name == nm@ && elf_ok(
                entries[i].data,
            ) && !measure_fits(ent_view(entries[i]).phdrs)) || (exists|i: int|
            0 <= i < entries.len() && (#[trigger] entries[i]).name == nm@ && ent_mapped(
                entries[i],
            ) && (ent_hi(entries[i]) == 0 || obj_base(entries, i) + ent_hi(entries[i])
                > MAP_END)) || (nm@ == seq!['t', 'l', 's'] && !phase_tls_ok(entries)),
        LinkError::OutOfBoundsSegment(nm) => exists|i: int|
            0 <= i < entries.len() && (#[trigger] entries[i]).name == nm@ && (obj_copy_err(
                entries,
                primary,
                i,
            ) || obj_rel(entries, primary, i).err == Some(crate::reloc::RelErr::OutOfBounds)),
        LinkError::MissingSymbolIndex(nm) => exists|i: int|
            0 <= i < entries.len() && (#[trigger] entries[i]).name == nm@ && obj_rel(
                entries,
                primary,
                i,
            ).err == Some(crate::reloc::RelErr::BadIndex),
        LinkError::MissingSymbolName(nm) => exists|i: int|
            0 <= i < entries.len() && (#[trigger] entries[i]).name == nm@ && obj_rel(
                entries,
                primary,
                i,
            ).err == Some(crate::reloc::RelErr::NoName),
        _ => false,
    }
}

/// A parse failure justifies the error contract.
pub proof fn lemma_err_parse(lk: Linker, primary: Seq<char>, e: LinkError, i: int)
    requires
        0 <= i < lk.entries().len(),
        e matches LinkError::ParseFailed(nm) && nm@ == lk.entries()[i].name,
        !elf_ok(lk.entries()[i].data),
    ensures
        link_err_post(lk, primary, e),
{
    assert(!phase_parse_ok(lk.entries()));
}

/// A measure overflow justifies the error contract.
pub proof fn lemma_err_measure(lk: Linker, primary: Seq<char>, e: LinkError, i: int)
    requires
        0 <= i < lk.entries().len(),
        e matches LinkError::MapFailed(nm) && nm@ == lk.entries()[i].name,
        elf_ok(lk.entries()[i].data),
        !measure_fits(ent_view(lk.entries()[i]).phdrs),
    ensures
        link_err_post(lk, primary, e),
{
    assert(!phase_parse_ok(lk.entries()));
}

/// A mapping that cannot be placed justifies the error contract.
pub proof fn lemma_err_alloc(lk: Linker, primary: Seq<char>, e: LinkError, i: int)
    requires
        0 <= i < lk.entries().len(),
        e matches LinkError::MapFailed(nm) && nm@ == lk.entries()[i].name,
        ent_mapped(lk.entries()[i]),
        ent_hi(lk.entries()[i]) == 0 || obj_base(lk.entries(), i) + ent_hi(lk.entries()[i])
            > MAP_END,
    ensures
        link_err_post(lk, primary, e),
{
    assert(!phase_alloc_ok(lk.entries()));
}

/// A TLS block that cannot be placed justifies the error contract.
pub proof fn lemma_err_tls(lk: Linker, primary: Seq<char>, e: LinkError)
    requires
        e matches LinkError::MapFailed(nm) && nm@ == seq!['t', 'l', 's'],
        !phase_tls_ok(lk.entries()),
    ensures
        link_err_post(lk, primary, e),
{
}

/// A failed copy fold justifies the error contract.
pub proof fn lemma_err_copy(lk: Linker, primary: Seq<char>, e: LinkError, i: int)
    requires
        0 <= i < lk.entries().len(),
        e matches LinkError::OutOfBoundsSegment(nm) && nm@ == lk.entries()[i].name,
        obj_copy_err(lk.entries(), primary, i),
    ensures
        link_err_post(lk, primary, e),
{
    let entries = lk.entries();
    assert(copy_objs(entries, primary, i + 1).err);
    lemma_copy_objs_sticky(entries, primary, i + 1, entries.len() as int);
    assert(!phase_copy_ok(entries, primary));
}

/// A failed relocation fold justifies the error contract.
pub proof fn lemma_err_rel(lk: Linker, primary: Seq<char>, e: LinkError, i: int)
    requires
        0 <= i < lk.entries().len(),
        ent_mapped(lk.entries()[i]),
        obj_rel(lk.entries(), primary, i).err is Some,
        match obj_rel(lk.entries(), primary, i).err {
            Some(crate::reloc::RelErr::BadIndex) => e matches LinkError::MissingSymbolIndex(nm)
                && nm@ == lk.entries()[i].name,
            Some(crate::reloc::RelErr::NoName) => e matches LinkError::MissingSymbolName(nm)
                && nm@ == lk.entries()[i].name,
            Some(crate::reloc::RelErr::OutOfBounds) => e matches LinkError::OutOfBoundsSegment(
                nm,
            ) && nm@ == lk.entries()[i].name,
            None => false,
        },
    ensures
        link_err_post(lk, primary, e),
{
    assert(!phase_rel_ok(lk.entries(), primary));
}

/// A primary without a mapping justifies the error contract.
pub proof fn lemma_err_entry(lk: Linker, primary: Seq<char>, e: LinkError)
    requires
        e matches LinkError::MissingEntry(nm) && nm@ == primary,
        !(exists|p: int|
            0 <= p < lk.entries().len() && (#[trigger] lk.entries()[p]).name == primary
                && ent_mapped(lk.entries()[p])),
    ensures
        link_err_post(lk, primary, e),
{
}

/// Everything the linking passes produce before the image is assembled.
pub struct Prepared {
    pub views: Vec<ObjView>,
    pub bases: Vec<Option<u64>>,
    pub mems: Vec<Vec<u8>>,
    pub protss: Vec<Vec<u8>>,
    pub slots: Vec<Option<TlsSlot>>,
    pub tls_base: u64,
    pub tls_mem: Vec<u8>,
    pub tcb: Vec<u8>,
    pub thread_ptr: u64,
    pub pidx: Option<usize>,
    pub globals: SymbolTable,
    pub unsupported: Vec<u32>,
    pub irelative: Vec<(usize, IrelSite)>,
}

impl Linker {
    /// Runs the linking passes up to and including the first relocation
    /// pass and the protection finalizer: parse, measure, allocate, scan
    /// globals primary-first, allocate TLS, copy, relocate, protect.
    #[verifier::rlimit(100)]
    #[verifier::spinoff_prover]
    fn prepare(&self, primary: &str) -> (r: Result<Prepared, LinkError>)
        requires
            self.wf_names(),
        ensures
            r matches Ok(pr) ==> {
                let entries = self.entries();
                let n = entries.len();
                let pidx = spec_find(entries, primary@, n as int);
                &&& pr.views@.len() == n && pr.bases@.len() == n && pr.mems@.len() == n
                    && pr.protss@.len() == n && pr.slots@.len() == n
                &&& forall|j: int|
                    0 <= j < n ==> (#[trigger] pr.views@[j]).view_of() == elf_view(entries[j].data)
                &&& forall|j: int|
                    0 <= j < n ==> elf_ok(#[trigger] entries[j].data) && measure_fits(
                        ent_view(entries[j]).phdrs,
                    )
                &&& pr.bases@ == spec_bases(entries)
                &&& forall|j: int|
                    0 <= j < n ==> ((#[trigger] pr.bases@[j]) is Some <==> ent_mapped(entries[j]))
                &&& forall|j: int|
                    0 <= j < n ==> match (#[trigger] pr.slots@[j], obj_slot(entries, primary@, j)) {
                        (Some(sl), Some((si, ss, sl2))) => sl.index as int == si && sl.start
                            as int == ss && sl.len as int == sl2,
                        (None, None) => true,
                        _ => false,
                    }
                &&& forall|j: int|
                    0 <= j < n && pr.bases@[j] is Some ==> {
                        let b = (#[trigger] pr.bases@[j]).unwrap();
                        &&& b % PAGE_SIZE == 0
                        &&& MAP_BASE <= b
                        &&& b as int == obj_base(entries, j)
                        &&& b + pr.mems@[j]@.len() <= pr.tls_base
                        &&& pr.mems@[j]@.len() == ent_hi(entries[j])
                        &&& pr.protss@[j]@.len() * PAGE_SIZE == pr.mems@[j]@.len()
                        &&& pr.protss@[j]@ == prot_fold(
                            Seq::new(
                                (ent_hi(entries[j]) / PAGE_SIZE as int) as nat,
                                |p: int| PROT_READ | PROT_WRITE,
                            ),
                            ent_view(entries[j]).phdrs,
                            ent_view(entries[j]).phdrs.len() as int,
                        )
                        &&& obj_rel(entries, primary@, j).err is None
                        &&& pr.mems@[j]@ == obj_rel(entries, primary@, j).mem
                    }
                &&& forall|j: int, k: int|
                    0 <= j < k < n && pr.bases@[j] is Some && pr.bases@[k] is Some ==> (
                    #[trigger] pr.bases@[j]).unwrap() + pr.mems@[j]@.len() <= (
                    #[trigger] pr.bases@[k]).unwrap()
                &&& forall|j: int|
                    0 <= j < n ==> ((#[trigger] pr.slots@[j]) is Some
                        ==> pr.slots@[j].unwrap().start + pr.slots@[j].unwrap().len
                        <= pr.tls_mem@.len())
                &&& forall|j: int|
                    0 <= j < n ==> ((#[trigger] pr.slots@[j]) is Some ==> (pidx == Some(j)
                        ==> pr.slots@[j].unwrap().index == 0))
                &&& forall|j: int|
                    0 <= j < n && pr.bases@[j] is None ==> (#[trigger] pr.slots@[j]) is None
                &&& pr.tls_mem@.len() == tls_sum(entries, n as int)
                &&& pr.tls_mem@ == copy_objs(entries, primary@, n as int).tls
                &&& pr.tls_base as int == MAP_BASE + total_mapped(entries, n as int)
                &&& pr.tls_base + pr.tls_mem@.len() + PAGE_SIZE <= MAP_END
                &&& pr.thread_ptr == pr.tls_base + pr.tls_mem@.len()
                &&& pr.tcb@ == spec_write_range(
                    Seq::new(PAGE_SIZE as nat, |p: int| 0u8),
                    0,
                    spec_le_bytes(pr.thread_ptr),
                )
                &&& pr.globals.wf()
                &&& pr.globals@ == spec_globals(entries, pr.bases@, pidx)
                &&& pr.globals@ == globals_all(entries, primary@)
                &&& match (pr.pidx, pidx) {
                    (Some(p), Some(q)) => p as int == q,
                    (None, None) => true,
                    _ => false,
                }
                &&& forall|k: int|
                    0 <= k < pr.irelative@.len() ==> {
                        let (oi, site) = #[trigger] pr.irelative@[k];
                        &&& oi < n
                        &&& pr.bases@[oi as int] is Some
                        &&& site.offset + 8 <= pr.mems@[oi as int]@.len()
                    }
            },
            r matches Err(e) ==> link_err_post(*self, primary@, e),
    {
        let ghost entries = self.entries();
        let n = self.objects.len();
        let primary_s = primary.to_owned();

        // Plan and allocate: parse and measure every object, hand out
        // page-aligned disjoint regions, find the primary.
        let mut views: Vec<ObjView> = Vec::new();
        let mut bases: Vec<Option<u64>> = Vec::new();
        let mut mems: Vec<Vec<u8>> = Vec::new();
        let mut protss: Vec<Vec<u8>> = Vec::new();
        let mut next: u64 = MAP_BASE;
        let mut tls_total: u64 = 0;
        let mut tls_primary: u64 = 0;
        let mut pidx: Option<usize> = None;
        let mut i: usize = 0;
        while i < n
            invariant
                n == self.objects@.len(),
                entries == self.entries(),
                self.wf_names(),
                primary_s@ == primary@,
                i <= n,
                views@.len() == i && bases@.len() == i && mems@.len() == i && protss@.len() == i,
                MAP_BASE <= next <= MAP_END,
                next % PAGE_SIZE == 0,
                next as int == MAP_BASE + total_mapped(entries, i as int),
                tls_total as int == tls_sum(entries, i as int),
                forall|j: int|
                    0 <= j < i ==> elf_ok(#[trigger] entries[j].data) && measure_fits(
                        ent_view(entries[j]).phdrs,
                    ),
                forall|j: int|
                    0 <= j < i ==> (#[trigger] views@[j]).view_of() == elf_view(entries[j].data),
                match (pidx, spec_find(entries, primary@, i as int)) {
                    (Some(p), Some(q)) => p as int == q,
                    (None, None) => true,
                    _ => false,
                },
                tls_primary as int == (match pidx {
                    Some(p) => ent_tls(entries[p as int]),
                    None => 0,
                }),
                forall|j: int|
                    0 <= j < i ==> ((#[trigger] bases@[j]) is Some <==> ent_mapped(entries[j])),
                forall|j: int|
                    0 <= j < i && bases@[j] is Some ==> {
                        let b = (#[trigger] bases@[j]).unwrap();
                        &&& b % PAGE_SIZE == 0
                        &&& b as int == obj_base(entries, j)
                        &&& ent_hi(entries[j]) != 0
                        &&& mems@[j]@.len() == ent_hi(entries[j])
                        &&& mems@[j]@ == Seq::new(ent_hi(entries[j]) as nat, |p: int| 0u8)
                        &&& protss@[j]@ == Seq::new(
                            (ent_hi(entries[j]) / PAGE_SIZE as int) as nat,
                            |p: int| PROT_READ | PROT_WRITE,
                        )
                        &&& protss@[j]@.len() * PAGE_SIZE == mems@[j]@.len()
                    },
            decreases n - i,
        {
            let e_name_is_primary = self.objects[i].name == primary_s;
            let view = match parse_object(self.objects[i].name.as_str(), &self.objects[i].data) {
                Ok(v) => v,
                Err(err) => {
                    proof {
                        assert(entries[i as int].name == self.objects@[i as int].name@);
                        lemma_err_parse(*self, primary@, err, i as int);
                    }
                    return Err(err);
                },
            };
            let m = match measure_object(self.objects[i].name.as_str(), &view.phdrs) {
                Ok(m) => m,
                Err(err) => {
                    proof {
                        assert(entries[i as int].name == self.objects@[i as int].name@);
                        assert(elf_ok(entries[i as int].data));
                        lemma_err_measure(*self, primary@, err, i as int);
                    }
                    return Err(err);
                },
            };
            proof {
                assert(view.phdrs@ == ent_view(entries[i as int]).phdrs);
            }
            tls_total = match tls_total.checked_add(m.tls) {
                Some(v) => v,
                None => {
                    let e = LinkError::MapFailed(String::from_str("tls"));
                    proof {
                        reveal_strlit("tls");
                        assert(ent_tls(entries[i as int]) == m.tls);
                        assert(tls_sum(entries, i + 1) > u64::MAX);
                        lemma_tls_sum_mono(entries, i + 1, n as int);
                        assert(!phase_tls_ok(entries));
                        assert(e matches LinkError::MapFailed(nm) && nm@ =~= seq!['t', 'l', 's']);
                        lemma_err_tls(*self, primary@, e);
                    }
                    return Err(e);
                },
            };
            if e_name_is_primary && pidx.is_none() {
                pidx = Some(i);
                tls_primary = m.tls;
            }
            match m.bounds {
                None => {
                    bases.push(None);
                    mems.push(Vec::new());
                    protss.push(Vec::new());
                },
                Some((_lo, hi)) => {
                    proof {
                        lemma_measure_bounds(view.phdrs@, view.phdrs@.len() as int);
                    }
                    if hi == 0 || hi > MAP_END - next {
                        let e = LinkError::MapFailed(self.objects[i].name.clone());
                        proof {
                            assert(entries[i as int].name == self.objects@[i as int].name@);
                            assert(ent_mapped(entries[i as int]));
                            assert(ent_hi(entries[i as int]) == hi);
                            assert(obj_base(entries, i as int) == next as int);
                            lemma_err_alloc(*self, primary@, e, i as int);
                        }
                        return Err(e);
                    }
                    let base = next;
                    next = next + hi;
                    proof {
                        assert(hi as int % PAGE_SIZE as int == 0);
                        assert(next % PAGE_SIZE == 0) by (nonlinear_arith)
                            requires
                                next == base + hi,
                                base % PAGE_SIZE == 0,
                                hi as int % PAGE_SIZE as int == 0,
                                PAGE_SIZE > 0,
                        ;
                        assert(hi <= usize::MAX as u64);
                    }
                    let mem = filled(hi as usize, 0);
                    let pages = (hi / PAGE_SIZE) as usize;
                    proof {
                        assert(pages as int * PAGE_SIZE as int == hi as int) by (nonlinear_arith)
                            requires
                                pages as int == hi as int / PAGE_SIZE as int,
                                hi as int % PAGE_SIZE as int == 0,
                                PAGE_SIZE > 0,
                        ;
                    }
                    let prots = filled(pages, PROT_READ | PROT_WRITE);
                    bases.push(Some(base));
                    mems.push(mem);
                    protss.push(prots);
                },
            }
            views.push(view);
            i = i + 1;
        }

        // Global symbol table: the primary first, then the rest in store
        // order, first insertion winning.
        proof {
            lemma_find_found(entries, primary@, n as int);
        }
        let mut globals = SymbolTable::new();
        let ghost bases0 = bases@;
        let ghost pspec: int = match pidx {
            Some(p) => p as int,
            None => -1,
        };
        match pidx {
            Some(p) => {
                match bases_at(&bases, p) {
                    Some(b) => {
                        proof {
                            assert(views@[p as int].view_of() == elf_view(entries[p as int].data));
                        }
                        globals.scan_object(b, &views[p].syms);
                    },
                    None => {},
                }
            },
            None => {},
        }
        let ghost m0g = globals@;
        proof {
            assert(m0g == (if 0 <= pspec < entries.len() && 0 <= pspec < bases0.len() {
                spec_scan_entry(Map::<Seq<char>, u64>::empty(), entries[pspec], bases0[pspec])
            } else {
                Map::<Seq<char>, u64>::empty()
            }));
        }
        let mut gi: usize = 0;
        while gi < n
            invariant
                n == self.objects@.len(),
                entries == self.entries(),
                gi <= n,
                views@.len() == n && bases@.len() == n,
                bases@ == bases0,
                globals.wf(),
                forall|j: int|
                    0 <= j < n ==> (#[trigger] views@[j]).view_of() == elf_view(entries[j].data),
                match pidx {
                    Some(p) => pspec == p as int && p < n,
                    None => pspec == -1,
                },
                globals@ == spec_globals_others(m0g, entries, bases0, pspec, gi as int),
            decreases n - gi,
        {
            let skip = match pidx {
                Some(p) => gi == p,
                None => false,
            };
            if !skip {
                match bases_at(&bases, gi) {
                    Some(b) => {
                        proof {
                            assert(views@[gi as int].view_of() == elf_view(
                                entries[gi as int].data,
                            ));
                        }
                        globals.scan_object(b, &views[gi].syms);
                    },
                    None => {},
                }
            }
            gi = gi + 1;
            proof {
                assert(globals@ == spec_globals_others(m0g, entries, bases0, pspec, gi as int));
            }
        }
        proof {
            assert(globals@ == spec_globals(
                entries,
                bases0,
                spec_find(entries, primary@, n as int),
            ));
            assert(bases0 =~= spec_bases(entries));
            assert(globals@ == globals_all(entries, primary@));
        }

        // TLS block and thread-control block.
        if tls_total > MAP_END - next || PAGE_SIZE > MAP_END - next - tls_total {
            let e = LinkError::MapFailed(String::from_str("tls"));
            proof {
                reveal_strlit("tls");
                assert(MAP_BASE + total_mapped(entries, n as int) + tls_sum(entries, n as int)
                    + PAGE_SIZE > MAP_END);
                assert(!phase_tls_ok(entries));
                assert(e matches LinkError::MapFailed(nm) && nm@ =~= seq!['t', 'l', 's']);
                lemma_err_tls(*self, primary@, e);
            }
            return Err(e);
        }
        proof {
            assert(phase_tls_ok(entries));
        }
        let tls_base = next;
        let mut tls_mem = filled(tls_total as usize, 0);
        let mut tcb = filled(PAGE_SIZE as usize, 0);
        let thread_ptr = tls_base + tls_total;
        store_u64_le(&mut tcb, 0, thread_ptr);

        // Copy segments.
        let mut slots: Vec<Option<TlsSlot>> = Vec::new();
        let mut off: u64 = tls_primary;
        let mut idx: u64 = 0;
        proof {
            lemma_find_found(entries, primary@, n as int);
            assert(tls_primary as int == tls_primary_of(
                entries,
                spec_find(entries, primary@, n as int),
            ));
            assert(tls_mem@ =~= Seq::new(tls_sum(entries, n as int) as nat, |p: int| 0u8));
            assert(copy_objs(entries, primary@, 0) == (TlsThread {
                tls: tls_mem@,
                off: off as int,
                idx: idx as int,
                err: false,
            }));
        }
        let mut ci: usize = 0;
        while ci < n
            invariant
                n == self.objects@.len(),
                entries == self.entries(),
                ci <= n,
                views@.len() == n && bases@.len() == n && mems@.len() == n && protss@.len() == n,
                slots@.len() == ci,
                bases@ == bases0,
                tls_mem@.len() == tls_total,
                forall|j: int|
                    0 <= j < n ==> (#[trigger] views@[j]).view_of() == elf_view(entries[j].data),
                forall|j: int|
                    0 <= j < n ==> ((#[trigger] bases@[j]) is Some <==> ent_mapped(entries[j])),
                forall|j: int|
                    0 <= j < n && bases@[j] is Some ==> (#[trigger] mems@[j])@.len() == ent_hi(
                        entries[j],
                    ),
                forall|j: int|
                    ci <= j < n && bases@[j] is Some ==> (#[trigger] mems@[j])@ == Seq::new(
                        ent_hi(entries[j]) as nat,
                        |p: int| 0u8,
                    ),
                forall|j: int|
                    0 <= j < ci && bases@[j] is Some ==> (#[trigger] mems@[j])@ == load_fold(
                        Seq::new(ent_hi(entries[j]) as nat, |p: int| 0u8),
                        ent_view(entries[j]).phdrs,
                        ent_view(entries[j]).phdrs.len() as int,
                        entries[j].data,
                    ),
                forall|j: int|
                    0 <= j < ci ==> ((#[trigger] slots@[j]) is Some ==> slots@[j].unwrap().start
                        + slots@[j].unwrap().len <= tls_mem@.len()),
                forall|j: int|
                    0 <= j < ci ==> ((#[trigger] slots@[j]) is Some ==> (spec_find(
                        entries,
                        primary@,
                        n as int,
                    ) == Some(j) ==> slots@[j].unwrap().index == 0)),
                forall|j: int| 0 <= j < ci && bases@[j] is None ==> (#[trigger] slots@[j]) is None,
                forall|j: int|
                    0 <= j < ci ==> match (#[trigger] slots@[j], obj_slot(entries, primary@, j)) {
                        (Some(sl), Some((si, ss, sl2))) => sl.index as int == si && sl.start
                            as int == ss && sl.len as int == sl2,
                        (None, None) => true,
                        _ => false,
                    },
                copy_objs(entries, primary@, ci as int) == (TlsThread {
                    tls: tls_mem@,
                    off: off as int,
                    idx: idx as int,
                    err: false,
                }),
                match (pidx, spec_find(entries, primary@, n as int)) {
                    (Some(p), Some(q)) => p as int == q,
                    (None, None) => true,
                    _ => false,
                },
            decreases n - ci,
        {
            let is_p = match pidx {
                Some(p) => ci == p,
                None => false,
            };
            match bases[ci] {
                Some(_b) => {
                    let ghost st0 = CopyState {
                        mem: mems@[ci as int]@,
                        tls: tls_mem@,
                        off: off as int,
                        idx: idx as int,
                        slot: None,
                        err: false,
                    };
                    proof {
                        assert(entries[ci as int] == self.objects@[ci as int]@);
                        assert(views@[ci as int].phdrs@ == ent_view(entries[ci as int]).phdrs);
                        assert(ent_mapped(entries[ci as int]));
                        assert(is_p == is_primary_at(entries, primary@, ci as int));
                        assert(st0 == copy_st0(
                            copy_objs(entries, primary@, ci as int),
                            entries[ci as int],
                        ));
                    }
                    let slot = match copy_object(
                        self.objects[ci].name.as_str(),
                        &self.objects[ci].data,
                        &views[ci].phdrs,
                        &mut mems[ci],
                        &mut tls_mem,
                        is_p,
                        &mut off,
                        &mut idx,
                    ) {
                        Ok(sl) => sl,
                        Err(err) => {
                            proof {
                                assert(obj_copy_err(entries, primary@, ci as int));
                                assert(entries[ci as int].name == self.objects@[
                                    ci as int
                                ].name@);
                                lemma_err_copy(*self, primary@, err, ci as int);
                            }
                            return Err(err);
                        },
                    };
                    proof {
                        lemma_copy_fold_mem(
                            st0,
                            views@[ci as int].phdrs@,
                            views@[ci as int].phdrs@.len() as int,
                            self.objects@[ci as int].data@,
                            is_p,
                        );
                        crate::copy::lemma_copy_len(
                            st0,
                            views@[ci as int].phdrs@,
                            views@[ci as int].phdrs@.len() as int,
                            self.objects@[ci as int].data@,
                            is_p,
                        );
                        if is_p {
                            lemma_primary_slot_index(
                                st0,
                                views@[ci as int].phdrs@,
                                views@[ci as int].phdrs@.len() as int,
                                self.objects@[ci as int].data@,
                            );
                        }
                        assert(entries[ci as int] == self.objects@[ci as int]@);
                        assert(views@[ci as int].phdrs@ == ent_view(entries[ci as int]).phdrs);
                        assert(st0.mem == Seq::new(ent_hi(entries[ci as int]) as nat, |p: int| 0u8));
                        assert(mems@[ci as int]@ == load_fold(
                            Seq::new(ent_hi(entries[ci as int]) as nat, |p: int| 0u8),
                            ent_view(entries[ci as int]).phdrs,
                            ent_view(entries[ci as int]).phdrs.len() as int,
                            entries[ci as int].data,
                        ));
                        assert(copy_objs(entries, primary@, ci + 1) == (TlsThread {
                            tls: tls_mem@,
                            off: off as int,
                            idx: idx as int,
                            err: false,
                        }));
                        assert(match (slot, obj_slot(entries, primary@, ci as int)) {
                            (Some(sl), Some((si, ss, sl2))) => sl.index as int == si && sl.start
                                as int == ss && sl.len as int == sl2,
                            (None, None) => true,
                            _ => false,
                        });
                    }
                    slots.push(slot);
                },
                None => {
                    proof {
                        assert(!ent_mapped(entries[ci as int]));
                        assert(copy_objs(entries, primary@, ci + 1) == copy_objs(
                            entries,
                            primary@,
                            ci as int,
                        ));
                        assert(obj_slot(entries, primary@, ci as int) is None);
                    }
                    slots.push(None);
                },
            }
            ci = ci + 1;
        }
        proof {
            assert(phase_copy_ok(entries, primary@));
        }

        // First relocation pass and protection finalizer, per object.
        let mut unsupported: Vec<u32> = Vec::new();
        let mut irelative: Vec<(usize, IrelSite)> = Vec::new();
        let mut ri: usize = 0;
        while ri < n
            invariant
                n == self.objects@.len(),
                entries == self.entries(),
                ri <= n,
                views@.len() == n && bases@.len() == n && mems@.len() == n && protss@.len() == n
                    && slots@.len() == n,
                bases@ == bases0,
                globals.wf(),
                forall|j: int|
                    0 <= j < n ==> (#[trigger] views@[j]).view_of() == elf_view(entries[j].data),
                forall|j: int|
                    0 <= j < n ==> ((#[trigger] bases@[j]) is Some <==> ent_mapped(entries[j])),
                forall|j: int|
                    0 <= j < n ==> elf_ok(#[trigger] entries[j].data) && measure_fits(
                        ent_view(entries[j]).phdrs,
                    ),
                forall|j: int|
                    0 <= j < n && bases@[j] is Some ==> (#[trigger] mems@[j])@.len() == ent_hi(
                        entries[j],
                    ),
                forall|j: int|
                    0 <= j < n && bases@[j] is Some ==> (#[trigger] protss@[j])@.len() * PAGE_SIZE
                        == mems@[j]@.len(),
                forall|j: int|
                    ri <= j < n && bases@[j] is Some ==> (#[trigger] protss@[j])@ == Seq::new(
                        (ent_hi(entries[j]) / PAGE_SIZE as int) as nat,
                        |p: int| PROT_READ | PROT_WRITE,
                    ),
                forall|j: int|
                    ri <= j < n && bases@[j] is Some ==> (#[trigger] mems@[j])@ == load_fold(
                        Seq::new(ent_hi(entries[j]) as nat, |p: int| 0u8),
                        ent_view(entries[j]).phdrs,
                        ent_view(entries[j]).phdrs.len() as int,
                        entries[j].data,
                    ),
                forall|j: int|
                    0 <= j < ri && bases@[j] is Some ==> {
                        let t: u64 = match slots@[j] {
                            Some(sl) => sl.start,
                            None => 0,
                        };
                        &&& spec_obj_mem(entries[j], globals@, (#[trigger] bases@[j]).unwrap(), t).err
                            is None
                        &&& mems@[j]@ == spec_obj_mem(
                            entries[j],
                            globals@,
                            bases@[j].unwrap(),
                            t,
                        ).mem
                        &&& protss@[j]@ == prot_fold(
                            Seq::new(
                                (ent_hi(entries[j]) / PAGE_SIZE as int) as nat,
                                |p: int| PROT_READ | PROT_WRITE,
                            ),
                            ent_view(entries[j]).phdrs,
                            ent_view(entries[j]).phdrs.len() as int,
                        )
                    },
                forall|k: int|
                    0 <= k < irelative@.len() ==> {
                        let (oi, site) = #[trigger] irelative@[k];
                        &&& oi < n
                        &&& bases@[oi as int] is Some
                        &&& site.offset + 8 <= mems@[oi as int]@.len()
                    },
            decreases n - ri,
        {
            match bases[ri] {
                Some(b) => {
                    let t: u64 = match &slots[ri] {
                        Some(sl) => sl.start,
                        None => 0,
                    };
                    let ghost mem_before = mems@[ri as int]@;
                    proof {
                        assert(entries[ri as int] == self.objects@[ri as int]@);
                        assert(views@[ri as int].relocs@ == ent_view(entries[ri as int]).relocs);
                        assert(views@[ri as int].syms@.map_values(|d: DynSym| d@) == ent_view(
                            entries[ri as int],
                        ).syms);
                    }
                    let (mut unsup, mut irel) = match relocate_object(
                        self.objects[ri].name.as_str(),
                        &mut mems[ri],
                        &views[ri].relocs,
                        &views[ri].syms,
                        &globals,
                        b,
                        t,
                    ) {
                        Ok(x) => x,
                        Err(err) => {
                            proof {
                                crate::reloc::lemma_rel_err_params(
                                    mem_before,
                                    views@[ri as int].relocs@,
                                    views@[ri as int].relocs@.len() as int,
                                    views@[ri as int].syms@.map_values(|d: DynSym| d@),
                                    globals@,
                                    b,
                                    t,
                                    globals_all(entries, primary@),
                                    obj_base(entries, ri as int) as u64,
                                    obj_t(entries, primary@, ri as int),
                                );
                                assert(obj_rel(entries, primary@, ri as int).err == rel_fold(
                                    mem_before,
                                    views@[ri as int].relocs@,
                                    views@[ri as int].relocs@.len() as int,
                                    views@[ri as int].syms@.map_values(|d: DynSym| d@),
                                    globals@,
                                    b,
                                    t,
                                ).err);
                                assert(ent_mapped(entries[ri as int]));
                                assert(entries[ri as int].name == self.objects@[ri as int].name@);
                                lemma_err_rel(*self, primary@, err, ri as int);
                            }
                            return Err(err);
                        },
                    };
                    proof {
                        lemma_rel_len(
                            mem_before,
                            views@[ri as int].relocs@,
                            views@[ri as int].relocs@.len() as int,
                            views@[ri as int].syms@.map_values(|d: DynSym| d@),
                            globals@,
                            b,
                            t,
                        );
                        lemma_measure_bounds(
                            views@[ri as int].phdrs@,
                            views@[ri as int].phdrs@.len() as int,
                        );
                        crate::reloc::lemma_rel_irel_bounds(
                            mem_before,
                            views@[ri as int].relocs@,
                            views@[ri as int].relocs@.len() as int,
                            views@[ri as int].syms@.map_values(|d: DynSym| d@),
                            globals@,
                            b,
                            t,
                        );
                        assert(entries[ri as int] == self.objects@[ri as int]@);
                        assert(views@[ri as int].relocs@ == ent_view(entries[ri as int]).relocs);
                        assert(views@[ri as int].syms@.map_values(|d: DynSym| d@) == ent_view(
                            entries[ri as int],
                        ).syms);
                        assert(mems@[ri as int]@ == spec_obj_mem(
                            entries[ri as int],
                            globals@,
                            b,
                            t,
                        ).mem);
                    }
                    let mut w: usize = 0;
                    let irel_len = irel.len();
                    while w < irel_len
                        invariant
                            w <= irel_len,
                            irel_len == irel@.len(),
                            ri < n,
                            n == mems@.len(),
                            bases@[ri as int] is Some,
                            forall|q: int|
                                0 <= q < irel@.len() ==> (#[trigger] irel@[q]).offset + 8
                                    <= mems@[ri as int]@.len(),
                            forall|k: int|
                                0 <= k < irelative@.len() ==> {
                                    let (oi, site) = #[trigger] irelative@[k];
                                    &&& oi < n
                                    &&& bases@[oi as int] is Some
                                    &&& site.offset + 8 <= mems@[oi as int]@.len()
                                },
                        decreases irel_len - w,
                    {
                        irelative.push((ri, irel[w]));
                        w = w + 1;
                    }
                    unsupported.append(&mut unsup);
                    let ghost prots_before = protss@[ri as int]@;
                    protect_object(&mut protss[ri], &views[ri].phdrs);
                    proof {
                        lemma_prot_fold_cases(
                            prots_before,
                            views@[ri as int].phdrs@,
                            views@[ri as int].phdrs@.len() as int,
                        );
                        assert(prots_before == Seq::new(
                            (ent_hi(entries[ri as int]) / PAGE_SIZE as int) as nat,
                            |p: int| PROT_READ | PROT_WRITE,
                        ));
                        assert(protss@[ri as int]@ == prot_fold(
                            Seq::new(
                                (ent_hi(entries[ri as int]) / PAGE_SIZE as int) as nat,
                                |p: int| PROT_READ | PROT_WRITE,
                            ),
                            ent_view(entries[ri as int]).phdrs,
                            ent_view(entries[ri as int]).phdrs.len() as int,
                        ));
                        assert(mems@[ri as int]@ == spec_obj_mem(
                            entries[ri as int],
                            globals@,
                            b,
                            t,
                        ).mem);
                    }
                },
                None => {},
            }
            ri = ri + 1;
        }

        proof {
            assert(globals@ == globals_all(entries, primary@));
            assert forall|j: int|
                0 <= j < n && #[trigger] bases@[j] is Some implies obj_rel(
                entries,
                primary@,
                j,
            ).err is None && mems@[j]@ == obj_rel(entries, primary@, j).mem by {
                assert(bases@[j].unwrap() as int == obj_base(entries, j));
                assert((match slots@[j] {
                    Some(sl) => sl.start,
                    None => 0u64,
                }) == obj_t(entries, primary@, j));
            }
            assert(bases@ =~= spec_bases(entries));
            assert forall|j: int|
                0 <= j < n && #[trigger] bases@[j] is Some implies MAP_BASE <= bases@[j].unwrap()
                && bases@[j].unwrap() + mems@[j]@.len() <= tls_base by {
                lemma_total_mapped_mono(entries, 0, j);
                lemma_total_mapped_mono(entries, j + 1, n as int);
                assert(total_mapped(entries, j + 1) == total_mapped(entries, j) + ent_hi(
                    entries[j],
                ));
            }
            assert forall|j: int, k: int|
                0 <= j < k < n && bases@[j] is Some && bases@[k] is Some implies (
            #[trigger] bases@[j]).unwrap() + mems@[j]@.len() <= (#[trigger] bases@[k]).unwrap() by {
                lemma_total_mapped_mono(entries, j + 1, k);
                assert(total_mapped(entries, j + 1) == total_mapped(entries, j) + ent_hi(
                    entries[j],
                ));
            }
        }
        Ok(Prepared {
            views,
            bases,
            mems,
            protss,
            slots,
            tls_base,
            tls_mem,
            tcb,
            thread_ptr,
            pidx,
            globals,
            unsupported,
            irelative,
        })
    }

    /// Assembles the finished image from the prepared passes and takes
    /// the primary entry point.
    #[verifier::rlimit(100)]
    #[verifier::spinoff_prover]
    fn finish(&self, primary: &str, pr: Prepared) -> (r: Result<LinkImage, LinkError>)
        requires
            self.wf_names(),
            ({
                let entries = self.entries();
                let n = entries.len();
                let pidx = spec_find(entries, primary@, n as int);
                &&& pr.views@.len() == n && pr.bases@.len() == n && pr.mems@.len() == n
                    && pr.protss@.len() == n && pr.slots@.len() == n
                &&& forall|j: int|
                    0 <= j < n ==> (#[trigger] pr.views@[j]).view_of() == elf_view(entries[j].data)
                &&& forall|j: int|
                    0 <= j < n ==> elf_ok(#[trigger] entries[j].data) && measure_fits(
                        ent_view(entries[j]).phdrs,
                    )
                &&& pr.bases@ == spec_bases(entries)
                &&& forall|j: int|
                    0 <= j < n ==> ((#[trigger] pr.bases@[j]) is Some <==> ent_mapped(entries[j]))
                &&& forall|j: int|
                    0 <= j < n ==> match (#[trigger] pr.slots@[j], obj_slot(entries, primary@, j)) {
                        (Some(sl), Some((si, ss, sl2))) => sl.index as int == si && sl.start
                            as int == ss && sl.len as int == sl2,
                        (None, None) => true,
                        _ => false,
                    }
                &&& forall|j: int|
                    0 <= j < n && pr.bases@[j] is Some ==> {
                        let b = (#[trigger] pr.bases@[j]).unwrap();
                        &&& b % PAGE_SIZE == 0
                        &&& MAP_BASE <= b
                        &&& b as int == obj_base(entries, j)
                        &&& b + pr.mems@[j]@.len() <= pr.tls_base
                        &&& pr.mems@[j]@.len() == ent_hi(entries[j])
                        &&& pr.protss@[j]@.len() * PAGE_SIZE == pr.mems@[j]@.len()
                        &&& pr.protss@[j]@ == prot_fold(
                            Seq::new(
                                (ent_hi(entries[j]) / PAGE_SIZE as int) as nat,
                                |p: int| PROT_READ | PROT_WRITE,
                            ),
                            ent_view(entries[j]).phdrs,
                            ent_view(entries[j]).phdrs.len() as int,
                        )
                        &&& obj_rel(entries, primary@, j).err is None
                        &&& pr.mems@[j]@ == obj_rel(entries, primary@, j).mem
                    }
                &&& forall|j: int, k: int|
                    0 <= j < k < n && pr.bases@[j] is Some && pr.bases@[k] is Some ==> (
                    #[trigger] pr.bases@[j]).unwrap() + pr.mems@[j]@.len() <= (
                    #[trigger] pr.bases@[k]).unwrap()
                &&& forall|j: int|
                    0 <= j < n ==> ((#[trigger] pr.slots@[j]) is Some
                        ==> pr.slots@[j].unwrap().start + pr.slots@[j].unwrap().len
                        <= pr.tls_mem@.len())
                &&& forall|j: int|
                    0 <= j < n ==> ((#[trigger] pr.slots@[j]) is Some ==> (pidx == Some(j)
                        ==> pr.slots@[j].unwrap().index == 0))
                &&& forall|j: int|
                    0 <= j < n && pr.bases@[j] is None ==> (#[trigger] pr.slots@[j]) is None
                &&& pr.tls_mem@.len() == tls_sum(entries, n as int)
                &&& pr.tls_mem@ == copy_objs(entries, primary@, n as int).tls
                &&& pr.tls_base as int == MAP_BASE + total_mapped(entries, n as int)
                &&& pr.tls_base + pr.tls_mem@.len() + PAGE_SIZE <= MAP_END
                &&& pr.thread_ptr == pr.tls_base + pr.tls_mem@.len()
                &&& pr.tcb@ == spec_write_range(
                    Seq::new(PAGE_SIZE as nat, |p: int| 0u8),
                    0,
                    spec_le_bytes(pr.thread_ptr),
                )
                &&& pr.globals.wf()
                &&& pr.globals@ == spec_globals(entries, pr.bases@, pidx)
                &&& pr.globals@ == globals_all(entries, primary@)
                &&& match (pr.pidx, pidx) {
                    (Some(p), Some(q)) => p as int == q,
                    (None, None) => true,
                    _ => false,
                }
                &&& forall|k: int|
                    0 <= k < pr.irelative@.len() ==> {
                        let (oi, site) = #[trigger] pr.irelative@[k];
                        &&& oi < n
                        &&& pr.bases@[oi as int] is Some
                        &&& site.offset + 8 <= pr.mems@[oi as int]@.len()
                    }
            }),
        ensures
            r matches Ok(img) ==> link_ok_post(*self, primary@, img),
            r matches Err(e) ==> link_err_post(*self, primary@, e),
    {
        let ghost entries = self.entries();
        let n = self.objects.len();
        let mut objects: Vec<Option<MappedObject>> = Vec::new();
        let mut ai: usize = 0;
        while ai < n
            invariant
                n == self.objects@.len(),
                entries == self.entries(),
                ai <= n,
                pr.views@.len() == n && pr.bases@.len() == n && pr.mems@.len() == n
                    && pr.protss@.len() == n && pr.slots@.len() == n,
                objects@.len() == ai,
                forall|j: int|
                    0 <= j < n ==> (#[trigger] pr.views@[j]).view_of() == elf_view(
                        entries[j].data,
                    ),
                forall|j: int|
                    0 <= j < ai ==> ((#[trigger] objects@[j]) is Some <==> pr.bases@[j] is Some),
                forall|j: int|
                    0 <= j < ai && objects@[j] is Some ==> {
                        let mo = (#[trigger] objects@[j]).unwrap();
                        &&& mo.name@ == entries[j].name
                        &&& mo.base == pr.bases@[j].unwrap()
                        &&& mo.mem@ == pr.mems@[j]@
                        &&& mo.prots@ == pr.protss@[j]@
                        &&& mo.phdrs@ == ent_view(entries[j]).phdrs
                        &&& mo.tls == pr.slots@[j]
                    },
            decreases n - ai,
        {
            match bases_at(&pr.bases, ai) {
                Some(b) => {
                    let mo = MappedObject {
                        name: self.objects[ai].name.clone(),
                        base: b,
                        mem: clone_bytes(&pr.mems[ai]),
                        prots: clone_bytes(&pr.protss[ai]),
                        phdrs: clone_phdrs(&pr.views[ai].phdrs),
                        tls: slots_at(&pr.slots, ai),
                    };
                    proof {
                        assert(entries[ai as int] == self.objects@[ai as int]@);
                    }
                    objects.push(Some(mo));
                },
                None => {
                    objects.push(None);
                },
            }
            ai = ai + 1;
        }

        proof {
            lemma_find_found(entries, primary@, n as int);
        }
        let entry: u64 = match pr.pidx {
            Some(p) => {
                match bases_at(&pr.bases, p) {
                    Some(b) => wrapping_add64(b, pr.views[p].entry),
                    None => {
                        let e = LinkError::MissingEntry(primary.to_owned());
                        proof {
                            if exists|q: int|
                                0 <= q < entries.len() && (#[trigger] entries[q]).name == primary@
                                    && ent_mapped(entries[q]) {
                                let q = choose|q: int|
                                    0 <= q < entries.len() && (#[trigger] entries[q]).name
                                        == primary@ && ent_mapped(entries[q]);
                                assert(entries[p as int].name == primary@);
                                assert(self.names()[p as int] == entries[p as int].name);
                                assert(self.names()[q] == entries[q].name);
                                assert(q == p as int);
                                assert(false);
                            }
                            lemma_err_entry(*self, primary@, e);
                        }
                        return Err(e);
                    },
                }
            },
            None => {
                let e = LinkError::MissingEntry(primary.to_owned());
                proof {
                    lemma_find_none(entries, primary@, n as int);
                    if exists|q: int|
                        0 <= q < entries.len() && (#[trigger] entries[q]).name == primary@
                            && ent_mapped(entries[q]) {
                        let q = choose|q: int|
                            0 <= q < entries.len() && (#[trigger] entries[q]).name == primary@
                                && ent_mapped(entries[q]);
                        assert(false);
                    }
                    lemma_err_entry(*self, primary@, e);
                }
                return Err(e);
            },
        };

        let img = LinkImage {
            objects,
            tls: TlsBlock {
                base: pr.tls_base,
                mem: pr.tls_mem,
                tcb: pr.tcb,
                thread_ptr: pr.thread_ptr,
            },
            globals: pr.globals,
            entry,
            unsupported: pr.unsupported,
            irelative: pr.irelative,
        };
        proof {
            assert(bases_of(img.objects@) =~= pr.bases@);
            assert forall|w: int|
                0 <= w < img.objects@.len() && img.objects@[w] is Some implies {
                let mo = (#[trigger] img.objects@[w]).unwrap();
                forall|j: int|
                    0 <= j < mo.phdrs@.len() && mo.phdrs@[j].p_type == PT_LOAD ==> spec_vsize(
                        #[trigger] mo.phdrs@[j],
                    ) <= u64::MAX && spec_page_floor(mo.phdrs@[j].p_vaddr) + spec_vsize(
                        mo.phdrs@[j],
                    ) <= mo.prots@.len() * PAGE_SIZE && spec_page_floor(mo.phdrs@[j].p_vaddr)
                        + spec_vsize(mo.phdrs@[j]) <= u64::MAX
            } by {
                let mo = img.objects@[w].unwrap();
                lemma_measure_bounds(
                    ent_view(entries[w]).phdrs,
                    ent_view(entries[w]).phdrs.len() as int,
                );
                assert(measure_fits(ent_view(entries[w]).phdrs));
                assert(mo.prots@.len() * PAGE_SIZE == mo.mem@.len());
            }
        }
        Ok(img)
    }

    /// Links the stored objects and returns the finished image: each
    /// object with `PT_LOAD` segments mapped at a page-aligned base in the
    /// modeled address space, the global symbol table built primary-first,
    /// the shared TLS block arranged with the primary's slot on top, all
    /// segments copied, the first relocation pass applied, W^X protections
    /// installed, and the primary entry address computed.  `IRELATIVE`
    /// sites are deferred: the caller resolves each and hands the value to
    /// `LinkImage::apply_irelative`, which also re-runs the protection
    /// finalizer as the second pass requires.
    #[verifier::rlimit(100)]
    #[verifier::spinoff_prover]
    pub fn link(&self, primary: &str) -> (r: Result<LinkImage, LinkError>)
        requires
            self.wf_names(),
        ensures
            r matches Ok(img) ==> link_ok_post(*self, primary@, img),
            r matches Err(e) ==> link_err_post(*self, primary@, e),
    {
        let pr = match self.prepare(primary) {
            Ok(pr) => pr,
            Err(e) => {
                return Err(e);
            },
        };
        self.finish(primary, pr)
    }
}

/// Reads one slot of the base table.
fn bases_at(v: &Vec<Option<u64>>, i: usize) -> (r: Option<u64>)
    requires
        i < v@.len(),
    ensures
        r == v@[i as int],
{
    match &v[i] {
        Some(b) => Some(*b),
        None => None,
    }
}

/// Reads one slot of the TLS table.
fn slots_at(v: &Vec<Option<TlsSlot>>, i: usize) -> (r: Option<TlsSlot>)
    requires
        i < v@.len(),
    ensures
        r == v@[i as int],
{
    match &v[i] {
        Some(s) => Some(*s),
        None => None,
    }
}

/// A found index really holds the name, and is the first to.
pub proof fn lemma_find_found(entries: Seq<ObjEntry>, name: Seq<char>, i: int)
    requires
        0 <= i <= entries.len(),
    ensures
        spec_find(entries, name, i) matches Some(p) ==> 0 <= p < i && entries[p].name == name
            && forall|q: int| 0 <= q < p ==> (#[trigger] entries[q]).name != name,
    decreases i,
{
    if i > 0 {
        lemma_find_found(entries, name, i - 1);
        if spec_find(entries, name, i - 1) is None {
            lemma_find_none(entries, name, i - 1);
        }
    }
}

/// When nothing is found, no entry holds the name.
pub proof fn lemma_find_none(entries: Seq<ObjEntry>, name: Seq<char>, i: int)
    requires
        0 <= i <= entries.len(),
        spec_find(entries, name, i) is None,
    ensures
        forall|q: int| 0 <= q < i ==> (#[trigger] entries[q]).name != name,
    decreases i,
{
    if i > 0 {
        lemma_find_none(entries, name, i - 1);
    }
}

} // verus!
