//! The process-global symbol table.
//!
//! Maps exported symbol names to absolute addresses `base + st_value`.
//! Insertion is first-wins: the driver scans the primary object first, so
//! its global definitions dominate on name collisions.

use vstd::prelude::*;
use crate::defs::{DynSym, SymV, STB_GLOBAL, spec_st_bind, wadd, st_bind, wrapping_add64};

verus! {

/// A name-to-address table with unique names, first insertion winning.
pub struct SymbolTable {
    pub names: Vec<String>,
    pub addrs: Vec<u64>,
}

/// The map after inserting the global symbols of one object, scanned in
/// table order: a symbol contributes `base + st_value` under its name when
/// it is `STB_GLOBAL`, has a nonzero value and a resolvable name, and the
/// name is not yet present.
pub open spec fn spec_scan(m: Map<Seq<char>, u64>, base: u64, syms: Seq<SymV>, i: int) -> Map<
    Seq<char>,
    u64,
>
    decreases i,
{
    if i <= 0 {
        m
    } else {
        let prev = spec_scan(m, base, syms, i - 1);
        let s = syms[i - 1];
        match s.name {
            Some(n) => {
                if spec_st_bind(s.st_info) == STB_GLOBAL && s.st_value != 0
                    && !prev.contains_key(n) {
                    prev.insert(n, wadd(base, s.st_value))
                } else {
                    prev
                }
            },
            None => prev,
        }
    }
}

impl SymbolTable {
    /// The table as a map from name to address.
    pub open spec fn view(&self) -> Map<Seq<char>, u64> {
        Self::entries_map(self.names@, self.addrs@, self.names@.len() as int)
    }

    /// The map of the first `i` entries.
    pub open spec fn entries_map(names: Seq<String>, addrs: Seq<u64>, i: int) -> Map<
        Seq<char>,
        u64,
    >
        decreases i,
    {
        if i <= 0 {
            Map::empty()
        } else {
            Self::entries_map(names, addrs, i - 1).insert(names[i - 1]@, addrs[i - 1])
        }
    }

    /// Well-formed: parallel columns, names unique.
    pub open spec fn wf(&self) -> bool {
        &&& self.names@.len() == self.addrs@.len()
        &&& forall|i: int, j: int|
            0 <= i < j < self.names@.len() ==> self.names@[i]@ != self.names@[j]@
    }

    /// An empty table.
    pub fn new() -> (r: SymbolTable)
        ensures
            r.wf(),
            r@ == Map::<Seq<char>, u64>::empty(),
    {
        SymbolTable { names: Vec::new(), addrs: Vec::new() }
    }

    /// Membership in the map is membership in the name column.
    proof fn lemma_entries_mem(names: Seq<String>, addrs: Seq<u64>, i: int)
        requires
            0 <= i <= names.len(),
            names.len() == addrs.len(),
        ensures
            forall|n: Seq<char>|
                Self::entries_map(names, addrs, i).contains_key(n) <==> exists|k: int|
                    0 <= k < i && #[trigger] names[k]@ == n,
        decreases i,
    {
        if i > 0 {
            Self::lemma_entries_mem(names, addrs, i - 1);
            assert forall|n: Seq<char>|
                Self::entries_map(names, addrs, i).contains_key(n) implies exists|k: int|
                0 <= k < i && #[trigger] names[k]@ == n by {
                if names[i - 1]@ == n {
                    assert(0 <= i - 1 < i && names[i - 1]@ == n);
                } else {
                    assert(Self::entries_map(names, addrs, i - 1).contains_key(n));
                }
            }
            assert forall|n: Seq<char>|
                (exists|k: int| 0 <= k < i && #[trigger] names[k]@ == n) implies Self::entries_map(
                names,
                addrs,
                i,
            ).contains_key(n) by {
                let k = choose|k: int| 0 <= k < i && names[k]@ == n;
                if k < i - 1 {
                    assert(Self::entries_map(names, addrs, i - 1).contains_key(n));
                }
            }
        }
    }

    /// With unique names, entry `k` means what the map says.
    proof fn lemma_entries_at(names: Seq<String>, addrs: Seq<u64>, i: int, k: int)
        requires
            0 <= k < i <= names.len(),
            names.len() == addrs.len(),
            forall|a: int, b: int| 0 <= a < b < names.len() ==> names[a]@ != names[b]@,
        ensures
            Self::entries_map(names, addrs, i).contains_key(names[k]@),
            Self::entries_map(names, addrs, i)[names[k]@] == addrs[k],
        decreases i,
    {
        if k == i - 1 {
        } else {
            Self::lemma_entries_at(names, addrs, i - 1, k);
        }
    }

    /// Whether `name` is present.
    pub fn contains(&self, name: &String) -> (r: bool)
        requires
            self.wf(),
        ensures
            r == self@.contains_key(name@),
    {
        proof {
            Self::lemma_entries_mem(self.names@, self.addrs@, self.names@.len() as int);
        }
        let mut i: usize = 0;
        while i < self.names.len()
            invariant
                i <= self.names@.len(),
                self.wf(),
                forall|k: int| 0 <= k < i ==> self.names@[k]@ != name@,
            decreases self.names@.len() - i,
        {
            if self.names[i] == *name {
                proof {
                    Self::lemma_entries_mem(self.names@, self.addrs@, self.names@.len() as int);
                    assert(exists|k: int|
                        0 <= k < self.names@.len() && #[trigger] self.names@[k]@ == name@);
                }
                return true;
            }
            i = i + 1;
        }
        proof {
            Self::lemma_entries_mem(self.names@, self.addrs@, self.names@.len() as int);
            assert(!(exists|k: int|
                0 <= k < self.names@.len() && #[trigger] self.names@[k]@ == name@));
        }
        false
    }

    /// The address recorded under `name`, if any.
    pub fn lookup(&self, name: &String) -> (r: Option<u64>)
        requires
            self.wf(),
        ensures
            match r {
                Some(a) => self@.contains_key(name@) && self@[name@] == a,
                None => !self@.contains_key(name@),
            },
    {
        proof {
            Self::lemma_entries_mem(self.names@, self.addrs@, self.names@.len() as int);
        }
        let mut i: usize = 0;
        while i < self.names.len()
            invariant
                i <= self.names@.len(),
                self.wf(),
                forall|k: int| 0 <= k < i ==> self.names@[k]@ != name@,
            decreases self.names@.len() - i,
        {
            if self.names[i] == *name {
                proof {
                    Self::lemma_entries_mem(self.names@, self.addrs@, self.names@.len() as int);
                    Self::lemma_entries_at(
                        self.names@,
                        self.addrs@,
                        self.names@.len() as int,
                        i as int,
                    );
                }
                return Some(self.addrs[i]);
            }
            i = i + 1;
        }
        proof {
            Self::lemma_entries_mem(self.names@, self.addrs@, self.names@.len() as int);
        }
        None
    }

    /// Inserts `name -> addr` when `name` is absent; keeps the table
    /// unchanged when it is present.
    pub fn insert_if_absent(&mut self, name: &String, addr: u64)
        requires
            old(self).wf(),
        ensures
            final(self).wf(),
            final(self)@ == if old(self)@.contains_key(name@) {
                old(self)@
            } else {
                old(self)@.insert(name@, addr)
            },
    {
        proof {
            Self::lemma_entries_mem(self.names@, self.addrs@, self.names@.len() as int);
        }
        if !self.contains(name) {
            self.names.push(name.clone());
            self.addrs.push(addr);
            proof {
                assert(self.names@.subrange(0, self.names@.len() - 1) =~= old(self).names@);
                assert(forall|k: int|
                    0 <= k < old(self).names@.len() ==> self.names@[k] == old(self).names@[k]);
                assert(Self::entries_map(self.names@, self.addrs@, self.names@.len() as int)
                    =~= Self::entries_map(
                    old(self).names@,
                    old(self).addrs@,
                    old(self).names@.len() as int,
                ).insert(name@, addr)) by {
                    Self::lemma_entries_prefix(
                        self.names@,
                        self.addrs@,
                        old(self).names@,
                        old(self).addrs@,
                        old(self).names@.len() as int,
                    );
                }
            }
        }
    }

    /// Folding over a common prefix gives the same map.
    proof fn lemma_entries_prefix(
        names1: Seq<String>,
        addrs1: Seq<u64>,
        names2: Seq<String>,
        addrs2: Seq<u64>,
        i: int,
    )
        requires
            0 <= i,
            forall|k: int| 0 <= k < i ==> names1[k] == names2[k] && addrs1[k] == addrs2[k],
        ensures
            Self::entries_map(names1, addrs1, i) == Self::entries_map(names2, addrs2, i),
        decreases i,
    {
        if i > 0 {
            Self::lemma_entries_prefix(names1, addrs1, names2, addrs2, i - 1);
        }
    }

    /// Scans one object's dynamic symbols into the table, first-wins.
    pub fn scan_object(&mut self, base: u64, syms: &Vec<DynSym>)
        requires
            old(self).wf(),
        ensures
            final(self).wf(),
            final(self)@ == spec_scan(
                old(self)@,
                base,
                syms@.map_values(|d: DynSym| d@),
                syms@.len() as int,
            ),
    {
        let ghost symvs = syms@.map_values(|d: DynSym| d@);
        let mut i: usize = 0;
        while i < syms.len()
            invariant
                i <= syms@.len(),
                symvs == syms@.map_values(|d: DynSym| d@),
                self.wf(),
                self@ == spec_scan(old(self)@, base, symvs, i as int),
            decreases syms@.len() - i,
        {
            let s = &syms[i];
            if st_bind(s.st_info) == STB_GLOBAL && s.st_value != 0 {
                match &s.name {
                    Some(n) => {
                        let addr = wrapping_add64(base, s.st_value);
                        self.insert_if_absent(n, addr);
                    },
                    None => {},
                }
            }
            i = i + 1;
        }
    }
}

} // verus!
