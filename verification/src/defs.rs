//! Shared constants, plain data types and layout arithmetic.

use vstd::prelude::*;

verus! {

/// Page size of the modeled address space.
pub const PAGE_SIZE: u64 = 4096;

/// Program header type: loadable segment.
pub const PT_LOAD: u32 = 1;
/// Program header type: thread-local storage template.
pub const PT_TLS: u32 = 7;

/// Segment flag: executable.
pub const PF_X: u32 = 1;
/// Segment flag: writable.
pub const PF_W: u32 = 2;
/// Segment flag: readable.
pub const PF_R: u32 = 4;

/// Symbol binding: global.
pub const STB_GLOBAL: u8 = 1;

/// Relocation: direct 64-bit (`S + A`).
pub const R_X86_64_64: u32 = 1;
/// Relocation: GOT entry (`S`).
pub const R_X86_64_GLOB_DAT: u32 = 6;
/// Relocation: PLT slot (`S`).
pub const R_X86_64_JUMP_SLOT: u32 = 7;
/// Relocation: base-relative (`B + A`).
pub const R_X86_64_RELATIVE: u32 = 8;
/// Relocation: offset from the thread pointer (`S + A - T`).
pub const R_X86_64_TPOFF64: u32 = 18;
/// Relocation: indirect, resolved by calling `B + A` at link time.
pub const R_X86_64_IRELATIVE: u32 = 37;

/// Page protection: readable.
pub const PROT_READ: u8 = 1;
/// Page protection: writable.
pub const PROT_WRITE: u8 = 2;
/// Page protection: executable.
pub const PROT_EXEC: u8 = 4;

/// One program header, as plain values.
#[derive(Clone, Copy, Debug, PartialEq, Eq, Structural)]
pub struct Phdr {
    pub p_type: u32,
    pub p_flags: u32,
    pub p_offset: u64,
    pub p_vaddr: u64,
    pub p_filesz: u64,
    pub p_memsz: u64,
    pub p_align: u64,
}

/// One relocation entry, as plain values.
#[derive(Clone, Copy, Debug, PartialEq, Eq, Structural)]
pub struct Reloc {
    pub r_offset: u64,
    pub r_addend: Option<i64>,
    pub r_sym: usize,
    pub r_type: u32,
}

/// One dynamic symbol with its name already resolved from the dynamic
/// string table (`None` when the table has no entry for it).
#[derive(Clone, Debug)]
pub struct DynSym {
    pub st_info: u8,
    pub st_value: u64,
    pub name: Option<String>,
}

/// Ghost image of a `DynSym`.
pub ghost struct SymV {
    pub st_info: u8,
    pub st_value: u64,
    pub name: Option<Seq<char>>,
}

impl View for DynSym {
    type V = SymV;

    open spec fn view(&self) -> SymV {
        SymV {
            st_info: self.st_info,
            st_value: self.st_value,
            name: match self.name {
                Some(n) => Some(n@),
                None => None,
            },
        }
    }
}

/// The binding half of `st_info`.
pub open spec fn spec_st_bind(st_info: u8) -> u8 {
    st_info / 16
}

/// Extracts the binding from a symbol's `st_info` byte.
pub fn st_bind(st_info: u8) -> (r: u8)
    ensures
        r == spec_st_bind(st_info),
{
    st_info / 16
}

/// Offset of `v` within its page.
pub open spec fn spec_page_off(v: u64) -> int {
    v as int % PAGE_SIZE as int
}

/// `v` rounded down to a page boundary.
pub open spec fn spec_page_floor(v: u64) -> int {
    v as int - spec_page_off(v)
}

/// The page-rounded extent of a segment: `p_memsz` plus the in-page offset
/// of `p_vaddr`, rounded up to a whole number of pages.
pub open spec fn spec_vsize(ph: Phdr) -> int {
    ((ph.p_memsz as int + spec_page_off(ph.p_vaddr) + PAGE_SIZE - 1) / PAGE_SIZE as int)
        * PAGE_SIZE as int
}

/// `p_memsz` rounded up to `p_align` (or taken as is when `p_align` is 0).
pub open spec fn spec_valign(ph: Phdr) -> int {
    if ph.p_align > 0 {
        ((ph.p_memsz as int + ph.p_align - 1) / ph.p_align as int) * ph.p_align as int
    } else {
        ph.p_memsz as int
    }
}

/// Addition modulo 2^64, the machine's wrapping 64-bit add.
pub open spec fn wadd(a: u64, b: u64) -> u64 {
    ((a + b) % 0x1_0000_0000_0000_0000) as u64
}

/// Subtraction modulo 2^64, the machine's wrapping 64-bit subtract.
pub open spec fn wsub(a: u64, b: u64) -> u64 {
    ((a + 0x1_0000_0000_0000_0000 - b) % 0x1_0000_0000_0000_0000) as u64
}

/// Computes `spec_page_floor(v)`.
pub fn page_floor_of(v: u64) -> (r: u64)
    ensures
        r == spec_page_floor(v),
        r % PAGE_SIZE == 0,
{
    let r = v - v % PAGE_SIZE;
    proof {
        assert(r % PAGE_SIZE == 0) by (nonlinear_arith)
            requires
                r == v - v % PAGE_SIZE,
                PAGE_SIZE > 0,
        ;
    }
    r
}

/// Computes `spec_vsize(ph)`, or `None` when it exceeds a 64-bit word.
pub fn vsize_of(ph: &Phdr) -> (r: Option<u64>)
    ensures
        r matches Some(v) ==> v == spec_vsize(*ph) && v % PAGE_SIZE == 0,
        r is None <==> spec_vsize(*ph) > u64::MAX,
{
    let voff = ph.p_vaddr % PAGE_SIZE;
    let x = match ph.p_memsz.checked_add(voff) {
        Some(v) => match v.checked_add(PAGE_SIZE - 1) {
            Some(w) => Some(w),
            None => None,
        },
        None => None,
    };
    match x {
        Some(w) => {
            let q = w / PAGE_SIZE;
            proof {
                assert(w as int == q as int * PAGE_SIZE as int + w as int % (PAGE_SIZE as int));
                assert(q as int * PAGE_SIZE as int <= w as int);
                assert((q as int * PAGE_SIZE as int) % (PAGE_SIZE as int) == 0) by (nonlinear_arith);
            }
            Some(q * PAGE_SIZE)
        },
        None => {
            proof {
                let xi = ph.p_memsz as int + spec_page_off(ph.p_vaddr) + PAGE_SIZE - 1;
                let big: int = 0x1_0000_0000_0000_0000;
                assert(xi >= big);
                vstd::arithmetic::div_mod::lemma_div_is_ordered(big, xi, PAGE_SIZE as int);
                assert(big / (PAGE_SIZE as int) == 0x10_0000_0000_0000);
                assert((xi / PAGE_SIZE as int) * PAGE_SIZE as int >= 0x10_0000_0000_0000
                    * PAGE_SIZE) by (nonlinear_arith)
                    requires
                        xi / PAGE_SIZE as int >= 0x10_0000_0000_0000,
                        PAGE_SIZE == 4096,
                ;
            }
            None
        },
    }
}

/// Computes `a + b` modulo 2^64.
pub fn wrapping_add64(a: u64, b: u64) -> (r: u64)
    ensures
        r == wadd(a, b),
{
    if b <= u64::MAX - a {
        a + b
    } else {
        b - (u64::MAX - a) - 1
    }
}

/// Computes `a - b` modulo 2^64.
pub fn wrapping_sub64(a: u64, b: u64) -> (r: u64)
    ensures
        r == wsub(a, b),
{
    if b <= a {
        a - b
    } else {
        u64::MAX - b + a + 1
    }
}

/// The unsigned 64-bit word with the same bit pattern as `x`.
pub open spec fn spec_i64_as_u64(x: i64) -> u64 {
    if x >= 0 {
        x as u64
    } else {
        (x + 0x1_0000_0000_0000_0000) as u64
    }
}

/// Reinterprets a signed addend as the unsigned word the machine stores.
pub fn i64_as_u64(x: i64) -> (r: u64)
    ensures
        r == spec_i64_as_u64(x),
{
    if x >= 0 {
        x as u64
    } else {
        let wide: i128 = x as i128 + 0x1_0000_0000_0000_0000i128;
        wide as u64
    }
}

/// The loader's error taxonomy.
#[derive(Clone, Debug)]
pub enum LinkError {
    /// A path could not be encoded for the host.
    InvalidPath(String),
    /// A file could not be opened.
    OpenFailed(String),
    /// A file could not be read.
    ReadFailed(String),
    /// The ELF parser rejected an object.
    ParseFailed(String),
    /// A needed library was found in no search-path component.
    NotFound(String),
    /// The modeled address space could not fit a mapping.
    MapFailed(String),
    /// A segment's file or memory range falls outside its object.
    OutOfBoundsSegment(String),
    /// A relocation names a symbol index outside the dynamic symbol table.
    MissingSymbolIndex(String),
    /// A relocation's symbol has no name in the dynamic string table.
    MissingSymbolName(String),
    /// A page range could not be protected.
    ProtectFailed(String),
    /// The primary object has no mapping to take an entry point from.
    MissingEntry(String),
}

} // verus!
