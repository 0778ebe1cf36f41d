//! The trusted boundary to the ELF parser.
//!
//! The `goblin` crate turns raw file bytes into program headers, dynamic
//! symbols, relocation entries and needed-library names.  What it returns is
//! a function of the bytes alone, so the parse result is given a name
//! (`elf_view`, `elf_ok`) and each wrapper below states which projection of
//! that result it hands back.  Everything downstream works on the plain
//! `ObjView` assembled here and is verified.

use vstd::prelude::*;
use crate::defs::{Phdr, Reloc, DynSym, SymV, LinkError};

verus! {

/// The parse result of one object, as mathematical values: program headers,
/// dynamic symbols (with names resolved from the dynamic string table),
/// the concatenation `dynrelas ++ dynrels ++ pltrelocs`, the names of the
/// needed libraries, and the entry address.
pub ghost struct ElfView {
    pub phdrs: Seq<Phdr>,
    pub syms: Seq<SymV>,
    pub relocs: Seq<Reloc>,
    pub libs: Seq<Seq<char>>,
    pub entry: u64,
}

/// Whether `goblin::elf::Elf::parse` accepts the bytes.
pub uninterp spec fn elf_ok(data: Seq<u8>) -> bool;

/// What `goblin::elf::Elf::parse` returns for the bytes, when it accepts
/// them.  The result depends on the bytes alone.
pub uninterp spec fn elf_view(data: Seq<u8>) -> ElfView;

/// Relies on `goblin::elf::Elf::parse`: hands back the program header table,
/// one plain record per entry.
#[verifier::external_body]
fn parse_phdrs(data: &Vec<u8>) -> (r: Option<Vec<Phdr>>)
    ensures
        r is Some <==> elf_ok(data@),
        r matches Some(v) ==> v@ == elf_view(data@).phdrs,
{
    let elf = goblin::elf::Elf::parse(data).ok()?;
    Some(elf.program_headers.iter().map(|ph| Phdr {
        p_type: ph.p_type, p_flags: ph.p_flags, p_offset: ph.p_offset,
        p_vaddr: ph.p_vaddr, p_filesz: ph.p_filesz, p_memsz: ph.p_memsz,
        p_align: ph.p_align,
    }).collect())
}

/// Relies on `goblin::elf::Elf::parse` and `goblin::strtab::Strtab::get_at`:
/// hands back the dynamic symbols, each with its name as the dynamic string
/// table resolves it (`None` when the table has no entry).
#[verifier::external_body]
fn parse_dynsyms(data: &Vec<u8>) -> (r: Option<Vec<DynSym>>)
    ensures
        r is Some <==> elf_ok(data@),
        r matches Some(v) ==> v@.map_values(|d: DynSym| d@) == elf_view(data@).syms,
{
    let elf = goblin::elf::Elf::parse(data).ok()?;
    Some(elf.dynsyms.iter().map(|sym| DynSym {
        st_info: sym.st_info,
        st_value: sym.st_value,
        name: elf.dynstrtab.get_at(sym.st_name).map(|n| n.to_string()),
    }).collect())
}

/// Relies on `goblin::elf::Elf::parse`: hands back the relocation entries,
/// `dynrelas` then `dynrels` then `pltrelocs`, in table order.
#[verifier::external_body]
fn parse_relocs(data: &Vec<u8>) -> (r: Option<Vec<Reloc>>)
    ensures
        r is Some <==> elf_ok(data@),
        r matches Some(v) ==> v@ == elf_view(data@).relocs,
{
    let elf = goblin::elf::Elf::parse(data).ok()?;
    Some(elf.dynrelas.iter().chain(elf.dynrels.iter()).chain(elf.pltrelocs.iter())
        .map(|rel| Reloc {
            r_offset: rel.r_offset, r_addend: rel.r_addend,
            r_sym: rel.r_sym, r_type: rel.r_type,
        }).collect())
}

/// Relies on `goblin::elf::Elf::parse`: hands back the `DT_NEEDED` library
/// names, in table order.
#[verifier::external_body]
fn parse_libraries(data: &Vec<u8>) -> (r: Option<Vec<String>>)
    ensures
        r is Some <==> elf_ok(data@),
        r matches Some(v) ==> v.deep_view() == elf_view(data@).libs,
{
    let elf = goblin::elf::Elf::parse(data).ok()?;
    Some(elf.libraries.iter().map(|lib| lib.to_string()).collect())
}

/// Relies on `goblin::elf::Elf::parse`: hands back `e_entry` from the header.
#[verifier::external_body]
fn parse_entry(data: &Vec<u8>) -> (r: Option<u64>)
    ensures
        r is Some <==> elf_ok(data@),
        r matches Some(e) ==> e == elf_view(data@).entry,
{
    let elf = goblin::elf::Elf::parse(data).ok()?;
    Some(elf.header.e_entry)
}

/// The parse view of one object, as the verified pipeline consumes it.
pub struct ObjView {
    pub phdrs: Vec<Phdr>,
    pub syms: Vec<DynSym>,
    pub relocs: Vec<Reloc>,
    pub libs: Vec<String>,
    pub entry: u64,
}

impl ObjView {
    /// The ghost image of this view.
    pub open spec fn view_of(self) -> ElfView {
        ElfView {
            phdrs: self.phdrs@,
            syms: self.syms@.map_values(|d: DynSym| d@),
            relocs: self.relocs@,
            libs: self.libs.deep_view(),
            entry: self.entry,
        }
    }
}

/// Parses one stored object into its plain view.  Succeeds exactly when the
/// ELF parser accepts the bytes; the error carries the object's name.
pub fn parse_object(name: &str, data: &Vec<u8>) -> (r: Result<ObjView, LinkError>)
    ensures
        r is Ok <==> elf_ok(data@),
        r matches Ok(v) ==> v.view_of() == elf_view(data@),
        r matches Err(e) ==> e matches LinkError::ParseFailed(n) && n@ == name@,
{
    let phdrs = match parse_phdrs(data) {
        Some(v) => v,
        None => {
            return Err(LinkError::ParseFailed(name.to_owned()));
        },
    };
    let syms = match parse_dynsyms(data) {
        Some(v) => v,
        None => {
            return Err(LinkError::ParseFailed(name.to_owned()));
        },
    };
    let relocs = match parse_relocs(data) {
        Some(v) => v,
        None => {
            return Err(LinkError::ParseFailed(name.to_owned()));
        },
    };
    let libs = match parse_libraries(data) {
        Some(v) => v,
        None => {
            return Err(LinkError::ParseFailed(name.to_owned()));
        },
    };
    let entry = match parse_entry(data) {
        Some(e) => e,
        None => {
            return Err(LinkError::ParseFailed(name.to_owned()));
        },
    };
    Ok(ObjView { phdrs, syms, relocs, libs, entry })
}

} // verus!
