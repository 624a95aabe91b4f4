//! Containers parsed by goblin, and the trusted accessors through which the
//! triage logic reads them.
//!
//! goblin's parse of a blob is a deterministic function of the blob's bytes.
//! Each accessor below hands back plain values and states that they are what
//! goblin reports for the bytes the container was parsed from; the names for
//! those reports (`goblin_*`) are left uninterpreted: nothing here restates
//! goblin's parsers. Every parsed container keeps a reference to its source
//! bytes, which is its view, and is only ever built by [`parse_container`] or
//! [`fat_first_slice`], which the library reaches only through
//! [`parse_checked`] and [`fat_first_checked`]: a Mach-O whose entry address
//! computation would overflow inside goblin is not handed to it.
use vstd::prelude::*;

use crate::container::{opt_string_view, ContainerKind, ElfHeader, MachHeader, PeHeader};
use crate::machentry::{mach_entry_ok, mach_entry_risky};
use goblin::mach::imports::Import as MachOImport;
use goblin::mach::segment::Section as MachOSection;

verus! {

/// goblin's parsed ELF.
#[verifier::external_type_specification]
#[verifier::external_body]
pub struct ExGoblinElf<'a>(goblin::elf::Elf<'a>);

/// goblin's parsed PE.
#[verifier::external_type_specification]
#[verifier::external_body]
pub struct ExGoblinPe<'a>(goblin::pe::PE<'a>);

/// goblin's parsed Mach-O binary.
#[verifier::external_type_specification]
#[verifier::external_body]
pub struct ExGoblinMachO<'a>(goblin::mach::MachO<'a>);

/// goblin's parsed fat Mach-O.
#[verifier::external_type_specification]
#[verifier::external_body]
pub struct ExGoblinMultiArch<'a>(goblin::mach::MultiArch<'a>);

/// goblin's Mach-O section header.
#[verifier::external_type_specification]
#[verifier::external_body]
pub struct ExGoblinMachSection(MachOSection);

/// goblin's Mach-O bound import.
#[verifier::external_type_specification]
#[verifier::external_body]
pub struct ExGoblinMachImport<'a>(MachOImport<'a>);

/// An ELF section header, as goblin reports it.
#[derive(Debug, Clone, Copy, PartialEq, Eq, Structural)]
pub struct ElfShdr {
    /// Offset of the name in the section-name string table.
    pub sh_name: usize,
    pub sh_type: u32,
    pub sh_flags: u64,
    pub sh_addr: u64,
    pub sh_offset: u64,
    pub sh_size: u64,
}

/// An ELF dynamic symbol, as goblin reports it.
#[derive(Debug, Clone, Copy, PartialEq, Eq, Structural)]
pub struct ElfSym {
    /// Offset of the name in the dynamic string table.
    pub st_name: usize,
    pub st_info: u8,
    pub st_value: u64,
}

/// A PE section table entry, as goblin reports it.
#[derive(Debug, Clone, Copy, PartialEq, Eq, Structural)]
pub struct PeSection {
    pub characteristics: u32,
    pub size_of_raw_data: u32,
    pub virtual_size: u32,
    pub pointer_to_raw_data: u32,
    pub virtual_address: u32,
}

/// A PE import, as goblin reports it.
#[derive(Debug, Clone)]
pub struct PeImport {
    /// Symbol name (goblin synthesizes `ORDINAL n` for ordinal-only imports).
    pub name: String,
    /// Importing DLL.
    pub dll: String,
    pub ordinal: u16,
}

/// The content of a [`PeImport`].
pub struct PeImportView {
    pub name: Seq<char>,
    pub dll: Seq<char>,
    pub ordinal: u16,
}

impl View for PeImport {
    type V = PeImportView;

    open spec fn view(&self) -> PeImportView {
        PeImportView { name: self.name@, dll: self.dll@, ordinal: self.ordinal }
    }
}

/// A Mach-O section, as goblin reports it.
#[derive(Debug, Clone, Copy, PartialEq, Eq, Structural)]
pub struct MachSection {
    pub addr: u64,
    pub size: u64,
    pub offset: u32,
    pub flags: u32,
}

/// A Mach-O bound symbol, as goblin reports it.
#[derive(Debug, Clone)]
pub struct MachImport {
    pub name: String,
    pub dylib: String,
    pub is_lazy: bool,
}

/// The content of a [`MachImport`].
pub struct MachImportView {
    pub name: Seq<char>,
    pub dylib: Seq<char>,
    pub is_lazy: bool,
}

impl View for MachImport {
    type V = MachImportView;

    open spec fn view(&self) -> MachImportView {
        MachImportView { name: self.name@, dylib: self.dylib@, is_lazy: self.is_lazy }
    }
}

/// What the triage logic reads of one Mach-O binary.
pub struct MachFacts {
    pub header: MachHeader,
    pub segment_count: nat,
}

/// What the triage logic reads of goblin's `Object::parse` result: the
/// variant, and the plain fields of the parsed container. Fields of a family
/// other than the parsed one carry no meaning.
pub struct ObjectFacts {
    pub kind: ContainerKind,
    pub elf_header: ElfHeader,
    pub elf_shdrs: Seq<ElfShdr>,
    pub elf_dynsym_count: nat,
    pub pe_header: PeHeader,
    pub pe_sections: Seq<PeSection>,
    pub pe_imports: Seq<PeImportView>,
    pub mach: MachFacts,
}

/// The two ELF string tables the triage logic reads.
#[derive(Debug, Clone, Copy, PartialEq, Eq, Structural)]
pub enum StrTable {
    /// `.shstrtab`, the section-name table.
    SectionNames,
    /// `.dynstr`, the dynamic string table.
    Dynamic,
}

/// What goblin's `Object::parse` yields for `bytes`.
pub uninterp spec fn goblin_object(bytes: Seq<u8>) -> ObjectFacts;

/// What goblin's `MultiArch::get(0)` yields for the fat Mach-O `bytes`:
/// the first slice, when it is a Mach-O binary goblin parses.
pub uninterp spec fn goblin_fat_first(bytes: Seq<u8>) -> Option<MachFacts>;

/// What goblin's `Strtab::get_at(offset)` yields on one of the string tables
/// of the ELF `bytes`.
pub uninterp spec fn goblin_strtab_get_at(bytes: Seq<u8>, table: StrTable, offset: usize) -> Option<
    Seq<char>,
>;

/// What goblin's `Symtab::get(i)` yields on the dynamic symbols of the ELF
/// `bytes`.
pub uninterp spec fn goblin_dynsym(bytes: Seq<u8>, i: usize) -> Option<ElfSym>;

/// What goblin's `SectionTable::name` yields for section `i` of the PE
/// `bytes` (`None` when it reports an error).
pub uninterp spec fn goblin_pe_section_name(bytes: Seq<u8>, i: usize) -> Option<Seq<char>>;

/// What goblin's `Segment::name` yields for segment `seg` of a Mach-O
/// (`fat` selects the first slice of a fat binary).
pub uninterp spec fn goblin_segment_name(bytes: Seq<u8>, fat: bool, seg: usize) -> Option<
    Seq<char>,
>;

/// What goblin's `Segment::sections` yields for segment `seg` of a Mach-O.
pub uninterp spec fn goblin_segment_sections(bytes: Seq<u8>, fat: bool, seg: usize) -> Option<
    Seq<MachSection>,
>;

/// What goblin's `Section::name` yields for section `j` of segment `seg` of
/// a Mach-O.
pub uninterp spec fn goblin_mach_section_name(
    bytes: Seq<u8>,
    fat: bool,
    seg: usize,
    j: usize,
) -> Option<Seq<char>>;

/// What goblin's `MachO::imports` yields for a Mach-O.
pub uninterp spec fn goblin_mach_imports(bytes: Seq<u8>, fat: bool) -> Option<Seq<MachImportView>>;

/// The bytes of the first slice of the fat Mach-O `bytes`, as goblin's
/// `FatArch::slice` cuts them.
pub uninterp spec fn goblin_fat_first_data(bytes: Seq<u8>) -> Seq<u8>;

/// For each load command of a Mach-O, in order: the bind and lazy-bind
/// stream ranges `(bind_off, bind_size, lazy_bind_off, lazy_bind_size)` of an
/// `LC_DYLD_INFO` / `LC_DYLD_INFO_ONLY` command, `None` for any other.
pub uninterp spec fn goblin_mach_bind_infos(bytes: Seq<u8>, fat: bool) -> Seq<
    Option<(u32, u32, u32, u32)>,
>;

/// The `(fileoff, vmaddr)` of segment `seg` of a Mach-O.
pub uninterp spec fn goblin_segment_addrs(bytes: Seq<u8>, fat: bool, seg: usize) -> (u64, u64);

/// The number of entries of goblin's `MachO::libs` (the binary itself first,
/// then each dylib load command).
pub uninterp spec fn goblin_mach_lib_count(bytes: Seq<u8>, fat: bool) -> usize;

/// The bytes a Mach-O source was parsed from: the binary, or the first slice
/// of a fat binary.
pub open spec fn mach_data(src: (Seq<u8>, bool)) -> Seq<u8> {
    if src.1 {
        goblin_fat_first_data(src.0)
    } else {
        src.0
    }
}

/// The Mach-O facts of a Mach-O source: the binary itself, or the first
/// slice of a fat binary.
pub open spec fn mach_facts(src: (Seq<u8>, bool)) -> MachFacts {
    if src.1 {
        goblin_fat_first(src.0).unwrap()
    } else {
        goblin_object(src.0).mach
    }
}

/// Whether a Mach-O source is one goblin parses as a Mach-O.
pub open spec fn mach_source_ok(src: (Seq<u8>, bool)) -> bool {
    if src.1 {
        goblin_object(src.0).kind == ContainerKind::FatMach && goblin_fat_first(src.0) is Some
    } else {
        goblin_object(src.0).kind == ContainerKind::Mach
    }
}

/// An ELF file parsed by goblin.
pub struct ElfFile<'a> {
    elf: goblin::elf::Elf<'a>,
    bytes: &'a [u8],
}

impl<'a> View for ElfFile<'a> {
    type V = Seq<u8>;

    closed spec fn view(&self) -> Seq<u8> {
        self.bytes@
    }
}

/// A PE file parsed by goblin.
pub struct PeFile<'a> {
    pe: goblin::pe::PE<'a>,
    bytes: &'a [u8],
}

impl<'a> View for PeFile<'a> {
    type V = Seq<u8>;

    closed spec fn view(&self) -> Seq<u8> {
        self.bytes@
    }
}

/// A Mach-O binary parsed by goblin: a plain Mach-O, or the first slice of
/// a fat one.
pub struct MachFile<'a> {
    macho: goblin::mach::MachO<'a>,
    bytes: &'a [u8],
    /// The bytes goblin parsed the Mach-O from: `bytes` itself, or the first
    /// slice of a fat binary.
    data: &'a [u8],
    fat: bool,
}

impl<'a> View for MachFile<'a> {
    type V = (Seq<u8>, bool);

    closed spec fn view(&self) -> (Seq<u8>, bool) {
        (self.bytes@, self.fat)
    }
}

/// A fat Mach-O parsed by goblin.
pub struct FatFile<'a> {
    fat: goblin::mach::MultiArch<'a>,
    bytes: &'a [u8],
}

impl<'a> View for FatFile<'a> {
    type V = Seq<u8>;

    closed spec fn view(&self) -> Seq<u8> {
        self.bytes@
    }
}

/// The result of parsing a blob with goblin.
pub enum Container<'a> {
    Elf(ElfFile<'a>),
    Pe(PeFile<'a>),
    Mach(MachFile<'a>),
    Fat(FatFile<'a>),
    /// Anything goblin does not parse as one of the above.
    Unknown,
}

/// The family of a parse result.
pub open spec fn container_kind(c: Container) -> ContainerKind {
    match c {
        Container::Elf(_) => ContainerKind::Elf,
        Container::Pe(_) => ContainerKind::Pe,
        Container::Mach(_) => ContainerKind::Mach,
        Container::Fat(_) => ContainerKind::FatMach,
        Container::Unknown => ContainerKind::Unknown,
    }
}

/// Whether every file in a parse result views `bytes` (a plain Mach-O, not
/// a fat slice).
pub open spec fn container_from(c: Container, bytes: Seq<u8>) -> bool {
    match c {
        Container::Elf(f) => f@ == bytes,
        Container::Pe(f) => f@ == bytes,
        Container::Mach(f) => f@ == (bytes, false),
        Container::Fat(f) => f@ == bytes,
        Container::Unknown => true,
    }
}

/// The family the library gives `bytes`: goblin's, except that a thin
/// Mach-O whose entry address computation overflows (see
/// [`mach_entry_risky`]) is not parsed and counts as `Unknown`.
pub open spec fn container_kind_of(bytes: Seq<u8>) -> ContainerKind {
    if mach_entry_risky(bytes) {
        ContainerKind::Unknown
    } else {
        goblin_object(bytes).kind
    }
}

/// The first slice of the fat Mach-O `bytes` as the library reads it:
/// goblin's, except that a slice whose entry address computation overflows
/// is not parsed and counts as absent.
pub open spec fn fat_first_of(bytes: Seq<u8>) -> Option<MachFacts> {
    if mach_entry_risky(goblin_fat_first_data(bytes)) {
        None
    } else {
        goblin_fat_first(bytes)
    }
}

/// Parses `bytes` with goblin's `Object::parse`, keeping the ELF, PE,
/// Mach-O and fat Mach-O results; a parse error or any other object kind is
/// `Unknown`. Trusted: the family is what goblin reports for `bytes`, and the
/// parse returns. goblin's parsers check their reads and report malformed
/// input as errors; its README reports 100 million fuzzing runs without a
/// failure. This is relied on, not proved: goblin's own source is not
/// verified here. Of the unchecked sums its Mach-O parser makes on file data,
/// the one that can leave its integer type on a 64-bit target,
/// `vmaddr - fileoff + entryoff` for `LC_MAIN` (goblin `mach/mod.rs`), is left
/// out by `requires` (see [`mach_entry_risky`]); the others add a `u32` to an
/// in-file offset in `usize`.
#[verifier::external_body]
pub(crate) fn parse_container<'a>(bytes: &'a [u8]) -> (r: Container<'a>)
    requires
        !mach_entry_risky(bytes@),
    ensures
        container_kind(r) == goblin_object(bytes@).kind,
        container_from(r, bytes@),
{
    match goblin::Object::parse(bytes) {
        Ok(goblin::Object::Elf(elf)) => Container::Elf(ElfFile { elf, bytes }),
        Ok(goblin::Object::PE(pe)) => Container::Pe(PeFile { pe, bytes }),
        Ok(goblin::Object::Mach(goblin::mach::Mach::Binary(macho))) => Container::Mach(
            MachFile { macho, bytes, data: bytes, fat: false },
        ),
        Ok(goblin::Object::Mach(goblin::mach::Mach::Fat(fat))) => Container::Fat(FatFile { fat, bytes }),
        _ => Container::Unknown,
    }
}

/// The first slice of a fat Mach-O (goblin's `MultiArch::get(0)`), when it
/// is a Mach-O binary, with the bytes of that slice (`FatArch::slice` of the
/// first arch, which is the one `get(0)` reads). Trusted: `Some` exactly
/// when goblin yields one. `get(0)` parses that slice as a Mach-O, so a
/// slice whose entry address computation overflows is left out by
/// `requires`.
#[verifier::external_body]
pub(crate) fn fat_first_slice<'a>(f: &FatFile<'a>) -> (r: Option<MachFile<'a>>)
    requires
        goblin_object(f@).kind == ContainerKind::FatMach,
        !mach_entry_risky(goblin_fat_first_data(f@)),
    ensures
        r is Some == goblin_fat_first(f@) is Some,
        r matches Some(m) ==> m@ == (f@, true),
{
    match f.fat.get(0) {
        Ok(goblin::mach::SingleArch::MachO(macho)) => {
            let data = match f.fat.iter_arches().next() {
                Some(Ok(arch)) => arch.slice(f.bytes),
                _ => &f.bytes[0..0],
            };
            Some(MachFile { macho, bytes: f.bytes, data, fat: true })
        },
        _ => None,
    }
}

/// The bytes of the first slice of a fat Mach-O, as goblin's
/// `FatArch::slice` cuts them from the first arch record (empty when there
/// is no such record). Trusted: they are what goblin cuts.
#[verifier::external_body]
pub(crate) fn fat_first_data<'a>(f: &FatFile<'a>) -> (r: &'a [u8])
    ensures
        r@ == goblin_fat_first_data(f@),
{
    match f.fat.iter_arches().next() {
        Some(Ok(arch)) => arch.slice(f.bytes),
        _ => &f.bytes[0..0],
    }
}

/// Parses `bytes` as [`parse_container`] does, except that a thin Mach-O
/// whose entry address computation overflows is not handed to goblin and is
/// `Unknown`.
pub fn parse_checked<'a>(bytes: &'a [u8]) -> (r: Container<'a>)
    ensures
        container_kind(r) == container_kind_of(bytes@),
        container_from(r, bytes@),
{
    if mach_entry_ok(bytes) {
        parse_container(bytes)
    } else {
        Container::Unknown
    }
}

/// The first slice of a fat Mach-O as [`fat_first_slice`] gives it, except
/// that a slice whose entry address computation overflows is not handed to
/// goblin and is absent.
pub fn fat_first_checked<'a>(f: &FatFile<'a>) -> (r: Option<MachFile<'a>>)
    requires
        goblin_object(f@).kind == ContainerKind::FatMach,
    ensures
        r is Some == fat_first_of(f@) is Some,
        r matches Some(m) ==> m@ == (f@, true),
{
    let data = fat_first_data(f);
    if mach_entry_ok(data) {
        fat_first_slice(f)
    } else {
        None
    }
}

/// The ELF header fields (`e_machine`, endianness, class, entry) goblin
/// parsed.
#[verifier::external_body]
pub(crate) fn elf_header(f: &ElfFile) -> (r: ElfHeader)
    requires
        goblin_object(f@).kind == ContainerKind::Elf,
    ensures
        r == goblin_object(f@).elf_header,
{
    ElfHeader {
        machine: f.elf.header.e_machine,
        little_endian: f.elf.little_endian,
        is_64: f.elf.is_64,
        entry: f.elf.entry,
    }
}

/// The number of ELF section headers goblin parsed.
#[verifier::external_body]
pub(crate) fn elf_shdr_count(f: &ElfFile) -> (r: usize)
    requires
        goblin_object(f@).kind == ContainerKind::Elf,
    ensures
        r == goblin_object(f@).elf_shdrs.len(),
{
    f.elf.section_headers.len()
}

/// ELF section header `i`, as goblin parsed it.
#[verifier::external_body]
pub(crate) fn elf_shdr(f: &ElfFile, i: usize) -> (r: ElfShdr)
    requires
        goblin_object(f@).kind == ContainerKind::Elf,
        i < goblin_object(f@).elf_shdrs.len(),
    ensures
        r == goblin_object(f@).elf_shdrs[i as int],
{
    let sh = &f.elf.section_headers[i];
    ElfShdr {
        sh_name: sh.sh_name,
        sh_type: sh.sh_type,
        sh_flags: sh.sh_flags,
        sh_addr: sh.sh_addr,
        sh_offset: sh.sh_offset,
        sh_size: sh.sh_size,
    }
}

/// goblin's `Strtab::get_at(offset)` on one of the ELF string tables.
#[verifier::external_body]
pub(crate) fn elf_strtab_get_at(f: &ElfFile, table: StrTable, offset: usize) -> (r: Option<String>)
    requires
        goblin_object(f@).kind == ContainerKind::Elf,
    ensures
        opt_string_view(r) == goblin_strtab_get_at(f@, table, offset),
{
    let t = match table {
        StrTable::SectionNames => &f.elf.shdr_strtab,
        StrTable::Dynamic => &f.elf.dynstrtab,
    };
    t.get_at(offset).map(|s| s.to_string())
}

/// The number of ELF dynamic symbols goblin parsed (`Symtab::len`).
#[verifier::external_body]
pub(crate) fn elf_dynsym_count(f: &ElfFile) -> (r: usize)
    requires
        goblin_object(f@).kind == ContainerKind::Elf,
    ensures
        r == goblin_object(f@).elf_dynsym_count,
{
    f.elf.dynsyms.len()
}

/// ELF dynamic symbol `i` (goblin's `Symtab::get`).
#[verifier::external_body]
pub(crate) fn elf_dynsym(f: &ElfFile, i: usize) -> (r: Option<ElfSym>)
    requires
        goblin_object(f@).kind == ContainerKind::Elf,
    ensures
        r == goblin_dynsym(f@, i),
{
    f.elf.dynsyms.get(i).map(|s| ElfSym { st_name: s.st_name, st_info: s.st_info, st_value: s.st_value })
}

/// The PE header fields (machine, class, image base, entry RVA) goblin
/// parsed.
#[verifier::external_body]
pub(crate) fn pe_header(f: &PeFile) -> (r: PeHeader)
    requires
        goblin_object(f@).kind == ContainerKind::Pe,
    ensures
        r == goblin_object(f@).pe_header,
{
    PeHeader {
        machine: f.pe.header.coff_header.machine,
        is_64: f.pe.is_64,
        image_base: f.pe.image_base,
        entry: f.pe.entry,
    }
}

/// The number of PE section table entries goblin parsed.
#[verifier::external_body]
pub(crate) fn pe_section_count(f: &PeFile) -> (r: usize)
    requires
        goblin_object(f@).kind == ContainerKind::Pe,
    ensures
        r == goblin_object(f@).pe_sections.len(),
{
    f.pe.sections.len()
}

/// PE section table entry `i`, as goblin parsed it.
#[verifier::external_body]
pub(crate) fn pe_section(f: &PeFile, i: usize) -> (r: PeSection)
    requires
        goblin_object(f@).kind == ContainerKind::Pe,
        i < goblin_object(f@).pe_sections.len(),
    ensures
        r == goblin_object(f@).pe_sections[i as int],
{
    let s = &f.pe.sections[i];
    PeSection {
        characteristics: s.characteristics,
        size_of_raw_data: s.size_of_raw_data,
        virtual_size: s.virtual_size,
        pointer_to_raw_data: s.pointer_to_raw_data,
        virtual_address: s.virtual_address,
    }
}

/// goblin's `SectionTable::name` for PE section `i` (`None` on its error).
#[verifier::external_body]
pub(crate) fn pe_section_name(f: &PeFile, i: usize) -> (r: Option<String>)
    requires
        goblin_object(f@).kind == ContainerKind::Pe,
        i < goblin_object(f@).pe_sections.len(),
    ensures
        opt_string_view(r) == goblin_pe_section_name(f@, i),
{
    f.pe.sections[i].name().ok().map(|s| s.to_string())
}

/// The number of PE imports goblin parsed.
#[verifier::external_body]
pub(crate) fn pe_import_count(f: &PeFile) -> (r: usize)
    requires
        goblin_object(f@).kind == ContainerKind::Pe,
    ensures
        r == goblin_object(f@).pe_imports.len(),
{
    f.pe.imports.len()
}

/// PE import `i`, as goblin parsed it.
#[verifier::external_body]
pub(crate) fn pe_import(f: &PeFile, i: usize) -> (r: PeImport)
    requires
        goblin_object(f@).kind == ContainerKind::Pe,
        i < goblin_object(f@).pe_imports.len(),
    ensures
        r@ == goblin_object(f@).pe_imports[i as int],
{
    let imp = &f.pe.imports[i];
    PeImport { name: imp.name.to_string(), dll: imp.dll.to_string(), ordinal: imp.ordinal }
}

/// The Mach-O header fields (cputype, endianness, class, entry) goblin
/// parsed.
#[verifier::external_body]
pub(crate) fn mach_header(m: &MachFile) -> (r: MachHeader)
    requires
        mach_source_ok(m@),
    ensures
        r == mach_facts(m@).header,
{
    MachHeader {
        cputype: m.macho.header.cputype(),
        little_endian: m.macho.little_endian,
        is_64: m.macho.is_64,
        entry: m.macho.entry,
    }
}

/// The number of Mach-O segments goblin parsed.
#[verifier::external_body]
pub(crate) fn mach_segment_count(m: &MachFile) -> (r: usize)
    requires
        mach_source_ok(m@),
    ensures
        r == mach_facts(m@).segment_count,
{
    m.macho.segments.len()
}

/// goblin's `Segment::name` for Mach-O segment `seg` (`None` on its error).
#[verifier::external_body]
pub(crate) fn mach_segment_name(m: &MachFile, seg: usize) -> (r: Option<String>)
    requires
        mach_source_ok(m@),
        seg < mach_facts(m@).segment_count,
    ensures
        opt_string_view(r) == goblin_segment_name(m@.0, m@.1, seg),
{
    m.macho.segments[seg].name().ok().map(|s| s.to_string())
}

/// The bytes a Mach-O was parsed from: the whole binary, or, for a fat one,
/// the first slice as `FatArch::slice` cuts it (which [`fat_first_slice`]
/// keeps beside the parsed binary).
#[verifier::external_body]
pub(crate) fn mach_data_bytes<'a>(m: &MachFile<'a>) -> (r: &'a [u8])
    ensures
        r@ == (if m@.1 {
            goblin_fat_first_data(m@.0)
        } else {
            m@.0
        }),
{
    m.data
}

/// The number of load commands goblin parsed.
#[verifier::external_body]
pub(crate) fn mach_command_count(m: &MachFile) -> (r: usize)
    requires
        mach_source_ok(m@),
    ensures
        r == goblin_mach_bind_infos(m@.0, m@.1).len(),
{
    m.macho.load_commands.len()
}

/// The bind stream ranges of load command `i` when it is `LC_DYLD_INFO` or
/// `LC_DYLD_INFO_ONLY`.
#[verifier::external_body]
pub(crate) fn mach_command_bind_info(m: &MachFile, i: usize) -> (r: Option<(u32, u32, u32, u32)>)
    requires
        mach_source_ok(m@),
        i < goblin_mach_bind_infos(m@.0, m@.1).len(),
    ensures
        r == goblin_mach_bind_infos(m@.0, m@.1)[i as int],
{
    match &m.macho.load_commands[i].command {
        goblin::mach::load_command::CommandVariant::DyldInfo(c) => Some(
            (c.bind_off, c.bind_size, c.lazy_bind_off, c.lazy_bind_size),
        ),
        goblin::mach::load_command::CommandVariant::DyldInfoOnly(c) => Some(
            (c.bind_off, c.bind_size, c.lazy_bind_off, c.lazy_bind_size),
        ),
        _ => None,
    }
}

/// The `(fileoff, vmaddr)` of Mach-O segment `seg`.
#[verifier::external_body]
pub(crate) fn mach_segment_addrs(m: &MachFile, seg: usize) -> (r: (u64, u64))
    requires
        mach_source_ok(m@),
        seg < mach_facts(m@).segment_count,
    ensures
        r == goblin_segment_addrs(m@.0, m@.1, seg),
{
    (m.macho.segments[seg].fileoff, m.macho.segments[seg].vmaddr)
}

/// The number of entries of goblin's `MachO::libs`.
#[verifier::external_body]
pub(crate) fn mach_lib_count(m: &MachFile) -> (r: usize)
    requires
        mach_source_ok(m@),
    ensures
        r == goblin_mach_lib_count(m@.0, m@.1),
{
    m.macho.libs.len()
}

/// The sections of one Mach-O segment, as goblin's `Segment::sections`
/// returned them.
pub struct SegmentSections<'a> {
    secs: Vec<(MachOSection, &'a [u8])>,
    bytes: &'a [u8],
    fat: bool,
    seg: usize,
}

impl<'a> View for SegmentSections<'a> {
    type V = (Seq<u8>, bool, usize);

    closed spec fn view(&self) -> (Seq<u8>, bool, usize) {
        (self.bytes@, self.fat, self.seg)
    }
}

/// goblin's `Segment::sections` for Mach-O segment `seg` (`None` on its
/// error).
#[verifier::external_body]
pub(crate) fn mach_segment_sections<'a>(m: &MachFile<'a>, seg: usize) -> (r: Option<SegmentSections<'a>>)
    requires
        mach_source_ok(m@),
        seg < mach_facts(m@).segment_count,
    ensures
        r is Some == goblin_segment_sections(m@.0, m@.1, seg) is Some,
        r matches Some(s) ==> s@ == (m@.0, m@.1, seg),
{
    let secs = m.macho.segments[seg].sections().ok()?;
    Some(SegmentSections { secs, bytes: m.bytes, fat: m.fat, seg })
}

/// The number of sections in a segment.
#[verifier::external_body]
pub(crate) fn segment_section_count(s: &SegmentSections) -> (r: usize)
    requires
        goblin_segment_sections(s@.0, s@.1, s@.2) is Some,
    ensures
        r == goblin_segment_sections(s@.0, s@.1, s@.2).unwrap().len(),
{
    s.secs.len()
}

/// Section `j` of a segment: its address, size, file offset and flags.
#[verifier::external_body]
pub(crate) fn segment_section(s: &SegmentSections, j: usize) -> (r: MachSection)
    requires
        goblin_segment_sections(s@.0, s@.1, s@.2) is Some,
        j < goblin_segment_sections(s@.0, s@.1, s@.2).unwrap().len(),
    ensures
        r == goblin_segment_sections(s@.0, s@.1, s@.2).unwrap()[j as int],
{
    let sect = &s.secs[j].0;
    MachSection { addr: sect.addr, size: sect.size, offset: sect.offset, flags: sect.flags }
}

/// goblin's `Section::name` for section `j` of a segment (`None` on its
/// error).
#[verifier::external_body]
pub(crate) fn segment_section_name(s: &SegmentSections, j: usize) -> (r: Option<String>)
    requires
        goblin_segment_sections(s@.0, s@.1, s@.2) is Some,
        j < goblin_segment_sections(s@.0, s@.1, s@.2).unwrap().len(),
    ensures
        opt_string_view(r) == goblin_mach_section_name(s@.0, s@.1, s@.2, j),
{
    s.secs[j].0.name().ok().map(|n| n.to_string())
}

/// The bound symbols of a Mach-O, as goblin's `MachO::imports` returned
/// them.
pub struct MachImports<'a> {
    imps: Vec<MachOImport<'a>>,
    bytes: &'a [u8],
    fat: bool,
}

impl<'a> View for MachImports<'a> {
    type V = (Seq<u8>, bool);

    closed spec fn view(&self) -> (Seq<u8>, bool) {
        (self.bytes@, self.fat)
    }
}

/// goblin's `MachO::imports` (`None` on its error). Its bind-opcode
/// interpreter indexes the segments and dylibs by the indices the stream
/// names, adds segment offsets unchecked and repeats a bind as often as the
/// stream says, so it is only called on streams that
/// [`crate::binds::mach_binds_clean`] accepts: those decode to their end
/// with every bound segment and dylib in range, no such sum overflowing and
/// at most `MAX_BIND_RECORDS` binds. Trusted: on those, it returns.
#[verifier::external_body]
pub(crate) fn mach_imports<'a>(m: &'a MachFile<'a>) -> (r: Option<MachImports<'a>>)
    requires
        mach_source_ok(m@),
        crate::binds::mach_binds_clean(m@),
    ensures
        r is Some == goblin_mach_imports(m@.0, m@.1) is Some,
        r matches Some(i) ==> i@ == m@,
{
    let imps = m.macho.imports().ok()?;
    Some(MachImports { imps, bytes: m.bytes, fat: m.fat })
}

/// The number of Mach-O imports.
#[verifier::external_body]
pub(crate) fn mach_import_count(i: &MachImports) -> (r: usize)
    requires
        goblin_mach_imports(i@.0, i@.1) is Some,
    ensures
        r == goblin_mach_imports(i@.0, i@.1).unwrap().len(),
{
    i.imps.len()
}

/// Mach-O import `k`: its symbol, dylib and laziness.
#[verifier::external_body]
pub(crate) fn mach_import(i: &MachImports, k: usize) -> (r: MachImport)
    requires
        goblin_mach_imports(i@.0, i@.1) is Some,
        k < goblin_mach_imports(i@.0, i@.1).unwrap().len(),
    ensures
        r@ == goblin_mach_imports(i@.0, i@.1).unwrap()[k as int],
{
    let imp = &i.imps[k];
    MachImport { name: imp.name.to_string(), dylib: imp.dylib.to_string(), is_lazy: imp.is_lazy }
}

} // verus!
