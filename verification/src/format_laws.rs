//! What the container formats' fields mean to the library: which arch and
//! mode each machine number stands for, which Capstone configuration a
//! selection decodes with, how a section header's type and flags classify
//! it, and which symbol-table entries are imports. Each law is stated with
//! the numbers the formats define, not through the tables that implement
//! them.
use vstd::prelude::*;

use crate::container::{ElfHeader, Header, MachHeader, PeHeader};
use crate::engine::{spec_engine_config, EngineConfig};
use crate::entrypoint::{first_containing, spec_entrypoint_of, EntryPointView};
use crate::imports::{spec_elf_import, spec_mach_import, spec_pe_import, ImportView};
use crate::binds::{bind_step, run, BindFacts, BindState};
use crate::limits::MAX_SECTION_BYTES;
use crate::machentry::{mach_entry_risky, mach_hdr, rd_u32, scan, EntryScan};
use crate::objfile::{ElfShdr, ElfSym, MachImportView, MachSection, PeImportView, PeSection};
use crate::probe::{norm_arg, spec_arch_sel, spec_probe, spec_resolve_explicit, ArchSelView, ProbeView};
use crate::sections::{min3, spec_elf_section, spec_mach_section, spec_pe_section, SectionView};
use crate::text::{contains_sub, starts_with, trim_end_nul};

verus! {

/// `little` for a little-endian container, `big` otherwise.
pub open spec fn endian_word(little: bool) -> Seq<char> {
    if little {
        "little"@
    } else {
        "big"@
    }
}

proof fn lemma_arch_words_distinct()
    ensures
        "x86"@ != "arm"@,
        "x86"@ != "arm64"@,
        "x86"@ != "mips"@,
        "x86"@ != "ppc"@,
        "x86"@ != "sysz"@,
        "x86"@ != "riscv"@,
        "arm"@ != "arm64"@,
        "arm"@ != "mips"@,
        "arm"@ != "ppc"@,
        "arm"@ != "sysz"@,
        "arm"@ != "riscv"@,
        "arm64"@ != "mips"@,
        "arm64"@ != "ppc"@,
        "arm64"@ != "sysz"@,
        "arm64"@ != "riscv"@,
        "mips"@ != "ppc"@,
        "mips"@ != "sysz"@,
        "mips"@ != "riscv"@,
        "ppc"@ != "sysz"@,
        "ppc"@ != "riscv"@,
        "sysz"@ != "riscv"@,
        "thumb"@ != "arm"@,
        "x16"@ != "x32"@,
        "x16"@ != "x64"@,
        "x32"@ != "x64"@,
{
    reveal_strlit("x86");
    reveal_strlit("arm");
    reveal_strlit("arm64");
    reveal_strlit("mips");
    reveal_strlit("ppc");
    reveal_strlit("sysz");
    reveal_strlit("riscv");
    reveal_strlit("thumb");
    reveal_strlit("x16");
    reveal_strlit("x32");
    reveal_strlit("x64");
    assert("x86"@[0] != "arm"@[0]);
    assert("x86"@[0] != "arm64"@[0]);
    assert("x86"@[0] != "mips"@[0]);
    assert("x86"@[0] != "ppc"@[0]);
    assert("x86"@[0] != "sysz"@[0]);
    assert("x86"@[0] != "riscv"@[0]);
    assert("arm"@.len() != "arm64"@.len());
    assert("arm"@[0] != "mips"@[0]);
    assert("arm"@[0] != "ppc"@[0]);
    assert("arm"@[0] != "sysz"@[0]);
    assert("arm"@[0] != "riscv"@[0]);
    assert("arm64"@[0] != "mips"@[0]);
    assert("arm64"@[0] != "ppc"@[0]);
    assert("arm64"@[0] != "sysz"@[0]);
    assert("arm64"@[0] != "riscv"@[0]);
    assert("mips"@[0] != "ppc"@[0]);
    assert("mips"@[0] != "sysz"@[0]);
    assert("mips"@[0] != "riscv"@[0]);
    assert("ppc"@[0] != "sysz"@[0]);
    assert("ppc"@[0] != "riscv"@[0]);
    assert("sysz"@[0] != "riscv"@[0]);
    assert("thumb"@[0] != "arm"@[0]);
    assert("x16"@[1] != "x32"@[1]);
    assert("x16"@[1] != "x64"@[1]);
    assert("x32"@[1] != "x64"@[1]);
}

/// The Capstone configuration follows the selection: x86 decodes 16-, 32- or
/// 64-bit code as the mode says (`x16`, `x32`, anything else 64); 32-bit ARM
/// decodes Thumb exactly when the mode is `thumb`, and with the selection's
/// byte order; MIPS and PowerPC decode 64-bit code in the selection's byte
/// order; ARM64, SystemZ and RISC-V have one configuration each.
pub proof fn law_engine_config_follows_selection(s: ArchSelView)
    ensures
        s.arch == "x86"@ ==> spec_engine_config(s) == (EngineConfig::X86 {
            bits: if s.mode == "x16"@ {
                16u8
            } else if s.mode == "x32"@ {
                32u8
            } else {
                64u8
            },
        }),
        s.arch == "arm"@ ==> spec_engine_config(s) == (EngineConfig::Arm {
            thumb: s.mode == "thumb"@,
            big_endian: s.big_endian,
        }),
        s.arch == "arm64"@ ==> spec_engine_config(s) == EngineConfig::Arm64,
        s.arch == "mips"@ ==> spec_engine_config(s) == (EngineConfig::Mips64 { big_endian: s.big_endian }),
        s.arch == "ppc"@ ==> spec_engine_config(s) == (EngineConfig::Ppc64 { big_endian: s.big_endian }),
        s.arch == "sysz"@ ==> spec_engine_config(s) == EngineConfig::SystemZ,
        s.arch == "riscv"@ ==> spec_engine_config(s) == EngineConfig::RiscV64,
{
    lemma_arch_words_distinct();
}

/// An explicit `arm` request (in any case, with surrounding blanks) with
/// the mode `thumb` decodes Thumb code, little-endian; with any other mode
/// (or none) but `big` it decodes ARM code, little-endian.
pub proof fn law_explicit_arm_mode(arch: Seq<char>, mode: Option<Seq<char>>)
    requires
        norm_arg(arch) == "arm"@,
    ensures
        spec_resolve_explicit(arch, mode) matches Some(s) && spec_engine_config(s) == (EngineConfig::Arm {
            thumb: mode matches Some(m) && norm_arg(m) == "thumb"@,
            big_endian: mode matches Some(m) && norm_arg(m) == "big"@,
        }),
{
    lemma_arch_words_distinct();
    reveal_strlit("x86_64");
    reveal_strlit("x64");
    reveal_strlit("i386");
    reveal_strlit("arm");
    assert("arm"@[0] != "x86_64"@[0]);
    assert("arm"@[0] != "x64"@[0]);
    assert("arm"@[0] != "i386"@[0]);
    reveal_strlit("big");
    reveal_strlit("thumb");
    assert("big"@[0] != "thumb"@[0]);
}

/// The arch and mode a PE header probes to, by its COFF machine: `0x14c`
/// is 32-bit x86, `0x8664` x86-64, `0x1c0` and `0x1c4` Thumb-2 ARM, `0xaa64`
/// little-endian ARM64, `0x5064` little-endian RISC-V; any other machine
/// resolves no arch. A PE is little-endian and its entry is the image base
/// plus the entry RVA.
pub proof fn law_pe_machines(h: PeHeader)
    ensures
        spec_probe(Header::Pe(h)).container == "pe"@,
        spec_probe(Header::Pe(h)).endian == Some("little"@),
        spec_probe(Header::Pe(h)).bits == Some(if h.is_64 { 64u8 } else { 32u8 }),
        spec_probe(Header::Pe(h)).entry == Some(h.image_base.wrapping_add(h.entry as u64)),
        h.machine == 0x14c ==> spec_probe(Header::Pe(h)).arch == Some("x86"@) && spec_probe(
            Header::Pe(h),
        ).mode == Some("x32"@),
        h.machine == 0x8664 ==> spec_probe(Header::Pe(h)).arch == Some("x86"@) && spec_probe(
            Header::Pe(h),
        ).mode == Some("x64"@),
        h.machine == 0x1c0 || h.machine == 0x1c4 ==> spec_probe(Header::Pe(h)).arch == Some("arm"@)
            && spec_probe(Header::Pe(h)).mode == Some("thumb"@),
        h.machine == 0xaa64 ==> spec_probe(Header::Pe(h)).arch == Some("arm64"@) && spec_probe(
            Header::Pe(h),
        ).mode == Some("little"@),
        h.machine == 0x5064 ==> spec_probe(Header::Pe(h)).arch == Some("riscv"@) && spec_probe(
            Header::Pe(h),
        ).mode == Some("little"@),
        h.machine != 0x14c && h.machine != 0x8664 && h.machine != 0x1c0 && h.machine != 0x1c4
            && h.machine != 0xaa64 && h.machine != 0x5064 ==> spec_probe(Header::Pe(h)).arch is None
            && spec_probe(Header::Pe(h)).mode is None,
{
}

/// The arch and mode an ELF header probes to, by its `e_machine`: 3 is
/// 32-bit x86, 62 x86-64, 40 32-bit ARM (Thumb when the entry address is
/// odd), 183 ARM64, 8 MIPS, 20 and 21 PowerPC, 243 RISC-V (these four in
/// the file's byte order), 22 SystemZ (big-endian); any other machine
/// resolves no arch. The endianness, width and entry are the header's.
pub proof fn law_elf_machines(h: ElfHeader)
    ensures
        spec_probe(Header::Elf(h)).container == "elf"@,
        spec_probe(Header::Elf(h)).endian == Some(endian_word(h.little_endian)),
        spec_probe(Header::Elf(h)).bits == Some(if h.is_64 { 64u8 } else { 32u8 }),
        spec_probe(Header::Elf(h)).entry == Some(h.entry),
        h.machine == 3 ==> spec_probe(Header::Elf(h)).arch == Some("x86"@) && spec_probe(
            Header::Elf(h),
        ).mode == Some("x32"@),
        h.machine == 62 ==> spec_probe(Header::Elf(h)).arch == Some("x86"@) && spec_probe(
            Header::Elf(h),
        ).mode == Some("x64"@),
        h.machine == 40 ==> spec_probe(Header::Elf(h)).arch == Some("arm"@) && spec_probe(
            Header::Elf(h),
        ).mode == Some(if h.entry % 2 == 1 { "thumb"@ } else { "arm"@ }),
        h.machine == 183 ==> spec_probe(Header::Elf(h)).arch == Some("arm64"@) && spec_probe(
            Header::Elf(h),
        ).mode == Some(endian_word(h.little_endian)),
        h.machine == 8 ==> spec_probe(Header::Elf(h)).arch == Some("mips"@) && spec_probe(
            Header::Elf(h),
        ).mode == Some(endian_word(h.little_endian)),
        h.machine == 20 || h.machine == 21 ==> spec_probe(Header::Elf(h)).arch == Some("ppc"@)
            && spec_probe(Header::Elf(h)).mode == Some(endian_word(h.little_endian)),
        h.machine == 22 ==> spec_probe(Header::Elf(h)).arch == Some("sysz"@) && spec_probe(
            Header::Elf(h),
        ).mode == Some("big"@),
        h.machine == 243 ==> spec_probe(Header::Elf(h)).arch == Some("riscv"@) && spec_probe(
            Header::Elf(h),
        ).mode == Some(endian_word(h.little_endian)),
        h.machine != 3 && h.machine != 62 && h.machine != 40 && h.machine != 183 && h.machine != 8
            && h.machine != 20 && h.machine != 21 && h.machine != 22 && h.machine != 243 ==> spec_probe(
            Header::Elf(h),
        ).arch is None && spec_probe(Header::Elf(h)).mode is None,
{
}

/// The arch and mode a Mach-O header probes to, by its `cputype`: 7 is
/// 32-bit x86, `0x1000007` x86-64, 12 32-bit ARM, `0x100000c` ARM64 (in the
/// file's byte order), 18 and `0x1000012` PowerPC (big-endian); any other
/// cputype resolves no arch.
pub proof fn law_mach_cputypes(h: MachHeader)
    ensures
        spec_probe(Header::Mach(h)).container == "macho"@,
        spec_probe(Header::Mach(h)).endian == Some(endian_word(h.little_endian)),
        spec_probe(Header::Mach(h)).bits == Some(if h.is_64 { 64u8 } else { 32u8 }),
        spec_probe(Header::Mach(h)).entry == Some(h.entry),
        h.cputype == 7 ==> spec_probe(Header::Mach(h)).arch == Some("x86"@) && spec_probe(
            Header::Mach(h),
        ).mode == Some("x32"@),
        h.cputype == 0x0100_0007 ==> spec_probe(Header::Mach(h)).arch == Some("x86"@) && spec_probe(
            Header::Mach(h),
        ).mode == Some("x64"@),
        h.cputype == 12 ==> spec_probe(Header::Mach(h)).arch == Some("arm"@) && spec_probe(
            Header::Mach(h),
        ).mode == Some("arm"@),
        h.cputype == 0x0100_000c ==> spec_probe(Header::Mach(h)).arch == Some("arm64"@) && spec_probe(
            Header::Mach(h),
        ).mode == Some(endian_word(h.little_endian)),
        h.cputype == 18 || h.cputype == 0x0100_0012 ==> spec_probe(Header::Mach(h)).arch == Some("ppc"@)
            && spec_probe(Header::Mach(h)).mode == Some("big"@),
        h.cputype != 7 && h.cputype != 0x0100_0007 && h.cputype != 12 && h.cputype != 0x0100_000c
            && h.cputype != 18 && h.cputype != 0x0100_0012 ==> spec_probe(Header::Mach(h)).arch is None
            && spec_probe(Header::Mach(h)).mode is None,
{
}

/// The selection a container resolves decodes Thumb code exactly for a
/// 32-bit ARM PE (always Thumb-2) and for a 32-bit ARM ELF whose entry
/// address is odd; other ARM ELF and Mach-O files decode ARM code.
pub proof fn law_container_thumb(e: ElfHeader, p: PeHeader, m: MachHeader)
    ensures
        p.machine == 0x1c0 || p.machine == 0x1c4 ==> (spec_arch_sel(spec_probe(Header::Pe(p))) matches Some(
            s,
        ) && spec_engine_config(s) == (EngineConfig::Arm { thumb: true, big_endian: false })),
        e.machine == 40 ==> (spec_arch_sel(spec_probe(Header::Elf(e))) matches Some(s) && spec_engine_config(s)
            == (EngineConfig::Arm { thumb: e.entry % 2 == 1, big_endian: !e.little_endian })),
        m.cputype == 12 ==> (spec_arch_sel(spec_probe(Header::Mach(m))) matches Some(s) && spec_engine_config(
            s,
        ) == (EngineConfig::Arm { thumb: false, big_endian: !m.little_endian })),
{
    lemma_arch_words_distinct();
    reveal_strlit("big");
    reveal_strlit("little");
    assert("big"@ != "little"@) by {
        assert("big"@.len() != "little"@.len());
    }
}

/// How an ELF section header is read: executable exactly when its flags
/// have `SHF_EXECINSTR` (4); its kind is `code` when executable, else
/// `debug` for a name starting `.debug`, else `bss` for type `SHT_NOBITS`
/// (8), else `data` for type `SHT_PROGBITS` (1) with `SHF_WRITE` (1), else
/// `rodata` for a name starting `.rodata` or equal to `.rdata`, else
/// `other`; its address, size and file offset are the header's; a
/// `SHT_NOBITS` section has no file bytes, and another has the bytes at its
/// offset, cut to the blob and to `MAX_SECTION_BYTES`.
pub proof fn law_elf_section_kinds(sh: ElfShdr, name: Seq<char>, blob_len: usize)
    ensures
        ({
            let s = spec_elf_section(sh, name, blob_len);
            let exec = sh.sh_flags & 4 != 0;
            let debug = starts_with(name, ".debug"@);
            let nobits = sh.sh_type == 8;
            let writable_progbits = sh.sh_type == 1 && sh.sh_flags & 1 != 0;
            let ro_name = starts_with(name, ".rodata"@) || name == ".rdata"@;
            &&& s.name == name
            &&& s.executable == exec
            &&& s.vaddr == sh.sh_addr && s.size == sh.sh_size && s.file_off == sh.sh_offset
            &&& exec ==> s.kind == "code"@
            &&& !exec && debug ==> s.kind == "debug"@
            &&& !exec && !debug && nobits ==> s.kind == "bss"@
            &&& !exec && !debug && !nobits && writable_progbits ==> s.kind == "data"@
            &&& !exec && !debug && !nobits && !writable_progbits && ro_name ==> s.kind == "rodata"@
            &&& !exec && !debug && !nobits && !writable_progbits && !ro_name ==> s.kind == "other"@
            &&& nobits ==> s.data_range is None
            &&& !nobits ==> file_range_ok(s.data_range, sh.sh_offset, sh.sh_size, blob_len)
        }),
{
}

/// Whether a section's byte range is its declared range `[off, off + len)`
/// cut to a blob of `blob_len` bytes and to `MAX_SECTION_BYTES`: none when
/// that leaves no byte.
pub open spec fn file_range_ok(r: Option<(usize, usize)>, off: u64, len: u64, blob_len: usize) -> bool {
    match r {
        Some((o, l)) => o == off && l == min3(len as int, blob_len - off, MAX_SECTION_BYTES as int) && l > 0
            && off < blob_len,
        None => off >= blob_len || len == 0,
    }
}

/// How a PE section table entry is read: executable exactly when its
/// characteristics have `IMAGE_SCN_MEM_EXECUTE` (`0x20000000`) or
/// `IMAGE_SCN_CNT_CODE` (`0x20`); its kind is `code` when executable, else
/// `debug` for a name starting `.debug`, else `bss` with
/// `IMAGE_SCN_CNT_UNINITIALIZED_DATA` (`0x80`), else `data` with
/// `IMAGE_SCN_MEM_WRITE` (`0x80000000`), else `rodata` for `.rdata` or
/// `.rodata`, else `other`; its name drops trailing NULs and its address is
/// the image base plus its RVA; its file bytes (none for uninitialized
/// data) are the smaller of its raw and virtual sizes at its raw-data
/// pointer, cut to the blob and to `MAX_SECTION_BYTES`.
pub proof fn law_pe_section_kinds(s: PeSection, raw_name: Seq<char>, image_base: u64, blob_len: usize)
    ensures
        ({
            let v = spec_pe_section(s, raw_name, image_base, blob_len);
            let name = trim_end_nul(raw_name);
            let ch = s.characteristics;
            let exec = ch & 0x2000_0000 != 0 || ch & 0x20 != 0;
            let debug = starts_with(name, ".debug"@);
            let uninit = ch & 0x80 != 0;
            let write = ch & 0x8000_0000 != 0;
            let ro_name = name == ".rdata"@ || name == ".rodata"@;
            &&& v.name == name
            &&& v.executable == exec
            &&& v.vaddr == image_base.wrapping_add(s.virtual_address as u64)
            &&& v.size == s.virtual_size && v.file_off == s.pointer_to_raw_data
            &&& exec ==> v.kind == "code"@
            &&& !exec && debug ==> v.kind == "debug"@
            &&& !exec && !debug && uninit ==> v.kind == "bss"@
            &&& !exec && !debug && !uninit && write ==> v.kind == "data"@
            &&& !exec && !debug && !uninit && !write && ro_name ==> v.kind == "rodata"@
            &&& !exec && !debug && !uninit && !write && !ro_name ==> v.kind == "other"@
            &&& uninit ==> v.data_range is None
            &&& !uninit ==> file_range_ok(
                v.data_range,
                s.pointer_to_raw_data as u64,
                (if s.size_of_raw_data <= s.virtual_size { s.size_of_raw_data } else { s.virtual_size }) as u64,
                blob_len,
            )
        }),
{
}

/// How a Mach-O section is read: it is named `segment,section`; executable
/// when its flags have `S_ATTR_PURE_INSTRUCTIONS` (`0x80000000`) or
/// `S_ATTR_SOME_INSTRUCTIONS` (`0x400`), or it is `__TEXT,__text`; its kind
/// is `code` when executable, else `debug` when the segment name holds
/// `DEBUG` or the section name `debug`, else `bss` for a zero-fill section
/// (type 1 in the low byte of the flags) or the `__BSS` segment, else
/// `rodata` for `__const` or the `__TEXT` segment, else `data` for the
/// `__DATA` segment, else `other`.
pub proof fn law_mach_section_kinds(s: MachSection, segname: Seq<char>, sectname: Seq<char>, blob_len: usize)
    ensures
        ({
            let v = spec_mach_section(s, segname, sectname, blob_len);
            let exec = s.flags & 0x8000_0000 != 0 || s.flags & 0x400 != 0 || (segname == "__TEXT"@
                && sectname == "__text"@);
            let debug = contains_sub(segname, "DEBUG"@) || contains_sub(sectname, "debug"@);
            let zerofill = s.flags & 0xff == 1;
            let bss = zerofill || segname == "__BSS"@;
            let ro = sectname == "__const"@ || segname == "__TEXT"@;
            &&& v.name == segname + ","@ + sectname
            &&& v.executable == exec
            &&& v.vaddr == s.addr && v.size == s.size && v.file_off == s.offset
            &&& exec ==> v.kind == "code"@
            &&& !exec && debug ==> v.kind == "debug"@
            &&& !exec && !debug && bss ==> v.kind == "bss"@
            &&& !exec && !debug && !bss && ro ==> v.kind == "rodata"@
            &&& !exec && !debug && !bss && !ro && segname == "__DATA"@ ==> v.kind == "data"@
            &&& !exec && !debug && !bss && !ro && segname != "__DATA"@ ==> v.kind == "other"@
            &&& zerofill ==> v.data_range is None
            &&& !zerofill ==> file_range_ok(v.data_range, s.offset as u64, s.size, blob_len)
        }),
{
}

/// Whether a symbol name is known and not empty.
pub open spec fn known_name(name: Option<Seq<char>>) -> bool {
    match name {
        Some(n) => n.len() > 0,
        None => false,
    }
}

/// Which ELF dynamic symbols are imports: exactly those whose binding (the
/// high nibble of `st_info`) is `STB_GLOBAL` (1) or `STB_WEAK` (2), whose
/// value is 0 (undefined) and whose name is known and not empty; each is a
/// named import of that name, with no library and no ordinal.
pub proof fn law_elf_imports_are_undefined_globals(sym: ElfSym, name: Option<Seq<char>>)
    ensures
        spec_elf_import(sym, name) == (if (sym.st_info >> 4u8 == 1 || sym.st_info >> 4u8 == 2)
            && sym.st_value == 0 && known_name(name) {
            Some(ImportView { library: None, name: name, ordinal: None, kind: "named"@ })
        } else {
            None
        }),
{
}

/// How a PE import entry is read: an entry without a name, or with a name
/// goblin synthesized (`ORDINAL ...`), is an ordinal import; any other is a
/// named import. Both keep the entry's ordinal, and name the DLL when its
/// name is not empty.
pub proof fn law_pe_import_rows(imp: PeImportView)
    ensures
        ({
            let r = spec_pe_import(imp);
            let by_ordinal = imp.name.len() == 0 || starts_with(imp.name, "ORDINAL"@);
            &&& r.ordinal == Some(imp.ordinal as i32)
            &&& r.library == (if imp.dll.len() == 0 { None } else { Some(imp.dll) })
            &&& by_ordinal ==> r.kind == "ordinal"@ && r.name is None
            &&& !by_ordinal ==> r.kind == "named"@ && r.name == Some(imp.name)
        }),
{
}

/// How a Mach-O bound symbol is read: a named import of the symbol, with
/// no ordinal, naming its dylib when that name is not empty; a lazily bound
/// symbol is a `delayed` import.
pub proof fn law_mach_import_rows(imp: MachImportView)
    ensures
        ({
            let r = spec_mach_import(imp);
            &&& r.name == Some(imp.name) && r.ordinal is None
            &&& r.library == (if imp.dylib.len() == 0 { None } else { Some(imp.dylib) })
            &&& r.kind == (if imp.is_lazy { "delayed"@ } else { "named"@ })
        }),
{
}

/// Whether section `s` holds the address `va`: `va` is at or after its start
/// and before its end (an end past the top of the address space counts as
/// the top).
pub open spec fn holds_va(s: SectionView, va: u64) -> bool {
    s.vaddr <= va && va < s.vaddr + s.size && va < u64::MAX
}

/// Whether `k` is the first section of `secs` that holds `va`.
pub open spec fn first_holder(secs: Seq<SectionView>, va: u64, k: int) -> bool {
    &&& 0 <= k < secs.len()
    &&& holds_va(secs[k], va)
    &&& forall|j: int| 0 <= j < k ==> !holds_va(#[trigger] secs[j], va)
}

proof fn lemma_first_containing_first(secs: Seq<SectionView>, va: u64, i: int)
    requires
        0 <= i,
        forall|j: int| 0 <= j < i ==> !holds_va(#[trigger] secs[j], va),
    ensures
        match first_containing(secs, va, i) {
            Some(k) => first_holder(secs, va, k),
            None => forall|j: int| 0 <= j < secs.len() ==> !holds_va(#[trigger] secs[j], va),
        },
    decreases secs.len() - i,
{
    if i < secs.len() {
        if !crate::entrypoint::contains_va(secs[i], va) {
            assert forall|j: int| 0 <= j < i + 1 implies !holds_va(#[trigger] secs[j], va) by {
                if j == i {
                    assert(!holds_va(secs[i], va));
                }
            }
            lemma_first_containing_first(secs, va, i + 1);
        }
    }
}

/// The entry point of a probed container and its sections: nothing for a
/// raw blob; otherwise the probe's arch, mode and entry address, and, when
/// a section holds the entry, the first such section's name and the entry's
/// file offset within it (the section's file offset plus the entry's
/// distance from its start); when none does, neither.
pub proof fn law_entry_point(p: ProbeView, secs: Seq<SectionView>)
    ensures
        ({
            let e = spec_entrypoint_of(p, secs);
            &&& p.container == "raw"@ ==> e == (EntryPointView {
                arch: None,
                mode: None,
                vaddr: None,
                file_off: None,
                section: None,
            })
            &&& p.container != "raw"@ ==> e.arch == p.arch && e.mode == p.mode && e.vaddr == p.entry
            &&& p.container != "raw"@ && p.entry is None ==> e.section is None && e.file_off is None
            &&& p.container != "raw"@ && p.entry is Some ==> entry_section_ok(e, secs, p.entry.unwrap())
        }),
{
    if p.container != "raw"@ {
        if let Some(va) = p.entry {
            lemma_first_containing_first(secs, va, 0);
        }
    }
}

/// Whether an entry point at `va` names the first section of `secs` that
/// holds it, with the entry's file offset in it, or, when no section holds
/// it, neither.
pub open spec fn entry_section_ok(e: EntryPointView, secs: Seq<SectionView>, va: u64) -> bool {
    match e.section {
        Some(name) => exists|k: int|
            #[trigger] first_holder(secs, va, k) && secs[k].name == name && e.file_off == Some(
                secs[k].file_off.wrapping_add((va - secs[k].vaddr) as u64),
            ),
        None => e.file_off is None && forall|j: int| 0 <= j < secs.len() ==> !holds_va(#[trigger] secs[j], va),
    }
}

proof fn lemma_arch_names_distinct()
    ensures
        "x86"@ != "x86_64"@,
        "x86"@ != "x64"@,
        "x86"@ != "i386"@,
        "x86"@ != "arm"@,
        "x86"@ != "arm64"@,
        "x86"@ != "aarch64"@,
        "x86"@ != "mips"@,
        "x86"@ != "ppc"@,
        "x86"@ != "powerpc"@,
        "x86"@ != "sysz"@,
        "x86"@ != "s390"@,
        "x86"@ != "systemz"@,
        "x86"@ != "riscv"@,
        "x86_64"@ != "x64"@,
        "x86_64"@ != "i386"@,
        "x86_64"@ != "arm"@,
        "x86_64"@ != "arm64"@,
        "x86_64"@ != "aarch64"@,
        "x86_64"@ != "mips"@,
        "x86_64"@ != "ppc"@,
        "x86_64"@ != "powerpc"@,
        "x86_64"@ != "sysz"@,
        "x86_64"@ != "s390"@,
        "x86_64"@ != "systemz"@,
        "x86_64"@ != "riscv"@,
        "x64"@ != "i386"@,
        "x64"@ != "arm"@,
        "x64"@ != "arm64"@,
        "x64"@ != "aarch64"@,
        "x64"@ != "mips"@,
        "x64"@ != "ppc"@,
        "x64"@ != "powerpc"@,
        "x64"@ != "sysz"@,
        "x64"@ != "s390"@,
        "x64"@ != "systemz"@,
        "x64"@ != "riscv"@,
        "i386"@ != "arm"@,
        "i386"@ != "arm64"@,
        "i386"@ != "aarch64"@,
        "i386"@ != "mips"@,
        "i386"@ != "ppc"@,
        "i386"@ != "powerpc"@,
        "i386"@ != "sysz"@,
        "i386"@ != "s390"@,
        "i386"@ != "systemz"@,
        "i386"@ != "riscv"@,
        "arm"@ != "arm64"@,
        "arm"@ != "aarch64"@,
        "arm"@ != "mips"@,
        "arm"@ != "ppc"@,
        "arm"@ != "powerpc"@,
        "arm"@ != "sysz"@,
        "arm"@ != "s390"@,
        "arm"@ != "systemz"@,
        "arm"@ != "riscv"@,
        "arm64"@ != "aarch64"@,
        "arm64"@ != "mips"@,
        "arm64"@ != "ppc"@,
        "arm64"@ != "powerpc"@,
        "arm64"@ != "sysz"@,
        "arm64"@ != "s390"@,
        "arm64"@ != "systemz"@,
        "arm64"@ != "riscv"@,
        "aarch64"@ != "mips"@,
        "aarch64"@ != "ppc"@,
        "aarch64"@ != "powerpc"@,
        "aarch64"@ != "sysz"@,
        "aarch64"@ != "s390"@,
        "aarch64"@ != "systemz"@,
        "aarch64"@ != "riscv"@,
        "mips"@ != "ppc"@,
        "mips"@ != "powerpc"@,
        "mips"@ != "sysz"@,
        "mips"@ != "s390"@,
        "mips"@ != "systemz"@,
        "mips"@ != "riscv"@,
        "ppc"@ != "powerpc"@,
        "ppc"@ != "sysz"@,
        "ppc"@ != "s390"@,
        "ppc"@ != "systemz"@,
        "ppc"@ != "riscv"@,
        "powerpc"@ != "sysz"@,
        "powerpc"@ != "s390"@,
        "powerpc"@ != "systemz"@,
        "powerpc"@ != "riscv"@,
        "sysz"@ != "s390"@,
        "sysz"@ != "systemz"@,
        "sysz"@ != "riscv"@,
        "s390"@ != "systemz"@,
        "s390"@ != "riscv"@,
        "systemz"@ != "riscv"@,
{
    reveal_strlit("x86");
    reveal_strlit("x86_64");
    reveal_strlit("x64");
    reveal_strlit("i386");
    reveal_strlit("arm");
    reveal_strlit("arm64");
    reveal_strlit("aarch64");
    reveal_strlit("mips");
    reveal_strlit("ppc");
    reveal_strlit("powerpc");
    reveal_strlit("sysz");
    reveal_strlit("s390");
    reveal_strlit("systemz");
    reveal_strlit("riscv");
    assert("x86"@.len() != "x86_64"@.len());
    assert("x86"@[1] != "x64"@[1]);
    assert("x86"@.len() != "i386"@.len());
    assert("x86"@[0] != "arm"@[0]);
    assert("x86"@.len() != "arm64"@.len());
    assert("x86"@.len() != "aarch64"@.len());
    assert("x86"@.len() != "mips"@.len());
    assert("x86"@[0] != "ppc"@[0]);
    assert("x86"@.len() != "powerpc"@.len());
    assert("x86"@.len() != "sysz"@.len());
    assert("x86"@.len() != "s390"@.len());
    assert("x86"@.len() != "systemz"@.len());
    assert("x86"@.len() != "riscv"@.len());
    assert("x86_64"@.len() != "x64"@.len());
    assert("x86_64"@.len() != "i386"@.len());
    assert("x86_64"@.len() != "arm"@.len());
    assert("x86_64"@.len() != "arm64"@.len());
    assert("x86_64"@.len() != "aarch64"@.len());
    assert("x86_64"@.len() != "mips"@.len());
    assert("x86_64"@.len() != "ppc"@.len());
    assert("x86_64"@.len() != "powerpc"@.len());
    assert("x86_64"@.len() != "sysz"@.len());
    assert("x86_64"@.len() != "s390"@.len());
    assert("x86_64"@.len() != "systemz"@.len());
    assert("x86_64"@.len() != "riscv"@.len());
    assert("x64"@.len() != "i386"@.len());
    assert("x64"@[0] != "arm"@[0]);
    assert("x64"@.len() != "arm64"@.len());
    assert("x64"@.len() != "aarch64"@.len());
    assert("x64"@.len() != "mips"@.len());
    assert("x64"@[0] != "ppc"@[0]);
    assert("x64"@.len() != "powerpc"@.len());
    assert("x64"@.len() != "sysz"@.len());
    assert("x64"@.len() != "s390"@.len());
    assert("x64"@.len() != "systemz"@.len());
    assert("x64"@.len() != "riscv"@.len());
    assert("i386"@.len() != "arm"@.len());
    assert("i386"@.len() != "arm64"@.len());
    assert("i386"@.len() != "aarch64"@.len());
    assert("i386"@[0] != "mips"@[0]);
    assert("i386"@.len() != "ppc"@.len());
    assert("i386"@.len() != "powerpc"@.len());
    assert("i386"@[0] != "sysz"@[0]);
    assert("i386"@[0] != "s390"@[0]);
    assert("i386"@.len() != "systemz"@.len());
    assert("i386"@.len() != "riscv"@.len());
    assert("arm"@.len() != "arm64"@.len());
    assert("arm"@.len() != "aarch64"@.len());
    assert("arm"@.len() != "mips"@.len());
    assert("arm"@[0] != "ppc"@[0]);
    assert("arm"@.len() != "powerpc"@.len());
    assert("arm"@.len() != "sysz"@.len());
    assert("arm"@.len() != "s390"@.len());
    assert("arm"@.len() != "systemz"@.len());
    assert("arm"@.len() != "riscv"@.len());
    assert("arm64"@.len() != "aarch64"@.len());
    assert("arm64"@.len() != "mips"@.len());
    assert("arm64"@.len() != "ppc"@.len());
    assert("arm64"@.len() != "powerpc"@.len());
    assert("arm64"@.len() != "sysz"@.len());
    assert("arm64"@.len() != "s390"@.len());
    assert("arm64"@.len() != "systemz"@.len());
    assert("arm64"@[0] != "riscv"@[0]);
    assert("aarch64"@.len() != "mips"@.len());
    assert("aarch64"@.len() != "ppc"@.len());
    assert("aarch64"@[0] != "powerpc"@[0]);
    assert("aarch64"@.len() != "sysz"@.len());
    assert("aarch64"@.len() != "s390"@.len());
    assert("aarch64"@[0] != "systemz"@[0]);
    assert("aarch64"@.len() != "riscv"@.len());
    assert("mips"@.len() != "ppc"@.len());
    assert("mips"@.len() != "powerpc"@.len());
    assert("mips"@[0] != "sysz"@[0]);
    assert("mips"@[0] != "s390"@[0]);
    assert("mips"@.len() != "systemz"@.len());
    assert("mips"@.len() != "riscv"@.len());
    assert("ppc"@.len() != "powerpc"@.len());
    assert("ppc"@.len() != "sysz"@.len());
    assert("ppc"@.len() != "s390"@.len());
    assert("ppc"@.len() != "systemz"@.len());
    assert("ppc"@.len() != "riscv"@.len());
    assert("powerpc"@.len() != "sysz"@.len());
    assert("powerpc"@.len() != "s390"@.len());
    assert("powerpc"@[0] != "systemz"@[0]);
    assert("powerpc"@.len() != "riscv"@.len());
    assert("sysz"@[1] != "s390"@[1]);
    assert("sysz"@.len() != "systemz"@.len());
    assert("sysz"@.len() != "riscv"@.len());
    assert("s390"@.len() != "systemz"@.len());
    assert("s390"@.len() != "riscv"@.len());
    assert("systemz"@.len() != "riscv"@.len());
}

/// The normalized form of an optional `mode` argument.
pub open spec fn norm_mode(mode: Option<Seq<char>>) -> Option<Seq<char>> {
    match mode {
        Some(m) => Some(norm_arg(m)),
        None => None,
    }
}

/// What an explicit `arch`/`mode` request selects, after trimming and
/// lower-casing both: `x86`, `x86_64`, `x64` and `i386` select little-endian
/// x86 in the mode `x16`, `x32` (also written `32`) or, by default, `x64`;
/// `arm` selects ARM, in Thumb mode for `thumb`, big-endian for `big`;
/// `arm64`/`aarch64`, `mips`, `ppc`/`powerpc` and `riscv` select their arch,
/// big-endian exactly for the mode `big` (the mode names the byte order);
/// `sysz`/`s390`/`systemz` select big-endian SystemZ; any other arch
/// selects nothing.
pub proof fn law_explicit_arches(arch: Seq<char>, mode: Option<Seq<char>>)
    ensures
        ({
            let a = norm_arg(arch);
            let m = norm_mode(mode);
            let big = m == Some("big"@);
            let r = spec_resolve_explicit(arch, mode);
            &&& a == "x86"@ || a == "x86_64"@ || a == "x64"@ || a == "i386"@ ==> r == Some(
                ArchSelView {
                    arch: "x86"@,
                    mode: if m == Some("x16"@) {
                        "x16"@
                    } else if m == Some("x32"@) || m == Some("32"@) {
                        "x32"@
                    } else {
                        "x64"@
                    },
                    big_endian: false,
                },
            )
            &&& a == "arm"@ ==> r == Some(
                ArchSelView { arch: "arm"@, mode: if m == Some("thumb"@) { "thumb"@ } else { "arm"@ }, big_endian: big },
            )
            &&& a == "arm64"@ || a == "aarch64"@ ==> r == Some(
                ArchSelView { arch: "arm64"@, mode: endian_word(!big), big_endian: big },
            )
            &&& a == "mips"@ ==> r == Some(ArchSelView { arch: "mips"@, mode: endian_word(!big), big_endian: big })
            &&& a == "ppc"@ || a == "powerpc"@ ==> r == Some(
                ArchSelView { arch: "ppc"@, mode: endian_word(!big), big_endian: big },
            )
            &&& a == "sysz"@ || a == "s390"@ || a == "systemz"@ ==> r == Some(
                ArchSelView { arch: "sysz"@, mode: "big"@, big_endian: true },
            )
            &&& a == "riscv"@ ==> r == Some(ArchSelView { arch: "riscv"@, mode: endian_word(!big), big_endian: big })
            &&& a != "x86"@ && a != "x86_64"@ && a != "x64"@ && a != "i386"@ && a != "arm"@ && a != "arm64"@ && a
                != "aarch64"@ && a != "mips"@ && a != "ppc"@ && a != "powerpc"@ && a != "sysz"@ && a != "s390"@ && a
                != "systemz"@ && a != "riscv"@ ==> r is None
        }),
{
    lemma_arch_names_distinct();
}

/// Whether `b` starts with one of the four thin Mach-O magic numbers as they
/// lie in the file: `fe ed fa ce`, `fe ed fa cf` (big-endian) or
/// `ce fa ed fe`, `cf fa ed fe` (little-endian).
pub open spec fn thin_mach_magic(b: Seq<u8>) -> bool {
    b.len() >= 4 && {
        let m = b.take(4);
        ||| m == seq![0xfeu8, 0xedu8, 0xfau8, 0xceu8]
        ||| m == seq![0xfeu8, 0xedu8, 0xfau8, 0xcfu8]
        ||| m == seq![0xceu8, 0xfau8, 0xedu8, 0xfeu8]
        ||| m == seq![0xcfu8, 0xfau8, 0xedu8, 0xfeu8]
    }
}

/// The Mach-O entry check refuses nothing but a thin Mach-O: a blob that
/// does not start with a thin Mach-O magic number, or whose header lists no
/// load command, always passes it.
pub proof fn law_entry_check_refuses_only_thin_macho(b: Seq<u8>)
    ensures
        !thin_mach_magic(b) ==> !mach_entry_risky(b),
        b.len() >= 20 && b[16] == 0 && b[17] == 0 && b[18] == 0 && b[19] == 0 ==> !mach_entry_risky(b),
{
    if b.len() >= 4 {
        let m = rd_u32(b, 0, false);
        let t = b.take(4);
        assert(t[0] == b[0] && t[1] == b[1] && t[2] == b[2] && t[3] == b[3]);
        if m == 0xfeedface {
            assert(b[0] == 0xfe && b[1] == 0xed && b[2] == 0xfa && b[3] == 0xce);
            assert(t =~= seq![0xfeu8, 0xedu8, 0xfau8, 0xceu8]);
        } else if m == 0xcefaedfe {
            assert(b[0] == 0xce && b[1] == 0xfa && b[2] == 0xed && b[3] == 0xfe);
            assert(t =~= seq![0xceu8, 0xfau8, 0xedu8, 0xfeu8]);
        } else if m == 0xfeedfacf {
            assert(b[0] == 0xfe && b[1] == 0xed && b[2] == 0xfa && b[3] == 0xcf);
            assert(t =~= seq![0xfeu8, 0xedu8, 0xfau8, 0xcfu8]);
        } else if m == 0xcffaedfe {
            assert(b[0] == 0xcf && b[1] == 0xfa && b[2] == 0xed && b[3] == 0xfe);
            assert(t =~= seq![0xcfu8, 0xfau8, 0xedu8, 0xfeu8]);
        }
    }
    match mach_hdr(b) {
        Some((le, hsize, ncmds)) => {
            if ncmds == 0 {
                let init = EntryScan { main: None, text: None };
                assert(scan(b, le, 0, hsize, init) == Some(init));
            }
        },
        None => {},
    }
}

proof fn lemma_run_spends_budget(d: Seq<u8>, f: BindFacts, off: int, end: int, st: BindState, budget: u64)
    ensures
        run(d, f, off, end, st, budget) matches Some(b) ==> b <= budget,
    decreases (if off < end { end - off } else { 0 }),
{
    if off < end {
        match bind_step(d, f, off, st, budget) {
            Some((o2, st2, b2)) => {
                if o2 > off {
                    lemma_run_spends_budget(d, f, o2, end, st2, b2);
                }
            },
            None => {},
        }
    }
}

/// A `DO_BIND` opcode (high nibble `0x90`) in a stream the bind check
/// accepts binds a record whose segment index names one of the binary's
/// segments, whose dylib ordinal names one of its dylibs, and whose segment
/// offset added to that segment's file offset and to its address stays in
/// the `u64` range; and it uses up one record of the budget.
pub proof fn law_accepted_bind_is_in_range(
    d: Seq<u8>,
    f: BindFacts,
    off: int,
    end: int,
    st: BindState,
    budget: u64,
)
    requires
        0 <= off < end,
        off < d.len(),
        d[off] & 0xf0u8 == 0x90u8,
    ensures
        run(d, f, off, end, st, budget) matches Some(b) ==> {
            &&& (st.seg_index as int) < f.segs.len()
            &&& (st.ordinal as int) < f.nlibs
            &&& f.segs[st.seg_index as int].0 + st.seg_offset <= u64::MAX
            &&& f.segs[st.seg_index as int].1 + st.seg_offset <= u64::MAX
            &&& b < budget
        },
{
    match bind_step(d, f, off, st, budget) {
        Some((o2, st2, b2)) => {
            assert(b2 == budget - 1);
            if o2 > off {
                lemma_run_spends_budget(d, f, o2, end, st2, b2);
            }
        },
        None => {},
    }
}

} // verus!
