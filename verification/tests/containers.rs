//! Container parse scenarios across ELF / PE / Mach-O: arch detection, section
//! enumeration and exec flagging, entry resolution, and that the
//! `section = "auto"` sweep decodes the real `.text` bytes. The fixtures are
//! synthesized: a real ELF relocatable object through `object::write`, a
//! minimal hand-laid PE32+ image and a bare Mach-O header.

use object::write::{Object, StandardSection, Symbol, SymbolSection};
use object::{Architecture, BinaryFormat, Endianness, SymbolFlags, SymbolKind, SymbolScope};

/// push rbp; mov rbp,rsp; ret — the bytes embedded in the ELF/PE `.text`.
const X64_TEXT: &[u8] = b"\x55\x48\x89\xe5\xc3";

/// Image base used by [`build_pe_x64`].
const PE_IMAGE_BASE: u64 = 0x1_4000_0000;
/// `.text` RVA (and entry RVA) used by [`build_pe_x64`].
const PE_TEXT_RVA: u32 = 0x1000;

/// A real ELF relocatable object for X86-64 with a `.text` section holding
/// `code` and a `_start` symbol marking it.
fn build_elf_x64(code: &[u8]) -> Vec<u8> {
    let mut obj = Object::new(BinaryFormat::Elf, Architecture::X86_64, Endianness::Little);
    let text = obj.section_id(StandardSection::Text);
    obj.append_section_data(text, code, 16);
    obj.add_symbol(Symbol {
        name: b"_start".to_vec(),
        value: 0,
        size: code.len() as u64,
        kind: SymbolKind::Text,
        scope: SymbolScope::Linkage,
        weak: false,
        section: SymbolSection::Section(text),
        flags: SymbolFlags::None,
    });
    obj.write().unwrap()
}

/// A minimal but valid PE32+ (AMD64) executable with one executable `.text`
/// section holding `code`, the entry pointing at it.
fn build_pe_x64(code: &[u8]) -> Vec<u8> {
    const FILE_ALIGN: usize = 0x200;
    const SECT_ALIGN: usize = 0x1000;
    let headers_size = FILE_ALIGN;
    let mut buf = vec![0u8; headers_size];

    // DOS header: "MZ" + e_lfanew @ 0x3c.
    buf[0] = b'M';
    buf[1] = b'Z';
    let e_lfanew: u32 = 0x80;
    buf[0x3c..0x40].copy_from_slice(&e_lfanew.to_le_bytes());

    let mut o = e_lfanew as usize;
    buf[o..o + 4].copy_from_slice(b"PE\0\0");
    o += 4;

    // COFF header.
    buf[o..o + 2].copy_from_slice(&0x8664u16.to_le_bytes()); // Machine: AMD64
    buf[o + 2..o + 4].copy_from_slice(&1u16.to_le_bytes()); // NumberOfSections
    let opt_size: u16 = 0xF0;
    buf[o + 16..o + 18].copy_from_slice(&opt_size.to_le_bytes()); // SizeOfOptionalHeader
    buf[o + 18..o + 20].copy_from_slice(&0x22u16.to_le_bytes()); // Characteristics
    o += 20;

    // Optional header (PE32+).
    let opt = o;
    buf[opt..opt + 2].copy_from_slice(&0x20bu16.to_le_bytes()); // Magic: PE32+
    buf[opt + 16..opt + 20].copy_from_slice(&PE_TEXT_RVA.to_le_bytes()); // AddressOfEntryPoint
    buf[opt + 20..opt + 24].copy_from_slice(&PE_TEXT_RVA.to_le_bytes()); // BaseOfCode
    buf[opt + 24..opt + 32].copy_from_slice(&PE_IMAGE_BASE.to_le_bytes()); // ImageBase
    buf[opt + 32..opt + 36].copy_from_slice(&(SECT_ALIGN as u32).to_le_bytes()); // SectionAlignment
    buf[opt + 36..opt + 40].copy_from_slice(&(FILE_ALIGN as u32).to_le_bytes()); // FileAlignment
    buf[opt + 40..opt + 42].copy_from_slice(&6u16.to_le_bytes()); // MajorOSVersion
    buf[opt + 48..opt + 50].copy_from_slice(&6u16.to_le_bytes()); // MajorSubsystemVersion
    let size_of_image = PE_TEXT_RVA as usize + SECT_ALIGN;
    buf[opt + 56..opt + 60].copy_from_slice(&(size_of_image as u32).to_le_bytes()); // SizeOfImage
    buf[opt + 60..opt + 64].copy_from_slice(&(headers_size as u32).to_le_bytes()); // SizeOfHeaders
    buf[opt + 68..opt + 70].copy_from_slice(&3u16.to_le_bytes()); // Subsystem: CONSOLE
    buf[opt + 108..opt + 112].copy_from_slice(&16u32.to_le_bytes()); // NumberOfRvaAndSizes
    o += opt_size as usize;

    // Section header: .text
    let s = o;
    buf[s..s + 8].copy_from_slice(b".text\0\0\0");
    buf[s + 8..s + 12].copy_from_slice(&(code.len() as u32).to_le_bytes()); // VirtualSize
    buf[s + 12..s + 16].copy_from_slice(&PE_TEXT_RVA.to_le_bytes()); // VirtualAddress
    let raw_size = code.len().div_ceil(FILE_ALIGN) * FILE_ALIGN;
    buf[s + 16..s + 20].copy_from_slice(&(raw_size as u32).to_le_bytes()); // SizeOfRawData
    buf[s + 20..s + 24].copy_from_slice(&(headers_size as u32).to_le_bytes()); // PointerToRawData
    buf[s + 36..s + 40].copy_from_slice(&0x6000_0020u32.to_le_bytes()); // Characteristics

    // Section raw data.
    buf.resize(headers_size + raw_size, 0);
    buf[headers_size..headers_size + code.len()].copy_from_slice(code);
    buf
}

/// A bare 64-bit little-endian arm64 Mach-O executable header with no load
/// commands.
fn build_macho_arm64_header() -> Vec<u8> {
    let mut buf = Vec::new();
    buf.extend_from_slice(&0xfeed_facfu32.to_le_bytes()); // magic: MH_MAGIC_64
    buf.extend_from_slice(&0x0100_000cu32.to_le_bytes()); // cputype: ARM64
    buf.extend_from_slice(&0u32.to_le_bytes()); // cpusubtype
    buf.extend_from_slice(&2u32.to_le_bytes()); // filetype: MH_EXECUTE
    buf.extend_from_slice(&0u32.to_le_bytes()); // ncmds
    buf.extend_from_slice(&0u32.to_le_bytes()); // sizeofcmds
    buf.extend_from_slice(&0u32.to_le_bytes()); // flags
    buf.extend_from_slice(&0u32.to_le_bytes()); // reserved
    buf
}

/// Shannon entropy of a byte slice in bits per byte.
fn entropy_of(data: &[u8]) -> f64 {
    if data.is_empty() {
        return 0.0;
    }
    let mut counts = [0u64; 256];
    for &b in data {
        counts[b as usize] += 1;
    }
    let n = data.len() as f64;
    counts
        .iter()
        .filter(|&&c| c > 0)
        .map(|&c| {
            let p = c as f64 / n;
            -p * p.log2()
        })
        .sum()
}

#[test]
fn elf_x64_parses_and_sweeps() {
    let bytes = build_elf_x64(X64_TEXT);

    let p = disasm_core::probe(&bytes);
    assert_eq!(p.container, "elf");
    assert_eq!(p.arch.as_deref(), Some("x86"));
    assert_eq!(p.mode.as_deref(), Some("x64"));
    assert_eq!(p.bits, Some(64));

    let secs = disasm_core::sections(&bytes);
    let text = secs
        .iter()
        .find(|s| s.executable && s.name == ".text")
        .expect("executable .text section");
    assert_eq!(text.kind, "code");
    assert_eq!(text.bytes(&bytes), X64_TEXT);
    assert!(entropy_of(text.bytes(&bytes)) > 0.0);

    let insns = disasm_core::disassemble(&bytes, None, None, None, "auto");
    let mnems: Vec<&str> = insns.iter().map(|i| i.mnemonic.as_str()).collect();
    assert_eq!(mnems, ["push", "mov", "ret"]);
}

#[test]
fn pe_x64_parses_entry_absolute() {
    let bytes = build_pe_x64(X64_TEXT);

    let p = disasm_core::probe(&bytes);
    assert_eq!(p.container, "pe");
    assert_eq!(p.arch.as_deref(), Some("x86"));
    assert_eq!(p.mode.as_deref(), Some("x64"));
    // Entry is absolute (image base + RVA), consistent with section VAs.
    assert_eq!(p.entry, Some(PE_IMAGE_BASE + PE_TEXT_RVA as u64));

    let secs = disasm_core::sections(&bytes);
    let text = secs.iter().find(|s| s.executable).expect("exec section");
    assert_eq!(text.name, ".text");
    assert_eq!(text.vaddr, PE_IMAGE_BASE + PE_TEXT_RVA as u64);
    assert_eq!(text.bytes(&bytes), X64_TEXT);

    let e = disasm_core::entrypoint(&bytes);
    assert_eq!(e.arch.as_deref(), Some("x86"));
    assert_eq!(e.vaddr, Some(PE_IMAGE_BASE + PE_TEXT_RVA as u64));
    assert_eq!(e.section.as_deref(), Some(".text"));

    // section = "auto" decodes the real .text at its absolute VA.
    let insns = disasm_core::disassemble(&bytes, None, None, None, "auto");
    assert_eq!(insns[0].address, PE_IMAGE_BASE + PE_TEXT_RVA as u64);
    assert_eq!(insns[0].mnemonic, "push");

    // A named-section sweep restricts to .text.
    let named = disasm_core::disassemble(&bytes, None, None, None, ".text");
    assert_eq!(named.len(), 3);
}

#[test]
fn format_probe_matches_container() {
    assert_eq!(
        disasm_core::probe(&build_elf_x64(X64_TEXT)).container,
        "elf"
    );
    assert_eq!(disasm_core::probe(&build_pe_x64(X64_TEXT)).container, "pe");
    assert_eq!(
        disasm_core::probe(&build_macho_arm64_header()).container,
        "macho"
    );
    assert_eq!(
        disasm_core::probe(b"plain text, not a binary").container,
        "raw"
    );
}

#[test]
fn macho_header_probes_arm64() {
    let p = disasm_core::probe(&build_macho_arm64_header());
    assert_eq!(p.container, "macho");
    assert_eq!(p.arch.as_deref(), Some("arm64"));
    assert_eq!(p.bits, Some(64));
    assert_eq!(p.endian.as_deref(), Some("little"));
    // No load commands: no sections, no imports, no entry section.
    assert!(disasm_core::sections(&build_macho_arm64_header()).is_empty());
    assert!(disasm_core::imports(&build_macho_arm64_header()).is_empty());
}

#[test]
fn pe_capabilities_run_over_real_code() {
    let bytes = build_pe_x64(X64_TEXT);
    let caps = disasm_core::capabilities(&bytes);
    assert!(caps.len() <= disasm_core::limits::MAX_CAPABILITIES);
}

#[test]
fn elf_anti_analysis_instructions_are_tagged() {
    // rdtsc; cpuid; int3; int 0x2d; ret
    let bytes = build_elf_x64(b"\x0f\x31\x0f\xa2\xcc\xcd\x2d\xc3");
    let caps = disasm_core::capabilities(&bytes);
    let anti: Vec<(&str, &str, &str)> = caps
        .iter()
        .filter(|c| c.rule.starts_with("anti"))
        .map(|c| (c.rule.as_str(), c.attack_id.as_str(), c.evidence.as_str()))
        .collect();
    assert_eq!(
        anti,
        [
            ("antivm:rdtsc_timing", "T1497", "rdtsc"),
            ("antivm:cpuid_check", "T1497.001", "cpuid"),
            ("antidbg:int3", "T1622", "int3"),
            ("antidbg:int_0x2d", "T1622", "int 0x2d"),
        ]
    );
    let int2d = caps.iter().find(|c| c.rule == "antidbg:int_0x2d").unwrap();
    assert_eq!(int2d.severity, "medium");
}

#[test]
fn pe_entry_section_contains_entry() {
    let bytes = build_pe_x64(X64_TEXT);
    let e = disasm_core::entrypoint(&bytes);
    let secs = disasm_core::sections(&bytes);
    let name = e.section.clone().expect("entry section");
    let va = e.vaddr.unwrap();
    let s = secs.iter().find(|s| s.name == name).unwrap();
    assert!(va >= s.vaddr && va < s.vaddr + s.size);
    assert_eq!(e.file_off, Some(s.file_off + (va - s.vaddr)));
}

#[test]
fn named_section_that_does_not_exist_sweeps_nothing() {
    let bytes = build_pe_x64(X64_TEXT);
    assert!(disasm_core::disassemble(&bytes, None, None, None, ".data").is_empty());
    // "all" sweeps the whole blob at base 0 even for a container.
    let all = disasm_core::disassemble(&bytes, None, None, None, "all");
    assert_eq!(all[0].address, 0);
}

#[test]
fn explicit_base_overrides_single_section_address() {
    let bytes = build_pe_x64(X64_TEXT);
    let insns = disasm_core::disassemble(&bytes, None, None, Some(0x7000), "auto");
    assert_eq!(insns[0].address, 0x7000);
    assert_eq!(insns[0].mnemonic, "push");
}

/// An arm64 Mach-O whose only load command is `LC_DYLD_INFO_ONLY`, with a
/// bind stream that names segment 3 and dylib 5 although the file has no
/// segments and no dylibs.
fn build_macho_bad_bind() -> Vec<u8> {
    let mut buf = Vec::new();
    buf.extend_from_slice(&0xfeed_facfu32.to_le_bytes()); // magic: MH_MAGIC_64
    buf.extend_from_slice(&0x0100_000cu32.to_le_bytes()); // cputype: ARM64
    buf.extend_from_slice(&0u32.to_le_bytes()); // cpusubtype
    buf.extend_from_slice(&2u32.to_le_bytes()); // filetype: MH_EXECUTE
    buf.extend_from_slice(&1u32.to_le_bytes()); // ncmds
    buf.extend_from_slice(&48u32.to_le_bytes()); // sizeofcmds
    buf.extend_from_slice(&0u32.to_le_bytes()); // flags
    buf.extend_from_slice(&0u32.to_le_bytes()); // reserved
    let stream: &[u8] = &[0x15, 0x40, b'_', b'f', b'o', b'o', 0, 0x73, 0x00, 0x90, 0x00];
    let fields: [u32; 12] = [
        0x8000_0022, // LC_DYLD_INFO_ONLY
        48,
        0,
        0,
        80, // bind_off
        stream.len() as u32,
        0,
        0,
        0,
        0,
        0,
        0,
    ];
    for f in fields {
        buf.extend_from_slice(&f.to_le_bytes());
    }
    buf.extend_from_slice(stream);
    buf
}

#[test]
fn macho_bind_stream_out_of_range_gives_no_imports() {
    let bytes = build_macho_bad_bind();
    assert_eq!(disasm_core::probe(&bytes).container, "macho");
    assert!(disasm_core::imports(&bytes).is_empty());
    let caps = disasm_core::capabilities(&bytes);
    assert!(caps.len() <= disasm_core::limits::MAX_CAPABILITIES);
}

#[test]
fn anti_analysis_rows_need_their_instructions() {
    // Only `cpuid` occurs: of the four anti-analysis rows only its row comes.
    let bytes = build_elf_x64(b"\x55\x0f\xa2\x5d\xc3");
    let caps = disasm_core::capabilities(&bytes);
    let anti: Vec<&str> = caps
        .iter()
        .filter(|c| c.rule.starts_with("anti"))
        .map(|c| c.rule.as_str())
        .collect();
    assert_eq!(anti, ["antivm:cpuid_check"]);
    // Plain code gives none of them.
    let plain = disasm_core::capabilities(&build_elf_x64(X64_TEXT));
    assert!(plain.iter().all(|c| !c.rule.starts_with("anti")));
}

/// A PE32+ (AMD64) image whose executable sections are `(name, rva, code)`,
/// listed in the section table in the order given; each section's code fits
/// in one file-alignment block.
fn build_pe_x64_sections(sections: &[(&[u8; 8], u32, &[u8])]) -> Vec<u8> {
    const FILE_ALIGN: usize = 0x200;
    const SECT_ALIGN: usize = 0x1000;
    let headers_size = FILE_ALIGN;
    let mut buf = vec![0u8; headers_size];
    buf[0] = b'M';
    buf[1] = b'Z';
    let e_lfanew: u32 = 0x80;
    buf[0x3c..0x40].copy_from_slice(&e_lfanew.to_le_bytes());
    let mut o = e_lfanew as usize;
    buf[o..o + 4].copy_from_slice(b"PE\0\0");
    o += 4;
    buf[o..o + 2].copy_from_slice(&0x8664u16.to_le_bytes());
    buf[o + 2..o + 4].copy_from_slice(&(sections.len() as u16).to_le_bytes());
    let opt_size: u16 = 0xF0;
    buf[o + 16..o + 18].copy_from_slice(&opt_size.to_le_bytes());
    buf[o + 18..o + 20].copy_from_slice(&0x22u16.to_le_bytes());
    o += 20;
    let opt = o;
    let last_rva = sections.iter().map(|s| s.1).max().unwrap();
    buf[opt..opt + 2].copy_from_slice(&0x20bu16.to_le_bytes());
    buf[opt + 16..opt + 20].copy_from_slice(&sections[0].1.to_le_bytes());
    buf[opt + 20..opt + 24].copy_from_slice(&sections[0].1.to_le_bytes());
    buf[opt + 24..opt + 32].copy_from_slice(&PE_IMAGE_BASE.to_le_bytes());
    buf[opt + 32..opt + 36].copy_from_slice(&(SECT_ALIGN as u32).to_le_bytes());
    buf[opt + 36..opt + 40].copy_from_slice(&(FILE_ALIGN as u32).to_le_bytes());
    buf[opt + 40..opt + 42].copy_from_slice(&6u16.to_le_bytes());
    buf[opt + 48..opt + 50].copy_from_slice(&6u16.to_le_bytes());
    let size_of_image = last_rva as usize + SECT_ALIGN;
    buf[opt + 56..opt + 60].copy_from_slice(&(size_of_image as u32).to_le_bytes());
    buf[opt + 60..opt + 64].copy_from_slice(&(headers_size as u32).to_le_bytes());
    buf[opt + 68..opt + 70].copy_from_slice(&3u16.to_le_bytes());
    buf[opt + 108..opt + 112].copy_from_slice(&16u32.to_le_bytes());
    o += opt_size as usize;
    buf.resize(headers_size + sections.len() * FILE_ALIGN, 0);
    for (k, (name, rva, code)) in sections.iter().enumerate() {
        let s = o + k * 40;
        let raw_at = headers_size + k * FILE_ALIGN;
        buf[s..s + 8].copy_from_slice(&name[..]);
        buf[s + 8..s + 12].copy_from_slice(&(code.len() as u32).to_le_bytes());
        buf[s + 12..s + 16].copy_from_slice(&rva.to_le_bytes());
        buf[s + 16..s + 20].copy_from_slice(&(FILE_ALIGN as u32).to_le_bytes());
        buf[s + 20..s + 24].copy_from_slice(&(raw_at as u32).to_le_bytes());
        buf[s + 36..s + 40].copy_from_slice(&0x6000_0020u32.to_le_bytes());
        buf[raw_at..raw_at + code.len()].copy_from_slice(code);
    }
    buf
}

#[test]
fn auto_sweep_follows_address_order_not_table_order() {
    // `.late` (two nops at RVA 0x2000) is listed before `.text` (the
    // prologue at RVA 0x1000).
    let bytes = build_pe_x64_sections(&[(b".late\0\0\0", 0x2000, b"\x90\x90"), (b".text\0\0\0", 0x1000, X64_TEXT)]);
    let secs = disasm_core::sections(&bytes);
    assert_eq!(secs.len(), 2);
    assert_eq!(secs[0].name, ".late");
    let rows = disasm_core::disassemble(&bytes, None, None, None, "auto");
    let mnemonics: Vec<&str> = rows.iter().map(|r| r.mnemonic.as_str()).collect();
    assert_eq!(mnemonics, ["push", "mov", "ret", "nop", "nop"]);
    assert_eq!(rows[0].address, PE_IMAGE_BASE + 0x1000);
    assert_eq!(rows[3].address, PE_IMAGE_BASE + 0x2000);
    assert!(rows.windows(2).all(|w| w[0].address <= w[1].address));
}

/// A little-endian 64-bit arm64 Mach-O with one `__TEXT` segment
/// (`vmaddr`, `fileoff`, no file data) and an `LC_MAIN` at `entryoff`.
fn build_macho_main(vmaddr: u64, fileoff: u64, entryoff: u64) -> Vec<u8> {
    let mut buf = Vec::new();
    buf.extend_from_slice(&0xfeed_facfu32.to_le_bytes()); // magic: MH_MAGIC_64
    buf.extend_from_slice(&0x0100_000cu32.to_le_bytes()); // cputype: ARM64
    buf.extend_from_slice(&0u32.to_le_bytes()); // cpusubtype
    buf.extend_from_slice(&2u32.to_le_bytes()); // filetype: MH_EXECUTE
    buf.extend_from_slice(&2u32.to_le_bytes()); // ncmds
    buf.extend_from_slice(&96u32.to_le_bytes()); // sizeofcmds
    buf.extend_from_slice(&0u32.to_le_bytes()); // flags
    buf.extend_from_slice(&0u32.to_le_bytes()); // reserved
    // LC_SEGMENT_64 "__TEXT"
    buf.extend_from_slice(&0x19u32.to_le_bytes());
    buf.extend_from_slice(&72u32.to_le_bytes());
    let mut name = [0u8; 16];
    name[..6].copy_from_slice(b"__TEXT");
    buf.extend_from_slice(&name);
    buf.extend_from_slice(&vmaddr.to_le_bytes());
    buf.extend_from_slice(&0x1000u64.to_le_bytes()); // vmsize
    buf.extend_from_slice(&fileoff.to_le_bytes());
    buf.extend_from_slice(&0u64.to_le_bytes()); // filesize
    buf.extend_from_slice(&[0u8; 16]); // maxprot, initprot, nsects, flags
    // LC_MAIN
    buf.extend_from_slice(&0x8000_0028u32.to_le_bytes());
    buf.extend_from_slice(&24u32.to_le_bytes());
    buf.extend_from_slice(&entryoff.to_le_bytes());
    buf.extend_from_slice(&0u64.to_le_bytes()); // stacksize
    buf
}

#[test]
fn macho_main_entry_maps_through_text_segment() {
    let bytes = build_macho_main(0x1_0000_0000, 0, 0x40);
    let p = disasm_core::probe(&bytes);
    assert_eq!(p.container, "macho");
    assert_eq!(p.arch.as_deref(), Some("arm64"));
    assert_eq!(disasm_core::entrypoint(&bytes).vaddr, Some(0x1_0000_0040));
}

#[test]
fn macho_main_entry_that_overflows_is_not_parsed() {
    // `__TEXT` maps below its file offset: `vmaddr - fileoff` leaves u64.
    let bytes = build_macho_main(0, 0x1000, 0);
    assert_eq!(disasm_core::probe(&bytes).container, "raw");
    assert!(disasm_core::sections(&bytes).is_empty());
    assert!(disasm_core::imports(&bytes).is_empty());
    assert_eq!(disasm_core::entrypoint(&bytes).vaddr, None);
    assert!(disasm_core::capabilities(&bytes).len() <= disasm_core::limits::MAX_CAPABILITIES);
    let rows = disasm_core::disassemble(&bytes, None, None, None, "auto");
    assert_eq!(rows.len(), 1);
    assert_eq!(rows[0].mnemonic, "(error)");
    // `vmaddr - fileoff + entryoff` past u64::MAX.
    let wide = build_macho_main(u64::MAX - 0x10, 0, 0x20);
    assert_eq!(disasm_core::probe(&wide).container, "raw");
    // The same binary as the first slice of a fat Mach-O.
    let mut fat = Vec::new();
    fat.extend_from_slice(&0xcafe_babeu32.to_be_bytes());
    fat.extend_from_slice(&1u32.to_be_bytes());
    fat.extend_from_slice(&0x0100_000cu32.to_be_bytes()); // cputype
    fat.extend_from_slice(&0u32.to_be_bytes()); // cpusubtype
    fat.extend_from_slice(&28u32.to_be_bytes()); // offset
    fat.extend_from_slice(&(bytes.len() as u32).to_be_bytes()); // size
    fat.extend_from_slice(&0u32.to_be_bytes()); // align
    fat.extend_from_slice(&bytes);
    assert!(disasm_core::sections(&fat).is_empty());
    assert!(disasm_core::imports(&fat).is_empty());
    let _ = disasm_core::probe(&fat);
    let _ = disasm_core::entrypoint(&fat);
}
