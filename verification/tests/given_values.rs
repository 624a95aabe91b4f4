//! The verified steps that follow each outside call, checked on values
//! written by hand: what goblin or Capstone would report is given directly.

use disasm_core::capabilities::capabilities_from;
use disasm_core::container::{ElfHeader, Header, MachHeader, PeHeader};
use disasm_core::engine::{decoded_row_of, sweep_step, DecodedInsn, Insn};
use disasm_core::entrypoint::entrypoint_of;
use disasm_core::imports::{elf_import_of, mach_import_of, pe_import_of, Import};
use disasm_core::objfile::{ElfShdr, ElfSym, MachImport, MachSection, PeImport, PeSection};
use disasm_core::probe::{probe_header, Probe};
use disasm_core::sections::{elf_section, mach_section_of, pe_section_of, Section};
use disasm_core::strings::StringHit;
use disasm_core::sweep::select_regions;

fn insn(mnemonic: &str, op_str: &str) -> Insn {
    Insn {
        address: 0,
        size: 1,
        bytes: vec![0],
        mnemonic: mnemonic.to_string(),
        op_str: op_str.to_string(),
        groups: Vec::new(),
    }
}

fn section(name: &str, vaddr: u64, size: u64, executable: bool, range: Option<(usize, usize)>) -> Section {
    Section {
        name: name.to_string(),
        kind: if executable { "code" } else { "data" }.to_string(),
        vaddr,
        size,
        file_off: 0x400,
        executable,
        data_range: range,
    }
}

#[test]
fn elf_arm_header_with_odd_entry_is_thumb() {
    let p = probe_header(&Header::Elf(ElfHeader {
        machine: 40,
        little_endian: true,
        is_64: false,
        entry: 0x8001,
    }));
    assert_eq!(p.container, "elf");
    assert_eq!(p.arch.as_deref(), Some("arm"));
    assert_eq!(p.mode.as_deref(), Some("thumb"));
    assert_eq!(p.bits, Some(32));
    assert_eq!(p.endian.as_deref(), Some("little"));
    assert_eq!(p.entry, Some(0x8001));
}

#[test]
fn pe_header_entry_is_image_base_plus_rva() {
    let p = probe_header(&Header::Pe(PeHeader {
        machine: 0x14c,
        is_64: false,
        image_base: 0x40_0000,
        entry: 0x1234,
    }));
    assert_eq!(p.container, "pe");
    assert_eq!((p.arch.as_deref(), p.mode.as_deref()), (Some("x86"), Some("x32")));
    assert_eq!(p.bits, Some(32));
    assert_eq!(p.entry, Some(0x40_1234));
    // The sum wraps rather than overflowing.
    let w = probe_header(&Header::Pe(PeHeader {
        machine: 0x8664,
        is_64: true,
        image_base: u64::MAX,
        entry: 2,
    }));
    assert_eq!(w.entry, Some(1));
}

#[test]
fn mach_and_fat_headers() {
    let m = probe_header(&Header::Mach(MachHeader {
        cputype: 0x0100_0012,
        little_endian: false,
        is_64: true,
        entry: 0x10,
    }));
    assert_eq!(m.container, "macho");
    assert_eq!((m.arch.as_deref(), m.mode.as_deref()), (Some("ppc"), Some("big")));
    assert_eq!(m.endian.as_deref(), Some("big"));
    let f = probe_header(&Header::Fat(None));
    assert_eq!(f.container, "fat-macho");
    assert!(f.arch.is_none() && f.bits.is_none() && f.entry.is_none());
    let u = probe_header(&Header::Mach(MachHeader {
        cputype: 99,
        little_endian: true,
        is_64: false,
        entry: 0,
    }));
    assert!(u.arch.is_none() && u.mode.is_none());
    assert!(u.arch_sel().is_none());
    assert_eq!(probe_header(&Header::Raw).container, "raw");
}

#[test]
fn elf_section_kinds_and_clamped_ranges() {
    let bss = elf_section(
        &ElfShdr { sh_name: 0, sh_type: 8, sh_flags: 3, sh_addr: 0x60_0000, sh_offset: 0x1000, sh_size: 0x200 },
        ".bss".to_string(),
        0x2000,
    );
    assert_eq!(bss.kind, "bss");
    assert!(!bss.executable);
    assert_eq!(bss.data_range, None);
    let text = elf_section(
        &ElfShdr { sh_name: 0, sh_type: 1, sh_flags: 6, sh_addr: 0x40_1000, sh_offset: 0x100, sh_size: 0x1_0000 },
        ".text".to_string(),
        0x200,
    );
    assert_eq!(text.kind, "code");
    assert!(text.executable);
    assert_eq!(text.data_range, Some((0x100, 0x100)));
    let beyond = elf_section(
        &ElfShdr { sh_name: 0, sh_type: 1, sh_flags: 2, sh_addr: 0, sh_offset: 0x300, sh_size: 4 },
        ".rodata.str".to_string(),
        0x200,
    );
    assert_eq!(beyond.kind, "rodata");
    assert_eq!(beyond.data_range, None);
}

#[test]
fn pe_section_name_trimmed_and_raw_length_bounded() {
    let s = pe_section_of(
        &PeSection {
            characteristics: 0x4000_0040,
            size_of_raw_data: 0x400,
            virtual_size: 0x10,
            pointer_to_raw_data: 0x200,
            virtual_address: 0x3000,
        },
        ".rdata\0\0".to_string(),
        0x1_4000_0000,
        0x1000,
    );
    assert_eq!(s.name, ".rdata");
    assert_eq!(s.kind, "rodata");
    assert_eq!(s.vaddr, 0x1_4000_3000);
    assert_eq!(s.size, 0x10);
    assert_eq!(s.data_range, Some((0x200, 0x10)));
    let blob = vec![7u8; 0x1000];
    assert_eq!(s.bytes(&blob).len(), 0x10);
}

#[test]
fn mach_section_named_segment_comma_section() {
    let s = mach_section_of(
        &MachSection { addr: 0x1_0000_0f00, size: 0x40, offset: 0xf00, flags: 0 },
        "__TEXT",
        "__text",
        0x1000,
    );
    assert_eq!(s.name, "__TEXT,__text");
    assert_eq!(s.kind, "code");
    assert!(s.executable);
    assert_eq!(s.data_range, Some((0xf00, 0x40)));
    let z = mach_section_of(
        &MachSection { addr: 0x2000, size: 0x40, offset: 0, flags: 1 },
        "__DATA",
        "__bss",
        0x1000,
    );
    assert_eq!(z.kind, "bss");
    assert_eq!(z.data_range, None);
}

#[test]
fn imports_from_symbols_and_entries() {
    let global_undef = ElfSym { st_name: 1, st_info: 0x12, st_value: 0 };
    let i = elf_import_of(&global_undef, Some("puts".to_string())).unwrap();
    assert_eq!(i.name.as_deref(), Some("puts"));
    assert_eq!(i.kind, "named");
    assert!(i.library.is_none() && i.ordinal.is_none());
    assert!(elf_import_of(&global_undef, Some(String::new())).is_none());
    let local = ElfSym { st_name: 1, st_info: 0x02, st_value: 0 };
    assert!(elf_import_of(&local, Some("x".to_string())).is_none());
    let defined = ElfSym { st_name: 1, st_info: 0x12, st_value: 0x400 };
    assert!(elf_import_of(&defined, Some("x".to_string())).is_none());

    let o = pe_import_of(PeImport { name: "ORDINAL 7".to_string(), dll: "ws2_32.dll".to_string(), ordinal: 7 });
    assert_eq!((o.name.as_deref(), o.ordinal, o.kind.as_str()), (None, Some(7), "ordinal"));
    assert_eq!(o.library.as_deref(), Some("ws2_32.dll"));
    let n = pe_import_of(PeImport { name: "Sleep".to_string(), dll: String::new(), ordinal: 3 });
    assert_eq!((n.name.as_deref(), n.kind.as_str()), (Some("Sleep"), "named"));
    assert!(n.library.is_none());

    let m = mach_import_of(MachImport { name: "_puts".to_string(), dylib: "libSystem".to_string(), is_lazy: true });
    assert_eq!((m.name.as_deref(), m.kind.as_str()), (Some("_puts"), "delayed"));
    assert_eq!(m.library.as_deref(), Some("libSystem"));
}

#[test]
fn entry_resolves_to_containing_section() {
    let p = Probe {
        container: "pe".to_string(),
        arch: Some("x86".to_string()),
        mode: Some("x64".to_string()),
        bits: Some(64),
        endian: Some("little".to_string()),
        entry: Some(0x1010),
    };
    let secs = [
        section(".data", 0x2000, 0x100, false, None),
        section(".text", 0x1000, 0x100, true, Some((0x400, 0x100))),
    ];
    let e = entrypoint_of(p.clone(), &secs);
    assert_eq!(e.vaddr, Some(0x1010));
    assert_eq!(e.file_off, Some(0x410));
    assert_eq!(e.section.as_deref(), Some(".text"));
    assert_eq!(e.arch.as_deref(), Some("x86"));
    let mut outside = p.clone();
    outside.entry = Some(0x9000);
    let e = entrypoint_of(outside, &secs);
    assert_eq!(e.vaddr, Some(0x9000));
    assert!(e.section.is_none() && e.file_off.is_none());
    let mut raw = p;
    raw.container = "raw".to_string();
    let e = entrypoint_of(raw, &secs);
    assert!(e.arch.is_none() && e.vaddr.is_none() && e.section.is_none());
}

#[test]
fn decoded_instruction_becomes_normalized_row() {
    let d = DecodedInsn {
        address: 0x10,
        bytes: vec![0xc3],
        mnemonic: Some("ret".to_string()),
        op_str: None,
        group_names: vec!["ret".to_string(), "mode64".to_string(), "ret".to_string(), "stack".to_string()],
    };
    assert_eq!(
        decoded_row_of(&d),
        Insn {
            address: 0x10,
            size: 1,
            bytes: vec![0xc3],
            mnemonic: "ret".to_string(),
            op_str: String::new(),
            groups: vec!["ret".to_string()],
        }
    );
    let long = DecodedInsn {
        address: 0,
        bytes: vec![0x90; 300],
        mnemonic: None,
        op_str: Some("x".to_string()),
        group_names: Vec::new(),
    };
    let r = decoded_row_of(&long);
    assert_eq!(r.size, 255);
    assert_eq!(r.mnemonic, "");
}

#[test]
fn sweep_step_bad_byte_and_cap() {
    let code = [0x90u8, 0x06];
    let mut out = Vec::new();
    let next = sweep_step(&[], &code, 1, 0x100, &mut out, 10);
    assert_eq!(next, 2);
    assert_eq!(out.len(), 1);
    assert_eq!(out[0].address, 0x101);
    assert_eq!(out[0].mnemonic, ".byte");
    assert_eq!(out[0].op_str, "0x06");
    assert_eq!(out[0].bytes, vec![0x06]);

    let ds = [
        DecodedInsn { address: 0, bytes: vec![0x90], mnemonic: Some("nop".to_string()), op_str: None, group_names: Vec::new() },
        DecodedInsn { address: 1, bytes: vec![0x48, 0x89], mnemonic: Some("mov".to_string()), op_str: None, group_names: Vec::new() },
    ];
    let mut out = Vec::new();
    let next = sweep_step(&ds, &[0x90, 0x48, 0x89], 0, 0, &mut out, 1);
    assert_eq!(next, 1);
    assert_eq!(out.len(), 1);
    assert_eq!(out[0].mnemonic, "nop");
    let mut out = Vec::new();
    let next = sweep_step(&ds, &[0x90, 0x48, 0x89], 0, 0, &mut out, 10);
    assert_eq!(next, 3);
    assert_eq!(out.len(), 2);
}

#[test]
fn matcher_over_given_rows() {
    let imps = [
        Import { library: Some("KERNEL32.dll".to_string()), name: Some("virtualallocex".to_string()), ordinal: Some(1), kind: "named".to_string() },
        Import { library: None, name: None, ordinal: Some(9), kind: "ordinal".to_string() },
    ];
    let hits = [StringHit { offset: 0, encoding: "ascii".to_string(), value: "Run: QEMU guest".to_string() }];
    let rows = [insn("int3", ""), insn("int", " 0x2d "), insn("rdtscp", ""), insn("int3", "")];
    let caps = capabilities_from(&imps, &hits, &rows);
    let got: Vec<(&str, &str)> = caps.iter().map(|c| (c.rule.as_str(), c.evidence.as_str())).collect();
    assert_eq!(
        got,
        [
            ("inject:VirtualAllocEx", "virtualallocex"),
            ("antivm:qemu", "Run: QEMU guest"),
            ("antivm:rdtsc_timing", "rdtsc"),
            ("antidbg:int3", "int3"),
            ("antidbg:int_0x2d", "int 0x2d"),
        ]
    );
    assert_eq!(caps[0].attack_id, "T1055");
    assert_eq!(caps[0].severity, "high");
}

#[test]
fn region_selection_rules() {
    let blob: Vec<u8> = (0u8..16).collect();
    let none: [Section; 0] = [];
    let r = select_regions(&blob, &none, "auto", Some(0x10));
    assert_eq!(r.len(), 1);
    assert_eq!(r[0].0, 0x10);
    assert_eq!(r[0].1, &blob[..]);

    let secs = [
        section(".text", 0x1000, 2, true, Some((0, 2))),
        section(".data", 0x2000, 4, false, Some((4, 4))),
    ];
    let r = select_regions(&blob, &secs, "auto", Some(0x5));
    assert_eq!(r, vec![(0x5u64, &blob[0..2])]);
    let r = select_regions(&blob, &secs, ".data", None);
    assert_eq!(r, vec![(0x2000u64, &blob[4..8])]);
    let r = select_regions(&blob, &secs, "all", None);
    assert_eq!(r, vec![(0u64, &blob[..])]);

    let mach = [
        section("__TEXT,__text", 0x100, 2, true, Some((0, 2))),
        section("__TEXT,__stubs", 0x200, 2, true, Some((2, 2))),
    ];
    let r = select_regions(&blob, &mach, "__text", Some(0x9999));
    assert_eq!(r, vec![(0x9999u64, &blob[0..2])]);
    // Two executable sections each keep their own address.
    let r = select_regions(&blob, &mach, "auto", Some(0x9999));
    assert_eq!(r, vec![(0x100u64, &blob[0..2]), (0x200u64, &blob[2..4])]);
}
