//! Concrete instances of the library's laws.

use disasm_core::capabilities::capabilities;
use disasm_core::groups::{normalize, normalize_all};
use disasm_core::limits::{MAX_CAPABILITIES, MAX_STRING_LEN};
use disasm_core::probe::{resolve_explicit, SUPPORTED_ARCHES, SUPPORTED_MODES};
use disasm_core::strings::strings;
use disasm_core::sweep::disassemble;

const VOCABULARY: [&str; 9] = [
    "call",
    "jump",
    "ret",
    "int",
    "privileged",
    "branch_relative",
    "fpu",
    "sse",
    "vm",
];

#[test]
fn explicit_selections_use_advertised_tokens() {
    let arches = [
        "x86", "x86_64", "X64", " i386 ", "arm", "arm64", "aarch64", "mips", "ppc", "powerpc",
        "sysz", "s390", "systemz", "riscv",
    ];
    let modes = [
        None,
        Some("x16"),
        Some("x32"),
        Some("32"),
        Some("64"),
        Some("thumb"),
        Some("BIG"),
        Some("little"),
        Some("weird"),
    ];
    for a in arches {
        for m in modes {
            let s = resolve_explicit(a, m).expect("known arch");
            assert!(SUPPORTED_ARCHES.contains(&s.arch.as_str()), "{a} {m:?} -> {s:?}");
            assert!(SUPPORTED_MODES.contains(&s.mode.as_str()), "{a} {m:?} -> {s:?}");
        }
    }
    assert!(resolve_explicit("z80", Some("x64")).is_none());
}

#[test]
fn explicit_resolution_normalizes_case_and_aliases() {
    let s = resolve_explicit(" AArch64 ", Some(" Big ")).unwrap();
    assert_eq!((s.arch.as_str(), s.mode.as_str(), s.big_endian), ("arm64", "big", true));
    let s = resolve_explicit("i386", Some("32")).unwrap();
    assert_eq!((s.arch.as_str(), s.mode.as_str(), s.big_endian), ("x86", "x32", false));
    let s = resolve_explicit("mips", None).unwrap();
    assert_eq!((s.arch.as_str(), s.mode.as_str(), s.big_endian), ("mips", "little", false));
}

#[test]
fn normalized_groups_stay_in_vocabulary() {
    for raw in [
        "call", "jump", "ret", "int", "iret", "privilege", "branch_relative", "fpu", "sse2",
        "avx512", "vm", "mode64", "not64bitmode", "stack", "", "CALL",
    ] {
        if let Some(g) = normalize(raw) {
            assert!(VOCABULARY.contains(&g), "{raw} -> {g}");
        }
    }
    let g = normalize_all(&["sse", "avx", "sse3", "call", "jump", "call", "mode32"]);
    assert_eq!(g, vec!["sse".to_string(), "call".to_string(), "jump".to_string()]);
}

#[test]
fn sweep_rows_have_sizes_and_vocabulary_groups() {
    let code = b"\x55\x48\x89\xe5\x0f\x31\x0f\xa2\xcc\x06\xc3";
    let rows = disassemble(code, Some("x86"), Some("x64"), Some(0x2000), "all");
    assert!(!rows.is_empty());
    let mut total = 0usize;
    for r in &rows {
        assert_eq!(r.size as usize, r.bytes.len().min(255));
        assert!(r.groups.iter().all(|g| VOCABULARY.contains(&g.as_str())));
        let mut seen = r.groups.clone();
        seen.dedup();
        assert_eq!(seen.len(), r.groups.len());
        total += r.bytes.len();
    }
    // The sweep covers every byte exactly once, in order.
    assert_eq!(total, code.len());
    assert_eq!(rows[0].address, 0x2000);
}

#[test]
fn unknown_explicit_arch_is_one_error_row_whatever_the_section() {
    for section in ["auto", "all", ".text"] {
        let rows = disassemble(b"\x90\x90", Some("vax"), None, Some(7), section);
        assert_eq!(rows.len(), 1);
        assert_eq!(rows[0].mnemonic, "(error)");
        assert_eq!(rows[0].op_str, "arch required for raw blob");
        assert_eq!(rows[0].size, 0);
    }
}

#[test]
fn string_hits_respect_min_len_and_cap() {
    let mut blob = vec![0u8];
    blob.extend(std::iter::repeat_n(b'A', 5000));
    blob.push(0);
    blob.extend_from_slice(b"abc\0abcdef\0");
    let hits = strings(&blob, 4);
    assert_eq!(hits.len(), 2);
    assert_eq!(hits[0].offset, 1);
    assert_eq!(hits[0].value.len(), MAX_STRING_LEN);
    assert_eq!(hits[1].value, "abcdef");
    for min_len in [0usize, 1, 3, 6, 7] {
        for h in strings(&blob, min_len) {
            assert!(h.value.chars().count() >= min_len.max(1));
            assert!(h.value.chars().count() <= MAX_STRING_LEN);
            assert!((h.offset as usize) < blob.len());
            assert!(h.encoding == "ascii" || h.encoding == "utf16le");
        }
    }
}

#[test]
fn capability_rows_are_distinct_and_capped() {
    let blob = b"powershell -enc AAAA\0powershell -enc AAAA\0cmd.exe /c whoami\0http://x.onion/\0";
    let caps = capabilities(blob);
    assert!(caps.len() <= MAX_CAPABILITIES);
    for (i, a) in caps.iter().enumerate() {
        for b in &caps[i + 1..] {
            assert!(!(a.rule == b.rule && a.evidence == b.evidence));
        }
    }
    let rules: Vec<&str> = caps.iter().map(|c| c.rule.as_str()).collect();
    assert_eq!(
        rules,
        ["exec:powershell", "exec:powershell_enc", "exec:cmd", "net:url", "net:tor"]
    );
    assert_eq!(caps[0].evidence, "powershell -enc AAAA");
    assert_eq!(caps[4].attack_id, "T1090.003");
    assert_eq!(caps[4].severity, "high");
}

#[test]
fn long_string_evidence_is_truncated_with_ellipsis() {
    let mut blob = b"schtasks ".to_vec();
    blob.extend(std::iter::repeat_n(b'y', 200));
    let caps = capabilities(&blob);
    assert_eq!(caps.len(), 1);
    assert_eq!(caps[0].rule, "persist:schtasks");
    assert_eq!(caps[0].evidence.chars().count(), 121);
    assert!(caps[0].evidence.ends_with('\u{2026}'));
    assert!(caps[0].evidence.starts_with("schtasks yyy"));
}

#[test]
fn raw_blob_contributes_no_anti_analysis_rows() {
    // rdtsc; cpuid; int3 as a raw blob: no arch, so no instruction rows.
    let caps = capabilities(b"\x0f\x31\x0f\xa2\xcc");
    assert!(caps.iter().all(|c| !c.rule.starts_with("anti")));
}

/// A small deterministic generator for arbitrary-looking blobs.
fn lcg_bytes(seed: u64, len: usize) -> Vec<u8> {
    let mut x = seed.wrapping_mul(6364136223846793005).wrapping_add(1442695040888963407);
    (0..len)
        .map(|_| {
            x = x.wrapping_mul(6364136223846793005).wrapping_add(1442695040888963407);
            (x >> 33) as u8
        })
        .collect()
}

#[test]
fn arbitrary_bytes_stay_bounded_on_every_arch() {
    for seed in 0..64u64 {
        let data = lcg_bytes(seed, (seed as usize * 37) % 700);
        for arch in SUPPORTED_ARCHES {
            let insns = disassemble(&data, Some(arch), None, Some(0x1000), "all");
            assert!(insns.len() <= disasm_core::limits::MAX_INSNS);
            let covered: usize = insns.iter().map(|i| i.bytes.len()).sum();
            assert_eq!(covered, data.len(), "{arch} seed {seed}");
        }
        let _ = disassemble(&data, None, None, None, "auto");
        let _ = disasm_core::probe(&data);
        let _ = disasm_core::sections(&data);
        let _ = disasm_core::imports(&data);
        let _ = disasm_core::entrypoint(&data);
        let _ = strings(&data, 4);
        assert!(capabilities(&data).len() <= MAX_CAPABILITIES);
    }
}

#[test]
fn truncated_elf_headers_are_safe() {
    let mut v = vec![0x7f, b'E', b'L', b'F', 2, 1, 1, 0];
    v.extend(std::iter::repeat_n(0x41u8, 256));
    for prefix in 0..v.len() {
        let slice = &v[..prefix];
        let _ = disasm_core::probe(slice);
        let _ = disasm_core::sections(slice);
        let rows = disassemble(slice, None, None, None, "auto");
        assert!(!rows.is_empty() || disasm_core::probe(slice).arch.is_some());
    }
}

/// Checks that `rows` cover `code` from `base`: their bytes, concatenated,
/// are `code`, and each row starts where the previous one ended.
fn assert_rows_cover(rows: &[disasm_core::engine::Insn], code: &[u8], base: u64) {
    let mut joined: Vec<u8> = Vec::new();
    let mut addr = base;
    for r in rows {
        assert_eq!(r.address, addr);
        assert_eq!(r.size as usize, r.bytes.len());
        joined.extend_from_slice(&r.bytes);
        addr = addr.wrapping_add(r.bytes.len() as u64);
    }
    assert_eq!(joined, code);
}

#[test]
fn whole_blob_sweep_covers_every_byte_once() {
    // push rbp; mov rbp, rsp; two undecodable bytes; call; ret
    let blob = b"\x55\x48\x89\xe5\x06\x06\xe8\x00\x00\x00\x00\xc3";
    let rows = disassemble(blob, Some("x86"), Some("x64"), Some(0x1000), "all");
    assert!(rows.iter().all(|r| r.mnemonic != "(error)"));
    assert_rows_cover(&rows, blob, 0x1000);
    // The same holds without a base (the sweep starts at 0) and near the
    // top of the address space, where addresses wrap.
    assert_rows_cover(&disassemble(blob, Some("x86"), Some("x64"), None, "all"), blob, 0);
    let top = u64::MAX - 3;
    assert_rows_cover(&disassemble(blob, Some("x86"), Some("x64"), Some(top), "all"), blob, top);
}

#[test]
fn decode_covers_every_byte_once() {
    let sel = resolve_explicit("arm64", None).unwrap();
    let code = b"\x00\x00\x80\xd2\xff\xff\xff\xff\xc0\x03\x5f\xd6";
    let rows = disasm_core::engine::decode(&sel, code, 0x4000);
    assert_rows_cover(&rows, code, 0x4000);
    assert_eq!(rows[0].mnemonic, "mov");
}

#[test]
fn string_table_matches_are_reported() {
    let blob = b"\x00\x00cmd.exe /c whoami\x00\x00";
    let caps = capabilities(blob);
    assert!(caps
        .iter()
        .any(|c| c.rule == "exec:cmd" && c.evidence == "cmd.exe /c whoami"));
    // Without an instruction stream there is no anti-analysis row.
    assert!(caps.iter().all(|c| c.rule != "antivm:rdtsc_timing"));
}

#[test]
fn ascii_hits_are_whole_runs() {
    let blob = b"ab\x01hello world\x00zz";
    let hits = strings(blob, 4);
    let ascii: Vec<(u64, &str)> = hits
        .iter()
        .filter(|h| h.encoding == "ascii")
        .map(|h| (h.offset, h.value.as_str()))
        .collect();
    assert_eq!(ascii, [(3, "hello world")]);
}

#[test]
fn min_len_zero_reads_as_one() {
    let blob = b"a\x00bc\x00d\x00e\x00";
    let key = |v: Vec<disasm_core::strings::StringHit>| -> Vec<(u64, String, String)> {
        v.into_iter().map(|h| (h.offset, h.encoding, h.value)).collect()
    };
    assert_eq!(key(strings(blob, 0)), key(strings(blob, 1)));
}

#[test]
fn disassembled_rows_have_size_equal_to_byte_count() {
    let blob = b"\x55\x48\x89\xe5\x06\xc3\x0f\x05";
    let rows = disassemble(blob, Some("x86"), Some("x64"), Some(0), "all");
    assert!(rows.iter().all(|r| r.size as usize == r.bytes.len() && !r.bytes.is_empty()));
    assert!(rows.windows(2).all(|w| w[1].address == w[0].address + w[0].size as u64));
}
