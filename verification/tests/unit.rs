//! Unit scenarios for each module of the library.

use disasm_core::capabilities::capabilities;
use disasm_core::engine::decode;
use disasm_core::entrypoint::entrypoint;
use disasm_core::groups::{normalize, normalize_all};
use disasm_core::imports::imports;
use disasm_core::probe::{probe, resolve_explicit, ArchSel};
use disasm_core::sections::sections;
use disasm_core::strings::strings;
use disasm_core::sweep::disassemble;

fn x64() -> ArchSel {
    resolve_explicit("x86", Some("x64")).unwrap()
}

#[test]
fn raw_benign_text_no_high_rows() {
    // A benign blob with no malicious imports/strings yields no high-severity
    // capability rows.
    let caps = capabilities(b"the quick brown fox jumps over the lazy dog");
    assert!(caps.iter().all(|c| c.severity != "high"));
}

#[test]
fn powershell_enc_string_matches() {
    let caps = capabilities(b"powershell.exe -EncodedCommand ZQBjAGgAbwA=");
    assert!(caps
        .iter()
        .any(|c| c.attack_id == "T1059.001" && c.rule.starts_with("exec:")));
}

#[test]
fn decodes_x64_prologue_with_absolute_call() {
    // push rbp; mov rax,[rip+0x13b8]; call rel32(=0).
    let code = b"\x55\x48\x8b\x05\xb8\x13\x00\x00\xe8\x00\x00\x00\x00";
    let insns = decode(&x64(), code, 0x1000);
    assert_eq!(insns[0].mnemonic, "push");
    assert_eq!(insns[0].address, 0x1000);
    assert_eq!(insns[2].mnemonic, "call");
    // call at 0x1008, len 5 -> absolute target 0x100d printed by Capstone.
    assert!(insns[2].op_str.contains("0x100d"), "{}", insns[2].op_str);
    assert!(insns[2].groups.contains(&"call".to_string()));
    assert!(insns[2].groups.contains(&"branch_relative".to_string()));
    assert!(!insns[2].groups.iter().any(|g| g.starts_with("mode")));
}

#[test]
fn bad_byte_resumes_never_stalls() {
    // 0x06 is invalid in x64; the sweep must emit a .byte row and continue.
    let code = b"\x06\x90"; // (bad); nop
    let insns = decode(&x64(), code, 0);
    assert_eq!(insns[0].mnemonic, ".byte");
    assert_eq!(insns[0].op_str, "0x06");
    assert_eq!(insns[1].mnemonic, "nop");
}

#[test]
fn raw_blob_all_none() {
    let e = entrypoint(b"not a binary");
    assert!(e.arch.is_none() && e.vaddr.is_none() && e.section.is_none());
}

#[test]
fn keeps_core_vocab_drops_mode() {
    assert_eq!(normalize("call"), Some("call"));
    assert_eq!(normalize("branch_relative"), Some("branch_relative"));
    assert_eq!(normalize("privilege"), Some("privileged"));
    assert_eq!(normalize("iret"), Some("int"));
    assert_eq!(normalize("mode64"), None);
    assert_eq!(normalize("not64bitmode"), None);
    assert_eq!(normalize("sse2"), Some("sse"));
    assert_eq!(normalize("avx512"), Some("sse"));
}

#[test]
fn dedups_and_orders() {
    let g = normalize_all(&["call", "mode64", "branch_relative", "call"]);
    assert_eq!(g, vec!["call".to_string(), "branch_relative".to_string()]);
}

#[test]
fn raw_blob_no_imports() {
    assert!(imports(b"not a binary").is_empty());
}

#[test]
fn raw_blob_probes_raw() {
    let p = probe(b"not a binary at all, just text");
    assert_eq!(p.container, "raw");
    assert!(p.arch.is_none());
    assert!(p.arch_sel().is_none());
}

#[test]
fn explicit_defaults() {
    assert_eq!(
        resolve_explicit("x86", None).unwrap(),
        ArchSel::new("x86", "x64", false)
    );
    assert_eq!(
        resolve_explicit("x86", Some("x32")).unwrap(),
        ArchSel::new("x86", "x32", false)
    );
    assert_eq!(
        resolve_explicit("arm", Some("thumb")).unwrap(),
        ArchSel::new("arm", "thumb", false)
    );
    assert_eq!(
        resolve_explicit("sysz", None).unwrap(),
        ArchSel::new("sysz", "big", true)
    );
    assert!(resolve_explicit("bogus", None).is_none());
}

#[test]
fn empty_is_raw_not_panic() {
    assert_eq!(probe(b"").container, "raw");
}

#[test]
fn raw_blob_no_sections() {
    assert!(sections(b"hello world not a binary").is_empty());
}

#[test]
fn finds_ascii_runs() {
    let s = strings(b"\x00\x01hello\x00wo\x00world!!\x00", 4);
    let vals: Vec<&str> = s
        .iter()
        .filter(|h| h.encoding == "ascii")
        .map(|h| h.value.as_str())
        .collect();
    assert!(vals.contains(&"hello"));
    assert!(vals.contains(&"world!!"));
    assert!(!vals.contains(&"wo")); // below min_len
}

#[test]
fn finds_utf16le_runs() {
    let mut data = Vec::new();
    for c in b"PowerShell" {
        data.push(*c);
        data.push(0);
    }
    let s = strings(&data, 4);
    assert!(s
        .iter()
        .any(|h| h.encoding == "utf16le" && h.value == "PowerShell"));
}

#[test]
fn empty_is_empty() {
    assert!(strings(b"", 4).is_empty());
}

#[test]
fn raw_blob_without_arch_is_diagnostic_row() {
    let out = disassemble(b"\x90\x90\x90", None, None, None, "auto");
    assert_eq!(out.len(), 1);
    assert_eq!(out[0].mnemonic, "(error)");
}

#[test]
fn raw_shellcode_with_arch_sweeps_at_base() {
    // nop; nop; ret  at base 0x4000.
    let out = disassemble(
        b"\x90\x90\xc3",
        Some("x86"),
        Some("x64"),
        Some(0x4000),
        "auto",
    );
    assert_eq!(out[0].address, 0x4000);
    assert_eq!(out[0].mnemonic, "nop");
    assert_eq!(out[2].mnemonic, "ret");
    assert!(out[2].groups.contains(&"ret".to_string()));
}

#[test]
fn unknown_arch_is_diagnostic_row() {
    let out = disassemble(b"\x90", Some("nonsense"), None, None, "auto");
    assert_eq!(out.len(), 1);
    assert_eq!(out[0].mnemonic, "(error)");
}
