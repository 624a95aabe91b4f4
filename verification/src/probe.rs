//! Container sniffing and `(arch, mode)` resolution.
//!
//! `probe` reads only the container header to answer "what is this and how
//! would I disassemble it": the format (`pe`/`elf`/`macho`/`fat-macho`/`raw`),
//! the Capstone arch and mode, bitness, endianness and entry address. A blob
//! goblin cannot parse degrades to a `raw` probe with empty fields.
use vstd::prelude::*;

use crate::container::{opt_string_view, ContainerKind, ElfHeader, Header, MachHeader, PeHeader};
use crate::objfile::{
    elf_header, fat_first_checked, fat_first_of, container_kind_of, goblin_object, mach_header, parse_checked,
    pe_header, Container,
};
use crate::text::{chars_eq_str, chars_of, lower, lower_chars, trim, trim_chars};

verus! {

/// ELF `e_machine` values that are mapped.
pub const EM_386: u16 = 3;
pub const EM_MIPS: u16 = 8;
pub const EM_PPC: u16 = 20;
pub const EM_PPC64: u16 = 21;
pub const EM_S390: u16 = 22;
pub const EM_ARM: u16 = 40;
pub const EM_X86_64: u16 = 62;
pub const EM_AARCH64: u16 = 183;
pub const EM_RISCV: u16 = 243;

/// PE `IMAGE_FILE_MACHINE_*` values that are mapped.
pub const PE_I386: u16 = 0x014c;
pub const PE_ARM: u16 = 0x01c0;
pub const PE_ARMNT: u16 = 0x01c4;
pub const PE_AMD64: u16 = 0x8664;
pub const PE_ARM64: u16 = 0xaa64;
pub const PE_RISCV64: u16 = 0x5064;

/// Mach-O `CPU_TYPE_*` values that are mapped (bit 24 marks 64-bit).
pub const CPU_X86: u32 = 7;
pub const CPU_X86_64: u32 = 0x0100_0007;
pub const CPU_ARM: u32 = 12;
pub const CPU_ARM64: u32 = 0x0100_000c;
pub const CPU_POWERPC: u32 = 18;
pub const CPU_POWERPC64: u32 = 0x0100_0012;

/// The architecture tokens the `arch` argument accepts as primary names.
pub const SUPPORTED_ARCHES: [&'static str; 7] = ["x86", "arm", "arm64", "mips", "ppc", "sysz", "riscv"];

/// The decode-mode tokens the `mode` argument accepts.
pub const SUPPORTED_MODES: [&'static str; 7] = ["x16", "x32", "x64", "arm", "thumb", "big", "little"];

/// The resolved Capstone selection: an arch name, its canonical mode name and
/// an endianness flag.
#[derive(Debug, Clone, PartialEq, Eq)]
pub struct ArchSel {
    /// `x86 | arm | arm64 | mips | ppc | sysz | riscv`.
    pub arch: String,
    /// For x86 `x16|x32|x64`; for 32-bit ARM `arm|thumb`; else `little|big`.
    pub mode: String,
    /// True for a big-endian decode.
    pub big_endian: bool,
}

/// The content of an [`ArchSel`].
pub struct ArchSelView {
    pub arch: Seq<char>,
    pub mode: Seq<char>,
    pub big_endian: bool,
}

impl View for ArchSel {
    type V = ArchSelView;

    open spec fn view(&self) -> ArchSelView {
        ArchSelView { arch: self.arch@, mode: self.mode@, big_endian: self.big_endian }
    }
}

/// An `ArchSelView` built from its parts.
pub open spec fn sel(arch: Seq<char>, mode: Seq<char>, big_endian: bool) -> ArchSelView {
    ArchSelView { arch, mode, big_endian }
}

impl ArchSel {
    /// A selection built from its parts.
    pub fn new(arch: &str, mode: &str, big_endian: bool) -> (r: Self)
        ensures
            r@ == sel(arch@, mode@, big_endian),
    {
        ArchSel { arch: arch.to_string(), mode: mode.to_string(), big_endian }
    }
}

/// The result of a container probe.
#[derive(Debug, Clone, Default)]
pub struct Probe {
    /// `pe | elf | macho | fat-macho | raw`.
    pub container: String,
    /// Resolved arch, or `None` for an unrecognized machine.
    pub arch: Option<String>,
    /// Canonical mode for the arch, or `None`.
    pub mode: Option<String>,
    /// 32 or 64, or `None`.
    pub bits: Option<u8>,
    /// `little | big`, or `None`.
    pub endian: Option<String>,
    /// Entry-point virtual address, or `None`.
    pub entry: Option<u64>,
}

/// The content of a [`Probe`].
pub struct ProbeView {
    pub container: Seq<char>,
    pub arch: Option<Seq<char>>,
    pub mode: Option<Seq<char>>,
    pub bits: Option<u8>,
    pub endian: Option<Seq<char>>,
    pub entry: Option<u64>,
}

impl View for Probe {
    type V = ProbeView;

    open spec fn view(&self) -> ProbeView {
        ProbeView {
            container: self.container@,
            arch: opt_string_view(self.arch),
            mode: opt_string_view(self.mode),
            bits: self.bits,
            endian: opt_string_view(self.endian),
            entry: self.entry,
        }
    }
}

/// The probe of something that is not a recognized container.
pub open spec fn raw_probe() -> ProbeView {
    ProbeView { container: "raw"@, arch: None, mode: None, bits: None, endian: None, entry: None }
}

/// The selection a probe resolved, if it resolved both an arch and a mode.
pub open spec fn spec_arch_sel(p: ProbeView) -> Option<ArchSelView> {
    match (p.arch, p.mode) {
        (Some(a), Some(m)) => Some(sel(a, m, p.endian == Some("big"@))),
        _ => None,
    }
}

impl Probe {
    fn raw() -> (r: Self)
        ensures
            r@ == raw_probe(),
    {
        Probe {
            container: "raw".to_string(),
            arch: None,
            mode: None,
            bits: None,
            endian: None,
            entry: None,
        }
    }

    /// The `(arch, mode, endian)` selection this probe resolved, if any.
    pub fn arch_sel(&self) -> (r: Option<ArchSel>)
        ensures
            match r {
                Some(s) => spec_arch_sel(self@) == Some(s@),
                None => spec_arch_sel(self@) is None,
            },
    {
        match (&self.arch, &self.mode) {
            (Some(arch), Some(mode)) => {
                let big = match &self.endian {
                    Some(e) => {
                        let v = chars_of(e.as_str());
                        chars_eq_str(&v, "big")
                    },
                    None => false,
                };
                Some(ArchSel::new(arch.as_str(), mode.as_str(), big))
            },
            _ => None,
        }
    }
}

/// `big` or `little`.
pub open spec fn spec_endian_str(big: bool) -> Seq<char> {
    if big {
        "big"@
    } else {
        "little"@
    }
}

fn endian_str(big: bool) -> (r: &'static str)
    ensures
        r@ == spec_endian_str(big),
{
    if big {
        "big"
    } else {
        "little"
    }
}

/// The `(arch, mode)` an ELF `e_machine` maps to; the low bit of the entry
/// address marks Thumb for 32-bit ARM.
pub open spec fn spec_elf_arch(machine: u16, big: bool, entry: u64) -> Option<(Seq<char>, Seq<char>)> {
    if machine == EM_386 {
        Some(("x86"@, "x32"@))
    } else if machine == EM_X86_64 {
        Some(("x86"@, "x64"@))
    } else if machine == EM_ARM {
        Some(("arm"@, if entry % 2 == 1 { "thumb"@ } else { "arm"@ }))
    } else if machine == EM_AARCH64 {
        Some(("arm64"@, spec_endian_str(big)))
    } else if machine == EM_MIPS {
        Some(("mips"@, spec_endian_str(big)))
    } else if machine == EM_PPC || machine == EM_PPC64 {
        Some(("ppc"@, spec_endian_str(big)))
    } else if machine == EM_S390 {
        Some(("sysz"@, "big"@))
    } else if machine == EM_RISCV {
        Some(("riscv"@, spec_endian_str(big)))
    } else {
        None
    }
}

/// The `(arch, mode)` a PE COFF machine maps to (32-bit ARM PE is Thumb-2).
pub open spec fn spec_pe_arch(machine: u16) -> Option<(Seq<char>, Seq<char>)> {
    if machine == PE_I386 {
        Some(("x86"@, "x32"@))
    } else if machine == PE_AMD64 {
        Some(("x86"@, "x64"@))
    } else if machine == PE_ARM || machine == PE_ARMNT {
        Some(("arm"@, "thumb"@))
    } else if machine == PE_ARM64 {
        Some(("arm64"@, "little"@))
    } else if machine == PE_RISCV64 {
        Some(("riscv"@, "little"@))
    } else {
        None
    }
}

/// The `(arch, mode)` a Mach-O `cputype` maps to.
pub open spec fn spec_mach_arch(cputype: u32, big: bool) -> Option<(Seq<char>, Seq<char>)> {
    if cputype == CPU_X86 {
        Some(("x86"@, "x32"@))
    } else if cputype == CPU_X86_64 {
        Some(("x86"@, "x64"@))
    } else if cputype == CPU_ARM {
        Some(("arm"@, "arm"@))
    } else if cputype == CPU_ARM64 {
        Some(("arm64"@, spec_endian_str(big)))
    } else if cputype == CPU_POWERPC || cputype == CPU_POWERPC64 {
        Some(("ppc"@, "big"@))
    } else {
        None
    }
}

/// An arch table entry as a pair of owned strings.
pub open spec fn pair_view(p: (Option<String>, Option<String>)) -> Option<(Seq<char>, Seq<char>)> {
    match p {
        (Some(a), Some(m)) => Some((a@, m@)),
        _ => None,
    }
}

/// Whether both halves of an arch pair are present or both absent.
pub open spec fn pair_aligned(p: (Option<String>, Option<String>)) -> bool {
    p.0 is Some == p.1 is Some
}

fn arch_pair(a: &str, m: &str) -> (r: (Option<String>, Option<String>))
    ensures
        pair_view(r) == Some((a@, m@)),
        pair_aligned(r),
{
    (Some(a.to_string()), Some(m.to_string()))
}

fn elf_arch(machine: u16, big: bool, entry: u64) -> (r: (Option<String>, Option<String>))
    ensures
        pair_view(r) == spec_elf_arch(machine, big, entry),
        pair_aligned(r),
{
    if machine == EM_386 {
        arch_pair("x86", "x32")
    } else if machine == EM_X86_64 {
        arch_pair("x86", "x64")
    } else if machine == EM_ARM {
        arch_pair("arm", if entry % 2 == 1 { "thumb" } else { "arm" })
    } else if machine == EM_AARCH64 {
        arch_pair("arm64", endian_str(big))
    } else if machine == EM_MIPS {
        arch_pair("mips", endian_str(big))
    } else if machine == EM_PPC || machine == EM_PPC64 {
        arch_pair("ppc", endian_str(big))
    } else if machine == EM_S390 {
        arch_pair("sysz", "big")
    } else if machine == EM_RISCV {
        arch_pair("riscv", endian_str(big))
    } else {
        (None, None)
    }
}

fn pe_arch(machine: u16) -> (r: (Option<String>, Option<String>))
    ensures
        pair_view(r) == spec_pe_arch(machine),
        pair_aligned(r),
{
    if machine == PE_I386 {
        arch_pair("x86", "x32")
    } else if machine == PE_AMD64 {
        arch_pair("x86", "x64")
    } else if machine == PE_ARM || machine == PE_ARMNT {
        arch_pair("arm", "thumb")
    } else if machine == PE_ARM64 {
        arch_pair("arm64", "little")
    } else if machine == PE_RISCV64 {
        arch_pair("riscv", "little")
    } else {
        (None, None)
    }
}

fn mach_arch(cputype: u32, big: bool) -> (r: (Option<String>, Option<String>))
    ensures
        pair_view(r) == spec_mach_arch(cputype, big),
        pair_aligned(r),
{
    if cputype == CPU_X86 {
        arch_pair("x86", "x32")
    } else if cputype == CPU_X86_64 {
        arch_pair("x86", "x64")
    } else if cputype == CPU_ARM {
        arch_pair("arm", "arm")
    } else if cputype == CPU_ARM64 {
        arch_pair("arm64", endian_str(big))
    } else if cputype == CPU_POWERPC || cputype == CPU_POWERPC64 {
        arch_pair("ppc", "big")
    } else {
        (None, None)
    }
}

/// The arch of an arch pair.
pub open spec fn pair_arch(p: Option<(Seq<char>, Seq<char>)>) -> Option<Seq<char>> {
    match p {
        Some((a, _)) => Some(a),
        None => None,
    }
}

/// The mode of an arch pair.
pub open spec fn pair_mode(p: Option<(Seq<char>, Seq<char>)>) -> Option<Seq<char>> {
    match p {
        Some((_, m)) => Some(m),
        None => None,
    }
}

/// The probe of a Mach-O binary header.
pub open spec fn spec_mach_probe(m: MachHeader) -> ProbeView {
    let big = !m.little_endian;
    let p = spec_mach_arch(m.cputype, big);
    ProbeView {
        container: "macho"@,
        arch: pair_arch(p),
        mode: pair_mode(p),
        bits: Some(if m.is_64 { 64u8 } else { 32u8 }),
        endian: Some(spec_endian_str(big)),
        entry: Some(m.entry),
    }
}

/// What `probe` reports for a container header.
pub open spec fn spec_probe(h: Header) -> ProbeView {
    match h {
        Header::Elf(e) => {
            let big = !e.little_endian;
            let p = spec_elf_arch(e.machine, big, e.entry);
            ProbeView {
                container: "elf"@,
                arch: pair_arch(p),
                mode: pair_mode(p),
                bits: Some(if e.is_64 { 64u8 } else { 32u8 }),
                endian: Some(spec_endian_str(big)),
                entry: Some(e.entry),
            }
        },
        Header::Pe(pe) => {
            let p = spec_pe_arch(pe.machine);
            ProbeView {
                container: "pe"@,
                arch: pair_arch(p),
                mode: pair_mode(p),
                bits: Some(if pe.is_64 { 64u8 } else { 32u8 }),
                endian: Some("little"@),
                entry: Some(pe.image_base.wrapping_add(pe.entry as u64)),
            }
        },
        Header::Mach(m) => spec_mach_probe(m),
        Header::Fat(first) => match first {
            Some(m) => {
                let inner = spec_mach_probe(m);
                ProbeView { container: "fat-macho"@, ..inner }
            },
            None => ProbeView {
                container: "fat-macho"@,
                arch: None,
                mode: None,
                bits: None,
                endian: None,
                entry: None,
            },
        },
        Header::Raw => raw_probe(),
    }
}

fn mach_probe(m: &MachHeader) -> (r: Probe)
    ensures
        r@ == spec_mach_probe(*m),
{
    let big = !m.little_endian;
    let (arch, mode) = mach_arch(m.cputype, big);
    Probe {
        container: "macho".to_string(),
        bits: Some(if m.is_64 { 64 } else { 32 }),
        endian: Some(endian_str(big).to_string()),
        entry: Some(m.entry),
        mode,
        arch,
    }
}

/// The probe of a container header: format, arch/mode, bitness, endianness
/// and entry address (for PE, image base plus entry RVA, wrapping).
pub fn probe_header(h: &Header) -> (r: Probe)
    ensures
        r@ == spec_probe(*h),
{
    match h {
        Header::Elf(e) => {
            let big = !e.little_endian;
            let (arch, mode) = elf_arch(e.machine, big, e.entry);
            Probe {
                container: "elf".to_string(),
                bits: Some(if e.is_64 { 64 } else { 32 }),
                endian: Some(endian_str(big).to_string()),
                entry: Some(e.entry),
                mode,
                arch,
            }
        },
        Header::Pe(pe) => {
            let (arch, mode) = pe_arch(pe.machine);
            Probe {
                container: "pe".to_string(),
                bits: Some(if pe.is_64 { 64 } else { 32 }),
                endian: Some("little".to_string()),
                entry: Some(pe.image_base.wrapping_add(pe.entry as u64)),
                mode,
                arch,
            }
        },
        Header::Mach(m) => mach_probe(m),
        Header::Fat(first) => {
            let mut p = Probe {
                container: "fat-macho".to_string(),
                arch: None,
                mode: None,
                bits: None,
                endian: None,
                entry: None,
            };
            if let Some(m) = first {
                let inner = mach_probe(m);
                p.arch = inner.arch;
                p.mode = inner.mode;
                p.bits = inner.bits;
                p.endian = inner.endian;
                p.entry = inner.entry;
            }
            p
        },
        Header::Raw => Probe::raw(),
    }
}

/// The normalized form of an `arch`/`mode` argument: trimmed, ASCII
/// lower-cased.
pub open spec fn norm_arg(s: Seq<char>) -> Seq<char> {
    lower(trim(s))
}

/// The mode part of an explicit selection, defaulting per arch.
pub open spec fn spec_x86_mode(m: Option<Seq<char>>) -> Seq<char> {
    if m == Some("x16"@) {
        "x16"@
    } else if m == Some("x32"@) || m == Some("32"@) {
        "x32"@
    } else {
        "x64"@
    }
}

/// What `resolve_explicit(arch, mode)` returns.
pub open spec fn spec_resolve_explicit(arch: Seq<char>, mode: Option<Seq<char>>) -> Option<
    ArchSelView,
> {
    let a = norm_arg(arch);
    let m = match mode {
        Some(x) => Some(norm_arg(x)),
        None => None,
    };
    let big = m == Some("big"@);
    if a == "x86"@ || a == "x86_64"@ || a == "x64"@ || a == "i386"@ {
        Some(sel("x86"@, spec_x86_mode(m), false))
    } else if a == "arm"@ {
        Some(sel("arm"@, if m == Some("thumb"@) { "thumb"@ } else { "arm"@ }, big))
    } else if a == "arm64"@ || a == "aarch64"@ {
        Some(sel("arm64"@, spec_endian_str(big), big))
    } else if a == "mips"@ {
        Some(sel("mips"@, spec_endian_str(big), big))
    } else if a == "ppc"@ || a == "powerpc"@ {
        Some(sel("ppc"@, spec_endian_str(big), big))
    } else if a == "sysz"@ || a == "s390"@ || a == "systemz"@ {
        Some(sel("sysz"@, "big"@, true))
    } else if a == "riscv"@ {
        Some(sel("riscv"@, spec_endian_str(big), big))
    } else {
        None
    }
}

/// The view of an optional selection.
pub open spec fn opt_sel_view(o: Option<ArchSel>) -> Option<ArchSelView> {
    match o {
        Some(s) => Some(s@),
        None => None,
    }
}

/// The view of an optional character vector.
pub open spec fn opt_chars_view(o: Option<Vec<char>>) -> Option<Seq<char>> {
    match o {
        Some(v) => Some(v@),
        None => None,
    }
}

fn opt_eq(m: &Option<Vec<char>>, lit: &str) -> (b: bool)
    ensures
        b == (opt_chars_view(*m) == Some(lit@)),
{
    match m {
        Some(v) => chars_eq_str(v, lit),
        None => false,
    }
}

/// Translates an explicit `arch` (and optional `mode`) argument into an
/// [`ArchSel`], applying per-arch mode defaults (x86 defaults to `x64`);
/// `None` for an unknown arch. Both arguments are trimmed and ASCII
/// lower-cased first.
pub fn resolve_explicit(arch: &str, mode: Option<&str>) -> (r: Option<ArchSel>)
    ensures
        opt_sel_view(r) == spec_resolve_explicit(arch@, match mode {
            Some(m) => Some(m@),
            None => None,
        }),
{
    let a = lower_chars(&trim_chars(&chars_of(arch)));
    let m: Option<Vec<char>> = match mode {
        Some(x) => Some(lower_chars(&trim_chars(&chars_of(x)))),
        None => None,
    };
    let big = opt_eq(&m, "big");
    let r = if chars_eq_str(&a, "x86") || chars_eq_str(&a, "x86_64") || chars_eq_str(&a, "x64")
        || chars_eq_str(&a, "i386") {
        let md = if opt_eq(&m, "x16") {
            "x16"
        } else if opt_eq(&m, "x32") || opt_eq(&m, "32") {
            "x32"
        } else {
            "x64"
        };
        ArchSel::new("x86", md, false)
    } else if chars_eq_str(&a, "arm") {
        ArchSel::new("arm", if opt_eq(&m, "thumb") { "thumb" } else { "arm" }, big)
    } else if chars_eq_str(&a, "arm64") || chars_eq_str(&a, "aarch64") {
        ArchSel::new("arm64", endian_str(big), big)
    } else if chars_eq_str(&a, "mips") {
        ArchSel::new("mips", endian_str(big), big)
    } else if chars_eq_str(&a, "ppc") || chars_eq_str(&a, "powerpc") {
        ArchSel::new("ppc", endian_str(big), big)
    } else if chars_eq_str(&a, "sysz") || chars_eq_str(&a, "s390") || chars_eq_str(
        &a,
        "systemz",
    ) {
        ArchSel::new("sysz", "big", true)
    } else if chars_eq_str(&a, "riscv") {
        ArchSel::new("riscv", endian_str(big), big)
    } else {
        return None;
    };
    Some(r)
}

/// The header of the container the library parses from `bytes` (see
/// [`container_kind_of`]), as goblin reports it.
pub open spec fn container_header(bytes: Seq<u8>) -> Header {
    let o = goblin_object(bytes);
    match container_kind_of(bytes) {
        ContainerKind::Elf => Header::Elf(o.elf_header),
        ContainerKind::Pe => Header::Pe(o.pe_header),
        ContainerKind::Mach => Header::Mach(o.mach.header),
        ContainerKind::FatMach => Header::Fat(
            match fat_first_of(bytes) {
                Some(m) => Some(m.header),
                None => None,
            },
        ),
        ContainerKind::Unknown => Header::Raw,
    }
}

/// Reads the container header of `bytes` with goblin.
pub fn read_header(bytes: &[u8]) -> (r: Header)
    ensures
        r == container_header(bytes@),
{
    match parse_checked(bytes) {
        Container::Elf(f) => Header::Elf(elf_header(&f)),
        Container::Pe(f) => Header::Pe(pe_header(&f)),
        Container::Mach(m) => Header::Mach(mach_header(&m)),
        Container::Fat(f) => match fat_first_checked(&f) {
            Some(m) => Header::Fat(Some(mach_header(&m))),
            None => Header::Fat(None),
        },
        Container::Unknown => Header::Raw,
    }
}

/// Sniffs `bytes` as a container: what [`probe_header`] reports for the
/// header goblin parses; a blob goblin does not recognize probes as `raw`.
pub fn probe(bytes: &[u8]) -> (r: Probe)
    ensures
        r@ == spec_probe(container_header(bytes@)),
{
    probe_header(&read_header(bytes))
}

} // verus!
