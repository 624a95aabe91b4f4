//! Section / segment enumeration with an executable flag, a kind label and a
//! clamped file-byte range.
//!
//! Declared sizes are clamped to the blob and to `MAX_SECTION_BYTES`, so a
//! lying header never makes a section reach outside the blob. A blob goblin
//! cannot parse has no sections. (The entropy column is computed by the
//! worker from [`Section::bytes`].)
use vstd::prelude::*;

use crate::container::{opt_string_view, ContainerKind};
use crate::limits::{MAX_SECTIONS, MAX_SECTION_BYTES};
use crate::objfile::{
    elf_shdr, elf_shdr_count, elf_strtab_get_at, fat_first_checked, fat_first_of, container_kind_of,
    goblin_mach_section_name, goblin_object, goblin_pe_section_name, goblin_segment_name,
    goblin_segment_sections, goblin_strtab_get_at, mach_facts, mach_segment_count,
    mach_segment_name, mach_segment_sections, mach_source_ok, parse_checked, pe_header,
    pe_section, pe_section_count, pe_section_name, segment_section, segment_section_count,
    segment_section_name, Container, ElfShdr, MachFile, MachSection, PeSection, StrTable,
};
use crate::text::{
    chars_contain, chars_eq_str, chars_of, chars_start_with, contains_sub, starts_with,
    string_from_chars, take_at_most, trim_end_nul, trim_end_nul_chars,
};

verus! {

/// One section / segment of a container.
#[derive(Debug, Clone)]
pub struct Section {
    /// Section name (`.text`, `__TEXT,__text`, ...); empty if unnamed.
    pub name: String,
    /// `code | data | rodata | bss | debug | other`.
    pub kind: String,
    /// Virtual address (for PE, image base + RVA, wrapping).
    pub vaddr: u64,
    /// Declared size in bytes (may exceed the file bytes).
    pub size: u64,
    /// File offset of the section's bytes.
    pub file_off: u64,
    /// True if the section is executable.
    pub executable: bool,
    /// `(offset, len)` of the section's readable file bytes, clamped to the
    /// blob and to `MAX_SECTION_BYTES`; `None` when it has no file bytes.
    pub data_range: Option<(usize, usize)>,
}

/// The content of a [`Section`].
pub struct SectionView {
    pub name: Seq<char>,
    pub kind: Seq<char>,
    pub vaddr: u64,
    pub size: u64,
    pub file_off: u64,
    pub executable: bool,
    pub data_range: Option<(usize, usize)>,
}

impl View for Section {
    type V = SectionView;

    open spec fn view(&self) -> SectionView {
        SectionView {
            name: self.name@,
            kind: self.kind@,
            vaddr: self.vaddr,
            size: self.size,
            file_off: self.file_off,
            executable: self.executable,
            data_range: self.data_range,
        }
    }
}

/// The views of a sequence of sections.
pub open spec fn sections_view(v: Seq<Section>) -> Seq<SectionView> {
    v.map_values(|s: Section| s@)
}

/// The file bytes of a section with byte range `range` in `blob`.
pub open spec fn range_bytes(range: Option<(usize, usize)>, blob: Seq<u8>) -> Seq<u8> {
    match range {
        Some((off, len)) => if off <= blob.len() {
            let end = if off + len <= blob.len() { off + len } else { blob.len() as int };
            blob.subrange(off as int, end)
        } else {
            Seq::empty()
        },
        None => Seq::empty(),
    }
}

impl Section {
    /// The section's file bytes within `blob`, the blob it was read from (empty
    /// when it has none).
    pub fn bytes<'a>(&self, blob: &'a [u8]) -> (r: &'a [u8])
        ensures
            r@ == range_bytes(self.data_range, blob@),
    {
        match self.data_range {
            Some((off, len)) if off <= blob.len() => {
                let end = if len <= blob.len() - off { off + len } else { blob.len() };
                &blob[off..end]
            },
            _ => &blob[0..0],
        }
    }
}

/// The smallest of three integers.
pub open spec fn min3(a: int, b: int, c: int) -> int {
    let m = if a <= b { a } else { b };
    if m <= c { m } else { c }
}

/// The `(offset, len)` range of a section declared at `off` with `len`
/// bytes, clamped to a blob of `blob_len` bytes and to `MAX_SECTION_BYTES`;
/// `None` when the range starts outside the blob or is empty.
pub open spec fn spec_clamp_range(off: u64, len: u64, blob_len: usize) -> Option<(usize, usize)> {
    if off >= blob_len {
        None
    } else {
        let l = min3(len as int, blob_len - off, MAX_SECTION_BYTES as int);
        if l == 0 {
            None
        } else {
            Some((off as usize, l as usize))
        }
    }
}

fn clamp_range(off: u64, len: u64, blob_len: usize) -> (r: Option<(usize, usize)>)
    ensures
        r == spec_clamp_range(off, len, blob_len),
{
    if off >= blob_len as u64 {
        return None;
    }
    let off = off as usize;
    let room = blob_len - off;
    let mut l: usize = if len < room as u64 { len as usize } else { room };
    if l > MAX_SECTION_BYTES {
        l = MAX_SECTION_BYTES;
    }
    if l == 0 {
        None
    } else {
        Some((off, l))
    }
}

/// ELF `SHF_EXECINSTR`, `SHF_WRITE`, `SHT_NOBITS`, `SHT_PROGBITS`.
pub const SHF_EXECINSTR: u64 = 0x4;
pub const SHF_WRITE: u64 = 0x1;
pub const SHT_NOBITS: u32 = 8;
pub const SHT_PROGBITS: u32 = 1;

/// PE section characteristics flags.
pub const IMAGE_SCN_MEM_EXECUTE: u32 = 0x2000_0000;
pub const IMAGE_SCN_MEM_WRITE: u32 = 0x8000_0000;
pub const IMAGE_SCN_CNT_CODE: u32 = 0x0000_0020;
pub const IMAGE_SCN_CNT_UNINIT: u32 = 0x0000_0080;

/// Mach-O section flags (the section type is the low byte).
pub const S_ATTR_PURE_INSTRUCTIONS: u32 = 0x8000_0000;
pub const S_ATTR_SOME_INSTRUCTIONS: u32 = 0x0000_0400;
pub const S_TYPE_ZEROFILL: u32 = 0x1;

/// The kind label of an ELF section.
pub open spec fn spec_elf_kind(sh: ElfShdr, name: Seq<char>) -> Seq<char> {
    if sh.sh_flags & SHF_EXECINSTR != 0 {
        "code"@
    } else if starts_with(name, ".debug"@) {
        "debug"@
    } else if sh.sh_type == SHT_NOBITS {
        "bss"@
    } else if sh.sh_type == SHT_PROGBITS && sh.sh_flags & SHF_WRITE != 0 {
        "data"@
    } else if starts_with(name, ".rodata"@) || name == ".rdata"@ {
        "rodata"@
    } else {
        "other"@
    }
}

/// The section an ELF section header describes, given its name.
pub open spec fn spec_elf_section(sh: ElfShdr, name: Seq<char>, blob_len: usize) -> SectionView {
    SectionView {
        name,
        kind: spec_elf_kind(sh, name),
        vaddr: sh.sh_addr,
        size: sh.sh_size,
        file_off: sh.sh_offset,
        executable: sh.sh_flags & SHF_EXECINSTR != 0,
        data_range: if sh.sh_type == SHT_NOBITS {
            None
        } else {
            spec_clamp_range(sh.sh_offset, sh.sh_size, blob_len)
        },
    }
}

/// An optional name, or the empty name.
pub open spec fn name_or_empty(n: Option<Seq<char>>) -> Seq<char> {
    match n {
        Some(s) => s,
        None => Seq::empty(),
    }
}

fn string_or_empty(n: Option<String>) -> (r: String)
    ensures
        r@ == name_or_empty(opt_string_view(n)),
{
    match n {
        Some(s) => s,
        None => String::new(),
    }
}

/// The section an ELF section header describes in a blob of `blob_len`
/// bytes: its kind, executable flag and clamped byte range.
pub fn elf_section(sh: &ElfShdr, name: String, blob_len: usize) -> (r: Section)
    ensures
        r@ == spec_elf_section(*sh, name@, blob_len),
{
    let n = chars_of(name.as_str());
    let exec = sh.sh_flags & SHF_EXECINSTR != 0;
    let nobits = sh.sh_type == SHT_NOBITS;
    let kind = if exec {
        "code"
    } else if chars_start_with(&n, ".debug") {
        "debug"
    } else if nobits {
        "bss"
    } else if sh.sh_type == SHT_PROGBITS && sh.sh_flags & SHF_WRITE != 0 {
        "data"
    } else if chars_start_with(&n, ".rodata") || chars_eq_str(&n, ".rdata") {
        "rodata"
    } else {
        "other"
    };
    let data_range = if nobits {
        None
    } else {
        clamp_range(sh.sh_offset, sh.sh_size, blob_len)
    };
    Section {
        name,
        kind: kind.to_string(),
        vaddr: sh.sh_addr,
        size: sh.sh_size,
        file_off: sh.sh_offset,
        executable: exec,
        data_range,
    }
}

/// Whether a PE section is executable.
pub open spec fn pe_exec(s: PeSection) -> bool {
    s.characteristics & IMAGE_SCN_MEM_EXECUTE != 0 || s.characteristics & IMAGE_SCN_CNT_CODE != 0
}

/// The kind label of a PE section.
pub open spec fn spec_pe_kind(s: PeSection, name: Seq<char>) -> Seq<char> {
    if pe_exec(s) {
        "code"@
    } else if starts_with(name, ".debug"@) {
        "debug"@
    } else if s.characteristics & IMAGE_SCN_CNT_UNINIT != 0 {
        "bss"@
    } else if s.characteristics & IMAGE_SCN_MEM_WRITE != 0 {
        "data"@
    } else if name == ".rdata"@ || name == ".rodata"@ {
        "rodata"@
    } else {
        "other"@
    }
}

/// The section a PE section table entry describes, given its raw name and
/// the image base. Its file bytes are `min(raw size, virtual size)` bytes at
/// the raw-data pointer.
pub open spec fn spec_pe_section(
    s: PeSection,
    raw_name: Seq<char>,
    image_base: u64,
    blob_len: usize,
) -> SectionView {
    let name = trim_end_nul(raw_name);
    let raw_len = if s.size_of_raw_data <= s.virtual_size {
        s.size_of_raw_data
    } else {
        s.virtual_size
    };
    SectionView {
        name,
        kind: spec_pe_kind(s, name),
        vaddr: image_base.wrapping_add(s.virtual_address as u64),
        size: s.virtual_size as u64,
        file_off: s.pointer_to_raw_data as u64,
        executable: pe_exec(s),
        data_range: if s.characteristics & IMAGE_SCN_CNT_UNINIT != 0 {
            None
        } else {
            spec_clamp_range(s.pointer_to_raw_data as u64, raw_len as u64, blob_len)
        },
    }
}

/// The section a PE section table entry describes in a blob of `blob_len`
/// bytes (trailing NULs of the name dropped).
pub fn pe_section_of(s: &PeSection, raw_name: String, image_base: u64, blob_len: usize) -> (r:
    Section)
    ensures
        r@ == spec_pe_section(*s, raw_name@, image_base, blob_len),
{
    let n = trim_end_nul_chars(&chars_of(raw_name.as_str()));
    let ch = s.characteristics;
    let exec = ch & IMAGE_SCN_MEM_EXECUTE != 0 || ch & IMAGE_SCN_CNT_CODE != 0;
    let raw_len: u32 = if s.size_of_raw_data <= s.virtual_size {
        s.size_of_raw_data
    } else {
        s.virtual_size
    };
    let uninit = ch & IMAGE_SCN_CNT_UNINIT != 0;
    let data_range = if uninit {
        None
    } else {
        clamp_range(s.pointer_to_raw_data as u64, raw_len as u64, blob_len)
    };
    let kind = if exec {
        "code"
    } else if chars_start_with(&n, ".debug") {
        "debug"
    } else if uninit {
        "bss"
    } else if ch & IMAGE_SCN_MEM_WRITE != 0 {
        "data"
    } else if chars_eq_str(&n, ".rdata") || chars_eq_str(&n, ".rodata") {
        "rodata"
    } else {
        "other"
    };
    Section {
        name: string_from_chars(&n),
        kind: kind.to_string(),
        vaddr: image_base.wrapping_add(s.virtual_address as u64),
        size: s.virtual_size as u64,
        file_off: s.pointer_to_raw_data as u64,
        executable: exec,
        data_range,
    }
}

/// Whether a Mach-O section is executable.
pub open spec fn mach_exec(s: MachSection, segname: Seq<char>, sectname: Seq<char>) -> bool {
    s.flags & S_ATTR_PURE_INSTRUCTIONS != 0 || s.flags & S_ATTR_SOME_INSTRUCTIONS != 0 || (segname
        == "__TEXT"@ && sectname == "__text"@)
}

/// Whether a Mach-O section is zero-fill.
pub open spec fn mach_zerofill(s: MachSection) -> bool {
    s.flags & 0xff == S_TYPE_ZEROFILL
}

/// The kind label of a Mach-O section.
pub open spec fn spec_mach_kind(s: MachSection, segname: Seq<char>, sectname: Seq<char>) -> Seq<
    char,
> {
    if mach_exec(s, segname, sectname) {
        "code"@
    } else if contains_sub(segname, "DEBUG"@) || contains_sub(sectname, "debug"@) {
        "debug"@
    } else if mach_zerofill(s) || segname == "__BSS"@ {
        "bss"@
    } else if sectname == "__const"@ || segname == "__TEXT"@ {
        "rodata"@
    } else if segname == "__DATA"@ {
        "data"@
    } else {
        "other"@
    }
}

/// The section a Mach-O section describes, named `segname,sectname`.
pub open spec fn spec_mach_section(
    s: MachSection,
    segname: Seq<char>,
    sectname: Seq<char>,
    blob_len: usize,
) -> SectionView {
    SectionView {
        name: segname + ","@ + sectname,
        kind: spec_mach_kind(s, segname, sectname),
        vaddr: s.addr,
        size: s.size,
        file_off: s.offset as u64,
        executable: mach_exec(s, segname, sectname),
        data_range: if mach_zerofill(s) {
            None
        } else {
            spec_clamp_range(s.offset as u64, s.size, blob_len)
        },
    }
}

/// The section a Mach-O section of segment `segname` describes in a blob of
/// `blob_len` bytes.
pub fn mach_section_of(s: &MachSection, segname: &str, sectname: &str, blob_len: usize) -> (r:
    Section)
    ensures
        r@ == spec_mach_section(*s, segname@, sectname@, blob_len),
{
    let seg = chars_of(segname);
    let sect = chars_of(sectname);
    let flags = s.flags;
    let exec = flags & S_ATTR_PURE_INSTRUCTIONS != 0 || flags & S_ATTR_SOME_INSTRUCTIONS != 0 || (
    chars_eq_str(&seg, "__TEXT") && chars_eq_str(&sect, "__text"));
    let zerofill = flags & 0xff == S_TYPE_ZEROFILL;
    let data_range = if zerofill {
        None
    } else {
        clamp_range(s.offset as u64, s.size, blob_len)
    };
    let kind = if exec {
        "code"
    } else if chars_contain(&seg, "DEBUG") || chars_contain(&sect, "debug") {
        "debug"
    } else if zerofill || chars_eq_str(&seg, "__BSS") {
        "bss"
    } else if chars_eq_str(&sect, "__const") || chars_eq_str(&seg, "__TEXT") {
        "rodata"
    } else if chars_eq_str(&seg, "__DATA") {
        "data"
    } else {
        "other"
    };
    let comma = chars_of(",");
    let mut full: Vec<char> = Vec::new();
    let mut a = seg.clone();
    let mut b = comma.clone();
    let mut c = sect.clone();
    full.append(&mut a);
    full.append(&mut b);
    full.append(&mut c);
    Section {
        name: string_from_chars(&full),
        kind: kind.to_string(),
        vaddr: s.addr,
        size: s.size,
        file_off: s.offset as u64,
        executable: exec,
        data_range,
    }
}

/// The sections of an ELF blob, named through the section-name string table.
pub open spec fn spec_elf_sections(bytes: Seq<u8>) -> Seq<SectionView> {
    let o = goblin_object(bytes);
    Seq::new(
        o.elf_shdrs.len(),
        |i: int|
            spec_elf_section(
                o.elf_shdrs[i],
                name_or_empty(
                    goblin_strtab_get_at(bytes, StrTable::SectionNames, o.elf_shdrs[i].sh_name),
                ),
                bytes.len() as usize,
            ),
    )
}

/// The sections of a PE blob.
pub open spec fn spec_pe_sections(bytes: Seq<u8>) -> Seq<SectionView> {
    let o = goblin_object(bytes);
    Seq::new(
        o.pe_sections.len(),
        |i: int|
            spec_pe_section(
                o.pe_sections[i],
                name_or_empty(goblin_pe_section_name(bytes, i as usize)),
                o.pe_header.image_base,
                bytes.len() as usize,
            ),
    )
}

/// The sections of Mach-O segment `seg` (none when goblin cannot list them).
pub open spec fn spec_segment_sections(src: (Seq<u8>, bool), seg: int) -> Seq<SectionView> {
    let segname = name_or_empty(goblin_segment_name(src.0, src.1, seg as usize));
    match goblin_segment_sections(src.0, src.1, seg as usize) {
        Some(v) => Seq::new(
            v.len(),
            |j: int|
                spec_mach_section(
                    v[j],
                    segname,
                    name_or_empty(goblin_mach_section_name(src.0, src.1, seg as usize, j as usize)),
                    src.0.len() as usize,
                ),
        ),
        None => Seq::empty(),
    }
}

/// The sections of the first `n` segments of a Mach-O, in segment order.
pub open spec fn spec_mach_sections_upto(src: (Seq<u8>, bool), n: int) -> Seq<SectionView>
    decreases n,
{
    if n <= 0 {
        Seq::empty()
    } else {
        spec_mach_sections_upto(src, n - 1) + spec_segment_sections(src, n - 1)
    }
}

/// What `sections(bytes)` returns: the sections of the container goblin
/// parses (for a fat Mach-O, of its first slice), at most `MAX_SECTIONS`.
pub open spec fn spec_sections(bytes: Seq<u8>) -> Seq<SectionView> {
    let all = match container_kind_of(bytes) {
        ContainerKind::Elf => spec_elf_sections(bytes),
        ContainerKind::Pe => spec_pe_sections(bytes),
        ContainerKind::Mach => spec_mach_sections_upto(
            (bytes, false),
            goblin_object(bytes).mach.segment_count as int,
        ),
        ContainerKind::FatMach => if fat_first_of(bytes) is Some {
            spec_mach_sections_upto((bytes, true), fat_first_of(bytes).unwrap().segment_count as int)
        } else {
            Seq::empty()
        },
        ContainerKind::Unknown => Seq::empty(),
    };
    take_at_most(all, MAX_SECTIONS as int)
}

/// Whether `p` is a prefix of `t`.
pub open spec fn is_prefix<A>(p: Seq<A>, t: Seq<A>) -> bool {
    p.len() <= t.len() && t.take(p.len() as int) == p
}

proof fn lemma_upto_prefix(src: (Seq<u8>, bool), a: int, b: int)
    requires
        0 <= a <= b,
    ensures
        is_prefix(spec_mach_sections_upto(src, a), spec_mach_sections_upto(src, b)),
    decreases b,
{
    if a < b {
        lemma_upto_prefix(src, a, b - 1);
        let p = spec_mach_sections_upto(src, a);
        let m = spec_mach_sections_upto(src, b - 1);
        let t = spec_mach_sections_upto(src, b);
        assert(t == m + spec_segment_sections(src, b - 1));
        assert(t.take(p.len() as int) =~= m.take(p.len() as int));
    } else {
        assert(spec_mach_sections_upto(src, a).take(spec_mach_sections_upto(src, a).len() as int)
            =~= spec_mach_sections_upto(src, a));
    }
}

proof fn lemma_full_prefix<A>(p: Seq<A>, t: Seq<A>, n: int)
    requires
        is_prefix(p, t),
        p.len() == n,
    ensures
        take_at_most(t, n) == p,
{
}

proof fn lemma_sections_view_push(v: Seq<Section>, s: Section)
    ensures
        sections_view(v.push(s)) == sections_view(v).push(s@),
{
    assert(sections_view(v.push(s)) =~= sections_view(v).push(s@));
}

fn push_section(out: &mut Vec<Section>, s: Section)
    ensures
        sections_view(final(out)@) == sections_view(old(out)@).push(s@),
        final(out).len() == old(out).len() + 1,
{
    let ghost pre = out@;
    let ghost sv = s@;
    out.push(s);
    proof {
        assert(out@ == pre.push(out@[pre.len() as int]));
        lemma_sections_view_push(pre, out@[pre.len() as int]);
    }
}

fn elf_sections(f: &crate::objfile::ElfFile, blob_len: usize) -> (r: Vec<Section>)
    requires
        goblin_object(f@).kind == ContainerKind::Elf,
        blob_len == f@.len(),
    ensures
        sections_view(r@) == take_at_most(spec_elf_sections(f@), MAX_SECTIONS as int),
{
    let ghost all = spec_elf_sections(f@);
    let mut out: Vec<Section> = Vec::new();
    let n = elf_shdr_count(f);
    let mut i: usize = 0;
    while i < n && out.len() < MAX_SECTIONS
        invariant
            goblin_object(f@).kind == ContainerKind::Elf,
            blob_len == f@.len(),
            n == all.len(),
            all == spec_elf_sections(f@),
            i <= n,
            i <= MAX_SECTIONS,
            out.len() == i,
            sections_view(out@) == all.take(i as int),
        decreases n - i,
    {
        let sh = elf_shdr(f, i);
        let name = string_or_empty(elf_strtab_get_at(f, StrTable::SectionNames, sh.sh_name));
        let s = elf_section(&sh, name, blob_len);
        push_section(&mut out, s);
        i = i + 1;
        assert(sections_view(out@) =~= all.take(i as int));
    }
    if i == n {
        assert(all.take(n as int) =~= all);
    }
    out
}

fn pe_sections(f: &crate::objfile::PeFile, blob_len: usize) -> (r: Vec<Section>)
    requires
        goblin_object(f@).kind == ContainerKind::Pe,
        blob_len == f@.len(),
    ensures
        sections_view(r@) == take_at_most(spec_pe_sections(f@), MAX_SECTIONS as int),
{
    let ghost all = spec_pe_sections(f@);
    let image_base = pe_header(f).image_base;
    let mut out: Vec<Section> = Vec::new();
    let n = pe_section_count(f);
    let mut i: usize = 0;
    while i < n && out.len() < MAX_SECTIONS
        invariant
            goblin_object(f@).kind == ContainerKind::Pe,
            blob_len == f@.len(),
            image_base == goblin_object(f@).pe_header.image_base,
            n == all.len(),
            all == spec_pe_sections(f@),
            i <= n,
            i <= MAX_SECTIONS,
            out.len() == i,
            sections_view(out@) == all.take(i as int),
        decreases n - i,
    {
        let sec = pe_section(f, i);
        let name = string_or_empty(pe_section_name(f, i));
        let s = pe_section_of(&sec, name, image_base, blob_len);
        push_section(&mut out, s);
        i = i + 1;
        assert(sections_view(out@) =~= all.take(i as int));
    }
    if i == n {
        assert(all.take(n as int) =~= all);
    }
    out
}

fn mach_sections(m: &MachFile, blob_len: usize) -> (r: Vec<Section>)
    requires
        mach_source_ok(m@),
        blob_len == m@.0.len(),
    ensures
        sections_view(r@) == take_at_most(
            spec_mach_sections_upto(m@, mach_facts(m@).segment_count as int),
            MAX_SECTIONS as int,
        ),
{
    let ghost src = m@;
    let nseg = mach_segment_count(m);
    let ghost total = spec_mach_sections_upto(src, nseg as int);
    let mut out: Vec<Section> = Vec::new();
    let mut seg: usize = 0;
    while seg < nseg && out.len() < MAX_SECTIONS
        invariant
            mach_source_ok(src),
            src == m@,
            blob_len == src.0.len(),
            nseg == mach_facts(src).segment_count,
            total == spec_mach_sections_upto(src, nseg as int),
            seg <= nseg,
            out.len() <= MAX_SECTIONS,
            sections_view(out@) == spec_mach_sections_upto(src, seg as int),
        decreases nseg - seg,
    {
        let ghost before = spec_mach_sections_upto(src, seg as int);
        let ghost segviews = spec_segment_sections(src, seg as int);
        let segname = string_or_empty(mach_segment_name(m, seg));
        match mach_segment_sections(m, seg) {
            Some(secs) => {
                let count = segment_section_count(&secs);
                let mut j: usize = 0;
                while j < count && out.len() < MAX_SECTIONS
                    invariant
                        goblin_segment_sections(src.0, src.1, seg as usize) is Some,
                        secs@ == (src.0, src.1, seg),
                        count == goblin_segment_sections(src.0, src.1, seg as usize).unwrap().len(),
                        segviews == spec_segment_sections(src, seg as int),
                        segviews.len() == count,
                        segname@ == name_or_empty(goblin_segment_name(src.0, src.1, seg)),
                        blob_len == src.0.len(),
                        j <= count,
                        out.len() <= MAX_SECTIONS,
                        sections_view(out@) == before + segviews.take(j as int),
                    decreases count - j,
                {
                    let sect = segment_section(&secs, j);
                    let sectname = string_or_empty(segment_section_name(&secs, j));
                    let s = mach_section_of(&sect, segname.as_str(), sectname.as_str(), blob_len);
                    push_section(&mut out, s);
                    j = j + 1;
                    assert(sections_view(out@) =~= before + segviews.take(j as int));
                }
                if j < count {
                    proof {
                        lemma_upto_prefix(src, seg + 1, nseg as int);
                        let p = before + segviews.take(j as int);
                        let full = spec_mach_sections_upto(src, seg + 1);
                        assert(full == before + segviews);
                        assert(full.take(p.len() as int) =~= p);
                        assert(total.take(p.len() as int) =~= p);
                        lemma_full_prefix(p, total, MAX_SECTIONS as int);
                    }
                    return out;
                }
                assert(segviews.take(count as int) =~= segviews);
            },
            None => {
                assert(segviews =~= Seq::<SectionView>::empty());
                assert(before + segviews =~= before);
            },
        }
        seg = seg + 1;
    }
    if seg < nseg {
        proof {
            lemma_upto_prefix(src, seg as int, nseg as int);
            lemma_full_prefix(spec_mach_sections_upto(src, seg as int), total, MAX_SECTIONS as int);
        }
    }
    out
}

/// Enumerates the sections of `bytes`: the ELF section headers, the PE
/// section table, or the Mach-O sections of every segment (of the first
/// slice of a fat Mach-O), at most `MAX_SECTIONS`; none for a blob goblin
/// does not parse.
pub fn sections(bytes: &[u8]) -> (r: Vec<Section>)
    ensures
        sections_view(r@) == spec_sections(bytes@),
{
    match parse_checked(bytes) {
        Container::Elf(f) => elf_sections(&f, bytes.len()),
        Container::Pe(f) => pe_sections(&f, bytes.len()),
        Container::Mach(m) => mach_sections(&m, bytes.len()),
        Container::Fat(f) => match fat_first_checked(&f) {
            Some(m) => mach_sections(&m, bytes.len()),
            None => Vec::new(),
        },
        Container::Unknown => Vec::new(),
    }
}

} // verus!
