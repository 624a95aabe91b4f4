//! Entry-point resolution: the container entry address, the resolved
//! `(arch, mode)`, the file offset of the entry and the section containing
//! it. For a blob that is not a recognized container every field is `None`.
use vstd::prelude::*;

use crate::container::opt_string_view;
use crate::probe::{container_header, probe, spec_probe, Probe, ProbeView};
use crate::sections::{sections, sections_view, spec_sections, Section, SectionView};
use crate::text::{chars_eq_str, chars_of};

verus! {

/// The resolved entry point.
#[derive(Debug, Clone, Default)]
pub struct EntryPoint {
    /// Resolved arch, or `None`.
    pub arch: Option<String>,
    /// Resolved mode, or `None`.
    pub mode: Option<String>,
    /// Entry virtual address, or `None`.
    pub vaddr: Option<u64>,
    /// File offset of the entry byte, or `None` when no section contains it.
    pub file_off: Option<u64>,
    /// Name of the first section whose address range contains the entry.
    pub section: Option<String>,
}

/// The content of an [`EntryPoint`].
pub struct EntryPointView {
    pub arch: Option<Seq<char>>,
    pub mode: Option<Seq<char>>,
    pub vaddr: Option<u64>,
    pub file_off: Option<u64>,
    pub section: Option<Seq<char>>,
}

impl View for EntryPoint {
    type V = EntryPointView;

    open spec fn view(&self) -> EntryPointView {
        EntryPointView {
            arch: opt_string_view(self.arch),
            mode: opt_string_view(self.mode),
            vaddr: self.vaddr,
            file_off: self.file_off,
            section: opt_string_view(self.section),
        }
    }
}

/// Whether section `s` contains the address `va` (its end saturates).
pub open spec fn contains_va(s: SectionView, va: u64) -> bool {
    va >= s.vaddr && va < s.vaddr.saturating_add(s.size)
}

/// The index of the first section at or after `i` that contains `va`.
pub open spec fn first_containing(secs: Seq<SectionView>, va: u64, i: int) -> Option<int>
    decreases secs.len() - i,
{
    if i < 0 || i >= secs.len() {
        None
    } else if contains_va(secs[i], va) {
        Some(i)
    } else {
        first_containing(secs, va, i + 1)
    }
}

/// The entry point described by a probe and a section table.
pub open spec fn spec_entrypoint_of(p: ProbeView, secs: Seq<SectionView>) -> EntryPointView {
    if p.container == "raw"@ {
        EntryPointView { arch: None, mode: None, vaddr: None, file_off: None, section: None }
    } else {
        let c = match p.entry {
            Some(va) => first_containing(secs, va, 0),
            None => None,
        };
        EntryPointView {
            arch: p.arch,
            mode: p.mode,
            vaddr: p.entry,
            file_off: match (p.entry, c) {
                (Some(va), Some(k)) => Some(
                    secs[k].file_off.wrapping_add((va - secs[k].vaddr) as u64),
                ),
                _ => None,
            },
            section: match c {
                Some(k) => Some(secs[k].name),
                None => None,
            },
        }
    }
}

/// What `entrypoint(bytes)` returns.
pub open spec fn spec_entrypoint(bytes: Seq<u8>) -> EntryPointView {
    spec_entrypoint_of(spec_probe(container_header(bytes)), spec_sections(bytes))
}

proof fn lemma_first_containing(secs: Seq<SectionView>, va: u64, i: int)
    requires
        0 <= i,
    ensures
        first_containing(secs, va, i) matches Some(k) ==> i <= k < secs.len() && contains_va(
            secs[k],
            va,
        ),
    decreases secs.len() - i,
{
    if i < secs.len() && !contains_va(secs[i], va) {
        lemma_first_containing(secs, va, i + 1);
    }
}

/// The entry point a probe and a section table describe: `None` everywhere
/// for a `raw` probe; otherwise the probe's arch, mode and entry, the first
/// section whose `[vaddr, vaddr + size)` contains the entry, and the entry's
/// file offset within that section.
pub fn entrypoint_of(p: Probe, secs: &[Section]) -> (r: EntryPoint)
    ensures
        r@ == spec_entrypoint_of(p@, sections_view(secs@)),
{
    let ghost sv = sections_view(secs@);
    let c = chars_of(p.container.as_str());
    if chars_eq_str(&c, "raw") {
        return EntryPoint { arch: None, mode: None, vaddr: None, file_off: None, section: None };
    }
    let vaddr = p.entry;
    let mut found: Option<usize> = None;
    if let Some(va) = vaddr {
        let mut i: usize = 0;
        while i < secs.len()
            invariant_except_break
                found is None,
            invariant
                i <= secs.len(),
                sv == sections_view(secs@),
                first_containing(sv, va, 0) == first_containing(sv, va, i as int),
            ensures
                found matches Some(k) ==> first_containing(sv, va, 0) == Some(k as int),
                found is None ==> first_containing(sv, va, 0) is None,
            decreases secs.len() - i,
        {
            let s = &secs[i];
            assert(sv[i as int] == s@);
            if va >= s.vaddr && va < s.vaddr.saturating_add(s.size) {
                found = Some(i);
                break;
            }
            i = i + 1;
        }
        proof {
            lemma_first_containing(sv, va, 0);
        }
    }
    let (file_off, section) = match (vaddr, found) {
        (Some(va), Some(k)) => {
            let s = &secs[k];
            (Some(s.file_off.wrapping_add(va - s.vaddr)), Some(s.name.clone()))
        },
        _ => (None, None),
    };
    EntryPoint { arch: p.arch, mode: p.mode, vaddr, file_off, section }
}

/// Resolves the entry point of `bytes` from its probe and section table.
pub fn entrypoint(bytes: &[u8]) -> (r: EntryPoint)
    ensures
        r@ == spec_entrypoint(bytes@),
{
    let p = probe(bytes);
    let secs = sections(bytes);
    entrypoint_of(p, &secs)
}

/// The entry section of a blob is one of its sections, and it contains the
/// entry address; the file offset is the entry's offset within it.
pub proof fn law_entry_section_contains_entry(bytes: Seq<u8>)
    ensures
        spec_entrypoint(bytes).section is Some ==> {
            let e = spec_entrypoint(bytes);
            let secs = spec_sections(bytes);
            &&& e.vaddr is Some
            &&& exists|k: int|
                0 <= k < secs.len() && #[trigger] secs[k].name == e.section.unwrap() && contains_va(
                    secs[k],
                    e.vaddr.unwrap(),
                ) && e.file_off == Some(
                    secs[k].file_off.wrapping_add((e.vaddr.unwrap() - secs[k].vaddr) as u64),
                )
        },
{
    let p = spec_probe(container_header(bytes));
    let secs = spec_sections(bytes);
    if let Some(va) = p.entry {
        lemma_first_containing(secs, va, 0);
        if let Some(k) = first_containing(secs, va, 0) {
            assert(secs[k].name == secs[k].name);
        }
    }
}

} // verus!
