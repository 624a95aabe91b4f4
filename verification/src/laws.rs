//! Properties of the library as a whole, stated over the same spec functions
//! that the public functions' contracts use.
use vstd::prelude::*;

use crate::engine::{bad_row, error_row, spec_decode_at, sweep_rows, EngineConfig, InsnView};
use crate::imports::spec_imports;
use crate::limits::{MAX_IMPORTS, MAX_SECTIONS, MAX_SECTION_BYTES, MAX_STRING_LEN, MAX_STRINGS};
use crate::sections::{
    range_bytes, spec_elf_sections, spec_mach_sections_upto, spec_pe_sections, spec_sections,
    spec_segment_sections, SectionView,
};
use crate::sweep::{exec_sections, named_sections, spec_regions, spec_section_regions};
use crate::entrypoint::{spec_entrypoint, EntryPointView};
use crate::probe::{
    container_header, raw_probe, spec_probe, spec_resolve_explicit, SUPPORTED_ARCHES, SUPPORTED_MODES,
};
use crate::strings::{
    ascii_hits, ascii_label, effective_min_len, lemma_ascii_run_end, lemma_utf16_run_end,
    scanned, spec_strings, utf16_hits, utf16_label, HitSpec,
};
use crate::sweep::{spec_disassemble, spec_selection};
use crate::container::ContainerKind;
use crate::text::take_at_most;
use crate::groups::{spec_normalize, spec_normalize_all};
use crate::meta::{escape, escape_char};
use crate::probe::norm_arg;

verus! {

/// Without an `arch` argument that resolves, and without a container header
/// that names one, `disassemble` returns the single `(error)` row, whatever
/// the base and section asked for.
pub proof fn law_unresolved_arch_is_one_error_row(
    blob: Seq<u8>,
    arch: Option<Seq<char>>,
    mode: Option<Seq<char>>,
    base: Option<u64>,
    section: Seq<char>,
)
    requires
        spec_selection(blob, arch, mode) is None,
    ensures
        spec_disassemble(blob, arch, mode, base, section) == seq![error_row()],
{
}

/// The sweep never stalls: a non-empty region swept below the row cap yields
/// at least one row.
pub proof fn law_sweep_makes_progress(
    config: EngineConfig,
    code: Seq<u8>,
    base: u64,
    out_len: int,
    max_total: int,
)
    requires
        code.len() > 0,
        out_len < max_total,
    ensures
        sweep_rows(config, code, base, 0, out_len, max_total).len() >= 1,
{
    let ds = spec_decode_at(config, code.subrange(0, code.len() as int), base.wrapping_add(0u64));
    if ds.len() > 0 {
        let taken = ds.take(crate::engine::room(ds.len() as int, out_len, max_total));
        assert(taken.len() >= 1);
    }
}

/// Bad-byte resume: where Capstone decodes nothing at the start of a region,
/// the sweep emits the one-byte `.byte` row of that byte at the region's base
/// and carries on from the next byte.
pub proof fn law_undecodable_byte_resumes(
    config: EngineConfig,
    code: Seq<u8>,
    base: u64,
    out_len: int,
    max_total: int,
)
    requires
        code.len() > 0,
        out_len < max_total,
        spec_decode_at(config, code, base).len() == 0,
    ensures
        sweep_rows(config, code, base, 0, out_len, max_total) == seq![bad_row(base, code[0])]
            + sweep_rows(config, code, base, 1, out_len + 1, max_total),
{
    assert(code.subrange(0, code.len() as int) =~= code);
    assert(base.wrapping_add(0u64) == base);
    if code.len() == 1 {
        assert(sweep_rows(config, code, base, 1, out_len + 1, max_total) =~= Seq::<InsnView>::empty());
        assert(seq![bad_row(base, code[0])] + Seq::<InsnView>::empty() =~= seq![bad_row(base, code[0])]);
    }
}

/// Whether `a` is one of the arch tokens the library advertises.
pub open spec fn advertised_arch(a: Seq<char>) -> bool {
    exists|i: int| 0 <= i < SUPPORTED_ARCHES@.len() && #[trigger] SUPPORTED_ARCHES@[i]@ == a
}

/// Whether `m` is one of the mode tokens the library advertises.
pub open spec fn advertised_mode(m: Seq<char>) -> bool {
    exists|i: int| 0 <= i < SUPPORTED_MODES@.len() && #[trigger] SUPPORTED_MODES@[i]@ == m
}

/// Every selection an explicit `arch`/`mode` pair resolves to uses only the
/// advertised arch and mode tokens, so the advertised choices and the
/// behaviour cannot drift apart.
pub proof fn law_explicit_selection_is_advertised(arch: Seq<char>, mode: Option<Seq<char>>)
    ensures
        spec_resolve_explicit(arch, mode) matches Some(s) ==> advertised_arch(s.arch)
            && advertised_mode(s.mode),
{
    assert(SUPPORTED_ARCHES@[0]@ == "x86"@);
    assert(SUPPORTED_ARCHES@[1]@ == "arm"@);
    assert(SUPPORTED_ARCHES@[2]@ == "arm64"@);
    assert(SUPPORTED_ARCHES@[3]@ == "mips"@);
    assert(SUPPORTED_ARCHES@[4]@ == "ppc"@);
    assert(SUPPORTED_ARCHES@[5]@ == "sysz"@);
    assert(SUPPORTED_ARCHES@[6]@ == "riscv"@);
    assert(SUPPORTED_MODES@[0]@ == "x16"@);
    assert(SUPPORTED_MODES@[1]@ == "x32"@);
    assert(SUPPORTED_MODES@[2]@ == "x64"@);
    assert(SUPPORTED_MODES@[3]@ == "arm"@);
    assert(SUPPORTED_MODES@[4]@ == "thumb"@);
    assert(SUPPORTED_MODES@[5]@ == "big"@);
    assert(SUPPORTED_MODES@[6]@ == "little"@);
}

proof fn lemma_take_at_most_all<A>(s: Seq<A>, n: int, p: spec_fn(A) -> bool)
    requires
        0 <= n,
        forall|i: int| 0 <= i < s.len() ==> #[trigger] p(s[i]),
    ensures
        take_at_most(s, n).len() <= n,
        forall|i: int| 0 <= i < take_at_most(s, n).len() ==> #[trigger] p(take_at_most(s, n)[i]),
{
    if s.len() > n {
        assert forall|i: int| 0 <= i < take_at_most(s, n).len() implies #[trigger] p(
            take_at_most(s, n)[i],
        ) by {
            assert(take_at_most(s, n)[i] == s[i]);
        }
    }
}

/// Whether a section's file byte range is at most `MAX_SECTION_BYTES` long.
pub open spec fn range_capped(s: SectionView) -> bool {
    s.data_range matches Some(r) ==> r.1 <= MAX_SECTION_BYTES
}

proof fn lemma_filter_capped(s: Seq<SectionView>, pred: spec_fn(SectionView) -> bool)
    requires
        forall|i: int| 0 <= i < s.len() ==> #[trigger] range_capped(s[i]),
    ensures
        forall|i: int| 0 <= i < s.filter(pred).len() ==> #[trigger] range_capped(s.filter(pred)[i]),
    decreases s.len(),
{
    reveal(Seq::filter);
    if s.len() > 0 {
        let init = s.drop_last();
        assert forall|i: int| 0 <= i < init.len() implies #[trigger] range_capped(init[i]) by {
            assert(init[i] == s[i]);
        }
        lemma_filter_capped(init, pred);
        let rest = init.filter(pred);
        assert(range_capped(s[s.len() - 1]));
        assert forall|i: int| 0 <= i < s.filter(pred).len() implies #[trigger] range_capped(
            s.filter(pred)[i],
        ) by {
            if pred(s.last()) {
                assert(s.filter(pred) == rest.push(s.last()));
                if i < rest.len() {
                    assert(s.filter(pred)[i] == rest[i]);
                }
            } else {
                assert(s.filter(pred) == rest);
            }
        }
    }
}

proof fn lemma_mach_sections_capped(src: (Seq<u8>, bool), n: int)
    ensures
        forall|i: int|
            0 <= i < spec_mach_sections_upto(src, n).len() ==> #[trigger] range_capped(
                spec_mach_sections_upto(src, n)[i],
            ),
    decreases n,
{
    if n > 0 {
        lemma_mach_sections_capped(src, n - 1);
        let a = spec_mach_sections_upto(src, n - 1);
        let b = spec_segment_sections(src, n - 1);
        assert forall|i: int| 0 <= i < (a + b).len() implies #[trigger] range_capped((a + b)[i]) by {
            if i >= a.len() {
                assert((a + b)[i] == b[i - a.len()]);
            } else {
                assert((a + b)[i] == a[i]);
            }
        }
    }
}

proof fn lemma_sections_capped(blob: Seq<u8>)
    ensures
        forall|i: int| 0 <= i < spec_sections(blob).len() ==> #[trigger] range_capped(spec_sections(blob)[i]),
        spec_sections(blob).len() <= MAX_SECTIONS,
{
    let o = crate::objfile::goblin_object(blob);
    let all = match o.kind {
        ContainerKind::Elf => spec_elf_sections(blob),
        ContainerKind::Pe => spec_pe_sections(blob),
        ContainerKind::Mach => spec_mach_sections_upto((blob, false), o.mach.segment_count as int),
        ContainerKind::FatMach => if crate::objfile::goblin_fat_first(blob) is Some {
            spec_mach_sections_upto(
                (blob, true),
                crate::objfile::goblin_fat_first(blob).unwrap().segment_count as int,
            )
        } else {
            Seq::empty()
        },
        ContainerKind::Unknown => Seq::empty(),
    };
    lemma_mach_sections_capped((blob, false), o.mach.segment_count as int);
    if crate::objfile::goblin_fat_first(blob) is Some {
        lemma_mach_sections_capped(
            (blob, true),
            crate::objfile::goblin_fat_first(blob).unwrap().segment_count as int,
        );
    }
    assert forall|i: int| 0 <= i < all.len() implies #[trigger] range_capped(all[i]) by {
    }
    lemma_take_at_most_all(all, MAX_SECTIONS as int, |s: SectionView| range_capped(s));
}

proof fn lemma_section_regions_capped(chosen: Seq<SectionView>, blob: Seq<u8>, base: Option<u64>)
    requires
        forall|i: int| 0 <= i < chosen.len() ==> #[trigger] range_capped(chosen[i]),
    ensures
        forall|i: int|
            0 <= i < spec_section_regions(chosen, blob, base).len() ==> (#[trigger] spec_section_regions(
                chosen,
                blob,
                base,
            )[i]).1.len() <= MAX_SECTION_BYTES,
{
    assert forall|i: int| 0 <= i < spec_section_regions(chosen, blob, base).len() implies (
    #[trigger] spec_section_regions(chosen, blob, base)[i]).1.len() <= MAX_SECTION_BYTES by {
        assert(range_capped(chosen[i]));
        assert(spec_section_regions(chosen, blob, base)[i].1 == range_bytes(chosen[i].data_range, blob));
    }
}

/// No region handed to Capstone is longer than `MAX_SECTION_BYTES`: neither
/// the whole-blob region nor any section's bytes, whatever a header declares.
pub proof fn law_swept_bytes_capped(blob: Seq<u8>, section: Seq<char>, base: Option<u64>)
    ensures
        forall|i: int|
            0 <= i < spec_regions(blob, spec_sections(blob), section, base).len() ==> (
            #[trigger] spec_regions(blob, spec_sections(blob), section, base)[i]).1.len()
                <= MAX_SECTION_BYTES,
{
    let secs = spec_sections(blob);
    lemma_sections_capped(blob);
    let ex = exec_sections(secs);
    let named = named_sections(secs, section);
    lemma_filter_capped(secs, |s: SectionView| s.executable);
    lemma_filter_capped(secs, |s: SectionView| crate::sweep::spec_name_matches(s.name, section));
    lemma_section_regions_capped(exec_sections(secs), blob, base);
    lemma_section_regions_capped(named_sections(secs, section), blob, base);
    let rs = spec_regions(blob, secs, section, base);
    let pick = if section == "auto"@ {
        spec_section_regions(exec_sections(secs), blob, base)
    } else {
        spec_section_regions(named_sections(secs, section), blob, base)
    };
    crate::sweep::lemma_sort_by_start_members(pick);
    assert forall|i: int| 0 <= i < rs.len() implies (#[trigger] rs[i]).1.len() <= MAX_SECTION_BYTES by {
        if !(section == "all"@ || secs.len() == 0) {
            assert(pick.contains(crate::sweep::sort_by_start(pick)[i]));
        }
    }
}

/// The section, import and string lists are capped at `MAX_SECTIONS`,
/// `MAX_IMPORTS` and `MAX_STRINGS` rows.
pub proof fn law_lists_bounded(blob: Seq<u8>, min_len: usize)
    ensures
        spec_sections(blob).len() <= MAX_SECTIONS,
        spec_imports(blob).len() <= MAX_IMPORTS,
        spec_strings(blob, min_len).len() <= MAX_STRINGS,
{
    lemma_sections_capped(blob);
}

/// Printable ASCII or tab.
pub open spec fn printable_char(c: char) -> bool {
    (' ' <= c && c <= '~') || c == '\t'
}

/// Whether a string hit is well formed for a scan of `len` bytes with
/// minimum run length `m`.
pub open spec fn hit_ok(h: HitSpec, m: int, len: int) -> bool {
    &&& 0 <= h.offset < len
    &&& forall|j: int| 0 <= j < h.value.len() ==> #[trigger] printable_char(h.value[j])
    &&& h.encoding == ascii_label() || h.encoding == utf16_label()
    &&& (if m <= MAX_STRING_LEN { m } else { MAX_STRING_LEN as int }) <= h.value.len()
        <= MAX_STRING_LEN
}

proof fn lemma_cons_all(h: HitSpec, rest: Seq<HitSpec>, m: int, len: int)
    requires
        hit_ok(h, m, len),
        forall|k: int| 0 <= k < rest.len() ==> hit_ok(#[trigger] rest[k], m, len),
    ensures
        forall|k: int| 0 <= k < (seq![h] + rest).len() ==> hit_ok(#[trigger] (seq![h] + rest)[k], m, len),
{
    assert forall|k: int| 0 <= k < (seq![h] + rest).len() implies hit_ok(#[trigger] (seq![h] + rest)[k], m, len) by {
        if k > 0 {
            assert((seq![h] + rest)[k] == rest[k - 1]);
        }
    }
}

proof fn lemma_ascii_hits_ok(d: Seq<u8>, m: int, i: int)
    requires
        0 <= i,
        m >= 1,
    ensures
        forall|k: int| 0 <= k < ascii_hits(d, m, i).len() ==> hit_ok(#[trigger] ascii_hits(d, m, i)[k], m, d.len() as int),
    decreases d.len() - i,
{
    if i < d.len() {
        if !crate::strings::is_printable(d[i]) {
            lemma_ascii_hits_ok(d, m, i + 1);
            assert(ascii_hits(d, m, i) == ascii_hits(d, m, i + 1));
        } else {
            let e = crate::strings::ascii_run_end(d, i);
            lemma_ascii_run_end(d, i);
            lemma_ascii_hits_ok(d, m, e);
            if e - i >= m {
                let h = ascii_hits(d, m, i)[0];
                assert forall|j: int| 0 <= j < h.value.len() implies #[trigger] printable_char(h.value[j]) by {
                    assert(crate::strings::is_printable(d[i + j]));
                }
                lemma_cons_all(h, ascii_hits(d, m, e), m, d.len() as int);
                assert(ascii_hits(d, m, i) == seq![h] + ascii_hits(d, m, e));
            } else {
                assert(ascii_hits(d, m, i) == ascii_hits(d, m, e));
            }
        }
    }
}

proof fn lemma_utf16_hits_ok(d: Seq<u8>, m: int, i: int)
    requires
        0 <= i,
        m >= 1,
    ensures
        forall|k: int| 0 <= k < utf16_hits(d, m, i).len() ==> hit_ok(#[trigger] utf16_hits(d, m, i)[k], m, d.len() as int),
    decreases d.len() - i,
{
    if i + 1 < d.len() {
        if !crate::strings::is_utf16_unit(d, i) {
            lemma_utf16_hits_ok(d, m, i + 1);
            assert(utf16_hits(d, m, i) == utf16_hits(d, m, i + 1));
        } else {
            let e = crate::strings::utf16_run_end(d, i);
            lemma_utf16_run_end(d, i);
            lemma_utf16_hits_ok(d, m, e);
            if (e - i) / 2 >= m {
                let h = utf16_hits(d, m, i)[0];
                assert forall|j: int| 0 <= j < h.value.len() implies #[trigger] printable_char(h.value[j]) by {
                    assert(crate::strings::is_utf16_unit(d, i + 2 * j));
                }
                lemma_cons_all(h, utf16_hits(d, m, e), m, d.len() as int);
                assert(utf16_hits(d, m, i) == seq![h] + utf16_hits(d, m, e));
            } else {
                assert(utf16_hits(d, m, i) == utf16_hits(d, m, e));
            }
        }
    }
}

/// Every string hit starts inside the scanned window (the first
/// `MAX_SCAN_BYTES` bytes of the blob), is labelled `ascii` or `utf16le`,
/// consists of printable ASCII and tab characters, and holds at most
/// `MAX_STRING_LEN` characters and at least `min_len` (at least 1, and at
/// most `MAX_STRING_LEN`) of them: shorter runs are never reported.
pub proof fn law_string_hits_well_formed(blob: Seq<u8>, min_len: usize)
    ensures
        forall|k: int|
            0 <= k < spec_strings(blob, min_len).len() ==> hit_ok(
                #[trigger] spec_strings(blob, min_len)[k],
                effective_min_len(min_len),
                scanned(blob).len() as int,
            ),
{
    let d = scanned(blob);
    let m = effective_min_len(min_len);
    lemma_ascii_hits_ok(d, m, 0);
    lemma_utf16_hits_ok(d, m, 0);
    let a = ascii_hits(d, m, 0);
    let u = utf16_hits(d, m, 0);
    assert forall|k: int| 0 <= k < (a + u).len() implies hit_ok(#[trigger] (a + u)[k], m, scanned(blob).len() as int) by {
        if k < a.len() {
            assert((a + u)[k] == a[k]);
            assert(hit_ok(a[k], m, d.len() as int));
        } else {
            assert((a + u)[k] == u[k - a.len()]);
            assert(hit_ok(u[k - a.len()], m, d.len() as int));
        }
    }
    lemma_take_at_most_all(a + u, MAX_STRINGS as int, |h: HitSpec| hit_ok(h, m, scanned(blob).len() as int));
}

/// Whether an ASCII hit at offset `o` of `d` is a whole printable run: it
/// starts `d` or follows a byte that is not printable, and its run (up to
/// the first byte that is not printable) has at least `m` bytes.
pub open spec fn ascii_run_ok(d: Seq<u8>, o: int, m: int) -> bool {
    let e = crate::strings::ascii_run_end(d, o);
    &&& 0 <= o < d.len()
    &&& printable_byte(d[o])
    &&& (o == 0 || !printable_byte(d[o - 1]))
    &&& e - o >= m
    &&& o < e <= d.len()
    &&& forall|j: int| o <= j < e ==> #[trigger] printable_byte(d[j])
    &&& (e == d.len() || !printable_byte(d[e]))
}

/// A printable ASCII byte (space through `~`) or a tab.
pub open spec fn printable_byte(b: u8) -> bool {
    (0x20u8 <= b && b <= 0x7eu8) || b == 9u8
}

proof fn lemma_ascii_run_end_stops(d: Seq<u8>, i: int)
    requires
        0 <= i,
    ensures
        crate::strings::ascii_run_end(d, i) >= d.len() || !crate::strings::is_printable(
            d[crate::strings::ascii_run_end(d, i)],
        ),
    decreases d.len() - i,
{
    if 0 <= i < d.len() && crate::strings::is_printable(d[i]) {
        lemma_ascii_run_end_stops(d, i + 1);
    }
}

proof fn lemma_utf16_labels(d: Seq<u8>, m: int, i: int)
    requires
        0 <= i,
    ensures
        forall|k: int| 0 <= k < utf16_hits(d, m, i).len() ==> (#[trigger] utf16_hits(d, m, i)[k]).encoding == utf16_label(),
    decreases d.len() - i,
{
    if i + 1 < d.len() {
        if !crate::strings::is_utf16_unit(d, i) {
            lemma_utf16_labels(d, m, i + 1);
            assert(utf16_hits(d, m, i) == utf16_hits(d, m, i + 1));
        } else {
            let e = crate::strings::utf16_run_end(d, i);
            lemma_utf16_run_end(d, i);
            lemma_utf16_labels(d, m, e);
            let rest = utf16_hits(d, m, e);
            if (e - i) / 2 >= m {
                let all = utf16_hits(d, m, i);
                assert(all == seq![all[0]] + rest);
                assert forall|k: int| 0 <= k < all.len() implies (#[trigger] all[k]).encoding == utf16_label() by {
                    if k > 0 {
                        assert(all[k] == rest[k - 1]);
                    }
                }
            } else {
                assert(utf16_hits(d, m, i) == rest);
            }
        }
    }
}

/// Whether an ASCII hit of `d` is the whole printable run at its offset (see
/// [`ascii_run_ok`]) and its value is that run's bytes, cut to
/// `MAX_STRING_LEN` characters.
pub open spec fn ascii_hit_ok(d: Seq<u8>, h: HitSpec, m: int) -> bool {
    let o = h.offset;
    let run = crate::strings::ascii_run_end(d, o) - o;
    &&& ascii_run_ok(d, o, m)
    &&& h.value.len() == (if run <= MAX_STRING_LEN { run } else { MAX_STRING_LEN as int })
    &&& forall|k: int| 0 <= k < h.value.len() ==> #[trigger] h.value[k] == (d[o + k] as char)
}

proof fn lemma_ascii_hits_runs(d: Seq<u8>, m: int, i: int)
    requires
        0 <= i,
        i == 0 || i >= d.len() || !crate::strings::is_printable(d[i - 1]) || !crate::strings::is_printable(d[i]),
    ensures
        forall|k: int|
            0 <= k < ascii_hits(d, m, i).len() ==> ascii_hit_ok(d, #[trigger] ascii_hits(d, m, i)[k], m),
    decreases d.len() - i,
{
    if i < d.len() {
        if !crate::strings::is_printable(d[i]) {
            lemma_ascii_hits_runs(d, m, i + 1);
            assert(ascii_hits(d, m, i) == ascii_hits(d, m, i + 1));
        } else {
            let e = crate::strings::ascii_run_end(d, i);
            lemma_ascii_run_end(d, i);
            lemma_ascii_run_end_stops(d, i);
            lemma_ascii_hits_runs(d, m, e);
            let rest = ascii_hits(d, m, e);
            if e - i >= m {
                let all = ascii_hits(d, m, i);
                assert(all == seq![all[0]] + rest);
                assert(all[0].offset == i);
                assert forall|k: int| 0 <= k < all.len() implies ascii_hit_ok(d, #[trigger] all[k], m) by {
                    if k > 0 {
                        assert(all[k] == rest[k - 1]);
                    }
                }
            } else {
                assert(ascii_hits(d, m, i) == rest);
            }
        }
    }
}

/// Every ASCII string hit is a whole printable run of the scanned window: it
/// starts the window or follows a byte that is not printable, and the run
/// from it has at least `min_len` (at least 1) bytes; its value is the run,
/// cut to `MAX_STRING_LEN` characters.
pub proof fn law_ascii_hits_are_whole_runs(blob: Seq<u8>, min_len: usize)
    ensures
        forall|k: int|
            0 <= k < spec_strings(blob, min_len).len() && (#[trigger] spec_strings(blob, min_len)[k]).encoding
                == ascii_label() ==> ascii_hit_ok(
                scanned(blob),
                spec_strings(blob, min_len)[k],
                effective_min_len(min_len),
            ),
{
    let d = scanned(blob);
    let m = effective_min_len(min_len);
    let a = ascii_hits(d, m, 0);
    let u = utf16_hits(d, m, 0);
    lemma_ascii_hits_runs(d, m, 0);
    lemma_utf16_labels(d, m, 0);
    assert(ascii_label() != utf16_label()) by {
        reveal_strlit("ascii");
        reveal_strlit("utf16le");
        assert("ascii"@.len() != "utf16le"@.len());
    }
    let all = a + u;
    assert forall|k: int| 0 <= k < all.len() && (#[trigger] all[k]).encoding == ascii_label() implies ascii_hit_ok(
        d,
        all[k],
        m,
    ) by {
        if k >= a.len() {
            assert(all[k] == u[k - a.len()]);
        } else {
            assert(all[k] == a[k]);
        }
    }
    let t = spec_strings(blob, min_len);
    assert forall|k: int| 0 <= k < t.len() && (#[trigger] t[k]).encoding == ascii_label() implies ascii_hit_ok(
        d,
        t[k],
        m,
    ) by {
        assert(t[k] == all[k]);
    }
}

/// Whether a UTF-16LE code unit of a printable ASCII character (a printable
/// byte then a zero byte) starts at `o` in `d`.
pub open spec fn utf16_unit_at(d: Seq<u8>, o: int) -> bool {
    &&& 0 <= o && o + 1 < d.len()
    &&& (0x20u8 <= d[o] && d[o] <= 0x7eu8) || d[o] == 9u8
    &&& d[o + 1] == 0u8
}

/// Whether a UTF-16LE hit of `d` is read at its own offset: a unit starts
/// there, the `k`-th character of its value is the low byte of the unit at
/// `offset + 2k` (each one a unit), and the two bytes before it are not a
/// unit (the hit starts its run).
pub open spec fn utf16_hit_at(d: Seq<u8>, h: HitSpec) -> bool {
    &&& utf16_unit_at(d, h.offset)
    &&& forall|k: int|
        0 <= k < h.value.len() ==> #[trigger] h.value[k] == (d[h.offset + 2 * k] as char) && utf16_unit_at(
            d,
            h.offset + 2 * k,
        )
    &&& h.offset < 2 || !utf16_unit_at(d, h.offset - 2)
    &&& h.value.len() < MAX_STRING_LEN ==> !utf16_unit_at(d, h.offset + 2 * h.value.len())
}

proof fn lemma_utf16_run_end_stops(d: Seq<u8>, i: int)
    ensures
        !crate::strings::is_utf16_unit(d, crate::strings::utf16_run_end(d, i)),
    decreases d.len() - i,
{
    if crate::strings::is_utf16_unit(d, i) {
        lemma_utf16_run_end_stops(d, i + 2);
    }
}

proof fn lemma_utf16_hits_at(d: Seq<u8>, m: int, i: int)
    requires
        0 <= i,
        i == 0 || !utf16_unit_at(d, i - 1),
        i < 2 || !utf16_unit_at(d, i - 2) || !utf16_unit_at(d, i),
    ensures
        forall|k: int| 0 <= k < utf16_hits(d, m, i).len() ==> utf16_hit_at(d, #[trigger] utf16_hits(d, m, i)[k]),
    decreases d.len() - i,
{
    if i + 1 < d.len() {
        if !crate::strings::is_utf16_unit(d, i) {
            assert(!utf16_unit_at(d, i));
            lemma_utf16_hits_at(d, m, i + 1);
            assert(utf16_hits(d, m, i) == utf16_hits(d, m, i + 1));
        } else {
            let e = crate::strings::utf16_run_end(d, i);
            lemma_utf16_run_end(d, i);
            lemma_utf16_run_end_stops(d, i);
            let units = (e - i) / 2;
            assert(crate::strings::is_utf16_unit(d, i + 2 * (units - 1)));
            assert(i + 2 * (units - 1) == e - 2);
            assert(!utf16_unit_at(d, e - 1));
            assert(!utf16_unit_at(d, e));
            lemma_utf16_hits_at(d, m, e);
            let rest = utf16_hits(d, m, e);
            if units >= m {
                let all = utf16_hits(d, m, i);
                let h = all[0];
                assert(all == seq![h] + rest);
                assert(h.offset == i);
                assert(utf16_unit_at(d, i));
                assert(h.value == crate::strings::utf16_value(d, i, units));
                assert(h.value.len() <= units);
                assert forall|k: int| #![trigger h.value[k]] 0 <= k < h.value.len() implies utf16_unit_at(
                    d,
                    h.offset + 2 * k,
                ) by {
                    assert(0 <= k < units);
                    assert(crate::strings::is_utf16_unit(d, i + 2 * k));
                }
                assert forall|k: int| 0 <= k < h.value.len() implies #[trigger] h.value[k] == (d[h.offset + 2
                    * k] as char) by {
                }
                assert(h.offset < 2 || !utf16_unit_at(d, h.offset - 2));
                assert(utf16_unit_at(d, h.offset));
                assert(utf16_hit_at(d, h));
                assert forall|k: int| 0 <= k < all.len() implies utf16_hit_at(d, #[trigger] all[k]) by {
                    if k > 0 {
                        assert(all[k] == rest[k - 1]);
                    }
                }
            } else {
                assert(utf16_hits(d, m, i) == rest);
            }
        }
    }
}

proof fn lemma_ascii_labels(d: Seq<u8>, m: int, i: int)
    requires
        0 <= i,
    ensures
        forall|k: int| 0 <= k < ascii_hits(d, m, i).len() ==> (#[trigger] ascii_hits(d, m, i)[k]).encoding == ascii_label(),
    decreases d.len() - i,
{
    if i < d.len() {
        if !crate::strings::is_printable(d[i]) {
            lemma_ascii_labels(d, m, i + 1);
            assert(ascii_hits(d, m, i) == ascii_hits(d, m, i + 1));
        } else {
            let e = crate::strings::ascii_run_end(d, i);
            lemma_ascii_run_end(d, i);
            lemma_ascii_labels(d, m, e);
            let rest = ascii_hits(d, m, e);
            if e - i >= m {
                let all = ascii_hits(d, m, i);
                assert(all == seq![all[0]] + rest);
                assert forall|k: int| 0 <= k < all.len() implies (#[trigger] all[k]).encoding == ascii_label() by {
                    if k > 0 {
                        assert(all[k] == rest[k - 1]);
                    }
                }
            } else {
                assert(ascii_hits(d, m, i) == rest);
            }
        }
    }
}

/// Every UTF-16LE string hit is read at its own file offset in the scanned
/// window: a unit (a printable byte, then 0) starts there, its value is the
/// low bytes of the consecutive units from there, and it starts its run.
pub proof fn law_utf16_hits_read_at_their_offset(blob: Seq<u8>, min_len: usize)
    ensures
        forall|k: int|
            0 <= k < spec_strings(blob, min_len).len() && (#[trigger] spec_strings(blob, min_len)[k]).encoding
                == utf16_label() ==> utf16_hit_at(scanned(blob), spec_strings(blob, min_len)[k]),
{
    let d = scanned(blob);
    let m = effective_min_len(min_len);
    let a = ascii_hits(d, m, 0);
    let u = utf16_hits(d, m, 0);
    lemma_utf16_hits_at(d, m, 0);
    lemma_ascii_labels(d, m, 0);
    assert(ascii_label() != utf16_label()) by {
        reveal_strlit("ascii");
        reveal_strlit("utf16le");
        assert("ascii"@.len() != "utf16le"@.len());
    }
    let all = a + u;
    let t = spec_strings(blob, min_len);
    assert forall|k: int| 0 <= k < t.len() && (#[trigger] t[k]).encoding == utf16_label() implies utf16_hit_at(
        d,
        t[k],
    ) by {
        assert(t[k] == all[k]);
        if k < a.len() {
            assert(all[k] == a[k]);
        } else {
            assert(all[k] == u[k - a.len()]);
        }
    }
}

proof fn lemma_group_words_distinct()
    ensures
        "call"@ != "jump"@,
        "call"@ != "ret"@,
        "call"@ != "int"@,
        "call"@ != "iret"@,
        "call"@ != "privilege"@,
        "call"@ != "branch_relative"@,
        "call"@ != "fpu"@,
        "call"@ != "vm"@,
        "jump"@ != "ret"@,
        "jump"@ != "int"@,
        "jump"@ != "iret"@,
        "jump"@ != "privilege"@,
        "jump"@ != "branch_relative"@,
        "jump"@ != "fpu"@,
        "jump"@ != "vm"@,
        "ret"@ != "int"@,
        "ret"@ != "iret"@,
        "ret"@ != "privilege"@,
        "ret"@ != "branch_relative"@,
        "ret"@ != "fpu"@,
        "ret"@ != "vm"@,
        "int"@ != "privilege"@,
        "int"@ != "branch_relative"@,
        "int"@ != "fpu"@,
        "int"@ != "vm"@,
        "iret"@ != "privilege"@,
        "iret"@ != "branch_relative"@,
        "iret"@ != "fpu"@,
        "iret"@ != "vm"@,
        "privilege"@ != "branch_relative"@,
        "privilege"@ != "fpu"@,
        "privilege"@ != "vm"@,
        "branch_relative"@ != "fpu"@,
        "branch_relative"@ != "vm"@,
        "fpu"@ != "vm"@,
{
    reveal_strlit("call");
    reveal_strlit("jump");
    reveal_strlit("ret");
    reveal_strlit("int");
    reveal_strlit("iret");
    reveal_strlit("privilege");
    reveal_strlit("branch_relative");
    reveal_strlit("fpu");
    reveal_strlit("vm");
    assert("call"@[0] != "jump"@[0]);
    assert("call"@[0] != "ret"@[0]);
    assert("call"@[0] != "int"@[0]);
    assert("call"@[0] != "iret"@[0]);
    assert("call"@[0] != "privilege"@[0]);
    assert("call"@[0] != "branch_relative"@[0]);
    assert("call"@[0] != "fpu"@[0]);
    assert("call"@[0] != "vm"@[0]);
    assert("jump"@[0] != "ret"@[0]);
    assert("jump"@[0] != "int"@[0]);
    assert("jump"@[0] != "iret"@[0]);
    assert("jump"@[0] != "privilege"@[0]);
    assert("jump"@[0] != "branch_relative"@[0]);
    assert("jump"@[0] != "fpu"@[0]);
    assert("jump"@[0] != "vm"@[0]);
    assert("ret"@[0] != "int"@[0]);
    assert("ret"@[0] != "iret"@[0]);
    assert("ret"@[0] != "privilege"@[0]);
    assert("ret"@[0] != "branch_relative"@[0]);
    assert("ret"@[0] != "fpu"@[0]);
    assert("ret"@[0] != "vm"@[0]);
    assert("int"@[0] != "privilege"@[0]);
    assert("int"@[0] != "branch_relative"@[0]);
    assert("int"@[0] != "fpu"@[0]);
    assert("int"@[0] != "vm"@[0]);
    assert("iret"@[0] != "privilege"@[0]);
    assert("iret"@[0] != "branch_relative"@[0]);
    assert("iret"@[0] != "fpu"@[0]);
    assert("iret"@[0] != "vm"@[0]);
    assert("privilege"@[0] != "branch_relative"@[0]);
    assert("privilege"@[0] != "fpu"@[0]);
    assert("privilege"@[0] != "vm"@[0]);
    assert("branch_relative"@[0] != "fpu"@[0]);
    assert("branch_relative"@[0] != "vm"@[0]);
    assert("fpu"@[0] != "vm"@[0]);
}

/// How Capstone group names are normalized: `call`, `jump`, `ret`, `fpu`
/// and `vm` keep their names, `int` and `iret` become `int`, `privilege`
/// becomes `privileged`, `branch_relative` stays; any other name whose
/// lower-cased form starts with `sse`, `avx`, `mmx` or `vec`, or is `neon`,
/// becomes `sse`; every other name is dropped.
pub proof fn law_group_names(raw: Seq<char>)
    ensures
        raw == "call"@ ==> spec_normalize(raw) == Some("call"@),
        raw == "jump"@ ==> spec_normalize(raw) == Some("jump"@),
        raw == "ret"@ ==> spec_normalize(raw) == Some("ret"@),
        raw == "int"@ || raw == "iret"@ ==> spec_normalize(raw) == Some("int"@),
        raw == "privilege"@ ==> spec_normalize(raw) == Some("privileged"@),
        raw == "branch_relative"@ ==> spec_normalize(raw) == Some("branch_relative"@),
        raw == "fpu"@ ==> spec_normalize(raw) == Some("fpu"@),
        raw == "vm"@ ==> spec_normalize(raw) == Some("vm"@),
        ({
            let fixed = raw == "call"@ || raw == "jump"@ || raw == "ret"@ || raw == "int"@ || raw == "iret"@
                || raw == "privilege"@ || raw == "branch_relative"@ || raw == "fpu"@ || raw == "vm"@;
            let l = crate::text::lower(raw);
            let vector = crate::text::starts_with(l, "sse"@) || crate::text::starts_with(l, "avx"@)
                || crate::text::starts_with(l, "mmx"@) || crate::text::starts_with(l, "vec"@) || l == "neon"@;
            &&& !fixed && vector ==> spec_normalize(raw) == Some("sse"@)
            &&& !fixed && !vector ==> spec_normalize(raw) is None
        }),
{
    lemma_group_words_distinct();
}

/// The value of a lower-case hex digit character.
pub open spec fn hex_value(c: char) -> int {
    if '0' <= c && c <= '9' {
        (c as int) - 48
    } else {
        (c as int) - 87
    }
}

/// Whether `c` is a lower-case hex digit.
pub open spec fn is_lower_hex(c: char) -> bool {
    ('0' <= c && c <= '9') || ('a' <= c && c <= 'f')
}

/// The row of an undecodable byte `b` at `addr` is a one-byte `.byte` row
/// at that address holding `b`, with no groups, whose operand text is `0x`
/// and the byte in two lower-case hex digits.
pub proof fn law_byte_rows(addr: u64, b: u8)
    ensures
        ({
            let r = bad_row(addr, b);
            &&& r.address == addr && r.size == 1 && r.bytes == seq![b] && r.groups.len() == 0
            &&& r.mnemonic == ".byte"@
            &&& r.op_str.len() == 4 && r.op_str[0] == '0' && r.op_str[1] == 'x'
            &&& is_lower_hex(r.op_str[2]) && is_lower_hex(r.op_str[3])
            &&& 16 * hex_value(r.op_str[2]) + hex_value(r.op_str[3]) == b
        }),
{
    let hi = b / 16;
    let lo = b % 16;
    assert(hi < 16 && lo < 16);
}

/// Whether a printable run of at least `m` bytes starts at `o` in `d`: the
/// byte before `o` (if any) is not printable and the `m` bytes from `o` are.
pub open spec fn ascii_run_starts(d: Seq<u8>, o: int, m: int) -> bool {
    &&& 0 <= o
    &&& o + m <= d.len()
    &&& m >= 1
    &&& (o == 0 || !printable_byte(d[o - 1]))
    &&& forall|j: int| o <= j < o + m ==> #[trigger] printable_byte(d[j])
}

proof fn lemma_ascii_run_end_at_least(d: Seq<u8>, o: int, n: int)
    requires
        0 <= o,
        0 <= n,
        o + n <= d.len(),
        forall|j: int| o <= j < o + n ==> #[trigger] printable_byte(d[j]),
    ensures
        crate::strings::ascii_run_end(d, o) >= o + n,
    decreases n,
{
    if n > 0 {
        assert(printable_byte(d[o]));
        assert(crate::strings::is_printable(d[o]));
        lemma_ascii_run_end_at_least(d, o + 1, n - 1);
        assert(crate::strings::ascii_run_end(d, o) == crate::strings::ascii_run_end(d, o + 1));
    } else {
        lemma_ascii_run_end_grows(d, o);
    }
}

proof fn lemma_ascii_run_end_grows(d: Seq<u8>, o: int)
    ensures
        crate::strings::ascii_run_end(d, o) >= o,
    decreases d.len() - o,
{
    if 0 <= o < d.len() && crate::strings::is_printable(d[o]) {
        lemma_ascii_run_end_grows(d, o + 1);
    }
}

proof fn lemma_utf16_run_end_grows(d: Seq<u8>, o: int)
    ensures
        crate::strings::utf16_run_end(d, o) >= o,
    decreases d.len() - o,
{
    if crate::strings::is_utf16_unit(d, o) {
        lemma_utf16_run_end_grows(d, o + 2);
    }
}

proof fn lemma_ascii_hits_complete(d: Seq<u8>, m: int, i: int, o: int)
    requires
        0 <= i <= o,
        ascii_run_starts(d, o, m),
    ensures
        exists|k: int| 0 <= k < ascii_hits(d, m, i).len() && (#[trigger] ascii_hits(d, m, i)[k]).offset == o,
    decreases o - i,
{
    assert(printable_byte(d[o]));
    if !crate::strings::is_printable(d[i]) {
        lemma_ascii_hits_complete(d, m, i + 1, o);
        assert(ascii_hits(d, m, i) == ascii_hits(d, m, i + 1));
    } else {
        let e = crate::strings::ascii_run_end(d, i);
        lemma_ascii_run_end(d, i);
        let rest = ascii_hits(d, m, e);
        let all = ascii_hits(d, m, i);
        if i == o {
            lemma_ascii_run_end_at_least(d, o, m);
            assert(all[0].offset == o);
        } else {
            if e > o - 1 {
                assert(printable_byte(d[o - 1]));
            }
            lemma_ascii_hits_complete(d, m, e, o);
            let k = choose|k: int| 0 <= k < rest.len() && (#[trigger] rest[k]).offset == o;
            if e - i >= m {
                assert(all == seq![all[0]] + rest);
                assert(all[k + 1] == rest[k]);
            } else {
                assert(all == rest);
            }
        }
    }
}

/// Whether a run of at least `m` UTF-16LE units starts at `o` in `d`: the
/// two bytes before `o` are not a unit and the `m` units from `o` are.
pub open spec fn utf16_run_starts(d: Seq<u8>, o: int, m: int) -> bool {
    &&& 0 <= o
    &&& m >= 1
    &&& (o < 2 || !utf16_unit_at(d, o - 2))
    &&& forall|k: int| 0 <= k < m ==> #[trigger] utf16_unit_at(d, o + 2 * k)
}

proof fn lemma_utf16_run_end_at_least(d: Seq<u8>, o: int, n: int)
    requires
        0 <= o,
        0 <= n,
        forall|k: int| 0 <= k < n ==> #[trigger] utf16_unit_at(d, o + 2 * k),
    ensures
        crate::strings::utf16_run_end(d, o) >= o + 2 * n,
    decreases n,
{
    if n > 0 {
        assert(utf16_unit_at(d, o + 2 * 0));
        assert forall|k: int| 0 <= k < n - 1 implies #[trigger] utf16_unit_at(d, (o + 2) + 2 * k) by {
            assert(utf16_unit_at(d, o + 2 * (k + 1)));
        }
        lemma_utf16_run_end_at_least(d, o + 2, n - 1);
        assert(crate::strings::is_utf16_unit(d, o));
        assert(crate::strings::utf16_run_end(d, o) == crate::strings::utf16_run_end(d, o + 2));
    } else {
        lemma_utf16_run_end_grows(d, o);
    }
}

proof fn lemma_utf16_hits_complete(d: Seq<u8>, m: int, i: int, o: int)
    requires
        0 <= i <= o,
        utf16_run_starts(d, o, m),
    ensures
        exists|k: int| 0 <= k < utf16_hits(d, m, i).len() && (#[trigger] utf16_hits(d, m, i)[k]).offset == o,
    decreases o - i,
{
    assert(utf16_unit_at(d, o + 2 * 0));
    if !crate::strings::is_utf16_unit(d, i) {
        lemma_utf16_hits_complete(d, m, i + 1, o);
        assert(utf16_hits(d, m, i) == utf16_hits(d, m, i + 1));
    } else {
        let e = crate::strings::utf16_run_end(d, i);
        lemma_utf16_run_end(d, i);
        let rest = utf16_hits(d, m, e);
        let all = utf16_hits(d, m, i);
        if i == o {
            lemma_utf16_run_end_at_least(d, o, m);
            assert(all[0].offset == o);
        } else {
            if e > o {
                let q = (o - i) / 2;
                if (o - i) % 2 == 0 {
                    assert(0 <= q - 1 < (e - i) / 2);
                    assert(crate::strings::is_utf16_unit(d, i + 2 * (q - 1)));
                    assert(i + 2 * (q - 1) == o - 2);
                    assert(utf16_unit_at(d, o - 2));
                } else {
                    assert(0 <= q < (e - i) / 2);
                    assert(crate::strings::is_utf16_unit(d, i + 2 * q));
                    assert(i + 2 * q + 1 == o);
                }
            }
            lemma_utf16_hits_complete(d, m, e, o);
            let k = choose|k: int| 0 <= k < rest.len() && (#[trigger] rest[k]).offset == o;
            if (e - i) / 2 >= m {
                assert(all == seq![all[0]] + rest);
                assert(all[k + 1] == rest[k]);
            } else {
                assert(all == rest);
            }
        }
    }
}

/// Every run long enough is reported, while the hit cap is not reached: a
/// printable run of at least `min_len` (at least 1) bytes in the scanned
/// window gives an `ascii` hit at its offset, and a run of at least
/// `min_len` UTF-16LE units gives a `utf16le` hit at its offset.
pub proof fn law_long_runs_are_reported(blob: Seq<u8>, min_len: usize, o: int)
    requires
        spec_strings(blob, min_len).len() < MAX_STRINGS,
    ensures
        ascii_run_starts(scanned(blob), o, effective_min_len(min_len)) ==> exists|k: int|
            0 <= k < spec_strings(blob, min_len).len() && (#[trigger] spec_strings(blob, min_len)[k]).offset == o
                && spec_strings(blob, min_len)[k].encoding == ascii_label(),
        utf16_run_starts(scanned(blob), o, effective_min_len(min_len)) ==> exists|k: int|
            0 <= k < spec_strings(blob, min_len).len() && (#[trigger] spec_strings(blob, min_len)[k]).offset == o
                && spec_strings(blob, min_len)[k].encoding == utf16_label(),
{
    let d = scanned(blob);
    let m = effective_min_len(min_len);
    let a = ascii_hits(d, m, 0);
    let u = utf16_hits(d, m, 0);
    let t = spec_strings(blob, min_len);
    lemma_ascii_labels(d, m, 0);
    lemma_utf16_labels(d, m, 0);
    assert(t == a + u);
    if ascii_run_starts(d, o, m) {
        lemma_ascii_hits_complete(d, m, 0, o);
        let k = choose|k: int| 0 <= k < a.len() && (#[trigger] a[k]).offset == o;
        assert(t[k] == a[k]);
    }
    if utf16_run_starts(d, o, m) {
        lemma_utf16_hits_complete(d, m, 0, o);
        let k = choose|k: int| 0 <= k < u.len() && (#[trigger] u[k]).offset == o;
        assert(t[a.len() + k] == u[k]);
    }
}

/// The characters with the Unicode `White_Space` property: tab through
/// carriage return, space, U+0085, U+00A0, U+1680, U+2000 through U+200A,
/// U+2028, U+2029, U+202F, U+205F and U+3000.
pub open spec fn unicode_space(c: char) -> bool {
    ('\t' <= c && c <= '\r') || c == ' ' || c == '\u{85}' || c == '\u{a0}' || c == '\u{1680}' || ('\u{2000}'
        <= c && c <= '\u{200a}') || c == '\u{2028}' || c == '\u{2029}' || c == '\u{202f}' || c == '\u{205f}'
        || c == '\u{3000}'
}

proof fn lemma_trim_start_at(s: Seq<char>) -> (i: int)
    ensures
        0 <= i <= s.len(),
        crate::text::trim_start(s) == s.skip(i),
        forall|k: int| 0 <= k < i ==> unicode_space(#[trigger] s[k]),
        i < s.len() ==> !unicode_space(s[i]),
    decreases s.len(),
{
    if s.len() > 0 && crate::text::is_whitespace(s[0]) {
        let i0 = lemma_trim_start_at(s.drop_first());
        assert(s.drop_first().skip(i0) =~= s.skip(i0 + 1));
        assert forall|k: int| 0 <= k < i0 + 1 implies unicode_space(#[trigger] s[k]) by {
            if k > 0 {
                assert(s.drop_first()[k - 1] == s[k]);
            }
        }
        if i0 + 1 < s.len() {
            assert(s.drop_first()[i0] == s[i0 + 1]);
        }
        i0 + 1
    } else {
        assert(s.skip(0) =~= s);
        0
    }
}

proof fn lemma_trim_end_at(s: Seq<char>) -> (j: int)
    ensures
        0 <= j <= s.len(),
        crate::text::trim_end(s) == s.take(j),
        forall|k: int| j <= k < s.len() ==> unicode_space(#[trigger] s[k]),
        j > 0 ==> !unicode_space(s[j - 1]),
    decreases s.len(),
{
    if s.len() > 0 && crate::text::is_whitespace(s.last()) {
        let j0 = lemma_trim_end_at(s.drop_last());
        assert(s.drop_last().take(j0) =~= s.take(j0));
        assert forall|k: int| j0 <= k < s.len() implies unicode_space(#[trigger] s[k]) by {
            if k < s.len() - 1 {
                assert(s.drop_last()[k] == s[k]);
            }
        }
        if j0 > 0 {
            assert(s.drop_last()[j0 - 1] == s[j0 - 1]);
        }
        j0
    } else {
        assert(s.take(s.len() as int) =~= s);
        s.len() as int
    }
}

/// Whether `t` is `s` with its leading and trailing whitespace removed: a
/// slice of `s` with only whitespace before and after it, that neither
/// starts nor ends with whitespace.
pub open spec fn trimmed_of(s: Seq<char>, t: Seq<char>) -> bool {
    exists|i: int, j: int|
        0 <= i <= j <= s.len() && #[trigger] s.subrange(i, j) == t && (forall|k: int|
            0 <= k < i ==> unicode_space(#[trigger] s[k])) && (forall|k: int|
            j <= k < s.len() ==> unicode_space(#[trigger] s[k])) && (i < j ==> !unicode_space(s[i])
            && !unicode_space(s[j - 1]))
}

/// Trimming removes exactly the leading and trailing whitespace.
pub proof fn law_trim(s: Seq<char>)
    ensures
        trimmed_of(s, crate::text::trim(s)),
{
    let i = lemma_trim_start_at(s);
    let t = s.skip(i);
    let j0 = lemma_trim_end_at(t);
    let j = i + j0;
    assert(t.take(j0) =~= s.subrange(i, j));
    assert forall|k: int| j <= k < s.len() implies unicode_space(#[trigger] s[k]) by {
        assert(t[k - i] == s[k]);
    }
    if i < j {
        assert(t[j0 - 1] == s[j - 1]);
    }
    assert(crate::text::trim(s) == s.subrange(i, j));
}

/// The row of a decoded instruction keeps its address, bytes, mnemonic and
/// operand text (empty when Capstone has none), has its byte count as its
/// size, and carries its group names normalized.
pub proof fn law_decoded_rows(d: crate::engine::DecodedView)
    requires
        d.bytes.len() <= 24,
    ensures
        ({
            let r = crate::engine::decoded_row(d);
            &&& r.address == d.address && r.bytes == d.bytes && r.size == d.bytes.len()
            &&& r.mnemonic == (match d.mnemonic {
                Some(m) => m,
                None => Seq::empty(),
            })
            &&& r.op_str == (match d.op_str {
                Some(o) => o,
                None => Seq::empty(),
            })
            &&& r.groups == spec_normalize_all(d.group_names)
        }),
{
}

proof fn lemma_split_push(s: Seq<char>)
    ensures
        crate::meta::split_commas(s).len() >= 1,
        crate::meta::join_commas(crate::meta::split_commas(s)) == s,
        forall|k: int|
            0 <= k < crate::meta::split_commas(s).len() ==> !(#[trigger] crate::meta::split_commas(s)[k]).contains(
                ',',
            ),
    decreases s.len(),
{
    let sp = crate::meta::split_commas(s);
    if s.len() == 0 {
        assert(sp == seq![Seq::<char>::empty()]);
        assert(crate::meta::join_commas(sp) == sp[0]);
        assert forall|k: int| 0 <= k < sp.len() implies !(#[trigger] sp[k]).contains(',') by {
            assert(sp[k].len() == 0);
        }
    } else {
        let init = s.drop_last();
        lemma_split_push(init);
        let rest = crate::meta::split_commas(init);
        let c = s.last();
        assert(init.push(c) =~= s);
        if c == ',' {
            assert(sp == rest.push(Seq::empty()));
            assert(sp.drop_last() =~= rest);
            assert(crate::meta::join_commas(sp) == crate::meta::join_commas(rest).push(',') + Seq::<char>::empty());
            assert(crate::meta::join_commas(sp) =~= s);
            assert forall|k: int| 0 <= k < sp.len() implies !(#[trigger] sp[k]).contains(',') by {
                if k < rest.len() {
                    assert(sp[k] == rest[k]);
                } else {
                    assert(sp[k].len() == 0);
                }
            }
        } else {
            let last = rest.last().push(c);
            assert(sp == rest.update(rest.len() - 1, last));
            assert forall|k: int| 0 <= k < sp.len() implies !(#[trigger] sp[k]).contains(',') by {
                if k < rest.len() - 1 {
                    assert(sp[k] == rest[k]);
                } else {
                    assert(sp[k] == last);
                    assert(!rest[rest.len() - 1].contains(','));
                    if last.contains(',') {
                        let m = choose|m: int| 0 <= m < last.len() && last[m] == ',';
                        if m < last.len() - 1 {
                            assert(rest.last()[m] == ',');
                        }
                    }
                }
            }
            if rest.len() == 1 {
                assert(crate::meta::join_commas(rest) == rest[0]);
                assert(crate::meta::join_commas(sp) == sp[0]);
                assert(crate::meta::join_commas(sp) =~= s);
            } else {
                assert(sp.drop_last() =~= rest.drop_last());
                assert(crate::meta::join_commas(rest) == crate::meta::join_commas(rest.drop_last()).push(',')
                    + rest.last());
                assert(crate::meta::join_commas(sp) == crate::meta::join_commas(sp.drop_last()).push(',')
                    + sp.last());
                assert(crate::meta::join_commas(sp) =~= s);
            }
        }
    }
}

/// Splitting on commas loses nothing and keeps no comma: the pieces, joined
/// with commas, are the text, and no piece holds a comma.
pub proof fn law_split_commas(s: Seq<char>)
    ensures
        crate::meta::join_commas(crate::meta::split_commas(s)) == s,
        forall|k: int|
            0 <= k < crate::meta::split_commas(s).len() ==> !(#[trigger] crate::meta::split_commas(s)[k]).contains(
                ',',
            ),
{
    lemma_split_push(s);
}

/// A minimum string length of 0 reads as 1: both ask for every run.
pub proof fn law_min_len_zero_is_one(blob: Seq<u8>)
    ensures
        spec_strings(blob, 0) == spec_strings(blob, 1),
{
}

/// A blob the library does not parse as a container (goblin does not
/// recognize it, or it is a Mach-O whose entry address computation
/// overflows) is a raw blob: it probes as `raw`, has no sections, imports or
/// entry point, and without an explicit arch it disassembles to the single
/// `(error)` row.
pub proof fn law_unrecognized_blob_is_raw(
    blob: Seq<u8>,
    mode: Option<Seq<char>>,
    base: Option<u64>,
    section: Seq<char>,
)
    requires
        crate::objfile::container_kind_of(blob) == ContainerKind::Unknown,
    ensures
        spec_probe(container_header(blob)) == raw_probe(),
        spec_sections(blob).len() == 0,
        spec_imports(blob).len() == 0,
        spec_entrypoint(blob) == (EntryPointView {
            arch: None,
            mode: None,
            vaddr: None,
            file_off: None,
            section: None,
        }),
        spec_disassemble(blob, None, mode, base, section) == seq![error_row()],
{
    assert(take_at_most(Seq::<SectionView>::empty(), MAX_SECTIONS as int) =~= Seq::<SectionView>::empty());
    assert(take_at_most(Seq::<crate::imports::ImportView>::empty(), MAX_IMPORTS as int) =~= Seq::<
        crate::imports::ImportView,
    >::empty());
}

/// The regions `disassemble` sweeps come in address order: sorted by start
/// address.
pub proof fn law_regions_in_address_order(blob: Seq<u8>, section: Seq<char>, base: Option<u64>)
    ensures
        crate::sweep::starts_sorted(spec_regions(blob, spec_sections(blob), section, base)),
{
    let secs = spec_sections(blob);
    crate::sweep::lemma_sort_by_start_sorted(spec_section_regions(exec_sections(secs), blob, base));
    crate::sweep::lemma_sort_by_start_sorted(
        spec_section_regions(named_sections(secs, section), blob, base),
    );
}

/// An explicit selection depends only on the trimmed, ASCII-lower-cased
/// `arch` and `mode` arguments.
pub proof fn law_explicit_selection_normalizes(
    a1: Seq<char>,
    a2: Seq<char>,
    m1: Option<Seq<char>>,
    m2: Option<Seq<char>>,
)
    requires
        norm_arg(a1) == norm_arg(a2),
        m1 is Some == m2 is Some,
        m1 is Some ==> norm_arg(m1.unwrap()) == norm_arg(m2.unwrap()),
    ensures
        spec_resolve_explicit(a1, m1) == spec_resolve_explicit(a2, m2),
{
}

/// Group normalization keeps every name it maps: each raw name that maps to
/// a vocabulary name has that name in the result, and every name in the
/// result comes from some raw name (and, by
/// `lemma_normalize_all_distinct_vocabulary`, appears once).
pub proof fn law_normalize_all_covers(raw: Seq<Seq<char>>)
    ensures
        forall|i: int|
            0 <= i < raw.len() && #[trigger] spec_normalize(raw[i]) is Some ==> spec_normalize_all(
                raw,
            ).contains(spec_normalize(raw[i]).unwrap()),
        forall|k: int|
            0 <= k < spec_normalize_all(raw).len() ==> exists|i: int|
                0 <= i < raw.len() && spec_normalize(raw[i]) == Some(
                    #[trigger] spec_normalize_all(raw)[k],
                ),
    decreases raw.len(),
{
    if raw.len() > 0 {
        let init = raw.drop_last();
        law_normalize_all_covers(init);
        let rest = spec_normalize_all(init);
        let all = spec_normalize_all(raw);
        assert forall|i: int|
            0 <= i < raw.len() && #[trigger] spec_normalize(raw[i]) is Some implies all.contains(
                spec_normalize(raw[i]).unwrap(),
            ) by {
            if i < raw.len() - 1 {
                assert(raw[i] == init[i]);
                let n = spec_normalize(raw[i]).unwrap();
                assert(rest.contains(n));
                let j = choose|j: int| 0 <= j < rest.len() && rest[j] == n;
                if spec_normalize(raw.last()) is Some && !rest.contains(spec_normalize(raw.last()).unwrap()) {
                    assert(all[j] == n);
                }
            } else {
                let n = spec_normalize(raw.last()).unwrap();
                if !rest.contains(n) {
                    assert(all[rest.len() as int] == n);
                }
            }
        }
        assert forall|k: int| 0 <= k < all.len() implies exists|i: int|
            0 <= i < raw.len() && spec_normalize(raw[i]) == Some(#[trigger] all[k]) by {
            if k < rest.len() {
                assert(all[k] == rest[k]);
                let i = choose|i: int| 0 <= i < init.len() && spec_normalize(init[i]) == Some(rest[k]);
                assert(raw[i] == init[i]);
            } else {
                assert(spec_normalize(raw[raw.len() - 1]) == Some(all[k]));
            }
        }
    }
}

/// Group normalization keeps first-seen order: the names normalized from
/// any first part of the raw list are, in the same order, the first names
/// of the whole result; a later raw name only adds names at the end.
pub proof fn law_normalize_all_first_seen_order(raw: Seq<Seq<char>>, i: int)
    requires
        0 <= i <= raw.len(),
    ensures
        spec_normalize_all(raw.take(i)).len() <= spec_normalize_all(raw).len(),
        spec_normalize_all(raw.take(i)) == spec_normalize_all(raw).take(
            spec_normalize_all(raw.take(i)).len() as int,
        ),
    decreases raw.len(),
{
    let all = spec_normalize_all(raw);
    if i == raw.len() {
        assert(raw.take(i) =~= raw);
        assert(all.take(all.len() as int) =~= all);
    } else {
        let init = raw.drop_last();
        law_normalize_all_first_seen_order(init, i);
        assert(init.take(i) =~= raw.take(i));
        let rest = spec_normalize_all(init);
        let pre = spec_normalize_all(raw.take(i));
        assert(all == rest || all == rest.push(spec_normalize(raw.last()).unwrap()));
        assert(all.take(pre.len() as int) =~= rest.take(pre.len() as int));
    }
}

/// The JSON text escaping keeps strings well formed: every `"` it emits is
/// preceded by a backslash, and with newlines escaped no raw newline is
/// left.
pub proof fn law_escape_is_json_safe(s: Seq<char>, nl: bool)
    ensures
        forall|i: int|
            0 <= i < escape(s, nl).len() && #[trigger] escape(s, nl)[i] == '"' ==> i > 0 && escape(
                s,
                nl,
            )[i - 1] == '\\',
        nl ==> forall|i: int| 0 <= i < escape(s, nl).len() ==> #[trigger] escape(s, nl)[i] != '\n',
    decreases s.len(),
{
    if s.len() > 0 {
        law_escape_is_json_safe(s.drop_last(), nl);
        let a = escape(s.drop_last(), nl);
        let b = escape_char(s.last(), nl);
        assert(escape(s, nl) == a + b);
        assert forall|i: int|
            0 <= i < (a + b).len() && #[trigger] (a + b)[i] == '"' implies i > 0 && (a + b)[i - 1]
                == '\\' by {
            if i < a.len() {
                assert((a + b)[i] == a[i]);
                assert((a + b)[i - 1] == a[i - 1]);
            } else {
                assert((a + b)[i] == b[i - a.len()]);
                assert(b[i - a.len()] == '"');
                assert(i - a.len() == 1);
                assert((a + b)[i - 1] == b[0]);
            }
        }
        if nl {
            assert forall|i: int| 0 <= i < (a + b).len() implies #[trigger] (a + b)[i] != '\n' by {
                if i < a.len() {
                    assert((a + b)[i] == a[i]);
                } else {
                    assert((a + b)[i] == b[i - a.len()]);
                }
            }
        }
    }
}

/// Whether `k` is one of the six section kind labels.
pub open spec fn is_section_kind(k: Seq<char>) -> bool {
    k == "code"@ || k == "data"@ || k == "rodata"@ || k == "bss"@ || k == "debug"@ || k == "other"@
}

/// Whether a section is well formed in a blob of `blob_len` bytes: its kind
/// is one of the six labels, it is `code` exactly when executable, and its
/// file byte range is non-empty, inside the blob and at most
/// `MAX_SECTION_BYTES` long.
pub open spec fn section_ok(s: SectionView, blob_len: int) -> bool {
    &&& is_section_kind(s.kind)
    &&& (s.kind == "code"@ <==> s.executable)
    &&& s.data_range matches Some(r) ==> 0 < r.1 <= MAX_SECTION_BYTES && r.0 + r.1 <= blob_len
}

proof fn lemma_labels_distinct()
    ensures
        "code"@ != "data"@,
        "code"@ != "rodata"@,
        "code"@ != "bss"@,
        "code"@ != "debug"@,
        "code"@ != "other"@,
{
    reveal_strlit("code");
    reveal_strlit("data");
    reveal_strlit("rodata");
    reveal_strlit("bss");
    reveal_strlit("debug");
    reveal_strlit("other");
    assert("code"@[0] != "data"@[0]);
    assert("code"@[0] != "rodata"@[0]);
    assert("code"@[0] != "bss"@[0]);
    assert("code"@[0] != "debug"@[0]);
    assert("code"@[0] != "other"@[0]);
}

proof fn lemma_mach_sections_ok(src: (Seq<u8>, bool), n: int)
    ensures
        forall|i: int|
            0 <= i < spec_mach_sections_upto(src, n).len() ==> #[trigger] section_ok(
                spec_mach_sections_upto(src, n)[i],
                src.0.len() as int,
            ),
    decreases n,
{
    lemma_labels_distinct();
    if n > 0 {
        lemma_mach_sections_ok(src, n - 1);
        let a = spec_mach_sections_upto(src, n - 1);
        let b = spec_segment_sections(src, n - 1);
        assert forall|i: int| 0 <= i < (a + b).len() implies #[trigger] section_ok((a + b)[i], src.0.len() as int) by {
            if i >= a.len() {
                assert((a + b)[i] == b[i - a.len()]);
            } else {
                assert((a + b)[i] == a[i]);
            }
        }
    }
}

/// Every section of a blob is well formed (see [`section_ok`]): its kind is
/// one of the six labels, `code` exactly when executable, and its byte range
/// lies inside the blob.
pub proof fn law_sections_well_formed(blob: Seq<u8>)
    ensures
        forall|i: int|
            0 <= i < spec_sections(blob).len() ==> #[trigger] section_ok(
                spec_sections(blob)[i],
                blob.len() as int,
            ),
{
    lemma_labels_distinct();
    let o = crate::objfile::goblin_object(blob);
    let all = match o.kind {
        ContainerKind::Elf => spec_elf_sections(blob),
        ContainerKind::Pe => spec_pe_sections(blob),
        ContainerKind::Mach => spec_mach_sections_upto((blob, false), o.mach.segment_count as int),
        ContainerKind::FatMach => if crate::objfile::goblin_fat_first(blob) is Some {
            spec_mach_sections_upto(
                (blob, true),
                crate::objfile::goblin_fat_first(blob).unwrap().segment_count as int,
            )
        } else {
            Seq::empty()
        },
        ContainerKind::Unknown => Seq::empty(),
    };
    lemma_mach_sections_ok((blob, false), o.mach.segment_count as int);
    if crate::objfile::goblin_fat_first(blob) is Some {
        lemma_mach_sections_ok(
            (blob, true),
            crate::objfile::goblin_fat_first(blob).unwrap().segment_count as int,
        );
    }
    assert forall|i: int| 0 <= i < all.len() implies #[trigger] section_ok(all[i], blob.len() as int) by {
    }
    lemma_take_at_most_all(all, MAX_SECTIONS as int, |s: SectionView| section_ok(s, blob.len() as int));
}

/// Whether an import row is well formed: its kind is `named`, `ordinal` or
/// `delayed`; exactly the `ordinal` rows lack a name; a library, when
/// present, is not empty; and a `delayed` row has no ordinal.
pub open spec fn import_ok(i: crate::imports::ImportView) -> bool {
    &&& i.kind == "named"@ || i.kind == "ordinal"@ || i.kind == "delayed"@
    &&& (i.kind == "ordinal"@ <==> i.name is None)
    &&& i.library matches Some(l) ==> l.len() > 0
    &&& i.kind == "delayed"@ ==> i.ordinal is None
}

proof fn lemma_import_kinds_distinct()
    ensures
        "named"@ != "ordinal"@,
        "delayed"@ != "ordinal"@,
        "named"@ != "delayed"@,
{
    reveal_strlit("named");
    reveal_strlit("ordinal");
    reveal_strlit("delayed");
    assert("named"@.len() != "ordinal"@.len());
    assert("delayed"@[0] != "ordinal"@[0]);
    assert("named"@.len() != "delayed"@.len());
}

proof fn lemma_elf_imports_ok(bytes: Seq<u8>, n: int)
    requires
        "named"@ != "ordinal"@,
    ensures
        forall|k: int|
            0 <= k < crate::imports::spec_elf_imports_upto(bytes, n).len() ==> #[trigger] import_ok(
                crate::imports::spec_elf_imports_upto(bytes, n)[k],
            ),
    decreases n,
{
    if n > 0 {
        lemma_elf_imports_ok(bytes, n - 1);
        let rest = crate::imports::spec_elf_imports_upto(bytes, n - 1);
        let all = crate::imports::spec_elf_imports_upto(bytes, n);
        assert forall|k: int| 0 <= k < all.len() implies #[trigger] import_ok(all[k]) by {
            if k < rest.len() {
                assert(all[k] == rest[k]);
            }
        }
    }
}

/// Every import row is well formed (see [`import_ok`]), and there are at most
/// `MAX_IMPORTS` of them.
pub proof fn law_imports_well_formed(blob: Seq<u8>)
    ensures
        spec_imports(blob).len() <= MAX_IMPORTS,
        forall|k: int| 0 <= k < spec_imports(blob).len() ==> #[trigger] import_ok(spec_imports(blob)[k]),
{
    let o = crate::objfile::goblin_object(blob);
    lemma_import_kinds_distinct();
    lemma_elf_imports_ok(blob, o.elf_dynsym_count as int);
    let all = match crate::objfile::container_kind_of(blob) {
        ContainerKind::Elf => crate::imports::spec_elf_imports_upto(blob, o.elf_dynsym_count as int),
        ContainerKind::Pe => crate::imports::spec_pe_imports(blob),
        ContainerKind::Mach => crate::imports::spec_mach_imports((blob, false)),
        ContainerKind::FatMach => if crate::objfile::fat_first_of(blob) is Some {
            crate::imports::spec_mach_imports((blob, true))
        } else {
            Seq::empty()
        },
        ContainerKind::Unknown => Seq::empty(),
    };
    assert forall|k: int| 0 <= k < all.len() implies #[trigger] import_ok(all[k]) by {
        match crate::objfile::container_kind_of(blob) {
            ContainerKind::Pe => {
                let v = o.pe_imports;
                let pi = crate::imports::spec_pe_import(v[k]);
                assert(all[k] == pi);
                assert(pi.library matches Some(l) ==> l.len() > 0);
                if v[k].name.len() == 0 || crate::text::starts_with(v[k].name, "ORDINAL"@) {
                    assert(pi.kind == "ordinal"@ && pi.name is None);
                } else {
                    assert(pi.kind == "named"@ && pi.name is Some);
                }
            },
            ContainerKind::Mach => {
                match crate::objfile::goblin_mach_imports(blob, false) {
                    Some(v) => if crate::binds::mach_binds_clean((blob, false)) {
                        assert(all[k] == crate::imports::spec_mach_import(v[k]));
                        assert(import_ok(all[k]));
                    },
                    None => {},
                }
            },
            ContainerKind::FatMach => {
                match crate::objfile::goblin_mach_imports(blob, true) {
                    Some(v) => if crate::binds::mach_binds_clean((blob, true)) {
                        assert(all[k] == crate::imports::spec_mach_import(v[k]));
                    },
                    None => {},
                }
            },
            ContainerKind::Elf => {
                assert(import_ok(all[k]));
            },
            _ => {},
        }
    }
    lemma_take_at_most_all(all, MAX_IMPORTS as int, |i: crate::imports::ImportView| import_ok(i));
}

} // verus!
