//! Top-level `disassemble`: arch/mode resolution, region selection and a
//! bounded linear sweep of each region.
use vstd::prelude::*;

use crate::engine::{
    build, error_row, insns_view, law_covering_rows_are_chained, rows_chained, rows_cover, rows_ok, spec_engine_config, sweep_into,
    sweep_rows, Engine, EngineConfig, Insn, InsnView,
};
use crate::limits::{MAX_INSNS, MAX_SECTION_BYTES};
use crate::probe::{
    container_header, opt_sel_view, probe, resolve_explicit, spec_arch_sel, spec_probe,
    spec_resolve_explicit, ArchSel, ArchSelView,
};
use crate::sections::{range_bytes, sections, sections_view, spec_sections, Section, SectionView};
use crate::text::{chars_eq_str, chars_of, take_at_most};

verus! {

/// The part of `s` after its last comma (all of `s` when it has none).
pub open spec fn last_component(s: Seq<char>) -> Seq<char>
    decreases s.len(),
{
    if s.len() == 0 {
        s
    } else if s.last() == ',' {
        Seq::empty()
    } else {
        last_component(s.drop_last()).push(s.last())
    }
}

/// Whether a section named `full` is the one `requested` names: the full
/// name, or its part after the last comma (Mach-O `__SEG,__sect`).
pub open spec fn spec_name_matches(full: Seq<char>, requested: Seq<char>) -> bool {
    full == requested || last_component(full) == requested
}

fn last_component_chars(s: &[char]) -> (r: Vec<char>)
    ensures
        r@ == last_component(s@),
{
    let mut i: usize = s.len();
    while i > 0 && s[i - 1] != ','
        invariant
            i <= s.len(),
            forall|k: int| i <= k < s.len() ==> s@[k] != ',',
        decreases i,
    {
        i = i - 1;
    }
    proof {
        lemma_last_component(s@, i as int);
    }
    let mut r: Vec<char> = Vec::new();
    let mut k: usize = i;
    while k < s.len()
        invariant
            i <= k <= s.len(),
            r@ == s@.subrange(i as int, k as int),
        decreases s.len() - k,
    {
        r.push(s[k]);
        k = k + 1;
        assert(r@ =~= s@.subrange(i as int, k as int));
    }
    r
}

proof fn lemma_last_component(s: Seq<char>, i: int)
    requires
        0 <= i <= s.len(),
        forall|k: int| i <= k < s.len() ==> s[k] != ',',
        i == 0 || s[i - 1] == ',',
    ensures
        last_component(s) == s.subrange(i, s.len() as int),
    decreases s.len(),
{
    if s.len() > i {
        lemma_last_component(s.drop_last(), i);
        assert(s.drop_last().subrange(i, s.len() - 1).push(s.last()) =~= s.subrange(i, s.len() as int));
    } else if s.len() > 0 {
        assert(s.subrange(i, s.len() as int) =~= Seq::<char>::empty());
    }
}

fn section_name_matches(full: &str, requested: &str) -> (r: bool)
    ensures
        r == spec_name_matches(full@, requested@),
{
    let f = chars_of(full);
    if chars_eq_str(&f, requested) {
        return true;
    }
    let last = last_component_chars(&f);
    chars_eq_str(&last, requested)
}

/// A region to sweep: its start address and its bytes.
pub type Region<'a> = (u64, &'a [u8]);

/// The content of a region.
pub open spec fn region_view(r: (u64, &[u8])) -> (u64, Seq<u8>) {
    (r.0, r.1@)
}

/// The views of a sequence of regions.
pub open spec fn regions_view(v: Seq<(u64, &[u8])>) -> Seq<(u64, Seq<u8>)> {
    v.map_values(|r: (u64, &[u8])| region_view(r))
}

/// The regions for the chosen sections: each at its own address, except
/// that an explicit base overrides the start of a single chosen section.
pub open spec fn spec_section_regions(
    chosen: Seq<SectionView>,
    blob: Seq<u8>,
    base: Option<u64>,
) -> Seq<(u64, Seq<u8>)> {
    Seq::new(
        chosen.len(),
        |i: int|
            (
                if chosen.len() == 1 {
                    match base {
                        Some(b) => b,
                        None => chosen[i].vaddr,
                    }
                } else {
                    chosen[i].vaddr
                },
                range_bytes(chosen[i].data_range, blob),
            ),
    )
}

/// The executable sections, in order.
pub open spec fn exec_sections(secs: Seq<SectionView>) -> Seq<SectionView> {
    secs.filter(|s: SectionView| s.executable)
}

/// The sections named by `name`, in order.
pub open spec fn named_sections(secs: Seq<SectionView>, name: Seq<char>) -> Seq<SectionView> {
    secs.filter(|s: SectionView| spec_name_matches(s.name, name))
}

/// What to sweep: the whole blob (capped at `MAX_SECTION_BYTES`) at `base`
/// (default 0) for `all` or when there are no sections; every executable
/// section for `auto`; otherwise the sections the name matches. Chosen
/// sections are swept in address order (by start address; sections that
/// start at the same address keep their table order).
pub open spec fn spec_regions(
    blob: Seq<u8>,
    secs: Seq<SectionView>,
    section: Seq<char>,
    base: Option<u64>,
) -> Seq<(u64, Seq<u8>)> {
    let whole = take_at_most(blob, MAX_SECTION_BYTES as int);
    let start = match base {
        Some(b) => b,
        None => 0,
    };
    if section == "all"@ || secs.len() == 0 {
        seq![(start, whole)]
    } else if section == "auto"@ {
        sort_by_start(spec_section_regions(exec_sections(secs), blob, base))
    } else {
        sort_by_start(spec_section_regions(named_sections(secs, section), blob, base))
    }
}

fn chosen_regions<'a>(
    blob: &'a [u8],
    secs: &[Section],
    auto: bool,
    section: &str,
    explicit_base: Option<u64>,
) -> (r: Vec<Region<'a>>)
    ensures
        regions_view(r@) == spec_section_regions(
            if auto {
                exec_sections(sections_view(secs@))
            } else {
                named_sections(sections_view(secs@), section@)
            },
            blob@,
            explicit_base,
        ),
{
    let ghost sv = sections_view(secs@);
    let ghost chosen = if auto {
        exec_sections(sv)
    } else {
        named_sections(sv, section@)
    };
    let mut picked: Vec<usize> = Vec::new();
    let mut i: usize = 0;
    while i < secs.len()
        invariant
            i <= secs.len(),
            sv == sections_view(secs@),
            forall|k: int| 0 <= k < picked.len() ==> #[trigger] picked@[k] < secs.len(),
            picked@.map_values(|k: usize| sv[k as int]) == if auto {
                exec_sections(sv.take(i as int))
            } else {
                named_sections(sv.take(i as int), section@)
            },
        decreases secs.len() - i,
    {
        let s = &secs[i];
        let keep = if auto {
            s.executable
        } else {
            section_name_matches(s.name.as_str(), section)
        };
        let ghost pre = picked@;
        if keep {
            picked.push(i);
        }
        proof {
            let t = sv.take(i as int);
            assert(sv.take(i + 1) =~= t.push(sv[i as int]));
            assert(sv[i as int] == s@);
            if auto {
                t.lemma_filter_push(sv[i as int], |x: SectionView| x.executable);
            } else {
                t.lemma_filter_push(sv[i as int], |x: SectionView| spec_name_matches(x.name, section@));
            }
            if keep {
                assert(picked@.map_values(|k: usize| sv[k as int]) =~= pre.map_values(
                    |k: usize| sv[k as int],
                ).push(sv[i as int]));
            } else {
                assert(picked@ == pre);
            }
        }
        i = i + 1;
    }
    assert(sv.take(secs.len() as int) =~= sv);
    let single = picked.len() == 1;
    let mut out: Vec<Region<'a>> = Vec::new();
    let mut j: usize = 0;
    while j < picked.len()
        invariant
            j <= picked.len(),
            sv == sections_view(secs@),
            single == (picked.len() == 1),
            forall|k: int| 0 <= k < picked.len() ==> #[trigger] picked@[k] < secs.len(),
            picked@.map_values(|k: usize| sv[k as int]) == chosen,
            regions_view(out@) == spec_section_regions(chosen, blob@, explicit_base).take(j as int),
        decreases picked.len() - j,
    {
        let s = &secs[picked[j]];
        assert(chosen[j as int] == s@);
        let start = if single {
            match explicit_base {
                Some(b) => b,
                None => s.vaddr,
            }
        } else {
            s.vaddr
        };
        let ghost pre = out@;
        out.push((start, s.bytes(blob)));
        j = j + 1;
        assert(regions_view(out@) =~= regions_view(pre).push(region_view(out@[j - 1])));
        assert(regions_view(out@) =~= spec_section_regions(chosen, blob@, explicit_base).take(
            j as int,
        ));
    }
    assert(spec_section_regions(chosen, blob@, explicit_base).take(j as int) =~= spec_section_regions(
        chosen,
        blob@,
        explicit_base,
    ));
    out
}

/// `x` inserted into `s` before the first region that starts after it.
pub open spec fn insert_by_start(s: Seq<(u64, Seq<u8>)>, x: (u64, Seq<u8>)) -> Seq<(u64, Seq<u8>)>
    decreases s.len(),
{
    if s.len() == 0 {
        seq![x]
    } else if x.0 < s[0].0 {
        seq![x] + s
    } else {
        seq![s[0]] + insert_by_start(s.drop_first(), x)
    }
}

/// `s` sorted by start address, stably (insertion sort).
pub open spec fn sort_by_start(s: Seq<(u64, Seq<u8>)>) -> Seq<(u64, Seq<u8>)>
    decreases s.len(),
{
    if s.len() == 0 {
        s
    } else {
        insert_by_start(sort_by_start(s.drop_last()), s.last())
    }
}

/// Whether the regions of `s` start in non-decreasing address order.
pub open spec fn starts_sorted(s: Seq<(u64, Seq<u8>)>) -> bool {
    forall|i: int, j: int| 0 <= i <= j < s.len() ==> s[i].0 <= s[j].0
}

proof fn lemma_insert_at(s: Seq<(u64, Seq<u8>)>, x: (u64, Seq<u8>), p: int)
    requires
        0 <= p <= s.len(),
        forall|k: int| 0 <= k < p ==> !(x.0 < #[trigger] s[k].0),
        p == s.len() || x.0 < s[p].0,
    ensures
        insert_by_start(s, x) == s.insert(p, x),
    decreases s.len(),
{
    if s.len() == 0 {
        assert(s.insert(p, x) =~= seq![x]);
    } else if p == 0 {
        assert(s.insert(p, x) =~= seq![x] + s);
    } else {
        let t = s.drop_first();
        assert forall|k: int| 0 <= k < p - 1 implies !(x.0 < #[trigger] t[k].0) by {
            assert(t[k] == s[k + 1]);
        }
        if p < s.len() {
            assert(t[p - 1] == s[p]);
        }
        lemma_insert_at(t, x, p - 1);
        assert(seq![s[0]] + t.insert(p - 1, x) =~= s.insert(p, x));
    }
}

/// Insertion keeps a sorted sequence sorted.
proof fn lemma_insert_sorted(s: Seq<(u64, Seq<u8>)>, x: (u64, Seq<u8>))
    requires
        starts_sorted(s),
    ensures
        starts_sorted(insert_by_start(s, x)),
        insert_by_start(s, x).len() == s.len() + 1,
        forall|k: int| 0 <= k < insert_by_start(s, x).len() ==> (#[trigger] insert_by_start(s, x)[k] == x
            || s.contains(insert_by_start(s, x)[k])),
    decreases s.len(),
{
    if s.len() > 0 && !(x.0 < s[0].0) {
        let t = s.drop_first();
        assert(starts_sorted(t)) by {
            assert forall|i: int, j: int| 0 <= i <= j < t.len() implies t[i].0 <= t[j].0 by {
                assert(t[i] == s[i + 1] && t[j] == s[j + 1]);
            }
        }
        lemma_insert_sorted(t, x);
        let r = insert_by_start(t, x);
        assert forall|k: int| 0 <= k < r.len() implies s[0].0 <= #[trigger] r[k].0 by {
            if r[k] != x {
                let m = choose|m: int| 0 <= m < t.len() && t[m] == r[k];
                assert(t[m] == s[m + 1]);
            }
        }
        assert forall|k: int| 0 <= k < insert_by_start(s, x).len() implies (#[trigger] insert_by_start(
            s,
            x,
        )[k] == x || s.contains(insert_by_start(s, x)[k])) by {
            if k == 0 {
                assert(insert_by_start(s, x)[0] == s[0]);
            } else {
                assert(insert_by_start(s, x)[k] == r[k - 1]);
                if r[k - 1] != x {
                    let m = choose|m: int| 0 <= m < t.len() && t[m] == r[k - 1];
                    assert(s[m + 1] == t[m]);
                }
            }
        }
        assert forall|i: int, j: int| 0 <= i <= j < insert_by_start(s, x).len() implies insert_by_start(
            s,
            x,
        )[i].0 <= insert_by_start(s, x)[j].0 by {
            if i > 0 {
                assert(insert_by_start(s, x)[i] == r[i - 1]);
                assert(insert_by_start(s, x)[j] == r[j - 1]);
            } else if j > 0 {
                assert(insert_by_start(s, x)[j] == r[j - 1]);
            }
        }
    } else if s.len() > 0 {
        assert forall|k: int| 0 <= k < insert_by_start(s, x).len() implies (#[trigger] insert_by_start(
            s,
            x,
        )[k] == x || s.contains(insert_by_start(s, x)[k])) by {
            if k > 0 {
                assert(insert_by_start(s, x)[k] == s[k - 1]);
            }
        }
    }
}

/// Sorting by start address yields regions in address order.
pub proof fn lemma_sort_by_start_sorted(s: Seq<(u64, Seq<u8>)>)
    ensures
        starts_sorted(sort_by_start(s)),
        sort_by_start(s).len() == s.len(),
    decreases s.len(),
{
    if s.len() > 0 {
        lemma_sort_by_start_sorted(s.drop_last());
        lemma_insert_sorted(sort_by_start(s.drop_last()), s.last());
    }
}

proof fn lemma_insert_members(s: Seq<(u64, Seq<u8>)>, x: (u64, Seq<u8>))
    ensures
        forall|k: int| 0 <= k < insert_by_start(s, x).len() ==> (#[trigger] insert_by_start(s, x)[k] == x
            || s.contains(insert_by_start(s, x)[k])),
    decreases s.len(),
{
    if s.len() > 0 {
        let t = s.drop_first();
        lemma_insert_members(t, x);
        assert forall|k: int| 0 <= k < insert_by_start(s, x).len() implies (#[trigger] insert_by_start(
            s,
            x,
        )[k] == x || s.contains(insert_by_start(s, x)[k])) by {
            if x.0 < s[0].0 {
                if k > 0 {
                    assert(insert_by_start(s, x)[k] == s[k - 1]);
                }
            } else if k == 0 {
                assert(insert_by_start(s, x)[0] == s[0]);
            } else {
                let r = insert_by_start(t, x);
                assert(insert_by_start(s, x)[k] == r[k - 1]);
                if r[k - 1] != x {
                    let m = choose|m: int| 0 <= m < t.len() && t[m] == r[k - 1];
                    assert(s[m + 1] == t[m]);
                }
            }
        }
    }
}

/// Every region of the sorted sequence is a region of the original one.
pub proof fn lemma_sort_by_start_members(s: Seq<(u64, Seq<u8>)>)
    ensures
        forall|k: int| 0 <= k < sort_by_start(s).len() ==> s.contains(#[trigger] sort_by_start(s)[k]),
    decreases s.len(),
{
    if s.len() > 0 {
        let t = s.drop_last();
        lemma_sort_by_start_members(t);
        lemma_insert_members(sort_by_start(t), s.last());
        assert forall|k: int| 0 <= k < sort_by_start(s).len() implies s.contains(
            #[trigger] sort_by_start(s)[k],
        ) by {
            let y = sort_by_start(s)[k];
            if y == s.last() {
                assert(s[s.len() - 1] == y);
            } else {
                let m = choose|m: int| 0 <= m < sort_by_start(t).len() && sort_by_start(t)[m] == y;
                let q = choose|q: int| 0 <= q < t.len() && t[q] == sort_by_start(t)[m];
                assert(s[q] == t[q]);
            }
        }
    }
}

fn sort_regions<'a>(v: Vec<Region<'a>>) -> (r: Vec<Region<'a>>)
    ensures
        regions_view(r@) == sort_by_start(regions_view(v@)),
{
    let ghost vv = regions_view(v@);
    let mut out: Vec<Region<'a>> = Vec::new();
    let mut i: usize = 0;
    assert(vv.take(0) =~= Seq::<(u64, Seq<u8>)>::empty());
    while i < v.len()
        invariant
            i <= v.len(),
            vv == regions_view(v@),
            regions_view(out@) == sort_by_start(vv.take(i as int)),
        decreases v.len() - i,
    {
        let x = v[i];
        let mut p: usize = 0;
        while p < out.len() && !(x.0 < out[p].0)
            invariant
                p <= out.len(),
                forall|k: int| 0 <= k < p ==> !(x.0 < #[trigger] out@[k].0),
            decreases out.len() - p,
        {
            p = p + 1;
        }
        let ghost ov = regions_view(out@);
        proof {
            assert forall|k: int| 0 <= k < p implies !(x.0 < #[trigger] ov[k].0) by {
                assert(ov[k].0 == out@[k].0);
            }
            if p < out.len() {
                assert(ov[p as int].0 == out@[p as int].0);
            }
            lemma_insert_at(ov, region_view(x), p as int);
        }
        let ghost pre = out@;
        out.insert(p, x);
        proof {
            assert(regions_view(out@) =~= ov.insert(p as int, region_view(x)));
            let t1 = vv.take(i + 1);
            assert(t1.drop_last() =~= vv.take(i as int));
            assert(t1.last() == region_view(x));
        }
        i = i + 1;
    }
    assert(vv.take(v.len() as int) =~= vv);
    out
}

/// Chooses the regions to sweep (see [`spec_regions`]).
pub fn select_regions<'a>(
    blob: &'a [u8],
    secs: &[Section],
    section: &str,
    explicit_base: Option<u64>,
) -> (r: Vec<Region<'a>>)
    ensures
        regions_view(r@) == spec_regions(blob@, sections_view(secs@), section@, explicit_base),
{
    let n = if blob.len() <= MAX_SECTION_BYTES {
        blob.len()
    } else {
        MAX_SECTION_BYTES
    };
    let whole = &blob[0..n];
    assert(whole@ =~= take_at_most(blob@, MAX_SECTION_BYTES as int));
    let start = match explicit_base {
        Some(b) => b,
        None => 0,
    };
    let sec = chars_of(section);
    if chars_eq_str(&sec, "all") || secs.len() == 0 {
        let mut v: Vec<Region<'a>> = Vec::new();
        v.push((start, whole));
        assert(regions_view(v@) =~= seq![(start, whole@)]);
        return v;
    }
    let auto = chars_eq_str(&sec, "auto");
    sort_regions(chosen_regions(blob, secs, auto, section, explicit_base))
}

/// The arch selection `disassemble` uses: the explicit `arch`/`mode` when an
/// arch is given, else what the container header resolves.
pub open spec fn spec_selection(
    blob: Seq<u8>,
    arch: Option<Seq<char>>,
    mode: Option<Seq<char>>,
) -> Option<ArchSelView> {
    match arch {
        Some(a) => spec_resolve_explicit(a, mode),
        None => spec_arch_sel(spec_probe(container_header(blob))),
    }
}

/// The view of an optional string slice.
pub open spec fn opt_str_view(o: Option<&str>) -> Option<Seq<char>> {
    match o {
        Some(s) => Some(s@),
        None => None,
    }
}

/// The rows of sweeping each region in order, starting with `out_len` rows
/// used: each region is swept at its start address until `MAX_INSNS` rows
/// are used in all.
pub open spec fn sweep_all(config: EngineConfig, regions: Seq<(u64, Seq<u8>)>, out_len: int) -> Seq<
    InsnView,
>
    decreases regions.len(),
{
    if regions.len() == 0 || out_len >= MAX_INSNS {
        Seq::empty()
    } else {
        let rows = sweep_rows(config, regions[0].1, regions[0].0, 0, out_len, MAX_INSNS as int);
        rows + sweep_all(config, regions.drop_first(), out_len + rows.len())
    }
}

/// The number of bytes in `regions`, all together.
pub open spec fn total_bytes(regions: Seq<(u64, Seq<u8>)>) -> int
    decreases regions.len(),
{
    if regions.len() == 0 {
        0
    } else {
        total_bytes(regions.drop_last()) + regions.last().1.len()
    }
}

/// Whether `rows` cover `regions` in order: a first run of rows covers the
/// first region at its start address (see [`rows_cover`]), and the rows after
/// it cover the other regions the same way.
pub open spec fn regions_cover(rows: Seq<InsnView>, regions: Seq<(u64, Seq<u8>)>) -> bool
    decreases regions.len(),
{
    if regions.len() == 0 {
        rows.len() == 0
    } else {
        exists|k: int|
            0 <= k <= rows.len() && #[trigger] rows_cover(rows.take(k), regions[0].1, regions[0].0)
                && regions_cover(rows.skip(k), regions.drop_first())
    }
}

/// Whether regions lie in the address space in order: none runs past the top
/// of the space, and each ends at or before the start of every later one.
pub open spec fn regions_laid_out(regions: Seq<(u64, Seq<u8>)>) -> bool {
    &&& forall|k: int| 0 <= k < regions.len() ==> (#[trigger] regions[k]).0 + regions[k].1.len() <= u64::MAX + 1
    &&& forall|k: int, l: int|
        0 <= k < l < regions.len() ==> (#[trigger] regions[k]).0 + regions[k].1.len() <= (#[trigger] regions[l]).0
}

proof fn lemma_laid_out_tail(regions: Seq<(u64, Seq<u8>)>)
    requires
        regions.len() > 0,
        regions_laid_out(regions),
    ensures
        regions_laid_out(regions.drop_first()),
        regions[0].0 + regions[0].1.len() <= u64::MAX + 1,
        regions.len() > 1 ==> regions[0].0 + regions[0].1.len() <= regions.drop_first()[0].0,
{
    let tail = regions.drop_first();
    assert forall|a: int| 0 <= a < tail.len() implies (#[trigger] tail[a]).0 + tail[a].1.len() <= u64::MAX + 1 by {
        assert(tail[a] == regions[a + 1]);
    }
    assert forall|a: int, b: int| 0 <= a < b < tail.len() implies (#[trigger] tail[a]).0 + tail[a].1.len()
        <= (#[trigger] tail[b]).0 by {
        assert(tail[a] == regions[a + 1]);
        assert(tail[b] == regions[b + 1]);
    }
    assert(regions[0] == regions[0]);
    if regions.len() > 1 {
        assert(tail[0] == regions[1]);
    }
}

proof fn lemma_rows_ok_split(rows: Seq<InsnView>, k: int)
    requires
        0 <= k <= rows.len(),
        rows_ok(rows),
    ensures
        rows_ok(rows.take(k)),
        rows_ok(rows.skip(k)),
{
    assert forall|i: int| 0 <= i < rows.take(k).len() implies crate::engine::row_ok(#[trigger] rows.take(k)[i]) by {
        assert(rows.take(k)[i] == rows[i]);
    }
    assert forall|i: int| 0 <= i < rows.skip(k).len() implies crate::engine::row_ok(#[trigger] rows.skip(k)[i]) by {
        assert(rows.skip(k)[i] == rows[k + i]);
    }
}

#[verifier::rlimit(100)]
proof fn lemma_regions_cover_in_order(rows: Seq<InsnView>, regions: Seq<(u64, Seq<u8>)>)
    requires
        regions_cover(rows, regions),
        regions_laid_out(regions),
        rows_ok(rows),
    ensures
        forall|i: int, j: int| 0 <= i < j < rows.len() ==> rows[i].address < rows[j].address,
        regions.len() > 0 ==> forall|i: int| 0 <= i < rows.len() ==> regions[0].0 <= #[trigger] rows[i].address,
    decreases regions.len(),
{
    if regions.len() > 0 {
        let k = choose|k: int|
            0 <= k <= rows.len() && #[trigger] rows_cover(rows.take(k), regions[0].1, regions[0].0)
                && regions_cover(rows.skip(k), regions.drop_first());
        let first = rows.take(k);
        let rest = rows.skip(k);
        let tail = regions.drop_first();
        let start = regions[0].0;
        let end = regions[0].0 + regions[0].1.len();
        lemma_rows_ok_split(rows, k);
        lemma_laid_out_tail(regions);
        crate::engine::lemma_covered_rows_in_order(first, regions[0].1, regions[0].0);
        lemma_regions_cover_in_order(rest, tail);
        assert(rest.len() > 0 ==> tail.len() > 0);
        assert(forall|j: int| 0 <= j < rest.len() ==> end <= #[trigger] rest[j].address);
        assert(forall|i: int| 0 <= i < first.len() ==> start <= #[trigger] first[i].address && first[i].address < end);
        assert forall|i: int, j: int| 0 <= i < j < rows.len() implies rows[i].address < rows[j].address by {
            if j < k {
                assert(rows[i] == first[i] && rows[j] == first[j]);
            } else if i >= k {
                assert(rows[i] == rest[i - k] && rows[j] == rest[j - k]);
            } else {
                assert(rows[i] == first[i] && rows[j] == rest[j - k]);
            }
        }
        assert forall|i: int| 0 <= i < rows.len() implies start <= #[trigger] rows[i].address by {
            if i < k {
                assert(rows[i] == first[i]);
            } else {
                assert(rows[i] == rest[i - k]);
            }
        }
    }
}

proof fn lemma_regions_cover_push(
    a: Seq<InsnView>,
    regions: Seq<(u64, Seq<u8>)>,
    b: Seq<InsnView>,
    reg: (u64, Seq<u8>),
)
    requires
        regions_cover(a, regions),
        rows_cover(b, reg.1, reg.0),
    ensures
        regions_cover(a + b, regions.push(reg)),
    decreases regions.len(),
{
    let all = regions.push(reg);
    if regions.len() == 0 {
        assert((a + b).take(b.len() as int) =~= b);
        assert((a + b).skip(b.len() as int) =~= Seq::<InsnView>::empty());
        assert(all.drop_first() =~= Seq::<(u64, Seq<u8>)>::empty());
        assert(all[0] == reg);
        assert(rows_cover((a + b).take(b.len() as int), all[0].1, all[0].0));
        assert(regions_cover((a + b).skip(b.len() as int), all.drop_first()));
        assert(all.len() > 0);
    } else {
        let k = choose|k: int|
            0 <= k <= a.len() && #[trigger] rows_cover(a.take(k), regions[0].1, regions[0].0)
                && regions_cover(a.skip(k), regions.drop_first());
        lemma_regions_cover_push(a.skip(k), regions.drop_first(), b, reg);
        assert((a + b).take(k) =~= a.take(k));
        assert((a + b).skip(k) =~= a.skip(k) + b);
        assert(all.drop_first() =~= regions.drop_first().push(reg));
        assert(all[0] == regions[0]);
        assert(rows_cover((a + b).take(k), all[0].1, all[0].0));
        assert(regions_cover((a + b).skip(k), all.drop_first()));
        assert(0 <= k <= (a + b).len());
    }
}

proof fn lemma_total_bytes_take(regions: Seq<(u64, Seq<u8>)>, i: int)
    requires
        0 <= i < regions.len(),
    ensures
        total_bytes(regions.take(i + 1)) == total_bytes(regions.take(i)) + regions[i].1.len(),
        total_bytes(regions.take(i + 1)) <= total_bytes(regions),
        total_bytes(regions.take(i)) >= 0,
    decreases regions.len() - i,
{
    assert(regions.take(i + 1).drop_last() =~= regions.take(i));
    lemma_total_bytes_nonneg(regions.take(i));
    if i + 1 < regions.len() {
        lemma_total_bytes_take(regions, i + 1);
    } else {
        assert(regions.take(i + 1) =~= regions);
    }
}

proof fn lemma_total_bytes_nonneg(regions: Seq<(u64, Seq<u8>)>)
    ensures
        total_bytes(regions) >= 0,
    decreases regions.len(),
{
    if regions.len() > 0 {
        lemma_total_bytes_nonneg(regions.drop_last());
    }
}

/// Sweeps each region in order into rows with one Capstone handle, stopping
/// at `MAX_INSNS` rows in all.
pub fn sweep_regions(e: &Engine, regions: &[Region]) -> (r: Vec<Insn>)
    ensures
        insns_view(r@) == sweep_all(e@, regions_view(regions@), 0),
        r.len() <= MAX_INSNS,
        rows_ok(insns_view(r@)),
        regions.len() > 0 && regions@[0].1@.len() > 0 ==> r.len() >= 1,
        total_bytes(regions_view(regions@)) < MAX_INSNS ==> regions_cover(
            insns_view(r@),
            regions_view(regions@),
        ),
{
    let ghost rv = regions_view(regions@);
    let ghost whole = sweep_all(e@, rv, 0);
    let mut out: Vec<Insn> = Vec::new();
    let mut i: usize = 0;
    assert(rv.skip(0) =~= rv);
    assert(insns_view(out@) + whole =~= whole);
    while i < regions.len() && out.len() < MAX_INSNS
        invariant
            i <= regions.len(),
            rv == regions_view(regions@),
            whole == sweep_all(e@, rv, 0),
            insns_view(out@) + sweep_all(e@, rv.skip(i as int), out.len() as int) == whole,
            out.len() <= MAX_INSNS,
            rows_ok(insns_view(out@)),
            i > 0 && regions@[0].1@.len() > 0 ==> out.len() >= 1,
            i == 0 ==> out.len() == 0,
            total_bytes(rv) < MAX_INSNS ==> {
                &&& out.len() <= total_bytes(rv.take(i as int))
                &&& regions_cover(insns_view(out@), rv.take(i as int))
            },
        decreases regions.len() - i,
    {
        let (start, code) = regions[i];
        assert(code@ == regions@[i as int].1@);
        let ghost pre = insns_view(out@);
        let ghost pre_len = out.len() as int;
        proof {
            if total_bytes(rv) < MAX_INSNS {
                lemma_total_bytes_take(rv, i as int);
                assert(rv[i as int] == (start, code@));
            }
        }
        sweep_into(e, code, start, &mut out, MAX_INSNS);
        proof {
            let now = insns_view(out@);
            if total_bytes(rv) < MAX_INSNS {
                assert(now.skip(pre_len) =~= now.subrange(pre_len, now.len() as int));
                assert(now =~= pre + now.skip(pre_len));
                assert(rv.take(i + 1) =~= rv.take(i as int).push((start, code@)));
                lemma_regions_cover_push(pre, rv.take(i as int), now.skip(pre_len), (start, code@));
            }
            let tail = rv.skip(i as int);
            assert(tail[0] == (start, code@));
            assert(tail.drop_first() =~= rv.skip(i + 1));
            let rows = sweep_rows(e@, code@, start, 0, pre_len, MAX_INSNS as int);
            assert(sweep_all(e@, tail, pre_len) == rows + sweep_all(e@, rv.skip(i + 1), pre_len + rows.len()));
            assert(now == pre + rows);
            assert(now + sweep_all(e@, rv.skip(i + 1), now.len() as int) =~= pre + (rows + sweep_all(
                e@,
                rv.skip(i + 1),
                pre_len + rows.len(),
            )));
            assert forall|k: int| 0 <= k < now.len() implies crate::engine::row_ok(#[trigger] now[k]) by {
                if k < pre.len() {
                    assert(now.take(pre.len() as int)[k] == pre[k]);
                } else {
                    assert(now.skip(pre.len() as int)[k - pre.len()] == now[k]);
                }
            }
        }
        i = i + 1;
    }
    assert(sweep_all(e@, rv.skip(i as int), out.len() as int) =~= Seq::<InsnView>::empty());
    assert(insns_view(out@) + Seq::<InsnView>::empty() =~= insns_view(out@));
    proof {
        if total_bytes(rv) < MAX_INSNS {
            lemma_total_bytes_nonneg(rv);
            if i < regions.len() {
                lemma_total_bytes_take(rv, i as int);
            }
            assert(rv.take(regions.len() as int) =~= rv);
        }
    }
    out
}

/// What [`disassemble`] returns: the single `(error)` row when no arch can
/// be resolved; otherwise the sweep of the selected regions (see [`spec_regions`]) under the resolved configuration.
pub open spec fn spec_disassemble(
    blob: Seq<u8>,
    arch: Option<Seq<char>>,
    mode: Option<Seq<char>>,
    base: Option<u64>,
    section: Seq<char>,
) -> Seq<InsnView> {
    match spec_selection(blob, arch, mode) {
        None => seq![error_row()],
        Some(sel) => sweep_all(
            spec_engine_config(sel),
            spec_regions(blob, spec_sections(blob), section, base),
            0,
        ),
    }
}

/// Disassembles `blob` into instruction rows.
///
/// * `arch` / `mode`: explicit Capstone selection (required for a raw blob),
///   else read from the container header.
/// * `base`: address of the first byte (default: the section's address, or
///   0 for a raw blob or `all`).
/// * `section`: `auto` (every executable section), `all` (the whole blob)
///   or a section name.
///
/// Without a resolvable arch the result is the single `(error)` row.
/// Otherwise it is the sweep [`spec_disassemble`] describes: at most
/// `MAX_INSNS` well-formed rows. While the regions hold fewer bytes than
/// `MAX_INSNS`, the rows cover them: each region's bytes are decoded once,
/// in order, each row at its region's start plus the bytes before it.
pub fn disassemble(
    blob: &[u8],
    arch: Option<&str>,
    mode: Option<&str>,
    base: Option<u64>,
    section: &str,
) -> (r: Vec<Insn>)
    ensures
        insns_view(r@) == spec_disassemble(blob@, opt_str_view(arch), opt_str_view(mode), base, section@),
        spec_selection(blob@, opt_str_view(arch), opt_str_view(mode)) is None ==> insns_view(r@)
            == seq![error_row()],
        spec_selection(blob@, opt_str_view(arch), opt_str_view(mode)) is Some ==> rows_ok(
            insns_view(r@),
        ),
        r.len() <= MAX_INSNS,
        spec_selection(blob@, opt_str_view(arch), opt_str_view(mode)) is Some && total_bytes(
            spec_regions(blob@, spec_sections(blob@), section@, base),
        ) < MAX_INSNS ==> regions_cover(
            insns_view(r@),
            spec_regions(blob@, spec_sections(blob@), section@, base),
        ),
        spec_selection(blob@, opt_str_view(arch), opt_str_view(mode)) is Some && section@ == "all"@
            && blob@.len() < MAX_INSNS ==> rows_cover(insns_view(r@), blob@, base_or_zero(base))
            && rows_chained(insns_view(r@)),
        spec_selection(blob@, opt_str_view(arch), opt_str_view(mode)) is Some ==> forall|i: int|
            0 <= i < r.len() ==> #[trigger] insns_view(r@)[i] != error_row(),
        spec_selection(blob@, opt_str_view(arch), opt_str_view(mode)) is Some && total_bytes(
            spec_regions(blob@, spec_sections(blob@), section@, base),
        ) < MAX_INSNS && regions_laid_out(spec_regions(blob@, spec_sections(blob@), section@, base))
            ==> forall|i: int, j: int|
            0 <= i < j < r.len() ==> insns_view(r@)[i].address < insns_view(r@)[j].address,
{
    let sel: ArchSel = match arch {
        Some(a) => match resolve_explicit(a, mode) {
            Some(s) => s,
            None => return error_rows(),
        },
        None => match probe(blob).arch_sel() {
            Some(s) => s,
            None => return error_rows(),
        },
    };
    let secs = sections(blob);
    let regions = select_regions(blob, &secs, section, base);
    match build(&sel) {
        Some(e) => {
            proof {
                if section@ == "all"@ && blob@.len() < MAX_INSNS {
                    lemma_whole_blob_cover(Seq::empty(), blob@, base);
                    assert(regions_view(regions@) == seq![(base_or_zero(base), blob@)]);
                }
            }
            let r = sweep_regions(&e, &regions);
            proof {
                if section@ == "all"@ && blob@.len() < MAX_INSNS {
                    lemma_whole_blob_cover(insns_view(r@), blob@, base);
                    law_covering_rows_are_chained(insns_view(r@), blob@, base_or_zero(base));
                }
                let rv = regions_view(regions@);
                if total_bytes(rv) < MAX_INSNS && regions_laid_out(rv) {
                    lemma_regions_cover_in_order(insns_view(r@), rv);
                }
                assert forall|i: int| 0 <= i < r.len() implies #[trigger] insns_view(r@)[i] != error_row() by {
                    assert(crate::engine::row_ok(insns_view(r@)[i]));
                }
            }
            r
        },
        None => error_rows(),
    }
}

proof fn lemma_insert_keeps(s: Seq<(u64, Seq<u8>)>, x: (u64, Seq<u8>))
    ensures
        insert_by_start(s, x).contains(x),
        forall|y: (u64, Seq<u8>)| s.contains(y) ==> #[trigger] insert_by_start(s, x).contains(y),
    decreases s.len(),
{
    let r = insert_by_start(s, x);
    if s.len() == 0 {
        assert(r[0] == x);
    } else if x.0 < s[0].0 {
        assert(r[0] == x);
        assert forall|y: (u64, Seq<u8>)| s.contains(y) implies #[trigger] r.contains(y) by {
            let m = choose|m: int| 0 <= m < s.len() && s[m] == y;
            assert(r[m + 1] == y);
        }
    } else {
        let t = s.drop_first();
        lemma_insert_keeps(t, x);
        lemma_insert_keeps_step(s, x);
    }
}

#[verifier::rlimit(30)]
proof fn lemma_insert_keeps_step(s: Seq<(u64, Seq<u8>)>, x: (u64, Seq<u8>))
    requires
        s.len() > 0,
        !(x.0 < s[0].0),
        insert_by_start(s.drop_first(), x).contains(x),
        forall|y: (u64, Seq<u8>)| s.drop_first().contains(y) ==> #[trigger] insert_by_start(s.drop_first(), x).contains(y),
    ensures
        insert_by_start(s, x).contains(x),
        forall|y: (u64, Seq<u8>)| s.contains(y) ==> #[trigger] insert_by_start(s, x).contains(y),
{
    let t = s.drop_first();
    let q = insert_by_start(t, x);
    let r = insert_by_start(s, x);
    assert(r == seq![s[0]] + q);
    let m0 = choose|m: int| 0 <= m < q.len() && q[m] == x;
    assert(r[m0 + 1] == q[m0]);
    assert forall|y: (u64, Seq<u8>)| s.contains(y) implies #[trigger] r.contains(y) by {
        let m = choose|m: int| 0 <= m < s.len() && s[m] == y;
        if m == 0 {
            assert(r[0] == y);
        } else {
            assert(t[m - 1] == y);
            assert(t.contains(y));
            assert(q.contains(y));
            let n = choose|n: int| 0 <= n < q.len() && q[n] == y;
            assert(r[n + 1] == q[n]);
        }
    }
}

proof fn lemma_sort_keeps(s: Seq<(u64, Seq<u8>)>)
    ensures
        forall|y: (u64, Seq<u8>)| s.contains(y) ==> #[trigger] sort_by_start(s).contains(y),
    decreases s.len(),
{
    if s.len() > 0 {
        let t = s.drop_last();
        lemma_sort_keeps(t);
        lemma_insert_keeps(sort_by_start(t), s.last());
        assert forall|y: (u64, Seq<u8>)| s.contains(y) implies #[trigger] sort_by_start(s).contains(y) by {
            let m = choose|m: int| 0 <= m < s.len() && s[m] == y;
            if m < s.len() - 1 {
                assert(t[m] == y);
                assert(t.contains(y));
            }
        }
    }
}

/// The position just after the last comma of `s` (0 when it has none).
proof fn last_comma_split(s: Seq<char>) -> (i: int)
    ensures
        0 <= i <= s.len(),
        i == 0 || s[i - 1] == ',',
        forall|k: int| i <= k < s.len() ==> s[k] != ',',
    decreases s.len(),
{
    if s.len() == 0 {
        0
    } else if s.last() == ',' {
        s.len() as int
    } else {
        let i = last_comma_split(s.drop_last());
        assert forall|k: int| i <= k < s.len() implies s[k] != ',' by {
            if k < s.len() - 1 {
                assert(s.drop_last()[k] == s[k]);
            }
        }
        if i > 0 {
            assert(s.drop_last()[i - 1] == s[i - 1]);
        }
        i
    }
}

/// Whether a section named `full` is the one `requested` names: `requested`
/// is the whole name, or the part of it after its last comma.
pub open spec fn section_named(full: Seq<char>, requested: Seq<char>) -> bool {
    full == requested || exists|i: int|
        0 <= i <= full.len() && (i == 0 || full[i - 1] == ',') && (forall|k: int|
            i <= k < full.len() ==> full[k] != ',') && #[trigger] full.subrange(i, full.len() as int) == requested
}

proof fn lemma_section_named(full: Seq<char>, requested: Seq<char>)
    ensures
        spec_name_matches(full, requested) == section_named(full, requested),
{
    let i = last_comma_split(full);
    lemma_last_component(full, i);
    if section_named(full, requested) && full != requested {
        let j = choose|j: int|
            0 <= j <= full.len() && (j == 0 || full[j - 1] == ',') && (forall|k: int|
                j <= k < full.len() ==> full[k] != ',') && #[trigger] full.subrange(j, full.len() as int)
                == requested;
        lemma_last_component(full, j);
    }
}

/// Whether a section is one a sweep of `section` chooses: an executable one
/// for `auto`, else one `section` names.
pub open spec fn chosen_for(s: SectionView, section: Seq<char>) -> bool {
    if section == "auto"@ {
        s.executable
    } else {
        section_named(s.name, section)
    }
}

/// Whether `x` is the region of some section of `secs` chosen for `section`.
pub open spec fn region_from_chosen(
    x: (u64, Seq<u8>),
    secs: Seq<SectionView>,
    section: Seq<char>,
    single: bool,
    base: Option<u64>,
    blob: Seq<u8>,
) -> bool {
    exists|j: int| 0 <= j < secs.len() && #[trigger] chosen_for(secs[j], section) && x == region_of(secs[j], single, base, blob)
}

/// [`chosen_for`] as a predicate.
pub open spec fn chooser(section: Seq<char>) -> spec_fn(SectionView) -> bool {
    |s: SectionView| chosen_for(s, section)
}

/// The region a chosen section is swept as: its file bytes at its address,
/// or at the explicit base when it is the only section chosen.
pub open spec fn region_of(s: SectionView, single: bool, base: Option<u64>, blob: Seq<u8>) -> (u64, Seq<u8>) {
    (
        match base {
            Some(b) => if single {
                b
            } else {
                s.vaddr
            },
            None => s.vaddr,
        },
        range_bytes(s.data_range, blob),
    )
}

/// What a sweep covers: for `all`, or a blob without sections, the whole
/// blob (its first `MAX_SECTION_BYTES` bytes) at the explicit base or 0;
/// otherwise exactly the regions of the chosen sections (executable ones
/// for `auto`, the ones `section` names otherwise), each once, each at its
/// own address unless it is the only one chosen and a base is given.
pub proof fn law_region_choice(blob: Seq<u8>, secs: Seq<SectionView>, section: Seq<char>, base: Option<u64>)
    ensures
        ({
            let r = spec_regions(blob, secs, section, base);
            let whole = if blob.len() <= 67_108_864 { blob } else { blob.take(67_108_864) };
            let single = secs.filter(chooser(section)).len() == 1;
            &&& section == "all"@ || secs.len() == 0 ==> r == seq![(base_or_zero(base), whole)]
            &&& section != "all"@ && secs.len() > 0 ==> {
                &&& r.len() == secs.filter(chooser(section)).len()
                &&& forall|k: int|
                    0 <= k < r.len() ==> region_from_chosen(#[trigger] r[k], secs, section, single, base, blob)
                &&& forall|j: int|
                    0 <= j < secs.len() && chosen_for(#[trigger] secs[j], section) ==> r.contains(
                        region_of(secs[j], single, base, blob),
                    )
            }
        }),
{
    broadcast use vstd::seq_lib::group_filter_ensures;
    if section != "all"@ && secs.len() > 0 {
        let pred = chooser(section);
        let chosen = if section == "auto"@ {
            exec_sections(secs)
        } else {
            named_sections(secs, section)
        };
        if section == "auto"@ {
            assert((|s: SectionView| s.executable) =~= pred);
        } else {
            let np = |s: SectionView| spec_name_matches(s.name, section);
            assert forall|s: SectionView| #[trigger] np(s) == pred(s) by {
                lemma_section_named(s.name, section);
            }
            assert(np =~= pred);
        }
        assert(chosen == secs.filter(pred));
        let single = secs.filter(chooser(section)).len() == 1;
        assert(single == (chosen.len() == 1));
        let regs = spec_section_regions(chosen, blob, base);
        lemma_sort_by_start_sorted(regs);
        lemma_sort_by_start_members(regs);
        lemma_sort_keeps(regs);
        let r = spec_regions(blob, secs, section, base);
        assert(r == sort_by_start(regs));
        assert forall|k: int| 0 <= k < r.len() implies region_from_chosen(#[trigger] r[k], secs, section, single, base, blob) by {
            assert(regs.contains(r[k]));
            let i = choose|i: int| 0 <= i < regs.len() && regs[i] == r[k];
            assert(chosen.contains(chosen[i]));
            assert(pred(chosen[i]));
            secs.lemma_filter_contains_rev(pred, chosen[i]);
            let j = choose|j: int| 0 <= j < secs.len() && secs[j] == chosen[i];
            assert(regs[i] == region_of(chosen[i], single, base, blob));
            assert(r[k] == region_of(secs[j], single, base, blob));
            assert(chosen_for(secs[j], section));
        }
        assert forall|j: int| 0 <= j < secs.len() && chosen_for(#[trigger] secs[j], section) implies r.contains(
            region_of(secs[j], single, base, blob),
        ) by {
            assert(pred(secs[j]));
            assert(chosen.contains(secs[j]));
            let i = choose|i: int| 0 <= i < chosen.len() && chosen[i] == secs[j];
            assert(regs[i] == region_of(secs[j], single, base, blob));
            assert(regs.contains(regs[i]));
        }
    }
}

/// The given base, or 0 without one.
pub open spec fn base_or_zero(base: Option<u64>) -> u64 {
    match base {
        Some(b) => b,
        None => 0,
    }
}

proof fn lemma_whole_blob_cover(rows: Seq<InsnView>, blob: Seq<u8>, base: Option<u64>)
    requires
        blob.len() < MAX_INSNS,
    ensures
        take_at_most(blob, MAX_SECTION_BYTES as int) == blob,
        total_bytes(seq![(base_or_zero(base), blob)]) < MAX_INSNS,
        regions_cover(rows, seq![(base_or_zero(base), blob)]) ==> rows_cover(rows, blob, base_or_zero(base)),
{
    let regs = seq![(base_or_zero(base), blob)];
    assert(regs.drop_last() =~= Seq::<(u64, Seq<u8>)>::empty());
    assert(regs.drop_first() =~= Seq::<(u64, Seq<u8>)>::empty());
    assert(total_bytes(regs.drop_last()) == 0);
    assert(regs.last().1 == blob);
    assert(total_bytes(regs) == blob.len());
    if regions_cover(rows, regs) {
        let k = choose|k: int|
            0 <= k <= rows.len() && #[trigger] rows_cover(rows.take(k), regs[0].1, regs[0].0)
                && regions_cover(rows.skip(k), regs.drop_first());
        assert(rows.skip(k).len() == 0);
        assert(rows.take(k) =~= rows);
    }
}

fn error_rows() -> (r: Vec<Insn>)
    ensures
        insns_view(r@) == seq![error_row()],
        r.len() == 1,
{
    let mut v: Vec<Insn> = Vec::new();
    v.push(Insn::arch_required());
    assert(insns_view(v@) =~= seq![error_row()]);
    v
}

} // verus!
