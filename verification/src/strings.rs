//! `strings`-style extraction: printable ASCII runs and UTF-16LE runs of at
//! least `min_len` characters, each with its file offset and an encoding label.
//!
//! The scan covers at most `MAX_SCAN_BYTES` bytes, returns at most
//! `MAX_STRINGS` hits and truncates each value to `MAX_STRING_LEN` characters.
use vstd::prelude::*;

use crate::limits::{MAX_SCAN_BYTES, MAX_STRINGS, MAX_STRING_LEN};
use crate::text::{push_char, take_at_most, lemma_take_at_most_concat};

verus! {

/// One extracted string.
#[derive(Debug, Clone)]
pub struct StringHit {
    /// File offset of the first byte of the run.
    pub offset: u64,
    /// `ascii` or `utf16le`.
    pub encoding: String,
    /// The decoded run, truncated to `MAX_STRING_LEN` characters.
    pub value: String,
}

/// The mathematical content of a [`StringHit`].
pub struct HitSpec {
    pub offset: int,
    pub encoding: Seq<char>,
    pub value: Seq<char>,
}

impl View for StringHit {
    type V = HitSpec;

    open spec fn view(&self) -> HitSpec {
        HitSpec { offset: self.offset as int, encoding: self.encoding@, value: self.value@ }
    }
}

/// The views of a sequence of hits.
pub open spec fn hits_view(v: Seq<StringHit>) -> Seq<HitSpec> {
    v.map_values(|h: StringHit| h@)
}

/// Printable ASCII plus tab: the usual `strings` alphabet.
pub open spec fn is_printable(b: u8) -> bool {
    (0x20 <= b && b <= 0x7e) || b == 0x09
}

/// The label of an ASCII hit.
pub open spec fn ascii_label() -> Seq<char> {
    "ascii"@
}

/// The label of a UTF-16LE hit.
pub open spec fn utf16_label() -> Seq<char> {
    "utf16le"@
}

/// The end (exclusive) of the printable run of `d` that starts at `i`.
pub open spec fn ascii_run_end(d: Seq<u8>, i: int) -> int
    decreases d.len() - i,
{
    if 0 <= i < d.len() && is_printable(d[i]) {
        ascii_run_end(d, i + 1)
    } else {
        i
    }
}

/// Whether a UTF-16LE code unit `(printable, 0)` starts at `i`.
pub open spec fn is_utf16_unit(d: Seq<u8>, i: int) -> bool {
    0 <= i && i + 1 < d.len() && is_printable(d[i]) && d[i + 1] == 0
}

/// The end (exclusive) of the run of UTF-16LE units of `d` that starts at `i`.
pub open spec fn utf16_run_end(d: Seq<u8>, i: int) -> int
    decreases d.len() - i,
{
    if is_utf16_unit(d, i) {
        utf16_run_end(d, i + 2)
    } else {
        i
    }
}

/// The value of an ASCII run `d[i..e]`, truncated to `MAX_STRING_LEN` characters.
pub open spec fn ascii_value(d: Seq<u8>, i: int, e: int) -> Seq<char> {
    let n = if e - i <= MAX_STRING_LEN { e - i } else { MAX_STRING_LEN as int };
    Seq::new(n as nat, |k: int| d[i + k] as char)
}

/// The value of a UTF-16LE run of `units` units at `i`, truncated to
/// `MAX_STRING_LEN` characters: the low byte of each unit.
pub open spec fn utf16_value(d: Seq<u8>, i: int, units: int) -> Seq<char> {
    let n = if units <= MAX_STRING_LEN { units } else { MAX_STRING_LEN as int };
    Seq::new(n as nat, |k: int| d[i + 2 * k] as char)
}

/// Every maximal printable run of `d` at or after `i` (scanning left to right
/// from `i`) whose length is at least `min_len`.
pub open spec fn ascii_hits(d: Seq<u8>, min_len: int, i: int) -> Seq<HitSpec>
    decreases d.len() - i,
{
    if i < 0 || i >= d.len() {
        Seq::empty()
    } else if !is_printable(d[i]) {
        ascii_hits(d, min_len, i + 1)
    } else {
        let e = ascii_run_end(d, i);
        proof {
            lemma_ascii_run_end(d, i);
        }
        let rest = ascii_hits(d, min_len, e);
        if e - i >= min_len {
            seq![HitSpec { offset: i, encoding: ascii_label(), value: ascii_value(d, i, e) }] + rest
        } else {
            rest
        }
    }
}

/// Every run of UTF-16LE units found by a left-to-right scan of `d` from `i`
/// whose number of units is at least `min_len`.
pub open spec fn utf16_hits(d: Seq<u8>, min_len: int, i: int) -> Seq<HitSpec>
    decreases d.len() - i,
{
    if i < 0 || i + 1 >= d.len() {
        Seq::empty()
    } else if !is_utf16_unit(d, i) {
        utf16_hits(d, min_len, i + 1)
    } else {
        let e = utf16_run_end(d, i);
        proof {
            lemma_utf16_run_end(d, i);
        }
        let rest = utf16_hits(d, min_len, e);
        let units = (e - i) / 2;
        if units >= min_len {
            seq![HitSpec { offset: i, encoding: utf16_label(), value: utf16_value(d, i, units) }]
                + rest
        } else {
            rest
        }
    }
}

/// The minimum run length actually used: `min_len`, clamped to at least 1.
pub open spec fn effective_min_len(min_len: usize) -> int {
    if min_len < 1 {
        1
    } else {
        min_len as int
    }
}

/// The scanned prefix of a blob.
pub open spec fn scanned(bytes: Seq<u8>) -> Seq<u8> {
    take_at_most(bytes, MAX_SCAN_BYTES as int)
}

/// What `strings(bytes, min_len)` returns: the ASCII hits, then the UTF-16LE
/// hits, of the scanned prefix, capped at `MAX_STRINGS` rows.
pub open spec fn spec_strings(bytes: Seq<u8>, min_len: usize) -> Seq<HitSpec> {
    let d = scanned(bytes);
    let m = effective_min_len(min_len);
    take_at_most(ascii_hits(d, m, 0) + utf16_hits(d, m, 0), MAX_STRINGS as int)
}

/// A printable run that starts at `i` ends after `i`, inside `d`, and is
/// printable throughout.
pub proof fn lemma_ascii_run_end(d: Seq<u8>, i: int)
    requires
        0 <= i < d.len(),
        is_printable(d[i]),
    ensures
        i < ascii_run_end(d, i) <= d.len(),
        forall|k: int| i <= k < ascii_run_end(d, i) ==> is_printable(#[trigger] d[k]),
        ascii_run_end(d, i) < d.len() ==> !is_printable(d[ascii_run_end(d, i)]),
    decreases d.len() - i,
{
    if i + 1 < d.len() && is_printable(d[i + 1]) {
        lemma_ascii_run_end(d, i + 1);
    } else {
        assert(ascii_run_end(d, i + 1) == i + 1);
    }
}

/// A UTF-16LE run that starts at `i` ends at an even distance after `i`,
/// inside `d`, and consists of units throughout.
pub proof fn lemma_utf16_run_end(d: Seq<u8>, i: int)
    requires
        is_utf16_unit(d, i),
    ensures
        i + 2 <= utf16_run_end(d, i) <= d.len(),
        (utf16_run_end(d, i) - i) % 2 == 0,
        forall|k: int|
            0 <= k < (utf16_run_end(d, i) - i) / 2 ==> #[trigger] is_utf16_unit(d, i + 2 * k),
    decreases d.len() - i,
{
    if !is_utf16_unit(d, i + 2) {
        assert(utf16_run_end(d, i + 2) == i + 2);
        assert forall|k: int| 0 <= k < (utf16_run_end(d, i) - i) / 2 implies #[trigger] is_utf16_unit(
            d,
            i + 2 * k,
        ) by {
            assert(k == 0);
        }
    } else {
        lemma_utf16_run_end(d, i + 2);
        assert forall|k: int| 0 <= k < (utf16_run_end(d, i) - i) / 2 implies #[trigger] is_utf16_unit(
            d,
            i + 2 * k,
        ) by {
            if k > 0 {
                assert(is_utf16_unit(d, (i + 2) + 2 * (k - 1)));
                assert((i + 2) + 2 * (k - 1) == i + 2 * k);
            }
        }
    }
}

/// Builds the value of an ASCII run `bytes[i..e]`.
fn ascii_run_value(bytes: &[u8], i: usize, e: usize) -> (r: String)
    requires
        i < e <= bytes.len(),
    ensures
        r@ == ascii_value(bytes@, i as int, e as int),
{
    let n: usize = if e - i <= MAX_STRING_LEN { e - i } else { MAX_STRING_LEN };
    let mut r = String::new();
    let mut k: usize = 0;
    while k < n
        invariant
            k <= n,
            n <= e - i,
            e <= bytes.len(),
            n == (if e - i <= MAX_STRING_LEN { (e - i) as int } else { MAX_STRING_LEN as int }),
            r@ == ascii_value(bytes@, i as int, e as int).take(k as int),
        decreases n - k,
    {
        let b = bytes[i + k];
        push_char(&mut r, b as char);
        k = k + 1;
        assert(r@ =~= ascii_value(bytes@, i as int, e as int).take(k as int));
    }
    assert(r@ =~= ascii_value(bytes@, i as int, e as int));
    r
}

/// Builds the value of a UTF-16LE run of `units` units at `i`.
fn utf16_run_value(bytes: &[u8], i: usize, units: usize) -> (r: String)
    requires
        i + 2 * units <= bytes.len(),
    ensures
        r@ == utf16_value(bytes@, i as int, units as int),
{
    let n: usize = if units <= MAX_STRING_LEN { units } else { MAX_STRING_LEN };
    let mut r = String::new();
    let mut k: usize = 0;
    while k < n
        invariant
            k <= n,
            n <= units,
            i + 2 * units <= bytes.len(),
            n == (if units <= MAX_STRING_LEN { units as int } else { MAX_STRING_LEN as int }),
            r@ == utf16_value(bytes@, i as int, units as int).take(k as int),
        decreases n - k,
    {
        let b = bytes[i + 2 * k];
        push_char(&mut r, b as char);
        k = k + 1;
        assert(r@ =~= utf16_value(bytes@, i as int, units as int).take(k as int));
    }
    assert(r@ =~= utf16_value(bytes@, i as int, units as int));
    r
}


/// Printable ASCII plus tab.
fn printable(b: u8) -> (r: bool)
    ensures
        r == is_printable(b),
{
    (0x20 <= b && b <= 0x7e) || b == 0x09
}

proof fn lemma_hits_view_push(v: Seq<StringHit>, h: StringHit)
    ensures
        hits_view(v.push(h)) == hits_view(v).push(h@),
{
    assert(hits_view(v.push(h)) =~= hits_view(v).push(h@));
}

/// Appends the ASCII hits of `bytes[..end]` to `out`, keeping at most
/// `MAX_STRINGS` rows in `out`.
fn extract_ascii(bytes: &[u8], end: usize, min_len: usize, out: &mut Vec<StringHit>)
    requires
        end <= bytes.len(),
        min_len >= 1,
        old(out).len() <= MAX_STRINGS,
    ensures
        final(out).len() <= MAX_STRINGS,
        hits_view(final(out)@) == take_at_most(
            hits_view(old(out)@) + ascii_hits(bytes@.take(end as int), min_len as int, 0),
            MAX_STRINGS as int,
        ),
{
    let ghost d = bytes@.take(end as int);
    let ghost m = min_len as int;
    let mut i: usize = 0;
    while i < end && out.len() < MAX_STRINGS
        invariant
            end <= bytes.len(),
            i <= end,
            d == bytes@.take(end as int),
            m == min_len as int,
            min_len >= 1,
            out.len() <= MAX_STRINGS,
            take_at_most(hits_view(out@) + ascii_hits(d, m, i as int), MAX_STRINGS as int)
                == take_at_most(hits_view(old(out)@) + ascii_hits(d, m, 0), MAX_STRINGS as int),
        decreases end - i,
    {
        if !printable(bytes[i]) {
            i = i + 1;
        } else {
            proof {
                lemma_ascii_run_end(d, i as int);
            }
            let mut j: usize = i + 1;
            while j < end && printable(bytes[j])
                invariant
                    i < j <= end,
                    end <= bytes.len(),
                    d == bytes@.take(end as int),
                    0 <= i < d.len(),
                    is_printable(d[i as int]),
                    ascii_run_end(d, i as int) == ascii_run_end(d, j as int),
                decreases end - j,
            {
                j = j + 1;
            }
            let ghost e = ascii_run_end(d, i as int);
            assert(e == j);
            let ghost rest = ascii_hits(d, m, j as int);
            assert(ascii_hits(d, m, i as int) == (if e - i >= m {
                seq![HitSpec { offset: i as int, encoding: ascii_label(), value: ascii_value(d, i as int, e) }] + rest
            } else {
                rest
            }));
            if j - i >= min_len {
                let value = ascii_run_value(bytes, i, j);
                assert(value@ =~= ascii_value(d, i as int, j as int));
                let hit = StringHit { offset: i as u64, encoding: "ascii".to_string(), value };
                let ghost pre = out@;
                let ghost hv = hit@;
                out.push(hit);
                proof {
                    assert(out@ == pre.push(out@[pre.len() as int]));
                    lemma_hits_view_push(pre, out@[pre.len() as int]);
                    assert(hits_view(out@) == hits_view(pre).push(hv));
                    assert(hits_view(pre).push(hv) + rest =~= hits_view(pre) + (seq![hv] + rest));
                }
            }
            i = j;
        }
    }
    assert(ascii_hits(d, m, i as int) =~= Seq::<HitSpec>::empty() || out.len() == MAX_STRINGS);
    assert(hits_view(out@) + Seq::<HitSpec>::empty() =~= hits_view(out@));
}


/// Appends the UTF-16LE hits of `bytes[..end]` to `out`, keeping at most
/// `MAX_STRINGS` rows in `out`.
fn extract_utf16le(bytes: &[u8], end: usize, min_len: usize, out: &mut Vec<StringHit>)
    requires
        end <= bytes.len(),
        min_len >= 1,
        old(out).len() <= MAX_STRINGS,
    ensures
        final(out).len() <= MAX_STRINGS,
        hits_view(final(out)@) == take_at_most(
            hits_view(old(out)@) + utf16_hits(bytes@.take(end as int), min_len as int, 0),
            MAX_STRINGS as int,
        ),
{
    let ghost d = bytes@.take(end as int);
    let ghost m = min_len as int;
    let mut i: usize = 0;
    while i < end && end - i > 1 && out.len() < MAX_STRINGS
        invariant
            end <= bytes.len(),
            i <= end,
            d == bytes@.take(end as int),
            m == min_len as int,
            min_len >= 1,
            out.len() <= MAX_STRINGS,
            take_at_most(hits_view(out@) + utf16_hits(d, m, i as int), MAX_STRINGS as int)
                == take_at_most(hits_view(old(out)@) + utf16_hits(d, m, 0), MAX_STRINGS as int),
        decreases end - i,
    {
        if printable(bytes[i]) && bytes[i + 1] == 0 {
            assert(is_utf16_unit(d, i as int));
            proof {
                lemma_utf16_run_end(d, i as int);
            }
            let mut j: usize = i;
            while j < end && end - j > 1 && printable(bytes[j]) && bytes[j + 1] == 0
                invariant
                    i <= j <= end,
                    end <= bytes.len(),
                    d == bytes@.take(end as int),
                    (j - i) % 2 == 0,
                    utf16_run_end(d, i as int) == utf16_run_end(d, j as int),
                decreases end - j,
            {
                assert(is_utf16_unit(d, j as int));
                j = j + 2;
            }
            let ghost e = utf16_run_end(d, i as int);
            assert(!is_utf16_unit(d, j as int));
            assert(e == j);
            let units = (j - i) / 2;
            let ghost rest = utf16_hits(d, m, j as int);
            assert(utf16_hits(d, m, i as int) == (if units >= m {
                seq![HitSpec { offset: i as int, encoding: utf16_label(), value: utf16_value(d, i as int, units as int) }] + rest
            } else {
                rest
            }));
            if units >= min_len {
                let value = utf16_run_value(bytes, i, units);
                assert(value@ =~= utf16_value(d, i as int, units as int));
                let hit = StringHit { offset: i as u64, encoding: "utf16le".to_string(), value };
                let ghost pre = out@;
                let ghost hv = hit@;
                out.push(hit);
                proof {
                    assert(out@ == pre.push(out@[pre.len() as int]));
                    lemma_hits_view_push(pre, out@[pre.len() as int]);
                    assert(hits_view(out@) == hits_view(pre).push(hv));
                    assert(hits_view(pre).push(hv) + rest =~= hits_view(pre) + (seq![hv] + rest));
                }
            }
            i = j;
        } else {
            i = i + 1;
        }
    }
    assert(utf16_hits(d, m, i as int) =~= Seq::<HitSpec>::empty() || out.len() == MAX_STRINGS);
    assert(hits_view(out@) + Seq::<HitSpec>::empty() =~= hits_view(out@));
}

/// Extracts the printable ASCII runs, then the UTF-16LE runs, of at least
/// `min_len` characters (`min_len` is clamped to at least 1) from the first
/// `MAX_SCAN_BYTES` bytes of `bytes`, keeping at most `MAX_STRINGS` hits.
pub fn strings(bytes: &[u8], min_len: usize) -> (r: Vec<StringHit>)
    ensures
        hits_view(r@) == spec_strings(bytes@, min_len),
        r.len() <= MAX_STRINGS,
{
    let min_len: usize = if min_len < 1 { 1 } else { min_len };
    let end: usize = if bytes.len() <= MAX_SCAN_BYTES { bytes.len() } else { MAX_SCAN_BYTES };
    let ghost d = bytes@.take(end as int);
    assert(d =~= scanned(bytes@));
    let mut out: Vec<StringHit> = Vec::new();
    extract_ascii(bytes, end, min_len, &mut out);
    let ghost a = ascii_hits(d, min_len as int, 0);
    let ghost u = utf16_hits(d, min_len as int, 0);
    assert(hits_view(Seq::<StringHit>::empty()) + a =~= a);
    extract_utf16le(bytes, end, min_len, &mut out);
    proof {
        lemma_take_at_most_concat(a, u, MAX_STRINGS as int);
    }
    out
}

} // verus!
