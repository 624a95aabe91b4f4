//! Normalization of Capstone instruction-group names into a small, stable,
//! arch-portable vocabulary: `call`, `jump`, `ret`, `int`, `privileged`,
//! `branch_relative`, `fpu`, `sse`, `vm`.
use vstd::prelude::*;

use crate::text::{chars_eq_str, chars_of, chars_start_with, lower, lower_chars, starts_with};

verus! {

/// Whether a lower-cased group name belongs to a vector/SIMD family.
pub open spec fn is_vector_family(l: Seq<char>) -> bool {
    starts_with(l, "sse"@) || starts_with(l, "avx"@) || starts_with(l, "mmx"@) || l == "neon"@
        || starts_with(l, "vec"@)
}

/// The normalized name of a raw Capstone group name, or `None` to drop it.
pub open spec fn spec_normalize(raw: Seq<char>) -> Option<Seq<char>> {
    if raw == "call"@ {
        Some("call"@)
    } else if raw == "jump"@ {
        Some("jump"@)
    } else if raw == "ret"@ {
        Some("ret"@)
    } else if raw == "int"@ || raw == "iret"@ {
        Some("int"@)
    } else if raw == "privilege"@ {
        Some("privileged"@)
    } else if raw == "branch_relative"@ {
        Some("branch_relative"@)
    } else if raw == "fpu"@ {
        Some("fpu"@)
    } else if raw == "vm"@ {
        Some("vm"@)
    } else if is_vector_family(lower(raw)) {
        Some("sse"@)
    } else {
        None
    }
}

/// The normalized vocabulary.
pub open spec fn is_vocabulary(n: Seq<char>) -> bool {
    n == "call"@ || n == "jump"@ || n == "ret"@ || n == "int"@ || n == "privileged"@
        || n == "branch_relative"@ || n == "fpu"@ || n == "sse"@ || n == "vm"@
}

/// The view of an optional static string.
pub open spec fn opt_view(o: Option<&'static str>) -> Option<Seq<char>> {
    match o {
        Some(s) => Some(s@),
        None => None,
    }
}

/// Maps a raw Capstone group name to the normalized vocabulary, or `None` to
/// drop it (decoder-state markers such as `mode64` and every other feature
/// marker are dropped).
pub fn normalize(raw: &str) -> (r: Option<&'static str>)
    ensures
        opt_view(r) == spec_normalize(raw@),
{
    let v = chars_of(raw);
    if chars_eq_str(&v, "call") {
        Some("call")
    } else if chars_eq_str(&v, "jump") {
        Some("jump")
    } else if chars_eq_str(&v, "ret") {
        Some("ret")
    } else if chars_eq_str(&v, "int") || chars_eq_str(&v, "iret") {
        Some("int")
    } else if chars_eq_str(&v, "privilege") {
        Some("privileged")
    } else if chars_eq_str(&v, "branch_relative") {
        Some("branch_relative")
    } else if chars_eq_str(&v, "fpu") {
        Some("fpu")
    } else if chars_eq_str(&v, "vm") {
        Some("vm")
    } else {
        let l = lower_chars(&v);
        if chars_start_with(&l, "sse") || chars_start_with(&l, "avx") || chars_start_with(&l, "mmx")
            || chars_eq_str(&l, "neon") || chars_start_with(&l, "vec") {
            Some("sse")
        } else {
            None
        }
    }
}

/// Every name that `normalize` returns is one of the nine vocabulary names.
pub proof fn lemma_normalize_in_vocabulary(raw: Seq<char>)
    ensures
        spec_normalize(raw) matches Some(n) ==> is_vocabulary(n),
{
}

/// The normalized, de-duplicated names of `raw`, in first-seen order.
pub open spec fn spec_normalize_all(raw: Seq<Seq<char>>) -> Seq<Seq<char>>
    decreases raw.len(),
{
    if raw.len() == 0 {
        Seq::empty()
    } else {
        let rest = spec_normalize_all(raw.drop_last());
        match spec_normalize(raw.last()) {
            Some(n) => if rest.contains(n) {
                rest
            } else {
                rest.push(n)
            },
            None => rest,
        }
    }
}

/// The views of a sequence of strings.
pub open spec fn strings_view(v: Seq<String>) -> Seq<Seq<char>> {
    v.map_values(|s: String| s@)
}

/// The views of a sequence of string slices.
pub open spec fn strs_view(v: Seq<&str>) -> Seq<Seq<char>> {
    v.map_values(|s: &str| s@)
}

/// `spec_normalize_all` yields vocabulary names only, each at most once.
pub proof fn lemma_normalize_all_distinct_vocabulary(raw: Seq<Seq<char>>)
    ensures
        forall|i: int|
            0 <= i < spec_normalize_all(raw).len() ==> is_vocabulary(
                #[trigger] spec_normalize_all(raw)[i],
            ),
        forall|i: int, j: int|
            0 <= i < j < spec_normalize_all(raw).len() ==> spec_normalize_all(raw)[i]
                != spec_normalize_all(raw)[j],
    decreases raw.len(),
{
    if raw.len() > 0 {
        let rest = spec_normalize_all(raw.drop_last());
        lemma_normalize_all_distinct_vocabulary(raw.drop_last());
        lemma_normalize_in_vocabulary(raw.last());
        if let Some(n) = spec_normalize(raw.last()) {
            if !rest.contains(n) {
                assert forall|i: int| 0 <= i < rest.len() implies rest[i] != n by {
                    if rest[i] == n {
                        assert(rest.contains(n));
                    }
                }
                assert(spec_normalize_all(raw) == rest.push(n));
            }
        }
    }
}

/// Normalizes a list of raw group names, dropping unmapped ones and
/// de-duplicating while preserving first-seen order.
pub fn normalize_all(raw: &[&str]) -> (r: Vec<String>)
    ensures
        strings_view(r@) == spec_normalize_all(strs_view(raw@)),
{
    let mut out: Vec<String> = Vec::new();
    let mut i: usize = 0;
    while i < raw.len()
        invariant
            i <= raw.len(),
            strings_view(out@) == spec_normalize_all(strs_view(raw@.take(i as int))),
        decreases raw.len() - i,
    {
        let ghost prefix = strs_view(raw@.take(i as int + 1));
        assert(prefix.drop_last() =~= strs_view(raw@.take(i as int)));
        assert(prefix.last() == raw@[i as int]@);
        if let Some(n) = normalize(raw[i]) {
            let n = n.to_string();
            let mut found = false;
            let mut k: usize = 0;
            while k < out.len()
                invariant
                    k <= out.len(),
                    found == (exists|j: int| 0 <= j < k && out@[j]@ == n@),
                decreases out.len() - k,
            {
                if out[k] == n {
                    found = true;
                }
                k = k + 1;
            }
            if !found {
                assert forall|j: int| 0 <= j < out.len() implies strings_view(out@)[j] != n@ by {
                    assert(strings_view(out@)[j] == out@[j]@);
                }
            } else {
                proof {
                    let j = choose|j: int| 0 <= j < out.len() && out@[j]@ == n@;
                    assert(strings_view(out@)[j] == n@);
                }
            }
            if !found {
                let ghost pre = out@;
                out.push(n);
                assert(strings_view(out@) =~= strings_view(pre).push(n@));
            }
        }
        i = i + 1;
    }
    assert(raw@.take(raw.len() as int) =~= raw@);
    out
}

} // verus!
