//! Heuristic capability rows tagged with MITRE ATT&CK techniques, from three
//! cheap signals: import names, interesting strings and anti-analysis
//! instructions, matched against the compiled-in [`crate::mappings`] tables.
//! Rows are de-duplicated on `(rule, evidence)`, first occurrence kept, and
//! capped at `MAX_CAPABILITIES`.
use vstd::prelude::*;

use crate::container::opt_string_view;
use crate::engine::{insns_view, Insn, InsnView};
use crate::imports::{imports, imports_view, spec_imports, Import, ImportView};
use crate::limits::MAX_CAPABILITIES;
use crate::mappings::{MapEntry, API_MAP, STRING_MAP};
use crate::strings::{hits_view, spec_strings, strings, HitSpec, StringHit};
use crate::sweep::{disassemble, opt_str_view, spec_disassemble};
use crate::text::{
    chars_contain, chars_eq_str, chars_of, contains_sub, lower, lower_chars, push_char,
    string_from_chars, take_at_most, trim, trim_chars,
};

verus! {

/// One capability match.
#[derive(Debug, Clone)]
pub struct Capability {
    /// Short heuristic name, e.g. `inject:CreateRemoteThread`.
    pub rule: String,
    /// ATT&CK technique id, e.g. `T1055`.
    pub attack_id: String,
    /// ATT&CK technique name.
    pub attack_name: String,
    /// `info | low | medium | high` (advisory only).
    pub severity: String,
    /// The import name, string or instruction that matched.
    pub evidence: String,
}

/// The content of a [`Capability`].
pub struct CapView {
    pub rule: Seq<char>,
    pub attack_id: Seq<char>,
    pub attack_name: Seq<char>,
    pub severity: Seq<char>,
    pub evidence: Seq<char>,
}

impl View for Capability {
    type V = CapView;

    open spec fn view(&self) -> CapView {
        CapView {
            rule: self.rule@,
            attack_id: self.attack_id@,
            attack_name: self.attack_name@,
            severity: self.severity@,
            evidence: self.evidence@,
        }
    }
}

/// The views of a sequence of capabilities.
pub open spec fn caps_view(v: Seq<Capability>) -> Seq<CapView> {
    v.map_values(|c: Capability| c@)
}

/// The capability a table entry stands for, with the given evidence.
pub open spec fn entry_cap(e: MapEntry, evidence: Seq<char>) -> CapView {
    CapView { rule: e.1@, attack_id: e.2@, attack_name: e.3@, severity: e.4@, evidence }
}

impl Capability {
    fn from_entry(entry: &MapEntry, evidence: String) -> (r: Self)
        ensures
            r@ == entry_cap(*entry, evidence@),
    {
        let (_pattern, rule, attack_id, attack_name, severity) = *entry;
        Capability {
            rule: rule.to_string(),
            attack_id: attack_id.to_string(),
            attack_name: attack_name.to_string(),
            severity: severity.to_string(),
            evidence,
        }
    }
}

/// Whether an import named `name` matches an API table entry (equal up to
/// ASCII case).
pub open spec fn api_hit(e: MapEntry, name: Seq<char>) -> bool {
    lower(e.0@) == lower(name)
}

/// Whether a string `value` matches a string table entry (the pattern occurs
/// in the lower-cased value).
pub open spec fn string_hit(e: MapEntry, value: Seq<char>) -> bool {
    contains_sub(lower(value), e.0@)
}

/// The capabilities of the first `n` API table entries an import name hits.
pub open spec fn api_caps(name: Seq<char>, n: int) -> Seq<CapView>
    decreases n,
{
    if n <= 0 {
        Seq::empty()
    } else {
        let rest = api_caps(name, n - 1);
        if api_hit(API_MAP@[n - 1], name) {
            rest.push(entry_cap(API_MAP@[n - 1], name))
        } else {
            rest
        }
    }
}

/// The evidence shown for a string match: the string, or its first 120
/// characters followed by an ellipsis.
pub open spec fn spec_truncate_evidence(s: Seq<char>) -> Seq<char> {
    if s.len() <= 120 {
        s
    } else {
        s.take(120).push('\u{2026}')
    }
}

/// The capabilities of the first `n` string table entries a string hits.
pub open spec fn string_caps(value: Seq<char>, n: int) -> Seq<CapView>
    decreases n,
{
    if n <= 0 {
        Seq::empty()
    } else {
        let rest = string_caps(value, n - 1);
        if string_hit(STRING_MAP@[n - 1], value) {
            rest.push(entry_cap(STRING_MAP@[n - 1], spec_truncate_evidence(value)))
        } else {
            rest
        }
    }
}

/// The import-name candidates of the first `n` imports, in order.
pub open spec fn import_cands(imps: Seq<ImportView>, n: int) -> Seq<CapView>
    decreases n,
{
    if n <= 0 {
        Seq::empty()
    } else {
        import_cands(imps, n - 1) + match imps[n - 1].name {
            Some(name) => api_caps(name, API_MAP@.len() as int),
            None => Seq::empty(),
        }
    }
}

/// The string candidates of the first `n` string hits, in order.
pub open spec fn string_cands(hits: Seq<HitSpec>, n: int) -> Seq<CapView>
    decreases n,
{
    if n <= 0 {
        Seq::empty()
    } else {
        string_cands(hits, n - 1) + string_caps(hits[n - 1].value, STRING_MAP@.len() as int)
    }
}

/// Whether some row has one of the given mnemonics.
pub open spec fn saw_mnemonic(insns: Seq<InsnView>, m: Seq<char>) -> bool {
    exists|i: int| 0 <= i < insns.len() && #[trigger] insns[i].mnemonic == m
}

/// Whether some row is `int 0x2d`.
pub open spec fn saw_int_2d(insns: Seq<InsnView>) -> bool {
    exists|i: int| 0 <= i < insns.len() && #[trigger] insns[i].mnemonic == "int"@ && trim(insns[i].op_str) == "0x2d"@
}

/// A fixed anti-analysis capability row.
pub open spec fn fixed_cap(rule: Seq<char>, id: Seq<char>, name: Seq<char>, sev: Seq<char>, ev: Seq<char>) -> CapView {
    CapView { rule, attack_id: id, attack_name: name, severity: sev, evidence: ev }
}

/// The anti-analysis candidates of an instruction stream: `rdtsc` timing,
/// `cpuid` checks, `int3` and `int 0x2d`, each at most once, in that order.
pub open spec fn anti_cands(insns: Seq<InsnView>) -> Seq<CapView> {
    let a: Seq<CapView> = if saw_mnemonic(insns, "rdtsc"@) || saw_mnemonic(insns, "rdtscp"@) {
        seq![fixed_cap("antivm:rdtsc_timing"@, "T1497"@, "Virtualization/Sandbox Evasion"@, "low"@, "rdtsc"@)]
    } else {
        Seq::empty()
    };
    let b: Seq<CapView> = if saw_mnemonic(insns, "cpuid"@) {
        seq![fixed_cap("antivm:cpuid_check"@, "T1497.001"@, "Virtualization/Sandbox Evasion: System Checks"@, "low"@, "cpuid"@)]
    } else {
        Seq::empty()
    };
    let c: Seq<CapView> = if saw_mnemonic(insns, "int3"@) {
        seq![fixed_cap("antidbg:int3"@, "T1622"@, "Debugger Evasion"@, "low"@, "int3"@)]
    } else {
        Seq::empty()
    };
    let d: Seq<CapView> = if saw_int_2d(insns) {
        seq![fixed_cap("antidbg:int_0x2d"@, "T1622"@, "Debugger Evasion"@, "medium"@, "int 0x2d"@)]
    } else {
        Seq::empty()
    };
    a + b + c + d
}

/// Whether `caps` already holds a row with the `(rule, evidence)` of `c`.
pub open spec fn has_key(caps: Seq<CapView>, c: CapView) -> bool {
    exists|i: int| 0 <= i < caps.len() && #[trigger] caps[i].rule == c.rule && caps[i].evidence == c.evidence
}

/// `c` with later rows of an already-seen `(rule, evidence)` dropped.
pub open spec fn dedup(c: Seq<CapView>) -> Seq<CapView>
    decreases c.len(),
{
    if c.len() == 0 {
        Seq::empty()
    } else {
        let rest = dedup(c.drop_last());
        if has_key(rest, c.last()) {
            rest
        } else {
            rest.push(c.last())
        }
    }
}

/// What the matcher returns for the given imports, strings and instruction
/// rows: the import, string and anti-analysis candidates, de-duplicated on
/// `(rule, evidence)` and capped at `MAX_CAPABILITIES`.
pub open spec fn spec_caps(imps: Seq<ImportView>, hits: Seq<HitSpec>, insns: Seq<InsnView>) -> Seq<CapView> {
    let cands = import_cands(imps, imps.len() as int) + string_cands(hits, hits.len() as int)
        + anti_cands(insns);
    take_at_most(dedup(cands), MAX_CAPABILITIES as int)
}

/// The state the matcher keeps: the capped, de-duplicated candidates so far.
pub open spec fn capped(c: Seq<CapView>) -> Seq<CapView> {
    take_at_most(dedup(c), MAX_CAPABILITIES as int)
}

proof fn lemma_dedup_distinct(c: Seq<CapView>)
    ensures
        forall|i: int, j: int|
            0 <= i < j < dedup(c).len() ==> !(dedup(c)[i].rule == dedup(c)[j].rule
                && dedup(c)[i].evidence == dedup(c)[j].evidence),
    decreases c.len(),
{
    if c.len() > 0 {
        lemma_dedup_distinct(c.drop_last());
        let rest = dedup(c.drop_last());
        if !has_key(rest, c.last()) {
            assert forall|i: int, j: int| 0 <= i < j < dedup(c).len() implies !(dedup(c)[i].rule
                == dedup(c)[j].rule && dedup(c)[i].evidence == dedup(c)[j].evidence) by {
                if j == rest.len() {
                    if dedup(c)[i].rule == dedup(c)[j].rule && dedup(c)[i].evidence == dedup(c)[j].evidence {
                        assert(rest[i].rule == c.last().rule && rest[i].evidence == c.last().evidence);
                        assert(has_key(rest, c.last()));
                    }
                }
            }
        }
    }
}

fn push_cap(out: &mut Vec<Capability>, cap: Capability, Ghost(seen): Ghost<Seq<CapView>>)
    requires
        caps_view(old(out)@) == capped(seen),
    ensures
        caps_view(final(out)@) == capped(seen.push(cap@)),
{
    let ghost d = dedup(seen);
    let ghost c = cap@;
    assert(seen.push(c).drop_last() =~= seen);
    if out.len() >= MAX_CAPABILITIES {
        return;
    }
    let mut found = false;
    let mut i: usize = 0;
    while i < out.len()
        invariant
            i <= out.len(),
            found == (exists|k: int| 0 <= k < i && #[trigger] out@[k].rule@ == cap.rule@ && out@[k].evidence@ == cap.evidence@),
        decreases out.len() - i,
    {
        if out[i].rule == cap.rule && out[i].evidence == cap.evidence {
            found = true;
        }
        i = i + 1;
    }
    proof {
        assert(caps_view(out@) == d);
        if found {
            let k = choose|k: int| 0 <= k < out.len() && #[trigger] out@[k].rule@ == cap.rule@ && out@[k].evidence@ == cap.evidence@;
            assert(d[k] == out@[k]@);
            assert(d[k].rule == c.rule && d[k].evidence == c.evidence);
            assert(has_key(d, c));
        } else {
            assert forall|k: int| 0 <= k < d.len() implies !(#[trigger] d[k].rule == c.rule && d[k].evidence == c.evidence) by {
                assert(d[k] == out@[k]@);
            }
        }
    }
    if !found {
        let ghost pre = out@;
        out.push(cap);
        proof {
            assert(out@ == pre.push(out@[pre.len() as int]));
            assert(caps_view(out@) =~= caps_view(pre).push(c));
        }
    }
}

fn eq_chars(a: &[char], b: &[char]) -> (r: bool)
    ensures
        r == (a@ == b@),
{
    if a.len() != b.len() {
        return false;
    }
    let mut i: usize = 0;
    while i < a.len()
        invariant
            i <= a.len(),
            a.len() == b.len(),
            forall|k: int| 0 <= k < i ==> a@[k] == b@[k],
        decreases a.len() - i,
    {
        if a[i] != b[i] {
            return false;
        }
        i = i + 1;
    }
    assert(a@ =~= b@);
    true
}

fn truncate_evidence(s: &str) -> (r: String)
    ensures
        r@ == spec_truncate_evidence(s@),
{
    let v = chars_of(s);
    if v.len() <= 120 {
        string_from_chars(&v)
    } else {
        let mut r = String::new();
        let mut i: usize = 0;
        while i < 120
            invariant
                i <= 120,
                v.len() > 120,
                r@ == v@.take(i as int),
            decreases 120 - i,
        {
            push_char(&mut r, v[i]);
            i = i + 1;
            assert(r@ =~= v@.take(i as int));
        }
        push_char(&mut r, '\u{2026}');
        r
    }
}

/// Runs the heuristic matcher over already-extracted imports, strings and
/// instruction rows: import names equal (up to ASCII case) to an API table
/// pattern, strings whose lower-cased text contains a string table pattern,
/// and the anti-analysis instructions; de-duplicated on `(rule, evidence)`
/// and capped at `MAX_CAPABILITIES`.
#[verifier::rlimit(40)]
pub fn capabilities_from(imps: &[Import], hits: &[StringHit], insns: &[Insn]) -> (r: Vec<
    Capability,
>)
    ensures
        caps_view(r@) == spec_caps(imports_view(imps@), hits_view(hits@), insns_view(insns@)),
{
    let ghost iv = imports_view(imps@);
    let ghost hv = hits_view(hits@);
    let ghost nv = insns_view(insns@);
    let mut out: Vec<Capability> = Vec::new();
    let ghost mut seen: Seq<CapView> = Seq::empty();
    assert(caps_view(out@) =~= capped(seen));
    // 1. Import names.
    let mut i: usize = 0;
    while i < imps.len()
        invariant
            i <= imps.len(),
            iv == imports_view(imps@),
            seen == import_cands(iv, i as int),
            caps_view(out@) == capped(seen),
        decreases imps.len() - i,
    {
        let ghost before = seen;
        if let Some(name) = &imps[i].name {
            let ln = lower_chars(&chars_of(name.as_str()));
            let mut j: usize = 0;
            while j < API_MAP.len()
                invariant
                    j <= API_MAP.len(),
                    iv[i as int].name == Some(name@),
                    ln@ == lower(name@),
                    seen == before + api_caps(name@, j as int),
                    caps_view(out@) == capped(seen),
                decreases API_MAP.len() - j,
            {
                let e = &API_MAP[j];
                let lp = lower_chars(&chars_of(e.0));
                if eq_chars(&lp, &ln) {
                    let cap = Capability::from_entry(e, name.clone());
                    push_cap(&mut out, cap, Ghost(seen));
                    proof {
                        assert(before + api_caps(name@, j + 1) =~= seen.push(entry_cap(API_MAP@[j as int], name@)));
                        seen = seen.push(entry_cap(API_MAP@[j as int], name@));
                    }
                } else {
                    assert(api_caps(name@, j + 1) == api_caps(name@, j as int));
                }
                j = j + 1;
            }
        } else {
            assert(iv[i as int].name is None);
            assert(before + Seq::<CapView>::empty() =~= before);
        }
        i = i + 1;
    }
    // 2. Interesting strings.
    let mut h: usize = 0;
    while h < hits.len()
        invariant
            h <= hits.len(),
            iv == imports_view(imps@),
            hv == hits_view(hits@),
            seen == import_cands(iv, imps.len() as int) + string_cands(hv, h as int),
            caps_view(out@) == capped(seen),
        decreases hits.len() - h,
    {
        let ghost before = seen;
        let value = &hits[h].value;
        assert(hv[h as int].value == value@);
        let hay = lower_chars(&chars_of(value.as_str()));
        let mut j: usize = 0;
        while j < STRING_MAP.len()
            invariant
                j <= STRING_MAP.len(),
                hay@ == lower(value@),
                seen == before + string_caps(value@, j as int),
                caps_view(out@) == capped(seen),
            decreases STRING_MAP.len() - j,
        {
            let e = &STRING_MAP[j];
            if chars_contain(&hay, e.0) {
                let cap = Capability::from_entry(e, truncate_evidence(value.as_str()));
                push_cap(&mut out, cap, Ghost(seen));
                proof {
                    let c = entry_cap(STRING_MAP@[j as int], spec_truncate_evidence(value@));
                    assert(before + string_caps(value@, j + 1) =~= seen.push(c));
                    seen = seen.push(c);
                }
            } else {
                assert(string_caps(value@, j + 1) == string_caps(value@, j as int));
            }
            j = j + 1;
        }
        proof {
            assert(seen =~= import_cands(iv, imps.len() as int) + string_cands(hv, h + 1));
        }
        h = h + 1;
    }
    // 3. Anti-analysis instruction patterns.
    let mut saw_rdtsc = false;
    let mut saw_cpuid = false;
    let mut saw_int3 = false;
    let mut saw_int2d = false;
    let mut k: usize = 0;
    while k < insns.len()
        invariant
            k <= insns.len(),
            nv == insns_view(insns@),
            saw_rdtsc == (saw_mnemonic(nv.take(k as int), "rdtsc"@) || saw_mnemonic(nv.take(k as int), "rdtscp"@)),
            saw_cpuid == saw_mnemonic(nv.take(k as int), "cpuid"@),
            saw_int3 == saw_mnemonic(nv.take(k as int), "int3"@),
            saw_int2d == saw_int_2d(nv.take(k as int)),
        decreases insns.len() - k,
    {
        let m = chars_of(insns[k].mnemonic.as_str());
        assert(nv[k as int].mnemonic == m@);
        let ghost t = nv.take(k as int);
        let ghost t1 = nv.take(k + 1);
        assert(t1 =~= t.push(nv[k as int]));
        if chars_eq_str(&m, "rdtsc") || chars_eq_str(&m, "rdtscp") {
            saw_rdtsc = true;
        }
        if chars_eq_str(&m, "cpuid") {
            saw_cpuid = true;
        }
        if chars_eq_str(&m, "int3") {
            saw_int3 = true;
        }
        if chars_eq_str(&m, "int") {
            let op = trim_chars(&chars_of(insns[k].op_str.as_str()));
            assert(nv[k as int].op_str == insns@[k as int].op_str@);
            if chars_eq_str(&op, "0x2d") {
                saw_int2d = true;
            }
        }
        proof {
            assert forall|mm: Seq<char>| saw_mnemonic(t1, mm) == (saw_mnemonic(t, mm) || nv[k as int].mnemonic == mm) by {
                if saw_mnemonic(t1, mm) {
                    let x = choose|x: int| 0 <= x < t1.len() && #[trigger] t1[x].mnemonic == mm;
                    if x < t.len() {
                        assert(t[x] == t1[x]);
                    }
                }
                if saw_mnemonic(t, mm) {
                    let x = choose|x: int| 0 <= x < t.len() && #[trigger] t[x].mnemonic == mm;
                    assert(t1[x] == t[x]);
                }
                if nv[k as int].mnemonic == mm {
                    assert(t1[k as int] == nv[k as int]);
                }
            }
            let cur = nv[k as int];
            assert(saw_int_2d(t1) == (saw_int_2d(t) || (cur.mnemonic == "int"@ && trim(cur.op_str) == "0x2d"@))) by {
                if saw_int_2d(t1) {
                    let x = choose|x: int| 0 <= x < t1.len() && #[trigger] t1[x].mnemonic == "int"@ && trim(t1[x].op_str) == "0x2d"@;
                    if x < t.len() {
                        assert(t[x] == t1[x]);
                    }
                }
                if saw_int_2d(t) {
                    let x = choose|x: int| 0 <= x < t.len() && #[trigger] t[x].mnemonic == "int"@ && trim(t[x].op_str) == "0x2d"@;
                    assert(t1[x] == t[x]);
                }
                if cur.mnemonic == "int"@ && trim(cur.op_str) == "0x2d"@ {
                    assert(t1[k as int] == cur);
                }
            }
        }
        k = k + 1;
    }
    assert(nv.take(insns.len() as int) =~= nv);
    let ghost base = seen;
    if saw_rdtsc {
        let cap = Capability {
            rule: "antivm:rdtsc_timing".to_string(),
            attack_id: "T1497".to_string(),
            attack_name: "Virtualization/Sandbox Evasion".to_string(),
            severity: "low".to_string(),
            evidence: "rdtsc".to_string(),
        };
        push_cap(&mut out, cap, Ghost(seen));
        proof {
            seen = seen.push(fixed_cap("antivm:rdtsc_timing"@, "T1497"@, "Virtualization/Sandbox Evasion"@, "low"@, "rdtsc"@));
        }
    }
    if saw_cpuid {
        let cap = Capability {
            rule: "antivm:cpuid_check".to_string(),
            attack_id: "T1497.001".to_string(),
            attack_name: "Virtualization/Sandbox Evasion: System Checks".to_string(),
            severity: "low".to_string(),
            evidence: "cpuid".to_string(),
        };
        push_cap(&mut out, cap, Ghost(seen));
        proof {
            seen = seen.push(fixed_cap("antivm:cpuid_check"@, "T1497.001"@, "Virtualization/Sandbox Evasion: System Checks"@, "low"@, "cpuid"@));
        }
    }
    if saw_int3 {
        let cap = Capability {
            rule: "antidbg:int3".to_string(),
            attack_id: "T1622".to_string(),
            attack_name: "Debugger Evasion".to_string(),
            severity: "low".to_string(),
            evidence: "int3".to_string(),
        };
        push_cap(&mut out, cap, Ghost(seen));
        proof {
            seen = seen.push(fixed_cap("antidbg:int3"@, "T1622"@, "Debugger Evasion"@, "low"@, "int3"@));
        }
    }
    if saw_int2d {
        let cap = Capability {
            rule: "antidbg:int_0x2d".to_string(),
            attack_id: "T1622".to_string(),
            attack_name: "Debugger Evasion".to_string(),
            severity: "medium".to_string(),
            evidence: "int 0x2d".to_string(),
        };
        push_cap(&mut out, cap, Ghost(seen));
        proof {
            seen = seen.push(fixed_cap("antidbg:int_0x2d"@, "T1622"@, "Debugger Evasion"@, "medium"@, "int 0x2d"@));
        }
    }
    assert(seen =~= base + anti_cands(nv));
    out
}

/// Runs the heuristic capability matcher over `bytes`: over its imports, its
/// strings of at least 4 characters and the rows of its container-resolved
/// disassembly of every executable section (see [`capabilities_from`]).
pub fn capabilities(bytes: &[u8]) -> (r: Vec<Capability>)
    ensures
        caps_view(r@) == spec_caps(
            spec_imports(bytes@),
            spec_strings(bytes@, 4),
            spec_disassemble(bytes@, None, None, None, "auto"@),
        ),
{
    let imps = imports(bytes);
    let hits = strings(bytes, 4);
    let rows = disassemble(bytes, None, None, None, "auto");
    assert(opt_str_view(None) == None::<Seq<char>>);
    capabilities_from(&imps, &hits, &rows)
}

/// Capability rows are distinct on `(rule, evidence)` and there are at most
/// `MAX_CAPABILITIES` of them.
pub proof fn law_capability_rows_distinct_and_capped(imps: Seq<ImportView>, hits: Seq<HitSpec>, insns: Seq<InsnView>)
    ensures
        forall|i: int, j: int|
            0 <= i < j < spec_caps(imps, hits, insns).len() ==> !(spec_caps(imps, hits, insns)[i].rule
                == spec_caps(imps, hits, insns)[j].rule && spec_caps(imps, hits, insns)[i].evidence
                == spec_caps(imps, hits, insns)[j].evidence),
        spec_caps(imps, hits, insns).len() <= MAX_CAPABILITIES,
{
    let cands = import_cands(imps, imps.len() as int) + string_cands(hits, hits.len() as int)
        + anti_cands(insns);
    lemma_dedup_distinct(cands);
}

proof fn lemma_api_caps_contains(name: Seq<char>, n: int, j: int)
    requires
        0 <= j < n <= API_MAP@.len(),
        api_hit(API_MAP@[j], name),
    ensures
        api_caps(name, n).contains(entry_cap(API_MAP@[j], name)),
    decreases n,
{
    let rest = api_caps(name, n - 1);
    if j == n - 1 {
        assert(api_caps(name, n) == rest.push(entry_cap(API_MAP@[j], name)));
        assert(api_caps(name, n)[rest.len() as int] == entry_cap(API_MAP@[j], name));
    } else {
        lemma_api_caps_contains(name, n - 1, j);
        let k = choose|k: int| 0 <= k < rest.len() && rest[k] == entry_cap(API_MAP@[j], name);
        if api_hit(API_MAP@[n - 1], name) {
            assert(api_caps(name, n)[k] == rest[k]);
        }
    }
}

proof fn lemma_import_cands_contains(imps: Seq<ImportView>, n: int, i: int, c: CapView)
    requires
        0 <= i < n <= imps.len(),
        imps[i].name is Some,
        api_caps(imps[i].name.unwrap(), API_MAP@.len() as int).contains(c),
    ensures
        import_cands(imps, n).contains(c),
    decreases n,
{
    let a = import_cands(imps, n - 1);
    let b = match imps[n - 1].name {
        Some(name) => api_caps(name, API_MAP@.len() as int),
        None => Seq::empty(),
    };
    assert(import_cands(imps, n) == a + b);
    if i == n - 1 {
        let k = choose|k: int| 0 <= k < b.len() && b[k] == c;
        assert((a + b)[a.len() + k] == c);
    } else {
        lemma_import_cands_contains(imps, n - 1, i, c);
        let k = choose|k: int| 0 <= k < a.len() && a[k] == c;
        assert((a + b)[k] == c);
    }
}

proof fn lemma_dedup_keeps_keys(c: Seq<CapView>, x: CapView)
    requires
        c.contains(x),
    ensures
        has_key(dedup(c), x),
    decreases c.len(),
{
    let init = c.drop_last();
    let rest = dedup(init);
    if x == c.last() {
        if !has_key(rest, c.last()) {
            assert(dedup(c) == rest.push(c.last()));
            assert(dedup(c)[rest.len() as int] == x);
            assert(dedup(c)[rest.len() as int].rule == x.rule);
        } else {
            assert(dedup(c) == rest);
        }
    } else {
        let m = choose|m: int| 0 <= m < c.len() && c[m] == x;
        assert(init[m] == x);
        lemma_dedup_keeps_keys(init, x);
        let k = choose|k: int| 0 <= k < rest.len() && #[trigger] rest[k].rule == x.rule && rest[k].evidence == x.evidence;
        if !has_key(rest, c.last()) {
            assert(dedup(c)[k] == rest[k]);
            assert(dedup(c)[k].rule == x.rule);
        } else {
            assert(dedup(c) == rest);
            assert(rest[k].rule == x.rule);
        }
    }
}

/// Every import whose name equals (up to ASCII case) an API table pattern is
/// reported: while the row cap is not reached, some row carries that entry's
/// rule with the import's name as evidence.
pub proof fn law_import_matches_are_reported(
    imps: Seq<ImportView>,
    hits: Seq<HitSpec>,
    insns: Seq<InsnView>,
    i: int,
    j: int,
)
    requires
        0 <= i < imps.len(),
        imps[i].name is Some,
        0 <= j < API_MAP@.len(),
        api_hit(API_MAP@[j], imps[i].name.unwrap()),
        spec_caps(imps, hits, insns).len() < MAX_CAPABILITIES,
    ensures
        exists|k: int|
            0 <= k < spec_caps(imps, hits, insns).len() && #[trigger] spec_caps(imps, hits, insns)[k].rule
                == API_MAP@[j].1@ && spec_caps(imps, hits, insns)[k].evidence == imps[i].name.unwrap(),
{
    let name = imps[i].name.unwrap();
    let c = entry_cap(API_MAP@[j], name);
    lemma_api_caps_contains(name, API_MAP@.len() as int, j);
    lemma_import_cands_contains(imps, imps.len() as int, i, c);
    let ic = import_cands(imps, imps.len() as int);
    let sc = string_cands(hits, hits.len() as int);
    let cands = ic + sc + anti_cands(insns);
    let k0 = choose|k: int| 0 <= k < ic.len() && ic[k] == c;
    assert(cands[k0] == c);
    lemma_dedup_keeps_keys(cands, c);
    let d = dedup(cands);
    assert(spec_caps(imps, hits, insns) == take_at_most(d, MAX_CAPABILITIES as int));
    let k = choose|k: int| 0 <= k < d.len() && #[trigger] d[k].rule == c.rule && d[k].evidence == c.evidence;
    assert(d.len() < MAX_CAPABILITIES);
    assert(spec_caps(imps, hits, insns)[k] == d[k]);
}

proof fn lemma_string_caps_contains(value: Seq<char>, n: int, j: int)
    requires
        0 <= j < n <= STRING_MAP@.len(),
        string_hit(STRING_MAP@[j], value),
    ensures
        string_caps(value, n).contains(entry_cap(STRING_MAP@[j], spec_truncate_evidence(value))),
    decreases n,
{
    let c = entry_cap(STRING_MAP@[j], spec_truncate_evidence(value));
    let rest = string_caps(value, n - 1);
    if j == n - 1 {
        assert(string_caps(value, n) == rest.push(c));
        assert(string_caps(value, n)[rest.len() as int] == c);
    } else {
        lemma_string_caps_contains(value, n - 1, j);
        let k = choose|k: int| 0 <= k < rest.len() && rest[k] == c;
        if string_hit(STRING_MAP@[n - 1], value) {
            assert(string_caps(value, n)[k] == rest[k]);
        }
    }
}

proof fn lemma_string_cands_contains(hits: Seq<HitSpec>, n: int, i: int, c: CapView)
    requires
        0 <= i < n <= hits.len(),
        string_caps(hits[i].value, STRING_MAP@.len() as int).contains(c),
    ensures
        string_cands(hits, n).contains(c),
    decreases n,
{
    let a = string_cands(hits, n - 1);
    let b = string_caps(hits[n - 1].value, STRING_MAP@.len() as int);
    assert(string_cands(hits, n) == a + b);
    if i == n - 1 {
        let k = choose|k: int| 0 <= k < b.len() && b[k] == c;
        assert((a + b)[a.len() + k] == c);
    } else {
        lemma_string_cands_contains(hits, n - 1, i, c);
        let k = choose|k: int| 0 <= k < a.len() && a[k] == c;
        assert((a + b)[k] == c);
    }
}

/// Every string that contains (after lower-casing) a string table pattern is
/// reported: while the row cap is not reached, some row carries that entry's
/// rule with the string, truncated to 120 characters, as evidence.
pub proof fn law_string_matches_are_reported(
    imps: Seq<ImportView>,
    hits: Seq<HitSpec>,
    insns: Seq<InsnView>,
    i: int,
    j: int,
)
    requires
        0 <= i < hits.len(),
        0 <= j < STRING_MAP@.len(),
        string_hit(STRING_MAP@[j], hits[i].value),
        spec_caps(imps, hits, insns).len() < MAX_CAPABILITIES,
    ensures
        exists|k: int|
            0 <= k < spec_caps(imps, hits, insns).len() && #[trigger] spec_caps(imps, hits, insns)[k].rule
                == STRING_MAP@[j].1@ && spec_caps(imps, hits, insns)[k].evidence == spec_truncate_evidence(
                hits[i].value,
            ),
{
    let c = entry_cap(STRING_MAP@[j], spec_truncate_evidence(hits[i].value));
    lemma_string_caps_contains(hits[i].value, STRING_MAP@.len() as int, j);
    lemma_string_cands_contains(hits, hits.len() as int, i, c);
    let ic = import_cands(imps, imps.len() as int);
    let sc = string_cands(hits, hits.len() as int);
    let cands = ic + sc + anti_cands(insns);
    let k0 = choose|k: int| 0 <= k < sc.len() && sc[k] == c;
    assert(cands[ic.len() + k0] == c);
    lemma_dedup_keeps_keys(cands, c);
    let d = dedup(cands);
    assert(spec_caps(imps, hits, insns) == take_at_most(d, MAX_CAPABILITIES as int));
    let k = choose|k: int| 0 <= k < d.len() && #[trigger] d[k].rule == c.rule && d[k].evidence == c.evidence;
    assert(d.len() < MAX_CAPABILITIES);
    assert(spec_caps(imps, hits, insns)[k] == d[k]);
}

/// A character with ASCII `A`-`Z` folded to `a`-`z`.
pub open spec fn fold_ascii(c: char) -> char {
    if 'A' <= c && c <= 'Z' {
        ((c as int) + 32) as char
    } else {
        c
    }
}

proof fn lemma_fold_is_lower(c: char)
    ensures
        crate::text::lower_char(c) == fold_ascii(c),
{
    if 'A' <= c && c <= 'Z' {
        assert((c as u8) as int == c as int);
    }
}

/// An import name hits an API table entry exactly when the two are equal
/// but for ASCII letter case.
pub proof fn law_api_hit_ignores_case(e: MapEntry, name: Seq<char>)
    ensures
        api_hit(e, name) <==> (e.0@.len() == name.len() && forall|i: int|
            0 <= i < name.len() ==> fold_ascii(#[trigger] e.0@[i]) == fold_ascii(name[i])),
{
    let p = e.0@;
    if api_hit(e, name) {
        assert(lower(p) == lower(name));
        assert(p.len() == lower(p).len());
        assert forall|i: int| 0 <= i < name.len() implies fold_ascii(#[trigger] p[i]) == fold_ascii(name[i]) by {
            assert(lower(p)[i] == crate::text::lower_char(p[i]));
            assert(lower(name)[i] == crate::text::lower_char(name[i]));
            assert(lower(p)[i] == lower(name)[i]);
            lemma_fold_is_lower(p[i]);
            lemma_fold_is_lower(name[i]);
        }
    }
    if p.len() == name.len() && forall|i: int| 0 <= i < name.len() ==> fold_ascii(#[trigger] p[i]) == fold_ascii(
        name[i],
    ) {
        assert forall|i: int| 0 <= i < name.len() implies #[trigger] lower(p)[i] == lower(name)[i] by {
            lemma_fold_is_lower(p[i]);
            lemma_fold_is_lower(name[i]);
        }
        assert(lower(p) =~= lower(name));
    }
}

/// A string hits a string table entry exactly when the entry's pattern
/// occurs somewhere in the string with its ASCII letters lower-cased.
pub proof fn law_string_hit_is_lowercase_search(e: MapEntry, value: Seq<char>)
    ensures
        string_hit(e, value) <==> exists|i: int|
            0 <= i && i + e.0@.len() <= value.len() && #[trigger] occurs_folded(value, e.0@, i),
{
    let p = e.0@;
    let l = lower(value);
    if string_hit(e, value) {
        let i = choose|i: int| crate::text::occurs_at(l, p, i);
        assert forall|j: int| 0 <= j < p.len() implies #[trigger] fold_ascii(value[i + j]) == p[j] by {
            assert(l.subrange(i, i + p.len())[j] == p[j]);
            lemma_fold_is_lower(value[i + j]);
        }
        assert(occurs_folded(value, p, i));
    }
    if exists|i: int| 0 <= i && i + p.len() <= value.len() && #[trigger] occurs_folded(value, p, i) {
        let i = choose|i: int| 0 <= i && i + p.len() <= value.len() && #[trigger] occurs_folded(value, p, i);
        assert forall|j: int| 0 <= j < p.len() implies #[trigger] l.subrange(i, i + p.len())[j] == p[j] by {
            lemma_fold_is_lower(value[i + j]);
            assert(fold_ascii(value[i + j]) == p[j]);
        }
        assert(l.subrange(i, i + p.len()) =~= p);
        assert(crate::text::occurs_at(l, p, i));
    }
}

/// Whether `p` occurs at `i` in `v` with `v`'s ASCII letters lower-cased.
pub open spec fn occurs_folded(v: Seq<char>, p: Seq<char>, i: int) -> bool {
    forall|j: int| 0 <= j < p.len() ==> #[trigger] fold_ascii(v[i + j]) == p[j]
}

/// The evidence of a string match is the whole string when it has at most
/// 120 characters; otherwise its first 120 characters and an ellipsis.
pub proof fn law_string_evidence(value: Seq<char>)
    ensures
        value.len() <= 120 ==> spec_truncate_evidence(value) == value,
        value.len() > 120 ==> spec_truncate_evidence(value).len() == 121 && spec_truncate_evidence(value)[120]
            == '\u{2026}' && forall|i: int|
            0 <= i < 120 ==> #[trigger] spec_truncate_evidence(value)[i] == value[i],
{
}

proof fn lemma_cand_reported(imps: Seq<ImportView>, hits: Seq<HitSpec>, insns: Seq<InsnView>, c: CapView)
    requires
        anti_cands(insns).contains(c),
        spec_caps(imps, hits, insns).len() < MAX_CAPABILITIES,
    ensures
        exists|k: int|
            0 <= k < spec_caps(imps, hits, insns).len() && #[trigger] spec_caps(imps, hits, insns)[k].rule
                == c.rule && spec_caps(imps, hits, insns)[k].evidence == c.evidence,
{
    let ic = import_cands(imps, imps.len() as int);
    let sc = string_cands(hits, hits.len() as int);
    let ac = anti_cands(insns);
    let cands = ic + sc + ac;
    let m = choose|m: int| 0 <= m < ac.len() && ac[m] == c;
    assert(cands[ic.len() + sc.len() + m] == c);
    lemma_dedup_keeps_keys(cands, c);
    let d = dedup(cands);
    let k = choose|k: int| 0 <= k < d.len() && #[trigger] d[k].rule == c.rule && d[k].evidence == c.evidence;
    assert(spec_caps(imps, hits, insns) == take_at_most(d, MAX_CAPABILITIES as int));
    assert(d.len() < MAX_CAPABILITIES);
    assert(spec_caps(imps, hits, insns)[k] == d[k]);
}

/// The anti-analysis rows are reported whenever their instructions occur:
/// while the row cap is not reached, an `rdtsc` or `rdtscp` row gives the
/// `antivm:rdtsc_timing` row, a `cpuid` row the `antivm:cpuid_check` row, an
/// `int3` row the `antidbg:int3` row and an `int 0x2d` row the
/// `antidbg:int_0x2d` row.
pub proof fn law_anti_analysis_rows_reported(imps: Seq<ImportView>, hits: Seq<HitSpec>, insns: Seq<InsnView>)
    requires
        spec_caps(imps, hits, insns).len() < MAX_CAPABILITIES,
    ensures
        saw_mnemonic(insns, "rdtsc"@) || saw_mnemonic(insns, "rdtscp"@) ==> exists|k: int|
            0 <= k < spec_caps(imps, hits, insns).len() && #[trigger] spec_caps(imps, hits, insns)[k].rule
                == "antivm:rdtsc_timing"@,
        saw_mnemonic(insns, "cpuid"@) ==> exists|k: int|
            0 <= k < spec_caps(imps, hits, insns).len() && #[trigger] spec_caps(imps, hits, insns)[k].rule
                == "antivm:cpuid_check"@,
        saw_mnemonic(insns, "int3"@) ==> exists|k: int|
            0 <= k < spec_caps(imps, hits, insns).len() && #[trigger] spec_caps(imps, hits, insns)[k].rule
                == "antidbg:int3"@,
        saw_int_2d(insns) ==> exists|k: int|
            0 <= k < spec_caps(imps, hits, insns).len() && #[trigger] spec_caps(imps, hits, insns)[k].rule
                == "antidbg:int_0x2d"@,
{
    let ac = anti_cands(insns);
    let ra = fixed_cap("antivm:rdtsc_timing"@, "T1497"@, "Virtualization/Sandbox Evasion"@, "low"@, "rdtsc"@);
    let rb = fixed_cap("antivm:cpuid_check"@, "T1497.001"@, "Virtualization/Sandbox Evasion: System Checks"@, "low"@, "cpuid"@);
    let rc = fixed_cap("antidbg:int3"@, "T1622"@, "Debugger Evasion"@, "low"@, "int3"@);
    let rd = fixed_cap("antidbg:int_0x2d"@, "T1622"@, "Debugger Evasion"@, "medium"@, "int 0x2d"@);
    let sa = saw_mnemonic(insns, "rdtsc"@) || saw_mnemonic(insns, "rdtscp"@);
    let sb = saw_mnemonic(insns, "cpuid"@);
    let sc = saw_mnemonic(insns, "int3"@);
    let sd = saw_int_2d(insns);
    let a: Seq<CapView> = if sa { seq![ra] } else { Seq::empty() };
    let b: Seq<CapView> = if sb { seq![rb] } else { Seq::empty() };
    let c: Seq<CapView> = if sc { seq![rc] } else { Seq::empty() };
    let d: Seq<CapView> = if sd { seq![rd] } else { Seq::empty() };
    assert(ac == a + b + c + d);
    if sa {
        assert(ac[0] == ra);
        lemma_cand_reported(imps, hits, insns, ra);
    }
    if sb {
        assert(ac[a.len() as int] == rb);
        lemma_cand_reported(imps, hits, insns, rb);
    }
    if sc {
        assert(ac[(a.len() + b.len()) as int] == rc);
        lemma_cand_reported(imps, hits, insns, rc);
    }
    if sd {
        assert(ac[(a.len() + b.len() + c.len()) as int] == rd);
        lemma_cand_reported(imps, hits, insns, rd);
    }
}

/// Whether `c` is the row of some API table entry (with its own evidence).
pub open spec fn from_api_table(c: CapView) -> bool {
    exists|j: int| 0 <= j < API_MAP@.len() && #[trigger] entry_cap(API_MAP@[j], c.evidence) == c
}

/// Whether `c` is the row of some string table entry (with its own
/// evidence).
pub open spec fn from_string_table(c: CapView) -> bool {
    exists|j: int| 0 <= j < STRING_MAP@.len() && #[trigger] entry_cap(STRING_MAP@[j], c.evidence) == c
}

/// Whether `c` is one of the four anti-analysis rows, and the instruction
/// that gives it occurs in `insns`.
pub open spec fn anti_origin(c: CapView, insns: Seq<InsnView>) -> bool {
    ||| (saw_mnemonic(insns, "rdtsc"@) || saw_mnemonic(insns, "rdtscp"@)) && c == fixed_cap(
        "antivm:rdtsc_timing"@,
        "T1497"@,
        "Virtualization/Sandbox Evasion"@,
        "low"@,
        "rdtsc"@,
    )
    ||| saw_mnemonic(insns, "cpuid"@) && c == fixed_cap(
        "antivm:cpuid_check"@,
        "T1497.001"@,
        "Virtualization/Sandbox Evasion: System Checks"@,
        "low"@,
        "cpuid"@,
    )
    ||| saw_mnemonic(insns, "int3"@) && c == fixed_cap("antidbg:int3"@, "T1622"@, "Debugger Evasion"@, "low"@, "int3"@)
    ||| saw_int_2d(insns) && c == fixed_cap(
        "antidbg:int_0x2d"@,
        "T1622"@,
        "Debugger Evasion"@,
        "medium"@,
        "int 0x2d"@,
    )
}

proof fn lemma_api_caps_origin(name: Seq<char>, n: int)
    requires
        n <= API_MAP@.len(),
    ensures
        forall|k: int| 0 <= k < api_caps(name, n).len() ==> from_api_table(#[trigger] api_caps(name, n)[k]),
    decreases n,
{
    if n > 0 {
        lemma_api_caps_origin(name, n - 1);
        let rest = api_caps(name, n - 1);
        if api_hit(API_MAP@[n - 1], name) {
            let c = entry_cap(API_MAP@[n - 1], name);
            assert(entry_cap(API_MAP@[n - 1], c.evidence) == c);
            assert forall|k: int| 0 <= k < api_caps(name, n).len() implies from_api_table(
                #[trigger] api_caps(name, n)[k],
            ) by {
                if k < rest.len() {
                    assert(api_caps(name, n)[k] == rest[k]);
                }
            }
        }
    }
}

proof fn lemma_string_caps_origin(value: Seq<char>, n: int)
    requires
        n <= STRING_MAP@.len(),
    ensures
        forall|k: int|
            0 <= k < string_caps(value, n).len() ==> from_string_table(#[trigger] string_caps(value, n)[k]),
    decreases n,
{
    if n > 0 {
        lemma_string_caps_origin(value, n - 1);
        let rest = string_caps(value, n - 1);
        if string_hit(STRING_MAP@[n - 1], value) {
            let c = entry_cap(STRING_MAP@[n - 1], spec_truncate_evidence(value));
            assert(entry_cap(STRING_MAP@[n - 1], c.evidence) == c);
            assert forall|k: int| 0 <= k < string_caps(value, n).len() implies from_string_table(
                #[trigger] string_caps(value, n)[k],
            ) by {
                if k < rest.len() {
                    assert(string_caps(value, n)[k] == rest[k]);
                }
            }
        }
    }
}

proof fn lemma_import_cands_origin(imps: Seq<ImportView>, n: int)
    requires
        n <= imps.len(),
    ensures
        forall|k: int|
            0 <= k < import_cands(imps, n).len() ==> from_api_table(#[trigger] import_cands(imps, n)[k]),
    decreases n,
{
    if n > 0 {
        lemma_import_cands_origin(imps, n - 1);
        let a = import_cands(imps, n - 1);
        let b = match imps[n - 1].name {
            Some(name) => api_caps(name, API_MAP@.len() as int),
            None => Seq::empty(),
        };
        if let Some(name) = imps[n - 1].name {
            lemma_api_caps_origin(name, API_MAP@.len() as int);
        }
        assert(import_cands(imps, n) == a + b);
        assert forall|k: int| 0 <= k < (a + b).len() implies from_api_table(#[trigger] (a + b)[k]) by {
            if k < a.len() {
                assert((a + b)[k] == a[k]);
            } else {
                assert((a + b)[k] == b[k - a.len()]);
            }
        }
    }
}

proof fn lemma_string_cands_origin(hits: Seq<HitSpec>, n: int)
    requires
        n <= hits.len(),
    ensures
        forall|k: int|
            0 <= k < string_cands(hits, n).len() ==> from_string_table(#[trigger] string_cands(hits, n)[k]),
    decreases n,
{
    if n > 0 {
        lemma_string_cands_origin(hits, n - 1);
        let a = string_cands(hits, n - 1);
        let b = string_caps(hits[n - 1].value, STRING_MAP@.len() as int);
        lemma_string_caps_origin(hits[n - 1].value, STRING_MAP@.len() as int);
        assert(string_cands(hits, n) == a + b);
        assert forall|k: int| 0 <= k < (a + b).len() implies from_string_table(#[trigger] (a + b)[k]) by {
            if k < a.len() {
                assert((a + b)[k] == a[k]);
            } else {
                assert((a + b)[k] == b[k - a.len()]);
            }
        }
    }
}

proof fn lemma_dedup_subset(c: Seq<CapView>)
    ensures
        forall|k: int| 0 <= k < dedup(c).len() ==> c.contains(#[trigger] dedup(c)[k]),
    decreases c.len(),
{
    if c.len() > 0 {
        let init = c.drop_last();
        lemma_dedup_subset(init);
        let rest = dedup(init);
        assert forall|k: int| 0 <= k < dedup(c).len() implies c.contains(#[trigger] dedup(c)[k]) by {
            if k < rest.len() {
                assert(dedup(c)[k] == rest[k]);
                let m = choose|m: int| 0 <= m < init.len() && init[m] == rest[k];
                assert(c[m] == init[m]);
            } else {
                assert(dedup(c)[k] == c.last());
                assert(c[c.len() - 1] == c.last());
            }
        }
    }
}

/// Every capability row has an origin: it is the row of an API table entry
/// (an import matched it), the row of a string table entry (a string matched
/// it), or one of the four anti-analysis rows, present only when its
/// instruction occurs in the rows given.
pub proof fn law_capability_rows_have_an_origin(imps: Seq<ImportView>, hits: Seq<HitSpec>, insns: Seq<InsnView>)
    ensures
        forall|k: int|
            0 <= k < spec_caps(imps, hits, insns).len() ==> {
                let c = #[trigger] spec_caps(imps, hits, insns)[k];
                from_api_table(c) || from_string_table(c) || anti_origin(c, insns)
            },
{
    let ic = import_cands(imps, imps.len() as int);
    let sc = string_cands(hits, hits.len() as int);
    let ac = anti_cands(insns);
    let cands = ic + sc + ac;
    lemma_import_cands_origin(imps, imps.len() as int);
    lemma_string_cands_origin(hits, hits.len() as int);
    lemma_dedup_subset(cands);
    let d = dedup(cands);
    assert forall|k: int| 0 <= k < spec_caps(imps, hits, insns).len() implies {
        let c = #[trigger] spec_caps(imps, hits, insns)[k];
        from_api_table(c) || from_string_table(c) || anti_origin(c, insns)
    } by {
        assert(spec_caps(imps, hits, insns)[k] == d[k]);
        let c = d[k];
        let m = choose|m: int| 0 <= m < cands.len() && cands[m] == c;
        if m < ic.len() {
            assert(cands[m] == ic[m]);
        } else if m < ic.len() + sc.len() {
            assert(cands[m] == sc[m - ic.len()]);
        } else {
            assert(cands[m] == ac[m - ic.len() - sc.len()]);
        }
    }
}

/// Whether `r` is the rule of one of the four anti-analysis rows.
pub open spec fn is_anti_rule(r: Seq<char>) -> bool {
    r == "antivm:rdtsc_timing"@ || r == "antivm:cpuid_check"@ || r == "antidbg:int3"@ || r
        == "antidbg:int_0x2d"@
}

/// No table entry carries an anti-analysis rule, and the four anti-analysis
/// rules differ.
proof fn lemma_tables_avoid_anti_rules()
    ensures
        forall|j: int| 0 <= j < API_MAP@.len() ==> !is_anti_rule(#[trigger] API_MAP@[j].1@),
        forall|j: int| 0 <= j < STRING_MAP@.len() ==> !is_anti_rule(#[trigger] STRING_MAP@[j].1@),
        "antivm:rdtsc_timing"@ != "antivm:cpuid_check"@,
        "antivm:rdtsc_timing"@ != "antidbg:int3"@,
        "antivm:rdtsc_timing"@ != "antidbg:int_0x2d"@,
        "antivm:cpuid_check"@ != "antidbg:int3"@,
        "antivm:cpuid_check"@ != "antidbg:int_0x2d"@,
        "antidbg:int3"@ != "antidbg:int_0x2d"@,
{
    assert("antivm:rdtsc_timing"@.len() == 19) by {
        reveal_strlit("antivm:rdtsc_timing");
    }
    assert("antivm:cpuid_check"@.len() == 18) by {
        reveal_strlit("antivm:cpuid_check");
    }
    assert("antidbg:int3"@.len() == 12) by {
        reveal_strlit("antidbg:int3");
    }
    assert("antidbg:int_0x2d"@.len() == 16) by {
        reveal_strlit("antidbg:int_0x2d");
    }
    assert(!is_anti_rule(API_MAP@[0].1@)) by {
        reveal_strlit("inject:VirtualAllocEx");
        assert(API_MAP@[0].1@ == "inject:VirtualAllocEx"@);
        assert("inject:VirtualAllocEx"@.len() == 21);
    }
    assert(!is_anti_rule(API_MAP@[1].1@)) by {
        reveal_strlit("inject:WriteProcessMemory");
        assert(API_MAP@[1].1@ == "inject:WriteProcessMemory"@);
        assert("inject:WriteProcessMemory"@.len() == 25);
    }
    assert(!is_anti_rule(API_MAP@[2].1@)) by {
        reveal_strlit("inject:CreateRemoteThread");
        assert(API_MAP@[2].1@ == "inject:CreateRemoteThread"@);
        assert("inject:CreateRemoteThread"@.len() == 25);
    }
    assert(!is_anti_rule(API_MAP@[3].1@)) by {
        reveal_strlit("inject:NtCreateThreadEx");
        assert(API_MAP@[3].1@ == "inject:NtCreateThreadEx"@);
        assert("inject:NtCreateThreadEx"@.len() == 23);
    }
    assert(!is_anti_rule(API_MAP@[4].1@)) by {
        reveal_strlit("inject:QueueUserAPC");
        assert(API_MAP@[4].1@ == "inject:QueueUserAPC"@);
        assert("inject:QueueUserAPC"@.len() == 19);
        reveal_strlit("antivm:rdtsc_timing");
        assert("inject:QueueUserAPC"@[0] != "antivm:rdtsc_timing"@[0]);
    }
    assert(!is_anti_rule(API_MAP@[5].1@)) by {
        reveal_strlit("inject:RtlCreateUserThread");
        assert(API_MAP@[5].1@ == "inject:RtlCreateUserThread"@);
        assert("inject:RtlCreateUserThread"@.len() == 26);
    }
    assert(!is_anti_rule(API_MAP@[6].1@)) by {
        reveal_strlit("inject:VirtualProtect");
        assert(API_MAP@[6].1@ == "inject:VirtualProtect"@);
        assert("inject:VirtualProtect"@.len() == 21);
    }
    assert(!is_anti_rule(API_MAP@[7].1@)) by {
        reveal_strlit("inject:VirtualProtectEx");
        assert(API_MAP@[7].1@ == "inject:VirtualProtectEx"@);
        assert("inject:VirtualProtectEx"@.len() == 23);
    }
    assert(!is_anti_rule(API_MAP@[8].1@)) by {
        reveal_strlit("inject:SetThreadContext");
        assert(API_MAP@[8].1@ == "inject:SetThreadContext"@);
        assert("inject:SetThreadContext"@.len() == 23);
    }
    assert(!is_anti_rule(API_MAP@[9].1@)) by {
        reveal_strlit("persist:RegSetValueEx");
        assert(API_MAP@[9].1@ == "persist:RegSetValueEx"@);
        assert("persist:RegSetValueEx"@.len() == 21);
    }
    assert(!is_anti_rule(API_MAP@[10].1@)) by {
        reveal_strlit("persist:RegSetValueEx");
        assert(API_MAP@[10].1@ == "persist:RegSetValueEx"@);
        assert("persist:RegSetValueEx"@.len() == 21);
    }
    assert(!is_anti_rule(API_MAP@[11].1@)) by {
        reveal_strlit("persist:RegCreateKeyEx");
        assert(API_MAP@[11].1@ == "persist:RegCreateKeyEx"@);
        assert("persist:RegCreateKeyEx"@.len() == 22);
    }
    assert(!is_anti_rule(API_MAP@[12].1@)) by {
        reveal_strlit("persist:RegCreateKeyEx");
        assert(API_MAP@[12].1@ == "persist:RegCreateKeyEx"@);
        assert("persist:RegCreateKeyEx"@.len() == 22);
    }
    assert(!is_anti_rule(API_MAP@[13].1@)) by {
        reveal_strlit("net:InternetOpenUrl");
        assert(API_MAP@[13].1@ == "net:InternetOpenUrl"@);
        assert("net:InternetOpenUrl"@.len() == 19);
        reveal_strlit("antivm:rdtsc_timing");
        assert("net:InternetOpenUrl"@[0] != "antivm:rdtsc_timing"@[0]);
    }
    assert(!is_anti_rule(API_MAP@[14].1@)) by {
        reveal_strlit("net:InternetOpenUrl");
        assert(API_MAP@[14].1@ == "net:InternetOpenUrl"@);
        assert("net:InternetOpenUrl"@.len() == 19);
        reveal_strlit("antivm:rdtsc_timing");
        assert("net:InternetOpenUrl"@[0] != "antivm:rdtsc_timing"@[0]);
    }
    assert(!is_anti_rule(API_MAP@[15].1@)) by {
        reveal_strlit("net:InternetConnect");
        assert(API_MAP@[15].1@ == "net:InternetConnect"@);
        assert("net:InternetConnect"@.len() == 19);
        reveal_strlit("antivm:rdtsc_timing");
        assert("net:InternetConnect"@[0] != "antivm:rdtsc_timing"@[0]);
    }
    assert(!is_anti_rule(API_MAP@[16].1@)) by {
        reveal_strlit("net:InternetConnect");
        assert(API_MAP@[16].1@ == "net:InternetConnect"@);
        assert("net:InternetConnect"@.len() == 19);
        reveal_strlit("antivm:rdtsc_timing");
        assert("net:InternetConnect"@[0] != "antivm:rdtsc_timing"@[0]);
    }
    assert(!is_anti_rule(API_MAP@[17].1@)) by {
        reveal_strlit("net:WinHttpOpen");
        assert(API_MAP@[17].1@ == "net:WinHttpOpen"@);
        assert("net:WinHttpOpen"@.len() == 15);
    }
    assert(!is_anti_rule(API_MAP@[18].1@)) by {
        reveal_strlit("net:WinHttpConnect");
        assert(API_MAP@[18].1@ == "net:WinHttpConnect"@);
        assert("net:WinHttpConnect"@.len() == 18);
        reveal_strlit("antivm:cpuid_check");
        assert("net:WinHttpConnect"@[0] != "antivm:cpuid_check"@[0]);
    }
    assert(!is_anti_rule(API_MAP@[19].1@)) by {
        reveal_strlit("net:URLDownloadToFile");
        assert(API_MAP@[19].1@ == "net:URLDownloadToFile"@);
        assert("net:URLDownloadToFile"@.len() == 21);
    }
    assert(!is_anti_rule(API_MAP@[20].1@)) by {
        reveal_strlit("net:URLDownloadToFile");
        assert(API_MAP@[20].1@ == "net:URLDownloadToFile"@);
        assert("net:URLDownloadToFile"@.len() == 21);
    }
    assert(!is_anti_rule(API_MAP@[21].1@)) by {
        reveal_strlit("net:socket");
        assert(API_MAP@[21].1@ == "net:socket"@);
        assert("net:socket"@.len() == 10);
    }
    assert(!is_anti_rule(API_MAP@[22].1@)) by {
        reveal_strlit("net:connect");
        assert(API_MAP@[22].1@ == "net:connect"@);
        assert("net:connect"@.len() == 11);
    }
    assert(!is_anti_rule(API_MAP@[23].1@)) by {
        reveal_strlit("net:WSAStartup");
        assert(API_MAP@[23].1@ == "net:WSAStartup"@);
        assert("net:WSAStartup"@.len() == 14);
    }
    assert(!is_anti_rule(API_MAP@[24].1@)) by {
        reveal_strlit("crypto:CryptEncrypt");
        assert(API_MAP@[24].1@ == "crypto:CryptEncrypt"@);
        assert("crypto:CryptEncrypt"@.len() == 19);
        reveal_strlit("antivm:rdtsc_timing");
        assert("crypto:CryptEncrypt"@[0] != "antivm:rdtsc_timing"@[0]);
    }
    assert(!is_anti_rule(API_MAP@[25].1@)) by {
        reveal_strlit("crypto:BCryptEncrypt");
        assert(API_MAP@[25].1@ == "crypto:BCryptEncrypt"@);
        assert("crypto:BCryptEncrypt"@.len() == 20);
    }
    assert(!is_anti_rule(API_MAP@[26].1@)) by {
        reveal_strlit("crypto:CryptAcquireContext");
        assert(API_MAP@[26].1@ == "crypto:CryptAcquireContext"@);
        assert("crypto:CryptAcquireContext"@.len() == 26);
    }
    assert(!is_anti_rule(API_MAP@[27].1@)) by {
        reveal_strlit("crypto:CryptAcquireContext");
        assert(API_MAP@[27].1@ == "crypto:CryptAcquireContext"@);
        assert("crypto:CryptAcquireContext"@.len() == 26);
    }
    assert(!is_anti_rule(API_MAP@[28].1@)) by {
        reveal_strlit("antidbg:IsDebuggerPresent");
        assert(API_MAP@[28].1@ == "antidbg:IsDebuggerPresent"@);
        assert("antidbg:IsDebuggerPresent"@.len() == 25);
    }
    assert(!is_anti_rule(API_MAP@[29].1@)) by {
        reveal_strlit("antidbg:CheckRemoteDebuggerPresent");
        assert(API_MAP@[29].1@ == "antidbg:CheckRemoteDebuggerPresent"@);
        assert("antidbg:CheckRemoteDebuggerPresent"@.len() == 34);
    }
    assert(!is_anti_rule(API_MAP@[30].1@)) by {
        reveal_strlit("antidbg:NtQueryInformationProcess");
        assert(API_MAP@[30].1@ == "antidbg:NtQueryInformationProcess"@);
        assert("antidbg:NtQueryInformationProcess"@.len() == 33);
    }
    assert(!is_anti_rule(API_MAP@[31].1@)) by {
        reveal_strlit("token:AdjustTokenPrivileges");
        assert(API_MAP@[31].1@ == "token:AdjustTokenPrivileges"@);
        assert("token:AdjustTokenPrivileges"@.len() == 27);
    }
    assert(!is_anti_rule(API_MAP@[32].1@)) by {
        reveal_strlit("token:OpenProcessToken");
        assert(API_MAP@[32].1@ == "token:OpenProcessToken"@);
        assert("token:OpenProcessToken"@.len() == 22);
    }
    assert(!is_anti_rule(API_MAP@[33].1@)) by {
        reveal_strlit("token:LookupPrivilegeValue");
        assert(API_MAP@[33].1@ == "token:LookupPrivilegeValue"@);
        assert("token:LookupPrivilegeValue"@.len() == 26);
    }
    assert(!is_anti_rule(API_MAP@[34].1@)) by {
        reveal_strlit("token:LookupPrivilegeValue");
        assert(API_MAP@[34].1@ == "token:LookupPrivilegeValue"@);
        assert("token:LookupPrivilegeValue"@.len() == 26);
    }
    assert(!is_anti_rule(API_MAP@[35].1@)) by {
        reveal_strlit("keylog:SetWindowsHookEx");
        assert(API_MAP@[35].1@ == "keylog:SetWindowsHookEx"@);
        assert("keylog:SetWindowsHookEx"@.len() == 23);
    }
    assert(!is_anti_rule(API_MAP@[36].1@)) by {
        reveal_strlit("keylog:SetWindowsHookEx");
        assert(API_MAP@[36].1@ == "keylog:SetWindowsHookEx"@);
        assert("keylog:SetWindowsHookEx"@.len() == 23);
    }
    assert(!is_anti_rule(API_MAP@[37].1@)) by {
        reveal_strlit("keylog:GetAsyncKeyState");
        assert(API_MAP@[37].1@ == "keylog:GetAsyncKeyState"@);
        assert("keylog:GetAsyncKeyState"@.len() == 23);
    }
    assert(!is_anti_rule(API_MAP@[38].1@)) by {
        reveal_strlit("keylog:GetKeyState");
        assert(API_MAP@[38].1@ == "keylog:GetKeyState"@);
        assert("keylog:GetKeyState"@.len() == 18);
        reveal_strlit("antivm:cpuid_check");
        assert("keylog:GetKeyState"@[0] != "antivm:cpuid_check"@[0]);
    }
    assert(!is_anti_rule(API_MAP@[39].1@)) by {
        reveal_strlit("exec:ShellExecute");
        assert(API_MAP@[39].1@ == "exec:ShellExecute"@);
        assert("exec:ShellExecute"@.len() == 17);
    }
    assert(!is_anti_rule(API_MAP@[40].1@)) by {
        reveal_strlit("exec:ShellExecute");
        assert(API_MAP@[40].1@ == "exec:ShellExecute"@);
        assert("exec:ShellExecute"@.len() == 17);
    }
    assert(!is_anti_rule(API_MAP@[41].1@)) by {
        reveal_strlit("exec:WinExec");
        assert(API_MAP@[41].1@ == "exec:WinExec"@);
        assert("exec:WinExec"@.len() == 12);
        reveal_strlit("antidbg:int3");
        assert("exec:WinExec"@[0] != "antidbg:int3"@[0]);
    }
    assert(!is_anti_rule(API_MAP@[42].1@)) by {
        reveal_strlit("exec:CreateProcess");
        assert(API_MAP@[42].1@ == "exec:CreateProcess"@);
        assert("exec:CreateProcess"@.len() == 18);
        reveal_strlit("antivm:cpuid_check");
        assert("exec:CreateProcess"@[0] != "antivm:cpuid_check"@[0]);
    }
    assert(!is_anti_rule(API_MAP@[43].1@)) by {
        reveal_strlit("exec:CreateProcess");
        assert(API_MAP@[43].1@ == "exec:CreateProcess"@);
        assert("exec:CreateProcess"@.len() == 18);
        reveal_strlit("antivm:cpuid_check");
        assert("exec:CreateProcess"@[0] != "antivm:cpuid_check"@[0]);
    }
    assert(!is_anti_rule(API_MAP@[44].1@)) by {
        reveal_strlit("loader:LoadLibrary");
        assert(API_MAP@[44].1@ == "loader:LoadLibrary"@);
        assert("loader:LoadLibrary"@.len() == 18);
        reveal_strlit("antivm:cpuid_check");
        assert("loader:LoadLibrary"@[0] != "antivm:cpuid_check"@[0]);
    }
    assert(!is_anti_rule(API_MAP@[45].1@)) by {
        reveal_strlit("loader:LoadLibrary");
        assert(API_MAP@[45].1@ == "loader:LoadLibrary"@);
        assert("loader:LoadLibrary"@.len() == 18);
        reveal_strlit("antivm:cpuid_check");
        assert("loader:LoadLibrary"@[0] != "antivm:cpuid_check"@[0]);
    }
    assert(!is_anti_rule(API_MAP@[46].1@)) by {
        reveal_strlit("loader:GetProcAddress");
        assert(API_MAP@[46].1@ == "loader:GetProcAddress"@);
        assert("loader:GetProcAddress"@.len() == 21);
    }
    assert(!is_anti_rule(API_MAP@[47].1@)) by {
        reveal_strlit("antivm:GetTickCount");
        assert(API_MAP@[47].1@ == "antivm:GetTickCount"@);
        assert("antivm:GetTickCount"@.len() == 19);
        reveal_strlit("antivm:rdtsc_timing");
        assert("antivm:GetTickCount"@[7] != "antivm:rdtsc_timing"@[7]);
    }
    assert(!is_anti_rule(API_MAP@[48].1@)) by {
        reveal_strlit("discover:FindFirstFile");
        assert(API_MAP@[48].1@ == "discover:FindFirstFile"@);
        assert("discover:FindFirstFile"@.len() == 22);
    }
    assert(!is_anti_rule(API_MAP@[49].1@)) by {
        reveal_strlit("discover:FindFirstFile");
        assert(API_MAP@[49].1@ == "discover:FindFirstFile"@);
        assert("discover:FindFirstFile"@.len() == 22);
    }
    assert(!is_anti_rule(API_MAP@[50].1@)) by {
        reveal_strlit("persist:CreateService");
        assert(API_MAP@[50].1@ == "persist:CreateService"@);
        assert("persist:CreateService"@.len() == 21);
    }
    assert(!is_anti_rule(API_MAP@[51].1@)) by {
        reveal_strlit("persist:CreateService");
        assert(API_MAP@[51].1@ == "persist:CreateService"@);
        assert("persist:CreateService"@.len() == 21);
    }
    assert(!is_anti_rule(STRING_MAP@[0].1@)) by {
        reveal_strlit("exec:powershell");
        assert(STRING_MAP@[0].1@ == "exec:powershell"@);
        assert("exec:powershell"@.len() == 15);
    }
    assert(!is_anti_rule(STRING_MAP@[1].1@)) by {
        reveal_strlit("exec:powershell_enc");
        assert(STRING_MAP@[1].1@ == "exec:powershell_enc"@);
        assert("exec:powershell_enc"@.len() == 19);
        reveal_strlit("antivm:rdtsc_timing");
        assert("exec:powershell_enc"@[0] != "antivm:rdtsc_timing"@[0]);
    }
    assert(!is_anti_rule(STRING_MAP@[2].1@)) by {
        reveal_strlit("exec:powershell_enc");
        assert(STRING_MAP@[2].1@ == "exec:powershell_enc"@);
        assert("exec:powershell_enc"@.len() == 19);
        reveal_strlit("antivm:rdtsc_timing");
        assert("exec:powershell_enc"@[0] != "antivm:rdtsc_timing"@[0]);
    }
    assert(!is_anti_rule(STRING_MAP@[3].1@)) by {
        reveal_strlit("exec:cmd");
        assert(STRING_MAP@[3].1@ == "exec:cmd"@);
        assert("exec:cmd"@.len() == 8);
    }
    assert(!is_anti_rule(STRING_MAP@[4].1@)) by {
        reveal_strlit("exec:cmd");
        assert(STRING_MAP@[4].1@ == "exec:cmd"@);
        assert("exec:cmd"@.len() == 8);
    }
    assert(!is_anti_rule(STRING_MAP@[5].1@)) by {
        reveal_strlit("persist:schtasks");
        assert(STRING_MAP@[5].1@ == "persist:schtasks"@);
        assert("persist:schtasks"@.len() == 16);
        reveal_strlit("antidbg:int_0x2d");
        assert("persist:schtasks"@[0] != "antidbg:int_0x2d"@[0]);
    }
    assert(!is_anti_rule(STRING_MAP@[6].1@)) by {
        reveal_strlit("persist:run_key");
        assert(STRING_MAP@[6].1@ == "persist:run_key"@);
        assert("persist:run_key"@.len() == 15);
    }
    assert(!is_anti_rule(STRING_MAP@[7].1@)) by {
        reveal_strlit("ipc:named_pipe");
        assert(STRING_MAP@[7].1@ == "ipc:named_pipe"@);
        assert("ipc:named_pipe"@.len() == 14);
    }
    assert(!is_anti_rule(STRING_MAP@[8].1@)) by {
        reveal_strlit("net:url");
        assert(STRING_MAP@[8].1@ == "net:url"@);
        assert("net:url"@.len() == 7);
    }
    assert(!is_anti_rule(STRING_MAP@[9].1@)) by {
        reveal_strlit("net:url");
        assert(STRING_MAP@[9].1@ == "net:url"@);
        assert("net:url"@.len() == 7);
    }
    assert(!is_anti_rule(STRING_MAP@[10].1@)) by {
        reveal_strlit("net:tor");
        assert(STRING_MAP@[10].1@ == "net:tor"@);
        assert("net:tor"@.len() == 7);
    }
    assert(!is_anti_rule(STRING_MAP@[11].1@)) by {
        reveal_strlit("ransom:note");
        assert(STRING_MAP@[11].1@ == "ransom:note"@);
        assert("ransom:note"@.len() == 11);
    }
    assert(!is_anti_rule(STRING_MAP@[12].1@)) by {
        reveal_strlit("antivm:vmware");
        assert(STRING_MAP@[12].1@ == "antivm:vmware"@);
        assert("antivm:vmware"@.len() == 13);
    }
    assert(!is_anti_rule(STRING_MAP@[13].1@)) by {
        reveal_strlit("antivm:virtualbox");
        assert(STRING_MAP@[13].1@ == "antivm:virtualbox"@);
        assert("antivm:virtualbox"@.len() == 17);
    }
    assert(!is_anti_rule(STRING_MAP@[14].1@)) by {
        reveal_strlit("antivm:vboxservice");
        assert(STRING_MAP@[14].1@ == "antivm:vboxservice"@);
        assert("antivm:vboxservice"@.len() == 18);
        reveal_strlit("antivm:cpuid_check");
        assert("antivm:vboxservice"@[7] != "antivm:cpuid_check"@[7]);
    }
    assert(!is_anti_rule(STRING_MAP@[15].1@)) by {
        reveal_strlit("antivm:vmtoolsd");
        assert(STRING_MAP@[15].1@ == "antivm:vmtoolsd"@);
        assert("antivm:vmtoolsd"@.len() == 15);
    }
    assert(!is_anti_rule(STRING_MAP@[16].1@)) by {
        reveal_strlit("antivm:qemu");
        assert(STRING_MAP@[16].1@ == "antivm:qemu"@);
        assert("antivm:qemu"@.len() == 11);
    }
    assert(!is_anti_rule(STRING_MAP@[17].1@)) by {
        reveal_strlit("antivm:sandboxie");
        assert(STRING_MAP@[17].1@ == "antivm:sandboxie"@);
        assert("antivm:sandboxie"@.len() == 16);
        reveal_strlit("antidbg:int_0x2d");
        assert("antivm:sandboxie"@[4] != "antidbg:int_0x2d"@[4]);
    }
}

/// An anti-analysis row comes only from its instruction: while the row cap is
/// not reached, a row with the `antivm:rdtsc_timing` rule means an `rdtsc` or
/// `rdtscp` row occurs, `antivm:cpuid_check` a `cpuid` row, `antidbg:int3` an
/// `int3` row and `antidbg:int_0x2d` an `int 0x2d` row (the converse of
/// [`law_anti_analysis_rows_reported`]).
pub proof fn law_anti_analysis_rows_need_their_instructions(
    imps: Seq<ImportView>,
    hits: Seq<HitSpec>,
    insns: Seq<InsnView>,
)
    ensures
        forall|k: int|
            0 <= k < spec_caps(imps, hits, insns).len() ==> {
                let r = (#[trigger] spec_caps(imps, hits, insns)[k]).rule;
                &&& r == "antivm:rdtsc_timing"@ ==> saw_mnemonic(insns, "rdtsc"@) || saw_mnemonic(
                    insns,
                    "rdtscp"@,
                )
                &&& r == "antivm:cpuid_check"@ ==> saw_mnemonic(insns, "cpuid"@)
                &&& r == "antidbg:int3"@ ==> saw_mnemonic(insns, "int3"@)
                &&& r == "antidbg:int_0x2d"@ ==> saw_int_2d(insns)
            },
{
    law_capability_rows_have_an_origin(imps, hits, insns);
    lemma_tables_avoid_anti_rules();
    assert forall|k: int| 0 <= k < spec_caps(imps, hits, insns).len() implies {
        let r = (#[trigger] spec_caps(imps, hits, insns)[k]).rule;
        &&& r == "antivm:rdtsc_timing"@ ==> saw_mnemonic(insns, "rdtsc"@) || saw_mnemonic(insns, "rdtscp"@)
        &&& r == "antivm:cpuid_check"@ ==> saw_mnemonic(insns, "cpuid"@)
        &&& r == "antidbg:int3"@ ==> saw_mnemonic(insns, "int3"@)
        &&& r == "antidbg:int_0x2d"@ ==> saw_int_2d(insns)
    } by {
        let c = spec_caps(imps, hits, insns)[k];
        if from_api_table(c) {
            let j = choose|j: int| 0 <= j < API_MAP@.len() && #[trigger] entry_cap(API_MAP@[j], c.evidence) == c;
            assert(c.rule == API_MAP@[j].1@);
            assert(!is_anti_rule(API_MAP@[j].1@));
        } else if from_string_table(c) {
            let j = choose|j: int| 0 <= j < STRING_MAP@.len() && #[trigger] entry_cap(STRING_MAP@[j], c.evidence) == c;
            assert(c.rule == STRING_MAP@[j].1@);
            assert(!is_anti_rule(STRING_MAP@[j].1@));
        }
    }
}

} // verus!
