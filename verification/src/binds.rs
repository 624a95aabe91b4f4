//! A check of a Mach-O's dyld bind-opcode streams, made before goblin is
//! asked for the binary's imports.
//!
//! goblin's bind interpreter reads the streams named by the last
//! `LC_DYLD_INFO` / `LC_DYLD_INFO_ONLY` command: the non-lazy stream, then
//! the lazy one. Each bind record it emits indexes the segment table and the
//! dylib table by indices taken from the stream and adds the record's
//! segment offset to the segment's file offset and address unchecked; a
//! repeated bind repeats as often as the stream says. The check decodes the
//! streams the same way and accepts them only when every bind record is in
//! range, no such sum overflows, at most `MAX_BIND_RECORDS` records are bound,
//! and both streams decode to their end. A stream it does not accept yields
//! no imports.
//!
//! The record cap leaves out streams goblin would not return from: a single
//! `DO_BIND_ULEB_TIMES_SKIPPING_ULEB` may ask for up to 2^64 records, and
//! goblin materializes one import per record before it returns any. A
//! symbol name that is not UTF-8 needs no check: goblin reports it as an
//! error, which yields no imports as well.
use vstd::prelude::*;

use crate::objfile::{
    goblin_mach_bind_infos, goblin_mach_lib_count, goblin_segment_addrs, mach_command_bind_info,
    mach_command_count, mach_data, mach_data_bytes, mach_facts, mach_header, mach_lib_count,
    mach_segment_addrs, mach_segment_count, mach_source_ok, MachFile,
};

verus! {

/// At most this many bind records are accepted from a Mach-O's bind streams.
pub const MAX_BIND_RECORDS: u64 = 1_048_576;

/// What the bind interpreter reads besides the streams: each segment's
/// `(fileoff, vmaddr)`, the number of dylibs and the pointer size.
pub struct BindFacts {
    pub segs: Seq<(u64, u64)>,
    pub nlibs: nat,
    pub ptr: u64,
}

/// The bind record being assembled: segment index, segment offset and dylib
/// ordinal.
#[derive(Clone, Copy)]
pub struct BindState {
    pub seg_index: u8,
    pub seg_offset: u64,
    pub ordinal: u8,
}

/// The fresh record the interpreter starts with and returns to at `DONE`.
pub open spec fn fresh() -> BindState {
    BindState { seg_index: 0, seg_offset: 0, ordinal: 0 }
}

/// The ULEB128 number at `p + k` onwards, given the value `acc` of the `k`
/// bytes already read and the weight `mult` of the next one: its value and
/// total length, or `None` when it runs off `d` or a tenth byte is not 0 or 1.
pub open spec fn uleb_from(d: Seq<u8>, p: int, k: int, acc: u64, mult: u64) -> Option<(u64, int)>
    decreases 10 - k,
{
    if k < 0 || k >= 10 || p < 0 || p + k >= d.len() {
        None
    } else {
        let b = d[p + k];
        if k == 9 && b != 0u8 && b != 1u8 {
            None
        } else {
            let acc2 = acc.wrapping_add(((b & 0x7fu8) as u64).wrapping_mul(mult));
            if b & 0x80u8 == 0u8 {
                Some((acc2, k + 1))
            } else {
                uleb_from(d, p, k + 1, acc2, mult.wrapping_mul(128u64))
            }
        }
    }
}

/// The ULEB128 number at `p`: its value and length.
pub open spec fn uleb(d: Seq<u8>, p: int) -> Option<(u64, int)> {
    uleb_from(d, p, 0, 0, 1)
}

/// The length of the SLEB128 number at `p + k` onwards (`k` bytes read).
pub open spec fn sleb_from(d: Seq<u8>, p: int, k: int) -> Option<int>
    decreases 10 - k,
{
    if k < 0 || k >= 10 || p < 0 || p + k >= d.len() {
        None
    } else {
        let b = d[p + k];
        if k == 9 && b != 0u8 && b != 0x7fu8 {
            None
        } else if b & 0x80u8 == 0u8 {
            Some(k + 1)
        } else {
            sleb_from(d, p, k + 1)
        }
    }
}

/// The number of bytes before the first NUL at or after `p` (or before the
/// end of `d`).
pub open spec fn name_len(d: Seq<u8>, p: int) -> int
    decreases d.len() - p,
{
    if p < 0 || p >= d.len() || d[p] == 0u8 {
        0
    } else {
        1 + name_len(d, p + 1)
    }
}

/// Whether a bind record with state `st` indexes an existing segment and
/// dylib and its segment offset added to the segment's file offset and
/// address does not overflow.
pub open spec fn bind_ok(f: BindFacts, st: BindState) -> bool {
    &&& (st.seg_index as int) < f.segs.len()
    &&& (st.ordinal as int) < f.nlibs
    &&& f.segs[st.seg_index as int].0 + st.seg_offset <= u64::MAX
    &&& f.segs[st.seg_index as int].1 + st.seg_offset <= u64::MAX
}

/// `count` binds of `st`, the segment offset advancing by `step` after each:
/// the state after them, or `None` when one of them is not [`bind_ok`].
pub open spec fn times(f: BindFacts, st: BindState, count: nat, step: u64) -> Option<BindState>
    decreases count,
{
    if count == 0 {
        Some(st)
    } else if !bind_ok(f, st) {
        None
    } else {
        times(
            f,
            BindState { seg_offset: st.seg_offset.wrapping_add(step), ..st },
            (count - 1) as nat,
            step,
        )
    }
}

/// The state with a new segment offset.
pub open spec fn with_offset(st: BindState, o: u64) -> BindState {
    BindState { seg_offset: o, ..st }
}

/// One opcode at `off`: the offset, state and bind budget after it, or
/// `None` when the check does not accept it.
pub open spec fn bind_step(d: Seq<u8>, f: BindFacts, off: int, st: BindState, budget: u64) -> Option<
    (int, BindState, u64),
> {
    if off < 0 || off >= d.len() {
        None
    } else {
        let op = d[off];
        let hi = op & 0xf0u8;
        let imm = op & 0x0fu8;
        let p = off + 1;
        if hi == 0x00u8 {
            Some((p, fresh(), budget))
        } else if hi == 0x10u8 {
            Some((p, BindState { ordinal: imm, ..st }, budget))
        } else if hi == 0x20u8 {
            match uleb(d, p) {
                Some((v, n)) => Some((p + n, BindState { ordinal: v as u8, ..st }, budget)),
                None => None,
            }
        } else if hi == 0x40u8 {
            let l = name_len(d, p);
            if p > d.len() || p + l + 1 > usize::MAX {
                None
            } else {
                Some((p + l + 1, st, budget))
            }
        } else if hi == 0x60u8 {
            match sleb_from(d, p, 0) {
                Some(n) => Some((p + n, st, budget)),
                None => None,
            }
        } else if hi == 0x70u8 {
            match uleb(d, p) {
                Some((v, n)) => Some(
                    (p + n, BindState { seg_index: imm, seg_offset: v, ordinal: st.ordinal }, budget),
                ),
                None => None,
            }
        } else if hi == 0x80u8 {
            match uleb(d, p) {
                Some((v, n)) => Some((p + n, with_offset(st, st.seg_offset.wrapping_add(v)), budget)),
                None => None,
            }
        } else if hi == 0x90u8 {
            if budget < 1 || !bind_ok(f, st) {
                None
            } else {
                Some((p, with_offset(st, st.seg_offset.wrapping_add(f.ptr)), (budget - 1) as u64))
            }
        } else if hi == 0xa0u8 {
            if budget < 1 || !bind_ok(f, st) {
                None
            } else {
                match uleb(d, p) {
                    Some((v, n)) => Some(
                        (
                            p + n,
                            with_offset(st, st.seg_offset.wrapping_add(v).wrapping_add(f.ptr)),
                            (budget - 1) as u64,
                        ),
                    ),
                    None => None,
                }
            }
        } else if hi == 0xb0u8 {
            if budget < 1 || !bind_ok(f, st) {
                None
            } else {
                Some(
                    (
                        p,
                        with_offset(
                            st,
                            st.seg_offset.wrapping_add(((imm as u64) * f.ptr) as u64).wrapping_add(f.ptr),
                        ),
                        (budget - 1) as u64,
                    ),
                )
            }
        } else if hi == 0xc0u8 {
            match uleb(d, p) {
                Some((count, n1)) => match uleb(d, p + n1) {
                    Some((skip, n2)) => if skip + f.ptr > u64::MAX || count > budget {
                        None
                    } else {
                        match times(f, st, count as nat, (skip + f.ptr) as u64) {
                            Some(st2) => Some((p + n1 + n2, st2, (budget - count) as u64)),
                            None => None,
                        }
                    },
                    None => None,
                },
                None => None,
            }
        } else {
            Some((p, st, budget))
        }
    }
}

/// Decoding a stream from `off` to `end` with state `st` and `budget` binds
/// left: the budget left at its end, or `None` when the check does not
/// accept it.
pub open spec fn run(d: Seq<u8>, f: BindFacts, off: int, end: int, st: BindState, budget: u64) -> Option<
    u64,
>
    decreases (if off < end { end - off } else { 0 }),
{
    if off >= end {
        Some(budget)
    } else {
        match bind_step(d, f, off, st, budget) {
            Some((o2, st2, b2)) => if o2 <= off {
                None
            } else {
                run(d, f, o2, end, st2, b2)
            },
            None => None,
        }
    }
}

/// The end of a stream at `off` of `size` bytes (saturating).
pub open spec fn stream_end(off: u32, size: u32) -> int {
    if off + size > usize::MAX {
        usize::MAX as int
    } else {
        off + size
    }
}

/// Whether both streams of `(bind_off, bind_size, lazy_bind_off,
/// lazy_bind_size)` are accepted, the lazy one with the budget the non-lazy
/// one leaves.
pub open spec fn streams_clean(d: Seq<u8>, f: BindFacts, info: (u32, u32, u32, u32)) -> bool {
    match run(d, f, info.0 as int, stream_end(info.0, info.1), fresh(), MAX_BIND_RECORDS) {
        Some(b) => run(d, f, info.2 as int, stream_end(info.2, info.3), fresh(), b) is Some,
        None => false,
    }
}

/// The last `Some` of `infos`.
pub open spec fn last_bind_info(infos: Seq<Option<(u32, u32, u32, u32)>>) -> Option<(u32, u32, u32, u32)>
    decreases infos.len(),
{
    if infos.len() == 0 {
        None
    } else {
        match infos.last() {
            Some(x) => Some(x),
            None => last_bind_info(infos.drop_last()),
        }
    }
}

/// The facts the bind interpreter of a Mach-O source reads.
pub open spec fn mach_bind_facts(src: (Seq<u8>, bool)) -> BindFacts {
    BindFacts {
        segs: Seq::new(
            mach_facts(src).segment_count,
            |i: int| goblin_segment_addrs(src.0, src.1, i as usize),
        ),
        nlibs: goblin_mach_lib_count(src.0, src.1) as nat,
        ptr: if mach_facts(src).header.is_64 {
            8
        } else {
            4
        },
    }
}

/// Whether the bind streams of a Mach-O source are accepted (a binary with
/// no dyld info command has none, and is).
pub open spec fn mach_binds_clean(src: (Seq<u8>, bool)) -> bool {
    match last_bind_info(goblin_mach_bind_infos(src.0, src.1)) {
        Some(info) => streams_clean(mach_data(src), mach_bind_facts(src), info),
        None => true,
    }
}

fn read_uleb(d: &[u8], p: usize) -> (r: Option<(u64, usize)>)
    ensures
        match uleb(d@, p as int) {
            Some((v, n)) => r == Some((v, n as usize)) && 1 <= n <= 10 && p + n <= d.len(),
            None => r is None,
        },
{
    let mut k: usize = 0;
    let mut acc: u64 = 0;
    let mut mult: u64 = 1;
    while k < 10
        invariant
            k <= 10,
            uleb(d@, p as int) == uleb_from(d@, p as int, k as int, acc, mult),
        decreases 10 - k,
    {
        if k >= d.len() || p >= d.len() - k {
            return None;
        }
        let b = d[p + k];
        if k == 9 && b != 0 && b != 1 {
            return None;
        }
        acc = acc.wrapping_add(((b & 0x7f) as u64).wrapping_mul(mult));
        if b & 0x80 == 0 {
            return Some((acc, k + 1));
        }
        mult = mult.wrapping_mul(128);
        k = k + 1;
    }
    None
}

fn read_sleb_len(d: &[u8], p: usize) -> (r: Option<usize>)
    ensures
        match sleb_from(d@, p as int, 0) {
            Some(n) => r == Some(n as usize) && 1 <= n <= 10 && p + n <= d.len(),
            None => r is None,
        },
{
    let mut k: usize = 0;
    while k < 10
        invariant
            k <= 10,
            sleb_from(d@, p as int, 0) == sleb_from(d@, p as int, k as int),
        decreases 10 - k,
    {
        if k >= d.len() || p >= d.len() - k {
            return None;
        }
        let b = d[p + k];
        if k == 9 && b != 0 && b != 0x7f {
            return None;
        }
        if b & 0x80 == 0 {
            return Some(k + 1);
        }
        k = k + 1;
    }
    None
}

proof fn lemma_name_len(d: Seq<u8>, p: int)
    requires
        0 <= p,
    ensures
        0 <= name_len(d, p),
        p + name_len(d, p) <= d.len() || p >= d.len(),
        forall|k: int| p <= k < p + name_len(d, p) ==> #[trigger] d[k] != 0u8,
    decreases d.len() - p,
{
    if p < d.len() && d[p] != 0u8 {
        lemma_name_len(d, p + 1);
    }
}

/// The length of the name at `p`.
fn name_len_of(d: &[u8], p: usize) -> (r: usize)
    requires
        p <= d.len(),
    ensures
        r == name_len(d@, p as int),
{
    let mut q: usize = p;
    while q < d.len() && d[q] != 0
        invariant
            p <= q <= d.len(),
            name_len(d@, p as int) == (q - p) + name_len(d@, q as int),
        decreases d.len() - q,
    {
        q = q + 1;
    }
    q - p
}

fn seg_bind_ok(segs: &[(u64, u64)], nlibs: usize, st: BindState) -> (r: bool)
    ensures
        r == bind_ok(BindFacts { segs: segs@, nlibs: nlibs as nat, ptr: 0 }, st),
{
    if (st.seg_index as usize) >= segs.len() || (st.ordinal as usize) >= nlibs {
        return false;
    }
    let (fo, va) = segs[st.seg_index as usize];
    fo <= u64::MAX - st.seg_offset && va <= u64::MAX - st.seg_offset
}

/// The facts for given segments, dylib count and pointer size.
pub open spec fn facts(segs: Seq<(u64, u64)>, nlibs: usize, ptr: u64) -> BindFacts {
    BindFacts { segs, nlibs: nlibs as nat, ptr }
}

fn do_times(segs: &[(u64, u64)], nlibs: usize, ptr: u64, st: BindState, count: u64, step: u64) -> (r:
    Option<BindState>)
    ensures
        r == times(facts(segs@, nlibs, ptr), st, count as nat, step),
{
    let mut cur = st;
    let mut i: u64 = 0;
    while i < count
        invariant
            i <= count,
            times(facts(segs@, nlibs, ptr), st, count as nat, step) == times(
                facts(segs@, nlibs, ptr),
                cur,
                (count - i) as nat,
                step,
            ),
        decreases count - i,
    {
        if !seg_bind_ok(segs, nlibs, cur) {
            return None;
        }
        cur = BindState { seg_offset: cur.seg_offset.wrapping_add(step), ..cur };
        i = i + 1;
    }
    Some(cur)
}

fn scale_ptr(imm: u8, ptr: u64) -> (r: u64)
    requires
        imm <= 15,
        ptr == 4 || ptr == 8,
    ensures
        r == imm * ptr,
{
    if ptr == 8 {
        (imm as u64) * 8
    } else {
        (imm as u64) * 4
    }
}

fn step(d: &[u8], segs: &[(u64, u64)], nlibs: usize, ptr: u64, off: usize, st: BindState, budget: u64) -> (r:
    Option<(usize, BindState, u64)>)
    requires
        ptr == 4 || ptr == 8,
    ensures
        match bind_step(d@, facts(segs@, nlibs, ptr), off as int, st, budget) {
            Some((o, s2, b)) => r == Some((o as usize, s2, b)) && off < o <= usize::MAX,
            None => r is None,
        },
{
    if off >= d.len() {
        return None;
    }
    let op = d[off];
    let hi = op & 0xf0;
    let imm = op & 0x0f;
    let p = off + 1;
    if hi == 0x00 {
        Some((p, BindState { seg_index: 0, seg_offset: 0, ordinal: 0 }, budget))
    } else if hi == 0x10 {
        Some((p, BindState { ordinal: imm, ..st }, budget))
    } else if hi == 0x20 {
        match read_uleb(d, p) {
            Some((v, n)) => Some((p + n, BindState { ordinal: v as u8, ..st }, budget)),
            None => None,
        }
    } else if hi == 0x40 {
        if p > d.len() {
            return None;
        }
        let l = name_len_of(d, p);
        proof {
            lemma_name_len(d@, p as int);
        }
        if l >= usize::MAX - p {
            None
        } else {
            Some((p + l + 1, st, budget))
        }
    } else if hi == 0x60 {
        match read_sleb_len(d, p) {
            Some(n) => Some((p + n, st, budget)),
            None => None,
        }
    } else if hi == 0x70 {
        match read_uleb(d, p) {
            Some((v, n)) => Some((p + n, BindState { seg_index: imm, seg_offset: v, ordinal: st.ordinal }, budget)),
            None => None,
        }
    } else if hi == 0x80 {
        match read_uleb(d, p) {
            Some((v, n)) => Some((p + n, BindState { seg_offset: st.seg_offset.wrapping_add(v), ..st }, budget)),
            None => None,
        }
    } else if hi == 0x90 {
        if budget < 1 || !seg_bind_ok(segs, nlibs, st) {
            None
        } else {
            Some((p, BindState { seg_offset: st.seg_offset.wrapping_add(ptr), ..st }, budget - 1))
        }
    } else if hi == 0xa0 {
        if budget < 1 || !seg_bind_ok(segs, nlibs, st) {
            None
        } else {
            match read_uleb(d, p) {
                Some((v, n)) => Some(
                    (
                        p + n,
                        BindState { seg_offset: st.seg_offset.wrapping_add(v).wrapping_add(ptr), ..st },
                        budget - 1,
                    ),
                ),
                None => None,
            }
        }
    } else if hi == 0xb0 {
        if budget < 1 || !seg_bind_ok(segs, nlibs, st) {
            None
        } else {
            assert(imm <= 15) by (bit_vector)
                requires
                    imm == op & 0x0fu8,
            ;
            let scaled = scale_ptr(imm, ptr);
            Some(
                (
                    p,
                    BindState { seg_offset: st.seg_offset.wrapping_add(scaled).wrapping_add(ptr), ..st },
                    budget - 1,
                ),
            )
        }
    } else if hi == 0xc0 {
        match read_uleb(d, p) {
            Some((count, n1)) => match read_uleb(d, p + n1) {
                Some((skip, n2)) => {
                    if skip > u64::MAX - ptr || count > budget {
                        None
                    } else {
                        match do_times(segs, nlibs, ptr, st, count, skip + ptr) {
                            Some(st2) => Some((p + n1 + n2, st2, budget - count)),
                            None => None,
                        }
                    }
                },
                None => None,
            },
            None => None,
        }
    } else {
        Some((p, st, budget))
    }
}

fn run_stream(d: &[u8], segs: &[(u64, u64)], nlibs: usize, ptr: u64, start: usize, end: usize, budget: u64) -> (r:
    Option<u64>)
    requires
        ptr == 4 || ptr == 8,
    ensures
        r == run(d@, facts(segs@, nlibs, ptr), start as int, end as int, fresh(), budget),
{
    let ghost f = facts(segs@, nlibs, ptr);
    let mut off = start;
    let mut st = BindState { seg_index: 0, seg_offset: 0, ordinal: 0 };
    let mut b = budget;
    while off < end
        invariant
            f == facts(segs@, nlibs, ptr),
            ptr == 4 || ptr == 8,
            run(d@, f, start as int, end as int, fresh(), budget) == run(d@, f, off as int, end as int, st, b),
        decreases usize::MAX - off,
    {
        match step(d, segs, nlibs, ptr, off, st, b) {
            Some((o2, st2, b2)) => {
                off = o2;
                st = st2;
                b = b2;
            },
            None => {
                return None;
            },
        }
    }
    Some(b)
}

/// The end of a stream, as `usize`.
fn stream_end_of(off: u32, size: u32) -> (r: usize)
    ensures
        r as int == stream_end(off, size),
{
    let o = off as usize;
    let s = size as usize;
    if o > usize::MAX - s {
        usize::MAX
    } else {
        o + s
    }
}

/// Whether the bind streams of a Mach-O are accepted (see
/// [`mach_binds_clean`]).
pub fn mach_binds_ok(m: &MachFile) -> (r: bool)
    requires
        mach_source_ok(m@),
    ensures
        r == mach_binds_clean(m@),
{
    let ghost infos = goblin_mach_bind_infos(m@.0, m@.1);
    let n = mach_command_count(m);
    let mut last: Option<(u32, u32, u32, u32)> = None;
    let mut i: usize = 0;
    while i < n
        invariant
            i <= n,
            n == infos.len(),
            infos == goblin_mach_bind_infos(m@.0, m@.1),
            mach_source_ok(m@),
            last == last_bind_info(infos.take(i as int)),
        decreases n - i,
    {
        let c = mach_command_bind_info(m, i);
        proof {
            let t1 = infos.take(i + 1);
            assert(t1.drop_last() =~= infos.take(i as int));
            assert(t1.last() == c);
        }
        if c.is_some() {
            last = c;
        }
        i = i + 1;
    }
    assert(infos.take(n as int) =~= infos);
    let info = match last {
        Some(x) => x,
        None => {
            return true;
        },
    };
    let ghost src = m@;
    let nseg = mach_segment_count(m);
    let mut segs: Vec<(u64, u64)> = Vec::new();
    let mut k: usize = 0;
    while k < nseg
        invariant
            k <= nseg,
            nseg == mach_facts(src).segment_count,
            src == m@,
            mach_source_ok(m@),
            segs@ == mach_bind_facts(src).segs.take(k as int),
        decreases nseg - k,
    {
        let a = mach_segment_addrs(m, k);
        segs.push(a);
        k = k + 1;
        assert(segs@ =~= mach_bind_facts(src).segs.take(k as int));
    }
    assert(mach_bind_facts(src).segs.take(nseg as int) =~= mach_bind_facts(src).segs);
    let nlibs = mach_lib_count(m);
    let ptr: u64 = if mach_header(m).is_64 {
        8
    } else {
        4
    };
    let d = mach_data_bytes(m);
    assert(facts(segs@, nlibs, ptr) == mach_bind_facts(src));
    match run_stream(d, &segs, nlibs, ptr, info.0 as usize, stream_end_of(info.0, info.1), MAX_BIND_RECORDS) {
        Some(b) => run_stream(d, &segs, nlibs, ptr, info.2 as usize, stream_end_of(info.2, info.3), b).is_some(),
        None => false,
    }
}

} // verus!
