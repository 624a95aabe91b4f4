//! A check of a thin Mach-O's `LC_MAIN` entry against its `__TEXT` segment,
//! made before goblin is asked to parse the binary.
//!
//! goblin's Mach-O parser walks the header's load commands, keeping the
//! first `LC_MAIN` entry offset and every segment; once all commands have
//! parsed, it maps the entry offset to an address as `vmaddr - fileoff +
//! entryoff` of the first segment named `__TEXT`, with unchecked `u64`
//! arithmetic. The check walks the commands the same way and reports when
//! that computation would leave the `u64` range; such a binary is not
//! handed to goblin.
use vstd::prelude::*;

verus! {

/// `LC_SEGMENT`.
pub const LC_SEGMENT: u32 = 0x1;

/// `LC_SEGMENT_64`.
pub const LC_SEGMENT_64: u32 = 0x19;

/// `LC_MAIN`.
pub const LC_MAIN: u32 = 0x8000_0028;

/// The unsigned 32-bit number at `o`, little- or big-endian.
pub open spec fn rd_u32(b: Seq<u8>, o: int, le: bool) -> int {
    if le {
        b[o] + 256 * b[o + 1] + 65536 * b[o + 2] + 16777216 * b[o + 3]
    } else {
        16777216 * b[o] + 65536 * b[o + 1] + 256 * b[o + 2] + b[o + 3]
    }
}

/// The unsigned 64-bit number at `o`, little- or big-endian.
pub open spec fn rd_u64(b: Seq<u8>, o: int, le: bool) -> int {
    if le {
        rd_u32(b, o, le) + 4294967296 * rd_u32(b, o + 4, le)
    } else {
        4294967296 * rd_u32(b, o, le) + rd_u32(b, o + 4, le)
    }
}

/// For a thin Mach-O header goblin accepts: whether it is little-endian,
/// the header's size and the number of load commands. The magic is read
/// big-endian (`0xfeedface` / `0xfeedfacf` big-endian, `0xcefaedfe` /
/// `0xcffaedfe` little-endian); goblin refuses a header whose command count
/// exceeds an eighth of `sizeofcmds` or whose `sizeofcmds` exceeds the file.
pub open spec fn mach_hdr(b: Seq<u8>) -> Option<(bool, int, int)> {
    if b.len() < 4 {
        None
    } else {
        let m = rd_u32(b, 0, false);
        let shape: Option<(bool, int)> = if m == 0xfeedface {
            Some((false, 28))
        } else if m == 0xcefaedfe {
            Some((true, 28))
        } else if m == 0xfeedfacf {
            Some((false, 32))
        } else if m == 0xcffaedfe {
            Some((true, 32))
        } else {
            None
        };
        match shape {
            Some((le, hsize)) => if b.len() < hsize {
                None
            } else {
                let ncmds = rd_u32(b, 16, le);
                let sizeofcmds = rd_u32(b, 20, le);
                if ncmds > sizeofcmds / 8 || sizeofcmds > b.len() {
                    None
                } else {
                    Some((le, hsize, ncmds))
                }
            },
            None => None,
        }
    }
}

/// What the walk keeps: the first `LC_MAIN` entry offset and the
/// `(vmaddr, fileoff)` of the first segment named `__TEXT`.
pub struct EntryScan {
    pub main: Option<int>,
    pub text: Option<(int, int)>,
}

/// Whether the segment command at `o` is named `__TEXT` (its first seven
/// name bytes are `__TEXT` and a NUL).
pub open spec fn names_text(b: Seq<u8>, o: int) -> bool {
    b.subrange(o + 8, o + 15) == seq![0x5fu8, 0x5fu8, 0x54u8, 0x45u8, 0x58u8, 0x54u8, 0u8]
}

/// One load command at `o` seen by the walk: the state after it, or `None`
/// when goblin refuses it (its header or fixed part runs past the file, or
/// its size past the rest of the file).
#[verifier::opaque]
pub open spec fn scan_step(b: Seq<u8>, le: bool, o: int, st: EntryScan) -> Option<(int, EntryScan)> {
    if o + 8 > b.len() {
        None
    } else {
        let cmd = rd_u32(b, o, le);
        let size = rd_u32(b, o + 4, le);
        if size > b.len() - o {
            None
        } else if cmd == LC_SEGMENT_64 {
            if o + 72 > b.len() {
                None
            } else if st.text is None && names_text(b, o) {
                Some((o + size, EntryScan { text: Some((rd_u64(b, o + 24, le), rd_u64(b, o + 40, le))), ..st }))
            } else {
                Some((o + size, st))
            }
        } else if cmd == LC_SEGMENT {
            if o + 56 > b.len() {
                None
            } else if st.text is None && names_text(b, o) {
                Some((o + size, EntryScan { text: Some((rd_u32(b, o + 24, le), rd_u32(b, o + 32, le))), ..st }))
            } else {
                Some((o + size, st))
            }
        } else if cmd == LC_MAIN {
            if o + 24 > b.len() {
                None
            } else if st.main is None {
                Some((o + size, EntryScan { main: Some(rd_u64(b, o + 8, le)), ..st }))
            } else {
                Some((o + size, st))
            }
        } else {
            Some((o + size, st))
        }
    }
}

/// The walk over `n` load commands from `o`.
pub open spec fn scan(b: Seq<u8>, le: bool, n: int, o: int, st: EntryScan) -> Option<EntryScan>
    decreases n,
{
    if n <= 0 {
        Some(st)
    } else {
        match scan_step(b, le, o, st) {
            Some((o2, st2)) => scan(b, le, n - 1, o2, st2),
            None => None,
        }
    }
}

/// Whether an entry offset and a `__TEXT` segment were found and
/// `vmaddr - fileoff + entryoff` leaves the `u64` range.
pub open spec fn entry_overflows(st: EntryScan) -> bool {
    match (st.main, st.text) {
        (Some(e), Some((vm, fo))) => vm < fo || vm - fo + e > u64::MAX,
        _ => false,
    }
}

/// Whether `b` is a thin Mach-O whose load commands all pass the walk and
/// whose entry address computation overflows: goblin would panic on it
/// where overflow is checked.
pub open spec fn mach_entry_risky(b: Seq<u8>) -> bool {
    match mach_hdr(b) {
        Some((le, hsize, ncmds)) => match scan(b, le, ncmds, hsize, EntryScan { main: None, text: None }) {
            Some(st) => entry_overflows(st),
            None => false,
        },
        None => false,
    }
}

fn read_u32(b: &[u8], o: usize, le: bool) -> (r: u64)
    requires
        o + 4 <= b.len(),
    ensures
        r == rd_u32(b@, o as int, le),
        r < 4294967296,
{
    let b0 = b[o] as u64;
    let b1 = b[o + 1] as u64;
    let b2 = b[o + 2] as u64;
    let b3 = b[o + 3] as u64;
    if le {
        b0 + 256 * b1 + 65536 * b2 + 16777216 * b3
    } else {
        16777216 * b0 + 65536 * b1 + 256 * b2 + b3
    }
}

fn read_u64(b: &[u8], o: usize, le: bool) -> (r: u64)
    requires
        o + 8 <= b.len(),
    ensures
        r == rd_u64(b@, o as int, le),
{
    let lo = read_u32(b, o, le);
    let hi = read_u32(b, o + 4, le);
    if le {
        lo + 4294967296 * hi
    } else {
        4294967296 * lo + hi
    }
}

fn is_text_name(b: &[u8], o: usize) -> (r: bool)
    requires
        o + 15 <= b.len(),
    ensures
        r == names_text(b@, o as int),
{
    let r = b[o + 8] == 0x5f && b[o + 9] == 0x5f && b[o + 10] == 0x54 && b[o + 11] == 0x45 && b[o + 12]
        == 0x58 && b[o + 13] == 0x54 && b[o + 14] == 0;
    proof {
        let want = seq![0x5fu8, 0x5fu8, 0x54u8, 0x45u8, 0x58u8, 0x54u8, 0u8];
        if r {
            assert(b@.subrange(o + 8, o + 15) =~= want);
        } else {
            if b@.subrange(o + 8, o + 15) == want {
                assert(b@.subrange(o + 8, o + 15)[0] == want[0]);
                assert(b@.subrange(o + 8, o + 15)[1] == want[1]);
                assert(b@.subrange(o + 8, o + 15)[2] == want[2]);
                assert(b@.subrange(o + 8, o + 15)[3] == want[3]);
                assert(b@.subrange(o + 8, o + 15)[4] == want[4]);
                assert(b@.subrange(o + 8, o + 15)[5] == want[5]);
                assert(b@.subrange(o + 8, o + 15)[6] == want[6]);
            }
        }
    }
    r
}

/// The walk state held by [`mach_entry_ok`], as an [`EntryScan`].
pub open spec fn scan_view(main: Option<u64>, text: Option<(u64, u64)>) -> EntryScan {
    EntryScan {
        main: match main {
            Some(e) => Some(e as int),
            None => None,
        },
        text: match text {
            Some((vm, fo)) => Some((vm as int, fo as int)),
            None => None,
        },
    }
}

/// One step of the walk (see [`scan_step`]).
fn walk_step(b: &[u8], le: bool, o: usize, main: Option<u64>, text: Option<(u64, u64)>) -> (r: Option<
    (usize, Option<u64>, Option<(u64, u64)>),
>)
    requires
        o <= b.len(),
    ensures
        match r {
            Some((o2, m2, t2)) => scan_step(b@, le, o as int, scan_view(main, text)) == Some(
                (o2 as int, scan_view(m2, t2)),
            ) && o2 <= b.len(),
            None => scan_step(b@, le, o as int, scan_view(main, text)) is None,
        },
{
    reveal(scan_step);
    if b.len() < 8 || o > b.len() - 8 {
        return None;
    }
    let cmd = read_u32(b, o, le);
    let size = read_u32(b, o + 4, le);
    if size > (b.len() - o) as u64 {
        return None;
    }
    let o2 = o + size as usize;
    if cmd == 0x19 {
        if b.len() < 72 || o > b.len() - 72 {
            return None;
        }
        if text.is_none() && is_text_name(b, o) {
            let t = (read_u64(b, o + 24, le), read_u64(b, o + 40, le));
            return Some((o2, main, Some(t)));
        }
    } else if cmd == 0x1 {
        if b.len() < 56 || o > b.len() - 56 {
            return None;
        }
        if text.is_none() && is_text_name(b, o) {
            let t = (read_u32(b, o + 24, le), read_u32(b, o + 32, le));
            return Some((o2, main, Some(t)));
        }
    } else if cmd == 0x8000_0028 {
        if b.len() < 24 || o > b.len() - 24 {
            return None;
        }
        if main.is_none() {
            let e = read_u64(b, o + 8, le);
            return Some((o2, Some(e), text));
        }
    }
    Some((o2, main, text))
}

/// Whether the walk of `b` leaves goblin's entry address computation in the
/// `u64` range (see [`mach_entry_risky`]).
pub fn mach_entry_ok(b: &[u8]) -> (r: bool)
    ensures
        r == !mach_entry_risky(b@),
{
    if b.len() < 4 {
        return true;
    }
    let m = read_u32(b, 0, false);
    let (le, hsize): (bool, usize) = if m == 0xfeedface {
        (false, 28)
    } else if m == 0xcefaedfe {
        (true, 28)
    } else if m == 0xfeedfacf {
        (false, 32)
    } else if m == 0xcffaedfe {
        (true, 32)
    } else {
        return true;
    };
    if b.len() < hsize {
        return true;
    }
    let ncmds = read_u32(b, 16, le);
    let sizeofcmds = read_u32(b, 20, le);
    if ncmds > sizeofcmds / 8 || sizeofcmds > b.len() as u64 {
        return true;
    }
    let ghost init = EntryScan { main: None, text: None };
    let mut main: Option<u64> = None;
    let mut text: Option<(u64, u64)> = None;
    let mut o: usize = hsize;
    let mut i: u64 = 0;
    assert(scan_view(main, text) == init);
    while i < ncmds
        invariant
            i <= ncmds,
            o <= b.len(),
            mach_hdr(b@) == Some((le, hsize as int, ncmds as int)),
            init == (EntryScan { main: None, text: None }),
            scan(b@, le, ncmds as int, hsize as int, init) == scan(
                b@,
                le,
                ncmds - i,
                o as int,
                scan_view(main, text),
            ),
        decreases ncmds - i,
    {
        match walk_step(b, le, o, main, text) {
            Some((o2, m2, t2)) => {
                o = o2;
                main = m2;
                text = t2;
            },
            None => {
                assert(scan(b@, le, ncmds - i, o as int, scan_view(main, text)) is None);
                assert(scan(b@, le, ncmds as int, hsize as int, init) is None);
                assert(!mach_entry_risky(b@));
                return true;
            },
        }
        i = i + 1;
    }
    assert(scan(b@, le, 0, o as int, scan_view(main, text)) == Some(scan_view(main, text)));
    match (main, text) {
        (Some(e), Some((vm, fo))) => {
            if vm < fo {
                false
            } else {
                (vm - fo) <= u64::MAX - e
            }
        },
        _ => true,
    }
}

} // verus!
