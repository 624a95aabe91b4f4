//! The Capstone decode engine: build a handle for an [`ArchSel`] and decode a
//! byte slice into [`Insn`] rows with a linear sweep and bad-byte resume.
//!
//! Capstone's decoding is its own: what it decodes, the group ids of an
//! instruction and the names of groups are named (`capstone_*`) and not
//! restated. What is verified here is the selection of the handle, the
//! conversion of decoded instructions into rows (group normalization
//! included) and the sweep loop, whose rows are stated exactly over those
//! names: an undecodable byte becomes a one-byte `.byte` row and the sweep
//! resumes at the next byte, so it never stalls, and the row count never
//! exceeds the cap it is given.
use vstd::prelude::*;

use capstone::arch::BuildsCapstone;
use capstone::arch::BuildsCapstoneEndian;
use capstone::arch::BuildsCapstoneSyntax;
use capstone::Insn as CsInsn;

use crate::container::opt_string_view;
use crate::groups::{is_vocabulary, lemma_normalize_all_distinct_vocabulary, normalize_all, spec_normalize_all, strings_view, strs_view};
use crate::limits::MAX_INSNS;
use crate::probe::{ArchSel, ArchSelView};
use crate::text::{chars_eq_str, chars_of, push_char};

verus! {

/// Capstone's handle type.
#[verifier::external_type_specification]
#[verifier::external_body]
pub struct ExCapstone(capstone::Capstone);

/// Capstone's buffer of decoded instructions.
#[verifier::external_type_specification]
#[verifier::external_body]
pub struct ExCapstoneInstructions<'a>(capstone::Instructions<'a>);

/// Capstone's instruction type, the target of `Instructions`' `Deref`.
#[verifier::external_type_specification]
#[verifier::external_body]
pub struct ExCapstoneInsn<'a>(CsInsn<'a>);

/// A single decoded instruction row.
#[derive(Debug, Clone, PartialEq, Eq)]
pub struct Insn {
    /// Virtual address of the instruction.
    pub address: u64,
    /// Instruction length in bytes, capped at 255 (0 only for the `(error)`
    /// row).
    pub size: u8,
    /// Raw machine bytes of this instruction.
    pub bytes: Vec<u8>,
    /// Mnemonic; `.byte` for an undecodable byte; `(error)` for the
    /// diagnostic row.
    pub mnemonic: String,
    /// Operand text.
    pub op_str: String,
    /// Normalized instruction groups.
    pub groups: Vec<String>,
}

/// The content of an [`Insn`].
pub struct InsnView {
    pub address: u64,
    pub size: u8,
    pub bytes: Seq<u8>,
    pub mnemonic: Seq<char>,
    pub op_str: Seq<char>,
    pub groups: Seq<Seq<char>>,
}

impl View for Insn {
    type V = InsnView;

    open spec fn view(&self) -> InsnView {
        InsnView {
            address: self.address,
            size: self.size,
            bytes: self.bytes@,
            mnemonic: self.mnemonic@,
            op_str: self.op_str@,
            groups: strings_view(self.groups@),
        }
    }
}

/// The views of a sequence of rows.
pub open spec fn insns_view(v: Seq<Insn>) -> Seq<InsnView> {
    v.map_values(|i: Insn| i@)
}

/// The lower-case hexadecimal digit of a nibble.
pub open spec fn hex_digit(n: u8) -> char {
    if n < 10 {
        ((n + 48) as u8) as char
    } else {
        ((n + 87) as u8) as char
    }
}

/// `0x` followed by the two lower-case hex digits of `b` (`format!("0x{b:02x}")`).
pub open spec fn hex_byte(b: u8) -> Seq<char> {
    seq!['0', 'x', hex_digit(b / 16), hex_digit(b % 16)]
}

/// The one-byte row emitted for an undecodable byte `b` at `addr`.
pub open spec fn bad_row(addr: u64, b: u8) -> InsnView {
    InsnView {
        address: addr,
        size: 1,
        bytes: seq![b],
        mnemonic: ".byte"@,
        op_str: hex_byte(b),
        groups: Seq::empty(),
    }
}

/// The single diagnostic row for "no arch could be resolved".
pub open spec fn error_row() -> InsnView {
    InsnView {
        address: 0,
        size: 0,
        bytes: Seq::empty(),
        mnemonic: "(error)"@,
        op_str: "arch required for raw blob"@,
        groups: Seq::empty(),
    }
}

fn hex_digit_of(n: u8) -> (r: char)
    requires
        n < 16,
    ensures
        r == hex_digit(n),
{
    if n < 10 {
        (n + 48) as char
    } else {
        (n + 87) as char
    }
}

impl Insn {
    /// The one-byte `.byte` row emitted when Capstone cannot decode the byte
    /// at `addr`; the sweep resumes at the next byte.
    fn bad(addr: u64, byte: u8) -> (r: Self)
        ensures
            r@ == bad_row(addr, byte),
    {
        let mut op = String::new();
        push_char(&mut op, '0');
        push_char(&mut op, 'x');
        push_char(&mut op, hex_digit_of(byte / 16));
        push_char(&mut op, hex_digit_of(byte % 16));
        let mut bytes: Vec<u8> = Vec::new();
        bytes.push(byte);
        let r = Insn {
            address: addr,
            size: 1,
            bytes,
            mnemonic: ".byte".to_string(),
            op_str: op,
            groups: Vec::new(),
        };
        assert(r@.op_str =~= hex_byte(byte));
        assert(r@.bytes =~= seq![byte]);
        assert(r@.groups =~= Seq::<Seq<char>>::empty());
        r
    }

    /// The single diagnostic row for "raw blob with no arch supplied".
    pub fn arch_required() -> (r: Self)
        ensures
            r@ == error_row(),
    {
        let r = Insn {
            address: 0,
            size: 0,
            bytes: Vec::new(),
            mnemonic: "(error)".to_string(),
            op_str: "arch required for raw blob".to_string(),
            groups: Vec::new(),
        };
        assert(r@.bytes =~= Seq::<u8>::empty());
        assert(r@.groups =~= Seq::<Seq<char>>::empty());
        r
    }
}

/// The Capstone configuration a selection maps to.
#[derive(Debug, Clone, Copy, PartialEq, Eq, Structural)]
pub enum EngineConfig {
    /// x86 with Intel syntax, of the given width (16, 32 or 64).
    X86 { bits: u8 },
    /// 32-bit ARM, ARM or Thumb instruction set.
    Arm { thumb: bool, big_endian: bool },
    Arm64,
    Mips64 { big_endian: bool },
    Ppc64 { big_endian: bool },
    SystemZ,
    RiscV64,
}

/// The Capstone configuration for a resolved selection; an unknown arch
/// falls back to x86-64.
pub open spec fn spec_engine_config(sel: ArchSelView) -> EngineConfig {
    if sel.arch == "x86"@ {
        EngineConfig::X86 {
            bits: if sel.mode == "x16"@ {
                16
            } else if sel.mode == "x32"@ {
                32
            } else {
                64
            },
        }
    } else if sel.arch == "arm"@ {
        EngineConfig::Arm { thumb: sel.mode == "thumb"@, big_endian: sel.big_endian }
    } else if sel.arch == "arm64"@ {
        EngineConfig::Arm64
    } else if sel.arch == "mips"@ {
        EngineConfig::Mips64 { big_endian: sel.big_endian }
    } else if sel.arch == "ppc"@ {
        EngineConfig::Ppc64 { big_endian: sel.big_endian }
    } else if sel.arch == "sysz"@ {
        EngineConfig::SystemZ
    } else if sel.arch == "riscv"@ {
        EngineConfig::RiscV64
    } else {
        EngineConfig::X86 { bits: 64 }
    }
}

/// The Capstone configuration for a resolved selection (detail on; Intel
/// syntax for x86; an unknown arch falls back to x86-64).
pub fn engine_config(sel: &ArchSel) -> (r: EngineConfig)
    ensures
        r == spec_engine_config(sel@),
{
    let a = chars_of(sel.arch.as_str());
    let m = chars_of(sel.mode.as_str());
    if chars_eq_str(&a, "x86") {
        let bits: u8 = if chars_eq_str(&m, "x16") {
            16
        } else if chars_eq_str(&m, "x32") {
            32
        } else {
            64
        };
        EngineConfig::X86 { bits }
    } else if chars_eq_str(&a, "arm") {
        EngineConfig::Arm { thumb: chars_eq_str(&m, "thumb"), big_endian: sel.big_endian }
    } else if chars_eq_str(&a, "arm64") {
        EngineConfig::Arm64
    } else if chars_eq_str(&a, "mips") {
        EngineConfig::Mips64 { big_endian: sel.big_endian }
    } else if chars_eq_str(&a, "ppc") {
        EngineConfig::Ppc64 { big_endian: sel.big_endian }
    } else if chars_eq_str(&a, "sysz") {
        EngineConfig::SystemZ
    } else if chars_eq_str(&a, "riscv") {
        EngineConfig::RiscV64
    } else {
        EngineConfig::X86 { bits: 64 }
    }
}

/// A Capstone handle together with the configuration it was built from.
pub struct Engine {
    cs: capstone::Capstone,
    config: EngineConfig,
}

impl View for Engine {
    type V = EngineConfig;

    closed spec fn view(&self) -> EngineConfig {
        self.config
    }
}

/// Builds an x86 Capstone handle (Intel syntax, detail on) of the given
/// width. Trusted: Capstone builds it, configured as asked. Capstone's
/// `cs_open` fails only for an arch or mode it was built without (the
/// default features build every arch used here) or when it cannot allocate,
/// which this library, like std's collections, does not consider.
#[verifier::external_body]
fn cs_x86(bits: u8) -> (r: Option<Engine>)
    requires
        bits == 16 || bits == 32 || bits == 64,
    ensures
        r is Some,
        r matches Some(e) ==> e@ == (EngineConfig::X86 { bits }),
{
    let mode = match bits {
        16 => capstone::arch::x86::ArchMode::Mode16,
        32 => capstone::arch::x86::ArchMode::Mode32,
        _ => capstone::arch::x86::ArchMode::Mode64,
    };
    let cs = capstone::Capstone::new().x86().mode(mode).syntax(
        capstone::arch::x86::ArchSyntax::Intel,
    ).detail(true).build().ok()?;
    Some(Engine { cs, config: EngineConfig::X86 { bits } })
}

/// Builds a 32-bit ARM Capstone handle (detail on). Trusted: Capstone
/// builds it, configured as asked (see [`cs_x86`] on when `build` fails).
#[verifier::external_body]
fn cs_arm(thumb: bool, big_endian: bool) -> (r: Option<Engine>)
    ensures
        r is Some,
        r matches Some(e) ==> e@ == (EngineConfig::Arm { thumb, big_endian }),
{
    let mode = if thumb {
        capstone::arch::arm::ArchMode::Thumb
    } else {
        capstone::arch::arm::ArchMode::Arm
    };
    let cs = capstone::Capstone::new().arm().mode(mode).endian(if big_endian { capstone::Endian::Big } else { capstone::Endian::Little }).detail(
        true,
    ).build().ok()?;
    Some(Engine { cs, config: EngineConfig::Arm { thumb, big_endian } })
}

/// Builds an ARM64 Capstone handle (detail on). Trusted: Capstone
/// builds it, configured as asked (see [`cs_x86`] on when `build` fails).
#[verifier::external_body]
fn cs_arm64() -> (r: Option<Engine>)
    ensures
        r is Some,
        r matches Some(e) ==> e@ == EngineConfig::Arm64,
{
    let cs = capstone::Capstone::new().arm64().mode(capstone::arch::arm64::ArchMode::Arm).detail(
        true,
    ).build().ok()?;
    Some(Engine { cs, config: EngineConfig::Arm64 })
}

/// Builds a MIPS64 Capstone handle (detail on). Trusted: Capstone
/// builds it, configured as asked (see [`cs_x86`] on when `build` fails).
#[verifier::external_body]
fn cs_mips(big_endian: bool) -> (r: Option<Engine>)
    ensures
        r is Some,
        r matches Some(e) ==> e@ == (EngineConfig::Mips64 { big_endian }),
{
    let cs = capstone::Capstone::new().mips().mode(capstone::arch::mips::ArchMode::Mips64).endian(
        if big_endian { capstone::Endian::Big } else { capstone::Endian::Little },
    ).detail(true).build().ok()?;
    Some(Engine { cs, config: EngineConfig::Mips64 { big_endian } })
}

/// Builds a PowerPC 64 Capstone handle (detail on). Trusted: Capstone
/// builds it, configured as asked (see [`cs_x86`] on when `build` fails).
#[verifier::external_body]
fn cs_ppc(big_endian: bool) -> (r: Option<Engine>)
    ensures
        r is Some,
        r matches Some(e) ==> e@ == (EngineConfig::Ppc64 { big_endian }),
{
    let cs = capstone::Capstone::new().ppc().mode(capstone::arch::ppc::ArchMode::Mode64).endian(
        if big_endian { capstone::Endian::Big } else { capstone::Endian::Little },
    ).detail(true).build().ok()?;
    Some(Engine { cs, config: EngineConfig::Ppc64 { big_endian } })
}

/// Builds a SystemZ Capstone handle (detail on). Trusted: Capstone
/// builds it, configured as asked (see [`cs_x86`] on when `build` fails).
#[verifier::external_body]
fn cs_sysz() -> (r: Option<Engine>)
    ensures
        r is Some,
        r matches Some(e) ==> e@ == EngineConfig::SystemZ,
{
    let cs = capstone::Capstone::new().sysz().mode(capstone::arch::sysz::ArchMode::Default).detail(
        true,
    ).build().ok()?;
    Some(Engine { cs, config: EngineConfig::SystemZ })
}

/// Builds a RISC-V 64 Capstone handle (detail on). Trusted: Capstone
/// builds it, configured as asked (see [`cs_x86`] on when `build` fails).
#[verifier::external_body]
fn cs_riscv() -> (r: Option<Engine>)
    ensures
        r is Some,
        r matches Some(e) ==> e@ == EngineConfig::RiscV64,
{
    let cs = capstone::Capstone::new().riscv().mode(capstone::arch::riscv::ArchMode::RiscV64).detail(
        true,
    ).build().ok()?;
    Some(Engine { cs, config: EngineConfig::RiscV64 })
}

proof fn lemma_config_x86_bits(sel: ArchSelView)
    ensures
        spec_engine_config(sel) matches EngineConfig::X86 { bits } ==> (bits == 16 || bits == 32
            || bits == 64),
{
}

/// Builds a Capstone handle for a resolved selection, with detail on (needed
/// for group classification) and Intel syntax for x86.
pub fn build(sel: &ArchSel) -> (r: Option<Engine>)
    ensures
        r matches Some(e) && e@ == spec_engine_config(sel@),
{
    proof {
        lemma_config_x86_bits(sel@);
    }
    match engine_config(sel) {
        EngineConfig::X86 { bits } => cs_x86(bits),
        EngineConfig::Arm { thumb, big_endian } => cs_arm(thumb, big_endian),
        EngineConfig::Arm64 => cs_arm64(),
        EngineConfig::Mips64 { big_endian } => cs_mips(big_endian),
        EngineConfig::Ppc64 { big_endian } => cs_ppc(big_endian),
        EngineConfig::SystemZ => cs_sysz(),
        EngineConfig::RiscV64 => cs_riscv(),
    }
}

/// An instruction as Capstone decoded it: address, bytes, mnemonic and
/// operand text.
#[derive(Debug)]
pub struct RawInsn {
    pub address: u64,
    pub bytes: Vec<u8>,
    pub mnemonic: Option<String>,
    pub op_str: Option<String>,
}

/// The content of a [`RawInsn`].
pub struct RawView {
    pub address: u64,
    pub bytes: Seq<u8>,
    pub mnemonic: Option<Seq<char>>,
    pub op_str: Option<Seq<char>>,
}

impl View for RawInsn {
    type V = RawView;

    open spec fn view(&self) -> RawView {
        RawView {
            address: self.address,
            bytes: self.bytes@,
            mnemonic: opt_string_view(self.mnemonic),
            op_str: opt_string_view(self.op_str),
        }
    }
}

/// What Capstone's `disasm_all` decodes from `code` at address `addr` under
/// `config`: the instructions up to the first undecodable one, or `None` when
/// it reports an error.
pub uninterp spec fn capstone_disasm(config: EngineConfig, code: Seq<u8>, addr: u64) -> Option<
    Seq<RawView>,
>;

/// The instructions a Capstone instruction buffer holds, in order.
pub uninterp spec fn capstone_instructions(insns: capstone::Instructions) -> Seq<RawView>;

/// The group ids in Capstone's detail for a decoded instruction; `None` when
/// Capstone has no detail for it.
pub uninterp spec fn capstone_insn_groups(config: EngineConfig, insn: RawView) -> Option<Seq<u8>>;

/// Capstone's name for a group id.
pub uninterp spec fn capstone_group_name(config: EngineConfig, id: u8) -> Option<Seq<char>>;

/// Instructions Capstone decoded from one buffer, with the handle that
/// decoded them.
pub struct Decoded<'a> {
    engine: &'a Engine,
    insns: capstone::Instructions<'a>,
}

impl<'a> Decoded<'a> {
    /// The configuration of the handle that decoded the buffer.
    pub closed spec fn config(&self) -> EngineConfig {
        self.engine@
    }

    /// The decoded instructions, in order.
    pub closed spec fn items(&self) -> Seq<RawView> {
        capstone_instructions(self.insns)
    }
}

/// Whether every instruction of `xs` has from 1 to 24 bytes.
pub open spec fn raws_sized(xs: Seq<RawView>) -> bool {
    forall|i: int| 0 <= i < xs.len() ==> 1 <= #[trigger] xs[i].bytes.len() <= 24
}

/// The number of bytes of the first `i` instructions of `xs`.
pub open spec fn raw_prefix(xs: Seq<RawView>, i: int) -> int
    decreases i,
{
    if i <= 0 {
        0
    } else {
        raw_prefix(xs, i - 1) + xs[i - 1].bytes.len()
    }
}

/// Whether `xs` are consecutive instructions of `code` decoded at `addr`:
/// each one's bytes are the bytes of `code` after those of the instructions
/// before it, and its address is `addr` plus their length.
pub open spec fn raws_contiguous(xs: Seq<RawView>, code: Seq<u8>, addr: u64) -> bool {
    forall|i: int|
        0 <= i < xs.len() ==> {
            &&& raw_prefix(xs, i) + xs[i].bytes.len() <= code.len()
            &&& #[trigger] xs[i].bytes == code.subrange(raw_prefix(xs, i), raw_prefix(xs, i) + xs[i].bytes.len())
            &&& xs[i].address == addr.wrapping_add(raw_prefix(xs, i) as u64)
        }
}

/// Capstone's `disasm_all(code, addr)`: every instruction it decodes from the
/// start of `code` until the first undecodable one; `None` on its error.
/// Trusted: the buffer holds what `disasm_all` decodes; every instruction in
/// it has from 1 to 24 bytes (capstone-rs hands out an instruction's bytes
/// as `&insn.bytes[..size]`, a prefix of Capstone's 24-byte array, and a
/// decoded instruction has a size of at least 1); and the instructions are consecutive in `code`
/// from its start, each at `addr` plus the bytes before it (`cs_disasm`
/// sets each instruction's address to the running offset, copies its bytes
/// from the running buffer position and advances both by its size; no
/// instruction of the supported arches exceeds the 24 bytes it keeps).
#[verifier::external_body]
fn cs_disasm_all<'a>(e: &'a Engine, code: &[u8], addr: u64) -> (r: Option<Decoded<'a>>)
    ensures
        match r {
            Some(d) => capstone_disasm(e@, code@, addr) == Some(capstone_instructions(d.insns)) && d.engine@ == e@,
            None => capstone_disasm(e@, code@, addr) is None,
        },
        r matches Some(d) ==> raws_sized(capstone_instructions(d.insns)),
        r matches Some(d) ==> raws_contiguous(capstone_instructions(d.insns), code@, addr),
{
    e.cs.disasm_all(code, addr).ok().map(|insns| Decoded { engine: e, insns })
}

/// The number of instructions in a decoded buffer (the slice's `len`).
#[verifier::external_body]
fn decoded_len(d: &Decoded) -> (r: usize)
    ensures
        r == capstone_instructions(d.insns).len(),
{
    d.insns.len()
}

/// Instruction `i` of a decoded buffer (the slice's `get`): its address,
/// bytes, mnemonic and operand text; `None` past the end.
#[verifier::external_body]
fn decoded_insn(d: &Decoded, i: usize) -> (r: Option<RawInsn>)
    ensures
        match r {
            Some(x) => i < capstone_instructions(d.insns).len() && x@ == capstone_instructions(d.insns)[i as int],
            None => i >= capstone_instructions(d.insns).len(),
        },
{
    let insn = d.insns.get(i)?;
    Some(RawInsn {
        address: insn.address(),
        bytes: insn.bytes().to_vec(),
        mnemonic: insn.mnemonic().map(|m| m.to_string()),
        op_str: insn.op_str().map(|o| o.to_string()),
    })
}

/// The group ids of instruction `i` (Capstone's `insn_detail` and its
/// `groups`); `None` when Capstone has no detail for it or past the end.
#[verifier::external_body]
fn decoded_group_ids(d: &Decoded, i: usize) -> (r: Option<Vec<u8>>)
    ensures
        i < capstone_instructions(d.insns).len() ==> match r {
            Some(ids) => capstone_insn_groups(d.engine@, capstone_instructions(d.insns)[i as int]) == Some(ids@),
            None => capstone_insn_groups(d.engine@, capstone_instructions(d.insns)[i as int]) is None,
        },
{
    let insn = d.insns.get(i)?;
    let detail = d.engine.cs.insn_detail(insn).ok()?;
    Some(detail.groups().iter().map(|g| g.0).collect())
}

/// Capstone's `group_name` for a group id.
#[verifier::external_body]
fn cs_group_name(e: &Engine, id: u8) -> (r: Option<String>)
    ensures
        opt_string_view(r) == capstone_group_name(e@, id),
{
    e.cs.group_name(capstone::InsnGroupId(id))
}

/// A decoded instruction with the raw names of its Capstone groups.
#[derive(Debug)]
pub struct DecodedInsn {
    pub address: u64,
    pub bytes: Vec<u8>,
    pub mnemonic: Option<String>,
    pub op_str: Option<String>,
    pub group_names: Vec<String>,
}

/// The content of a [`DecodedInsn`].
pub struct DecodedView {
    pub address: u64,
    pub bytes: Seq<u8>,
    pub mnemonic: Option<Seq<char>>,
    pub op_str: Option<Seq<char>>,
    pub group_names: Seq<Seq<char>>,
}

impl View for DecodedInsn {
    type V = DecodedView;

    open spec fn view(&self) -> DecodedView {
        DecodedView {
            address: self.address,
            bytes: self.bytes@,
            mnemonic: opt_string_view(self.mnemonic),
            op_str: opt_string_view(self.op_str),
            group_names: strings_view(self.group_names@),
        }
    }
}

/// The views of a sequence of decoded instructions.
pub open spec fn decoded_view(v: Seq<DecodedInsn>) -> Seq<DecodedView> {
    v.map_values(|d: DecodedInsn| d@)
}

/// Text, or the empty text.
pub open spec fn or_empty(o: Option<Seq<char>>) -> Seq<char> {
    match o {
        Some(s) => s,
        None => Seq::empty(),
    }
}

/// `n` capped at 255.
pub open spec fn cap_u8(n: nat) -> u8 {
    if n <= 255 {
        n as u8
    } else {
        255
    }
}

/// The row of a decoded instruction: its address and bytes, its mnemonic and
/// operands (empty when Capstone gives none), its length capped at 255, and
/// its normalized groups.
pub open spec fn decoded_row(d: DecodedView) -> InsnView {
    InsnView {
        address: d.address,
        size: cap_u8(d.bytes.len()),
        bytes: d.bytes,
        mnemonic: or_empty(d.mnemonic),
        op_str: or_empty(d.op_str),
        groups: spec_normalize_all(d.group_names),
    }
}

fn string_or_empty(o: &Option<String>) -> (r: String)
    ensures
        r@ == or_empty(opt_string_view(*o)),
{
    match o {
        Some(s) => s.clone(),
        None => String::new(),
    }
}

/// The row of a decoded instruction.
pub fn decoded_row_of(d: &DecodedInsn) -> (r: Insn)
    ensures
        r@ == decoded_row(d@),
{
    let mut names: Vec<&str> = Vec::new();
    let mut k: usize = 0;
    while k < d.group_names.len()
        invariant
            k <= d.group_names.len(),
            strs_view(names@) == strings_view(d.group_names@).take(k as int),
        decreases d.group_names.len() - k,
    {
        let ghost pre = names@;
        let nm = d.group_names[k].as_str();
        assert(nm@ == d.group_names@[k as int]@);
        names.push(nm);
        k = k + 1;
        assert(names@ == pre.push(nm));
        assert(strs_view(names@) =~= strs_view(pre).push(nm@));
        assert(strs_view(names@) =~= strings_view(d.group_names@).take(k as int));
    }
    assert(strings_view(d.group_names@).take(k as int) =~= strings_view(d.group_names@));
    let n = d.bytes.len();
    let size: u8 = if n <= 255 { n as u8 } else { 255 };
    Insn {
        address: d.address,
        size,
        bytes: d.bytes.clone(),
        mnemonic: string_or_empty(&d.mnemonic),
        op_str: string_or_empty(&d.op_str),
        groups: normalize_all(&names),
    }
}

/// `a + b`, saturating at `usize::MAX`.
pub open spec fn sat_add(a: usize, b: int) -> usize {
    if a + b > usize::MAX {
        usize::MAX
    } else {
        (a + b) as usize
    }
}

/// The saturating sum of the byte lengths of `ds`.
pub open spec fn total_len(ds: Seq<DecodedView>) -> usize
    decreases ds.len(),
{
    if ds.len() == 0 {
        0
    } else {
        sat_add(total_len(ds.drop_last()), ds.last().bytes.len() as int)
    }
}

/// How many of `n` decoded instructions fit when `out_len` of `max_total`
/// rows are used.
pub open spec fn room(n: int, out_len: int, max_total: int) -> int {
    if n <= max_total - out_len {
        n
    } else {
        max_total - out_len
    }
}

/// One step of the linear sweep at `offset` of `code` (based at `base`),
/// given what Capstone decoded there: the rows it appends and the next
/// offset. Nothing decoded, or only empty instructions, yields a `.byte` row
/// and a one-byte advance; otherwise the decoded instructions that fit under
/// the cap become rows and the sweep advances past their bytes.
pub open spec fn spec_step(
    ds: Seq<DecodedView>,
    code: Seq<u8>,
    offset: int,
    base: u64,
    out_len: int,
    max_total: int,
) -> (Seq<InsnView>, int) {
    let addr = base.wrapping_add(offset as u64);
    if ds.len() == 0 {
        (seq![bad_row(addr, code[offset])], offset + 1)
    } else {
        let taken = ds.take(room(ds.len() as int, out_len, max_total));
        let rows = taken.map_values(|d: DecodedView| decoded_row(d));
        let consumed = total_len(taken);
        if consumed == 0 {
            (rows.push(bad_row(addr, code[offset])), offset + 1)
        } else {
            (rows, sat_add(offset as usize, consumed as int) as int)
        }
    }
}

/// Whether a row is well formed: it has from 1 to 24 bytes, its size is its
/// byte count, and its groups are distinct vocabulary names.
pub open spec fn row_ok(r: InsnView) -> bool {
    &&& 1 <= r.bytes.len() <= 24
    &&& r.size == r.bytes.len()
    &&& forall|i: int| 0 <= i < r.groups.len() ==> is_vocabulary(#[trigger] r.groups[i])
    &&& forall|i: int, j: int| 0 <= i < j < r.groups.len() ==> r.groups[i] != r.groups[j]
}

proof fn lemma_decoded_row_ok(d: DecodedView)
    requires
        1 <= d.bytes.len() <= 24,
    ensures
        row_ok(decoded_row(d)),
{
    lemma_normalize_all_distinct_vocabulary(d.group_names);
}

proof fn lemma_bad_row_ok(addr: u64, b: u8)
    ensures
        row_ok(bad_row(addr, b)),
{
}

proof fn lemma_insns_view_push(v: Seq<Insn>, x: Insn)
    ensures
        insns_view(v.push(x)) == insns_view(v).push(x@),
{
    assert(insns_view(v.push(x)) =~= insns_view(v).push(x@));
}

fn push_row(out: &mut Vec<Insn>, x: Insn)
    ensures
        insns_view(final(out)@) == insns_view(old(out)@).push(x@),
        final(out).len() == old(out).len() + 1,
{
    let ghost pre = out@;
    out.push(x);
    proof {
        assert(out@ == pre.push(out@[pre.len() as int]));
        lemma_insns_view_push(pre, out@[pre.len() as int]);
    }
}

/// One step of the linear sweep: appends to `out` the rows for what Capstone
/// decoded at `offset` (see [`spec_step`]) and returns the next offset.
pub fn sweep_step(
    ds: &[DecodedInsn],
    code: &[u8],
    offset: usize,
    base: u64,
    out: &mut Vec<Insn>,
    max_total: usize,
) -> (next: usize)
    requires
        offset < code.len(),
        old(out).len() < max_total,
    ensures
        insns_view(final(out)@) == insns_view(old(out)@) + spec_step(
            decoded_view(ds@),
            code@,
            offset as int,
            base,
            old(out).len() as int,
            max_total as int,
        ).0,
        next == spec_step(
            decoded_view(ds@),
            code@,
            offset as int,
            base,
            old(out).len() as int,
            max_total as int,
        ).1,
{
    let ghost dv = decoded_view(ds@);
    let ghost start = insns_view(out@);
    let ghost out_len = out.len() as int;
    let addr = base.wrapping_add(offset as u64);
    if ds.len() == 0 {
        push_row(out, Insn::bad(addr, code[offset]));
        assert(insns_view(out@) =~= start + seq![bad_row(addr, code@[offset as int])]);
        return offset + 1;
    }
    let ghost k = room(ds.len() as int, out_len, max_total as int);
    let mut consumed: usize = 0;
    let mut i: usize = 0;
    while i < ds.len() && out.len() < max_total
        invariant
            dv == decoded_view(ds@),
            out_len + i == out.len(),
            out.len() <= max_total,
            out_len < max_total,
            i <= ds.len(),
            i <= k,
            k == room(ds.len() as int, out_len, max_total as int),
            consumed == total_len(dv.take(i as int)),
            insns_view(out@) == start + dv.take(i as int).map_values(|d: DecodedView| decoded_row(d)),
        decreases ds.len() - i,
    {
        let row = decoded_row_of(&ds[i]);
        push_row(out, row);
        consumed = if consumed > usize::MAX - ds[i].bytes.len() {
            usize::MAX
        } else {
            consumed + ds[i].bytes.len()
        };
        i = i + 1;
        assert(dv.take(i as int).drop_last() =~= dv.take(i - 1));
        assert(dv.take(i as int).map_values(|d: DecodedView| decoded_row(d)) =~= dv.take(i - 1).map_values(
            |d: DecodedView| decoded_row(d),
        ).push(decoded_row(dv[i - 1])));
    }
    assert(i == k);
    let ghost rows = dv.take(k).map_values(|d: DecodedView| decoded_row(d));
    if consumed == 0 {
        push_row(out, Insn::bad(addr, code[offset]));
        assert(insns_view(out@) =~= start + rows.push(bad_row(addr, code@[offset as int])));
        offset + 1
    } else {
        if offset > usize::MAX - consumed {
            usize::MAX
        } else {
            offset + consumed
        }
    }
}

/// Whether every decoded instruction has from 1 to 24 bytes.
pub open spec fn all_sized(ds: Seq<DecodedView>) -> bool {
    forall|i: int| 0 <= i < ds.len() ==> 1 <= #[trigger] ds[i].bytes.len() <= 24
}

/// The names Capstone gives the group ids `ids`, in order, skipping ids it
/// has no name for.
pub open spec fn group_names_of(config: EngineConfig, ids: Seq<u8>) -> Seq<Seq<char>>
    decreases ids.len(),
{
    if ids.len() == 0 {
        Seq::empty()
    } else {
        let rest = group_names_of(config, ids.drop_last());
        match capstone_group_name(config, ids.last()) {
            Some(n) => rest.push(n),
            None => rest,
        }
    }
}

/// A decoded instruction with the names of its groups (none when Capstone
/// has no detail for it).
pub open spec fn decoded_of(config: EngineConfig, x: RawView) -> DecodedView {
    DecodedView {
        address: x.address,
        bytes: x.bytes,
        mnemonic: x.mnemonic,
        op_str: x.op_str,
        group_names: match capstone_insn_groups(config, x) {
            Some(ids) => group_names_of(config, ids),
            None => Seq::empty(),
        },
    }
}

/// What decoding `code` at `addr` yields: Capstone's instructions with their
/// group names, or nothing when Capstone reports an error.
pub open spec fn spec_decode_at(config: EngineConfig, code: Seq<u8>, addr: u64) -> Seq<DecodedView> {
    match capstone_disasm(config, code, addr) {
        Some(xs) => xs.map_values(|x: RawView| decoded_of(config, x)),
        None => Seq::empty(),
    }
}

/// The number of bytes of the first `i` decoded instructions of `ds`.
pub open spec fn dec_prefix(ds: Seq<DecodedView>, i: int) -> int
    decreases i,
{
    if i <= 0 {
        0
    } else {
        dec_prefix(ds, i - 1) + ds[i - 1].bytes.len()
    }
}

/// Whether decoded instructions are consecutive in `code` from its start,
/// each at `addr` plus the bytes before it.
#[verifier::opaque]
pub open spec fn decoded_contiguous(ds: Seq<DecodedView>, code: Seq<u8>, addr: u64) -> bool {
    forall|i: int|
        0 <= i < ds.len() ==> {
            &&& dec_prefix(ds, i) + ds[i].bytes.len() <= code.len()
            &&& #[trigger] ds[i].bytes == code.subrange(dec_prefix(ds, i), dec_prefix(ds, i) + ds[i].bytes.len())
            &&& ds[i].address == addr.wrapping_add(dec_prefix(ds, i) as u64)
        }
}

proof fn lemma_prefix_map(config: EngineConfig, xs: Seq<RawView>, i: int)
    requires
        0 <= i <= xs.len(),
    ensures
        dec_prefix(xs.map_values(|x: RawView| decoded_of(config, x)), i) == raw_prefix(xs, i),
    decreases i,
{
    if i > 0 {
        lemma_prefix_map(config, xs, i - 1);
    }
}

/// Decodes `code` at `addr` with Capstone and collects each instruction with
/// the names of its groups (no names when Capstone has no detail for it).
fn decode_at(e: &Engine, code: &[u8], addr: u64) -> (r: Vec<DecodedInsn>)
    ensures
        decoded_view(r@) == spec_decode_at(e@, code@, addr),
        all_sized(decoded_view(r@)),
        decoded_contiguous(decoded_view(r@), code@, addr),
{
    let mut out: Vec<DecodedInsn> = Vec::new();
    let d = match cs_disasm_all(e, code, addr) {
        Some(d) => d,
        None => {
            assert(decoded_view(out@) =~= Seq::<DecodedView>::empty());
            proof {
                reveal(decoded_contiguous);
            }
            return out;
        },
    };
    let ghost xs = d.items();
    assert(raws_contiguous(xs, code@, addr));
    let ghost want = xs.map_values(|x: RawView| decoded_of(e@, x));
    let n = decoded_len(&d);
    let mut i: usize = 0;
    while i < n
        invariant
            i <= n,
            n == xs.len(),
            xs == d.items(),
            d.config() == e@,
            raws_sized(xs),
            want == xs.map_values(|x: RawView| decoded_of(e@, x)),
            decoded_view(out@) == want.take(i as int),
        decreases n - i,
    {
        let raw = match decoded_insn(&d, i) {
            Some(x) => x,
            None => {
                assert(false);
                return out;
            },
        };
        let mut names: Vec<String> = Vec::new();
        let ghost gids = capstone_insn_groups(e@, xs[i as int]);
        match decoded_group_ids(&d, i) {
            Some(ids) => {
                let mut k: usize = 0;
                while k < ids.len()
                    invariant
                        k <= ids.len(),
                        strings_view(names@) == group_names_of(e@, ids@.take(k as int)),
                    decreases ids.len() - k,
                {
                    let ghost pre = strings_view(names@);
                    let ghost t1 = ids@.take(k + 1);
                    assert(t1.drop_last() =~= ids@.take(k as int));
                    match cs_group_name(e, ids[k]) {
                        Some(name) => {
                            let ghost nv = name@;
                            let ghost before = names@;
                            names.push(name);
                            assert(strings_view(names@) =~= strings_view(before).push(nv));
                        },
                        None => {},
                    }
                    k = k + 1;
                }
                assert(ids@.take(ids.len() as int) =~= ids@);
            },
            None => {
                assert(strings_view(names@) =~= Seq::<Seq<char>>::empty());
            },
        }
        let ghost pre = decoded_view(out@);
        let di = DecodedInsn {
            address: raw.address,
            bytes: raw.bytes,
            mnemonic: raw.mnemonic,
            op_str: raw.op_str,
            group_names: names,
        };
        assert(di@ == decoded_of(e@, xs[i as int]));
        out.push(di);
        assert(decoded_view(out@) =~= pre.push(want[i as int]));
        assert(pre.push(want[i as int]) =~= want.take(i + 1));
        i = i + 1;
    }
    proof {
        assert(want.take(n as int) =~= want);
        assert forall|j: int| 0 <= j < want.len() implies 1 <= #[trigger] want[j].bytes.len() <= 24 by {
            assert(want[j] == decoded_of(e@, xs[j]));
        }
        reveal(decoded_contiguous);
        assert forall|j: int| 0 <= j < want.len() implies {
            &&& dec_prefix(want, j) + want[j].bytes.len() <= code@.len()
            &&& #[trigger] want[j].bytes == code@.subrange(dec_prefix(want, j), dec_prefix(want, j) + want[j].bytes.len())
            &&& want[j].address == addr.wrapping_add(dec_prefix(want, j) as u64)
        } by {
            assert(want[j] == decoded_of(e@, xs[j]));
            lemma_prefix_map(e@, xs, j);
            assert(xs[j].bytes == code@.subrange(raw_prefix(xs, j), raw_prefix(xs, j) + xs[j].bytes.len()));
        }
    }
    out
}

proof fn lemma_step_rows(
    ds: Seq<DecodedView>,
    code: Seq<u8>,
    offset: int,
    base: u64,
    out_len: int,
    max_total: int,
)
    requires
        all_sized(ds),
        0 <= offset < code.len(),
        code.len() <= usize::MAX,
        0 <= out_len < max_total,
    ensures
        ({
            let (rows, next) = spec_step(ds, code, offset, base, out_len, max_total);
            &&& 1 <= rows.len()
            &&& out_len + rows.len() <= max_total
            &&& next > offset
            &&& forall|i: int| 0 <= i < rows.len() ==> row_ok(#[trigger] rows[i])
        }),
{
    let addr = base.wrapping_add(offset as u64);
    if ds.len() == 0 {
        lemma_bad_row_ok(addr, code[offset]);
    } else {
        let k = room(ds.len() as int, out_len, max_total);
        let taken = ds.take(k);
        assert(1 <= k <= ds.len());
        assert(all_sized(taken)) by {
            assert forall|i: int| 0 <= i < taken.len() implies 1 <= #[trigger] taken[i].bytes.len() <= 24 by {
                assert(taken[i] == ds[i]);
            }
        }
        lemma_total_len_positive(taken);
        let rows = taken.map_values(|d: DecodedView| decoded_row(d));
        assert forall|i: int| 0 <= i < rows.len() implies row_ok(#[trigger] rows[i]) by {
            assert(1 <= taken[i].bytes.len() <= 24);
            lemma_decoded_row_ok(taken[i]);
        }
    }
}

proof fn lemma_total_len_positive(ds: Seq<DecodedView>)
    requires
        all_sized(ds),
        ds.len() >= 1,
    ensures
        total_len(ds) >= 1,
    decreases ds.len(),
{
    if ds.len() > 1 {
        lemma_total_len_positive(ds.drop_last());
    }
}

/// The bytes of `rows`, concatenated.
pub open spec fn rows_bytes(rows: Seq<InsnView>) -> Seq<u8>
    decreases rows.len(),
{
    if rows.len() == 0 {
        Seq::empty()
    } else {
        rows_bytes(rows.drop_last()) + rows.last().bytes
    }
}

/// Whether `rows` cover `code` at address `a`: their bytes, concatenated,
/// are `code`, and each row sits at `a` plus the bytes of the rows before it
/// (so the first is at `a` and each next one follows the previous one's
/// bytes).
pub open spec fn rows_cover(rows: Seq<InsnView>, code: Seq<u8>, a: u64) -> bool {
    &&& rows_bytes(rows) == code
    &&& forall|i: int|
        0 <= i < rows.len() ==> #[trigger] rows[i].address == a.wrapping_add(
            rows_bytes(rows.take(i)).len() as u64,
        )
}

/// Whether each row of `rows` after the first sits right after the one
/// before it: at that row's address plus its size.
pub open spec fn rows_chained(rows: Seq<InsnView>) -> bool {
    forall|i: int|
        0 <= i < rows.len() - 1 ==> #[trigger] rows[i + 1].address == rows[i].address.wrapping_add(
            rows[i].size as u64,
        )
}

/// Rows that cover a byte range and are well formed step by their sizes:
/// each next row's address is the previous one's plus its size (wrapping at
/// the top of the address space).
pub proof fn law_covering_rows_are_chained(rows: Seq<InsnView>, code: Seq<u8>, a: u64)
    requires
        rows_cover(rows, code, a),
        rows_ok(rows),
        code.len() <= u64::MAX,
    ensures
        rows_chained(rows),
{
    assert forall|i: int| 0 <= i < rows.len() - 1 implies #[trigger] rows[i + 1].address
        == rows[i].address.wrapping_add(rows[i].size as u64) by {
        let t = rows.take(i + 1);
        assert(t.drop_last() =~= rows.take(i));
        assert(t.last() == rows[i]);
        assert(rows_bytes(t) == rows_bytes(rows.take(i)) + rows[i].bytes);
        lemma_rows_bytes_concat(t, rows.skip(i + 1));
        assert(t + rows.skip(i + 1) =~= rows);
        let x = rows_bytes(rows.take(i)).len() as int;
        let y = rows[i].bytes.len() as int;
        assert(x + y <= code.len());
        assert(rows[i].size as int == y);
        lemma_wrapping_assoc(a, x, y);
    }
}

proof fn lemma_rows_bytes_at_least(rows: Seq<InsnView>)
    requires
        rows_ok(rows),
    ensures
        rows_bytes(rows).len() >= rows.len(),
    decreases rows.len(),
{
    if rows.len() > 0 {
        assert(rows_ok(rows.drop_last())) by {
            assert forall|i: int| 0 <= i < rows.drop_last().len() implies row_ok(#[trigger] rows.drop_last()[i]) by {
                assert(rows.drop_last()[i] == rows[i]);
            }
        }
        lemma_rows_bytes_at_least(rows.drop_last());
        assert(row_ok(rows[rows.len() - 1]));
    }
}

/// Rows that cover a byte range lying below the top of the address space,
/// and are well formed, sit in that range in increasing address order.
pub proof fn lemma_covered_rows_in_order(rows: Seq<InsnView>, code: Seq<u8>, a: u64)
    requires
        rows_cover(rows, code, a),
        rows_ok(rows),
        a + code.len() <= u64::MAX + 1,
    ensures
        forall|i: int| 0 <= i < rows.len() ==> a <= #[trigger] rows[i].address && rows[i].address < a + code.len(),
        forall|i: int, j: int| 0 <= i < j < rows.len() ==> rows[i].address < rows[j].address,
{
    assert forall|i: int| 0 <= i < rows.len() implies {
        &&& rows[i].address as int == a + rows_bytes(rows.take(i)).len()
        &&& rows_bytes(rows.take(i)).len() + rows[i].bytes.len() <= code.len()
    } by {
        let t = rows.take(i + 1);
        assert(t.drop_last() =~= rows.take(i));
        assert(t.last() == rows[i]);
        lemma_rows_bytes_concat(t, rows.skip(i + 1));
        assert(t + rows.skip(i + 1) =~= rows);
        assert(row_ok(rows[i]));
    }
    assert forall|i: int, j: int| 0 <= i < j < rows.len() implies rows[i].address < rows[j].address by {
        let mid = rows.subrange(i, j);
        assert(rows.take(i) + mid =~= rows.take(j));
        lemma_rows_bytes_concat(rows.take(i), mid);
        assert(rows_ok(mid)) by {
            assert forall|k: int| 0 <= k < mid.len() implies row_ok(#[trigger] mid[k]) by {
                assert(mid[k] == rows[i + k]);
            }
        }
        lemma_rows_bytes_at_least(mid);
        assert(rows[i].address as int == a + rows_bytes(rows.take(i)).len());
        assert(rows[j].address as int == a + rows_bytes(rows.take(j)).len());
    }
    assert forall|i: int| 0 <= i < rows.len() implies a <= #[trigger] rows[i].address && rows[i].address < a
        + code.len() by {
        assert(rows[i].address as int == a + rows_bytes(rows.take(i)).len());
        assert(row_ok(rows[i]));
    }
}

proof fn lemma_rows_bytes_concat(a: Seq<InsnView>, b: Seq<InsnView>)
    ensures
        rows_bytes(a + b) == rows_bytes(a) + rows_bytes(b),
    decreases b.len(),
{
    if b.len() == 0 {
        assert(a + b =~= a);
        assert(rows_bytes(a) + Seq::<u8>::empty() =~= rows_bytes(a));
    } else {
        lemma_rows_bytes_concat(a, b.drop_last());
        assert((a + b).drop_last() =~= a + b.drop_last());
        assert((a + b).last() == b.last());
        assert(rows_bytes(a) + rows_bytes(b.drop_last()) + b.last().bytes =~= rows_bytes(a) + (
        rows_bytes(b.drop_last()) + b.last().bytes));
    }
}

proof fn lemma_wrapping_assoc(a: u64, x: int, y: int)
    requires
        0 <= x,
        0 <= y,
        x + y <= u64::MAX,
    ensures
        a.wrapping_add(x as u64).wrapping_add(y as u64) == a.wrapping_add((x + y) as u64),
{
}

proof fn lemma_dec_prefix_bounds(ds: Seq<DecodedView>, i: int)
    requires
        0 <= i <= ds.len(),
        all_sized(ds),
    ensures
        dec_prefix(ds, i) >= i,
    decreases i,
{
    if i > 0 {
        lemma_dec_prefix_bounds(ds, i - 1);
    }
}

proof fn lemma_total_len_prefix(ds: Seq<DecodedView>, i: int)
    requires
        0 <= i <= ds.len(),
        dec_prefix(ds, i) <= usize::MAX,
    ensures
        total_len(ds.take(i)) == dec_prefix(ds, i),
    decreases i,
{
    if i > 0 {
        assert(ds.take(i).drop_last() =~= ds.take(i - 1));
        assert(ds.take(i).last() == ds[i - 1]);
        lemma_total_len_prefix(ds, i - 1);
    } else {
        assert(ds.take(0).len() == 0);
    }
}

proof fn lemma_decoded_rows_cover(ds: Seq<DecodedView>, code: Seq<u8>, addr: u64, i: int)
    requires
        0 <= i <= ds.len(),
        decoded_contiguous(ds, code, addr),
    ensures
        0 <= dec_prefix(ds, i) <= code.len(),
        rows_bytes(ds.map_values(|d: DecodedView| decoded_row(d)).take(i)) == code.take(dec_prefix(ds, i)),
    decreases i,
{
    reveal(decoded_contiguous);
    let rows = ds.map_values(|d: DecodedView| decoded_row(d));
    if i == 0 {
        assert(rows.take(0) =~= Seq::<InsnView>::empty());
        assert(code.take(0) =~= Seq::<u8>::empty());
    } else {
        lemma_decoded_rows_cover(ds, code, addr, i - 1);
        let p = dec_prefix(ds, i - 1);
        assert(0 <= i - 1 < ds.len());
        assert(ds[i - 1].bytes == code.subrange(p, p + ds[i - 1].bytes.len()));
        assert(p + ds[i - 1].bytes.len() <= code.len());
        assert(dec_prefix(ds, i) == p + ds[i - 1].bytes.len());
        assert(rows.take(i).drop_last() =~= rows.take(i - 1));
        assert(rows.take(i).last() == decoded_row(ds[i - 1]));
        assert(code.take(p) + code.subrange(p, p + ds[i - 1].bytes.len()) =~= code.take(dec_prefix(ds, i)));
    }
}

proof fn lemma_decoded_count_bound(ds: Seq<DecodedView>, code: Seq<u8>, addr: u64)
    requires
        all_sized(ds),
        decoded_contiguous(ds, code, addr),
    ensures
        ds.len() <= code.len(),
{
    lemma_dec_prefix_bounds(ds, ds.len() as int);
    lemma_decoded_rows_cover(ds, code, addr, ds.len() as int);
}

#[verifier::rlimit(50)]
proof fn lemma_step_covers(
    ds: Seq<DecodedView>,
    code: Seq<u8>,
    offset: int,
    base: u64,
    out_len: int,
    max_total: int,
)
    requires
        all_sized(ds),
        decoded_contiguous(ds, code.subrange(offset, code.len() as int), base.wrapping_add(offset as u64)),
        0 <= offset < code.len(),
        code.len() <= usize::MAX,
        0 <= out_len,
        ds.len() == 0 || out_len + ds.len() <= max_total,
    ensures
        ({
            let (rows, next) = spec_step(ds, code, offset, base, out_len, max_total);
            &&& offset < next <= code.len()
            &&& rows.len() <= next - offset
            &&& rows_bytes(rows) == code.subrange(offset, next)
            &&& forall|i: int|
                0 <= i < rows.len() ==> #[trigger] rows[i].address == base.wrapping_add(
                    (offset + rows_bytes(rows.take(i)).len()) as u64,
                )
        }),
{
    let addr = base.wrapping_add(offset as u64);
    let rest = code.subrange(offset, code.len() as int);
    if ds.len() == 0 {
        let rows = seq![bad_row(addr, code[offset])];
        assert(rows.drop_last() =~= Seq::<InsnView>::empty());
        assert(rows_bytes(rows.drop_last()) =~= Seq::<u8>::empty());
        assert(rows.last().bytes == seq![code[offset]]);
        assert(rows_bytes(rows) == rows_bytes(rows.drop_last()) + rows.last().bytes);
        assert(rows_bytes(rows) =~= code.subrange(offset, offset + 1));
        assert(rows.take(0) =~= Seq::<InsnView>::empty());
        assert(base.wrapping_add((offset + 0) as u64) == addr);
    } else {
        let n = ds.len() as int;
        lemma_dec_prefix_bounds(ds, n);
        lemma_decoded_rows_cover(ds, rest, addr, n);
        let p = dec_prefix(ds, n);
        assert(room(n, out_len, max_total) == n);
        assert(ds.take(n) =~= ds);
        lemma_total_len_prefix(ds, n);
        let rows = ds.map_values(|d: DecodedView| decoded_row(d));
        assert(rows.take(n) =~= rows);
        assert(rest.take(p) =~= code.subrange(offset, offset + p));
        assert forall|i: int| 0 <= i < rows.len() implies #[trigger] rows[i].address == base.wrapping_add(
            (offset + rows_bytes(rows.take(i)).len()) as u64,
        ) by {
            lemma_decoded_rows_cover(ds, rest, addr, i);
            lemma_dec_prefix_bounds(ds, i);
            assert(rest.take(dec_prefix(ds, i)).len() == dec_prefix(ds, i));
            reveal(decoded_contiguous);
            assert(ds[i].bytes == rest.subrange(dec_prefix(ds, i), dec_prefix(ds, i) + ds[i].bytes.len()));
            assert(ds[i].address == addr.wrapping_add(dec_prefix(ds, i) as u64));
            lemma_wrapping_assoc(base, offset, dec_prefix(ds, i));
        }
    }
}

proof fn lemma_cover_extend(
    app: Seq<InsnView>,
    rows: Seq<InsnView>,
    code: Seq<u8>,
    base: u64,
    offset: int,
    next: int,
)
    requires
        0 <= offset < next <= code.len(),
        rows_cover(app, code.take(offset), base),
        rows_bytes(rows) == code.subrange(offset, next),
        forall|i: int|
            0 <= i < rows.len() ==> #[trigger] rows[i].address == base.wrapping_add(
                (offset + rows_bytes(rows.take(i)).len()) as u64,
            ),
    ensures
        rows_cover(app + rows, code.take(next), base),
{
    lemma_rows_bytes_concat(app, rows);
    assert(code.take(offset) + code.subrange(offset, next) =~= code.take(next));
    let all = app + rows;
    assert(rows_bytes(app).len() == offset);
    assert forall|i: int| 0 <= i < all.len() implies #[trigger] all[i].address == base.wrapping_add(
        rows_bytes(all.take(i)).len() as u64,
    ) by {
        if i < app.len() {
            assert(all.take(i) =~= app.take(i));
            assert(all[i] == app[i]);
        } else {
            let j = i - app.len();
            assert(all.take(i) =~= app + rows.take(j));
            lemma_rows_bytes_concat(app, rows.take(j));
            assert(all[i] == rows[j]);
        }
    }
}

/// Whether every row of `rows` is well formed.
pub open spec fn rows_ok(rows: Seq<InsnView>) -> bool {
    forall|i: int| 0 <= i < rows.len() ==> row_ok(#[trigger] rows[i])
}

/// The rows a linear sweep of `code` (based at `base`) appends from `offset`
/// on, when `out_len` of `max_total` rows are already used: at each offset,
/// what Capstone decodes from the rest of `code` becomes rows (see
/// [`spec_step`]) and the sweep moves to the next offset, until the end of
/// `code` or the cap.
pub open spec fn sweep_rows(
    config: EngineConfig,
    code: Seq<u8>,
    base: u64,
    offset: int,
    out_len: int,
    max_total: int,
) -> Seq<InsnView>
    decreases code.len() - offset,
{
    if offset < 0 || offset >= code.len() || out_len >= max_total {
        Seq::empty()
    } else {
        let ds = spec_decode_at(
            config,
            code.subrange(offset, code.len() as int),
            base.wrapping_add(offset as u64),
        );
        let step = spec_step(ds, code, offset, base, out_len, max_total);
        if step.1 <= offset || step.1 >= code.len() {
            step.0
        } else {
            step.0 + sweep_rows(config, code, base, step.1, out_len + step.0.len(), max_total)
        }
    }
}

proof fn lemma_sweep_rows_unfold(
    config: EngineConfig,
    code: Seq<u8>,
    base: u64,
    offset: int,
    out_len: int,
    max_total: int,
)
    requires
        0 <= offset < code.len(),
        out_len < max_total,
        spec_step(
            spec_decode_at(config, code.subrange(offset, code.len() as int), base.wrapping_add(offset as u64)),
            code,
            offset,
            base,
            out_len,
            max_total,
        ).1 > offset,
    ensures
        ({
            let step = spec_step(
                spec_decode_at(config, code.subrange(offset, code.len() as int), base.wrapping_add(offset as u64)),
                code,
                offset,
                base,
                out_len,
                max_total,
            );
            sweep_rows(config, code, base, offset, out_len, max_total) == step.0 + sweep_rows(
                config,
                code,
                base,
                step.1,
                out_len + step.0.len(),
                max_total,
            )
        }),
{
    let step = spec_step(
        spec_decode_at(config, code.subrange(offset, code.len() as int), base.wrapping_add(offset as u64)),
        code,
        offset,
        base,
        out_len,
        max_total,
    );
    if step.1 >= code.len() {
        assert(sweep_rows(config, code, base, step.1, out_len + step.0.len(), max_total) =~= Seq::<
            InsnView,
        >::empty());
        assert(step.0 + Seq::<InsnView>::empty() =~= step.0);
    }
}

/// Linear-sweeps `code` starting at virtual address `base`, appending rows to
/// `out`: each decoded instruction becomes a row, an undecodable byte becomes
/// a one-byte `.byte` row and the sweep resumes at the next byte. Stops when
/// `out` holds `max_total` rows (an `out` already that full gets nothing).
/// Returns the number of rows appended. When the cap leaves room for one row
/// per byte, or is not reached, the appended rows cover `code` (see
/// [`rows_cover`]).
pub fn sweep_into(e: &Engine, code: &[u8], base: u64, out: &mut Vec<Insn>, max_total: usize) -> (n:
    usize)
    ensures
        insns_view(final(out)@) == insns_view(old(out)@) + sweep_rows(
            e@,
            code@,
            base,
            0,
            old(out).len() as int,
            max_total as int,
        ),
        n == final(out).len() - old(out).len(),
        old(out).len() <= max_total ==> final(out).len() <= max_total,
        old(out).len() >= max_total ==> n == 0,
        rows_ok(insns_view(final(out)@).skip(old(out).len() as int)),
        code.len() > 0 && old(out).len() < max_total ==> n >= 1,
        old(out).len() + code.len() <= max_total ==> n <= code.len() && rows_cover(
            insns_view(final(out)@).skip(old(out).len() as int),
            code@,
            base,
        ),
        final(out).len() < max_total ==> rows_cover(
            insns_view(final(out)@).skip(old(out).len() as int),
            code@,
            base,
        ),
{
    let start = out.len();
    let ghost before = insns_view(out@);
    let ghost whole = sweep_rows(e@, code@, base, 0, start as int, max_total as int);
    let mut offset: usize = 0;
    assert(insns_view(out@) + whole =~= before + whole);
    assert(insns_view(out@).skip(start as int) =~= Seq::<InsnView>::empty());
    assert(code@.take(0) =~= Seq::<u8>::empty());
    while offset < code.len() && out.len() < max_total
        invariant
            start <= out.len(),
            start <= max_total ==> out.len() <= max_total,
            start >= max_total ==> out.len() == start,
            before == insns_view(old(out)@),
            start == old(out).len(),
            whole == sweep_rows(e@, code@, base, 0, start as int, max_total as int),
            insns_view(out@) + sweep_rows(e@, code@, base, offset as int, out.len() as int, max_total as int)
                == before + whole,
            insns_view(out@).take(start as int) == before,
            rows_ok(insns_view(out@).skip(start as int)),
            offset > 0 && code.len() > 0 ==> out.len() > start,
            start + code.len() <= max_total ==> out.len() <= start + offset,
            start + code.len() <= max_total || out.len() < max_total ==> {
                &&& offset <= code.len()
                &&& rows_cover(insns_view(out@).skip(start as int), code@.take(offset as int), base)
            },
        decreases usize::MAX - offset,
    {
        let addr = base.wrapping_add(offset as u64);
        let remaining = &code[offset..code.len()];
        let ds = decode_at(e, remaining, addr);
        let ghost pre = insns_view(out@);
        let ghost pre_len = out.len() as int;
        let next = sweep_step(&ds, code, offset, base, out, max_total);
        proof {
            lemma_step_rows(decoded_view(ds@), code@, offset as int, base, pre_len, max_total as int);
            let rows = spec_step(decoded_view(ds@), code@, offset as int, base, pre_len, max_total as int).0;
            assert(remaining@ == code@.subrange(offset as int, code.len() as int));
            lemma_sweep_rows_unfold(e@, code@, base, offset as int, pre_len, max_total as int);
            assert(insns_view(out@) == pre + rows);
            let rest = sweep_rows(e@, code@, base, next as int, out.len() as int, max_total as int);
            assert(insns_view(out@) + rest =~= pre + (rows + rest));
            assert(insns_view(out@).take(start as int) =~= pre.take(start as int));
            assert(insns_view(out@).skip(start as int) =~= pre.skip(start as int) + rows);
            let dsv = decoded_view(ds@);
            if dsv.len() > 0 && pre_len + dsv.len() > max_total {
                assert(rows.len() == max_total - pre_len);
            }
            if start + code.len() <= max_total {
                lemma_decoded_count_bound(dsv, remaining@, addr);
            }
            if start + code.len() <= max_total || out.len() < max_total {
                lemma_step_covers(
                    decoded_view(ds@),
                    code@,
                    offset as int,
                    base,
                    pre_len,
                    max_total as int,
                );
                lemma_cover_extend(
                    pre.skip(start as int),
                    rows,
                    code@,
                    base,
                    offset as int,
                    next as int,
                );
            }
            assert forall|i: int| 0 <= i < insns_view(out@).skip(start as int).len() implies row_ok(
                #[trigger] insns_view(out@).skip(start as int)[i],
            ) by {
                if i < pre.len() - start {
                    assert(insns_view(out@).skip(start as int)[i] == pre.skip(start as int)[i]);
                } else {
                    assert(insns_view(out@).skip(start as int)[i] == rows[i - (pre.len() - start)]);
                }
            }
        }
        offset = next;
    }
    assert(sweep_rows(e@, code@, base, offset as int, out.len() as int, max_total as int) =~= Seq::<
        InsnView,
    >::empty());
    assert(insns_view(out@) =~= insns_view(out@) + Seq::<InsnView>::empty());
    assert(start + code.len() <= max_total || out.len() < max_total ==> code@.take(offset as int)
        =~= code@);
    out.len() - start
}

/// What [`decode`] returns for a selection: the sweep of `code` at `base` under the selection's configuration, capped
/// at `MAX_INSNS` rows.
pub open spec fn spec_decode(sel: ArchSelView, code: Seq<u8>, base: u64) -> Seq<InsnView> {
    sweep_rows(spec_engine_config(sel), code, base, 0, 0, MAX_INSNS as int)
}

/// Decodes a standalone slice in one call, bounded to `MAX_INSNS` rows.
pub fn decode(sel: &ArchSel, code: &[u8], base: u64) -> (r: Vec<Insn>)
    ensures
        insns_view(r@) == spec_decode(sel@, code@, base),
        r.len() <= MAX_INSNS,
        rows_ok(insns_view(r@)),
        code.len() <= MAX_INSNS ==> rows_cover(insns_view(r@), code@, base) && rows_chained(
            insns_view(r@),
        ),
{
    let mut out: Vec<Insn> = Vec::new();
    if let Some(e) = build(sel) {
        sweep_into(&e, code, base, &mut out, MAX_INSNS);
        assert(insns_view(out@).skip(0) =~= insns_view(out@));
        proof {
            if code.len() <= MAX_INSNS {
                law_covering_rows_are_chained(insns_view(out@), code@, base);
            }
        }
        assert(Seq::<InsnView>::empty() + sweep_rows(e@, code@, base, 0, 0, MAX_INSNS as int)
            =~= sweep_rows(e@, code@, base, 0, 0, MAX_INSNS as int));
    } else {
        assert(insns_view(out@) =~= Seq::<InsnView>::empty());
    }
    out
}

} // verus!
