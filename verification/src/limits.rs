//! Hard caps that keep every transform bounded on adversarial input.
use vstd::prelude::*;

verus! {

/// Maximum number of instruction rows emitted by one `disassemble` call,
/// summed across every swept section.
pub const MAX_INSNS: usize = 5_000_000;

/// Maximum number of bytes fed to Capstone from any one section.
pub const MAX_SECTION_BYTES: usize = 67_108_864;

/// Maximum number of section rows returned by `sections`.
pub const MAX_SECTIONS: usize = 4_096;

/// Maximum number of import rows returned by `imports`.
pub const MAX_IMPORTS: usize = 65_536;

/// Maximum number of string rows returned by `strings`.
pub const MAX_STRINGS: usize = 200_000;

/// Maximum length, in characters, of one extracted string.
pub const MAX_STRING_LEN: usize = 4_096;

/// Maximum number of capability rows returned by `capabilities`.
pub const MAX_CAPABILITIES: usize = 4_096;

/// Maximum input size considered when scanning a whole blob.
pub const MAX_SCAN_BYTES: usize = 268_435_456;

} // verus!
