//! Plain records of what goblin reports about a container, and the view
//! helpers shared by the modules that read them.
use vstd::prelude::*;

verus! {

/// The container family goblin recognized.
#[derive(Debug, Clone, Copy, PartialEq, Eq, Structural)]
pub enum ContainerKind {
    Elf,
    Pe,
    Mach,
    FatMach,
    /// Not a container goblin recognized (or one it failed to parse).
    Unknown,
}

/// The ELF header fields the triage logic reads.
#[derive(Debug, Clone, Copy, PartialEq, Eq, Structural)]
pub struct ElfHeader {
    /// `e_machine`.
    pub machine: u16,
    pub little_endian: bool,
    pub is_64: bool,
    /// Entry virtual address.
    pub entry: u64,
}

/// The PE header fields the triage logic reads.
#[derive(Debug, Clone, Copy, PartialEq, Eq, Structural)]
pub struct PeHeader {
    /// COFF `Machine`.
    pub machine: u16,
    pub is_64: bool,
    pub image_base: u64,
    /// Entry point RVA.
    pub entry: u32,
}

/// The Mach-O header fields the triage logic reads.
#[derive(Debug, Clone, Copy, PartialEq, Eq, Structural)]
pub struct MachHeader {
    /// `cputype`.
    pub cputype: u32,
    pub little_endian: bool,
    pub is_64: bool,
    /// Entry virtual address.
    pub entry: u64,
}

/// The header of a container: what `probe` and `entrypoint` start from.
#[derive(Debug, Clone, Copy, PartialEq, Eq, Structural)]
pub enum Header {
    Elf(ElfHeader),
    Pe(PeHeader),
    Mach(MachHeader),
    /// A fat Mach-O, with the header of its first slice when that slice is a
    /// Mach-O binary goblin could parse.
    Fat(Option<MachHeader>),
    /// No recognized container.
    Raw,
}

/// The view of an optional `String`.
pub open spec fn opt_string_view(o: Option<String>) -> Option<Seq<char>> {
    match o {
        Some(s) => Some(s@),
        None => None,
    }
}

} // verus!
