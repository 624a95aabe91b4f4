//! Static disassembly and container triage over in-memory byte blobs.
//!
//! Every public function is a stateless transform over a `&[u8]` blob that
//! returns plain structs. Container parsing is delegated to goblin and
//! instruction decoding to Capstone; the selection, sweep, extraction and
//! triage logic around them is verified here.
pub mod limits;
pub mod text;
pub mod strings;
pub mod groups;
pub mod container;
pub mod probe;
pub mod machentry;
pub mod objfile;
pub mod binds;
pub mod sections;
pub mod imports;
pub mod entrypoint;
pub mod engine;
pub mod sweep;
pub mod mappings;
pub mod capabilities;
pub mod meta;
pub mod json;
pub mod laws;
pub mod format_laws;

pub use capabilities::{capabilities, Capability};
pub use engine::Insn;
pub use entrypoint::{entrypoint, EntryPoint};
pub use imports::{imports, Import};
pub use probe::{probe, ArchSel, Probe, SUPPORTED_ARCHES, SUPPORTED_MODES};
pub use sections::{sections, Section};
pub use strings::{strings, StringHit};
pub use sweep::disassemble;
