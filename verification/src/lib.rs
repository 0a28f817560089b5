//! A translator from a stack-based virtual-machine language to assembly for a
//! 16-bit register machine, with its translation rules stated as contracts.
//!
//! A program is a list of modules, each a name and a source text. Every
//! line of a source text is one instruction: an operation and up to two
//! arguments. [`translate`] turns a program into one assembly text, or into
//! the list of all diagnostics if any instruction cannot be translated.
//!
//! The modules come in three layers. `text`, `source` and `instruction`
//! read source text. `assembly` and `templates` describe the assembly that
//! is written, and `memory`, `arithmetic`, `branching`, `linkage` and
//! `translate` write it. `machine` and `execution` are a model of the
//! target machine, and the modules whose names end in `_laws` prove on it
//! what the written assembly does, that its labels never collide, and how
//! the text that is written ends.

pub mod arithmetic;
pub mod assembly;
pub mod branching;
pub mod collision_laws;
pub mod control_laws;
pub mod ending_laws;
pub mod execution;
pub mod instruction;
pub mod label_laws;
pub mod linkage;
pub mod linkage_laws;
pub mod machine;
pub mod memory;
pub mod namespace_laws;
pub mod outcome;
pub mod program_laws;
pub mod resolution_laws;
pub mod round_trip_laws;
pub mod scenario_laws;
pub mod source;
pub mod stack_laws;
pub mod templates;
pub mod text;
pub mod translate;

pub use arithmetic::{generate_1op, generate_2op, generate_cmp};
pub use branching::generate_branching;
pub use instruction::{Diagnostic, DiagnosticKind, Instruction};
pub use linkage::generate_functions;
pub use memory::{
    generate_memop, pointer_fmt, segment_fmt, static_fmt, temp_fmt, MemOpType, Segment,
};
pub use source::parse_contents;
pub use translate::{generate_code, translate};
