//! Stack-unwind pipeline for a whole-program profiler of native Linux
//! binaries.
//!
//! The crate holds the verified core of the pipeline: lowering of DWARF
//! call-frame rules into a compact, binary-searchable unwind table
//! ([`ehframe`]), the wire encoding of that table ([`format`]), the bounded
//! stack walker that a sampling probe runs on every fire ([`unwinder`]), the
//! colon-separated probe grammar ([`probe`] and [`parse`]), the process
//! address map ([`maps`]), symbol resolution ([`elf`], [`kallsyms`]), and
//! sample aggregation with its text output ([`aggregate`]).
//!
//! Everything that touches the outside world - files, processes, the kernel
//! probe interface - stays in the surrounding application, which hands this
//! crate plain values and takes plain values back.

pub mod aggregate;
pub mod ehframe;
pub mod elf;
pub mod event;
pub mod format;
pub mod kallsyms;
pub mod maps;
pub mod parse;
pub mod pid;
pub mod probe;
pub mod text;
pub mod time;
pub mod unwinder;
