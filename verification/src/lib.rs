//! Evolutionary search for self-replicating programs of a one-instruction
//! machine.
//!
//! The machine knows a single operation: subtract one memory cell from
//! another and branch if the result is not positive. A program is a sequence
//! of signed integers that is loaded at the bottom of a zeroed memory image and
//! run under a step budget. The search keeps a population of such programs,
//! scores each by how much of itself it leaves elsewhere in memory, and breeds
//! the next generation by crossover and mutation until one program is found
//! that leaves an exact copy of itself, or the generation budget runs out.
//!
//! The functions of this crate are verified against contracts stated over
//! mathematical models: the machine in [`machine`], the scoring in [`scan`].
//! The exceptions are the few functions that call into the `rand` and `rayon`
//! crates, in [`random`] and [`evolution`]: their contracts are taken on
//! trust, and each says so.

pub mod config;
pub mod evolution;
pub mod machine;
pub mod operators;
pub mod program;
pub mod random;
pub mod scan;
