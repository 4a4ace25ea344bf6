//! ELF similarity hashing with telfhash: the symbols of an ELF file (or the
//! call destinations of its code) are hashed with TLSH, and files whose
//! digests lie close are grouped.
pub mod order;
pub mod text;
pub mod model;
pub mod error;
pub mod ports;
pub mod exclusions;
pub mod grouping;
pub mod analysis;
pub mod service;
pub mod tlsh;
pub mod elf;
pub mod engine;
pub mod legacy;
pub mod sarif;
pub mod debug_report;
pub mod output;
pub mod cli_mapper;

pub use engine::{group_results, hash_file, hash_paths, TelfhashEngine, TelfhashOptions};
pub use error::TelfhashError;
pub use model::{
    FailureReason, GroupingMode, GroupingResult, HashValue, NoSymbolsReason, NullDigestReason,
    TelfhashOutcome, TelfhashResult,
};
