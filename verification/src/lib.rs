//! Post-processing of finished downloads: PAR2 verification and repair,
//! RAR/7z/TAR/ZIP extraction, cleanup.
//!
//! The decisions of the pipeline are made here; the caller does the work in
//! between. A stage is a state machine: its methods take what came of the last
//! piece of work and say which comes next.
//!
//! - `pipeline`: verify, repair, extract, clean up
//! - `par2`: what a verification found, and what a repair made of it
//! - `rename`: PAR2 names for files that have lost theirs
//! - `extract`: archives, and archives in archives
//! - `unpack`: the external programs for RAR and 7z
//! - `entry`: the entries of ZIP and TAR archives
//! - `tree`: what stands on an output path, and what an extractor left behind
//! - `cleanup`: which files are removed
//! - `resources`: how many jobs do what at once
//! - `stage`, `error`: what a stage reports, and why an archive is refused
//! - `path`, `order`, `wildcard`, `text`: paths, their order, patterns, texts
pub mod cleanup;
pub mod entry;
pub mod error;
pub mod extract;
pub mod order;
pub mod par2;
pub mod path;
pub mod pipeline;
pub mod rename;
pub mod resources;
pub mod stage;
pub mod text;
pub mod tree;
pub mod unpack;
pub mod wildcard;

pub use extract::ArchiveType;
pub use par2::recovery_can_cover;
pub use pipeline::{PostProcConfig, PostProcResult};
pub use resources::{PostProcLimits, PostProcResourcePool, PostProcResourceSnapshot};
pub use unpack::find_unrar;
