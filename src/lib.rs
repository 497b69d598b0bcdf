//! Storage core of a small version-control tool: content digests, a sharded
//! object store layout, repository discovery, a staging index ledger and the
//! status classification that compares them.

pub mod commands;
pub mod config;
pub mod error;
pub mod hashing;
pub mod locator;
pub mod object_store;
pub mod staging_area;
pub mod status;
pub mod text;

pub use commands::{
    validate_path, AddCommand, AddedFile, Cli, Command, ConfigCommand, ConfigName, ConfigOutcome,
    Executable, ExecutableCommand, FromString, HelpCommand, HelpTopic, InitCommand, RmCommand,
};
pub use config::{Config, User};
pub use error::KvcError;
pub use hashing::{generate_hash, read_file, segment_hash};
pub use locator::{
    candidate_roots, get_file_path_relative_to_root, get_kvc_root_folder, normalize_path, parent_dir,
    strip_root_prefix, Probe,
};
pub use object_store::{ObjectStore, PutPlan};
pub use staging_area::StagingArea;
pub use status::{file_status, FileStatus, StatusCommand, StatusReport};
