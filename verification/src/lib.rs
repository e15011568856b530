//! Deployment of shell completion scripts: where they go, how shells come to load them, and how
//! both are taken back.
//!
//! The library does no input or output. An operation gets the environment of the process and
//! the file system as values, and leaves on the file system what it changed there.
pub mod api;
pub mod disk;
pub mod environment;
pub mod error;
pub mod fs;
pub mod laws;
pub mod listing;
pub mod managed_block;
pub mod model;
pub mod path;
pub mod paths;
pub mod render;
pub mod service;
pub mod shell;
pub mod text;

pub use api::{
    default_install_path, detect_activation, detect_activation_at_path, install,
    install_with_policy, migrate_managed_blocks, uninstall, uninstall_with_policy,
};
pub use disk::{Content, Disk, Node, Step};
pub use environment::{Environment, Platform};
pub use error::{Error, IoError, IoErrorKind};
pub use model::{
    ActivationMode, ActivationPolicy, ActivationReport, Availability, CleanupReport, FailureKind,
    FailureReport, FileChange, InstallReport, InstallRequest, LegacyManagedBlock,
    MigrateManagedBlocksReport, MigrateManagedBlocksRequest, Operation, OperationEvent,
    OperationEventPhase, RemoveReport, Shell, UninstallRequest,
};
pub use path::FilePath;
pub use render::render_clap_completion_from_command;
