//! Release state and target resolution for building one project on many platforms.
pub mod commandline;
pub mod config;
pub mod error;
pub mod package;
pub mod paths;
pub mod run;
pub mod status;
pub mod table;
pub mod target;

pub use crate::commandline::Opt;
pub use crate::config::{Config, ConfigState, TargetConfig};
pub use crate::error::Error;
pub use crate::package::table_str;
pub use crate::status::{BuildStatus, Status, StatusWrapper, VersionStatus};
pub use crate::target::{Arch, Target, OS};
