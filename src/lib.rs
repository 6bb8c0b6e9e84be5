//! Audit of the liveries that a mission needs against those that an
//! installation holds.
//!
//! - [`livery_map`]: the map from vehicle type to livery identifiers.
//! - [`text`]: case folding of identifiers.
//! - [`mission`]: the decoded mission tree and the search for unit records.
//! - [`install`]: the directory tree of an installation and the search for
//!   livery folders.
//! - [`audit`]: reconciling what is required with what is installed.
pub mod audit;
pub mod install;
pub mod livery_map;
pub mod mission;
pub mod text;
