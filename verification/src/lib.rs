//! The verified core of a local development-server dashboard: reading the
//! listener table and process listings, grouping servers by project,
//! detecting project kinds, and keeping the registry of known projects.
pub mod paths;
pub mod text;
pub mod scanner;
pub mod json;
pub mod detect;
pub mod clock;
pub mod registry;
pub mod process;
