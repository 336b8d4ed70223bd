//! Parameter handling for the snouty command-line client: parsing `--key value`
//! tokens and `Moment.from(..)` literals into parameter sets, merging and
//! redacting them, and validating them against the two launch profiles.

pub mod api;
pub mod command;
pub mod error;
pub mod json;
pub mod moment;
pub mod params;
pub mod schema;
pub mod text;
