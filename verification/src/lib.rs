//! A build-time templating utility: merges configuration values from
//! prioritized data sources (environment variables, YAML files, CSV files)
//! into one context, then derives output paths for discovered template
//! files and drives their rendering.

pub mod context;
pub mod csvparse;
pub mod csvsrc;
pub mod error;
pub mod sources;
pub mod strutil;
pub mod node;
pub mod renderer;
pub mod yamlparse;
