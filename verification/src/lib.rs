//! Plugin orchestration for a multi-language source formatter: which plugins
//! format which file, the admission that shows a plugin's configuration
//! diagnostics once, the fingerprint of a scope's plugins, the formatting
//! pipeline, and the walk over nested configurations.

pub mod config;
pub mod encoding;
pub mod hasher;
pub mod initialized;
pub mod name_index;
pub mod partition;
pub mod paths;
pub mod pipeline;
pub mod plugin;
pub mod request;
pub mod resolution;
pub mod scope;
pub mod sharing;
pub mod sorted;
pub mod text;
pub mod unambiguous;
pub mod vectors;
