//! What is asked of the formatting pipeline and of a single plugin.

use crate::config::{ConfigKeyMap, FormatConfig, ResolvedConfig};
use crate::sharing::share_rc;
use std::ops::Range;
use std::path::PathBuf;
use std::rc::Rc;
use std::sync::Arc;
use vstd::prelude::*;

verus! {

/// The part of a text to format: all of it, or the bytes of a range.
pub type FormatRange = Option<Range<usize>>;

/// The way back into a scope for a plugin that meets content which is not
/// its own: calling it is asking that scope to format. It is bound to the
/// scope of one configuration, which it shares with the scope.
#[derive(Debug, PartialEq, Eq)]
pub struct HostFormatCallback {
    /// The configuration of the scope that the callback leads back into;
    /// none for the scope that stands in where no configuration could be read.
    pub scope_config: Option<Rc<ResolvedConfig>>,
}

impl Clone for HostFormatCallback {
    /// One more way back into the same scope.
    fn clone(&self) -> (copy: Self)
        ensures
            copy == *self,
    {
        HostFormatCallback {
            scope_config: match &self.scope_config {
                Some(config) => Some(share_rc(config)),
                None => None,
            },
        }
    }
}

/// A request to format one text, as a caller or a plugin puts it to a scope.
#[derive(Debug, PartialEq, Eq)]
pub struct HostFormatRequest {
    pub file_path: PathBuf,
    pub file_text: String,
    pub range: FormatRange,
    pub override_config: Rc<ConfigKeyMap>,
}

/// A request to format one text, as the pipeline puts it to a started plugin.
#[derive(Debug, PartialEq, Eq)]
pub struct InitializedPluginWithConfigFormatRequest {
    pub file_path: PathBuf,
    pub file_text: String,
    pub range: FormatRange,
    pub override_config: Rc<ConfigKeyMap>,
    pub on_host_format: HostFormatCallback,
}

/// A request to format one text, with the configuration of the plugin that
/// gets it.
#[derive(Debug, PartialEq, Eq)]
pub struct InitializedPluginFormatRequest {
    pub file_path: PathBuf,
    pub file_text: String,
    pub range: FormatRange,
    pub config: Arc<FormatConfig>,
    pub override_config: Rc<ConfigKeyMap>,
    pub on_host_format: HostFormatCallback,
}

/// What a started plugin can be asked.
#[derive(Debug, PartialEq, Eq)]
pub enum PluginRequest {
    /// Its configuration as it resolved it, as text.
    ResolvedConfig { config: Arc<FormatConfig> },
    /// The files that it formats.
    FileMatchingInfo { config: Arc<FormatConfig> },
    LicenseText,
    /// The diagnostics of its configuration, shown under its name.
    OutputConfigDiagnostics { plugin_name: String, config: Arc<FormatConfig> },
    FormatText(InitializedPluginFormatRequest),
}

/// The same range once more.
pub fn clone_range(range: &FormatRange) -> (copy: FormatRange)
    ensures
        copy == *range,
{
    match range {
        None => None,
        Some(range) => Some(Range { start: range.start, end: range.end }),
    }
}

} // verus!
