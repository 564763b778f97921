//! A started plugin with its configuration: every question to the plugin is
//! put with that configuration.

use crate::config::PluginInfo;
use crate::plugin::InitializedPluginWithConfig;
use crate::sharing::{share_arc, share_rc};
use crate::request::{
    InitializedPluginFormatRequest, InitializedPluginWithConfigFormatRequest, PluginRequest,
};
use vstd::prelude::*;

verus! {

impl<I: Clone> Clone for InitializedPluginWithConfig<I> {
    /// One more handle on the same plugin with the same configuration: the
    /// configuration is shared, not copied.
    fn clone(&self) -> (copy: Self)
        ensures
            copy.plugin == self.plugin,
            copy.format_config == self.format_config,
            cloned(self.instance, copy.instance),
    {
        InitializedPluginWithConfig {
            plugin: share_rc(&self.plugin),
            format_config: share_arc(&self.format_config),
            instance: self.instance.clone(),
        }
    }
}

impl<I> InitializedPluginWithConfig<I> {
    pub fn info(&self) -> (info: &PluginInfo)
        ensures
            *info == self.plugin.info,
    {
        &self.plugin.info
    }

    /// The started plugin.
    pub fn instance(&self) -> (instance: &I)
        ensures
            *instance == self.instance,
    {
        &self.instance
    }

    /// The question for the configuration as the plugin resolved it.
    pub fn resolved_config(&self) -> (request: PluginRequest)
        ensures
            request == (PluginRequest::ResolvedConfig { config: self.format_config }),
    {
        PluginRequest::ResolvedConfig { config: share_arc(&self.format_config) }
    }

    /// The question for the files that the plugin formats.
    pub fn file_matching_info(&self) -> (request: PluginRequest)
        ensures
            request == (PluginRequest::FileMatchingInfo { config: self.format_config }),
    {
        PluginRequest::FileMatchingInfo { config: share_arc(&self.format_config) }
    }

    /// The question for the plugin's license.
    pub fn license_text(&self) -> (request: PluginRequest)
        ensures
            request == PluginRequest::LicenseText,
    {
        PluginRequest::LicenseText
    }

    /// The question for the diagnostics of the plugin's configuration.
    pub fn output_config_diagnostics(&self) -> (request: PluginRequest)
        ensures
            request == (PluginRequest::OutputConfigDiagnostics {
                plugin_name: self.plugin.info.name,
                config: self.format_config,
            }),
    {
        PluginRequest::OutputConfigDiagnostics {
            plugin_name: self.plugin.info.name.clone(),
            config: share_arc(&self.format_config),
        }
    }

    /// The request to format a text, with the plugin's configuration added
    /// and all else as the pipeline put it.
    pub fn format_text(&self, request: InitializedPluginWithConfigFormatRequest) -> (sent:
        PluginRequest)
        ensures
            sent == PluginRequest::FormatText(
                InitializedPluginFormatRequest {
                    file_path: request.file_path,
                    file_text: request.file_text,
                    range: request.range,
                    config: self.format_config,
                    override_config: request.override_config,
                    on_host_format: request.on_host_format,
                },
            ),
    {
        PluginRequest::FormatText(
            InitializedPluginFormatRequest {
                file_path: request.file_path,
                file_text: request.file_text,
                range: request.range,
                config: share_arc(&self.format_config),
                override_config: request.override_config,
                on_host_format: request.on_host_format,
            },
        )
    }
}

} // verus!
