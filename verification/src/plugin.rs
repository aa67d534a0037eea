//! Plugins: what their manifests say, and the list of those loaded.
//! Loading a plugin's WebAssembly module is done by the binary.
use vstd::prelude::*;

verus! {

/// The oldest plugin SDK version the proxy loads plugins of.
pub const MIN_SUPPORTED_SDK_VERSION: u32 = 1;

/// Whether the proxy loads a plugin built with this SDK version.
pub fn is_sdk_version_supported(sdk_version: u32) -> (r: bool)
    ensures
        r == (sdk_version >= MIN_SUPPORTED_SDK_VERSION),
{
    sdk_version >= MIN_SUPPORTED_SDK_VERSION
}

/// What a plugin's manifest says of it.
#[derive(Debug, Clone)]
pub struct PluginInfo {
    pub name: String,
    pub version: String,
    pub authors: Vec<String>,
    pub description: String,
}

/// A loaded plugin.
pub struct Plugin {
    info: PluginInfo,
}

impl Plugin {
    /// The plugin a manifest describes.
    pub fn new(info: PluginInfo) -> (r: Plugin)
        ensures
            r.info_view() == info,
    {
        Plugin { info }
    }

    /// The plugin's manifest.
    pub closed spec fn info_view(&self) -> PluginInfo {
        self.info
    }

    /// The plugin's manifest.
    pub fn info(&self) -> (r: &PluginInfo)
        ensures
            *r == self.info_view(),
    {
        &self.info
    }
}

/// The plugins loaded, in the order they were loaded.
pub struct PluginManager {
    plugins: Vec<Plugin>,
}

impl PluginManager {
    /// The plugins loaded.
    pub closed spec fn view(&self) -> Seq<PluginInfo> {
        self.plugins@.map_values(|p: Plugin| p.info_view())
    }

    /// A manager with no plugins.
    pub fn new() -> (r: PluginManager)
        ensures
            r@ == Seq::<PluginInfo>::empty(),
    {
        let r = PluginManager { plugins: Vec::new() };
        proof { assert(r@ =~= Seq::<PluginInfo>::empty()); }
        r
    }

    /// Records a loaded plugin.
    pub fn add_plugin(&mut self, plugin: Plugin)
        ensures
            final(self)@ == old(self)@.push(plugin.info_view()),
    {
        let ghost before = self@;
        let ghost info = plugin.info_view();
        self.plugins.push(plugin);
        proof { assert(self@ =~= before.push(info)); }
    }
}

} // verus!
