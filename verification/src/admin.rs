//! What the administrative interface reads from the registry of plugins.

use vstd::prelude::*;
use vstd::string::*;
use crate::paths::{name_of, plugin_name};
use crate::plugins::{Descriptor, LoadTime, Manager, WasmPlugin};

verus! {

/// What the service tells of one plugin.
#[derive(Debug)]
pub struct PluginInfo {
    pub name: String,
    pub path: String,
    pub size: u64,
    pub loaded_time: LoadTime,
}

/// What is told of the plugin with the descriptor `plugin`: its name is read
/// from its path, and a size that is not known is given as zero.
pub open spec fn info_of(plugin: Descriptor, info: PluginInfo) -> bool {
    &&& info.name@ == plugin_name(plugin.path)
    &&& info.path@ == plugin.path
    &&& info.size == match plugin.size {
        Some(size) => size,
        None => 0,
    }
    &&& info.loaded_time == plugin.loaded_time
}

impl PluginInfo {
    /// What is told of `plugin`, which goes by `name`.
    pub fn of(plugin: &WasmPlugin, name: String) -> (info: PluginInfo)
        ensures
            info.name@ == name@,
            info.path@ == plugin.path@,
            info.size == match plugin.size {
                Some(size) => size,
                None => 0,
            },
            info.loaded_time == plugin.loaded_time,
    {
        let size: u64 = match plugin.size {
            Some(size) => size,
            None => 0,
        };
        PluginInfo { name, path: plugin.path.clone(), size, loaded_time: plugin.loaded_time }
    }
}

/// The service that lists the loaded plugins.
#[derive(Debug)]
pub struct PluginsSrv {
    ps_mgr: Manager,
}

impl View for PluginsSrv {
    type V = Seq<Descriptor>;

    closed spec fn view(&self) -> Seq<Descriptor> {
        self.ps_mgr@
    }
}

impl PluginsSrv {
    /// A service over the registry `ps_mgr`.
    pub fn new(ps_mgr: Manager) -> (srv: PluginsSrv)
        ensures
            srv@ == ps_mgr@,
    {
        PluginsSrv { ps_mgr }
    }

    /// The registry that the service reads.
    pub fn manager(&self) -> (ps_mgr: &Manager)
        ensures
            ps_mgr@ == self@,
    {
        &self.ps_mgr
    }

    /// The loaded plugins, in the order of the registry.
    pub fn list(&self) -> (plugins: Vec<PluginInfo>)
        ensures
            plugins@.len() == self@.len(),
            forall|i: int| 0 <= i < self@.len() ==> info_of(self@[i], #[trigger] plugins@[i]),
    {
        let ps = self.ps_mgr.get_info();
        let mut plugins: Vec<PluginInfo> = Vec::new();
        let mut i: usize = 0;
        while i < ps.len()
            invariant
                i <= ps.len(),
                ps.deep_view() == self@,
                plugins@.len() == i,
                forall|j: int| 0 <= j < i ==> info_of(self@[j], #[trigger] plugins@[j]),
            decreases ps.len() - i,
        {
            let p = &ps[i];
            proof {
                assert(ps.deep_view()[i as int] == p.deep_view());
            }
            let name = name_of(p.path.as_str());
            plugins.push(PluginInfo::of(p, name));
            i += 1;
        }
        plugins
    }
}

} // verus!
