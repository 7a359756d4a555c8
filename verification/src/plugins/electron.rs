//! Electron applications.
use vstd::prelude::*;

use super::str_list;

verus! {

/// Built-in plugin for Electron applications.
pub struct ElectronPlugin;

impl ElectronPlugin {
    /// The plugin's name.
    pub fn name(&self) -> (n: &'static str)
        ensures
            n@ == "electron"@,
    {
        "electron"
    }

    /// Packages whose presence activates the plugin.
    pub fn enablers(&self) -> (v: Vec<&'static str>)
        ensures
            v@ == seq!["electron", "electron-builder", "@electron-forge/cli", "electron-vite"],
    {
        str_list(&["electron", "electron-builder", "@electron-forge/cli", "electron-vite"])
    }

    /// The main and preload process entry files.
    pub fn entry_patterns(&self) -> (v: Vec<&'static str>)
        ensures
            v@ == seq!["src/main/**/*.{ts,tsx,js,jsx,mts,mjs}", "src/preload/**/*.{ts,tsx,js,jsx,mts,mjs}", "electron/main.{ts,js}"],
    {
        str_list(&["src/main/**/*.{ts,tsx,js,jsx,mts,mjs}", "src/preload/**/*.{ts,tsx,js,jsx,mts,mjs}", "electron/main.{ts,js}"])
    }

    /// The electron-vite config files.
    pub fn config_patterns(&self) -> (v: Vec<&'static str>)
        ensures
            v@ == seq!["electron.vite.config.{ts,js,mjs}"],
    {
        str_list(&["electron.vite.config.{ts,js,mjs}"])
    }

    /// Build tool configs that are always in use.
    pub fn always_used(&self) -> (v: Vec<&'static str>)
        ensures
            v@ == seq!["electron-builder.{yml,yaml,json,json5,toml}", "forge.config.{ts,js,cjs}", "electron.vite.config.{ts,js,mjs}"],
    {
        str_list(&["electron-builder.{yml,yaml,json,json5,toml}", "forge.config.{ts,js,cjs}", "electron.vite.config.{ts,js,mjs}"])
    }

    /// Packages used by the build and packaging tools.
    pub fn tooling_dependencies(&self) -> (v: Vec<&'static str>)
        ensures
            v@ == seq!["electron", "electron-builder", "electron-vite", "@electron/rebuild", "@electron-forge/cli"],
    {
        str_list(&["electron", "electron-builder", "electron-vite", "@electron/rebuild", "@electron-forge/cli"])
    }

    /// The electron-vite config sections, each a Vite config of its own.
    pub fn vite_sections(&self) -> (v: Vec<&'static str>)
        ensures
            v@ == seq!["main", "preload", "renderer"],
    {
        str_list(&["main", "preload", "renderer"])
    }
}

} // verus!
