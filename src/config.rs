//! The project configuration: where components and the theme file go, the
//! theme settings, and the registry's address.
use vstd::prelude::*;
use vstd::string::StringExecFns;

verus! {

/// The configuration file name used by projects.
pub const CONFIG_FILE_NAME: &'static str = "shadcn-ui.toml";

/// Top-level configuration of a project.
#[derive(Debug)]
pub struct Config {
    pub project: ProjectConfig,
    pub theme: ThemeConfig,
    pub registry: RegistryConfig,
}

/// Project-level settings.
#[derive(Debug)]
pub struct ProjectConfig {
    pub components_dir: String,
    pub theme_file: String,
}

/// Theme settings.
#[derive(Debug)]
pub struct ThemeConfig {
    pub base_color: String,
    pub radius: String,
    pub dark_mode: bool,
}

/// Registry settings.
#[derive(Debug)]
pub struct RegistryConfig {
    pub url: String,
}

impl Default for Config {
    fn default() -> (r: Self)
        ensures
            r.project.components_dir@ == "src/components/ui"@,
            r.project.theme_file@ == "src/theme.rs"@,
            r.theme.base_color@ == "zinc"@,
            r.theme.radius@ == "md"@,
            r.theme.dark_mode,
            r.registry.url@ == "https://shadcn-ui-rs.dev/registry"@,
    {
        Config {
            project: ProjectConfig {
                components_dir: String::from_str("src/components/ui"),
                theme_file: String::from_str("src/theme.rs"),
            },
            theme: ThemeConfig {
                base_color: String::from_str("zinc"),
                radius: String::from_str("md"),
                dark_mode: true,
            },
            registry: RegistryConfig { url: String::from_str("https://shadcn-ui-rs.dev/registry") },
        }
    }
}

} // verus!
