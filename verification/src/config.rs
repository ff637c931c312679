//! The `DioxusShowcase.toml` configuration and its defaults.
use vstd::prelude::*;

verus! {

/// The `[project]` table: names and crate locations.
#[derive(Debug, Clone, PartialEq, Eq)]
pub struct ShowcaseProjectConfig {
    pub name: String,
    pub entry_crate: String,
    pub showcase_crate: String,
}

/// The `[dev]` table: where the development server listens.
#[derive(Debug, Clone, PartialEq, Eq)]
pub struct ShowcaseDevConfig {
    pub port: u16,
    pub host: String,
}

/// The `[build]` table: where artifacts go and the public sub-path of the site.
#[derive(Debug, Clone, PartialEq, Eq)]
pub struct ShowcaseBuildConfig {
    pub out_dir: String,
    pub base_path: String,
}

/// The whole configuration file.
#[derive(Debug, Clone, PartialEq, Eq)]
pub struct ShowcaseConfig {
    pub project: ShowcaseProjectConfig,
    pub dev: ShowcaseDevConfig,
    pub build: ShowcaseBuildConfig,
}

impl Default for ShowcaseProjectConfig {
    fn default() -> (r: Self)
        ensures
            r.name@ == "my-ui"@,
            r.entry_crate@ == "web"@,
            r.showcase_crate@ == "showcase"@,
    {
        ShowcaseProjectConfig {
            name: "my-ui".to_owned(),
            entry_crate: "web".to_owned(),
            showcase_crate: "showcase".to_owned(),
        }
    }
}

impl Default for ShowcaseDevConfig {
    fn default() -> (r: Self)
        ensures
            r.port == 6111,
            r.host@ == "127.0.0.1"@,
    {
        ShowcaseDevConfig { port: 6111, host: "127.0.0.1".to_owned() }
    }
}

impl Default for ShowcaseBuildConfig {
    fn default() -> (r: Self)
        ensures
            r.out_dir@ == "target/showcase"@,
            r.base_path@ == "/"@,
    {
        ShowcaseBuildConfig { out_dir: "target/showcase".to_owned(), base_path: "/".to_owned() }
    }
}

impl Default for ShowcaseConfig {
    fn default() -> (r: Self)
        ensures
            r.project.name@ == "my-ui"@,
            r.project.entry_crate@ == "web"@,
            r.project.showcase_crate@ == "showcase"@,
            r.dev.port == 6111,
            r.dev.host@ == "127.0.0.1"@,
            r.build.out_dir@ == "target/showcase"@,
            r.build.base_path@ == "/"@,
    {
        ShowcaseConfig {
            project: ShowcaseProjectConfig::default(),
            dev: ShowcaseDevConfig::default(),
            build: ShowcaseBuildConfig::default(),
        }
    }
}

} // verus!
