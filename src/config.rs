use vstd::prelude::*;

verus! {

/// The configuration file read when none is named.
pub const CONFIG_PATH: &'static str = ".llynx.toml";

/// The package manager, looked up on `PATH`.
pub const LUAROCKS_PATH: &'static str = "luarocks";

/// The tree that addons are installed into.
pub const ADDONS_DIR: &'static str = ".lls_addons";

/// The server searched for addons first.
pub const LUAROCKS_ENDPOINT: &'static str = "https://luarocks.org/m/lls-addons";

/// The editor settings file that records the enabled addons.
pub const SETTINGS_FILE: &'static str = ".vscode/settings.json";

/// The settings field that holds the library list.
pub const LIB_SETTINGS_KEY: &'static str = "Lua.workspace.library";

/// Settings as a configuration file or the command line gives them: each
/// may be missing.
#[derive(Debug, Clone, PartialEq, Eq, Default)]
pub struct MaybeConfig {
    pub schema: Option<String>,
    pub luarocks: Option<String>,
    pub tree: Option<String>,
    pub settings: Option<String>,
    pub server: Option<String>,
    pub verbose: Option<u8>,
}

/// The settings a command runs with.
#[derive(Debug, Clone, PartialEq, Eq)]
pub struct Config {
    pub luarocks: String,
    pub tree: String,
    pub settings: String,
    pub server: String,
    pub verbose: u8,
}

/// The given value, or `otherwise` where none is given.
pub open spec fn choose_spec(given: Option<String>, otherwise: Seq<char>) -> Seq<char> {
    match given {
        Some(s) => s@,
        None => otherwise,
    }
}

fn choose_str(given: &Option<String>, otherwise: String) -> (r: String)
    ensures
        r@ == choose_spec(*given, otherwise@),
{
    match given {
        Some(s) => s.clone(),
        None => otherwise,
    }
}

impl Default for Config {
    fn default() -> (r: Config)
        ensures
            r.luarocks@ == LUAROCKS_PATH@,
            r.tree@ == ADDONS_DIR@,
            r.settings@ == SETTINGS_FILE@,
            r.server@ == LUAROCKS_ENDPOINT@,
            r.verbose == 0,
    {
        Config {
            luarocks: LUAROCKS_PATH.to_owned(),
            tree: ADDONS_DIR.to_owned(),
            settings: SETTINGS_FILE.to_owned(),
            server: LUAROCKS_ENDPOINT.to_owned(),
            verbose: 0,
        }
    }
}

impl Config {
    /// This configuration, with each setting that `overrides` gives taking
    /// the place of the one here.
    pub fn extend(self, overrides: &MaybeConfig) -> (r: Config)
        ensures
            r.luarocks@ == choose_spec(overrides.luarocks, self.luarocks@),
            r.tree@ == choose_spec(overrides.tree, self.tree@),
            r.settings@ == choose_spec(overrides.settings, self.settings@),
            r.server@ == choose_spec(overrides.server, self.server@),
            r.verbose == match overrides.verbose {
                Some(v) => v,
                None => self.verbose,
            },
    {
        let verbose = match overrides.verbose {
            Some(v) => v,
            None => self.verbose,
        };
        Config {
            luarocks: choose_str(&overrides.luarocks, self.luarocks),
            tree: choose_str(&overrides.tree, self.tree),
            settings: choose_str(&overrides.settings, self.settings),
            server: choose_str(&overrides.server, self.server),
            verbose,
        }
    }
}

} // verus!
