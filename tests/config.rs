use llynx::config::{
    Config, MaybeConfig, ADDONS_DIR, LUAROCKS_ENDPOINT, LUAROCKS_PATH, SETTINGS_FILE,
};

fn some_args() -> MaybeConfig {
    MaybeConfig {
        schema: Some(String::from("some_schema")),
        luarocks: Some(String::from("some_luarocks")),
        tree: Some(String::from("some_tree")),
        settings: None,
        server: None,
        verbose: None,
    }
}

fn all_args() -> MaybeConfig {
    MaybeConfig {
        schema: Some(String::from("some_schema")),
        luarocks: Some(String::from("some_luarocks")),
        tree: Some(String::from("some_tree")),
        settings: Some(String::from("some_settings")),
        server: Some(String::from("some_server")),
        verbose: Some(8),
    }
}

#[test]
fn default() {
    let default_config = Config::default();
    assert_eq!(default_config.luarocks, LUAROCKS_PATH);
    assert_eq!(default_config.server, LUAROCKS_ENDPOINT);
    assert_eq!(default_config.settings, SETTINGS_FILE);
    assert_eq!(default_config.tree, ADDONS_DIR);
    assert_eq!(default_config.verbose, 0);
}

#[test]
fn extend_some_args() {
    let some_config = some_args();
    let config = Config::default().extend(&some_config);
    assert_eq!(config.luarocks, String::from("some_luarocks"));
    assert_eq!(config.tree, String::from("some_tree"));
    assert_eq!(config.server, LUAROCKS_ENDPOINT);
    assert_eq!(config.settings, SETTINGS_FILE);
    assert_eq!(config.verbose, 0);
}

#[test]
fn extend_all_args() {
    let all_config = all_args();
    let config = Config::default().extend(&all_config);
    assert_eq!(config.luarocks, String::from("some_luarocks"));
    assert_eq!(config.server, String::from("some_server"));
    assert_eq!(config.settings, String::from("some_settings"));
    assert_eq!(config.tree, String::from("some_tree"));
    assert_eq!(config.verbose, 8);
}

#[test]
fn extend_with_nothing_keeps_config() {
    let config = Config::default().extend(&MaybeConfig::default());
    assert_eq!(config, Config::default());
}

#[test]
fn later_overrides_win() {
    let cli = MaybeConfig {
        tree: Some(String::from("cli_tree")),
        verbose: Some(2),
        ..MaybeConfig::default()
    };
    let config = Config::default().extend(&all_args()).extend(&cli);
    assert_eq!(config.tree, "cli_tree");
    assert_eq!(config.luarocks, "some_luarocks");
    assert_eq!(config.verbose, 2);
}
