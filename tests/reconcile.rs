use llynx::addon::Addon;
use llynx::aggregate::CollectError;
use llynx::config::LIB_SETTINGS_KEY;
use llynx::reconcile::{
    disable, disable_in_library, disable_in_settings, disable_in_text, enable, enable_in_library,
    enable_in_settings, enable_in_text, UpdateError, get_addon_path, is_enabled_in_settings, list_enabled,
    list_enabled_in_settings, ReconcileError,
};
use llynx::settings::Settings;

const SAY_ADDON_LOCATION: &str = "tests/trees/one_addon/lib/luarocks/rocks-5.1/say/1.4.1-3/types";
const TREE: &str = ".lls_addons";
const SAY_DIR: &str = ".lls_addons/lib/luarocks/say/1.4.1-3";
const SAY_ENTRY: &str = ".lls_addons/lib/luarocks/say/1.4.1-3/types";

fn say_addon() -> Addon {
    Addon {
        name: String::from("say"),
        version: String::from("1.4.1-3"),
        location: Some(String::from(SAY_ADDON_LOCATION)),
    }
}

fn installed_say() -> Vec<Addon> {
    vec![Addon {
        name: String::from("say"),
        version: String::from("1.4.1-3"),
        location: Some(String::from(SAY_DIR)),
    }]
}

fn strings(items: &[&str]) -> Vec<String> {
    items.iter().map(|s| s.to_string()).collect()
}

#[test]
fn add_from_empty() {
    let library: Vec<String> = vec![];
    let new_path = String::from(SAY_ADDON_LOCATION);
    let new_library = enable_in_library(library, new_path);
    assert_eq!(new_library, vec![String::from(SAY_ADDON_LOCATION)]);
}

#[test]
fn remove_from_one() {
    let library = vec![String::from(SAY_ADDON_LOCATION)];
    let new_library = disable_in_library(library, SAY_ADDON_LOCATION);
    assert_eq!(new_library, vec![] as Vec<String>);
}

#[test]
fn disable_in_library_keeps_others_in_order() {
    let library = strings(&["a", SAY_ENTRY, "b", SAY_ENTRY, "c"]);
    assert_eq!(disable_in_library(library, SAY_ENTRY), strings(&["a", "b", "c"]));
}

#[test]
fn not_found() {
    let settings = Settings::empty(LIB_SETTINGS_KEY);
    let addons = list_enabled_in_settings(&settings, "tests/trees/one_addon", None).unwrap();
    assert_eq!(addons, vec![]);
}

#[test]
fn main_empty() {
    let settings = Settings::load("", LIB_SETTINGS_KEY).unwrap();
    let addons = list_enabled_in_settings(&settings, "tests/trees/one_addon", None).unwrap();
    assert_eq!(addons, vec![]);
}

#[test]
fn no_library() {
    let settings = Settings::load(r#"{ "editor.tabSize": 4 }"#, LIB_SETTINGS_KEY).unwrap();
    assert!(settings.library().is_none());
    let addons = list_enabled_in_settings(&settings, "tests/trees/one_addon", None).unwrap();
    assert_eq!(addons, vec![]);
}

#[test]
fn empty_library() {
    let settings = Settings::load(r#"{ "Lua.workspace.library": [] }"#, LIB_SETTINGS_KEY).unwrap();
    assert_eq!(settings.library(), Some(&vec![]));
    let addons = list_enabled_in_settings(&settings, "tests/trees/one_addon", None).unwrap();
    assert_eq!(addons, vec![]);
}

#[test]
fn main_one_addon() {
    let text = format!(r#"{{ "Lua.workspace.library": ["{SAY_ADDON_LOCATION}"] }}"#);
    let settings = Settings::load(&text, LIB_SETTINGS_KEY).unwrap();
    let addons = list_enabled_in_settings(&settings, "tests/trees/one_addon", None).unwrap();
    assert_eq!(addons, vec![say_addon()]);
    assert_eq!(addons[0].location, say_addon().location);
}

#[test]
fn list_from_settings_with_one_addon() {
    let text = r#"{"Lua.workspace.library": [".lls_addons/lib/luarocks/say/1.4.1-3/types"]}"#;
    let settings = Settings::load(text, LIB_SETTINGS_KEY).unwrap();
    let addons = list_enabled_in_settings(&settings, TREE, None).unwrap();
    assert_eq!(addons.len(), 1);
    assert_eq!(addons[0].name, "say");
    assert_eq!(addons[0].version, "1.4.1-3");
    assert_eq!(addons[0].location, Some(String::from(SAY_ENTRY)));
}

#[test]
fn list_passes_over_other_entries() {
    let library = strings(&["${3rd}/luassert/library", SAY_ENTRY, "/abs/.lls_addons/lib/luarocks/x/1/types"]);
    let addons = list_enabled(&library, TREE, None).unwrap();
    assert_eq!(addons.len(), 1);
    assert_eq!(addons[0].name, "say");
}

#[test]
fn list_with_filter() {
    let library = strings(&[
        SAY_ENTRY,
        ".lls_addons/lib/luarocks/busted/2.2.0-1/types",
        ".lls_addons/lib/luarocks/saysomething/0.1-1/types",
    ]);
    let names: Vec<String> = list_enabled(&library, TREE, Some("say"))
        .unwrap()
        .into_iter()
        .map(|a| a.name)
        .collect();
    assert_eq!(names, strings(&["say", "saysomething"]));
    let all = list_enabled(&library, TREE, Some("")).unwrap();
    assert_eq!(all.len(), 3);
    let none = list_enabled(&library, TREE, Some("penlight")).unwrap();
    assert!(none.is_empty());
}

#[test]
fn list_one_bad_entry_is_single_failure() {
    let library = strings(&[SAY_ENTRY, ".lls_addons/lib/luarocks/../types"]);
    match list_enabled(&library, TREE, None) {
        Err(CollectError::Single(e)) => {
            assert!(e.message().contains(".lls_addons/lib/luarocks/../types"))
        }
        other => panic!("expected one failure, got {other:?}"),
    }
}

#[test]
fn list_two_bad_entries_reported_together() {
    let library = strings(&[
        ".lls_addons/lib/luarocks/../types",
        SAY_ENTRY,
        ".lls_addons/lib/luarocks/say/../types",
    ]);
    match list_enabled(&library, TREE, None) {
        Err(CollectError::Many(agg)) => {
            assert_eq!(agg.errors.len(), 2);
            let text = agg.render();
            assert!(text.contains(".lls_addons/lib/luarocks/../types"));
            assert!(text.contains(".lls_addons/lib/luarocks/say/../types"));
        }
        other => panic!("expected several failures, got {other:?}"),
    }
}

#[test]
fn addon_path_of_installed() {
    assert_eq!(get_addon_path(&installed_say(), "say").unwrap(), SAY_ENTRY);
}

#[test]
fn addon_path_not_installed() {
    match get_addon_path(&installed_say(), "busted") {
        Err(ReconcileError::NotInstalled(n)) => assert_eq!(n, "busted"),
        other => panic!("expected not installed, got {other:?}"),
    }
}

#[test]
fn enable_into_empty_library() {
    let library = enable("say", &installed_say(), vec![], TREE).unwrap();
    assert_eq!(library, strings(&[SAY_ENTRY]));
}

#[test]
fn disable_after_enable_gives_empty() {
    let library = strings(&[SAY_ENTRY]);
    let library = disable("say", &installed_say(), library, TREE).unwrap();
    assert!(library.is_empty());
}

#[test]
fn enable_appends_after_manual_entries() {
    let library = strings(&["${3rd}/love2d/library"]);
    let library = enable("say", &installed_say(), library, TREE).unwrap();
    assert_eq!(library, strings(&["${3rd}/love2d/library", SAY_ENTRY]));
}

#[test]
fn enable_twice_same_as_once() {
    let once = enable("say", &installed_say(), strings(&["x"]), TREE).unwrap();
    let twice = enable("say", &installed_say(), once.clone(), TREE).unwrap();
    assert_eq!(once, twice);
}

#[test]
fn enable_already_enabled_other_version_is_unchanged() {
    let library = strings(&[".lls_addons/lib/luarocks/say/1.3-1/types"]);
    let after = enable("say", &installed_say(), library.clone(), TREE).unwrap();
    assert_eq!(after, library);
}

#[test]
fn enable_not_installed() {
    match enable("busted", &installed_say(), vec![], TREE) {
        Err(ReconcileError::NotInstalled(n)) => assert_eq!(n, "busted"),
        other => panic!("expected not installed, got {other:?}"),
    }
}

#[test]
fn enable_with_bad_entry_fails() {
    let library = strings(&[".lls_addons/lib/luarocks/../types"]);
    match enable("say", &installed_say(), library, TREE) {
        Err(ReconcileError::Decode(CollectError::Single(_))) => {}
        other => panic!("expected a decode failure, got {other:?}"),
    }
}

#[test]
fn disable_twice_same_as_once() {
    let library = strings(&["x", SAY_ENTRY, "y"]);
    let once = disable("say", &installed_say(), library, TREE).unwrap();
    let twice = disable("say", &installed_say(), once.clone(), TREE).unwrap();
    assert_eq!(once, strings(&["x", "y"]));
    assert_eq!(once, twice);
}

#[test]
fn disable_undoes_enable() {
    let library = strings(&["x", ".lls_addons/lib/luarocks/busted/2.2.0-1/types"]);
    let enabled = enable("say", &installed_say(), library.clone(), TREE).unwrap();
    assert_ne!(enabled, library);
    let disabled = disable("say", &installed_say(), enabled, TREE).unwrap();
    assert_eq!(disabled, library);
}

#[test]
fn disable_not_enabled_is_unchanged() {
    let library = strings(&["x"]);
    let after = disable("say", &vec![], library.clone(), TREE).unwrap();
    assert_eq!(after, library);
}

#[test]
fn disable_enabled_but_not_installed() {
    let library = strings(&[SAY_ENTRY]);
    match disable("say", &vec![], library, TREE) {
        Err(ReconcileError::NotInstalled(n)) => assert_eq!(n, "say"),
        other => panic!("expected not installed, got {other:?}"),
    }
}

#[test]
fn disable_removes_only_installed_version() {
    let old = ".lls_addons/lib/luarocks/say/1.3-1/types";
    let library = strings(&[old, SAY_ENTRY]);
    let after = disable("say", &installed_say(), library, TREE).unwrap();
    assert_eq!(after, strings(&[old]));
}

#[test]
fn enable_in_settings_keeps_other_fields() {
    let text = r#"{
        // editor settings
        "editor.tabSize": 4,
        "files.exclude": { "**/.git": true },
        "Lua.runtime.version": "LuaJIT"
    }"#;
    let settings = Settings::load(text, LIB_SETTINGS_KEY).unwrap();
    let updated = enable_in_settings(settings, "say", &installed_say(), TREE).unwrap();
    assert_eq!(updated.library(), Some(&strings(&[SAY_ENTRY])));
    let written = updated.serialize();
    let before: serde_json::Value = serde_json::from_str(
        r#"{"editor.tabSize": 4, "files.exclude": {"**/.git": true}, "Lua.runtime.version": "LuaJIT"}"#,
    )
    .unwrap();
    let after: serde_json::Value = serde_json::from_str(&written).unwrap();
    for (key, value) in before.as_object().unwrap() {
        assert_eq!(after.get(key), Some(value));
    }
    assert_eq!(
        after.get("Lua.workspace.library"),
        Some(&serde_json::Value::from(vec![SAY_ENTRY]))
    );
    assert_eq!(after.as_object().unwrap().len(), 4);
}

#[test]
fn disable_in_settings_round_trip() {
    let text = format!(r#"{{"a": [1, 2], "Lua.workspace.library": ["{SAY_ENTRY}", "z"]}}"#);
    let settings = Settings::load(&text, LIB_SETTINGS_KEY).unwrap();
    let updated = disable_in_settings(settings, "say", &installed_say(), TREE).unwrap();
    let written = updated.serialize();
    let after: serde_json::Value = serde_json::from_str(&written).unwrap();
    assert_eq!(after.get("a"), Some(&serde_json::Value::from(vec![1, 2])));
    assert_eq!(
        after.get("Lua.workspace.library"),
        Some(&serde_json::Value::from(vec!["z"]))
    );
}

#[test]
fn enable_in_empty_settings_adds_field() {
    let settings = Settings::load("", LIB_SETTINGS_KEY).unwrap();
    let updated = enable_in_settings(settings, "say", &installed_say(), TREE).unwrap();
    let written = updated.serialize();
    let after: serde_json::Value = serde_json::from_str(&written).unwrap();
    assert_eq!(
        after,
        serde_json::from_str::<serde_json::Value>(&format!(
            r#"{{"Lua.workspace.library": ["{SAY_ENTRY}"]}}"#
        ))
        .unwrap()
    );
}

#[test]
fn is_enabled_by_exact_name() {
    let text = format!(r#"{{"Lua.workspace.library": ["{SAY_ENTRY}"]}}"#);
    let settings = Settings::load(&text, LIB_SETTINGS_KEY).unwrap();
    assert!(is_enabled_in_settings(&settings, TREE, "say").unwrap());
    assert!(!is_enabled_in_settings(&settings, TREE, "sa").unwrap());
    assert!(!is_enabled_in_settings(&Settings::empty(LIB_SETTINGS_KEY), TREE, "say").unwrap());
}

#[test]
fn enable_in_text_keeps_other_fields() {
    let text = r#"{ "b": [1, {"c": null}], // note
        "a": "x" }"#;
    let written = enable_in_text(text, LIB_SETTINGS_KEY, "say", &installed_say(), TREE).unwrap();
    let after: serde_json::Value = serde_json::from_str(&written).unwrap();
    let expected: serde_json::Value = serde_json::from_str(&format!(
        r#"{{"a": "x", "b": [1, {{"c": null}}], "Lua.workspace.library": ["{SAY_ENTRY}"]}}"#
    ))
    .unwrap();
    assert_eq!(after, expected);
}

#[test]
fn enable_in_empty_text_writes_library_alone() {
    let written = enable_in_text("", LIB_SETTINGS_KEY, "say", &installed_say(), TREE).unwrap();
    assert_eq!(written, format!(r#"{{"Lua.workspace.library":["{SAY_ENTRY}"]}}"#));
}

#[test]
fn update_text_malformed_fails() {
    for text in ["{", "[1]", r#"{"Lua.workspace.library": 5}"#] {
        assert!(matches!(
            enable_in_text(text, LIB_SETTINGS_KEY, "say", &installed_say(), TREE),
            Err(UpdateError::Settings(_))
        ));
        assert!(matches!(
            disable_in_text(text, LIB_SETTINGS_KEY, "say", &installed_say(), TREE),
            Err(UpdateError::Settings(_))
        ));
    }
}

#[test]
fn disable_in_text_removes_entry() {
    let text = format!(r#"{{"x": true, "Lua.workspace.library": ["{SAY_ENTRY}"]}}"#);
    let written = disable_in_text(&text, LIB_SETTINGS_KEY, "say", &installed_say(), TREE).unwrap();
    assert_eq!(written, r#"{"Lua.workspace.library":[],"x":true}"#);
}

#[test]
fn enable_in_text_not_installed() {
    assert!(matches!(
        enable_in_text("{}", LIB_SETTINGS_KEY, "busted", &installed_say(), TREE),
        Err(UpdateError::Reconcile(ReconcileError::NotInstalled(_)))
    ));
}
