use llynx::addon::Addon;
use llynx::path::{
    accepts, decode, encode, lib_prefix, push_path, segments_of, strip_base, types_path, DecodeError,
};

const TREE: &str = ".lls_addons";
const SAY_ENTRY: &str = ".lls_addons/lib/luarocks/say/1.4.1-3/types";

#[test]
fn prefix_of_tree() {
    assert_eq!(lib_prefix(TREE), ".lls_addons/lib/luarocks");
}

#[test]
fn segments_skip_empty_and_dot() {
    assert_eq!(segments_of("a//b/./c/"), vec!["a", "b", "c"]);
    assert_eq!(segments_of("/x"), vec!["x"]);
    assert_eq!(segments_of(""), Vec::<String>::new());
    assert_eq!(segments_of("../y"), vec!["..", "y"]);
}

#[test]
fn accepts_entry_of_tree() {
    assert!(accepts(SAY_ENTRY, TREE));
    assert!(accepts(".lls_addons/lib/luarocks/rocks-5.1/say/1.4.1-3/types", TREE));
    assert!(accepts(".lls_addons//lib/luarocks/say/1.4.1-3/types/", TREE));
}

#[test]
fn accepts_rejects_absolute() {
    assert!(!accepts("/.lls_addons/lib/luarocks/say/1.4.1-3/types", TREE));
    assert!(!accepts("/srv/lib/luarocks/say/1/types", "/srv"));
}

#[test]
fn accepts_rejects_outside_tree() {
    assert!(!accepts("other/lib/luarocks/say/1.4.1-3/types", TREE));
    assert!(!accepts(".lls_addons/lib/say/1.4.1-3/types", TREE));
    assert!(!accepts(".lls_addons_old/lib/luarocks/say/1.4.1-3/types", TREE));
}

#[test]
fn accepts_rejects_without_types() {
    assert!(!accepts(".lls_addons/lib/luarocks/say/1.4.1-3", TREE));
    assert!(!accepts(".lls_addons/lib/luarocks/say/1.4.1-3/types.lua", TREE));
    assert!(!accepts(".lls_addons/lib/luarocks", TREE));
}

#[test]
fn accepts_rejects_everything_for_empty_tree() {
    assert!(!accepts("lib/luarocks/say/1/types", ""));
}

#[test]
fn decode_say() {
    let addon = decode(SAY_ENTRY, TREE).unwrap();
    assert_eq!(addon.name, "say");
    assert_eq!(addon.version, "1.4.1-3");
    assert_eq!(addon.location, Some(String::from(SAY_ENTRY)));
}

#[test]
fn decode_nested_entry() {
    let entry = ".lls_addons/lib/luarocks/rocks-5.1/say/1.4.1-3/types";
    let addon = decode(entry, TREE).unwrap();
    assert_eq!(addon.name, "say");
    assert_eq!(addon.version, "1.4.1-3");
}

#[test]
fn decode_shallow_entry() {
    let addon = decode(".lls_addons/lib/luarocks/x/types", TREE).unwrap();
    assert_eq!(addon.name, "luarocks");
    assert_eq!(addon.version, "x");
}

#[test]
fn decode_parent_directory_fails() {
    let entry = ".lls_addons/lib/luarocks/../types";
    assert!(accepts(entry, TREE));
    let err = decode(entry, TREE).unwrap_err();
    assert_eq!(err, DecodeError::NotADirectoryName(String::from(entry)));
    assert_eq!(
        err.message(),
        "library entry '.lls_addons/lib/luarocks/../types' does not name an addon directory"
    );
}

#[test]
fn encode_say() {
    let addon = Addon {
        name: String::from("say"),
        version: String::from("1.4.1-3"),
        location: None,
    };
    assert_eq!(encode(TREE, &addon), SAY_ENTRY);
}

#[test]
fn decode_encode_decode_keeps_identity() {
    let entry = ".lls_addons/lib/luarocks/rocks-5.1/say/1.4.1-3/types";
    let first = decode(entry, TREE).unwrap();
    let canonical = encode(TREE, &first);
    assert!(accepts(&canonical, TREE));
    let second = decode(&canonical, TREE).unwrap();
    assert_eq!(second, first);
    assert_eq!(second.name, first.name);
    assert_eq!(second.version, first.version);
}

#[test]
fn types_path_joins() {
    assert_eq!(
        types_path(".lls_addons/lib/luarocks/say/1.4.1-3"),
        ".lls_addons/lib/luarocks/say/1.4.1-3/types"
    );
    assert_eq!(types_path("dir/"), "dir/types");
    assert_eq!(types_path(""), "types");
}

#[test]
fn addons_equal_by_name_and_version() {
    let a = Addon {
        name: String::from("say"),
        version: String::from("1.4.1-3"),
        location: None,
    };
    let b = Addon {
        name: String::from("say"),
        version: String::from("1.4.1-3"),
        location: Some(String::from(SAY_ENTRY)),
    };
    let c = Addon {
        name: String::from("say"),
        version: String::from("1.5.0-1"),
        location: None,
    };
    assert_eq!(a, b);
    assert_ne!(a, c);
}

#[test]
fn push_path_like_pathbuf() {
    assert_eq!(push_path("a/b", "c"), "a/b/c");
    assert_eq!(push_path("a/b/", "c"), "a/b/c");
    assert_eq!(push_path("", "c"), "c");
    assert_eq!(push_path("a", "/c"), "/c");
}

#[test]
fn strip_base_below_and_outside() {
    assert_eq!(strip_base("/home/u/proj/.lls_addons/x", "/home/u/proj"), ".lls_addons/x");
    assert_eq!(strip_base("/home/u/proj", "/home/u/proj"), "");
    assert_eq!(strip_base("/home/u/other/x", "/home/u/proj"), "/home/u/other/x");
    assert_eq!(strip_base("rel/x", "/home"), "rel/x");
    assert_eq!(strip_base("/home/u/projects/x", "/home/u/proj"), "/home/u/projects/x");
}
