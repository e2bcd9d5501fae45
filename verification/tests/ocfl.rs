use ocfshell::ocfl::{keys_in_order, str_lt, Inventory, Ocfl, StorageConfig, Version, WalkStep};
use ocfshell::process::size_line;

fn storage_config() -> StorageConfig {
    StorageConfig {
        digest_algorithm: "sha256".to_string(),
        tuple_size: 3,
        number_of_tuples: 3,
        short_object_root: false,
    }
}

fn create_ocfl() -> Ocfl {
    Ocfl::new("/repo".to_string(), storage_config())
}

fn names(list: &[&str]) -> Vec<String> {
    list.iter().map(|s| s.to_string()).collect()
}

fn entries(list: &[(&str, &[&str])]) -> Vec<(String, Vec<String>)> {
    list.iter().map(|(k, v)| (k.to_string(), names(v))).collect()
}

fn create_inventory(
    id: &str,
    head: &str,
    state: Vec<(String, Vec<String>)>,
    manifest: Vec<(String, Vec<String>)>,
) -> Inventory {
    let version = Version {
        created: "".to_string(),
        state,
    };
    Inventory {
        id: id.to_string(),
        head: head.to_string(),
        manifest,
        versions: vec![(String::from("v1"), version)],
    }
}

// A repository root as the layout files leave it.
fn repository_listing() -> Vec<String> {
    names(&["ocfl_layout.json", "extensions"])
}

#[test]
fn test_is_repository_root() {
    let ocfl = create_ocfl();
    let mut listing = repository_listing();
    listing.push("0=ocfl_1.1".to_string());

    assert!(ocfl.is_repository_root(&listing));

    listing.pop();

    assert!(!ocfl.is_repository_root(&listing));
}

#[test]
fn test_is_object_root() {
    let ocfl = create_ocfl();
    let mut listing = repository_listing();
    listing.push("0=ocfl_object_1.1".to_string());
    assert!(ocfl.is_object_root(&listing));

    listing.pop();

    assert!(!ocfl.is_object_root(&listing));
}

#[test]
fn test_list_versions() {
    let ocfl = create_ocfl();

    let state = entries(&[("abc", &["a/b/c"])]);
    let inventory = create_inventory("id", "v1", state, Vec::new());
    let mut listing = repository_listing();
    listing.push("inventory.json".to_string());

    let versions_not_in_root = ocfl.list_versions(&listing, None);
    assert_eq!(
        versions_not_in_root,
        vec!["Version command needs to be inside an object"]
    );

    listing.push("0=ocfl_object_1.1".to_string());

    let versions = ocfl.list_versions(&listing, Some(&inventory));
    assert_eq!(versions, vec!["v1"])
}

#[test]
fn test_path_for_id() {
    let ocfl = create_ocfl();

    let path_for_id = ocfl.path_for_id("abc");

    assert_eq!(
        path_for_id,
        "ba7/816/bf8/ba7816bf8f01cfea414140de5dae2223b00361a396177a9cb410ff61f20015ad"
    );
}

#[test]
fn test_modify_if_not_object_root() {
    let ocfl = create_ocfl();

    let args_not_object_root =
        ocfl.modify_if_ocfl_path(&repository_listing(), None, names(&["abc"]), false);

    assert_eq!(args_not_object_root, vec!["abc"]);
}

#[test]
fn test_modify_if_no_match() {
    let ocfl = create_ocfl();

    let mut listing = repository_listing();
    listing.push("0=ocfl_object_1.1".to_string());
    let state = entries(&[("abc", &["a/b/c"])]);
    let manifest = entries(&[("abc", &["a/b/c/d/e"])]);
    let inventory = create_inventory("id", "v1", state, manifest);
    listing.push("inventory.json".to_string());

    // No file lies at a/b/c/d/e.
    let args = ocfl.modify_if_ocfl_path(&listing, Some(&inventory), names(&["a/b/c"]), false);

    assert_eq!(args.first().unwrap(), "a/b/c")
}

#[test]
fn test_modify_if_an_ocfl_path() {
    let ocfl = create_ocfl();

    let mut listing = repository_listing();
    listing.push("0=ocfl_object_1.1".to_string());
    let state = entries(&[("abc", &["a/b/c"])]);
    let manifest = entries(&[("abc", &["a/b/c/d/e"])]);
    let inventory = create_inventory("id", "v1", state, manifest);
    listing.push("inventory.json".to_string());
    listing.push("a".to_string());

    let content = ocfl.content_path_for_args(&inventory, &names(&["a/b/c"]));
    assert_eq!(content, Some("a/b/c/d/e".to_string()));

    // The file a/b/c/d/e exists.
    let args = ocfl.modify_if_ocfl_path(&listing, Some(&inventory), names(&["a/b/c"]), true);
    assert_eq!(args.first().unwrap(), "a/b/c/d/e")
}

#[test]
fn modify_keeps_arguments_before_the_last() {
    let ocfl = create_ocfl();
    let listing = names(&["0=ocfl_object_1.1", "inventory.json"]);
    let state = entries(&[("abc", &["a/b/c"])]);
    let manifest = entries(&[("abc", &["a/b/c/d/e"])]);
    let inventory = create_inventory("id", "v1", state, manifest);
    let args = ocfl.modify_if_ocfl_path(&listing, Some(&inventory), names(&["-n", "a/b/c"]), true);
    assert_eq!(args, vec!["-n", "a/b/c/d/e"]);
    let args = ocfl.modify_if_ocfl_path(&listing, Some(&inventory), names(&["a/b/c", "x"]), true);
    assert_eq!(args, vec!["a/b/c", "x"]);
}

#[test]
fn path_for_logical_path_takes_first_manifest_path() {
    let ocfl = create_ocfl();
    let state = entries(&[("d1", &["x"]), ("d2", &["y", "z"])]);
    let manifest = entries(&[("d1", &["v1/content/x"]), ("d2", &["v1/content/y", "v2/content/y"])]);
    let inventory = create_inventory("id", "v1", state, manifest);
    let head = Ocfl::head_version(&inventory);
    assert_eq!(
        ocfl.path_for_logical_path("z", &inventory, &head),
        Some("v1/content/y".to_string())
    );
    assert_eq!(ocfl.path_for_logical_path("w", &inventory, &head), None);
}

#[test]
fn path_for_logical_path_without_manifest_entry() {
    let ocfl = create_ocfl();
    let state = entries(&[("d1", &["x"])]);
    let inventory = create_inventory("id", "v1", state, entries(&[("d9", &["q"])]));
    let head = Ocfl::head_version(&inventory);
    assert_eq!(ocfl.path_for_logical_path("x", &inventory, &head), None);
}

#[test]
fn head_version_is_the_named_version() {
    let state = entries(&[("abc", &["a/b/c"])]);
    let inventory = create_inventory("id", "v1", state, Vec::new());
    let head = Ocfl::head_version(&inventory);
    assert_eq!(head.state, entries(&[("abc", &["a/b/c"])]));
    assert!(Ocfl::version_named(&inventory, &"v2".to_string()).is_none());
}

#[test]
fn path_for_digest_cuts_tuples() {
    let ocfl = Ocfl::new(
        "/repo".to_string(),
        StorageConfig {
            digest_algorithm: "sha256".to_string(),
            tuple_size: 2,
            number_of_tuples: 2,
            short_object_root: false,
        },
    );
    assert_eq!(ocfl.path_for_digest("abcdef"), "ab/cd/abcdef");
    let flat = Ocfl::new(
        "/repo".to_string(),
        StorageConfig {
            digest_algorithm: "sha256".to_string(),
            tuple_size: 3,
            number_of_tuples: 0,
            short_object_root: false,
        },
    );
    assert_eq!(flat.path_for_digest("abcdef"), "abcdef");
}

#[test]
fn path_for_id_of_other_identifier() {
    // SHA-256 of "id" is a56145270ce6b3bebd1dd012b73948677dd618d496488bc608a3cb43ce3547dd.
    let ocfl = create_ocfl();
    assert_eq!(
        ocfl.path_for_id("id"),
        "a56/145/270/a56145270ce6b3bebd1dd012b73948677dd618d496488bc608a3cb43ce3547dd"
    );
}

#[test]
fn storage_config_paths() {
    assert_eq!(
        Ocfl::storage_config_path("/repo", Some("0004-hashed-n-tuple-storage-layout")),
        Ok("/repo/extensions/0004-hashed-n-tuple-storage-layout/config.json".to_string())
    );
    assert_eq!(
        Ocfl::storage_config_path("/repo", None),
        Err("0004-hashed-n-tuple-storage-layout".to_string())
    );
    assert_eq!(Ocfl::layout_path("/repo/"), "/repo/ocfl_layout.json");
    assert_eq!(Ocfl::inventory_path("obj"), "obj/inventory.json");
}

#[test]
fn state_paths_and_object_ids() {
    let state = entries(&[("d1", &["x", "y"]), ("d2", &["z"])]);
    let version = Version {
        created: "".to_string(),
        state,
    };
    assert_eq!(Ocfl::state_paths(&version), vec!["x", "y", "z"]);
    let a = create_inventory("id1", "v1", Vec::new(), Vec::new());
    let b = create_inventory("id2", "v1", Vec::new(), Vec::new());
    assert_eq!(Ocfl::object_ids(&vec![a, b]), vec!["id1", "id2"]);
}

#[test]
fn version_names_in_order() {
    let v = |s: &str| Version {
        created: s.to_string(),
        state: Vec::new(),
    };
    let inventory = Inventory {
        id: "id".to_string(),
        head: "v2".to_string(),
        manifest: Vec::new(),
        versions: vec![("v1".to_string(), v("a")), ("v2".to_string(), v("b"))],
    };
    assert_eq!(Ocfl::version_names(&inventory), vec!["v1", "v2"]);
    assert_eq!(Ocfl::head_version(&inventory).created, "b");
}

#[test]
fn ls_line_for_resolved_file() {
    let ocfl = create_ocfl();
    let listing = names(&["0=ocfl_object_1.1", "inventory.json", "a"]);
    let state = entries(&[("abc", &["a/b/c"])]);
    let manifest = entries(&[("abc", &["a/b/c/d/e"])]);
    let inventory = create_inventory("id", "v1", state, manifest);
    let args = ocfl.modify_if_ocfl_path(&listing, Some(&inventory), names(&["a/b/c"]), true);
    // The stored file holds the four bytes "test".
    assert_eq!(size_line(4, args.last().unwrap()), "4\ta/b/c/d/e");
}

#[test]
fn storage_config_location_from_layout() {
    let layout = b"{\"extension\":\"0004-hashed-n-tuple-storage-layout\"}";
    assert_eq!(
        Ocfl::storage_config_location("/repo", layout),
        Ok("/repo/extensions/0004-hashed-n-tuple-storage-layout/config.json".to_string())
    );
    assert_eq!(
        Ocfl::storage_config_location("/repo", b"{\"description\":\"x\"}"),
        Err("0004-hashed-n-tuple-storage-layout".to_string())
    );
    assert_eq!(
        Ocfl::storage_config_location("/repo", b"{\"extension\":4}"),
        Err("0004-hashed-n-tuple-storage-layout".to_string())
    );
    assert!(Ocfl::storage_config_location("/repo", b"not json").is_err());
}

#[test]
fn walking_for_objects() {
    let ocfl = create_ocfl();
    assert_eq!(ocfl.object_depth(), 4);
    let object = names(&["0=ocfl_object_1.1", "inventory.json"]);
    let other = names(&["file.txt"]);
    assert!(matches!(ocfl.walk_step(true, &object), WalkStep::Stop(m) if m == "Interrupted"));
    assert!(matches!(ocfl.walk_step(false, &object), WalkStep::Read));
    assert!(matches!(ocfl.walk_step(false, &other), WalkStep::Skip));
}

#[test]
fn string_order_and_ordered_inventories() {
    assert!(str_lt("v1", "v2"));
    assert!(str_lt("v1", "v10"));
    assert!(!str_lt("v2", "v10"));
    assert!(!str_lt("v1", "v1"));
    assert!(str_lt("", "a"));
    assert!(!str_lt("a", ""));
    let ordered: Vec<(String, Vec<String>)> = vec![("a".to_string(), Vec::new()), ("b".to_string(), Vec::new())];
    let unordered: Vec<(String, Vec<String>)> = vec![("b".to_string(), Vec::new()), ("a".to_string(), Vec::new())];
    let repeated: Vec<(String, Vec<String>)> = vec![("a".to_string(), Vec::new()), ("a".to_string(), Vec::new())];
    assert!(keys_in_order(&ordered));
    assert!(!keys_in_order(&unordered));
    assert!(!keys_in_order(&repeated));

    let version = Version { created: String::new(), state: ordered };
    let mut inventory = Inventory {
        id: "id".to_string(),
        head: "v1".to_string(),
        manifest: Vec::new(),
        versions: vec![("v1".to_string(), version)],
    };
    assert!(inventory.well_formed());
    inventory.versions[0].1.state = unordered;
    assert!(!inventory.well_formed());
}
