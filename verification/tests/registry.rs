use modrinth_cli::modrinth::{
    contains_text, get_mod_details, get_mod_version, get_mod_versions, latest_index,
    latest_version, parse_definition, pinned_version, resolve_version, License, ModDefinition,
    ModrinthMod, ModrinthModVersion, PackMod, Registry, RegistryError, Timestamp,
};

fn details(id: &str, slug: &str, versions: &[&str]) -> ModrinthMod {
    ModrinthMod {
        id: id.to_string(),
        slug: slug.to_string(),
        team: String::new(),
        title: slug.to_string(),
        description: String::new(),
        body: String::new(),
        body_url: None,
        published: Timestamp { seconds: 0, nanos: 0 },
        updated: Timestamp { seconds: 0, nanos: 0 },
        status: "approved".to_string(),
        license: License { id: "mit".to_string(), name: "MIT".to_string(), url: None },
        client_side: "required".to_string(),
        server_side: "unsupported".to_string(),
        downloads: 0,
        categories: vec![],
        versions: versions.iter().map(|v| v.to_string()).collect(),
        icon_url: None,
        issues_url: None,
        source_url: None,
        wiki_url: None,
        discord_url: None,
        donation_urls: None,
    }
}

fn version(
    id: &str,
    mod_id: &str,
    seconds: i64,
    nanos: u32,
    loaders: &[&str],
    game_versions: &[&str],
) -> ModrinthModVersion {
    ModrinthModVersion {
        id: id.to_string(),
        mod_id: mod_id.to_string(),
        author_id: String::new(),
        featured: false,
        name: String::new(),
        version_number: String::new(),
        changelog: None,
        changelog_url: None,
        date_published: Timestamp { seconds, nanos },
        downloads: 0,
        version_type: String::new(),
        files: vec![],
        dependencies: vec![],
        game_versions: game_versions.iter().map(|v| v.to_string()).collect(),
        loaders: loaders.iter().map(|v| v.to_string()).collect(),
    }
}

fn sample() -> Registry {
    Registry {
        mods: vec![details("AAAA", "sodium", &["s1", "s2", "s3"]), details("BBBB", "lithium", &["l1"])],
        versions: vec![
            version("s1", "AAAA", 100, 0, &["fabric"], &["1.16.5"]),
            version("l1", "BBBB", 900, 0, &["fabric"], &["1.16.5"]),
            version("s3", "AAAA", 300, 0, &["forge"], &["1.16.5"]),
            version("s2", "AAAA", 200, 0, &["fabric", "forge"], &["1.16.4", "1.16.5"]),
        ],
    }
}

fn entry(id: &str, slug: &str, version: &str) -> PackMod {
    PackMod::new(id.to_string(), slug.to_string(), version.to_string())
}

#[test]
fn definition_without_colon_names_a_mod() {
    assert_eq!(parse_definition("sodium"), ModDefinition::Latest { name: "sodium".to_string() });
    assert_eq!(parse_definition(""), ModDefinition::Latest { name: String::new() });
}

#[test]
fn definition_with_one_colon_pins_a_version() {
    assert_eq!(
        parse_definition("sodium:v1"),
        ModDefinition::Pinned { name: "sodium".to_string(), version: "v1".to_string() }
    );
    assert_eq!(
        parse_definition(":"),
        ModDefinition::Pinned { name: String::new(), version: String::new() }
    );
    assert_eq!(
        parse_definition("mød:vérsion"),
        ModDefinition::Pinned { name: "mød".to_string(), version: "vérsion".to_string() }
    );
}

#[test]
fn definition_with_more_colons_is_invalid() {
    assert_eq!(parse_definition("a:b:c"), ModDefinition::Invalid);
    assert_eq!(parse_definition("::"), ModDefinition::Invalid);
}

#[test]
fn timestamps_order_by_seconds_then_nanos() {
    let early = Timestamp { seconds: 1, nanos: 999 };
    let late = Timestamp { seconds: 2, nanos: 0 };
    assert!(early.is_not_after(&late));
    assert!(!late.is_not_after(&early));
    assert!(early.is_not_after(&early));
    assert!(Timestamp { seconds: -5, nanos: 1 }.is_not_after(&Timestamp { seconds: -5, nanos: 2 }));
    assert!(!Timestamp { seconds: -5, nanos: 2 }.is_not_after(&Timestamp { seconds: -5, nanos: 1 }));
}

#[test]
fn contains_text_compares_whole_strings() {
    let list = vec!["fabric".to_string(), "forge".to_string()];
    assert!(contains_text(&list, "forge"));
    assert!(!contains_text(&list, "for"));
    assert!(!contains_text(&vec![], "forge"));
}

#[test]
fn registry_finds_a_mod_by_id_or_slug() {
    let registry = sample();
    assert_eq!(get_mod_details(&registry, "sodium").unwrap().id, "AAAA");
    assert_eq!(get_mod_details(&registry, "BBBB").unwrap().slug, "lithium");
    assert!(get_mod_details(&registry, "phosphor").is_none());
}

#[test]
fn registry_lists_the_versions_of_a_mod_in_order() {
    let registry = sample();
    let found: Vec<&str> =
        get_mod_versions(&registry, "AAAA").iter().map(|v| v.id.as_str()).collect();
    assert_eq!(found, vec!["s1", "s3", "s2"]);
    assert!(get_mod_versions(&registry, "sodium").is_empty());
}

#[test]
fn registry_finds_a_version_by_id() {
    let registry = sample();
    assert_eq!(get_mod_version(&registry, "s3").unwrap().mod_id, "AAAA");
    assert!(get_mod_version(&registry, "s4").is_none());
}

#[test]
fn latest_is_the_newest_that_fits() {
    let registry = sample();
    let versions = get_mod_versions(&registry, "AAAA");
    assert_eq!(latest_index(&versions, "fabric", "1.16.5"), Some(2));
    assert_eq!(latest_index(&versions, "forge", "1.16.5"), Some(1));
    assert_eq!(latest_index(&versions, "fabric", "1.16.4"), Some(2));
    assert_eq!(latest_index(&versions, "fabric", "1.17"), None);
    assert_eq!(latest_index(&vec![], "fabric", "1.16.5"), None);
}

#[test]
fn latest_of_equal_instants_is_the_last() {
    let a = version("a", "m", 5, 7, &["fabric"], &["1.16.5"]);
    let b = version("b", "m", 5, 7, &["fabric"], &["1.16.5"]);
    let c = version("c", "m", 5, 6, &["fabric"], &["1.16.5"]);
    assert_eq!(latest_index(&vec![&a, &b, &c], "fabric", "1.16.5"), Some(1));
    assert_eq!(latest_index(&vec![&c, &b, &a], "fabric", "1.16.5"), Some(2));
}

#[test]
fn pinned_version_must_be_listed() {
    let sodium = details("AAAA", "sodium", &["s1", "s2"]);
    assert_eq!(pinned_version(&sodium, "s2"), Some(entry("AAAA", "sodium", "s2")));
    assert_eq!(pinned_version(&sodium, "l1"), None);
}

#[test]
fn latest_version_pins_the_newest() {
    let registry = sample();
    let sodium = get_mod_details(&registry, "sodium").unwrap();
    let versions = get_mod_versions(&registry, "AAAA");
    assert_eq!(
        latest_version(sodium, &versions, "fabric", "1.16.5"),
        Some(entry("AAAA", "sodium", "s2"))
    );
    assert_eq!(latest_version(sodium, &versions, "quilt", "1.16.5"), None);
}

#[test]
fn resolve_version_by_definition() {
    let registry = sample();
    assert_eq!(
        resolve_version(&registry, "sodium", "forge", "1.16.5"),
        Ok(Some(entry("AAAA", "sodium", "s3")))
    );
    assert_eq!(
        resolve_version(&registry, "AAAA", "fabric", "1.16.5"),
        Ok(Some(entry("AAAA", "sodium", "s2")))
    );
    assert_eq!(
        resolve_version(&registry, "sodium:s1", "forge", "1.19"),
        Ok(Some(entry("AAAA", "sodium", "s1")))
    );
    assert_eq!(resolve_version(&registry, "sodium:l1", "fabric", "1.16.5"), Ok(None));
    assert_eq!(resolve_version(&registry, "sodium", "fabric", "1.19"), Ok(None));
    assert_eq!(resolve_version(&registry, "a:b:c", "fabric", "1.16.5"), Ok(None));
}

#[test]
fn resolve_version_of_an_unknown_mod_fails() {
    let registry = sample();
    assert_eq!(
        resolve_version(&registry, "phosphor", "fabric", "1.16.5"),
        Err(RegistryError::NotFound { name: "phosphor".to_string() })
    );
    assert_eq!(
        resolve_version(&registry, "phosphor:p1", "fabric", "1.16.5"),
        Err(RegistryError::NotFound { name: "phosphor".to_string() })
    );
}
