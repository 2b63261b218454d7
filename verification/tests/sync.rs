use modrinth_cli::download::DownloadRequest;
use modrinth_cli::download_cache::{CacheOutcome, DownloadCache, DownloadTarget};
use modrinth_cli::install_cache::{InstallCache, InstalledMod};
use modrinth_cli::modrinth::{ModrinthModVersion, ModrinthModVersionFile, Registry, Timestamp};
use modrinth_cli::mods_dir::ModsDir;
use modrinth_cli::sync::{copy_pairs, InstallStep, Installation, SyncFailure};

fn file(url: &str, filename: &str, sha1: Option<&str>) -> ModrinthModVersionFile {
    let mut file = ModrinthModVersionFile::new(url.to_string(), filename.to_string());
    if let Some(digest) = sha1 {
        file.set_hash("sha1".to_string(), digest.to_string());
    }
    file
}

fn version(id: &str, mod_id: &str, files: Vec<ModrinthModVersionFile>) -> ModrinthModVersion {
    ModrinthModVersion {
        id: id.to_string(),
        mod_id: mod_id.to_string(),
        author_id: "author".to_string(),
        featured: false,
        name: id.to_string(),
        version_number: "1.0.0".to_string(),
        changelog: None,
        changelog_url: None,
        date_published: Timestamp { seconds: 0, nanos: 0 },
        downloads: 0,
        version_type: "release".to_string(),
        files,
        dependencies: vec![],
        game_versions: vec!["1.16.5".to_string()],
        loaders: vec!["fabric".to_string()],
    }
}

fn registry(versions: Vec<ModrinthModVersion>) -> Registry {
    Registry { mods: vec![], versions }
}

fn fresh() -> Installation {
    Installation {
        ledger: InstallCache::empty(),
        mods_dir: ModsDir::new(),
        cache: DownloadCache::create(vec![]),
    }
}

fn pack(entries: &[(&str, &str)]) -> Vec<(String, String)> {
    entries.iter().map(|(slug, version)| (slug.to_string(), version.to_string())).collect()
}

fn sodium_registry() -> Registry {
    registry(vec![version(
        "v1",
        "modid123",
        vec![file("http://x/sodium.jar", "sodium.jar", Some("abc123"))],
    )])
}

fn sodium_record() -> InstalledMod {
    InstalledMod::of(
        "sodium".to_string(),
        "modid123".to_string(),
        "v1".to_string(),
        "sodium.jar".to_string(),
    )
}

fn sodium_target() -> DownloadTarget {
    DownloadTarget {
        mod_id: "modid123".to_string(),
        version_id: "v1".to_string(),
        sha1: "abc123".to_string(),
        url: "http://x/sodium.jar".to_string(),
    }
}

#[test]
fn sync_installs_what_the_pack_asks_for() {
    let mut state = fresh();
    let report = state.sync_pack(&pack(&[("sodium", "v1")]), &sodium_registry(), false);
    assert_eq!(report.failure, None);
    assert!(report.deleted_before.is_empty());
    assert!(report.deleted_after.is_empty());
    assert_eq!(
        report.steps,
        vec![InstallStep::Installed {
            target: sodium_target(),
            filename: "sodium.jar".to_string(),
            outcome: CacheOutcome::Fetched(DownloadRequest {
                url: "http://x/sodium.jar".to_string(),
                resume_from: None,
            }),
        }]
    );
    assert!(state.mods_dir.contains(&"sodium.jar".to_string()));
    assert_eq!(state.ledger.mods, vec![sodium_record()]);
    assert!(state.cache.is_cached(&sodium_target()));
}

#[test]
fn sync_deletes_the_file_of_a_mod_that_left_the_pack() {
    let mut state = fresh();
    state.sync_pack(&pack(&[("sodium", "v1")]), &sodium_registry(), false);
    let report = state.sync_pack(&pack(&[]), &sodium_registry(), false);
    assert_eq!(report.failure, None);
    assert_eq!(report.deleted_before, vec!["sodium.jar".to_string()]);
    assert!(report.steps.is_empty());
    assert!(report.deleted_after.is_empty());
    assert!(!state.mods_dir.contains(&"sodium.jar".to_string()));
    assert!(state.ledger.mods.is_empty());
}

#[test]
fn sync_without_delete_keeps_the_file_and_drops_the_record() {
    let mut state = fresh();
    state.sync_pack(&pack(&[("sodium", "v1")]), &sodium_registry(), false);
    let report = state.sync_pack(&pack(&[]), &sodium_registry(), true);
    assert_eq!(report.failure, None);
    assert!(report.deleted_before.is_empty());
    assert!(report.deleted_after.is_empty());
    assert!(state.mods_dir.contains(&"sodium.jar".to_string()));
    assert!(state.ledger.mods.is_empty());
}

#[test]
fn sync_purges_the_record_of_a_file_that_was_deleted_by_hand() {
    let mut ledger = InstallCache::empty();
    ledger.mods.push(sodium_record());
    let mut state =
        Installation { ledger, mods_dir: ModsDir::new(), cache: DownloadCache::create(vec![]) };
    let empty_registry = registry(vec![version("v1", "modid123", vec![])]);
    let report = state.sync_pack(&pack(&[("sodium", "v1")]), &empty_registry, false);
    assert_eq!(report.failure, None);
    assert!(report.deleted_before.is_empty());
    assert!(report.deleted_after.is_empty());
    assert_eq!(report.steps, vec![InstallStep::NoFiles]);
    assert!(state.ledger.mods.is_empty());
    assert!(!state.mods_dir.contains(&"sodium.jar".to_string()));
}

#[test]
fn sync_reinstalls_a_file_that_was_deleted_by_hand() {
    let mut state = fresh();
    state.sync_pack(&pack(&[("sodium", "v1")]), &sodium_registry(), false);
    assert!(state.mods_dir.remove_file(&"sodium.jar".to_string()));
    let report = state.sync_pack(&pack(&[("sodium", "v1")]), &sodium_registry(), false);
    assert_eq!(report.failure, None);
    assert!(report.deleted_before.is_empty());
    assert_eq!(
        report.steps,
        vec![InstallStep::Installed {
            target: sodium_target(),
            filename: "sodium.jar".to_string(),
            outcome: CacheOutcome::Hit,
        }]
    );
    assert_eq!(state.ledger.mods, vec![sodium_record()]);
    assert!(state.mods_dir.contains(&"sodium.jar".to_string()));
}

#[test]
fn second_sync_finds_nothing_to_do() {
    let mut state = fresh();
    let entries = pack(&[("lithium", "v7"), ("sodium", "v1")]);
    let answers = registry(vec![
        version("v1", "modid123", vec![file("http://x/sodium.jar", "sodium.jar", Some("abc123"))]),
        version("v7", "modid456", vec![file("http://x/lithium.jar", "lithium.jar", Some("def456"))]),
    ]);
    let first = state.sync_pack(&entries, &answers, false);
    assert_eq!(first.failure, None);
    assert_eq!(first.steps.len(), 2);
    let ledger_after_first = state.ledger.mods.clone();
    let second = state.sync_pack(&entries, &answers, false);
    assert_eq!(second.failure, None);
    assert!(second.deleted_before.is_empty());
    assert!(second.deleted_after.is_empty());
    assert_eq!(second.steps, vec![InstallStep::Present, InstallStep::Present]);
    assert_eq!(state.ledger.mods, ledger_after_first);
    assert_eq!(state.ledger.mods.len(), 2);
    assert_eq!(state.ledger.mods[0].mod_slug, "lithium");
    assert_eq!(state.ledger.mods[1].mod_slug, "sodium");
}

#[test]
fn readded_mod_resolves_from_the_cache() {
    let mut state = fresh();
    state.sync_pack(&pack(&[("sodium", "v1")]), &sodium_registry(), false);
    state.sync_pack(&pack(&[]), &sodium_registry(), false);
    assert!(!state.mods_dir.contains(&"sodium.jar".to_string()));
    let moved = registry(vec![version(
        "v1",
        "modid123",
        vec![file("http://mirror/other.jar", "sodium.jar", Some("abc123"))],
    )]);
    let report = state.sync_pack(&pack(&[("sodium", "v1")]), &moved, false);
    assert_eq!(report.failure, None);
    match &report.steps[0] {
        InstallStep::Installed { outcome, .. } => assert_eq!(*outcome, CacheOutcome::Hit),
        other => panic!("unexpected step {:?}", other),
    }
    assert!(state.mods_dir.contains(&"sodium.jar".to_string()));
}

#[test]
fn update_replaces_the_record_and_the_file() {
    let mut state = fresh();
    let answers = registry(vec![
        version("v1", "modid123", vec![file("http://x/sodium-1.jar", "sodium-1.jar", Some("aaa"))]),
        version("v2", "modid123", vec![file("http://x/sodium-2.jar", "sodium-2.jar", Some("bbb"))]),
    ]);
    state.sync_pack(&pack(&[("sodium", "v1")]), &answers, false);
    let report = state.sync_pack(&pack(&[("sodium", "v2")]), &answers, false);
    assert_eq!(report.failure, None);
    assert_eq!(report.deleted_before, vec!["sodium-1.jar".to_string()]);
    assert!(!state.mods_dir.contains(&"sodium-1.jar".to_string()));
    assert!(state.mods_dir.contains(&"sodium-2.jar".to_string()));
    assert_eq!(
        state.ledger.mods,
        vec![InstalledMod::of(
            "sodium".to_string(),
            "modid123".to_string(),
            "v2".to_string(),
            "sodium-2.jar".to_string(),
        )]
    );
}

#[test]
fn only_the_first_file_of_a_version_is_installed() {
    let mut state = fresh();
    let answers = registry(vec![version(
        "v1",
        "modid123",
        vec![
            file("http://x/fabric.jar", "fabric.jar", Some("aaa")),
            file("http://x/forge.jar", "forge.jar", Some("bbb")),
        ],
    )]);
    let report = state.sync_pack(&pack(&[("sodium", "v1")]), &answers, false);
    assert_eq!(report.failure, None);
    assert!(state.mods_dir.contains(&"fabric.jar".to_string()));
    assert!(!state.mods_dir.contains(&"forge.jar".to_string()));
    assert_eq!(state.ledger.mods.len(), 1);
}

#[test]
fn sync_stops_at_a_version_the_registry_does_not_know() {
    let mut state = fresh();
    let report =
        state.sync_pack(&pack(&[("sodium", "v1"), ("lithium", "v9")]), &sodium_registry(), false);
    assert_eq!(report.failure, Some(SyncFailure::Lookup { version_id: "v9".to_string() }));
    assert_eq!(report.steps.len(), 1);
    assert_eq!(state.ledger.mods, vec![sodium_record()]);
    assert!(state.mods_dir.contains(&"sodium.jar".to_string()));
}

#[test]
fn sync_stops_at_a_file_without_digest() {
    let mut state = fresh();
    let answers =
        registry(vec![version("v1", "modid123", vec![file("http://x/sodium.jar", "sodium.jar", None)])]);
    let report = state.sync_pack(&pack(&[("sodium", "v1")]), &answers, false);
    assert_eq!(report.failure, Some(SyncFailure::NoDigest { filename: "sodium.jar".to_string() }));
    assert!(report.steps.is_empty());
    assert!(state.ledger.mods.is_empty());
    assert!(!state.mods_dir.contains(&"sodium.jar".to_string()));
}

#[test]
fn sync_stops_at_a_url_that_does_not_parse() {
    let mut state = fresh();
    let answers =
        registry(vec![version("v1", "modid123", vec![file("not a url", "sodium.jar", Some("abc123"))])]);
    let report = state.sync_pack(&pack(&[("sodium", "v1")]), &answers, false);
    assert_eq!(
        report.failure,
        Some(SyncFailure::InvalidUrl { reason: "relative URL without a base".to_string() })
    );
    assert!(state.ledger.mods.is_empty());
    assert!(!state.mods_dir.contains(&"sodium.jar".to_string()));
    assert!(!state.cache.is_cached(&sodium_target()));
}

#[test]
fn sync_purges_the_record_of_a_removed_mod_whose_file_is_gone() {
    let mut ledger = InstallCache::empty();
    ledger.mods.push(sodium_record());
    let mut state =
        Installation { ledger, mods_dir: ModsDir::new(), cache: DownloadCache::create(vec![]) };
    let report = state.sync_pack(&pack(&[]), &sodium_registry(), false);
    assert_eq!(report.failure, None);
    assert!(report.deleted_before.is_empty());
    assert!(report.deleted_after.is_empty());
    assert!(state.ledger.mods.is_empty());
    let again = state.sync_pack(&pack(&[]), &sodium_registry(), false);
    assert_eq!(again.failure, None);
    assert!(state.ledger.mods.is_empty());
}

#[test]
fn install_skips_a_file_that_is_present() {
    let mut state = fresh();
    state.mods_dir.create(&"sodium.jar".to_string());
    let answers = sodium_registry();
    let step = state.install(&"sodium".to_string(), &"v1".to_string(), &answers.versions[0]);
    assert_eq!(step, Ok(InstallStep::Present));
    assert!(state.ledger.mods.is_empty());
    assert!(!state.cache.is_cached(&sodium_target()));
}

#[test]
fn install_records_the_version_of_the_pack_entry() {
    let mut state = fresh();
    let answers = sodium_registry();
    let step = state.install(&"sodium".to_string(), &"pinned".to_string(), &answers.versions[0]);
    assert!(step.is_ok());
    assert_eq!(
        state.ledger.mods,
        vec![InstalledMod::of(
            "sodium".to_string(),
            "modid123".to_string(),
            "pinned".to_string(),
            "sodium.jar".to_string(),
        )]
    );
}

#[test]
fn copy_pairs_copies() {
    let entries = pack(&[("a", "1"), ("b", "2")]);
    assert_eq!(copy_pairs(&entries), entries);
    assert!(copy_pairs(&vec![]).is_empty());
}
