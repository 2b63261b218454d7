use modrinth_cli::install_cache::{wanted, InstallCache, InstalledMod};
use modrinth_cli::modrinth::PackMod;
use modrinth_cli::mods_dir::ModsDir;

fn record(slug: &str, version: &str, filename: &str) -> InstalledMod {
    InstalledMod::of(slug.to_string(), format!("id-{}", slug), version.to_string(), filename.to_string())
}

fn ledger(records: Vec<InstalledMod>) -> InstallCache {
    InstallCache { mods: records }
}

fn dir(names: &[&str]) -> ModsDir {
    ModsDir::from_names(names.iter().map(|name| name.to_string()).collect())
}

fn pack(entries: &[(&str, &str)]) -> Vec<(String, String)> {
    entries.iter().map(|(slug, version)| (slug.to_string(), version.to_string())).collect()
}

#[test]
fn empty_ledger_has_no_records() {
    assert!(InstallCache::empty().mods.is_empty());
}

#[test]
fn of_fills_the_fields_in_order() {
    let made = InstalledMod::of("s".to_string(), "i".to_string(), "v".to_string(), "f".to_string());
    assert_eq!(made.mod_slug, "s");
    assert_eq!(made.mod_id, "i");
    assert_eq!(made.version_id, "v");
    assert_eq!(made.filename, "f");
}

#[test]
fn add_mod_appends_a_record() {
    let mut cache = ledger(vec![record("a", "1", "a.jar")]);
    let pack_mod = PackMod::new("id-b".to_string(), "b".to_string(), "2".to_string());
    cache.add_mod(&pack_mod, &"b.jar".to_string());
    assert_eq!(cache.mods, vec![record("a", "1", "a.jar"), record("b", "2", "b.jar")]);
}

#[test]
fn pack_mod_new_takes_id_slug_version() {
    let pack_mod = PackMod::new("id".to_string(), "slug".to_string(), "version".to_string());
    assert_eq!(pack_mod.id, "id");
    assert_eq!(pack_mod.slug, "slug");
    assert_eq!(pack_mod.version, "version");
}

#[test]
fn wanted_needs_slug_and_version_of_one_entry() {
    let entries = pack(&[("a", "1"), ("b", "2")]);
    assert!(wanted(&record("a", "1", "x"), &entries));
    assert!(wanted(&record("b", "2", "x"), &entries));
    assert!(!wanted(&record("a", "2", "x"), &entries));
    assert!(!wanted(&record("c", "1", "x"), &entries));
    assert!(!wanted(&record("a", "1", "x"), &vec![]));
}

#[test]
fn find_not_installed_mods_keeps_ledger_order() {
    let cache = ledger(vec![
        record("a", "1", "a.jar"),
        record("b", "1", "b.jar"),
        record("c", "3", "c.jar"),
        record("b", "2", "b2.jar"),
    ]);
    let found = cache.find_not_installed_mods(&pack(&[("b", "2"), ("a", "1")]));
    assert_eq!(found, vec![&record("b", "1", "b.jar"), &record("c", "3", "c.jar")]);
}

#[test]
fn find_missing_mods_goes_by_the_file() {
    let cache = ledger(vec![
        record("a", "1", "a.jar"),
        record("b", "1", "b.jar"),
        record("c", "1", "a.jar"),
    ]);
    let found = cache.find_missing_mods(&dir(&["a.jar"]));
    assert_eq!(found, vec![&record("b", "1", "b.jar")]);
    assert!(cache.find_missing_mods(&dir(&["b.jar", "a.jar"])).is_empty());
}

#[test]
fn cleanup_keeps_what_is_asked_for_and_on_disk() {
    let mut cache = ledger(vec![
        record("a", "1", "a.jar"),
        record("b", "1", "b.jar"),
        record("c", "1", "c.jar"),
        record("d", "1", "d.jar"),
    ]);
    let mut files = dir(&["a.jar", "b.jar", "d.jar", "stray.jar"]);
    let deleted = cache.cleanup(&mut files, pack(&[("a", "1"), ("c", "1"), ("d", "1")]), true);
    assert_eq!(deleted, vec!["b.jar".to_string()]);
    assert_eq!(cache.mods, vec![record("a", "1", "a.jar"), record("d", "1", "d.jar")]);
    assert!(files.contains(&"a.jar".to_string()));
    assert!(!files.contains(&"b.jar".to_string()));
    assert!(files.contains(&"d.jar".to_string()));
    assert!(files.contains(&"stray.jar".to_string()));
}

#[test]
fn cleanup_without_delete_touches_no_file() {
    let mut cache = ledger(vec![record("a", "1", "a.jar"), record("b", "1", "b.jar")]);
    let mut files = dir(&["a.jar", "b.jar"]);
    let deleted = cache.cleanup(&mut files, pack(&[("a", "1")]), false);
    assert!(deleted.is_empty());
    assert_eq!(cache.mods, vec![record("a", "1", "a.jar")]);
    assert!(files.contains(&"a.jar".to_string()));
    assert!(files.contains(&"b.jar".to_string()));
}

#[test]
fn cleanup_without_delete_purges_records_without_files() {
    let mut cache = ledger(vec![record("a", "1", "a.jar"), record("b", "1", "a.jar")]);
    let mut files = dir(&[]);
    assert!(cache.cleanup(&mut files, pack(&[]), false).is_empty());
    assert!(cache.mods.is_empty());
}

#[test]
fn cleanup_removes_neighbouring_records_together() {
    let mut cache = ledger(vec![
        record("a", "1", "a.jar"),
        record("b", "1", "b.jar"),
        record("c", "1", "c.jar"),
        record("d", "1", "d.jar"),
        record("e", "1", "e.jar"),
    ]);
    let mut files = dir(&["a.jar", "b.jar", "c.jar", "d.jar", "e.jar"]);
    let deleted = cache.cleanup(&mut files, pack(&[("c", "1")]), true);
    assert_eq!(
        deleted,
        vec!["a.jar".to_string(), "b.jar".to_string(), "d.jar".to_string(), "e.jar".to_string()]
    );
    assert_eq!(cache.mods, vec![record("c", "1", "c.jar")]);
}

#[test]
fn cleanup_drops_a_wanted_record_whose_file_another_record_took() {
    let mut cache = ledger(vec![record("old", "1", "shared.jar"), record("new", "1", "shared.jar")]);
    let mut files = dir(&["shared.jar"]);
    let deleted = cache.cleanup(&mut files, pack(&[("new", "1")]), true);
    assert_eq!(deleted, vec!["shared.jar".to_string()]);
    assert!(cache.mods.is_empty());
    assert!(!files.contains(&"shared.jar".to_string()));
}

#[test]
fn cleanup_passes_over_a_file_that_is_not_there() {
    let mut cache = ledger(vec![
        record("a", "1", "a.jar"),
        record("b", "1", "b.jar"),
        record("c", "1", "c.jar"),
    ]);
    let mut files = dir(&["a.jar", "c.jar"]);
    let deleted = cache.cleanup(&mut files, pack(&[]), true);
    assert_eq!(deleted, vec!["a.jar".to_string(), "c.jar".to_string()]);
    assert!(cache.mods.is_empty());
    assert!(!files.contains(&"a.jar".to_string()));
    assert!(!files.contains(&"c.jar".to_string()));
}

#[test]
fn cleanup_purges_a_stale_record_whose_file_is_gone() {
    let mut cache = ledger(vec![record("a", "1", "a.jar")]);
    let mut files = dir(&["other.jar"]);
    let deleted = cache.cleanup(&mut files, pack(&[]), true);
    assert!(deleted.is_empty());
    assert!(cache.mods.is_empty());
    assert!(files.contains(&"other.jar".to_string()));
}

#[test]
fn cleanup_deletes_a_file_named_twice_once() {
    let mut cache = ledger(vec![
        record("a", "1", "x.jar"),
        record("b", "1", "y.jar"),
        record("c", "1", "x.jar"),
    ]);
    let mut files = dir(&["x.jar", "y.jar"]);
    let deleted = cache.cleanup(&mut files, pack(&[]), true);
    assert_eq!(deleted, vec!["x.jar".to_string(), "y.jar".to_string()]);
    assert!(cache.mods.is_empty());
    assert!(!files.contains(&"x.jar".to_string()));
}

#[test]
fn cleanup_leaves_only_what_is_asked_for_and_on_disk() {
    let mut cache = ledger(vec![
        record("a", "1", "a.jar"),
        record("b", "1", "b.jar"),
        record("c", "1", "c.jar"),
        record("d", "1", "d.jar"),
    ]);
    let mut files = dir(&["a.jar", "b.jar"]);
    let wanted_mods = pack(&[("a", "1"), ("c", "1")]);
    for delete in [false, true] {
        cache.cleanup(&mut files, wanted_mods.clone(), delete);
        assert_eq!(cache.mods, vec![record("a", "1", "a.jar")]);
        for kept in &cache.mods {
            assert!(wanted(kept, &wanted_mods));
            assert!(files.contains(&kept.filename));
        }
    }
}

#[test]
fn mods_dir_tracks_files() {
    let mut files = ModsDir::new();
    assert!(!files.contains(&"a.jar".to_string()));
    files.create(&"a.jar".to_string());
    files.create(&"a.jar".to_string());
    assert!(files.contains(&"a.jar".to_string()));
    assert!(files.remove_file(&"a.jar".to_string()));
    assert!(!files.contains(&"a.jar".to_string()));
    assert!(!files.remove_file(&"a.jar".to_string()));
}
