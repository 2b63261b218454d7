use modrinth_cli::download::{
    decimal_string, download, plan_download, DownloadError, DownloadRequest, WriteMode,
};
use modrinth_cli::download_cache::{CacheOutcome, DownloadCache, DownloadTarget};
use modrinth_cli::modrinth::{ModrinthModVersion, ModrinthModVersionFile, Timestamp};
use modrinth_cli::mods_dir::ModsDir;

fn target(mod_id: &str, version_id: &str, sha1: &str, url: &str) -> DownloadTarget {
    DownloadTarget {
        mod_id: mod_id.to_string(),
        version_id: version_id.to_string(),
        sha1: sha1.to_string(),
        url: url.to_string(),
    }
}

fn version(id: &str, mod_id: &str) -> ModrinthModVersion {
    ModrinthModVersion {
        id: id.to_string(),
        mod_id: mod_id.to_string(),
        author_id: String::new(),
        featured: false,
        name: String::new(),
        version_number: String::new(),
        changelog: None,
        changelog_url: None,
        date_published: Timestamp { seconds: 0, nanos: 0 },
        downloads: 0,
        version_type: String::new(),
        files: vec![],
        dependencies: vec![],
        game_versions: vec![],
        loaders: vec![],
    }
}

#[test]
fn decimal_string_writes_numerals() {
    assert_eq!(decimal_string(0), "0");
    assert_eq!(decimal_string(7), "7");
    assert_eq!(decimal_string(10), "10");
    assert_eq!(decimal_string(1234567890), "1234567890");
    assert_eq!(decimal_string(u64::MAX), "18446744073709551615");
}

#[test]
fn download_from_the_start_sends_no_range() {
    let request = download("http://x/sodium.jar", None).unwrap();
    assert_eq!(request.url, "http://x/sodium.jar");
    assert_eq!(request.resume_from, None);
    assert_eq!(request.range(), None);
}

#[test]
fn download_resumes_after_the_bytes_on_disk() {
    let request = download("http://x/sodium.jar", Some(1024)).unwrap();
    assert_eq!(request.resume_from, Some(1024));
    assert_eq!(request.range(), Some("bytes=1024-".to_string()));
    let empty = download("http://x/sodium.jar", Some(0)).unwrap();
    assert_eq!(empty.range(), Some("bytes=0-".to_string()));
}

fn write(on_disk: &mut Vec<u8>, body: &[u8], mode: WriteMode) {
    if mode == WriteMode::Restart {
        on_disk.clear();
    }
    on_disk.extend_from_slice(body);
}

#[test]
fn resumed_download_completes_the_file() {
    let artifact: Vec<u8> = (0u8..10).collect();
    let mut on_disk = artifact[..4].to_vec();
    let request = download("http://x/sodium.jar", Some(on_disk.len() as u64)).unwrap();
    assert_eq!(request.range(), Some("bytes=4-".to_string()));
    let start = request.resume_from.unwrap() as usize;
    write(&mut on_disk, &artifact[start..], request.write_mode(true));
    assert_eq!(on_disk, artifact);
    assert_eq!(on_disk.len(), 10);
}

#[test]
fn answer_that_ignores_the_range_restarts_the_file() {
    let artifact: Vec<u8> = (0u8..10).collect();
    let mut on_disk = artifact[..4].to_vec();
    let request = download("http://x/sodium.jar", Some(4)).unwrap();
    assert_eq!(request.write_mode(false), WriteMode::Restart);
    write(&mut on_disk, &artifact, request.write_mode(false));
    assert_eq!(on_disk, artifact);
}

#[test]
fn write_mode_appends_unless_a_range_was_ignored() {
    let resumed = DownloadRequest { url: "http://x/".to_string(), resume_from: Some(0) };
    let fresh = DownloadRequest { url: "http://x/".to_string(), resume_from: None };
    assert_eq!(resumed.write_mode(true), WriteMode::Append);
    assert_eq!(resumed.write_mode(false), WriteMode::Restart);
    assert_eq!(fresh.write_mode(true), WriteMode::Append);
    assert_eq!(fresh.write_mode(false), WriteMode::Append);
}

#[test]
fn download_sends_the_url_as_it_parses() {
    let request = download("HTTP://Example.COM/a b", None).unwrap();
    assert_eq!(request.url, "http://example.com/a%20b");
    let bare = download("https://example.com", None).unwrap();
    assert_eq!(bare.url, "https://example.com/");
}

#[test]
fn download_refuses_a_url_that_does_not_parse() {
    assert_eq!(
        download("sodium.jar", Some(3)),
        Err(DownloadError::InvalidUrl { reason: "relative URL without a base".to_string() })
    );
    assert_eq!(
        download("http://", None),
        Err(DownloadError::InvalidUrl { reason: "empty host".to_string() })
    );
}

#[test]
fn plan_download_follows_the_parse() {
    assert_eq!(
        plan_download(Ok("http://x/".to_string()), Some(5)),
        Ok(DownloadRequest { url: "http://x/".to_string(), resume_from: Some(5) })
    );
    assert_eq!(
        plan_download(Err("bad".to_string()), Some(5)),
        Err(DownloadError::InvalidUrl { reason: "bad".to_string() })
    );
}

#[test]
fn target_takes_ids_from_the_version_and_digest_from_the_file() {
    let mut file = ModrinthModVersionFile::new("http://x/a.jar".to_string(), "a.jar".to_string());
    file.set_hash("sha512".to_string(), "long".to_string());
    file.set_hash("sha1".to_string(), "abc".to_string());
    let made = DownloadTarget::from(&version("v1", "m1"), &file);
    assert_eq!(made, target("m1", "v1", "abc", "http://x/a.jar"));
    assert_eq!(DownloadTarget::for_file(&version("v1", "m1"), &file), Some(made));
}

#[test]
fn target_needs_a_sha1_digest() {
    let mut file = ModrinthModVersionFile::new("http://x/a.jar".to_string(), "a.jar".to_string());
    file.set_hash("sha512".to_string(), "long".to_string());
    assert_eq!(DownloadTarget::for_file(&version("v1", "m1"), &file), None);
}

#[test]
fn set_hash_replaces_the_digest_of_an_algorithm() {
    let mut file = ModrinthModVersionFile::new(String::new(), String::new());
    assert_eq!(file.get_hash("sha1"), None);
    file.set_hash("sha1".to_string(), "one".to_string());
    file.set_hash("md5".to_string(), "two".to_string());
    file.set_hash("sha1".to_string(), "three".to_string());
    assert_eq!(file.get_hash("sha1"), Some(&"three".to_string()));
    assert_eq!(file.get_hash("md5"), Some(&"two".to_string()));
    assert_eq!(file.hashes.len(), 2);
}

#[test]
fn target_is_named_by_mod_and_version() {
    assert_eq!(target("m1", "v1", "abc", "u").to_string(), "m1:v1");
}

#[test]
fn cache_path_goes_by_mod_version_and_digest() {
    let cache = DownloadCache::create(vec![]);
    assert_eq!(
        cache.get_cache_path(&target("m1", "v1", "abc", "http://x/a.jar")),
        vec!["m1".to_string(), "v1".to_string(), "abc.cache".to_string()]
    );
}

#[test]
fn cache_miss_fetches_and_hit_does_not() {
    let mut cache = DownloadCache::create(vec![]);
    let mut files = ModsDir::new();
    let wanted = target("m1", "v1", "abc", "http://x/a.jar");
    assert!(!cache.is_cached(&wanted));
    let first = cache.copy_from_cache(&wanted, &mut files, &"a.jar".to_string());
    assert_eq!(
        first,
        Ok(CacheOutcome::Fetched(DownloadRequest {
            url: "http://x/a.jar".to_string(),
            resume_from: None
        }))
    );
    assert!(cache.is_cached(&wanted));
    assert!(files.contains(&"a.jar".to_string()));
    let again = target("m1", "v1", "abc", "not even a url");
    let second = cache.copy_from_cache(&again, &mut files, &"copy.jar".to_string());
    assert_eq!(second, Ok(CacheOutcome::Hit));
    assert!(files.contains(&"copy.jar".to_string()));
}

#[test]
fn cache_key_is_mod_version_and_digest_together() {
    let cache = DownloadCache::create(vec![("m1".to_string(), "v1".to_string(), "abc".to_string())]);
    assert!(cache.is_cached(&target("m1", "v1", "abc", "u")));
    assert!(!cache.is_cached(&target("m2", "v1", "abc", "u")));
    assert!(!cache.is_cached(&target("m1", "v2", "abc", "u")));
    assert!(!cache.is_cached(&target("m1", "v1", "abd", "u")));
}

#[test]
fn cache_miss_with_a_bad_url_changes_nothing() {
    let mut cache = DownloadCache::create(vec![]);
    let mut files = ModsDir::new();
    let wanted = target("m1", "v1", "abc", "a.jar");
    let result = cache.copy_from_cache(&wanted, &mut files, &"a.jar".to_string());
    assert_eq!(
        result,
        Err(DownloadError::InvalidUrl { reason: "relative URL without a base".to_string() })
    );
    assert!(!cache.is_cached(&wanted));
    assert!(!files.contains(&"a.jar".to_string()));
}

#[test]
fn store_enters_what_was_fetched() {
    let mut cache = DownloadCache::create(vec![]);
    let mut files = ModsDir::new();
    let wanted = target("m1", "v1", "abc", "ignored");
    let request = DownloadRequest { url: "http://x/".to_string(), resume_from: None };
    let stored = cache.store(&wanted, &mut files, &"a.jar".to_string(), Ok(request));
    assert_eq!(
        stored,
        Ok(CacheOutcome::Fetched(DownloadRequest {
            url: "http://x/".to_string(),
            resume_from: None
        }))
    );
    assert!(cache.is_cached(&wanted));
    let other = target("m2", "v1", "abc", "ignored");
    let refused = cache.store(
        &other,
        &mut files,
        &"b.jar".to_string(),
        Err(DownloadError::InvalidUrl { reason: "bad".to_string() }),
    );
    assert_eq!(refused, Err(DownloadError::InvalidUrl { reason: "bad".to_string() }));
    assert!(!cache.is_cached(&other));
    assert!(!files.contains(&"b.jar".to_string()));
}
