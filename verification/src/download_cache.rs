//! The download cache: artifacts kept under the mod, the version and the
//! digest of their content, and fetched at most once.

use vstd::prelude::*;
use crate::download::{
    parsed_url, plan_view, DownloadError, DownloadRequest, DownloadRequestView,
};
use crate::modrinth::{ModrinthModVersion, ModrinthModVersionFile};
use crate::mods_dir::ModsDir;

verus! {

/// An artifact to resolve: where it lives in the cache, and where to fetch
/// it from.
#[derive(Clone, Debug, PartialEq, Eq)]
pub struct DownloadTarget {
    pub mod_id: String,
    pub version_id: String,
    pub sha1: String,
    pub url: String,
}

/// Mathematical value of a [`DownloadTarget`].
pub struct DownloadTargetView {
    pub mod_id: Seq<char>,
    pub version_id: Seq<char>,
    pub sha1: Seq<char>,
    pub url: Seq<char>,
}

impl View for DownloadTarget {
    type V = DownloadTargetView;

    open spec fn view(&self) -> DownloadTargetView {
        DownloadTargetView {
            mod_id: self.mod_id@,
            version_id: self.version_id@,
            sha1: self.sha1@,
            url: self.url@,
        }
    }
}

impl DownloadTargetView {
    /// What identifies the artifact in the cache. The URL is no part of it.
    pub open spec fn key(self) -> (Seq<char>, Seq<char>, Seq<char>) {
        (self.mod_id, self.version_id, self.sha1)
    }

    /// The path of the artifact below the cache root, one component after
    /// the other.
    pub open spec fn cache_path(self) -> Seq<Seq<char>> {
        seq![self.mod_id, self.version_id, self.sha1 + seq!['.', 'c', 'a', 'c', 'h', 'e']]
    }

    /// How the target is named in messages.
    pub open spec fn label(self) -> Seq<char> {
        self.mod_id + seq![':'] + self.version_id
    }
}

impl DownloadTarget {
    /// The target for `mod_file`, a file of `mod_version`.
    pub fn from(mod_version: &ModrinthModVersion, mod_file: &ModrinthModVersionFile) -> (target:
        Self)
        requires
            mod_file.sha1() is Some,
        ensures
            target@ == (DownloadTargetView {
                mod_id: mod_version.mod_id@,
                version_id: mod_version.id@,
                sha1: mod_file.sha1()->0,
                url: mod_file.url@,
            }),
    {
        proof {
            reveal_strlit("sha1");
            assert("sha1"@ =~= crate::modrinth::sha1_name());
        }
        let sha1 = match mod_file.get_hash("sha1") {
            Some(digest) => digest.clone(),
            None => String::new(),
        };
        Self {
            mod_id: mod_version.mod_id.clone(),
            version_id: mod_version.id.clone(),
            url: mod_file.url.clone(),
            sha1,
        }
    }

    /// The target for `mod_file`, where it lists a SHA-1 digest.
    pub fn for_file(mod_version: &ModrinthModVersion, mod_file: &ModrinthModVersionFile) -> (target:
        Option<Self>)
        ensures
            match target {
                Some(target) => mod_file.sha1() is Some && target@ == (DownloadTargetView {
                    mod_id: mod_version.mod_id@,
                    version_id: mod_version.id@,
                    sha1: mod_file.sha1()->0,
                    url: mod_file.url@,
                }),
                None => mod_file.sha1() is None,
            },
    {
        proof {
            reveal_strlit("sha1");
            assert("sha1"@ =~= crate::modrinth::sha1_name());
        }
        if mod_file.get_hash("sha1").is_some() {
            Some(Self::from(mod_version, mod_file))
        } else {
            None
        }
    }

    /// The mod and the version, with a colon between them.
    pub fn to_string(&self) -> (label: String)
        ensures
            label@ == self@.label(),
    {
        proof {
            reveal_strlit(":");
            assert(":"@ =~= seq![':']);
        }
        let mut label = self.mod_id.clone();
        label.append(":");
        label.append(self.version_id.as_str());
        assert(label@ =~= self@.label());
        label
    }
}

/// How an artifact was resolved.
#[derive(Debug, PartialEq, Eq)]
pub enum CacheOutcome {
    /// It was in the cache: nothing is fetched.
    Hit,
    /// It was not: the request fetches it into the cache.
    Fetched(DownloadRequest),
}

/// The artifacts that the cache holds.
///
/// An artifact is taken to be complete as soon as its file exists.
#[derive(Debug)]
pub struct DownloadCache {
    entries: Vec<(String, String, String)>,
}

impl View for DownloadCache {
    type V = Set<(Seq<char>, Seq<char>, Seq<char>)>;

    closed spec fn view(&self) -> Set<(Seq<char>, Seq<char>, Seq<char>)> {
        self.entries.deep_view().to_set()
    }
}

impl DownloadCache {
    /// The cache that holds the artifacts `entries`, each given by mod,
    /// version and digest.
    pub fn create(entries: Vec<(String, String, String)>) -> (cache: Self)
        ensures
            cache@ == entries.deep_view().to_set(),
    {
        Self { entries }
    }

    /// Where the cache keeps `download`, as the components of a path below
    /// its root.
    pub fn get_cache_path(&self, download: &DownloadTarget) -> (path: Vec<String>)
        ensures
            path.deep_view() == download@.cache_path(),
    {
        proof {
            reveal_strlit(".cache");
            assert(".cache"@ =~= seq!['.', 'c', 'a', 'c', 'h', 'e']);
        }
        let mut file = download.sha1.clone();
        file.append(".cache");
        let mut path: Vec<String> = Vec::new();
        path.push(download.mod_id.clone());
        path.push(download.version_id.clone());
        path.push(file);
        proof {
            let expected = download@.cache_path();
            assert(path.deep_view().len() == 3);
            assert(path.deep_view()[0] == expected[0]);
            assert(path.deep_view()[1] == expected[1]);
            assert(path.deep_view()[2] == expected[2]);
            assert(path.deep_view() =~= expected);
        }
        path
    }

    /// Whether the cache holds `download`.
    pub fn is_cached(&self, download: &DownloadTarget) -> (cached: bool)
        ensures
            cached == self@.contains(download@.key()),
    {
        let ghost keys = self.entries.deep_view();
        let mut i: usize = 0;
        while i < self.entries.len()
            invariant
                i <= self.entries.len(),
                keys == self.entries.deep_view(),
                forall|j: int| 0 <= j < i ==> keys[j] != download@.key(),
            decreases self.entries.len() - i,
        {
            let entry = &self.entries[i];
            if entry.0 == download.mod_id && entry.1 == download.version_id && entry.2
                == download.sha1 {
                assert(keys[i as int] == download@.key());
                return true;
            }
            i += 1;
        }
        false
    }

    /// Settles a cache miss for which the request was planned with the
    /// outcome `plan`: with a request, the artifact enters the cache and is
    /// copied to `output` in the mods directory; without one nothing changes.
    pub fn store(
        &mut self,
        download: &DownloadTarget,
        mods_dir: &mut ModsDir,
        output: &String,
        plan: Result<DownloadRequest, DownloadError>,
    ) -> (result: Result<CacheOutcome, DownloadError>)
        ensures
            match result {
                Ok(outcome) => {
                    &&& outcome matches CacheOutcome::Fetched(request)
                    &&& plan_view(plan) == Ok::<_, Seq<char>>(request@)
                    &&& final(self)@ == old(self)@.insert(download@.key())
                    &&& final(mods_dir)@ == old(mods_dir)@.insert(output@)
                },
                Err(DownloadError::InvalidUrl { reason }) => {
                    &&& plan_view(plan) == Err::<DownloadRequestView, _>(reason@)
                    &&& final(self)@ == old(self)@
                    &&& final(mods_dir)@ == old(mods_dir)@
                },
            },
    {
        match plan {
            Ok(request) => {
                self.entries.push(
                    (download.mod_id.clone(), download.version_id.clone(), download.sha1.clone()),
                );
                proof {
                    let before = old(self).entries.deep_view();
                    assert(self.entries.deep_view() =~= before.push(download@.key()));
                    before.lemma_push_to_set_commute(download@.key());
                }
                mods_dir.create(output);
                Ok(CacheOutcome::Fetched(request))
            },
            Err(e) => Err(e),
        }
    }

    /// Resolves `download` and copies it to `output` in the mods directory.
    ///
    /// An artifact that the cache holds is copied without a request. One
    /// that it does not hold is fetched from the start with the request in
    /// the result, and is in the cache from then on. Where its URL does not
    /// parse, nothing changes.
    pub fn copy_from_cache(
        &mut self,
        download: &DownloadTarget,
        mods_dir: &mut ModsDir,
        output: &String,
    ) -> (result: Result<CacheOutcome, DownloadError>)
        ensures
            resolve_view(result) == resolution(old(self)@, download@),
            result is Ok ==> final(self)@ == old(self)@.insert(download@.key()),
            result is Ok ==> final(mods_dir)@ == old(mods_dir)@.insert(output@),
            result is Err ==> final(self)@ == old(self)@,
            result is Err ==> final(mods_dir)@ == old(mods_dir)@,
    {
        if self.is_cached(download) {
            mods_dir.create(output);
            assert(self@.insert(download@.key()) =~= self@);
            Ok(CacheOutcome::Hit)
        } else {
            let plan = crate::download::download(download.url.as_str(), None);
            self.store(download, mods_dir, output, plan)
        }
    }
}

/// How a resolution ends, in character values: a hit, a fetch with the
/// request given, or the reason why the URL was refused.
pub enum Resolution {
    Hit,
    Fetch(DownloadRequestView),
    Refused(Seq<char>),
}

/// The character values of the result of a resolution.
pub open spec fn resolve_view(result: Result<CacheOutcome, DownloadError>) -> Resolution {
    match result {
        Ok(CacheOutcome::Hit) => Resolution::Hit,
        Ok(CacheOutcome::Fetched(request)) => Resolution::Fetch(request@),
        Err(DownloadError::InvalidUrl { reason }) => Resolution::Refused(reason@),
    }
}

/// How the resolution of `target` ends in a cache that holds `cached`: an
/// artifact that is there is a hit, and one that is not is fetched from its
/// first byte, unless its URL does not parse.
pub open spec fn resolution(
    cached: Set<(Seq<char>, Seq<char>, Seq<char>)>,
    target: DownloadTargetView,
) -> Resolution {
    if cached.contains(target.key()) {
        Resolution::Hit
    } else {
        match parsed_url(target.url) {
            Ok(url) => Resolution::Fetch(DownloadRequestView { url, resume_from: None }),
            Err(reason) => Resolution::Refused(reason),
        }
    }
}

/// An artifact is fetched at most once: after a resolution that succeeded,
/// every target with the same mod, version and digest is a hit, whatever
/// its URL, and stays one however many other artifacts enter the cache.
pub proof fn lemma_cache_reuse(
    cached: Set<(Seq<char>, Seq<char>, Seq<char>)>,
    first: DownloadTargetView,
    later: Set<(Seq<char>, Seq<char>, Seq<char>)>,
    second: DownloadTargetView,
)
    requires
        first.key() == second.key(),
    ensures
        resolution(cached.insert(first.key()).union(later), second) == Resolution::Hit,
{
}

} // verus!
