//! Records exchanged with the Modrinth registry, and the choice of a version
//! among those the registry offers.

use vstd::prelude::*;

verus! {

/// An instant on the UTC time line: whole seconds since the Unix epoch, and
/// the nanoseconds into that second.
#[derive(Clone, Copy, Debug, PartialEq, Eq)]
pub struct Timestamp {
    pub seconds: i64,
    pub nanos: u32,
}

impl Timestamp {
    /// Whether `self` is no later than `other`.
    pub open spec fn not_after(self, other: Timestamp) -> bool {
        self.seconds < other.seconds || (self.seconds == other.seconds && self.nanos
            <= other.nanos)
    }

    /// Whether `self` is no later than `other`.
    pub fn is_not_after(&self, other: &Timestamp) -> (b: bool)
        ensures
            b == self.not_after(*other),
    {
        self.seconds < other.seconds || (self.seconds == other.seconds && self.nanos
            <= other.nanos)
    }
}

#[derive(Debug)]
pub struct ModrinthMod {
    pub id: String,
    pub slug: String,
    pub team: String,
    pub title: String,
    pub description: String,
    pub body: String,
    pub body_url: Option<String>,
    pub published: Timestamp,
    pub updated: Timestamp,
    pub status: String,
    pub license: License,
    pub client_side: String,
    pub server_side: String,
    pub downloads: u32,
    pub categories: Vec<String>,
    pub versions: Vec<String>,
    pub icon_url: Option<String>,
    pub issues_url: Option<String>,
    pub source_url: Option<String>,
    pub wiki_url: Option<String>,
    pub discord_url: Option<String>,
    pub donation_urls: Option<Vec<DonationLink>>,
}

#[derive(Debug)]
pub enum SideType {
    Required,
    Optional,
    Unsupported,
    Unknown,
}

#[derive(Debug)]
pub struct License {
    pub id: String,
    pub name: String,
    pub url: Option<String>,
}

#[derive(Debug)]
pub struct DonationLink {
    pub id: String,
    pub platform: String,
    pub url: String,
}

#[derive(Debug)]
pub struct ModrinthModVersion {
    pub id: String,
    pub mod_id: String,
    pub author_id: String,
    pub featured: bool,
    pub name: String,
    pub version_number: String,
    pub changelog: Option<String>,
    pub changelog_url: Option<String>,
    pub date_published: Timestamp,
    pub downloads: u32,
    pub version_type: String,
    pub files: Vec<ModrinthModVersionFile>,
    pub dependencies: Vec<String>,
    pub game_versions: Vec<String>,
    pub loaders: Vec<String>,
}

/// One file of a version. `hashes` pairs the name of a hash algorithm with
/// the file's digest under it.
#[derive(Debug)]
pub struct ModrinthModVersionFile {
    pub hashes: Vec<(String, String)>,
    pub url: String,
    pub filename: String,
}

/// The value paired with the first occurrence of `key` in `pairs`.
pub open spec fn first_value(pairs: Seq<(Seq<char>, Seq<char>)>, key: Seq<char>) -> Option<
    Seq<char>,
>
    decreases pairs.len(),
{
    if pairs.len() == 0 {
        None
    } else if pairs[0].0 == key {
        Some(pairs[0].1)
    } else {
        first_value(pairs.drop_first(), key)
    }
}

/// No key occurs twice in `pairs`.
pub open spec fn distinct_keys(pairs: Seq<(Seq<char>, Seq<char>)>) -> bool {
    forall|i: int, j: int| 0 <= i < j < pairs.len() ==> pairs[i].0 != pairs[j].0
}

/// The name under which a file's SHA-1 digest is listed.
pub open spec fn sha1_name() -> Seq<char> {
    seq!['s', 'h', 'a', '1']
}

impl ModrinthModVersionFile {
    /// No algorithm is listed twice.
    pub open spec fn well_formed(&self) -> bool {
        distinct_keys(self.hashes.deep_view())
    }

    /// The digest listed for `algorithm`.
    pub open spec fn digest(&self, algorithm: Seq<char>) -> Option<Seq<char>> {
        first_value(self.hashes.deep_view(), algorithm)
    }

    /// The SHA-1 digest, if the file lists one.
    pub open spec fn sha1(&self) -> Option<Seq<char>> {
        self.digest(sha1_name())
    }

    /// A file without digests.
    pub fn new(url: String, filename: String) -> (file: Self)
        ensures
            file.url@ == url@,
            file.filename@ == filename@,
            file.hashes@.len() == 0,
            file.well_formed(),
    {
        Self { hashes: Vec::new(), url, filename }
    }

    /// The digest listed for `algorithm`.
    pub fn get_hash(&self, algorithm: &str) -> (found: Option<&String>)
        ensures
            match found {
                Some(digest) => self.digest(algorithm@) == Some(digest@),
                None => self.digest(algorithm@) is None,
            },
    {
        let ghost pairs = self.hashes.deep_view();
        let name = String::from_str(algorithm);
        let mut i: usize = 0;
        assert(pairs.skip(0) =~= pairs);
        while i < self.hashes.len()
            invariant
                i <= self.hashes.len(),
                pairs == self.hashes.deep_view(),
                name@ == algorithm@,
                first_value(pairs, algorithm@) == first_value(pairs.skip(i as int), algorithm@),
            decreases self.hashes.len() - i,
        {
            assert(pairs.skip(i as int).drop_first() =~= pairs.skip(i + 1));
            assert(pairs.skip(i as int)[0] == pairs[i as int]);
            if self.hashes[i].0 == name {
                return Some(&self.hashes[i].1);
            }
            i += 1;
        }
        None
    }

    /// Lists `digest` for `algorithm`, in place of what was listed for it.
    pub fn set_hash(&mut self, algorithm: String, digest: String)
        requires
            old(self).well_formed(),
        ensures
            final(self).well_formed(),
            final(self).url == old(self).url,
            final(self).filename == old(self).filename,
            final(self).digest(algorithm@) == Some(digest@),
            forall|other: Seq<char>|
                other != algorithm@ ==> final(self).digest(other) == old(self).digest(other),
    {
        let ghost before = self.hashes.deep_view();
        let mut i: usize = 0;
        while i < self.hashes.len()
            invariant
                i <= self.hashes.len(),
                before == self.hashes.deep_view(),
                before == old(self).hashes.deep_view(),
                self.url == old(self).url,
                self.filename == old(self).filename,
                self.well_formed(),
                forall|j: int| 0 <= j < i ==> before[j].0 != algorithm@,
            decreases self.hashes.len() - i,
        {
            if self.hashes[i].0 == algorithm {
                let ghost at = i as int;
                self.hashes.set(i, (algorithm, digest));
                proof {
                    let after = self.hashes.deep_view();
                    assert(after =~= before.update(at, (algorithm@, digest@)));
                    assert forall|a: int, b: int| 0 <= a < b < after.len() implies after[a].0
                        != after[b].0 by {
                        assert(after[a].0 == before[a].0);
                        assert(after[b].0 == before[b].0);
                    }
                    assert forall|other: Seq<char>|
                        first_value(after, other) == if other == algorithm@ {
                            Some(digest@)
                        } else {
                            first_value(before, other)
                        } by {
                        lemma_first_value_update(before, at, algorithm@, digest@, other);
                    }
                }
                return ;
            }
            i += 1;
        }
        self.hashes.push((algorithm, digest));
        proof {
            let after = self.hashes.deep_view();
            assert(after =~= before.push((algorithm@, digest@)));
            assert forall|a: int, b: int| 0 <= a < b < after.len() implies after[a].0
                != after[b].0 by {
                if b < before.len() {
                    assert(after[a] == before[a]);
                    assert(after[b] == before[b]);
                } else {
                    assert(after[a] == before[a]);
                }
            }
            assert forall|other: Seq<char>|
                first_value(after, other) == if other == algorithm@ {
                    Some(digest@)
                } else {
                    first_value(before, other)
                } by {
                lemma_first_value_push(before, algorithm@, digest@, other);
            }
        }
    }
}

/// Replacing the value at the first occurrence of a key changes what is
/// found for that key, and for no other.
proof fn lemma_first_value_update(
    pairs: Seq<(Seq<char>, Seq<char>)>,
    at: int,
    key: Seq<char>,
    value: Seq<char>,
    other: Seq<char>,
)
    requires
        0 <= at < pairs.len(),
        pairs[at].0 == key,
        forall|j: int| 0 <= j < at ==> pairs[j].0 != key,
    ensures
        first_value(pairs.update(at, (key, value)), other) == if other == key {
            Some(value)
        } else {
            first_value(pairs, other)
        },
    decreases pairs.len(),
{
    let updated = pairs.update(at, (key, value));
    if at == 0 {
        assert(updated.drop_first() =~= pairs.drop_first());
    } else {
        assert(updated.drop_first() =~= pairs.drop_first().update(at - 1, (key, value)));
        assert(pairs[0].0 != key);
        lemma_first_value_update(pairs.drop_first(), at - 1, key, value, other);
    }
}

/// Appending a pair for a key that does not occur adds that key, and
/// changes what is found for no other.
proof fn lemma_first_value_push(
    pairs: Seq<(Seq<char>, Seq<char>)>,
    key: Seq<char>,
    value: Seq<char>,
    other: Seq<char>,
)
    requires
        forall|j: int| 0 <= j < pairs.len() ==> pairs[j].0 != key,
    ensures
        first_value(pairs.push((key, value)), other) == if other == key {
            Some(value)
        } else {
            first_value(pairs, other)
        },
    decreases pairs.len(),
{
    let pushed = pairs.push((key, value));
    if pairs.len() == 0 {
        assert(pushed.drop_first() =~= pairs);
    } else {
        assert(pushed.drop_first() =~= pairs.drop_first().push((key, value)));
        assert(pairs[0].0 != key);
        assert forall|j: int| 0 <= j < pairs.drop_first().len() implies pairs.drop_first()[j].0
            != key by {
            assert(pairs.drop_first()[j] == pairs[j + 1]);
        }
        lemma_first_value_push(pairs.drop_first(), key, value, other);
    }
}

/// A mod pinned to one of its versions, as the pack manifest stores it.
#[derive(Clone, Debug, PartialEq, Eq)]
pub struct PackMod {
    pub id: String,
    pub slug: String,
    pub version: String,
}

/// Mathematical value of a [`PackMod`].
pub struct PackModView {
    pub id: Seq<char>,
    pub slug: Seq<char>,
    pub version: Seq<char>,
}

impl View for PackMod {
    type V = PackModView;

    open spec fn view(&self) -> PackModView {
        PackModView { id: self.id@, slug: self.slug@, version: self.version@ }
    }
}

impl PackMod {
    pub fn new(id: String, slug: String, version: String) -> (pack_mod: Self)
        ensures
            pack_mod@ == (PackModView { id: id@, slug: slug@, version: version@ }),
    {
        Self { id, slug, version }
    }

    /// A copy of this entry.
    pub fn clone_entry(&self) -> (copy: Self)
        ensures
            copy@ == self@,
    {
        Self { id: self.id.clone(), slug: self.slug.clone(), version: self.version.clone() }
    }
}

/// How a mod is named on the command line.
#[derive(Debug, PartialEq, Eq)]
pub enum ModDefinition {
    /// By slug or identifier alone: the latest fitting version is wanted.
    Latest { name: String },
    /// By slug or identifier, a colon, and the identifier of a version.
    Pinned { name: String, version: String },
    /// With more than one colon.
    Invalid,
}

/// Mathematical value of a [`ModDefinition`].
pub enum ModDefinitionView {
    Latest { name: Seq<char> },
    Pinned { name: Seq<char>, version: Seq<char> },
    Invalid,
}

impl View for ModDefinition {
    type V = ModDefinitionView;

    open spec fn view(&self) -> ModDefinitionView {
        match self {
            ModDefinition::Latest { name } => ModDefinitionView::Latest { name: name@ },
            ModDefinition::Pinned { name, version } => ModDefinitionView::Pinned {
                name: name@,
                version: version@,
            },
            ModDefinition::Invalid => ModDefinitionView::Invalid,
        }
    }
}

/// Whether `text` has its one and only colon at `i`.
pub open spec fn only_colon_at(text: Seq<char>, i: int) -> bool {
    &&& 0 <= i < text.len()
    &&& text[i] == ':'
    &&& forall|j: int| 0 <= j < text.len() && j != i ==> text[j] != ':'
}

/// What `text` names: without a colon a mod, with one colon a mod before it
/// and a version after it, with more nothing.
pub open spec fn definition(text: Seq<char>) -> ModDefinitionView {
    if !text.contains(':') {
        ModDefinitionView::Latest { name: text }
    } else if exists|i: int| only_colon_at(text, i) {
        let i = choose|i: int| only_colon_at(text, i);
        ModDefinitionView::Pinned { name: text.take(i), version: text.skip(i + 1) }
    } else {
        ModDefinitionView::Invalid
    }
}

/// Reads a mod definition.
pub fn parse_definition(mod_definition: &str) -> (parsed: ModDefinition)
    ensures
        parsed@ == definition(mod_definition@),
{
    let ghost text = mod_definition@;
    let n = mod_definition.unicode_len();
    let mut colons: usize = 0;
    let mut at: usize = 0;
    let mut i: usize = 0;
    while i < n
        invariant
            i <= n,
            n == text.len(),
            text == mod_definition@,
            colons <= i,
            colons == 0 ==> forall|j: int| 0 <= j < i ==> text[j] != ':',
            colons == 1 ==> at < i && text[at as int] == ':' && forall|j: int|
                0 <= j < i && j != at ==> text[j] != ':',
            colons >= 2 ==> exists|a: int, b: int|
                0 <= a < b < i && text[a] == ':' && text[b] == ':',
        decreases n - i,
    {
        if mod_definition.get_char(i) == ':' {
            proof {
                if colons == 1 {
                    assert(0 <= at < i && text[at as int] == ':' && text[i as int] == ':');
                }
                if colons >= 2 {
                    let (a, b) = choose|a: int, b: int|
                        0 <= a < b < i && text[a] == ':' && text[b] == ':';
                    assert(0 <= a < b < i + 1 && text[a] == ':' && text[b] == ':');
                }
            }
            if colons == 0 {
                at = i;
            }
            colons += 1;
        } else {
            proof {
                if colons >= 2 {
                    let (a, b) = choose|a: int, b: int|
                        0 <= a < b < i && text[a] == ':' && text[b] == ':';
                    assert(0 <= a < b < i + 1 && text[a] == ':' && text[b] == ':');
                }
            }
        }
        i += 1;
    }
    if colons == 0 {
        assert(!text.contains(':'));
        ModDefinition::Latest { name: String::from_str(mod_definition) }
    } else if colons == 1 {
        proof {
            assert(only_colon_at(text, at as int));
            let c = choose|c: int| only_colon_at(text, c);
            assert(c == at);
            assert(text.subrange(0, at as int) =~= text.take(at as int));
            assert(text.subrange(at + 1, n as int) =~= text.skip(at + 1));
        }
        let name = mod_definition.substring_char(0, at);
        let version = mod_definition.substring_char(at + 1, n);
        ModDefinition::Pinned { name: String::from_str(name), version: String::from_str(version) }
    } else {
        proof {
            let (a, b) = choose|a: int, b: int|
                0 <= a < b < n && text[a] == ':' && text[b] == ':';
            assert(text.contains(':'));
            assert forall|c: int| !only_colon_at(text, c) by {
                if c == a {
                    assert(text[b] == ':');
                } else {
                    assert(text[a] == ':');
                }
            }
        }
        ModDefinition::Invalid
    }
}

/// Whether `text` is one of `list`.
pub fn contains_text(list: &Vec<String>, text: &str) -> (found: bool)
    ensures
        found == list.deep_view().contains(text@),
{
    let ghost items = list.deep_view();
    let wanted = String::from_str(text);
    let mut i: usize = 0;
    while i < list.len()
        invariant
            i <= list.len(),
            items == list.deep_view(),
            wanted@ == text@,
            forall|j: int| 0 <= j < i ==> items[j] != text@,
        decreases list.len() - i,
    {
        if list[i] == wanted {
            assert(items[i as int] == text@);
            return true;
        }
        i += 1;
    }
    false
}

/// Whether `version` runs on `loader` with `game_version`.
pub open spec fn supports(
    version: ModrinthModVersion,
    loader: Seq<char>,
    game_version: Seq<char>,
) -> bool {
    version.loaders.deep_view().contains(loader) && version.game_versions.deep_view().contains(
        game_version,
    )
}

/// Whether `versions[i]` is the latest version that runs on `loader` with
/// `game_version`: none that does was published later, and of those
/// published at the same instant it stands last.
pub open spec fn is_latest(
    versions: Seq<ModrinthModVersion>,
    loader: Seq<char>,
    game_version: Seq<char>,
    i: int,
) -> bool {
    &&& 0 <= i < versions.len()
    &&& supports(versions[i], loader, game_version)
    &&& forall|j: int|
        0 <= j < versions.len() && supports(#[trigger] versions[j], loader, game_version)
            ==> versions[j].date_published.not_after(versions[i].date_published)
    &&& forall|j: int|
        i < j < versions.len() && supports(#[trigger] versions[j], loader, game_version)
            ==> !versions[i].date_published.not_after(versions[j].date_published)
}

/// The place of the latest fitting version among `versions`, if one fits.
pub open spec fn latest_of(
    versions: Seq<ModrinthModVersion>,
    loader: Seq<char>,
    game_version: Seq<char>,
) -> Option<int> {
    if exists|i: int| is_latest(versions, loader, game_version, i) {
        Some(choose|i: int| is_latest(versions, loader, game_version, i))
    } else {
        None
    }
}

/// There is at most one latest fitting version.
pub proof fn lemma_latest_unique(
    versions: Seq<ModrinthModVersion>,
    loader: Seq<char>,
    game_version: Seq<char>,
    i: int,
    j: int,
)
    requires
        is_latest(versions, loader, game_version, i),
        is_latest(versions, loader, game_version, j),
    ensures
        i == j,
{
    if i < j {
        assert(versions[j].date_published.not_after(versions[i].date_published));
        assert(!versions[i].date_published.not_after(versions[j].date_published));
    }
    if j < i {
        assert(versions[i].date_published.not_after(versions[j].date_published));
        assert(!versions[j].date_published.not_after(versions[i].date_published));
    }
}

/// The place of the latest version that runs on `loader` with
/// `game_version`.
pub fn latest_index(versions: &Vec<&ModrinthModVersion>, loader: &str, game_version: &str) -> (found:
    Option<usize>)
    ensures
        match found {
            Some(i) => latest_of(versions_at(versions@), loader@, game_version@)
                == Some(i as int),
            None => latest_of(versions_at(versions@), loader@, game_version@)
                is None,
        },
{
    let ghost all = versions_at(versions@);
    let mut found: Option<usize> = None;
    let mut i: usize = 0;
    while i < versions.len()
        invariant
            i <= versions.len(),
            all == versions_at(versions@),
            match found {
                Some(best) => is_latest(all.take(i as int), loader@, game_version@, best as int),
                None => forall|j: int| 0 <= j < i ==> !supports(all[j], loader@, game_version@),
            },
        decreases versions.len() - i,
    {
        let candidate = versions[i];
        let ghost prefix = all.take(i as int);
        let ghost next = all.take(i + 1);
        assert(next[i as int] == *candidate);
        assert(forall|j: int| 0 <= j < i ==> next[j] == prefix[j]);
        if contains_text(&candidate.loaders, loader) && contains_text(
            &candidate.game_versions,
            game_version,
        ) {
            let newer = match found {
                Some(best) => versions[best].date_published.is_not_after(&candidate.date_published),
                None => true,
            };
            if newer {
                proof {
                    assert forall|j: int|
                        0 <= j < next.len() && supports(
                            #[trigger] next[j],
                            loader@,
                            game_version@,
                        ) implies next[j].date_published.not_after(
                        next[i as int].date_published,
                    ) by {
                        if j < i {
                            match found {
                                Some(best) => {
                                    assert(supports(prefix[j], loader@, game_version@));
                                    assert(prefix[j].date_published.not_after(
                                        prefix[best as int].date_published,
                                    ));
                                },
                                None => {},
                            }
                        }
                    }
                }
                found = Some(i);
            } else {
                proof {
                    let best = found->0 as int;
                    assert forall|j: int|
                        best < j < next.len() && supports(
                            #[trigger] next[j],
                            loader@,
                            game_version@,
                        ) implies !next[best].date_published.not_after(next[j].date_published) by {
                        if j < i {
                            assert(supports(prefix[j], loader@, game_version@));
                        }
                    }
                    assert forall|j: int|
                        0 <= j < next.len() && supports(
                            #[trigger] next[j],
                            loader@,
                            game_version@,
                        ) implies next[j].date_published.not_after(next[best].date_published) by {
                        if j < i {
                            assert(supports(prefix[j], loader@, game_version@));
                        }
                    }
                }
            }
        } else {
            proof {
                match found {
                    Some(best) => {
                        let best = best as int;
                        assert forall|j: int|
                            best < j < next.len() && supports(
                                #[trigger] next[j],
                                loader@,
                                game_version@,
                            ) implies !next[best].date_published.not_after(
                            next[j].date_published,
                        ) by {
                            assert(supports(prefix[j], loader@, game_version@));
                        }
                        assert forall|j: int|
                            0 <= j < next.len() && supports(
                                #[trigger] next[j],
                                loader@,
                                game_version@,
                            ) implies next[j].date_published.not_after(
                            next[best].date_published,
                        ) by {
                            assert(supports(prefix[j], loader@, game_version@));
                        }
                    },
                    None => {},
                }
            }
        }
        i += 1;
    }
    proof {
        all.lemma_take_len();
        match found {
            Some(best) => {
                let chosen = choose|k: int| is_latest(all, loader@, game_version@, k);
                lemma_latest_unique(all, loader@, game_version@, chosen, best as int);
            },
            None => {
                assert forall|k: int| !is_latest(all, loader@, game_version@, k) by {}
            },
        }
    }
    found
}

/// The place of the first member of `s` that satisfies `p`.
pub open spec fn first_index<T>(s: Seq<T>, p: spec_fn(T) -> bool) -> Option<int> {
    if exists|i: int| 0 <= i < s.len() && p(s[i]) {
        Some(
            choose|i: int|
                0 <= i < s.len() && p(s[i]) && forall|j: int| 0 <= j < i ==> !p(s[j]),
        )
    } else {
        None
    }
}

/// The first member that satisfies `p` is the one before which none does.
pub proof fn lemma_first_index<T>(s: Seq<T>, p: spec_fn(T) -> bool, k: int)
    requires
        0 <= k <= s.len(),
        forall|j: int| 0 <= j < k ==> !p(s[j]),
        k < s.len() ==> p(s[k]),
    ensures
        first_index(s, p) == if k < s.len() {
            Some(k)
        } else {
            None
        },
{
    if k < s.len() {
        assert(0 <= k < s.len() && p(s[k]) && forall|j: int| 0 <= j < k ==> !p(s[j]));
        let c = first_index(s, p)->0;
        assert(0 <= c < s.len() && p(s[c]) && forall|j: int| 0 <= j < c ==> !p(s[j]));
        if c < k {
            assert(!p(s[c]));
        }
        if k < c {
            assert(!p(s[k]));
        }
    }
}

/// Below every member that satisfies `p` there is a first one.
proof fn lemma_least_witness<T>(s: Seq<T>, p: spec_fn(T) -> bool, k: int)
    requires
        0 <= k < s.len(),
        p(s[k]),
    ensures
        exists|i: int| 0 <= i <= k && p(s[i]) && forall|j: int| 0 <= j < i ==> !p(s[j]),
    decreases k,
{
    if exists|j: int| 0 <= j < k && p(s[j]) {
        let j = choose|j: int| 0 <= j < k && p(s[j]);
        lemma_least_witness(s, p, j);
    } else {
        assert(0 <= k <= k && p(s[k]) && forall|j: int| 0 <= j < k ==> !p(s[j]));
    }
}

/// What `first_index` finds: a member that satisfies `p` and before which
/// none does; and nothing only where no member satisfies `p`.
pub proof fn lemma_first_index_is_first<T>(s: Seq<T>, p: spec_fn(T) -> bool)
    ensures
        match first_index(s, p) {
            Some(i) => 0 <= i < s.len() && p(s[i]) && forall|j: int| 0 <= j < i ==> !p(s[j]),
            None => forall|j: int| 0 <= j < s.len() ==> !p(s[j]),
        },
{
    if exists|i: int| 0 <= i < s.len() && p(s[i]) {
        let k = choose|i: int| 0 <= i < s.len() && p(s[i]);
        lemma_least_witness(s, p, k);
        let i = choose|i: int| 0 <= i <= k && p(s[i]) && forall|j: int| 0 <= j < i ==> !p(s[j]);
        lemma_first_index(s, p, i);
    }
}

/// What the registry has answered: the mods and the versions that are known
/// of it.
#[derive(Debug)]
pub struct Registry {
    pub mods: Vec<ModrinthMod>,
    pub versions: Vec<ModrinthModVersion>,
}

/// A lookup that the registry could not answer.
#[derive(Debug, PartialEq, Eq)]
pub enum RegistryError {
    /// Nothing is known under this slug or identifier.
    NotFound { name: String },
}

/// Whether a mod goes by `name`, as its identifier or as its slug.
pub open spec fn mod_named(name: Seq<char>) -> spec_fn(ModrinthMod) -> bool {
    |m: ModrinthMod| m.id@ == name || m.slug@ == name
}

/// Whether a version has the identifier `id`.
pub open spec fn version_named(id: Seq<char>) -> spec_fn(ModrinthModVersion) -> bool {
    |v: ModrinthModVersion| v.id@ == id
}

/// Whether a version belongs to the mod `mod_id`.
pub open spec fn version_of(mod_id: Seq<char>) -> spec_fn(ModrinthModVersion) -> bool {
    |v: ModrinthModVersion| v.mod_id@ == mod_id
}

/// The versions that `refs` points to.
pub open spec fn versions_at(refs: Seq<&ModrinthModVersion>) -> Seq<ModrinthModVersion> {
    refs.map_values(|v: &ModrinthModVersion| *v)
}

/// The first mod that goes by `mod_id`, as identifier or as slug.
pub fn get_mod_details<'a>(registry: &'a Registry, mod_id: &str) -> (found: Option<&'a ModrinthMod>)
    ensures
        match found {
            Some(details) => first_index(registry.mods@, mod_named(mod_id@)) is Some
                && *details == registry.mods@[first_index(registry.mods@, mod_named(mod_id@))->0],
            None => first_index(registry.mods@, mod_named(mod_id@)) is None,
        },
{
    let name = String::from_str(mod_id);
    let mut i: usize = 0;
    while i < registry.mods.len()
        invariant
            i <= registry.mods.len(),
            name@ == mod_id@,
            forall|j: int| 0 <= j < i ==> !mod_named(mod_id@)(registry.mods@[j]),
        decreases registry.mods.len() - i,
    {
        if registry.mods[i].id == name || registry.mods[i].slug == name {
            proof {
                lemma_first_index(registry.mods@, mod_named(mod_id@), i as int);
            }
            return Some(&registry.mods[i]);
        }
        i += 1;
    }
    proof {
        lemma_first_index(registry.mods@, mod_named(mod_id@), registry.mods@.len() as int);
    }
    None
}

/// The versions of the mod `mod_id`, in the registry's order.
pub fn get_mod_versions<'a>(registry: &'a Registry, mod_id: &str) -> (found: Vec<
    &'a ModrinthModVersion,
>)
    ensures
        versions_at(found@) == registry.versions@.filter(version_of(mod_id@)),
{
    let ghost all = registry.versions@;
    let name = String::from_str(mod_id);
    let mut found: Vec<&ModrinthModVersion> = Vec::new();
    let mut i: usize = 0;
    while i < registry.versions.len()
        invariant
            i <= registry.versions.len(),
            all == registry.versions@,
            name@ == mod_id@,
            versions_at(found@) == all.take(i as int).filter(version_of(mod_id@)),
        decreases registry.versions.len() - i,
    {
        proof {
            all.lemma_take_succ_push(i as int);
            all.take(i as int).lemma_filter_push(all[i as int], version_of(mod_id@));
        }
        if registry.versions[i].mod_id == name {
            let ghost before = versions_at(found@);
            found.push(&registry.versions[i]);
            assert(versions_at(found@) =~= before.push(all[i as int]));
        }
        i += 1;
    }
    proof {
        all.lemma_take_len();
    }
    found
}

/// The first version with the identifier `version_id`.
pub fn get_mod_version<'a>(registry: &'a Registry, version_id: &str) -> (found: Option<
    &'a ModrinthModVersion,
>)
    ensures
        match found {
            Some(version) => first_index(registry.versions@, version_named(version_id@)) is Some
                && *version == registry.versions@[first_index(
                registry.versions@,
                version_named(version_id@),
            )->0],
            None => first_index(registry.versions@, version_named(version_id@)) is None,
        },
{
    let name = String::from_str(version_id);
    let mut i: usize = 0;
    while i < registry.versions.len()
        invariant
            i <= registry.versions.len(),
            name@ == version_id@,
            forall|j: int| 0 <= j < i ==> !version_named(version_id@)(registry.versions@[j]),
        decreases registry.versions.len() - i,
    {
        if registry.versions[i].id == name {
            proof {
                lemma_first_index(registry.versions@, version_named(version_id@), i as int);
            }
            return Some(&registry.versions[i]);
        }
        i += 1;
    }
    proof {
        lemma_first_index(
            registry.versions@,
            version_named(version_id@),
            registry.versions@.len() as int,
        );
    }
    None
}

/// The pack entry for `details` pinned to `version`, where the mod has
/// such a version.
pub open spec fn pinned(details: ModrinthMod, version: Seq<char>) -> Option<PackModView> {
    if details.versions.deep_view().contains(version) {
        Some(PackModView { id: details.id@, slug: details.slug@, version })
    } else {
        None
    }
}

/// The pack entry for `details` in the latest of `versions` that runs on
/// `loader` with `game_version`, where one does.
pub open spec fn latest(
    details: ModrinthMod,
    versions: Seq<ModrinthModVersion>,
    loader: Seq<char>,
    game_version: Seq<char>,
) -> Option<PackModView> {
    match latest_of(versions, loader, game_version) {
        Some(i) => Some(PackModView { id: details.id@, slug: details.slug@, version: versions[i].id@ }),
        None => None,
    }
}

/// The character values of an optional pack entry.
pub open spec fn pack_view(entry: Option<PackMod>) -> Option<PackModView> {
    match entry {
        Some(pack_mod) => Some(pack_mod@),
        None => None,
    }
}

/// Pins `details` to `version` if the mod lists that version.
pub fn pinned_version(details: &ModrinthMod, version: &str) -> (entry: Option<PackMod>)
    ensures
        pack_view(entry) == pinned(*details, version@),
{
    if contains_text(&details.versions, version) {
        Some(PackMod::new(details.id.clone(), details.slug.clone(), String::from_str(version)))
    } else {
        None
    }
}

/// Pins `details` to the latest of `versions` that runs on `loader` with
/// `game_version`.
pub fn latest_version(
    details: &ModrinthMod,
    versions: &Vec<&ModrinthModVersion>,
    loader: &str,
    game_version: &str,
) -> (entry: Option<PackMod>)
    ensures
        pack_view(entry) == latest(*details, versions_at(versions@), loader@, game_version@),
{
    match latest_index(versions, loader, game_version) {
        Some(i) => Some(
            PackMod::new(details.id.clone(), details.slug.clone(), versions[i].id.clone()),
        ),
        None => None,
    }
}

/// What a mod definition resolves to against the registry: nothing for a
/// definition that cannot be read, the pinned version where the mod lists
/// it, else the latest fitting version of the mod; and the name that was
/// looked up in vain where the registry knows no such mod.
pub open spec fn resolved(
    registry: Registry,
    text: Seq<char>,
    loader: Seq<char>,
    game_version: Seq<char>,
) -> Result<Option<PackModView>, Seq<char>> {
    match definition(text) {
        ModDefinitionView::Invalid => Ok(None),
        ModDefinitionView::Pinned { name, version } => match first_index(
            registry.mods@,
            mod_named(name),
        ) {
            Some(i) => Ok(pinned(registry.mods@[i], version)),
            None => Err(name),
        },
        ModDefinitionView::Latest { name } => match first_index(registry.mods@, mod_named(name)) {
            Some(i) => Ok(
                latest(
                    registry.mods@[i],
                    registry.versions@.filter(version_of(registry.mods@[i].id@)),
                    loader,
                    game_version,
                ),
            ),
            None => Err(name),
        },
    }
}

/// The character values of the result of a resolution.
pub open spec fn resolved_view(result: Result<Option<PackMod>, RegistryError>) -> Result<
    Option<PackModView>,
    Seq<char>,
> {
    match result {
        Ok(entry) => Ok(pack_view(entry)),
        Err(RegistryError::NotFound { name }) => Err(name@),
    }
}

/// Resolves a mod definition against the registry.
pub fn resolve_version(
    registry: &Registry,
    mod_definition: &str,
    loader: &str,
    game_version: &str,
) -> (result: Result<Option<PackMod>, RegistryError>)
    ensures
        resolved_view(result) == resolved(*registry, mod_definition@, loader@, game_version@),
{
    match parse_definition(mod_definition) {
        ModDefinition::Invalid => Ok(None),
        ModDefinition::Pinned { name, version } => {
            match get_mod_details(registry, name.as_str()) {
                Some(mod_details) => Ok(pinned_version(mod_details, version.as_str())),
                None => Err(RegistryError::NotFound { name }),
            }
        },
        ModDefinition::Latest { name } => {
            match get_mod_details(registry, name.as_str()) {
                Some(details) => {
                    let versions = get_mod_versions(registry, details.id.as_str());
                    Ok(latest_version(details, &versions, loader, game_version))
                },
                None => Err(RegistryError::NotFound { name }),
            }
        },
    }
}

/// Where the registry answers.
pub const MODRINTH_API_BASE: &'static str = "https://api.modrinth.com/api/v1";

/// The address that answers with the details of the mod `mod_id`.
pub fn mod_details_url(mod_id: &str) -> (url: String)
    ensures
        url@ == MODRINTH_API_BASE@ + "/mod/"@ + mod_id@,
{
    let mut url = String::from_str(MODRINTH_API_BASE);
    url.append("/mod/");
    url.append(mod_id);
    url
}

/// The address that answers with the versions of the mod `mod_id`.
pub fn mod_versions_url(mod_id: &str) -> (url: String)
    ensures
        url@ == MODRINTH_API_BASE@ + "/mod/"@ + mod_id@ + "/version"@,
{
    let mut url = mod_details_url(mod_id);
    url.append("/version");
    url
}

/// The address that answers with the version `version_id`.
pub fn mod_version_url(version_id: &str) -> (url: String)
    ensures
        url@ == MODRINTH_API_BASE@ + "/version/"@ + version_id@,
{
    let mut url = String::from_str(MODRINTH_API_BASE);
    url.append("/version/");
    url.append(version_id);
    url
}

} // verus!
