//! The pack manifest: which loader and game version the pack is for, and
//! which version of each mod it asks for.

use vstd::prelude::*;
use crate::modrinth::{first_index, lemma_first_index, PackMod};

verus! {

#[verifier::external_type_specification]
#[verifier::external_body]
#[verifier::reject_recursive_types(K)]
#[verifier::reject_recursive_types(V)]
pub struct ExMap<K, V>(toml::map::Map<K, V>);

#[verifier::external_type_specification]
#[verifier::external_body]
pub struct ExValue(toml::Value);

/// What a table holds: under each key the text of its value, or `None`
/// where the value is no string.
pub uninterp spec fn table_entries(table: toml::value::Table) -> Map<
    Seq<char>,
    Option<Seq<char>>,
>;

/// The keys of a table in the order in which it hands its entries out.
pub uninterp spec fn table_keys(table: toml::value::Table) -> Seq<Seq<char>>;

/// The keys of `listing`, in order.
pub open spec fn listed_keys(listing: Seq<(Seq<char>, Option<Seq<char>>)>) -> Seq<Seq<char>> {
    listing.map_values(|entry: (Seq<char>, Option<Seq<char>>)| entry.0)
}

/// The entries of a table that holds nothing.
pub open spec fn no_entries() -> Map<Seq<char>, Option<Seq<char>>> {
    Map::empty()
}

/// `toml::map::Map::new`: a table without entries.
#[verifier::external_body]
fn new_table() -> (table: toml::value::Table)
    ensures
        table_entries(table) == no_entries(),
{
    toml::value::Table::new()
}

/// `toml::map::Map::insert` with a string value: afterwards the table holds
/// `value` under `key`, in place of what it held there, and its other
/// entries as before.
#[verifier::external_body]
fn insert_text(table: &mut toml::value::Table, key: String, value: String)
    ensures
        table_entries(*final(table)) == table_entries(*old(table)).insert(key@, Some(value@)),
{
    table.insert(key, toml::Value::String(value));
}

/// `toml::map::Map::remove`: the entry under `key` leaves the table, the
/// others stay; the result says whether there was one.
#[verifier::external_body]
fn remove_key(table: &mut toml::value::Table, key: &str) -> (removed: bool)
    ensures
        removed == table_entries(*old(table)).dom().contains(key@),
        table_entries(*final(table)) == table_entries(*old(table)).remove(key@),
{
    table.remove(key).is_some()
}

/// `toml::map::Map::get` and `toml::Value::as_str`: what the table holds
/// under `key`, if anything, as text where it is a string.
#[verifier::external_body]
fn get_text(table: &toml::value::Table, key: &str) -> (found: Option<
    Option<String>,
>)
    ensures
        match found {
            Some(value) => table_entries(*table).dom().contains(key@) && table_entries(
                *table,
            )[key@] == value.deep_view(),
            None => !table_entries(*table).dom().contains(key@),
        },
{
    match table.get(key) {
        Some(value) => Some(value.as_str().map(String::from)),
        None => None,
    }
}

/// `toml::map::Map::iter`: every entry of the table once, each key with
/// the text of its value. The order is the table's own.
#[verifier::external_body]
fn list_entries(table: &toml::value::Table) -> (listing: Vec<
    (String, Option<String>),
>)
    ensures
        listed_keys(listing.deep_view()) == table_keys(*table),
        listed_keys(listing.deep_view()).no_duplicates(),
        listed_keys(listing.deep_view()).to_set() == table_entries(*table).dom(),
        forall|i: int|
            0 <= i < listing.len() ==> table_entries(*table)[#[trigger] listing.deep_view()[i].0]
                == listing.deep_view()[i].1,
{
    table.iter().map(|(key, value)| (key.clone(), value.as_str().map(String::from))).collect()
}

/// What the pack is for.
#[derive(Clone, Debug, PartialEq, Eq)]
pub struct PackMetadata {
    pub game_version: String,
    pub loader: String,
}

/// The manifest of a pack.
pub struct Pack {
    pub details: PackMetadata,
    pub mods: toml::value::Table,
}

/// Mathematical value of a [`Pack`]: `mods` maps each slug to the version
/// that the pack asks for.
pub struct PackView {
    pub game_version: Seq<char>,
    pub loader: Seq<char>,
    pub mods: Map<Seq<char>, Option<Seq<char>>>,
}

impl View for Pack {
    type V = PackView;

    open spec fn view(&self) -> PackView {
        PackView {
            game_version: self.details.game_version@,
            loader: self.details.loader@,
            mods: table_entries(self.mods),
        }
    }
}

/// An entry of the pack that names no version.
#[derive(Debug, PartialEq, Eq)]
pub struct NotAVersion {
    pub mod_slug: String,
}

/// Whether `entries` lists the mods of a pack: every slug once, each with
/// its version.
pub open spec fn lists(
    entries: Seq<(Seq<char>, Seq<char>)>,
    mods: Map<Seq<char>, Option<Seq<char>>>,
) -> bool {
    &&& entries.map_values(|entry: (Seq<char>, Seq<char>)| entry.0).no_duplicates()
    &&& entries.map_values(|entry: (Seq<char>, Seq<char>)| entry.0).to_set() == mods.dom()
    &&& forall|i: int|
        0 <= i < entries.len() ==> mods[#[trigger] entries[i].0] == Some(entries[i].1)
}

/// Whether the entry of a pack for a slug names no version.
pub open spec fn without_version(mods: Map<Seq<char>, Option<Seq<char>>>) -> spec_fn(
    Seq<char>,
) -> bool {
    |slug: Seq<char>| mods[slug] is None
}

/// In a listing of a pack, the first entry without version is the first
/// slug of which the pack names no version.
proof fn lemma_first_without_version(
    mods: Map<Seq<char>, Option<Seq<char>>>,
    listed: Seq<(Seq<char>, Option<Seq<char>>)>,
    i: int,
)
    requires
        0 <= i < listed.len(),
        forall|j: int| 0 <= j < listed.len() ==> mods[#[trigger] listed[j].0] == listed[j].1,
        forall|j: int| 0 <= j < i ==> listed[j].1 is Some,
        listed[i].1 is None,
    ensures
        first_index(listed_keys(listed), without_version(mods)) == Some(i),
        mods[listed[i].0] is None,
{
    let order = listed_keys(listed);
    assert forall|j: int| 0 <= j < i implies !without_version(mods)(order[j]) by {
        assert(order[j] == listed[j].0);
        assert(mods[listed[j].0] == listed[j].1);
    }
    assert(order[i] == listed[i].0);
    assert(mods[listed[i].0] == listed[i].1);
    lemma_first_index(order, without_version(mods), i);
}

impl Pack {
    /// The order in which the pack hands its mods out.
    pub open spec fn order(&self) -> Seq<Seq<char>> {
        table_keys(self.mods)
    }

    /// A pack without mods.
    pub fn create_empty(game_version: &str, loader: &str) -> (pack: Self)
        ensures
            pack@ == (PackView {
                game_version: game_version@,
                loader: loader@,
                mods: Map::empty(),
            }),
    {
        Pack {
            details: PackMetadata {
                game_version: String::from_str(game_version),
                loader: String::from_str(loader),
            },
            mods: new_table(),
        }
    }

    /// Asks for the version `mod_info.version` of the mod `mod_info.slug`,
    /// in place of the version asked for so far.
    pub fn add_mod(&mut self, mod_info: PackMod)
        ensures
            final(self)@ == (PackView {
                mods: old(self)@.mods.insert(mod_info.slug@, Some(mod_info.version@)),
                ..old(self)@
            }),
    {
        insert_text(&mut self.mods, mod_info.slug, mod_info.version);
    }

    /// Takes the mod `mod_slug` out of the pack and says whether it was in.
    pub fn remove_mod(&mut self, mod_slug: &str) -> (removed: bool)
        ensures
            removed == old(self)@.mods.dom().contains(mod_slug@),
            final(self)@ == (PackView { mods: old(self)@.mods.remove(mod_slug@), ..old(self)@ }),
    {
        remove_key(&mut self.mods, mod_slug)
    }

    /// The version that the pack asks for of the mod `mod_slug`: `None`
    /// where the mod is not in the pack, `Some(None)` where its entry
    /// names no version.
    pub fn version_of(&self, mod_slug: &str) -> (found: Option<Option<String>>)
        ensures
            match found {
                Some(version) => self@.mods.dom().contains(mod_slug@) && self@.mods[mod_slug@]
                    == version.deep_view(),
                None => !self@.mods.dom().contains(mod_slug@),
            },
    {
        get_text(&self.mods, mod_slug)
    }

    /// The mods of the pack, each slug with the version asked for, in the
    /// pack's order; or the first entry that names no version.
    pub fn entries(&self) -> (result: Result<Vec<(String, String)>, NotAVersion>)
        ensures
            match result {
                Ok(entries) => {
                    &&& lists(entries.deep_view(), self@.mods)
                    &&& entries.deep_view().map_values(|entry: (Seq<char>, Seq<char>)| entry.0)
                        == self.order()
                },
                Err(e) => {
                    let at = first_index(self.order(), without_version(self@.mods));
                    &&& at is Some
                    &&& self.order()[at->0] == e.mod_slug@
                    &&& self@.mods.dom().contains(e.mod_slug@)
                    &&& self@.mods[e.mod_slug@] is None
                },
            },
    {
        let listing = list_entries(&self.mods);
        let ghost listed = listing.deep_view();
        let ghost keys = |entry: (Seq<char>, Seq<char>)| entry.0;
        let mut entries: Vec<(String, String)> = Vec::new();
        let mut i: usize = 0;
        while i < listing.len()
            invariant
                i <= listing.len(),
                listed == listing.deep_view(),
                listed_keys(listed) == table_keys(self.mods),
                listed_keys(listed).to_set() == table_entries(self.mods).dom(),
                forall|j: int|
                    0 <= j < listed.len() ==> table_entries(self.mods)[#[trigger] listed[j].0]
                        == listed[j].1,
                keys == |entry: (Seq<char>, Seq<char>)| entry.0,
                entries.len() == i,
                forall|j: int|
                    0 <= j < i ==> listed[j].0 == (#[trigger] entries.deep_view()[j]).0
                        && listed[j].1 == Some(entries.deep_view()[j].1),
            decreases listing.len() - i,
        {
            let ghost before = entries.deep_view();
            match &listing[i].1 {
                Some(version) => {
                    entries.push((listing[i].0.clone(), version.clone()));
                    assert(entries.deep_view() =~= before.push((listed[i as int].0, version@)));
                },
                None => {
                    proof {
                        let key = listed[i as int].0;
                        assert(listed_keys(listed)[i as int] == key);
                        assert(listed_keys(listed).to_set().contains(key));
                        assert forall|j: int| 0 <= j < i implies listed[j].1 is Some by {
                            assert(listed[j].1 == Some(entries.deep_view()[j].1));
                        }
                        lemma_first_without_version(self@.mods, listed, i as int);
                    }
                    return Err(NotAVersion { mod_slug: listing[i].0.clone() });
                },
            }
            i += 1;
        }
        proof {
            let found = entries.deep_view();
            assert(found.map_values(keys) =~= listed_keys(listed));
            assert forall|j: int| 0 <= j < found.len() implies self@.mods[#[trigger] found[j].0]
                == Some(found[j].1) by {
                assert(found[j].0 == listed[j].0);
                assert(table_entries(self.mods)[listed[j].0] == listed[j].1);
            }
        }
        Ok(entries)
    }
}

} // verus!
