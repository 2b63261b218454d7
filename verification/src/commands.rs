//! The edits of the pack manifest: adding, removing and updating mods.

use vstd::prelude::*;
use crate::batch::{lemma_run_extends, lemma_run_none, lemma_run_stops, run, Run};
use crate::modrinth::{
    first_index, get_mod_details, mod_named, pack_view, resolve_version, resolved,
    PackMod, PackModView, Registry, RegistryError,
};
use crate::pack::{without_version, Pack, PackView};

verus! {

/// What a pack holds: under each slug the version asked for.
pub type Mods = Map<Seq<char>, Option<Seq<char>>>;

/// The game version to resolve against: the one forced, else the pack's.
pub open spec fn game_version_for(pack: PackView, forced: Option<Seq<char>>) -> Seq<char> {
    match forced {
        Some(game_version) => game_version,
        None => pack.game_version,
    }
}

/// Adds what the definition `text` resolves to: the mod enters the pack
/// under its slug, in the version found; a definition that resolves to
/// nothing changes nothing.
pub open spec fn add_step(
    registry: Registry,
    loader: Seq<char>,
    game_version: Seq<char>,
) -> spec_fn(Mods, Seq<char>) -> Result<(Mods, Option<PackModView>), Seq<char>> {
    |mods: Mods, text: Seq<char>|
        match resolved(registry, text, loader, game_version) {
            Ok(Some(found)) => Ok((mods.insert(found.slug, Some(found.version)), Some(found))),
            Ok(None) => Ok((mods, None)),
            Err(name) => Err(name),
        }
}

/// The character values of what was found for each definition.
pub open spec fn found_views(found: Seq<Option<PackMod>>) -> Seq<Option<PackModView>> {
    found.map_values(|entry: Option<PackMod>| pack_view(entry))
}

/// Adds the mods that `mods` defines to the pack, one after the other.
///
/// The result holds, for each definition, the entry that it resolved to.
/// A definition whose mod the registry does not know ends the work; what
/// was added before it stays.
pub fn add_mods(
    pack: &mut Pack,
    registry: &Registry,
    mods: Vec<String>,
    force_game_version: Option<String>,
) -> (result: Result<Vec<Option<PackMod>>, RegistryError>)
    ensures
        ({
            let batch = run(
                old(pack)@.mods,
                mods.deep_view(),
                add_step(
                    *registry,
                    old(pack)@.loader,
                    game_version_for(old(pack)@, force_game_version.deep_view()),
                ),
            );
            &&& final(pack)@ == (PackView { mods: batch.state, ..old(pack)@ })
            &&& match result {
                Ok(found) => batch.failure is None && found_views(found@) == batch.outputs,
                Err(RegistryError::NotFound { name }) => batch.failure == Some(name@),
            }
        }),
{
    let ghost forced = force_game_version.deep_view();
    let game_version = match force_game_version {
        None => pack.details.game_version.clone(),
        Some(game_version) => game_version,
    };
    let ghost start = pack@;
    let ghost texts = mods.deep_view();
    let ghost step = add_step(*registry, start.loader, game_version@);
    let mut found: Vec<Option<PackMod>> = Vec::new();
    proof {
        lemma_run_none(start.mods, texts, step);
        assert(found_views(found@) =~= Seq::<Option<PackModView>>::empty());
    }
    let mut i: usize = 0;
    while i < mods.len()
        invariant
            i <= mods.len(),
            texts == mods.deep_view(),
            start == old(pack)@,
            forced == force_game_version.deep_view(),
            game_version@ == game_version_for(start, forced),
            step == add_step(*registry, start.loader, game_version@),
            pack@ == (PackView { mods: pack@.mods, ..start }),
            run(start.mods, texts.take(i as int), step) == (Run::<
                Mods,
                Option<PackModView>,
                Seq<char>,
            > { state: pack@.mods, outputs: found_views(found@), failure: None }),
        decreases mods.len() - i,
    {
        proof {
            lemma_run_extends(start.mods, texts, step, i as int);
        }
        let ghost before = found_views(found@);
        match resolve_version(
            registry,
            mods[i].as_str(),
            pack.details.loader.as_str(),
            game_version.as_str(),
        ) {
            Ok(Some(version)) => {
                found.push(Some(version.clone_entry()));
                pack.add_mod(version);
            },
            Ok(None) => {
                found.push(None);
            },
            Err(e) => {
                proof {
                    lemma_run_stops(start.mods, texts, step, i + 1);
                }
                return Err(e);
            },
        }
        assert(found_views(found@) =~= before.push(pack_view(found@.last())));
        i += 1;
    }
    assert(texts.take(texts.len() as int) =~= texts);
    Ok(found)
}

/// Takes the mods named in `mods` out of the pack. The result says of each
/// name whether the pack held it when its turn came.
pub fn remove_mods(pack: &mut Pack, mods: Vec<String>) -> (removed: Vec<bool>)
    ensures
        final(pack)@ == (PackView {
            mods: old(pack)@.mods.remove_keys(mods.deep_view().to_set()),
            ..old(pack)@
        }),
        removed.len() == mods.len(),
        forall|i: int|
            0 <= i < mods.len() ==> #[trigger] removed[i] == (old(pack)@.mods.dom().contains(
                mods.deep_view()[i],
            ) && !mods.deep_view().take(i).contains(mods.deep_view()[i])),
{
    let ghost start = pack@;
    let ghost names = mods.deep_view();
    let mut removed: Vec<bool> = Vec::new();
    assert(start.mods.remove_keys(names.take(0).to_set()) =~= start.mods);
    let mut i: usize = 0;
    while i < mods.len()
        invariant
            i <= mods.len(),
            names == mods.deep_view(),
            removed.len() == i,
            pack@ == (PackView { mods: start.mods.remove_keys(names.take(i as int).to_set()), ..start }),
            forall|j: int|
                0 <= j < i ==> #[trigger] removed[j] == (start.mods.dom().contains(names[j])
                    && !names.take(j).contains(names[j])),
        decreases mods.len() - i,
    {
        let was_there = pack.remove_mod(mods[i].as_str());
        removed.push(was_there);
        proof {
            names.lemma_take_succ_push(i as int);
            names.take(i as int).lemma_push_to_set_commute(names[i as int]);
            assert(pack@.mods =~= start.mods.remove_keys(names.take(i + 1).to_set()));
        }
        i += 1;
    }
    assert(names.take(names.len() as int) =~= names);
    removed
}

/// What became of a mod that was to be updated.
#[derive(Debug, PartialEq, Eq)]
pub enum Update {
    /// The pack now asks for this entry.
    Updated(PackMod),
    /// The pack asks for the latest version already.
    UpToDate,
    /// No version of the mod fits.
    Missing,
}

/// Mathematical value of an [`Update`].
pub enum UpdateView {
    Updated(PackModView),
    UpToDate,
    Missing,
}

impl View for Update {
    type V = UpdateView;

    open spec fn view(&self) -> UpdateView {
        match self {
            Update::Updated(entry) => UpdateView::Updated(entry@),
            Update::UpToDate => UpdateView::UpToDate,
            Update::Missing => UpdateView::Missing,
        }
    }
}

/// Why an update stopped.
#[derive(Debug, PartialEq, Eq)]
pub enum UpdateError {
    /// The registry knows no mod of this name.
    NotFound { name: String },
    /// The mod is not in the pack.
    NotInPack { mod_slug: String },
    /// The pack's entry for the mod names no version.
    NotAVersion { mod_slug: String },
}

/// Mathematical value of an [`UpdateError`].
pub enum UpdateErrorView {
    NotFound { name: Seq<char> },
    NotInPack { mod_slug: Seq<char> },
    NotAVersion { mod_slug: Seq<char> },
}

impl View for UpdateError {
    type V = UpdateErrorView;

    open spec fn view(&self) -> UpdateErrorView {
        match self {
            UpdateError::NotFound { name } => UpdateErrorView::NotFound { name: name@ },
            UpdateError::NotInPack { mod_slug } => UpdateErrorView::NotInPack {
                mod_slug: mod_slug@,
            },
            UpdateError::NotAVersion { mod_slug } => UpdateErrorView::NotAVersion {
                mod_slug: mod_slug@,
            },
        }
    }
}

/// The update of a mod of which the pack asks for the version `current`
/// and whose definition resolved to `found`: where that is another
/// version, the mod enters the pack under its slug in that version.
pub open spec fn update_to(mods: Mods, found: Option<PackModView>, current: Seq<char>) -> (
    Mods,
    UpdateView,
) {
    match found {
        Some(entry) => if entry.version != current {
            (mods.insert(entry.slug, Some(entry.version)), UpdateView::Updated(entry))
        } else {
            (mods, UpdateView::UpToDate)
        },
        None => (mods, UpdateView::Missing),
    }
}

/// The update of the mod that `name` defines, of which the pack asks for
/// the version `current`.
pub open spec fn update_one(
    mods: Mods,
    registry: Registry,
    name: Seq<char>,
    current: Seq<char>,
    loader: Seq<char>,
    game_version: Seq<char>,
) -> Result<(Mods, UpdateView), UpdateErrorView> {
    match resolved(registry, name, loader, game_version) {
        Ok(found) => Ok(update_to(mods, found, current)),
        Err(name) => Err(UpdateErrorView::NotFound { name }),
    }
}

/// Brings a mod of which the pack asks for `current_version` to the
/// entry that its definition resolved to.
pub fn apply_update(pack: &mut Pack, found: Option<PackMod>, current_version: &String) -> (update:
    Update)
    ensures
        final(pack)@ == (PackView {
            mods: update_to(old(pack)@.mods, pack_view(found), current_version@).0,
            ..old(pack)@
        }),
        update@ == update_to(old(pack)@.mods, pack_view(found), current_version@).1,
{
    match found {
        Some(version) => {
            if version.version != *current_version {
                let entry = version.clone_entry();
                pack.add_mod(version);
                Update::Updated(entry)
            } else {
                Update::UpToDate
            }
        },
        None => Update::Missing,
    }
}

/// Whether an update with the outcome `outcome` took the pack from
/// `before` to `after` and gave `result`.
pub open spec fn took(
    outcome: Result<(Mods, UpdateView), UpdateErrorView>,
    before: PackView,
    after: PackView,
    result: Result<Update, UpdateError>,
) -> bool {
    match outcome {
        Ok((mods, update)) => after == (PackView { mods, ..before }) && update_view(result) == Ok::<
            UpdateView,
            UpdateErrorView,
        >(update),
        Err(e) => after == before && update_view(result) == Err::<UpdateView, UpdateErrorView>(e),
    }
}

/// The character values of the result of an update.
pub open spec fn update_view(result: Result<Update, UpdateError>) -> Result<
    UpdateView,
    UpdateErrorView,
> {
    match result {
        Ok(update) => Ok(update@),
        Err(e) => Err(e@),
    }
}

/// Updates the mod `mod_slug`, of which the pack asks for
/// `current_version`, to the latest version that fits.
pub fn update_mod(
    pack: &mut Pack,
    registry: &Registry,
    mod_slug: &String,
    current_version: &String,
    game_version: &String,
) -> (result: Result<Update, UpdateError>)
    ensures
        took(
            update_one(
                old(pack)@.mods,
                *registry,
                mod_slug@,
                current_version@,
                old(pack)@.loader,
                game_version@,
            ),
            old(pack)@,
            final(pack)@,
            result,
        ),
{
    match resolve_version(
        registry,
        mod_slug.as_str(),
        pack.details.loader.as_str(),
        game_version.as_str(),
    ) {
        Ok(found) => Ok(apply_update(pack, found, current_version)),
        Err(RegistryError::NotFound { name }) => Err(UpdateError::NotFound { name }),
    }
}

/// The update of one entry of a listing of the pack.
pub open spec fn update_listed(
    registry: Registry,
    loader: Seq<char>,
    game_version: Seq<char>,
) -> spec_fn(Mods, (Seq<char>, Seq<char>)) -> Result<(Mods, UpdateView), UpdateErrorView> {
    |mods: Mods, entry: (Seq<char>, Seq<char>)|
        update_one(mods, registry, entry.0, entry.1, loader, game_version)
}

/// The update of the mod that the registry knows as `name`: the version
/// to update from is the one that the pack holds under the mod's slug.
#[verifier::opaque]
pub open spec fn update_by_name(
    mods: Mods,
    registry: Registry,
    name: Seq<char>,
    loader: Seq<char>,
    game_version: Seq<char>,
) -> Result<(Mods, UpdateView), UpdateErrorView> {
    match first_index(registry.mods@, mod_named(name)) {
        None => Err(UpdateErrorView::NotFound { name }),
        Some(i) => {
            let mod_slug = registry.mods@[i].slug@;
            if !mods.dom().contains(mod_slug) {
                Err(UpdateErrorView::NotInPack { mod_slug })
            } else {
                match mods[mod_slug] {
                    None => Err(UpdateErrorView::NotAVersion { mod_slug }),
                    Some(current) => update_one(
                        mods,
                        registry,
                        name,
                        current,
                        loader,
                        game_version,
                    ),
                }
            }
        },
    }
}

/// The step that updates a mod by its name.
pub open spec fn update_named(
    registry: Registry,
    loader: Seq<char>,
    game_version: Seq<char>,
) -> spec_fn(Mods, Seq<char>) -> Result<(Mods, UpdateView), UpdateErrorView> {
    |mods: Mods, name: Seq<char>| update_by_name(mods, registry, name, loader, game_version)
}

/// Updates the mod that the registry knows as `name` from the version
/// that the pack holds of it.
pub fn update_named_mod(
    pack: &mut Pack,
    registry: &Registry,
    name: &String,
    game_version: &String,
) -> (result: Result<Update, UpdateError>)
    ensures
        took(
            update_by_name(old(pack)@.mods, *registry, name@, old(pack)@.loader, game_version@),
            old(pack)@,
            final(pack)@,
            result,
        ),
{
    reveal(update_by_name);
    match get_mod_details(registry, name.as_str()) {
        None => Err(UpdateError::NotFound { name: name.clone() }),
        Some(details) => match pack.version_of(details.slug.as_str()) {
            None => Err(UpdateError::NotInPack { mod_slug: details.slug.clone() }),
            Some(None) => Err(UpdateError::NotAVersion { mod_slug: details.slug.clone() }),
            Some(Some(version_id)) => update_mod(pack, registry, name, &version_id, game_version),
        },
    }
}

/// Whether the pack's entry for `slug` names no version.
pub open spec fn unversioned_at(mods: Mods, slug: Seq<char>) -> bool {
    mods.dom().contains(slug) && mods[slug] is None
}

/// Whether some entry of the pack names no version.
pub open spec fn unversioned(mods: Mods) -> bool {
    exists|slug: Seq<char>| unversioned_at(mods, slug)
}

/// The first entry, in the order `order`, that names no version.
pub open spec fn first_unversioned(mods: Mods, order: Seq<Seq<char>>) -> Option<Seq<char>> {
    match first_index(order, without_version(mods)) {
        Some(at) => Some(order[at]),
        None => None,
    }
}

/// The values of `updates`.
pub open spec fn updates_view(updates: Seq<Update>) -> Seq<UpdateView> {
    updates.map_values(|update: Update| update@)
}

/// What the update of a pack comes to: of every mod where `names` is
/// empty, in the pack's order and from the versions that the pack held at
/// the start; else of the mods named, in the order given.
pub open spec fn updated(
    pack: PackView,
    order: Seq<Seq<char>>,
    registry: Registry,
    names: Seq<Seq<char>>,
    game_version: Seq<char>,
) -> Run<Mods, UpdateView, UpdateErrorView> {
    if names.len() == 0 {
        if unversioned(pack.mods) {
            Run { state: pack.mods, outputs: Seq::empty(), failure: None }
        } else {
            run(
                pack.mods,
                order.map_values(|slug: Seq<char>| (slug, pack.mods[slug]->0)),
                update_listed(registry, pack.loader, game_version),
            )
        }
    } else {
        run(pack.mods, names, update_named(registry, pack.loader, game_version))
    }
}

/// Whether a batch of updates with the outcome `batch` took the pack from
/// `before` to `after` and gave `result`.
pub open spec fn took_all(
    batch: Run<Mods, UpdateView, UpdateErrorView>,
    before: PackView,
    after: PackView,
    result: Result<Vec<Update>, UpdateError>,
) -> bool {
    &&& after == (PackView { mods: batch.state, ..before })
    &&& match result {
        Ok(updates) => batch.failure is None && updates_view(updates@) == batch.outputs,
        Err(e) => batch.failure == Some(e@),
    }
}

/// Updates every mod of the pack, in the pack's order, from the versions
/// that the pack holds at the start.
///
/// Where an entry of the pack names no version, nothing is updated and
/// that entry is the error.
pub fn update_every_mod(pack: &mut Pack, registry: &Registry, game_version: &String) -> (result:
    Result<Vec<Update>, UpdateError>)
    ensures
        if unversioned(old(pack)@.mods) {
            &&& final(pack)@ == old(pack)@
            &&& result matches Err(UpdateError::NotAVersion { mod_slug })
            &&& unversioned_at(old(pack)@.mods, mod_slug@)
            &&& first_unversioned(old(pack)@.mods, old(pack).order()) == Some(mod_slug@)
        } else {
            took_all(
                run(
                    old(pack)@.mods,
                    old(pack).order().map_values(
                        |slug: Seq<char>| (slug, old(pack)@.mods[slug]->0),
                    ),
                    update_listed(*registry, old(pack)@.loader, game_version@),
                ),
                old(pack)@,
                final(pack)@,
                result,
            )
        },
{
    let ghost start = pack@;
    let ghost order = pack.order();
    let mut updates: Vec<Update> = Vec::new();
    assert(updates_view(updates@) =~= Seq::<UpdateView>::empty());
    let entries = match pack.entries() {
        Ok(entries) => entries,
        Err(e) => {
            assert(unversioned_at(start.mods, e.mod_slug@));
            return Err(UpdateError::NotAVersion { mod_slug: e.mod_slug });
        },
    };
    let ghost listing = entries.deep_view();
    let ghost step = update_listed(*registry, start.loader, game_version@);
    proof {
        let keys = listing.map_values(|entry: (Seq<char>, Seq<char>)| entry.0);
        assert forall|slug: Seq<char>| !unversioned_at(start.mods, slug) by {
            if start.mods.dom().contains(slug) {
                assert(keys.to_set().contains(slug));
                let at = choose|at: int| 0 <= at < keys.len() && keys[at] == slug;
                assert(listing[at].0 == slug);
                assert(start.mods[listing[at].0] == Some(listing[at].1));
            }
        }
        assert(!unversioned(start.mods));
        assert(listing =~= order.map_values(|slug: Seq<char>| (slug, start.mods[slug]->0))) by {
            assert forall|at: int| 0 <= at < listing.len() implies listing[at] == (
                order[at],
                start.mods[order[at]]->0,
            ) by {
                assert(keys[at] == listing[at].0);
                assert(start.mods[listing[at].0] == Some(listing[at].1));
            }
        }
        lemma_run_none(start.mods, listing, step);
    }
    let mut i: usize = 0;
    while i < entries.len()
        invariant
            i <= entries.len(),
            listing == entries.deep_view(),
            start == old(pack)@,
            order == old(pack).order(),
            !unversioned(start.mods),
            listing == order.map_values(|slug: Seq<char>| (slug, start.mods[slug]->0)),
            step == update_listed(*registry, start.loader, game_version@),
            pack@ == (PackView { mods: pack@.mods, ..start }),
            run(start.mods, listing.take(i as int), step) == (Run::<
                Mods,
                UpdateView,
                UpdateErrorView,
            > { state: pack@.mods, outputs: updates_view(updates@), failure: None }),
        decreases entries.len() - i,
    {
        proof {
            lemma_run_extends(start.mods, listing, step, i as int);
        }
        let ghost before = updates_view(updates@);
        match update_mod(pack, registry, &entries[i].0, &entries[i].1, game_version) {
            Ok(update) => {
                updates.push(update);
                assert(updates_view(updates@) =~= before.push(update@));
            },
            Err(e) => {
                proof {
                    lemma_run_stops(start.mods, listing, step, i + 1);
                }
                return Err(e);
            },
        }
        i += 1;
    }
    assert(listing.take(listing.len() as int) =~= listing);
    Ok(updates)
}

/// Updates the mods named in `mods`, in the order given, each from the
/// version that the pack holds of it when its turn comes.
pub fn update_named_mods(
    pack: &mut Pack,
    registry: &Registry,
    mods: &Vec<String>,
    game_version: &String,
) -> (result: Result<Vec<Update>, UpdateError>)
    ensures
        took_all(
            run(
                old(pack)@.mods,
                mods.deep_view(),
                update_named(*registry, old(pack)@.loader, game_version@),
            ),
            old(pack)@,
            final(pack)@,
            result,
        ),
{
    let ghost start = pack@;
    let ghost names = mods.deep_view();
    let ghost step = update_named(*registry, start.loader, game_version@);
    let mut updates: Vec<Update> = Vec::new();
    proof {
        assert(updates_view(updates@) =~= Seq::<UpdateView>::empty());
        lemma_run_none(start.mods, names, step);
    }
    let mut i: usize = 0;
    while i < mods.len()
        invariant
            i <= mods.len(),
            names == mods.deep_view(),
            start == old(pack)@,
            step == update_named(*registry, start.loader, game_version@),
            pack@ == (PackView { mods: pack@.mods, ..start }),
            run(start.mods, names.take(i as int), step) == (Run::<
                Mods,
                UpdateView,
                UpdateErrorView,
            > { state: pack@.mods, outputs: updates_view(updates@), failure: None }),
        decreases mods.len() - i,
    {
        proof {
            lemma_run_extends(start.mods, names, step, i as int);
        }
        let ghost before = updates_view(updates@);
        match update_named_mod(pack, registry, &mods[i], game_version) {
            Ok(update) => {
                updates.push(update);
                assert(updates_view(updates@) =~= before.push(update@));
            },
            Err(e) => {
                proof {
                    lemma_run_stops(start.mods, names, step, i + 1);
                }
                return Err(e);
            },
        }
        i += 1;
    }
    assert(names.take(names.len() as int) =~= names);
    Ok(updates)
}

/// Updates the mods named in `mods`, or every mod of the pack where none
/// is named, each to the latest version that fits.
///
/// Where no mod is named and an entry of the pack names no version,
/// nothing is updated and that entry is the error.
pub fn update_mods(
    pack: &mut Pack,
    registry: &Registry,
    mods: Vec<String>,
    force_game_version: Option<String>,
) -> (result: Result<Vec<Update>, UpdateError>)
    ensures
        if mods.len() == 0 && unversioned(old(pack)@.mods) {
            &&& final(pack)@ == old(pack)@
            &&& result matches Err(UpdateError::NotAVersion { mod_slug })
            &&& unversioned_at(old(pack)@.mods, mod_slug@)
            &&& first_unversioned(old(pack)@.mods, old(pack).order()) == Some(mod_slug@)
        } else {
            took_all(
                updated(
                    old(pack)@,
                    old(pack).order(),
                    *registry,
                    mods.deep_view(),
                    game_version_for(old(pack)@, force_game_version.deep_view()),
                ),
                old(pack)@,
                final(pack)@,
                result,
            )
        },
{
    let game_version = match force_game_version {
        Some(game_version) => game_version,
        None => pack.details.game_version.clone(),
    };
    if mods.len() == 0 {
        update_every_mod(pack, registry, &game_version)
    } else {
        update_named_mods(pack, registry, &mods, &game_version)
    }
}

} // verus!
