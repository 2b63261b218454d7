//! The install ledger: the records of what the mods directory is believed to
//! hold, and their reconciliation with the pack and with the directory.

use vstd::prelude::*;
use crate::mods_dir::ModsDir;
use crate::modrinth::PackMod;

verus! {

broadcast use vstd::seq_lib::group_filter_ensures;

/// The belief that `filename` in the mods directory is version `version_id`
/// of the mod `mod_slug`.
#[derive(Clone, Debug, PartialEq, Eq)]
pub struct InstalledMod {
    pub mod_slug: String,
    pub mod_id: String,
    pub version_id: String,
    pub filename: String,
}

/// Mathematical value of an [`InstalledMod`].
pub struct InstalledModView {
    pub mod_slug: Seq<char>,
    pub mod_id: Seq<char>,
    pub version_id: Seq<char>,
    pub filename: Seq<char>,
}

impl View for InstalledMod {
    type V = InstalledModView;

    open spec fn view(&self) -> InstalledModView {
        InstalledModView {
            mod_slug: self.mod_slug@,
            mod_id: self.mod_id@,
            version_id: self.version_id@,
            filename: self.filename@,
        }
    }
}

impl InstalledMod {
    pub fn of(slug: String, mod_id: String, version_id: String, filename: String) -> (record: Self)
        ensures
            record@ == (InstalledModView {
                mod_slug: slug@,
                mod_id: mod_id@,
                version_id: version_id@,
                filename: filename@,
            }),
    {
        Self { mod_slug: slug, mod_id, version_id, filename }
    }
}

/// The ledger, in the order in which the records were added.
#[derive(Debug)]
pub struct InstallCache {
    pub mods: Vec<InstalledMod>,
}

impl View for InstallCache {
    type V = Seq<InstalledModView>;

    open spec fn view(&self) -> Seq<InstalledModView> {
        self.mods@.map_values(|m: InstalledMod| m@)
    }
}

/// The values of the records that `refs` points to.
pub open spec fn record_views(refs: Seq<&InstalledMod>) -> Seq<InstalledModView> {
    refs.map_values(|m: &InstalledMod| m@)
}

/// The pairs of slug and version that the pack asks for.
pub open spec fn desired_set(installed_mods: &Vec<(String, String)>) -> Set<(Seq<char>, Seq<char>)> {
    installed_mods.deep_view().to_set()
}

/// Whether the pack asks for this record's mod in this record's version.
pub open spec fn is_desired(desired: Set<(Seq<char>, Seq<char>)>, m: InstalledModView) -> bool {
    desired.contains((m.mod_slug, m.version_id))
}

/// The records that the pack no longer asks for, in ledger order.
pub open spec fn not_installed(
    ledger: Seq<InstalledModView>,
    desired: Set<(Seq<char>, Seq<char>)>,
) -> Seq<InstalledModView> {
    ledger.filter(|m: InstalledModView| !is_desired(desired, m))
}

/// The records whose file is not in the directory, in ledger order.
pub open spec fn missing(ledger: Seq<InstalledModView>, files: Set<Seq<char>>) -> Seq<
    InstalledModView,
> {
    ledger.filter(|m: InstalledModView| !files.contains(m.filename))
}

/// The records that the pack asks for and whose file is in the directory,
/// in ledger order.
pub open spec fn reconciled(
    ledger: Seq<InstalledModView>,
    desired: Set<(Seq<char>, Seq<char>)>,
    files: Set<Seq<char>>,
) -> Seq<InstalledModView> {
    ledger.filter(|m: InstalledModView| is_desired(desired, m) && files.contains(m.filename))
}

/// The file names of `records`, in order.
pub open spec fn filenames(records: Seq<InstalledModView>) -> Seq<Seq<char>> {
    records.map_values(|m: InstalledModView| m.filename)
}

/// The files that a reconciliation deletes, in the order in which it deletes
/// them: those of the records that the pack no longer asks for, and none
/// where deleting is switched off.
pub open spec fn doomed_files(
    ledger: Seq<InstalledModView>,
    desired: Set<(Seq<char>, Seq<char>)>,
    delete: bool,
) -> Seq<Seq<char>> {
    if delete {
        filenames(not_installed(ledger, desired))
    } else {
        Seq::empty()
    }
}

/// Of the files `names`, those that go where each is deleted, if it is
/// there, from a directory that holds `files`: the names that are in the
/// directory, each once, at the place where it is named first.
pub open spec fn deleted_files(names: Seq<Seq<char>>, files: Set<Seq<char>>) -> Seq<Seq<char>>
    decreases names.len(),
{
    if names.len() == 0 {
        Seq::empty()
    } else {
        let before = deleted_files(names.drop_last(), files);
        if files.contains(names.last()) && !names.drop_last().contains(names.last()) {
            before.push(names.last())
        } else {
            before
        }
    }
}

/// The files that are deleted are those that were named and were there,
/// and none of them is deleted twice.
pub proof fn lemma_deleted_files(names: Seq<Seq<char>>, files: Set<Seq<char>>)
    ensures
        deleted_files(names, files).no_duplicates(),
        forall|name: Seq<char>|
            #[trigger] deleted_files(names, files).contains(name) <==> names.contains(name)
                && files.contains(name),
    decreases names.len(),
{
    if names.len() > 0 {
        let rest = names.drop_last();
        let last = names.last();
        let before = deleted_files(rest, files);
        let all = deleted_files(names, files);
        lemma_deleted_files(rest, files);
        assert forall|name: Seq<char>| names.contains(name) <==> rest.contains(name) || name
            == last by {
            if names.contains(name) {
                let i = choose|i: int| 0 <= i < names.len() && names[i] == name;
                if i < rest.len() {
                    assert(rest[i] == name);
                }
            }
            if rest.contains(name) {
                let i = choose|i: int| 0 <= i < rest.len() && rest[i] == name;
                assert(names[i] == name);
            }
            if name == last {
                assert(names[names.len() - 1] == name);
            }
        }
        if files.contains(last) && !rest.contains(last) {
            assert(!before.contains(last));
            assert forall|name: Seq<char>| #[trigger] all.contains(name) <==> before.contains(name)
                || name == last by {
                if all.contains(name) {
                    let i = choose|i: int| 0 <= i < all.len() && all[i] == name;
                    if i < before.len() {
                        assert(before[i] == name);
                    }
                }
                if before.contains(name) {
                    let i = choose|i: int| 0 <= i < before.len() && before[i] == name;
                    assert(all[i] == name);
                }
                if name == last {
                    assert(all[all.len() - 1] == name);
                }
            }
            assert forall|i: int, j: int| 0 <= i < all.len() && 0 <= j < all.len() && i
                != j implies all[i] != all[j] by {
                if i < before.len() && j < before.len() {
                    assert(before[i] != before[j]);
                } else if i < before.len() {
                    assert(before.contains(before[i]));
                } else {
                    assert(before.contains(before[j]));
                }
            }
        }
    }
}

/// What a reconciliation leaves behind.
pub struct Reconciliation {
    /// The ledger after it.
    pub ledger: Seq<InstalledModView>,
    /// The files in the mods directory after it.
    pub files: Set<Seq<char>>,
    /// The files that it deleted, in order.
    pub deleted: Seq<Seq<char>>,
}

/// The reconciliation of `ledger` with the pack `desired` and a directory
/// that holds `files`.
///
/// Of the doomed files those that are there are deleted. The ledger keeps
/// the records that the pack asks for and whose file is still there
/// afterwards.
pub open spec fn reconciliation(
    ledger: Seq<InstalledModView>,
    files: Set<Seq<char>>,
    desired: Set<(Seq<char>, Seq<char>)>,
    delete: bool,
) -> Reconciliation {
    let doomed = doomed_files(ledger, desired, delete);
    let left = files.difference(doomed.to_set());
    Reconciliation {
        ledger: reconciled(ledger, desired, left),
        files: left,
        deleted: deleted_files(doomed, files),
    }
}

/// Whether the pack asks for this record.
pub fn wanted(record: &InstalledMod, installed_mods: &Vec<(String, String)>) -> (installed: bool)
    ensures
        installed == is_desired(desired_set(installed_mods), record@),
{
    let ghost pairs = installed_mods.deep_view();
    let ghost key = (record.mod_slug@, record.version_id@);
    let mut installed = false;
    let mut i: usize = 0;
    while i < installed_mods.len()
        invariant
            i <= installed_mods.len(),
            pairs == installed_mods.deep_view(),
            key == (record.mod_slug@, record.version_id@),
            installed == exists|j: int| 0 <= j < i && pairs[j] == key,
        decreases installed_mods.len() - i,
    {
        let m = &installed_mods[i];
        if m.0 == record.mod_slug && m.1 == record.version_id {
            assert(pairs[i as int] == key);
            installed = true;
        }
        i += 1;
    }
    installed
}

impl InstallCache {
    pub fn empty() -> (ledger: Self)
        ensures
            ledger@ == Seq::<InstalledModView>::empty(),
    {
        let ledger = Self { mods: Vec::new() };
        assert(ledger@ =~= Seq::<InstalledModView>::empty());
        ledger
    }

    /// Appends the record that `filename` is `pack_mod`.
    pub fn add_mod(&mut self, pack_mod: &PackMod, filename: &String)
        ensures
            final(self)@ == old(self)@.push(
                InstalledModView {
                    mod_slug: pack_mod.slug@,
                    mod_id: pack_mod.id@,
                    version_id: pack_mod.version@,
                    filename: filename@,
                },
            ),
    {
        self.mods.push(
            InstalledMod::of(
                pack_mod.slug.clone(),
                pack_mod.id.clone(),
                pack_mod.version.clone(),
                filename.clone(),
            ),
        );
        assert(self@ =~= old(self)@.push(self.mods@.last()@));
    }

    /// The records that the pack no longer asks for.
    pub fn find_not_installed_mods(&self, installed_mods: &Vec<(String, String)>) -> (not_installed:
        Vec<&InstalledMod>)
        ensures
            record_views(not_installed@) == self::not_installed(self@, desired_set(installed_mods)),
    {
        let ghost desired = desired_set(installed_mods);
        let ghost stale = |m: InstalledModView| !is_desired(desired, m);
        let mut not_installed: Vec<&InstalledMod> = Vec::new();
        let mut i: usize = 0;
        while i < self.mods.len()
            invariant
                i <= self.mods.len(),
                desired == desired_set(installed_mods),
                stale == |m: InstalledModView| !is_desired(desired, m),
                record_views(not_installed@) == self@.take(i as int).filter(stale),
            decreases self.mods.len() - i,
        {
            let installed_mod = &self.mods[i];
            proof {
                self@.lemma_take_succ_push(i as int);
                self@.take(i as int).lemma_filter_push(self@[i as int], stale);
            }
            if !wanted(installed_mod, installed_mods) {
                let ghost before = record_views(not_installed@);
                not_installed.push(installed_mod);
                assert(record_views(not_installed@) =~= before.push(installed_mod@));
            }
            i += 1;
        }
        proof {
            self@.lemma_take_len();
        }
        not_installed
    }

    /// The records whose file is not in the mods directory.
    pub fn find_missing_mods(&self, mods_dir: &ModsDir) -> (missing: Vec<&InstalledMod>)
        ensures
            record_views(missing@) == self::missing(self@, mods_dir@),
    {
        let ghost files = mods_dir@;
        let ghost absent = |m: InstalledModView| !files.contains(m.filename);
        let mut missing: Vec<&InstalledMod> = Vec::new();
        let mut i: usize = 0;
        while i < self.mods.len()
            invariant
                i <= self.mods.len(),
                files == mods_dir@,
                absent == |m: InstalledModView| !files.contains(m.filename),
                record_views(missing@) == self@.take(i as int).filter(absent),
            decreases self.mods.len() - i,
        {
            let installed_mod = &self.mods[i];
            proof {
                self@.lemma_take_succ_push(i as int);
                self@.take(i as int).lemma_filter_push(self@[i as int], absent);
            }
            if !mods_dir.contains(&installed_mod.filename) {
                let ghost before = record_views(missing@);
                missing.push(installed_mod);
                assert(record_views(missing@) =~= before.push(installed_mod@));
            }
            i += 1;
        }
        proof {
            self@.lemma_take_len();
        }
        missing
    }

    /// Reconciles the ledger with the pack and with the mods directory.
    ///
    /// Where `delete` is set, the files of the records that the pack no
    /// longer asks for are deleted, as far as they are there. Then every
    /// record goes that the pack does not ask for or whose file is not in
    /// the directory. The result names the files that were deleted, each
    /// once, in ledger order.
    pub fn cleanup(
        &mut self,
        mods_dir: &mut ModsDir,
        installed_mods: Vec<(String, String)>,
        delete: bool,
    ) -> (deleted: Vec<String>)
        ensures
            ({
                let outcome = reconciliation(
                    old(self)@,
                    old(mods_dir)@,
                    desired_set(&installed_mods),
                    delete,
                );
                &&& final(self)@ == outcome.ledger
                &&& final(mods_dir)@ == outcome.files
                &&& deleted.deep_view() == outcome.deleted
            }),
            // With `delete` the files of the records no longer asked for
            // are gone; without it no file is touched.
            final(mods_dir)@ == if delete {
                old(mods_dir)@.difference(
                    filenames(not_installed(old(self)@, desired_set(&installed_mods))).to_set(),
                )
            } else {
                old(mods_dir)@
            },
            !delete ==> deleted@.len() == 0,
            // The ledger keeps what is asked for and is on disk, and
            // nothing else.
            final(self)@ == reconciled(
                old(self)@,
                desired_set(&installed_mods),
                final(mods_dir)@,
            ),
            forall|i: int|
                0 <= i < final(self)@.len() ==> is_desired(
                    desired_set(&installed_mods),
                    #[trigger] final(self)@[i],
                ) && final(mods_dir)@.contains(final(self)@[i].filename),
            delete ==> forall|i: int|
                0 <= i < old(self)@.len() && !is_desired(
                    desired_set(&installed_mods),
                    #[trigger] old(self)@[i],
                ) ==> !final(mods_dir)@.contains(old(self)@[i].filename),
    {
        let ghost ledger = self@;
        let ghost files = mods_dir@;
        let ghost desired = desired_set(&installed_mods);
        let ghost doomed = doomed_files(ledger, desired, delete);
        let mut deleted: Vec<String> = Vec::new();
        assert(deleted.deep_view() =~= deleted_files(doomed.take(0), files));
        assert(files.difference(doomed.take(0).to_set()) =~= files);
        if delete {
            let not_installed_mods = self.find_not_installed_mods(&installed_mods);
            let mut j: usize = 0;
            while j < not_installed_mods.len()
                invariant
                    j <= not_installed_mods.len(),
                    self@ == old(self)@,
                    doomed == filenames(record_views(not_installed_mods@)),
                    deleted.deep_view() == deleted_files(doomed.take(j as int), files),
                    mods_dir@ == files.difference(doomed.take(j as int).to_set()),
                decreases not_installed_mods.len() - j,
            {
                let not_installed_mod = not_installed_mods[j];
                let ghost name = doomed[j as int];
                let ghost done = doomed.take(j as int);
                let ghost before = deleted.deep_view();
                proof {
                    assert(not_installed_mod.filename@ == name);
                    assert(doomed.take(j + 1).drop_last() =~= done);
                    assert(doomed.take(j + 1).last() == name);
                    assert(done.to_set().contains(name) <==> done.contains(name));
                }
                if mods_dir.remove_file(&not_installed_mod.filename) {
                    deleted.push(not_installed_mod.filename.clone());
                    assert(deleted.deep_view() =~= before.push(name));
                }
                proof {
                    doomed.lemma_take_succ_push(j as int);
                    done.lemma_push_to_set_commute(name);
                    assert(mods_dir@ =~= files.difference(doomed.take(j + 1).to_set()));
                }
                j += 1;
            }
            proof {
                doomed.lemma_take_len();
            }
        } else {
            assert(doomed.take(0) =~= doomed);
        }
        let ghost remaining = mods_dir@;
        let ghost keep = |m: InstalledModView|
            is_desired(desired, m) && remaining.contains(m.filename);
        let ghost mut seen: int = 0;
        let mut i: usize = 0;
        while i < self.mods.len()
            invariant
                0 <= seen <= ledger.len(),
                i <= self.mods.len(),
                remaining == mods_dir@,
                desired == desired_set(&installed_mods),
                keep == |m: InstalledModView|
                    is_desired(desired, m) && remaining.contains(m.filename),
                self@ == ledger.take(seen).filter(keep) + ledger.skip(seen),
                i == ledger.take(seen).filter(keep).len(),
            decreases ledger.len() - seen,
        {
            let ghost current = self@;
            let ghost kept = ledger.take(seen).filter(keep);
            assert(current[i as int] == ledger.skip(seen)[0]);
            assert(seen < ledger.len());
            proof {
                ledger.lemma_take_succ_push(seen);
                ledger.take(seen).lemma_filter_push(ledger[seen], keep);
            }
            if !wanted(&self.mods[i], &installed_mods) || !mods_dir.contains(
                &self.mods[i].filename,
            ) {
                self.mods.remove(i);
                assert(self@ =~= current.remove(i as int));
                assert(current.remove(i as int) =~= kept + ledger.skip(seen + 1));
            } else {
                i += 1;
                assert(current =~= kept.push(ledger[seen]) + ledger.skip(seen + 1));
            }
            proof {
                seen = seen + 1;
            }
        }
        proof {
            assert(ledger.skip(seen).len() == 0);
            assert(seen == ledger.len());
            ledger.lemma_take_len();
            assert(self@ =~= reconciled(ledger, desired, remaining));
            if delete {
                let stale = not_installed(ledger, desired);
                assert forall|k: int|
                    0 <= k < ledger.len() && !is_desired(
                        desired,
                        #[trigger] ledger[k],
                    ) implies !remaining.contains(ledger[k].filename) by {
                    ledger.lemma_filter_contains(
                        |m: InstalledModView| !is_desired(desired, m),
                        k,
                    );
                    let at = choose|at: int| 0 <= at < stale.len() && stale[at] == ledger[k];
                    assert(doomed[at] == ledger[k].filename);
                    assert(doomed.to_set().contains(ledger[k].filename));
                }
            }
        }
        deleted
    }
}

} // verus!
