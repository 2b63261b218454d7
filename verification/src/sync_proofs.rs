//! What holds of every synchronisation: a second one finds nothing to do,
//! and the cache only grows.

use vstd::prelude::*;
use crate::download_cache::Resolution;
use crate::install_cache::{
    deleted_files, doomed_files, is_desired, not_installed, reconciliation, InstalledModView,
    Reconciliation,
};
use crate::modrinth::{first_index, version_named, ModrinthModVersion};
use crate::sync::{
    after_step, entry_step, install_pass, plan_step, sync_outcome, InstallationView, StepView,
};

verus! {

/// A filter that every member passes changes nothing.
pub proof fn lemma_filter_all<A>(s: Seq<A>, keep: spec_fn(A) -> bool)
    requires
        forall|i: int| 0 <= i < s.len() ==> keep(s[i]),
    ensures
        s.filter(keep) == s,
    decreases s.len(),
{
    reveal(Seq::filter);
    if s.len() > 0 {
        lemma_filter_all(s.drop_last(), keep);
        assert(s.drop_last().push(s.last()) =~= s);
    }
}

/// A filter that no member passes leaves nothing.
pub proof fn lemma_filter_none<A>(s: Seq<A>, keep: spec_fn(A) -> bool)
    requires
        forall|i: int| 0 <= i < s.len() ==> !keep(s[i]),
    ensures
        s.filter(keep) == Seq::<A>::empty(),
    decreases s.len(),
{
    reveal(Seq::filter);
    if s.len() > 0 {
        lemma_filter_none(s.drop_last(), keep);
    }
}

/// Every record of the ledger is asked for by the pack and has its file in
/// the directory.
pub open spec fn settled(
    ledger: Seq<InstalledModView>,
    files: Set<Seq<char>>,
    desired: Set<(Seq<char>, Seq<char>)>,
) -> bool {
    forall|i: int|
        0 <= i < ledger.len() ==> is_desired(desired, #[trigger] ledger[i]) && files.contains(
            ledger[i].filename,
        )
}

/// A reconciliation leaves a settled ledger.
pub proof fn lemma_reconciliation_settles(
    ledger: Seq<InstalledModView>,
    files: Set<Seq<char>>,
    desired: Set<(Seq<char>, Seq<char>)>,
    delete: bool,
)
    ensures
        settled(
            reconciliation(ledger, files, desired, delete).ledger,
            reconciliation(ledger, files, desired, delete).files,
            desired,
        ),
{
    broadcast use vstd::seq_lib::group_filter_ensures;

    let outcome = reconciliation(ledger, files, desired, delete);
    let keep = |m: InstalledModView| is_desired(desired, m) && outcome.files.contains(m.filename);
    assert(outcome.ledger == ledger.filter(keep));
    assert forall|i: int| 0 <= i < outcome.ledger.len() implies is_desired(
        desired,
        #[trigger] outcome.ledger[i],
    ) && outcome.files.contains(outcome.ledger[i].filename) by {
        ledger.lemma_filter_pred(keep, i);
    }
}

/// The reconciliation of a settled ledger does nothing.
pub proof fn lemma_reconciliation_of_settled(
    ledger: Seq<InstalledModView>,
    files: Set<Seq<char>>,
    desired: Set<(Seq<char>, Seq<char>)>,
    delete: bool,
)
    requires
        settled(ledger, files, desired),
    ensures
        reconciliation(ledger, files, desired, delete) == (Reconciliation {
            ledger,
            files,
            deleted: Seq::empty(),
        }),
{
    lemma_filter_none(ledger, |m: InstalledModView| !is_desired(desired, m));
    assert(not_installed(ledger, desired) == Seq::<InstalledModView>::empty());
    let doomed = doomed_files(ledger, desired, delete);
    assert(doomed =~= Seq::<Seq<char>>::empty());
    assert(deleted_files(doomed, files) =~= Seq::<Seq<char>>::empty());
    assert(files.difference(doomed.to_set()) =~= files);
    lemma_filter_all(
        ledger,
        |m: InstalledModView| is_desired(desired, m) && files.contains(m.filename),
    );
}

/// Whether nothing is left to do for the pack entry `entry`: the registry
/// knows its version, and the first file of it, if it has one, is in the
/// directory.
pub open spec fn covered(
    files: Set<Seq<char>>,
    entry: (Seq<char>, Seq<char>),
    versions: Seq<ModrinthModVersion>,
) -> bool {
    match first_index(versions, version_named(entry.1)) {
        Some(k) => versions[k].files@.len() == 0 || files.contains(
            versions[k].files@[0].filename@,
        ),
        None => false,
    }
}

/// Whether a step left the installation as it was.
pub open spec fn idle(step: StepView) -> bool {
    step is NoFiles || step is Present
}

/// A step only adds: a file, a cache entry, and a record for its entry of
/// the pack. After a step that did not fail the entry is covered.
pub proof fn lemma_step_grows(
    w: InstallationView,
    entry: (Seq<char>, Seq<char>),
    versions: Seq<ModrinthModVersion>,
    desired: Set<(Seq<char>, Seq<char>)>,
)
    requires
        desired.contains(entry),
    ensures
        ({
            let step = entry_step(w, entry, versions);
            let next = after_step(w, entry, step);
            &&& w.files.subset_of(next.files)
            &&& w.cache.subset_of(next.cache)
            &&& settled(w.ledger, w.files, desired) ==> settled(next.ledger, next.files, desired)
            &&& step is Ok ==> covered(next.files, entry, versions)
            &&& step is Err ==> next == w
        }),
{
    reveal(plan_step);
    let step = entry_step(w, entry, versions);
    let next = after_step(w, entry, step);
    if settled(w.ledger, w.files, desired) {
        assert forall|i: int| 0 <= i < next.ledger.len() implies is_desired(
            desired,
            #[trigger] next.ledger[i],
        ) && next.files.contains(next.ledger[i].filename) by {
            if i < w.ledger.len() {
                assert(next.ledger[i] == w.ledger[i]);
            }
        }
    }
}

/// An installation pass only adds: files, cache entries, and records for
/// entries of the pack. After a pass that did not stop every entry is
/// covered.
pub proof fn lemma_pass_grows(
    w: InstallationView,
    pack: Seq<(Seq<char>, Seq<char>)>,
    versions: Seq<ModrinthModVersion>,
    desired: Set<(Seq<char>, Seq<char>)>,
)
    requires
        forall|i: int| 0 <= i < pack.len() ==> desired.contains(#[trigger] pack[i]),
    ensures
        w.files.subset_of(install_pass(w, pack, versions).state.files),
        w.cache.subset_of(install_pass(w, pack, versions).state.cache),
        settled(w.ledger, w.files, desired) ==> settled(
            install_pass(w, pack, versions).state.ledger,
            install_pass(w, pack, versions).state.files,
            desired,
        ),
        install_pass(w, pack, versions).failure is None ==> install_pass(
            w,
            pack,
            versions,
        ).outputs.len() == pack.len() && forall|i: int|
            0 <= i < pack.len() ==> covered(
                install_pass(w, pack, versions).state.files,
                #[trigger] pack[i],
                versions,
            ),
    decreases pack.len(),
{
    if pack.len() > 0 {
        let rest = pack.drop_last();
        let entry = pack.last();
        assert forall|i: int| 0 <= i < rest.len() implies desired.contains(#[trigger] rest[i]) by {
            assert(rest[i] == pack[i]);
        }
        lemma_pass_grows(w, rest, versions, desired);
        let before = install_pass(w, rest, versions);
        let pass = install_pass(w, pack, versions);
        if before.failure is None {
            assert(desired.contains(pack[pack.len() - 1]));
            lemma_step_grows(before.state, entry, versions, desired);
            let step = entry_step(before.state, entry, versions);
            assert(pass.state == after_step(before.state, entry, step));
            if pass.failure is None {
                assert(step is Ok);
                assert(pass.outputs.len() == pack.len());
                assert forall|i: int| 0 <= i < pack.len() implies covered(
                    pass.state.files,
                    #[trigger] pack[i],
                    versions,
                ) by {
                    if i < rest.len() {
                        assert(rest[i] == pack[i]);
                        assert(covered(before.state.files, rest[i], versions));
                    }
                }
            }
        } else {
            assert(pass == before);
        }
    }
}

/// An installation pass over entries that are all covered does nothing.
pub proof fn lemma_pass_of_covered(
    w: InstallationView,
    pack: Seq<(Seq<char>, Seq<char>)>,
    versions: Seq<ModrinthModVersion>,
)
    requires
        forall|i: int| 0 <= i < pack.len() ==> covered(w.files, #[trigger] pack[i], versions),
    ensures
        install_pass(w, pack, versions).state == w,
        install_pass(w, pack, versions).failure is None,
        install_pass(w, pack, versions).outputs.len() == pack.len(),
        forall|i: int|
            0 <= i < pack.len() ==> idle(#[trigger] install_pass(w, pack, versions).outputs[i]),
    decreases pack.len(),
{
    if pack.len() > 0 {
        let rest = pack.drop_last();
        assert forall|i: int| 0 <= i < rest.len() implies covered(
            w.files,
            #[trigger] rest[i],
            versions,
        ) by {
            assert(rest[i] == pack[i]);
        }
        lemma_pass_of_covered(w, rest, versions);
        reveal(plan_step);
        assert(covered(w.files, pack[pack.len() - 1], versions));
        let before = install_pass(w, rest, versions);
        let pass = install_pass(w, pack, versions);
        assert forall|i: int| 0 <= i < pack.len() implies idle(#[trigger] pass.outputs[i]) by {
            if i < rest.len() {
                assert(pass.outputs[i] == before.outputs[i]);
            }
        }
    }
}

/// A synchronisation that went through leaves nothing for the next one:
/// run again on what it left, with the same pack and the same answers of
/// the registry, it deletes no file, installs none, fetches nothing, and
/// leaves ledger, directory and cache as they are.
pub proof fn lemma_sync_idempotent(
    w: InstallationView,
    pack: Seq<(Seq<char>, Seq<char>)>,
    versions: Seq<ModrinthModVersion>,
    delete: bool,
)
    requires
        sync_outcome(w, pack, versions, delete).report.failure is None,
    ensures
        ({
            let first = sync_outcome(w, pack, versions, delete);
            let second = sync_outcome(first.world, pack, versions, delete);
            &&& second.world == first.world
            &&& second.report.failure is None
            &&& second.report.deleted_before == Seq::<Seq<char>>::empty()
            &&& second.report.deleted_after == Seq::<Seq<char>>::empty()
            &&& second.report.steps.len() == pack.len()
            &&& forall|i: int| 0 <= i < pack.len() ==> idle(#[trigger] second.report.steps[i])
        }),
{
    let desired = pack.to_set();
    assert forall|i: int| 0 <= i < pack.len() implies desired.contains(#[trigger] pack[i]) by {}
    let first = sync_outcome(w, pack, versions, delete);
    let before = reconciliation(w.ledger, w.files, desired, delete);
    let start = InstallationView { ledger: before.ledger, files: before.files, cache: w.cache };
    lemma_reconciliation_settles(w.ledger, w.files, desired, delete);
    let pass = install_pass(start, pack, versions);
    assert(pass.failure is None);
    lemma_pass_grows(start, pack, versions, desired);
    lemma_reconciliation_of_settled(pass.state.ledger, pass.state.files, desired, delete);
    assert(first.world == pass.state);
    lemma_pass_of_covered(pass.state, pack, versions);
}

/// A synchronisation takes nothing out of the cache, whether it goes
/// through or stops.
pub proof fn lemma_sync_keeps_cache(
    w: InstallationView,
    pack: Seq<(Seq<char>, Seq<char>)>,
    versions: Seq<ModrinthModVersion>,
    delete: bool,
)
    ensures
        w.cache.subset_of(sync_outcome(w, pack, versions, delete).world.cache),
{
    let desired = pack.to_set();
    assert forall|i: int| 0 <= i < pack.len() implies desired.contains(#[trigger] pack[i]) by {}
    let before = reconciliation(w.ledger, w.files, desired, delete);
    let start = InstallationView { ledger: before.ledger, files: before.files, cache: w.cache };
    lemma_pass_grows(start, pack, versions, desired);
}

/// What was installed once is not fetched again: an installed artifact is
/// in the cache from then on, and the installation of an artifact that the
/// cache holds is a hit.
pub proof fn lemma_installed_once(
    w: InstallationView,
    entry: (Seq<char>, Seq<char>),
    version: ModrinthModVersion,
    later: InstallationView,
    again: ModrinthModVersion,
)
    requires
        plan_step(w, version) is Ok,
        plan_step(w, version)->Ok_0 is Installed,
        after_step(w, entry, plan_step(w, version)).cache.subset_of(later.cache),
        plan_step(later, again) is Ok,
        plan_step(later, again)->Ok_0 is Installed,
        plan_step(later, again)->Ok_0->target.key() == plan_step(w, version)->Ok_0->target.key(),
    ensures
        plan_step(later, again)->Ok_0->resolution == Resolution::Hit,
{
    reveal(plan_step);
    let key = plan_step(w, version)->Ok_0->target.key();
    assert(after_step(w, entry, plan_step(w, version)).cache.contains(key));
    assert(later.cache.contains(key));
}

} // verus!
