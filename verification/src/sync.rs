//! The synchronisation of the mods directory with the pack: a
//! reconciliation, the installation of what the pack asks for, and a
//! second reconciliation.

use vstd::prelude::*;
use crate::batch::{lemma_run_extends, lemma_run_none, lemma_run_stops, run, Run};
use crate::download::DownloadError;
use crate::download_cache::{
    resolution, resolve_view, CacheOutcome, DownloadCache, DownloadTarget, DownloadTargetView,
    Resolution,
};
use crate::install_cache::{
    reconciliation, InstallCache, InstalledModView,
};
use crate::modrinth::{
    first_index, get_mod_version, version_named, ModrinthModVersion, PackMod, Registry,
};
use crate::mods_dir::ModsDir;

verus! {

/// What the engine works on: the ledger, the mods directory and the cache.
#[derive(Debug)]
pub struct Installation {
    pub ledger: InstallCache,
    pub mods_dir: ModsDir,
    pub cache: DownloadCache,
}

/// Mathematical value of an [`Installation`].
pub struct InstallationView {
    pub ledger: Seq<InstalledModView>,
    pub files: Set<Seq<char>>,
    pub cache: Set<(Seq<char>, Seq<char>, Seq<char>)>,
}

impl View for Installation {
    type V = InstallationView;

    open spec fn view(&self) -> InstallationView {
        InstallationView { ledger: self.ledger@, files: self.mods_dir@, cache: self.cache@ }
    }
}

/// What was done for one entry of the pack.
#[derive(Debug, PartialEq, Eq)]
pub enum InstallStep {
    /// The version lists no file: the entry is passed over.
    NoFiles,
    /// The file is in the mods directory already.
    Present,
    /// The file was resolved through the cache, copied to the mods
    /// directory under `filename`, and entered in the ledger.
    Installed { target: DownloadTarget, filename: String, outcome: CacheOutcome },
}

/// Mathematical value of an [`InstallStep`].
pub enum StepView {
    NoFiles,
    Present,
    Installed { target: DownloadTargetView, filename: Seq<char>, resolution: Resolution },
}

impl View for InstallStep {
    type V = StepView;

    open spec fn view(&self) -> StepView {
        match self {
            InstallStep::NoFiles => StepView::NoFiles,
            InstallStep::Present => StepView::Present,
            InstallStep::Installed { target, filename, outcome } => StepView::Installed {
                target: target@,
                filename: filename@,
                resolution: resolve_view(Ok(*outcome)),
            },
        }
    }
}

/// Why a synchronisation stopped.
#[derive(Debug, PartialEq, Eq)]
pub enum SyncFailure {
    /// The registry knows no version of this identifier.
    Lookup { version_id: String },
    /// The file to install lists no SHA-1 digest.
    NoDigest { filename: String },
    /// The URL of the file to fetch does not parse.
    InvalidUrl { reason: String },
}

/// Mathematical value of a [`SyncFailure`].
pub enum CauseView {
    Lookup { version_id: Seq<char> },
    NoDigest { filename: Seq<char> },
    InvalidUrl { reason: Seq<char> },
}

impl View for SyncFailure {
    type V = CauseView;

    open spec fn view(&self) -> CauseView {
        match self {
            SyncFailure::Lookup { version_id } => CauseView::Lookup { version_id: version_id@ },
            SyncFailure::NoDigest { filename } => CauseView::NoDigest { filename: filename@ },
            SyncFailure::InvalidUrl { reason } => CauseView::InvalidUrl { reason: reason@ },
        }
    }
}

/// What is done for a pack entry whose version the registry gave as
/// `version`.
///
/// Only the first file of the version counts. Where it is in the mods
/// directory nothing is done; else it is resolved through the cache, which
/// needs its SHA-1 digest and, on a miss, a URL that parses.
#[verifier::opaque]
pub open spec fn plan_step(w: InstallationView, version: ModrinthModVersion) -> Result<
    StepView,
    CauseView,
> {
    if version.files@.len() == 0 {
        Ok(StepView::NoFiles)
    } else {
        let file = version.files@[0];
        if w.files.contains(file.filename@) {
            Ok(StepView::Present)
        } else {
            match file.sha1() {
                None => Err(CauseView::NoDigest { filename: file.filename@ }),
                Some(sha1) => {
                    let target = DownloadTargetView {
                        mod_id: version.mod_id@,
                        version_id: version.id@,
                        sha1,
                        url: file.url@,
                    };
                    match resolution(w.cache, target) {
                        Resolution::Refused(reason) => Err(CauseView::InvalidUrl { reason }),
                        found => Ok(
                            StepView::Installed {
                                target,
                                filename: file.filename@,
                                resolution: found,
                            },
                        ),
                    }
                },
            }
        }
    }
}

/// The installation after `step` was taken for the pack entry `entry`, a
/// slug and the identifier of a version: an installed file is in the
/// directory and in the cache, and the ledger ends with its record.
pub open spec fn after_step(
    w: InstallationView,
    entry: (Seq<char>, Seq<char>),
    step: Result<StepView, CauseView>,
) -> InstallationView {
    match step {
        Ok(StepView::Installed { target, filename, resolution }) => InstallationView {
            ledger: w.ledger.push(
                InstalledModView {
                    mod_slug: entry.0,
                    mod_id: target.mod_id,
                    version_id: entry.1,
                    filename,
                },
            ),
            files: w.files.insert(filename),
            cache: w.cache.insert(target.key()),
        },
        _ => w,
    }
}

/// The character values of what was done for an entry.
pub open spec fn step_view(result: Result<InstallStep, SyncFailure>) -> Result<
    StepView,
    CauseView,
> {
    match result {
        Ok(step) => Ok(step@),
        Err(failure) => Err(failure@),
    }
}

/// What is done for the pack entry `entry`, whose version is looked up
/// among `versions`.
pub open spec fn entry_step(
    w: InstallationView,
    entry: (Seq<char>, Seq<char>),
    versions: Seq<ModrinthModVersion>,
) -> Result<StepView, CauseView> {
    match first_index(versions, version_named(entry.1)) {
        Some(i) => plan_step(w, versions[i]),
        None => Err(CauseView::Lookup { version_id: entry.1 }),
    }
}

/// The step that is taken for one entry of the pack, whose version is
/// looked up among `versions`.
pub open spec fn install_entry(versions: Seq<ModrinthModVersion>) -> spec_fn(
    InstallationView,
    (Seq<char>, Seq<char>),
) -> Result<(InstallationView, StepView), CauseView> {
    |w: InstallationView, entry: (Seq<char>, Seq<char>)|
        match entry_step(w, entry, versions) {
            Ok(step) => Ok((after_step(w, entry, Ok(step)), step)),
            Err(cause) => Err(cause),
        }
}

/// The installation pass over the entries `pack`, one after the other, up
/// to the first that fails: where it leaves the installation, the steps
/// it took, and why it stopped, if it did.
pub open spec fn install_pass(
    w: InstallationView,
    pack: Seq<(Seq<char>, Seq<char>)>,
    versions: Seq<ModrinthModVersion>,
) -> Run<InstallationView, StepView, CauseView> {
    run(w, pack, install_entry(versions))
}

/// What a synchronisation did: the files that the first reconciliation
/// deleted, the steps of the installation pass, the files that the second
/// reconciliation deleted, and why it stopped, if it did.
#[derive(Debug)]
pub struct SyncReport {
    pub deleted_before: Vec<String>,
    pub steps: Vec<InstallStep>,
    pub deleted_after: Vec<String>,
    pub failure: Option<SyncFailure>,
}

/// Mathematical value of a [`SyncReport`].
pub struct SyncReportView {
    pub deleted_before: Seq<Seq<char>>,
    pub steps: Seq<StepView>,
    pub deleted_after: Seq<Seq<char>>,
    pub failure: Option<CauseView>,
}

/// The values of `steps`.
pub open spec fn steps_view(steps: Seq<InstallStep>) -> Seq<StepView> {
    steps.map_values(|step: InstallStep| step@)
}

impl View for SyncReport {
    type V = SyncReportView;

    open spec fn view(&self) -> SyncReportView {
        SyncReportView {
            deleted_before: self.deleted_before.deep_view(),
            steps: steps_view(self.steps@),
            deleted_after: self.deleted_after.deep_view(),
            failure: match self.failure {
                Some(failure) => Some(failure@),
                None => None,
            },
        }
    }
}

/// A synchronisation: where it leaves the installation, and its report.
pub struct SyncOutcome {
    pub world: InstallationView,
    pub report: SyncReportView,
}

/// The synchronisation of the installation `w` with the pack `pack`, whose
/// versions are looked up among `versions`.
///
/// The ledger is reconciled, then the entries of the pack are installed in
/// order, up to the first that fails. Where none fails, the ledger is
/// reconciled again.
pub open spec fn sync_outcome(
    w: InstallationView,
    pack: Seq<(Seq<char>, Seq<char>)>,
    versions: Seq<ModrinthModVersion>,
    delete: bool,
) -> SyncOutcome {
    let before = reconciliation(w.ledger, w.files, pack.to_set(), delete);
    let reconciled = InstallationView { ledger: before.ledger, files: before.files, cache: w.cache };
    let pass = install_pass(reconciled, pack, versions);
    if pass.failure is Some {
        SyncOutcome {
            world: pass.state,
            report: SyncReportView {
                deleted_before: before.deleted,
                steps: pass.outputs,
                deleted_after: Seq::empty(),
                failure: pass.failure,
            },
        }
    } else {
        let after = reconciliation(pass.state.ledger, pass.state.files, pack.to_set(), delete);
        SyncOutcome {
            world: InstallationView {
                ledger: after.ledger,
                files: after.files,
                cache: pass.state.cache,
            },
            report: SyncReportView {
                deleted_before: before.deleted,
                steps: pass.outputs,
                deleted_after: after.deleted,
                failure: None,
            },
        }
    }
}

/// A copy of `pairs`.
pub fn copy_pairs(pairs: &Vec<(String, String)>) -> (copy: Vec<(String, String)>)
    ensures
        copy.deep_view() == pairs.deep_view(),
{
    let mut copy: Vec<(String, String)> = Vec::new();
    let mut i: usize = 0;
    while i < pairs.len()
        invariant
            i <= pairs.len(),
            copy.deep_view() == pairs.deep_view().take(i as int),
        decreases pairs.len() - i,
    {
        let ghost before = copy.deep_view();
        copy.push((pairs[i].0.clone(), pairs[i].1.clone()));
        assert(copy.deep_view() =~= before.push(pairs.deep_view()[i as int]));
        assert(pairs.deep_view().take(i + 1) =~= before.push(pairs.deep_view()[i as int]));
        i += 1;
    }
    assert(pairs.deep_view().take(pairs.len() as int) =~= pairs.deep_view());
    copy
}

impl Installation {
    /// Installs the first file of `version` for the pack entry of the mod
    /// `mod_slug` in the version `version_id`, unless it is in the mods
    /// directory already.
    pub fn install(
        &mut self,
        mod_slug: &String,
        version_id: &String,
        version: &ModrinthModVersion,
    ) -> (result: Result<InstallStep, SyncFailure>)
        ensures
            step_view(result) == plan_step(old(self)@, *version),
            final(self)@ == after_step(
                old(self)@,
                (mod_slug@, version_id@),
                plan_step(old(self)@, *version),
            ),
    {
        reveal(plan_step);
        if version.files.len() == 0 {
            return Ok(InstallStep::NoFiles);
        }
        let file = &version.files[0];
        if self.mods_dir.contains(&file.filename) {
            return Ok(InstallStep::Present);
        }
        let target = match DownloadTarget::for_file(version, file) {
            Some(target) => target,
            None => {
                return Err(SyncFailure::NoDigest { filename: file.filename.clone() });
            },
        };
        match self.cache.copy_from_cache(&target, &mut self.mods_dir, &file.filename) {
            Ok(outcome) => {
                self.ledger.add_mod(
                    &PackMod::new(version.mod_id.clone(), mod_slug.clone(), version_id.clone()),
                    &file.filename,
                );
                Ok(InstallStep::Installed { target, filename: file.filename.clone(), outcome })
            },
            Err(DownloadError::InvalidUrl { reason }) => Err(SyncFailure::InvalidUrl { reason }),
        }
    }

    /// Brings the installation into agreement with the pack.
    ///
    /// `pack_mods` pairs each slug of the pack with the identifier of the
    /// version that the pack asks for. With `no_delete` the files of the
    /// mods that left the pack stay on disk.
    pub fn sync_pack(
        &mut self,
        pack_mods: &Vec<(String, String)>,
        registry: &Registry,
        no_delete: bool,
    ) -> (report: SyncReport)
        ensures
            final(self)@ == sync_outcome(
                old(self)@,
                pack_mods.deep_view(),
                registry.versions@,
                !no_delete,
            ).world,
            report@ == sync_outcome(
                old(self)@,
                pack_mods.deep_view(),
                registry.versions@,
                !no_delete,
            ).report,
    {
        let ghost pack = pack_mods.deep_view();
        let ghost versions = registry.versions@;
        let ghost start = self@;
        let mut steps: Vec<InstallStep> = Vec::new();
        assert(steps_view(steps@) =~= Seq::<StepView>::empty());
        let deleted_before = self.ledger.cleanup(
            &mut self.mods_dir,
            copy_pairs(pack_mods),
            !no_delete,
        );
        let ghost reconciled = self@;
        let ghost first = reconciliation(start.ledger, start.files, pack.to_set(), !no_delete);
        proof {
            lemma_run_none(reconciled, pack, install_entry(versions));
        }
        let mut i: usize = 0;
        while i < pack_mods.len()
            invariant
                i <= pack_mods.len(),
                pack == pack_mods.deep_view(),
                versions == registry.versions@,
                start == old(self)@,
                first == reconciliation(start.ledger, start.files, pack.to_set(), !no_delete),
                deleted_before.deep_view() == first.deleted,
                reconciled == (InstallationView {
                    ledger: first.ledger,
                    files: first.files,
                    cache: start.cache,
                }),
                install_pass(reconciled, pack.take(i as int), versions) == (Run::<
                    InstallationView,
                    StepView,
                    CauseView,
                > { state: self@, outputs: steps_view(steps@), failure: None }),
            decreases pack_mods.len() - i,
        {
            let ghost before = self@;
            let ghost taken = steps_view(steps@);
            let ghost entry = pack[i as int];
            proof {
                lemma_run_extends(reconciled, pack, install_entry(versions), i as int);
                assert(entry == (pack_mods[i as int].0@, pack_mods[i as int].1@));
            }
            let result = match get_mod_version(registry, pack_mods[i].1.as_str()) {
                Some(version) => self.install(&pack_mods[i].0, &pack_mods[i].1, version),
                None => Err(SyncFailure::Lookup { version_id: pack_mods[i].1.clone() }),
            };
            assert(step_view(result) == entry_step(before, entry, versions));
            match result {
                Ok(step) => {
                    steps.push(step);
                    assert(steps_view(steps@) =~= taken.push(step@));
                },
                Err(failure) => {
                    proof {
                        lemma_run_stops(reconciled, pack, install_entry(versions), i + 1);
                    }
                    let deleted_after: Vec<String> = Vec::new();
                    assert(deleted_after.deep_view() =~= Seq::<Seq<char>>::empty());
                    return SyncReport { deleted_before, steps, deleted_after, failure: Some(failure) };
                },
            }
            i += 1;
        }
        assert(pack.take(pack.len() as int) =~= pack);
        let deleted_after = self.ledger.cleanup(
            &mut self.mods_dir,
            copy_pairs(pack_mods),
            !no_delete,
        );
        SyncReport { deleted_before, steps, deleted_after, failure: None }
    }
}

} // verus!
