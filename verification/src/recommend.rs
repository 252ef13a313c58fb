//! The bookkeeping of the recommendation engine: which folders a rebuild
//! embeds anew, what it counts and when it reports, and which candidates a
//! scoring compares with the viewing history.
//!
//! A rebuild is one job at a time. It walks the subfolders of a directory,
//! skips those that did not change since they were embedded, and counts what
//! it did. The caller does the work on the folders and tells the job how each
//! one ended.

use crate::database::{bytes_view, embedded, record_view, FolderRecord, FolderRecordView};
use crate::embedding_service::EmbeddingGuard;
use vstd::prelude::*;

verus! {

/// After how many embedded folders a rebuild reports its progress.
pub const PROGRESS_EVERY_EMBEDDED: usize = 10;

/// After how many folders of any outcome a rebuild reports its progress.
pub const PROGRESS_EVERY_VISITED: usize = 100;

/// How many of the folders viewed last make up the viewing history.
pub const HISTORY_LIMIT: usize = 20;

/// Why a rebuild did not start.
#[derive(Debug, Clone, Copy, PartialEq, Eq, Structural)]
pub enum RebuildError {
    /// A rebuild is running; this one is refused, not queued.
    AlreadyInProgress,
    /// The directory has no subfolder.
    NoFoldersFound,
}

/// Where a rebuild stands.
#[derive(Debug, Clone, Copy, PartialEq, Eq, Structural)]
pub enum RebuildPhase {
    Running,
    Completed,
    Failed,
}

/// What a rebuild does with a folder.
#[derive(Debug, Clone, Copy, PartialEq, Eq, Structural)]
pub enum FolderAction {
    /// The folder did not change: nothing is computed and nothing stored.
    SkipUnchanged,
    /// The folder is embedded anew and its record written.
    Embed,
}

/// How the work on one folder ended.
#[derive(Debug, Clone, Copy, PartialEq, Eq, Structural)]
pub enum FolderOutcome {
    /// The folder was skipped as unchanged.
    Unchanged,
    /// The folder was embedded and its record written.
    Embedded,
    /// The folder has no image, or reading or embedding it failed.
    Failed,
}

/// The counters of a rebuild.
#[derive(Debug, Clone, Copy, PartialEq, Eq, Structural)]
pub struct RebuildProgress {
    pub processed: usize,
    pub total: usize,
    pub skipped_unchanged: usize,
    pub skipped_error: usize,
}

/// What a rebuild reports when it ends.
#[derive(Debug, Clone, Copy, PartialEq, Eq, Structural)]
pub struct RebuildSummary {
    pub processed: usize,
    pub skipped_unchanged: usize,
    pub skipped_error: usize,
}

/// A rebuild job.
#[derive(Debug)]
pub struct RebuildJob {
    phase: RebuildPhase,
    force: bool,
    counters: RebuildProgress,
}

/// Whether a folder is embedded anew: always when the rebuild is forced, else
/// when it was never embedded or changed after it was.
pub open spec fn is_stale(force: bool, modified_at: i64, stored: Option<i64>) -> bool {
    force || match stored {
        None => true,
        Some(at) => modified_at > at,
    }
}

/// The number of folders that a rebuild with these counters has visited.
pub open spec fn visited(counters: RebuildProgress) -> nat {
    (counters.processed + counters.skipped_unchanged + counters.skipped_error) as nat
}

/// The counters after one more folder with the given outcome.
pub open spec fn counted(counters: RebuildProgress, outcome: FolderOutcome) -> RebuildProgress {
    match outcome {
        FolderOutcome::Unchanged => RebuildProgress {
            skipped_unchanged: (counters.skipped_unchanged + 1) as usize,
            ..counters
        },
        FolderOutcome::Embedded => RebuildProgress {
            processed: (counters.processed + 1) as usize,
            ..counters
        },
        FolderOutcome::Failed => RebuildProgress {
            skipped_error: (counters.skipped_error + 1) as usize,
            ..counters
        },
    }
}

/// Whether a rebuild reports after the folder that brought the counters to
/// `counters`: after every tenth embedded folder, and after every hundredth
/// folder of any outcome.
pub open spec fn reports(counters: RebuildProgress, outcome: FolderOutcome) -> bool {
    (outcome == FolderOutcome::Embedded && counters.processed % PROGRESS_EVERY_EMBEDDED == 0)
        || visited(counters) % (PROGRESS_EVERY_VISITED as nat) == 0
}

/// Decides [`is_stale`].
pub fn folder_action(force: bool, modified_at: i64, stored: Option<i64>) -> (action: FolderAction)
    ensures
        action == if is_stale(force, modified_at, stored) {
            FolderAction::Embed
        } else {
            FolderAction::SkipUnchanged
        },
        force ==> action == FolderAction::Embed,
        !force && stored.is_some() && stored.unwrap() >= modified_at ==> action
            == FolderAction::SkipUnchanged,
{
    if force {
        FolderAction::Embed
    } else {
        match stored {
            None => FolderAction::Embed,
            Some(at) => if modified_at > at {
                FolderAction::Embed
            } else {
                FolderAction::SkipUnchanged
            },
        }
    }
}

impl RebuildJob {
    /// Where the job stands.
    pub closed spec fn phase(&self) -> RebuildPhase {
        self.phase
    }

    /// Whether the job embeds every folder anew.
    pub closed spec fn force(&self) -> bool {
        self.force
    }

    /// The counters of the job.
    pub closed spec fn counters(&self) -> RebuildProgress {
        self.counters
    }

    /// A job never visits more folders than it was started for.
    pub closed spec fn wf(&self) -> bool {
        visited(self.counters) <= self.counters.total
    }

    /// Starts a rebuild over `total` folders. While another rebuild is
    /// running this one is refused and the guard stays set. A directory
    /// without subfolders starts none and leaves the guard clear.
    pub fn start(guard: &mut EmbeddingGuard, total: usize, force: bool) -> (started: Result<
        RebuildJob,
        RebuildError,
    >)
        ensures
            old(guard).processing() ==> started == Err::<RebuildJob, RebuildError>(
                RebuildError::AlreadyInProgress,
            ) && final(guard).processing(),
            !old(guard).processing() && total == 0 ==> started == Err::<RebuildJob, RebuildError>(
                RebuildError::NoFoldersFound,
            ) && !final(guard).processing(),
            !old(guard).processing() && total > 0 ==> final(guard).processing() && (
            started matches Ok(job) && job.wf() && job.phase() == RebuildPhase::Running
                && job.force() == force && job.counters() == (RebuildProgress {
                processed: 0,
                total,
                skipped_unchanged: 0,
                skipped_error: 0,
            })),
    {
        if guard.is_processing() {
            Err(RebuildError::AlreadyInProgress)
        } else if total == 0 {
            Err(RebuildError::NoFoldersFound)
        } else {
            guard.set_processing(true);
            Ok(
                RebuildJob {
                    phase: RebuildPhase::Running,
                    force,
                    counters: RebuildProgress {
                        processed: 0,
                        total,
                        skipped_unchanged: 0,
                        skipped_error: 0,
                    },
                },
            )
        }
    }

    /// The counters of the job.
    pub fn progress(&self) -> (counters: RebuildProgress)
        ensures
            counters == self.counters(),
    {
        self.counters
    }

    /// Whether the job has folders left to visit.
    pub fn has_remaining(&self) -> (remaining: bool)
        requires
            self.wf(),
        ensures
            remaining == (self.phase() == RebuildPhase::Running && visited(self.counters())
                < self.counters().total),
    {
        match self.phase {
            RebuildPhase::Running => {
                let c = self.counters;
                c.total - c.processed - c.skipped_unchanged - c.skipped_error > 0
            },
            _ => false,
        }
    }

    /// Decides what the job does with a folder from the folder's modification
    /// time and the one stored when it was last embedded.
    pub fn action_for(&self, modified_at: i64, stored: Option<i64>) -> (action: FolderAction)
        ensures
            action == if is_stale(self.force(), modified_at, stored) {
                FolderAction::Embed
            } else {
                FolderAction::SkipUnchanged
            },
    {
        folder_action(self.force, modified_at, stored)
    }

    /// Counts a folder with its outcome. Returns the counters where the job
    /// reports its progress after this folder.
    pub fn record(&mut self, outcome: FolderOutcome) -> (report: Option<RebuildProgress>)
        requires
            old(self).wf(),
            old(self).phase() == RebuildPhase::Running,
            visited(old(self).counters()) < old(self).counters().total,
        ensures
            final(self).wf(),
            final(self).phase() == RebuildPhase::Running,
            final(self).force() == old(self).force(),
            final(self).counters() == counted(old(self).counters(), outcome),
            visited(final(self).counters()) == visited(old(self).counters()) + 1,
            report == if reports(final(self).counters(), outcome) {
                Some(final(self).counters())
            } else {
                None
            },
    {
        match outcome {
            FolderOutcome::Unchanged => {
                self.counters.skipped_unchanged = self.counters.skipped_unchanged + 1;
            },
            FolderOutcome::Embedded => {
                self.counters.processed = self.counters.processed + 1;
            },
            FolderOutcome::Failed => {
                self.counters.skipped_error = self.counters.skipped_error + 1;
            },
        }
        let c = self.counters;
        let seen: usize = c.processed + c.skipped_unchanged + c.skipped_error;
        let embedded = match outcome {
            FolderOutcome::Embedded => true,
            _ => false,
        };
        if (embedded && c.processed % PROGRESS_EVERY_EMBEDDED == 0) || seen
            % PROGRESS_EVERY_VISITED == 0 {
            Some(c)
        } else {
            None
        }
    }

    /// Settles the visit of one folder. `stored` is the folder's record, if
    /// it has one, and `work` what embedding the folder brought, `None` where
    /// it failed or was not tried. The folder is counted with its outcome,
    /// and its record changes only where the folder was stale and the work
    /// succeeded.
    pub fn settle(
        &mut self,
        stored: Option<FolderRecord>,
        path: &str,
        modified_at: i64,
        work: Option<FolderEmbedding>,
        version: i32,
        now: i64,
    ) -> (settled: Settled)
        requires
            old(self).wf(),
            old(self).phase() == RebuildPhase::Running,
            visited(old(self).counters()) < old(self).counters().total,
        ensures
            final(self).wf(),
            final(self).phase() == RebuildPhase::Running,
            final(self).force() == old(self).force(),
            settled.outcome == visit_outcome(
                old(self).force(),
                modified_at,
                record_view(stored),
                work.is_some(),
            ),
            record_view(settled.record) == visited_record(
                record_view(stored),
                path@,
                old(self).force(),
                modified_at,
                work_view(work),
                version,
                now,
            ),
            final(self).counters() == counted(old(self).counters(), settled.outcome),
            settled.report == if reports(final(self).counters(), settled.outcome) {
                Some(final(self).counters())
            } else {
                None
            },
    {
        let stored_at = match &stored {
            Some(r) => r.folder_modified_at,
            None => None,
        };
        match self.action_for(modified_at, stored_at) {
            FolderAction::SkipUnchanged => {
                let report = self.record(FolderOutcome::Unchanged);
                Settled { record: stored, outcome: FolderOutcome::Unchanged, report }
            },
            FolderAction::Embed => match work {
                None => {
                    let report = self.record(FolderOutcome::Failed);
                    Settled { record: stored, outcome: FolderOutcome::Failed, report }
                },
                Some(w) => {
                    let record = FolderRecord::upsert_folder_embedding(
                        stored,
                        path,
                        w.thumbnail,
                        w.embedding,
                        version,
                        modified_at,
                        now,
                    );
                    let report = self.record(FolderOutcome::Embedded);
                    Settled { record: Some(record), outcome: FolderOutcome::Embedded, report }
                },
            },
        }
    }

    /// Ends the job after its last folder: the guard is cleared and the
    /// counters are reported.
    pub fn finish(&mut self, guard: &mut EmbeddingGuard) -> (summary: RebuildSummary)
        ensures
            !final(guard).processing(),
            final(self).wf() == old(self).wf(),
            final(self).phase() == RebuildPhase::Completed,
            final(self).counters() == old(self).counters(),
            final(self).force() == old(self).force(),
            summary == (RebuildSummary {
                processed: old(self).counters().processed,
                skipped_unchanged: old(self).counters().skipped_unchanged,
                skipped_error: old(self).counters().skipped_error,
            }),
    {
        guard.set_processing(false);
        self.phase = RebuildPhase::Completed;
        RebuildSummary {
            processed: self.counters.processed,
            skipped_unchanged: self.counters.skipped_unchanged,
            skipped_error: self.counters.skipped_error,
        }
    }

    /// Ends the job on a failure of the whole rebuild: the guard is cleared.
    pub fn fail(&mut self, guard: &mut EmbeddingGuard)
        ensures
            !final(guard).processing(),
            final(self).wf() == old(self).wf(),
            final(self).phase() == RebuildPhase::Failed,
            final(self).counters() == old(self).counters(),
            final(self).force() == old(self).force(),
    {
        guard.set_processing(false);
        self.phase = RebuildPhase::Failed;
    }
}

/// What the work on a folder brought: the thumbnail of its first image,
/// where one was made, and the embedding of that image as bytes.
#[derive(Debug)]
pub struct FolderEmbedding {
    pub thumbnail: Option<Vec<u8>>,
    pub embedding: Vec<u8>,
}

/// The mathematical value of what the work on a folder brought.
pub struct FolderEmbeddingView {
    pub thumbnail: Option<Seq<u8>>,
    pub embedding: Seq<u8>,
}

/// The value of the work on a folder; `None` where the work failed.
pub open spec fn work_view(work: Option<FolderEmbedding>) -> Option<FolderEmbeddingView> {
    match work {
        Some(w) => Some(
            FolderEmbeddingView { thumbnail: bytes_view(w.thumbnail), embedding: w.embedding@ },
        ),
        None => None,
    }
}

/// The modification time stored when a folder was last embedded.
pub open spec fn stored_time(stored: Option<FolderRecordView>) -> Option<i64> {
    match stored {
        Some(r) => r.folder_modified_at,
        None => None,
    }
}

/// How the visit of a folder ends: a folder that is not stale is left
/// unchanged, whatever work was done; a stale one is embedded where the work
/// on it succeeded.
pub open spec fn visit_outcome(
    force: bool,
    modified_at: i64,
    stored: Option<FolderRecordView>,
    worked: bool,
) -> FolderOutcome {
    if !is_stale(force, modified_at, stored_time(stored)) {
        FolderOutcome::Unchanged
    } else if worked {
        FolderOutcome::Embedded
    } else {
        FolderOutcome::Failed
    }
}

/// The record of a folder after its visit: only a stale folder on which the
/// work succeeded gets a new one.
pub open spec fn visited_record(
    stored: Option<FolderRecordView>,
    path: Seq<char>,
    force: bool,
    modified_at: i64,
    work: Option<FolderEmbeddingView>,
    version: i32,
    now: i64,
) -> Option<FolderRecordView> {
    match work {
        Some(w) if is_stale(force, modified_at, stored_time(stored)) => Some(
            embedded(stored, path, w.thumbnail, w.embedding, version, modified_at, now),
        ),
        _ => stored,
    }
}

/// What the visit of a folder leaves behind.
#[derive(Debug)]
pub struct Settled {
    /// The record of the folder after the visit.
    pub record: Option<FolderRecord>,
    /// How the visit ended; the record is written where it is `Embedded`.
    pub outcome: FolderOutcome,
    /// The counters, where the job reports its progress after this folder.
    pub report: Option<RebuildProgress>,
}

/// A folder whose stored modification time is not older than its own is
/// left as it is by a rebuild that is not forced: it counts as unchanged, and
/// its record, the embedding with it, stays. A forced rebuild embeds it anew
/// where the work on it succeeds.
pub proof fn lemma_unchanged_folder_is_kept(
    stored: FolderRecordView,
    path: Seq<char>,
    modified_at: i64,
    work: Option<FolderEmbeddingView>,
    version: i32,
    now: i64,
)
    requires
        stored.folder_modified_at matches Some(at) && at >= modified_at,
    ensures
        visit_outcome(false, modified_at, Some(stored), work.is_some()) == FolderOutcome::Unchanged,
        visited_record(Some(stored), path, false, modified_at, work, version, now) == Some(stored),
        work matches Some(w) ==> visit_outcome(true, modified_at, Some(stored), true)
            == FolderOutcome::Embedded && visited_record(
            Some(stored),
            path,
            true,
            modified_at,
            work,
            version,
            now,
        ) == Some(embedded(Some(stored), path, w.thumbnail, w.embedding, version, modified_at, now)),
{
}

/// One folder as a rebuild meets it: its record, its modification time, and
/// what the work on it brings.
pub struct FolderVisit {
    pub stored: Option<FolderRecordView>,
    pub path: Seq<char>,
    pub modified_at: i64,
    pub work: Option<FolderEmbeddingView>,
    pub now: i64,
}

/// The outcomes of a rebuild over `visits`, folder by folder.
pub open spec fn run_outcomes(visits: Seq<FolderVisit>, force: bool) -> Seq<FolderOutcome> {
    Seq::new(
        visits.len(),
        |i: int|
            visit_outcome(force, visits[i].modified_at, visits[i].stored, visits[i].work.is_some()),
    )
}

/// The records that a rebuild over `visits` leaves, folder by folder.
pub open spec fn run_records(visits: Seq<FolderVisit>, force: bool, version: i32) -> Seq<
    Option<FolderRecordView>,
> {
    Seq::new(
        visits.len(),
        |i: int|
            visited_record(
                visits[i].stored,
                visits[i].path,
                force,
                visits[i].modified_at,
                visits[i].work,
                version,
                visits[i].now,
            ),
    )
}

/// The counters of a rebuild over `total` folders after the given outcomes.
pub open spec fn tally(total: usize, outcomes: Seq<FolderOutcome>) -> RebuildProgress
    decreases outcomes.len(),
{
    if outcomes.len() == 0 {
        RebuildProgress { processed: 0, total, skipped_unchanged: 0, skipped_error: 0 }
    } else {
        counted(tally(total, outcomes.drop_last()), outcomes.last())
    }
}

/// Whether the rebuild over `second` meets the folders as the rebuild over
/// `first` left them: the same folders with the same modification times, and
/// the records that the first rebuild wrote.
pub open spec fn follows(
    first: Seq<FolderVisit>,
    force: bool,
    version: i32,
    second: Seq<FolderVisit>,
) -> bool {
    &&& second.len() == first.len()
    &&& forall|i: int|
        0 <= i < first.len() ==> (#[trigger] second[i]).modified_at == first[i].modified_at
            && second[i].stored == run_records(first, force, version)[i]
}

/// A rebuild in which nothing is stale counts every folder as unchanged.
pub proof fn lemma_tally_of_unchanged(total: usize, outcomes: Seq<FolderOutcome>)
    requires
        outcomes.len() <= usize::MAX,
        forall|i: int| 0 <= i < outcomes.len() ==> outcomes[i] == FolderOutcome::Unchanged,
    ensures
        tally(total, outcomes) == (RebuildProgress {
            processed: 0,
            total,
            skipped_unchanged: outcomes.len() as usize,
            skipped_error: 0,
        }),
    decreases outcomes.len(),
{
    if outcomes.len() > 0 {
        lemma_tally_of_unchanged(total, outcomes.drop_last());
    }
}

/// After a rebuild in which no folder failed, a second rebuild that is not
/// forced and meets the folders unchanged embeds nothing: every folder counts
/// as unchanged.
pub proof fn lemma_second_rebuild_skips_all(
    first: Seq<FolderVisit>,
    force: bool,
    version: i32,
    second: Seq<FolderVisit>,
)
    requires
        first.len() <= usize::MAX,
        follows(first, force, version, second),
        forall|i: int|
            0 <= i < first.len() ==> run_outcomes(first, force)[i] != FolderOutcome::Failed,
    ensures
        tally(first.len() as usize, run_outcomes(second, false)) == (RebuildProgress {
            processed: 0,
            total: first.len() as usize,
            skipped_unchanged: first.len() as usize,
            skipped_error: 0,
        }),
        run_records(second, false, version) == run_records(first, force, version),
{
    let outcomes = run_outcomes(second, false);
    assert forall|i: int| 0 <= i < outcomes.len() implies outcomes[i]
        == FolderOutcome::Unchanged by {
        assert(run_outcomes(first, force)[i] != FolderOutcome::Failed);
        assert(second[i].stored == run_records(first, force, version)[i]);
    }
    lemma_tally_of_unchanged(first.len() as usize, outcomes);
    assert(run_records(second, false, version) =~= run_records(first, force, version)) by {
        assert forall|i: int| 0 <= i < first.len() implies run_records(second, false, version)[i]
            == run_records(first, force, version)[i] by {
            assert(outcomes[i] == FolderOutcome::Unchanged);
            assert(second[i].stored == run_records(first, force, version)[i]);
        }
    }
}

/// A folder of a directory with its modification time and the time stored
/// when it was last embedded.
pub struct FolderState {
    pub modified_at: i64,
    pub stored: Option<i64>,
}

/// The number of folders among the first `n` that a rebuild embeds anew.
pub open spec fn stale_count(folders: Seq<FolderState>, force: bool, n: nat) -> nat
    decreases n,
{
    if n == 0 {
        0
    } else {
        stale_count(folders, force, (n - 1) as nat) + if is_stale(
            force,
            folders[n - 1].modified_at,
            folders[n - 1].stored,
        ) {
            1nat
        } else {
            0nat
        }
    }
}

/// A rebuild that is not forced embeds no folder whose stored time is not
/// older than its modification time; a forced rebuild embeds every folder.
pub proof fn lemma_rebuild_skips_unchanged(folders: Seq<FolderState>, force: bool, n: nat)
    requires
        n <= folders.len(),
    ensures
        stale_count(folders, force, n) <= n,
        force ==> stale_count(folders, force, n) == n,
        !force && (forall|i: int|
            0 <= i < n ==> (#[trigger] folders[i]).stored.is_some() && folders[i].stored.unwrap()
                >= folders[i].modified_at) ==> stale_count(folders, force, n) == 0,
    decreases n,
{
    if n > 0 {
        lemma_rebuild_skips_unchanged(folders, force, (n - 1) as nat);
    }
}

/// The positions of the folders that a rebuild embeds anew, in order; the
/// others are skipped as unchanged.
pub fn stale_positions(folders: &Vec<FolderState>, force: bool) -> (stale: Vec<usize>)
    ensures
        stale@.len() == stale_count(folders@, force, folders@.len()),
        forall|k: int|
            0 <= k < stale@.len() ==> (#[trigger] stale@[k]) < folders@.len() && is_stale(
                force,
                folders@[stale@[k] as int].modified_at,
                folders@[stale@[k] as int].stored,
            ),
        forall|k: int, l: int| 0 <= k < l < stale@.len() ==> stale@[k] < stale@[l],
        forall|i: int|
            0 <= i < folders@.len() && is_stale(
                force,
                (#[trigger] folders@[i]).modified_at,
                folders@[i].stored,
            ) ==> exists|k: int| 0 <= k < stale@.len() && stale@[k] == i,
{
    let mut stale: Vec<usize> = Vec::new();
    let mut i: usize = 0;
    while i < folders.len()
        invariant
            i <= folders@.len(),
            stale@.len() == stale_count(folders@, force, i as nat),
            forall|k: int|
                0 <= k < stale@.len() ==> (#[trigger] stale@[k]) < i && is_stale(
                    force,
                    folders@[stale@[k] as int].modified_at,
                    folders@[stale@[k] as int].stored,
                ),
            forall|k: int, l: int| 0 <= k < l < stale@.len() ==> stale@[k] < stale@[l],
            forall|j: int|
                0 <= j < i && is_stale(
                    force,
                    (#[trigger] folders@[j]).modified_at,
                    folders@[j].stored,
                ) ==> exists|k: int| 0 <= k < stale@.len() && stale@[k] == j,
        decreases folders@.len() - i,
    {
        let ghost before = stale@;
        match folder_action(force, folders[i].modified_at, folders[i].stored) {
            FolderAction::Embed => {
                stale.push(i);
                assert forall|j: int|
                    0 <= j < i + 1 && is_stale(
                        force,
                        (#[trigger] folders@[j]).modified_at,
                        folders@[j].stored,
                    ) implies exists|k: int| 0 <= k < stale@.len() && stale@[k] == j by {
                    if j < i {
                        let k = choose|k: int| 0 <= k < before.len() && before[k] == j;
                        assert(stale@[k] == j);
                    } else {
                        assert(stale@[stale@.len() - 1] == j);
                    }
                }
            },
            FolderAction::SkipUnchanged => {},
        }
        i = i + 1;
    }
    stale
}

/// Which parts of a candidate's score are computed.
#[derive(Debug, Clone, Copy, PartialEq, Eq, Structural)]
pub struct ScoreTerms {
    /// The similarity of the image embedding with the history's average.
    pub image: bool,
    /// The similarity of the path embedding with the history's average.
    pub path: bool,
}

/// Whether candidates are compared with the viewing history at all: the
/// embedding service has to be there, and a history with embeddings.
pub fn has_basis(service_available: bool, history_len: usize) -> (basis: bool)
    ensures
        basis == (service_available && history_len > 0),
{
    service_available && history_len > 0
}

/// Decides the parts of a candidate's score. Without a basis no part is
/// computed, whatever the candidate has stored: its score is zero. With one,
/// a candidate with an image embedding has that part, and the path part too
/// where the candidate and the history both have path embeddings.
pub fn score_terms(
    basis: bool,
    has_image_embedding: bool,
    has_path_embedding: bool,
    history_has_paths: bool,
) -> (terms: ScoreTerms)
    ensures
        terms.image == (basis && has_image_embedding),
        terms.path == (basis && has_image_embedding && has_path_embedding && history_has_paths),
        !basis ==> !terms.image && !terms.path,
{
    let image = basis && has_image_embedding;
    ScoreTerms { image, path: image && has_path_embedding && history_has_paths }
}

/// How many records of the history are averaged: the most recent ones, up to
/// [`HISTORY_LIMIT`].
pub fn history_len(viewed_with_embeddings: usize) -> (n: usize)
    ensures
        n == if viewed_with_embeddings < HISTORY_LIMIT {
            viewed_with_embeddings
        } else {
            HISTORY_LIMIT
        },
{
    if viewed_with_embeddings < HISTORY_LIMIT {
        viewed_with_embeddings
    } else {
        HISTORY_LIMIT
    }
}

} // verus!
