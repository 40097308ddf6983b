//! The rotation manager: size/age triggers, archive swap, retention.
//!
//! The periodic scan asks, for each tracked daemon, whether its active file
//! is due; a due file is rotated and the archives pruned, through the same
//! storage backend that serializes ordinary appends, so no record can land
//! in a half-rotated file.  The driving loop (timer and file-system calls)
//! lives outside; it measures the file and performs the returned actions.

use vstd::prelude::*;

verus! {

use crate::config::ServerConfig;
use crate::storage::FileView;
use crate::storage::RotatePlan;
use crate::storage::StorageBackend;
use crate::storage::archive_name_spec;
use crate::storage::daemon_view;
use crate::storage::file_index;
use crate::storage::prune_upsert;
use crate::storage::prune_view;
use crate::storage::rotate_upsert;
use crate::storage::rotate_view;

/// Log rotation manager.
pub struct LogRotator {
    /// The configuration the rotator enforces.
    pub config: ServerConfig,
}

/// Whether a file with the given size and age is due for rotation under a
/// configuration: rotation must be enabled and a threshold exceeded.
pub open spec fn rotation_due(cfg: ServerConfig, size_bytes: u64, age_hours: u64) -> bool {
    cfg.storage.rotation.enabled && (size_bytes > cfg.storage.max_file_size || age_hours
        > cfg.storage.rotation.max_age_hours as u64)
}

impl LogRotator {
    /// Create a new log rotator for a configuration.
    pub fn new(config: &ServerConfig) -> (r: LogRotator)
        ensures
            r.config == *config,
    {
        LogRotator { config: config.duplicate() }
    }

    /// Whether a file of this size and age must be rotated now.  With
    /// rotation disabled, never.
    pub fn should_rotate(&self, size_bytes: u64, age_hours: u64) -> (r: bool)
        ensures
            r == rotation_due(self.config, size_bytes, age_hours),
    {
        self.config.storage.rotation.enabled && (size_bytes > self.config.storage.max_file_size
            || age_hours > self.config.storage.rotation.max_age_hours as u64)
    }

    /// One scan tick for one daemon: if the measured size or age makes the
    /// file due, rotate it into an archive named with `suffix` and prune to
    /// the retention count.  Returns the rename to perform and the archive
    /// paths to delete, or nothing when the file was not due or the daemon
    /// has no file.
    pub fn scan_daemon(
        &self,
        storage: &mut StorageBackend,
        daemon: &str,
        size_bytes: u64,
        age_hours: u64,
        suffix: &str,
    ) -> (r: Option<(RotatePlan, Vec<String>)>)
        requires
            old(storage).wf(),
        ensures
            final(storage).wf(),
            final(storage).config == old(storage).config,
            !rotation_due(self.config, size_bytes, age_hours) ==> final(storage)@ == old(storage)@
                && r is None,
            rotation_due(self.config, size_bytes, age_hours) && file_index(
                old(storage)@,
                daemon@,
            ) is None ==> final(storage)@ == old(storage)@ && r is None,
            rotation_due(self.config, size_bytes, age_hours) && file_index(
                old(storage)@,
                daemon@,
            ) is Some ==> r is Some && final(storage)@ == prune_upsert(
                rotate_upsert(old(storage)@, daemon@, archive_name_spec(daemon@, suffix@)),
                daemon@,
                self.config.storage.rotation.keep_files as int,
            ) && daemon_view(final(storage)@, daemon@).archived.len()
                <= self.config.storage.rotation.keep_files,
    {
        if !self.should_rotate(size_bytes, age_hours) {
            return None;
        }
        match storage.rotate_daemon(daemon, suffix) {
            Some(plan) => {
                let keep = self.config.storage.rotation.keep_files as usize;
                let deleted = storage.prune_archives(daemon, keep);
                Some((plan, deleted))
            },
            None => None,
        }
    }
}

// ---------------------------------------------------------------------------
// Conservation and retention laws.
// ---------------------------------------------------------------------------

/// Total number of lines across a set of archives.
pub open spec fn archived_total(a: Seq<(Seq<char>, Seq<Seq<char>>)>) -> int
    decreases a.len(),
{
    if a.len() == 0 {
        0int
    } else {
        a[0].1.len() + archived_total(a.subrange(1, a.len() as int))
    }
}

/// Total number of records a daemon holds: the active file plus all its
/// archives.
pub open spec fn total_records(fv: FileView) -> int {
    fv.active.len() + archived_total(fv.archived)
}

/// One more archive at the end adds exactly its lines.
pub proof fn lemma_archived_total_snoc(
    a: Seq<(Seq<char>, Seq<Seq<char>>)>,
    x: (Seq<char>, Seq<Seq<char>>),
)
    ensures
        archived_total(a.push(x)) == archived_total(a) + x.1.len(),
    decreases a.len(),
{
    if a.len() == 0 {
        assert(a.push(x)[0] == x);
        assert(a.push(x).subrange(1, a.push(x).len() as int) =~= Seq::<(
            Seq<char>,
            Seq<Seq<char>>,
        )>::empty());
        assert(archived_total(Seq::<(Seq<char>, Seq<Seq<char>>)>::empty()) == 0);
    } else {
        assert(a.push(x)[0] == a[0]);
        assert(a.push(x).subrange(1, a.push(x).len() as int) =~= a.subrange(
            1,
            a.len() as int,
        ).push(x));
        lemma_archived_total_snoc(a.subrange(1, a.len() as int), x);
    }
}

/// A rotation moves the active lines whole into a new archive: the total
/// record count across the active file and all archives is unchanged — no
/// record lost, none duplicated.
pub proof fn lemma_rotation_conserves_records(fv: FileView, name: Seq<char>)
    ensures
        total_records(rotate_view(fv, name)) == total_records(fv),
{
    lemma_archived_total_snoc(fv.archived, (name, fv.active));
}

/// One step of a daemon's file history: an append or a rotation.
pub enum FileOp {
    /// A record's line is appended to the active file.
    Store(Seq<char>),
    /// The active file is archived under a name and replaced by an empty one.
    Rotate(Seq<char>),
}

/// Apply one history step.
pub open spec fn apply_op(fv: FileView, op: FileOp) -> FileView {
    match op {
        FileOp::Store(l) => FileView { active: fv.active.push(l), archived: fv.archived },
        FileOp::Rotate(n) => rotate_view(fv, n),
    }
}

/// Apply a history, oldest step first.
pub open spec fn apply_ops(fv: FileView, ops: Seq<FileOp>) -> FileView
    decreases ops.len(),
{
    if ops.len() == 0 {
        fv
    } else {
        apply_ops(apply_op(fv, ops[0]), ops.subrange(1, ops.len() as int))
    }
}

/// How many of the steps are appends.
pub open spec fn count_stores(ops: Seq<FileOp>) -> int
    decreases ops.len(),
{
    if ops.len() == 0 {
        0int
    } else {
        (if ops[0] is Store {
            1int
        } else {
            0int
        }) + count_stores(ops.subrange(1, ops.len() as int))
    }
}

/// Across any interleaving of appends and rotations — rotations triggering
/// mid-burst included — the total record count across the active file plus
/// all archives equals the number of records appended: no loss, no
/// duplication.
pub proof fn lemma_no_loss_no_duplication(fv: FileView, ops: Seq<FileOp>)
    ensures
        total_records(apply_ops(fv, ops)) == total_records(fv) + count_stores(ops),
    decreases ops.len(),
{
    if ops.len() == 0 {
    } else {
        match ops[0] {
            FileOp::Store(l) => {},
            FileOp::Rotate(n) => {
                lemma_rotation_conserves_records(fv, n);
            },
        }
        lemma_no_loss_no_duplication(apply_op(fv, ops[0]), ops.subrange(1, ops.len() as int));
    }
}

/// Retention: however many rotations have happened, pruning leaves at most
/// `keep` archives.
pub proof fn lemma_retention_bound(fv: FileView, keep: int)
    requires
        keep >= 0,
    ensures
        prune_view(fv, keep).archived.len() <= keep,
{
}

} // verus!
