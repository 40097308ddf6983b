//! The storage engine: one append-only file per daemon name.
//!
//! The backend holds the exact content that must be on disk: for every daemon
//! key, the lines of its active file (oldest first) and its archived files.
//! Every method returns the concrete file-system action its caller must
//! perform; the surrounding process carries the action out under the same
//! per-key serialization that the contracts here assume, so that the model
//! and the disk agree.

use vstd::prelude::*;

verus! {

use crate::LogStreamError;
use crate::config::ServerConfig;
use crate::entry::LogEntry;
use crate::entry::push_char;
use crate::level::str_eq;
use crate::wire::EntryView;
use crate::wire::render_entry;
use crate::wire::render_human;
use crate::wire::sp_entry;

/// One archived (rotated-away) file: its name and its lines.
#[derive(Debug, Clone, PartialEq, Eq)]
pub struct ArchivedFile {
    /// File name of the archive, under the output directory.
    pub name: String,
    /// The lines the archive holds, oldest first.
    pub lines: Vec<String>,
}

/// The value of one daemon's files: the active lines and the archives,
/// oldest archive first.
#[verifier::ext_equal]
pub struct FileView {
    /// Lines of the active file, oldest first.
    pub active: Seq<Seq<char>>,
    /// Archived files: name and lines, oldest archive first.
    pub archived: Seq<(Seq<char>, Seq<Seq<char>>)>,
}

/// The files of one daemon: the active file's lines and the archives.
#[derive(Debug, Clone, PartialEq, Eq)]
pub struct DaemonFile {
    /// Lines of the active file, oldest first.
    pub active: Vec<String>,
    /// Archived files, oldest first.
    pub archived: Vec<ArchivedFile>,
}

impl View for DaemonFile {
    type V = FileView;

    open spec fn view(&self) -> FileView {
        FileView {
            active: self.active.deep_view(),
            archived: Seq::new(
                self.archived@.len(),
                |i: int| (self.archived@[i].name@, self.archived@[i].lines.deep_view()),
            ),
        }
    }
}

/// Whether a file table has pairwise distinct daemon keys.
pub open spec fn wf_files(s: Seq<(Seq<char>, FileView)>) -> bool {
    forall|i: int, j: int| 0 <= i < j < s.len() ==> s[i].0 != s[j].0
}

/// Index of the entry for `key`, if any.
pub open spec fn file_index(s: Seq<(Seq<char>, FileView)>, key: Seq<char>) -> Option<int> {
    if exists|i: int| 0 <= i < s.len() && s[i].0 == key {
        Some(choose|i: int| 0 <= i < s.len() && s[i].0 == key)
    } else {
        None
    }
}

/// The files of `key`: what the table holds, or nothing yet.
pub open spec fn daemon_view(s: Seq<(Seq<char>, FileView)>, key: Seq<char>) -> FileView {
    match file_index(s, key) {
        Some(i) => s[i].1,
        None => FileView { active: Seq::empty(), archived: Seq::empty() },
    }
}

/// The active lines of `key`.
pub open spec fn daemon_lines(s: Seq<(Seq<char>, FileView)>, key: Seq<char>) -> Seq<Seq<char>> {
    daemon_view(s, key).active
}

/// Appending one line for `key`: the lazily created file gains the line at
/// its end; every other key is untouched.
pub open spec fn store_upsert(
    s: Seq<(Seq<char>, FileView)>,
    key: Seq<char>,
    line: Seq<char>,
) -> Seq<(Seq<char>, FileView)> {
    match file_index(s, key) {
        Some(i) => s.update(
            i,
            (key, FileView { active: s[i].1.active.push(line), archived: s[i].1.archived }),
        ),
        None => s.push((key, FileView { active: seq![line], archived: Seq::empty() })),
    }
}

/// Whether the file backend renders entries as JSON lines.
pub open spec fn json_format(cfg: ServerConfig) -> bool {
    cfg.backends.file.format@ == "json"@
}

/// The exact line stored for an entry under a configuration: the JSON wire
/// line in JSON format, the human-readable line otherwise.
pub open spec fn line_spec(cfg: ServerConfig, e: EntryView) -> Seq<char> {
    if json_format(cfg) {
        render_entry(e)
    } else {
        render_human(e)
    }
}

/// The path of a daemon's active log file: `<dir>/<daemon>.log`.
pub open spec fn file_path_spec(cfg: ServerConfig, daemon: Seq<char>) -> Seq<char> {
    cfg.storage.output_directory@ + seq!['/'] + daemon + seq!['.', 'l', 'o', 'g']
}

/// What a `store` call asks the file system to do.
#[derive(Debug, Clone, PartialEq, Eq)]
pub enum StoreAction {
    /// The file backend is disabled: write nothing.
    Skipped,
    /// Append `line` plus a newline to the file at `path`, flushing before
    /// the call is considered done.
    Appended {
        /// Path of the daemon's active file.
        path: String,
        /// The rendered record, without the trailing newline.
        line: String,
    },
}

/// Storage backend for managing log files.
pub struct StorageBackend {
    /// The configuration the backend was built against.
    pub config: ServerConfig,
    /// The file table: one entry per daemon key, keys unique.
    pub files: Vec<(String, DaemonFile)>,
}

impl View for StorageBackend {
    type V = Seq<(Seq<char>, FileView)>;

    open spec fn view(&self) -> Seq<(Seq<char>, FileView)> {
        Seq::new(self.files@.len(), |i: int| (self.files@[i].0@, self.files@[i].1@))
    }
}

impl StorageBackend {
    /// The file table keeps its daemon keys unique.
    pub open spec fn wf(&self) -> bool {
        wf_files(self@)
    }

    /// Create a new storage backend; no file exists for any daemon yet.
    pub fn new(config: &ServerConfig) -> (r: Result<StorageBackend, LogStreamError>)
        ensures
            r matches Ok(b) && b.config == *config && b@ == Seq::<(Seq<char>, FileView)>::empty()
                && b.wf(),
    {
        let b = StorageBackend { config: config.duplicate(), files: Vec::new() };
        proof {
            assert(b@ =~= Seq::<(Seq<char>, FileView)>::empty());
        }
        Ok(b)
    }

    /// The path of the active log file for a daemon: `<dir>/<daemon>.log`.
    pub fn get_log_file_path(&self, daemon_name: &str) -> (r: String)
        ensures
            r@ == file_path_spec(self.config, daemon_name@),
    {
        let mut out = self.config.storage.output_directory.clone();
        push_char(&mut out, '/');
        out.append(daemon_name);
        out.append(".log");
        proof {
            reveal_strlit(".log");
            assert(".log"@ =~= seq!['.', 'l', 'o', 'g']);
            assert(out@ =~= file_path_spec(self.config, daemon_name@));
        }
        out
    }

    /// The line stored for an entry under this backend's configured format.
    pub fn render_line(&self, entry: &LogEntry) -> (r: String)
        ensures
            r@ == line_spec(self.config, entry@),
    {
        if str_eq(self.config.backends.file.format.as_str(), "json") {
            match entry.to_json() {
                Ok(s) => s,
                Err(_) => {
                    proof {
                        assert(false);
                    }
                    String::new()
                },
            }
        } else {
            entry.to_human_readable()
        }
    }

    /// Index of the daemon's entry in the file table, if any.
    fn find_daemon(&self, daemon: &str) -> (r: Option<usize>)
        requires
            self.wf(),
        ensures
            match r {
                Some(i) => file_index(self@, daemon@) == Some(i as int) && i < self@.len(),
                None => file_index(self@, daemon@) is None,
            },
    {
        let n = self.files.len();
        let mut i: usize = 0;
        while i < n
            invariant
                n == self.files@.len(),
                n == self@.len(),
                i <= n,
                self.wf(),
                forall|j: int| 0 <= j < i ==> self@[j].0 != daemon@,
            decreases n - i,
        {
            if str_eq(self.files[i].0.as_str(), daemon) {
                proof {
                    let k = self@[i as int].0;
                    let w = choose|w: int| 0 <= w < self@.len() && self@[w].0 == k;
                    assert(self@[w].0 == k && self@[i as int].0 == k);
                    assert(w == i as int);
                }
                return Some(i);
            }
            i += 1;
        }
        None
    }

    /// Store a log entry.  With the file backend disabled this is a no-op
    /// that still succeeds and asks for no file-system work; otherwise the
    /// daemon's file (lazily created on its first entry) gains the rendered
    /// line at its end, and the returned action says what to append where.
    pub fn store_entry(&mut self, entry: &LogEntry) -> (r: Result<StoreAction, LogStreamError>)
        requires
            old(self).wf(),
        ensures
            final(self).wf(),
            final(self).config == old(self).config,
            !old(self).config.backends.file.enabled ==> final(self)@ == old(self)@ && (r matches
                Ok(a) && a == StoreAction::Skipped),
            old(self).config.backends.file.enabled ==> final(self)@ == store_upsert(
                old(self)@,
                entry@.daemon,
                line_spec(old(self).config, entry@),
            ) && (r matches Ok(a) && a matches StoreAction::Appended { path, line } && path@
                == file_path_spec(old(self).config, entry@.daemon) && line@ == line_spec(
                old(self).config,
                entry@,
            )),
    {
        if !self.config.backends.file.enabled {
            return Ok(StoreAction::Skipped);
        }
        let line = self.render_line(entry);
        let path = self.get_log_file_path(entry.daemon.as_str());
        let ghost pre = self@;
        match self.find_daemon(entry.daemon.as_str()) {
            Some(i) => {
                let mut pair = self.files.remove(i);
                pair.1.active.push(line.clone());
                self.files.insert(i, pair);
                proof {
                    assert(self@ =~~= store_upsert(
                        pre,
                        entry@.daemon,
                        line_spec(self.config, entry@),
                    ));
                    assert(self.wf());
                }
            },
            None => {
                let mut lines: Vec<String> = Vec::new();
                lines.push(line.clone());
                self.files.push(
                    (
                        entry.daemon.clone(),
                        DaemonFile { active: lines, archived: Vec::new() },
                    ),
                );
                proof {
                    assert(self@ =~~= store_upsert(
                        pre,
                        entry@.daemon,
                        line_spec(self.config, entry@),
                    ));
                    assert(self.wf());
                }
            },
        }
        Ok(StoreAction::Appended { path, line })
    }

    /// Handle one line read from a connection: parse it, store the entry on
    /// success, and drop the line silently on a parse failure — a malformed
    /// line never changes any file and never ends the processing.
    pub fn process_line(&mut self, line: &str) -> (r: LineOutcome)
        requires
            old(self).wf(),
        ensures
            final(self).wf(),
            final(self).config == old(self).config,
            final(self)@ == ingest_step(old(self)@, old(self).config, line@),
            r matches LineOutcome::Stored(_) <==> sp_entry(line@) is Some,
    {
        match LogEntry::from_json(line) {
            Ok(entry) => {
                match self.store_entry(&entry) {
                    Ok(a) => LineOutcome::Stored(a),
                    Err(_) => {
                        proof {
                            assert(false);
                        }
                        LineOutcome::Dropped
                    },
                }
            },
            Err(_) => LineOutcome::Dropped,
        }
    }

    /// Handle a whole sequence of received lines in order, as one connection
    /// task does.  Returns how many lines were stored; the dropped ones are
    /// exactly the malformed ones.
    pub fn ingest_lines(&mut self, lines: &Vec<String>) -> (stored: usize)
        requires
            old(self).wf(),
        ensures
            final(self).wf(),
            final(self).config == old(self).config,
            final(self)@ == ingest_all(old(self)@, old(self).config, lines.deep_view()),
            stored == count_parsed(lines.deep_view()),
    {
        let ghost all = lines.deep_view();
        let n = lines.len();
        let mut stored: usize = 0;
        let mut i: usize = 0;
        proof {
            assert(all.take(0) =~= Seq::<Seq<char>>::empty());
        }
        while i < n
            invariant
                n == lines@.len(),
                n == all.len(),
                all == lines.deep_view(),
                i <= n,
                self.wf(),
                self.config == old(self).config,
                self@ == ingest_all(old(self)@, old(self).config, all.take(i as int)),
                stored == count_parsed(all.take(i as int)),
                stored <= i,
            decreases n - i,
        {
            let ghost pre = self@;
            let r = self.process_line(lines[i].as_str());
            proof {
                assert(lines@[i as int]@ == all[i as int]);
                assert(all.take(i + 1) =~= all.take(i as int).push(all[i as int]));
                lemma_ingest_all_snoc(old(self)@, old(self).config, all.take(i as int), all[i as int]);
                lemma_count_parsed_snoc(all.take(i as int), all[i as int]);
            }
            match r {
                LineOutcome::Stored(_) => {
                    stored += 1;
                },
                LineOutcome::Dropped => {},
            }
            i += 1;
        }
        proof {
            assert(all.take(n as int) =~= all);
        }
        stored
    }

    /// Rotate a daemon's active file: its lines move whole into a new
    /// archive named `<daemon>.log.<suffix>`, and the active file starts
    /// empty.  A daemon with no file yet is left untouched.  The returned
    /// plan names the rename the file system must perform.
    pub fn rotate_daemon(&mut self, daemon: &str, suffix: &str) -> (r: Option<RotatePlan>)
        requires
            old(self).wf(),
        ensures
            final(self).wf(),
            final(self).config == old(self).config,
            final(self)@ == rotate_upsert(
                old(self)@,
                daemon@,
                archive_name_spec(daemon@, suffix@),
            ),
            file_index(old(self)@, daemon@) is None ==> r is None && final(self)@ == old(self)@,
            file_index(old(self)@, daemon@) is Some ==> (r matches Some(plan) && plan.from_path@
                == file_path_spec(old(self).config, daemon@) && plan.to_path@
                == old(self).config.storage.output_directory@ + seq!['/'] + archive_name_spec(
                daemon@,
                suffix@,
            )),
    {
        let ghost pre = self@;
        let idx = match self.find_daemon(daemon) {
            Some(i) => i,
            None => {
                return None;
            },
        };
        let mut aname = String::from_str(daemon);
        aname.append(".log.");
        aname.append(suffix);
        proof {
            reveal_strlit(".log.");
            assert(".log."@ =~= seq!['.', 'l', 'o', 'g', '.']);
            assert(aname@ =~= archive_name_spec(daemon@, suffix@));
        }
        let from_path = self.get_log_file_path(daemon);
        let mut to_path = self.config.storage.output_directory.clone();
        push_char(&mut to_path, '/');
        to_path.append(aname.as_str());
        let pair = self.files.remove(idx);
        let (key, df) = pair;
        let DaemonFile { active, archived: mut archived } = df;
        archived.push(ArchivedFile { name: aname, lines: active });
        self.files.insert(idx, (key, DaemonFile { active: Vec::new(), archived }));
        proof {
            assert(self@ =~~= rotate_upsert(pre, daemon@, archive_name_spec(daemon@, suffix@)));
            assert(self.wf());
        }
        Some(RotatePlan { from_path, to_path })
    }

    /// Enforce the retention count for a daemon: keep the newest `keep`
    /// archives, dropping the oldest beyond that.  Returns the paths of the
    /// dropped archives, oldest first, for the file system to delete.  After
    /// the call the daemon has at most `keep` archives.
    pub fn prune_archives(&mut self, daemon: &str, keep: usize) -> (r: Vec<String>)
        requires
            old(self).wf(),
        ensures
            final(self).wf(),
            final(self).config == old(self).config,
            final(self)@ == prune_upsert(old(self)@, daemon@, keep as int),
            daemon_view(final(self)@, daemon@).archived.len() <= keep,
            ({
                let pre = daemon_view(old(self)@, daemon@).archived;
                let excess = if pre.len() > keep {
                    pre.len() - keep
                } else {
                    0
                };
                r@.len() == excess && forall|k: int|
                    0 <= k < excess ==> r@[k]@ == old(self).config.storage.output_directory@
                        + seq!['/'] + pre[k].0
            }),
    {
        let ghost pre_table = self@;
        let mut out: Vec<String> = Vec::new();
        let idx = match self.find_daemon(daemon) {
            Some(i) => i,
            None => {
                proof {
                    assert(self@ =~~= prune_upsert(pre_table, daemon@, keep as int));
                }
                return out;
            },
        };
        let pair = self.files.remove(idx);
        let (key, df) = pair;
        let DaemonFile { active, archived: mut archived } = df;
        let ghost orig = Seq::new(
            archived@.len(),
            |i: int| (archived@[i].name@, archived@[i].lines.deep_view()),
        );
        let ghost mut removed: int = 0;
        while archived.len() > keep
            invariant
                0 <= removed <= orig.len(),
                keep < orig.len() ==> removed <= orig.len() - keep,
                keep >= orig.len() ==> removed == 0,
                removed + archived@.len() == orig.len(),
                Seq::new(
                    archived@.len(),
                    |i: int| (archived@[i].name@, archived@[i].lines.deep_view()),
                ) == orig.skip(removed),
                out@.len() == removed,
                forall|k: int|
                    0 <= k < removed ==> out@[k]@ == self.config.storage.output_directory@
                        + seq!['/'] + orig[k].0,
            decreases archived@.len(),
        {
            proof {
                assert(Seq::new(
                    archived@.len(),
                    |i: int| (archived@[i].name@, archived@[i].lines.deep_view()),
                )[0] == orig.skip(removed)[0]);
                assert(archived@[0].name@ == orig[removed].0);
            }
            let ghost pre_arch = archived@;
            let ghost pre_view = Seq::new(
                archived@.len(),
                |i: int| (archived@[i].name@, archived@[i].lines.deep_view()),
            );
            proof {
                assert(pre_view == orig.skip(removed));
            }
            let dropped = archived.remove(0);
            let mut path = self.config.storage.output_directory.clone();
            push_char(&mut path, '/');
            path.append(dropped.name.as_str());
            out.push(path);
            proof {
                removed = removed + 1;
                assert(pre_arch.remove(0) =~= pre_arch.subrange(1, pre_arch.len() as int));
                assert forall|k: int| 0 <= k < archived@.len() implies #[trigger] orig.skip(
                    removed,
                )[k] == (archived@[k].name@, archived@[k].lines.deep_view()) by {
                    assert(archived@[k] == pre_arch[k + 1]);
                    assert(pre_view[k + 1] == orig.skip(removed - 1)[k + 1]);
                    assert(pre_view[k + 1] == (pre_arch[k + 1].name@, pre_arch[
                        k + 1
                    ].lines.deep_view()));
                    assert(orig.skip(removed - 1)[k + 1] == orig[removed + k]);
                    assert(orig.skip(removed)[k] == orig[removed + k]);
                }
                assert(Seq::new(
                    archived@.len(),
                    |i: int| (archived@[i].name@, archived@[i].lines.deep_view()),
                ) =~~= orig.skip(removed));
            }
        }
        self.files.insert(idx, (key, DaemonFile { active, archived }));
        proof {
            assert(self@ =~~= prune_upsert(pre_table, daemon@, keep as int));
            assert(self.wf());
            lemma_file_index_unique(self@, daemon@, idx as int);
        }
        out
    }
}

/// What became of one received line.
#[derive(Debug, Clone, PartialEq, Eq)]
pub enum LineOutcome {
    /// The line parsed; the entry was stored with this action.
    Stored(StoreAction),
    /// The line was malformed and dropped; nothing changed.
    Dropped,
}

/// The rename a rotation asks the file system to perform: move the active
/// file aside and let a fresh one be created at its old path.
#[derive(Debug, Clone, PartialEq, Eq)]
pub struct RotatePlan {
    /// Path of the active file to move away.
    pub from_path: String,
    /// Path the archive takes.
    pub to_path: String,
}

/// The archive name a rotation gives the active file.
pub open spec fn archive_name_spec(daemon: Seq<char>, suffix: Seq<char>) -> Seq<char> {
    daemon + seq!['.', 'l', 'o', 'g', '.'] + suffix
}

/// A rotated file value: the active lines move whole into a new archive.
pub open spec fn rotate_view(fv: FileView, name: Seq<char>) -> FileView {
    FileView { active: Seq::empty(), archived: fv.archived.push((name, fv.active)) }
}

/// Rotation of one key in the table; a missing key changes nothing.
pub open spec fn rotate_upsert(
    s: Seq<(Seq<char>, FileView)>,
    key: Seq<char>,
    name: Seq<char>,
) -> Seq<(Seq<char>, FileView)> {
    match file_index(s, key) {
        Some(i) => s.update(i, (key, rotate_view(s[i].1, name))),
        None => s,
    }
}

/// A pruned file value: only the newest `keep` archives stay.
pub open spec fn prune_view(fv: FileView, keep: int) -> FileView {
    if fv.archived.len() > keep {
        FileView { active: fv.active, archived: fv.archived.skip(fv.archived.len() - keep) }
    } else {
        fv
    }
}

/// Pruning of one key in the table; a missing key changes nothing.
pub open spec fn prune_upsert(
    s: Seq<(Seq<char>, FileView)>,
    key: Seq<char>,
    keep: int,
) -> Seq<(Seq<char>, FileView)> {
    match file_index(s, key) {
        Some(i) => s.update(i, (key, prune_view(s[i].1, keep))),
        None => s,
    }
}

/// What one received line does to the table: a line that parses appends its
/// rendering under its daemon key (when the file backend is enabled), and a
/// malformed line does nothing.
pub open spec fn ingest_step(
    s: Seq<(Seq<char>, FileView)>,
    cfg: ServerConfig,
    line: Seq<char>,
) -> Seq<(Seq<char>, FileView)> {
    match sp_entry(line) {
        Some(ev) => if cfg.backends.file.enabled {
            store_upsert(s, ev.daemon, line_spec(cfg, ev))
        } else {
            s
        },
        None => s,
    }
}

/// What a sequence of received lines does to the table, in order.
pub open spec fn ingest_all(
    s: Seq<(Seq<char>, FileView)>,
    cfg: ServerConfig,
    lines: Seq<Seq<char>>,
) -> Seq<(Seq<char>, FileView)>
    decreases lines.len(),
{
    if lines.len() == 0 {
        s
    } else {
        ingest_all(ingest_step(s, cfg, lines[0]), cfg, lines.subrange(1, lines.len() as int))
    }
}

/// How many of the lines parse as entries.
pub open spec fn count_parsed(lines: Seq<Seq<char>>) -> int
    decreases lines.len(),
{
    if lines.len() == 0 {
        0int
    } else {
        (if sp_entry(lines[0]) is Some {
            1int
        } else {
            0int
        }) + count_parsed(lines.subrange(1, lines.len() as int))
    }
}

/// The lines that end up stored for daemon `d` out of a received sequence:
/// the renderings of exactly the well-formed lines addressed to `d`, in
/// arrival order.
pub open spec fn stored_lines_for(
    cfg: ServerConfig,
    lines: Seq<Seq<char>>,
    d: Seq<char>,
) -> Seq<Seq<char>>
    decreases lines.len(),
{
    if lines.len() == 0 {
        Seq::empty()
    } else {
        let rest = stored_lines_for(cfg, lines.subrange(1, lines.len() as int), d);
        match sp_entry(lines[0]) {
            Some(ev) => if cfg.backends.file.enabled && ev.daemon == d {
                seq![line_spec(cfg, ev)] + rest
            } else {
                rest
            },
            None => rest,
        }
    }
}

/// With unique keys, holding a key pins the index.
pub proof fn lemma_file_index_unique(s: Seq<(Seq<char>, FileView)>, d: Seq<char>, w: int)
    requires
        wf_files(s),
        0 <= w < s.len(),
        s[w].0 == d,
    ensures
        file_index(s, d) == Some(w),
{
    let w2 = choose|i: int| 0 <= i < s.len() && s[i].0 == d;
    assert(s[w2].0 == d && s[w].0 == d);
    assert(w2 == w);
}

/// What appending one line does to every key: the addressed key gains the
/// line at the end of its active file with its archives untouched, and every
/// other key is untouched.
pub proof fn lemma_store_upsert_effect(
    s: Seq<(Seq<char>, FileView)>,
    key: Seq<char>,
    line: Seq<char>,
    d: Seq<char>,
)
    requires
        wf_files(s),
    ensures
        wf_files(store_upsert(s, key, line)),
        d == key ==> daemon_view(store_upsert(s, key, line), d) == (FileView {
            active: daemon_lines(s, d).push(line),
            archived: daemon_view(s, d).archived,
        }),
        d != key ==> daemon_view(store_upsert(s, key, line), d) == daemon_view(s, d),
{
    let r = store_upsert(s, key, line);
    match file_index(s, key) {
        Some(i) => {
            assert(0 <= i < s.len() && s[i].0 == key);
            assert(forall|j: int| 0 <= j < r.len() ==> r[j].0 == s[j].0);
            assert(wf_files(r));
            lemma_file_index_unique(r, key, i);
            if d == key {
                assert(daemon_view(r, d) =~= FileView {
                    active: daemon_lines(s, d).push(line),
                    archived: daemon_view(s, d).archived,
                });
            } else {
                match file_index(s, d) {
                    Some(w) => {
                        assert(s[w].0 == d);
                        assert(w != i);
                        lemma_file_index_unique(r, d, w);
                        assert(daemon_view(r, d) == daemon_view(s, d));
                    },
                    None => {
                        assert(forall|j: int| 0 <= j < s.len() ==> s[j].0 != d);
                        assert(forall|j: int| 0 <= j < r.len() ==> r[j].0 != d);
                        assert(file_index(r, d) is None);
                    },
                }
            }
        },
        None => {
            assert(forall|j: int| 0 <= j < s.len() ==> s[j].0 != key);
            assert(r == s.push((key, FileView { active: seq![line], archived: Seq::empty() })));
            assert(wf_files(r));
            if d == key {
                lemma_file_index_unique(r, d, s.len() as int);
                assert(daemon_lines(s, d) =~= Seq::<Seq<char>>::empty());
                assert(daemon_view(r, d).active =~= daemon_lines(s, d).push(line));
                assert(daemon_view(r, d) =~= FileView {
                    active: daemon_lines(s, d).push(line),
                    archived: daemon_view(s, d).archived,
                });
            } else {
                match file_index(s, d) {
                    Some(w) => {
                        assert(s[w].0 == d);
                        lemma_file_index_unique(r, d, w);
                        assert(daemon_view(r, d) == daemon_view(s, d));
                    },
                    None => {
                        assert(forall|j: int| 0 <= j < r.len() ==> r[j].0 != d);
                        assert(file_index(r, d) is None);
                    },
                }
            }
        },
    }
}

/// Ingesting one more line at the end equals ingesting the rest and then
/// that line.
pub proof fn lemma_ingest_all_snoc(
    s: Seq<(Seq<char>, FileView)>,
    cfg: ServerConfig,
    lines: Seq<Seq<char>>,
    l: Seq<char>,
)
    ensures
        ingest_all(s, cfg, lines.push(l)) == ingest_step(ingest_all(s, cfg, lines), cfg, l),
    decreases lines.len(),
{
    if lines.len() == 0 {
        assert(lines.push(l)[0] == l);
        assert(lines.push(l).subrange(1, lines.push(l).len() as int) =~= Seq::<Seq<char>>::empty());
        assert(ingest_all(ingest_step(s, cfg, l), cfg, Seq::<Seq<char>>::empty()) == ingest_step(
            s,
            cfg,
            l,
        ));
        assert(ingest_all(s, cfg, Seq::<Seq<char>>::empty()) == s);
    } else {
        assert(lines.push(l)[0] == lines[0]);
        assert(lines.push(l).subrange(1, lines.push(l).len() as int) =~= lines.subrange(
            1,
            lines.len() as int,
        ).push(l));
        lemma_ingest_all_snoc(
            ingest_step(s, cfg, lines[0]),
            cfg,
            lines.subrange(1, lines.len() as int),
            l,
        );
    }
}

/// Counting parsed lines, one more at the end.
pub proof fn lemma_count_parsed_snoc(lines: Seq<Seq<char>>, l: Seq<char>)
    ensures
        count_parsed(lines.push(l)) == count_parsed(lines) + (if sp_entry(l) is Some {
            1int
        } else {
            0int
        }),
    decreases lines.len(),
{
    if lines.len() == 0 {
        assert(lines.push(l)[0] == l);
        assert(lines.push(l).subrange(1, lines.push(l).len() as int) =~= Seq::<Seq<char>>::empty());
        assert(count_parsed(Seq::<Seq<char>>::empty()) == 0);
    } else {
        assert(lines.push(l)[0] == lines[0]);
        assert(lines.push(l).subrange(1, lines.push(l).len() as int) =~= lines.subrange(
            1,
            lines.len() as int,
        ).push(l));
        lemma_count_parsed_snoc(lines.subrange(1, lines.len() as int), l);
    }
}

/// Ordered delivery: after ingesting any received sequence, each daemon's
/// active file holds what it held before followed by the renderings of
/// exactly the well-formed records addressed to it, in arrival order — every
/// line whole, none lost, none duplicated, and other daemons' archives and
/// files untouched by malformed or foreign lines.
pub proof fn lemma_ingest_effect(
    s: Seq<(Seq<char>, FileView)>,
    cfg: ServerConfig,
    lines: Seq<Seq<char>>,
    d: Seq<char>,
)
    requires
        wf_files(s),
    ensures
        wf_files(ingest_all(s, cfg, lines)),
        daemon_view(ingest_all(s, cfg, lines), d) == (FileView {
            active: daemon_lines(s, d) + stored_lines_for(cfg, lines, d),
            archived: daemon_view(s, d).archived,
        }),
    decreases lines.len(),
{
    if lines.len() == 0 {
        assert(daemon_lines(s, d) + stored_lines_for(cfg, lines, d) =~= daemon_lines(s, d));
        assert(daemon_view(s, d) =~= FileView {
            active: daemon_lines(s, d) + stored_lines_for(cfg, lines, d),
            archived: daemon_view(s, d).archived,
        });
    } else {
        let l = lines[0];
        let rest = lines.subrange(1, lines.len() as int);
        let s1 = ingest_step(s, cfg, l);
        match sp_entry(l) {
            Some(ev) => {
                if cfg.backends.file.enabled {
                    lemma_store_upsert_effect(s, ev.daemon, line_spec(cfg, ev), d);
                } else {
                }
            },
            None => {},
        }
        lemma_ingest_effect(s1, cfg, rest, d);
        assert(daemon_view(ingest_all(s, cfg, lines), d).active =~= daemon_lines(s, d)
            + stored_lines_for(cfg, lines, d));
        assert(daemon_view(ingest_all(s, cfg, lines), d) =~= FileView {
            active: daemon_lines(s, d) + stored_lines_for(cfg, lines, d),
            archived: daemon_view(s, d).archived,
        });
    }
}

/// When every received line is the wire line of a well-formed entry for
/// daemon `d`, the stored lines are their renderings, one each, in order —
/// or nothing at all when the file backend is disabled.
#[verifier::rlimit(100)]
proof fn lemma_stored_lines_full(cfg: ServerConfig, entries: Seq<EntryView>, d: Seq<char>)
    requires
        forall|i: int|
            0 <= i < entries.len() ==> (#[trigger] entries[i]).wf() && entries[i].daemon == d,
    ensures
        stored_lines_for(cfg, entries.map_values(|e: EntryView| render_entry(e)), d) == (
        if cfg.backends.file.enabled {
            entries.map_values(|e: EntryView| line_spec(cfg, e))
        } else {
            Seq::<Seq<char>>::empty()
        }),
    decreases entries.len(),
{
    let lines = entries.map_values(|e: EntryView| render_entry(e));
    if entries.len() == 0 {
        assert(stored_lines_for(cfg, lines, d) =~= Seq::<Seq<char>>::empty());
        assert(entries.map_values(|e: EntryView| line_spec(cfg, e)) =~= Seq::<Seq<char>>::empty());
    } else {
        assert(lines[0] == render_entry(entries[0]));
        crate::wire_laws::lemma_entry_round_trip(entries[0]);
        assert(sp_entry(lines[0]) == Some(entries[0]));
        let et = entries.subrange(1, entries.len() as int);
        assert(lines.subrange(1, lines.len() as int) =~= et.map_values(
            |e: EntryView| render_entry(e),
        ));
        lemma_stored_lines_full(cfg, et, d);
        if cfg.backends.file.enabled {
            assert(stored_lines_for(cfg, lines, d) =~= entries.map_values(
                |e: EntryView| line_spec(cfg, e),
            ));
        } else {
            assert(stored_lines_for(cfg, lines, d) =~= Seq::<Seq<char>>::empty());
        }
    }
}

/// Ordered delivery on one connection: sending any number of well-formed
/// records for daemon `d` puts exactly that many lines into `d`'s file, in
/// the order sent, each line the record's rendering, with `d`'s archives and
/// every other daemon untouched.  With the file backend disabled, nothing
/// changes at all.
pub proof fn lemma_ordered_delivery(
    s: Seq<(Seq<char>, FileView)>,
    cfg: ServerConfig,
    entries: Seq<EntryView>,
    d: Seq<char>,
)
    requires
        wf_files(s),
        forall|i: int|
            0 <= i < entries.len() ==> (#[trigger] entries[i]).wf() && entries[i].daemon == d,
    ensures
        ({
            let after = ingest_all(s, cfg, entries.map_values(|e: EntryView| render_entry(e)));
            let delivered = if cfg.backends.file.enabled {
                entries.map_values(|e: EntryView| line_spec(cfg, e))
            } else {
                Seq::<Seq<char>>::empty()
            };
            &&& daemon_lines(after, d) == daemon_lines(s, d) + delivered
            &&& daemon_lines(after, d).len() == daemon_lines(s, d).len() + (
            if cfg.backends.file.enabled {
                entries.len() as int
            } else {
                0int
            })
            &&& daemon_view(after, d).archived == daemon_view(s, d).archived
        }),
{
    let lines = entries.map_values(|e: EntryView| render_entry(e));
    lemma_ingest_effect(s, cfg, lines, d);
    lemma_stored_lines_full(cfg, entries, d);
    if !cfg.backends.file.enabled {
        assert(daemon_lines(s, d) + Seq::<Seq<char>>::empty() =~= daemon_lines(s, d));
    }
}

} // verus!
