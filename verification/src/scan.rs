//! The decisions of library scanning and live watching: which files are
//! parsed again, how a scan is tallied, when progress is reported and
//! batches are written, and how a burst of filesystem events is debounced
//! into one update.

use vstd::prelude::*;

verus! {

/// Files found between two "scan" progress reports.
pub const FOUND_PROGRESS_EVERY: usize = 500;
/// Parsed files between two "parse" progress reports.
pub const PARSE_PROGRESS_EVERY: usize = 250;
/// Rows written to the database per transaction.
pub const UPSERT_BATCH: usize = 500;
/// Quiet time, in milliseconds, after which buffered watch events are
/// handled.
pub const DEBOUNCE_MS: u64 = 1500;

/// Summary of a completed scan.
#[derive(Debug, Clone)]
pub struct ScanStats {
    pub found: usize,
    pub added: usize,
    pub updated: usize,
    pub removed: usize,
    pub failed: usize,
    pub elapsed_ms: u128,
}

impl ScanStats {
    /// A summary with every count at zero.
    pub fn new() -> (s: Self)
        ensures
            s.found == 0 && s.added == 0 && s.updated == 0 && s.removed == 0 && s.failed == 0
                && s.elapsed_ms == 0,
    {
        ScanStats { found: 0, added: 0, updated: 0, removed: 0, failed: 0, elapsed_ms: 0 }
    }

    /// Counts one more audio file found by the walk; true when a "scan"
    /// progress report is due (every 500 files).
    pub fn record_found(&mut self) -> (report: bool)
        requires
            old(self).found < usize::MAX,
        ensures
            final(self).found == old(self).found + 1,
            final(self).added == old(self).added,
            final(self).updated == old(self).updated,
            final(self).removed == old(self).removed,
            final(self).failed == old(self).failed,
            final(self).elapsed_ms == old(self).elapsed_ms,
            report == (final(self).found % FOUND_PROGRESS_EVERY == 0),
    {
        self.found = self.found + 1;
        self.found % FOUND_PROGRESS_EVERY == 0
    }

    /// Counts the outcome of parsing one file: a failure, else an update of
    /// a file already in the library, else an addition.
    pub fn record_parsed(&mut self, exists_in_db: bool, ok: bool)
        requires
            old(self).added < usize::MAX,
            old(self).updated < usize::MAX,
            old(self).failed < usize::MAX,
        ensures
            final(self).found == old(self).found,
            final(self).removed == old(self).removed,
            final(self).elapsed_ms == old(self).elapsed_ms,
            final(self).failed == old(self).failed + if ok {
                0int
            } else {
                1int
            },
            final(self).updated == old(self).updated + if ok && exists_in_db {
                1int
            } else {
                0int
            },
            final(self).added == old(self).added + if ok && !exists_in_db {
                1int
            } else {
                0int
            },
    {
        if ok {
            if exists_in_db {
                self.updated = self.updated + 1;
            } else {
                self.added = self.added + 1;
            }
        } else {
            self.failed = self.failed + 1;
        }
    }
}

/// A file found by the walk and what the scan does with it.
#[derive(Debug, Clone)]
pub struct ScanJob {
    pub key: String,
    pub mtime: i64,
    pub size: i64,
    pub needs_parse: bool,
    pub exists_in_db: bool,
}

/// Whether the app starts a library scan at launch: only on a first run,
/// when the library holds no track (a failed count reads as none) and at
/// least one library folder is configured.
pub fn needs_initial_scan(track_count: Option<i64>, folder_count: usize) -> (r: bool)
    ensures
        r == ((track_count is None || track_count == Some(0i64)) && folder_count > 0),
{
    let empty = match track_count {
        Some(n) => n == 0,
        None => true,
    };
    empty && folder_count > 0
}

/// Plans a found file against the library's stored `(mtime, size)` for its
/// path: it exists in the library when a row is stored, and it is parsed
/// again unless the scan is incremental and both values are unchanged.
pub fn plan_job(key: String, mtime: i64, size: i64, stored: Option<(i64, i64)>, force: bool) -> (j:
    ScanJob)
    ensures
        j.key == key,
        j.mtime == mtime,
        j.size == size,
        j.exists_in_db == stored is Some,
        j.needs_parse == match stored {
            Some((m, s)) => force || m != mtime || s != size,
            None => true,
        },
{
    match stored {
        Some((m, s)) => ScanJob {
            key,
            mtime,
            size,
            needs_parse: force || m != mtime || s != size,
            exists_in_db: true,
        },
        None => ScanJob { key, mtime, size, needs_parse: true, exists_in_db: false },
    }
}

/// The positions of the jobs that need parsing, in walk order.
pub open spec fn spec_parse_positions(jobs: Seq<ScanJob>) -> Seq<usize>
    decreases jobs.len(),
{
    if jobs.len() == 0 {
        Seq::empty()
    } else if jobs.last().needs_parse {
        spec_parse_positions(jobs.drop_last()).push((jobs.len() - 1) as usize)
    } else {
        spec_parse_positions(jobs.drop_last())
    }
}

/// Selects the jobs whose files are parsed again.
pub fn parse_positions(jobs: &Vec<ScanJob>) -> (r: Vec<usize>)
    ensures
        r@ == spec_parse_positions(jobs@),
{
    let mut r: Vec<usize> = Vec::new();
    let mut i: usize = 0;
    while i < jobs.len()
        invariant
            i <= jobs@.len(),
            r@ == spec_parse_positions(jobs@.take(i as int)),
        decreases jobs@.len() - i,
    {
        proof {
            assert(jobs@.take(i + 1).drop_last() =~= jobs@.take(i as int));
            assert(jobs@.take(i + 1).last() == jobs@[i as int]);
        }
        if jobs[i].needs_parse {
            r.push(i);
        }
        i += 1;
    }
    proof {
        assert(jobs@.take(jobs@.len() as int) =~= jobs@);
    }
    r
}

/// Whether a "parse" progress report is due for the `i`-th parsed file
/// (every 250 files, starting with the first).
pub fn parse_progress_due(i: usize) -> (r: bool)
    ensures
        r == (i % PARSE_PROGRESS_EVERY == 0),
{
    i % PARSE_PROGRESS_EVERY == 0
}

/// Whether the pending rows fill a write batch.
pub fn batch_full(pending: usize) -> (r: bool)
    ensures
        r == (pending >= UPSERT_BATCH),
{
    pending >= UPSERT_BATCH
}

// ---------------------------------------------------------------------------
// Watching
// ---------------------------------------------------------------------------

/// What the watcher does with a changed path.
#[derive(Debug, Clone, Copy, PartialEq, Eq, Structural)]
pub enum PathChange {
    /// A directory: walk it and store every audio file inside.
    Rescan,
    /// An audio file that exists: read and store it.
    Store,
    /// An audio file that is gone: delete its row.
    Remove,
    /// Anything else.
    Ignore,
}

/// Classifies a changed path: directories are rescanned, audio files are
/// stored when they exist and removed when they do not, the rest ignored.
pub fn classify_change(is_dir: bool, is_audio: bool, exists: bool) -> (r: PathChange)
    ensures
        r == (if is_dir {
            PathChange::Rescan
        } else if !is_audio {
            PathChange::Ignore
        } else if exists {
            PathChange::Store
        } else {
            PathChange::Remove
        }),
{
    if is_dir {
        PathChange::Rescan
    } else if !is_audio {
        PathChange::Ignore
    } else if exists {
        PathChange::Store
    } else {
        PathChange::Remove
    }
}

/// The number of files a change touches: the audio files found under a
/// rescanned directory, one for a stored or removed file, none otherwise.
pub fn touched_by(change: PathChange, files_in_dir: usize) -> (r: usize)
    ensures
        r == match change {
            PathChange::Rescan => files_in_dir,
            PathChange::Store | PathChange::Remove => 1,
            PathChange::Ignore => 0,
        },
{
    match change {
        PathChange::Rescan => files_in_dir,
        PathChange::Store | PathChange::Remove => 1,
        PathChange::Ignore => 0,
    }
}

/// One step of the debouncer: a watcher event (`Some(paths)`) adds its
/// paths to the pending ones; a quiet window (`None`) hands out every
/// pending path as one batch, or nothing when none is pending. Gives the
/// new pending paths and the batch handed out.
pub open spec fn debounce_step<T>(pending: Seq<T>, input: Option<Seq<T>>) -> (Seq<T>, Option<
    Seq<T>,
>) {
    match input {
        Some(paths) => (pending + paths, None),
        None => (Seq::empty(), if pending.len() > 0 {
            Some(pending)
        } else {
            None
        }),
    }
}

/// Runs the debouncer from nothing pending over `inputs`: the batches
/// handed out, in order, and the paths still pending at the end.
pub open spec fn debounce_run<T>(inputs: Seq<Option<Seq<T>>>) -> (Seq<Seq<T>>, Seq<T>)
    decreases inputs.len(),
{
    if inputs.len() == 0 {
        (Seq::empty(), Seq::empty())
    } else {
        let (batches, pending) = debounce_run(inputs.drop_last());
        let (next, out) = debounce_step(pending, inputs.last());
        (
            match out {
                Some(b) => batches.push(b),
                None => batches,
            },
            next,
        )
    }
}

/// The batches one after the other.
pub open spec fn concat_batches<T>(batches: Seq<Seq<T>>) -> Seq<T>
    decreases batches.len(),
{
    if batches.len() == 0 {
        Seq::empty()
    } else {
        concat_batches(batches.drop_last()) + batches.last()
    }
}

/// The paths of the watcher events among `inputs`, in arrival order.
pub open spec fn arrived_paths<T>(inputs: Seq<Option<Seq<T>>>) -> Seq<T>
    decreases inputs.len(),
{
    if inputs.len() == 0 {
        Seq::empty()
    } else {
        arrived_paths(inputs.drop_last()) + match inputs.last() {
            Some(paths) => paths,
            None => Seq::empty(),
        }
    }
}

/// Debouncing loses, repeats and reorders no path and never hands out an
/// empty batch: over any run of watcher events and quiet windows, the
/// batches handed out followed by the paths still pending are exactly the
/// events' paths in arrival order, and nothing is pending right after a
/// quiet window.
pub proof fn lemma_debounce_conserves_paths<T>(inputs: Seq<Option<Seq<T>>>)
    ensures
        concat_batches(debounce_run(inputs).0) + debounce_run(inputs).1 == arrived_paths(inputs),
        forall|i: int|
            0 <= i < debounce_run(inputs).0.len() ==> (#[trigger] debounce_run(inputs).0[i]).len()
                > 0,
        inputs.len() > 0 && inputs.last() is None ==> debounce_run(inputs).1.len() == 0,
    decreases inputs.len(),
{
    if inputs.len() > 0 {
        let prev = inputs.drop_last();
        lemma_debounce_conserves_paths(prev);
        let (batches, pending) = debounce_run(prev);
        match inputs.last() {
            Some(paths) => {
                assert(concat_batches(batches) + (pending + paths) =~= (concat_batches(batches)
                    + pending) + paths);
            },
            None => {
                if pending.len() > 0 {
                    let nb = batches.push(pending);
                    assert(nb.drop_last() =~= batches);
                    assert(concat_batches(nb) + Seq::<T>::empty() =~= concat_batches(batches)
                        + pending);
                } else {
                    assert(concat_batches(batches) + Seq::<T>::empty() =~= concat_batches(batches)
                        + pending);
                }
            },
        }
    }
}

/// Buffers the paths reported by the filesystem watcher until the
/// filesystem has been quiet for the debounce window.
pub struct Debouncer<T> {
    pending: Vec<T>,
}

impl<T> View for Debouncer<T> {
    type V = Seq<T>;

    /// The paths received since the last batch, in arrival order.
    closed spec fn view(&self) -> Seq<T> {
        self.pending@
    }
}

impl<T> Debouncer<T> {
    /// A debouncer with nothing pending.
    pub fn new() -> (d: Self)
        ensures
            d@ == Seq::<T>::empty(),
    {
        Debouncer { pending: Vec::new() }
    }

    /// Adds the paths of one watcher event to the pending batch.
    pub fn on_event(&mut self, paths: Vec<T>)
        ensures
            final(self)@ == old(self)@ + paths@,
            (final(self)@, None::<Seq<T>>) == debounce_step(old(self)@, Some(paths@)),
    {
        let mut paths = paths;
        self.pending.append(&mut paths);
    }

    /// The quiet window elapsed: hands out every pending path, in arrival
    /// order, or nothing when none is pending.
    pub fn on_quiet(&mut self) -> (batch: Option<Vec<T>>)
        ensures
            match batch {
                Some(b) => b@ == old(self)@ && old(self)@.len() > 0,
                None => old(self)@.len() == 0,
            },
            final(self)@ == Seq::<T>::empty(),
            (final(self)@, match batch {
                Some(b) => Some(b@),
                None => None,
            }) == debounce_step(old(self)@, None),
    {
        if self.pending.len() == 0 {
            None
        } else {
            let mut batch: Vec<T> = Vec::new();
            std::mem::swap(&mut batch, &mut self.pending);
            Some(batch)
        }
    }

    /// The number of pending paths.
    pub fn pending_len(&self) -> (n: usize)
        ensures
            n == self@.len(),
    {
        self.pending.len()
    }
}

} // verus!
