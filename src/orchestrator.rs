//! The phases of a scan and of a thumbnail regeneration, as state machines
//! driven by the events that the caller observes; and the one-scan-at-a-time slot.
use vstd::prelude::*;
use crate::scanner::ScanStats;

verus! {

/// Phases of a scan; the last three are terminal.
#[derive(Debug, Clone, Copy, PartialEq, Eq, Structural)]
pub enum ScanPhase {
    Counting,
    Indexing,
    Dependencies,
    Complete,
    Cancelled,
    Error,
}

/// Order of the phases.
pub open spec fn rank(p: ScanPhase) -> int {
    match p {
        ScanPhase::Counting => 0,
        ScanPhase::Indexing => 1,
        ScanPhase::Dependencies => 2,
        _ => 3,
    }
}

pub open spec fn terminal(p: ScanPhase) -> bool {
    rank(p) == 3
}

/// A progress record of a scan.
#[derive(Debug)]
pub struct ScanProgress {
    pub scanned: usize,
    pub total: Option<usize>,
    pub current_path: String,
    pub phase: ScanPhase,
    pub skipped: Option<usize>,
    pub changed: Option<usize>,
}

/// What the caller observed while running a scan.
#[derive(Debug)]
pub enum ScanEvent {
    /// Files counted so far.
    Counted(usize),
    /// Counting finished with this many files.
    CountingDone(usize),
    /// A batch was indexed; files indexed so far and the last path.
    BatchIndexed(usize, String),
    /// Indexing finished: files indexed, and the scan's counters.
    IndexingDone(usize, ScanStats),
    /// Dependencies resolved for this many assets out of a total.
    DepsProgress(usize, usize),
    /// Dependency resolution finished.
    DepsDone,
    /// A batch could not be written to the index; the scan goes on and ends in error.
    BatchFailed,
    /// The scan's worker failed.
    Fault,
}

/// The state of one scan.
#[derive(Debug)]
pub struct ScanMachine {
    pub phase: ScanPhase,
    pub total_files: usize,
    pub last_scanned: usize,
    pub indexed: usize,
    pub stats: ScanStats,
    pub batch_failed: bool,
}

/// The larger of two counts.
pub open spec fn larger(a: usize, b: usize) -> usize {
    if a > b { a } else { b }
}

impl ScanMachine {
    /// A scan that starts counting.
    pub fn new() -> (r: ScanMachine)
        ensures
            r.phase == ScanPhase::Counting,
            r.last_scanned == 0,
            !r.batch_failed,
    {
        ScanMachine {
            phase: ScanPhase::Counting,
            total_files: 0,
            last_scanned: 0,
            indexed: 0,
            stats: ScanStats { total_files: 0, unchanged_skipped: 0, new_or_changed: 0 },
            batch_failed: false,
        }
    }

    /// The record a scan emits when it starts.
    pub fn started(&self) -> (r: ScanProgress)
        ensures
            r.phase == ScanPhase::Counting,
            r.scanned == 0,
            r.total is None,
    {
        ScanProgress { scanned: 0, total: None, current_path: String::new(), phase: ScanPhase::Counting, skipped: None, changed: None }
    }

    /// Takes one observed event; returns the record to emit, if any. Phases
    /// only move forward; a terminal phase ignores every event, and so does a
    /// phase that the event does not belong to; within a phase the reported
    /// count never decreases. A scan in which a batch failed ends in error.
    pub fn step(&mut self, ev: ScanEvent) -> (r: Option<ScanProgress>)
        ensures
            rank(final(self).phase) >= rank(old(self).phase),
            terminal(old(self).phase) ==> *final(self) == *old(self) && r is None,
            !terminal(old(self).phase) ==> match ev {
                ScanEvent::Fault => final(self).phase == ScanPhase::Error && (r matches Some(p)
                    && p.phase == ScanPhase::Error && p.scanned == 0 && p.total is None),
                ScanEvent::Counted(n) => if old(self).phase == ScanPhase::Counting {
                    &&& final(self).phase == ScanPhase::Counting
                    &&& final(self).last_scanned == larger(n, old(self).last_scanned)
                    &&& r matches Some(p) && p.phase == ScanPhase::Counting && p.scanned == larger(n, old(self).last_scanned)
                        && p.total is None
                } else {
                    *final(self) == *old(self) && r is None
                },
                ScanEvent::CountingDone(n) => if old(self).phase == ScanPhase::Counting {
                    &&& final(self).phase == ScanPhase::Indexing
                    &&& final(self).total_files == n
                    &&& final(self).last_scanned == 0
                    &&& final(self).batch_failed == old(self).batch_failed
                    &&& r matches Some(p) && p.phase == ScanPhase::Indexing && p.scanned == 0 && p.total == Some(n)
                } else {
                    *final(self) == *old(self) && r is None
                },
                ScanEvent::BatchIndexed(n, path) => if old(self).phase == ScanPhase::Indexing {
                    &&& final(self).phase == ScanPhase::Indexing
                    &&& final(self).total_files == old(self).total_files
                    &&& final(self).batch_failed == old(self).batch_failed
                    &&& final(self).last_scanned == larger(n, old(self).last_scanned)
                    &&& r matches Some(p) && p.phase == ScanPhase::Indexing && p.scanned == larger(n, old(self).last_scanned)
                        && p.total == Some(old(self).total_files) && p.current_path@ == path@
                } else {
                    *final(self) == *old(self) && r is None
                },
                ScanEvent::BatchFailed => if old(self).phase == ScanPhase::Indexing {
                    &&& final(self).phase == ScanPhase::Indexing
                    &&& final(self).batch_failed
                    &&& final(self).total_files == old(self).total_files
                    &&& final(self).last_scanned == old(self).last_scanned
                    &&& r is None
                } else {
                    *final(self) == *old(self) && r is None
                },
                ScanEvent::IndexingDone(k, st) => if old(self).phase == ScanPhase::Indexing {
                    &&& final(self).phase == ScanPhase::Dependencies
                    &&& final(self).indexed == k
                    &&& final(self).stats == st
                    &&& final(self).last_scanned == 0
                    &&& final(self).batch_failed == old(self).batch_failed
                    &&& r matches Some(p) && p.phase == ScanPhase::Dependencies && p.scanned == 0 && p.total is None
                        && p.skipped == Some(st.unchanged_skipped) && p.changed == Some(st.new_or_changed)
                } else {
                    *final(self) == *old(self) && r is None
                },
                ScanEvent::DepsProgress(n, t) => if old(self).phase == ScanPhase::Dependencies {
                    &&& final(self).phase == ScanPhase::Dependencies
                    &&& final(self).indexed == old(self).indexed
                    &&& final(self).stats == old(self).stats
                    &&& final(self).batch_failed == old(self).batch_failed
                    &&& final(self).last_scanned == larger(n, old(self).last_scanned)
                    &&& r matches Some(p) && p.phase == ScanPhase::Dependencies && p.scanned == larger(n, old(self).last_scanned)
                        && p.total == Some(t) && p.skipped == Some(old(self).stats.unchanged_skipped)
                        && p.changed == Some(old(self).stats.new_or_changed)
                } else {
                    *final(self) == *old(self) && r is None
                },
                ScanEvent::DepsDone => if old(self).phase == ScanPhase::Dependencies {
                    let end = if old(self).batch_failed { ScanPhase::Error } else { ScanPhase::Complete };
                    &&& final(self).phase == end
                    &&& r matches Some(p) && p.phase == end && p.scanned == old(self).indexed
                        && p.total == Some(old(self).stats.total_files)
                        && p.skipped == Some(old(self).stats.unchanged_skipped)
                        && p.changed == Some(old(self).stats.new_or_changed)
                } else {
                    *final(self) == *old(self) && r is None
                },
            },
    {
        if self.phase == ScanPhase::Complete || self.phase == ScanPhase::Cancelled || self.phase == ScanPhase::Error {
            return None;
        }
        match ev {
            ScanEvent::Fault => {
                self.phase = ScanPhase::Error;
                Some(ScanProgress { scanned: 0, total: None, current_path: String::new(), phase: ScanPhase::Error, skipped: None, changed: None })
            },
            ScanEvent::Counted(n) => {
                if self.phase != ScanPhase::Counting {
                    return None;
                }
                let s = if n > self.last_scanned { n } else { self.last_scanned };
                self.last_scanned = s;
                Some(ScanProgress { scanned: s, total: None, current_path: String::new(), phase: ScanPhase::Counting, skipped: None, changed: None })
            },
            ScanEvent::CountingDone(n) => {
                if self.phase != ScanPhase::Counting {
                    return None;
                }
                self.phase = ScanPhase::Indexing;
                self.total_files = n;
                self.last_scanned = 0;
                Some(ScanProgress { scanned: 0, total: Some(n), current_path: String::new(), phase: ScanPhase::Indexing, skipped: None, changed: None })
            },
            ScanEvent::BatchIndexed(n, path) => {
                if self.phase != ScanPhase::Indexing {
                    return None;
                }
                let s = if n > self.last_scanned { n } else { self.last_scanned };
                self.last_scanned = s;
                Some(ScanProgress { scanned: s, total: Some(self.total_files), current_path: path, phase: ScanPhase::Indexing, skipped: None, changed: None })
            },
            ScanEvent::IndexingDone(indexed, stats) => {
                if self.phase != ScanPhase::Indexing {
                    return None;
                }
                self.phase = ScanPhase::Dependencies;
                self.indexed = indexed;
                self.stats = stats;
                self.last_scanned = 0;
                Some(ScanProgress { scanned: 0, total: None, current_path: String::new(), phase: ScanPhase::Dependencies, skipped: Some(stats.unchanged_skipped), changed: Some(stats.new_or_changed) })
            },
            ScanEvent::DepsProgress(p, t) => {
                if self.phase != ScanPhase::Dependencies {
                    return None;
                }
                let s = if p > self.last_scanned { p } else { self.last_scanned };
                self.last_scanned = s;
                Some(ScanProgress { scanned: s, total: Some(t), current_path: String::new(), phase: ScanPhase::Dependencies, skipped: Some(self.stats.unchanged_skipped), changed: Some(self.stats.new_or_changed) })
            },
            ScanEvent::DepsDone => {
                if self.phase != ScanPhase::Dependencies {
                    return None;
                }
                let end = if self.batch_failed { ScanPhase::Error } else { ScanPhase::Complete };
                self.phase = end;
                Some(ScanProgress { scanned: self.indexed, total: Some(self.stats.total_files), current_path: String::new(), phase: end, skipped: Some(self.stats.unchanged_skipped), changed: Some(self.stats.new_or_changed) })
            },
            ScanEvent::BatchFailed => {
                if self.phase != ScanPhase::Indexing {
                    return None;
                }
                self.batch_failed = true;
                None
            },
        }
    }

    /// The cancel flag was seen: a running scan ends as cancelled.
    pub fn cancel(&mut self) -> (r: Option<ScanProgress>)
        ensures
            terminal(old(self).phase) ==> *final(self) == *old(self) && r is None,
            !terminal(old(self).phase) ==> final(self).phase == ScanPhase::Cancelled && (r matches Some(p)
                && p.phase == ScanPhase::Cancelled),
    {
        if self.phase == ScanPhase::Complete || self.phase == ScanPhase::Cancelled || self.phase == ScanPhase::Error {
            return None;
        }
        let in_deps = self.phase == ScanPhase::Dependencies;
        self.phase = ScanPhase::Cancelled;
        Some(ScanProgress {
            scanned: 0,
            total: None,
            current_path: String::new(),
            phase: ScanPhase::Cancelled,
            skipped: if in_deps { Some(self.stats.unchanged_skipped) } else { None },
            changed: if in_deps { Some(self.stats.new_or_changed) } else { None },
        })
    }
}

/// The process-wide slot that lets one scan run at a time.
#[derive(Debug)]
pub struct ScanSlot {
    pub running: bool,
    pub cancel_requested: bool,
}

impl ScanSlot {
    pub fn new() -> (r: ScanSlot)
        ensures
            !r.running,
            !r.cancel_requested,
    {
        ScanSlot { running: false, cancel_requested: false }
    }

    /// A new scan is asked for. When one runs, it is told to cancel and the
    /// caller waits for it (at most `PREVIOUS_SCAN_WAIT_SECS`); returns
    /// whether to wait.
    pub fn request_start(&mut self) -> (wait: bool)
        ensures
            wait == old(self).running,
            final(self).running == old(self).running,
            final(self).cancel_requested == (old(self).cancel_requested || old(self).running),
    {
        if self.running {
            self.cancel_requested = true;
        }
        self.running
    }

    /// The new scan starts, whether or not the previous one has ended.
    pub fn start(&mut self)
        ensures
            final(self).running,
            !final(self).cancel_requested,
    {
        self.cancel_requested = false;
        self.running = true;
    }

    /// A scan ended, in whatever way.
    pub fn finish(&mut self)
        ensures
            !final(self).running,
            final(self).cancel_requested == old(self).cancel_requested,
    {
        self.running = false;
    }

    /// The user asked to cancel.
    pub fn request_cancel(&mut self)
        ensures
            final(self).cancel_requested,
            final(self).running == old(self).running,
    {
        self.cancel_requested = true;
    }
}

/// Seconds a new scan waits for the previous one to stop.
pub const PREVIOUS_SCAN_WAIT_SECS: u64 = 5;

/// Least time between two assets-updated notifications, in milliseconds.
pub const REFRESH_INTERVAL_MS: u64 = 200;

/// Whether enough time passed since the last assets-updated notification.
pub fn should_refresh(last_ms: u64, now_ms: u64) -> (r: bool)
    ensures
        r == (now_ms > last_ms && now_ms - last_ms > REFRESH_INTERVAL_MS),
{
    now_ms > last_ms && now_ms - last_ms > REFRESH_INTERVAL_MS
}

/// Phases of a thumbnail regeneration.
#[derive(Debug, Clone, Copy, PartialEq, Eq, Structural)]
pub enum ThumbnailPhase {
    Counting,
    Generating,
    Complete,
    Cancelled,
}

/// A progress record of a thumbnail regeneration.
#[derive(Debug, Clone, Copy, PartialEq, Eq, Structural)]
pub struct ThumbnailProgress {
    pub generated: usize,
    pub total: usize,
    pub phase: ThumbnailPhase,
}

/// Batch size of a thumbnail regeneration.
pub const THUMBNAIL_BATCH: usize = 25;

/// After a batch that made `made` thumbnails: the new running count, and
/// whether the regeneration is over (a batch that makes none ends it).
pub fn after_thumbnail_batch(generated: usize, made: usize, total: usize) -> (r: (ThumbnailProgress, bool))
    ensures
        r.1 == (made == 0),
        r.0.total == total,
        r.0.generated == if made == 0 {
            generated as int
        } else if generated + made <= usize::MAX {
            generated + made
        } else {
            usize::MAX as int
        },
        r.0.phase == if made == 0 { ThumbnailPhase::Complete } else { ThumbnailPhase::Generating },
{
    if made == 0 {
        return (ThumbnailProgress { generated, total, phase: ThumbnailPhase::Complete }, true);
    }
    let g = if made <= usize::MAX - generated { generated + made } else { usize::MAX };
    (ThumbnailProgress { generated: g, total, phase: ThumbnailPhase::Generating }, false)
}

/// Before each batch of a thumbnail regeneration: when the cancel flag is
/// set, the record that ends it as cancelled; otherwise the record that
/// announces the next batch.
pub fn before_thumbnail_batch(cancel: bool, generated: usize, total: usize) -> (r: (ThumbnailProgress, bool))
    ensures
        r.1 == cancel,
        r.0.generated == generated,
        r.0.total == total,
        r.0.phase == if cancel { ThumbnailPhase::Cancelled } else { ThumbnailPhase::Generating },
{
    if cancel {
        (ThumbnailProgress { generated, total, phase: ThumbnailPhase::Cancelled }, true)
    } else {
        (ThumbnailProgress { generated, total, phase: ThumbnailPhase::Generating }, false)
    }
}

} // verus!
