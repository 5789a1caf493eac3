//! Decisions of the 3-D scan service: slice-image read errors, scan
//! defaults, and the progress stream of a full scan.

use vstd::prelude::*;

verus! {

/// Decimation used when a scan request does not override it.
pub const DEFAULT_DECIMATION: i32 = 50;

/// Wire number of the black-on-white profile finder strategy.
pub const FINDER_STRATEGY_BLACK_ON_WHITE: i32 = 1;

/// Why a file operation failed, as far as the service distinguishes.
#[derive(Debug, Clone, Copy, PartialEq, Eq, Structural)]
pub enum IoFailure {
    NotFound,
    PermissionDenied,
    Other,
}

/// Stable error categories for slice-image reads. Raw operating-system
/// messages are not passed on: they differ across platforms and locales.
#[derive(Debug, Clone, Copy, PartialEq, Eq, Structural)]
pub enum SliceImageError {
    EmptyPath,
    NotFound,
    PermissionDenied,
    NotARegularFile,
    ReadFailed,
}

pub open spec fn slice_error_text(e: SliceImageError) -> Seq<char> {
    match e {
        SliceImageError::EmptyPath => "slice_path is empty"@,
        SliceImageError::NotFound => "file not found"@,
        SliceImageError::PermissionDenied => "permission denied"@,
        SliceImageError::NotARegularFile => "not a regular file"@,
        SliceImageError::ReadFailed => "read failed"@,
    }
}

impl SliceImageError {
    /// The message clients see for this category.
    pub fn as_str(&self) -> (r: &'static str)
        ensures
            r@ == slice_error_text(*self),
    {
        match self {
            SliceImageError::EmptyPath => "slice_path is empty",
            SliceImageError::NotFound => "file not found",
            SliceImageError::PermissionDenied => "permission denied",
            SliceImageError::NotARegularFile => "not a regular file",
            SliceImageError::ReadFailed => "read failed",
        }
    }

    /// The category of a failed metadata lookup or read.
    pub fn from_io(f: IoFailure) -> (r: SliceImageError)
        ensures
            r == match f {
                IoFailure::NotFound => SliceImageError::NotFound,
                IoFailure::PermissionDenied => SliceImageError::PermissionDenied,
                IoFailure::Other => SliceImageError::ReadFailed,
            },
    {
        match f {
            IoFailure::NotFound => SliceImageError::NotFound,
            IoFailure::PermissionDenied => SliceImageError::PermissionDenied,
            IoFailure::Other => SliceImageError::ReadFailed,
        }
    }
}

/// A slice path must not be empty.
pub fn check_slice_path(path: &str) -> (r: Result<(), SliceImageError>)
    ensures
        r is Err <==> path@.len() == 0,
        r is Err ==> r == Err::<(), SliceImageError>(SliceImageError::EmptyPath),
{
    if path.unicode_len() == 0 {
        Err(SliceImageError::EmptyPath)
    } else {
        Ok(())
    }
}

/// What the metadata lookup of a slice path says: the path is read only
/// when it names a regular file.
pub fn check_slice_metadata(meta: Result<bool, IoFailure>) -> (r: Result<(), SliceImageError>)
    ensures
        r == match meta {
            Ok(true) => Ok::<(), SliceImageError>(()),
            Ok(false) => Err(SliceImageError::NotARegularFile),
            Err(IoFailure::NotFound) => Err(SliceImageError::NotFound),
            Err(IoFailure::PermissionDenied) => Err(SliceImageError::PermissionDenied),
            Err(IoFailure::Other) => Err(SliceImageError::ReadFailed),
        },
{
    match meta {
        Ok(true) => Ok(()),
        Ok(false) => Err(SliceImageError::NotARegularFile),
        Err(f) => Err(SliceImageError::from_io(f)),
    }
}

/// A full scan in progress: how many slices it has and the index of the
/// next slice to report.
pub struct ScanRun {
    pub slices_total: usize,
    pub next: usize,
}

/// What happened while handling the next slice.
pub enum SliceEvent {
    /// The client stopped listening.
    ReceiverClosed,
    /// There is no connection to the profile detector.
    NoDetector,
    /// The detector answered; `success` tells whether it found a profile.
    Detected { success: bool },
    /// The call to the detector failed.
    DetectorFailed,
}

/// What to send for a slice. Every slice the detector answered gets a
/// progress message, with points when a profile was found and an empty
/// chunk otherwise, so slice indices stay contiguous.
pub enum ScanAction {
    /// Stop without sending anything more.
    Stop,
    /// Send the progress of slice `index` out of `total`.
    Progress { index: i32, total: i32, with_points: bool },
    /// Send the error that there is no detector, then stop.
    FailNoDetector,
    /// Send the detection error for this slice, then stop: an error ends the
    /// stream.
    FailDetection,
}

/// The wire number of a slice index or count.
pub open spec fn wire_index(n: int) -> i32 {
    n as i32
}

/// One step of a full scan: the next state and what to send.
pub open spec fn spec_scan_step(run: ScanRun, event: SliceEvent) -> (ScanRun, ScanAction) {
    match event {
        SliceEvent::ReceiverClosed => (run, ScanAction::Stop),
        SliceEvent::NoDetector => (run, ScanAction::FailNoDetector),
        SliceEvent::DetectorFailed => (run, ScanAction::FailDetection),
        SliceEvent::Detected { success } => (
            ScanRun { slices_total: run.slices_total, next: (run.next + 1) as usize },
            ScanAction::Progress {
                index: wire_index(run.next as int),
                total: wire_index(run.slices_total as int),
                with_points: success,
            },
        ),
    }
}

/// Handles one event of a full scan: the next state and what to send.
pub fn scan_step(run: &ScanRun, event: SliceEvent) -> (r: (ScanRun, ScanAction))
    requires
        run.next < run.slices_total,
    ensures
        r == spec_scan_step(*run, event),
{
    match event {
        SliceEvent::ReceiverClosed => (
            ScanRun { slices_total: run.slices_total, next: run.next },
            ScanAction::Stop,
        ),
        SliceEvent::NoDetector => (
            ScanRun { slices_total: run.slices_total, next: run.next },
            ScanAction::FailNoDetector,
        ),
        SliceEvent::DetectorFailed => (
            ScanRun { slices_total: run.slices_total, next: run.next },
            ScanAction::FailDetection,
        ),
        SliceEvent::Detected { success } => {
            #[verifier::truncate]
            let index = run.next as i32;
            #[verifier::truncate]
            let total = run.slices_total as i32;
            (
                ScanRun { slices_total: run.slices_total, next: run.next + 1 },
                ScanAction::Progress { index, total, with_points: success },
            )
        },
    }
}

/// The state after the detector answered each of the first `k` slices,
/// `successes[j]` telling whether it found a profile in slice `j`.
pub open spec fn run_after(total: usize, successes: Seq<bool>, k: int) -> ScanRun
    decreases k,
{
    if k <= 0 {
        ScanRun { slices_total: total, next: 0 }
    } else {
        spec_scan_step(
            run_after(total, successes, k - 1),
            SliceEvent::Detected { success: successes[k - 1] },
        ).0
    }
}

/// What is sent for slice `k` in such a run.
pub open spec fn progress_report(total: usize, successes: Seq<bool>, k: int) -> ScanAction {
    spec_scan_step(run_after(total, successes, k), SliceEvent::Detected { success: successes[k] }).1
}

pub proof fn lemma_run_position(total: usize, successes: Seq<bool>, k: int)
    requires
        0 <= k <= successes.len() <= total,
    ensures
        run_after(total, successes, k).next == k,
        run_after(total, successes, k).slices_total == total,
    decreases k,
{
    if k > 0 {
        lemma_run_position(total, successes, k - 1);
    }
}

/// Stream law: while the detector answers, slice `k` is reported as index
/// `k` out of the scan's total, whether or not a profile was found, so the
/// indices are contiguous.
pub proof fn lemma_progress_indices_contiguous(total: usize, successes: Seq<bool>)
    requires
        successes.len() <= total,
    ensures
        forall|k: int|
            0 <= k < successes.len() ==> #[trigger] progress_report(total, successes, k)
                == (ScanAction::Progress {
                index: wire_index(k),
                total: wire_index(total as int),
                with_points: successes[k],
            }),
{
    assert forall|k: int| 0 <= k < successes.len() implies #[trigger] progress_report(
        total,
        successes,
        k,
    ) == (ScanAction::Progress {
        index: wire_index(k),
        total: wire_index(total as int),
        with_points: successes[k],
    }) by {
        lemma_run_position(total, successes, k);
    }
}

} // verus!
