//! Data model of one download task.

use vstd::prelude::*;

verus! {

/// A full download, in micro-units: progress `PROGRESS_ONE` means the file is
/// completely downloaded. A fraction such as 0.62 is written `620000`.
pub const PROGRESS_ONE: u64 = 1000000;

/// Current state of a download.
#[derive(Clone)]
pub enum DownloadStatus {
    /// Download is in progress.
    Downloading,
    /// Download has completed successfully.
    Done,
}

/// One download task tracked for display.
pub struct DownloadTask {
    /// Human-readable title, assigned at creation.
    pub title: String,
    /// Unique video identifier, extracted from the submitted URL.
    pub video_id: String,
    /// Current status of the download.
    pub status: DownloadStatus,
    /// Progress in micro-units, between 0 and `PROGRESS_ONE`.
    pub progress: u64,
}

/// A task is well formed when its progress stays within a full download and
/// the status agrees with it: `Done` exactly at full progress.
pub open spec fn task_wf(t: DownloadTask) -> bool {
    &&& t.progress <= PROGRESS_ONE
    &&& (t.status is Done <==> t.progress == PROGRESS_ONE)
}

} // verus!
