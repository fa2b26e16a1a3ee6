//! The decision step of embedding-model acquisition.
//!
//! Fetching a model is download, decompress, load — all I/O outside the
//! library.  What is verified here is the decision: which of those steps a
//! run must perform, given which artifacts are already cached on disk.
//! Acquisition is idempotent: once the extracted model is cached, a repeat
//! acquisition performs no download and no extraction.

use vstd::prelude::*;

verus! {

/// What the acquisition step must do for one language's model.
#[derive(Clone, Copy, Debug, PartialEq, Eq, Structural)]
pub enum AcquireAction {
    /// The extracted model is already on disk: return it at once.
    UseCached,
    /// Only the compressed archive is on disk: extract it, download nothing.
    ExtractOnly,
    /// Neither artifact is on disk: download the archive, then extract it.
    DownloadAndExtract,
}

/// The acquisition decision: the extracted model wins over the archive,
/// and only a wholly absent model is downloaded.
pub open spec fn spec_acquire_action(model_cached: bool, archive_cached: bool) -> AcquireAction {
    if model_cached {
        AcquireAction::UseCached
    } else if archive_cached {
        AcquireAction::ExtractOnly
    } else {
        AcquireAction::DownloadAndExtract
    }
}

/// Decide what acquiring a model requires, given whether the extracted
/// model and the compressed archive are already cached.
pub fn acquire_action(model_cached: bool, archive_cached: bool) -> (r: AcquireAction)
    ensures
        r == spec_acquire_action(model_cached, archive_cached),
{
    if model_cached {
        AcquireAction::UseCached
    } else if archive_cached {
        AcquireAction::ExtractOnly
    } else {
        AcquireAction::DownloadAndExtract
    }
}

/// Law: acquisition is idempotent.  After a successful acquisition the
/// extracted model is cached, so a second acquisition for the same language
/// decides `UseCached`, whatever became of the archive: the download and
/// extraction happen at most once.
pub proof fn lemma_acquisition_idempotent(archive_cached: bool)
    ensures
        spec_acquire_action(true, archive_cached) == AcquireAction::UseCached,
{
}

} // verus!
