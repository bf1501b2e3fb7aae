//! The ad-block extension lifecycle: keeping a local unpacked copy of the
//! extension in step with the latest release feed entry while doing no
//! redundant work. The decisions form a state machine here; the caller
//! performs each returned action (a file removal, a download, an
//! extraction...) and feeds the outcome back as the next event.

use vstd::prelude::*;

use crate::text;

verus! {

/// One release asset from the feed.
#[derive(Debug, Clone, PartialEq, Eq)]
pub struct ReleaseAsset {
    pub name: String,
    pub download_url: String,
}

/// The latest release, as read from the feed.
#[derive(Debug, Clone, PartialEq, Eq)]
pub struct ReleaseInfo {
    pub tag_name: String,
    pub assets: Vec<ReleaseAsset>,
}

/// Why the extension step failed; these abort the extension step only,
/// never the session bring-up around it.
#[derive(Debug, Clone, Copy, PartialEq, Eq, Structural)]
pub enum UblockFailure {
    FeedUnavailable,
    AssetNotFound,
    ArchiveCleanupFailed,
    DownloadFailed,
    DirRemovalFailed,
    DirCreationFailed,
    ExtractionFailed,
    MarkerWriteFailed,
    EmptyExtensionDirectory,
    ProtocolViolation,
}

/// The fixed diagnostic for each failure.
pub open spec fn failure_text(f: UblockFailure) -> Seq<char> {
    match f {
        UblockFailure::FeedUnavailable => "release feed unreachable or malformed"@,
        UblockFailure::AssetNotFound => "could not find the latest uBlock Origin asset for Chromium"@,
        UblockFailure::ArchiveCleanupFailed => "failed to remove old uBlock Origin asset file"@,
        UblockFailure::DownloadFailed => "failed to download uBlock Origin asset"@,
        UblockFailure::DirRemovalFailed => "failed to remove old uBlock Origin extension directory"@,
        UblockFailure::DirCreationFailed => "failed to create uBlock Origin extension directory"@,
        UblockFailure::ExtractionFailed => "failed to extract uBlock Origin asset file"@,
        UblockFailure::MarkerWriteFailed => "failed to update uBlock Origin version file"@,
        UblockFailure::EmptyExtensionDirectory => "uBlock Origin extension directory is empty"@,
        UblockFailure::ProtocolViolation => "extension lifecycle driven out of order"@,
    }
}

impl UblockFailure {
    /// Renders the fixed diagnostic for this failure.
    pub fn message(&self) -> (r: &'static str)
        ensures
            r@ == failure_text(*self),
    {
        match self {
            UblockFailure::FeedUnavailable => "release feed unreachable or malformed",
            UblockFailure::AssetNotFound => "could not find the latest uBlock Origin asset for Chromium",
            UblockFailure::ArchiveCleanupFailed => "failed to remove old uBlock Origin asset file",
            UblockFailure::DownloadFailed => "failed to download uBlock Origin asset",
            UblockFailure::DirRemovalFailed => "failed to remove old uBlock Origin extension directory",
            UblockFailure::DirCreationFailed => "failed to create uBlock Origin extension directory",
            UblockFailure::ExtractionFailed => "failed to extract uBlock Origin asset file",
            UblockFailure::MarkerWriteFailed => "failed to update uBlock Origin version file",
            UblockFailure::EmptyExtensionDirectory => "uBlock Origin extension directory is empty",
            UblockFailure::ProtocolViolation => "extension lifecycle driven out of order",
        }
    }
}

/// Where the lifecycle stands; states that still owe work carry what the
/// coming steps need.
#[derive(Debug, Clone, PartialEq, Eq)]
pub enum UblockState {
    AwaitingMarker,
    AwaitingFeed { current: Option<String> },
    AwaitingArchiveCleanup { info: ReleaseInfo },
    AwaitingDownload { tag: String },
    AwaitingDirRemoval { tag: String },
    AwaitingDirCreation { tag: String },
    AwaitingExtraction { tag: String },
    AwaitingArchiveDiscard { tag: String },
    AwaitingMarkerWrite { tag: String },
    Complete { updated: bool },
    Failed { reason: UblockFailure },
}

/// What the outside world reports back: each variant answers the
/// like-named action. A marker of `None` means the file was absent or
/// unreadable (both are treated as "no prior version"); a feed of `None`
/// means the feed was unreachable or malformed.
#[derive(Debug, Clone, PartialEq, Eq)]
pub enum UblockEvent {
    MarkerRead(Option<String>),
    FeedFetched(Option<ReleaseInfo>),
    ArchiveCleaned(bool),
    Downloaded(bool),
    DirRemoved(bool),
    DirCreated(bool),
    Extracted(bool),
    ArchiveDiscarded(bool),
    MarkerWritten(bool),
}

/// What the caller must do next. `DiscardArchive` and the outcome of
/// `ArchiveDiscarded` are best-effort: a failure there is ignored.
/// `RollbackInstall` deletes both the version marker and the half-extracted
/// directory, deliberately invalidating the previous install.
#[derive(Debug, Clone, PartialEq, Eq)]
pub enum UblockAction {
    ReadMarker,
    FetchFeed,
    RemoveStaleArchive,
    DownloadAsset { url: String },
    RemoveOldDir,
    CreateDir,
    ExtractArchive,
    DiscardArchive,
    WriteMarker { tag: String },
    RollbackInstall,
    Stop,
}

/// The stored marker, trimmed, equals the latest feed tag: nothing to do.
pub open spec fn up_to_date(current: Option<String>, tag: Seq<char>) -> bool {
    current matches Some(c) && text::trim_spaces(c@) == tag
}

/// An asset whose name carries the platform keyword.
pub open spec fn asset_matches(a: ReleaseAsset) -> bool {
    text::contains_seq(a.name@, "chromium"@)
}

/// The index of the first matching asset, or `-1` when none matches.
pub open spec fn first_matching_asset(assets: Seq<ReleaseAsset>) -> int
    decreases assets.len(),
{
    if assets.len() == 0 {
        -1
    } else if asset_matches(assets[0]) {
        0
    } else {
        let r = first_matching_asset(assets.drop_first());
        if r < 0 {
            -1
        } else {
            r + 1
        }
    }
}

proof fn lemma_first_matching_asset(assets: Seq<ReleaseAsset>)
    ensures
        first_matching_asset(assets) == -1 ==> forall|j: int|
            0 <= j < assets.len() ==> !asset_matches(#[trigger] assets[j]),
        first_matching_asset(assets) != -1 ==> 0 <= first_matching_asset(assets) < assets.len()
            && asset_matches(assets[first_matching_asset(assets)]) && forall|j: int|
            0 <= j < first_matching_asset(assets) ==> !asset_matches(#[trigger] assets[j]),
    decreases assets.len(),
{
    if assets.len() > 0 && !asset_matches(assets[0]) {
        lemma_first_matching_asset(assets.drop_first());
        let r = first_matching_asset(assets.drop_first());
        if r == -1 {
            assert forall|j: int| 0 <= j < assets.len() implies !asset_matches(
                #[trigger] assets[j],
            ) by {
                if j > 0 {
                    assert(assets.drop_first()[j - 1] == assets[j]);
                }
            }
        } else {
            assert(assets.drop_first()[r] == assets[r + 1]);
            assert forall|j: int| 0 <= j < r + 1 implies !asset_matches(#[trigger] assets[j]) by {
                if j > 0 {
                    assert(assets.drop_first()[j - 1] == assets[j]);
                }
            }
        }
    }
}

/// Scans the asset list for the first asset whose name contains the
/// platform keyword.
pub fn find_chromium_asset(assets: &Vec<ReleaseAsset>) -> (r: Option<usize>)
    ensures
        match r {
            Some(i) => first_matching_asset(assets@) == i as int,
            None => first_matching_asset(assets@) == -1,
        },
{
    let n = assets.len();
    let mut i: usize = 0;
    while i < n
        invariant
            n == assets@.len(),
            i <= n,
            forall|j: int| 0 <= j < i ==> !asset_matches(#[trigger] assets@[j]),
        decreases n - i,
    {
        if text::contains_substr(assets[i].name.as_str(), "chromium") {
            proof {
                lemma_first_matching_asset(assets@);
            }
            return Some(i);
        }
        i += 1;
    }
    proof {
        lemma_first_matching_asset(assets@);
    }
    None
}

/// The transition relation of the lifecycle. Mismatched state/event pairs
/// fail with `ProtocolViolation`.
pub open spec fn ublock_step_spec(state: UblockState, event: UblockEvent) -> (
    UblockState,
    UblockAction,
) {
    match (state, event) {
        (UblockState::AwaitingMarker, UblockEvent::MarkerRead(m)) => (
            UblockState::AwaitingFeed { current: m },
            UblockAction::FetchFeed,
        ),
        (UblockState::AwaitingFeed { current }, UblockEvent::FeedFetched(None)) => (
            UblockState::Failed { reason: UblockFailure::FeedUnavailable },
            UblockAction::Stop,
        ),
        (UblockState::AwaitingFeed { current }, UblockEvent::FeedFetched(Some(info))) => {
            if up_to_date(current, info.tag_name@) {
                (UblockState::Complete { updated: false }, UblockAction::Stop)
            } else {
                (
                    UblockState::AwaitingArchiveCleanup { info },
                    UblockAction::RemoveStaleArchive,
                )
            }
        },
        (UblockState::AwaitingArchiveCleanup { info }, UblockEvent::ArchiveCleaned(ok)) => {
            if !ok {
                (
                    UblockState::Failed { reason: UblockFailure::ArchiveCleanupFailed },
                    UblockAction::Stop,
                )
            } else {
                let k = first_matching_asset(info.assets@);
                if k < 0 {
                    (
                        UblockState::Failed { reason: UblockFailure::AssetNotFound },
                        UblockAction::Stop,
                    )
                } else {
                    (
                        UblockState::AwaitingDownload { tag: info.tag_name },
                        UblockAction::DownloadAsset { url: info.assets[k].download_url },
                    )
                }
            }
        },
        (UblockState::AwaitingDownload { tag }, UblockEvent::Downloaded(ok)) => {
            if ok {
                (UblockState::AwaitingDirRemoval { tag }, UblockAction::RemoveOldDir)
            } else {
                (UblockState::Failed { reason: UblockFailure::DownloadFailed }, UblockAction::Stop)
            }
        },
        (UblockState::AwaitingDirRemoval { tag }, UblockEvent::DirRemoved(ok)) => {
            if ok {
                (UblockState::AwaitingDirCreation { tag }, UblockAction::CreateDir)
            } else {
                (
                    UblockState::Failed { reason: UblockFailure::DirRemovalFailed },
                    UblockAction::Stop,
                )
            }
        },
        (UblockState::AwaitingDirCreation { tag }, UblockEvent::DirCreated(ok)) => {
            if ok {
                (UblockState::AwaitingExtraction { tag }, UblockAction::ExtractArchive)
            } else {
                (
                    UblockState::Failed { reason: UblockFailure::DirCreationFailed },
                    UblockAction::Stop,
                )
            }
        },
        (UblockState::AwaitingExtraction { tag }, UblockEvent::Extracted(ok)) => {
            if ok {
                (UblockState::AwaitingArchiveDiscard { tag }, UblockAction::DiscardArchive)
            } else {
                (
                    UblockState::Failed { reason: UblockFailure::ExtractionFailed },
                    UblockAction::RollbackInstall,
                )
            }
        },
        (UblockState::AwaitingArchiveDiscard { tag }, UblockEvent::ArchiveDiscarded(_)) => (
            UblockState::AwaitingMarkerWrite { tag: tag },
            UblockAction::WriteMarker { tag: tag },
        ),
        (UblockState::AwaitingMarkerWrite { tag }, UblockEvent::MarkerWritten(ok)) => {
            if ok {
                (UblockState::Complete { updated: true }, UblockAction::Stop)
            } else {
                (
                    UblockState::Failed { reason: UblockFailure::MarkerWriteFailed },
                    UblockAction::Stop,
                )
            }
        },
        (_, _) => (
            UblockState::Failed { reason: UblockFailure::ProtocolViolation },
            UblockAction::Stop,
        ),
    }
}

/// Where a lifecycle run begins: reading the stored version marker.
pub fn ublock_initial() -> (r: (UblockState, UblockAction))
    ensures
        r.0 == UblockState::AwaitingMarker,
        r.1 == UblockAction::ReadMarker,
{
    (UblockState::AwaitingMarker, UblockAction::ReadMarker)
}

/// Advances the lifecycle by one step, per `ublock_step_spec`.
pub fn ublock_step(state: UblockState, event: UblockEvent) -> (r: (UblockState, UblockAction))
    ensures
        r == ublock_step_spec(state, event),
{
    match (state, event) {
        (UblockState::AwaitingMarker, UblockEvent::MarkerRead(m)) => (
            UblockState::AwaitingFeed { current: m },
            UblockAction::FetchFeed,
        ),
        (UblockState::AwaitingFeed { current: _ }, UblockEvent::FeedFetched(None)) => (
            UblockState::Failed { reason: UblockFailure::FeedUnavailable },
            UblockAction::Stop,
        ),
        (UblockState::AwaitingFeed { current }, UblockEvent::FeedFetched(Some(info))) => {
            let fresh = match &current {
                Some(c) => {
                    let trimmed = text::trim_ascii(c.as_str());
                    trimmed.to_owned().eq(&info.tag_name)
                },
                None => false,
            };
            if fresh {
                (UblockState::Complete { updated: false }, UblockAction::Stop)
            } else {
                (
                    UblockState::AwaitingArchiveCleanup { info },
                    UblockAction::RemoveStaleArchive,
                )
            }
        },
        (UblockState::AwaitingArchiveCleanup { info }, UblockEvent::ArchiveCleaned(ok)) => {
            if !ok {
                (
                    UblockState::Failed { reason: UblockFailure::ArchiveCleanupFailed },
                    UblockAction::Stop,
                )
            } else {
                match find_chromium_asset(&info.assets) {
                    None => (
                        UblockState::Failed { reason: UblockFailure::AssetNotFound },
                        UblockAction::Stop,
                    ),
                    Some(k) => {
                        proof {
                            lemma_first_matching_asset(info.assets@);
                        }
                        (
                            UblockState::AwaitingDownload { tag: info.tag_name },
                            UblockAction::DownloadAsset {
                                url: info.assets[k].download_url.clone(),
                            },
                        )
                    },
                }
            }
        },
        (UblockState::AwaitingDownload { tag }, UblockEvent::Downloaded(ok)) => {
            if ok {
                (UblockState::AwaitingDirRemoval { tag }, UblockAction::RemoveOldDir)
            } else {
                (UblockState::Failed { reason: UblockFailure::DownloadFailed }, UblockAction::Stop)
            }
        },
        (UblockState::AwaitingDirRemoval { tag }, UblockEvent::DirRemoved(ok)) => {
            if ok {
                (UblockState::AwaitingDirCreation { tag }, UblockAction::CreateDir)
            } else {
                (
                    UblockState::Failed { reason: UblockFailure::DirRemovalFailed },
                    UblockAction::Stop,
                )
            }
        },
        (UblockState::AwaitingDirCreation { tag }, UblockEvent::DirCreated(ok)) => {
            if ok {
                (UblockState::AwaitingExtraction { tag }, UblockAction::ExtractArchive)
            } else {
                (
                    UblockState::Failed { reason: UblockFailure::DirCreationFailed },
                    UblockAction::Stop,
                )
            }
        },
        (UblockState::AwaitingExtraction { tag }, UblockEvent::Extracted(ok)) => {
            if ok {
                (UblockState::AwaitingArchiveDiscard { tag }, UblockAction::DiscardArchive)
            } else {
                (
                    UblockState::Failed { reason: UblockFailure::ExtractionFailed },
                    UblockAction::RollbackInstall,
                )
            }
        },
        (UblockState::AwaitingArchiveDiscard { tag }, UblockEvent::ArchiveDiscarded(_)) => {
            let written = tag.clone();
            (
                UblockState::AwaitingMarkerWrite { tag },
                UblockAction::WriteMarker { tag: written },
            )
        },
        (UblockState::AwaitingMarkerWrite { tag: _ }, UblockEvent::MarkerWritten(ok)) => {
            if ok {
                (UblockState::Complete { updated: true }, UblockAction::Stop)
            } else {
                (
                    UblockState::Failed { reason: UblockFailure::MarkerWriteFailed },
                    UblockAction::Stop,
                )
            }
        },
        (_, _) => (
            UblockState::Failed { reason: UblockFailure::ProtocolViolation },
            UblockAction::Stop,
        ),
    }
}

/// With a stored marker equal (after trimming) to the latest feed tag, the
/// feed step completes at once with nothing updated: no download, no
/// extraction, no further action at all.
pub proof fn lemma_up_to_date_skips_download(current: Option<String>, info: ReleaseInfo)
    requires
        up_to_date(current, info.tag_name@),
    ensures
        ublock_step_spec(
            UblockState::AwaitingFeed { current },
            UblockEvent::FeedFetched(Some(info)),
        ) == (UblockState::Complete { updated: false }, UblockAction::Stop),
{
}

/// Which path is the effective extension root, judged from how many
/// entries the unpacked directory holds.
#[derive(Debug, Clone, Copy, PartialEq, Eq, Structural)]
pub enum ExtensionRoot {
    /// Exactly one entry: the archive wrapped its content in a top-level
    /// folder, and that entry is the root.
    SingleEntry,
    /// Several entries: the content was flattened; the directory itself is
    /// the root.
    DirectoryItself,
}

/// Resolves the effective extension root from the number of entries in
/// the unpacked directory: an empty directory is always an error, a single
/// entry is the root, anything more means the directory itself is.
pub fn get_ublock_directory(entry_count: usize) -> (r: Result<ExtensionRoot, UblockFailure>)
    ensures
        entry_count == 0 ==> r == Err::<ExtensionRoot, UblockFailure>(
            UblockFailure::EmptyExtensionDirectory,
        ),
        entry_count == 1 ==> r == Ok::<ExtensionRoot, UblockFailure>(ExtensionRoot::SingleEntry),
        entry_count >= 2 ==> r == Ok::<ExtensionRoot, UblockFailure>(
            ExtensionRoot::DirectoryItself,
        ),
{
    if entry_count == 0 {
        Err(UblockFailure::EmptyExtensionDirectory)
    } else if entry_count == 1 {
        Ok(ExtensionRoot::SingleEntry)
    } else {
        Ok(ExtensionRoot::DirectoryItself)
    }
}

} // verus!
