//! The browser provisioner's decisions: driver matching, capabilities,
//! the channel-wait retry, the anti-detection commands, and the extension
//! lifecycle.

use epifetch::browser::{
    anti_detection_commands, build_capabilities, channel_wait_step, driver_port_arg,
    plan_driver_setup, u32_to_string, ChannelAction, DriverPlan, CHANNEL_MAX_ATTEMPTS,
};
use epifetch::ublock::{
    find_chromium_asset, get_ublock_directory, ublock_initial, ublock_step, ExtensionRoot,
    ReleaseAsset, ReleaseInfo, UblockAction, UblockEvent, UblockFailure, UblockState,
};

/// Runs the channel wait against a scripted list of attempt outcomes,
/// counting attempts and accumulated backoff.
fn drive_channel(outcomes: &[bool]) -> (u32, u32, bool) {
    let mut tries: u8 = 0;
    let mut attempts: u32 = 0;
    let mut backoff: u32 = 0;
    for &connected in outcomes {
        let (next, action) = channel_wait_step(tries, connected);
        attempts += 1;
        match action {
            ChannelAction::Ready => return (attempts, backoff, true),
            ChannelAction::GiveUp => return (attempts, backoff, false),
            ChannelAction::RetryAfterBackoff => backoff += 50,
        }
        tries = next;
    }
    (attempts, backoff, false)
}

fn failures_then_success(n: usize) -> Vec<bool> {
    let mut v = vec![false; n];
    v.push(true);
    v
}

#[test]
fn channel_wait_succeeds_after_each_failure_count_under_budget() {
    for n in [0usize, 1, 7, 99] {
        let (attempts, backoff, ready) = drive_channel(&failures_then_success(n));
        assert!(ready);
        assert_eq!(attempts, n as u32 + 1);
        assert_eq!(backoff, n as u32 * 50);
    }
}

#[test]
fn channel_wait_gives_up_after_exactly_the_budget() {
    for n in [100usize, 150] {
        let (attempts, _backoff, ready) = drive_channel(&failures_then_success(n));
        assert!(!ready);
        assert_eq!(attempts, CHANNEL_MAX_ATTEMPTS as u32);
    }
}

#[test]
fn discovered_driver_of_matching_major_is_reused() {
    let found = Some(("128.0.6613.84".to_string(), "/opt/driver".to_string()));
    assert_eq!(
        plan_driver_setup(128, found),
        DriverPlan::UseDiscovered { path: "/opt/driver".to_string() }
    );
}

#[test]
fn mismatched_or_missing_driver_is_downloaded() {
    let stale = Some(("127.0.1.2".to_string(), "/opt/driver".to_string()));
    assert_eq!(plan_driver_setup(128, stale), DriverPlan::DownloadMatching);
    assert_eq!(plan_driver_setup(128, None), DriverPlan::DownloadMatching);
    // A dotless version still has a major to compare.
    let dotless = Some(("128".to_string(), "/opt/driver".to_string()));
    assert_eq!(
        plan_driver_setup(128, dotless),
        DriverPlan::UseDiscovered { path: "/opt/driver".to_string() }
    );
}

#[test]
fn decimal_rendering() {
    assert_eq!(u32_to_string(0), "0");
    assert_eq!(u32_to_string(128), "128");
    assert_eq!(u32_to_string(4294967295), "4294967295");
    assert_eq!(driver_port_arg(4444), "--port=4444");
}

#[test]
fn headless_capabilities() {
    let caps = build_capabilities(true, Some("/data/uBlock/ext"));
    let expected: Vec<String> = [
        "--no-sandbox",
        "--disable-dev-shm-usage",
        "--disable-blink-features=AutomationControlled",
        "window-size=1920,1080",
        "disable-infobars",
        "--headless=old",
        "--log-level=3",
        "--load-extension=/data/uBlock/ext",
    ]
    .iter()
    .map(|s| s.to_string())
    .collect();
    assert_eq!(caps.args, expected);
    let excludes: Vec<String> =
        ["enable-logging", "enable-automation"].iter().map(|s| s.to_string()).collect();
    assert_eq!(caps.exclude_switches, excludes);
}

#[test]
fn headful_capabilities() {
    let caps = build_capabilities(false, None);
    let expected: Vec<String> = [
        "--no-sandbox",
        "--disable-dev-shm-usage",
        "--disable-blink-features=AutomationControlled",
        "window-size=1920,1080",
        "disable-infobars",
    ]
    .iter()
    .map(|s| s.to_string())
    .collect();
    assert_eq!(caps.args, expected);
    let excludes: Vec<String> = ["enable-automation"].iter().map(|s| s.to_string()).collect();
    assert_eq!(caps.exclude_switches, excludes);
}

#[test]
fn anti_detection_commands_come_in_order() {
    let cmds = anti_detection_commands();
    assert_eq!(cmds.len(), 2);
    assert_eq!(cmds[0].method, "Page.removeScriptToEvaluateOnNewDocument");
    assert_eq!(cmds[0].param_name, "identifier");
    assert_eq!(cmds[0].param_value, "1");
    assert_eq!(cmds[1].method, "Page.addScriptToEvaluateOnNewDocument");
    assert_eq!(cmds[1].param_name, "source");
    assert!(cmds[1].param_value.contains("webdriver"));
    assert!(cmds[1].param_value.contains("navigator"));
}

fn feed(tag: &str, assets: Vec<(&str, &str)>) -> ReleaseInfo {
    ReleaseInfo {
        tag_name: tag.to_string(),
        assets: assets
            .into_iter()
            .map(|(name, url)| ReleaseAsset {
                name: name.to_string(),
                download_url: url.to_string(),
            })
            .collect(),
    }
}

/// Drives the lifecycle machine with everything on disk succeeding,
/// returning the number of downloads requested and the final state.
fn drive_ublock(marker: Option<&str>, info: ReleaseInfo) -> (u32, UblockState) {
    let (state, action) = ublock_initial();
    assert_eq!(action, UblockAction::ReadMarker);
    let mut downloads: u32 = 0;
    let mut state = state;
    let mut event = UblockEvent::MarkerRead(marker.map(|s| s.to_string()));
    let mut fed_feed = false;
    loop {
        let (next, action) = ublock_step(state, event);
        state = next;
        event = match action {
            UblockAction::FetchFeed => {
                assert!(!fed_feed);
                fed_feed = true;
                UblockEvent::FeedFetched(Some(info.clone()))
            }
            UblockAction::RemoveStaleArchive => UblockEvent::ArchiveCleaned(true),
            UblockAction::DownloadAsset { url: _ } => {
                downloads += 1;
                UblockEvent::Downloaded(true)
            }
            UblockAction::RemoveOldDir => UblockEvent::DirRemoved(true),
            UblockAction::CreateDir => UblockEvent::DirCreated(true),
            UblockAction::ExtractArchive => UblockEvent::Extracted(true),
            UblockAction::DiscardArchive => UblockEvent::ArchiveDiscarded(true),
            UblockAction::WriteMarker { tag: _ } => UblockEvent::MarkerWritten(true),
            UblockAction::ReadMarker | UblockAction::RollbackInstall | UblockAction::Stop => {
                return (downloads, state);
            }
        };
    }
}

#[test]
fn current_marker_skips_download_entirely() {
    let info = feed("1.58.0", vec![("uBlock0_1.58.0.chromium.zip", "https://host/asset.zip")]);
    let (downloads, state) = drive_ublock(Some("1.58.0"), info);
    assert_eq!(downloads, 0);
    assert_eq!(state, UblockState::Complete { updated: false });
}

#[test]
fn marker_is_compared_after_trimming() {
    let info = feed("1.58.0", vec![("uBlock0_1.58.0.chromium.zip", "https://host/asset.zip")]);
    let (downloads, state) = drive_ublock(Some("1.58.0\n"), info);
    assert_eq!(downloads, 0);
    assert_eq!(state, UblockState::Complete { updated: false });
}

#[test]
fn stale_marker_downloads_exactly_once_and_records_the_tag() {
    let info = feed(
        "1.58.0",
        vec![
            ("uBlock0_1.58.0.firefox.zip", "https://host/ff.zip"),
            ("uBlock0_1.58.0.chromium.zip", "https://host/cr.zip"),
        ],
    );
    let (downloads, state) = drive_ublock(Some("1.57.2"), info.clone());
    assert_eq!(downloads, 1);
    assert_eq!(state, UblockState::Complete { updated: true });

    // The download request carries the matching asset's URL, and the marker
    // written at the end carries the new tag.
    let (state, _) = ublock_initial();
    let (state, _) = ublock_step(state, UblockEvent::MarkerRead(None));
    let (state, action) = ublock_step(state, UblockEvent::FeedFetched(Some(info)));
    assert_eq!(action, UblockAction::RemoveStaleArchive);
    let (state, action) = ublock_step(state, UblockEvent::ArchiveCleaned(true));
    assert_eq!(action, UblockAction::DownloadAsset { url: "https://host/cr.zip".to_string() });
    let (state, _) = ublock_step(state, UblockEvent::Downloaded(true));
    let (state, _) = ublock_step(state, UblockEvent::DirRemoved(true));
    let (state, _) = ublock_step(state, UblockEvent::DirCreated(true));
    let (state, _) = ublock_step(state, UblockEvent::Extracted(true));
    let (state, action) = ublock_step(state, UblockEvent::ArchiveDiscarded(false));
    assert_eq!(action, UblockAction::WriteMarker { tag: "1.58.0".to_string() });
    let (state, _) = ublock_step(state, UblockEvent::MarkerWritten(true));
    assert_eq!(state, UblockState::Complete { updated: true });
}

#[test]
fn absent_marker_installs() {
    let info = feed("1.58.0", vec![("uBlock0_1.58.0.chromium.zip", "https://host/asset.zip")]);
    let (downloads, state) = drive_ublock(None, info);
    assert_eq!(downloads, 1);
    assert_eq!(state, UblockState::Complete { updated: true });
}

#[test]
fn missing_chromium_asset_is_a_hard_failure() {
    let info = feed("1.58.0", vec![("uBlock0_1.58.0.firefox.zip", "https://host/ff.zip")]);
    let (downloads, state) = drive_ublock(None, info);
    assert_eq!(downloads, 0);
    assert_eq!(state, UblockState::Failed { reason: UblockFailure::AssetNotFound });
}

#[test]
fn extraction_failure_rolls_back() {
    let info = feed("1.58.0", vec![("uBlock0_1.58.0.chromium.zip", "https://host/asset.zip")]);
    let (state, _) = ublock_initial();
    let (state, _) = ublock_step(state, UblockEvent::MarkerRead(None));
    let (state, _) = ublock_step(state, UblockEvent::FeedFetched(Some(info)));
    let (state, _) = ublock_step(state, UblockEvent::ArchiveCleaned(true));
    let (state, _) = ublock_step(state, UblockEvent::Downloaded(true));
    let (state, _) = ublock_step(state, UblockEvent::DirRemoved(true));
    let (state, _) = ublock_step(state, UblockEvent::DirCreated(true));
    let (state, action) = ublock_step(state, UblockEvent::Extracted(false));
    assert_eq!(action, UblockAction::RollbackInstall);
    assert_eq!(state, UblockState::Failed { reason: UblockFailure::ExtractionFailed });
}

#[test]
fn unreachable_feed_fails_the_step() {
    let (state, _) = ublock_initial();
    let (state, _) = ublock_step(state, UblockEvent::MarkerRead(None));
    let (state, action) = ublock_step(state, UblockEvent::FeedFetched(None));
    assert_eq!(action, UblockAction::Stop);
    assert_eq!(state, UblockState::Failed { reason: UblockFailure::FeedUnavailable });
}

#[test]
fn first_matching_asset_wins() {
    let info = feed(
        "1.58.0",
        vec![
            ("notes.txt", "https://host/notes"),
            ("uBlock0_1.58.0.chromium.zip", "https://host/first.zip"),
            ("extra.chromium.zip", "https://host/second.zip"),
        ],
    );
    assert_eq!(find_chromium_asset(&info.assets), Some(1));
    let none = feed("1.58.0", vec![("notes.txt", "https://host/notes")]);
    assert_eq!(find_chromium_asset(&none.assets), None);
}

#[test]
fn directory_root_resolution() {
    assert_eq!(get_ublock_directory(1), Ok(ExtensionRoot::SingleEntry));
    assert_eq!(get_ublock_directory(2), Ok(ExtensionRoot::DirectoryItself));
    assert_eq!(get_ublock_directory(5), Ok(ExtensionRoot::DirectoryItself));
    assert_eq!(get_ublock_directory(0), Err(UblockFailure::EmptyExtensionDirectory));
    assert_eq!(
        UblockFailure::EmptyExtensionDirectory.message(),
        "uBlock Origin extension directory is empty"
    );
}
