//! Selector resolution and browser-session provisioning logic for a bulk
//! episode downloader.
//!
//! The crate covers the pieces whose correctness gates everything downstream:
//! merging user-supplied episode/season ranges into a minimal disjoint plan,
//! resolving video-type/language selectors (including the compact shorthand
//! form), and the decision logic of the browser provisioner — driver version
//! matching, session capabilities, the bounded channel-wait retry, and the
//! ad-block extension lifecycle. All I/O (processes, network, filesystem,
//! the automation channel itself) stays outside and is driven by the state
//! machines and plans produced here.

pub mod browser;
pub mod cli;
pub mod episodes;
pub mod lang;
pub mod ranges;
pub mod text;
pub mod ublock;
