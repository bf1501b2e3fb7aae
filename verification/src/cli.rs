//! The parsed command line as plain values, and the small parsers behind
//! it: the optional-count parser that tells a sentinel word ("inf",
//! "never") apart from a positive number, and the extractor selector.

use vstd::prelude::*;

use crate::episodes::{resolve_spec, resolve_episodes_request, EpisodesRequest};
use crate::lang::{Language, SimpleVideoType, VideoType};
use crate::ranges::SimpleRanges;
use crate::text;

verus! {

/// An optional positive count; `None` means unbounded.
#[derive(Debug, Clone, Copy, PartialEq, Eq)]
pub struct OptionWrapper<T>(pub Option<T>);

impl<T> OptionWrapper<T> {
    /// The wrapped optional value.
    pub fn inner(&self) -> (r: Option<&T>)
        ensures
            r is Some <==> self.0 is Some,
            r is Some ==> self.0->0 == *r->0,
    {
        self.0.as_ref()
    }
}

/// A count that is neither the sentinel word nor a positive number.
#[derive(Debug, Clone, PartialEq, Eq)]
pub struct CountParseError {
    pub input: String,
}

impl CountParseError {
    /// Renders the error, naming the input that failed to parse.
    pub fn message(&self) -> (r: String)
        ensures
            r@ == "failed to parse \""@ + self.input@ + "\" as a count"@,
    {
        let mut m = String::new();
        m.append("failed to parse \"");
        m.append(self.input.as_str());
        m.append("\" as a count");
        m
    }
}

/// What an optional-count text denotes: the sentinel word means unbounded,
/// a positive bounded number means that bound, anything else is malformed.
pub open spec fn spec_optional_count(s: Seq<char>, none_word: Seq<char>) -> Option<Option<u32>> {
    if text::eq_nocase(s, none_word) {
        Some(None)
    } else if text::valid_number(s, u32::MAX as int) && text::digits_val(s) >= 1 {
        Some(Some(text::digits_val(s) as u32))
    } else {
        None
    }
}

/// Parses an optional count: `none_value` (ASCII-case-insensitively) means
/// unbounded, a positive integer means that bound, and anything else —
/// zero included — is rejected with an error naming the input.
pub fn parse_optional_with_none(input: &str, none_value: &str) -> (r: Result<
    OptionWrapper<u32>,
    CountParseError,
>)
    ensures
        match r {
            Ok(w) => spec_optional_count(input@, none_value@) == Some(w.0),
            Err(e) => spec_optional_count(input@, none_value@) is None && e.input@ == input@,
        },
{
    if text::eq_ignore_ascii_case(input, none_value) {
        return Ok(OptionWrapper(None));
    }
    match text::parse_decimal(input, u32::MAX) {
        Some(v) => {
            if v >= 1 {
                Ok(OptionWrapper(Some(v)))
            } else {
                Err(CountParseError { input: input.to_owned() })
            }
        },
        None => Err(CountParseError { input: input.to_owned() }),
    }
}

/// Parses an optional count whose unbounded sentinel is `inf`.
pub fn parse_optional_with_inf_as_none(input: &str) -> (r: Result<
    OptionWrapper<u32>,
    CountParseError,
>)
    ensures
        match r {
            Ok(w) => spec_optional_count(input@, "inf"@) == Some(w.0),
            Err(e) => spec_optional_count(input@, "inf"@) is None && e.input@ == input@,
        },
{
    parse_optional_with_none(input, "inf")
}

/// Parses an optional count whose unbounded sentinel is `never`.
pub fn parse_optional_with_never_as_none(input: &str) -> (r: Result<
    OptionWrapper<u32>,
    CountParseError,
>)
    ensures
        match r {
            Ok(w) => spec_optional_count(input@, "never"@) == Some(w.0),
            Err(e) => spec_optional_count(input@, "never"@) is None && e.input@ == input@,
        },
{
    parse_optional_with_none(input, "never")
}

/// Which extraction backend to use directly.
#[derive(Debug, Clone, PartialEq, Eq)]
pub enum Extractor {
    Auto,
    Name(String),
}

/// Parses an extractor selector: the word `auto` (ASCII-case-insensitively)
/// asks for auto-detection, any other text names a backend. Never fails.
pub fn parse_extractor(input: &str) -> (r: Result<Extractor, String>)
    ensures
        r is Ok,
        text::eq_nocase(input@, "auto"@) ==> r == Ok::<Extractor, String>(Extractor::Auto),
        !text::eq_nocase(input@, "auto"@) ==> (r matches Ok(Extractor::Name(n)) && n@ == input@),
{
    if text::eq_ignore_ascii_case(input, "auto") {
        Ok(Extractor::Auto)
    } else {
        Ok(Extractor::Name(input.to_owned()))
    }
}

/// The limits handed to the download orchestrator: how many requests may
/// go out before the deliberate pause, and how long the pause lasts in
/// milliseconds.
#[derive(Debug, Clone, Copy, PartialEq, Eq)]
pub struct DownloadSettings {
    pub ddos_wait_episodes: Option<u32>,
    pub ddos_wait_ms: u32,
}

/// How the separate type and language selectors combine when no shorthand
/// was given.
pub open spec fn combined_video_type(t: SimpleVideoType, lang: Language) -> VideoType {
    match t {
        SimpleVideoType::Unspecified => VideoType::Unspecified(lang),
        SimpleVideoType::Raw => VideoType::Raw,
        SimpleVideoType::Dub => VideoType::Dub(lang),
        SimpleVideoType::Sub => VideoType::Sub(lang),
    }
}

/// The command line, already parsed into plain values.
#[derive(Debug, Clone)]
pub struct Args {
    pub video_type: SimpleVideoType,
    pub language: Language,
    pub type_language: VideoType,
    pub episodes: SimpleRanges,
    pub seasons: SimpleRanges,
    pub extractor: Option<Extractor>,
    pub concurrent_downloads: OptionWrapper<u32>,
    pub retries: OptionWrapper<u32>,
    pub ddos_wait_episodes: OptionWrapper<u32>,
    pub ddos_wait_ms: u32,
    pub mpv: bool,
    pub debug: bool,
    pub url: String,
}

impl Args {
    /// The video type to download: a supplied shorthand wins outright over
    /// the separate type/language selectors; otherwise those two combine.
    pub fn get_video_type(&self) -> (r: VideoType)
        ensures
            self.type_language != VideoType::Unspecified(Language::Unspecified) ==> r
                == self.type_language,
            self.type_language == VideoType::Unspecified(Language::Unspecified) ==> r
                == combined_video_type(self.video_type, self.language),
    {
        if !(self.type_language == VideoType::Unspecified(Language::Unspecified)) {
            return self.type_language;
        }
        match self.video_type {
            SimpleVideoType::Unspecified => VideoType::Unspecified(self.language),
            SimpleVideoType::Raw => VideoType::Raw,
            SimpleVideoType::Dub => VideoType::Dub(self.language),
            SimpleVideoType::Sub => VideoType::Sub(self.language),
        }
    }

    /// The resolved request shape for the episode and season selectors.
    pub fn get_episodes_request(self) -> (r: EpisodesRequest)
        ensures
            r == resolve_spec(self.episodes, self.seasons),
    {
        resolve_episodes_request(self.episodes, self.seasons)
    }

    /// The download limits: the configured request count before the pause,
    /// and the pause length.
    pub fn get_download_settings(&self) -> (r: DownloadSettings)
        ensures
            r.ddos_wait_episodes == self.ddos_wait_episodes.0,
            r.ddos_wait_ms == self.ddos_wait_ms,
    {
        DownloadSettings {
            ddos_wait_episodes: self.ddos_wait_episodes.0,
            ddos_wait_ms: self.ddos_wait_ms,
        }
    }
}

} // verus!
