//! Shorthand parsing, video-type resolution, the episode request grid and
//! the optional-count parsers.

use epifetch::cli::{
    parse_extractor, parse_optional_with_inf_as_none, parse_optional_with_never_as_none, Args,
    DownloadSettings, Extractor, OptionWrapper,
};
use epifetch::episodes::{resolve_episodes_request, AllOrSpecific, EpisodesRequest};
use epifetch::lang::{parse_shorthand, Language, SimpleVideoType, VideoType};
use epifetch::ranges::{Range, SimpleRanges};

fn rg(start: u32, end: u32) -> Range {
    Range { start, end }
}

fn base_args() -> Args {
    Args {
        video_type: SimpleVideoType::Unspecified,
        language: Language::Unspecified,
        type_language: VideoType::Unspecified(Language::Unspecified),
        episodes: SimpleRanges::Unspecified,
        seasons: SimpleRanges::Unspecified,
        extractor: None,
        concurrent_downloads: OptionWrapper(Some(5)),
        retries: OptionWrapper(Some(5)),
        ddos_wait_episodes: OptionWrapper(Some(4)),
        ddos_wait_ms: 60_000,
        mpv: false,
        debug: false,
        url: String::new(),
    }
}

#[test]
fn languages_expose_their_names_in_declaration_order() {
    let langs = epifetch::lang::all_languages();
    assert_eq!(langs, vec![Language::English, Language::German, Language::Japanese]);
    assert_eq!(Language::English.get_name_short(), "en");
    assert_eq!(Language::English.get_name_long(), "english");
    assert_eq!(Language::Japanese.get_name_short(), "ja");
}

#[test]
fn shorthand_endub_resolves_to_english_dub() {
    assert_eq!(parse_shorthand("ENdub"), Ok(VideoType::Dub(Language::English)));
    assert_eq!(parse_shorthand("endub"), Ok(VideoType::Dub(Language::English)));
}

#[test]
fn shorthand_keywords_resolve_directly() {
    assert_eq!(parse_shorthand("raw"), Ok(VideoType::Raw));
    assert_eq!(parse_shorthand("RAW"), Ok(VideoType::Raw));
    assert_eq!(
        parse_shorthand("unspecified"),
        Ok(VideoType::Unspecified(Language::Unspecified))
    );
    assert_eq!(parse_shorthand("dub"), Ok(VideoType::Dub(Language::Unspecified)));
    assert_eq!(parse_shorthand("sub"), Ok(VideoType::Sub(Language::Unspecified)));
}

#[test]
fn shorthand_sub_suffix_and_bare_languages() {
    assert_eq!(parse_shorthand("JAsub"), Ok(VideoType::Sub(Language::Japanese)));
    assert_eq!(parse_shorthand("german"), Ok(VideoType::Unspecified(Language::German)));
    assert_eq!(parse_shorthand("de"), Ok(VideoType::Unspecified(Language::German)));
}

#[test]
fn unrecognized_shorthand_names_the_input() {
    let err = parse_shorthand("klingon").unwrap_err();
    assert_eq!(err.input, "klingon");
    assert!(err.message().contains("klingon"));
}

#[test]
fn shorthand_wins_over_separate_selectors() {
    let mut args = base_args();
    args.type_language = VideoType::Dub(Language::English);
    args.video_type = SimpleVideoType::Sub;
    args.language = Language::German;
    assert_eq!(args.get_video_type(), VideoType::Dub(Language::English));
}

#[test]
fn separate_selectors_combine_without_shorthand() {
    let mut args = base_args();
    args.video_type = SimpleVideoType::Sub;
    args.language = Language::German;
    assert_eq!(args.get_video_type(), VideoType::Sub(Language::German));

    let mut args = base_args();
    args.language = Language::Japanese;
    assert_eq!(args.get_video_type(), VideoType::Unspecified(Language::Japanese));

    let mut args = base_args();
    args.video_type = SimpleVideoType::Raw;
    args.language = Language::German;
    assert_eq!(args.get_video_type(), VideoType::Raw);
}

#[test]
fn unspecified_selectors_resolve_to_unspecified() {
    assert_eq!(
        resolve_episodes_request(SimpleRanges::Unspecified, SimpleRanges::Unspecified),
        EpisodesRequest::Unspecified
    );
}

#[test]
fn all_and_all_resolve_to_all() {
    assert_eq!(
        resolve_episodes_request(SimpleRanges::All, SimpleRanges::All),
        EpisodesRequest::All
    );
}

#[test]
fn custom_episodes_alone_resolve_to_episodes() {
    assert_eq!(
        resolve_episodes_request(
            SimpleRanges::Custom(vec![rg(1, 3)]),
            SimpleRanges::Unspecified
        ),
        EpisodesRequest::Episodes(AllOrSpecific::Specific(vec![rg(1, 3)]))
    );
}

#[test]
fn custom_episodes_and_seasons_resolve_to_combined() {
    let mut args = base_args();
    args.episodes = SimpleRanges::Custom(vec![rg(1, 3)]);
    args.seasons = SimpleRanges::Custom(vec![rg(2, 2), rg(5, 5)]);
    assert_eq!(
        args.get_episodes_request(),
        EpisodesRequest::Combined {
            seasons: AllOrSpecific::Specific(vec![rg(2, 2), rg(5, 5)]),
            episodes: AllOrSpecific::Specific(vec![rg(1, 3)]),
        }
    );
}

#[test]
fn remaining_grid_combinations() {
    assert_eq!(
        resolve_episodes_request(SimpleRanges::All, SimpleRanges::Unspecified),
        EpisodesRequest::Episodes(AllOrSpecific::All)
    );
    assert_eq!(
        resolve_episodes_request(SimpleRanges::Unspecified, SimpleRanges::All),
        EpisodesRequest::Seasons(AllOrSpecific::All)
    );
    assert_eq!(
        resolve_episodes_request(SimpleRanges::Unspecified, SimpleRanges::Custom(vec![rg(2, 4)])),
        EpisodesRequest::Seasons(AllOrSpecific::Specific(vec![rg(2, 4)]))
    );
    assert_eq!(
        resolve_episodes_request(SimpleRanges::All, SimpleRanges::Custom(vec![rg(2, 4)])),
        EpisodesRequest::Combined {
            seasons: AllOrSpecific::Specific(vec![rg(2, 4)]),
            episodes: AllOrSpecific::All,
        }
    );
    assert_eq!(
        resolve_episodes_request(SimpleRanges::Custom(vec![rg(1, 1)]), SimpleRanges::All),
        EpisodesRequest::Combined {
            seasons: AllOrSpecific::All,
            episodes: AllOrSpecific::Specific(vec![rg(1, 1)]),
        }
    );
}

#[test]
fn inf_sentinel_means_unbounded() {
    assert_eq!(parse_optional_with_inf_as_none("inf"), Ok(OptionWrapper(None)));
    assert_eq!(parse_optional_with_inf_as_none("INF"), Ok(OptionWrapper(None)));
    assert_eq!(parse_optional_with_inf_as_none("7"), Ok(OptionWrapper(Some(7))));
}

#[test]
fn never_sentinel_means_unbounded() {
    assert_eq!(parse_optional_with_never_as_none("never"), Ok(OptionWrapper(None)));
    assert_eq!(parse_optional_with_never_as_none("4"), Ok(OptionWrapper(Some(4))));
}

#[test]
fn malformed_counts_are_rejected_with_the_input() {
    let err = parse_optional_with_inf_as_none("soon").unwrap_err();
    assert_eq!(err.input, "soon");
    assert!(err.message().contains("soon"));
    // Zero is not a positive count.
    assert!(parse_optional_with_inf_as_none("0").is_err());
    // One sentinel does not stand in for the other.
    assert!(parse_optional_with_never_as_none("inf").is_err());
}

#[test]
fn option_wrapper_exposes_its_value() {
    assert_eq!(OptionWrapper(Some(3u32)).inner(), Some(&3));
    assert_eq!(OptionWrapper::<u32>(None).inner(), None);
}

#[test]
fn extractor_selector() {
    assert_eq!(parse_extractor("auto"), Ok(Extractor::Auto));
    assert_eq!(parse_extractor("AUTO"), Ok(Extractor::Auto));
    assert_eq!(parse_extractor("sitename"), Ok(Extractor::Name("sitename".to_string())));
}

#[test]
fn download_settings_carry_the_limits() {
    let mut args = base_args();
    args.ddos_wait_episodes = OptionWrapper(Some(4));
    args.ddos_wait_ms = 60_000;
    assert_eq!(
        args.get_download_settings(),
        DownloadSettings { ddos_wait_episodes: Some(4), ddos_wait_ms: 60_000 }
    );
    args.ddos_wait_episodes = OptionWrapper(None);
    assert_eq!(args.get_download_settings().ddos_wait_episodes, None);
}
