//! Languages, video types, and the shorthand selector that encodes both in
//! one compact token (for example `ENdub`).

use vstd::prelude::*;

use crate::text;

verus! {

/// The languages a release can carry; `Unspecified` stands for "no language
/// constraint" and is excluded from every shorthand matching pass.
#[derive(Clone, Copy, Debug, PartialEq, Eq, Structural)]
pub enum Language {
    Unspecified,
    English,
    German,
    Japanese,
}

impl Language {
    /// The short code matched against shorthand prefixes.
    pub open spec fn short_name(self) -> Seq<char> {
        match self {
            Language::Unspecified => ""@,
            Language::English => "en"@,
            Language::German => "de"@,
            Language::Japanese => "ja"@,
        }
    }

    /// The long name matched against whole shorthand tokens.
    pub open spec fn long_name(self) -> Seq<char> {
        match self {
            Language::Unspecified => ""@,
            Language::English => "english"@,
            Language::German => "german"@,
            Language::Japanese => "japanese"@,
        }
    }

    /// The short code of this language.
    pub fn get_name_short(&self) -> (r: &'static str)
        ensures
            r@ == self.short_name(),
    {
        match self {
            Language::Unspecified => "",
            Language::English => "en",
            Language::German => "de",
            Language::Japanese => "ja",
        }
    }

    /// The long name of this language.
    pub fn get_name_long(&self) -> (r: &'static str)
        ensures
            r@ == self.long_name(),
    {
        match self {
            Language::Unspecified => "",
            Language::English => "english",
            Language::German => "german",
            Language::Japanese => "japanese",
        }
    }
}

/// Every concrete language, in declaration order; the matching passes walk
/// this order and the first match wins.
pub open spec fn spec_languages() -> Seq<Language> {
    seq![Language::English, Language::German, Language::Japanese]
}

/// Every concrete language, in declaration order.
pub fn all_languages() -> (r: Vec<Language>)
    ensures
        r@ == spec_languages(),
{
    let mut v: Vec<Language> = Vec::new();
    v.push(Language::English);
    v.push(Language::German);
    v.push(Language::Japanese);
    proof {
        assert(v@ =~= spec_languages());
    }
    v
}

/// The video type requested for a download. `Unspecified(Unspecified)`
/// denotes "no constraint requested".
#[derive(Clone, Copy, Debug, PartialEq, Eq, Structural)]
pub enum VideoType {
    Unspecified(Language),
    Raw,
    Dub(Language),
    Sub(Language),
}

/// The plain `--type` selector, carrying no language of its own.
#[derive(Clone, Copy, Debug, PartialEq, Eq, Structural)]
pub enum SimpleVideoType {
    Unspecified,
    Raw,
    Dub,
    Sub,
}

/// The first concrete language whose short code equals `p`, ASCII case
/// ignored.
pub open spec fn lang_by_short(p: Seq<char>) -> Option<Language> {
    if text::eq_nocase(p, Language::English.short_name()) {
        Some(Language::English)
    } else if text::eq_nocase(p, Language::German.short_name()) {
        Some(Language::German)
    } else if text::eq_nocase(p, Language::Japanese.short_name()) {
        Some(Language::Japanese)
    } else {
        None
    }
}

/// The first concrete language whose long name equals `p`, ASCII case
/// ignored.
pub open spec fn lang_by_long(p: Seq<char>) -> Option<Language> {
    if text::eq_nocase(p, Language::English.long_name()) {
        Some(Language::English)
    } else if text::eq_nocase(p, Language::German.long_name()) {
        Some(Language::German)
    } else if text::eq_nocase(p, Language::Japanese.long_name()) {
        Some(Language::Japanese)
    } else {
        None
    }
}

/// The video type a shorthand token denotes, or nothing when it is
/// malformed. Matching is ASCII-case-insensitive: the four literal keywords
/// first; then a short code before `dub` or `sub`; then a whole long name,
/// then a whole short code, both yielding a language with no type.
pub open spec fn shorthand_video_type(s: Seq<char>) -> Option<VideoType> {
    if text::eq_nocase(s, "unspecified"@) {
        Some(VideoType::Unspecified(Language::Unspecified))
    } else if text::eq_nocase(s, "raw"@) {
        Some(VideoType::Raw)
    } else if text::eq_nocase(s, "dub"@) {
        Some(VideoType::Dub(Language::Unspecified))
    } else if text::eq_nocase(s, "sub"@) {
        Some(VideoType::Sub(Language::Unspecified))
    } else if s.len() >= 3 && text::eq_nocase(s.subrange(s.len() - 3, s.len() as int), "dub"@)
        && lang_by_short(s.subrange(0, s.len() - 3)) is Some {
        Some(VideoType::Dub(lang_by_short(s.subrange(0, s.len() - 3)).unwrap()))
    } else if s.len() >= 3 && text::eq_nocase(s.subrange(s.len() - 3, s.len() as int), "sub"@)
        && lang_by_short(s.subrange(0, s.len() - 3)) is Some {
        Some(VideoType::Sub(lang_by_short(s.subrange(0, s.len() - 3)).unwrap()))
    } else if lang_by_long(s) is Some {
        Some(VideoType::Unspecified(lang_by_long(s).unwrap()))
    } else if lang_by_short(s) is Some {
        Some(VideoType::Unspecified(lang_by_short(s).unwrap()))
    } else {
        None
    }
}

/// A shorthand token that matched nothing; carries the original input.
#[derive(Debug, Clone, PartialEq, Eq)]
pub struct ShorthandError {
    pub input: String,
}

impl ShorthandError {
    /// Renders the error, naming the input that failed to parse.
    pub fn message(&self) -> (r: String)
        ensures
            r@ == "failed to parse \""@ + self.input@ + "\" as video type shorthand"@,
    {
        let mut m = String::new();
        m.append("failed to parse \"");
        m.append(self.input.as_str());
        m.append("\" as video type shorthand");
        m
    }
}

fn find_lang_by_short(p: &str) -> (r: Option<Language>)
    ensures
        r == lang_by_short(p@),
{
    if text::eq_ignore_ascii_case(p, "en") {
        Some(Language::English)
    } else if text::eq_ignore_ascii_case(p, "de") {
        Some(Language::German)
    } else if text::eq_ignore_ascii_case(p, "ja") {
        Some(Language::Japanese)
    } else {
        None
    }
}

fn find_lang_by_long(p: &str) -> (r: Option<Language>)
    ensures
        r == lang_by_long(p@),
{
    if text::eq_ignore_ascii_case(p, "english") {
        Some(Language::English)
    } else if text::eq_ignore_ascii_case(p, "german") {
        Some(Language::German)
    } else if text::eq_ignore_ascii_case(p, "japanese") {
        Some(Language::Japanese)
    } else {
        None
    }
}

/// Parses a shorthand selector such as `ENdub`, `raw` or `german` into the
/// video type it denotes; an unrecognized token is rejected with an error
/// naming the input.
pub fn parse_shorthand(input: &str) -> (r: Result<VideoType, ShorthandError>)
    ensures
        match r {
            Ok(v) => shorthand_video_type(input@) == Some(v),
            Err(e) => shorthand_video_type(input@) is None && e.input@ == input@,
        },
{
    if text::eq_ignore_ascii_case(input, "unspecified") {
        return Ok(VideoType::Unspecified(Language::Unspecified));
    }
    if text::eq_ignore_ascii_case(input, "raw") {
        return Ok(VideoType::Raw);
    }
    if text::eq_ignore_ascii_case(input, "dub") {
        return Ok(VideoType::Dub(Language::Unspecified));
    }
    if text::eq_ignore_ascii_case(input, "sub") {
        return Ok(VideoType::Sub(Language::Unspecified));
    }
    let n = input.unicode_len();
    if n >= 3 {
        let suffix = input.substring_char(n - 3, n);
        let prefix = input.substring_char(0, n - 3);
        if text::eq_ignore_ascii_case(suffix, "dub") {
            if let Some(lang) = find_lang_by_short(prefix) {
                return Ok(VideoType::Dub(lang));
            }
        }
        if text::eq_ignore_ascii_case(suffix, "sub") {
            if let Some(lang) = find_lang_by_short(prefix) {
                return Ok(VideoType::Sub(lang));
            }
        }
    }
    if let Some(lang) = find_lang_by_long(input) {
        return Ok(VideoType::Unspecified(lang));
    }
    if let Some(lang) = find_lang_by_short(input) {
        return Ok(VideoType::Unspecified(lang));
    }
    Err(ShorthandError { input: input.to_owned() })
}

} // verus!
