//! Compiled text patterns, and the two patterns that the trackers read text with.
use regex::Regex;
use vstd::prelude::*;

verus! {

#[verifier::external_type_specification]
#[verifier::external_body]
pub struct ExRegex(Regex);

#[verifier::external_type_specification]
#[verifier::external_body]
pub struct ExRegexError(regex::Error);

/// A race banner: one or two digits, an ordinal suffix, then "race",
/// with any spacing between, in any case (e.g. "3rd Race", "12 th race").
pub const RACE_BANNER_PATTERN: &'static str = r"(?i)(\d{1,2})\s*(?:st|nd|rd|th)\s*race";

/// A score at the very end of a scoreboard line: one to three digits after
/// whitespace or at the start, with only whitespace after them.
pub const TRAILING_SCORE_PATTERN: &'static str = r"(?i)(?:\s+|^)(\d{1,3})\s*$";

/// The text of capture group 1 in the leftmost-first match of the regular
/// expression `pattern` (in the syntax of the `regex` crate) in `haystack`;
/// `None` where there is no match, or group 1 took no part in it.
pub uninterp spec fn regex_group1(pattern: Seq<char>, haystack: Seq<char>) -> Option<Seq<char>>;

/// A regular expression together with the source text it was compiled from.
pub struct TextPattern {
    re: Regex,
    source: String,
}

impl View for TextPattern {
    type V = Seq<char>;

    closed spec fn view(&self) -> Seq<char> {
        self.source@
    }
}

/// Whether `regex::Regex::new` accepts `pattern` (with the crate's default
/// syntax options and size limits).
pub uninterp spec fn regex_compiles(pattern: Seq<char>) -> bool;

/// Calls `regex::Regex::new`. Claims that it succeeds exactly when the named
/// `regex_compiles` holds of the source text.
#[verifier::external_body]
fn compile_regex(source: &str) -> (compiled: Result<Regex, regex::Error>)
    ensures
        compiled is Ok <==> regex_compiles(source@),
{
    Regex::new(source)
}

/// Why a pattern could not be compiled, in the words of the `regex` crate.
#[derive(Debug)]
pub struct PatternError {
    pub message: String,
}

impl TextPattern {
    /// Compiles `source`; succeeds exactly when `source` is a valid pattern,
    /// and the pattern's view is then its source text.
    pub fn new(source: &str) -> (p: Result<TextPattern, PatternError>)
        ensures
            p is Ok <==> regex_compiles(source@),
            p matches Ok(p) ==> p@ == source@,
    {
        match compile_regex(source) {
            Ok(re) => Ok(TextPattern { re, source: source.to_owned() }),
            Err(e) => Err(PatternError { message: e.to_string() }),
        }
    }

    /// The source text of the pattern.
    pub fn as_str(&self) -> (s: &str)
        ensures
            s@ == self@,
    {
        self.source.as_str()
    }

    /// Calls `regex::Regex::captures` on the compiled form of this pattern
    /// and hands out the text of group 1. Claims that this is the named
    /// `regex_group1` of the pattern's source and the haystack; the field
    /// `re` is only ever set by `TextPattern::new`, from `source`.
    #[verifier::external_body]
    pub(crate) fn group1(&self, haystack: &str) -> (group: Option<String>)
        ensures
            group matches Some(g) ==> regex_group1(self@, haystack@) == Some(g@),
            group is None ==> regex_group1(self@, haystack@) is None,
    {
        self.re.captures(haystack).and_then(|c| c.get(1)).map(|m| m.as_str().to_string())
    }
}

} // verus!
