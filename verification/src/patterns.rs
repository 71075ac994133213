//! Regular-expression rewriting of recognized text: profanity removal, whitespace
//! clean-up and spoken abbreviations.
use vstd::prelude::*;
use regex::Regex;
use crate::text::{trim, trim_text};

verus! {

#[verifier::external_type_specification]
#[verifier::external_body]
pub struct ExRegex(Regex);

#[verifier::external_type_specification]
#[verifier::external_body]
pub struct ExRegexError(regex::Error);

/// Profanity in English, Russian and Kazakh, with any word ending.
pub const PROFANITY_PATTERN: &'static str = r"(?i)\b(fuck|fucking|motherfucker|shit|bitch|asshole|bastard|cunt|dick|cock|бля|бляд|сук|сучк|хуй|хуе|хуйня|пизд|еба|ёба|наху|долбоеб|boq|boqtyq|боқ|сік|сiк)\w*\b";

/// Two or more whitespace characters in a row.
pub const MULTISPACE_PATTERN: &'static str = r"\s{2,}";

/// Whitespace before a punctuation mark.
pub const SPACE_PUNCT_PATTERN: &'static str = r"\s+([,.;!?])";

/// "MNU" spelled out letter by letter in Cyrillic.
pub const SPOKEN_MNU_SPACED_PATTERN: &'static str = r"(?i)\b[эе]м\s+эн\s+ю\b";

/// "MNU" spelled out as one Cyrillic word.
pub const SPOKEN_MNU_COMPACT_PATTERN: &'static str = r"(?i)\bэмэню\b";

/// What `Regex::replace_all` returns: `haystack` with every non-overlapping match of the
/// regular expression `pattern` replaced by `replacement`, in which `$1` stands for the
/// first capture group.
pub uninterp spec fn regex_replace_all(
    pattern: Seq<char>,
    haystack: Seq<char>,
    replacement: Seq<char>,
) -> Seq<char>;

/// A compiled regular expression together with the pattern it was compiled from.
pub struct Pattern {
    regex: Regex,
    source: String,
}

/// What `Regex::new` decides for a pattern: whether it is a valid regular expression that
/// the engine accepts within its size limits.
pub uninterp spec fn regex_compiles(pattern: Seq<char>) -> bool;

/// Calls `Regex::new`; it succeeds exactly when the named decision accepts the pattern.
#[verifier::external_body]
fn compile_regex(source: &str) -> (res: Result<Regex, regex::Error>)
    ensures
        res is Ok == regex_compiles(source@),
{
    Regex::new(source)
}

/// Calls `Regex::replace_all` with a literal replacement string and takes the owned result.
/// A `Pattern` is only made by `Pattern::compile`, so its expression is the one compiled from
/// its source, and the result is the named replacement over that source.
#[verifier::external_body]
fn replace_all(p: &Pattern, haystack: &str, replacement: &str) -> (res: String)
    ensures
        res@ == regex_replace_all(p.source(), haystack@, replacement@),
{
    p.regex.replace_all(haystack, replacement).into_owned()
}

impl Pattern {
    /// The pattern this expression was compiled from.
    pub closed spec fn source(&self) -> Seq<char> {
        self.source@
    }

    /// Compiles `source`; nothing when the regular-expression engine rejects it.
    pub fn compile(source: &str) -> (res: Option<Pattern>)
        ensures
            res is Some == regex_compiles(source@),
            res matches Some(p) ==> p.source() == source@,
    {
        match compile_regex(source) {
            Ok(regex) => Some(Pattern { regex, source: source.to_owned() }),
            Err(_) => None,
        }
    }
}

/// The compiled expressions used to clean recognized and translated text.
pub struct TextFilters {
    profanity: Pattern,
    multispace: Pattern,
    space_punct: Pattern,
    spoken_mnu_spaced: Pattern,
    spoken_mnu_compact: Pattern,
}

impl TextFilters {
    #[verifier::type_invariant]
    spec fn compiled_from_constants(self) -> bool {
        &&& self.profanity.source() == PROFANITY_PATTERN@
        &&& self.multispace.source() == MULTISPACE_PATTERN@
        &&& self.space_punct.source() == SPACE_PUNCT_PATTERN@
        &&& self.spoken_mnu_spaced.source() == SPOKEN_MNU_SPACED_PATTERN@
        &&& self.spoken_mnu_compact.source() == SPOKEN_MNU_COMPACT_PATTERN@
    }

    /// Compiles the five expressions; nothing if the engine rejects one of them.
    pub fn new() -> (res: Option<TextFilters>)
        ensures
            res is Some == (regex_compiles(PROFANITY_PATTERN@) && regex_compiles(
                MULTISPACE_PATTERN@,
            ) && regex_compiles(SPACE_PUNCT_PATTERN@) && regex_compiles(SPOKEN_MNU_SPACED_PATTERN@)
                && regex_compiles(SPOKEN_MNU_COMPACT_PATTERN@)),
    {
        let profanity = Pattern::compile(PROFANITY_PATTERN)?;
        let multispace = Pattern::compile(MULTISPACE_PATTERN)?;
        let space_punct = Pattern::compile(SPACE_PUNCT_PATTERN)?;
        let spoken_mnu_spaced = Pattern::compile(SPOKEN_MNU_SPACED_PATTERN)?;
        let spoken_mnu_compact = Pattern::compile(SPOKEN_MNU_COMPACT_PATTERN)?;
        Some(TextFilters { profanity, multispace, space_punct, spoken_mnu_spaced, spoken_mnu_compact })
    }
}

/// Text without profanity, with runs of whitespace collapsed to one space after trimming,
/// and without whitespace before punctuation.
pub open spec fn business_safe(text: Seq<char>) -> Seq<char> {
    let no_profanity = regex_replace_all(PROFANITY_PATTERN@, text, ""@);
    let compact = regex_replace_all(MULTISPACE_PATTERN@, trim(no_profanity), " "@);
    regex_replace_all(SPACE_PUNCT_PATTERN@, compact, "$1"@)
}

/// `text` cleaned for display: profanity removed, whitespace trimmed and collapsed, and
/// no whitespace before punctuation.
pub fn sanitize_text_for_business(filters: &TextFilters, text: &str) -> (res: String)
    ensures
        res@ == business_safe(text@),
{
    proof {
        use_type_invariant(filters);
    }
    let no_profanity = replace_all(&filters.profanity, text, "");
    let trimmed = trim_text(no_profanity.as_str());
    let compact = replace_all(&filters.multispace, trimmed.as_str(), " ");
    replace_all(&filters.space_punct, compact.as_str(), "$1")
}

/// Text with "MNU" written where it was spelled out in Cyrillic.
pub open spec fn abbreviations_normalized(text: Seq<char>) -> Seq<char> {
    let spaced = regex_replace_all(SPOKEN_MNU_SPACED_PATTERN@, text, "MNU"@);
    regex_replace_all(SPOKEN_MNU_COMPACT_PATTERN@, spaced, "MNU"@)
}

/// `text` with the spelled-out forms of "MNU" replaced by the abbreviation.
pub fn normalize_spoken_abbreviations(filters: &TextFilters, text: &str) -> (res: String)
    ensures
        res@ == abbreviations_normalized(text@),
{
    proof {
        use_type_invariant(filters);
    }
    let spaced = replace_all(&filters.spoken_mnu_spaced, text, "MNU");
    replace_all(&filters.spoken_mnu_compact, spaced.as_str(), "MNU")
}

/// A trimmed term with runs of whitespace collapsed to one space.
pub open spec fn collapsed(term: Seq<char>) -> Seq<char> {
    regex_replace_all(MULTISPACE_PATTERN@, trim(term), " "@)
}

/// `term` trimmed, with runs of whitespace collapsed to one space.
pub fn collapse_spaces(filters: &TextFilters, term: &str) -> (res: String)
    ensures
        res@ == collapsed(term@),
{
    proof {
        use_type_invariant(filters);
    }
    let trimmed = trim_text(term);
    replace_all(&filters.multispace, trimmed.as_str(), " ")
}

} // verus!
