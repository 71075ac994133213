//! Source languages and language modes: codes, labels, detection from text, and the
//! filter for phrases that speech recognition invents on silence.
use vstd::prelude::*;
use crate::text::{
    byte_len, byte_length, chars_of, is_ascii_alphabetic, is_ascii_letter, is_blank, same_text,
    is_ws, string_from_range, trim, trim_text,
};
use crate::unicode::{lowercase, to_lowercase};

verus! {

/// A language that speech can be recognized in.
#[derive(Clone, Copy, Debug, PartialEq, Eq, Structural)]
pub enum SourceLanguage {
    Unspecified,
    Kazakh,
    Russian,
    English,
}

/// How the source language of speech is chosen.
#[derive(Clone, Copy, Debug, PartialEq, Eq, Structural)]
pub enum LanguageMode {
    Unspecified,
    Auto,
    Manual,
}

/// The language named by a lower-case code or name.
pub open spec fn lang_for_code(code: Seq<char>) -> Option<SourceLanguage> {
    if code == "kk"@ || code == "kazakh"@ {
        Some(SourceLanguage::Kazakh)
    } else if code == "ru"@ || code == "russian"@ {
        Some(SourceLanguage::Russian)
    } else if code == "en"@ || code == "english"@ {
        Some(SourceLanguage::English)
    } else {
        None
    }
}

/// The language named by `code`, which is already lower case.
pub fn lang_from_code(code: &str) -> (res: Option<SourceLanguage>)
    ensures
        res == lang_for_code(code@),
{
    if same_text(code, "kk") || same_text(code, "kazakh") {
        Some(SourceLanguage::Kazakh)
    } else if same_text(code, "ru") || same_text(code, "russian") {
        Some(SourceLanguage::Russian)
    } else if same_text(code, "en") || same_text(code, "english") {
        Some(SourceLanguage::English)
    } else {
        None
    }
}

/// The language named by `raw`, compared after lower-casing.
pub fn normalize_lang_code(raw: &str) -> (res: Option<SourceLanguage>)
    ensures
        res == lang_for_code(lowercase(raw@)),
{
    let lowered = to_lowercase(raw);
    lang_from_code(lowered.as_str())
}

/// The language code handed to speech recognition as a hint.
pub open spec fn lang_hint(lang: SourceLanguage) -> Option<Seq<char>> {
    match lang {
        SourceLanguage::Kazakh => Some("kk"@),
        SourceLanguage::Russian => Some("ru"@),
        SourceLanguage::English => Some("en"@),
        SourceLanguage::Unspecified => None,
    }
}

/// The recognition hint for `lang`, none for an unspecified language.
pub fn source_lang_hint(lang: SourceLanguage) -> (res: Option<&'static str>)
    ensures
        res is Some == lang_hint(lang) is Some,
        res matches Some(h) ==> h@ == lang_hint(lang)->0,
{
    match lang {
        SourceLanguage::Kazakh => Some("kk"),
        SourceLanguage::Russian => Some("ru"),
        SourceLanguage::English => Some("en"),
        SourceLanguage::Unspecified => None,
    }
}

/// Kazakh, Russian and English are supported; an unspecified language is not.
pub open spec fn supported(lang: SourceLanguage) -> bool {
    lang != SourceLanguage::Unspecified
}

/// Whether `lang` is one of the supported languages.
pub fn is_supported_lang(lang: SourceLanguage) -> (res: bool)
    ensures
        res == supported(lang),
{
    match lang {
        SourceLanguage::Kazakh | SourceLanguage::Russian | SourceLanguage::English => true,
        SourceLanguage::Unspecified => false,
    }
}

/// The label of a language shown to users.
pub open spec fn ui_name(lang: SourceLanguage) -> Seq<char> {
    match lang {
        SourceLanguage::Kazakh => "kazakh"@,
        SourceLanguage::Russian => "russian"@,
        SourceLanguage::English => "english"@,
        SourceLanguage::Unspecified => "unknown"@,
    }
}

/// The user-facing label of `lang`.
pub fn source_to_ui(lang: SourceLanguage) -> (res: &'static str)
    ensures
        res@ == ui_name(lang),
{
    match lang {
        SourceLanguage::Kazakh => "kazakh",
        SourceLanguage::Russian => "russian",
        SourceLanguage::English => "english",
        SourceLanguage::Unspecified => "unknown",
    }
}

/// The label of a language mode shown to users: only manual mode is called so.
pub open spec fn mode_name(mode: LanguageMode) -> Seq<char> {
    if mode == LanguageMode::Manual {
        "manual"@
    } else {
        "auto"@
    }
}

/// The user-facing label of `mode`.
pub fn mode_to_ui(mode: LanguageMode) -> (res: &'static str)
    ensures
        res@ == mode_name(mode),
{
    match mode {
        LanguageMode::Manual => "manual",
        _ => "auto",
    }
}

// ---------------------------------------------------------------------------
// Detection from text
// ---------------------------------------------------------------------------

/// Letters found in Kazakh Cyrillic but not in Russian.
pub open spec fn is_kazakh_letter(c: char) -> bool {
    c == 'ә' || c == 'і' || c == 'ң' || c == 'ғ' || c == 'ү' || c == 'ұ' || c == 'қ' || c == 'ө'
        || c == 'һ'
}

/// Lower-case letters of the Russian alphabet.
pub open spec fn is_russian_letter(c: char) -> bool {
    ('а' <= c <= 'я') || c == 'ё'
}

/// The number of characters of `s` that satisfy `p`.
pub open spec fn count_where(s: Seq<char>, p: spec_fn(char) -> bool) -> nat
    decreases s.len(),
{
    if s.len() == 0 {
        0
    } else {
        count_where(s.drop_last(), p) + if p(s.last()) {
            1nat
        } else {
            0nat
        }
    }
}

/// Whether some character of `s` is a Kazakh letter.
pub open spec fn has_kazakh_letter(s: Seq<char>) -> bool {
    exists|i: int| 0 <= i < s.len() && is_kazakh_letter(#[trigger] s[i])
}

/// The language guessed from lower-cased text: Kazakh when a Kazakh letter occurs,
/// otherwise English when Latin letters outnumber Russian ones, otherwise Russian
/// when there is a Russian letter; nothing for blank text or text without such letters.
pub open spec fn detected_language(lowered: Seq<char>) -> Option<SourceLanguage> {
    if trim(lowered).len() == 0 {
        None
    } else if has_kazakh_letter(lowered) {
        Some(SourceLanguage::Kazakh)
    } else {
        let latin = count_where(lowered, |c: char| is_ascii_letter(c));
        let cyrillic = count_where(lowered, |c: char| is_russian_letter(c));
        if latin > cyrillic && latin > 0 {
            Some(SourceLanguage::English)
        } else if cyrillic > 0 {
            Some(SourceLanguage::Russian)
        } else {
            None
        }
    }
}

fn is_kazakh_char(c: char) -> (res: bool)
    ensures
        res == is_kazakh_letter(c),
{
    c == 'ә' || c == 'і' || c == 'ң' || c == 'ғ' || c == 'ү' || c == 'ұ' || c == 'қ' || c == 'ө'
        || c == 'һ'
}

fn is_russian_char(c: char) -> (res: bool)
    ensures
        res == is_russian_letter(c),
{
    ('а' <= c && c <= 'я') || c == 'ё'
}

/// The language guessed from `lowered`, which is already lower case.
pub fn detect_language_from_lowered(lowered: &str) -> (res: Option<SourceLanguage>)
    ensures
        res == detected_language(lowered@),
        (exists|i: int|
            0 <= i < lowered@.len() && (#[trigger] lowered@[i] == 'ә' || lowered@[i] == 'і'
                || lowered@[i] == 'ң' || lowered@[i] == 'ғ' || lowered@[i] == 'ү' || lowered@[i]
                == 'ұ' || lowered@[i] == 'қ' || lowered@[i] == 'ө' || lowered@[i] == 'һ'))
            ==> res == Some(SourceLanguage::Kazakh),
{
    proof {
        if exists|i: int|
            0 <= i < lowered@.len() && (#[trigger] lowered@[i] == 'ә' || lowered@[i] == 'і'
                || lowered@[i] == 'ң' || lowered@[i] == 'ғ' || lowered@[i] == 'ү' || lowered@[i]
                == 'ұ' || lowered@[i] == 'қ' || lowered@[i] == 'ө' || lowered@[i] == 'һ') {
            let i = choose|i: int|
                0 <= i < lowered@.len() && (#[trigger] lowered@[i] == 'ә' || lowered@[i] == 'і'
                    || lowered@[i] == 'ң' || lowered@[i] == 'ғ' || lowered@[i] == 'ү'
                    || lowered@[i] == 'ұ' || lowered@[i] == 'қ' || lowered@[i] == 'ө'
                    || lowered@[i] == 'һ');
            law_kazakh_letter_means_kazakh(lowered@, i);
        }
    }
    if is_blank(lowered) {
        return None;
    }
    let v = chars_of(lowered);
    let n = v.len();
    let mut kazakh = false;
    let mut latin: usize = 0;
    let mut cyrillic: usize = 0;
    let mut i: usize = 0;
    while i < n
        invariant
            i <= n == v.len(),
            v@ == lowered@,
            latin <= i,
            cyrillic <= i,
            latin == count_where(v@.take(i as int), |c: char| is_ascii_letter(c)),
            cyrillic == count_where(v@.take(i as int), |c: char| is_russian_letter(c)),
            kazakh == exists|j: int| 0 <= j < i && is_kazakh_letter(#[trigger] v@[j]),
        decreases n - i,
    {
        let c = v[i];
        assert(v@.take(i + 1).drop_last() =~= v@.take(i as int));
        assert(v@.take(i + 1).last() == c);
        if is_kazakh_char(c) {
            kazakh = true;
        }
        if is_ascii_alphabetic(c) {
            latin += 1;
        }
        if is_russian_char(c) {
            cyrillic += 1;
        }
        i += 1;
    }
    assert(v@.take(n as int) =~= v@);
    if kazakh {
        return Some(SourceLanguage::Kazakh);
    }
    if latin > cyrillic && latin > 0 {
        return Some(SourceLanguage::English);
    }
    if cyrillic > 0 {
        return Some(SourceLanguage::Russian);
    }
    None
}

/// The language guessed from `text` after lower-casing it.
pub fn detect_language_from_text(text: &str) -> (res: Option<SourceLanguage>)
    ensures
        res == detected_language(lowercase(text@)),
{
    let lowered = to_lowercase(text);
    detect_language_from_lowered(lowered.as_str())
}

// ---------------------------------------------------------------------------
// Phrases that recognition invents
// ---------------------------------------------------------------------------

/// Punctuation removed from the end of a phrase before it is compared.
pub open spec fn is_end_punct(c: char) -> bool {
    c == '.' || c == '!' || c == '?' || c == ',' || c == ';' || c == ':'
}

/// `s` without trailing punctuation (as `str::trim_end_matches` with those characters).
pub open spec fn trim_end_punct(s: Seq<char>) -> Seq<char>
    decreases s.len(),
{
    if s.len() > 0 && is_end_punct(s.last()) {
        trim_end_punct(s.drop_last())
    } else {
        s
    }
}

/// Phrases that recognition produces on silence or noise.
#[verifier::opaque]
pub open spec fn hallucination_phrases() -> Seq<Seq<char>> {
    seq![
        "thank you for watching"@,
        "thanks for watching"@,
        "thank you for listening"@,
        "thanks for listening"@,
        "thank you so much for watching"@,
        "please subscribe"@,
        "like and subscribe"@,
        "see you next time"@,
        "see you in the next video"@,
        "bye bye"@,
        "goodbye"@,
        "bye"@,
        "спасибо за просмотр"@,
        "подписывайтесь на канал"@,
        "до свидания"@,
        "субтитры"@,
        "субтитры от"@,
        "до следующего видео"@,
        "пока"@,
        "subtitles by"@,
        "translated by"@,
        "amara.org"@,
        "www.mooji.org"@,
        "you"@,
        "the end"@,
        "to be continued"@,
        "do zobaczenia w następnym filmiku"@,
        "do zobaczenia"@,
        "dziękuję za obejrzenie"@,
        "vielen dank fürs zuschauen"@,
        "bis zum nächsten mal"@,
        "..."@,
        "."@,
        ""@,
    ]
}

fn hallucination_phrase_list() -> (res: Vec<&'static str>)
    ensures
        res@.map_values(|p: &str| p@) == hallucination_phrases(),
{
    let v = vec![
        "thank you for watching",
        "thanks for watching",
        "thank you for listening",
        "thanks for listening",
        "thank you so much for watching",
        "please subscribe",
        "like and subscribe",
        "see you next time",
        "see you in the next video",
        "bye bye",
        "goodbye",
        "bye",
        "спасибо за просмотр",
        "подписывайтесь на канал",
        "до свидания",
        "субтитры",
        "субтитры от",
        "до следующего видео",
        "пока",
        "subtitles by",
        "translated by",
        "amara.org",
        "www.mooji.org",
        "you",
        "the end",
        "to be continued",
        "do zobaczenia w następnym filmiku",
        "do zobaczenia",
        "dziękuję za obejrzenie",
        "vielen dank fürs zuschauen",
        "bis zum nächsten mal",
        "...",
        ".",
        "",
    ];
    assert(v@.map_values(|p: &str| p@) =~= hallucination_phrases()) by {
        reveal(hallucination_phrases);
    }
    v
}

/// Whether `c` is one of the invented phrases.
fn is_known_phrase(c: &str) -> (res: bool)
    ensures
        res == hallucination_phrases().contains(c@),
{
    let phrases = hallucination_phrase_list();
    let mut i: usize = 0;
    while i < phrases.len()
        invariant
            i <= phrases.len(),
            phrases@.map_values(|p: &str| p@) == hallucination_phrases(),
            forall|j: int| 0 <= j < i ==> hallucination_phrases()[j] != c@,
        decreases phrases.len() - i,
    {
        assert(phrases@.map_values(|p: &str| p@)[i as int] == phrases@[i as int]@);
        if same_text(c, phrases[i]) {
            assert(hallucination_phrases()[i as int] == c@);
            return true;
        }
        i += 1;
    }
    false
}

/// Whether the cleaned phrase is one of the known invented phrases, at most two bytes
/// long, or in an unsupported language.
pub open spec fn hallucination_verdict(cleaned: Seq<char>, lang: SourceLanguage) -> bool {
    hallucination_phrases().contains(cleaned) || byte_len(cleaned) <= 2 || !supported(lang)
}

/// Whether `lowered`, already trimmed and lower-cased, is an invented phrase once its
/// trailing punctuation is removed.
pub fn is_hallucination_lowered(lowered: &str, detected_lang: SourceLanguage) -> (res: bool)
    ensures
        res == hallucination_verdict(trim_end_punct(lowered@), detected_lang),
{
    let v = chars_of(lowered);
    let mut end: usize = v.len();
    assert(v@.subrange(0, end as int) =~= v@);
    while end > 0 && (v[end - 1] == '.' || v[end - 1] == '!' || v[end - 1] == '?' || v[end - 1]
        == ',' || v[end - 1] == ';' || v[end - 1] == ':')
        invariant
            end <= v.len(),
            v@ == lowered@,
            trim_end_punct(lowered@) == trim_end_punct(v@.subrange(0, end as int)),
        decreases end,
    {
        assert(v@.subrange(0, end as int).drop_last() =~= v@.subrange(0, end - 1));
        end -= 1;
    }
    let cleaned = string_from_range(&v, 0, end);
    let ghost c = cleaned@;
    assert(trim_end_punct(c) == c);
    if is_known_phrase(cleaned.as_str()) {
        return true;
    }
    if byte_length(cleaned.as_str()) <= 2 {
        return true;
    }
    !is_supported_lang(detected_lang)
}

/// Whether `text` is a phrase that recognition invents: compared trimmed, lower-cased and
/// without trailing punctuation; very short phrases and unsupported languages count too.
pub fn is_hallucination(text: &str, detected_lang: SourceLanguage) -> (res: bool)
    ensures
        res == hallucination_verdict(
            trim_end_punct(lowercase(trim(text@))),
            detected_lang,
        ),
{
    let trimmed = trim_text(text);
    let lowered = to_lowercase(trimmed.as_str());
    is_hallucination_lowered(lowered.as_str(), detected_lang)
}

} // verus!

verus! {

proof fn lemma_count_ignores(s: Seq<char>, extra: Seq<char>, p: spec_fn(char) -> bool)
    requires
        forall|i: int| 0 <= i < extra.len() ==> !p(#[trigger] extra[i]),
    ensures
        count_where(s + extra, p) == count_where(s, p),
    decreases extra.len(),
{
    if extra.len() > 0 {
        lemma_count_ignores(s, extra.drop_last(), p);
        assert((s + extra).drop_last() =~= s + extra.drop_last());
        assert((s + extra).last() == extra.last());
    } else {
        assert(s + extra =~= s);
    }
}

/// The count of characters satisfying `p` is the length of `s` filtered by `p`.
pub(crate) proof fn lemma_count_is_filter_len(s: Seq<char>, p: spec_fn(char) -> bool)
    ensures
        count_where(s, p) == s.filter(p).len(),
    decreases s.len(),
{
    reveal(Seq::filter);
    if s.len() > 0 {
        lemma_count_is_filter_len(s.drop_last(), p);
    }
}

/// No more characters satisfy `p` than `s` has, and all of them when every one does.
pub(crate) proof fn lemma_count_bounds(s: Seq<char>, p: spec_fn(char) -> bool)
    ensures
        count_where(s, p) <= s.len(),
        (forall|i: int| 0 <= i < s.len() ==> #[trigger] p(s[i])) ==> count_where(s, p) == s.len(),
    decreases s.len(),
{
    if s.len() > 0 {
        lemma_count_bounds(s.drop_last(), p);
        if forall|i: int| 0 <= i < s.len() ==> #[trigger] p(s[i]) {
            assert forall|i: int| 0 <= i < s.drop_last().len() implies #[trigger] p(
                s.drop_last()[i],
            ) by {
                assert(s.drop_last()[i] == s[i]);
            }
            assert(p(s[s.len() - 1]));
        }
    }
}

/// Characters that are neither Latin, Russian nor Kazakh letters, added to lower-cased text,
/// leave the language guessed from it unchanged.
pub proof fn law_detection_ignores_other_chars(lowered: Seq<char>, extra: Seq<char>)
    requires
        forall|i: int|
            0 <= i < extra.len() ==> !is_ascii_letter(#[trigger] extra[i]) && !is_russian_letter(
                extra[i],
            ) && !is_kazakh_letter(extra[i]),
    ensures
        detected_language(lowered + extra) == detected_language(lowered),
{
    let joined = lowered + extra;
    let latin = |c: char| is_ascii_letter(c);
    let cyrillic = |c: char| is_russian_letter(c);
    lemma_count_ignores(lowered, extra, latin);
    lemma_count_ignores(lowered, extra, cyrillic);
    if has_kazakh_letter(joined) {
        let i = choose|i: int| 0 <= i < joined.len() && is_kazakh_letter(#[trigger] joined[i]);
        if i >= lowered.len() {
            assert(joined[i] == extra[i - lowered.len()]);
        } else {
            assert(joined[i] == lowered[i]);
        }
    }
    if has_kazakh_letter(lowered) {
        let i = choose|i: int| 0 <= i < lowered.len() && is_kazakh_letter(#[trigger] lowered[i]);
        assert(joined[i] == lowered[i]);
    }
    crate::text::lemma_blank_iff_all_ws(lowered);
    crate::text::lemma_blank_iff_all_ws(joined);
    if trim(lowered).len() == 0 {
        assert forall|i: int| 0 <= i < lowered.len() implies !latin(#[trigger] lowered[i])
            && !cyrillic(lowered[i]) && !is_kazakh_letter(lowered[i]) by {
            assert(is_ws(lowered[i]));
        }
        let empty = Seq::<char>::empty();
        assert(empty + lowered =~= lowered);
        lemma_count_ignores(empty, lowered, latin);
        lemma_count_ignores(empty, lowered, cyrillic);
    } else {
        let i = choose|i: int| 0 <= i < lowered.len() && !is_ws(#[trigger] lowered[i]);
        assert(joined[i] == lowered[i]);
    }
}

} // verus!

verus! {

/// Lower-cased text in which any of the Kazakh-only letters ә, і, ң, ғ, ү, ұ, қ, ө or һ occurs
/// is detected as Kazakh, whatever else it holds.
pub proof fn law_kazakh_letter_means_kazakh(lowered: Seq<char>, i: int)
    requires
        0 <= i < lowered.len(),
        lowered[i] == 'ә' || lowered[i] == 'і' || lowered[i] == 'ң' || lowered[i] == 'ғ'
            || lowered[i] == 'ү' || lowered[i] == 'ұ' || lowered[i] == 'қ' || lowered[i] == 'ө'
            || lowered[i] == 'һ',
    ensures
        detected_language(lowered) == Some(SourceLanguage::Kazakh),
{
    crate::text::lemma_blank_iff_all_ws(lowered);
    assert(!is_ws(lowered[i]));
    assert(is_kazakh_letter(lowered[i]));
}

} // verus!

verus! {

proof fn lemma_count_positive(s: Seq<char>, p: spec_fn(char) -> bool, i: int)
    requires
        0 <= i < s.len(),
        p(s[i]),
    ensures
        count_where(s, p) >= 1,
    decreases s.len(),
{
    if i < s.len() - 1 {
        lemma_count_positive(s.drop_last(), p, i);
    }
}

/// Lower-cased text of ASCII characters only, with a Latin letter among them, is detected as
/// English.
pub proof fn law_latin_text_means_english(lowered: Seq<char>, i: int)
    requires
        0 <= i < lowered.len(),
        'a' <= lowered[i] <= 'z',
        forall|j: int| 0 <= j < lowered.len() ==> (#[trigger] lowered[j] as u32) < 128,
    ensures
        detected_language(lowered) == Some(SourceLanguage::English),
{
    let latin = |c: char| is_ascii_letter(c);
    let cyrillic = |c: char| is_russian_letter(c);
    crate::text::lemma_blank_iff_all_ws(lowered);
    assert(!is_ws(lowered[i]));
    lemma_count_positive(lowered, latin, i);
    let empty = Seq::<char>::empty();
    assert(empty + lowered =~= lowered);
    assert forall|j: int| 0 <= j < lowered.len() implies !cyrillic(#[trigger] lowered[j]) by {
        assert((lowered[j] as u32) < 128);
    }
    lemma_count_ignores(empty, lowered, cyrillic);
    if has_kazakh_letter(lowered) {
        let j = choose|j: int| 0 <= j < lowered.len() && is_kazakh_letter(#[trigger] lowered[j]);
        assert((lowered[j] as u32) < 128);
    }
}

/// Lower-cased text made of Russian letters and ASCII characters other than letters, with a
/// Russian letter among them, is detected as Russian.
pub proof fn law_russian_text_means_russian(lowered: Seq<char>, i: int)
    requires
        0 <= i < lowered.len(),
        'а' <= lowered[i] <= 'я' || lowered[i] == 'ё',
        forall|j: int|
            0 <= j < lowered.len() ==> ('а' <= #[trigger] lowered[j] <= 'я' || lowered[j] == 'ё'
                || ((lowered[j] as u32) < 128 && !('a' <= lowered[j] <= 'z') && !('A' <= lowered[j]
                <= 'Z'))),
    ensures
        detected_language(lowered) == Some(SourceLanguage::Russian),
{
    let latin = |c: char| is_ascii_letter(c);
    let cyrillic = |c: char| is_russian_letter(c);
    crate::text::lemma_blank_iff_all_ws(lowered);
    assert(!is_ws(lowered[i]));
    lemma_count_positive(lowered, cyrillic, i);
    let empty = Seq::<char>::empty();
    assert(empty + lowered =~= lowered);
    assert forall|j: int| 0 <= j < lowered.len() implies !latin(#[trigger] lowered[j]) by {
        assert('а' <= lowered[j] <= 'я' || lowered[j] == 'ё' || ((lowered[j] as u32) < 128
            && !('a' <= lowered[j] <= 'z') && !('A' <= lowered[j] <= 'Z')));
    }
    lemma_count_ignores(empty, lowered, latin);
    if has_kazakh_letter(lowered) {
        let j = choose|j: int| 0 <= j < lowered.len() && is_kazakh_letter(#[trigger] lowered[j]);
        assert('а' <= lowered[j] <= 'я' || lowered[j] == 'ё' || ((lowered[j] as u32) < 128
            && !('a' <= lowered[j] <= 'z') && !('A' <= lowered[j] <= 'Z')));
    }
}

} // verus!
