use ai_translate::config::{listing_limit, parse_env_usize};
use ai_translate::lang::{
    detect_language_from_text, is_hallucination, is_supported_lang, mode_to_ui,
    normalize_lang_code, source_lang_hint, source_to_ui, LanguageMode, SourceLanguage,
};
use ai_translate::text::{
    equals_ignore_ascii_case, parse_usize, push_decimal, push_signed_decimal, split_whitespace,
    trim_preview, trim_text, word_count,
};

#[test]
fn normalize_lang_code_accepts_codes_and_names_in_any_case() {
    assert_eq!(normalize_lang_code("KK"), Some(SourceLanguage::Kazakh));
    assert_eq!(normalize_lang_code("kazakh"), Some(SourceLanguage::Kazakh));
    assert_eq!(normalize_lang_code("Russian"), Some(SourceLanguage::Russian));
    assert_eq!(normalize_lang_code("ru"), Some(SourceLanguage::Russian));
    assert_eq!(normalize_lang_code("EN"), Some(SourceLanguage::English));
    assert_eq!(normalize_lang_code("english"), Some(SourceLanguage::English));
    assert_eq!(normalize_lang_code("de"), None);
    assert_eq!(normalize_lang_code(""), None);
    assert_eq!(normalize_lang_code(" kk"), None);
}

#[test]
fn hints_and_labels() {
    assert_eq!(source_lang_hint(SourceLanguage::Kazakh), Some("kk"));
    assert_eq!(source_lang_hint(SourceLanguage::Russian), Some("ru"));
    assert_eq!(source_lang_hint(SourceLanguage::English), Some("en"));
    assert_eq!(source_lang_hint(SourceLanguage::Unspecified), None);
    assert_eq!(source_to_ui(SourceLanguage::Kazakh), "kazakh");
    assert_eq!(source_to_ui(SourceLanguage::Russian), "russian");
    assert_eq!(source_to_ui(SourceLanguage::English), "english");
    assert_eq!(source_to_ui(SourceLanguage::Unspecified), "unknown");
    assert_eq!(mode_to_ui(LanguageMode::Manual), "manual");
    assert_eq!(mode_to_ui(LanguageMode::Auto), "auto");
    assert_eq!(mode_to_ui(LanguageMode::Unspecified), "auto");
    assert!(is_supported_lang(SourceLanguage::Kazakh));
    assert!(is_supported_lang(SourceLanguage::Russian));
    assert!(is_supported_lang(SourceLanguage::English));
    assert!(!is_supported_lang(SourceLanguage::Unspecified));
}

#[test]
fn detects_kazakh_by_its_letters() {
    assert_eq!(detect_language_from_text("Сәлеметсіз бе"), Some(SourceLanguage::Kazakh));
    assert_eq!(detect_language_from_text("ҚАЗАҚСТАН"), Some(SourceLanguage::Kazakh));
}

#[test]
fn detects_english_and_russian_by_letter_counts() {
    assert_eq!(detect_language_from_text("Hello world"), Some(SourceLanguage::English));
    assert_eq!(detect_language_from_text("Привет, мир"), Some(SourceLanguage::Russian));
    assert_eq!(detect_language_from_text("Ёлка"), Some(SourceLanguage::Russian));
    // equal counts: Russian wins
    assert_eq!(detect_language_from_text("ab вг"), Some(SourceLanguage::Russian));
    assert_eq!(detect_language_from_text("abc вг"), Some(SourceLanguage::English));
}

#[test]
fn detects_nothing_in_blank_or_letterless_text() {
    assert_eq!(detect_language_from_text(""), None);
    assert_eq!(detect_language_from_text("   \t\n"), None);
    assert_eq!(detect_language_from_text("123 456 !?"), None);
    assert_eq!(detect_language_from_text("日本語"), None);
}

#[test]
fn hallucination_phrases_are_filtered() {
    assert!(is_hallucination("Thank you for watching!", SourceLanguage::English));
    assert!(is_hallucination("  Спасибо за просмотр...  ", SourceLanguage::Russian));
    assert!(is_hallucination("Bye.", SourceLanguage::English));
    assert!(is_hallucination("ok", SourceLanguage::English));
    assert!(is_hallucination("", SourceLanguage::English));
    assert!(!is_hallucination("The meeting starts now", SourceLanguage::English));
    assert!(is_hallucination("The meeting starts now", SourceLanguage::Unspecified));
    // "да" is four bytes, so it is not too short
    assert!(!is_hallucination("да", SourceLanguage::Russian));
}

#[test]
fn trimming_and_words() {
    assert_eq!(trim_text("  a b \u{3000}"), "a b");
    assert_eq!(trim_text("\t\n"), "");
    assert_eq!(split_whitespace("  one two\u{a0}three  "), vec!["one", "two", "three"]);
    assert_eq!(word_count(""), 0);
    assert_eq!(word_count("a  b\tc\n"), 3);
}

#[test]
fn preview_keeps_leading_characters() {
    assert_eq!(trim_preview("Сәлем әлем", 5), "Сәлем");
    assert_eq!(trim_preview("short", 80), "short");
    assert_eq!(trim_preview("abc", 0), "");
}

#[test]
fn ascii_case_insensitive_comparison() {
    assert!(equals_ignore_ascii_case("VOSK", "vosk"));
    assert!(equals_ignore_ascii_case("VoSk", "vOsK"));
    assert!(!equals_ignore_ascii_case("vosk ", "vosk"));
    assert!(!equals_ignore_ascii_case("ВОСК", "воск"));
}

#[test]
fn decimal_formatting() {
    let mut s = String::from("x");
    push_decimal(&mut s, 0);
    push_decimal(&mut s, 1234567890);
    assert_eq!(s, "x01234567890");
    let mut t = String::new();
    push_signed_decimal(&mut t, -42);
    assert_eq!(t, "-42");
    let mut m = String::new();
    push_signed_decimal(&mut m, i64::MIN);
    assert_eq!(m, i64::MIN.to_string());
    let mut u = String::new();
    push_decimal(&mut u, u64::MAX);
    assert_eq!(u, u64::MAX.to_string());
}

#[test]
fn decimal_parsing_follows_usize_from_str() {
    for s in ["0", "007", "+5", "18446744073709551615", "", "+", "-1", "1 ", " 1", "12a", "18446744073709551616", "++1"] {
        assert_eq!(parse_usize(s), s.parse::<usize>().ok(), "input {:?}", s);
    }
}

#[test]
fn env_settings_default_parse_or_fail() {
    assert_eq!(parse_env_usize("MIN_WORDS_TO_EMIT", None, 1), Ok(1));
    assert_eq!(parse_env_usize("MIN_WORDS_TO_EMIT", Some("3"), 1), Ok(3));
    assert_eq!(
        parse_env_usize("MIN_WORDS_TO_EMIT", Some("three"), 1),
        Err("MIN_WORDS_TO_EMIT must be a number".to_string())
    );
}

#[test]
fn listing_limits_are_clamped() {
    assert_eq!(listing_limit(None, 300), 300);
    assert_eq!(listing_limit(Some(0), 300), 1);
    assert_eq!(listing_limit(Some(5000), 300), 2000);
    assert_eq!(listing_limit(Some(42), 300), 42);
}

#[test]
fn digits_and_punctuation_do_not_change_the_detected_language() {
    for text in ["hello world", "привет мир", "сәлем", "", "   ", "123"] {
        for extra in [" 42!", "...", " - 7, 8;", "\n"] {
            let joined = format!("{text}{extra}");
            assert_eq!(detect_language_from_text(&joined), detect_language_from_text(text));
        }
    }
}
