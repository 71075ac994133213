use ai_translate::audio::{decode_pcm_s16le, pcm_to_wav_bytes};
use ai_translate::clock::{epoch_millis, now_unix_ms};
use ai_translate::glossary::{
    build_glossary_prompt, merged_glossary_terms, parse_glossary_terms, parse_terms_from_ws_value,
    split_terms, TermsField,
};
use ai_translate::lang::{LanguageMode, SourceLanguage};
use ai_translate::patterns::{normalize_spoken_abbreviations, sanitize_text_for_business, TextFilters};
use ai_translate::session::{
    chunk_long_enough, extract_incremental_text, is_low_quality_text, prepare_transcript,
    server_message_to_ws_json, stt_warning, translation_is_current, ws_client_fields, ws_text_to_client_message, client_command_from_fields,
    ClientCommand, Emission,
    QualityCheck, ServerMessage, ServerPayload, SessionCounter, SessionState, WsClientFields, WsEvent,
};
use ai_translate::translate::{
    fallback_translation, transcription_from_body, transcription_result, translation_from_body, translation_from_reply, translation_system_prompt,
    translation_user_message, TranscriptionResult,
};

fn filters() -> TextFilters {
    TextFilters::new().expect("patterns compile")
}

fn strings(v: &[&str]) -> Vec<String> {
    v.iter().map(|s| s.to_string()).collect()
}

#[test]
fn sanitize_removes_profanity_and_tidies_spaces() {
    let f = filters();
    assert_eq!(sanitize_text_for_business(&f, "  hello   world , fine "), "hello world, fine");
    assert_eq!(sanitize_text_for_business(&f, "this is shit ok"), "this is ok");
    assert_eq!(sanitize_text_for_business(&f, "Fucking great"), "great");
    assert_eq!(sanitize_text_for_business(&f, "ну бляха муха"), "ну муха");
    assert_eq!(sanitize_text_for_business(&f, ""), "");
}

#[test]
fn spoken_mnu_becomes_the_abbreviation() {
    let f = filters();
    assert_eq!(normalize_spoken_abbreviations(&f, "я учусь в эм эн ю"), "я учусь в MNU");
    assert_eq!(normalize_spoken_abbreviations(&f, "Ем  Эн Ю тамаша"), "MNU тамаша");
    assert_eq!(normalize_spoken_abbreviations(&f, "ЭМЭНЮ"), "MNU");
    assert_eq!(normalize_spoken_abbreviations(&f, "эмэнюшка"), "эмэнюшка");
}

#[test]
fn glossary_terms_are_split_cleaned_and_deduplicated() {
    let f = filters();
    let terms = parse_glossary_terms(&f, strings(&["MNU, Nazarbayev  University;mnu", "\n  KazMunayGas \n,,"]));
    assert_eq!(terms, strings(&["MNU", "Nazarbayev University", "KazMunayGas"]));
    assert!(parse_glossary_terms(&f, Vec::new()).is_empty());
    let merged = merged_glossary_terms(&f, &strings(&["a", "A", "b"]));
    assert_eq!(merged, strings(&["a", "b"]));
}

#[test]
fn glossary_holds_at_most_two_hundred_terms() {
    let f = filters();
    let raw: Vec<String> = (0..250).map(|i| format!("term{i}")).collect();
    let terms = parse_glossary_terms(&f, raw);
    assert_eq!(terms.len(), 200);
    assert_eq!(terms[199], "term199");
}

#[test]
fn glossary_prompt_lists_at_most_sixty_terms() {
    assert_eq!(build_glossary_prompt(&Vec::new()), "");
    let p = build_glossary_prompt(&strings(&["MNU", "KMG"]));
    assert!(p.starts_with("Preferred official terms and abbreviations."));
    assert!(p.ends_with("when ASR is close: MNU, KMG"));
    let many: Vec<String> = (0..70).map(|i| format!("t{i}")).collect();
    let p = build_glossary_prompt(&many);
    assert!(p.ends_with("t58, t59"));
}

#[test]
fn split_terms_keeps_empty_pieces() {
    assert_eq!(split_terms("a,,b\nc;"), strings(&["a", "", "b", "c", ""]));
    assert_eq!(split_terms(""), strings(&[""]));
}

#[test]
fn client_terms_from_lists_and_strings() {
    let list = TermsField::List(vec![Some(" a, b ".to_string()), None, Some("c".to_string())]);
    assert_eq!(parse_terms_from_ws_value(&list), strings(&["a", "b", "c"]));
    let text = TermsField::Text("x;\n y ,".to_string());
    assert_eq!(parse_terms_from_ws_value(&text), strings(&["x", "y"]));
    assert!(parse_terms_from_ws_value(&TermsField::Absent).is_empty());
    let long = TermsField::Text((0..300).map(|i| i.to_string()).collect::<Vec<_>>().join(","));
    assert_eq!(parse_terms_from_ws_value(&long).len(), 200);
}

#[test]
fn incremental_text_is_the_new_words() {
    assert_eq!(extract_incremental_text("hello there", "hello there general kenobi"), "general kenobi");
    assert_eq!(extract_incremental_text("", "hello"), "hello");
    assert_eq!(extract_incremental_text("hello there", "hello"), "hello");
    assert_eq!(extract_incremental_text("hello there", "bye there friend"), "bye there friend");
    assert_eq!(extract_incremental_text("a b", "  a  b   c\td "), "c d");
}

#[test]
fn quality_checks() {
    assert!(matches!(is_low_quality_text("   ", 6, 4), QualityCheck::Low));
    assert!(matches!(is_low_quality_text("abc", 6, 4), QualityCheck::Low));
    assert!(matches!(is_low_quality_text("1234567 a", 6, 4), QualityCheck::Low));
    match is_low_quality_text(" hello, world ", 6, 4) {
        QualityCheck::Ratio { alpha_chars, total_chars } => {
            assert_eq!(alpha_chars, 10);
            assert_eq!(total_chars, 12);
        }
        QualityCheck::Low => panic!("expected counts"),
    }
    // byte length counts: two Cyrillic letters are four bytes
    assert!(matches!(is_low_quality_text("ая", 4, 2), QualityCheck::Ratio { .. }));
}

#[test]
fn chunks_and_transcripts() {
    assert!(!chunk_long_enough(&vec![0u8; 3199]));
    assert!(chunk_long_enough(&vec![0u8; 3200]));
    let f = filters();
    assert_eq!(prepare_transcript(&f, "  ", 1), None);
    assert_eq!(prepare_transcript(&f, "эм эн ю", 1), Some("MNU".to_string()));
    assert_eq!(prepare_transcript(&f, "one two", 3), None);
}

#[test]
fn transcription_fields() {
    let r = transcription_result(Some("  hi  ".to_string()), None);
    assert_eq!(r.text, "hi");
    assert_eq!(r.language_raw, "unknown");
    let r = transcription_result(None, Some("kazakh".to_string()));
    assert_eq!(r.text, "");
    assert_eq!(r.language_raw, "kazakh");
}

#[test]
fn translation_prompts_and_replies() {
    let p = translation_system_prompt(SourceLanguage::Russian, "GLOSSARY");
    assert!(p.starts_with("You are a real-time conference translator. The source text is in Russian. First,"));
    assert!(p.contains("wording. GLOSSARY Keep each translation"));
    assert!(p.ends_with("{\"RU\": \"...\", \"EN\": \"...\", \"KK\": \"...\"}"));
    assert!(translation_system_prompt(SourceLanguage::Unspecified, "").contains("is in Kazakh."));
    assert_eq!(translation_user_message("hi"), "Translate: \"hi\"");
    let f = filters();
    let t = translation_from_reply(&f, "src", Some("  привет ,  мир ".to_string()), None, Some("shit сәлем".to_string()));
    assert_eq!(t.ru, "привет, мир");
    assert_eq!(t.en, "src");
    assert_eq!(t.kk, "сәлем");
    let fb = fallback_translation(&f, " a  b ");
    assert_eq!((fb.ru.as_str(), fb.en.as_str(), fb.kk.as_str()), ("a b", "a b", "a b"));
}

#[test]
fn new_session_names_and_defaults() {
    let s = SessionState::new_at(1700000000123, 7);
    assert_eq!(s.session_id, "session-1700000000123-7");
    assert_eq!(s.language_mode, LanguageMode::Auto);
    assert_eq!(s.manual_source_lang, SourceLanguage::Kazakh);
    let mut counter = SessionCounter::new();
    let t = SessionState::new(&mut counter);
    assert!(t.session_id.starts_with("session-"));
    assert!(t.session_id.ends_with("-1"));
    let u = SessionState::new(&mut counter);
    assert!(u.session_id.ends_with("-2"));
    assert_ne!(t.session_id, u.session_id);
    assert_eq!(counter.next, 3);
    let mut top = SessionCounter { next: u64::MAX };
    assert_eq!(top.take(), u64::MAX);
    assert_eq!(top.take(), 0);
}

#[test]
fn only_the_latest_job_is_delivered() {
    assert!(translation_is_current(4, 4));
    assert!(!translation_is_current(5, 4));
}

#[test]
fn transcription_reply_body_is_read() {
    let r = transcription_from_body(r#"{"text":"  привет мир ","language":"russian","duration":1.5}"#).expect("reply");
    assert_eq!(r.text, "привет мир");
    assert_eq!(r.language_raw, "russian");
    let r = transcription_from_body(r#"{"text":null}"#).expect("reply");
    assert_eq!(r.text, "");
    assert_eq!(r.language_raw, "unknown");
    assert!(transcription_from_body("not json").is_err());
    assert!(transcription_from_body(r#"{"text":5}"#).is_err());
    assert!(transcription_from_body(r#"{"text":"a","language":["x"]}"#).is_err());
    assert!(transcription_from_body("42").is_err());
}

#[test]
fn language_mode_commands() {
    let f = filters();
    let mut s = SessionState::new_at(1, 1);
    s.apply_command(&f, ClientCommand::SetLanguageMode { mode: LanguageMode::Manual, manual_lang: SourceLanguage::English });
    assert_eq!(s.language_mode, LanguageMode::Manual);
    assert_eq!(s.manual_source_lang, SourceLanguage::English);
    s.apply_command(&f, ClientCommand::SetLanguageMode { mode: LanguageMode::Unspecified, manual_lang: SourceLanguage::Unspecified });
    assert_eq!(s.language_mode, LanguageMode::Auto);
    assert_eq!(s.manual_source_lang, SourceLanguage::English);
    s.apply_command(&f, ClientCommand::SetGlossary { terms: strings(&["x, y", "X"]) });
    assert_eq!(s.custom_glossary_terms, strings(&["x", "y"]));
}

#[test]
fn settings_report_the_model() {
    let mut s = SessionState::new_at(1, 1);
    let st = s.settings_state("gpt-4o-transcribe", "VOSK", None);
    assert_eq!(st.stt_model_lang, "gpt-4o-transcribe");
    assert_eq!(st.available_stt_models, strings(&["kazakh-vosk", "gpt-4o-transcribe"]));
    assert_eq!(st.warning, "");
    s.apply_language_mode(LanguageMode::Manual, SourceLanguage::Kazakh);
    let st = s.settings_state("gpt-4o-transcribe", "VOSK", Some("w".to_string()));
    assert_eq!(st.stt_model_lang, "kazakh-vosk");
    assert_eq!(st.warning, "w");
    assert_eq!(stt_warning("Vosk"), Some("Vosk mode is not implemented in Rust build; using remote STT.".to_string()));
    assert_eq!(stt_warning("remote"), None);
}

#[test]
fn transcript_language_resolution() {
    let mut s = SessionState::new_at(1, 1);
    let r = |text: &str, lang: &str| TranscriptionResult { text: text.to_string(), language_raw: lang.to_string() };
    assert_eq!(s.resolve_transcript_language(&r("hello", "Russian")), Some(SourceLanguage::Russian));
    assert_eq!(s.resolve_transcript_language(&r("hello", "UNKNOWN")), Some(SourceLanguage::English));
    assert_eq!(s.resolve_transcript_language(&r("сәлем", "")), Some(SourceLanguage::Kazakh));
    assert_eq!(s.resolve_transcript_language(&r("hola", "spanish")), None);
    assert_eq!(s.transcription_hint(), None);
    s.apply_language_mode(LanguageMode::Manual, SourceLanguage::Russian);
    assert_eq!(s.resolve_transcript_language(&r("hola", "spanish")), Some(SourceLanguage::Russian));
    assert_eq!(s.transcription_hint(), Some("ru"));
}

#[test]
fn emission_decisions() {
    let f = filters();
    let mut s = SessionState::new_at(1, 1);
    assert!(matches!(s.accept_transcript(&f, "12 34".to_string(), "12 34".to_string(), SourceLanguage::English), Emission::Skipped));
    assert_eq!(s.last_emitted_text, "");
    match s.accept_transcript(&f, "hello shit world".to_string(), "hello shit world".to_string(), SourceLanguage::English) {
        Emission::Emit { recognized, source_text, source_lang, job_id } => {
            assert_eq!(recognized, "hello world");
            assert_eq!(source_text, "hello shit world");
            assert_eq!(source_lang, SourceLanguage::English);
            assert_eq!(job_id, 1);
        }
        _ => panic!("expected emission"),
    }
    assert_eq!(s.last_emitted_text, "hello shit world");
    assert!(s.repeats_last_emission("hello shit world"));
    assert!(matches!(s.accept_transcript(&f, "thanks for watching".to_string(), "Thanks for watching.".to_string(), SourceLanguage::English), Emission::Filtered));
    assert_eq!(s.last_emitted_text, "thanks for watching");
    assert_eq!(s.latest_job_id, 1);
    s.apply_language_mode(LanguageMode::Manual, SourceLanguage::Russian);
    match s.accept_transcript(&f, "сәлем достар".to_string(), "сәлем достар".to_string(), SourceLanguage::Russian) {
        Emission::Emit { source_lang, job_id, .. } => {
            assert_eq!(source_lang, SourceLanguage::Kazakh);
            assert_eq!(job_id, 2);
        }
        _ => panic!("expected emission"),
    }
    assert_eq!(s.incremental_candidate(&f, "сәлем достар эм эн ю", 1), Some("MNU".to_string()));
    assert_eq!(s.incremental_candidate(&f, "сәлем достар", 1), Some("сәлем достар".to_string()));
}

#[test]
fn client_messages_become_commands() {
    let fields = |t: Option<&str>, mode: Option<&str>, lang: Option<&str>, terms: TermsField| WsClientFields {
        msg_type: t.map(String::from),
        mode: mode.map(String::from),
        manual_lang: lang.map(String::from),
        terms,
    };
    match client_command_from_fields(&fields(Some("set_language_mode"), Some("manual"), Some("EN"), TermsField::Absent)) {
        Some(ClientCommand::SetLanguageMode { mode, manual_lang }) => {
            assert_eq!(mode, LanguageMode::Manual);
            assert_eq!(manual_lang, SourceLanguage::English);
        }
        _ => panic!("expected language mode"),
    }
    match client_command_from_fields(&fields(Some("set_language_mode"), None, Some("xx"), TermsField::Absent)) {
        Some(ClientCommand::SetLanguageMode { mode, manual_lang }) => {
            assert_eq!(mode, LanguageMode::Auto);
            assert_eq!(manual_lang, SourceLanguage::Kazakh);
        }
        _ => panic!("expected language mode"),
    }
    match client_command_from_fields(&fields(Some("set_glossary"), None, None, TermsField::Text("a,b".to_string()))) {
        Some(ClientCommand::SetGlossary { terms }) => assert_eq!(terms, strings(&["a", "b"])),
        _ => panic!("expected glossary"),
    }
    assert!(matches!(client_command_from_fields(&fields(Some("get_settings"), None, None, TermsField::Absent)), Some(ClientCommand::GetSettings)));
    assert!(client_command_from_fields(&fields(Some("other"), None, None, TermsField::Absent)).is_none());
    assert!(client_command_from_fields(&fields(None, None, None, TermsField::Absent)).is_none());
}

#[test]
fn server_messages_to_events() {
    match server_message_to_ws_json(ServerMessage { payload: None }) {
        WsEvent::Error { message } => assert_eq!(message, "empty server payload"),
        _ => panic!("expected error"),
    }
    match server_message_to_ws_json(ServerMessage { payload: Some(ServerPayload::Recognized { original: "x".to_string(), detected_language: SourceLanguage::Unspecified }) }) {
        WsEvent::Recognized { original, detected_language } => {
            assert_eq!(original, "x");
            assert_eq!(detected_language, "unknown");
        }
        _ => panic!("expected recognized"),
    }
    let s = SessionState::new_at(1, 1);
    let st = s.settings_state("m", "remote", None);
    match server_message_to_ws_json(ServerMessage { payload: Some(ServerPayload::SettingsState(st)) }) {
        WsEvent::SettingsState { language_mode, manual_source_lang, warning, .. } => {
            assert_eq!(language_mode, "auto");
            assert_eq!(manual_source_lang, "kazakh");
            assert_eq!(warning, None);
        }
        _ => panic!("expected settings"),
    }
}

#[test]
fn pcm_samples_are_little_endian_and_signed() {
    assert_eq!(decode_pcm_s16le(&vec![0x01, 0x00, 0xff, 0xff, 0x00, 0x80, 0xff, 0x7f, 0x05]), vec![1, -1, i16::MIN, i16::MAX]);
    assert!(decode_pcm_s16le(&vec![7]).is_empty());
}

#[test]
fn clock_reads_milliseconds() {
    assert!(now_unix_ms() > 1_600_000_000_000);
    assert_eq!(epoch_millis(Some(5)), 5);
    assert_eq!(epoch_millis(Some(1_700_000_000_123)), 1_700_000_000_123);
    assert_eq!(epoch_millis(Some(u128::from(u64::MAX))), -1);
    assert_eq!(epoch_millis(None), 0);
}

#[test]
fn client_json_text_becomes_commands() {
    match ws_text_to_client_message(r#"{"type":"set_language_mode","mode":"manual","manual_lang":"ru"}"#) {
        Some(ClientCommand::SetLanguageMode { mode, manual_lang }) => {
            assert_eq!(mode, LanguageMode::Manual);
            assert_eq!(manual_lang, SourceLanguage::Russian);
        }
        _ => panic!("expected language mode"),
    }
    match ws_text_to_client_message(r#"{"type":"set_language_mode","mode":3}"#) {
        Some(ClientCommand::SetLanguageMode { mode, manual_lang }) => {
            assert_eq!(mode, LanguageMode::Auto);
            assert_eq!(manual_lang, SourceLanguage::Kazakh);
        }
        _ => panic!("expected language mode"),
    }
    match ws_text_to_client_message(r#"{"type":"set_glossary","terms":["a, b", 3, " c;d "]}"#) {
        Some(ClientCommand::SetGlossary { terms }) => assert_eq!(terms, strings(&["a", "b", "c", "d"])),
        _ => panic!("expected glossary"),
    }
    match ws_text_to_client_message(r#"{"type":"set_glossary","terms":"x\ny"}"#) {
        Some(ClientCommand::SetGlossary { terms }) => assert_eq!(terms, strings(&["x", "y"])),
        _ => panic!("expected glossary"),
    }
    match ws_text_to_client_message(r#"{"type":"set_glossary","terms":7}"#) {
        Some(ClientCommand::SetGlossary { terms }) => assert!(terms.is_empty()),
        _ => panic!("expected glossary"),
    }
    assert!(matches!(ws_text_to_client_message(r#"{"type":"get_settings"}"#), Some(ClientCommand::GetSettings)));
    assert!(ws_text_to_client_message("not json").is_none());
    assert!(ws_text_to_client_message(r#"{"type":5}"#).is_none());
    assert!(ws_text_to_client_message(r#"["get_settings"]"#).is_none());
    let f = ws_client_fields(r#"{"type":"t","mode":"m"}"#);
    assert_eq!(f.msg_type, Some("t".to_string()));
    assert_eq!(f.mode, Some("m".to_string()));
    assert_eq!(f.manual_lang, None);
    assert!(matches!(f.terms, TermsField::Absent));
}

#[test]
fn translation_reply_body_is_read() {
    let f = filters();
    let body = r#"{"choices":[{"message":{"content":"{\"RU\":\"Привет\",\"EN\":\"Hello  shit\",\"KK\":\"Сәлем\"}"}}]}"#;
    let t = translation_from_body(&f, "сәлем", body);
    assert_eq!(t.ru, "Привет");
    assert_eq!(t.en, "Hello");
    assert_eq!(t.kk, "Сәлем");
    let partial = r#"{"choices":[{"message":{"content":"{\"EN\":\"Hi\"}"}}]}"#;
    let t = translation_from_body(&f, "source  text", partial);
    assert_eq!(t.ru, "source text");
    assert_eq!(t.en, "Hi");
    assert_eq!(t.kk, "source text");
    let t = translation_from_body(&f, "oh shit", "gateway error");
    assert_eq!(t.ru, "oh");
    assert_eq!(t.en, "oh");
    assert_eq!(t.kk, "oh");
    let not_json_content = r#"{"choices":[{"message":{"content":"plain words"}}]}"#;
    let t = translation_from_body(&f, "x", not_json_content);
    assert_eq!(t.en, "x");
}

#[test]
fn pcm_becomes_a_wav_file() {
    let pcm = vec![0x01, 0x00, 0xff, 0xff, 0x09];
    let wav = pcm_to_wav_bytes(&pcm, 16000).expect("wav");
    assert_eq!(wav.len(), 44 + 4);
    assert_eq!(&wav[0..4], b"RIFF");
    assert_eq!(&wav[8..12], b"WAVE");
    assert_eq!(u32::from_le_bytes([wav[24], wav[25], wav[26], wav[27]]), 16000);
    assert_eq!(u16::from_le_bytes([wav[22], wav[23]]), 1);
    assert_eq!(u16::from_le_bytes([wav[34], wav[35]]), 16);
    assert_eq!(&wav[44..], &[0x01, 0x00, 0xff, 0xff]);
    assert_eq!(u32::from_le_bytes([wav[4], wav[5], wav[6], wav[7]]), 40);
    assert_eq!(&wav[12..16], b"fmt ");
    assert_eq!(u32::from_le_bytes([wav[16], wav[17], wav[18], wav[19]]), 16);
    assert_eq!(u16::from_le_bytes([wav[20], wav[21]]), 1);
    assert_eq!(u32::from_le_bytes([wav[28], wav[29], wav[30], wav[31]]), 32000);
    assert_eq!(u16::from_le_bytes([wav[32], wav[33]]), 2);
    assert_eq!(&wav[36..40], b"data");
    assert_eq!(u32::from_le_bytes([wav[40], wav[41], wav[42], wav[43]]), 4);
    let empty = pcm_to_wav_bytes(&Vec::new(), 8000).expect("wav");
    assert_eq!(empty.len(), 44);
}

#[test]
fn transcripts_pass_every_step_in_order() {
    let f = filters();
    let tr = |t: &str, l: &str| TranscriptionResult { text: t.to_string(), language_raw: l.to_string() };
    let share = |a: usize, t: usize| (a as f64 / t as f64) >= 0.5;
    let mut s = SessionState::new_at(1, 1);
    assert!(matches!(s.process_transcript(&f, &tr("hola amigos", "spanish"), 1, 1, 1, false, share), Emission::Skipped));
    assert!(matches!(s.process_transcript(&f, &tr("   ", "english"), 1, 1, 1, false, share), Emission::Skipped));
    assert!(matches!(s.process_transcript(&f, &tr("hello world", "english"), 3, 1, 1, false, share), Emission::Skipped));
    assert!(matches!(s.process_transcript(&f, &tr("hello world", "english"), 1, 50, 1, false, share), Emission::Skipped));
    assert_eq!(s.last_emitted_text, "");
    assert_eq!(s.latest_job_id, 0);
    match s.process_transcript(&f, &tr("hello world", "english"), 1, 1, 1, false, share) {
        Emission::Emit { recognized, source_text, source_lang, job_id } => {
            assert_eq!(recognized, "hello world");
            assert_eq!(source_text, "hello world");
            assert_eq!(source_lang, SourceLanguage::English);
            assert_eq!(job_id, 1);
        }
        _ => panic!("expected emission"),
    }
    assert_eq!(s.last_emitted_text, "hello world");
    assert!(matches!(s.process_transcript(&f, &tr("hello world", "english"), 1, 1, 1, true, share), Emission::Skipped));
    assert_eq!(s.latest_job_id, 1);
    match s.process_transcript(&f, &tr("hello world again friend", "english"), 1, 1, 1, true, share) {
        Emission::Emit { source_text, job_id, .. } => {
            assert_eq!(source_text, "again friend");
            assert_eq!(job_id, 2);
        }
        _ => panic!("expected emission"),
    }
    assert!(matches!(s.process_transcript(&f, &tr("Thanks for watching.", "english"), 1, 1, 1, false, share), Emission::Filtered));
    assert_eq!(s.last_emitted_text, "Thanks for watching.");
    assert_eq!(s.latest_job_id, 2);

    let mut t = SessionState::new_at(1, 2);
    assert!(matches!(t.process_transcript(&f, &tr("ab 1234567", "english"), 1, 1, 1, false, share), Emission::Skipped));
    assert!(matches!(t.process_transcript(&f, &tr("ab 1234567", "english"), 1, 1, 3, false, |_, _| true), Emission::Skipped));
    assert_eq!(t.last_emitted_text, "");
    assert!(matches!(t.process_transcript(&f, &tr("ab 1234567", "english"), 1, 1, 1, false, |_, _| true), Emission::Emit { .. }));
}

#[test]
fn session_numbers_give_distinct_ids() {
    let a = SessionState::new_at(5, 1);
    let b = SessionState::new_at(5, 2);
    let c = SessionState::new_at(-7, 12);
    let d = SessionState::new_at(-71, 2);
    assert_eq!(a.session_id, "session-5-1");
    assert_eq!(c.session_id, "session--7-12");
    assert_ne!(a.session_id, b.session_id);
    assert_ne!(c.session_id, d.session_id);
}
