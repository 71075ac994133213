//! A streaming session: its settings, the commands a client sends, the events it is sent,
//! and the decisions taken on each recognized chunk of speech.
use vstd::prelude::*;
use crate::clock::now_unix_ms;
use crate::glossary::{
    cleaned_terms, client_terms, first_terms, glossary_of, list_terms, parse_glossary_terms,
    parse_terms_from_ws_value, trimmed_terms, TermsField,
};
use crate::json::{json_list_field, json_list_items, json_str_field, json_string_field, opt_text};
use crate::lang::{
    count_where, detect_language_from_text, detected_language, hallucination_verdict,
    is_hallucination, is_supported_lang, lang_for_code, lang_hint, mode_name, mode_to_ui,
    normalize_lang_code, source_lang_hint, source_to_ui, supported, trim_end_punct, ui_name,
    LanguageMode, SourceLanguage,
};
use crate::patterns::{
    abbreviations_normalized, business_safe, normalize_spoken_abbreviations,
    sanitize_text_for_business, TextFilters,
};
use crate::text::{
    byte_len, byte_length, chars_of, decimal, eq_ignore_ascii_case, equals_ignore_ascii_case,
    is_blank, join, join_range, owned, push_decimal, push_signed_decimal, push_str, same_text,
    signed_decimal, split_whitespace, trim, trim_text, views, word_count, words,
};
use crate::translate::TranscriptionResult;
use crate::unicode::{alphabetic, is_alphabetic, lowercase};

verus! {

/// The state of one client's streaming session.
pub struct SessionState {
    pub session_id: String,
    pub session_started_ms: i64,
    pub language_mode: LanguageMode,
    pub manual_source_lang: SourceLanguage,
    pub custom_glossary_terms: Vec<String>,
    pub last_emitted_text: String,
    pub latest_job_id: u64,
}

/// The id of a session started at `started_ms` as the `seq`-th session.
pub open spec fn session_name(started_ms: i64, seq: u64) -> Seq<char> {
    "session-"@ + signed_decimal(started_ms as int) + "-"@ + decimal(seq as nat)
}

/// The numbers given to sessions in turn, from 1 on.
pub struct SessionCounter {
    pub next: u64,
}

/// The number after `n`, wrapping at the top as an atomic add does.
pub open spec fn seq_after(n: u64) -> u64 {
    if n == u64::MAX {
        0
    } else {
        (n + 1) as u64
    }
}

impl SessionCounter {
    /// A counter whose first number is 1.
    pub fn new() -> (res: Self)
        ensures
            res.next == 1,
    {
        SessionCounter { next: 1 }
    }

    /// Gives the current number and moves on to the next.
    pub fn take(&mut self) -> (res: u64)
        ensures
            res == old(self).next,
            final(self).next == seq_after(old(self).next),
    {
        let n = self.next;
        self.next = if n == u64::MAX {
            0
        } else {
            n + 1
        };
        n
    }
}

/// Whether the translation of job `job_id` is still the one to deliver: no later job was
/// started in the session since.
pub fn translation_is_current(latest_job_id: u64, job_id: u64) -> (res: bool)
    ensures
        res == (latest_job_id == job_id),
{
    latest_job_id == job_id
}

impl SessionState {
    /// A session started at `started_ms` as the `seq`-th session: automatic language mode,
    /// Kazakh as the manual language, no glossary, nothing emitted yet.
    pub fn new_at(started_ms: i64, seq: u64) -> (res: Self)
        ensures
            res.session_id@ == session_name(started_ms, seq),
            res.session_started_ms == started_ms,
            res.language_mode == LanguageMode::Auto,
            res.manual_source_lang == SourceLanguage::Kazakh,
            res.custom_glossary_terms@.len() == 0,
            res.last_emitted_text@.len() == 0,
            res.latest_job_id == 0,
    {
        let mut id = owned("session-");
        push_signed_decimal(&mut id, started_ms);
        push_str(&mut id, "-");
        push_decimal(&mut id, seq);
        SessionState {
            session_id: id,
            session_started_ms: started_ms,
            language_mode: LanguageMode::Auto,
            manual_source_lang: SourceLanguage::Kazakh,
            custom_glossary_terms: Vec::new(),
            last_emitted_text: String::new(),
            latest_job_id: 0,
        }
    }

    /// A session started now, numbered by the next number `counter` gives; as `new_at` with
    /// the time the clock gave, which is the session's `session_started_ms`.
    pub fn new(counter: &mut SessionCounter) -> (res: Self)
        ensures
            res.session_id@ == session_name(res.session_started_ms, old(counter).next),
            final(counter).next == seq_after(old(counter).next),
            res.language_mode == LanguageMode::Auto,
            res.manual_source_lang == SourceLanguage::Kazakh,
            res.custom_glossary_terms@.len() == 0,
            res.last_emitted_text@.len() == 0,
            res.latest_job_id == 0,
    {
        let seq = counter.take();
        SessionState::new_at(now_unix_ms(), seq)
    }

    /// Sets the language mode (manual when asked for manual, automatic otherwise) and, when
    /// it is supported, the manual language.
    pub fn apply_language_mode(&mut self, mode: LanguageMode, manual_lang: SourceLanguage)
        ensures
            final(self).language_mode == if mode == LanguageMode::Manual {
                LanguageMode::Manual
            } else {
                LanguageMode::Auto
            },
            final(self).manual_source_lang == if supported(manual_lang) {
                manual_lang
            } else {
                old(self).manual_source_lang
            },
            final(self).session_id == old(self).session_id,
            final(self).session_started_ms == old(self).session_started_ms,
            final(self).custom_glossary_terms == old(self).custom_glossary_terms,
            final(self).last_emitted_text == old(self).last_emitted_text,
            final(self).latest_job_id == old(self).latest_job_id,
    {
        self.language_mode = match mode {
            LanguageMode::Manual => LanguageMode::Manual,
            _ => LanguageMode::Auto,
        };
        if is_supported_lang(manual_lang) {
            self.manual_source_lang = manual_lang;
        }
    }

    /// Replaces the custom glossary by the glossary parsed from `terms`.
    pub fn apply_glossary(&mut self, filters: &TextFilters, terms: Vec<String>)
        ensures
            views(final(self).custom_glossary_terms@) == glossary_of(cleaned_terms(views(terms@))),
            final(self).session_id == old(self).session_id,
            final(self).session_started_ms == old(self).session_started_ms,
            final(self).language_mode == old(self).language_mode,
            final(self).manual_source_lang == old(self).manual_source_lang,
            final(self).last_emitted_text == old(self).last_emitted_text,
            final(self).latest_job_id == old(self).latest_job_id,
    {
        self.custom_glossary_terms = parse_glossary_terms(filters, terms);
    }

    /// Applies a client command to the session; every command is answered with the settings.
    pub fn apply_command(&mut self, filters: &TextFilters, command: ClientCommand)
        ensures
            match command {
                ClientCommand::SetLanguageMode { mode, manual_lang } => {
                    &&& final(self).language_mode == if mode == LanguageMode::Manual {
                        LanguageMode::Manual
                    } else {
                        LanguageMode::Auto
                    }
                    &&& final(self).manual_source_lang == if supported(manual_lang) {
                        manual_lang
                    } else {
                        old(self).manual_source_lang
                    }
                    &&& final(self).custom_glossary_terms == old(self).custom_glossary_terms
                },
                ClientCommand::SetGlossary { terms } => {
                    &&& views(final(self).custom_glossary_terms@) == glossary_of(
                        cleaned_terms(views(terms@)),
                    )
                    &&& final(self).language_mode == old(self).language_mode
                    &&& final(self).manual_source_lang == old(self).manual_source_lang
                },
                ClientCommand::GetSettings => {
                    &&& final(self).language_mode == old(self).language_mode
                    &&& final(self).manual_source_lang == old(self).manual_source_lang
                    &&& final(self).custom_glossary_terms == old(self).custom_glossary_terms
                },
            },
            final(self).session_id == old(self).session_id,
            final(self).session_started_ms == old(self).session_started_ms,
            final(self).last_emitted_text == old(self).last_emitted_text,
            final(self).latest_job_id == old(self).latest_job_id,
    {
        match command {
            ClientCommand::SetLanguageMode { mode, manual_lang } => {
                self.apply_language_mode(mode, manual_lang);
            },
            ClientCommand::SetGlossary { terms } => {
                self.apply_glossary(filters, terms);
            },
            ClientCommand::GetSettings => {},
        }
    }

    /// The settings reported to the client: the recognition model is the Kazakh Vosk model
    /// only in manual Kazakh mode with the Vosk engine configured, otherwise the remote model.
    pub fn settings_state(
        &self,
        remote_stt_model: &str,
        kazakh_stt_engine: &str,
        warning: Option<String>,
    ) -> (res: SettingsState)
        ensures
            res.language_mode == self.language_mode,
            res.manual_source_lang == self.manual_source_lang,
            res.stt_model_lang@ == stt_label(
                self.language_mode,
                self.manual_source_lang,
                remote_stt_model@,
                kazakh_stt_engine@,
            ),
            views(res.available_stt_models@) == seq!["kazakh-vosk"@, remote_stt_model@],
            views(res.custom_glossary_terms@) == views(self.custom_glossary_terms@),
            res.warning@ == match warning {
                Some(w) => w@,
                None => seq![],
            },
    {
        let stt_model_lang = if self.language_mode == LanguageMode::Manual
            && self.manual_source_lang == SourceLanguage::Kazakh && equals_ignore_ascii_case(
            kazakh_stt_engine,
            "vosk",
        ) {
            owned("kazakh-vosk")
        } else {
            owned(remote_stt_model)
        };
        let mut available: Vec<String> = Vec::new();
        available.push(owned("kazakh-vosk"));
        available.push(owned(remote_stt_model));
        assert(views(available@) =~= seq!["kazakh-vosk"@, remote_stt_model@]);
        let terms = copy_strings(&self.custom_glossary_terms);
        let warning = match warning {
            Some(w) => w,
            None => String::new(),
        };
        SettingsState {
            language_mode: self.language_mode,
            manual_source_lang: self.manual_source_lang,
            stt_model_lang,
            available_stt_models: available,
            custom_glossary_terms: terms,
            warning,
        }
    }

    /// The language hint for recognition: the manual language in manual mode, none otherwise.
    pub fn transcription_hint(&self) -> (res: Option<&'static str>)
        ensures
            self.language_mode == LanguageMode::Manual ==> (res is Some == lang_hint(
                self.manual_source_lang,
            ) is Some && (res matches Some(h) ==> h@ == lang_hint(self.manual_source_lang)->0)),
            self.language_mode != LanguageMode::Manual ==> res is None,
    {
        if self.language_mode == LanguageMode::Manual {
            source_lang_hint(self.manual_source_lang)
        } else {
            None
        }
    }

    /// The language of a transcription: the manual language in manual mode; in automatic
    /// mode the language recognition reported, or, when it reported none or "unknown", the
    /// language guessed from the text; nothing for any other reported language.
    pub fn resolve_transcript_language(&self, result: &TranscriptionResult) -> (res: Option<
        SourceLanguage,
    >)
        ensures
            res == transcript_language(
                self.language_mode,
                self.manual_source_lang,
                result.language_raw@,
                result.text@,
            ),
    {
        if self.language_mode == LanguageMode::Manual {
            return Some(self.manual_source_lang);
        }
        match normalize_lang_code(result.language_raw.as_str()) {
            Some(lang) => Some(lang),
            None => {
                if is_blank(result.language_raw.as_str()) || equals_ignore_ascii_case(
                    result.language_raw.as_str(),
                    "unknown",
                ) {
                    detect_language_from_text(result.text.as_str())
                } else {
                    None
                }
            },
        }
    }

    /// Whether `text` is what the session emitted last.
    pub fn repeats_last_emission(&self, text: &str) -> (res: bool)
        ensures
            res == (text@ == self.last_emitted_text@),
    {
        same_text(text, self.last_emitted_text.as_str())
    }

    /// The part of `text` not yet emitted, with spelled-out abbreviations normalized; nothing
    /// when it has fewer than `min_words` words.
    pub fn incremental_candidate(&self, filters: &TextFilters, text: &str, min_words: usize) -> (res:
        Option<String>)
        ensures
            ({
                let inc = abbreviations_normalized(incremental(self.last_emitted_text@, text@));
                match res {
                    Some(s) => s@ == inc && words(inc).len() >= min_words,
                    None => words(inc).len() < min_words,
                }
            }),
    {
        let inc = extract_incremental_text(self.last_emitted_text.as_str(), text);
        let inc = normalize_spoken_abbreviations(filters, inc.as_str());
        if word_count(inc.as_str()) < min_words {
            None
        } else {
            Some(inc)
        }
    }

    /// Decides on a transcript that passed the filters: the language guessed from the new
    /// part must exist, overrides the manual language when they differ, and must be supported;
    /// then the transcript becomes the last emitted text, invented phrases are dropped, and
    /// otherwise the new part is emitted under the next job id.
    pub fn accept_transcript(
        &mut self,
        filters: &TextFilters,
        text: String,
        incremental: String,
        detected_lang: SourceLanguage,
    ) -> (res: Emission)
        ensures
            accepted(*old(self), *final(self), text@, incremental@, detected_lang, res),
            old(self).language_mode != LanguageMode::Manual ==> (res matches Emission::Emit {
                source_lang,
                ..
            } ==> source_lang == detected_lang),
            old(self).language_mode == LanguageMode::Manual ==> (res matches Emission::Emit {
                source_lang,
                ..
            } ==> detected_language(lowercase(incremental@)) == Some(source_lang)),
            res matches Emission::Emit { source_text, .. } ==> source_text@ == incremental@,
    {
        let heuristic = match detect_language_from_text(incremental.as_str()) {
            Some(lang) => lang,
            None => {
                return Emission::Skipped;
            },
        };
        let mut lang = detected_lang;
        if self.language_mode == LanguageMode::Manual && heuristic != detected_lang {
            lang = heuristic;
        }
        if !is_supported_lang(lang) {
            return Emission::Skipped;
        }
        self.last_emitted_text = text;
        if is_hallucination(incremental.as_str(), lang) {
            return Emission::Filtered;
        }
        let recognized = sanitize_text_for_business(filters, incremental.as_str());
        let job_id = if self.latest_job_id == u64::MAX {
            0
        } else {
            self.latest_job_id + 1
        };
        self.latest_job_id = job_id;
        Emission::Emit { recognized, source_text: incremental, source_lang: lang, job_id }
    }

    /// Takes a transcription through every step, in order: its language must resolve; the
    /// text, normalized, must be non-blank with at least `min_words` words; it must not
    /// repeat the last emission while `recent_emission` (the last emission was within the
    /// repeat window); its new part, normalized, must have `min_words` words and pass the
    /// length checks, and `letter_share_ok` must accept its counts of letters and characters;
    /// then it is accepted as `accept_transcript` does. A transcription stopped at any step
    /// leaves the session unchanged.
    pub fn process_transcript<F: Fn(usize, usize) -> bool>(
        &mut self,
        filters: &TextFilters,
        result: &TranscriptionResult,
        min_words: usize,
        min_text_length: usize,
        min_alpha_chars: usize,
        recent_emission: bool,
        letter_share_ok: F,
    ) -> (res: Emission)
        requires
            forall|a: usize, t: usize| call_requires(letter_share_ok, (a, t)),
        ensures
            ({
                let lang = transcript_language(
                    old(self).language_mode,
                    old(self).manual_source_lang,
                    result.language_raw@,
                    result.text@,
                );
                let text = abbreviations_normalized(result.text@);
                let inc = abbreviations_normalized(incremental(old(self).last_emitted_text@, text));
                let q = quality_of(inc, min_text_length, min_alpha_chars);
                let counts = (q.1 as usize, q.2 as usize);
                if lang is None || trim(result.text@).len() == 0 || words(text).len() < min_words
                    || (recent_emission && text == old(self).last_emitted_text@) || words(inc).len()
                    < min_words || q.0 {
                    &&& res is Skipped
                    &&& *final(self) == *old(self)
                } else {
                    ||| {
                        &&& call_ensures(letter_share_ok, counts, false)
                        &&& res is Skipped
                        &&& *final(self) == *old(self)
                    }
                    ||| {
                        &&& call_ensures(letter_share_ok, counts, true)
                        &&& accepted(*old(self), *final(self), text, inc, lang->0, res)
                    }
                }
            }),
    {
        let detected = match self.resolve_transcript_language(result) {
            Some(l) => l,
            None => {
                return Emission::Skipped;
            },
        };
        let text = match prepare_transcript(filters, result.text.as_str(), min_words) {
            Some(t) => t,
            None => {
                return Emission::Skipped;
            },
        };
        if recent_emission && self.repeats_last_emission(text.as_str()) {
            return Emission::Skipped;
        }
        let inc = match self.incremental_candidate(filters, text.as_str(), min_words) {
            Some(i) => i,
            None => {
                return Emission::Skipped;
            },
        };
        match is_low_quality_text(inc.as_str(), min_text_length, min_alpha_chars) {
            QualityCheck::Low => Emission::Skipped,
            QualityCheck::Ratio { alpha_chars, total_chars } => {
                if letter_share_ok(alpha_chars, total_chars) {
                    self.accept_transcript(filters, text, inc, detected)
                } else {
                    Emission::Skipped
                }
            },
        }
    }
}

/// A copy of a list of strings.
fn copy_strings(v: &Vec<String>) -> (res: Vec<String>)
    ensures
        views(res@) == views(v@),
{
    let mut out: Vec<String> = Vec::new();
    let mut i: usize = 0;
    while i < v.len()
        invariant
            i <= v.len(),
            views(out@) == views(v@).take(i as int),
        decreases v.len() - i,
    {
        let ghost before = views(out@);
        let item = v[i].clone();
        out.push(item);
        assert(views(out@) =~= before.push(v@[i as int]@));
        assert(views(v@).take(i + 1) =~= views(v@).take(i as int).push(v@[i as int]@));
        i += 1;
    }
    assert(views(v@).take(v.len() as int) =~= views(v@));
    out
}

/// What accepting a transcript `text` whose new part is `incremental` does to a session
/// `before`, leaving it `after` with the outcome `res`: the language guessed from the new part
/// must exist, overrides the manual language when they differ, and must be supported, else
/// nothing changes; then the transcript becomes the last emitted text, invented phrases are
/// filtered, and otherwise the new part is emitted, cleaned, under the next job id.
pub open spec fn accepted(
    before: SessionState,
    after: SessionState,
    text: Seq<char>,
    incremental: Seq<char>,
    detected_lang: SourceLanguage,
    res: Emission,
) -> bool {
    let heuristic = detected_language(lowercase(incremental));
    let lang = emitted_language(before.language_mode, detected_lang, heuristic);
    if heuristic is None || !supported(lang) {
        &&& res is Skipped
        &&& after == before
    } else {
        &&& after.last_emitted_text@ == text
        &&& after.session_id == before.session_id
        &&& after.session_started_ms == before.session_started_ms
        &&& after.language_mode == before.language_mode
        &&& after.manual_source_lang == before.manual_source_lang
        &&& after.custom_glossary_terms == before.custom_glossary_terms
        &&& if hallucination_verdict(trim_end_punct(lowercase(trim(incremental))), lang) {
            &&& res is Filtered
            &&& after.latest_job_id == before.latest_job_id
        } else {
            &&& res matches Emission::Emit { recognized, source_text, source_lang, job_id }
            &&& recognized@ == business_safe(incremental)
            &&& source_text@ == incremental
            &&& source_lang == lang
            &&& job_id == next_job_id(before.latest_job_id)
            &&& after.latest_job_id == job_id
        }
    }
}

/// In automatic mode an emitted transcript keeps the language it was recognized in; in
/// manual mode it is emitted in the language guessed from its letters, which replaces the
/// manual language when they differ. What is emitted is the new part itself.
pub proof fn law_automatic_mode_keeps_language(
    before: SessionState,
    after: SessionState,
    text: Seq<char>,
    incremental: Seq<char>,
    detected_lang: SourceLanguage,
    res: Emission,
)
    requires
        accepted(before, after, text, incremental, detected_lang, res),
    ensures
        before.language_mode != LanguageMode::Manual ==> (res matches Emission::Emit {
            source_lang,
            ..
        } ==> source_lang == detected_lang),
        before.language_mode == LanguageMode::Manual ==> (res matches Emission::Emit {
            source_lang,
            ..
        } ==> detected_language(lowercase(incremental)) == Some(source_lang)),
        res matches Emission::Emit { source_text, .. } ==> source_text@ == incremental,
{
}

/// The recognition model label reported in the settings.
pub open spec fn stt_label(
    mode: LanguageMode,
    manual_lang: SourceLanguage,
    remote_stt_model: Seq<char>,
    kazakh_stt_engine: Seq<char>,
) -> Seq<char> {
    if mode == LanguageMode::Manual && manual_lang == SourceLanguage::Kazakh
        && eq_ignore_ascii_case(kazakh_stt_engine, "vosk"@) {
        "kazakh-vosk"@
    } else {
        remote_stt_model
    }
}

/// The language of a transcription (see `SessionState::resolve_transcript_language`).
pub open spec fn transcript_language(
    mode: LanguageMode,
    manual_lang: SourceLanguage,
    language_raw: Seq<char>,
    text: Seq<char>,
) -> Option<SourceLanguage> {
    if mode == LanguageMode::Manual {
        Some(manual_lang)
    } else if lang_for_code(lowercase(language_raw)) is Some {
        lang_for_code(lowercase(language_raw))
    } else if trim(language_raw).len() == 0 || eq_ignore_ascii_case(language_raw, "unknown"@) {
        detected_language(lowercase(text))
    } else {
        None
    }
}

/// The language a transcript is emitted in: the guess from its text when it differs from the
/// manual language in manual mode, the detected language otherwise.
pub open spec fn emitted_language(
    mode: LanguageMode,
    detected: SourceLanguage,
    heuristic: Option<SourceLanguage>,
) -> SourceLanguage {
    match heuristic {
        Some(h) => if mode == LanguageMode::Manual && h != detected {
            h
        } else {
            detected
        },
        None => detected,
    }
}

/// The job id after `id` (wrapping at the top).
pub open spec fn next_job_id(id: u64) -> u64 {
    if id == u64::MAX {
        0
    } else {
        (id + 1) as u64
    }
}

/// The settings reported to a client.
pub struct SettingsState {
    pub language_mode: LanguageMode,
    pub manual_source_lang: SourceLanguage,
    pub stt_model_lang: String,
    pub available_stt_models: Vec<String>,
    pub custom_glossary_terms: Vec<String>,
    pub warning: String,
}

/// The warning shown when the Vosk engine is configured, which this service replaces by
/// remote recognition.
pub open spec fn vosk_warning() -> Seq<char> {
    "Vosk mode is not implemented in Rust build; using remote STT."@
}

/// The warning for the configured Kazakh engine: one for Vosk (any ASCII case), none else.
pub fn stt_warning(kazakh_stt_engine: &str) -> (res: Option<String>)
    ensures
        eq_ignore_ascii_case(kazakh_stt_engine@, "vosk"@) ==> (res matches Some(w) && w@
            == vosk_warning()),
        !eq_ignore_ascii_case(kazakh_stt_engine@, "vosk"@) ==> res is None,
{
    if equals_ignore_ascii_case(kazakh_stt_engine, "vosk") {
        Some(owned("Vosk mode is not implemented in Rust build; using remote STT."))
    } else {
        None
    }
}

/// What is done with a recognized transcript.
pub enum Emission {
    /// Not emitted, and the session is unchanged.
    Skipped,
    /// Recorded as emitted, but an invented phrase, so not sent.
    Filtered,
    /// Sent to the client as recognized, and handed to translation as job `job_id`.
    Emit { recognized: String, source_text: String, source_lang: SourceLanguage, job_id: u64 },
}

// ---------------------------------------------------------------------------
// Client commands and server events
// ---------------------------------------------------------------------------

/// A command sent by a client.
pub enum ClientCommand {
    SetLanguageMode { mode: LanguageMode, manual_lang: SourceLanguage },
    SetGlossary { terms: Vec<String> },
    GetSettings,
}

/// The fields of a client's text message that commands are read from: the string values
/// of `type`, `mode` and `manual_lang` (none when missing or not strings), and `terms`.
pub struct WsClientFields {
    pub msg_type: Option<String>,
    pub mode: Option<String>,
    pub manual_lang: Option<String>,
    pub terms: TermsField,
}

/// The manual language asked for: the language named by `manual_lang`, Kazakh when it is
/// missing or names none.
pub open spec fn requested_manual_lang(manual_lang: Option<Seq<char>>) -> SourceLanguage {
    match manual_lang {
        Some(s) => match lang_for_code(lowercase(s)) {
            Some(l) => l,
            None => SourceLanguage::Kazakh,
        },
        None => SourceLanguage::Kazakh,
    }
}

/// Whether `res` is the command given by a message's fields: `set_language_mode` (manual only
/// when `mode` is "manual"), `set_glossary` with the given terms, or `get_settings`; nothing
/// for any other or a missing type.
pub open spec fn command_for(
    res: Option<ClientCommand>,
    msg_type: Option<Seq<char>>,
    mode: Option<Seq<char>>,
    manual_lang: Option<Seq<char>>,
    terms: Seq<Seq<char>>,
) -> bool {
    match msg_type {
        Some(t) => if t == "set_language_mode"@ {
            res matches Some(ClientCommand::SetLanguageMode { mode: m, manual_lang: l }) && m == (
            if mode == Some("manual"@) {
                LanguageMode::Manual
            } else {
                LanguageMode::Auto
            }) && l == requested_manual_lang(manual_lang)
        } else if t == "set_glossary"@ {
            res matches Some(ClientCommand::SetGlossary { terms: ts }) && views(ts@) == terms
        } else if t == "get_settings"@ {
            res matches Some(ClientCommand::GetSettings)
        } else {
            res is None
        },
        None => res is None,
    }
}

/// The command given by the fields of a client's message.
pub fn client_command_from_fields(fields: &WsClientFields) -> (res: Option<ClientCommand>)
    ensures
        command_for(
            res,
            opt_text(fields.msg_type),
            opt_text(fields.mode),
            opt_text(fields.manual_lang),
            client_terms(fields.terms),
        ),
{
    let t = match &fields.msg_type {
        Some(t) => t,
        None => {
            return None;
        },
    };
    if same_text(t.as_str(), "set_language_mode") {
        let manual_mode = match &fields.mode {
            Some(m) => same_text(m.as_str(), "manual"),
            None => false,
        };
        let mode = if manual_mode {
            LanguageMode::Manual
        } else {
            LanguageMode::Auto
        };
        let manual_lang = match &fields.manual_lang {
            Some(s) => match normalize_lang_code(s.as_str()) {
                Some(l) => l,
                None => SourceLanguage::Kazakh,
            },
            None => SourceLanguage::Kazakh,
        };
        Some(ClientCommand::SetLanguageMode { mode, manual_lang })
    } else if same_text(t.as_str(), "set_glossary") {
        let terms = parse_terms_from_ws_value(&fields.terms);
        Some(ClientCommand::SetGlossary { terms })
    } else if same_text(t.as_str(), "get_settings") {
        Some(ClientCommand::GetSettings)
    } else {
        None
    }
}

/// The terms a client's JSON message carries in its `terms` field: from a list (string
/// elements only) or from a single string, at most 200; none for a field of another kind.
pub open spec fn json_terms(text: Seq<char>) -> Seq<Seq<char>> {
    match json_list_field(text, "terms"@) {
        Some(items) => first_terms(list_terms(items)),
        None => match json_str_field(text, "terms"@) {
            Some(s) => first_terms(trimmed_terms(s)),
            None => seq![],
        },
    }
}

/// The fields of a client's JSON message that commands are read from.
pub fn ws_client_fields(text: &str) -> (res: WsClientFields)
    ensures
        opt_text(res.msg_type) == json_str_field(text@, "type"@),
        opt_text(res.mode) == json_str_field(text@, "mode"@),
        opt_text(res.manual_lang) == json_str_field(text@, "manual_lang"@),
        client_terms(res.terms) == json_terms(text@),
{
    let terms = match json_list_items(text, "terms") {
        Some(items) => TermsField::List(items),
        None => match json_string_field(text, "terms") {
            Some(s) => TermsField::Text(s),
            None => TermsField::Absent,
        },
    };
    WsClientFields {
        msg_type: json_string_field(text, "type"),
        mode: json_string_field(text, "mode"),
        manual_lang: json_string_field(text, "manual_lang"),
        terms,
    }
}

/// The command in a client's JSON text message (see `command_for`); nothing for text that is
/// not a JSON object with a string `type`.
pub fn ws_text_to_client_message(text: &str) -> (res: Option<ClientCommand>)
    ensures
        command_for(
            res,
            json_str_field(text@, "type"@),
            json_str_field(text@, "mode"@),
            json_str_field(text@, "manual_lang"@),
            json_terms(text@),
        ),
{
    let fields = ws_client_fields(text);
    client_command_from_fields(&fields)
}

/// What the service sends to a client.
pub enum ServerPayload {
    SettingsState(SettingsState),
    Recognized { original: String, detected_language: SourceLanguage },
    Translated {
        original: String,
        detected_language: SourceLanguage,
        ru: String,
        en: String,
        kk: String,
    },
    Error { message: String },
}

/// A message to a client, whose payload may be missing.
pub struct ServerMessage {
    pub payload: Option<ServerPayload>,
}

/// A message to a client as it is written out: language modes and languages by their labels,
/// an empty warning as none.
pub enum WsEvent {
    SettingsState {
        language_mode: String,
        manual_source_lang: String,
        stt_model_lang: String,
        available_stt_models: Vec<String>,
        custom_glossary_terms: Vec<String>,
        warning: Option<String>,
    },
    Recognized { original: String, detected_language: String },
    Translated {
        original: String,
        detected_language: String,
        ru: String,
        en: String,
        kk: String,
    },
    Error { message: String },
}

/// The message written out for a message to a client; a missing payload is written as the
/// error "empty server payload".
pub fn server_message_to_ws_json(msg: ServerMessage) -> (res: WsEvent)
    ensures
        match msg.payload {
            Some(ServerPayload::SettingsState(s)) => res matches WsEvent::SettingsState {
                language_mode,
                manual_source_lang,
                stt_model_lang,
                available_stt_models,
                custom_glossary_terms,
                warning,
            } && language_mode@ == mode_name(s.language_mode) && manual_source_lang@ == ui_name(
                s.manual_source_lang,
            ) && stt_model_lang@ == s.stt_model_lang@ && views(available_stt_models@) == views(
                s.available_stt_models@,
            ) && views(custom_glossary_terms@) == views(s.custom_glossary_terms@) && (if s.warning@.len()
                == 0 {
                warning is None
            } else {
                warning matches Some(w) && w@ == s.warning@
            }),
            Some(ServerPayload::Recognized { original, detected_language }) => res matches WsEvent::Recognized {
                original: o,
                detected_language: d,
            } && o@ == original@ && d@ == ui_name(detected_language),
            Some(
                ServerPayload::Translated { original, detected_language, ru, en, kk },
            ) => res matches WsEvent::Translated {
                original: o,
                detected_language: d,
                ru: r,
                en: e,
                kk: k,
            } && o@ == original@ && d@ == ui_name(detected_language) && r@ == ru@ && e@ == en@
                && k@ == kk@,
            Some(ServerPayload::Error { message }) => res matches WsEvent::Error { message: m }
                && m@ == message@,
            None => res matches WsEvent::Error { message: m } && m@ == "empty server payload"@,
        },
{
    match msg.payload {
        Some(ServerPayload::SettingsState(s)) => {
            let warning = if s.warning.as_str().is_empty() {
                None
            } else {
                Some(s.warning)
            };
            WsEvent::SettingsState {
                language_mode: owned(mode_to_ui(s.language_mode)),
                manual_source_lang: owned(source_to_ui(s.manual_source_lang)),
                stt_model_lang: s.stt_model_lang,
                available_stt_models: s.available_stt_models,
                custom_glossary_terms: s.custom_glossary_terms,
                warning,
            }
        },
        Some(ServerPayload::Recognized { original, detected_language }) => WsEvent::Recognized {
            original,
            detected_language: owned(source_to_ui(detected_language)),
        },
        Some(ServerPayload::Translated { original, detected_language, ru, en, kk }) => {
            WsEvent::Translated {
                original,
                detected_language: owned(source_to_ui(detected_language)),
                ru,
                en,
                kk,
            }
        },
        Some(ServerPayload::Error { message }) => WsEvent::Error { message },
        None => WsEvent::Error { message: owned("empty server payload") },
    }
}

// ---------------------------------------------------------------------------
// Filters on recognized speech
// ---------------------------------------------------------------------------

/// Audio chunks shorter than this many bytes are not recognized.
pub const MIN_CHUNK_BYTES: usize = 3200;

/// Whether an audio chunk is long enough to be recognized.
pub fn chunk_long_enough(pcm_s16le: &Vec<u8>) -> (res: bool)
    ensures
        res == (pcm_s16le.len() >= MIN_CHUNK_BYTES),
{
    pcm_s16le.len() >= MIN_CHUNK_BYTES
}

/// A transcript worth processing: non-blank, with spelled-out abbreviations normalized, and
/// with at least `min_words` words; nothing otherwise.
pub fn prepare_transcript(filters: &TextFilters, text: &str, min_words: usize) -> (res: Option<
    String,
>)
    ensures
        trim(text@).len() == 0 ==> res is None,
        trim(text@).len() > 0 ==> match res {
            Some(s) => s@ == abbreviations_normalized(text@) && words(s@).len() >= min_words,
            None => words(abbreviations_normalized(text@)).len() < min_words,
        },
{
    if is_blank(text) {
        return None;
    }
    let normalized = normalize_spoken_abbreviations(filters, text);
    if word_count(normalized.as_str()) < min_words {
        None
    } else {
        Some(normalized)
    }
}

/// The words of `current` after the words of `previous`, joined by single spaces, when
/// `current` has more words and begins with all the words of `previous`; `current`
/// unchanged otherwise (also when either has no words).
pub open spec fn incremental(previous: Seq<char>, current: Seq<char>) -> Seq<char> {
    let pw = words(previous);
    let cw = words(current);
    if pw.len() == 0 || cw.len() == 0 || cw.len() <= pw.len() {
        current
    } else if cw.take(pw.len() as int) == pw {
        join(cw.skip(pw.len() as int), " "@)
    } else {
        current
    }
}

/// The part of `current` that was not in `previous` (see `incremental`).
pub fn extract_incremental_text(previous: &str, current: &str) -> (res: String)
    ensures
        res@ == incremental(previous@, current@),
{
    let prev_words = split_whitespace(previous);
    let curr_words = split_whitespace(current);
    let ghost pw = views(prev_words@);
    let ghost cw = views(curr_words@);
    if prev_words.len() == 0 || curr_words.len() == 0 {
        return owned(current);
    }
    if curr_words.len() <= prev_words.len() {
        return owned(current);
    }
    let mut i: usize = 0;
    while i < prev_words.len()
        invariant
            i <= prev_words.len() < curr_words.len(),
            pw == views(prev_words@),
            cw == views(curr_words@),
            pw == words(previous@),
            cw == words(current@),
            forall|j: int| 0 <= j < i ==> cw[j] == pw[j],
        decreases prev_words.len() - i,
    {
        assert(pw[i as int] == prev_words@[i as int]@);
        assert(cw[i as int] == curr_words@[i as int]@);
        if !same_text(curr_words[i].as_str(), prev_words[i].as_str()) {
            assert(cw.take(pw.len() as int)[i as int] != pw[i as int]);
            assert(cw.take(pw.len() as int) != pw);
            return owned(current);
        }
        i += 1;
    }
    assert(cw.take(pw.len() as int) =~= pw);
    let res = join_range(&curr_words, prev_words.len(), curr_words.len(), " ");
    assert(cw.subrange(pw.len() as int, cw.len() as int) =~= cw.skip(pw.len() as int));
    res
}

/// The outcome of the length checks on recognized text: too low in quality, or the counts
/// from which the share of letters is judged.
pub enum QualityCheck {
    Low,
    Ratio { alpha_chars: usize, total_chars: usize },
}

/// The quality checks on recognized text: blank, shorter than `min_text_length` bytes once
/// trimmed, or with fewer than `min_alpha_chars` letters is low quality; otherwise the
/// number of letters and of characters (at least 1) of the trimmed text.
pub open spec fn quality_of(text: Seq<char>, min_text_length: usize, min_alpha_chars: usize) -> (
    bool,
    nat,
    nat,
) {
    let value = trim(text);
    let alpha = count_where(value, |c: char| alphabetic(c));
    if value.len() == 0 || byte_len(value) < min_text_length || alpha < min_alpha_chars {
        (true, 0, 0)
    } else {
        (
            false,
            alpha,
            if value.len() == 0 {
                1
            } else {
                value.len()
            },
        )
    }
}

/// The counts the quality check hands on are of the trimmed text's characters, never its
/// bytes: the total is its number of characters, the letters are the characters that are
/// alphabetic (the length of the text filtered by `alphabetic`), at most that many, and
/// text made only of letters has as many letters as characters. Non-blank text made only of
/// letters, long enough in bytes and in letters, passes the length checks.
pub proof fn law_quality_counts_characters(text: Seq<char>, min_text_length: usize, min_alpha_chars: usize)
    ensures
        ({
            let q = quality_of(text, min_text_length, min_alpha_chars);
            let t = trim(text);
            let all_letters = forall|i: int| 0 <= i < t.len() ==> #[trigger] alphabetic(t[i]);
            &&& !q.0 ==> q.2 == t.len() && q.1 <= q.2
            &&& !q.0 ==> q.1 == t.filter(|c: char| alphabetic(c)).len()
            &&& !q.0 && all_letters ==> q.1 == q.2
            &&& t.len() > 0 && all_letters && byte_len(t) >= min_text_length && t.len()
                >= min_alpha_chars ==> !q.0
        }),
{
    let t = trim(text);
    let p = |c: char| alphabetic(c);
    crate::lang::lemma_count_bounds(t, p);
    crate::lang::lemma_count_is_filter_len(t, p);
    if forall|i: int| 0 <= i < t.len() ==> #[trigger] alphabetic(t[i]) {
        assert forall|i: int| 0 <= i < t.len() implies #[trigger] p(t[i]) by {
            assert(alphabetic(t[i]));
        }
    }
}

/// The length checks on recognized text; the share of letters is left to the caller.
pub fn is_low_quality_text(text: &str, min_text_length: usize, min_alpha_chars: usize) -> (res:
    QualityCheck)
    ensures
        ({
            let q = quality_of(text@, min_text_length, min_alpha_chars);
            match res {
                QualityCheck::Low => q.0,
                QualityCheck::Ratio { alpha_chars, total_chars } => !q.0 && alpha_chars == q.1
                    && total_chars == q.2,
            }
        }),
        res matches QualityCheck::Ratio { alpha_chars, total_chars } ==> total_chars == trim(
            text@,
        ).len() && alpha_chars <= total_chars && alpha_chars == trim(text@).filter(
            |c: char| alphabetic(c),
        ).len(),
{
    proof {
        law_quality_counts_characters(text@, min_text_length, min_alpha_chars);
    }
    let value = trim_text(text);
    if value.as_str().is_empty() {
        return QualityCheck::Low;
    }
    let value_len = byte_length(value.as_str());
    let v = chars_of(value.as_str());
    let mut alpha: usize = 0;
    let mut i: usize = 0;
    while i < v.len()
        invariant
            i <= v.len(),
            alpha <= i,
            v@ == value@,
            alpha == count_where(v@.take(i as int), |c: char| alphabetic(c)),
        decreases v.len() - i,
    {
        assert(v@.take(i + 1).drop_last() =~= v@.take(i as int));
        assert(v@.take(i + 1).last() == v@[i as int]);
        if is_alphabetic(v[i]) {
            alpha += 1;
        }
        i += 1;
    }
    assert(v@.take(v.len() as int) =~= v@);
    if value_len < min_text_length || alpha < min_alpha_chars {
        return QualityCheck::Low;
    }
    QualityCheck::Ratio { alpha_chars: alpha, total_chars: v.len() }
}

} // verus!

verus! {

/// When the current transcript repeats all the words emitted before and adds more, the
/// incremental text consists of exactly the added words.
pub proof fn law_incremental_is_new_words(previous: Seq<char>, current: Seq<char>)
    requires
        words(previous).len() > 0,
        words(current).len() > words(previous).len(),
        words(current).take(words(previous).len() as int) == words(previous),
    ensures
        words(incremental(previous, current)) == words(current).skip(words(previous).len() as int),
{
    let cw = words(current);
    let rest = cw.skip(words(previous).len() as int);
    crate::text::law_words_are_words(current);
    assert forall|i: int| 0 <= i < rest.len() implies crate::text::is_word(#[trigger] rest[i]) by {
        assert(rest[i] == cw[i + words(previous).len()]);
    }
    crate::text::law_words_of_joined(rest);
}

/// When nothing new was said, or the words differ from what was emitted, the whole
/// transcript is taken as new.
pub proof fn law_incremental_otherwise_whole(previous: Seq<char>, current: Seq<char>)
    requires
        words(previous).len() == 0 || words(current).len() <= words(previous).len() || words(
            current,
        ).take(words(previous).len() as int) != words(previous),
    ensures
        incremental(previous, current) == current,
{
}

/// Sessions numbered differently get different ids, whenever they started: the id ends with
/// the session's number after its last `-`.
pub proof fn law_session_ids_distinct(started1: i64, seq1: u64, started2: i64, seq2: u64)
    requires
        seq1 != seq2,
    ensures
        session_name(started1, seq1) != session_name(started2, seq2),
{
    let a = session_name(started1, seq1);
    let b = session_name(started2, seq2);
    let d1 = decimal(seq1 as nat);
    let d2 = decimal(seq2 as nat);
    crate::text::lemma_decimal_digits(seq1 as nat);
    crate::text::lemma_decimal_digits(seq2 as nat);
    reveal_strlit("-");
    let x1 = "session-"@ + signed_decimal(started1 as int);
    let x2 = "session-"@ + signed_decimal(started2 as int);
    assert(a =~= x1 + seq!['-'] + d1);
    assert(b =~= x2 + seq!['-'] + d2);
    if a == b {
        let n = a.len();
        let p1 = n - d1.len() - 1;
        let p2 = n - d2.len() - 1;
        assert(a[p1] == '-');
        assert(b[p2] == '-');
        if d1.len() < d2.len() {
            assert(b[p1] == d2[p1 - p2 - 1]);
            assert(crate::text::is_digit(d2[p1 - p2 - 1]));
        } else if d2.len() < d1.len() {
            assert(a[p2] == d1[p2 - p1 - 1]);
            assert(crate::text::is_digit(d1[p2 - p1 - 1]));
        } else {
            assert(d1 =~= a.subrange(p1 + 1, n as int));
            assert(d2 =~= b.subrange(p2 + 1, n as int));
        }
    }
}

/// Two sessions made one after the other from the same counter get different ids.
pub proof fn law_consecutive_sessions_distinct(seq: u64, started1: i64, started2: i64)
    ensures
        session_name(started1, seq) != session_name(started2, seq_after(seq)),
{
    law_session_ids_distinct(started1, seq, started2, seq_after(seq));
}

/// The manual language a client asks for is always a supported one.
pub proof fn law_requested_language_supported(manual_lang: Option<Seq<char>>)
    ensures
        supported(requested_manual_lang(manual_lang)),
{
}

/// Detection from text only ever yields supported languages, so a transcript whose
/// language was guessed is never dropped for its language.
pub proof fn law_detected_language_supported(lowered: Seq<char>)
    ensures
        detected_language(lowered) matches Some(l) ==> supported(l),
{
}

} // verus!
