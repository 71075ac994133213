//! Translation requests and replies: prompts, and the three translations that come back;
//! and the transcription that recognition returns.
use vstd::prelude::*;
use crate::json::{
    chat_reply_content, extract_chat_content, json_str_field, json_string_field, stt_reply,
    stt_reply_fields,
};
use crate::lang::SourceLanguage;
use crate::patterns::{business_safe, sanitize_text_for_business, TextFilters};
use crate::text::{owned, push_str, trim, trim_text};

verus! {

/// A text translated into Russian, English and Kazakh.
pub struct TranslationTriple {
    pub ru: String,
    pub en: String,
    pub kk: String,
}

/// The English name of the source language in the translation prompt; anything but Russian
/// and English is called Kazakh.
pub open spec fn source_name(lang: SourceLanguage) -> Seq<char> {
    match lang {
        SourceLanguage::Russian => "Russian"@,
        SourceLanguage::English => "English"@,
        _ => "Kazakh"@,
    }
}

fn source_name_text(lang: SourceLanguage) -> (res: &'static str)
    ensures
        res@ == source_name(lang),
{
    match lang {
        SourceLanguage::Russian => "Russian",
        SourceLanguage::English => "English",
        _ => "Kazakh",
    }
}

/// The instructions given to the translation model for a source language and glossary prompt.
pub open spec fn translation_instructions(lang: SourceLanguage, glossary_prompt: Seq<char>) -> Seq<char> {
    "You are a real-time conference translator. The source text is in "@ + source_name(lang) + ". First, rewrite the source into a clean, grammatically correct sentence with natural punctuation, while preserving meaning and without adding facts. Remove filler words and disfluencies (e.g., 'ээ', 'эм', repetitions) unless they change meaning. Translate it accurately into three languages: Russian (RU), English (EN), and Kazakh (KK). For Kazakh, use proper Kazakh Cyrillic script. Strict policy: profanity/obscenity/insults are forbidden in any language. If source contains such words, replace with neutral business-safe wording. "@ + glossary_prompt + " Keep each translation concise for subtitle display. Return ONLY valid JSON: {\"RU\": \"...\", \"EN\": \"...\", \"KK\": \"...\"}"@
}

/// How the prompt introduces Russian source text.
pub open spec fn russian_intro() -> Seq<char> {
    "You are a real-time conference translator. The source text is in Russian."@
}

/// How the prompt introduces English source text.
pub open spec fn english_intro() -> Seq<char> {
    "You are a real-time conference translator. The source text is in English."@
}

/// How the prompt introduces Kazakh source text.
pub open spec fn kazakh_intro() -> Seq<char> {
    "You are a real-time conference translator. The source text is in Kazakh."@
}

/// The prompt names the source language it is given, by its English name: it opens with
/// the sentence saying the source text is in Russian, English or Kazakh respectively.
pub proof fn law_prompt_names_source_language(lang: SourceLanguage, glossary_prompt: Seq<char>)
    ensures
        lang == SourceLanguage::Russian ==> russian_intro().is_prefix_of(
            translation_instructions(lang, glossary_prompt),
        ),
        lang == SourceLanguage::English ==> english_intro().is_prefix_of(
            translation_instructions(lang, glossary_prompt),
        ),
        lang == SourceLanguage::Kazakh ==> kazakh_intro().is_prefix_of(
            translation_instructions(lang, glossary_prompt),
        ),
{
    let p = translation_instructions(lang, glossary_prompt);
    reveal_strlit("You are a real-time conference translator. The source text is in ");
    reveal_strlit("Russian");
    reveal_strlit("English");
    reveal_strlit("Kazakh");
    reveal_strlit("You are a real-time conference translator. The source text is in Russian.");
    reveal_strlit("You are a real-time conference translator. The source text is in English.");
    reveal_strlit("You are a real-time conference translator. The source text is in Kazakh.");
    reveal_strlit(". First, rewrite the source into a clean, grammatically correct sentence with natural punctuation, while preserving meaning and without adding facts. Remove filler words and disfluencies (e.g., 'ээ', 'эм', repetitions) unless they change meaning. Translate it accurately into three languages: Russian (RU), English (EN), and Kazakh (KK). For Kazakh, use proper Kazakh Cyrillic script. Strict policy: profanity/obscenity/insults are forbidden in any language. If source contains such words, replace with neutral business-safe wording. ");
    let intro = "You are a real-time conference translator. The source text is in "@;
    let first = intro + source_name(lang) + ". First, rewrite the source into a clean, grammatically correct sentence with natural punctuation, while preserving meaning and without adding facts. Remove filler words and disfluencies (e.g., 'ээ', 'эм', repetitions) unless they change meaning. Translate it accurately into three languages: Russian (RU), English (EN), and Kazakh (KK). For Kazakh, use proper Kazakh Cyrillic script. Strict policy: profanity/obscenity/insults are forbidden in any language. If source contains such words, replace with neutral business-safe wording. "@;
    assert(p.subrange(0, first.len() as int) =~= first);
    if lang == SourceLanguage::Russian {
        assert(p.subrange(0, russian_intro().len() as int) =~= russian_intro());
    }
    if lang == SourceLanguage::English {
        assert(p.subrange(0, english_intro().len() as int) =~= english_intro());
    }
    if lang == SourceLanguage::Kazakh {
        assert(p.subrange(0, kazakh_intro().len() as int) =~= kazakh_intro());
    }
}

/// The three supported source languages give three different prompts.
pub proof fn law_prompts_differ_by_language(
    a: SourceLanguage,
    b: SourceLanguage,
    glossary_prompt: Seq<char>,
)
    requires
        a != SourceLanguage::Unspecified,
        b != SourceLanguage::Unspecified,
        a != b,
    ensures
        translation_instructions(a, glossary_prompt) != translation_instructions(b, glossary_prompt),
{
    law_prompt_names_source_language(a, glossary_prompt);
    law_prompt_names_source_language(b, glossary_prompt);
    reveal_strlit("You are a real-time conference translator. The source text is in Russian.");
    reveal_strlit("You are a real-time conference translator. The source text is in English.");
    reveal_strlit("You are a real-time conference translator. The source text is in Kazakh.");
    let k = 65;
    assert(russian_intro()[k] == 'R' && english_intro()[k] == 'E' && kazakh_intro()[k] == 'K');
}

/// The system prompt of a translation request.
pub fn translation_system_prompt(detected_lang: SourceLanguage, glossary_prompt: &str) -> (res: String)
    ensures
        res@ == translation_instructions(detected_lang, glossary_prompt@),
        detected_lang == SourceLanguage::Russian ==> russian_intro().is_prefix_of(res@),
        detected_lang == SourceLanguage::English ==> english_intro().is_prefix_of(res@),
        detected_lang == SourceLanguage::Kazakh ==> kazakh_intro().is_prefix_of(res@),
{
    proof {
        law_prompt_names_source_language(detected_lang, glossary_prompt@);
    }
    let mut res = String::new();
    push_str(&mut res, "You are a real-time conference translator. The source text is in ");
    push_str(&mut res, source_name_text(detected_lang));
    push_str(&mut res, ". First, rewrite the source into a clean, grammatically correct sentence with natural punctuation, while preserving meaning and without adding facts. Remove filler words and disfluencies (e.g., 'ээ', 'эм', repetitions) unless they change meaning. Translate it accurately into three languages: Russian (RU), English (EN), and Kazakh (KK). For Kazakh, use proper Kazakh Cyrillic script. Strict policy: profanity/obscenity/insults are forbidden in any language. If source contains such words, replace with neutral business-safe wording. ");
    push_str(&mut res, glossary_prompt);
    push_str(&mut res, " Keep each translation concise for subtitle display. Return ONLY valid JSON: {\"RU\": \"...\", \"EN\": \"...\", \"KK\": \"...\"}");
    res
}

/// The user message of a translation request: the text quoted after "Translate: ".
pub open spec fn translation_request(text: Seq<char>) -> Seq<char> {
    "Translate: \""@ + text + "\""@
}

/// The user message asking to translate `text`.
pub fn translation_user_message(text: &str) -> (res: String)
    ensures
        res@ == translation_request(text@),
{
    let mut res = String::new();
    push_str(&mut res, "Translate: \"");
    push_str(&mut res, text);
    push_str(&mut res, "\"");
    res
}

/// What is shown when translation failed: the cleaned source text in all three languages.
pub fn fallback_translation(filters: &TextFilters, text: &str) -> (res: TranslationTriple)
    ensures
        res.ru@ == business_safe(text@),
        res.en@ == business_safe(text@),
        res.kk@ == business_safe(text@),
{
    let safe = sanitize_text_for_business(filters, text);
    TranslationTriple { ru: safe.clone(), en: safe.clone(), kk: safe }
}

/// A field of the translation reply, or the source text when the reply lacks it.
pub open spec fn field_or_source(field: Option<Seq<char>>, text: Seq<char>) -> Seq<char> {
    match field {
        Some(f) => f,
        None => text,
    }
}

fn cleaned_field(filters: &TextFilters, field: Option<String>, text: &str) -> (res: String)
    ensures
        res@ == business_safe(field_or_source(
            match field {
                Some(f) => Some(f@),
                None => None,
            },
            text@,
        )),
{
    match field {
        Some(f) => sanitize_text_for_business(filters, f.as_str()),
        None => sanitize_text_for_business(filters, text),
    }
}

/// The translations from the fields `RU`, `EN` and `KK` of the model's reply, each falling
/// back to the source text when missing, and each cleaned for display.
pub fn translation_from_reply(
    filters: &TextFilters,
    text: &str,
    ru: Option<String>,
    en: Option<String>,
    kk: Option<String>,
) -> (res: TranslationTriple)
    ensures
        res.ru@ == business_safe(field_or_source(
            match ru {
                Some(f) => Some(f@),
                None => None,
            },
            text@,
        )),
        res.en@ == business_safe(field_or_source(
            match en {
                Some(f) => Some(f@),
                None => None,
            },
            text@,
        )),
        res.kk@ == business_safe(field_or_source(
            match kk {
                Some(f) => Some(f@),
                None => None,
            },
            text@,
        )),
{
    TranslationTriple {
        ru: cleaned_field(filters, ru, text),
        en: cleaned_field(filters, en, text),
        kk: cleaned_field(filters, kk, text),
    }
}

/// A field of the translation model's reply: the string field `key` of the JSON object in
/// the reply's message content; none when the reply holds no content (then the content is
/// taken as the empty object).
pub open spec fn reply_field(body: Seq<char>, key: Seq<char>) -> Option<Seq<char>> {
    match chat_reply_content(body) {
        Some(content) => json_str_field(content, key),
        None => None,
    }
}

/// The translations read from the body of the translation service's reply: the fields `RU`,
/// `EN` and `KK` of the JSON object in the message content, each falling back to the source
/// text when missing, and each cleaned for display.
pub fn translation_from_body(filters: &TextFilters, text: &str, body: &str) -> (res: TranslationTriple)
    ensures
        res.ru@ == business_safe(field_or_source(reply_field(body@, "RU"@), text@)),
        res.en@ == business_safe(field_or_source(reply_field(body@, "EN"@), text@)),
        res.kk@ == business_safe(field_or_source(reply_field(body@, "KK"@), text@)),
{
    match extract_chat_content(body) {
        Some(content) => {
            let ru = json_string_field(content.as_str(), "RU");
            let en = json_string_field(content.as_str(), "EN");
            let kk = json_string_field(content.as_str(), "KK");
            translation_from_reply(filters, text, ru, en, kk)
        },
        None => translation_from_reply(filters, text, None, None, None),
    }
}

/// What recognition returned: the text and the language it reported.
pub struct TranscriptionResult {
    pub text: String,
    pub language_raw: String,
}

/// The transcription from the fields of a recognition reply: the text trimmed (empty when
/// missing), and the language as reported ("unknown" when missing).
pub fn transcription_result(text: Option<String>, language: Option<String>) -> (res: TranscriptionResult)
    ensures
        res.text@ == trim(
            match text {
                Some(t) => t@,
                None => seq![],
            },
        ),
        res.language_raw@ == match language {
            Some(l) => l@,
            None => "unknown"@,
        },
{
    let text = match text {
        Some(t) => trim_text(t.as_str()),
        None => String::new(),
    };
    let language_raw = match language {
        Some(l) => l,
        None => owned("unknown"),
    };
    TranscriptionResult { text, language_raw }
}

/// The transcription read from the body of the recognition service's reply (see
/// `transcription_result`); an error when the body is not a JSON object whose `text` and
/// `language` fields are strings, null or missing.
pub fn transcription_from_body(body: &str) -> (res: Result<TranscriptionResult, String>)
    ensures
        match stt_reply(body@) {
            Some((t, l)) => res matches Ok(r) && r.text@ == trim(
                match t {
                    Some(t) => t,
                    None => seq![],
                },
            ) && r.language_raw@ == match l {
                Some(l) => l,
                None => "unknown"@,
            },
            None => res is Err,
        },
{
    match stt_reply_fields(body) {
        Some((text, language)) => Ok(transcription_result(text, language)),
        None => Err(owned("transcription reply is not valid JSON of the expected shape")),
    }
}

} // verus!
