//! Glossaries of preferred terms: parsing user input into terms, and the prompt that
//! tells recognition and translation to keep them.
use vstd::prelude::*;
use crate::patterns::{collapse_spaces, collapsed, TextFilters};
use crate::text::{chars_of, join, join_range, push_str, same_text, trim, trim_text, views};
use crate::unicode::{lowercase, to_lowercase};

verus! {

/// The most terms a glossary holds.
pub const MAX_GLOSSARY_TERMS: usize = 200;

/// The most terms quoted in a prompt.
pub const MAX_PROMPT_TERMS: usize = 60;

/// Characters that separate terms: newline, comma and semicolon.
pub open spec fn is_term_sep(c: char) -> bool {
    c == '\n' || c == ',' || c == ';'
}

/// The pieces of `s` between separators, empty ones included (as `str::split` with the
/// separator characters); there is always at least one piece.
pub open spec fn split_pieces(s: Seq<char>) -> Seq<Seq<char>>
    decreases s.len(),
{
    if s.len() == 0 {
        seq![seq![]]
    } else {
        let prev = split_pieces(s.drop_last());
        let c = s.last();
        if is_term_sep(c) {
            prev.push(seq![])
        } else {
            prev.drop_last().push(prev.last().push(c))
        }
    }
}

/// The pieces of `s` between the term separators.
pub fn split_terms(s: &str) -> (res: Vec<String>)
    ensures
        views(res@) == split_pieces(s@),
{
    let v = chars_of(s);
    let n = v.len();
    let mut out: Vec<String> = Vec::new();
    let mut cur = String::new();
    let mut i: usize = 0;
    while i < n
        invariant
            i <= n == v.len(),
            v@ == s@,
            split_pieces(v@.take(i as int)) == views(out@).push(cur@),
        decreases n - i,
    {
        let c = v[i];
        assert(v@.take(i + 1).drop_last() =~= v@.take(i as int));
        assert(v@.take(i + 1).last() == c);
        let ghost before = views(out@).push(cur@);
        if c == '\n' || c == ',' || c == ';' {
            let w = cur;
            out.push(w);
            assert(views(out@) =~= before);
            cur = String::new();
            assert(views(out@).push(cur@) =~= before.push(seq![]));
        } else {
            cur.push(c);
            assert(before.drop_last() =~= views(out@));
            assert(views(out@).push(cur@) =~= before.drop_last().push(before.last().push(c)));
        }
        i += 1;
    }
    assert(v@.take(n as int) =~= v@);
    let ghost before = views(out@);
    out.push(cur);
    assert(views(out@) =~= before.push(cur@));
    out
}

// ---------------------------------------------------------------------------
// Glossary terms
// ---------------------------------------------------------------------------

/// The cleaned pieces of one raw glossary string.
pub open spec fn cleaned_pieces(raw: Seq<char>) -> Seq<Seq<char>> {
    split_pieces(raw).map_values(|p: Seq<char>| collapsed(p))
}

/// The cleaned pieces of all raw glossary strings, in order.
pub open spec fn cleaned_terms(raws: Seq<Seq<char>>) -> Seq<Seq<char>>
    decreases raws.len(),
{
    if raws.len() == 0 {
        seq![]
    } else {
        cleaned_terms(raws.drop_last()) + cleaned_pieces(raws.last())
    }
}

/// The lower-cased forms of terms, by which duplicates are found.
pub open spec fn term_keys(terms: Seq<Seq<char>>) -> Seq<Seq<char>> {
    terms.map_values(|t: Seq<char>| lowercase(t))
}

/// The glossary built from candidate terms in order: empty terms and terms whose
/// lower-case form was already taken are skipped, and at most 200 terms are kept.
pub open spec fn glossary_of(candidates: Seq<Seq<char>>) -> Seq<Seq<char>>
    decreases candidates.len(),
{
    if candidates.len() == 0 {
        seq![]
    } else {
        let prev = glossary_of(candidates.drop_last());
        let t = candidates.last();
        if prev.len() >= MAX_GLOSSARY_TERMS || t.len() == 0 || term_keys(prev).contains(
            lowercase(t),
        ) {
            prev
        } else {
            prev.push(t)
        }
    }
}

proof fn lemma_glossary_bounded(candidates: Seq<Seq<char>>)
    ensures
        glossary_of(candidates).len() <= MAX_GLOSSARY_TERMS,
    decreases candidates.len(),
{
    if candidates.len() > 0 {
        lemma_glossary_bounded(candidates.drop_last());
    }
}

proof fn lemma_glossary_full(a: Seq<Seq<char>>, b: Seq<Seq<char>>)
    requires
        glossary_of(a).len() >= MAX_GLOSSARY_TERMS,
    ensures
        glossary_of(a + b) == glossary_of(a),
    decreases b.len(),
{
    if b.len() == 0 {
        assert(a + b =~= a);
    } else {
        lemma_glossary_full(a, b.drop_last());
        assert((a + b).drop_last() =~= a + b.drop_last());
    }
}

/// Whether `key` is among `keys`.
fn contains_text(keys: &Vec<String>, key: &str) -> (res: bool)
    ensures
        res == views(keys@).contains(key@),
{
    let mut i: usize = 0;
    while i < keys.len()
        invariant
            i <= keys.len(),
            forall|j: int| 0 <= j < i ==> views(keys@)[j] != key@,
        decreases keys.len() - i,
    {
        assert(views(keys@)[i as int] == keys@[i as int]@);
        if same_text(keys[i].as_str(), key) {
            assert(views(keys@)[i as int] == key@);
            return true;
        }
        i += 1;
    }
    false
}

/// The glossary parsed from raw strings: each is split at newlines, commas and semicolons,
/// each piece trimmed with inner whitespace runs collapsed to one space, empty pieces and
/// case-insensitive repeats dropped, and at most 200 terms kept.
pub fn parse_glossary_terms(filters: &TextFilters, raw_terms: Vec<String>) -> (res: Vec<String>)
    ensures
        views(res@) == glossary_of(cleaned_terms(views(raw_terms@))),
{
    let ghost raws = views(raw_terms@);
    let mut out: Vec<String> = Vec::new();
    let mut keys: Vec<String> = Vec::new();
    let mut i: usize = 0;
    assert(views(out@) =~= seq![]);
    assert(views(keys@) =~= seq![]);
    assert(term_keys(seq![]) =~= seq![]);
    while i < raw_terms.len()
        invariant
            i <= raw_terms.len(),
            raws == views(raw_terms@),
            views(out@) == glossary_of(cleaned_terms(raws.take(i as int))),
            views(keys@) == term_keys(views(out@)),
            out.len() < MAX_GLOSSARY_TERMS,
        decreases raw_terms.len() - i,
    {
        assert(raws.take(i + 1).drop_last() =~= raws.take(i as int));
        assert(raws[i as int] == raw_terms@[i as int]@);
        let ghost done = cleaned_terms(raws.take(i as int));
        let ghost here = cleaned_pieces(raws[i as int]);
        assert(cleaned_terms(raws.take(i + 1)) == done + here);
        let pieces = split_terms(raw_terms[i].as_str());
        let mut k: usize = 0;
        assert(done + here.take(0) =~= done);
        while k < pieces.len()
            invariant
                k <= pieces.len(),
                i < raw_terms.len(),
                raws == views(raw_terms@),
                raws.len() == raw_terms.len(),
                done == cleaned_terms(raws.take(i as int)),
                cleaned_terms(raws.take(i + 1)) == done + here,
                views(pieces@) == split_pieces(raws[i as int]),
                here == cleaned_pieces(raws[i as int]),
                here.len() == pieces.len(),
                views(out@) == glossary_of(done + here.take(k as int)),
                views(keys@) == term_keys(views(out@)),
                out.len() < MAX_GLOSSARY_TERMS,
            decreases pieces.len() - k,
        {
            let cleaned = collapse_spaces(filters, pieces[k].as_str());
            assert(views(pieces@)[k as int] == pieces@[k as int]@);
            assert(here[k as int] == cleaned@);
            let ghost prefix = done + here.take(k as int);
            assert((done + here.take(k + 1)).drop_last() =~= prefix);
            assert((done + here.take(k + 1)).last() == cleaned@);
            if !cleaned.as_str().is_empty() {
                let key = to_lowercase(cleaned.as_str());
                if !contains_text(&keys, key.as_str()) {
                    let ghost before_out = views(out@);
                    let ghost before_keys = views(keys@);
                    keys.push(key);
                    out.push(cleaned);
                    assert(views(out@) =~= before_out.push(cleaned@));
                    assert(views(keys@) =~= before_keys.push(lowercase(cleaned@)));
                    assert(term_keys(views(out@)) =~= term_keys(before_out).push(
                        lowercase(cleaned@),
                    ));
                    if out.len() >= MAX_GLOSSARY_TERMS {
                        proof {
                            let all = cleaned_terms(raws);
                            let upto = done + here.take(k + 1);
                            assert(raws =~= raws.take(i + 1) + raws.subrange(i + 1, raws.len() as int));
                            lemma_cleaned_terms_split(raws.take(i + 1), raws.subrange(i + 1, raws.len() as int));
                            assert(here =~= here.take(k + 1) + here.subrange(k + 1, here.len() as int));
                            assert(all =~= upto + (here.subrange(k + 1, here.len() as int)
                                + cleaned_terms(raws.subrange(i + 1, raws.len() as int))));
                            lemma_glossary_full(upto, here.subrange(k + 1, here.len() as int)
                                + cleaned_terms(raws.subrange(i + 1, raws.len() as int)));
                            assert(views(raw_terms@) == raws);
                        }
                        return out;
                    }
                }
            }
            k += 1;
        }
        assert(here.take(pieces.len() as int) =~= here);
        i += 1;
    }
    assert(raws.take(raw_terms.len() as int) =~= raws);
    out
}

proof fn lemma_cleaned_terms_split(a: Seq<Seq<char>>, b: Seq<Seq<char>>)
    ensures
        cleaned_terms(a + b) == cleaned_terms(a) + cleaned_terms(b),
    decreases b.len(),
{
    if b.len() == 0 {
        assert(a + b =~= a);
        assert(cleaned_terms(a) + cleaned_terms(b) =~= cleaned_terms(a));
    } else {
        lemma_cleaned_terms_split(a, b.drop_last());
        assert((a + b).drop_last() =~= a + b.drop_last());
        assert(cleaned_terms(a) + cleaned_terms(b) =~= cleaned_terms(a) + cleaned_terms(
            b.drop_last(),
        ) + cleaned_pieces(b.last()));
    }
}

/// The session glossary: the custom terms parsed again as a glossary.
pub fn merged_glossary_terms(filters: &TextFilters, custom_terms: &Vec<String>) -> (res: Vec<String>)
    ensures
        views(res@) == glossary_of(cleaned_terms(views(custom_terms@))),
{
    let mut copy: Vec<String> = Vec::new();
    let mut i: usize = 0;
    while i < custom_terms.len()
        invariant
            i <= custom_terms.len(),
            views(copy@) == views(custom_terms@).take(i as int),
        decreases custom_terms.len() - i,
    {
        let ghost before = views(copy@);
        let item = custom_terms[i].clone();
        assert(item@ == custom_terms@[i as int]@);
        copy.push(item);
        assert(views(copy@) =~= before.push(item@));
        assert(views(custom_terms@).take(i + 1) =~= views(custom_terms@).take(i as int).push(
            custom_terms@[i as int]@,
        ));
        i += 1;
    }
    assert(views(custom_terms@).take(custom_terms.len() as int) =~= views(custom_terms@));
    parse_glossary_terms(filters, copy)
}

// ---------------------------------------------------------------------------
// Prompt
// ---------------------------------------------------------------------------

/// The text put before the quoted terms in a glossary prompt.
pub open spec fn glossary_preamble() -> Seq<char> {
    "Preferred official terms and abbreviations. Use only when acoustically present, do not invent new terms. Preserve spelling exactly when they appear or when ASR is close: "@
}

/// The glossary prompt: nothing for an empty glossary, otherwise the preamble followed by
/// the first 60 terms separated by ", ".
pub open spec fn glossary_prompt(terms: Seq<Seq<char>>) -> Seq<char> {
    if terms.len() == 0 {
        seq![]
    } else {
        glossary_preamble() + join(
            if terms.len() <= MAX_PROMPT_TERMS {
                terms
            } else {
                terms.take(MAX_PROMPT_TERMS as int)
            },
            ", "@,
        )
    }
}

/// The prompt asking to keep the glossary terms.
pub fn build_glossary_prompt(glossary_terms: &Vec<String>) -> (res: String)
    ensures
        res@ == glossary_prompt(views(glossary_terms@)),
{
    if glossary_terms.len() == 0 {
        return String::new();
    }
    let count = if glossary_terms.len() <= MAX_PROMPT_TERMS {
        glossary_terms.len()
    } else {
        MAX_PROMPT_TERMS
    };
    let preview = join_range(glossary_terms, 0, count, ", ");
    let mut res = String::new();
    push_str(
        &mut res,
        "Preferred official terms and abbreviations. Use only when acoustically present, do not invent new terms. Preserve spelling exactly when they appear or when ASR is close: ",
    );
    push_str(&mut res, preview.as_str());
    assert(views(glossary_terms@).subrange(0, count as int) =~= if views(glossary_terms@).len()
        <= MAX_PROMPT_TERMS {
        views(glossary_terms@)
    } else {
        views(glossary_terms@).take(MAX_PROMPT_TERMS as int)
    });
    res
}

// ---------------------------------------------------------------------------
// Terms sent by a client
// ---------------------------------------------------------------------------

/// The `terms` field of a client message: a list (with `None` for elements that are not
/// strings), a single string, or absent or of another kind.
pub enum TermsField {
    Absent,
    List(Vec<Option<String>>),
    Text(String),
}

/// The non-empty elements of `s`.
pub open spec fn non_empty(s: Seq<Seq<char>>) -> Seq<Seq<char>>
    decreases s.len(),
{
    if s.len() == 0 {
        seq![]
    } else if s.last().len() == 0 {
        non_empty(s.drop_last())
    } else {
        non_empty(s.drop_last()).push(s.last())
    }
}

/// The trimmed, non-empty pieces of a string of terms.
pub open spec fn trimmed_terms(s: Seq<char>) -> Seq<Seq<char>> {
    non_empty(split_pieces(s).map_values(|p: Seq<char>| trim(p)))
}

/// The trimmed, non-empty pieces of all string elements of a list, in order.
pub open spec fn list_terms(items: Seq<Option<Seq<char>>>) -> Seq<Seq<char>>
    decreases items.len(),
{
    if items.len() == 0 {
        seq![]
    } else {
        list_terms(items.drop_last()) + match items.last() {
            Some(s) => trimmed_terms(s),
            None => seq![],
        }
    }
}

/// The model of the elements of a list field.
pub open spec fn item_views(items: Seq<Option<String>>) -> Seq<Option<Seq<char>>> {
    items.map_values(
        |o: Option<String>|
            match o {
                Some(s) => Some(s@),
                None => None,
            },
    )
}

/// The terms a client message carries: at most 200 trimmed, non-empty pieces.
pub open spec fn client_terms(field: TermsField) -> Seq<Seq<char>> {
    match field {
        TermsField::List(items) => first_terms(list_terms(item_views(items@))),
        TermsField::Text(s) => first_terms(trimmed_terms(s@)),
        TermsField::Absent => seq![],
    }
}

/// The first 200 of `s`.
pub open spec fn first_terms(s: Seq<Seq<char>>) -> Seq<Seq<char>> {
    if s.len() <= MAX_GLOSSARY_TERMS {
        s
    } else {
        s.take(MAX_GLOSSARY_TERMS as int)
    }
}

/// Appends to `out` the trimmed, non-empty pieces of `s` while it holds fewer than 200.
fn append_trimmed_terms(out: &mut Vec<String>, s: &str)
    requires
        old(out).len() <= MAX_GLOSSARY_TERMS,
    ensures
        views(final(out)@) == first_terms(views(old(out)@) + trimmed_terms(s@)),
{
    let pieces = split_terms(s);
    let ghost base = views(out@);
    let ghost trimmed = split_pieces(s@).map_values(|p: Seq<char>| trim(p));
    let mut k: usize = 0;
    assert(trimmed.take(0) =~= seq![]);
    assert(base + non_empty(trimmed.take(0)) =~= base);
    while k < pieces.len()
        invariant
            k <= pieces.len(),
            views(pieces@) == split_pieces(s@),
            trimmed == split_pieces(s@).map_values(|p: Seq<char>| trim(p)),
            base.len() <= MAX_GLOSSARY_TERMS,
            views(out@) == first_terms(base + non_empty(trimmed.take(k as int))),
        decreases pieces.len() - k,
    {
        assert(trimmed.take(k + 1).drop_last() =~= trimmed.take(k as int));
        assert(views(pieces@)[k as int] == pieces@[k as int]@);
        let t = trim_text(pieces[k].as_str());
        assert(trimmed.take(k + 1).last() == t@);
        let ghost prev = non_empty(trimmed.take(k as int));
        if !t.as_str().is_empty() {
            assert(non_empty(trimmed.take(k + 1)) == prev.push(t@));
            assert(base + prev.push(t@) =~= (base + prev).push(t@));
            if out.len() < MAX_GLOSSARY_TERMS {
                let ghost before = views(out@);
                out.push(t);
                assert(views(out@) =~= before.push(t@));
                assert(first_terms((base + prev).push(t@)) =~= first_terms(base + prev).push(t@));
            } else {
                assert(first_terms((base + prev).push(t@)) =~= first_terms(base + prev));
            }
        } else {
            assert(non_empty(trimmed.take(k + 1)) == prev);
        }
        k += 1;
    }
    assert(trimmed.take(pieces.len() as int) =~= trimmed);
}

proof fn lemma_first_terms_append(a: Seq<Seq<char>>, b: Seq<Seq<char>>)
    ensures
        first_terms(first_terms(a) + b) == first_terms(a + b),
{
    assert(first_terms(first_terms(a) + b) =~= first_terms(a + b));
}

/// The terms of a client's glossary message: the string elements of a list (other elements
/// skipped), or a single string, split at newlines, commas and semicolons, trimmed,
/// without empty pieces, and at most 200 of them.
pub fn parse_terms_from_ws_value(value: &TermsField) -> (res: Vec<String>)
    ensures
        views(res@) == client_terms(*value),
{
    let mut out: Vec<String> = Vec::new();
    assert(views(out@) =~= seq![]);
    match value {
        TermsField::List(items) => {
            let ghost iv = item_views(items@);
            let mut i: usize = 0;
            while i < items.len()
                invariant
                    i <= items.len(),
                    iv == item_views(items@),
                    out.len() <= MAX_GLOSSARY_TERMS,
                    views(out@) == first_terms(list_terms(iv.take(i as int))),
                decreases items.len() - i,
            {
                assert(iv.take(i + 1).drop_last() =~= iv.take(i as int));
                match &items[i] {
                    Some(s) => {
                        assert(iv[i as int] == Some(s@));
                        let ghost prev = list_terms(iv.take(i as int));
                        append_trimmed_terms(&mut out, s.as_str());
                        proof {
                            lemma_first_terms_append(prev, trimmed_terms(s@));
                        }
                        assert(views(out@).len() == out@.len());
                    },
                    None => {
                        assert(iv[i as int] == None::<Seq<char>>);
                        assert(list_terms(iv.take(i + 1)) =~= list_terms(iv.take(i as int)));
                    },
                }
                i += 1;
            }
            assert(iv.take(items.len() as int) =~= iv);
        },
        TermsField::Text(s) => {
            append_trimmed_terms(&mut out, s.as_str());
            assert(seq![] + trimmed_terms(s@) =~= trimmed_terms(s@));
        },
        TermsField::Absent => {},
    }
    out
}

} // verus!

verus! {

/// A glossary never holds more than 200 terms, never an empty term, and never two terms
/// that are equal once lower-cased.
pub proof fn law_glossary_terms_distinct(candidates: Seq<Seq<char>>)
    ensures
        glossary_of(candidates).len() <= MAX_GLOSSARY_TERMS,
        forall|i: int|
            0 <= i < glossary_of(candidates).len() ==> (#[trigger] glossary_of(candidates)[i]).len()
                > 0,
        forall|i: int, j: int|
            0 <= i < j < glossary_of(candidates).len() ==> lowercase(
                #[trigger] glossary_of(candidates)[i],
            ) != lowercase(#[trigger] glossary_of(candidates)[j]),
    decreases candidates.len(),
{
    lemma_glossary_bounded(candidates);
    if candidates.len() > 0 {
        let prev = glossary_of(candidates.drop_last());
        law_glossary_terms_distinct(candidates.drop_last());
        let t = candidates.last();
        let g = glossary_of(candidates);
        if !(prev.len() >= MAX_GLOSSARY_TERMS || t.len() == 0 || term_keys(prev).contains(
            lowercase(t),
        )) {
            assert(g == prev.push(t));
            assert forall|i: int, j: int| 0 <= i < j < g.len() implies lowercase(#[trigger] g[i])
                != lowercase(#[trigger] g[j]) by {
                if j == g.len() - 1 {
                    assert(term_keys(prev)[i] == lowercase(prev[i]));
                    assert(g[i] == prev[i]);
                } else {
                    assert(g[i] == prev[i] && g[j] == prev[j]);
                }
            }
            assert forall|i: int| 0 <= i < g.len() implies (#[trigger] g[i]).len() > 0 by {
                if i < g.len() - 1 {
                    assert(g[i] == prev[i]);
                }
            }
        }
    }
}

/// The terms of a client message are at most 200, none of them empty.
pub proof fn law_client_terms_non_empty(field: TermsField)
    ensures
        client_terms(field).len() <= MAX_GLOSSARY_TERMS,
        forall|i: int|
            0 <= i < client_terms(field).len() ==> (#[trigger] client_terms(field)[i]).len() > 0,
{
    match field {
        TermsField::List(items) => {
            lemma_list_terms_non_empty(item_views(items@));
        },
        TermsField::Text(s) => {
            lemma_non_empty(split_pieces(s@).map_values(|p: Seq<char>| trim(p)));
        },
        TermsField::Absent => {},
    }
}

proof fn lemma_non_empty(s: Seq<Seq<char>>)
    ensures
        forall|i: int| 0 <= i < non_empty(s).len() ==> (#[trigger] non_empty(s)[i]).len() > 0,
    decreases s.len(),
{
    if s.len() > 0 {
        lemma_non_empty(s.drop_last());
        let prev = non_empty(s.drop_last());
        assert forall|i: int| 0 <= i < non_empty(s).len() implies (#[trigger] non_empty(
            s,
        )[i]).len() > 0 by {
            if i < prev.len() {
                assert(non_empty(s)[i] == prev[i]);
            }
        }
    }
}

proof fn lemma_list_terms_non_empty(items: Seq<Option<Seq<char>>>)
    ensures
        forall|i: int|
            0 <= i < list_terms(items).len() ==> (#[trigger] list_terms(items)[i]).len() > 0,
    decreases items.len(),
{
    if items.len() > 0 {
        lemma_list_terms_non_empty(items.drop_last());
        let prev = list_terms(items.drop_last());
        let add = match items.last() {
            Some(s) => trimmed_terms(s),
            None => seq![],
        };
        match items.last() {
            Some(s) => lemma_non_empty(split_pieces(s).map_values(|p: Seq<char>| trim(p))),
            None => {},
        }
        assert forall|i: int| 0 <= i < list_terms(items).len() implies (#[trigger] list_terms(
            items,
        )[i]).len() > 0 by {
            if i < prev.len() {
                assert(list_terms(items)[i] == prev[i]);
            } else {
                assert(list_terms(items)[i] == add[i - prev.len()]);
            }
        }
    }
}

} // verus!
