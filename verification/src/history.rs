//! The history of translated phrases: a bounded log of entries, listed by session,
//! and summarized per session.
use vstd::prelude::*;
use std::collections::VecDeque;
use vstd::multiset::Multiset;
use crate::clock::now_unix_ms;
use crate::lang::{source_to_ui, ui_name, SourceLanguage};
use crate::text::{
    chars_of, decimal, is_blank, is_ws, owned, push_decimal, same_text, string_from_range, trim,
    trim_end, trim_start, views,
};
use crate::translate::TranslationTriple;

verus! {

// ---------------------------------------------------------------------------
// Entries
// ---------------------------------------------------------------------------

/// One translated phrase as it is kept and stored.
pub struct HistoryEntry {
    pub id: u64,
    pub ts_ms: i64,
    pub session_id: String,
    pub session_started_ms: i64,
    pub source_lang: String,
    pub original: String,
    pub ru: String,
    pub en: String,
    pub kk: String,
}

/// The model of a history entry, with its texts as character sequences.
pub struct EntryView {
    pub id: u64,
    pub ts_ms: i64,
    pub session_id: Seq<char>,
    pub session_started_ms: i64,
    pub source_lang: Seq<char>,
    pub original: Seq<char>,
    pub ru: Seq<char>,
    pub en: Seq<char>,
    pub kk: Seq<char>,
}

impl View for HistoryEntry {
    type V = EntryView;

    open spec fn view(&self) -> EntryView {
        EntryView {
            id: self.id,
            ts_ms: self.ts_ms,
            session_id: self.session_id@,
            session_started_ms: self.session_started_ms,
            source_lang: self.source_lang@,
            original: self.original@,
            ru: self.ru@,
            en: self.en@,
            kk: self.kk@,
        }
    }
}

impl HistoryEntry {
    /// A copy of this entry.
    pub fn duplicate(&self) -> (res: Self)
        ensures
            res@ == self@,
    {
        HistoryEntry {
            id: self.id,
            ts_ms: self.ts_ms,
            session_id: self.session_id.clone(),
            session_started_ms: self.session_started_ms,
            source_lang: self.source_lang.clone(),
            original: self.original.clone(),
            ru: self.ru.clone(),
            en: self.en.clone(),
            kk: self.kk.clone(),
        }
    }
}

/// The models of a sequence of entries.
pub open spec fn entry_views(s: Seq<HistoryEntry>) -> Seq<EntryView> {
    s.map_values(|e: HistoryEntry| e@)
}

/// The last `n` elements of `s` (all of them when there are fewer).
pub open spec fn last_n<T>(s: Seq<T>, n: nat) -> Seq<T> {
    if s.len() <= n {
        s
    } else {
        s.subrange(s.len() - n, s.len() as int)
    }
}

/// The first `n` elements of `s` (all of them when there are fewer).
pub open spec fn first_n<T>(s: Seq<T>, n: nat) -> Seq<T> {
    if s.len() <= n {
        s
    } else {
        s.take(n as int)
    }
}

/// The session id given to an entry that was stored without one.
pub open spec fn legacy_session_id(id: u64) -> Seq<char> {
    "legacy-"@ + decimal(id as nat)
}

/// The session an entry belongs to: its own id, or a legacy id made from the entry id
/// when its session id is blank.
pub open spec fn session_key(e: EntryView) -> Seq<char> {
    if trim(e.session_id).len() == 0 {
        legacy_session_id(e.id)
    } else {
        e.session_id
    }
}

/// When an entry's session started: its recorded start when positive, else its own time.
pub open spec fn effective_start(e: EntryView) -> i64 {
    if e.session_started_ms > 0 {
        e.session_started_ms
    } else {
        e.ts_ms
    }
}

/// An entry as it is kept after loading: with its session key and effective start.
pub open spec fn normalized(e: EntryView) -> EntryView {
    EntryView { session_id: session_key(e), session_started_ms: effective_start(e), ..e }
}

/// The models of loaded entries after normalization.
pub open spec fn normalize_all(s: Seq<EntryView>) -> Seq<EntryView> {
    s.map_values(|e: EntryView| normalized(e))
}

/// The next id after loading `s`: one more than the largest id, and at least 1.
pub open spec fn next_after(s: Seq<EntryView>) -> nat
    decreases s.len(),
{
    if s.len() == 0 {
        1
    } else {
        let prev = next_after(s.drop_last());
        let cand = s.last().id + 1;
        if prev >= cand {
            prev
        } else {
            cand as nat
        }
    }
}

/// The entries of `s` that belong to the wanted session, or all of them.
pub open spec fn matching(s: Seq<EntryView>, want: Option<Seq<char>>) -> Seq<EntryView>
    decreases s.len(),
{
    if s.len() == 0 {
        seq![]
    } else {
        let prev = matching(s.drop_last(), want);
        let keep = match want {
            Some(w) => s.last().session_id == w,
            None => true,
        };
        if keep {
            prev.push(s.last())
        } else {
            prev
        }
    }
}

/// The model of an optional session id.
pub open spec fn opt_view(o: Option<&str>) -> Option<Seq<char>> {
    match o {
        Some(s) => Some(s@),
        None => None,
    }
}

/// The id that follows `id` when ids are handed out (wrapping at the top).
pub open spec fn following_id(id: u64) -> u64 {
    if id == u64::MAX {
        0
    } else {
        (id + 1) as u64
    }
}

/// The model of the entry recorded for a translation.
pub open spec fn recorded_entry(
    id: u64,
    ts_ms: i64,
    source_lang: SourceLanguage,
    original: Seq<char>,
    translation: TranslationTriple,
    session_id: Seq<char>,
    session_started_ms: i64,
) -> EntryView {
    EntryView {
        id,
        ts_ms,
        session_id,
        session_started_ms,
        source_lang: ui_name(source_lang),
        original,
        ru: translation.ru@,
        en: translation.en@,
        kk: translation.kk@,
    }
}

// ---------------------------------------------------------------------------
// Session summaries
// ---------------------------------------------------------------------------

/// A summary of the entries of one session.
pub struct HistorySessionSummary {
    pub session_id: String,
    pub session_started_ms: i64,
    pub first_ts_ms: i64,
    pub last_ts_ms: i64,
    pub messages: usize,
}

/// The model of a session summary.
pub struct SummaryView {
    pub session_id: Seq<char>,
    pub session_started_ms: i64,
    pub first_ts_ms: i64,
    pub last_ts_ms: i64,
    pub messages: nat,
}

impl View for HistorySessionSummary {
    type V = SummaryView;

    open spec fn view(&self) -> SummaryView {
        SummaryView {
            session_id: self.session_id@,
            session_started_ms: self.session_started_ms,
            first_ts_ms: self.first_ts_ms,
            last_ts_ms: self.last_ts_ms,
            messages: self.messages as nat,
        }
    }
}

/// The models of a sequence of summaries.
pub open spec fn summary_views(s: Seq<HistorySessionSummary>) -> Seq<SummaryView> {
    s.map_values(|g: HistorySessionSummary| g@)
}

/// The index of the summary of session `key` in `g`, or -1.
pub open spec fn find_session(g: Seq<SummaryView>, key: Seq<char>) -> int
    decreases g.len(),
{
    if g.len() == 0 {
        -1
    } else if g[0].session_id == key {
        0
    } else {
        let r = find_session(g.drop_first(), key);
        if r < 0 {
            -1
        } else {
            r + 1
        }
    }
}

/// The summary of a session that so far has one entry.
pub open spec fn fresh_summary(e: EntryView) -> SummaryView {
    SummaryView {
        session_id: session_key(e),
        session_started_ms: effective_start(e),
        first_ts_ms: e.ts_ms,
        last_ts_ms: e.ts_ms,
        messages: 1,
    }
}

/// A summary extended by one more entry of its session.
pub open spec fn merged(s: SummaryView, e: EntryView) -> SummaryView {
    SummaryView {
        session_id: s.session_id,
        session_started_ms: if effective_start(e) < s.session_started_ms {
            effective_start(e)
        } else {
            s.session_started_ms
        },
        first_ts_ms: if e.ts_ms < s.first_ts_ms {
            e.ts_ms
        } else {
            s.first_ts_ms
        },
        last_ts_ms: if e.ts_ms > s.last_ts_ms {
            e.ts_ms
        } else {
            s.last_ts_ms
        },
        messages: s.messages + 1,
    }
}

/// The summaries of the sessions of `s`, in the order their sessions first occur.
pub open spec fn group_sessions(s: Seq<EntryView>) -> Seq<SummaryView>
    decreases s.len(),
{
    if s.len() == 0 {
        seq![]
    } else {
        let g = group_sessions(s.drop_last());
        let e = s.last();
        let j = find_session(g, session_key(e));
        if j >= 0 {
            g.update(j, merged(g[j], e))
        } else {
            g.push(fresh_summary(e))
        }
    }
}

/// Whether `a` may be listed before `b`: it started later, or at the same time with a
/// later last message.
pub open spec fn listed_before(a: SummaryView, b: SummaryView) -> bool {
    a.session_started_ms > b.session_started_ms || (a.session_started_ms == b.session_started_ms
        && a.last_ts_ms >= b.last_ts_ms)
}

/// Whether `p` lists the most recently started sessions first.
pub open spec fn newest_first(p: Seq<SummaryView>) -> bool {
    forall|i: int, j: int| 0 <= i < j < p.len() ==> listed_before(#[trigger] p[i], #[trigger] p[j])
}

/// Whether `p` lists exactly the summaries `g`, newest first.
pub open spec fn ordered_listing(p: Seq<SummaryView>, g: Seq<SummaryView>) -> bool {
    p.to_multiset() == g.to_multiset() && newest_first(p)
}

// ---------------------------------------------------------------------------
// The store
// ---------------------------------------------------------------------------

/// The in-memory history: the most recent entries, at most `max_entries` of them, and the
/// id the next entry gets.
pub struct HistoryStore {
    entries: VecDeque<HistoryEntry>,
    max_entries: usize,
    next_id: u64,
}

/// The model of the history store.
pub struct HistoryView {
    pub entries: Seq<EntryView>,
    pub max_entries: nat,
    pub next_id: u64,
}

impl View for HistoryStore {
    type V = HistoryView;

    closed spec fn view(&self) -> HistoryView {
        HistoryView {
            entries: entry_views(self.entries@),
            max_entries: self.max_entries as nat,
            next_id: self.next_id,
        }
    }
}

proof fn lemma_last_n_push<T>(s: Seq<T>, x: T, n: nat)
    ensures
        last_n(last_n(s, n).push(x), n) == last_n(s.push(x), n),
{
    assert(last_n(last_n(s, n).push(x), n) =~= last_n(s.push(x), n));
}

proof fn lemma_views_last_n(s: Seq<HistoryEntry>, n: nat)
    ensures
        entry_views(last_n(s, n)) == last_n(entry_views(s), n),
{
    assert(entry_views(last_n(s, n)) =~= last_n(entry_views(s), n));
}

/// Drops the oldest entries until at most `max` remain.
fn evict(entries: &mut VecDeque<HistoryEntry>, max: usize)
    ensures
        final(entries)@ == last_n(old(entries)@, max as nat),
{
    let ghost orig = entries@;
    let ghost mut k: int = 0;
    while entries.len() > max
        invariant
            0 <= k <= orig.len(),
            entries@ == orig.subrange(k, orig.len() as int),
            orig.len() > max ==> k <= orig.len() - max,
            orig.len() <= max ==> k == 0,
        decreases entries@.len(),
    {
        entries.pop_front();
        proof {
            k = k + 1;
        }
    }
    assert(entries@ =~= last_n(orig, max as nat));
}

/// The legacy session id for entry `id`, as a string.
fn legacy_session_id_string(id: u64) -> (res: String)
    ensures
        res@ == legacy_session_id(id),
{
    let mut s = owned("legacy-");
    push_decimal(&mut s, id);
    s
}

/// The session key of an entry, as a string.
fn session_key_string(e: &HistoryEntry) -> (res: String)
    ensures
        res@ == session_key(e@),
{
    if is_blank(e.session_id.as_str()) {
        legacy_session_id_string(e.id)
    } else {
        e.session_id.clone()
    }
}

proof fn lemma_find_first(g: Seq<SummaryView>, key: Seq<char>, i: int)
    requires
        0 <= i < g.len(),
        g[i].session_id == key,
        forall|j: int| 0 <= j < i ==> (#[trigger] g[j]).session_id != key,
    ensures
        find_session(g, key) == i,
    decreases g.len(),
{
    if i > 0 {
        assert(g[0].session_id != key);
        assert forall|j: int| 0 <= j < i - 1 implies (#[trigger] g.drop_first()[j]).session_id
            != key by {
            assert(g.drop_first()[j] == g[j + 1]);
        }
        lemma_find_first(g.drop_first(), key, i - 1);
    }
}

proof fn lemma_find_none(g: Seq<SummaryView>, key: Seq<char>)
    requires
        forall|j: int| 0 <= j < g.len() ==> (#[trigger] g[j]).session_id != key,
    ensures
        find_session(g, key) == -1,
    decreases g.len(),
{
    if g.len() > 0 {
        assert(g[0].session_id != key);
        assert forall|j: int| 0 <= j < g.len() - 1 implies (#[trigger] g.drop_first()[j]).session_id
            != key by {
            assert(g.drop_first()[j] == g[j + 1]);
        }
        lemma_find_none(g.drop_first(), key);
    }
}

/// The position of the summary of session `key` in `groups`, if there is one.
fn position_of_session(groups: &Vec<HistorySessionSummary>, key: &str) -> (res: Option<usize>)
    ensures
        match res {
            Some(j) => find_session(summary_views(groups@), key@) == j as int && j < groups.len(),
            None => find_session(summary_views(groups@), key@) == -1,
        },
{
    let ghost g = summary_views(groups@);
    let mut j: usize = 0;
    while j < groups.len()
        invariant
            j <= groups.len(),
            g == summary_views(groups@),
            forall|k: int| 0 <= k < j ==> (#[trigger] g[k]).session_id != key@,
        decreases groups.len() - j,
    {
        assert(g[j as int] == groups@[j as int]@);
        if same_text(groups[j].session_id.as_str(), key) {
            proof {
                lemma_find_first(g, key@, j as int);
            }
            return Some(j);
        }
        j += 1;
    }
    proof {
        lemma_find_none(g, key@);
    }
    None
}

fn goes_before(a: &HistorySessionSummary, b: &HistorySessionSummary) -> (res: bool)
    ensures
        res == listed_before(a@, b@),
{
    a.session_started_ms > b.session_started_ms || (a.session_started_ms == b.session_started_ms
        && a.last_ts_ms >= b.last_ts_ms)
}

proof fn lemma_insert_multiset(s: Seq<SummaryView>, i: int, x: SummaryView)
    requires
        0 <= i <= s.len(),
    ensures
        s.insert(i, x).to_multiset() == s.to_multiset().insert(x),
{
    broadcast use vstd::seq_lib::group_to_multiset_ensures;

    let t = s.insert(i, x);
    assert(t.remove(i) =~= s);
    assert(t[i] == x);
    assert(t.to_multiset().remove(x) == s.to_multiset());
    assert(t.to_multiset().count(x) > 0);
    assert(t.to_multiset() =~= s.to_multiset().insert(x));
}

/// The summaries `groups` ordered newest first.
fn order_newest_first(groups: Vec<HistorySessionSummary>) -> (res: Vec<HistorySessionSummary>)
    ensures
        ordered_listing(summary_views(res@), summary_views(groups@)),
{
    broadcast use vstd::seq_lib::group_to_multiset_ensures;

    let ghost orig = summary_views(groups@);
    let mut rest = groups;
    let mut sorted: Vec<HistorySessionSummary> = Vec::new();
    assert(summary_views(sorted@) =~= seq![]);
    assert(summary_views(sorted@).to_multiset() =~= Multiset::empty());
    while rest.len() > 0
        invariant
            summary_views(sorted@).to_multiset().add(summary_views(rest@).to_multiset())
                == orig.to_multiset(),
            newest_first(summary_views(sorted@)),
        decreases rest.len(),
    {
        let ghost rest_before = summary_views(rest@);
        let x = rest.pop().unwrap();
        assert(rest_before =~= summary_views(rest@).push(x@));
        let ghost sv = summary_views(sorted@);
        let mut pos: usize = 0;
        while pos < sorted.len() && goes_before(&sorted[pos], &x)
            invariant
                pos <= sorted.len(),
                sv == summary_views(sorted@),
                forall|k: int| 0 <= k < pos ==> listed_before(#[trigger] sv[k], x@),
            decreases sorted.len() - pos,
        {
            pos += 1;
        }
        if pos < sorted.len() {
            assert(sv[pos as int] == sorted@[pos as int]@);
        }
        sorted.insert(pos, x);
        proof {
            let nv = summary_views(sorted@);
            assert(nv =~= sv.insert(pos as int, x@));
            lemma_insert_multiset(sv, pos as int, x@);
            assert forall|i: int, j: int| 0 <= i < j < nv.len() implies listed_before(
                #[trigger] nv[i],
                #[trigger] nv[j],
            ) by {
                if j < pos {
                    assert(nv[i] == sv[i] && nv[j] == sv[j]);
                } else if j == pos {
                    assert(nv[i] == sv[i]);
                } else if i == pos {
                    assert(nv[j] == sv[j - 1]);
                    assert(!listed_before(sv[pos as int], x@));
                    if j - 1 > pos {
                        assert(listed_before(sv[pos as int], sv[j - 1]));
                    }
                } else if i < pos {
                    assert(nv[i] == sv[i] && nv[j] == sv[j - 1]);
                } else {
                    assert(nv[i] == sv[i - 1] && nv[j] == sv[j - 1]);
                }
            }
            summary_views(rest@).to_multiset_ensures();
            assert(summary_views(rest@).to_multiset().insert(x@) == rest_before.to_multiset());
            assert(nv.to_multiset().add(summary_views(rest@).to_multiset()) =~= orig.to_multiset());
        }
    }
    assert(summary_views(rest@) =~= seq![]);
    assert(summary_views(rest@).to_multiset() =~= Multiset::empty());
    assert(summary_views(sorted@).to_multiset() =~= orig.to_multiset());
    sorted
}

impl HistoryStore {
    /// An empty history that keeps at most `max_entries` entries.
    pub fn new(max_entries: usize) -> (res: Self)
        ensures
            res@ == (HistoryView { entries: seq![], max_entries: max_entries as nat, next_id: 1 }),
    {
        let res = HistoryStore { entries: VecDeque::new(), max_entries, next_id: 1 };
        assert(res@.entries =~= seq![]);
        res
    }

    /// The history made from entries read back from storage, oldest first: entries without
    /// a session get a legacy session, entries without a positive session start get their
    /// own time, only the last `max_entries` are kept, and the next id follows the largest.
    pub fn load(max_entries: usize, parsed: Vec<HistoryEntry>) -> (res: Self)
        requires
            forall|i: int| 0 <= i < parsed.len() ==> (#[trigger] parsed@[i]).id < u64::MAX,
        ensures
            res@.max_entries == max_entries,
            res@.entries == last_n(normalize_all(entry_views(parsed@)), max_entries as nat),
            res@.next_id == next_after(entry_views(parsed@)),
    {
        let ghost src = entry_views(parsed@);
        let mut entries: VecDeque<HistoryEntry> = VecDeque::new();
        let mut next_id: u64 = 1;
        let n = parsed.len();
        let mut i: usize = 0;
        while i < n
            invariant
                i <= n == parsed.len(),
                src == entry_views(parsed@),
                forall|j: int| 0 <= j < parsed.len() ==> (#[trigger] parsed@[j]).id < u64::MAX,
                entry_views(entries@) == last_n(normalize_all(src).take(i as int), max_entries as nat),
                next_id as nat == next_after(src.take(i as int)),
            decreases n - i,
        {
            let mut e = parsed[i].duplicate();
            assert(parsed@[i as int]@ == src[i as int]);
            if is_blank(e.session_id.as_str()) {
                e.session_id = legacy_session_id_string(e.id);
            }
            if e.session_started_ms <= 0 {
                e.session_started_ms = e.ts_ms;
            }
            assert(e@ == normalized(src[i as int]));
            let cand = e.id + 1;
            if next_id < cand {
                next_id = cand;
            }
            assert(src.take(i + 1).drop_last() =~= src.take(i as int));
            let ghost before = entries@;
            entries.push_back(e);
            evict(&mut entries, max_entries);
            proof {
                assert(normalize_all(src).take(i + 1) =~= normalize_all(src).take(i as int).push(
                    normalized(src[i as int]),
                ));
                lemma_views_last_n(before.push(e), max_entries as nat);
                assert(entry_views(before.push(e)) =~= entry_views(before).push(e@));
                lemma_last_n_push(normalize_all(src).take(i as int), normalized(src[i as int]), max_entries as nat);
            }
            i += 1;
        }
        assert(normalize_all(src).take(n as int) =~= normalize_all(src));
        assert(src.take(n as int) =~= src);
        HistoryStore { entries, max_entries, next_id }
    }

    /// Records a translation at time `ts_ms` under the next id, dropping the oldest entry
    /// when the history is full, and returns the recorded entry.
    pub fn append_at(
        &mut self,
        ts_ms: i64,
        source_lang: SourceLanguage,
        original: String,
        translation: &TranslationTriple,
        session_id: &str,
        session_started_ms: i64,
    ) -> (res: HistoryEntry)
        ensures
            res@ == recorded_entry(
                old(self)@.next_id,
                ts_ms,
                source_lang,
                original@,
                *translation,
                session_id@,
                session_started_ms,
            ),
            res@.id == old(self)@.next_id,
            res@.ts_ms == ts_ms,
            res@.session_id == session_id@,
            res@.session_started_ms == session_started_ms,
            res@.original == original@,
            res@.ru == translation.ru@,
            res@.en == translation.en@,
            res@.kk == translation.kk@,
            final(self)@ == (HistoryView {
                entries: last_n(old(self)@.entries.push(res@), old(self)@.max_entries),
                max_entries: old(self)@.max_entries,
                next_id: following_id(old(self)@.next_id),
            }),
    {
        let id = self.next_id;
        self.next_id = if self.next_id == u64::MAX {
            0
        } else {
            self.next_id + 1
        };
        let entry = HistoryEntry {
            id,
            ts_ms,
            session_id: owned(session_id),
            session_started_ms,
            source_lang: owned(source_to_ui(source_lang)),
            original,
            ru: translation.ru.clone(),
            en: translation.en.clone(),
            kk: translation.kk.clone(),
        };
        let res = entry.duplicate();
        let ghost before = self.entries@;
        self.entries.push_back(entry);
        evict(&mut self.entries, self.max_entries);
        proof {
            lemma_views_last_n(before.push(entry), self.max_entries as nat);
            assert(entry_views(before.push(entry)) =~= entry_views(before).push(entry@));
        }
        res
    }

    /// Records a translation at the current time; as `append_at` with the time the clock
    /// gave, which is the returned entry's `ts_ms`.
    pub fn append(
        &mut self,
        source_lang: SourceLanguage,
        original: String,
        translation: &TranslationTriple,
        session_id: &str,
        session_started_ms: i64,
    ) -> (res: HistoryEntry)
        ensures
            res@ == recorded_entry(
                old(self)@.next_id,
                res@.ts_ms,
                source_lang,
                original@,
                *translation,
                session_id@,
                session_started_ms,
            ),
            final(self)@ == (HistoryView {
                entries: last_n(old(self)@.entries.push(res@), old(self)@.max_entries),
                max_entries: old(self)@.max_entries,
                next_id: following_id(old(self)@.next_id),
            }),
    {
        let ts_ms = now_unix_ms();
        self.append_at(ts_ms, source_lang, original, translation, session_id, session_started_ms)
    }

    /// The last `limit` entries of the wanted session (of all sessions when none is given),
    /// oldest first.
    pub fn list(&self, limit: usize, session_id: Option<&str>) -> (res: Vec<HistoryEntry>)
        ensures
            entry_views(res@) == last_n(matching(self@.entries, opt_view(session_id)), limit as nat),
    {
        let ghost all = entry_views(self.entries@);
        let ghost want = opt_view(session_id);
        let n = self.entries.len();
        let mut items: Vec<HistoryEntry> = Vec::new();
        let mut i: usize = 0;
        while i < n
            invariant
                i <= n == self.entries@.len(),
                all == entry_views(self.entries@),
                want == opt_view(session_id),
                entry_views(items@) == matching(all.take(i as int), want),
            decreases n - i,
        {
            let item = &self.entries[i];
            assert(all.take(i + 1).drop_last() =~= all.take(i as int));
            assert(all[i as int] == item@);
            let keep = match session_id {
                Some(w) => same_text(item.session_id.as_str(), w),
                None => true,
            };
            if keep {
                let ghost before = items@;
                items.push(item.duplicate());
                assert(entry_views(items@) =~= entry_views(before).push(item@));
            }
            i += 1;
        }
        assert(all.take(n as int) =~= all);
        if items.len() <= limit {
            return items;
        }
        let start = items.len() - limit;
        let mut out: Vec<HistoryEntry> = Vec::new();
        let mut k: usize = start;
        while k < items.len()
            invariant
                start <= k <= items.len(),
                start == items.len() - limit,
                entry_views(out@) == entry_views(items@).subrange(start as int, k as int),
            decreases items.len() - k,
        {
            let ghost before = out@;
            out.push(items[k].duplicate());
            assert(entry_views(out@) =~= entry_views(before).push(items@[k as int]@));
            assert(entry_views(items@).subrange(start as int, k + 1) =~= entry_views(items@).subrange(
                start as int,
                k as int,
            ).push(items@[k as int]@));
            k += 1;
        }
        out
    }

    /// The summaries of the sessions of the history, in the order their sessions first occur.
    fn session_groups(&self) -> (res: Vec<HistorySessionSummary>)
        ensures
            summary_views(res@) == group_sessions(self@.entries),
    {
        let ghost all = entry_views(self.entries@);
        let n = self.entries.len();
        let mut groups: Vec<HistorySessionSummary> = Vec::new();
        let mut i: usize = 0;
        assert(summary_views(groups@) =~= seq![]);
        while i < n
            invariant
                i <= n == self.entries@.len(),
                all == entry_views(self.entries@),
                summary_views(groups@) == group_sessions(all.take(i as int)),
                forall|k: int| 0 <= k < groups.len() ==> (#[trigger] groups@[k]).messages <= i,
            decreases n - i,
        {
            let item = &self.entries[i];
            assert(all.take(i + 1).drop_last() =~= all.take(i as int));
            assert(all[i as int] == item@);
            let key = session_key_string(item);
            let started = if item.session_started_ms > 0 {
                item.session_started_ms
            } else {
                item.ts_ms
            };
            let ghost g = summary_views(groups@);
            match position_of_session(&groups, key.as_str()) {
                Some(j) => {
                    let cur = &groups[j];
                    assert(g[j as int] == cur@);
                    let updated = HistorySessionSummary {
                        session_id: cur.session_id.clone(),
                        session_started_ms: if started < cur.session_started_ms {
                            started
                        } else {
                            cur.session_started_ms
                        },
                        first_ts_ms: if item.ts_ms < cur.first_ts_ms {
                            item.ts_ms
                        } else {
                            cur.first_ts_ms
                        },
                        last_ts_ms: if item.ts_ms > cur.last_ts_ms {
                            item.ts_ms
                        } else {
                            cur.last_ts_ms
                        },
                        messages: cur.messages + 1,
                    };
                    assert(updated@ == merged(g[j as int], item@));
                    groups.set(j, updated);
                    assert(summary_views(groups@) =~= g.update(j as int, merged(g[j as int], item@)));
                },
                None => {
                    let fresh = HistorySessionSummary {
                        session_id: key,
                        session_started_ms: started,
                        first_ts_ms: item.ts_ms,
                        last_ts_ms: item.ts_ms,
                        messages: 1,
                    };
                    assert(fresh@ == fresh_summary(item@));
                    groups.push(fresh);
                    assert(summary_views(groups@) =~= g.push(fresh_summary(item@)));
                },
            }
            i += 1;
        }
        assert(all.take(n as int) =~= all);
        groups
    }

    /// The summaries of the `limit` most recently started sessions, newest first (ties by
    /// latest message); which of two summaries equal in both comes first is not fixed.
    pub fn sessions(&self, limit: usize) -> (res: Vec<HistorySessionSummary>)
        ensures
            exists|p: Seq<SummaryView>|
                #[trigger] ordered_listing(p, group_sessions(self@.entries)) && summary_views(res@)
                    == first_n(p, limit as nat),
    {
        let groups = self.session_groups();
        let ghost g = summary_views(groups@);
        let mut sorted = order_newest_first(groups);
        let ghost p = summary_views(sorted@);
        assert(ordered_listing(p, group_sessions(self@.entries)));
        if sorted.len() > limit {
            sorted.truncate(limit);
        }
        assert(summary_views(sorted@) =~= first_n(p, limit as nat));
        sorted
    }

    /// Forgets every entry; the next entry gets id 1 again.
    pub fn clear(&mut self)
        ensures
            final(self)@ == (HistoryView {
                entries: seq![],
                max_entries: old(self)@.max_entries,
                next_id: 1,
            }),
    {
        self.entries.clear();
        self.next_id = 1;
        assert(entry_views(self.entries@) =~= seq![]);
    }
}

} // verus!

verus! {

// ---------------------------------------------------------------------------
// Laws of the history
// ---------------------------------------------------------------------------

/// The entry recorded for a translation keeps each translation under its own language: the
/// Russian, English and Kazakh texts are those of the translation, and the original, the
/// session and the times are those given.
pub proof fn law_recorded_entry_keeps_fields(
    id: u64,
    ts_ms: i64,
    source_lang: SourceLanguage,
    original: Seq<char>,
    translation: TranslationTriple,
    session_id: Seq<char>,
    session_started_ms: i64,
)
    ensures
        ({
            let e = recorded_entry(
                id,
                ts_ms,
                source_lang,
                original,
                translation,
                session_id,
                session_started_ms,
            );
            &&& e.id == id
            &&& e.ts_ms == ts_ms
            &&& e.session_id == session_id
            &&& e.session_started_ms == session_started_ms
            &&& e.original == original
            &&& e.ru == translation.ru@
            &&& e.en == translation.en@
            &&& e.kk == translation.kk@
        }),
{
}

/// Reading back a write: once an entry is recorded in a history that keeps at least one
/// entry, a listing of at least one entry, of all sessions or of the entry's session, ends
/// with that entry.
pub proof fn law_list_ends_with_recorded(
    entries: Seq<EntryView>,
    max_entries: nat,
    recorded: EntryView,
    limit: nat,
    want: Option<Seq<char>>,
)
    requires
        max_entries >= 1,
        limit >= 1,
        want is None || want == Some(recorded.session_id),
    ensures
        ({
            let listed = last_n(matching(last_n(entries.push(recorded), max_entries), want), limit);
            listed.len() > 0 && listed.last() == recorded
        }),
{
    let kept = last_n(entries.push(recorded), max_entries);
    assert(kept.len() > 0 && kept.last() == recorded);
    let m = matching(kept, want);
    assert(m == matching(kept.drop_last(), want).push(recorded));
    assert(m.len() > 0 && m.last() == recorded);
}

/// The history never holds more entries than it keeps, and what it holds is the most
/// recent part of what was recorded, in order.
pub proof fn law_kept_entries_are_latest<T>(recorded: Seq<T>, max_entries: nat)
    ensures
        last_n(recorded, max_entries).len() <= max_entries,
        last_n(recorded, max_entries).len() == if recorded.len() <= max_entries {
            recorded.len()
        } else {
            max_entries
        },
        forall|i: int|
            0 <= i < last_n(recorded, max_entries).len() ==> #[trigger] last_n(
                recorded,
                max_entries,
            )[i] == recorded[recorded.len() - last_n(recorded, max_entries).len() + i],
{
}

/// Every entry of a session listing belongs to the wanted session, and the listing holds
/// at most `limit` entries.
pub proof fn law_listing_matches(entries: Seq<EntryView>, want: Option<Seq<char>>, limit: nat)
    ensures
        last_n(matching(entries, want), limit).len() <= limit,
        forall|i: int|
            0 <= i < last_n(matching(entries, want), limit).len() ==> match want {
                Some(w) => (#[trigger] last_n(matching(entries, want), limit)[i]).session_id == w,
                None => true,
            },
{
    lemma_matching_sessions(entries, want);
    let m = matching(entries, want);
    let l = last_n(m, limit);
    assert forall|i: int| 0 <= i < l.len() implies match want {
        Some(w) => (#[trigger] l[i]).session_id == w,
        None => true,
    } by {
        assert(l[i] == m[m.len() - l.len() + i]);
    }
}

proof fn lemma_matching_sessions(entries: Seq<EntryView>, want: Option<Seq<char>>)
    ensures
        matching(entries, want).len() <= entries.len(),
        forall|i: int|
            0 <= i < matching(entries, want).len() ==> match want {
                Some(w) => (#[trigger] matching(entries, want)[i]).session_id == w,
                None => true,
            },
    decreases entries.len(),
{
    if entries.len() > 0 {
        lemma_matching_sessions(entries.drop_last(), want);
    }
}

/// After loading, the next id is larger than every loaded id.
pub proof fn law_next_id_exceeds_loaded(loaded: Seq<EntryView>)
    ensures
        next_after(loaded) >= 1,
        forall|i: int| 0 <= i < loaded.len() ==> (#[trigger] loaded[i]).id < next_after(loaded),
    decreases loaded.len(),
{
    if loaded.len() > 0 {
        law_next_id_exceeds_loaded(loaded.drop_last());
        assert forall|i: int| 0 <= i < loaded.len() implies (#[trigger] loaded[i]).id < next_after(
            loaded,
        ) by {
            if i < loaded.len() - 1 {
                assert(loaded[i] == loaded.drop_last()[i]);
            }
        }
    }
}

/// The total number of messages over a list of session summaries.
pub open spec fn total_messages(g: Seq<SummaryView>) -> nat
    decreases g.len(),
{
    if g.len() == 0 {
        0
    } else {
        total_messages(g.drop_last()) + g.last().messages
    }
}

proof fn lemma_find_spec(g: Seq<SummaryView>, key: Seq<char>)
    ensures
        -1 <= find_session(g, key) < g.len(),
        find_session(g, key) >= 0 ==> g[find_session(g, key)].session_id == key,
        find_session(g, key) == -1 ==> forall|j: int|
            0 <= j < g.len() ==> (#[trigger] g[j]).session_id != key,
    decreases g.len(),
{
    if g.len() > 0 && g[0].session_id != key {
        lemma_find_spec(g.drop_first(), key);
        assert forall|j: int| 0 <= j < g.len() && find_session(g, key) == -1 implies (
        #[trigger] g[j]).session_id != key by {
            if j > 0 {
                assert(g[j] == g.drop_first()[j - 1]);
            }
        }
        if find_session(g, key) >= 0 {
            assert(g[find_session(g, key)] == g.drop_first()[find_session(g, key) - 1]);
        }
    }
}

proof fn lemma_total_update(g: Seq<SummaryView>, j: int, v: SummaryView)
    requires
        0 <= j < g.len(),
    ensures
        total_messages(g.update(j, v)) + g[j].messages == total_messages(g) + v.messages,
    decreases g.len(),
{
    if j < g.len() - 1 {
        assert(g.update(j, v).drop_last() =~= g.drop_last().update(j, v));
        lemma_total_update(g.drop_last(), j, v);
    } else {
        assert(g.update(j, v).drop_last() =~= g.drop_last());
    }
}

/// The sessions of the history account for every entry once: the messages of all session
/// summaries add up to the number of entries, no session is summarized twice, every
/// entry's session has a summary, and each summary's first message is not after its last.
pub proof fn law_sessions_account_for_entries(entries: Seq<EntryView>)
    ensures
        total_messages(group_sessions(entries)) == entries.len(),
        forall|i: int, j: int|
            0 <= i < j < group_sessions(entries).len() ==> (#[trigger] group_sessions(
                entries,
            )[i]).session_id != (#[trigger] group_sessions(entries)[j]).session_id,
        forall|i: int|
            0 <= i < entries.len() ==> find_session(
                group_sessions(entries),
                session_key(#[trigger] entries[i]),
            ) >= 0,
        forall|i: int|
            0 <= i < group_sessions(entries).len() ==> (#[trigger] group_sessions(
                entries,
            )[i]).first_ts_ms <= group_sessions(entries)[i].last_ts_ms,
    decreases entries.len(),
{
    if entries.len() > 0 {
        let prev = entries.drop_last();
        law_sessions_account_for_entries(prev);
        let g = group_sessions(prev);
        let e = entries.last();
        let k = session_key(e);
        lemma_find_spec(g, k);
        let j = find_session(g, k);
        let ng = group_sessions(entries);
        if j >= 0 {
            lemma_total_update(g, j, merged(g[j], e));
            assert(ng == g.update(j, merged(g[j], e)));
        } else {
            assert(ng == g.push(fresh_summary(e)));
            assert(ng.drop_last() =~= g);
        }
        assert forall|i: int, l: int| 0 <= i < l < ng.len() implies (#[trigger] ng[i]).session_id
            != (#[trigger] ng[l]).session_id by {
            if j < 0 && l == ng.len() - 1 {
                assert(ng[i] == g[i]);
            } else {
                assert(ng[i].session_id == g[i].session_id);
                assert(ng[l].session_id == g[l].session_id);
            }
        }
        assert forall|i: int| 0 <= i < entries.len() implies find_session(
            ng,
            session_key(#[trigger] entries[i]),
        ) >= 0 by {
            let ki = session_key(entries[i]);
            lemma_find_spec(ng, ki);
            if i < entries.len() - 1 {
                assert(entries[i] == prev[i]);
                lemma_find_spec(g, ki);
                let fi = find_session(g, ki);
                assert(ng[fi].session_id == ki);
            } else {
                if j >= 0 {
                    assert(ng[j].session_id == k);
                } else {
                    assert(ng[ng.len() - 1].session_id == k);
                }
            }
        }
        assert forall|i: int| 0 <= i < ng.len() implies (#[trigger] ng[i]).first_ts_ms
            <= ng[i].last_ts_ms by {
            if i < g.len() && i != j {
                assert(ng[i] == g[i]);
            }
        }
    }
}

} // verus!

verus! {

// ---------------------------------------------------------------------------
// The stored form: one entry per line
// ---------------------------------------------------------------------------

/// The pieces of `s` between newlines, the empty ones included.
pub open spec fn newline_pieces(s: Seq<char>) -> Seq<Seq<char>>
    decreases s.len(),
{
    if s.len() == 0 {
        seq![seq![]]
    } else {
        let prev = newline_pieces(s.drop_last());
        if s.last() == '\n' {
            prev.push(seq![])
        } else {
            prev.drop_last().push(prev.last().push(s.last()))
        }
    }
}

/// A line without the carriage return of a `\r\n` ending.
pub open spec fn strip_cr(line: Seq<char>) -> Seq<char> {
    if line.len() > 0 && line.last() == '\r' {
        line.drop_last()
    } else {
        line
    }
}

/// The lines of stored text that hold something other than whitespace, in order; a line
/// ended by `\r\n` loses the `\r` (as `str::lines`, keeping only non-blank lines).
pub open spec fn stored_lines(s: Seq<char>) -> Seq<Seq<char>> {
    let pieces = newline_pieces(s);
    non_blank(pieces.drop_last().map_values(|p: Seq<char>| strip_cr(p)).push(pieces.last()))
}

/// The elements of `ls` that are not blank.
pub open spec fn non_blank(ls: Seq<Seq<char>>) -> Seq<Seq<char>>
    decreases ls.len(),
{
    if ls.len() == 0 {
        seq![]
    } else if trim(ls.last()).len() == 0 {
        non_blank(ls.drop_last())
    } else {
        non_blank(ls.drop_last()).push(ls.last())
    }
}

/// Appends `line` to `out` when it is not blank.
fn keep_non_blank(out: &mut Vec<String>, line: String)
    ensures
        views(final(out)@) == if trim(line@).len() == 0 {
            views(old(out)@)
        } else {
            views(old(out)@).push(line@)
        },
{
    if !is_blank(line.as_str()) {
        let ghost before = views(out@);
        out.push(line);
        assert(views(out@) =~= before.push(line@));
    }
}

/// The non-blank lines of the stored history text, each of which holds one entry.
pub fn history_lines(raw: &str) -> (res: Vec<String>)
    ensures
        views(res@) == stored_lines(raw@),
{
    let v = chars_of(raw);
    let n = v.len();
    let mut out: Vec<String> = Vec::new();
    let mut start: usize = 0;
    let mut i: usize = 0;
    let ghost mut done: Seq<Seq<char>> = seq![];
    assert(views(out@) =~= seq![]);
    assert(v@.take(0) =~= seq![]);
    while i < n
        invariant
            start <= i <= n == v.len(),
            v@ == raw@,
            newline_pieces(v@.take(i as int)) == done.push(v@.subrange(start as int, i as int)),
            views(out@) == non_blank(done.map_values(|p: Seq<char>| strip_cr(p))),
        decreases n - i,
    {
        let c = v[i];
        assert(v@.take(i + 1).drop_last() =~= v@.take(i as int));
        assert(v@.take(i + 1).last() == c);
        let ghost piece = v@.subrange(start as int, i as int);
        if c == '\n' {
            let end = if i > start && v[i - 1] == '\r' {
                i - 1
            } else {
                i
            };
            let line = string_from_range(&v, start, end);
            assert(line@ == strip_cr(piece)) by {
                if i > start && v@[i - 1] == '\r' {
                    assert(piece.drop_last() =~= v@.subrange(start as int, end as int));
                } else {
                    assert(piece =~= v@.subrange(start as int, end as int));
                }
            }
            keep_non_blank(&mut out, line);
            proof {
                let mapped = done.map_values(|p: Seq<char>| strip_cr(p));
                assert(done.push(piece).map_values(|p: Seq<char>| strip_cr(p)) =~= mapped.push(
                    strip_cr(piece),
                ));
                assert(mapped.push(strip_cr(piece)).drop_last() =~= mapped);
                done = done.push(piece);
                assert(v@.subrange(i + 1, i + 1) =~= seq![]);
            }
            start = i + 1;
        } else {
            assert(v@.subrange(start as int, i + 1) =~= piece.push(c));
            assert(done.push(piece).drop_last() =~= done);
        }
        i += 1;
    }
    assert(v@.take(n as int) =~= v@);
    let last = string_from_range(&v, start, n);
    keep_non_blank(&mut out, last);
    proof {
        let pieces = newline_pieces(raw@);
        assert(pieces.drop_last() =~= done);
        let all = done.map_values(|p: Seq<char>| strip_cr(p)).push(last@);
        assert(all.drop_last() =~= done.map_values(|p: Seq<char>| strip_cr(p)));
    }
    out
}

/// After loading, every entry belongs to a named session: a session id that is not blank.
pub proof fn law_loaded_entries_have_sessions(e: EntryView)
    ensures
        trim(normalized(e).session_id).len() > 0,
        normalized(e).session_started_ms == effective_start(e),
{
    if trim(e.session_id).len() == 0 {
        let s = legacy_session_id(e.id);
        assert(s[0] == 'l') by {
            reveal_strlit("legacy-");
        }
        lemma_trim_keeps_leading_non_ws(s);
    }
}

proof fn lemma_trim_end_keeps_first(s: Seq<char>)
    requires
        s.len() > 0,
        !is_ws(s[0]),
    ensures
        trim_end(s).len() > 0,
    decreases s.len(),
{
    if s.len() > 1 && is_ws(s.last()) {
        lemma_trim_end_keeps_first(s.drop_last());
    }
}

proof fn lemma_trim_keeps_leading_non_ws(s: Seq<char>)
    requires
        s.len() > 0,
        !is_ws(s[0]),
    ensures
        trim(s).len() > 0,
{
    assert(trim_start(s) == s);
    lemma_trim_end_keeps_first(s);
}

} // verus!
