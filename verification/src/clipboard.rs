//! Clipboard history: the most recent copied texts, newest first, with a search and the
//! rule by which the clipboard monitor records a text.
use crate::text::{byte_len, byte_len_exceeds, chars_of, contains_spec, lower_case, str_contains, to_lowercase};
use vstd::prelude::*;

verus! {

/// The most entries the history keeps.
pub const MAX_ENTRIES: usize = 100;

/// The longest text, in bytes, that the monitor records.
pub const MAX_TEXT_BYTES: usize = 10000;

/// One recorded text, with its id and the time (seconds since the Unix epoch) it was copied.
#[derive(Debug)]
pub struct ClipboardEntry {
    pub id: u64,
    pub text: String,
    pub timestamp: i64,
}

/// The abstract value of an entry: id, text, time.
pub type EntryView = (u64, Seq<char>, i64);

impl View for ClipboardEntry {
    type V = EntryView;

    open spec fn view(&self) -> EntryView {
        (self.id, self.text@, self.timestamp)
    }
}

impl Clone for ClipboardEntry {
    fn clone(&self) -> (r: Self)
        ensures
            r@ == self@,
    {
        ClipboardEntry { id: self.id, text: self.text.clone(), timestamp: self.timestamp }
    }
}

/// The views of a sequence of entries.
pub open spec fn entry_views(v: Seq<ClipboardEntry>) -> Seq<EntryView> {
    v.map_values(|e: ClipboardEntry| e@)
}

/// What `std::hash::DefaultHasher` gives for a string.
pub uninterp spec fn spec_text_hash(s: Seq<char>) -> u64;

/// Hashes a string with `DefaultHasher` as created by `new`/`default`, whose keys are
/// fixed, so that equal strings hash alike; the hash function itself is named by
/// `spec_text_hash` and not written out.
#[verifier::external_body]
pub(crate) fn text_hash(s: &str) -> (r: u64)
    ensures
        r == spec_text_hash(s@),
{
    std::hash::BuildHasher::hash_one(&std::hash::BuildHasherDefault::<std::collections::hash_map::DefaultHasher>::default(), s)
}

/// A point in time of the system clock, `std::time::SystemTime`.
#[verifier::external_type_specification]
#[verifier::external_body]
pub struct ExSystemTime(std::time::SystemTime);

/// Calls `SystemTime::now`. Nothing is promised of the value: it is the time.
#[verifier::external_body]
fn system_now() -> (r: std::time::SystemTime) {
    std::time::SystemTime::now()
}

/// Calls `SystemTime::duration_since` with the Unix epoch: the time since the epoch, or
/// `None` for a time before it. Nothing more is promised: the time is the clock's.
#[verifier::external_body]
fn since_unix_epoch(t: &std::time::SystemTime) -> (r: Option<core::time::Duration>) {
    t.duration_since(std::time::UNIX_EPOCH).ok()
}

/// Calls `Duration::as_secs`: the whole seconds of the duration.
#[verifier::external_body]
fn whole_seconds(d: &core::time::Duration) -> (r: u64) {
    d.as_secs()
}

/// The current time in whole seconds since the Unix epoch: zero for a clock before the
/// epoch, and taken as an `i64` (wrapping beyond its range).
pub(crate) fn now_secs() -> (r: i64) {
    let t = system_now();
    let secs: u64 = match since_unix_epoch(&t) {
        Some(d) => whole_seconds(&d),
        None => 0,
    };
    #[verifier::truncate]
    (secs as i64)
}

/// The abstract state of the history: entries (newest first), the next id to give, and
/// the hash of the text last seen on the clipboard.
pub struct ClipboardView {
    pub entries: Seq<EntryView>,
    pub next_id: u64,
    pub last_hash: u64,
}

/// Clipboard history.
pub struct ClipboardHistoryState {
    entries: Vec<ClipboardEntry>,
    next_id: u64,
    last_hash: u64,
}

/// The history holds at most `MAX_ENTRIES` entries, and every id in it is below the next
/// id to give.
pub open spec fn history_wf(v: ClipboardView) -> bool {
    &&& v.entries.len() <= MAX_ENTRIES
    &&& forall|i: int| 0 <= i < v.entries.len() ==> (#[trigger] v.entries[i]).0 < v.next_id
}

/// The largest id among the entries, or zero.
pub open spec fn max_id(es: Seq<EntryView>) -> u64
    decreases es.len(),
{
    if es.len() == 0 {
        0
    } else {
        let m = max_id(es.drop_last());
        if es.last().0 > m {
            es.last().0
        } else {
            m
        }
    }
}

/// The entries whose text contains the query, both in lower case, in order.
pub open spec fn matching_entries(es: Seq<EntryView>, lq: Seq<char>) -> Seq<EntryView>
    decreases es.len(),
{
    if es.len() == 0 {
        Seq::empty()
    } else {
        matching_entries(es.drop_last(), lq) + (if contains_spec(lower_case(es.last().1), lq) {
            seq![es.last()]
        } else {
            Seq::empty()
        })
    }
}

/// The entries whose id is not `id`, in order.
pub open spec fn without_id(es: Seq<EntryView>, id: u64) -> Seq<EntryView>
    decreases es.len(),
{
    if es.len() == 0 {
        Seq::empty()
    } else {
        without_id(es.drop_last(), id) + (if es.last().0 == id {
            Seq::empty()
        } else {
            seq![es.last()]
        })
    }
}

/// The text of the first entry with id `id`.
pub open spec fn text_of_spec(es: Seq<EntryView>, id: u64) -> Option<Seq<char>>
    decreases es.len(),
{
    if es.len() == 0 {
        None
    } else if es[0].0 == id {
        Some(es[0].1)
    } else {
        text_of_spec(es.drop_first(), id)
    }
}

/// The entries after recording `e`: it goes first, and the oldest beyond the limit go.
pub open spec fn add_spec(es: Seq<EntryView>, e: EntryView) -> Seq<EntryView> {
    let all = seq![e] + es;
    if all.len() > MAX_ENTRIES {
        all.take(MAX_ENTRIES as int)
    } else {
        all
    }
}

/// The monitor records a clipboard text: it is not empty, not longer than
/// `MAX_TEXT_BYTES` bytes, and its hash differs from that of the text last seen.
pub open spec fn records_spec(v: ClipboardView, text: Seq<char>) -> bool {
    &&& text.len() > 0
    &&& byte_len(text) <= MAX_TEXT_BYTES
    &&& spec_text_hash(text) != v.last_hash
}

impl View for ClipboardHistoryState {
    type V = ClipboardView;

    closed spec fn view(&self) -> ClipboardView {
        ClipboardView { entries: entry_views(self.entries@), next_id: self.next_id, last_hash: self.last_hash }
    }
}

fn clone_entries(v: &Vec<ClipboardEntry>) -> (r: Vec<ClipboardEntry>)
    ensures
        entry_views(r@) == entry_views(v@),
{
    let mut out: Vec<ClipboardEntry> = Vec::new();
    let mut i: usize = 0;
    while i < v.len()
        invariant
            i <= v@.len(),
            entry_views(out@) == entry_views(v@).take(i as int),
        decreases v@.len() - i,
    {
        let e = v[i].clone();
        let ghost prev = entry_views(out@);
        out.push(e);
        assert(entry_views(out@) =~= prev.push(v@[i as int]@));
        assert(entry_views(v@).take(i + 1) =~= entry_views(v@).take(i as int).push(v@[i as int]@));
        i = i + 1;
    }
    assert(entry_views(v@).take(v@.len() as int) =~= entry_views(v@));
    out
}

impl ClipboardHistoryState {
    #[verifier::type_invariant]
    spec fn inv(&self) -> bool {
        history_wf(self@)
    }

    /// An empty history whose first id will be 1.
    pub fn new() -> (s: Self)
        ensures
            s@ == (ClipboardView { entries: Seq::empty(), next_id: 1, last_hash: 0 }),
            history_wf(s@),
    {
        let s = ClipboardHistoryState { entries: Vec::new(), next_id: 1, last_hash: 0 };
        assert(s@.entries =~= Seq::<EntryView>::empty());
        s
    }

    /// A history continuing saved entries: the first `MAX_ENTRIES` are kept, the next id
    /// follows the largest kept id, and the newest text counts as last seen.
    pub fn from_entries(entries: Vec<ClipboardEntry>) -> (s: Self)
        requires
            max_id(entry_views(entries@).take(
                if entries@.len() > MAX_ENTRIES {
                    MAX_ENTRIES as int
                } else {
                    entries@.len() as int
                },
            )) < u64::MAX,
        ensures
            ({
                let kept = entry_views(entries@).take(
                    if entries@.len() > MAX_ENTRIES {
                        MAX_ENTRIES as int
                    } else {
                        entries@.len() as int
                    },
                );
                s@ == (ClipboardView {
                    entries: kept,
                    next_id: (max_id(kept) + 1) as u64,
                    last_hash: if kept.len() > 0 {
                        spec_text_hash(kept[0].1)
                    } else {
                        0
                    },
                })
            }),
            history_wf(s@),
    {
        let mut entries = entries;
        let ghost all = entry_views(entries@);
        entries.truncate(MAX_ENTRIES);
        let ghost kept = entry_views(entries@);
        assert(kept =~= all.take(
            if all.len() > MAX_ENTRIES {
                MAX_ENTRIES as int
            } else {
                all.len() as int
            },
        ));
        let mut m: u64 = 0;
        let mut i: usize = 0;
        while i < entries.len()
            invariant
                kept == entry_views(entries@),
                i <= entries@.len(),
                m == max_id(kept.take(i as int)),
                max_id(kept) < u64::MAX,
                forall|j: int| 0 <= j < i ==> kept[j].0 <= m,
            decreases entries@.len() - i,
        {
            assert(kept.take(i + 1).drop_last() =~= kept.take(i as int));
            assert(kept[i as int] == entries@[i as int]@);
            if entries[i].id > m {
                m = entries[i].id;
            }
            i = i + 1;
        }
        assert(kept.take(entries@.len() as int) =~= kept);
        let last_hash = if entries.len() > 0 {
            assert(kept[0] == entries@[0]@);
            text_hash(entries[0].text.as_str())
        } else {
            0
        };
        let s = ClipboardHistoryState { entries, next_id: m + 1, last_hash };
        proof {
            use_type_invariant(&s);
        }
        s
    }

    /// Records `text`, copied at `timestamp`, as the newest entry under the next id;
    /// the oldest entries beyond `MAX_ENTRIES` are dropped.
    pub fn add_at(&mut self, text: String, timestamp: i64)
        requires
            old(self)@.next_id < u64::MAX,
        ensures
            final(self)@ == (ClipboardView {
                entries: add_spec(old(self)@.entries, (old(self)@.next_id, text@, timestamp)),
                next_id: (old(self)@.next_id + 1) as u64,
                last_hash: old(self)@.last_hash,
            }),
            history_wf(final(self)@),
    {
        proof {
            use_type_invariant(&*self);
        }
        let ghost before = self@;
        let e = ClipboardEntry { id: self.next_id, text, timestamp };
        let mut entries = clone_entries(&self.entries);
        entries.insert(0, e);
        if entries.len() > MAX_ENTRIES {
            entries.truncate(MAX_ENTRIES);
        }
        let ghost ev = (before.next_id, text@, timestamp);
        assert(entry_views(entries@) =~= add_spec(before.entries, ev));
        let nid = self.next_id + 1;
        proof {
            let es = entry_views(entries@);
            assert forall|i: int| 0 <= i < es.len() implies (#[trigger] es[i]).0 < nid by {
                if i > 0 {
                    assert(es[i] == before.entries[i - 1]);
                }
            }
        }
        *self = ClipboardHistoryState { entries, next_id: nid, last_hash: self.last_hash };
        proof {
            use_type_invariant(&*self);
        }
    }

    /// Records `text` as copied now.
    pub fn add(&mut self, text: String)
        requires
            old(self)@.next_id < u64::MAX,
        ensures
            exists|t: i64|
                final(self)@ == (ClipboardView {
                    entries: add_spec(old(self)@.entries, (old(self)@.next_id, text@, t)),
                    next_id: (old(self)@.next_id + 1) as u64,
                    last_hash: old(self)@.last_hash,
                }),
            history_wf(final(self)@),
    {
        let t = now_secs();
        self.add_at(text, t);
    }

    /// The entries, newest first; with a non-empty query, those whose text contains it,
    /// letter case aside (both are compared in lower case).
    pub fn query(&self, q: Option<&str>) -> (r: Vec<ClipboardEntry>)
        ensures
            match q {
                Some(s) if s@.len() > 0 => entry_views(r@) == matching_entries(self@.entries, lower_case(s@)),
                _ => entry_views(r@) == self@.entries,
            },
    {
        match q {
            Some(s) => {
                if s.is_empty() {
                    return clone_entries(&self.entries);
                }
                let lc = to_lowercase(s);
                let ghost es = self@.entries;
                let mut out: Vec<ClipboardEntry> = Vec::new();
                let mut i: usize = 0;
                while i < self.entries.len()
                    invariant
                        es == entry_views(self.entries@),
                        i <= self.entries@.len(),
                        lc@ == lower_case(s@),
                        entry_views(out@) == matching_entries(es.take(i as int), lc@),
                    decreases self.entries@.len() - i,
                {
                    assert(es.take(i + 1).drop_last() =~= es.take(i as int));
                    assert(es.take(i + 1).last() == self.entries@[i as int]@);
                    let t = to_lowercase(self.entries[i].text.as_str());
                    let ghost prev = entry_views(out@);
                    if str_contains(t.as_str(), lc.as_str()) {
                        out.push(self.entries[i].clone());
                        assert(entry_views(out@) =~= prev + seq![self.entries@[i as int]@]);
                    } else {
                        assert(entry_views(out@) =~= prev + Seq::<EntryView>::empty());
                    }
                    i = i + 1;
                }
                assert(es.take(self.entries@.len() as int) =~= es);
                out
            },
            None => clone_entries(&self.entries),
        }
    }

    /// Removes every entry with id `id`.
    pub fn remove(&mut self, id: u64)
        ensures
            final(self)@ == (ClipboardView { entries: without_id(old(self)@.entries, id), ..old(self)@ }),
            history_wf(final(self)@),
    {
        proof {
            use_type_invariant(&*self);
        }
        let ghost before = self@;
        let ghost es = before.entries;
        let mut out: Vec<ClipboardEntry> = Vec::new();
        let mut i: usize = 0;
        while i < self.entries.len()
            invariant
                es == entry_views(self.entries@),
                i <= self.entries@.len(),
                entry_views(out@) == without_id(es.take(i as int), id),
                entry_views(out@).len() <= i,
                forall|j: int| 0 <= j < entry_views(out@).len() ==> exists|k: int| 0 <= k < i && #[trigger] entry_views(out@)[j] == es[k],
            decreases self.entries@.len() - i,
        {
            assert(es.take(i + 1).drop_last() =~= es.take(i as int));
            assert(es.take(i + 1).last() == self.entries@[i as int]@);
            let ghost prev = entry_views(out@);
            if self.entries[i].id != id {
                out.push(self.entries[i].clone());
                assert(entry_views(out@) =~= prev + seq![self.entries@[i as int]@]);
                proof {
                    let ov = entry_views(out@);
                    assert forall|j: int| 0 <= j < ov.len() implies exists|k: int| 0 <= k < i + 1 && #[trigger] ov[j] == es[k] by {
                        if j < prev.len() {
                            assert(ov[j] == prev[j]);
                        } else {
                            assert(ov[j] == es[i as int]);
                        }
                    }
                }
            } else {
                assert(entry_views(out@) =~= prev + Seq::<EntryView>::empty());
            }
            i = i + 1;
        }
        assert(es.take(self.entries@.len() as int) =~= es);
        proof {
            let ov = entry_views(out@);
            assert forall|j: int| 0 <= j < ov.len() implies (#[trigger] ov[j]).0 < before.next_id by {
                let k = choose|k: int| 0 <= k < es.len() && ov[j] == es[k];
                assert(es[k].0 < before.next_id);
            }
        }
        *self = ClipboardHistoryState { entries: out, next_id: self.next_id, last_hash: self.last_hash };
        proof {
            use_type_invariant(&*self);
        }
    }

    /// Removes every entry.
    pub fn clear(&mut self)
        ensures
            final(self)@ == (ClipboardView { entries: Seq::empty(), ..old(self)@ }),
            history_wf(final(self)@),
    {
        let s = ClipboardHistoryState { entries: Vec::new(), next_id: self.next_id, last_hash: self.last_hash };
        assert(s@.entries =~= Seq::<EntryView>::empty());
        *self = s;
        proof {
            use_type_invariant(&*self);
        }
    }

    /// The text of the entry with id `id`, if there is one.
    pub fn text_of(&self, id: u64) -> (r: Option<String>)
        ensures
            match r {
                Some(t) => text_of_spec(self@.entries, id) == Some(t@),
                None => text_of_spec(self@.entries, id) is None,
            },
    {
        let ghost es = self@.entries;
        let mut i: usize = 0;
        assert(es.subrange(0, es.len() as int) =~= es);
        while i < self.entries.len()
            invariant
                es == entry_views(self.entries@),
                i <= self.entries@.len(),
                text_of_spec(es, id) == text_of_spec(es.subrange(i as int, es.len() as int), id),
            decreases self.entries@.len() - i,
        {
            let ghost rest = es.subrange(i as int, es.len() as int);
            assert(rest[0] == self.entries@[i as int]@);
            assert(rest.drop_first() =~= es.subrange(i + 1, es.len() as int));
            if self.entries[i].id == id {
                return Some(self.entries[i].text.clone());
            }
            i = i + 1;
        }
        assert(es.subrange(i as int, es.len() as int) =~= Seq::<EntryView>::empty());
        None
    }

    /// The id the next recorded text gets.
    pub fn next_id(&self) -> (r: u64)
        ensures
            r == self@.next_id,
    {
        self.next_id
    }

    /// The hash of the text last seen on the clipboard.
    pub fn last_hash(&self) -> (r: u64)
        ensures
            r == self@.last_hash,
    {
        self.last_hash
    }

    /// Notes `text` as the text now on the clipboard (after the widget copied it there),
    /// so that the monitor does not record it again.
    pub fn note_clipboard_text(&mut self, text: &str)
        ensures
            final(self)@ == (ClipboardView { last_hash: spec_text_hash(text@), ..old(self)@ }),
            history_wf(final(self)@),
    {
        proof {
            use_type_invariant(&*self);
        }
        let h = text_hash(text);
        self.last_hash = h;
        proof {
            use_type_invariant(&*self);
        }
    }

    /// What the monitor does with the text it finds on the clipboard, copied at
    /// `timestamp`: when it records it (see `records_spec`) the text is added and its
    /// hash becomes the last seen; otherwise nothing changes. Returns whether it was
    /// recorded.
    pub fn observe_at(&mut self, text: String, timestamp: i64) -> (recorded: bool)
        requires
            old(self)@.next_id < u64::MAX,
        ensures
            recorded == records_spec(old(self)@, text@),
            recorded ==> final(self)@ == (ClipboardView {
                entries: add_spec(old(self)@.entries, (old(self)@.next_id, text@, timestamp)),
                next_id: (old(self)@.next_id + 1) as u64,
                last_hash: spec_text_hash(text@),
            }),
            !recorded ==> final(self)@ == old(self)@,
            history_wf(final(self)@),
    {
        proof {
            use_type_invariant(&*self);
        }
        if text.as_str().is_empty() {
            return false;
        }
        let cs = chars_of(text.as_str());
        if byte_len_exceeds(cs.as_slice(), MAX_TEXT_BYTES) {
            return false;
        }
        let hash = text_hash(text.as_str());
        if hash == self.last_hash {
            return false;
        }
        proof {
            use_type_invariant(&*self);
        }
        self.last_hash = hash;
        self.add_at(text, timestamp);
        true
    }

    /// What the monitor does with the text it finds on the clipboard now.
    pub fn observe(&mut self, text: String) -> (recorded: bool)
        requires
            old(self)@.next_id < u64::MAX,
        ensures
            recorded == records_spec(old(self)@, text@),
            recorded ==> exists|t: i64|
                final(self)@ == (ClipboardView {
                    entries: add_spec(old(self)@.entries, (old(self)@.next_id, text@, t)),
                    next_id: (old(self)@.next_id + 1) as u64,
                    last_hash: spec_text_hash(text@),
                }),
            !recorded ==> final(self)@ == old(self)@,
            history_wf(final(self)@),
    {
        let t = now_secs();
        self.observe_at(text, t)
    }
}

/// A text just recorded is what the history gives for the id it was recorded under.
pub proof fn law_added_text_found(v: ClipboardView, text: Seq<char>, t: i64)
    ensures
        text_of_spec(add_spec(v.entries, (v.next_id, text, t)), v.next_id) == Some(text),
{
    let all = seq![(v.next_id, text, t)] + v.entries;
    if all.len() > MAX_ENTRIES {
        assert(all.take(MAX_ENTRIES as int)[0] == all[0]);
    }
}

/// A recorded text gets an id no other entry has.
pub proof fn law_new_id_unique(v: ClipboardView, text: Seq<char>, t: i64)
    requires
        history_wf(v),
    ensures
        forall|i: int|
            0 < i < add_spec(v.entries, (v.next_id, text, t)).len()
                ==> (#[trigger] add_spec(v.entries, (v.next_id, text, t))[i]).0 != v.next_id,
{
    let es = add_spec(v.entries, (v.next_id, text, t));
    assert forall|i: int| 0 < i < es.len() implies (#[trigger] es[i]).0 != v.next_id by {
        assert(es[i] == v.entries[i - 1]);
    }
}

/// After an id is removed no entry has it.
pub proof fn law_removed_id_gone(es: Seq<EntryView>, id: u64)
    ensures
        text_of_spec(without_id(es, id), id) is None,
        forall|i: int| 0 <= i < without_id(es, id).len() ==> (#[trigger] without_id(es, id)[i]).0 != id,
    decreases es.len(),
{
    if es.len() > 0 {
        law_removed_id_gone(es.drop_last(), id);
        let w = without_id(es.drop_last(), id);
        if es.last().0 != id {
            lemma_text_of_append_other(w, es.last(), id);
        } else {
            assert(without_id(es, id) =~= w);
        }
    }
}

proof fn lemma_text_of_append_other(w: Seq<EntryView>, e: EntryView, id: u64)
    requires
        text_of_spec(w, id) is None,
        e.0 != id,
    ensures
        text_of_spec(w + seq![e], id) is None,
    decreases w.len(),
{
    let we = w + seq![e];
    if w.len() > 0 {
        assert(we[0] == w[0]);
        assert(w[0].0 != id);
        assert(we.drop_first() =~= w.drop_first() + seq![e]);
        lemma_text_of_append_other(w.drop_first(), e, id);
        assert(text_of_spec(we, id) == text_of_spec(we.drop_first(), id));
    } else {
        assert((w + seq![e])[0] == e);
        assert((w + seq![e]).drop_first() =~= Seq::<EntryView>::empty());
    }
}

/// The monitor records a text at most once in a row: right after it was recorded, the
/// same text is not recorded again.
pub proof fn law_observe_once(v: ClipboardView, text: Seq<char>, t: i64)
    requires
        records_spec(v, text),
    ensures
        !records_spec(
            ClipboardView {
                entries: add_spec(v.entries, (v.next_id, text, t)),
                next_id: (v.next_id + 1) as u64,
                last_hash: spec_text_hash(text),
            },
            text,
        ),
{
}

} // verus!
