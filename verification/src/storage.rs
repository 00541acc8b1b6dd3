//! Transcript and settings persistence: the index of saved
//! transcripts, the file paths everything is stored under, and the
//! identifiers and timestamps new entries are given.
//!
//! The reading and writing of the files themselves is I/O that the
//! application layer performs; what is decided here — which paths,
//! how the index changes on a save or a delete, and the
//! newest-first order of the history — is verified.

use vstd::prelude::*;

use vstd::multiset::Multiset;

use crate::models::HistoryItem;
use crate::models::HistoryItemModel;
use crate::models::StoredTranscript;
use crate::models::StoredTranscriptModel;

verus! {

// ------------------------------------------------------------------
// Ordering dates
// ------------------------------------------------------------------

/// Lexicographic order on text, character by character.  Timestamps
/// are written so that this order is chronological.
pub open spec fn lex_le(a: Seq<char>, b: Seq<char>) -> bool
    decreases a.len(),
{
    if a.len() == 0 {
        true
    } else if b.len() == 0 {
        false
    } else if a[0] != b[0] {
        (a[0] as int) < (b[0] as int)
    } else {
        lex_le(a.subrange(1, a.len() as int), b.subrange(1, b.len() as int))
    }
}

/// The order is total: of two texts, one comes no later than the
/// other.
pub proof fn lemma_lex_le_total(a: Seq<char>, b: Seq<char>)
    ensures
        lex_le(a, b) || lex_le(b, a),
    decreases a.len(),
{
    if a.len() != 0 && b.len() != 0 && a[0] == b[0] {
        lemma_lex_le_total(a.subrange(1, a.len() as int), b.subrange(1, b.len() as int));
    }
}

/// The order is transitive.
pub proof fn lemma_lex_le_trans(a: Seq<char>, b: Seq<char>, c: Seq<char>)
    requires
        lex_le(a, b),
        lex_le(b, c),
    ensures
        lex_le(a, c),
    decreases a.len(),
{
    if a.len() != 0 && b.len() != 0 && c.len() != 0 && a[0] == b[0] && b[0] == c[0] {
        lemma_lex_le_trans(
            a.subrange(1, a.len() as int),
            b.subrange(1, b.len() as int),
            c.subrange(1, c.len() as int),
        );
    }
}

/// The order is reflexive.
pub proof fn lemma_lex_le_refl(a: Seq<char>)
    ensures
        lex_le(a, a),
    decreases a.len(),
{
    if a.len() != 0 {
        lemma_lex_le_refl(a.subrange(1, a.len() as int));
    }
}

/// Compare two texts lexicographically.
pub fn str_le(a: &str, b: &str) -> (r: bool)
    ensures
        r == lex_le(a@, b@),
{
    let na = a.unicode_len();
    let nb = b.unicode_len();
    let mut i: usize = 0;
    proof {
        assert(a@.subrange(0, na as int) =~= a@);
        assert(b@.subrange(0, nb as int) =~= b@);
    }
    loop
        invariant
            i <= na,
            i <= nb,
            na == a@.len(),
            nb == b@.len(),
            lex_le(a@, b@) == lex_le(
                a@.subrange(i as int, na as int),
                b@.subrange(i as int, nb as int),
            ),
        decreases na - i,
    {
        let ghost ra = a@.subrange(i as int, na as int);
        let ghost rb = b@.subrange(i as int, nb as int);
        if i == na {
            assert(ra.len() == 0);
            return true;
        }
        if i == nb {
            assert(rb.len() == 0 && ra.len() != 0);
            return false;
        }
        let ca = a.get_char(i);
        let cb = b.get_char(i);
        assert(ra[0] == ca && rb[0] == cb);
        if ca != cb {
            return ca < cb;
        }
        proof {
            assert(lex_le(ra, rb) == lex_le(
                ra.subrange(1, ra.len() as int),
                rb.subrange(1, rb.len() as int),
            ));
            assert(ra.subrange(1, ra.len() as int) =~= a@.subrange(i + 1, na as int));
            assert(rb.subrange(1, rb.len() as int) =~= b@.subrange(i + 1, nb as int));
        }
        i += 1;
    }
}

// ------------------------------------------------------------------
// The transcript index
// ------------------------------------------------------------------

/// Keeping every line except those with the given id.
pub open spec fn keeps_other(id: Seq<char>) -> spec_fn(HistoryItemModel) -> bool {
    |h: HistoryItemModel| h.id != id
}

/// The views of a row of history items.
pub open spec fn items_view(items: Seq<HistoryItem>) -> Seq<HistoryItemModel> {
    items.map_values(|h: HistoryItem| h@)
}

/// Newest first: dates never increase along the row.
pub open spec fn sorted_desc(items: Seq<HistoryItemModel>) -> bool {
    forall|i: int, j: int| 0 <= i < j < items.len() ==> lex_le(items[j].date, items[i].date)
}

/// The history line a stored transcript is summarized as.
pub open spec fn spec_history_item(t: StoredTranscriptModel) -> HistoryItemModel {
    HistoryItemModel {
        id: t.id,
        file_name: t.file_name,
        file_path: t.file_path,
        date: t.created_at,
        duration_ms: t.duration_ms,
        language: t.language,
    }
}

/// Summarize a stored transcript as its history line.
pub fn history_item_of(t: &StoredTranscript) -> (r: HistoryItem)
    ensures
        r@ == spec_history_item(t@),
{
    HistoryItem {
        id: t.id.clone(),
        file_name: t.file_name.clone(),
        file_path: t.file_path.clone(),
        date: t.created_at.clone(),
        duration_ms: t.duration_ms,
        language: t.language.clone(),
    }
}

/// Copy one history line.
fn copy_item(h: &HistoryItem) -> (r: HistoryItem)
    ensures
        r@ == h@,
{
    HistoryItem {
        id: h.id.clone(),
        file_name: h.file_name.clone(),
        file_path: h.file_path.clone(),
        date: h.date.clone(),
        duration_ms: h.duration_ms,
        language: h.language.clone(),
    }
}

/// Index of all stored transcripts, newest first.
#[derive(Clone, PartialEq, Debug)]
pub struct TranscriptIndex {
    pub items: Vec<HistoryItem>,
}

impl Default for TranscriptIndex {
    /// An empty index.
    fn default() -> (r: TranscriptIndex)
        ensures
            r.items@.len() == 0,
    {
        TranscriptIndex { items: Vec::new() }
    }
}

impl TranscriptIndex {
    /// Drop every line carrying `id`, keeping the order of the rest.
    pub fn remove_id(&mut self, id: &String)
        ensures
            items_view(final(self).items@) == items_view(old(self).items@).filter(
                keeps_other(id@),
            ),
    {
        let ghost items0 = self.items@;

        let mut out: Vec<HistoryItem> = Vec::new();
        let mut k: usize = 0;
        proof {
            reveal(Seq::filter);
            assert(items_view(items0.subrange(0, 0)) =~= Seq::<HistoryItemModel>::empty());
            assert(items_view(out@) =~= items_view(items0.subrange(0, 0)).filter(keeps_other(id@)));
        }
        while k < self.items.len()
            invariant
                k <= self.items@.len(),
                self.items@ == items0,
                items_view(out@) == items_view(items0.subrange(0, k as int)).filter(keeps_other(id@)),
            decreases self.items@.len() - k,
        {
            let ghost pre_out = out@;
            let ghost prefix1 = items_view(items0.subrange(0, k + 1));
            proof {
                reveal(Seq::filter);
                assert(prefix1.drop_last() =~= items_view(items0.subrange(0, k as int)));
                assert(prefix1.last() == items0[k as int]@);
            }
            if !self.items[k].id.eq(id) {
                let copied = copy_item(&self.items[k]);
                out.push(copied);
                proof {
                    reveal(Seq::filter);
                    assert(items0[k as int]@.id != id@);
                    assert(keeps_other(id@)(prefix1.last()) == (prefix1.last().id != id@));
                    assert(keeps_other(id@)(prefix1.last()));
                    assert(items_view(out@) =~= items_view(pre_out).push(items0[k as int]@));
                    assert(items_view(out@) =~= prefix1.filter(keeps_other(id@)));
                }
            } else {
                proof {
                    reveal(Seq::filter);
                    assert(items0[k as int]@.id == id@);
                    assert(keeps_other(id@)(prefix1.last()) == (prefix1.last().id != id@));
                    assert(!keeps_other(id@)(prefix1.last()));
                    assert(items_view(out@) =~= prefix1.filter(keeps_other(id@)));
                }
            }
            k += 1;
        }
        proof {
            assert(items0.subrange(0, items0.len() as int) =~= items0);
        }
        self.items = out;
    }

    /// Record a saved transcript: any earlier line with its id gives
    /// way, its new line joins, and the history is ordered newest
    /// first again.  Lines sharing one date keep no particular order
    /// among themselves; timestamps make that a tie that does not
    /// occur in practice.
    pub fn apply_save(&mut self, transcript: &StoredTranscript)
        ensures
            items_view(final(self).items@).to_multiset() == items_view(old(self).items@).filter(
                keeps_other(transcript@.id),
            ).push(spec_history_item(transcript@)).to_multiset(),
            sorted_desc(items_view(final(self).items@)),
    {
        broadcast use vstd::seq_lib::group_to_multiset_ensures;

        self.remove_id(&transcript.id);
        let ghost filtered = items_view(self.items@);
        let item = history_item_of(transcript);
        self.items.push(item);
        proof {
            assert(items_view(self.items@) =~= filtered.push(spec_history_item(transcript@)));
        }
        sort_items_by_date(&mut self.items);
    }
}

/// Index of a line whose date no other line exceeds.
fn find_newest(items: &Vec<HistoryItem>) -> (r: usize)
    requires
        items@.len() > 0,
    ensures
        r < items@.len(),
        forall|q: int|
            0 <= q < items@.len() ==> lex_le(#[trigger] items@[q]@.date, items@[r as int]@.date),
{
    let mut best: usize = 0;
    let mut k: usize = 1;
    proof {
        lemma_lex_le_refl(items@[0]@.date);
    }
    while k < items.len()
        invariant
            best < k <= items@.len(),
            forall|q: int| 0 <= q < k ==> lex_le(#[trigger] items@[q]@.date, items@[best as int]@.date),
        decreases items@.len() - k,
    {
        if !str_le(items[k].date.as_str(), items[best].date.as_str()) {
            proof {
                lemma_lex_le_total(items@[k as int]@.date, items@[best as int]@.date);
                assert forall|q: int| 0 <= q < k implies lex_le(
                    #[trigger] items@[q]@.date,
                    items@[k as int]@.date,
                ) by {
                    lemma_lex_le_trans(
                        items@[q]@.date,
                        items@[best as int]@.date,
                        items@[k as int]@.date,
                    );
                }
            }
            proof {
                lemma_lex_le_refl(items@[k as int]@.date);
            }
            best = k;
        } else {
            proof {
                assert(lex_le(items@[k as int]@.date, items@[best as int]@.date));
            }
        }
        k += 1;
    }
    best
}

/// Order history lines newest first, keeping exactly the same lines.
fn sort_items_by_date(items: &mut Vec<HistoryItem>)
    ensures
        items_view(final(items)@).to_multiset() == items_view(old(items)@).to_multiset(),
        sorted_desc(items_view(final(items)@)),
{
    broadcast use vstd::seq_lib::group_to_multiset_ensures;

    let ghost orig = items@;
    let mut out: Vec<HistoryItem> = Vec::new();
    proof {
        assert(items_view(out@) =~= Seq::<HistoryItemModel>::empty());
        assert(items_view(out@).to_multiset().add(items_view(items@).to_multiset())
            =~= items_view(orig).to_multiset());
    }
    while items.len() > 0
        invariant
            items_view(out@).to_multiset().add(items_view(items@).to_multiset()) == items_view(
                orig,
            ).to_multiset(),
            sorted_desc(items_view(out@)),
            forall|p: int, q: int|
                0 <= p < out@.len() && 0 <= q < items@.len() ==> lex_le(
                    #[trigger] items@[q]@.date,
                    #[trigger] out@[p]@.date,
                ),
        decreases items@.len(),
    {
        let ghost pre_out = out@;
        let ghost pre_items = items@;
        let idx = find_newest(items);
        let x = items.remove(idx);
        out.push(x);
        proof {
            items_view(pre_items).to_multiset_ensures();
            items_view(pre_out).to_multiset_ensures();
            assert(items_view(pre_items).remove(idx as int) =~= items_view(items@));
            assert(items_view(pre_items)[idx as int] == x@);
            assert(items_view(pre_items).remove(idx as int).to_multiset() =~= items_view(
                pre_items,
            ).to_multiset().remove(items_view(pre_items)[idx as int]));
            assert(items_view(items@).to_multiset() =~= items_view(pre_items).to_multiset().remove(
                x@,
            ));
            assert(items_view(out@) =~= items_view(pre_out).push(x@));
            assert(items_view(pre_out).push(x@).to_multiset() =~= items_view(
                pre_out,
            ).to_multiset().insert(x@));
            assert(items_view(out@).to_multiset() =~= items_view(pre_out).to_multiset().insert(x@));
            assert(items_view(pre_items).to_multiset().count(x@) > 0);
            assert(items_view(out@).to_multiset().add(items_view(items@).to_multiset())
                =~= items_view(pre_out).to_multiset().add(items_view(pre_items).to_multiset()));
            assert forall|p: int, q: int|
                0 <= p < out@.len() && 0 <= q < items@.len() implies lex_le(
                #[trigger] items@[q]@.date,
                #[trigger] out@[p]@.date,
            ) by {
                let q2 = if q < idx {
                    q
                } else {
                    q + 1
                };
                assert(items@[q] == pre_items[q2]);
                if p < pre_out.len() {
                    assert(out@[p] == pre_out[p]);
                } else {
                    assert(out@[p] == x);
                    assert(lex_le(pre_items[q2]@.date, x@.date));
                }
            }
            assert forall|p: int, q: int|
                0 <= p < q < out@.len() implies lex_le(out@[q]@.date, out@[p]@.date) by {
                if q == out@.len() - 1 {
                    assert(out@[q] == x);
                    assert(out@[p] == pre_out[p]);
                    assert(items_view(pre_items)[idx as int] == pre_items[idx as int]@);
                    assert(items_view(pre_out)[p] == pre_out[p]@);
                    assert(lex_le(items_view(pre_items)[idx as int].date, items_view(pre_out)[p].date));
                } else {
                    assert(out@[p] == pre_out[p] && out@[q] == pre_out[q]);
                    assert(items_view(pre_out)[p] == pre_out[p]@);
                    assert(items_view(pre_out)[q] == pre_out[q]@);
                    assert(lex_le(items_view(pre_out)[q].date, items_view(pre_out)[p].date));
                }
            }
        }
    }
    proof {
        assert(items_view(items@) =~= Seq::<HistoryItemModel>::empty());
        assert(items_view(out@).to_multiset().add(Multiset::<HistoryItemModel>::empty())
            =~= items_view(out@).to_multiset());
        assert(items_view(items@).to_multiset() =~= Multiset::<HistoryItemModel>::empty());
    }
    *items = out;
}

// ------------------------------------------------------------------
// The storage manager
// ------------------------------------------------------------------

/// Knows where everything is stored, under one base directory.
pub struct StorageManager {
    storage_dir: String,
}

impl StorageManager {
    /// The base directory all paths are built under.
    pub closed spec fn dir(&self) -> Seq<char> {
        self.storage_dir@
    }

    /// A manager storing under the given base directory.
    pub fn new(storage_dir: String) -> (r: StorageManager)
        ensures
            r.dir() == storage_dir@,
    {
        StorageManager { storage_dir }
    }

    /// The path of the transcript index file.
    pub fn index_path(&self) -> (r: String)
        ensures
            r@ == self.dir() + "/transcript_index.json"@,
    {
        let mut p = self.storage_dir.clone();
        p.append("/transcript_index.json");
        p
    }

    /// The path of the settings file.
    pub fn settings_path(&self) -> (r: String)
        ensures
            r@ == self.dir() + "/settings.json"@,
    {
        let mut p = self.storage_dir.clone();
        p.append("/settings.json");
        p
    }

    /// The path a transcript with the given id is stored under.
    pub fn transcript_path(&self, id: &str) -> (r: String)
        ensures
            r@ == self.dir() + "/transcripts/"@ + id@ + ".json"@,
    {
        let mut p = self.storage_dir.clone();
        p.append("/transcripts/");
        p.append(id);
        p.append(".json");
        p
    }
}

/// A storage manager under the platform's data directory, which the
/// caller resolves and hands in; without one, storage is unusable and
/// the failure is reported as text.
pub fn get_storage_manager(storage_dir: Option<String>) -> (r: Result<StorageManager, String>)
    ensures
        (match storage_dir {
            Some(d) => r matches Ok(m) && m.dir() == d@,
            None => r matches Err(e) && e@ == "Storage error: "@
                + "Cannot determine base directories"@,
        }),
{
    match storage_dir {
        Some(d) => Ok(StorageManager::new(d)),
        None => {
            let mut e = String::from_str("Storage error: ");
            e.append("Cannot determine base directories");
            Err(e)
        },
    }
}

/// A fresh unique identifier for a stored transcript, as text.
///
/// Relies on `uuid::Uuid::new_v4` and its `Display` rendering: the
/// hyphenated form of a version-4 UUID, 36 characters long.
#[verifier::external_body]
pub fn generate_id() -> (r: String)
    ensures
        r@.len() == 36,
{
    uuid::Uuid::new_v4().to_string()
}

/// The current time as RFC 3339 text.
///
/// Relies on `chrono::Utc::now` and `DateTime::to_rfc3339`.  The value
/// depends on the clock, so nothing is promised about it.
#[verifier::external_body]
pub fn current_timestamp() -> String {
    chrono::Utc::now().to_rfc3339()
}

} // verus!
