//! The store itself: the records table and the history log, kept in memory,
//! with the write path, history listing, revert, rename and delete.
use vstd::prelude::*;
use crate::codec::{decode_snapshot, encode_snapshot, new_jet_id, snapshot_parse};
use crate::detect::{bodies_same, headers_same};
use crate::ledger::{
    StoreView, deleted, entry_index, history_for, index_of, lemma_entry_index, lemma_index_of,
    lemma_push_next, lemma_remove, lemma_upsert, lemma_version_count_bound, renamed, restored, reverted, saved,
    store_wf, unchanged, upsert, version_count,
};
use crate::model::{EntryView, HistoryEntry, Jet, JetView, StoreError, opt_view, strings_view};

verus! {

/// The records table and the append-only history log.
pub struct Store {
    records: Vec<Jet>,
    history: Vec<HistoryEntry>,
}

impl View for Store {
    type V = StoreView;

    closed spec fn view(&self) -> StoreView {
        StoreView {
            records: self.records@.map_values(|j: Jet| j@),
            history: self.history@.map_values(|e: HistoryEntry| e@),
        }
    }
}

impl Store {
    pub open spec fn wf(&self) -> bool {
        store_wf(self@)
    }

    /// An empty store.
    pub fn new() -> (r: Store)
        ensures
            r.wf(),
            r@.records.len() == 0,
            r@.history.len() == 0,
    {
        let r = Store { records: Vec::new(), history: Vec::new() };
        assert(r@.records =~= Seq::<JetView>::empty());
        assert(r@.history =~= Seq::<EntryView>::empty());
        r
    }

    /// Restores the record `id` to the snapshot of its history entry at
    /// `version`, writing the record back if it was deleted. Adds no history.
    pub fn revert_jet_to_version(&mut self, id: &String, version: u64) -> (r: Result<(), StoreError>)
        requires
            old(self).wf(),
        ensures
            final(self).wf(),
            ({
                let k = entry_index(old(self)@.history, id@, version as nat);
                if k < 0 {
                    r == Err::<(), StoreError>(StoreError::NotFound) && final(self)@ == old(self)@
                } else {
                    match snapshot_parse(old(self)@.history[k].data) {
                        Some(f) => r is Ok && final(self)@ == reverted(old(self)@, id@, f),
                        None => r == Err::<(), StoreError>(StoreError::Serialization) && final(self)@
                            == old(self)@,
                    }
                }
            }),
    {
        let ghost s = self@;
        proof {
            lemma_entry_index(s.history, id@, version as nat);
        }
        let k = match self.find_entry(id, version) {
            Some(k) => k,
            None => return Err(StoreError::NotFound),
        };
        let mut jet = match decode_snapshot(&self.history[k].data) {
            Some(j) => j,
            None => return Err(StoreError::Serialization),
        };
        jet.id = id.clone();
        let ghost f = snapshot_parse(s.history[k as int].data)->Some_0;
        assert(jet@ == restored(id@, f));
        proof {
            lemma_index_of(s.records, id@);
            lemma_upsert(s.records, jet@);
        }
        match self.find(id) {
            Some(i) => {
                self.records.set(i, jet);
            },
            None => {
                self.records.push(jet);
            },
        }
        assert(self@.records =~= upsert(s.records, restored(id@, f)));
        assert(self@ == reverted(s, id@, f));
        Ok(())
    }

    /// Adds a record read back from storage; refused, leaving the store as it
    /// was, when a record with its id is already present.
    pub fn restore_jet(&mut self, jet: Jet) -> (added: bool)
        requires
            old(self).wf(),
        ensures
            final(self).wf(),
            added == (index_of(old(self)@.records, jet@.id) < 0),
            added ==> final(self)@.records == old(self)@.records.push(jet@),
            final(self)@.history == old(self)@.history,
            !added ==> final(self)@ == old(self)@,
    {
        let ghost s = self@;
        proof {
            lemma_index_of(s.records, jet@.id);
            lemma_upsert(s.records, jet@);
        }
        match self.find(&jet.id) {
            Some(_) => false,
            None => {
                let ghost j = jet@;
                self.records.push(jet);
                assert(self@.records =~= s.records.push(j));
                true
            },
        }
    }

    /// Appends a history entry read back from storage, oldest first; refused,
    /// leaving the store as it was, unless its version is the next one of its
    /// jet.
    pub fn restore_entry(&mut self, entry: HistoryEntry) -> (added: bool)
        requires
            old(self).wf(),
        ensures
            final(self).wf(),
            added == (entry.version == version_count(old(self)@.history, entry@.jet_id) + 1),
            added ==> final(self)@.history == old(self)@.history.push(entry@),
            final(self)@.records == old(self)@.records,
            !added ==> final(self)@ == old(self)@,
    {
        let ghost s = self@;
        let n = self.latest_version(&entry.jet_id);
        if entry.version == 0 || entry.version - 1 != n {
            return false;
        }
        let ghost e = entry@;
        self.history.push(entry);
        assert(self@.history =~= s.history.push(e));
        proof {
            let h2 = s.history.push(e);
            assert forall|k: int| 0 <= k < h2.len() implies (#[trigger] h2[k]).version == version_count(
                h2.take(k),
                h2[k].jet_id,
            ) + 1 by {
                if k < s.history.len() {
                    assert(h2.take(k) =~= s.history.take(k));
                } else {
                    assert(h2.take(k) =~= s.history);
                }
            }
        }
        true
    }

    /// The position of the record `id`.
    fn find(&self, id: &String) -> (r: Option<usize>)
        ensures
            match r {
                Some(i) => i == index_of(self@.records, id@),
                None => index_of(self@.records, id@) < 0,
            },
    {
        let ghost recs = self@.records;
        let mut i: usize = self.records.len();
        assert(recs.take(i as int) =~= recs);
        while i > 0
            invariant
                i <= self.records.len(),
                recs == self@.records,
                index_of(recs, id@) == index_of(recs.take(i as int), id@),
            decreases i,
        {
            assert(recs.take(i as int).drop_last() =~= recs.take(i - 1));
            if self.records[i - 1].id == *id {
                return Some(i - 1);
            }
            i = i - 1;
        }
        None
    }

    /// The position of the history entry of `id` at `version`.
    fn find_entry(&self, id: &String, version: u64) -> (r: Option<usize>)
        ensures
            match r {
                Some(k) => k == entry_index(self@.history, id@, version as nat),
                None => entry_index(self@.history, id@, version as nat) < 0,
            },
    {
        let ghost h = self@.history;
        let mut i: usize = self.history.len();
        assert(h.take(i as int) =~= h);
        while i > 0
            invariant
                i <= self.history.len(),
                h == self@.history,
                entry_index(h, id@, version as nat) == entry_index(h.take(i as int), id@, version as nat),
            decreases i,
        {
            assert(h.take(i as int).drop_last() =~= h.take(i - 1));
            if self.history[i - 1].jet_id == *id && self.history[i - 1].version == version {
                return Some(i - 1);
            }
            i = i - 1;
        }
        None
    }

    /// How many history entries `id` has: its latest version, 0 for none.
    pub fn latest_version(&self, id: &String) -> (r: u64)
        ensures
            r == version_count(self@.history, id@),
    {
        let ghost h = self@.history;
        let mut n: u64 = 0;
        let mut i: usize = 0;
        while i < self.history.len()
            invariant
                i <= self.history.len(),
                h == self@.history,
                n == version_count(h.take(i as int), id@),
            decreases self.history.len() - i,
        {
            assert(h.take(i + 1).drop_last() =~= h.take(i as int));
            proof {
                lemma_version_count_bound(h.take(i as int), id@);
            }
            if self.history[i].jet_id == *id {
                n = n + 1;
            }
            i = i + 1;
        }
        assert(h.take(i as int) =~= h);
        n
    }

    /// Saves `jet` through the deduplicating write path. When a record with its
    /// id exists and headers and body are the same as stored, only the record
    /// is updated; otherwise the next version of the jet is appended to the
    /// history, stamped `now`, and the record is written or added. Returns
    /// whether a history entry was appended.
    pub fn save_jet_history(&mut self, jet: Jet, now: String) -> (appended: bool)
        requires
            old(self).wf(),
            old(self)@.history.len() < u64::MAX,
        ensures
            final(self).wf(),
            final(self)@ == saved(old(self)@, jet@, now@),
            appended == !unchanged(old(self)@.records, jet@),
    {
        let ghost s = self@;
        let ghost j = jet@;
        let idx = self.find(&jet.id);
        proof {
            lemma_index_of(s.records, j.id);
        }
        let same = match idx {
            Some(i) => headers_same(&self.records[i].headers, &jet.headers) && bodies_same(
                &self.records[i].body,
                &jet.body,
            ),
            None => false,
        };
        proof {
            lemma_version_count_bound(s.history, j.id);
            lemma_upsert(s.records, j);
        }
        assert(same == unchanged(s.records, j));
        if !same {
            let version = self.latest_version(&jet.id) + 1;
            let data = encode_snapshot(&jet);
            let entry = HistoryEntry { jet_id: jet.id.clone(), version, data, timestamp: now };
            self.history.push(entry);
            proof {
                lemma_push_next(s.history, j, now@);
            }
        }
        assert(self@.history == saved(s, j, now@).history);
        match idx {
            Some(i) => {
                self.records.set(i, jet);
            },
            None => {
                self.records.push(jet);
            },
        }
        assert(self@.records =~= upsert(s.records, j));
        !same
    }

    /// Creates a jet with a fresh random id and no name, and saves it through
    /// the write path. Returns the new id.
    pub fn create_jet(
        &mut self,
        method: String,
        url: String,
        headers: Vec<String>,
        body: Option<String>,
        now: String,
    ) -> (id: String)
        requires
            old(self).wf(),
            old(self)@.history.len() < u64::MAX,
        ensures
            final(self).wf(),
            final(self)@ == saved(
                old(self)@,
                JetView {
                    id: id@,
                    name: None,
                    method: method@,
                    url: url@,
                    headers: strings_view(headers@),
                    body: opt_view(body),
                },
                now@,
            ),
    {
        let id = new_jet_id();
        let jet = Jet { id: id.clone(), name: None, method, url, headers, body };
        self.save_jet_history(jet, now);
        id
    }

    /// How many entries the history log holds, over all jets.
    pub fn history_len(&self) -> (r: usize)
        ensures
            r == self@.history.len(),
    {
        self.history.len()
    }

    /// Every current record, each exactly once, in no promised order.
    pub fn load_jets(&self) -> (r: &Vec<Jet>)
        ensures
            r@.map_values(|j: Jet| j@) == self@.records,
    {
        &self.records
    }

    /// Removes the record `id` if there is one. Its history stays.
    pub fn delete_jet(&mut self, id: &String)
        requires
            old(self).wf(),
        ensures
            final(self).wf(),
            final(self)@ == deleted(old(self)@, id@),
            forall|x: Seq<char>| history_for(final(self)@.history, x) == history_for(old(self)@.history, x),
    {
        let ghost s = self@;
        proof {
            lemma_index_of(s.records, id@);
        }
        match self.find(id) {
            Some(i) => {
                self.records.remove(i);
                proof {
                    lemma_remove(s.records, id@);
                }
                assert(self@.records =~= s.records.remove(i as int));
            },
            None => {},
        }
    }

    /// Gives the record `id` a new name, leaving history alone.
    pub fn rename_jet(&mut self, id: &String, new_name: String) -> (r: Result<(), StoreError>)
        requires
            old(self).wf(),
        ensures
            final(self).wf(),
            final(self)@ == renamed(old(self)@, id@, new_name@),
            r is Err <==> index_of(old(self)@.records, id@) < 0,
            r matches Err(e) ==> e == StoreError::NotFound,
    {
        let ghost s = self@;
        proof {
            lemma_index_of(s.records, id@);
        }
        match self.find(id) {
            Some(i) => {
                self.records[i].name = Some(new_name);
                assert(self@.records =~= renamed(s, id@, new_name@).records);
                assert forall|a: int, b: int| 0 <= a < b < self@.records.len() implies self@.records[a].id
                    != self@.records[b].id by {
                    assert(self@.records[a].id == s.records[a].id);
                    assert(self@.records[b].id == s.records[b].id);
                }
                Ok(())
            },
            None => Err(StoreError::NotFound),
        }
    }

    /// The history entries of `id`, newest first.
    pub fn fetch_jet_history(&self, id: &String) -> (r: Vec<HistoryEntry>)
        ensures
            r@.map_values(|e: HistoryEntry| e@) == history_for(self@.history, id@),
    {
        let ghost h = self@.history;
        let mut r: Vec<HistoryEntry> = Vec::new();
        let mut i: usize = self.history.len();
        assert(h.take(i as int) =~= h);
        while i > 0
            invariant
                i <= self.history.len(),
                h == self@.history,
                history_for(h, id@) == r@.map_values(|e: HistoryEntry| e@) + history_for(
                    h.take(i as int),
                    id@,
                ),
            decreases i,
        {
            let ghost before = r@.map_values(|e: HistoryEntry| e@);
            assert(h.take(i as int).drop_last() =~= h.take(i - 1));
            if self.history[i - 1].jet_id == *id {
                r.push(self.history[i - 1].copy());
                assert(r@.map_values(|e: HistoryEntry| e@) =~= before.push(h[i - 1]));
                assert(history_for(h, id@) =~= r@.map_values(|e: HistoryEntry| e@) + history_for(
                    h.take(i - 1),
                    id@,
                ));
            }
            i = i - 1;
        }
        assert(history_for(h.take(0), id@) =~= Seq::<EntryView>::empty());
        assert(r@.map_values(|e: HistoryEntry| e@) + Seq::<EntryView>::empty() =~= r@.map_values(
            |e: HistoryEntry| e@,
        ));
        r
    }
}

} // verus!
