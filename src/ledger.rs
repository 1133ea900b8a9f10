//! The mathematical model of the store: the records table, the history log,
//! each operation as a transition between store values, and the laws that
//! hold of them.
use vstd::prelude::*;
use crate::codec::{SnapshotFields, snapshot_of};
use crate::detect::same_headers;
use crate::model::{EntryView, JetView};

verus! {

/// The value of a store: its current records and its history log, oldest
/// entry first.
pub struct StoreView {
    pub records: Seq<JetView>,
    pub history: Seq<EntryView>,
}

/// The position of the record with id `id`, or -1 when there is none.
pub open spec fn index_of(recs: Seq<JetView>, id: Seq<char>) -> int
    decreases recs.len(),
{
    if recs.len() == 0 {
        -1
    } else if recs.last().id == id {
        recs.len() - 1
    } else {
        index_of(recs.drop_last(), id)
    }
}

/// The position of the history entry of `id` at `version`, or -1.
pub open spec fn entry_index(h: Seq<EntryView>, id: Seq<char>, version: nat) -> int
    decreases h.len(),
{
    if h.len() == 0 {
        -1
    } else if h.last().jet_id == id && h.last().version == version {
        h.len() - 1
    } else {
        entry_index(h.drop_last(), id, version)
    }
}

/// How many history entries belong to `id`; in a well-formed store, also the
/// latest version of `id`.
pub open spec fn version_count(h: Seq<EntryView>, id: Seq<char>) -> nat
    decreases h.len(),
{
    if h.len() == 0 {
        0
    } else {
        version_count(h.drop_last(), id) + if h.last().jet_id == id {
            1nat
        } else {
            0nat
        }
    }
}

/// The history entries of `id`, newest first.
pub open spec fn history_for(h: Seq<EntryView>, id: Seq<char>) -> Seq<EntryView>
    decreases h.len(),
{
    if h.len() == 0 {
        Seq::empty()
    } else if h.last().jet_id == id {
        seq![h.last()] + history_for(h.drop_last(), id)
    } else {
        history_for(h.drop_last(), id)
    }
}

/// Record ids are unique.
pub open spec fn unique_ids(recs: Seq<JetView>) -> bool {
    forall|a: int, b: int| 0 <= a < b < recs.len() ==> recs[a].id != recs[b].id
}

/// Each entry's version is one more than the number of earlier entries of the
/// same jet.
pub open spec fn versions_in_order(h: Seq<EntryView>) -> bool {
    forall|k: int| 0 <= k < h.len() ==> (#[trigger] h[k]).version == version_count(h.take(k), h[k].jet_id) + 1
}

pub open spec fn store_wf(s: StoreView) -> bool {
    unique_ids(s.records) && versions_in_order(s.history)
}

/// `recs` with `j` written over the record of the same id, or added.
pub open spec fn upsert(recs: Seq<JetView>, j: JetView) -> Seq<JetView> {
    let i = index_of(recs, j.id);
    if i >= 0 {
        recs.update(i, j)
    } else {
        recs.push(j)
    }
}

/// Whether saving `j` leaves headers and body as stored, so that no history
/// entry is owed.
pub open spec fn unchanged(recs: Seq<JetView>, j: JetView) -> bool {
    let i = index_of(recs, j.id);
    &&& i >= 0
    &&& same_headers(recs[i].headers, j.headers)
    &&& recs[i].body == j.body
}

/// The entry that an accepted save of `j` appends.
pub open spec fn next_entry(h: Seq<EntryView>, j: JetView, now: Seq<char>) -> EntryView {
    EntryView {
        jet_id: j.id,
        version: version_count(h, j.id) + 1,
        data: snapshot_of(j),
        timestamp: now,
    }
}

/// The store after saving `j` through the deduplicating write path.
pub open spec fn saved(s: StoreView, j: JetView, now: Seq<char>) -> StoreView {
    StoreView {
        records: upsert(s.records, j),
        history: if unchanged(s.records, j) {
            s.history
        } else {
            s.history.push(next_entry(s.history, j, now))
        },
    }
}

/// The jet that snapshot fields restore under the id `id`.
pub open spec fn restored(id: Seq<char>, f: SnapshotFields) -> JetView {
    JetView { id, name: f.1, method: f.2, url: f.3, headers: f.4, body: f.5 }
}

/// The store after reverting `id` to the snapshot fields `f`.
pub open spec fn reverted(s: StoreView, id: Seq<char>, f: SnapshotFields) -> StoreView {
    StoreView { records: upsert(s.records, restored(id, f)), history: s.history }
}

/// The store after deleting the record `id`, if any. History stays.
pub open spec fn deleted(s: StoreView, id: Seq<char>) -> StoreView {
    let i = index_of(s.records, id);
    StoreView {
        records: if i >= 0 {
            s.records.remove(i)
        } else {
            s.records
        },
        history: s.history,
    }
}

/// The store after giving the record `id` the name `name`.
pub open spec fn renamed(s: StoreView, id: Seq<char>, name: Seq<char>) -> StoreView {
    let i = index_of(s.records, id);
    StoreView {
        records: if i >= 0 {
            s.records.update(i, JetView { name: Some(name), ..s.records[i] })
        } else {
            s.records
        },
        history: s.history,
    }
}

pub proof fn lemma_index_of(recs: Seq<JetView>, id: Seq<char>)
    ensures
        -1 <= index_of(recs, id) < recs.len(),
        index_of(recs, id) >= 0 ==> recs[index_of(recs, id)].id == id,
        index_of(recs, id) < 0 ==> forall|k: int| 0 <= k < recs.len() ==> recs[k].id != id,
        unique_ids(recs) ==> forall|k: int| 0 <= k < recs.len() && recs[k].id == id ==> k == index_of(recs, id),
    decreases recs.len(),
{
    if recs.len() > 0 {
        lemma_index_of(recs.drop_last(), id);
        assert forall|k: int| 0 <= k < recs.len() - 1 implies recs.drop_last()[k] == recs[k] by {}
    }
}

pub proof fn lemma_entry_index(h: Seq<EntryView>, id: Seq<char>, version: nat)
    ensures
        -1 <= entry_index(h, id, version) < h.len(),
        entry_index(h, id, version) >= 0 ==> h[entry_index(h, id, version)].jet_id == id
            && h[entry_index(h, id, version)].version == version,
        entry_index(h, id, version) < 0 ==> forall|k: int|
            0 <= k < h.len() ==> !(h[k].jet_id == id && h[k].version == version),
    decreases h.len(),
{
    if h.len() > 0 {
        lemma_entry_index(h.drop_last(), id, version);
        assert forall|k: int| 0 <= k < h.len() - 1 implies h.drop_last()[k] == h[k] by {}
    }
}

pub proof fn lemma_version_count_bound(h: Seq<EntryView>, id: Seq<char>)
    ensures
        version_count(h, id) <= h.len(),
    decreases h.len(),
{
    if h.len() > 0 {
        lemma_version_count_bound(h.drop_last(), id);
    }
}

/// Upserting keeps record ids unique and puts `j` at the position of its id.
pub proof fn lemma_upsert(recs: Seq<JetView>, j: JetView)
    requires
        unique_ids(recs),
    ensures
        unique_ids(upsert(recs, j)),
        index_of(upsert(recs, j), j.id) >= 0,
        upsert(recs, j)[index_of(upsert(recs, j), j.id)] == j,
{
    lemma_index_of(recs, j.id);
    let r = upsert(recs, j);
    lemma_index_of(r, j.id);
    if index_of(recs, j.id) >= 0 {
        assert(r[index_of(recs, j.id)].id == j.id);
    } else {
        assert(r[recs.len() as int].id == j.id);
    }
}

/// Appending the next entry of a jet keeps versions in order.
pub proof fn lemma_push_next(h: Seq<EntryView>, j: JetView, now: Seq<char>)
    requires
        versions_in_order(h),
    ensures
        versions_in_order(h.push(next_entry(h, j, now))),
{
    let h2 = h.push(next_entry(h, j, now));
    assert forall|k: int| 0 <= k < h2.len() implies (#[trigger] h2[k]).version == version_count(
        h2.take(k),
        h2[k].jet_id,
    ) + 1 by {
        if k < h.len() {
            assert(h2.take(k) =~= h.take(k));
        } else {
            assert(h2.take(k) =~= h);
        }
    }
}

/// Removing a record keeps ids unique and leaves none with the removed id.
pub proof fn lemma_remove(recs: Seq<JetView>, id: Seq<char>)
    requires
        unique_ids(recs),
        index_of(recs, id) >= 0,
    ensures
        unique_ids(recs.remove(index_of(recs, id))),
        index_of(recs.remove(index_of(recs, id)), id) < 0,
{
    lemma_index_of(recs, id);
    let i = index_of(recs, id);
    let r = recs.remove(i);
    assert forall|a: int, b: int| 0 <= a < b < r.len() implies r[a].id != r[b].id by {
        let a2 = if a < i { a } else { a + 1 };
        let b2 = if b < i { b } else { b + 1 };
        assert(r[a] == recs[a2] && r[b] == recs[b2]);
    }
    lemma_index_of(r, id);
    if index_of(r, id) >= 0 {
        let k = index_of(r, id);
        let k2 = if k < i { k } else { k + 1 };
        assert(r[k] == recs[k2]);
    }
}

proof fn lemma_in_order_prefix(h: Seq<EntryView>)
    requires
        versions_in_order(h),
        h.len() > 0,
    ensures
        versions_in_order(h.drop_last()),
        h.last().version == version_count(h.drop_last(), h.last().jet_id) + 1,
{
    let d = h.drop_last();
    assert forall|k: int| 0 <= k < d.len() implies (#[trigger] d[k]).version == version_count(
        d.take(k),
        d[k].jet_id,
    ) + 1 by {
        assert(d.take(k) =~= h.take(k));
        assert(d[k] == h[k]);
    }
    assert(h.take(h.len() - 1) =~= d);
    assert(h[h.len() - 1] == h.last());
}

proof fn lemma_listing(h: Seq<EntryView>, id: Seq<char>)
    requires
        versions_in_order(h),
    ensures
        history_for(h, id).len() == version_count(h, id),
        forall|j: int|
            0 <= j < history_for(h, id).len() ==> (#[trigger] history_for(h, id)[j]).jet_id == id
                && history_for(h, id)[j].version == version_count(h, id) - j,
    decreases h.len(),
{
    if h.len() > 0 {
        lemma_in_order_prefix(h);
        lemma_listing(h.drop_last(), id);
    }
}

/// In a well-formed store the history of a jet lists the versions N, N-1,
/// ..., 1, where N is its number of entries: every version from 1 to N occurs
/// exactly once and no other does.
pub proof fn lemma_listed_versions(s: StoreView, id: Seq<char>)
    requires
        store_wf(s),
    ensures
        history_for(s.history, id).len() == version_count(s.history, id),
        forall|j: int|
            0 <= j < history_for(s.history, id).len() ==> (#[trigger] history_for(s.history, id)[j]).jet_id
                == id && history_for(s.history, id)[j].version == history_for(s.history, id).len() - j,
{
    lemma_listing(s.history, id);
}

/// A jet's history is listed in strictly decreasing version order.
pub proof fn lemma_history_newest_first(s: StoreView, id: Seq<char>)
    requires
        store_wf(s),
    ensures
        forall|a: int, b: int|
            0 <= a < b < history_for(s.history, id).len() ==> history_for(s.history, id)[a].version
                > history_for(s.history, id)[b].version,
{
    lemma_listing(s.history, id);
}

/// Every save keeps the store well formed. An accepted save adds exactly one
/// version to the saved jet, a deduplicated one adds none, and no other jet's
/// count changes; so N accepted saves of a new id give it versions 1 to N.
pub proof fn lemma_save_counts(s: StoreView, j: JetView, now: Seq<char>)
    requires
        store_wf(s),
    ensures
        store_wf(saved(s, j, now)),
        version_count(saved(s, j, now).history, j.id) == version_count(s.history, j.id) + if unchanged(
            s.records,
            j,
        ) {
            0nat
        } else {
            1nat
        },
        forall|x: Seq<char>|
            x != j.id ==> version_count(#[trigger] saved(s, j, now).history, x) == version_count(
                s.history,
                x,
            ),
{
    lemma_upsert(s.records, j);
    lemma_push_next(s.history, j, now);
    if !unchanged(s.records, j) {
        assert(s.history.push(next_entry(s.history, j, now)).drop_last() =~= s.history);
    }
}

/// Creating a jet whose id is new to the store leaves exactly one history
/// entry for it: version 1, holding the snapshot of the created jet.
pub proof fn lemma_create_first_version(s: StoreView, j: JetView, now: Seq<char>)
    requires
        store_wf(s),
        index_of(s.records, j.id) < 0,
        version_count(s.history, j.id) == 0,
    ensures
        history_for(saved(s, j, now).history, j.id) == seq![
            EntryView { jet_id: j.id, version: 1, data: snapshot_of(j), timestamp: now },
        ],
{
    lemma_listing(s.history, j.id);
    let h2 = saved(s, j, now).history;
    assert(h2 == s.history.push(next_entry(s.history, j, now)));
    assert(h2.drop_last() =~= s.history);
    assert(history_for(s.history, j.id) =~= Seq::<EntryView>::empty());
    assert(history_for(h2, j.id) =~= seq![h2.last()]);
}

/// A save whose headers and body match the stored record adds no history,
/// yet still writes every other field of the record.
pub proof fn lemma_unchanged_save(s: StoreView, j: JetView, now: Seq<char>)
    requires
        store_wf(s),
        unchanged(s.records, j),
    ensures
        saved(s, j, now).history == s.history,
        index_of(saved(s, j, now).records, j.id) >= 0,
        saved(s, j, now).records[index_of(saved(s, j, now).records, j.id)] == j,
{
    lemma_upsert(s.records, j);
}

/// Reverting makes the current record equal to the snapshot it restores and
/// leaves every jet's history, and so its latest version, as it was.
pub proof fn lemma_revert_restores(s: StoreView, id: Seq<char>, f: SnapshotFields)
    requires
        store_wf(s),
    ensures
        store_wf(reverted(s, id, f)),
        index_of(reverted(s, id, f).records, id) >= 0,
        reverted(s, id, f).records[index_of(reverted(s, id, f).records, id)] == restored(id, f),
        forall|x: Seq<char>|
            version_count(#[trigger] reverted(s, id, f).history, x) == version_count(s.history, x),
{
    lemma_upsert(s.records, restored(id, f));
}

/// Deleting a jet removes its record and keeps every history entry: its
/// history can still be listed afterwards.
pub proof fn lemma_delete_keeps_history(s: StoreView, id: Seq<char>)
    requires
        store_wf(s),
    ensures
        store_wf(deleted(s, id)),
        index_of(deleted(s, id).records, id) < 0,
        forall|x: Seq<char>| history_for(#[trigger] deleted(s, id).history, x) == history_for(s.history, x),
{
    lemma_index_of(s.records, id);
    if index_of(s.records, id) >= 0 {
        lemma_remove(s.records, id);
    }
}

} // verus!
