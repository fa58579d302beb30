//! Tables of objects owned by the audio thread (slots, buses, wavetables), each entry marked when its handle is
//! dropped and removed by the next batch, a bounded number at a time.
use crate::removal_list::{
    removal_ids,
    removal_list_contains,
    removal_list_len,
    removal_list_new,
    removal_list_push,
    MAX_REMOVALS_PER_BATCH,
};
use crate::signal_maps::{applied, FrameFunction};
use arrayvec::ArrayVec;
use vstd::prelude::*;

verus! {

broadcast use vstd::seq_lib::group_seq_properties;

/// An entry: the object's identifier, the object, and whether its handle was dropped.
pub struct TableEntry<V> {
    /// The object's identifier.
    pub id: u64,
    /// The object.
    pub value: V,
    /// Set when the object's handle is dropped.
    pub pending_drop: bool,
}

/// The identifiers of the entries, in order.
pub open spec fn table_ids<V>(entries: Seq<TableEntry<V>>) -> Seq<u64> {
    entries.map_values(|e: TableEntry<V>| e.id)
}

/// The identifiers of the entries whose handles were dropped, in order.
pub open spec fn dropped_ids<V>(entries: Seq<TableEntry<V>>) -> Seq<u64>
    decreases entries.len(),
{
    if entries.len() == 0 {
        Seq::empty()
    } else if entries.last().pending_drop {
        dropped_ids(entries.drop_last()).push(entries.last().id)
    } else {
        dropped_ids(entries.drop_last())
    }
}

/// The entries one batch removes: the first [MAX_REMOVALS_PER_BATCH] whose handles were dropped.
pub open spec fn removals<V>(entries: Seq<TableEntry<V>>) -> Seq<u64> {
    let d = dropped_ids(entries);
    if d.len() <= MAX_REMOVALS_PER_BATCH {
        d
    } else {
        d.take(MAX_REMOVALS_PER_BATCH as int)
    }
}

/// The entries whose identifiers are in `ids` (`keep` false) or not (`keep` true), in order.
pub open spec fn select_entries<V>(entries: Seq<TableEntry<V>>, ids: Seq<u64>, keep: bool) -> Seq<TableEntry<V>>
    decreases entries.len(),
{
    if entries.len() == 0 {
        Seq::empty()
    } else if ids.contains(entries.last().id) != keep {
        select_entries(entries.drop_last(), ids, keep).push(entries.last())
    } else {
        select_entries(entries.drop_last(), ids, keep)
    }
}

/// The entries after inserting `value` under `id`: an entry with that identifier is replaced in place (and
/// its mark cleared); otherwise a new entry goes at the end.
pub open spec fn table_insert<V>(entries: Seq<TableEntry<V>>, id: u64, value: V) -> Seq<TableEntry<V>> {
    let e = TableEntry { id, value, pending_drop: false };
    if table_ids(entries).contains(id) {
        entries.update(choose|i: int| 0 <= i < entries.len() && entries[i].id == id, e)
    } else {
        entries.push(e)
    }
}

/// The entries after inserting each of `items`, in order.
pub open spec fn table_insert_all<V>(entries: Seq<TableEntry<V>>, items: Seq<(u64, V)>) -> Seq<TableEntry<V>>
    decreases items.len(),
{
    if items.len() == 0 {
        entries
    } else {
        table_insert(table_insert_all(entries, items.drop_last()), items.last().0, items.last().1)
    }
}

/// The entries after giving the entry `id`, if any, the value `value`, keeping its mark.
pub open spec fn table_replace<V>(entries: Seq<TableEntry<V>>, id: u64, value: V) -> Seq<TableEntry<V>> {
    if table_ids(entries).contains(id) {
        let i = choose|i: int| 0 <= i < entries.len() && entries[i].id == id;
        entries.update(i, TableEntry { id, value, pending_drop: entries[i].pending_drop })
    } else {
        entries
    }
}

/// The entries after marking the entry `id`, if any, as dropped.
pub open spec fn table_mark<V>(entries: Seq<TableEntry<V>>, id: u64) -> Seq<TableEntry<V>> {
    Seq::new(
        entries.len(),
        |i: int| TableEntry { pending_drop: entries[i].pending_drop || entries[i].id == id, ..entries[i] },
    )
}

/// The entries with each value replaced by `f` of it.
pub open spec fn table_map<V, F: Fn(V) -> V>(entries: Seq<TableEntry<V>>, f: F) -> Seq<TableEntry<V>> {
    Seq::new(entries.len(), |i: int| TableEntry { value: applied(f, entries[i].value), ..entries[i] })
}

/// In a table without repeated identifiers, the entry with a given identifier is the one `choose` picks.
proof fn lemma_index_unique<V>(entries: Seq<TableEntry<V>>, id: u64, i: int)
    requires
        table_ids(entries).no_duplicates(),
        0 <= i < entries.len(),
        entries[i].id == id,
    ensures
        (choose|j: int| 0 <= j < entries.len() && entries[j].id == id) == i,
        table_ids(entries).contains(id),
{
    let j = choose|j: int| 0 <= j < entries.len() && entries[j].id == id;
    assert(table_ids(entries)[i] == id);
    assert(table_ids(entries)[j] == id);
}

proof fn lemma_push_distinct(s: Seq<u64>, x: u64)
    requires
        s.no_duplicates(),
        !s.contains(x),
    ensures
        s.push(x).no_duplicates(),
{
    assert forall|a: int, b: int| 0 <= a < s.len() + 1 && 0 <= b < s.len() + 1 && a != b implies s.push(x)[a]
        != s.push(x)[b] by {
        if a < s.len() && b < s.len() {
            assert(s[a] != s[b]);
        } else if a < s.len() {
            assert(s[a] != x);
        } else {
            assert(s[b] != x);
        }
    }
}

/// A table of objects keyed by identifier.
pub struct DropTable<V> {
    entries: Vec<TableEntry<V>>,
}

impl<V> DropTable<V> {
    /// The entries, in insertion order.
    pub closed spec fn entries_view(self) -> Seq<TableEntry<V>> {
        self.entries@
    }

    /// No identifier occurs twice.
    pub open spec fn wf(self) -> bool {
        table_ids(self.entries_view()).no_duplicates()
    }

    /// An empty table.
    pub fn new() -> (r: Self)
        ensures
            r.wf(),
            r.entries_view() == Seq::<TableEntry<V>>::empty(),
    {
        let r = DropTable { entries: Vec::new() };
        proof {
            assert(table_ids(r.entries_view()) =~= Seq::<u64>::empty());
        }
        r
    }

    /// The position of the entry `id`.
    fn position(&self, id: u64) -> (r: Option<usize>)
        ensures
            r matches Some(i) ==> i < self.entries_view().len() && self.entries_view()[i as int].id == id,
            r is None ==> !table_ids(self.entries_view()).contains(id),
    {
        let mut i: usize = 0;
        while i < self.entries.len()
            invariant
                i <= self.entries.len(),
                forall|j: int| 0 <= j < i ==> self.entries@[j].id != id,
            decreases self.entries.len() - i,
        {
            if self.entries[i].id == id {
                return Some(i);
            }
            i = i + 1;
        }
        proof {
            if table_ids(self.entries_view()).contains(id) {
                let j = choose|j: int| 0 <= j < table_ids(self.entries_view()).len() && table_ids(self.entries_view())[j] == id;
                assert(self.entries@[j].id == id);
            }
        }
        None
    }

    /// Whether the table holds `id`.
    pub fn contains(&self, id: u64) -> (r: bool)
        ensures
            r == table_ids(self.entries_view()).contains(id),
    {
        match self.position(id) {
            Some(i) => {
                proof {
                    assert(table_ids(self.entries_view())[i as int] == id);
                }
                true
            },
            None => false,
        }
    }

    /// Insert `value` under `id`, replacing the value there, if any, in place (and clearing its mark).
    pub fn insert(&mut self, id: u64, value: V)
        requires
            old(self).wf(),
        ensures
            final(self).wf(),
            final(self).entries_view() == table_insert(old(self).entries_view(), id, value),
            ({
                let e = (TableEntry { id, value, pending_drop: false });
                if table_ids(old(self).entries_view()).contains(id) {
                    exists|i: int|
                        0 <= i < old(self).entries_view().len() && old(self).entries_view()[i].id == id
                            && final(self).entries_view() == old(self).entries_view().update(i, e)
                } else {
                    final(self).entries_view() == old(self).entries_view().push(e)
                }
            }),
    {
        let e = TableEntry { id, value, pending_drop: false };
        match self.position(id) {
            Some(i) => {
                let ghost before = self.entries@;
                self.entries.remove(i);
                self.entries.insert(i, e);
                proof {
                    assert(self.entries@ =~= before.update(i as int, e));
                    assert(table_ids(self.entries@) =~= table_ids(before));
                    assert(table_ids(before)[i as int] == id);
                    assert(0 <= i < before.len() && before[i as int].id == id && self.entries@ == before.update(
                        i as int,
                        e,
                    ));
                    lemma_index_unique(before, id, i as int);
                }
            },
            None => {
                let ghost before = self.entries@;
                self.entries.push(e);
                proof {
                    assert(table_ids(self.entries@) =~= table_ids(before).push(id));
                    lemma_push_distinct(table_ids(before), id);
                }
            },
        }
    }

    /// Replace every value by `f` of it, keeping identifiers, marks and order.
    pub fn map_values<F: Fn(V) -> V>(&mut self, f: &FrameFunction<F, V, V>)
        requires
            old(self).wf(),
        ensures
            final(self).wf(),
            final(self).entries_view() == table_map(old(self).entries_view(), f.closure()),
    {
        let ghost orig = self.entries@;
        let mut taken: Vec<TableEntry<V>> = Vec::new();
        std::mem::swap(&mut taken, &mut self.entries);
        let n = taken.len();
        let mut done: Vec<TableEntry<V>> = Vec::new();
        let mut i: usize = 0;
        while taken.len() > 0
            invariant
                n == orig.len(),
                i <= n,
                taken@ == orig.subrange(i as int, n as int),
                done@.len() == i,
                forall|j: int| 0 <= j < i ==> #[trigger] done@[j] == (TableEntry {
                    value: applied(f.closure(), orig[j].value),
                    ..orig[j]
                }),
            decreases taken.len(),
        {
            let e = taken.remove(0);
            proof {
                assert(e == orig[i as int]);
                assert(taken@ =~= orig.subrange(i + 1, n as int));
            }
            let TableEntry { id, value, pending_drop } = e;
            let value = f.call(value);
            done.push(TableEntry { id, value, pending_drop });
            i = i + 1;
        }
        self.entries = done;
        proof {
            assert(self.entries@ =~= table_map(orig, f.closure()));
            assert(table_ids(self.entries@) =~= table_ids(orig));
        }
    }

    /// Insert each of `items` in order, as [DropTable::insert] does.
    pub fn insert_all(&mut self, items: Vec<(u64, V)>)
        requires
            old(self).wf(),
        ensures
            final(self).wf(),
            final(self).entries_view() == table_insert_all(old(self).entries_view(), items@),
    {
        let ghost all = items@;
        let total = items.len();
        let mut rest = items;
        let mut k: usize = 0;
        while rest.len() > 0
            invariant
                self.wf(),
                k <= all.len(),
                all.len() == total,
                rest@ == all.subrange(k as int, all.len() as int),
                self.entries_view() == table_insert_all(old(self).entries_view(), all.take(k as int)),
            decreases rest.len(),
        {
            let (id, value) = rest.remove(0);
            proof {
                assert(all.take(k + 1).drop_last() =~= all.take(k as int));
                assert(all.take(k + 1).last() == all[k as int]);
                assert(rest@ =~= all.subrange(k + 1, all.len() as int));
            }
            self.insert(id, value);
            k = k + 1;
        }
        proof {
            assert(all.take(k as int) =~= all);
        }
    }

    /// Replace the value of the entry `id`, keeping its mark; returns false, changing nothing, when there is no
    /// such entry.
    pub fn replace_value(&mut self, id: u64, value: V) -> (replaced: bool)
        requires
            old(self).wf(),
        ensures
            final(self).wf(),
            replaced == table_ids(old(self).entries_view()).contains(id),
            final(self).entries_view() == table_replace(old(self).entries_view(), id, value),
            !replaced ==> final(self).entries_view() == old(self).entries_view(),
            replaced ==> exists|i: int|
                0 <= i < old(self).entries_view().len() && old(self).entries_view()[i].id == id
                    && final(self).entries_view() == old(self).entries_view().update(
                    i,
                    (TableEntry { id, value, pending_drop: old(self).entries_view()[i].pending_drop }),
                ),
    {
        match self.position(id) {
            Some(i) => {
                let ghost before = self.entries@;
                let old_entry = self.entries.remove(i);
                let e = TableEntry { id, value, pending_drop: old_entry.pending_drop };
                self.entries.insert(i, e);
                proof {
                    assert(self.entries@ =~= before.update(i as int, e));
                    assert(table_ids(self.entries@) =~= table_ids(before));
                    assert(table_ids(before)[i as int] == id);
                    assert(0 <= i < before.len() && before[i as int].id == id && self.entries@ == before.update(
                        i as int,
                        (TableEntry { id, value, pending_drop: before[i as int].pending_drop }),
                    ));
                    lemma_index_unique(before, id, i as int);
                }
                true
            },
            None => false,
        }
    }

    /// Mark the entry `id` as dropped; nothing else changes.
    pub fn mark_pending_drop(&mut self, id: u64)
        requires
            old(self).wf(),
        ensures
            final(self).wf(),
            final(self).entries_view() == table_mark(old(self).entries_view(), id),
            final(self).entries_view().len() == old(self).entries_view().len(),
            forall|i: int|
                #![trigger final(self).entries_view()[i]]
                0 <= i < old(self).entries_view().len() ==> final(self).entries_view()[i] == (TableEntry {
                    pending_drop: old(self).entries_view()[i].pending_drop || old(self).entries_view()[i].id == id,
                    ..old(self).entries_view()[i]
                }),
    {
        match self.position(id) {
            Some(i) => {
                let ghost before = self.entries@;
                let mut e = self.entries.remove(i);
                e.pending_drop = true;
                self.entries.insert(i, e);
                proof {
                    assert(self.entries@ =~= before.update(i as int, e));
                    assert(table_ids(self.entries@) =~= table_ids(before));
                    assert forall|j: int| 0 <= j < before.len() && j != i implies before[j].id != id by {
                        assert(table_ids(before)[j] != table_ids(before)[i as int]);
                    }
                }
            },
            None => {
                proof {
                    assert forall|j: int| 0 <= j < self.entries@.len() implies self.entries@[j].id != id by {
                        assert(table_ids(self.entries@)[j] == self.entries@[j].id);
                    }
                }
            },
        }
    }

    /// The entries the current batch removes (see [removals]).
    pub fn dropped(&self) -> (r: ArrayVec<u64, MAX_REMOVALS_PER_BATCH>)
        ensures
            removal_ids(r) == removals(self.entries_view()),
    {
        let mut r = removal_list_new();
        let mut m: usize = 0;
        while m < self.entries.len()
            invariant
                m <= self.entries.len(),
                removal_ids(r) == removals(self.entries@.take(m as int)),
            decreases self.entries.len() - m,
        {
            proof {
                assert(self.entries@.take(m + 1).drop_last() =~= self.entries@.take(m as int));
                let p = dropped_ids(self.entries@.take(m as int));
                if p.len() >= MAX_REMOVALS_PER_BATCH {
                    assert(p.push(self.entries@[m as int].id).take(MAX_REMOVALS_PER_BATCH as int) =~= p.take(
                        MAX_REMOVALS_PER_BATCH as int,
                    ));
                    assert(p.len() == MAX_REMOVALS_PER_BATCH ==> p.take(MAX_REMOVALS_PER_BATCH as int) =~= p);
                }
            }
            if self.entries[m].pending_drop && removal_list_len(&r) < MAX_REMOVALS_PER_BATCH {
                removal_list_push(&mut r, self.entries[m].id);
            }
            m = m + 1;
        }
        proof {
            assert(self.entries@.take(self.entries@.len() as int) =~= self.entries@);
        }
        r
    }

    /// Remove the entries the batch removes, keeping the others in order, and hand the removed ones back so that
    /// they are dropped away from the audio thread.
    pub fn remove_dropped(&mut self) -> (removed: Vec<TableEntry<V>>)
        requires
            old(self).wf(),
        ensures
            final(self).wf(),
            removed@ == select_entries(old(self).entries_view(), removals(old(self).entries_view()), false),
            final(self).entries_view() == select_entries(
                old(self).entries_view(),
                removals(old(self).entries_view()),
                true,
            ),
    {
        let ids = self.dropped();
        let ghost orig = self.entries@;
        let mut taken: Vec<TableEntry<V>> = Vec::new();
        std::mem::swap(&mut taken, &mut self.entries);
        let n = taken.len();
        let mut kept: Vec<TableEntry<V>> = Vec::new();
        let mut removed: Vec<TableEntry<V>> = Vec::new();
        let mut i: usize = 0;
        while taken.len() > 0
            invariant
                n == orig.len(),
                i <= n,
                taken@ == orig.subrange(i as int, n as int),
                kept@ == select_entries(orig.take(i as int), removal_ids(ids), true),
                removed@ == select_entries(orig.take(i as int), removal_ids(ids), false),
                forall|x: u64| #[trigger] table_ids(kept@).contains(x) ==> table_ids(orig.take(i as int)).contains(x),
                table_ids(kept@).no_duplicates(),
                table_ids(orig).no_duplicates(),
            decreases taken.len(),
        {
            let e = taken.remove(0);
            proof {
                assert(e == orig[i as int]);
                assert(orig.take(i + 1).drop_last() =~= orig.take(i as int));
                assert(taken@ =~= orig.subrange(i + 1, n as int));
                assert(table_ids(orig.take(i + 1)) =~= table_ids(orig.take(i as int)).push(e.id));
                assert(!table_ids(orig.take(i as int)).contains(e.id)) by {
                    if table_ids(orig.take(i as int)).contains(e.id) {
                        let j = choose|j: int| 0 <= j < i && table_ids(orig.take(i as int))[j] == e.id;
                        assert(table_ids(orig)[j] == table_ids(orig)[i as int]);
                    }
                }
            }
            if removal_list_contains(&ids, e.id) {
                removed.push(e);
            } else {
                let ghost before = kept@;
                kept.push(e);
                proof {
                    assert(table_ids(kept@) =~= table_ids(before).push(e.id));
                    lemma_push_distinct(table_ids(before), e.id);
                }
            }
            i = i + 1;
        }
        proof {
            assert(orig.take(n as int) =~= orig);
        }
        self.entries = kept;
        removed
    }
}

/// Replacing the value of `id` in a table without repeated identifiers gives the entry `id`, if there is one,
/// the new value and keeps its mark, and leaves every other entry, and the order, as they were.
pub proof fn lemma_table_replace<V>(entries: Seq<TableEntry<V>>, id: u64, value: V)
    requires
        table_ids(entries).no_duplicates(),
    ensures
        table_replace(entries, id, value).len() == entries.len(),
        forall|i: int|
            #![trigger table_replace(entries, id, value)[i]]
            0 <= i < entries.len() ==> {
                let e = table_replace(entries, id, value)[i];
                &&& e.id == entries[i].id
                &&& e.pending_drop == entries[i].pending_drop
                &&& entries[i].id == id ==> e.value == value
                &&& entries[i].id != id ==> e == entries[i]
            },
{
    if table_ids(entries).contains(id) {
        let k = choose|k: int| 0 <= k < entries.len() && table_ids(entries)[k] == id;
        assert(entries[k].id == id);
        lemma_index_unique(entries, id, k);
        assert forall|i: int| 0 <= i < entries.len() && entries[i].id == id implies i == k by {
            assert(table_ids(entries)[i] == table_ids(entries)[k]);
        }
    } else {
        assert forall|i: int| 0 <= i < entries.len() implies entries[i].id != id by {
            assert(table_ids(entries)[i] == entries[i].id);
        }
    }
}

/// Inserting `value` under `id` into a table without repeated identifiers keeps identifiers unrepeated; the
/// entry `id` then holds `value`, unmarked, in the place of the old one or, when there was none, at the end;
/// every other entry stays where it was, as it was.
pub proof fn lemma_table_insert<V>(entries: Seq<TableEntry<V>>, id: u64, value: V)
    requires
        table_ids(entries).no_duplicates(),
    ensures
        ({
            let t = table_insert(entries, id, value);
            let e = TableEntry { id, value, pending_drop: false };
            &&& table_ids(t).no_duplicates()
            &&& t.len() == entries.len() + if table_ids(entries).contains(id) {
                0int
            } else {
                1int
            }
            &&& forall|i: int|
                #![trigger t[i]]
                0 <= i < entries.len() ==> (if entries[i].id == id {
                    t[i] == e
                } else {
                    t[i] == entries[i]
                })
            &&& !table_ids(entries).contains(id) ==> t[entries.len() as int] == e
        }),
{
    let t = table_insert(entries, id, value);
    if table_ids(entries).contains(id) {
        let k = choose|k: int| 0 <= k < entries.len() && table_ids(entries)[k] == id;
        assert(entries[k].id == id);
        lemma_index_unique(entries, id, k);
        assert forall|i: int| 0 <= i < entries.len() && entries[i].id == id implies i == k by {
            assert(table_ids(entries)[i] == table_ids(entries)[k]);
        }
        assert(table_ids(t) =~= table_ids(entries));
    } else {
        assert forall|i: int| 0 <= i < entries.len() implies entries[i].id != id by {
            assert(table_ids(entries)[i] == entries[i].id);
        }
        assert(table_ids(t) =~= table_ids(entries).push(id));
        lemma_push_distinct(table_ids(entries), id);
    }
}

/// Marking `id` as dropped marks every entry with that identifier and no other, and changes nothing else.
pub proof fn lemma_table_mark<V>(entries: Seq<TableEntry<V>>, id: u64)
    ensures
        table_mark(entries, id).len() == entries.len(),
        table_ids(table_mark(entries, id)) == table_ids(entries),
        forall|i: int|
            #![trigger table_mark(entries, id)[i]]
            0 <= i < entries.len() ==> {
                let e = table_mark(entries, id)[i];
                &&& e.id == entries[i].id
                &&& e.value == entries[i].value
                &&& e.pending_drop == (entries[i].pending_drop || entries[i].id == id)
            },
{
    assert(table_ids(table_mark(entries, id)) =~= table_ids(entries));
}

} // verus!
