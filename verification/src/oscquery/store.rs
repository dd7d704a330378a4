//! The records that the responder answers with, by the name that owns them.

use vstd::prelude::*;
use crate::oscquery::wire::{
    copy_bytes, record_fits, record_views, records_fit, same_bytes, RecordView, ResourceRecord,
};

verus! {

/// The largest number of records that one name may own: what a header can
/// count.
pub const MAX_RECORDS: usize = 65535;

/// A name and the records that answer a question for it.
struct StoreEntry {
    name: Vec<u8>,
    records: Vec<ResourceRecord>,
}

/// The records this responder answers with, by the name that owns them.
/// Filled once at start-up and only read afterwards.
pub struct RecordStore {
    entries: Vec<StoreEntry>,
}

/// The map that a list of entries stands for: a later entry of a name
/// replaces an earlier one.
spec fn entries_map(entries: Seq<StoreEntry>) -> Map<Seq<u8>, Seq<RecordView>>
    decreases entries.len(),
{
    if entries.len() == 0 {
        Map::empty()
    } else {
        entries_map(entries.drop_last()).insert(
            entries.last().name@,
            record_views(entries.last().records@),
        )
    }
}

/// No name owns two entries.
spec fn names_differ(entries: Seq<StoreEntry>) -> bool {
    forall|i: int, j: int|
        0 <= i < j < entries.len() ==> (#[trigger] entries[i]).name@ != (#[trigger] entries[j]).name@
}

/// Whether a list of records can be stored: each can be written on the wire
/// and a header can count them.
pub open spec fn storable(records: Seq<RecordView>) -> bool {
    records.len() <= MAX_RECORDS && records_fit(records)
}

/// An entry of a given name holds what the map holds for that name.
proof fn lemma_entry_is_mapped(entries: Seq<StoreEntry>, i: int)
    requires
        names_differ(entries),
        0 <= i < entries.len(),
    ensures
        entries_map(entries).dom().contains(entries[i].name@),
        entries_map(entries)[entries[i].name@] == record_views(entries[i].records@),
    decreases entries.len(),
{
    if i < entries.len() - 1 {
        let front = entries.drop_last();
        assert(front[i] == entries[i]);
        assert(entries[entries.len() - 1].name@ != entries[i].name@);
        assert(names_differ(front)) by {
            assert forall|a: int, b: int| 0 <= a < b < front.len() implies (#[trigger] front[a]).name@
                != (#[trigger] front[b]).name@ by {
                assert(front[a] == entries[a]);
                assert(front[b] == entries[b]);
            }
        }
        lemma_entry_is_mapped(front, i);
    }
}

/// A name that owns no entry is not in the map.
proof fn lemma_absent_is_unmapped(entries: Seq<StoreEntry>, name: Seq<u8>)
    requires
        forall|i: int| 0 <= i < entries.len() ==> (#[trigger] entries[i]).name@ != name,
    ensures
        !entries_map(entries).dom().contains(name),
    decreases entries.len(),
{
    if entries.len() > 0 {
        let front = entries.drop_last();
        assert(entries[entries.len() - 1].name@ != name);
        assert forall|i: int| 0 <= i < front.len() implies (#[trigger] front[i]).name@ != name by {
            assert(front[i] == entries[i]);
        }
        lemma_absent_is_unmapped(front, name);
    }
}

/// Replacing the entry of a name maps that name to the new records and leaves
/// the other names alone.
proof fn lemma_update_is_insert(entries: Seq<StoreEntry>, i: int, entry: StoreEntry)
    requires
        names_differ(entries),
        0 <= i < entries.len(),
        entry.name@ == entries[i].name@,
    ensures
        names_differ(entries.update(i, entry)),
        entries_map(entries.update(i, entry)) == entries_map(entries).insert(
            entry.name@,
            record_views(entry.records@),
        ),
    decreases entries.len(),
{
    let updated = entries.update(i, entry);
    assert(names_differ(updated)) by {
        assert forall|a: int, b: int| 0 <= a < b < updated.len() implies (#[trigger] updated[a]).name@
            != (#[trigger] updated[b]).name@ by {
            assert(updated[a].name@ == entries[a].name@);
            assert(updated[b].name@ == entries[b].name@);
        }
    }
    let front = entries.drop_last();
    if i == entries.len() - 1 {
        assert(updated.drop_last() =~= front);
        assert(entries_map(updated) =~= entries_map(entries).insert(
            entry.name@,
            record_views(entry.records@),
        ));
    } else {
        assert(front[i] == entries[i]);
        assert(names_differ(front)) by {
            assert forall|a: int, b: int| 0 <= a < b < front.len() implies (#[trigger] front[a]).name@
                != (#[trigger] front[b]).name@ by {
                assert(front[a] == entries[a]);
                assert(front[b] == entries[b]);
            }
        }
        lemma_update_is_insert(front, i, entry);
        assert(updated.drop_last() =~= front.update(i, entry));
        assert(updated.last() == entries.last());
        assert(entries[entries.len() - 1].name@ != entries[i].name@);
        assert(entries_map(updated) =~= entries_map(entries).insert(
            entry.name@,
            record_views(entry.records@),
        ));
    }
}

impl RecordStore {
    #[verifier::type_invariant]
    spec fn well_formed(self) -> bool {
        &&& names_differ(self.entries@)
        &&& forall|i: int|
            0 <= i < self.entries@.len() ==> storable(
                record_views((#[trigger] self.entries@[i]).records@),
            )
    }

    /// The records by the name that owns them.
    pub closed spec fn view(&self) -> Map<Seq<u8>, Seq<RecordView>> {
        entries_map(self.entries@)
    }

    /// A store without records.
    pub fn new() -> (store: Self)
        ensures
            store@ == Map::<Seq<u8>, Seq<RecordView>>::empty(),
    {
        RecordStore { entries: Vec::new() }
    }

    /// Where the entry of `name` stands, if it has one.
    fn position(&self, name: &[u8]) -> (at: Option<usize>)
        ensures
            match at {
                Some(i) => i < self.entries@.len() && self.entries@[i as int].name@ == name@,
                None => forall|i: int|
                    0 <= i < self.entries@.len() ==> (#[trigger] self.entries@[i]).name@
                        != name@,
            },
    {
        let mut i: usize = 0;
        while i < self.entries.len()
            invariant
                i <= self.entries@.len(),
                forall|k: int| 0 <= k < i ==> (#[trigger] self.entries@[k]).name@ != name@,
            decreases self.entries@.len() - i,
        {
            if same_bytes(self.entries[i].name.as_slice(), name) {
                return Some(i);
            }
            i += 1;
        }
        None
    }

    /// Makes `records` the answer for `name`, in place of what the name owned
    /// before. Records that cannot be stored are refused and the store stays
    /// as it was.
    pub fn insert(&mut self, name: &[u8], records: Vec<ResourceRecord>) -> (stored: bool)
        ensures
            stored == storable(record_views(records@)),
            stored ==> final(self)@ == old(self)@.insert(name@, record_views(records@)),
            !stored ==> final(self)@ == old(self)@,
    {
        proof {
            use_type_invariant(&*self);
        }
        if !all_fit(&records) {
            return false;
        }
        let entry = StoreEntry { name: copy_bytes(name), records };
        match self.position(name) {
            Some(i) => {
                proof {
                    lemma_update_is_insert(self.entries@, i as int, entry);
                }
                let mut entries: Vec<StoreEntry> = Vec::new();
                core::mem::swap(&mut entries, &mut self.entries);
                entries[i] = entry;
                core::mem::swap(&mut entries, &mut self.entries);
            },
            None => {
                proof {
                    assert(self.entries@.push(entry).drop_last() =~= self.entries@);
                }
                let mut entries: Vec<StoreEntry> = Vec::new();
                core::mem::swap(&mut entries, &mut self.entries);
                entries.push(entry);
                core::mem::swap(&mut entries, &mut self.entries);
            },
        }
        true
    }

    /// The records that `name` owns, if it owns any entry.
    pub fn get(&self, name: &[u8]) -> (found: Option<&Vec<ResourceRecord>>)
        ensures
            match found {
                Some(records) => self@.dom().contains(name@) && self@[name@] == record_views(
                    records@,
                ) && storable(record_views(records@)),
                None => !self@.dom().contains(name@),
            },
    {
        proof {
            use_type_invariant(self);
        }
        match self.position(name) {
            Some(i) => {
                proof {
                    lemma_entry_is_mapped(self.entries@, i as int);
                }
                Some(&self.entries[i].records)
            },
            None => {
                proof {
                    lemma_absent_is_unmapped(self.entries@, name@);
                }
                None
            },
        }
    }
}

/// Whether a list of records can be stored.
pub fn all_fit(records: &Vec<ResourceRecord>) -> (fit: bool)
    ensures
        fit == storable(record_views(records@)),
{
    if records.len() > MAX_RECORDS {
        return false;
    }
    let mut i: usize = 0;
    while i < records.len()
        invariant
            i <= records@.len(),
            forall|k: int| 0 <= k < i ==> record_fits(#[trigger] record_views(records@)[k]),
        decreases records@.len() - i,
    {
        if !records[i].fits() {
            assert(!record_fits(record_views(records@)[i as int]));
            return false;
        }
        i += 1;
    }
    true
}

} // verus!
