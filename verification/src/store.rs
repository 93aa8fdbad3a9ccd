use vstd::prelude::*;

use crate::entry::Entry;
use crate::error::StoreError;
use crate::storeid::StoreId;
use crate::value::ValueModel;

verus! {

/// What the store holds of one entry.
pub ghost struct SlotModel {
    /// The local part of the entry's identifier.
    pub id: Seq<char>,
    /// The store root that the entry's identifier carries, if any.
    pub base: Option<Seq<char>>,
    /// The entry's link field.
    pub field: Option<ValueModel>,
    /// Whether the entry can be read and written.
    pub healthy: bool,
    /// Whether the entry is there on what backs the store.
    pub on_backing: bool,
}

struct Slot {
    entry: Entry,
    healthy: bool,
    on_backing: bool,
}

impl View for Slot {
    type V = SlotModel;

    closed spec fn view(&self) -> SlotModel {
        SlotModel {
            id: self.entry.id(),
            base: self.entry.base(),
            field: self.entry.field(),
            healthy: self.healthy,
            on_backing: self.on_backing,
        }
    }
}

/// Something that a walk through the store comes by.
#[derive(Debug)]
pub enum StoreObject {
    /// An entry's identifier.
    Id(StoreId),
    /// A place that holds entries and is none itself.
    Collection(String),
}

/// No two slots hold the same entry.
pub open spec fn distinct_ids(s: Seq<SlotModel>) -> bool {
    forall|i: int, j: int| 0 <= i < j < s.len() ==> s[i].id != s[j].id
}

/// Whether the store holds the entry `id`.
pub open spec fn holds(s: Seq<SlotModel>, id: Seq<char>) -> bool {
    exists|i: int| 0 <= i < s.len() && (#[trigger] s[i]).id == id
}

/// Where the store holds the entry `id`.
pub open spec fn index_of(s: Seq<SlotModel>, id: Seq<char>) -> int {
    choose|i: int| 0 <= i < s.len() && (#[trigger] s[i]).id == id
}

/// What the store holds of the entry `id`.
pub open spec fn slot_of(s: Seq<SlotModel>, id: Seq<char>) -> SlotModel {
    s[index_of(s, id)]
}

/// A slot for a new entry: no link field, in good state.
pub open spec fn fresh_slot(id: Seq<char>, base: Option<Seq<char>>) -> SlotModel {
    SlotModel { id, base, field: None, healthy: true, on_backing: true }
}

/// What a lookup of `id` gives: nothing where the store holds no such entry,
/// a failure where the entry cannot be read, else what the store holds of it.
pub open spec fn lookup(s: Seq<SlotModel>, id: Seq<char>) -> Result<Option<SlotModel>, StoreError> {
    if !holds(s, id) {
        Ok(None)
    } else if !slot_of(s, id).healthy {
        Err(StoreError::ReadFailed)
    } else {
        Ok(Some(slot_of(s, id)))
    }
}

/// Whether `e` is the entry that the slot holds.
pub open spec fn entry_of(e: Entry, slot: SlotModel) -> bool {
    e.id() == slot.id && e.base() == slot.base && e.field() == slot.field
}

/// Whether the outcome `r` of a lookup hands out what `expected` says.
pub open spec fn hands_out(r: Result<Option<Entry>, StoreError>, expected: Result<
    Option<SlotModel>,
    StoreError,
>) -> bool {
    match expected {
        Err(e) => r is Err && r->Err_0 == e,
        Ok(None) => r is Ok && r->Ok_0 is None,
        Ok(Some(slot)) => r is Ok && r->Ok_0 is Some && entry_of(r->Ok_0->Some_0, slot),
    }
}

/// The identifiers of the slots, in order.
pub open spec fn slot_ids(s: Seq<SlotModel>) -> Seq<Seq<char>> {
    Seq::new(s.len(), |i: int| s[i].id)
}

/// The identifiers among the objects of a walk, in order; what is no
/// entry's identifier is left out.
pub open spec fn walked_ids(objects: Seq<StoreObject>) -> Seq<Seq<char>>
    decreases objects.len(),
{
    if objects.len() == 0 {
        Seq::empty()
    } else {
        match objects.last() {
            StoreObject::Id(id) => walked_ids(objects.drop_last()).push(id@),
            StoreObject::Collection(_) => walked_ids(objects.drop_last()),
        }
    }
}

/// A store of entries, each under its own identifier, in the order in which
/// they were made.
pub struct Store {
    slots: Vec<Slot>,
}

impl View for Store {
    type V = Seq<SlotModel>;

    closed spec fn view(&self) -> Seq<SlotModel> {
        Seq::new(self.slots@.len(), |i: int| self.slots@[i]@)
    }
}

impl Store {
    /// The store holds each entry once.
    pub open spec fn wf(&self) -> bool {
        distinct_ids(self@)
    }

    /// A store that holds nothing.
    pub fn new() -> (s: Store)
        ensures
            s@ == Seq::<SlotModel>::empty(),
            s.wf(),
    {
        let s = Store { slots: Vec::new() };
        assert(s@ =~= Seq::empty());
        s
    }

    /// Where the entry `id` is held, if it is.
    fn find(&self, id: &StoreId) -> (r: Option<usize>)
        requires
            self.wf(),
        ensures
            r is Some <==> holds(self@, id@),
            r is Some ==> r->Some_0 < self@.len() && r->Some_0 == index_of(self@, id@)
                && self@[r->Some_0 as int].id == id@,
    {
        let mut i: usize = 0;
        while i < self.slots.len()
            invariant
                i <= self.slots@.len(),
                distinct_ids(self@),
                forall|j: int| 0 <= j < i ==> (#[trigger] self@[j]).id != id@,
            decreases self.slots@.len() - i,
        {
            if self.slots[i].entry.get_location().same_entry(id) {
                assert(self@[i as int].id == id@);
                return Some(i);
            }
            i += 1;
        }
        None
    }

    /// How many entries the store holds.
    pub fn len(&self) -> (n: usize)
        ensures
            n == self@.len(),
    {
        self.slots.len()
    }

    /// Looks the entry `id` up and hands out a copy of it.
    pub fn get(&self, id: &StoreId) -> (r: Result<Option<Entry>, StoreError>)
        requires
            self.wf(),
        ensures
            hands_out(r, lookup(self@, id@)),
    {
        match self.find(id) {
            None => Ok(None),
            Some(i) => {
                if !self.slots[i].healthy {
                    Err(StoreError::ReadFailed)
                } else {
                    Ok(Some(self.slots[i].entry.clone()))
                }
            },
        }
    }

    /// Makes a new entry under `id` and hands out a copy of it. Fails where
    /// the store holds such an entry already.
    pub fn create(&mut self, id: StoreId) -> (r: Result<Entry, StoreError>)
        requires
            old(self).wf(),
        ensures
            final(self).wf(),
            holds(old(self)@, id@) ==> r == Err::<Entry, StoreError>(
                StoreError::EntryAlreadyExists,
            ) && final(self)@ == old(self)@,
            !holds(old(self)@, id@) ==> r is Ok && entry_of(r->Ok_0, fresh_slot(id@, id.base_text())) && final(self)@ == old(self)@.push(fresh_slot(id@, id.base_text())),
    {
        match self.find(&id) {
            Some(_) => Err(StoreError::EntryAlreadyExists),
            None => {
                let ghost before = self@;
                let entry = Entry::new(id);
                let copy = entry.clone();
                self.slots.push(Slot { entry, healthy: true, on_backing: true });
                proof {
                    assert(self@ =~= before.push(fresh_slot(id@, id.base_text())));
                    assert(distinct_ids(self@)) by {
                        assert forall|i: int, j: int| 0 <= i < j < self@.len() implies self@[i].id
                            != self@[j].id by {
                            if j == before.len() {
                                assert(before[i].id != id@);
                            } else {
                                assert(self@[i] == before[i] && self@[j] == before[j]);
                            }
                        }
                    }
                }
                Ok(copy)
            },
        }
    }

    /// Hands out a copy of the entry `id`, which is made where the store
    /// does not hold it yet.
    pub fn retrieve(&mut self, id: StoreId) -> (r: Result<Entry, StoreError>)
        requires
            old(self).wf(),
        ensures
            final(self).wf(),
            holds(old(self)@, id@) ==> final(self)@ == old(self)@ && (match lookup(
                old(self)@,
                id@,
            ) {
                Ok(Some(slot)) => r is Ok && entry_of(r->Ok_0, slot),
                _ => r == Err::<Entry, StoreError>(StoreError::ReadFailed),
            }),
            !holds(old(self)@, id@) ==> r is Ok && entry_of(r->Ok_0, fresh_slot(id@, id.base_text())) && final(self)@ == old(self)@.push(fresh_slot(id@, id.base_text())),
    {
        match self.get(&id) {
            Err(e) => Err(e),
            Ok(Some(e)) => Ok(e),
            Ok(None) => self.create(id),
        }
    }

    /// Writes the link field of `entry` into the store's entry of the same
    /// identifier.
    pub fn update(&mut self, entry: &Entry) -> (r: Result<(), StoreError>)
        requires
            old(self).wf(),
        ensures
            final(self).wf(),
            r == change_result(old(self)@, entry.id()),
            r is Err ==> final(self)@ == old(self)@,
            r is Ok ==> final(self)@ == old(self)@.update(
                index_of(old(self)@, entry.id()),
                SlotModel {
                    base: entry.base(),
                    field: entry.field(),
                    ..slot_of(old(self)@, entry.id())
                },
            ),
    {
        match self.find(entry.get_location()) {
            None => Err(StoreError::EntryNotFound),
            Some(i) => {
                if !self.slots[i].healthy {
                    return Err(StoreError::WriteFailed);
                }
                let ghost before = self@;
                let on_backing = self.slots[i].on_backing;
                self.slots.set(i, Slot { entry: entry.clone(), healthy: true, on_backing });
                proof {
                    let slot = SlotModel {
                        base: entry.base(),
                        field: entry.field(),
                        ..before[i as int]
                    };
                    assert(self@ =~= before.update(i as int, slot));
                    lemma_update_keeps_distinct(before, i as int, slot);
                }
                Ok(())
            },
        }
    }

    /// Takes the entry `id` out of the store.
    pub fn delete(&mut self, id: &StoreId) -> (r: Result<(), StoreError>)
        requires
            old(self).wf(),
        ensures
            final(self).wf(),
            r == change_result(old(self)@, id@),
            r is Err ==> final(self)@ == old(self)@,
            r is Ok ==> final(self)@ == old(self)@.remove(index_of(old(self)@, id@)) && !holds(
                final(self)@,
                id@,
            ),
    {
        match self.find(id) {
            None => Err(StoreError::EntryNotFound),
            Some(i) => {
                if !self.slots[i].healthy {
                    return Err(StoreError::WriteFailed);
                }
                let ghost before = self@;
                let _ = self.slots.remove(i);
                proof {
                    assert(self@ =~= before.remove(i as int));
                    lemma_remove_keeps_distinct(before, i as int);
                }
                Ok(())
            },
        }
    }

    /// Everything that a walk through the store comes by: the identifier of
    /// every entry, in the store's order.
    pub fn walk(&self) -> (objects: Vec<StoreObject>)
        ensures
            walked_ids(objects@) == slot_ids(self@),
            objects@.len() == self@.len(),
            forall|i: int| 0 <= i < objects@.len() ==> #[trigger] objects@[i] is Id,
    {
        let mut objects: Vec<StoreObject> = Vec::new();
        let mut i: usize = 0;
        assert(slot_ids(self@).take(0) =~= Seq::empty());
        while i < self.slots.len()
            invariant
                i <= self.slots@.len(),
                objects@.len() == i,
                walked_ids(objects@) == slot_ids(self@).take(i as int),
                forall|j: int| 0 <= j < objects@.len() ==> #[trigger] objects@[j] is Id,
            decreases self.slots@.len() - i,
        {
            let ghost before = objects@;
            let id = self.slots[i].entry.get_location().clone();
            objects.push(StoreObject::Id(id));
            proof {
                assert(objects@.drop_last() =~= before);
                assert(slot_ids(self@).take(i + 1) =~= slot_ids(self@).take(i as int).push(
                    self@[i as int].id,
                ));
            }
            i += 1;
        }
        assert(slot_ids(self@).take(i as int) =~= slot_ids(self@));
        objects
    }

    /// Whether the entry `id` is there on what backs the store.
    pub fn exists_on_backing(&self, id: &StoreId) -> (b: bool)
        requires
            self.wf(),
        ensures
            b == (holds(self@, id@) && slot_of(self@, id@).on_backing),
    {
        match self.find(id) {
            None => false,
            Some(i) => self.slots[i].on_backing,
        }
    }

    /// Sets the state of the entry `id`: whether it can be read and written,
    /// and whether it is there on what backs the store. Says whether the
    /// store holds such an entry.
    pub fn set_state(&mut self, id: &StoreId, healthy: bool, on_backing: bool) -> (found: bool)
        requires
            old(self).wf(),
        ensures
            final(self).wf(),
            found == holds(old(self)@, id@),
            !found ==> final(self)@ == old(self)@,
            found ==> final(self)@ == old(self)@.update(
                index_of(old(self)@, id@),
                SlotModel { healthy, on_backing, ..slot_of(old(self)@, id@) },
            ),
    {
        match self.find(id) {
            None => false,
            Some(i) => {
                let ghost before = self@;
                let entry = self.slots[i].entry.clone();
                self.slots.set(i, Slot { entry, healthy, on_backing });
                proof {
                    let slot = SlotModel { healthy, on_backing, ..before[i as int] };
                    assert(self@ =~= before.update(i as int, slot));
                    lemma_update_keeps_distinct(before, i as int, slot);
                }
                true
            },
        }
    }
}

/// Whether the entry `id` can be written or removed, and why not.
pub open spec fn change_result(s: Seq<SlotModel>, id: Seq<char>) -> Result<(), StoreError> {
    if !holds(s, id) {
        Err(StoreError::EntryNotFound)
    } else if !slot_of(s, id).healthy {
        Err(StoreError::WriteFailed)
    } else {
        Ok(())
    }
}

/// A slot replaced by one of the same identifier leaves the identifiers
/// distinct.
pub proof fn lemma_update_keeps_distinct(s: Seq<SlotModel>, i: int, slot: SlotModel)
    requires
        distinct_ids(s),
        0 <= i < s.len(),
        slot.id == s[i].id,
    ensures
        distinct_ids(s.update(i, slot)),
{
    let t = s.update(i, slot);
    assert forall|a: int, b: int| 0 <= a < b < t.len() implies t[a].id != t[b].id by {
        assert(t[a].id == s[a].id && t[b].id == s[b].id);
    }
}

/// A slot taken out leaves the identifiers distinct, and its entry is gone.
pub proof fn lemma_remove_keeps_distinct(s: Seq<SlotModel>, i: int)
    requires
        distinct_ids(s),
        0 <= i < s.len(),
    ensures
        distinct_ids(s.remove(i)),
        !holds(s.remove(i), s[i].id),
{
    let t = s.remove(i);
    assert forall|a: int, b: int| 0 <= a < b < t.len() implies t[a].id != t[b].id by {
        let a0 = if a < i { a } else { a + 1 };
        let b0 = if b < i { b } else { b + 1 };
        assert(t[a] == s[a0] && t[b] == s[b0]);
    }
    if holds(t, s[i].id) {
        let k = choose|k: int| 0 <= k < t.len() && (#[trigger] t[k]).id == s[i].id;
        let k0 = if k < i { k } else { k + 1 };
        assert(t[k] == s[k0]);
    }
}

} // verus!
