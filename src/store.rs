use vstd::prelude::*;

use std::collections::HashMap;

use crate::record::{PetRecord, PetRecordView};

verus! {

broadcast use vstd::std_specs::hash::group_hash_axioms;

/// The records by id, and the counter that hands out ids.
pub struct RecordStore {
    records: HashMap<u64, PetRecord>,
    last_id: u64,
}

impl RecordStore {
    /// Each record is stored under its own id.
    pub closed spec fn wf(&self) -> bool {
        forall|k: u64| #[trigger] self.records@.contains_key(k) ==> self.records@[k].id == k
    }

    /// What the store holds, record by record.
    pub closed spec fn records(&self) -> Map<u64, PetRecordView> {
        self.records@.map_values(|r: PetRecord| r@)
    }

    /// The id handed out last; 0 before the first.
    pub closed spec fn last_id(&self) -> u64 {
        self.last_id
    }

    pub proof fn lemma_keys_are_ids(&self, k: u64)
        requires
            self.wf(),
            self.records().contains_key(k),
        ensures
            self.records()[k].id == k,
    {
    }

    pub fn new() -> (r: RecordStore)
        ensures
            r.wf(),
            r.records() == Map::<u64, PetRecordView>::empty(),
            r.last_id() == 0,
    {
        let r = RecordStore { records: HashMap::new(), last_id: 0 };
        assert(r.records() =~= Map::<u64, PetRecordView>::empty());
        r
    }

    /// An empty store whose counter has already handed out `last_id`.
    pub fn with_last_id(last_id: u64) -> (r: RecordStore)
        ensures
            r.wf(),
            r.records() == Map::<u64, PetRecordView>::empty(),
            r.last_id() == last_id,
    {
        let r = RecordStore { records: HashMap::new(), last_id };
        assert(r.records() =~= Map::<u64, PetRecordView>::empty());
        r
    }

    /// The id handed out last; 0 before the first.
    pub fn last_issued(&self) -> (r: u64)
        ensures
            r == self.last_id(),
    {
        self.last_id
    }

    /// Hands out the next id: one more than the last, so each id is larger
    /// than all before it.
    pub fn allocate_id(&mut self) -> (r: u64)
        requires
            old(self).last_id() < u64::MAX,
        ensures
            r == old(self).last_id() + 1,
            r > old(self).last_id(),
            final(self).last_id() == r,
            final(self).records() == old(self).records(),
            final(self).wf() == old(self).wf(),
    {
        self.last_id = self.last_id + 1;
        self.last_id
    }

    /// Whether the counter can hand out another id.
    pub fn can_allocate(&self) -> (r: bool)
        ensures
            r == (self.last_id() < u64::MAX),
    {
        self.last_id < u64::MAX
    }

    pub fn get(&self, id: u64) -> (r: Option<PetRecord>)
        ensures
            match r {
                Some(rec) => self.records().contains_key(id) && rec@ == self.records()[id],
                None => !self.records().contains_key(id),
            },
    {
        match self.records.get(&id) {
            Some(rec) => Some(rec.clone()),
            None => None,
        }
    }

    /// Stores `record` under its id, in place of any record there.
    pub fn put(&mut self, record: PetRecord)
        requires
            old(self).wf(),
        ensures
            final(self).wf(),
            final(self).records() == old(self).records().insert(record.id, record@),
            final(self).last_id() == old(self).last_id(),
    {
        let ghost v = record@;
        let id = record.id;
        self.records.insert(id, record);
        assert(self.records() =~= old(self).records().insert(id, v));
    }

    pub fn remove(&mut self, id: u64) -> (r: Option<PetRecord>)
        requires
            old(self).wf(),
        ensures
            final(self).wf(),
            final(self).records() == old(self).records().remove(id),
            final(self).last_id() == old(self).last_id(),
            match r {
                Some(rec) => old(self).records().contains_key(id) && rec@ == old(self).records()[id],
                None => !old(self).records().contains_key(id),
            },
    {
        let r = self.records.remove(&id);
        assert(self.records() =~= old(self).records().remove(id));
        r
    }
}

} // verus!
