use vstd::prelude::*;

use crate::error::RegistryError;
use crate::identity::Identity;
use crate::index::{
    lemma_no_duplicates_occurs_once, lemma_without, list_in, occurs_once, without, UsersPetData,
};
use crate::record::{
    apply_field, patched, OwnerData, OwnerPatch, OwnerPayload, OwnerView, PetPatch, PetPayload,
    PetRecord, PetRecordView,
};
use crate::store::RecordStore;

verus! {

/// The record that creation stores: the supplied fields, owned by the
/// caller, with no transfer pending and no update yet.
pub open spec fn created(
    id: u64,
    pet: PetPayload,
    owner: OwnerPayload,
    caller: Seq<u8>,
    now: u64,
) -> PetRecordView {
    PetRecordView {
        id,
        breed: pet.breed@,
        sex: pet.sex@,
        date_of_birth: pet.date_of_birth@,
        image_url: pet.image_url@,
        created_at: now,
        updated_at: None,
        transfer_to: None,
        owner_details: OwnerView {
            id: caller,
            name: owner.name@,
            address: owner.address@,
            phone_number: owner.phone_number@,
        },
    }
}

/// The record after `patch`: each present field replaced, the others kept.
pub open spec fn with_pet_patch(r: PetRecordView, patch: PetPatch, now: u64) -> PetRecordView {
    PetRecordView {
        breed: patched(r.breed, patch.breed),
        sex: patched(r.sex, patch.sex),
        date_of_birth: patched(r.date_of_birth, patch.date_of_birth),
        image_url: patched(r.image_url, patch.image_url),
        updated_at: Some(now),
        ..r
    }
}

/// The record after `patch` of its owner's contact fields.
pub open spec fn with_owner_patch(r: PetRecordView, patch: OwnerPatch, now: u64) -> PetRecordView {
    PetRecordView {
        owner_details: OwnerView {
            name: patched(r.owner_details.name, patch.name),
            address: patched(r.owner_details.address, patch.address),
            phone_number: patched(r.owner_details.phone_number, patch.phone_number),
            ..r.owner_details
        },
        updated_at: Some(now),
        ..r
    }
}

/// The record marked for transfer to `to`.
pub open spec fn marked(r: PetRecordView, to: Seq<u8>, now: u64) -> PetRecordView {
    PetRecordView { transfer_to: Some(to), updated_at: Some(now), ..r }
}

/// The record with its pending transfer withdrawn.
pub open spec fn unmarked(r: PetRecordView, now: u64) -> PetRecordView {
    PetRecordView { transfer_to: None, updated_at: Some(now), ..r }
}

/// The record once `caller` has claimed it with the contact fields `owner`.
pub open spec fn claimed(r: PetRecordView, caller: Seq<u8>, owner: OwnerPayload, now: u64) -> PetRecordView {
    PetRecordView {
        owner_details: OwnerView {
            id: caller,
            name: owner.name@,
            address: owner.address@,
            phone_number: owner.phone_number@,
        },
        transfer_to: None,
        updated_at: Some(now),
        ..r
    }
}

/// What a sequence of records stores: each under its id, a later record in
/// place of an earlier one with the same id.
pub open spec fn records_map(s: Seq<PetRecord>) -> Map<u64, PetRecordView>
    decreases s.len(),
{
    if s.len() == 0 {
        Map::empty()
    } else {
        records_map(s.drop_last()).insert(s.last().id, s.last()@)
    }
}

/// No two records of `s` share an id.
pub open spec fn ids_distinct(s: Seq<PetRecord>) -> bool {
    forall|i: int, j: int| 0 <= i < j < s.len() ==> s[i].id != s[j].id
}

/// The counter a registry rebuilt from `s` resumes from: `counter`, or the
/// largest id of `s` where that is larger.
pub open spec fn resumed_counter(s: Seq<PetRecord>, counter: u64) -> u64
    decreases s.len(),
{
    if s.len() == 0 {
        counter
    } else {
        let m = resumed_counter(s.drop_last(), counter);
        if s.last().id > m {
            s.last().id
        } else {
            m
        }
    }
}

proof fn lemma_records_map_keys(s: Seq<PetRecord>)
    ensures
        forall|k: u64| #[trigger] records_map(s).contains_key(k) <==> exists|j: int|
            0 <= j < s.len() && s[j].id == k,
    decreases s.len(),
{
    if s.len() > 0 {
        let p = s.drop_last();
        lemma_records_map_keys(p);
        assert(records_map(s) == records_map(p).insert(s.last().id, s.last()@));
        assert forall|k: u64| #[trigger] records_map(s).contains_key(k) <==> exists|j: int|
            0 <= j < s.len() && s[j].id == k by {
            if records_map(s).contains_key(k) && k != s.last().id {
                assert(records_map(p).contains_key(k));
                let j = choose|j: int| 0 <= j < p.len() && p[j].id == k;
                assert(p[j] == s[j]);
            }
            if k == s.last().id {
                assert(s[s.len() - 1].id == k);
            }
            if exists|j: int| 0 <= j < s.len() && s[j].id == k {
                let j = choose|j: int| 0 <= j < s.len() && s[j].id == k;
                if j < s.len() - 1 {
                    assert(p[j].id == k);
                }
            }
        }
    }
}

proof fn lemma_push_contains(s: Seq<u64>, x: u64)
    ensures
        forall|y: u64| #[trigger] s.push(x).contains(y) <==> (s.contains(y) || y == x),
{
    assert forall|y: u64| #[trigger] s.push(x).contains(y) <==> (s.contains(y) || y == x) by {
        if s.contains(y) {
            let k = choose|k: int| 0 <= k < s.len() && s[k] == y;
            assert(s.push(x)[k] == y);
        }
        if y == x {
            assert(s.push(x)[s.len() as int] == y);
        }
        if s.push(x).contains(y) && y != x {
            let k = choose|k: int| 0 <= k < s.len() + 1 && s.push(x)[k] == y;
            assert(s[k] == y);
        }
    }
}

/// The registry: the record store and the ownership index, kept consistent.
pub struct Registry {
    store: RecordStore,
    index: UsersPetData,
}

impl Registry {
    /// The stored records, by id.
    pub closed spec fn pets(&self) -> Map<u64, PetRecordView> {
        self.store.records()
    }

    pub closed spec fn owned_map(&self) -> Map<Seq<u8>, Seq<u64>> {
        self.index.owned_map()
    }

    pub closed spec fn pending_map(&self) -> Map<Seq<u8>, Seq<u64>> {
        self.index.pending_map()
    }

    /// The ids of the pets that `who` owns.
    pub open spec fn owned(&self, who: Seq<u8>) -> Seq<u64> {
        list_in(self.owned_map(), who)
    }

    /// The ids of the pets waiting for `who` to claim them.
    pub open spec fn pending(&self, who: Seq<u8>) -> Seq<u64> {
        list_in(self.pending_map(), who)
    }

    /// The id handed out last.
    pub closed spec fn last_id(&self) -> u64 {
        self.store.last_id()
    }

    /// The records and the index agree: a record's owner lists it among
    /// the pets it owns, the recipient of its pending transfer lists it among
    /// the pets it may claim, and no list names anything else.
    pub closed spec fn wf(&self) -> bool {
        &&& self.store.wf()
        &&& self.index.wf()
        &&& forall|k: u64| #[trigger] self.pets().contains_key(k) ==> k <= self.last_id()
        &&& forall|who: Seq<u8>, k: u64|
            #[trigger] self.owned(who).contains(k) ==> self.pets().contains_key(k)
                && self.pets()[k].owner_details.id == who
        &&& forall|k: u64|
            #[trigger] self.pets().contains_key(k) ==> self.owned(
                self.pets()[k].owner_details.id,
            ).contains(k)
        &&& forall|who: Seq<u8>, k: u64|
            #[trigger] self.pending(who).contains(k) ==> self.pets().contains_key(k)
                && self.pets()[k].transfer_to == Some(who)
        &&& forall|k: u64|
            #[trigger] self.pets().contains_key(k) && self.pets()[k].transfer_to is Some
                ==> self.pending(self.pets()[k].transfer_to->0).contains(k)
    }

    /// What consistency gives of the parts: ids match keys, lists hold no
    /// duplicates.
    proof fn lemma_wf_facts(&self)
        requires
            self.wf(),
        ensures
            self.store.wf(),
            self.index.wf(),
            forall|k: u64| #[trigger] self.pets().contains_key(k) ==> self.pets()[k].id == k,
            forall|who: Seq<u8>| #[trigger] self.owned(who).no_duplicates(),
            forall|who: Seq<u8>| #[trigger] self.pending(who).no_duplicates(),
    {
        assert forall|k: u64| #[trigger] self.pets().contains_key(k) implies self.pets()[k].id == k by {
            self.store.lemma_keys_are_ids(k);
        }
        assert forall|who: Seq<u8>| #[trigger] self.owned(who).no_duplicates() by {
            self.index.lemma_no_duplicates(who);
        }
        assert forall|who: Seq<u8>| #[trigger] self.pending(who).no_duplicates() by {
            self.index.lemma_no_duplicates(who);
        }
    }

    pub fn new() -> (r: Registry)
        ensures
            r.wf(),
            r.pets() == Map::<u64, PetRecordView>::empty(),
            r.owned_map() == Map::<Seq<u8>, Seq<u64>>::empty(),
            r.pending_map() == Map::<Seq<u8>, Seq<u64>>::empty(),
            r.last_id() == 0,
    {
        Registry { store: RecordStore::new(), index: UsersPetData::new() }
    }

    /// Rebuilds a registry from stored records and the id counter that
    /// stored them: the records are kept as given, the index is rebuilt from
    /// their owners and pending transfers, and the counter resumes at least
    /// past every stored id. Refused where two records share an id.
    pub fn restore(records: Vec<PetRecord>, counter: u64) -> (r: Result<Registry, RegistryError>)
        ensures
            ids_distinct(records@) <==> r is Ok,
            !ids_distinct(records@) ==> r is Err && r->Err_0 == RegistryError::DuplicateEntry,
            r is Ok ==> {
                &&& r->Ok_0.wf()
                &&& r->Ok_0.pets() == records_map(records@)
                &&& r->Ok_0.last_id() == resumed_counter(records@, counter)
            },
    {
        let mut top: u64 = counter;
        let mut i: usize = 0;
        while i < records.len()
            invariant
                0 <= i <= records.len(),
                top == resumed_counter(records@.take(i as int), counter),
                forall|j: int| 0 <= j < i ==> records@[j].id <= top,
            decreases records.len() - i,
        {
            assert(records@.take(i + 1).drop_last() =~= records@.take(i as int));
            if records[i].id > top {
                top = records[i].id;
            }
            i += 1;
        }
        assert(records@.take(records.len() as int) =~= records@);
        let mut reg = Registry { store: RecordStore::with_last_id(top), index: UsersPetData::new() };
        assert(reg.pets() =~= records_map(records@.take(0)));
        let mut i: usize = 0;
        while i < records.len()
            invariant
                0 <= i <= records.len(),
                reg.wf(),
                reg.pets() == records_map(records@.take(i as int)),
                reg.last_id() == top,
                top == resumed_counter(records@, counter),
                forall|j: int| 0 <= j < records.len() ==> records@[j].id <= top,
                ids_distinct(records@.take(i as int)),
            decreases records.len() - i,
        {
            let ghost prefix = records@.take(i as int);
            proof {
                lemma_records_map_keys(prefix);
                assert(records@.take(i + 1).drop_last() =~= prefix);
            }
            let rec = records[i].clone();
            let id = rec.id;
            if reg.store.get(id).is_some() {
                proof {
                    let j = choose|j: int| 0 <= j < prefix.len() && prefix[j].id == id;
                    assert(records@[j].id == records@[i as int].id);
                }
                return Err(RegistryError::DuplicateEntry);
            }
            let ghost old_reg = reg;
            let ghost o = rec.owner_details.id@;
            proof {
                old_reg.lemma_wf_facts();
                assert(!old_reg.owned(o).contains(id));
                assert forall|t: Seq<u8>| !old_reg.pending(t).contains(id) by {
                    if old_reg.pending(t).contains(id) {
                        assert(old_reg.pets().contains_key(id));
                    }
                }
                lemma_push_contains(old_reg.owned(o), id);
            }
            if let Err(e) = reg.index.add_pet(&id, &rec.owner_details.id) {
                return Err(e);
            }
            let ghost mid = reg;
            match &rec.transfer_to {
                Some(t) => {
                    proof { lemma_push_contains(old_reg.pending(t@), id); }
                    if let Err(e) = reg.index.add_pending(&id, t) {
                        return Err(e);
                    }
                },
                None => {},
            }
            reg.store.put(rec);
            proof {
                let n = reg;
                assert(n.pets() == old_reg.pets().insert(id, records@[i as int]@));
                assert(n.owned_map() == old_reg.owned_map().insert(o, old_reg.owned(o).push(id)));
                assert forall|who: Seq<u8>, k: u64| #[trigger] n.owned(who).contains(k) implies n.pets().contains_key(k)
                    && n.pets()[k].owner_details.id == who by {
                    if who != o {
                        assert(n.owned(who) == old_reg.owned(who));
                    }
                    if k != id {
                        assert(old_reg.owned(who).contains(k));
                    }
                }
                assert forall|k: u64| #[trigger] n.pets().contains_key(k) implies n.owned(
                    n.pets()[k].owner_details.id).contains(k) by {
                    if k != id {
                        assert(old_reg.pets().contains_key(k));
                        let w = old_reg.pets()[k].owner_details.id;
                        assert(old_reg.owned(w).contains(k));
                    }
                }
                assert forall|who: Seq<u8>, k: u64| #[trigger] n.pending(who).contains(k) implies n.pets().contains_key(k)
                    && n.pets()[k].transfer_to == Some(who) by {
                    if k != id || n.pets()[id].transfer_to != Some(who) {
                        assert(n.pending(who) == old_reg.pending(who) || (n.pets()[id].transfer_to == Some(
                            who,
                        ) && n.pending(who) == old_reg.pending(who).push(id)));
                        assert(old_reg.pending(who).contains(k));
                    }
                }
                assert forall|k: u64| #[trigger] n.pets().contains_key(k) && n.pets()[k].transfer_to is Some
                    implies n.pending(n.pets()[k].transfer_to->0).contains(k) by {
                    if k != id {
                        assert(old_reg.pets().contains_key(k));
                        let t2 = old_reg.pets()[k].transfer_to->0;
                        assert(old_reg.pending(t2).contains(k));
                    }
                }
                let next = records@.take(i + 1);
                assert forall|a: int, b: int| #![trigger next[a], next[b]] 0 <= a < b < next.len() implies next[a].id
                    != next[b].id by {
                    if b == i {
                        assert(prefix[a].id == records@[a].id);
                        if records@[a].id == id {
                            assert(records_map(prefix).contains_key(id));
                        }
                    } else {
                        assert(prefix[a].id != prefix[b].id);
                    }
                }
            }
            i += 1;
        }
        assert(records@.take(records.len() as int) =~= records@);
        Ok(reg)
    }

    /// The id handed out last; 0 before the first.
    pub fn last_issued_id(&self) -> (r: u64)
        ensures
            r == self.last_id(),
    {
        self.store.last_issued()
    }

    /// Whether another pet can be created: ids are not used up.
    pub fn has_free_id(&self) -> (r: bool)
        ensures
            r == (self.last_id() < u64::MAX),
    {
        self.store.can_allocate()
    }

    /// The record stored under `id`.
    pub fn get_pet_record(&self, id: u64) -> (r: Result<PetRecord, RegistryError>)
        requires
            self.wf(),
        ensures
            self.pets().contains_key(id) ==> r is Ok && r->Ok_0@ == self.pets()[id] && r->Ok_0.id == id,
            !self.pets().contains_key(id) ==> r == Err::<PetRecord, RegistryError>(RegistryError::NotFound),
    {
        proof { self.lemma_wf_facts(); }
        match self.store.get(id) {
            Some(rec) => Ok(rec),
            None => Err(RegistryError::NotFound),
        }
    }

    /// Creates a pet owned by `caller`, under a fresh id.
    pub fn add_pet_record(
        &mut self,
        pet: PetPayload,
        owner: OwnerPayload,
        caller: &Identity,
        now: u64,
    ) -> (r: Result<PetRecord, RegistryError>)
        requires
            old(self).wf(),
            old(self).last_id() < u64::MAX,
        ensures
            final(self).wf(),
            r is Ok,
            r->Ok_0.id == old(self).last_id() + 1,
            forall|k: u64| #[trigger] old(self).pets().contains_key(k) ==> k < r->Ok_0.id,
            r->Ok_0@ == created(r->Ok_0.id, pet, owner, caller@, now),
            final(self).last_id() == r->Ok_0.id,
            final(self).pets() == old(self).pets().insert(r->Ok_0.id, r->Ok_0@),
            final(self).owned_map() == old(self).owned_map().insert(
                caller@,
                old(self).owned(caller@).push(r->Ok_0.id),
            ),
            final(self).pending_map() == old(self).pending_map(),
    {
        let ghost old_self = *self;
        proof { old_self.lemma_wf_facts(); }
        let id = self.store.allocate_id();
        assert(!old_self.owned(caller@).contains(id));
        let record = PetRecord {
            id,
            breed: pet.breed,
            sex: pet.sex,
            date_of_birth: pet.date_of_birth,
            image_url: pet.image_url,
            created_at: now,
            updated_at: None,
            transfer_to: None,
            owner_details: OwnerData {
                id: caller.clone(),
                name: owner.name,
                address: owner.address,
                phone_number: owner.phone_number,
            },
        };
        if let Err(e) = self.index.add_pet(&id, caller) {
            return Err(e);
        }
        self.store.put(record.clone());
        proof {
            lemma_push_contains(old_self.owned(caller@), id);
            assert forall|who: Seq<u8>, k: u64| #[trigger] self.owned(who).contains(k) implies self.pets().contains_key(k)
                && self.pets()[k].owner_details.id == who by {
                if who != caller@ {
                    assert(self.owned(who) == old_self.owned(who));
                }
            }
            assert forall|k: u64| #[trigger] self.pets().contains_key(k) implies self.owned(
                self.pets()[k].owner_details.id).contains(k) by {
                if k != id {
                    assert(old_self.pets().contains_key(k));
                    let who = old_self.pets()[k].owner_details.id;
                    assert(old_self.owned(who).contains(k));
                }
            }
            assert forall|who: Seq<u8>, k: u64| #[trigger] self.pending(who).contains(k) implies self.pets().contains_key(k)
                && self.pets()[k].transfer_to == Some(who) by {
                assert(old_self.pending(who).contains(k));
            }
        }
        Ok(record)
    }
    /// A change that keeps every record, its owner and its recipient, and
    /// leaves the index as it was, keeps the registry consistent.
    proof fn lemma_wf_keeps_links(a: Registry, b: Registry)
        requires
            a.wf(),
            b.store.wf(),
            b.index.wf(),
            b.pets().dom() == a.pets().dom(),
            forall|k: u64| #[trigger] a.pets().contains_key(k) ==> b.pets()[k].owner_details.id
                == a.pets()[k].owner_details.id && b.pets()[k].transfer_to == a.pets()[k].transfer_to,
            b.owned_map() == a.owned_map(),
            b.pending_map() == a.pending_map(),
            b.last_id() == a.last_id(),
        ensures
            b.wf(),
    {
        assert forall|k: u64| #[trigger] b.pets().contains_key(k) implies b.owned(
            b.pets()[k].owner_details.id).contains(k) by {
            assert(a.pets().contains_key(k));
        }
        assert forall|k: u64| #[trigger] b.pets().contains_key(k) && b.pets()[k].transfer_to is Some
            implies b.pending(b.pets()[k].transfer_to->0).contains(k) by {
            assert(a.pets().contains_key(k));
        }
        assert forall|who: Seq<u8>, k: u64| #[trigger] b.owned(who).contains(k) implies b.pets().contains_key(k)
            && b.pets()[k].owner_details.id == who by {
            assert(a.owned(who).contains(k));
        }
        assert forall|who: Seq<u8>, k: u64| #[trigger] b.pending(who).contains(k) implies b.pets().contains_key(k)
            && b.pets()[k].transfer_to == Some(who) by {
            assert(a.pending(who).contains(k));
        }
    }

    /// Replaces the present fields of `patch` in the record of `id`, which
    /// only its owner may do.
    pub fn update_pet_record(&mut self, id: u64, patch: PetPatch, caller: &Identity, now: u64) -> (r: Result<
        PetRecord,
        RegistryError,
    >)
        requires
            old(self).wf(),
        ensures
            final(self).wf(),
            !old(self).pets().contains_key(id) ==> r == Err::<PetRecord, RegistryError>(RegistryError::NotFound)
                && *final(self) == *old(self),
            old(self).pets().contains_key(id) && old(self).pets()[id].owner_details.id != caller@
                ==> r == Err::<PetRecord, RegistryError>(RegistryError::Unauthorized) && *final(self) == *old(self),
            old(self).pets().contains_key(id) && old(self).pets()[id].owner_details.id == caller@ ==> {
                &&& r is Ok
                &&& r->Ok_0.id == id
                &&& r->Ok_0@ == with_pet_patch(old(self).pets()[id], patch, now)
                &&& final(self).pets() == old(self).pets().insert(id, r->Ok_0@)
                &&& final(self).owned_map() == old(self).owned_map()
                &&& final(self).pending_map() == old(self).pending_map()
                &&& final(self).last_id() == old(self).last_id()
            },
    {
        let ghost old_self = *self;
        proof { old_self.lemma_wf_facts(); }
        let rec = match self.store.get(id) {
            Some(rec) => rec,
            None => return Err(RegistryError::NotFound),
        };
        if !rec.owner_details.id.same_as(caller) {
            return Err(RegistryError::Unauthorized);
        }
        let mut rec = rec;
        rec.breed = apply_field(rec.breed, patch.breed);
        rec.sex = apply_field(rec.sex, patch.sex);
        rec.date_of_birth = apply_field(rec.date_of_birth, patch.date_of_birth);
        rec.image_url = apply_field(rec.image_url, patch.image_url);
        rec.updated_at = Some(now);
        self.store.put(rec.clone());
        proof {
            assert(self.pets().dom() =~= old_self.pets().dom());
            Registry::lemma_wf_keeps_links(old_self, *self);
        }
        Ok(rec)
    }

    /// Replaces the present fields of `patch` in the owner details of the
    /// record of `id`, which only its owner may do.
    pub fn update_owner_record(&mut self, id: u64, patch: OwnerPatch, caller: &Identity, now: u64) -> (r: Result<
        PetRecord,
        RegistryError,
    >)
        requires
            old(self).wf(),
        ensures
            final(self).wf(),
            !old(self).pets().contains_key(id) ==> r == Err::<PetRecord, RegistryError>(RegistryError::NotFound)
                && *final(self) == *old(self),
            old(self).pets().contains_key(id) && old(self).pets()[id].owner_details.id != caller@
                ==> r == Err::<PetRecord, RegistryError>(RegistryError::Unauthorized) && *final(self) == *old(self),
            old(self).pets().contains_key(id) && old(self).pets()[id].owner_details.id == caller@ ==> {
                &&& r is Ok
                &&& r->Ok_0.id == id
                &&& r->Ok_0@ == with_owner_patch(old(self).pets()[id], patch, now)
                &&& final(self).pets() == old(self).pets().insert(id, r->Ok_0@)
                &&& final(self).owned_map() == old(self).owned_map()
                &&& final(self).pending_map() == old(self).pending_map()
                &&& final(self).last_id() == old(self).last_id()
            },
    {
        let ghost old_self = *self;
        proof { old_self.lemma_wf_facts(); }
        let rec = match self.store.get(id) {
            Some(rec) => rec,
            None => return Err(RegistryError::NotFound),
        };
        if !rec.owner_details.id.same_as(caller) {
            return Err(RegistryError::Unauthorized);
        }
        let mut rec = rec;
        rec.owner_details.name = apply_field(rec.owner_details.name, patch.name);
        rec.owner_details.address = apply_field(rec.owner_details.address, patch.address);
        rec.owner_details.phone_number = apply_field(rec.owner_details.phone_number, patch.phone_number);
        rec.updated_at = Some(now);
        self.store.put(rec.clone());
        proof {
            assert(self.pets().dom() =~= old_self.pets().dom());
            Registry::lemma_wf_keeps_links(old_self, *self);
        }
        Ok(rec)
    }

    /// Marks the pet `id` for transfer to `to`, which only its owner may
    /// do, and only while no transfer is pending.
    pub fn transfer_pet(&mut self, id: u64, to: &Identity, caller: &Identity, now: u64) -> (r: Result<
        PetRecord,
        RegistryError,
    >)
        requires
            old(self).wf(),
        ensures
            final(self).wf(),
            !old(self).pets().contains_key(id) ==> r == Err::<PetRecord, RegistryError>(RegistryError::NotFound)
                && *final(self) == *old(self),
            old(self).pets().contains_key(id) && old(self).pets()[id].owner_details.id != caller@
                ==> r == Err::<PetRecord, RegistryError>(RegistryError::Unauthorized) && *final(self) == *old(self),
            old(self).pets().contains_key(id) && old(self).pets()[id].owner_details.id == caller@
                && old(self).pets()[id].transfer_to is Some
                ==> r == Err::<PetRecord, RegistryError>(RegistryError::AlreadyPending) && *final(self) == *old(self),
            old(self).pets().contains_key(id) && old(self).pets()[id].owner_details.id == caller@
                && old(self).pets()[id].transfer_to is None ==> {
                &&& r is Ok
                &&& r->Ok_0.id == id
                &&& r->Ok_0@ == marked(old(self).pets()[id], to@, now)
                &&& final(self).pets() == old(self).pets().insert(id, r->Ok_0@)
                &&& final(self).owned_map() == old(self).owned_map()
                &&& final(self).pending_map() == old(self).pending_map().insert(to@, old(self).pending(to@).push(id))
                &&& final(self).last_id() == old(self).last_id()
            },
    {
        let ghost old_self = *self;
        proof { old_self.lemma_wf_facts(); }
        let rec = match self.store.get(id) {
            Some(rec) => rec,
            None => return Err(RegistryError::NotFound),
        };
        if !rec.owner_details.id.same_as(caller) {
            return Err(RegistryError::Unauthorized);
        }
        if rec.transfer_to.is_some() {
            return Err(RegistryError::AlreadyPending);
        }
        assert(!old_self.pending(to@).contains(id));
        if let Err(e) = self.index.add_pending(&id, to) {
            return Err(e);
        }
        let mut rec = rec;
        rec.transfer_to = Some(to.clone());
        rec.updated_at = Some(now);
        self.store.put(rec.clone());
        proof {
            lemma_push_contains(old_self.pending(to@), id);
            assert forall|k: u64| #[trigger] self.pets().contains_key(k) implies self.owned(
                self.pets()[k].owner_details.id).contains(k) by {
                assert(old_self.pets().contains_key(k));
            }
            assert forall|who: Seq<u8>, k: u64| #[trigger] self.owned(who).contains(k) implies self.pets().contains_key(k)
                && self.pets()[k].owner_details.id == who by {
                assert(old_self.owned(who).contains(k));
            }
            assert forall|who: Seq<u8>, k: u64| #[trigger] self.pending(who).contains(k) implies self.pets().contains_key(k)
                && self.pets()[k].transfer_to == Some(who) by {
                if who != to@ {
                    assert(self.pending(who) == old_self.pending(who));
                    assert(old_self.pending(who).contains(k));
                } else if k != id {
                    assert(old_self.pending(who).contains(k));
                }
            }
            assert forall|k: u64| #[trigger] self.pets().contains_key(k) && self.pets()[k].transfer_to is Some
                implies self.pending(self.pets()[k].transfer_to->0).contains(k) by {
                if k != id {
                    assert(old_self.pets().contains_key(k));
                    let t = old_self.pets()[k].transfer_to->0;
                    assert(old_self.pending(t).contains(k));
                }
            }
        }
        Ok(rec)
    }

    /// Withdraws the pending transfer of the pet `id`, which only its owner
    /// may do.
    pub fn revoke_transfer(&mut self, id: u64, caller: &Identity, now: u64) -> (r: Result<
        PetRecord,
        RegistryError,
    >)
        requires
            old(self).wf(),
        ensures
            final(self).wf(),
            !old(self).pets().contains_key(id) ==> r == Err::<PetRecord, RegistryError>(RegistryError::NotFound)
                && *final(self) == *old(self),
            old(self).pets().contains_key(id) && old(self).pets()[id].owner_details.id != caller@
                ==> r == Err::<PetRecord, RegistryError>(RegistryError::Unauthorized) && *final(self) == *old(self),
            old(self).pets().contains_key(id) && old(self).pets()[id].owner_details.id == caller@
                && old(self).pets()[id].transfer_to is None
                ==> r == Err::<PetRecord, RegistryError>(RegistryError::NotPending) && *final(self) == *old(self),
            old(self).pets().contains_key(id) && old(self).pets()[id].owner_details.id == caller@
                && old(self).pets()[id].transfer_to is Some ==> {
                let t = old(self).pets()[id].transfer_to->0;
                &&& r is Ok
                &&& r->Ok_0.id == id
                &&& r->Ok_0@ == unmarked(old(self).pets()[id], now)
                &&& final(self).pets() == old(self).pets().insert(id, r->Ok_0@)
                &&& final(self).owned_map() == old(self).owned_map()
                &&& final(self).pending_map() == old(self).pending_map().insert(t, without(old(self).pending(t), id))
                &&& final(self).last_id() == old(self).last_id()
            },
    {
        let ghost old_self = *self;
        proof { old_self.lemma_wf_facts(); }
        let rec = match self.store.get(id) {
            Some(rec) => rec,
            None => return Err(RegistryError::NotFound),
        };
        if !rec.owner_details.id.same_as(caller) {
            return Err(RegistryError::Unauthorized);
        }
        let mut rec = rec;
        let to = match rec.transfer_to {
            Some(to) => to,
            None => return Err(RegistryError::NotPending),
        };
        let ghost t = to@;
        assert(old_self.pending(t).contains(id));
        if let Err(e) = self.index.remove_pending(&id, &to) {
            return Err(e);
        }
        rec.transfer_to = None;
        rec.updated_at = Some(now);
        self.store.put(rec.clone());
        proof {
            lemma_without(old_self.pending(t), id);
            assert forall|k: u64| #[trigger] self.pets().contains_key(k) implies self.owned(
                self.pets()[k].owner_details.id).contains(k) by {
                assert(old_self.pets().contains_key(k));
            }
            assert forall|who: Seq<u8>, k: u64| #[trigger] self.owned(who).contains(k) implies self.pets().contains_key(k)
                && self.pets()[k].owner_details.id == who by {
                assert(old_self.owned(who).contains(k));
            }
            assert forall|who: Seq<u8>, k: u64| #[trigger] self.pending(who).contains(k) implies self.pets().contains_key(k)
                && self.pets()[k].transfer_to == Some(who) by {
                if who != t {
                    assert(self.pending(who) == old_self.pending(who));
                    assert(old_self.pending(who).contains(k));
                } else {
                    assert(old_self.pending(who).contains(k));
                }
            }
            assert forall|k: u64| #[trigger] self.pets().contains_key(k) && self.pets()[k].transfer_to is Some
                implies self.pending(self.pets()[k].transfer_to->0).contains(k) by {
                if k != id {
                    assert(old_self.pets().contains_key(k));
                    let t2 = old_self.pets()[k].transfer_to->0;
                    assert(old_self.pending(t2).contains(k));
                }
            }
        }
        Ok(rec)
    }

    /// Completes the pending transfer of the pet `id` to `caller`, its
    /// recipient, who supplies the new owner's contact fields.
    pub fn claim_pet(&mut self, id: u64, owner: OwnerPayload, caller: &Identity, now: u64) -> (r: Result<
        PetRecord,
        RegistryError,
    >)
        requires
            old(self).wf(),
        ensures
            final(self).wf(),
            !old(self).pets().contains_key(id) ==> r == Err::<PetRecord, RegistryError>(RegistryError::NotFound)
                && *final(self) == *old(self),
            old(self).pets().contains_key(id) && old(self).pets()[id].transfer_to is None
                ==> r == Err::<PetRecord, RegistryError>(RegistryError::NotPending) && *final(self) == *old(self),
            old(self).pets().contains_key(id) && old(self).pets()[id].transfer_to is Some
                && old(self).pets()[id].transfer_to != Some(caller@)
                ==> r == Err::<PetRecord, RegistryError>(RegistryError::NotRecipient) && *final(self) == *old(self),
            old(self).pets().contains_key(id) && old(self).pets()[id].transfer_to == Some(caller@) ==> {
                let prev = old(self).pets()[id].owner_details.id;
                let released = old(self).owned_map().insert(prev, without(old(self).owned(prev), id));
                &&& r is Ok
                &&& r->Ok_0.id == id
                &&& r->Ok_0@ == claimed(old(self).pets()[id], caller@, owner, now)
                &&& final(self).pets() == old(self).pets().insert(id, r->Ok_0@)
                &&& final(self).owned_map() == released.insert(caller@, list_in(released, caller@).push(id))
                &&& final(self).pending_map() == old(self).pending_map().insert(
                    caller@,
                    without(old(self).pending(caller@), id),
                )
                &&& final(self).last_id() == old(self).last_id()
            },
    {
        let ghost old_self = *self;
        proof { old_self.lemma_wf_facts(); }
        let rec = match self.store.get(id) {
            Some(rec) => rec,
            None => return Err(RegistryError::NotFound),
        };
        match &rec.transfer_to {
            None => return Err(RegistryError::NotPending),
            Some(to) => {
                if !to.same_as(caller) {
                    return Err(RegistryError::NotRecipient);
                }
            },
        }
        let mut rec = rec;
        let ghost prev = rec.owner_details.id@;
        let ghost c = caller@;
        proof {
            assert(old_self.owned(prev).contains(id));
            assert(old_self.pending(c).contains(id));
            lemma_without(old_self.owned(prev), id);
            lemma_without(old_self.pending(c), id);
        }
        if let Err(e) = self.index.remove_pet(&id, &rec.owner_details.id) {
            return Err(e);
        }
        let ghost released = self.owned_map();
        if let Err(e) = self.index.remove_pending(&id, caller) {
            return Err(e);
        }
        proof {
            if c != prev {
                assert(list_in(released, c) == old_self.owned(c));
                if old_self.owned(c).contains(id) {
                    assert(old_self.pets()[id].owner_details.id == c);
                }
            }
        }
        if let Err(e) = self.index.add_pet(&id, caller) {
            return Err(e);
        }
        rec.owner_details = OwnerData {
            id: caller.clone(),
            name: owner.name,
            address: owner.address,
            phone_number: owner.phone_number,
        };
        rec.transfer_to = None;
        rec.updated_at = Some(now);
        self.store.put(rec.clone());
        proof {
            lemma_push_contains(list_in(released, c), id);
            assert forall|k: u64| #[trigger] self.pets().contains_key(k) implies self.owned(
                self.pets()[k].owner_details.id).contains(k) by {
                if k != id {
                    assert(old_self.pets().contains_key(k));
                    let w = old_self.pets()[k].owner_details.id;
                    assert(old_self.owned(w).contains(k));
                    assert(list_in(released, w).contains(k));
                }
            }
            assert forall|who: Seq<u8>, k: u64| #[trigger] self.owned(who).contains(k) implies self.pets().contains_key(k)
                && self.pets()[k].owner_details.id == who by {
                if who == c {
                    if k != id {
                        assert(list_in(released, c).contains(k));
                        assert(old_self.owned(who).contains(k));
                    }
                } else {
                    assert(list_in(released, who).contains(k));
                    assert(old_self.owned(who).contains(k));
                }
            }
            assert forall|who: Seq<u8>, k: u64| #[trigger] self.pending(who).contains(k) implies self.pets().contains_key(k)
                && self.pets()[k].transfer_to == Some(who) by {
                assert(old_self.pending(who).contains(k));
            }
            assert forall|k: u64| #[trigger] self.pets().contains_key(k) && self.pets()[k].transfer_to is Some
                implies self.pending(self.pets()[k].transfer_to->0).contains(k) by {
                assert(old_self.pets().contains_key(k));
                let t = old_self.pets()[k].transfer_to->0;
                assert(old_self.pending(t).contains(k));
            }
        }
        Ok(rec)
    }

    /// Deletes the pet `id`, which only its owner may do, and only while no
    /// transfer is pending.
    pub fn delete_pet_record(&mut self, id: u64, caller: &Identity) -> (r: Result<PetRecord, RegistryError>)
        requires
            old(self).wf(),
        ensures
            final(self).wf(),
            !old(self).pets().contains_key(id) ==> r == Err::<PetRecord, RegistryError>(RegistryError::NotFound)
                && *final(self) == *old(self),
            old(self).pets().contains_key(id) && old(self).pets()[id].owner_details.id != caller@
                ==> r == Err::<PetRecord, RegistryError>(RegistryError::Unauthorized) && *final(self) == *old(self),
            old(self).pets().contains_key(id) && old(self).pets()[id].owner_details.id == caller@
                && old(self).pets()[id].transfer_to is Some
                ==> r == Err::<PetRecord, RegistryError>(RegistryError::Conflict) && *final(self) == *old(self),
            old(self).pets().contains_key(id) && old(self).pets()[id].owner_details.id == caller@
                && old(self).pets()[id].transfer_to is None ==> {
                &&& r is Ok
                &&& r->Ok_0.id == id
                &&& r->Ok_0@ == old(self).pets()[id]
                &&& final(self).pets() == old(self).pets().remove(id)
                &&& final(self).owned_map() == old(self).owned_map().insert(
                    caller@,
                    without(old(self).owned(caller@), id),
                )
                &&& final(self).pending_map() == old(self).pending_map()
                &&& final(self).last_id() == old(self).last_id()
            },
    {
        let ghost old_self = *self;
        proof { old_self.lemma_wf_facts(); }
        let rec = match self.store.get(id) {
            Some(rec) => rec,
            None => return Err(RegistryError::NotFound),
        };
        if !rec.owner_details.id.same_as(caller) {
            return Err(RegistryError::Unauthorized);
        }
        if rec.transfer_to.is_some() {
            return Err(RegistryError::Conflict);
        }
        let ghost c = caller@;
        proof {
            assert(old_self.owned(c).contains(id));
            lemma_without(old_self.owned(c), id);
        }
        if let Err(e) = self.index.remove_pet(&id, caller) {
            return Err(e);
        }
        self.store.remove(id);
        proof {
            assert forall|k: u64| #[trigger] self.pets().contains_key(k) implies self.owned(
                self.pets()[k].owner_details.id).contains(k) by {
                assert(old_self.pets().contains_key(k));
                let w = old_self.pets()[k].owner_details.id;
                assert(old_self.owned(w).contains(k));
            }
            assert forall|who: Seq<u8>, k: u64| #[trigger] self.owned(who).contains(k) implies self.pets().contains_key(k)
                && self.pets()[k].owner_details.id == who by {
                assert(old_self.owned(who).contains(k));
            }
            assert forall|who: Seq<u8>, k: u64| #[trigger] self.pending(who).contains(k) implies self.pets().contains_key(k)
                && self.pets()[k].transfer_to == Some(who) by {
                assert(old_self.pending(who).contains(k));
            }
            assert forall|k: u64| #[trigger] self.pets().contains_key(k) && self.pets()[k].transfer_to is Some
                implies self.pending(self.pets()[k].transfer_to->0).contains(k) by {
                assert(old_self.pets().contains_key(k));
                let t = old_self.pets()[k].transfer_to->0;
                assert(old_self.pending(t).contains(k));
            }
        }
        Ok(rec)
    }

    /// The ids of the pets waiting for `user` to claim them, in the order
    /// they were marked.
    pub fn view_pending_pets(&self, user: &Identity) -> (r: Vec<u64>)
        requires
            self.wf(),
        ensures
            r@ == self.pending(user@),
    {
        self.index.get_pending_pets(user)
    }

    /// The ids of the pets that `user` owns, in the order they came to it.
    pub fn view_pets_list(&self, user: &Identity) -> (r: Vec<u64>)
        requires
            self.wf(),
        ensures
            r@ == self.owned(user@),
    {
        self.index.get_pets(user)
    }
    /// The consistency rules that every registry keeps: each record is
    /// stored under its own id, no id exceeds the last one handed out, an
    /// owned list names only stored pets of that owner, a pending list names
    /// only stored pets whose transfer names that identity (so a pet pending
    /// for one identity stands in no other pending list), every stored pet
    /// stands in its owner's list and, while a transfer is pending, in its
    /// recipient's list, and no list holds an id twice.
    pub proof fn lemma_consistent(&self)
        requires
            self.wf(),
        ensures
            forall|k: u64| #[trigger] self.pets().contains_key(k) ==> self.pets()[k].id == k,
            forall|k: u64| #[trigger] self.pets().contains_key(k) ==> k <= self.last_id(),
            forall|who: Seq<u8>, k: u64|
                #[trigger] self.owned(who).contains(k) ==> self.pets().contains_key(k)
                    && self.pets()[k].owner_details.id == who,
            forall|who: Seq<u8>, k: u64|
                #[trigger] self.pending(who).contains(k) ==> self.pets().contains_key(k)
                    && self.pets()[k].transfer_to == Some(who),
            forall|k: u64|
                #[trigger] self.pets().contains_key(k) ==> self.owned(
                    self.pets()[k].owner_details.id,
                ).contains(k),
            forall|k: u64|
                #[trigger] self.pets().contains_key(k) && self.pets()[k].transfer_to is Some
                    ==> self.pending(self.pets()[k].transfer_to->0).contains(k),
            forall|who: Seq<u8>| #[trigger] self.owned(who).no_duplicates(),
            forall|who: Seq<u8>| #[trigger] self.pending(who).no_duplicates(),
    {
        self.lemma_wf_facts();
    }

    /// Every stored pet stands exactly once in the list of the pets that its
    /// owner owns.
    pub proof fn lemma_owner_lists_pet_once(&self, id: u64)
        requires
            self.wf(),
            self.pets().contains_key(id),
        ensures
            occurs_once(self.owned(self.pets()[id].owner_details.id), id),
    {
        self.lemma_wf_facts();
        lemma_no_duplicates_occurs_once(self.owned(self.pets()[id].owner_details.id), id);
    }

    /// A stored pet waits, exactly once, in the claim list of `t` if and only
    /// if its pending transfer names `t`; with no transfer pending it waits
    /// in no list.
    pub proof fn lemma_pending_matches_transfer(&self, id: u64, t: Seq<u8>)
        requires
            self.wf(),
            self.pets().contains_key(id),
        ensures
            self.pets()[id].transfer_to == Some(t) <==> occurs_once(self.pending(t), id),
            self.pets()[id].transfer_to is None ==> !self.pending(t).contains(id),
            self.pets()[id].transfer_to != Some(t) ==> !self.pending(t).contains(id),
    {
        self.lemma_wf_facts();
        if self.pets()[id].transfer_to == Some(t) {
            lemma_no_duplicates_occurs_once(self.pending(t), id);
        }
        if occurs_once(self.pending(t), id) {
            let i = choose|i: int| 0 <= i < self.pending(t).len() && self.pending(t)[i] == id && forall|j: int|
                0 <= j < self.pending(t).len() && self.pending(t)[j] == id ==> j == i;
            assert(self.pending(t).contains(id));
        }
    }

    /// Creating a pet and then reading its id gives back the supplied fields,
    /// the caller as owner, the creation time, no update and no pending
    /// transfer.
    pub proof fn lemma_create_then_read(
        before: Registry,
        after: Registry,
        pet: PetPayload,
        owner: OwnerPayload,
        caller: Seq<u8>,
        now: u64,
        id: u64,
    )
        requires
            after.pets() == before.pets().insert(id, created(id, pet, owner, caller, now)),
        ensures
            after.pets().contains_key(id),
            after.pets()[id].id == id,
            after.pets()[id].breed == pet.breed@,
            after.pets()[id].sex == pet.sex@,
            after.pets()[id].date_of_birth == pet.date_of_birth@,
            after.pets()[id].image_url == pet.image_url@,
            after.pets()[id].owner_details.id == caller,
            after.pets()[id].owner_details.name == owner.name@,
            after.pets()[id].owner_details.address == owner.address@,
            after.pets()[id].owner_details.phone_number == owner.phone_number@,
            after.pets()[id].created_at == now,
            after.pets()[id].updated_at is None,
            after.pets()[id].transfer_to is None,
    {
    }
}

impl Default for Registry {
    fn default() -> (r: Self)
        ensures
            r.wf(),
            r.pets() == Map::<u64, PetRecordView>::empty(),
            r.owned_map() == Map::<Seq<u8>, Seq<u64>>::empty(),
            r.pending_map() == Map::<Seq<u8>, Seq<u64>>::empty(),
            r.last_id() == 0,
    {
        Registry::new()
    }
}

} // verus!
