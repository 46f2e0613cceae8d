use vstd::prelude::*;

use crate::error::RegistryError;
use crate::identity::Identity;

verus! {

/// `x` stands in `s` at exactly one position.
pub open spec fn occurs_once(s: Seq<u64>, x: u64) -> bool {
    exists|i: int|
        0 <= i < s.len() && s[i] == x && forall|j: int| 0 <= j < s.len() && s[j] == x ==> j == i
}

/// `s` with the occurrence of `x` taken out.
pub open spec fn without(s: Seq<u64>, x: u64) -> Seq<u64> {
    s.remove(s.index_of(x))
}

pub proof fn lemma_no_duplicates_occurs_once(s: Seq<u64>, x: u64)
    requires
        s.no_duplicates(),
        s.contains(x),
    ensures
        occurs_once(s, x),
{
    let i = choose|i: int| 0 <= i < s.len() && s[i] == x;
    assert(forall|j: int| 0 <= j < s.len() && s[j] == x ==> j == i);
}

/// Taking out an element of a list without duplicates leaves the other
/// elements, still without duplicates.
pub proof fn lemma_without(s: Seq<u64>, x: u64)
    requires
        s.no_duplicates(),
        s.contains(x),
    ensures
        without(s, x).no_duplicates(),
        forall|y: u64| #[trigger] without(s, x).contains(y) <==> (s.contains(y) && y != x),
        without(s, x).len() == s.len() - 1,
{
    let i = s.index_of(x);
    let r = s.remove(i);
    assert forall|y: u64| #[trigger] r.contains(y) <==> (s.contains(y) && y != x) by {
        if r.contains(y) {
            let k = choose|k: int| 0 <= k < r.len() && r[k] == y;
            if k < i {
                assert(s[k] == y);
            } else {
                assert(s[k + 1] == y);
            }
        }
        if s.contains(y) && y != x {
            let k = choose|k: int| 0 <= k < s.len() && s[k] == y;
            if k < i {
                assert(r[k] == y);
            } else {
                assert(k != i);
                assert(r[k - 1] == y);
            }
        }
    }
}

/// The list that `m` holds for `who`: empty where it holds none.
pub open spec fn list_in(m: Map<Seq<u8>, Seq<u64>>, who: Seq<u8>) -> Seq<u64> {
    if m.contains_key(who) {
        m[who]
    } else {
        Seq::empty()
    }
}

/// Where `x` stands in `v`, if it does.
fn position(v: &Vec<u64>, x: u64) -> (r: Option<usize>)
    ensures
        match r {
            Some(k) => k < v.len() && v@[k as int] == x,
            None => !v@.contains(x),
        },
{
    let mut k: usize = 0;
    while k < v.len()
        invariant
            0 <= k <= v.len(),
            forall|j: int| 0 <= j < k ==> v@[j] != x,
        decreases v.len() - k,
    {
        if v[k] == x {
            return Some(k);
        }
        k += 1;
    }
    None
}

/// For each identity, an ordered list of pet ids without duplicates.
pub struct IdLists {
    owners: Vec<Identity>,
    lists: Vec<Vec<u64>>,
    model: Ghost<Map<Seq<u8>, Seq<u64>>>,
}

impl View for IdLists {
    type V = Map<Seq<u8>, Seq<u64>>;

    closed spec fn view(&self) -> Map<Seq<u8>, Seq<u64>> {
        self.model@
    }
}

impl IdLists {
    pub closed spec fn wf(&self) -> bool {
        &&& self.owners.len() == self.lists.len()
        &&& forall|i: int, j: int|
            0 <= i < self.owners.len() && 0 <= j < self.owners.len() && i != j
                ==> self.owners[i]@ != self.owners[j]@
        &&& forall|i: int|
            0 <= i < self.owners.len() ==> {
                &&& self.model@.contains_key(#[trigger] self.owners[i]@)
                &&& self.model@[self.owners[i]@] == self.lists[i]@
            }
        &&& forall|k: Seq<u8>|
            #[trigger] self.model@.contains_key(k) ==> exists|i: int|
                0 <= i < self.owners.len() && self.owners[i]@ == k
        &&& forall|k: Seq<u8>| #[trigger] self.model@.contains_key(k) ==> self.model@[k].no_duplicates()
    }

    /// The list of `who`: empty where `who` has none.
    pub open spec fn list(&self, who: Seq<u8>) -> Seq<u64> {
        list_in(self@, who)
    }

    pub fn new() -> (r: IdLists)
        ensures
            r.wf(),
            r@ == Map::<Seq<u8>, Seq<u64>>::empty(),
    {
        IdLists { owners: Vec::new(), lists: Vec::new(), model: Ghost(Map::empty()) }
    }

    fn find(&self, who: &Identity) -> (r: Option<usize>)
        requires
            self.wf(),
        ensures
            match r {
                Some(i) => i < self.owners.len() && self.owners[i as int]@ == who@,
                None => !self@.contains_key(who@),
            },
    {
        let mut i: usize = 0;
        while i < self.owners.len()
            invariant
                self.wf(),
                0 <= i <= self.owners.len(),
                forall|j: int| 0 <= j < i ==> self.owners[j]@ != who@,
            decreases self.owners.len() - i,
        {
            if self.owners[i].same_as(who) {
                return Some(i);
            }
            i += 1;
        }
        None
    }

    /// Appends `id` to the list of `who`, unless it is already there.
    pub fn add(&mut self, who: &Identity, id: u64) -> (r: Result<(), RegistryError>)
        requires
            old(self).wf(),
        ensures
            final(self).wf(),
            old(self).list(who@).contains(id) ==> r == Err::<(), RegistryError>(RegistryError::DuplicateEntry)
                && final(self)@ == old(self)@,
            !old(self).list(who@).contains(id) ==> r is Ok
                && final(self)@ == old(self)@.insert(who@, old(self).list(who@).push(id)),
    {
        let ghost old_model = self.model@;
        let ghost old_owners = self.owners@;
        match self.find(who) {
            Some(i) => {
                if position(&self.lists[i], id).is_some() {
                    return Err(RegistryError::DuplicateEntry);
                }
                let ghost old_list = self.lists[i as int]@;
                let mut updated = self.lists[i].clone();
                assert(updated@ =~= old_list);
                updated.push(id);
                self.lists[i] = updated;
                self.model = Ghost(self.model@.insert(who@, old_list.push(id)));
                proof {
                    assert forall|k: Seq<u8>| #[trigger] self.model@.contains_key(k) implies exists|j: int|
                        0 <= j < self.owners.len() && self.owners[j]@ == k by {
                        if k == who@ {
                            assert(self.owners[i as int]@ == k);
                        } else {
                            assert(old_model.contains_key(k));
                            let j = choose|j: int| 0 <= j < old_owners.len() && old_owners[j]@ == k;
                            assert(self.owners[j]@ == k);
                        }
                    }
                    assert(self.model@[who@].no_duplicates());
                }
                Ok(())
            },
            None => {
                let mut fresh: Vec<u64> = Vec::new();
                fresh.push(id);
                self.owners.push(who.clone());
                self.lists.push(fresh);
                self.model = Ghost(self.model@.insert(who@, seq![id]));
                proof {
                    let n = self.owners.len() - 1;
                    assert(self.lists[n as int]@ =~= seq![id]);
                    assert(seq![id] =~= Seq::<u64>::empty().push(id));
                    assert forall|k: Seq<u8>| #[trigger] self.model@.contains_key(k) implies exists|j: int|
                        0 <= j < self.owners.len() && self.owners[j]@ == k by {
                        if k == who@ {
                            assert(self.owners[n as int]@ == k);
                        } else {
                            assert(old_model.contains_key(k));
                            let j = choose|j: int| 0 <= j < old_owners.len() && old_owners[j]@ == k;
                            assert(self.owners[j]@ == k);
                        }
                    }
                }
                Ok(())
            },
        }
    }

    /// Takes `id` out of the list of `who`, where it stands.
    pub fn remove(&mut self, who: &Identity, id: u64) -> (r: Result<(), RegistryError>)
        requires
            old(self).wf(),
        ensures
            final(self).wf(),
            !old(self).list(who@).contains(id) ==> r == Err::<(), RegistryError>(RegistryError::NotFound)
                && final(self)@ == old(self)@,
            old(self).list(who@).contains(id) ==> r is Ok
                && final(self)@ == old(self)@.insert(who@, without(old(self).list(who@), id)),
    {
        let ghost old_model = self.model@;
        match self.find(who) {
            Some(i) => {
                match position(&self.lists[i], id) {
                    None => Err(RegistryError::NotFound),
                    Some(k) => {
                        let ghost old_list = self.lists[i as int]@;
                        proof {
                            lemma_without(old_list, id);
                            assert(old_list.index_of(id) == k as int);
                        }
                        let mut updated = self.lists[i].clone();
                        assert(updated@ =~= old_list);
                        updated.remove(k);
                        self.lists[i] = updated;
                        self.model = Ghost(self.model@.insert(who@, without(old_list, id)));
                        proof {
                            assert forall|q: Seq<u8>| #[trigger] self.model@.contains_key(q) implies exists|j: int|
                                0 <= j < self.owners.len() && self.owners[j]@ == q by {
                                if q == who@ {
                                    assert(self.owners[i as int]@ == q);
                                } else {
                                    assert(old_model.contains_key(q));
                                }
                            }
                        }
                        Ok(())
                    },
                }
            },
            None => Err(RegistryError::NotFound),
        }
    }

    /// The list of `who`, in insertion order; empty where `who` has none.
    pub fn list_of(&self, who: &Identity) -> (r: Vec<u64>)
        requires
            self.wf(),
        ensures
            r@ == self.list(who@),
    {
        match self.find(who) {
            Some(i) => {
                let r = self.lists[i].clone();
                assert(r@ =~= self.lists[i as int]@);
                r
            },
            None => Vec::new(),
        }
    }
}

/// The ownership index: for each identity, the ids of the pets it owns and
/// the ids of the pets waiting for it to claim them.
pub struct UsersPetData {
    pending: IdLists,
    pets: IdLists,
}

impl UsersPetData {
    pub closed spec fn wf(&self) -> bool {
        self.pending.wf() && self.pets.wf()
    }

    /// Owned pet ids, by identity.
    pub closed spec fn owned_map(&self) -> Map<Seq<u8>, Seq<u64>> {
        self.pets@
    }

    /// Pet ids waiting to be claimed, by identity.
    pub closed spec fn pending_map(&self) -> Map<Seq<u8>, Seq<u64>> {
        self.pending@
    }

    pub open spec fn owned(&self, who: Seq<u8>) -> Seq<u64> {
        list_in(self.owned_map(), who)
    }

    pub open spec fn pending_for(&self, who: Seq<u8>) -> Seq<u64> {
        list_in(self.pending_map(), who)
    }

    /// No list of the index holds an id twice.
    pub proof fn lemma_no_duplicates(&self, who: Seq<u8>)
        requires
            self.wf(),
        ensures
            self.owned(who).no_duplicates(),
            self.pending_for(who).no_duplicates(),
    {
    }

    pub fn new() -> (r: UsersPetData)
        ensures
            r.wf(),
            r.owned_map() == Map::<Seq<u8>, Seq<u64>>::empty(),
            r.pending_map() == Map::<Seq<u8>, Seq<u64>>::empty(),
    {
        UsersPetData { pending: IdLists::new(), pets: IdLists::new() }
    }

    /// Records that `to` owns `pet_id`; refused where it already does.
    pub fn add_pet(&mut self, pet_id: &u64, to: &Identity) -> (r: Result<(), RegistryError>)
        requires
            old(self).wf(),
        ensures
            final(self).wf(),
            final(self).pending_map() == old(self).pending_map(),
            old(self).owned(to@).contains(*pet_id) ==> r == Err::<(), RegistryError>(RegistryError::DuplicateEntry)
                && final(self).owned_map() == old(self).owned_map(),
            !old(self).owned(to@).contains(*pet_id) ==> r is Ok
                && final(self).owned_map() == old(self).owned_map().insert(to@, old(self).owned(to@).push(*pet_id)),
    {
        self.pets.add(to, *pet_id)
    }

    /// Records that `to` no longer owns `pet_id`; refused where it did not.
    pub fn remove_pet(&mut self, pet_id: &u64, to: &Identity) -> (r: Result<(), RegistryError>)
        requires
            old(self).wf(),
        ensures
            final(self).wf(),
            final(self).pending_map() == old(self).pending_map(),
            !old(self).owned(to@).contains(*pet_id) ==> r == Err::<(), RegistryError>(RegistryError::NotFound)
                && final(self).owned_map() == old(self).owned_map(),
            old(self).owned(to@).contains(*pet_id) ==> r is Ok
                && final(self).owned_map() == old(self).owned_map().insert(to@, without(old(self).owned(to@), *pet_id)),
    {
        self.pets.remove(to, *pet_id)
    }

    /// The ids of the pets that `account` owns, in the order they came.
    pub fn get_pets(&self, account: &Identity) -> (r: Vec<u64>)
        requires
            self.wf(),
        ensures
            r@ == self.owned(account@),
    {
        self.pets.list_of(account)
    }

    /// Records that `pet_id` waits for `to` to claim it; refused where it already does.
    pub fn add_pending(&mut self, pet_id: &u64, to: &Identity) -> (r: Result<(), RegistryError>)
        requires
            old(self).wf(),
        ensures
            final(self).wf(),
            final(self).owned_map() == old(self).owned_map(),
            old(self).pending_for(to@).contains(*pet_id) ==> r == Err::<(), RegistryError>(RegistryError::DuplicateEntry)
                && final(self).pending_map() == old(self).pending_map(),
            !old(self).pending_for(to@).contains(*pet_id) ==> r is Ok
                && final(self).pending_map() == old(self).pending_map().insert(to@, old(self).pending_for(to@).push(*pet_id)),
    {
        self.pending.add(to, *pet_id)
    }

    /// Records that `pet_id` no longer waits for `to`; refused where it did not.
    pub fn remove_pending(&mut self, pet_id: &u64, to: &Identity) -> (r: Result<(), RegistryError>)
        requires
            old(self).wf(),
        ensures
            final(self).wf(),
            final(self).owned_map() == old(self).owned_map(),
            !old(self).pending_for(to@).contains(*pet_id) ==> r == Err::<(), RegistryError>(RegistryError::NotFound)
                && final(self).pending_map() == old(self).pending_map(),
            old(self).pending_for(to@).contains(*pet_id) ==> r is Ok
                && final(self).pending_map() == old(self).pending_map().insert(to@, without(old(self).pending_for(to@), *pet_id)),
    {
        self.pending.remove(to, *pet_id)
    }

    /// The ids of the pets waiting for `account` to claim them, in the order they came.
    pub fn get_pending_pets(&self, account: &Identity) -> (r: Vec<u64>)
        requires
            self.wf(),
        ensures
            r@ == self.pending_for(account@),
    {
        self.pending.list_of(account)
    }
}

impl Default for UsersPetData {
    fn default() -> (r: Self)
        ensures
            r.wf(),
            r.owned_map() == Map::<Seq<u8>, Seq<u64>>::empty(),
            r.pending_map() == Map::<Seq<u8>, Seq<u64>>::empty(),
    {
        UsersPetData::new()
    }
}

} // verus!
