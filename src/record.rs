use vstd::prelude::*;

use crate::identity::Identity;

verus! {

/// Who owns a pet, and how to reach them.
#[derive(Debug, PartialEq, Eq)]
pub struct OwnerData {
    pub id: Identity,
    pub name: String,
    pub address: String,
    pub phone_number: String,
}

pub struct OwnerView {
    pub id: Seq<u8>,
    pub name: Seq<char>,
    pub address: Seq<char>,
    pub phone_number: Seq<char>,
}

impl View for OwnerData {
    type V = OwnerView;

    open spec fn view(&self) -> OwnerView {
        OwnerView {
            id: self.id@,
            name: self.name@,
            address: self.address@,
            phone_number: self.phone_number@,
        }
    }
}

impl Clone for OwnerData {
    fn clone(&self) -> (r: Self)
        ensures
            r@ == self@,
    {
        OwnerData {
            id: self.id.clone(),
            name: self.name.clone(),
            address: self.address.clone(),
            phone_number: self.phone_number.clone(),
        }
    }
}

impl Default for OwnerData {
    /// Owner details of the anonymous principal, with every text field empty.
    fn default() -> (r: Self)
        ensures
            r@ == (OwnerView {
                id: seq![4u8],
                name: Seq::empty(),
                address: Seq::empty(),
                phone_number: Seq::empty(),
            }),
    {
        OwnerData {
            id: Identity::anonymous(),
            name: String::new(),
            address: String::new(),
            phone_number: String::new(),
        }
    }
}

/// A pet as the registry stores it.
#[derive(Debug, PartialEq, Eq)]
pub struct PetRecord {
    pub id: u64,
    pub breed: String,
    pub sex: String,
    pub date_of_birth: String,
    pub image_url: String,
    pub created_at: u64,
    pub updated_at: Option<u64>,
    /// The recipient of a pending transfer; present exactly while one is pending.
    pub transfer_to: Option<Identity>,
    pub owner_details: OwnerData,
}

pub struct PetRecordView {
    pub id: u64,
    pub breed: Seq<char>,
    pub sex: Seq<char>,
    pub date_of_birth: Seq<char>,
    pub image_url: Seq<char>,
    pub created_at: u64,
    pub updated_at: Option<u64>,
    pub transfer_to: Option<Seq<u8>>,
    pub owner_details: OwnerView,
}

pub open spec fn identity_opt_view(o: Option<Identity>) -> Option<Seq<u8>> {
    match o {
        Some(who) => Some(who@),
        None => None,
    }
}

impl View for PetRecord {
    type V = PetRecordView;

    open spec fn view(&self) -> PetRecordView {
        PetRecordView {
            id: self.id,
            breed: self.breed@,
            sex: self.sex@,
            date_of_birth: self.date_of_birth@,
            image_url: self.image_url@,
            created_at: self.created_at,
            updated_at: self.updated_at,
            transfer_to: identity_opt_view(self.transfer_to),
            owner_details: self.owner_details@,
        }
    }
}

impl Clone for PetRecord {
    fn clone(&self) -> (r: Self)
        ensures
            r@ == self@,
    {
        let transfer_to = match &self.transfer_to {
            Some(who) => Some(who.clone()),
            None => None,
        };
        PetRecord {
            id: self.id,
            breed: self.breed.clone(),
            sex: self.sex.clone(),
            date_of_birth: self.date_of_birth.clone(),
            image_url: self.image_url.clone(),
            created_at: self.created_at,
            updated_at: self.updated_at,
            transfer_to,
            owner_details: self.owner_details.clone(),
        }
    }
}

/// The descriptive fields of a new pet.
#[derive(Debug, PartialEq, Eq)]
pub struct PetPayload {
    pub breed: String,
    pub sex: String,
    pub date_of_birth: String,
    pub image_url: String,
}

/// The contact fields of an owner.
#[derive(Debug, PartialEq, Eq)]
pub struct OwnerPayload {
    pub name: String,
    pub address: String,
    pub phone_number: String,
}

/// A change to a pet's descriptive fields: each present field replaces the
/// stored one, each absent field leaves it as it is.
#[derive(Debug, PartialEq, Eq)]
pub struct PetPatch {
    pub breed: Option<String>,
    pub sex: Option<String>,
    pub date_of_birth: Option<String>,
    pub image_url: Option<String>,
}

/// A change to an owner's contact fields, merged field by field.
#[derive(Debug, PartialEq, Eq)]
pub struct OwnerPatch {
    pub name: Option<String>,
    pub address: Option<String>,
    pub phone_number: Option<String>,
}

/// The text that a patch field leaves in place of `current`.
pub open spec fn patched(current: Seq<char>, change: Option<String>) -> Seq<char> {
    match change {
        Some(s) => s@,
        None => current,
    }
}

pub fn apply_field(current: String, change: Option<String>) -> (r: String)
    ensures
        r@ == patched(current@, change),
{
    match change {
        Some(s) => s,
        None => current,
    }
}

} // verus!
