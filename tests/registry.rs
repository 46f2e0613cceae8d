use pet_registry::{
    Identity, OwnerPatch, OwnerPayload, PetPatch, PetPayload, PetRecord, Registry, RegistryError,
};

fn who(b: u8) -> Identity {
    Identity::from_bytes(vec![b, 0x11, 0x22])
}

fn pet(breed: &str) -> PetPayload {
    PetPayload {
        breed: breed.to_string(),
        sex: "female".to_string(),
        date_of_birth: "2020-02-02".to_string(),
        image_url: "https://example.org/pet.png".to_string(),
    }
}

fn owner(name: &str) -> OwnerPayload {
    OwnerPayload {
        name: name.to_string(),
        address: format!("{} street 1", name),
        phone_number: "555-0100".to_string(),
    }
}

fn create(reg: &mut Registry, breed: &str, caller: &Identity, now: u64) -> PetRecord {
    assert!(reg.has_free_id());
    reg.add_pet_record(pet(breed), owner("alice"), caller, now).unwrap()
}

/// Every stored pet is in its owner's list once, and in the pending list of
/// its recipient once, and in no other list.
fn assert_consistent(reg: &Registry, ids: &[u64], people: &[Identity]) {
    for &id in ids {
        let rec = match reg.get_pet_record(id) {
            Ok(rec) => rec,
            Err(_) => continue,
        };
        for p in people {
            let owned = reg.view_pets_list(p).iter().filter(|&&x| x == id).count();
            let expected = if rec.owner_details.id == *p { 1 } else { 0 };
            assert_eq!(owned, expected);
            let pending = reg.view_pending_pets(p).iter().filter(|&&x| x == id).count();
            let expected = if rec.transfer_to.as_ref() == Some(p) { 1 } else { 0 };
            assert_eq!(pending, expected);
        }
    }
}

#[test]
fn create_then_read_returns_supplied_fields() {
    let mut reg = Registry::new();
    let a = who(1);
    let made = reg.add_pet_record(pet("beagle"), owner("alice"), &a, 100).unwrap();
    assert_eq!(made.id, 1);
    let read = reg.get_pet_record(1).unwrap();
    assert_eq!(read, made);
    assert_eq!(read.breed, "beagle");
    assert_eq!(read.sex, "female");
    assert_eq!(read.date_of_birth, "2020-02-02");
    assert_eq!(read.image_url, "https://example.org/pet.png");
    assert_eq!(read.created_at, 100);
    assert_eq!(read.updated_at, None);
    assert_eq!(read.transfer_to, None);
    assert_eq!(read.owner_details.id, a);
    assert_eq!(read.owner_details.name, "alice");
    assert_eq!(read.owner_details.address, "alice street 1");
    assert_eq!(read.owner_details.phone_number, "555-0100");
    assert_eq!(reg.view_pets_list(&a), vec![1]);
}

#[test]
fn read_of_unknown_id_is_not_found() {
    let reg = Registry::new();
    assert_eq!(reg.get_pet_record(7), Err(RegistryError::NotFound));
}

#[test]
fn ids_increase_and_are_not_reused() {
    let mut reg = Registry::new();
    let a = who(1);
    let first = create(&mut reg, "a", &a, 1).id;
    let second = create(&mut reg, "b", &a, 2).id;
    assert_eq!((first, second), (1, 2));
    reg.delete_pet_record(second, &a).unwrap();
    let third = create(&mut reg, "c", &a, 3).id;
    assert_eq!(third, 3);
    assert_eq!(reg.view_pets_list(&a), vec![1, 3]);
}

#[test]
fn transfer_and_claim_moves_ownership() {
    let mut reg = Registry::new();
    let (a, b) = (who(1), who(2));
    assert_eq!(create(&mut reg, "collie", &a, 10).id, 1);
    let marked = reg.transfer_pet(1, &b, &a, 11).unwrap();
    assert_eq!(marked.transfer_to, Some(b.clone()));
    assert_eq!(marked.updated_at, Some(11));
    assert_eq!(reg.view_pending_pets(&b), vec![1]);
    let claimed = reg.claim_pet(1, owner("bob"), &b, 12).unwrap();
    assert_eq!(claimed.owner_details.id, b);
    assert_eq!(claimed.owner_details.name, "bob");
    assert_eq!(claimed.transfer_to, None);
    assert_eq!(claimed.updated_at, Some(12));
    assert_eq!(claimed.breed, "collie");
    assert_eq!(reg.view_pets_list(&a), Vec::<u64>::new());
    assert_eq!(reg.view_pets_list(&b), vec![1]);
    assert_eq!(reg.view_pending_pets(&b), Vec::<u64>::new());
    assert_eq!(reg.get_pet_record(1).unwrap(), claimed);
}

#[test]
fn claim_by_someone_else_is_not_recipient() {
    let mut reg = Registry::new();
    let (a, b, c) = (who(1), who(2), who(3));
    create(&mut reg, "collie", &a, 10);
    reg.transfer_pet(1, &b, &a, 11).unwrap();
    let before = reg.get_pet_record(1).unwrap();
    assert_eq!(reg.claim_pet(1, owner("carol"), &c, 12), Err(RegistryError::NotRecipient));
    assert_eq!(reg.get_pet_record(1).unwrap(), before);
    assert_eq!(reg.view_pets_list(&a), vec![1]);
    assert_eq!(reg.view_pets_list(&c), Vec::<u64>::new());
    assert_eq!(reg.view_pending_pets(&b), vec![1]);
}

#[test]
fn claim_without_transfer_is_not_pending() {
    let mut reg = Registry::new();
    let (a, b) = (who(1), who(2));
    create(&mut reg, "collie", &a, 10);
    assert_eq!(reg.claim_pet(1, owner("bob"), &b, 11), Err(RegistryError::NotPending));
    assert_eq!(reg.claim_pet(9, owner("bob"), &b, 11), Err(RegistryError::NotFound));
}

#[test]
fn delete_while_pending_is_conflict() {
    let mut reg = Registry::new();
    let (a, b) = (who(1), who(2));
    create(&mut reg, "collie", &a, 10);
    reg.transfer_pet(1, &b, &a, 11).unwrap();
    assert_eq!(reg.delete_pet_record(1, &a), Err(RegistryError::Conflict));
    assert!(reg.get_pet_record(1).is_ok());
    assert_eq!(reg.view_pets_list(&a), vec![1]);
}

#[test]
fn delete_by_owner_removes_record_and_listing() {
    let mut reg = Registry::new();
    let (a, b) = (who(1), who(2));
    create(&mut reg, "collie", &a, 10);
    create(&mut reg, "poodle", &a, 10);
    assert_eq!(reg.delete_pet_record(1, &b), Err(RegistryError::Unauthorized));
    assert_eq!(reg.delete_pet_record(5, &a), Err(RegistryError::NotFound));
    let gone = reg.delete_pet_record(1, &a).unwrap();
    assert_eq!(gone.breed, "collie");
    assert_eq!(reg.get_pet_record(1), Err(RegistryError::NotFound));
    assert_eq!(reg.view_pets_list(&a), vec![2]);
}

#[test]
fn update_by_non_owner_is_unauthorized() {
    let mut reg = Registry::new();
    let (a, b) = (who(1), who(2));
    create(&mut reg, "collie", &a, 10);
    let before = reg.get_pet_record(1).unwrap();
    let patch = PetPatch {
        breed: Some("husky".to_string()),
        sex: None,
        date_of_birth: None,
        image_url: None,
    };
    assert_eq!(reg.update_pet_record(1, patch, &b, 11), Err(RegistryError::Unauthorized));
    assert_eq!(reg.get_pet_record(1).unwrap(), before);
}

#[test]
fn pet_patch_replaces_present_fields_only() {
    let mut reg = Registry::new();
    let a = who(1);
    create(&mut reg, "collie", &a, 10);
    let patch = PetPatch {
        breed: Some("husky".to_string()),
        sex: None,
        date_of_birth: None,
        image_url: Some("https://example.org/new.png".to_string()),
    };
    let rec = reg.update_pet_record(1, patch, &a, 20).unwrap();
    assert_eq!(rec.breed, "husky");
    assert_eq!(rec.sex, "female");
    assert_eq!(rec.date_of_birth, "2020-02-02");
    assert_eq!(rec.image_url, "https://example.org/new.png");
    assert_eq!(rec.updated_at, Some(20));
    assert_eq!(rec.created_at, 10);
    assert_eq!(reg.get_pet_record(1).unwrap(), rec);
    let none = PetPatch { breed: None, sex: None, date_of_birth: None, image_url: None };
    assert_eq!(reg.update_pet_record(3, none, &a, 21), Err(RegistryError::NotFound));
}

#[test]
fn owner_patch_replaces_present_fields_only() {
    let mut reg = Registry::new();
    let (a, b) = (who(1), who(2));
    create(&mut reg, "collie", &a, 10);
    let patch = OwnerPatch { name: None, address: Some("elsewhere 9".to_string()), phone_number: None };
    let rec = reg.update_owner_record(1, patch, &a, 30).unwrap();
    assert_eq!(rec.owner_details.name, "alice");
    assert_eq!(rec.owner_details.address, "elsewhere 9");
    assert_eq!(rec.owner_details.phone_number, "555-0100");
    assert_eq!(rec.owner_details.id, a);
    assert_eq!(rec.updated_at, Some(30));
    let other = OwnerPatch { name: Some("mallory".to_string()), address: None, phone_number: None };
    assert_eq!(reg.update_owner_record(1, other, &b, 31), Err(RegistryError::Unauthorized));
    let missing = OwnerPatch { name: None, address: None, phone_number: None };
    assert_eq!(reg.update_owner_record(4, missing, &a, 31), Err(RegistryError::NotFound));
}

#[test]
fn transfer_errors() {
    let mut reg = Registry::new();
    let (a, b, c) = (who(1), who(2), who(3));
    create(&mut reg, "collie", &a, 10);
    assert_eq!(reg.transfer_pet(2, &b, &a, 11), Err(RegistryError::NotFound));
    assert_eq!(reg.transfer_pet(1, &c, &b, 11), Err(RegistryError::Unauthorized));
    reg.transfer_pet(1, &b, &a, 11).unwrap();
    assert_eq!(reg.transfer_pet(1, &c, &a, 12), Err(RegistryError::AlreadyPending));
    assert_eq!(reg.view_pending_pets(&c), Vec::<u64>::new());
    assert_eq!(reg.view_pending_pets(&b), vec![1]);
}

#[test]
fn revoke_without_transfer_is_not_pending() {
    let mut reg = Registry::new();
    let a = who(1);
    create(&mut reg, "collie", &a, 10);
    assert_eq!(reg.revoke_transfer(1, &a, 11), Err(RegistryError::NotPending));
}

#[test]
fn revoke_withdraws_pending_transfer() {
    let mut reg = Registry::new();
    let (a, b) = (who(1), who(2));
    create(&mut reg, "collie", &a, 10);
    reg.transfer_pet(1, &b, &a, 11).unwrap();
    assert_eq!(reg.revoke_transfer(1, &b, 12), Err(RegistryError::Unauthorized));
    assert_eq!(reg.revoke_transfer(3, &a, 12), Err(RegistryError::NotFound));
    let rec = reg.revoke_transfer(1, &a, 13).unwrap();
    assert_eq!(rec.transfer_to, None);
    assert_eq!(rec.updated_at, Some(13));
    assert_eq!(reg.view_pending_pets(&b), Vec::<u64>::new());
    assert_eq!(reg.view_pets_list(&a), vec![1]);
    assert_eq!(reg.claim_pet(1, owner("bob"), &b, 14), Err(RegistryError::NotPending));
}

#[test]
fn transfer_to_current_owner_can_be_claimed_back() {
    // Transferring to oneself is not forbidden; the claim keeps one listing.
    let mut reg = Registry::new();
    let a = who(1);
    create(&mut reg, "collie", &a, 10);
    reg.transfer_pet(1, &a, &a, 11).unwrap();
    assert_eq!(reg.view_pending_pets(&a), vec![1]);
    let rec = reg.claim_pet(1, owner("alice two"), &a, 12).unwrap();
    assert_eq!(rec.owner_details.name, "alice two");
    assert_eq!(reg.view_pets_list(&a), vec![1]);
    assert_eq!(reg.view_pending_pets(&a), Vec::<u64>::new());
}

#[test]
fn index_stays_consistent_through_a_mixed_history() {
    let mut reg = Registry::new();
    let people = vec![who(1), who(2), who(3)];
    let (a, b, c) = (&people[0], &people[1], &people[2]);
    for n in 0..4 {
        create(&mut reg, "mixed", a, n);
    }
    reg.transfer_pet(1, b, a, 5).unwrap();
    reg.transfer_pet(2, c, a, 5).unwrap();
    reg.transfer_pet(3, b, a, 5).unwrap();
    reg.claim_pet(1, owner("bob"), b, 6).unwrap();
    reg.revoke_transfer(2, a, 7).unwrap();
    reg.delete_pet_record(4, a).unwrap();
    reg.transfer_pet(1, c, b, 8).unwrap();
    let _ = reg.claim_pet(3, owner("carol"), c, 9);
    let ids = [1, 2, 3, 4, 5];
    assert_consistent(&reg, &ids, &people);
    assert_eq!(reg.view_pets_list(a), vec![2, 3]);
    assert_eq!(reg.view_pets_list(b), vec![1]);
    assert_eq!(reg.view_pending_pets(b), vec![3]);
    assert_eq!(reg.view_pending_pets(c), vec![1]);
}

#[test]
fn default_registry_is_empty() {
    let reg = Registry::default();
    assert_eq!(reg.view_pets_list(&who(1)), Vec::<u64>::new());
    assert_eq!(reg.get_pet_record(1), Err(RegistryError::NotFound));
    assert!(reg.has_free_id());
}
