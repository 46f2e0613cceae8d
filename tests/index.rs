use pet_registry::{Identity, OwnerData, RegistryError, UsersPetData};

fn who(b: u8) -> Identity {
    Identity::from_bytes(vec![b])
}

#[test]
fn add_pet_keeps_insertion_order() {
    let mut data = UsersPetData::new();
    let a = who(1);
    assert_eq!(data.add_pet(&5, &a), Ok(()));
    assert_eq!(data.add_pet(&2, &a), Ok(()));
    assert_eq!(data.add_pet(&9, &a), Ok(()));
    assert_eq!(data.get_pets(&a), vec![5, 2, 9]);
    assert_eq!(data.get_pending_pets(&a), Vec::<u64>::new());
}

#[test]
fn add_pet_twice_is_duplicate_entry() {
    let mut data = UsersPetData::default();
    let a = who(1);
    data.add_pet(&5, &a).unwrap();
    assert_eq!(data.add_pet(&5, &a), Err(RegistryError::DuplicateEntry));
    assert_eq!(data.get_pets(&a), vec![5]);
    // The same id may stand in another identity's list.
    assert_eq!(data.add_pet(&5, &who(2)), Ok(()));
}

#[test]
fn remove_pet_takes_out_by_value() {
    let mut data = UsersPetData::new();
    let a = who(1);
    for id in [4u64, 7, 8] {
        data.add_pet(&id, &a).unwrap();
    }
    assert_eq!(data.remove_pet(&7, &a), Ok(()));
    assert_eq!(data.get_pets(&a), vec![4, 8]);
    assert_eq!(data.remove_pet(&7, &a), Err(RegistryError::NotFound));
}

#[test]
fn remove_pet_of_unknown_identity_is_not_found() {
    let mut data = UsersPetData::new();
    assert_eq!(data.remove_pet(&1, &who(3)), Err(RegistryError::NotFound));
    assert_eq!(data.remove_pending(&1, &who(3)), Err(RegistryError::NotFound));
}

#[test]
fn emptied_list_reads_as_empty() {
    let mut data = UsersPetData::new();
    let a = who(1);
    data.add_pending(&3, &a).unwrap();
    data.remove_pending(&3, &a).unwrap();
    assert_eq!(data.get_pending_pets(&a), Vec::<u64>::new());
    assert_eq!(data.add_pending(&3, &a), Ok(()));
    assert_eq!(data.get_pending_pets(&a), vec![3]);
}

#[test]
fn pending_lists_reject_duplicates_and_keep_order() {
    let mut data = UsersPetData::new();
    let a = who(1);
    data.add_pending(&3, &a).unwrap();
    data.add_pending(&1, &a).unwrap();
    assert_eq!(data.add_pending(&3, &a), Err(RegistryError::DuplicateEntry));
    assert_eq!(data.get_pending_pets(&a), vec![3, 1]);
    assert_eq!(data.get_pets(&a), Vec::<u64>::new());
}

#[test]
fn unknown_identity_has_empty_lists() {
    let data = UsersPetData::new();
    assert_eq!(data.get_pets(&who(9)), Vec::<u64>::new());
    assert_eq!(data.get_pending_pets(&who(9)), Vec::<u64>::new());
}

#[test]
fn anonymous_identity_is_the_candid_anonymous_principal() {
    let anon = Identity::anonymous();
    assert_eq!(anon.as_bytes(), candid::Principal::anonymous().as_slice());
    assert_eq!(anon.as_bytes(), &[4u8][..]);
    let details = OwnerData::default();
    assert_eq!(details.id, anon);
    assert_eq!(details.name, "");
    assert_eq!(details.address, "");
    assert_eq!(details.phone_number, "");
}

#[test]
fn identities_compare_by_bytes() {
    assert!(who(1).same_as(&who(1)));
    assert!(!who(1).same_as(&who(2)));
    assert!(!who(1).same_as(&Identity::from_bytes(vec![1, 0])));
}
