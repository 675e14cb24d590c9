use leknet::entity_map::{EntityMap, IdentityError};

#[test]
fn a_pair_is_found_from_both_sides() {
    let mut map = EntityMap::new();
    assert_eq!(map.insert(1, 100), Ok(()));
    assert_eq!(map.lookup_by_local(1), Some(100));
    assert_eq!(map.lookup_by_remote(100), Some(1));
    assert_eq!(map.lookup_by_local(100), None);
    assert_eq!(map.lookup_by_remote(1), None);
    assert_eq!(map.len(), 1);
}

#[test]
fn a_taken_local_identity_keeps_its_partner() {
    let mut map = EntityMap::new();
    assert_eq!(map.insert(1, 100), Ok(()));
    assert_eq!(map.insert(1, 200), Err(IdentityError::LocalTaken));
    assert_eq!(map.lookup_by_local(1), Some(100));
    assert_eq!(map.lookup_by_remote(100), Some(1));
    assert_eq!(map.lookup_by_remote(200), None);
    assert_eq!(map.len(), 1);
}

#[test]
fn a_taken_remote_identity_keeps_its_partner() {
    let mut map = EntityMap::new();
    assert_eq!(map.insert(1, 100), Ok(()));
    assert_eq!(map.insert(2, 100), Err(IdentityError::RemoteTaken));
    assert_eq!(map.lookup_by_remote(100), Some(1));
    assert_eq!(map.lookup_by_local(2), None);
    assert_eq!(map.insert(1, 100), Err(IdentityError::LocalTaken));
}

#[test]
fn removing_by_either_side_parts_the_pair() {
    let mut map = EntityMap::new();
    map.insert(1, 100).unwrap();
    map.insert(2, 200).unwrap();
    assert_eq!(map.remove_by_local(1), Ok(100));
    assert_eq!(map.lookup_by_local(1), None);
    assert_eq!(map.lookup_by_remote(100), None);
    assert_eq!(map.remove_by_remote(200), Ok(2));
    assert_eq!(map.lookup_by_local(2), None);
    assert_eq!(map.lookup_by_remote(200), None);
    assert_eq!(map.len(), 0);
}

#[test]
fn removing_a_stranger_is_an_error() {
    let mut map = EntityMap::new();
    map.insert(1, 100).unwrap();
    assert_eq!(map.remove_by_local(100), Err(IdentityError::Missing));
    assert_eq!(map.remove_by_remote(1), Err(IdentityError::Missing));
    assert_eq!(map.lookup_by_local(1), Some(100));
    assert_eq!(map.len(), 1);
}

#[test]
fn parted_identities_can_pair_again() {
    let mut map = EntityMap::new();
    map.insert(1, 100).unwrap();
    assert_eq!(map.remove_by_local(1), Ok(100));
    assert_eq!(map.insert(1, 200), Ok(()));
    assert_eq!(map.insert(2, 100), Ok(()));
    assert_eq!(map.lookup_by_remote(200), Some(1));
    assert_eq!(map.lookup_by_local(2), Some(100));
}

#[test]
fn an_identity_may_pair_with_its_own_number() {
    let mut map = EntityMap::new();
    assert_eq!(map.insert(5, 5), Ok(()));
    assert_eq!(map.lookup_by_local(5), Some(5));
    assert_eq!(map.lookup_by_remote(5), Some(5));
    assert_eq!(map.insert(u64::MAX, 0), Ok(()));
    assert_eq!(map.lookup_by_remote(0), Some(u64::MAX));
}
