use bottle_tracking::{
    Bottle, BottleBuilder, BottleStatus, Error, Event, Registrar, BOTTLE_ID_MAX_LENGTH,
};

fn with_manufacturer() -> Registrar {
    let mut r = Registrar::new();
    r.register_manufacturer(1).unwrap();
    r.register_carrier(2).unwrap();
    r
}

#[test]
fn bottle_registers_once() {
    let mut r = with_manufacturer();
    assert_eq!(r.register_bottle(1, b"B1".to_vec(), 100), Ok(()));
    assert_eq!(r.register_bottle(1, b"B1".to_vec(), 200), Err(Error::IdExists));
    let b = r.bottle_by_id(b"B1").unwrap();
    assert_eq!(b.id, b"B1".to_vec());
    assert_eq!(b.owner, 1);
    assert_eq!(b.status, BottleStatus::Manufactured);
    assert_eq!(b.registered, 100);
    assert_eq!(r.event_log().last(), Some(&Event::BottleRegistered(1, b"B1".to_vec())));
    assert_eq!(r.event_log().len(), 3);
}

#[test]
fn bottle_id_limits() {
    let mut r = with_manufacturer();
    assert_eq!(r.register_bottle(1, Vec::new(), 1), Err(Error::IdMissing));
    assert_eq!(r.register_bottle(1, vec![b'x'; BOTTLE_ID_MAX_LENGTH + 1], 1), Err(Error::IdTooLong));
    assert_eq!(r.register_bottle(1, vec![b'x'; BOTTLE_ID_MAX_LENGTH], 1), Ok(()));
    assert!(r.bottle_by_id(&vec![b'x'; BOTTLE_ID_MAX_LENGTH]).is_some());
    assert_eq!(Registrar::validate_bottle_id(b"ok"), Ok(()));
    assert_eq!(Registrar::validate_bottle_id(b""), Err(Error::IdMissing));
}

#[test]
fn only_manufacturers_register_bottles() {
    let mut r = with_manufacturer();
    assert_eq!(r.register_bottle(2, b"B1".to_vec(), 1), Err(Error::NotManufacturer));
    assert_eq!(r.register_bottle(42, Vec::new(), 1), Err(Error::NotManufacturer));
    assert!(r.bottle_by_id(b"B1").is_none());
}

#[test]
fn bottles_listed_by_manufacturer() {
    let mut r = with_manufacturer();
    r.register_manufacturer(5).unwrap();
    r.register_bottle(1, b"A".to_vec(), 1).unwrap();
    r.register_bottle(5, b"B".to_vec(), 2).unwrap();
    r.register_bottle(1, b"C".to_vec(), 3).unwrap();
    assert_eq!(r.bottles_of_manufacturer(1), vec![b"A".to_vec(), b"C".to_vec()]);
    assert_eq!(r.bottles_of_manufacturer(5), vec![b"B".to_vec()]);
    assert!(r.bottles_of_manufacturer(2).is_empty());
}

#[test]
fn presence_and_owner_checks() {
    let mut r = with_manufacturer();
    r.register_bottle(1, b"B1".to_vec(), 1).unwrap();
    assert_eq!(r.check_bottle_id_present(b"B1"), Ok(()));
    assert_eq!(r.check_bottle_id_present(b"B2"), Err(Error::BottleNotExist));
    assert_eq!(r.validate_new_bottle(b"B1"), Err(Error::IdExists));
    assert_eq!(r.validate_new_bottle(b"B2"), Ok(()));
    assert_eq!(r.check_bottle_owner(b"B1", 1), Ok(()));
    assert_eq!(r.check_bottle_owner(b"B1", 2), Err(Error::NotBottleOwner));
    assert_eq!(r.check_bottle_owner(b"B2", 1), Err(Error::NotBottleOwner));
}

#[test]
fn owner_update_moves_custody() {
    let mut r = with_manufacturer();
    r.register_bottle(1, b"B1".to_vec(), 9).unwrap();
    assert_eq!(r.update_bottle_owner(b"B1", 2), Ok(()));
    let b = r.bottle_by_id(b"B1").unwrap();
    assert_eq!(b.owner, 2);
    assert_eq!(b.registered, 9);
    assert_eq!(b.id, b"B1".to_vec());
    assert_eq!(r.update_bottle_owner(b"nope", 2), Err(Error::BottleNotExist));
}

#[test]
fn bottle_builder_and_owner_change() {
    let b: Bottle = BottleBuilder::default()
        .identified_by(b"Z".to_vec())
        .manufactured_by(3)
        .registered_on(77)
        .build();
    assert_eq!(b.id, b"Z".to_vec());
    assert_eq!(b.owner, 3);
    assert_eq!(b.registered, 77);
    assert_eq!(b.status, BottleStatus::Manufactured);
    let c = b.duplicate().change_owner(8);
    assert_eq!(c.owner, 8);
    assert_eq!(c.id, b"Z".to_vec());
    assert_eq!(BottleStatus::default(), BottleStatus::Manufactured);
    let fresh = Registrar::new_bottle();
    assert!(fresh.id.is_empty());
}
