use bottle_tracking::{Error, Event, MemberType, Registrar};

#[test]
fn each_role_registers_and_is_announced() {
    let mut r = Registrar::new();
    assert_eq!(r.register_manufacturer(1), Ok(()));
    assert_eq!(r.register_carrier(2), Ok(()));
    assert_eq!(r.register_retailer(3), Ok(()));
    assert_eq!(r.register_customer(4), Ok(()));
    assert_eq!(r.role_of(1), Some(MemberType::Manufacturer));
    assert_eq!(r.role_of(2), Some(MemberType::Carrier));
    assert_eq!(r.role_of(3), Some(MemberType::Retailer));
    assert_eq!(r.role_of(4), Some(MemberType::Customer));
    assert_eq!(r.role_of(5), None);
    assert_eq!(
        r.event_log(),
        &vec![
            Event::ManufacturerAdded(1),
            Event::CarrierAdded(2),
            Event::RetailerAdded(3),
            Event::CustomerAdded(4),
        ]
    );
}

#[test]
fn second_role_for_an_account_is_refused() {
    let mut r = Registrar::new();
    assert_eq!(r.register_manufacturer(7), Ok(()));
    assert_eq!(r.register_manufacturer(7), Err(Error::DuplicateMember));
    assert_eq!(r.register_carrier(7), Err(Error::DuplicateMember));
    assert_eq!(r.register_retailer(7), Err(Error::DuplicateMember));
    assert_eq!(r.register_customer(7), Err(Error::DuplicateMember));
    assert_eq!(r.role_of(7), Some(MemberType::Manufacturer));
    assert_eq!(r.event_log().len(), 1);
}

#[test]
fn add_member_records_without_announcing() {
    let mut r = Registrar::new();
    assert_eq!(r.add_member(MemberType::Retailer, 9), Ok(()));
    assert!(r.is_member(MemberType::Retailer, 9));
    assert!(!r.is_member(MemberType::Customer, 9));
    assert_eq!(r.add_member(MemberType::Customer, 9), Err(Error::DuplicateMember));
    assert!(r.event_log().is_empty());
}

#[test]
fn role_checks_name_the_missing_role() {
    let mut r = Registrar::new();
    r.register_manufacturer(1).unwrap();
    r.register_carrier(2).unwrap();
    r.register_retailer(3).unwrap();
    r.register_customer(4).unwrap();
    assert_eq!(r.validate_manufacturer(1), Ok(()));
    assert_eq!(r.validate_carrier(2), Ok(()));
    assert_eq!(r.validate_retailer(3), Ok(()));
    assert_eq!(r.validate_customer(4), Ok(()));
    assert_eq!(r.validate_manufacturer(2), Err(Error::NotManufacturer));
    assert_eq!(r.validate_carrier(3), Err(Error::NotCarrier));
    assert_eq!(r.validate_retailer(4), Err(Error::NotRetailer));
    assert_eq!(r.validate_customer(1), Err(Error::NotCustomer));
    assert_eq!(r.validate_customer(99), Err(Error::NotCustomer));
}

#[test]
fn members_listed_by_role() {
    let mut r = Registrar::new();
    r.register_carrier(2).unwrap();
    r.register_manufacturer(1).unwrap();
    r.register_carrier(5).unwrap();
    let mut carriers = r.members_of(MemberType::Carrier);
    carriers.sort();
    assert_eq!(carriers, vec![2, 5]);
    assert_eq!(r.members_of(MemberType::Manufacturer), vec![1]);
    assert!(r.members_of(MemberType::Customer).is_empty());
}
