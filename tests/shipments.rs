use bottle_tracking::{
    BottleTracking, Error, Event, ShipmentBuilder, ShipmentOperation, ShipmentStatus,
    SHIPMENT_ID_MAX_LENGTH,
};

const M: u64 = 1;
const C: u64 = 2;
const R: u64 = 3;
const CU: u64 = 4;

fn ids(names: &[&str]) -> Vec<Vec<u8>> {
    names.iter().map(|n| n.as_bytes().to_vec()).collect()
}

fn chain_with_bottles(names: &[&str]) -> BottleTracking {
    let mut t = BottleTracking::new();
    t.register_manufacturer(M).unwrap();
    t.register_carrier(C).unwrap();
    t.register_retailer(R).unwrap();
    t.register_customer(CU).unwrap();
    for n in names {
        t.register_bottle(M, n.as_bytes().to_vec(), 10).unwrap();
    }
    t
}

fn owner(t: &BottleTracking, id: &str) -> u64 {
    t.registrar().bottle_by_id(id.as_bytes()).unwrap().owner
}

fn status(t: &BottleTracking, id: &str) -> ShipmentStatus {
    t.shipment_by_id(id.as_bytes()).unwrap().status
}

#[test]
fn full_custody_chain() {
    let mut t = chain_with_bottles(&["B1", "B2"]);
    assert_eq!(t.register_shipment(M, b"S1".to_vec(), C, R, ids(&["B1", "B2"]), 20), Ok(()));
    assert_eq!(status(&t, "S1"), ShipmentStatus::Pending);
    assert_eq!(owner(&t, "B1"), C);
    assert_eq!(owner(&t, "B2"), C);
    assert_eq!(t.registrar().check_bottle_owner(b"B1", C), Ok(()));
    assert_eq!(t.registrar().check_bottle_owner(b"B1", M), Err(Error::NotBottleOwner));
    assert_eq!(t.track_shipment(C, b"S1".to_vec(), ShipmentOperation::Pickup, 30), Ok(()));
    assert_eq!(status(&t, "S1"), ShipmentStatus::InTransit);
    assert_eq!(t.track_shipment(C, b"S1".to_vec(), ShipmentOperation::Deliver, 40), Ok(()));
    assert_eq!(status(&t, "S1"), ShipmentStatus::Delivered);
    assert_eq!(t.shipment_by_id(b"S1").unwrap().delivered, Some(40));
    assert_eq!(owner(&t, "B1"), R);
    assert_eq!(owner(&t, "B2"), R);
    assert_eq!(t.registrar().check_bottle_owner(b"B2", R), Ok(()));
    assert_eq!(t.registrar().check_bottle_owner(b"B2", C), Err(Error::NotBottleOwner));
    assert_eq!(t.sell_to_customer(R, CU, ids(&["B1", "B2"])), Ok(()));
    assert_eq!(t.registrar().check_bottle_owner(b"B1", CU), Ok(()));
    assert_eq!(t.registrar().check_bottle_owner(b"B1", R), Err(Error::NotBottleOwner));
    assert_eq!(owner(&t, "B1"), CU);
    assert_eq!(owner(&t, "B2"), CU);
    let sold: Vec<&Event> =
        t.event_log().iter().filter(|e| matches!(e, Event::BottlesSoldToCustomer(_))).collect();
    assert_eq!(sold, vec![&Event::BottlesSoldToCustomer(CU)]);
    assert_eq!(
        t.event_log(),
        &vec![
            Event::ShipmentRegistered(b"S1".to_vec(), M),
            Event::ShipmentStatusUpdated(b"S1".to_vec(), C, ShipmentStatus::InTransit),
            Event::ShipmentStatusUpdated(b"S1".to_vec(), C, ShipmentStatus::Delivered),
            Event::BottlesSoldToCustomer(CU),
        ]
    );
}

#[test]
fn unregistered_carrier_is_refused() {
    let mut t = chain_with_bottles(&["B1"]);
    assert_eq!(t.register_shipment(M, b"S1".to_vec(), 77, R, ids(&["B1"]), 20), Err(Error::NotCarrier));
    assert!(t.shipment_by_id(b"S1").is_none());
    assert_eq!(owner(&t, "B1"), M);
    assert!(t.bottle_of_shipment(b"B1").is_none());
    assert!(t.event_log().is_empty());
}

#[test]
fn shipment_bottle_count() {
    let mut t = chain_with_bottles(&["A", "B", "C", "D", "E", "F", "G"]);
    assert_eq!(t.register_shipment(M, b"S0".to_vec(), C, R, Vec::new(), 1), Err(Error::ShipmentHasNoBottles));
    assert_eq!(
        t.register_shipment(M, b"S6".to_vec(), C, R, ids(&["A", "B", "C", "D", "E", "F"]), 1),
        Err(Error::ShipmentHasTooManyBottles)
    );
    assert_eq!(t.register_shipment(M, b"S5".to_vec(), C, R, ids(&["A", "B", "C", "D", "E"]), 1), Ok(()));
    assert_eq!(t.register_shipment(M, b"S1".to_vec(), C, R, ids(&["F"]), 1), Ok(()));
    assert_eq!(t.shipment_by_id(b"S5").unwrap().bottles, ids(&["A", "B", "C", "D", "E"]));
}

#[test]
fn shipped_bottle_never_ships_again() {
    let mut t = chain_with_bottles(&["B1", "B2"]);
    t.register_shipment(M, b"S1".to_vec(), C, R, ids(&["B1"]), 1).unwrap();
    assert_eq!(t.bottle_of_shipment(b"B1"), Some(&b"S1".to_vec()));
    t.track_shipment(C, b"S1".to_vec(), ShipmentOperation::Deliver, 2).unwrap();
    assert_eq!(t.bottle_of_shipment(b"B1"), Some(&b"S1".to_vec()));
    assert_eq!(
        t.register_shipment(M, b"S2".to_vec(), C, R, ids(&["B2", "B1"]), 3),
        Err(Error::BottleAlreadyShipped)
    );
    assert!(t.shipment_by_id(b"S2").is_none());
    assert!(t.bottle_of_shipment(b"B2").is_none());
}

#[test]
fn bottle_listed_twice_is_already_shipped() {
    let mut t = chain_with_bottles(&["B1", "B2"]);
    assert_eq!(
        t.register_shipment(M, b"S1".to_vec(), C, R, ids(&["B1", "B2", "B1"]), 1),
        Err(Error::BottleAlreadyShipped)
    );
    assert!(t.bottle_of_shipment(b"B1").is_none());
    assert_eq!(owner(&t, "B1"), M);
}

#[test]
fn shipment_checks_in_order() {
    let mut t = chain_with_bottles(&["B1"]);
    assert_eq!(t.register_shipment(99, Vec::new(), 99, 99, Vec::new(), 1), Err(Error::IdMissing));
    assert_eq!(
        t.register_shipment(M, vec![b's'; SHIPMENT_ID_MAX_LENGTH + 1], C, R, ids(&["B1"]), 1),
        Err(Error::IdTooLong)
    );
    assert_eq!(t.register_shipment(C, b"S".to_vec(), C, R, ids(&["B1"]), 1), Err(Error::NotManufacturer));
    assert_eq!(t.register_shipment(M, b"S".to_vec(), C, M, ids(&["B1"]), 1), Err(Error::NotRetailer));
    assert_eq!(t.register_shipment(M, b"S".to_vec(), C, R, ids(&["B9"]), 1), Err(Error::BottleNotExist));
    t.register_manufacturer(5).unwrap();
    t.register_bottle(5, b"B5".to_vec(), 1).unwrap();
    assert_eq!(t.register_shipment(M, b"S".to_vec(), C, R, ids(&["B5"]), 1), Err(Error::NotBottleOwner));
    assert_eq!(
        t.register_shipment(M, vec![b's'; SHIPMENT_ID_MAX_LENGTH], C, R, ids(&["B1"]), 1),
        Ok(())
    );
    assert_eq!(
        t.register_shipment(M, vec![b's'; SHIPMENT_ID_MAX_LENGTH], C, R, ids(&["B1"]), 1),
        Err(Error::IdExists)
    );
}

#[test]
fn shipment_lists_per_party() {
    let mut t = chain_with_bottles(&["B1", "B2"]);
    t.register_shipment(M, b"S1".to_vec(), C, R, ids(&["B1"]), 1).unwrap();
    t.register_shipment(M, b"S2".to_vec(), C, R, ids(&["B2"]), 2).unwrap();
    assert_eq!(t.shipments_of_manufacturer(M), ids(&["S1", "S2"]));
    assert_eq!(t.shipments_of_carrier(C), ids(&["S1", "S2"]));
    assert_eq!(t.shipments_of_retailer(R), ids(&["S1", "S2"]));
    assert!(t.shipments_of_carrier(M).is_empty());
    let s = t.shipment_by_id(b"S2").unwrap();
    assert_eq!(s.manufacturer, M);
    assert_eq!(s.carrier, C);
    assert_eq!(s.retailer, R);
    assert_eq!(s.registered, 2);
    assert_eq!(s.delivered, None);
}

#[test]
fn status_never_goes_back() {
    let mut t = chain_with_bottles(&["B1", "B2"]);
    t.register_shipment(M, b"S1".to_vec(), C, R, ids(&["B1"]), 1).unwrap();
    t.track_shipment(C, b"S1".to_vec(), ShipmentOperation::Pickup, 2).unwrap();
    assert_eq!(t.track_shipment(C, b"S1".to_vec(), ShipmentOperation::Pickup, 3), Err(Error::ShipmentInTransit));
    assert_eq!(status(&t, "S1"), ShipmentStatus::InTransit);
    t.track_shipment(C, b"S1".to_vec(), ShipmentOperation::Deliver, 4).unwrap();
    assert_eq!(
        t.track_shipment(C, b"S1".to_vec(), ShipmentOperation::Deliver, 5),
        Err(Error::ShipmentHasBeenDelivered)
    );
    assert_eq!(
        t.track_shipment(C, b"S1".to_vec(), ShipmentOperation::Pickup, 5),
        Err(Error::ShipmentHasBeenDelivered)
    );
    assert_eq!(
        t.track_shipment(C, b"S1".to_vec(), ShipmentOperation::Scan, 5),
        Err(Error::ShipmentHasBeenDelivered)
    );
    assert_eq!(status(&t, "S1"), ShipmentStatus::Delivered);
    assert_eq!(t.shipment_by_id(b"S1").unwrap().delivered, Some(4));
}

#[test]
fn pending_shipment_delivers_directly() {
    let mut t = chain_with_bottles(&["B1"]);
    t.register_shipment(M, b"S1".to_vec(), C, R, ids(&["B1"]), 1).unwrap();
    assert_eq!(t.track_shipment(C, b"S1".to_vec(), ShipmentOperation::Deliver, 8), Ok(()));
    assert_eq!(status(&t, "S1"), ShipmentStatus::Delivered);
    assert_eq!(owner(&t, "B1"), R);
}

#[test]
fn scan_changes_nothing() {
    let mut t = chain_with_bottles(&["B1"]);
    t.register_shipment(M, b"S1".to_vec(), C, R, ids(&["B1"]), 1).unwrap();
    let events_before = t.event_log().len();
    assert_eq!(t.track_shipment(C, b"S1".to_vec(), ShipmentOperation::Scan, 5), Ok(()));
    assert_eq!(status(&t, "S1"), ShipmentStatus::Pending);
    assert_eq!(t.event_log().len(), events_before);
    t.track_shipment(C, b"S1".to_vec(), ShipmentOperation::Pickup, 6).unwrap();
    assert_eq!(t.track_shipment(C, b"S1".to_vec(), ShipmentOperation::Scan, 7), Ok(()));
    assert_eq!(status(&t, "S1"), ShipmentStatus::InTransit);
    assert_eq!(owner(&t, "B1"), C);
    assert_eq!(t.event_log().len(), events_before + 1);
}

#[test]
fn tracking_checks_in_order() {
    let mut t = chain_with_bottles(&["B1"]);
    t.register_carrier(6).unwrap();
    t.register_shipment(M, b"S1".to_vec(), C, R, ids(&["B1"]), 1).unwrap();
    assert_eq!(t.track_shipment(R, b"S1".to_vec(), ShipmentOperation::Pickup, 2), Err(Error::NotCarrier));
    assert_eq!(t.track_shipment(C, Vec::new(), ShipmentOperation::Pickup, 2), Err(Error::IdMissing));
    assert_eq!(
        t.track_shipment(C, vec![b's'; SHIPMENT_ID_MAX_LENGTH + 1], ShipmentOperation::Scan, 2),
        Err(Error::IdTooLong)
    );
    assert_eq!(t.track_shipment(C, b"S9".to_vec(), ShipmentOperation::Pickup, 2), Err(Error::ShipmentDoesNotExist));
    assert_eq!(t.track_shipment(6, b"S1".to_vec(), ShipmentOperation::Pickup, 2), Err(Error::NotShipmentCarrier));
    assert_eq!(status(&t, "S1"), ShipmentStatus::Pending);
}

#[test]
fn selling_needs_custody() {
    let mut t = chain_with_bottles(&["B1", "B2"]);
    t.register_shipment(M, b"S1".to_vec(), C, R, ids(&["B1"]), 1).unwrap();
    assert_eq!(t.sell_to_customer(R, CU, ids(&["B1"])), Err(Error::NotBottleOwner));
    t.track_shipment(C, b"S1".to_vec(), ShipmentOperation::Deliver, 2).unwrap();
    assert_eq!(t.sell_to_customer(M, CU, ids(&["B1"])), Err(Error::NotRetailer));
    assert_eq!(t.sell_to_customer(R, C, ids(&["B1"])), Err(Error::NotCustomer));
    assert_eq!(t.sell_to_customer(R, CU, ids(&["B1", "B2"])), Err(Error::NotBottleOwner));
    assert_eq!(t.sell_to_customer(R, CU, ids(&["B1", "B9"])), Err(Error::NotBottleOwner));
    assert_eq!(owner(&t, "B1"), R);
    assert_eq!(t.sell_to_customer(R, CU, ids(&["B1"])), Ok(()));
    assert_eq!(owner(&t, "B1"), CU);
    assert_eq!(t.sell_to_customer(R, CU, ids(&["B1"])), Err(Error::NotBottleOwner));
}

#[test]
fn shipment_validators() {
    let mut t = chain_with_bottles(&["B1"]);
    assert_eq!(BottleTracking::validate_shipment_id(b""), Err(Error::IdMissing));
    assert_eq!(BottleTracking::validate_shipment_id(b"S"), Ok(()));
    assert_eq!(t.validate_new_shipment(b"S1"), Ok(()));
    assert_eq!(t.validate_shipment_bottles(&ids(&["B1"]), M), Ok(()));
    assert_eq!(t.validate_shipment_bottles(&ids(&["B1"]), C), Err(Error::NotBottleOwner));
    t.register_shipment(M, b"S1".to_vec(), C, R, ids(&["B1"]), 1).unwrap();
    assert_eq!(t.validate_new_shipment(b"S1"), Err(Error::IdExists));
    assert_eq!(t.validate_shipment_bottles(&ids(&["B1"]), C), Err(Error::BottleAlreadyShipped));
    assert_eq!(t.validate_shipment_bottles(&ids(&["B1"]), M), Err(Error::BottleAlreadyShipped));
    t.track_shipment(C, b"S1".to_vec(), ShipmentOperation::Deliver, 2).unwrap();
    assert_eq!(t.validate_shipment_bottles(&ids(&["B1"]), M), Err(Error::BottleAlreadyShipped));
}

#[test]
fn shipment_builder_and_transitions() {
    let s = ShipmentBuilder::default()
        .identified_by(b"S".to_vec())
        .manufactured_by(M)
        .carried_by(C)
        .sent_to(R)
        .with_bottles(ids(&["B1"]))
        .registered_at(11)
        .build();
    assert_eq!(s.status, ShipmentStatus::Pending);
    assert_eq!(s.delivered, None);
    assert_eq!(s.carrier, C);
    let s = s.pickup();
    assert_eq!(s.status, ShipmentStatus::InTransit);
    let s = s.duplicate().delivered(12);
    assert_eq!(s.status, ShipmentStatus::Delivered);
    assert_eq!(s.delivered, Some(12));
    assert_eq!(s.bottles, ids(&["B1"]));
    assert!(BottleTracking::new_shipment().bottles.is_empty());
}
