use vstd::prelude::*;

verus! {

/// An account of the host environment.
pub type AccountId = u64;

/// A timestamp handed in by the host.
pub type Moment = u64;

pub type BottleId = Vec<u8>;

pub type ShipmentId = Vec<u8>;

pub const BOTTLE_ID_MAX_LENGTH: usize = 36;

pub const SHIPMENT_ID_MAX_LENGTH: usize = 36;

pub const SHIPMENT_MAX_BOTTLES: usize = 5;

#[derive(Clone, Copy, Debug, PartialEq, Eq, Structural)]
pub enum MemberType {
    Manufacturer,
    Carrier,
    Retailer,
    Customer,
}

#[derive(Clone, Copy, Debug, PartialEq, Eq, Structural)]
pub enum BottleStatus {
    Manufactured,
    ShipmentRegistered,
    ShipmentInTransit,
    ShipmentDelivered,
    SoldToCustomer,
}

impl Default for BottleStatus {
    fn default() -> (r: Self)
        ensures
            r == BottleStatus::Manufactured,
    {
        BottleStatus::Manufactured
    }
}

#[derive(Clone, Copy, Debug, PartialEq, Eq, Structural)]
pub enum ShipmentStatus {
    Pending,
    InTransit,
    Delivered,
}

#[derive(Clone, Copy, Debug, PartialEq, Eq, Structural)]
pub enum ShipmentOperation {
    Pickup,
    Scan,
    Deliver,
}

/// Why a command was rejected.
#[derive(Clone, Copy, Debug, PartialEq, Eq, Structural)]
pub enum Error {
    DuplicateMember,
    NotManufacturer,
    NotCarrier,
    NotRetailer,
    NotCustomer,
    IdMissing,
    IdTooLong,
    IdExists,
    BottleNotExist,
    ShipmentDoesNotExist,
    ShipmentHasNoBottles,
    ShipmentHasTooManyBottles,
    BottleAlreadyShipped,
    ShipmentHasBeenDelivered,
    ShipmentInTransit,
    NotShipmentCarrier,
    NotBottleOwner,
    BottleNotShipped,
}

/// The mathematical value of a bottle record.
pub struct BottleView {
    pub id: Seq<u8>,
    pub owner: AccountId,
    pub status: BottleStatus,
    pub registered: Moment,
}

#[derive(Debug)]
pub struct Bottle {
    pub id: BottleId,
    pub owner: AccountId,
    pub status: BottleStatus,
    pub registered: Moment,
}

impl View for Bottle {
    type V = BottleView;

    open spec fn view(&self) -> BottleView {
        BottleView { id: self.id@, owner: self.owner, status: self.status, registered: self.registered }
    }
}

/// The same record with another owner.
pub open spec fn owned_by(b: BottleView, owner: AccountId) -> BottleView {
    BottleView { owner: owner, ..b }
}

impl Bottle {
    pub fn change_owner(self, new_owner: AccountId) -> (r: Bottle)
        ensures
            r@ == owned_by(self@, new_owner),
    {
        let mut b = self;
        b.owner = new_owner;
        b
    }

    /// A copy of this record.
    pub fn duplicate(&self) -> (r: Bottle)
        ensures
            r@ == self@,
    {
        Bottle {
            id: crate::table::copy_bytes(self.id.as_slice()),
            owner: self.owner,
            status: self.status,
            registered: self.registered,
        }
    }
}

/// The mathematical value of a shipment record.
pub struct ShipmentView {
    pub id: Seq<u8>,
    pub manufacturer: AccountId,
    pub carrier: AccountId,
    pub retailer: AccountId,
    pub bottles: Seq<Seq<u8>>,
    pub status: ShipmentStatus,
    pub registered: Moment,
    pub delivered: Option<Moment>,
}

#[derive(Debug)]
pub struct Shipment {
    pub id: ShipmentId,
    pub manufacturer: AccountId,
    pub carrier: AccountId,
    pub retailer: AccountId,
    pub bottles: Vec<BottleId>,
    pub status: ShipmentStatus,
    pub registered: Moment,
    pub delivered: Option<Moment>,
}

impl View for Shipment {
    type V = ShipmentView;

    open spec fn view(&self) -> ShipmentView {
        ShipmentView {
            id: self.id@,
            manufacturer: self.manufacturer,
            carrier: self.carrier,
            retailer: self.retailer,
            bottles: self.bottles.deep_view(),
            status: self.status,
            registered: self.registered,
            delivered: self.delivered,
        }
    }
}

impl Shipment {
    /// A pending shipment leaves with its carrier.
    pub fn pickup(self) -> (r: Shipment)
        requires
            self.status == ShipmentStatus::Pending,
        ensures
            r@ == (ShipmentView { status: ShipmentStatus::InTransit, ..self@ }),
    {
        let mut s = self;
        s.status = ShipmentStatus::InTransit;
        s
    }

    /// A shipment not yet delivered arrives at `when`.
    pub fn delivered(self, when: Moment) -> (r: Shipment)
        requires
            self.status != ShipmentStatus::Delivered,
        ensures
            r@ == (ShipmentView { status: ShipmentStatus::Delivered, delivered: Some(when), ..self@ }),
    {
        let mut s = self;
        s.status = ShipmentStatus::Delivered;
        s.delivered = Some(when);
        s
    }

    /// A copy of this record.
    pub fn duplicate(&self) -> (r: Shipment)
        ensures
            r@ == self@,
    {
        Shipment {
            id: crate::table::copy_bytes(self.id.as_slice()),
            manufacturer: self.manufacturer,
            carrier: self.carrier,
            retailer: self.retailer,
            bottles: crate::table::copy_byte_lists(&self.bottles),
            status: self.status,
            registered: self.registered,
            delivered: self.delivered,
        }
    }
}

/// The mathematical value of a notification.
pub enum EventView {
    ManufacturerAdded(AccountId),
    CarrierAdded(AccountId),
    RetailerAdded(AccountId),
    CustomerAdded(AccountId),
    BottleRegistered(AccountId, Seq<u8>),
    ShipmentRegistered(Seq<u8>, AccountId),
    ShipmentStatusUpdated(Seq<u8>, AccountId, ShipmentStatus),
    BottlesSoldToCustomer(AccountId),
}

/// A notification for subscribers.
#[derive(Debug, PartialEq, Eq)]
pub enum Event {
    ManufacturerAdded(AccountId),
    CarrierAdded(AccountId),
    RetailerAdded(AccountId),
    CustomerAdded(AccountId),
    BottleRegistered(AccountId, BottleId),
    ShipmentRegistered(ShipmentId, AccountId),
    ShipmentStatusUpdated(ShipmentId, AccountId, ShipmentStatus),
    BottlesSoldToCustomer(AccountId),
}

impl View for Event {
    type V = EventView;

    open spec fn view(&self) -> EventView {
        match self {
            Event::ManufacturerAdded(a) => EventView::ManufacturerAdded(*a),
            Event::CarrierAdded(a) => EventView::CarrierAdded(*a),
            Event::RetailerAdded(a) => EventView::RetailerAdded(*a),
            Event::CustomerAdded(a) => EventView::CustomerAdded(*a),
            Event::BottleRegistered(a, b) => EventView::BottleRegistered(*a, b@),
            Event::ShipmentRegistered(s, a) => EventView::ShipmentRegistered(s@, *a),
            Event::ShipmentStatusUpdated(s, a, st) => EventView::ShipmentStatusUpdated(s@, *a, *st),
            Event::BottlesSoldToCustomer(a) => EventView::BottlesSoldToCustomer(*a),
        }
    }
}

/// The views of a list of records.
pub open spec fn views<T: View>(s: Seq<T>) -> Seq<T::V> {
    s.map_values(|x: T| x@)
}

/// The error for a malformed identifier, if any.
pub open spec fn id_error(id: Seq<u8>, max: nat) -> Option<Error> {
    if id.len() == 0 {
        Some(Error::IdMissing)
    } else if id.len() > max {
        Some(Error::IdTooLong)
    } else {
        None
    }
}

} // verus!
