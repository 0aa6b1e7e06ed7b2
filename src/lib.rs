//! Custody tracking for bottles moving through a supply chain: members with one role each,
//! a catalog of bottles with their current owner, and shipments whose status only moves
//! forward while their bottles pass from manufacturer to carrier to retailer to customer.
use vstd::prelude::*;

pub mod builders;
pub mod laws;
pub mod registrar;
pub mod table;
pub mod tracking;
pub mod types;

pub use builders::{BottleBuilder, ShipmentBuilder};
pub use registrar::Registrar;
pub use tracking::BottleTracking;
pub use types::{
    AccountId, Bottle, BottleId, BottleStatus, Error, Event, MemberType, Moment, Shipment,
    ShipmentId, ShipmentOperation, ShipmentStatus, BOTTLE_ID_MAX_LENGTH, SHIPMENT_ID_MAX_LENGTH,
    SHIPMENT_MAX_BOTTLES,
};

verus! {

} // verus!
