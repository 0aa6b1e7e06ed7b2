use vstd::prelude::*;
use crate::types::{
    AccountId, Bottle, BottleId, BottleStatus, BottleView, Moment, Shipment, ShipmentId,
    ShipmentStatus, ShipmentView,
};

verus! {

/// Collects the fields of a new bottle record.
pub struct BottleBuilder {
    pub id: BottleId,
    pub owner: AccountId,
    pub status: BottleStatus,
    pub registered: Moment,
}

impl Default for BottleBuilder {
    fn default() -> (r: Self)
        ensures
            r.id@ == Seq::<u8>::empty(),
            r.owner == 0,
            r.status == BottleStatus::Manufactured,
            r.registered == 0,
    {
        BottleBuilder { id: Vec::new(), owner: 0, status: BottleStatus::Manufactured, registered: 0 }
    }
}

impl BottleBuilder {
    pub fn identified_by(self, id: BottleId) -> (r: Self)
        ensures
            r.id@ == id@,
            r.owner == self.owner,
            r.registered == self.registered,
    {
        BottleBuilder { id: id, ..self }
    }

    pub fn manufactured_by(self, manufacturer: AccountId) -> (r: Self)
        ensures
            r.id@ == self.id@,
            r.owner == manufacturer,
            r.registered == self.registered,
    {
        BottleBuilder { owner: manufacturer, ..self }
    }

    pub fn registered_on(self, registered: Moment) -> (r: Self)
        ensures
            r.id@ == self.id@,
            r.owner == self.owner,
            r.registered == registered,
    {
        BottleBuilder { registered: registered, ..self }
    }

    /// A freshly made bottle with the collected fields.
    pub fn build(self) -> (r: Bottle)
        ensures
            r@ == (BottleView {
                id: self.id@,
                owner: self.owner,
                status: BottleStatus::Manufactured,
                registered: self.registered,
            }),
    {
        Bottle { id: self.id, owner: self.owner, status: BottleStatus::Manufactured, registered: self.registered }
    }
}

/// Collects the fields of a new shipment record.
pub struct ShipmentBuilder {
    pub id: ShipmentId,
    pub manufacturer: AccountId,
    pub carrier: AccountId,
    pub retailer: AccountId,
    pub bottles: Vec<BottleId>,
    pub registered: Moment,
}

impl Default for ShipmentBuilder {
    fn default() -> (r: Self)
        ensures
            r.id@ == Seq::<u8>::empty(),
            r.manufacturer == 0,
            r.carrier == 0,
            r.retailer == 0,
            r.bottles@ == Seq::<BottleId>::empty(),
            r.registered == 0,
    {
        ShipmentBuilder {
            id: Vec::new(),
            manufacturer: 0,
            carrier: 0,
            retailer: 0,
            bottles: Vec::new(),
            registered: 0,
        }
    }
}

impl ShipmentBuilder {
    /// The shipment this builder would make.
    pub open spec fn planned(&self) -> ShipmentView {
        ShipmentView {
            id: self.id@,
            manufacturer: self.manufacturer,
            carrier: self.carrier,
            retailer: self.retailer,
            bottles: self.bottles.deep_view(),
            status: ShipmentStatus::Pending,
            registered: self.registered,
            delivered: None,
        }
    }

    pub fn identified_by(self, id: ShipmentId) -> (r: Self)
        ensures
            r.planned() == (ShipmentView { id: id@, ..self.planned() }),
    {
        ShipmentBuilder { id: id, ..self }
    }

    pub fn manufactured_by(self, account: AccountId) -> (r: Self)
        ensures
            r.planned() == (ShipmentView { manufacturer: account, ..self.planned() }),
    {
        ShipmentBuilder { manufacturer: account, ..self }
    }

    pub fn carried_by(self, account: AccountId) -> (r: Self)
        ensures
            r.planned() == (ShipmentView { carrier: account, ..self.planned() }),
    {
        ShipmentBuilder { carrier: account, ..self }
    }

    pub fn sent_to(self, account: AccountId) -> (r: Self)
        ensures
            r.planned() == (ShipmentView { retailer: account, ..self.planned() }),
    {
        ShipmentBuilder { retailer: account, ..self }
    }

    pub fn with_bottles(self, bottles: Vec<BottleId>) -> (r: Self)
        ensures
            r.planned() == (ShipmentView { bottles: bottles.deep_view(), ..self.planned() }),
    {
        ShipmentBuilder { bottles: bottles, ..self }
    }

    pub fn registered_at(self, registered_at: Moment) -> (r: Self)
        ensures
            r.planned() == (ShipmentView { registered: registered_at, ..self.planned() }),
    {
        ShipmentBuilder { registered: registered_at, ..self }
    }

    /// A pending shipment with the collected fields.
    pub fn build(self) -> (r: Shipment)
        ensures
            r@ == self.planned(),
    {
        Shipment {
            id: self.id,
            manufacturer: self.manufacturer,
            carrier: self.carrier,
            retailer: self.retailer,
            bottles: self.bottles,
            status: ShipmentStatus::Pending,
            registered: self.registered,
            delivered: None,
        }
    }
}

} // verus!
