use vstd::prelude::*;
use crate::builders::ShipmentBuilder;
use crate::laws::{
    lemma_bottle_keeps_custody, lemma_member_keeps_custody, lemma_registration_keeps_custody,
    lemma_sale_keeps_custody, lemma_tracking_keeps_custody,
};
use crate::registrar::{Registrar, transfer_all};
use crate::table::{ByteTable, copy_bytes, ids_for, ids_of, lemma_take_push_contains, log_view, same_bytes};
use crate::types::{
    AccountId, BottleId, BottleView, Error, Event, EventView, MemberType, Moment, Shipment,
    ShipmentId, ShipmentOperation, ShipmentStatus, ShipmentView, id_error, views,
    SHIPMENT_ID_MAX_LENGTH, SHIPMENT_MAX_BOTTLES,
};

verus! {

/// The shipments of the supply chain, on top of the members and bottles of a registrar.
pub struct BottleTracking {
    registrar: Registrar,
    shipments: ByteTable<Shipment>,
    bottle_of_shipment: ByteTable<ShipmentId>,
    shipments_of_manufacturer: Vec<(AccountId, ShipmentId)>,
    shipments_of_carrier: Vec<(AccountId, ShipmentId)>,
    shipments_of_retailer: Vec<(AccountId, ShipmentId)>,
    events: Vec<Event>,
}

/// `m` with every listed bottle bound to shipment `id`.
pub open spec fn bind_all(m: Map<Seq<u8>, Seq<u8>>, ids: Seq<Seq<u8>>, id: Seq<u8>) -> Map<Seq<u8>, Seq<u8>> {
    Map::new(
        |k: Seq<u8>| m.contains_key(k) || ids.contains(k),
        |k: Seq<u8>| if ids.contains(k) { id } else { m[k] },
    )
}

/// Whether one of the first `n` ids of `list` is `b`.
fn listed_before(list: &Vec<BottleId>, n: usize, b: &[u8]) -> (r: bool)
    requires
        n <= list@.len(),
    ensures
        r == list.deep_view().take(n as int).contains(b@),
{
    let ghost bs = list.deep_view().take(n as int);
    let mut j: usize = 0;
    while j < n
        invariant
            n <= list@.len(),
            bs == list.deep_view().take(n as int),
            j <= n,
            forall|l: int| 0 <= l < j ==> #[trigger] bs[l] != b@,
        decreases n - j,
    {
        proof {
            assert(bs[j as int] == list@[j as int]@);
        }
        if same_bytes(list[j].as_slice(), b) {
            return true;
        }
        j = j + 1;
    }
    false
}

impl BottleTracking {
    /// The members and bottles.
    pub closed spec fn catalog(&self) -> Registrar {
        self.registrar
    }

    /// The shipments, by id.
    pub closed spec fn shipments(&self) -> Map<Seq<u8>, ShipmentView> {
        self.shipments@
    }

    /// For each bottle ever shipped, the shipment that took it.
    pub closed spec fn shipment_index(&self) -> Map<Seq<u8>, Seq<u8>> {
        self.bottle_of_shipment@
    }

    /// Each shipment beside its manufacturer, in order of registration.
    pub closed spec fn manufacturer_shipments(&self) -> Seq<(AccountId, Seq<u8>)> {
        log_view(self.shipments_of_manufacturer@)
    }

    /// Each shipment beside its carrier, in order of registration.
    pub closed spec fn carrier_shipments(&self) -> Seq<(AccountId, Seq<u8>)> {
        log_view(self.shipments_of_carrier@)
    }

    /// Each shipment beside its retailer, in order of registration.
    pub closed spec fn retailer_shipments(&self) -> Seq<(AccountId, Seq<u8>)> {
        log_view(self.shipments_of_retailer@)
    }

    /// The shipment notifications emitted so far, oldest first.
    pub closed spec fn events(&self) -> Seq<EventView> {
        views(self.events@)
    }

    pub open spec fn bottles(&self) -> Map<Seq<u8>, BottleView> {
        self.catalog().bottles()
    }

    pub open spec fn has_role(&self, who: AccountId, role: MemberType) -> bool {
        self.catalog().has_role(who, role)
    }

    pub closed spec fn wf(&self) -> bool {
        &&& self.parts_wf()
        &&& self.custody_consistent()
    }

    /// The tables are well formed and every shipped bottle is in the catalog.
    closed spec fn parts_wf(&self) -> bool {
        &&& self.registrar.wf()
        &&& self.shipments.wf()
        &&& self.bottle_of_shipment.wf()
        &&& forall|sid: Seq<u8>, j: int|
            #[trigger] self.shipments@.contains_key(sid) && 0 <= j < self.shipments@[sid].bottles.len()
                ==> self.registrar.bottles().contains_key(#[trigger] self.shipments@[sid].bottles[j])
    }

    /// Bottle `b` of shipment `sid` is bound to it, is in the catalog, and stays with the
    /// shipment's carrier until the shipment is delivered.
    pub open spec fn bottle_in_custody(&self, sid: Seq<u8>, b: Seq<u8>) -> bool {
        &&& self.shipment_index().contains_key(b)
        &&& self.shipment_index()[b] == sid
        &&& self.bottles().contains_key(b)
        &&& self.shipments()[sid].status != ShipmentStatus::Delivered ==> self.bottles()[b].owner
            == self.shipments()[sid].carrier
    }

    /// Owners agree with shipments: every shipped bottle is bound to its one shipment, and a
    /// shipment's carrier, a registered carrier, holds its bottles until delivery.
    pub open spec fn custody_consistent(&self) -> bool {
        &&& forall|sid: Seq<u8>, j: int|
            #[trigger] self.shipments().contains_key(sid) && 0 <= j < self.shipments()[sid].bottles.len()
                ==> self.bottle_in_custody(sid, #[trigger] self.shipments()[sid].bottles[j])
        &&& forall|sid: Seq<u8>|
            #[trigger] self.shipments().contains_key(sid) ==> self.has_role(
                self.shipments()[sid].carrier,
                MemberType::Carrier,
            )
    }

    /// Whatever else a command leaves as it was.
    pub open spec fn same_logs(&self, post: BottleTracking) -> bool {
        &&& post.manufacturer_shipments() == self.manufacturer_shipments()
        &&& post.carrier_shipments() == self.carrier_shipments()
        &&& post.retailer_shipments() == self.retailer_shipments()
    }

    pub fn new() -> (r: BottleTracking)
        ensures
            r.wf(),
            r.catalog().roles() == Map::<AccountId, MemberType>::empty(),
            r.bottles() == Map::<Seq<u8>, BottleView>::empty(),
            r.catalog().events() == Seq::<EventView>::empty(),
            r.shipments() == Map::<Seq<u8>, ShipmentView>::empty(),
            r.shipment_index() == Map::<Seq<u8>, Seq<u8>>::empty(),
            r.events() == Seq::<EventView>::empty(),
    {
        let r = BottleTracking {
            registrar: Registrar::new(),
            shipments: ByteTable::new(),
            bottle_of_shipment: ByteTable::new(),
            shipments_of_manufacturer: Vec::new(),
            shipments_of_carrier: Vec::new(),
            shipments_of_retailer: Vec::new(),
            events: Vec::new(),
        };
        proof {
            assert(r.events() =~= Seq::<EventView>::empty());
        }
        r
    }

    fn emit(&mut self, e: Event)
        requires
            old(self).parts_wf(),
        ensures
            final(self).parts_wf(),
            old(self).custody_consistent() ==> final(self).custody_consistent(),
            final(self).catalog() == old(self).catalog(),
            final(self).shipments() == old(self).shipments(),
            final(self).shipment_index() == old(self).shipment_index(),
            old(self).same_logs(*final(self)),
            final(self).events() == old(self).events().push(e@),
    {
        let ghost e_view = e@;
        self.events.push(e);
        proof {
            assert(self.events() =~= old(self).events().push(e_view));
        }
    }

    /// The members and bottles.
    pub fn registrar(&self) -> (r: &Registrar)
        ensures
            *r == self.catalog(),
            self.wf() ==> r.wf(),
    {
        &self.registrar
    }

    /// The record of shipment `id`, if it exists.
    pub fn shipment_by_id(&self, id: &[u8]) -> (r: Option<&Shipment>)
        requires
            self.wf(),
        ensures
            match r {
                Some(s) => self.shipments().contains_key(id@) && s@ == self.shipments()[id@],
                None => !self.shipments().contains_key(id@),
            },
    {
        self.shipments.get(id)
    }

    /// The shipment that took bottle `id`, if any ever did.
    pub fn bottle_of_shipment(&self, id: &[u8]) -> (r: Option<&ShipmentId>)
        requires
            self.wf(),
        ensures
            match r {
                Some(s) => self.shipment_index().contains_key(id@) && s@ == self.shipment_index()[id@],
                None => !self.shipment_index().contains_key(id@),
            },
    {
        self.bottle_of_shipment.get(id)
    }

    /// The ids of the shipments that `who` made, in order of registration.
    pub fn shipments_of_manufacturer(&self, who: AccountId) -> (r: Vec<ShipmentId>)
        ensures
            r.deep_view() == ids_for(self.manufacturer_shipments(), who),
    {
        ids_of(&self.shipments_of_manufacturer, who)
    }

    /// The ids of the shipments that `who` carries or carried, in order of registration.
    pub fn shipments_of_carrier(&self, who: AccountId) -> (r: Vec<ShipmentId>)
        ensures
            r.deep_view() == ids_for(self.carrier_shipments(), who),
    {
        ids_of(&self.shipments_of_carrier, who)
    }

    /// The ids of the shipments sent to `who`, in order of registration.
    pub fn shipments_of_retailer(&self, who: AccountId) -> (r: Vec<ShipmentId>)
        ensures
            r.deep_view() == ids_for(self.retailer_shipments(), who),
    {
        ids_of(&self.shipments_of_retailer, who)
    }

    /// The shipment notifications emitted so far, oldest first.
    pub fn event_log(&self) -> (r: &Vec<Event>)
        ensures
            views(r@) == self.events(),
    {
        &self.events
    }

    /// Why bottle `b` may not join a shipment of `who`, given the bottles listed before it.
    pub open spec fn bottle_error(&self, b: Seq<u8>, who: AccountId, earlier: Seq<Seq<u8>>) -> Option<Error> {
        if !self.bottles().contains_key(b) {
            Some(Error::BottleNotExist)
        } else if self.shipment_index().contains_key(b) || earlier.contains(b) {
            Some(Error::BottleAlreadyShipped)
        } else if self.bottles()[b].owner != who {
            Some(Error::NotBottleOwner)
        } else {
            None
        }
    }

    /// The first error among the first `n` listed bottles, if any.
    pub open spec fn bottles_error(&self, bs: Seq<Seq<u8>>, who: AccountId, n: nat) -> Option<Error>
        decreases n,
    {
        if n == 0 || n > bs.len() {
            None
        } else {
            let e = self.bottles_error(bs, who, (n - 1) as nat);
            if e is Some {
                e
            } else {
                self.bottle_error(bs[n - 1], who, bs.take(n - 1))
            }
        }
    }

    /// Why the bottle list `bs` may not make a shipment of `who`, if anything stands in the way.
    pub open spec fn shipment_bottles_error(&self, bs: Seq<Seq<u8>>, who: AccountId) -> Option<Error> {
        if bs.len() == 0 {
            Some(Error::ShipmentHasNoBottles)
        } else if bs.len() > SHIPMENT_MAX_BOTTLES {
            Some(Error::ShipmentHasTooManyBottles)
        } else {
            self.bottles_error(bs, who, bs.len())
        }
    }

    /// Why `who` may not register shipment `id`, checked in this order, if anything stands in the way.
    pub open spec fn register_shipment_error(
        &self,
        who: AccountId,
        id: Seq<u8>,
        carrier: AccountId,
        retailer: AccountId,
        bs: Seq<Seq<u8>>,
    ) -> Option<Error> {
        if id_error(id, SHIPMENT_ID_MAX_LENGTH as nat) is Some {
            id_error(id, SHIPMENT_ID_MAX_LENGTH as nat)
        } else if self.shipments().contains_key(id) {
            Some(Error::IdExists)
        } else if !self.has_role(who, MemberType::Manufacturer) {
            Some(Error::NotManufacturer)
        } else if !self.has_role(carrier, MemberType::Carrier) {
            Some(Error::NotCarrier)
        } else if !self.has_role(retailer, MemberType::Retailer) {
            Some(Error::NotRetailer)
        } else {
            self.shipment_bottles_error(bs, who)
        }
    }

    /// What a successful registration of shipment `id` did, going from `self` to `post`.
    pub open spec fn shipment_registered(
        &self,
        post: BottleTracking,
        who: AccountId,
        id: Seq<u8>,
        carrier: AccountId,
        retailer: AccountId,
        bs: Seq<Seq<u8>>,
        now: Moment,
    ) -> bool {
        &&& post.shipments() == self.shipments().insert(
            id,
            ShipmentView {
                id: id,
                manufacturer: who,
                carrier: carrier,
                retailer: retailer,
                bottles: bs,
                status: ShipmentStatus::Pending,
                registered: now,
                delivered: None,
            },
        )
        &&& post.shipment_index() == bind_all(self.shipment_index(), bs, id)
        &&& post.bottles() == transfer_all(self.bottles(), bs, carrier)
        &&& post.catalog().roles() == self.catalog().roles()
        &&& post.catalog().manufacturer_index() == self.catalog().manufacturer_index()
        &&& post.catalog().events() == self.catalog().events()
        &&& post.manufacturer_shipments() == self.manufacturer_shipments().push((who, id))
        &&& post.carrier_shipments() == self.carrier_shipments().push((carrier, id))
        &&& post.retailer_shipments() == self.retailer_shipments().push((retailer, id))
        &&& post.events() == self.events().push(EventView::ShipmentRegistered(id, who))
    }

    /// Once the first `m` bottles have an error, so do the first `n`, and it is the same one.
    pub proof fn lemma_bottles_error_sticks(&self, bs: Seq<Seq<u8>>, who: AccountId, m: nat, n: nat)
        requires
            m <= n <= bs.len(),
            self.bottles_error(bs, who, m) is Some,
        ensures
            self.bottles_error(bs, who, n) == self.bottles_error(bs, who, m),
        decreases n - m,
    {
        if m < n {
            self.lemma_bottles_error_sticks(bs, who, m, (n - 1) as nat);
        }
    }

    /// A builder for a new shipment record.
    pub fn new_shipment() -> (r: ShipmentBuilder)
        ensures
            r.id@ == Seq::<u8>::empty(),
            r.manufacturer == 0,
            r.carrier == 0,
            r.retailer == 0,
            r.bottles@ == Seq::<BottleId>::empty(),
            r.registered == 0,
    {
        ShipmentBuilder::default()
    }

    /// Rejects an empty identifier or one longer than the shipment id limit.
    pub fn validate_shipment_id(id: &[u8]) -> (r: Result<(), Error>)
        ensures
            r == (match id_error(id@, SHIPMENT_ID_MAX_LENGTH as nat) {
                Some(e) => Err(e),
                None => Ok::<(), Error>(()),
            }),
    {
        if id.len() == 0 {
            Err(Error::IdMissing)
        } else if id.len() > SHIPMENT_ID_MAX_LENGTH {
            Err(Error::IdTooLong)
        } else {
            Ok(())
        }
    }

    /// Rejects a shipment id that is already taken.
    pub fn validate_new_shipment(&self, id: &[u8]) -> (r: Result<(), Error>)
        requires
            self.wf(),
        ensures
            r == (if self.shipments().contains_key(id@) { Err(Error::IdExists) } else { Ok::<(), Error>(()) }),
    {
        if self.shipments.contains_key(id) {
            Err(Error::IdExists)
        } else {
            Ok(())
        }
    }

    /// Checks the size of a bottle list, then each bottle in turn: it exists, neither an earlier
    /// shipment nor an earlier entry of the list took it, and `who` holds it.
    pub fn validate_shipment_bottles(&self, bottles: &Vec<BottleId>, who: AccountId) -> (r: Result<(), Error>)
        requires
            self.wf(),
        ensures
            r == (match self.shipment_bottles_error(bottles.deep_view(), who) {
                Some(e) => Err(e),
                None => Ok::<(), Error>(()),
            }),
    {
        let ghost bs = bottles.deep_view();
        if bottles.len() == 0 {
            return Err(Error::ShipmentHasNoBottles);
        }
        if bottles.len() > SHIPMENT_MAX_BOTTLES {
            return Err(Error::ShipmentHasTooManyBottles);
        }
        let mut i: usize = 0;
        while i < bottles.len()
            invariant
                self.wf(),
                bs == bottles.deep_view(),
                0 < bottles@.len() <= SHIPMENT_MAX_BOTTLES,
                i <= bottles@.len(),
                self.bottles_error(bs, who, i as nat) is None,
            decreases bottles@.len() - i,
        {
            let b = bottles[i].as_slice();
            proof {
                assert(bs[i as int] == b@);
                assert(self.bottles_error(bs, who, (i + 1) as nat) == self.bottle_error(b@, who, bs.take(i as int)));
            }
            let mut res = self.registrar.check_bottle_id_present(b);
            if res.is_ok() && self.bottle_of_shipment.contains_key(b) {
                res = Err(Error::BottleAlreadyShipped);
            }
            if res.is_ok() && listed_before(bottles, i, b) {
                res = Err(Error::BottleAlreadyShipped);
            }
            if res.is_ok() {
                res = self.registrar.check_bottle_owner(b, who);
            }
            match res {
                Err(e) => {
                    proof {
                        self.lemma_bottles_error_sticks(bs, who, (i + 1) as nat, bs.len());
                    }
                    return Err(e);
                },
                Ok(()) => {},
            }
            i = i + 1;
        }
        Ok(())
    }

    /// Registers shipment `id` of `who`'s bottles, to go with `carrier` to `retailer`.
    /// The listed bottles pass to the carrier and can never join another shipment.
    pub fn register_shipment(
        &mut self,
        who: AccountId,
        id: ShipmentId,
        carrier: AccountId,
        retailer: AccountId,
        bottles: Vec<BottleId>,
        now: Moment,
    ) -> (r: Result<(), Error>)
        requires
            old(self).wf(),
        ensures
            old(self).catalog().keeps_bottle_ids(final(self).catalog()),
            final(self).wf(),
            r is Ok <==> old(self).register_shipment_error(who, id@, carrier, retailer, bottles.deep_view()) is None,
            r is Err ==> r == Err::<(), Error>(
                old(self).register_shipment_error(who, id@, carrier, retailer, bottles.deep_view()).unwrap(),
            ) && *final(self) == *old(self),
            r is Ok ==> old(self).shipment_registered(*final(self), who, id@, carrier, retailer, bottles.deep_view(), now),
    {
        let ghost bs = bottles.deep_view();
        Self::validate_shipment_id(id.as_slice())?;
        self.validate_new_shipment(id.as_slice())?;
        self.registrar.validate_manufacturer(who)?;
        self.registrar.validate_carrier(carrier)?;
        self.registrar.validate_retailer(retailer)?;
        self.validate_shipment_bottles(&bottles, who)?;
        proof {
            assert forall|j: int| 0 <= j < bottles@.len() implies self.registrar.bottles().contains_key(#[trigger] bottles@[j]@) by {
                let n = (j + 1) as nat;
                assert(bs[j] == bottles@[j]@);
                if self.bottles_error(bs, who, n) is Some {
                    self.lemma_bottles_error_sticks(bs, who, n, bs.len());
                }
                assert(self.bottles_error(bs, who, n) is None);
            }
        }
        let ghost old_index = self.shipment_index();
        let mut i: usize = 0;
        proof {
            assert(bind_all(old_index, bs.take(0), id@) =~= old_index);
        }
        while i < bottles.len()
            invariant
                self.parts_wf(),
                bs == bottles.deep_view(),
                i <= bottles@.len(),
                self.catalog() == old(self).catalog(),
                self.shipments() == old(self).shipments(),
                old(self).same_logs(*self),
                self.events() == old(self).events(),
                old_index == old(self).shipment_index(),
                self.shipment_index() == bind_all(old_index, bs.take(i as int), id@),
                forall|j: int| 0 <= j < bottles@.len() ==> self.registrar.bottles().contains_key(#[trigger] bottles@[j]@),
            decreases bottles@.len() - i,
        {
            self.bottle_of_shipment.insert(bottles[i].as_slice(), copy_bytes(id.as_slice()));
            proof {
                assert(bs[i as int] == bottles@[i as int]@);
                lemma_take_push_contains(bs, i as int);
                assert(self.shipment_index() =~= bind_all(old_index, bs.take(i + 1), id@));
            }
            i = i + 1;
        }
        proof {
            assert(bs.take(bottles@.len() as int) =~= bs);
        }
        self.registrar.transfer_bottles(&bottles, carrier);
        let ghost logs = *self;
        self.shipments_of_manufacturer.push((who, copy_bytes(id.as_slice())));
        self.shipments_of_carrier.push((carrier, copy_bytes(id.as_slice())));
        self.shipments_of_retailer.push((retailer, copy_bytes(id.as_slice())));
        proof {
            assert(self.manufacturer_shipments() =~= logs.manufacturer_shipments().push((who, id@)));
            assert(self.carrier_shipments() =~= logs.carrier_shipments().push((carrier, id@)));
            assert(self.retailer_shipments() =~= logs.retailer_shipments().push((retailer, id@)));
        }
        let shipment = Self::new_shipment()
            .identified_by(copy_bytes(id.as_slice()))
            .manufactured_by(who)
            .carried_by(carrier)
            .sent_to(retailer)
            .with_bottles(bottles)
            .registered_at(now)
            .build();
        self.shipments.insert(id.as_slice(), shipment);
        proof {
            assert forall|sid: Seq<u8>, j: int|
                #[trigger] self.shipments@.contains_key(sid) && 0 <= j < self.shipments@[sid].bottles.len()
                implies self.registrar.bottles().contains_key(#[trigger] self.shipments@[sid].bottles[j]) by {
                if sid == id@ {
                    assert(self.shipments@[sid].bottles[j] == bottles@[j]@);
                } else {
                    assert(old(self).shipments@.contains_key(sid));
                }
            }
        }
        self.emit(Event::ShipmentRegistered(id, who));
        proof {
            lemma_registration_keeps_custody(*old(self), *self, who, id@, carrier, retailer, bs, now);
        }
        Ok(())
    }

    /// Why carrier `who` may not apply `op` to shipment `id`, checked in this order, if anything
    /// stands in the way.
    pub open spec fn track_error(&self, who: AccountId, id: Seq<u8>, op: ShipmentOperation) -> Option<Error> {
        if !self.has_role(who, MemberType::Carrier) {
            Some(Error::NotCarrier)
        } else if id_error(id, SHIPMENT_ID_MAX_LENGTH as nat) is Some {
            id_error(id, SHIPMENT_ID_MAX_LENGTH as nat)
        } else if !self.shipments().contains_key(id) {
            Some(Error::ShipmentDoesNotExist)
        } else if self.shipments()[id].status == ShipmentStatus::Delivered {
            Some(Error::ShipmentHasBeenDelivered)
        } else if self.shipments()[id].status == ShipmentStatus::InTransit && op == ShipmentOperation::Pickup {
            Some(Error::ShipmentInTransit)
        } else if self.shipments()[id].carrier != who {
            Some(Error::NotShipmentCarrier)
        } else {
            None
        }
    }

    /// What a successful `op` on shipment `id` did, going from `self` to `post`: a scan changes
    /// nothing, a pickup puts the shipment in transit, a delivery closes it and hands its bottles
    /// to the retailer.
    pub open spec fn shipment_tracked(
        &self,
        post: BottleTracking,
        who: AccountId,
        id: Seq<u8>,
        op: ShipmentOperation,
        now: Moment,
    ) -> bool {
        let s = self.shipments()[id];
        match op {
            ShipmentOperation::Scan => post == *self,
            ShipmentOperation::Pickup => {
                &&& post.shipments() == self.shipments().insert(
                    id,
                    ShipmentView { status: ShipmentStatus::InTransit, ..s },
                )
                &&& post.catalog() == self.catalog()
                &&& post.shipment_index() == self.shipment_index()
                &&& self.same_logs(post)
                &&& post.events() == self.events().push(
                    EventView::ShipmentStatusUpdated(id, who, ShipmentStatus::InTransit),
                )
            },
            ShipmentOperation::Deliver => {
                &&& post.shipments() == self.shipments().insert(
                    id,
                    ShipmentView { status: ShipmentStatus::Delivered, delivered: Some(now), ..s },
                )
                &&& post.bottles() == transfer_all(self.bottles(), s.bottles, s.retailer)
                &&& post.catalog().roles() == self.catalog().roles()
                &&& post.catalog().manufacturer_index() == self.catalog().manufacturer_index()
                &&& post.catalog().events() == self.catalog().events()
                &&& post.shipment_index() == self.shipment_index()
                &&& self.same_logs(post)
                &&& post.events() == self.events().push(
                    EventView::ShipmentStatusUpdated(id, who, ShipmentStatus::Delivered),
                )
            },
        }
    }

    /// Carrier `who` picks up, scans or delivers shipment `id`.
    pub fn track_shipment(
        &mut self,
        who: AccountId,
        id: ShipmentId,
        operation: ShipmentOperation,
        now: Moment,
    ) -> (r: Result<(), Error>)
        requires
            old(self).wf(),
        ensures
            old(self).catalog().keeps_bottle_ids(final(self).catalog()),
            final(self).wf(),
            r is Ok <==> old(self).track_error(who, id@, operation) is None,
            r is Err ==> r == Err::<(), Error>(old(self).track_error(who, id@, operation).unwrap())
                && *final(self) == *old(self),
            r is Ok ==> old(self).shipment_tracked(*final(self), who, id@, operation, now),
            operation == ShipmentOperation::Scan ==> *final(self) == *old(self),
    {
        self.registrar.validate_carrier(who)?;
        Self::validate_shipment_id(id.as_slice())?;
        let current = match self.shipments.get(id.as_slice()) {
            None => {
                return Err(Error::ShipmentDoesNotExist);
            },
            Some(s) => {
                if s.status == ShipmentStatus::Delivered {
                    return Err(Error::ShipmentHasBeenDelivered);
                }
                if s.status == ShipmentStatus::InTransit && operation == ShipmentOperation::Pickup {
                    return Err(Error::ShipmentInTransit);
                }
                if s.carrier != who {
                    return Err(Error::NotShipmentCarrier);
                }
                s
            },
        };
        match operation {
            ShipmentOperation::Scan => Ok(()),
            ShipmentOperation::Pickup => {
                let next = current.duplicate().pickup();
                self.shipments.insert(id.as_slice(), next);
                proof {
                    assert forall|sid: Seq<u8>, j: int|
                        #[trigger] self.shipments@.contains_key(sid) && 0 <= j < self.shipments@[sid].bottles.len()
                        implies self.registrar.bottles().contains_key(#[trigger] self.shipments@[sid].bottles[j]) by {
                        assert(old(self).shipments@.contains_key(sid));
                        if sid == id@ {
                            assert(self.shipments@[sid].bottles[j] == old(self).shipments@[sid].bottles[j]);
                        }
                    }
                }
                let ghost sid = id@;
                self.emit(Event::ShipmentStatusUpdated(id, who, ShipmentStatus::InTransit));
                proof {
                    lemma_tracking_keeps_custody(*old(self), *self, who, sid, operation, now);
                }
                Ok(())
            },
            ShipmentOperation::Deliver => {
                let next = current.duplicate().delivered(now);
                proof {
                    assert forall|j: int| 0 <= j < next.bottles@.len() implies self.registrar.bottles().contains_key(#[trigger] next.bottles@[j]@) by {
                        assert(next.bottles.deep_view()[j] == next.bottles@[j]@);
                        assert(self.shipments@.contains_key(id@));
                        assert(self.shipments@[id@].bottles[j] == next.bottles.deep_view()[j]);
                    }
                }
                self.registrar.transfer_bottles(&next.bottles, next.retailer);
                self.shipments.insert(id.as_slice(), next);
                proof {
                    assert forall|sid: Seq<u8>, j: int|
                        #[trigger] self.shipments@.contains_key(sid) && 0 <= j < self.shipments@[sid].bottles.len()
                        implies self.registrar.bottles().contains_key(#[trigger] self.shipments@[sid].bottles[j]) by {
                        assert(old(self).shipments@.contains_key(sid));
                        if sid == id@ {
                            assert(self.shipments@[sid].bottles[j] == old(self).shipments@[sid].bottles[j]);
                        }
                        assert(old(self).registrar.bottles().contains_key(old(self).shipments@[sid].bottles[j]));
                    }
                }
                let ghost sid = id@;
                self.emit(Event::ShipmentStatusUpdated(id, who, ShipmentStatus::Delivered));
                proof {
                    lemma_tracking_keeps_custody(*old(self), *self, who, sid, operation, now);
                }
                Ok(())
            },
        }
    }

    /// Why retailer `who` may not sell the bottles `bs` to `customer`, if anything stands in the way.
    pub open spec fn sell_error(&self, who: AccountId, customer: AccountId, bs: Seq<Seq<u8>>) -> Option<Error> {
        if !self.has_role(who, MemberType::Retailer) {
            Some(Error::NotRetailer)
        } else if !self.has_role(customer, MemberType::Customer) {
            Some(Error::NotCustomer)
        } else if exists|i: int| 0 <= i < bs.len() && !self.catalog().owns(#[trigger] bs[i], who) {
            Some(Error::NotBottleOwner)
        } else {
            None
        }
    }

    /// What a successful sale of the bottles `bs` to `customer` did, going from `self` to `post`.
    pub open spec fn bottles_sold(&self, post: BottleTracking, customer: AccountId, bs: Seq<Seq<u8>>) -> bool {
        &&& post.bottles() == transfer_all(self.bottles(), bs, customer)
        &&& post.catalog().roles() == self.catalog().roles()
        &&& post.catalog().manufacturer_index() == self.catalog().manufacturer_index()
        &&& post.catalog().events() == self.catalog().events()
        &&& post.shipments() == self.shipments()
        &&& post.shipment_index() == self.shipment_index()
        &&& self.same_logs(post)
        &&& post.events() == self.events().push(EventView::BottlesSoldToCustomer(customer))
    }

    /// Retailer `who` sells bottles it holds to `customer`.
    pub fn sell_to_customer(&mut self, who: AccountId, customer: AccountId, bottles: Vec<BottleId>) -> (r: Result<(), Error>)
        requires
            old(self).wf(),
        ensures
            old(self).catalog().keeps_bottle_ids(final(self).catalog()),
            final(self).wf(),
            r is Ok <==> old(self).sell_error(who, customer, bottles.deep_view()) is None,
            r is Err ==> r == Err::<(), Error>(old(self).sell_error(who, customer, bottles.deep_view()).unwrap())
                && *final(self) == *old(self),
            r is Ok ==> old(self).bottles_sold(*final(self), customer, bottles.deep_view()),
    {
        let ghost bs = bottles.deep_view();
        self.registrar.validate_retailer(who)?;
        self.registrar.validate_customer(customer)?;
        let mut i: usize = 0;
        while i < bottles.len()
            invariant
                self.wf(),
                *self == *old(self),
                self.has_role(who, MemberType::Retailer),
                self.has_role(customer, MemberType::Customer),
                bs == bottles.deep_view(),
                i <= bottles@.len(),
                forall|j: int| 0 <= j < i ==> self.catalog().owns(#[trigger] bs[j], who),
            decreases bottles@.len() - i,
        {
            proof {
                assert(bs[i as int] == bottles@[i as int]@);
            }
            match self.registrar.check_bottle_owner(bottles[i].as_slice(), who) {
                Err(e) => {
                    proof {
                        assert(!self.catalog().owns(bs[i as int], who));
                    }
                    return Err(e);
                },
                Ok(()) => {},
            }
            i = i + 1;
        }
        proof {
            assert forall|j: int| 0 <= j < bottles@.len() implies self.registrar.bottles().contains_key(#[trigger] bottles@[j]@) by {
                assert(bs[j] == bottles@[j]@);
            }
        }
        self.registrar.transfer_bottles(&bottles, customer);
        proof {
            assert forall|sid: Seq<u8>, j: int|
                #[trigger] self.shipments@.contains_key(sid) && 0 <= j < self.shipments@[sid].bottles.len()
                implies self.registrar.bottles().contains_key(#[trigger] self.shipments@[sid].bottles[j]) by {
                assert(old(self).registrar.bottles().contains_key(old(self).shipments@[sid].bottles[j]));
            }
        }
        self.emit(Event::BottlesSoldToCustomer(customer));
        proof {
            lemma_sale_keeps_custody(*old(self), *self, who, customer, bs);
        }
        Ok(())
    }

    /// Everything but the registrar is left as it was.
    pub open spec fn same_shipping(&self, post: BottleTracking) -> bool {
        &&& post.shipments() == self.shipments()
        &&& post.shipment_index() == self.shipment_index()
        &&& self.same_logs(post)
        &&& post.events() == self.events()
    }

    /// Registers `who` as a manufacturer, unless it already holds a role.
    pub fn register_manufacturer(&mut self, who: AccountId) -> (r: Result<(), Error>)
        requires
            old(self).wf(),
        ensures
            old(self).catalog().keeps_bottle_ids(final(self).catalog()),
            final(self).wf(),
            old(self).catalog().member_registered(final(self).catalog(), MemberType::Manufacturer, who, r),
            old(self).same_shipping(*final(self)),
            r is Err ==> *final(self) == *old(self),
    {
        let r = self.registrar.register_manufacturer(who);
        proof {
            lemma_member_keeps_custody(*old(self), *self, MemberType::Manufacturer, who, r);
        }
        r
    }

    /// Registers `who` as a carrier, unless it already holds a role.
    pub fn register_carrier(&mut self, who: AccountId) -> (r: Result<(), Error>)
        requires
            old(self).wf(),
        ensures
            old(self).catalog().keeps_bottle_ids(final(self).catalog()),
            final(self).wf(),
            old(self).catalog().member_registered(final(self).catalog(), MemberType::Carrier, who, r),
            old(self).same_shipping(*final(self)),
            r is Err ==> *final(self) == *old(self),
    {
        let r = self.registrar.register_carrier(who);
        proof {
            lemma_member_keeps_custody(*old(self), *self, MemberType::Carrier, who, r);
        }
        r
    }

    /// Registers `who` as a retailer, unless it already holds a role.
    pub fn register_retailer(&mut self, who: AccountId) -> (r: Result<(), Error>)
        requires
            old(self).wf(),
        ensures
            old(self).catalog().keeps_bottle_ids(final(self).catalog()),
            final(self).wf(),
            old(self).catalog().member_registered(final(self).catalog(), MemberType::Retailer, who, r),
            old(self).same_shipping(*final(self)),
            r is Err ==> *final(self) == *old(self),
    {
        let r = self.registrar.register_retailer(who);
        proof {
            lemma_member_keeps_custody(*old(self), *self, MemberType::Retailer, who, r);
        }
        r
    }

    /// Registers `who` as a customer, unless it already holds a role.
    pub fn register_customer(&mut self, who: AccountId) -> (r: Result<(), Error>)
        requires
            old(self).wf(),
        ensures
            old(self).catalog().keeps_bottle_ids(final(self).catalog()),
            final(self).wf(),
            old(self).catalog().member_registered(final(self).catalog(), MemberType::Customer, who, r),
            old(self).same_shipping(*final(self)),
            r is Err ==> *final(self) == *old(self),
    {
        let r = self.registrar.register_customer(who);
        proof {
            lemma_member_keeps_custody(*old(self), *self, MemberType::Customer, who, r);
        }
        r
    }

    /// Manufacturer `who` adds bottle `id`; see `Registrar::register_bottle`.
    pub fn register_bottle(&mut self, who: AccountId, id: BottleId, now: Moment) -> (r: Result<(), Error>)
        requires
            old(self).wf(),
        ensures
            old(self).catalog().keeps_bottle_ids(final(self).catalog()),
            final(self).wf(),
            r is Ok <==> old(self).catalog().register_bottle_error(who, id@) is None,
            r is Err ==> r == Err::<(), Error>(old(self).catalog().register_bottle_error(who, id@).unwrap())
                && *final(self) == *old(self),
            r is Ok ==> old(self).catalog().bottle_registered(final(self).catalog(), who, id@, now),
            final(self).catalog().roles() == old(self).catalog().roles(),
            old(self).same_shipping(*final(self)),
    {
        let r = self.registrar.register_bottle(who, id, now);
        proof {
            assert forall|sid: Seq<u8>, j: int|
                #[trigger] self.shipments@.contains_key(sid) && 0 <= j < self.shipments@[sid].bottles.len()
                implies self.registrar.bottles().contains_key(#[trigger] self.shipments@[sid].bottles[j]) by {
                assert(old(self).registrar.bottles().contains_key(old(self).shipments@[sid].bottles[j]));
            }
            if r is Ok {
                lemma_bottle_keeps_custody(*old(self), *self, who, id@, now);
            }
        }
        r
    }

    /// Where the first `n` bottles have no error, none of them has one.
    pub proof fn lemma_no_bottle_error(&self, bs: Seq<Seq<u8>>, who: AccountId, n: nat, j: int)
        requires
            n <= bs.len(),
            0 <= j < n,
            self.bottles_error(bs, who, n) is None,
        ensures
            self.bottle_error(bs[j], who, bs.take(j)) is None,
        decreases n,
    {
        if j < n - 1 {
            self.lemma_no_bottle_error(bs, who, (n - 1) as nat, j);
        }
    }

    /// In every reachable state, owners agree with shipments.
    pub proof fn lemma_custody_holds(&self)
        requires
            self.wf(),
        ensures
            self.custody_consistent(),
    {
    }

    /// Every bottle of every shipment is in the catalog.
    pub proof fn lemma_shipped_bottles_exist(&self)
        requires
            self.wf(),
        ensures
            forall|sid: Seq<u8>, j: int|
                #[trigger] self.shipments().contains_key(sid) && 0 <= j < self.shipments()[sid].bottles.len()
                    ==> self.bottles().contains_key(#[trigger] self.shipments()[sid].bottles[j]),
    {
    }
}

} // verus!
