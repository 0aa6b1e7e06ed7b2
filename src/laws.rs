use vstd::prelude::*;
use crate::registrar::{Registrar, transfer_all};
use crate::tracking::BottleTracking;
use crate::types::{
    AccountId, Error, MemberType, Moment, ShipmentOperation, ShipmentStatus, id_error,
    BOTTLE_ID_MAX_LENGTH, SHIPMENT_ID_MAX_LENGTH, SHIPMENT_MAX_BOTTLES,
};

verus! {

/// How far a shipment has come.
pub open spec fn progress(s: ShipmentStatus) -> int {
    match s {
        ShipmentStatus::Pending => 0,
        ShipmentStatus::InTransit => 1,
        ShipmentStatus::Delivered => 2,
    }
}

/// An account holds at most one role: once it has registered under one role, registering
/// it again, under any role, fails with `DuplicateMember` and changes nothing.
pub proof fn lemma_one_role_per_account(
    s: Registrar,
    mid: Registrar,
    post: Registrar,
    first: MemberType,
    second: MemberType,
    who: AccountId,
    r: Result<(), Error>,
)
    requires
        s.member_registered(mid, first, who, Ok(())),
        mid.member_registered(post, second, who, r),
    ensures
        mid.has_role(who, first),
        r == Err::<(), Error>(Error::DuplicateMember),
        post == mid,
        post.has_role(who, first),
{
}

/// A well-formed, unused bottle id registers for any manufacturer; after that, registering the
/// same id fails with `IdExists` for every manufacturer.
pub proof fn lemma_bottle_registers_once(
    s: Registrar,
    post: Registrar,
    who: AccountId,
    id: Seq<u8>,
    now: Moment,
    later: AccountId,
)
    requires
        s.has_role(who, MemberType::Manufacturer),
        0 < id.len() <= BOTTLE_ID_MAX_LENGTH,
        !s.bottles().contains_key(id),
        s.bottle_registered(post, who, id, now),
        post.has_role(later, MemberType::Manufacturer),
    ensures
        s.register_bottle_error(who, id) is None,
        post.register_bottle_error(later, id) == Some(Error::IdExists),
{
}

/// A bottle id, once taken, stays taken through any command: registering it again fails, for a
/// manufacturer and a well-formed id with `IdExists`, and `validate_new_bottle` refuses it.
pub proof fn lemma_taken_id_stays_taken(s: Registrar, post: Registrar, who: AccountId, id: Seq<u8>)
    requires
        s.bottles().contains_key(id),
        s.keeps_bottle_ids(post),
    ensures
        post.bottles().contains_key(id),
        post.register_bottle_error(who, id) is Some,
        post.has_role(who, MemberType::Manufacturer) && 0 < id.len() <= BOTTLE_ID_MAX_LENGTH
            ==> post.register_bottle_error(who, id) == Some(Error::IdExists),
{
    assert(post.bottles().contains_key(id));
}

/// Once the id and the three parties pass, the size of the bottle list decides: none fails with
/// `ShipmentHasNoBottles`, more than the limit with `ShipmentHasTooManyBottles`, and a list
/// within the limit whose bottles all pass succeeds.
pub proof fn lemma_bottle_count(
    s: BottleTracking,
    who: AccountId,
    id: Seq<u8>,
    carrier: AccountId,
    retailer: AccountId,
    bs: Seq<Seq<u8>>,
)
    requires
        id_error(id, SHIPMENT_ID_MAX_LENGTH as nat) is None,
        !s.shipments().contains_key(id),
        s.has_role(who, MemberType::Manufacturer),
        s.has_role(carrier, MemberType::Carrier),
        s.has_role(retailer, MemberType::Retailer),
    ensures
        bs.len() == 0 ==> s.register_shipment_error(who, id, carrier, retailer, bs) == Some(Error::ShipmentHasNoBottles),
        bs.len() > SHIPMENT_MAX_BOTTLES ==> s.register_shipment_error(who, id, carrier, retailer, bs) == Some(
            Error::ShipmentHasTooManyBottles,
        ),
        1 <= bs.len() <= SHIPMENT_MAX_BOTTLES && s.bottles_error(bs, who, bs.len()) is None
            ==> s.register_shipment_error(who, id, carrier, retailer, bs) is None,
{
}

/// A registered shipment binds each of its bottles to itself for good.
pub proof fn lemma_shipment_binds_bottles(
    s: BottleTracking,
    post: BottleTracking,
    who: AccountId,
    id: Seq<u8>,
    carrier: AccountId,
    retailer: AccountId,
    bs: Seq<Seq<u8>>,
    now: Moment,
    b: Seq<u8>,
)
    requires
        s.shipment_registered(post, who, id, carrier, retailer, bs, now),
        bs.contains(b),
    ensures
        post.shipment_index().contains_key(b),
        post.shipment_index()[b] == id,
{
}

/// Picking up, scanning, delivering and selling leave the bottle-to-shipment binding as it was,
/// so a delivered shipment's bottles stay bound.
pub proof fn lemma_binding_survives(
    s: BottleTracking,
    moved: BottleTracking,
    sold: BottleTracking,
    carrier: AccountId,
    id: Seq<u8>,
    op: ShipmentOperation,
    now: Moment,
    customer: AccountId,
    bs: Seq<Seq<u8>>,
)
    requires
        s.shipment_tracked(moved, carrier, id, op, now),
        moved.bottles_sold(sold, customer, bs),
    ensures
        moved.shipment_index() == s.shipment_index(),
        sold.shipment_index() == s.shipment_index(),
{
}

/// A list that holds a bottle some shipment already took never makes a shipment; where the id,
/// the parties, the size and the bottles before it pass, the error is `BottleAlreadyShipped`,
/// whoever holds the bottle now.
pub proof fn lemma_bound_bottle_rejected(
    s: BottleTracking,
    who: AccountId,
    id: Seq<u8>,
    carrier: AccountId,
    retailer: AccountId,
    bs: Seq<Seq<u8>>,
    k: int,
)
    requires
        0 <= k < bs.len(),
        s.shipment_index().contains_key(bs[k]),
    ensures
        s.register_shipment_error(who, id, carrier, retailer, bs) is Some,
        id_error(id, SHIPMENT_ID_MAX_LENGTH as nat) is None && !s.shipments().contains_key(id)
            && s.has_role(who, MemberType::Manufacturer) && s.has_role(carrier, MemberType::Carrier)
            && s.has_role(retailer, MemberType::Retailer) && bs.len() <= SHIPMENT_MAX_BOTTLES
            && s.bottles().contains_key(bs[k]) && s.bottles_error(bs, who, k as nat) is None
            ==> s.register_shipment_error(who, id, carrier, retailer, bs) == Some(Error::BottleAlreadyShipped),
{
    if 0 < bs.len() <= SHIPMENT_MAX_BOTTLES {
        let n = (k + 1) as nat;
        if s.bottles_error(bs, who, k as nat) is None {
            assert(s.bottles_error(bs, who, n) == s.bottle_error(bs[k], who, bs.take(k)));
        } else {
            s.lemma_bottles_error_sticks(bs, who, k as nat, n);
        }
        s.lemma_bottles_error_sticks(bs, who, n, bs.len());
    }
}

/// A shipment's status only moves forward, and every other shipment stays as it was.
pub proof fn lemma_status_moves_forward(
    s: BottleTracking,
    post: BottleTracking,
    who: AccountId,
    id: Seq<u8>,
    op: ShipmentOperation,
    now: Moment,
)
    requires
        s.track_error(who, id, op) is None,
        s.shipment_tracked(post, who, id, op, now),
    ensures
        post.shipments().contains_key(id),
        progress(s.shipments()[id].status) <= progress(post.shipments()[id].status),
        forall|sid: Seq<u8>| sid != id ==> post.shipments().contains_key(sid) == s.shipments().contains_key(sid)
            && (s.shipments().contains_key(sid) ==> #[trigger] post.shipments()[sid] == s.shipments()[sid]),
{
}

/// Registering a shipment adds a pending one and leaves every existing shipment as it was.
pub proof fn lemma_registration_keeps_statuses(
    s: BottleTracking,
    post: BottleTracking,
    who: AccountId,
    id: Seq<u8>,
    carrier: AccountId,
    retailer: AccountId,
    bs: Seq<Seq<u8>>,
    now: Moment,
)
    requires
        s.register_shipment_error(who, id, carrier, retailer, bs) is None,
        s.shipment_registered(post, who, id, carrier, retailer, bs, now),
    ensures
        post.shipments()[id].status == ShipmentStatus::Pending,
        forall|sid: Seq<u8>| #[trigger] s.shipments().contains_key(sid) ==> post.shipments().contains_key(sid)
            && post.shipments()[sid] == s.shipments()[sid],
{
}

/// Delivering a delivered shipment fails with `ShipmentHasBeenDelivered`, and picking up a
/// shipment in transit fails with `ShipmentInTransit`.
pub proof fn lemma_no_step_back(s: BottleTracking, who: AccountId, id: Seq<u8>)
    requires
        s.has_role(who, MemberType::Carrier),
        id_error(id, SHIPMENT_ID_MAX_LENGTH as nat) is None,
        s.shipments().contains_key(id),
    ensures
        s.shipments()[id].status == ShipmentStatus::Delivered ==> s.track_error(who, id, ShipmentOperation::Deliver)
            == Some(Error::ShipmentHasBeenDelivered),
        s.shipments()[id].status == ShipmentStatus::InTransit ==> s.track_error(who, id, ShipmentOperation::Pickup)
            == Some(Error::ShipmentInTransit),
{
}

/// Every listed bottle that exists ends up with `owner`.
proof fn lemma_transfer_owns(s: Registrar, post: Registrar, bs: Seq<Seq<u8>>, owner: AccountId)
    requires
        post.bottles() == transfer_all(s.bottles(), bs, owner),
        forall|j: int| 0 <= j < bs.len() ==> s.bottles().contains_key(#[trigger] bs[j]),
    ensures
        forall|j: int| 0 <= j < bs.len() ==> post.owns(#[trigger] bs[j], owner),
{
    assert forall|j: int| 0 <= j < bs.len() implies post.owns(#[trigger] bs[j], owner) by {
        assert(bs.contains(bs[j]));
    }
}

/// After a shipment registers, the carrier holds each of its bottles.
pub proof fn lemma_carrier_holds_after_registration(
    s: BottleTracking,
    post: BottleTracking,
    who: AccountId,
    id: Seq<u8>,
    carrier: AccountId,
    retailer: AccountId,
    bs: Seq<Seq<u8>>,
    now: Moment,
)
    requires
        s.register_shipment_error(who, id, carrier, retailer, bs) is None,
        s.shipment_registered(post, who, id, carrier, retailer, bs, now),
    ensures
        forall|j: int| 0 <= j < bs.len() ==> post.catalog().owns(#[trigger] bs[j], carrier),
{
    assert forall|j: int| 0 <= j < bs.len() implies s.bottles().contains_key(#[trigger] bs[j]) by {
        s.lemma_no_bottle_error(bs, who, bs.len(), j);
    }
    lemma_transfer_owns(s.catalog(), post.catalog(), bs, carrier);
}

/// After a delivery, the shipment's retailer holds each of its bottles.
pub proof fn lemma_retailer_holds_after_delivery(
    s: BottleTracking,
    post: BottleTracking,
    who: AccountId,
    id: Seq<u8>,
    now: Moment,
)
    requires
        s.wf(),
        s.track_error(who, id, ShipmentOperation::Deliver) is None,
        s.shipment_tracked(post, who, id, ShipmentOperation::Deliver, now),
    ensures
        forall|j: int| 0 <= j < s.shipments()[id].bottles.len()
            ==> post.catalog().owns(#[trigger] s.shipments()[id].bottles[j], s.shipments()[id].retailer),
{
    s.lemma_shipped_bottles_exist();
    let bs = s.shipments()[id].bottles;
    assert forall|j: int| 0 <= j < bs.len() implies s.bottles().contains_key(#[trigger] bs[j]) by {
        assert(s.bottles().contains_key(s.shipments()[id].bottles[j]));
    }
    lemma_transfer_owns(s.catalog(), post.catalog(), bs, s.shipments()[id].retailer);
}

/// After a sale, the customer holds each sold bottle.
pub proof fn lemma_customer_holds_after_sale(
    s: BottleTracking,
    post: BottleTracking,
    who: AccountId,
    customer: AccountId,
    bs: Seq<Seq<u8>>,
)
    requires
        s.sell_error(who, customer, bs) is None,
        s.bottles_sold(post, customer, bs),
    ensures
        forall|j: int| 0 <= j < bs.len() ==> post.catalog().owns(#[trigger] bs[j], customer),
{
    assert forall|j: int| 0 <= j < bs.len() implies s.bottles().contains_key(#[trigger] bs[j]) by {
        assert(s.catalog().owns(bs[j], who));
    }
    lemma_transfer_owns(s.catalog(), post.catalog(), bs, customer);
}

/// Registering a member keeps owners and shipments in agreement.
pub proof fn lemma_member_keeps_custody(
    s: BottleTracking,
    post: BottleTracking,
    role: MemberType,
    who: AccountId,
    r: Result<(), Error>,
)
    requires
        s.custody_consistent(),
        s.catalog().member_registered(post.catalog(), role, who, r),
        s.same_shipping(post),
    ensures
        post.custody_consistent(),
{
    assert forall|sid: Seq<u8>| #[trigger] post.shipments().contains_key(sid) implies post.has_role(
        post.shipments()[sid].carrier,
        MemberType::Carrier,
    ) by {
        assert(s.has_role(s.shipments()[sid].carrier, MemberType::Carrier));
    }
    assert forall|sid: Seq<u8>, j: int|
        #[trigger] post.shipments().contains_key(sid) && 0 <= j < post.shipments()[sid].bottles.len()
        implies post.bottle_in_custody(sid, #[trigger] post.shipments()[sid].bottles[j]) by {
        assert(s.bottle_in_custody(sid, s.shipments()[sid].bottles[j]));
    }
}

/// Registering a bottle keeps owners and shipments in agreement.
pub proof fn lemma_bottle_keeps_custody(
    s: BottleTracking,
    post: BottleTracking,
    who: AccountId,
    id: Seq<u8>,
    now: Moment,
)
    requires
        s.custody_consistent(),
        !s.bottles().contains_key(id),
        s.catalog().bottle_registered(post.catalog(), who, id, now),
        s.same_shipping(post),
    ensures
        post.custody_consistent(),
{
    assert forall|sid: Seq<u8>| #[trigger] post.shipments().contains_key(sid) implies post.has_role(
        post.shipments()[sid].carrier,
        MemberType::Carrier,
    ) by {
        assert(s.has_role(s.shipments()[sid].carrier, MemberType::Carrier));
    }
    assert forall|sid: Seq<u8>, j: int|
        #[trigger] post.shipments().contains_key(sid) && 0 <= j < post.shipments()[sid].bottles.len()
        implies post.bottle_in_custody(sid, #[trigger] post.shipments()[sid].bottles[j]) by {
        assert(s.bottle_in_custody(sid, s.shipments()[sid].bottles[j]));
    }
}

/// Registering a shipment keeps owners and shipments in agreement.
pub proof fn lemma_registration_keeps_custody(
    s: BottleTracking,
    post: BottleTracking,
    who: AccountId,
    id: Seq<u8>,
    carrier: AccountId,
    retailer: AccountId,
    bs: Seq<Seq<u8>>,
    now: Moment,
)
    requires
        s.custody_consistent(),
        s.register_shipment_error(who, id, carrier, retailer, bs) is None,
        s.shipment_registered(post, who, id, carrier, retailer, bs, now),
    ensures
        post.custody_consistent(),
{
    assert forall|j: int| 0 <= j < bs.len() implies s.bottles().contains_key(#[trigger] bs[j])
        && !s.shipment_index().contains_key(bs[j]) by {
        s.lemma_no_bottle_error(bs, who, bs.len(), j);
    }
    assert forall|b: Seq<u8>| bs.contains(b) implies s.bottles().contains_key(b) && !#[trigger] s.shipment_index().contains_key(b) by {
        let j = choose|j: int| 0 <= j < bs.len() && bs[j] == b;
        assert(s.bottles().contains_key(bs[j]));
    }
    assert forall|sid: Seq<u8>| #[trigger] post.shipments().contains_key(sid) implies post.has_role(
        post.shipments()[sid].carrier,
        MemberType::Carrier,
    ) by {
        if sid != id {
            assert(s.has_role(s.shipments()[sid].carrier, MemberType::Carrier));
        }
    }
    assert forall|sid: Seq<u8>, j: int|
        #[trigger] post.shipments().contains_key(sid) && 0 <= j < post.shipments()[sid].bottles.len()
        implies post.bottle_in_custody(sid, #[trigger] post.shipments()[sid].bottles[j]) by {
        let b = post.shipments()[sid].bottles[j];
        if sid == id {
            assert(b == bs[j]);
            assert(bs.contains(b));
        } else {
            assert(s.shipments().contains_key(sid));
            assert(s.bottle_in_custody(sid, s.shipments()[sid].bottles[j]));
            assert(!bs.contains(b));
        }
    }
}

/// Picking up, scanning or delivering keeps owners and shipments in agreement.
pub proof fn lemma_tracking_keeps_custody(
    s: BottleTracking,
    post: BottleTracking,
    who: AccountId,
    id: Seq<u8>,
    op: ShipmentOperation,
    now: Moment,
)
    requires
        s.custody_consistent(),
        s.track_error(who, id, op) is None,
        s.shipment_tracked(post, who, id, op, now),
    ensures
        post.custody_consistent(),
{
    if op != ShipmentOperation::Scan {
        let moved = s.shipments()[id];
        assert forall|sid: Seq<u8>| #[trigger] post.shipments().contains_key(sid) implies post.has_role(
            post.shipments()[sid].carrier,
            MemberType::Carrier,
        ) by {
            assert(s.has_role(s.shipments()[sid].carrier, MemberType::Carrier));
        }
        assert forall|sid: Seq<u8>, j: int|
            #[trigger] post.shipments().contains_key(sid) && 0 <= j < post.shipments()[sid].bottles.len()
            implies post.bottle_in_custody(sid, #[trigger] post.shipments()[sid].bottles[j]) by {
            let b = post.shipments()[sid].bottles[j];
            assert(s.shipments().contains_key(sid));
            assert(s.shipments()[sid].bottles[j] == b);
            assert(s.bottle_in_custody(sid, b));
            if op == ShipmentOperation::Deliver && sid != id && moved.bottles.contains(b) {
                let k = choose|k: int| 0 <= k < moved.bottles.len() && moved.bottles[k] == b;
                assert(s.bottle_in_custody(id, s.shipments()[id].bottles[k]));
            }
        }
    }
}

/// Selling bottles keeps owners and shipments in agreement: a retailer never holds a bottle
/// that is still on its way.
pub proof fn lemma_sale_keeps_custody(
    s: BottleTracking,
    post: BottleTracking,
    who: AccountId,
    customer: AccountId,
    bs: Seq<Seq<u8>>,
)
    requires
        s.custody_consistent(),
        s.sell_error(who, customer, bs) is None,
        s.bottles_sold(post, customer, bs),
    ensures
        post.custody_consistent(),
{
    assert forall|sid: Seq<u8>| #[trigger] post.shipments().contains_key(sid) implies post.has_role(
        post.shipments()[sid].carrier,
        MemberType::Carrier,
    ) by {
        assert(s.has_role(s.shipments()[sid].carrier, MemberType::Carrier));
    }
    assert forall|sid: Seq<u8>, j: int|
        #[trigger] post.shipments().contains_key(sid) && 0 <= j < post.shipments()[sid].bottles.len()
        implies post.bottle_in_custody(sid, #[trigger] post.shipments()[sid].bottles[j]) by {
        let b = post.shipments()[sid].bottles[j];
        assert(s.bottle_in_custody(sid, b));
        assert(s.has_role(s.shipments()[sid].carrier, MemberType::Carrier));
        if bs.contains(b) {
            let k = choose|k: int| 0 <= k < bs.len() && bs[k] == b;
            assert(s.catalog().owns(bs[k], who));
        }
    }
}

} // verus!
