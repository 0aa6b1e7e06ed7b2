use vstd::prelude::*;
use crate::builders::BottleBuilder;
use crate::table::{ByteTable, copy_bytes, ids_for, ids_of, lemma_take_push_contains, log_view};
use crate::types::{
    AccountId, Bottle, BottleId, BottleStatus, BottleView, Error, Event, EventView, MemberType,
    Moment, id_error, owned_by, views, BOTTLE_ID_MAX_LENGTH,
};

verus! {

/// The members of the supply chain, each with one role, and the bottles they made.
pub struct Registrar {
    members: Vec<(AccountId, MemberType)>,
    roles: Ghost<Map<AccountId, MemberType>>,
    bottles: ByteTable<Bottle>,
    bottles_of_manufacturer: Vec<(AccountId, BottleId)>,
    events: Vec<Event>,
}

/// The event that announces a new member of a role.
pub open spec fn member_added(role: MemberType, who: AccountId) -> EventView {
    match role {
        MemberType::Manufacturer => EventView::ManufacturerAdded(who),
        MemberType::Carrier => EventView::CarrierAdded(who),
        MemberType::Retailer => EventView::RetailerAdded(who),
        MemberType::Customer => EventView::CustomerAdded(who),
    }
}

/// The error that names a missing role.
pub open spec fn role_error(role: MemberType) -> Error {
    match role {
        MemberType::Manufacturer => Error::NotManufacturer,
        MemberType::Carrier => Error::NotCarrier,
        MemberType::Retailer => Error::NotRetailer,
        MemberType::Customer => Error::NotCustomer,
    }
}

/// `m` with every listed bottle handed to `owner`.
pub open spec fn transfer_all(
    m: Map<Seq<u8>, BottleView>,
    ids: Seq<Seq<u8>>,
    owner: AccountId,
) -> Map<Seq<u8>, BottleView> {
    Map::new(
        |k: Seq<u8>| m.contains_key(k),
        |k: Seq<u8>| if ids.contains(k) { owned_by(m[k], owner) } else { m[k] },
    )
}

/// Each account is listed once, and the list and the map agree.
spec fn members_wf(members: Seq<(AccountId, MemberType)>, roles: Map<AccountId, MemberType>) -> bool {
    &&& forall|i: int, j: int|
        0 <= i < members.len() && 0 <= j < members.len() && i != j
            ==> #[trigger] members[i].0 != #[trigger] members[j].0
    &&& forall|i: int|
        0 <= i < members.len() ==> roles.contains_key(#[trigger] members[i].0)
            && roles[members[i].0] == members[i].1
    &&& forall|a: AccountId|
        #[trigger] roles.contains_key(a) ==> exists|i: int|
            0 <= i < members.len() && #[trigger] members[i].0 == a
}

impl Registrar {
    /// Which role each registered account holds.
    pub closed spec fn roles(&self) -> Map<AccountId, MemberType> {
        self.roles@
    }

    /// The bottle catalog, by id.
    pub closed spec fn bottles(&self) -> Map<Seq<u8>, BottleView> {
        self.bottles@
    }

    /// Each registered bottle beside its manufacturer, in order of registration.
    pub closed spec fn manufacturer_index(&self) -> Seq<(AccountId, Seq<u8>)> {
        log_view(self.bottles_of_manufacturer@)
    }

    /// The notifications emitted so far, oldest first.
    pub closed spec fn events(&self) -> Seq<EventView> {
        views(self.events@)
    }

    pub closed spec fn wf(&self) -> bool {
        &&& self.bottles.wf()
        &&& members_wf(self.members@, self.roles@)
    }

    /// Whether `who` holds `role`.
    pub open spec fn has_role(&self, who: AccountId, role: MemberType) -> bool {
        self.roles().contains_key(who) && self.roles()[who] == role
    }

    /// Every bottle id known here is still known in `post`.
    pub open spec fn keeps_bottle_ids(&self, post: Registrar) -> bool {
        forall|k: Seq<u8>| #[trigger] self.bottles().contains_key(k) ==> post.bottles().contains_key(k)
    }

    /// Whether the bottle `id` exists and `who` holds it.
    pub open spec fn owns(&self, id: Seq<u8>, who: AccountId) -> bool {
        self.bottles().contains_key(id) && self.bottles()[id].owner == who
    }

    pub fn new() -> (r: Registrar)
        ensures
            r.wf(),
            r.roles() == Map::<AccountId, MemberType>::empty(),
            r.bottles() == Map::<Seq<u8>, BottleView>::empty(),
            r.manufacturer_index() == Seq::<(AccountId, Seq<u8>)>::empty(),
            r.events() == Seq::<EventView>::empty(),
    {
        let r = Registrar {
            members: Vec::new(),
            roles: Ghost(Map::empty()),
            bottles: ByteTable::new(),
            bottles_of_manufacturer: Vec::new(),
            events: Vec::new(),
        };
        proof {
            assert(r.manufacturer_index() =~= Seq::<(AccountId, Seq<u8>)>::empty());
            assert(r.events() =~= Seq::<EventView>::empty());
        }
        r
    }

    fn emit(&mut self, e: Event)
        requires
            old(self).wf(),
        ensures
            final(self).wf(),
            final(self).roles() == old(self).roles(),
            final(self).bottles() == old(self).bottles(),
            final(self).manufacturer_index() == old(self).manufacturer_index(),
            final(self).events() == old(self).events().push(e@),
    {
        let ghost e_view = e@;
        self.events.push(e);
        proof {
            assert(self.events() =~= old(self).events().push(e_view));
        }
    }

    /// The role of `who`, if it has one.
    pub fn role_of(&self, who: AccountId) -> (r: Option<MemberType>)
        requires
            self.wf(),
        ensures
            r == (if self.roles().contains_key(who) { Some(self.roles()[who]) } else { None }),
    {
        let mut i: usize = 0;
        while i < self.members.len()
            invariant
                self.wf(),
                i <= self.members@.len(),
                forall|j: int| 0 <= j < i ==> #[trigger] self.members@[j].0 != who,
            decreases self.members@.len() - i,
        {
            if self.members[i].0 == who {
                return Some(self.members[i].1);
            }
            i = i + 1;
        }
        None
    }

    /// The accounts that hold `role`, each once.
    pub fn members_of(&self, role: MemberType) -> (r: Vec<AccountId>)
        requires
            self.wf(),
        ensures
            r@.no_duplicates(),
            forall|a: AccountId| r@.contains(a) <==> self.has_role(a, role),
    {
        let mut r: Vec<AccountId> = Vec::new();
        let mut i: usize = 0;
        while i < self.members.len()
            invariant
                self.wf(),
                i <= self.members@.len(),
                r@.no_duplicates(),
                forall|a: AccountId| r@.contains(a) <==> exists|j: int|
                    0 <= j < i && #[trigger] self.members@[j].0 == a && self.members@[j].1 == role,
            decreases self.members@.len() - i,
        {
            let (a, held) = self.members[i];
            if held == role {
                let ghost before = r@;
                proof {
                    if before.contains(a) {
                        let j = choose|j: int| 0 <= j < i && #[trigger] self.members@[j].0 == a && self.members@[j].1 == role;
                        assert(self.members@[j].0 != self.members@[i as int].0);
                    }
                }
                r.push(a);
                proof {
                    assert forall|x: AccountId| r@.contains(x) <==> exists|j: int|
                        0 <= j < i + 1 && #[trigger] self.members@[j].0 == x && self.members@[j].1 == role by {
                        if r@.contains(x) && x != a {
                            let k = choose|k: int| 0 <= k < r@.len() && r@[k] == x;
                            assert(before[k] == x);
                            assert(before.contains(x));
                        }
                        if x == a {
                            assert(r@[before.len() as int] == x);
                        }
                        if exists|j: int| 0 <= j < i + 1 && #[trigger] self.members@[j].0 == x && self.members@[j].1 == role {
                            if x != a {
                                let j = choose|j: int| 0 <= j < i + 1 && #[trigger] self.members@[j].0 == x && self.members@[j].1 == role;
                                assert(j < i);
                                assert(before.contains(x));
                                let k = choose|k: int| 0 <= k < before.len() && before[k] == x;
                                assert(r@[k] == x);
                            }
                        }
                    }
                }
            } else {
                proof {
                    assert forall|x: AccountId| r@.contains(x) <==> exists|j: int|
                        0 <= j < i + 1 && #[trigger] self.members@[j].0 == x && self.members@[j].1 == role by {
                        if exists|j: int| 0 <= j < i + 1 && #[trigger] self.members@[j].0 == x && self.members@[j].1 == role {
                            let j = choose|j: int| 0 <= j < i + 1 && #[trigger] self.members@[j].0 == x && self.members@[j].1 == role;
                            assert(j < i);
                        }
                    }
                }
            }
            i = i + 1;
        }
        proof {
            assert forall|a: AccountId| r@.contains(a) <==> self.has_role(a, role) by {
                if self.roles@.contains_key(a) {
                    let j = choose|j: int| 0 <= j < self.members@.len() && #[trigger] self.members@[j].0 == a;
                    assert(self.members@[j].1 == self.roles@[a]);
                }
                if exists|j: int| 0 <= j < i && #[trigger] self.members@[j].0 == a && self.members@[j].1 == role {
                    let j = choose|j: int| 0 <= j < i && #[trigger] self.members@[j].0 == a && self.members@[j].1 == role;
                    assert(self.roles@.contains_key(self.members@[j].0));
                }
            }
        }
        r
    }

    /// Whether `who` holds `role`.
    pub fn is_member(&self, role: MemberType, who: AccountId) -> (r: bool)
        requires
            self.wf(),
        ensures
            r == self.has_role(who, role),
    {
        match self.role_of(who) {
            Some(found) => found == role,
            None => false,
        }
    }

    /// Gives `who` its role; an account holds at most one role, of any kind.
    pub fn add_member(&mut self, member_type: MemberType, who: AccountId) -> (r: Result<(), Error>)
        requires
            old(self).wf(),
        ensures
            old(self).keeps_bottle_ids(*final(self)),
            final(self).wf(),
            r is Ok <==> !old(self).roles().contains_key(who),
            r is Err ==> r == Err::<(), Error>(Error::DuplicateMember) && *final(self) == *old(self),
            r is Ok ==> final(self).roles() == old(self).roles().insert(who, member_type),
            final(self).bottles() == old(self).bottles(),
            final(self).manufacturer_index() == old(self).manufacturer_index(),
            final(self).events() == old(self).events(),
    {
        if self.role_of(who).is_some() {
            return Err(Error::DuplicateMember);
        }
        self.members.push((who, member_type));
        self.roles = Ghost(self.roles@.insert(who, member_type));
        proof {
            let n = self.members@.len() - 1;
            assert(self.members@[n].0 == who);
            assert forall|a: AccountId| #[trigger] self.roles@.contains_key(a) implies exists|i: int|
                0 <= i < self.members@.len() && #[trigger] self.members@[i].0 == a by {
                if a == who {
                    assert(self.members@[n].0 == a);
                } else {
                    let i = choose|i: int| 0 <= i < old(self).members@.len() && #[trigger] old(self).members@[i].0 == a;
                    assert(self.members@[i].0 == a);
                }
            }
        }
        Ok(())
    }

    fn register_member(&mut self, role: MemberType, who: AccountId, e: Event) -> (r: Result<(), Error>)
        requires
            old(self).wf(),
            e@ == member_added(role, who),
        ensures
            final(self).wf(),
            r is Ok <==> !old(self).roles().contains_key(who),
            r is Err ==> r == Err::<(), Error>(Error::DuplicateMember) && *final(self) == *old(self),
            r is Ok ==> final(self).roles() == old(self).roles().insert(who, role)
                && final(self).bottles() == old(self).bottles()
                && final(self).manufacturer_index() == old(self).manufacturer_index()
                && final(self).events() == old(self).events().push(member_added(role, who)),
    {
        self.add_member(role, who)?;
        self.emit(e);
        Ok(())
    }

    /// Registers `who` as a manufacturer, unless it already holds a role.
    pub fn register_manufacturer(&mut self, who: AccountId) -> (r: Result<(), Error>)
        requires
            old(self).wf(),
        ensures
            old(self).keeps_bottle_ids(*final(self)),
            final(self).wf(),
            old(self).member_registered(*final(self), MemberType::Manufacturer, who, r),
    {
        self.register_member(MemberType::Manufacturer, who, Event::ManufacturerAdded(who))
    }

    /// Registers `who` as a carrier, unless it already holds a role.
    pub fn register_carrier(&mut self, who: AccountId) -> (r: Result<(), Error>)
        requires
            old(self).wf(),
        ensures
            old(self).keeps_bottle_ids(*final(self)),
            final(self).wf(),
            old(self).member_registered(*final(self), MemberType::Carrier, who, r),
    {
        self.register_member(MemberType::Carrier, who, Event::CarrierAdded(who))
    }

    /// Registers `who` as a retailer, unless it already holds a role.
    pub fn register_retailer(&mut self, who: AccountId) -> (r: Result<(), Error>)
        requires
            old(self).wf(),
        ensures
            old(self).keeps_bottle_ids(*final(self)),
            final(self).wf(),
            old(self).member_registered(*final(self), MemberType::Retailer, who, r),
    {
        self.register_member(MemberType::Retailer, who, Event::RetailerAdded(who))
    }

    /// Registers `who` as a customer, unless it already holds a role.
    pub fn register_customer(&mut self, who: AccountId) -> (r: Result<(), Error>)
        requires
            old(self).wf(),
        ensures
            old(self).keeps_bottle_ids(*final(self)),
            final(self).wf(),
            old(self).member_registered(*final(self), MemberType::Customer, who, r),
    {
        self.register_member(MemberType::Customer, who, Event::CustomerAdded(who))
    }

    /// What registering `who` under `role` did, going from `self` to `post` with result `r`:
    /// it succeeds exactly when `who` holds no role yet, and then records the role and
    /// announces it; otherwise nothing changes.
    pub open spec fn member_registered(
        self,
        post: Registrar,
        role: MemberType,
        who: AccountId,
        r: Result<(), Error>,
    ) -> bool {
        &&& (r is Ok <==> !self.roles().contains_key(who))
        &&& r is Err ==> r == Err::<(), Error>(Error::DuplicateMember) && post == self
        &&& r is Ok ==> post.roles() == self.roles().insert(who, role)
            && post.bottles() == self.bottles()
            && post.manufacturer_index() == self.manufacturer_index()
            && post.events() == self.events().push(member_added(role, who))
    }

    /// Why `who` may not register the bottle `id`, if anything stands in the way.
    pub open spec fn register_bottle_error(&self, who: AccountId, id: Seq<u8>) -> Option<Error> {
        if !self.has_role(who, MemberType::Manufacturer) {
            Some(Error::NotManufacturer)
        } else if id_error(id, BOTTLE_ID_MAX_LENGTH as nat) is Some {
            id_error(id, BOTTLE_ID_MAX_LENGTH as nat)
        } else if self.bottles().contains_key(id) {
            Some(Error::IdExists)
        } else {
            None
        }
    }

    /// What a successful registration of bottle `id` by `who` did, going from `self` to `post`.
    pub open spec fn bottle_registered(&self, post: Registrar, who: AccountId, id: Seq<u8>, now: Moment) -> bool {
        &&& post.bottles() == self.bottles().insert(
            id,
            BottleView { id: id, owner: who, status: BottleStatus::Manufactured, registered: now },
        )
        &&& post.manufacturer_index() == self.manufacturer_index().push((who, id))
        &&& post.events() == self.events().push(EventView::BottleRegistered(who, id))
        &&& post.roles() == self.roles()
    }

    fn validate_role(&self, role: MemberType, who: AccountId) -> (r: Result<(), Error>)
        requires
            self.wf(),
        ensures
            r == (if self.has_role(who, role) { Ok::<(), Error>(()) } else { Err(role_error(role)) }),
    {
        if self.is_member(role, who) {
            Ok(())
        } else {
            match role {
                MemberType::Manufacturer => Err(Error::NotManufacturer),
                MemberType::Carrier => Err(Error::NotCarrier),
                MemberType::Retailer => Err(Error::NotRetailer),
                MemberType::Customer => Err(Error::NotCustomer),
            }
        }
    }

    pub fn validate_manufacturer(&self, who: AccountId) -> (r: Result<(), Error>)
        requires
            self.wf(),
        ensures
            r == (if self.has_role(who, MemberType::Manufacturer) { Ok::<(), Error>(()) } else { Err(Error::NotManufacturer) }),
    {
        self.validate_role(MemberType::Manufacturer, who)
    }

    pub fn validate_carrier(&self, who: AccountId) -> (r: Result<(), Error>)
        requires
            self.wf(),
        ensures
            r == (if self.has_role(who, MemberType::Carrier) { Ok::<(), Error>(()) } else { Err(Error::NotCarrier) }),
    {
        self.validate_role(MemberType::Carrier, who)
    }

    pub fn validate_retailer(&self, who: AccountId) -> (r: Result<(), Error>)
        requires
            self.wf(),
        ensures
            r == (if self.has_role(who, MemberType::Retailer) { Ok::<(), Error>(()) } else { Err(Error::NotRetailer) }),
    {
        self.validate_role(MemberType::Retailer, who)
    }

    pub fn validate_customer(&self, who: AccountId) -> (r: Result<(), Error>)
        requires
            self.wf(),
        ensures
            r == (if self.has_role(who, MemberType::Customer) { Ok::<(), Error>(()) } else { Err(Error::NotCustomer) }),
    {
        self.validate_role(MemberType::Customer, who)
    }

    /// Rejects an empty identifier or one longer than the bottle id limit.
    pub fn validate_bottle_id(id: &[u8]) -> (r: Result<(), Error>)
        ensures
            r == (match id_error(id@, BOTTLE_ID_MAX_LENGTH as nat) {
                Some(e) => Err(e),
                None => Ok::<(), Error>(()),
            }),
    {
        if id.len() == 0 {
            Err(Error::IdMissing)
        } else if id.len() > BOTTLE_ID_MAX_LENGTH {
            Err(Error::IdTooLong)
        } else {
            Ok(())
        }
    }

    /// Rejects an id that is already taken.
    pub fn validate_new_bottle(&self, id: &[u8]) -> (r: Result<(), Error>)
        requires
            self.wf(),
        ensures
            r == (if self.bottles().contains_key(id@) { Err(Error::IdExists) } else { Ok::<(), Error>(()) }),
    {
        if self.bottles.contains_key(id) {
            Err(Error::IdExists)
        } else {
            Ok(())
        }
    }

    pub fn check_bottle_id_present(&self, id: &[u8]) -> (r: Result<(), Error>)
        requires
            self.wf(),
        ensures
            r == (if self.bottles().contains_key(id@) { Ok::<(), Error>(()) } else { Err(Error::BottleNotExist) }),
    {
        if self.bottles.contains_key(id) {
            Ok(())
        } else {
            Err(Error::BottleNotExist)
        }
    }

    /// Succeeds exactly when the bottle exists and `owner` currently holds it.
    pub fn check_bottle_owner(&self, id: &[u8], owner: AccountId) -> (r: Result<(), Error>)
        requires
            self.wf(),
        ensures
            r == (if self.owns(id@, owner) { Ok::<(), Error>(()) } else { Err(Error::NotBottleOwner) }),
    {
        match self.bottles.get(id) {
            Some(b) => if b.owner == owner {
                Ok(())
            } else {
                Err(Error::NotBottleOwner)
            },
            None => Err(Error::NotBottleOwner),
        }
    }

    /// The record of bottle `id`, if it exists.
    pub fn bottle_by_id(&self, id: &[u8]) -> (r: Option<&Bottle>)
        requires
            self.wf(),
        ensures
            match r {
                Some(b) => self.bottles().contains_key(id@) && b@ == self.bottles()[id@],
                None => !self.bottles().contains_key(id@),
            },
    {
        self.bottles.get(id)
    }

    /// A builder for a new bottle record.
    pub fn new_bottle() -> (r: BottleBuilder)
        ensures
            r.id@ == Seq::<u8>::empty(),
            r.owner == 0,
            r.status == BottleStatus::Manufactured,
            r.registered == 0,
    {
        BottleBuilder::default()
    }

    /// Hands the bottle `id` to `new_owner`, whoever held it before.
    pub fn update_bottle_owner(&mut self, id: &[u8], new_owner: AccountId) -> (r: Result<(), Error>)
        requires
            old(self).wf(),
        ensures
            old(self).keeps_bottle_ids(*final(self)),
            final(self).wf(),
            r is Ok <==> old(self).bottles().contains_key(id@),
            r is Err ==> r == Err::<(), Error>(Error::BottleNotExist) && *final(self) == *old(self),
            r is Ok ==> final(self).bottles() == old(self).bottles().insert(id@, owned_by(old(self).bottles()[id@], new_owner)),
            final(self).roles() == old(self).roles(),
            final(self).manufacturer_index() == old(self).manufacturer_index(),
            final(self).events() == old(self).events(),
    {
        let changed = match self.bottles.get(id) {
            Some(b) => b.duplicate().change_owner(new_owner),
            None => {
                return Err(Error::BottleNotExist);
            },
        };
        self.bottles.insert(id, changed);
        Ok(())
    }

    /// Hands every listed bottle to `owner`.
    pub(crate) fn transfer_bottles(&mut self, ids: &Vec<BottleId>, owner: AccountId)
        requires
            old(self).wf(),
            forall|i: int| 0 <= i < ids@.len() ==> old(self).bottles().contains_key(#[trigger] ids@[i]@),
        ensures
            final(self).wf(),
            final(self).bottles() == transfer_all(old(self).bottles(), ids.deep_view(), owner),
            final(self).roles() == old(self).roles(),
            final(self).manufacturer_index() == old(self).manufacturer_index(),
            final(self).events() == old(self).events(),
    {
        let ghost start = self.bottles();
        let mut i: usize = 0;
        proof {
            assert(transfer_all(start, ids.deep_view().take(0), owner) =~= start);
        }
        while i < ids.len()
            invariant
                self.wf(),
                i <= ids@.len(),
                start == old(self).bottles(),
                forall|j: int| 0 <= j < ids@.len() ==> start.contains_key(#[trigger] ids@[j]@),
                self.bottles() == transfer_all(start, ids.deep_view().take(i as int), owner),
                self.roles() == old(self).roles(),
                self.manufacturer_index() == old(self).manufacturer_index(),
                self.events() == old(self).events(),
            decreases ids@.len() - i,
        {
            let ghost before = self.bottles();
            let r = self.update_bottle_owner(ids[i].as_slice(), owner);
            proof {
                let dv = ids.deep_view();
                assert(dv[i as int] == ids@[i as int]@);
                assert(dv.take(i + 1) =~= dv.take(i as int).push(dv[i as int]));
                lemma_take_push_contains(dv, i as int);
                assert(self.bottles() =~= transfer_all(start, dv.take(i + 1), owner));
            }
            i = i + 1;
        }
        proof {
            assert(ids.deep_view().take(ids@.len() as int) =~= ids.deep_view());
        }
    }

    /// Adds a bottle made by `who`; the id must be well formed and new.
    pub fn register_bottle(&mut self, who: AccountId, id: BottleId, now: Moment) -> (r: Result<(), Error>)
        requires
            old(self).wf(),
        ensures
            old(self).keeps_bottle_ids(*final(self)),
            final(self).wf(),
            r is Ok <==> old(self).register_bottle_error(who, id@) is None,
            r is Err ==> r == Err::<(), Error>(old(self).register_bottle_error(who, id@).unwrap())
                && *final(self) == *old(self),
            r is Ok ==> old(self).bottle_registered(*final(self), who, id@, now),
            final(self).roles() == old(self).roles(),
    {
        self.validate_manufacturer(who)?;
        Self::validate_bottle_id(id.as_slice())?;
        self.validate_new_bottle(id.as_slice())?;
        let bottle = Self::new_bottle()
            .identified_by(copy_bytes(id.as_slice()))
            .manufactured_by(who)
            .registered_on(now)
            .build();
        self.bottles.insert(id.as_slice(), bottle);
        let ghost mid = self.manufacturer_index();
        self.bottles_of_manufacturer.push((who, copy_bytes(id.as_slice())));
        proof {
            assert(self.manufacturer_index() =~= mid.push((who, id@)));
        }
        self.emit(Event::BottleRegistered(who, id));
        Ok(())
    }

    /// The ids of the bottles that `who` made, in order of registration.
    pub fn bottles_of_manufacturer(&self, who: AccountId) -> (r: Vec<BottleId>)
        ensures
            r.deep_view() == ids_for(self.manufacturer_index(), who),
    {
        ids_of(&self.bottles_of_manufacturer, who)
    }

    /// The notifications emitted so far, oldest first.
    pub fn event_log(&self) -> (r: &Vec<Event>)
        ensures
            views(r@) == self.events(),
    {
        &self.events
    }
}

} // verus!
