//! The tracking ledger: a registry of shipments, an append-only log of
//! shipping events with monotonic indexing, and a bounded membership set.
//!
//! All storage is held in one [`Tracks`] value. Each mutating operation
//! validates its inputs, checks its preconditions against the state, and
//! only then writes; a failed operation leaves the state untouched and
//! emits nothing. The surrounding environment authenticates the caller and
//! supplies the current time.

use vstd::prelude::*;

use crate::assoc::{
    bytes_eq, bytes_view, clone_byte_list, clone_bytes, clone_indices, kv_append, kv_contains,
    kv_find, kv_index, kv_unique, lemma_kv_append_unique, lemma_kv_index, lemma_kv_index_at,
    lemma_kv_index_push, lemma_kv_index_update, lemma_kv_unique_push,
};
use crate::shipment::{
    valid_identifier, Shipment, ShipmentStatus, ShipmentView, ShippingEvent, ShippingEventType,
    ShippingEventView, IDENTIFIER_MAX_LENGTH, SHIPMENT_MAX_PRODUCTS,
};

verus! {

/// Largest number of members the membership set may hold.
pub const MAX_MEMBERS: u32 = 16;

/// Everything that can go wrong in a ledger operation. The first violated
/// precondition, in the operation's fixed order of checks, is the one
/// reported.
#[derive(Clone, Copy, PartialEq, Eq, Structural, Debug)]
pub enum Error {
    /// The caller is already a member.
    AlreadyMember,
    /// The caller is not currently a member.
    NotMember,
    /// The membership set is at capacity.
    MembershipLimitReached,
    /// An identifier is empty or too long.
    InvalidOrMissingIdentifier,
    /// A shipment is already registered under this identifier.
    ShipmentAlreadyExists,
    /// The shipment has already been delivered; its lifecycle is over.
    ShipmentHasBeenDelivered,
    /// The shipment is already in transit and cannot be picked up again.
    ShipmentIsInTransit,
    /// No shipment is registered under the referenced identifier.
    ShipmentIsUnknown,
    /// The shipment's product list is too long.
    ShipmentHasTooManyProducts,
    /// An event is already recorded under this identifier.
    ShippingEventAlreadyExists,
    /// The event counter cannot be incremented any further.
    ShippingEventMaxExceeded,
}

/// A domain event deposited by a successful operation, in the order the
/// operation emits them.
#[derive(Clone, PartialEq, Eq, Debug)]
pub enum RawEvent {
    /// A member joined: (member).
    MemberAdded(u64),
    /// A member left: (member).
    MemberRemoved(u64),
    /// A shipment was registered: (caller, shipment id, owner).
    ShipmentRegistered(u64, Vec<u8>, u64),
    /// A shipment's status changed: (shipment id, new status).
    ShipmentStatusUpdated(Vec<u8>, ShipmentStatus),
    /// A shipping event was recorded: (caller, event id, shipment id, kind).
    ShippingEventRecorded(u64, Vec<u8>, Vec<u8>, ShippingEventType),
}

/// Mathematical image of a [`RawEvent`].
pub enum RawEventView {
    MemberAdded(u64),
    MemberRemoved(u64),
    ShipmentRegistered(u64, Seq<u8>, u64),
    ShipmentStatusUpdated(Seq<u8>, ShipmentStatus),
    ShippingEventRecorded(u64, Seq<u8>, Seq<u8>, ShippingEventType),
}

impl View for RawEvent {
    type V = RawEventView;

    open spec fn view(&self) -> RawEventView {
        match self {
            RawEvent::MemberAdded(m) => RawEventView::MemberAdded(*m),
            RawEvent::MemberRemoved(m) => RawEventView::MemberRemoved(*m),
            RawEvent::ShipmentRegistered(who, id, owner) => RawEventView::ShipmentRegistered(
                *who,
                id@,
                *owner,
            ),
            RawEvent::ShipmentStatusUpdated(id, st) => RawEventView::ShipmentStatusUpdated(
                id@,
                *st,
            ),
            RawEvent::ShippingEventRecorded(who, id, sid, ty) => RawEventView::ShippingEventRecorded(
                *who,
                id@,
                sid@,
                *ty,
            ),
        }
    }
}

/// Mathematical image of the whole ledger state.
#[verifier::ext_equal]
pub struct TracksView {
    /// Authorized accounts, in order of joining.
    pub members: Seq<u64>,
    /// Size of `members`, tracked separately.
    pub member_count: u32,
    /// Shipment records keyed by shipment id.
    pub shipments: Seq<(Seq<u8>, ShipmentView)>,
    /// Organization to the shipment ids it owns, in registration order.
    pub shipments_of_org: Seq<(u64, Seq<Seq<u8>>)>,
    /// Number of events recorded so far; also the index of the newest event.
    pub event_count: u64,
    /// Event records; the event with index `i` sits at position `i - 1`.
    pub all_events: Seq<ShippingEventView>,
    /// Event id to the index it was recorded under.
    pub event_indices: Seq<(Seq<u8>, u64)>,
    /// Shipment id to the indices of the events that reference it, oldest
    /// first.
    pub events_of_shipment: Seq<(Seq<u8>, Seq<u64>)>,
    /// Domain events deposited so far, oldest first.
    pub emitted: Seq<RawEventView>,
}

impl TracksView {
    /// Structural invariant of the ledger: every map has unique keys, a
    /// shipment entry's key is the record's own id, and the event log is
    /// densely indexed by `1..=event_count`, with `event_indices` a
    /// bijection between recorded event ids and that range.
    pub open spec fn well_formed(self) -> bool {
        &&& self.member_count == self.members.len()
        &&& self.member_count <= MAX_MEMBERS
        &&& (forall|i: int, j: int|
            0 <= i < j < self.members.len() ==> self.members[i] != self.members[j])
        &&& kv_unique(self.shipments)
        &&& (forall|i: int|
            0 <= i < self.shipments.len() ==> (#[trigger] self.shipments[i].1).id
                == self.shipments[i].0)
        &&& kv_unique(self.shipments_of_org)
        &&& kv_unique(self.event_indices)
        &&& self.event_indices.len() == self.event_count
        &&& self.all_events.len() == self.event_count
        &&& (forall|i: int|
            0 <= i < self.event_indices.len() ==> (#[trigger] self.event_indices[i]).1 == i + 1)
        &&& kv_unique(self.events_of_shipment)
    }
}

/// The ledger state. Constructed empty, then mutated only through the
/// operations below.
pub struct Tracks {
    members: Vec<u64>,
    member_count: u32,
    shipments: Vec<Shipment>,
    shipments_of_org: Vec<(u64, Vec<Vec<u8>>)>,
    event_count: u64,
    all_events: Vec<ShippingEvent>,
    event_indices: Vec<(Vec<u8>, u64)>,
    events_of_shipment: Vec<(Vec<u8>, Vec<u64>)>,
    events: Vec<RawEvent>,
}

impl View for Tracks {
    type V = TracksView;

    closed spec fn view(&self) -> TracksView {
        TracksView {
            members: self.members@,
            member_count: self.member_count,
            shipments: self.shipments@.map_values(|sh: Shipment| (sh.id@, sh@)),
            shipments_of_org: self.shipments_of_org@.map_values(
                |e: (u64, Vec<Vec<u8>>)| (e.0, crate::assoc::bytes_view(e.1@)),
            ),
            event_count: self.event_count,
            all_events: self.all_events@.map_values(|ev: ShippingEvent| ev@),
            event_indices: self.event_indices@.map_values(|e: (Vec<u8>, u64)| (e.0@, e.1)),
            events_of_shipment: self.events_of_shipment@.map_values(
                |e: (Vec<u8>, Vec<u64>)| (e.0@, e.1@),
            ),
            emitted: self.events@.map_values(|ev: RawEvent| ev@),
        }
    }
}

/// Outcome of `add_member`: capacity is checked before membership.
pub open spec fn add_member_result(s: TracksView, who: u64) -> Result<(), Error> {
    if s.member_count >= MAX_MEMBERS {
        Err(Error::MembershipLimitReached)
    } else if s.members.contains(who) {
        Err(Error::AlreadyMember)
    } else {
        Ok(())
    }
}

/// State after a successful `add_member`.
pub open spec fn add_member_state(s: TracksView, who: u64) -> TracksView {
    TracksView {
        members: s.members.push(who),
        member_count: (s.member_count + 1) as u32,
        emitted: s.emitted.push(RawEventView::MemberAdded(who)),
        ..s
    }
}

/// Outcome of `remove_member`.
pub open spec fn remove_member_result(s: TracksView, who: u64) -> Result<(), Error> {
    if !s.members.contains(who) {
        Err(Error::NotMember)
    } else {
        Ok(())
    }
}

/// State after a successful `remove_member`.
pub open spec fn remove_member_state(s: TracksView, who: u64) -> TracksView {
    TracksView {
        members: s.members.remove_value(who),
        member_count: (s.member_count - 1) as u32,
        emitted: s.emitted.push(RawEventView::MemberRemoved(who)),
        ..s
    }
}

/// A shipment record with every field fixed: freshly registered shipments
/// are `Pending` and undelivered.
pub open spec fn new_shipment_record(
    id: Seq<u8>,
    owner: u64,
    products: Seq<Seq<u8>>,
    registered: u64,
) -> ShipmentView {
    ShipmentView {
        id,
        owner,
        status: ShipmentStatus::Pending,
        products,
        registered,
        delivered: None,
    }
}

/// Outcome of `register_shipment`: the identifier is validated first, the
/// product list second, and the registry is consulted last.
pub open spec fn register_shipment_result(
    s: TracksView,
    id: Seq<u8>,
    products: Seq<Seq<u8>>,
) -> Result<(), Error> {
    if !valid_identifier(id) {
        Err(Error::InvalidOrMissingIdentifier)
    } else if products.len() > SHIPMENT_MAX_PRODUCTS {
        Err(Error::ShipmentHasTooManyProducts)
    } else if kv_contains(s.shipments, id) {
        Err(Error::ShipmentAlreadyExists)
    } else {
        Ok(())
    }
}

/// State after a successful `register_shipment`: the new record is added to
/// the registry, its id is appended to the owner's index, and registration
/// and status events are emitted in that order.
pub open spec fn register_shipment_state(
    s: TracksView,
    who: u64,
    id: Seq<u8>,
    owner: u64,
    products: Seq<Seq<u8>>,
    now: u64,
) -> TracksView {
    TracksView {
        shipments: s.shipments.push((id, new_shipment_record(id, owner, products, now))),
        shipments_of_org: kv_append(s.shipments_of_org, owner, id),
        emitted: s.emitted.push(RawEventView::ShipmentRegistered(who, id, owner)).push(
            RawEventView::ShipmentStatusUpdated(id, ShipmentStatus::Pending),
        ),
        ..s
    }
}

/// Outcome of `record_event`: both identifiers are validated first, then
/// the counter, the event id, the shipment's existence, and the status
/// rule, in that order. The status rule refuses everything after delivery,
/// and a second pickup while in transit.
pub open spec fn record_event_result(s: TracksView, ev: ShippingEventView) -> Result<(), Error> {
    if !valid_identifier(ev.id) {
        Err(Error::InvalidOrMissingIdentifier)
    } else if !valid_identifier(ev.shipment_id) {
        Err(Error::InvalidOrMissingIdentifier)
    } else if s.event_count == u64::MAX {
        Err(Error::ShippingEventMaxExceeded)
    } else if kv_contains(s.event_indices, ev.id) {
        Err(Error::ShippingEventAlreadyExists)
    } else {
        match kv_find(s.shipments, ev.shipment_id) {
            None => Err(Error::ShipmentIsUnknown),
            Some(sh) => match sh.status {
                ShipmentStatus::Delivered => Err(Error::ShipmentHasBeenDelivered),
                ShipmentStatus::InTransit => if ev.event_type
                    == ShippingEventType::ShipmentPickup {
                    Err(Error::ShipmentIsInTransit)
                } else {
                    Ok(())
                },
                ShipmentStatus::Pending => Ok(()),
            },
        }
    }
}

/// State after a successful `record_event`: the ledger write under the next
/// index, the `ShippingEventRecorded` emission, and — for pickup and
/// delivery — the status transition with its `ShipmentStatusUpdated`
/// emission. A sensor reading leaves the shipment untouched.
pub open spec fn record_event_state(
    s: TracksView,
    who: u64,
    ev: ShippingEventView,
    now: u64,
) -> TracksView {
    let idx = (s.event_count + 1) as u64;
    let si = kv_index(s.shipments, ev.shipment_id);
    let sh = s.shipments[si].1;
    let base = TracksView {
        event_count: idx,
        all_events: s.all_events.push(ev),
        event_indices: s.event_indices.push((ev.id, idx)),
        events_of_shipment: kv_append(s.events_of_shipment, ev.shipment_id, idx),
        emitted: s.emitted.push(
            RawEventView::ShippingEventRecorded(who, ev.id, ev.shipment_id, ev.event_type),
        ),
        ..s
    };
    match ev.event_type {
        ShippingEventType::SensorReading => base,
        ShippingEventType::ShipmentPickup => TracksView {
            shipments: s.shipments.update(si, (s.shipments[si].0, sh.after_pickup())),
            emitted: base.emitted.push(
                RawEventView::ShipmentStatusUpdated(ev.shipment_id, ShipmentStatus::InTransit),
            ),
            ..base
        },
        ShippingEventType::ShipmentDelivery => TracksView {
            shipments: s.shipments.update(si, (s.shipments[si].0, sh.after_delivery(now))),
            emitted: base.emitted.push(
                RawEventView::ShipmentStatusUpdated(ev.shipment_id, ShipmentStatus::Delivered),
            ),
            ..base
        },
    }
}

/// How far along the lifecycle `Pending → InTransit → Delivered` a status
/// lies.
pub open spec fn status_rank(st: ShipmentStatus) -> int {
    match st {
        ShipmentStatus::Pending => 0,
        ShipmentStatus::InTransit => 1,
        ShipmentStatus::Delivered => 2,
    }
}

/// Whether some entry of the event-id index carries index `idx`.
pub open spec fn index_recorded(s: TracksView, idx: u64) -> bool {
    exists|i: int| 0 <= i < s.event_indices.len() && (#[trigger] s.event_indices[i]).1 == idx
}

/// The event-id index is a bijection onto `1..=event_count`: it holds one
/// entry per recorded index, entry `i` carries index `i + 1`, its ids are
/// pairwise distinct, and every index in range is carried by some entry.
pub proof fn lemma_event_index_bijection(s: TracksView)
    requires
        s.well_formed(),
    ensures
        s.event_indices.len() == s.event_count,
        forall|i: int, j: int|
            0 <= i < j < s.event_indices.len() ==> s.event_indices[i].0 != s.event_indices[j].0,
        forall|i: int| 0 <= i < s.event_indices.len() ==> (#[trigger] s.event_indices[i]).1 == i + 1,
        forall|idx: u64| 1 <= idx <= s.event_count ==> #[trigger] index_recorded(s, idx),
{
    assert forall|idx: u64| 1 <= idx <= s.event_count implies #[trigger] index_recorded(s, idx) by {
        assert(s.event_indices[idx - 1].1 == idx);
    }
}

/// Each successful `record_event` raises the event counter by exactly one.
pub proof fn lemma_event_count_increment(s: TracksView, who: u64, ev: ShippingEventView, now: u64)
    requires
        record_event_result(s, ev) is Ok,
    ensures
        record_event_state(s, who, ev, now).event_count == s.event_count + 1,
{
}

/// Registration is write-once: after a successful registration under `id`,
/// registering under the same id again — whatever the owner and whatever
/// the product list, provided the list is within bounds — fails with
/// `ShipmentAlreadyExists`.
pub proof fn lemma_register_write_once(
    s: TracksView,
    who: u64,
    id: Seq<u8>,
    owner: u64,
    products: Seq<Seq<u8>>,
    now: u64,
    owner2: u64,
    products2: Seq<Seq<u8>>,
)
    requires
        register_shipment_result(s, id, products) is Ok,
        products2.len() <= SHIPMENT_MAX_PRODUCTS,
    ensures
        register_shipment_result(
            register_shipment_state(s, who, id, owner, products, now),
            id,
            products2,
        ) == Err::<(), Error>(Error::ShipmentAlreadyExists),
{
    let e = (id, new_shipment_record(id, owner, products, now));
    lemma_kv_index_push(s.shipments, id, e);
    lemma_kv_index(s.shipments, id);
}

/// Registration stores the new shipment as `Pending` and touches no other
/// shipment.
pub proof fn lemma_register_shipments(
    s: TracksView,
    who: u64,
    id: Seq<u8>,
    owner: u64,
    products: Seq<Seq<u8>>,
    now: u64,
    other: Seq<u8>,
)
    requires
        register_shipment_result(s, id, products) is Ok,
    ensures
        kv_find(
            register_shipment_state(s, who, id, owner, products, now).shipments,
            id,
        ) == Some(new_shipment_record(id, owner, products, now)),
        other != id ==> kv_find(
            register_shipment_state(s, who, id, owner, products, now).shipments,
            other,
        ) == kv_find(s.shipments, other),
{
    let e = (id, new_shipment_record(id, owner, products, now));
    lemma_kv_index_push(s.shipments, id, e);
    lemma_kv_index(s.shipments, id);
    lemma_kv_index_push(s.shipments, other, e);
    lemma_kv_index(s.shipments, other);
    lemma_kv_index(s.shipments.push(e), other);
}

/// A successful `record_event` never moves a shipment's status backwards
/// along `Pending → InTransit → Delivered`: every shipment present before
/// the call is still present, with a status at least as far along, and a
/// shipment other than the referenced one is untouched.
pub proof fn lemma_status_monotonic(
    s: TracksView,
    who: u64,
    ev: ShippingEventView,
    now: u64,
    id: Seq<u8>,
)
    requires
        s.well_formed(),
        record_event_result(s, ev) is Ok,
        kv_contains(s.shipments, id),
    ensures
        kv_contains(record_event_state(s, who, ev, now).shipments, id),
        status_rank(kv_find(record_event_state(s, who, ev, now).shipments, id).unwrap().status)
            >= status_rank(kv_find(s.shipments, id).unwrap().status),
        id != ev.shipment_id ==> kv_find(
            record_event_state(s, who, ev, now).shipments,
            id,
        ) == kv_find(s.shipments, id),
{
    let s2 = record_event_state(s, who, ev, now);
    let si = kv_index(s.shipments, ev.shipment_id);
    lemma_kv_index(s.shipments, ev.shipment_id);
    lemma_kv_index(s.shipments, id);
    if ev.event_type == ShippingEventType::SensorReading {
    } else {
        let sh = s.shipments[si].1;
        let e = if ev.event_type == ShippingEventType::ShipmentPickup {
            (s.shipments[si].0, sh.after_pickup())
        } else {
            (s.shipments[si].0, sh.after_delivery(now))
        };
        lemma_kv_index_update(s.shipments, id, si, e);
        if id == ev.shipment_id {
            assert(kv_index(s.shipments, id) == si);
            assert(kv_find(s2.shipments, id) == Some(e.1));
        } else {
            assert(kv_index(s.shipments, id) != si);
        }
    }
}

/// Mathematical image of a [`ShipmentBuilder`].
#[verifier::ext_equal]
pub struct ShipmentBuilderView {
    pub id: Seq<u8>,
    pub owner: u64,
    pub products: Seq<Seq<u8>>,
    pub registered: u64,
}

/// Step-by-step construction of a [`Shipment`]. The builder fixes the
/// defaults — a fresh shipment is `Pending` and undelivered — so no record
/// is ever observable half-initialized.
pub struct ShipmentBuilder {
    id: Vec<u8>,
    owner: u64,
    products: Vec<Vec<u8>>,
    registered: u64,
}

impl View for ShipmentBuilder {
    type V = ShipmentBuilderView;

    closed spec fn view(&self) -> ShipmentBuilderView {
        ShipmentBuilderView {
            id: self.id@,
            owner: self.owner,
            products: bytes_view(self.products@),
            registered: self.registered,
        }
    }
}

impl Default for ShipmentBuilder {
    /// A builder with an empty identifier, the zero owner, no products, and
    /// the zero time.
    fn default() -> (r: Self)
        ensures
            r@ == (ShipmentBuilderView {
                id: Seq::<u8>::empty(),
                owner: 0u64,
                products: Seq::<Seq<u8>>::empty(),
                registered: 0u64,
            }),
    {
        let r = ShipmentBuilder { id: Vec::new(), owner: 0, products: Vec::new(), registered: 0 };
        proof {
            assert(r@ =~= (ShipmentBuilderView {
                id: Seq::<u8>::empty(),
                owner: 0u64,
                products: Seq::<Seq<u8>>::empty(),
                registered: 0u64,
            }));
        }
        r
    }
}

impl ShipmentBuilder {
    /// Sets the shipment identifier.
    pub fn identified_by(self, id: Vec<u8>) -> (r: Self)
        ensures
            r@ == (ShipmentBuilderView { id: id@, ..self@ }),
    {
        let mut s = self;
        s.id = id;
        s
    }

    /// Sets the owning organization.
    pub fn owned_by(self, owner: u64) -> (r: Self)
        ensures
            r@ == (ShipmentBuilderView { owner, ..self@ }),
    {
        let mut s = self;
        s.owner = owner;
        s
    }

    /// Sets the product list.
    pub fn with_products(self, products: Vec<Vec<u8>>) -> (r: Self)
        ensures
            r@ == (ShipmentBuilderView { products: bytes_view(products@), ..self@ }),
    {
        let mut s = self;
        s.products = products;
        s
    }

    /// Sets the registration time.
    pub fn registered_on(self, registered: u64) -> (r: Self)
        ensures
            r@ == (ShipmentBuilderView { registered, ..self@ }),
    {
        let mut s = self;
        s.registered = registered;
        s
    }

    /// Assembles the record: status `Pending`, no delivery time.
    pub fn build(self) -> (r: Shipment)
        ensures
            r@ == new_shipment_record(self@.id, self@.owner, self@.products, self@.registered),
    {
        let r = Shipment {
            id: self.id,
            owner: self.owner,
            status: ShipmentStatus::Pending,
            products: self.products,
            registered: self.registered,
            delivered: None,
        };
        proof {
            assert(r@ =~= new_shipment_record(self@.id, self@.owner, self@.products, self@.registered));
        }
        r
    }
}

impl Tracks {
    /// Checks that `id` is an admissible identifier: non-empty and at most
    /// [`IDENTIFIER_MAX_LENGTH`] bytes.
    pub fn validate_identifier(id: &Vec<u8>) -> (r: Result<(), Error>)
        ensures
            r == (if valid_identifier(id@) {
                Ok::<(), Error>(())
            } else {
                Err::<(), Error>(Error::InvalidOrMissingIdentifier)
            }),
    {
        if id.len() == 0 {
            return Err(Error::InvalidOrMissingIdentifier);
        }
        if id.len() > IDENTIFIER_MAX_LENGTH {
            return Err(Error::InvalidOrMissingIdentifier);
        }
        Ok(())
    }

    /// Checks that the product list is within [`SHIPMENT_MAX_PRODUCTS`].
    pub fn validate_shipment_products(products: &Vec<Vec<u8>>) -> (r: Result<(), Error>)
        ensures
            r == (if products@.len() <= SHIPMENT_MAX_PRODUCTS {
                Ok::<(), Error>(())
            } else {
                Err::<(), Error>(Error::ShipmentHasTooManyProducts)
            }),
    {
        if products.len() > SHIPMENT_MAX_PRODUCTS {
            return Err(Error::ShipmentHasTooManyProducts);
        }
        Ok(())
    }

    /// Position of the shipment registered under `id`, as `kv_index` sees
    /// it.
    fn find_shipment_position(&self, id: &Vec<u8>) -> (r: Option<usize>)
        ensures
            match r {
                Some(i) => kv_index(self@.shipments, id@) == i as int && i < self.shipments.len(),
                None => kv_index(self@.shipments, id@) < 0,
            },
    {
        let mut i: usize = 0;
        while i < self.shipments.len()
            invariant
                i <= self.shipments.len(),
                forall|j: int| 0 <= j < i ==> (#[trigger] self@.shipments[j]).0 != id@,
            decreases self.shipments.len() - i,
        {
            if bytes_eq(&self.shipments[i].id, id) {
                proof {
                    lemma_kv_index_at(self@.shipments, id@, i as int);
                }
                return Some(i);
            }
            i += 1;
        }
        proof {
            lemma_kv_index(self@.shipments, id@);
        }
        None
    }

    /// Checks that no shipment is registered under `id` yet.
    pub fn validate_new_shipment(&self, id: &Vec<u8>) -> (r: Result<(), Error>)
        ensures
            r == (if kv_contains(self@.shipments, id@) {
                Err::<(), Error>(Error::ShipmentAlreadyExists)
            } else {
                Ok::<(), Error>(())
            }),
    {
        match self.find_shipment_position(id) {
            Some(_) => Err(Error::ShipmentAlreadyExists),
            None => Ok(()),
        }
    }

    /// A builder for a fresh shipment record.
    fn new_shipment() -> (r: ShipmentBuilder)
        ensures
            r@ == (ShipmentBuilderView {
                id: Seq::<u8>::empty(),
                owner: 0u64,
                products: Seq::<Seq<u8>>::empty(),
                registered: 0u64,
            }),
    {
        ShipmentBuilder::default()
    }

    /// Appends `id` to the list of shipments owned by `owner`, creating the
    /// entry when the organization has none yet. Nothing else changes.
    fn append_org_entry(&mut self, owner: u64, id: Vec<u8>)
        ensures
            final(self)@ == (TracksView {
                shipments_of_org: kv_append(old(self)@.shipments_of_org, owner, id@),
                ..old(self)@
            }),
    {
        let mut i: usize = 0;
        while i < self.shipments_of_org.len()
            invariant
                self == old(self),
                i <= self.shipments_of_org.len(),
                forall|j: int| 0 <= j < i ==> (#[trigger] self@.shipments_of_org[j]).0 != owner,
            decreases self.shipments_of_org.len() - i,
        {
            if self.shipments_of_org[i].0 == owner {
                proof {
                    lemma_kv_index_at(self@.shipments_of_org, owner, i as int);
                }
                let mut entry = self.shipments_of_org.remove(i);
                entry.1.push(id);
                self.shipments_of_org.insert(i, entry);
                proof {
                    let v0 = old(self)@.shipments_of_org;
                    let target = v0.update(i as int, (owner, v0[i as int].1.push(id@)));
                    let cur = self@.shipments_of_org;
                    assert forall|j: int| 0 <= j < target.len() implies cur[j] == target[j] by {
                        if j == i {
                            assert(cur[j].0 == owner);
                            assert(cur[j].1 =~= v0[i as int].1.push(id@));
                        } else {
                            assert(cur[j] == v0[j]);
                        }
                    }
                    assert(cur =~= target);
                    assert(self@ =~= (TracksView {
                        shipments_of_org: kv_append(v0, owner, id@),
                        ..old(self)@
                    }));
                }
                return;
            }
            i += 1;
        }
        proof {
            lemma_kv_index(self@.shipments_of_org, owner);
        }
        let mut fresh: Vec<Vec<u8>> = Vec::new();
        fresh.push(id);
        self.shipments_of_org.push((owner, fresh));
        proof {
            let v0 = old(self)@.shipments_of_org;
            let target = v0.push((owner, seq![id@]));
            let cur = self@.shipments_of_org;
            assert forall|j: int| 0 <= j < target.len() implies cur[j] == target[j] by {
                if j == v0.len() {
                    assert(cur[j].0 == owner);
                    assert(cur[j].1 =~= seq![id@]);
                } else {
                    assert(cur[j] == v0[j]);
                }
            }
            assert(cur =~= target);
            assert(self@ =~= (TracksView {
                shipments_of_org: kv_append(v0, owner, id@),
                ..old(self)@
            }));
        }
    }

    /// Position of the index entry recorded under event id `id`, as
    /// `kv_index` sees it.
    fn find_event_position(&self, id: &Vec<u8>) -> (r: Option<usize>)
        ensures
            match r {
                Some(i) => kv_index(self@.event_indices, id@) == i as int && i
                    < self.event_indices.len(),
                None => kv_index(self@.event_indices, id@) < 0,
            },
    {
        let mut i: usize = 0;
        while i < self.event_indices.len()
            invariant
                i <= self.event_indices.len(),
                forall|j: int| 0 <= j < i ==> (#[trigger] self@.event_indices[j]).0 != id@,
            decreases self.event_indices.len() - i,
        {
            if bytes_eq(&self.event_indices[i].0, id) {
                proof {
                    lemma_kv_index_at(self@.event_indices, id@, i as int);
                }
                return Some(i);
            }
            i += 1;
        }
        proof {
            lemma_kv_index(self@.event_indices, id@);
        }
        None
    }

    /// Checks that no shipping event is recorded under `id` yet.
    pub fn validate_new_shipping_event(&self, id: &Vec<u8>) -> (r: Result<(), Error>)
        ensures
            r == (if kv_contains(self@.event_indices, id@) {
                Err::<(), Error>(Error::ShippingEventAlreadyExists)
            } else {
                Ok::<(), Error>(())
            }),
    {
        match self.find_event_position(id) {
            Some(_) => Err(Error::ShippingEventAlreadyExists),
            None => Ok(()),
        }
    }

    /// Appends event index `idx` to the list kept for shipment `sid`,
    /// creating the entry when the shipment has none yet. Nothing else
    /// changes.
    fn append_event_of_shipment(&mut self, sid: Vec<u8>, idx: u64)
        ensures
            final(self)@ == (TracksView {
                events_of_shipment: kv_append(old(self)@.events_of_shipment, sid@, idx),
                ..old(self)@
            }),
    {
        let mut i: usize = 0;
        while i < self.events_of_shipment.len()
            invariant
                self == old(self),
                i <= self.events_of_shipment.len(),
                forall|j: int| 0 <= j < i ==> (#[trigger] self@.events_of_shipment[j]).0 != sid@,
            decreases self.events_of_shipment.len() - i,
        {
            if bytes_eq(&self.events_of_shipment[i].0, &sid) {
                proof {
                    lemma_kv_index_at(self@.events_of_shipment, sid@, i as int);
                }
                let mut entry = self.events_of_shipment.remove(i);
                entry.1.push(idx);
                self.events_of_shipment.insert(i, entry);
                proof {
                    let v0 = old(self)@.events_of_shipment;
                    let target = v0.update(i as int, (sid@, v0[i as int].1.push(idx)));
                    let cur = self@.events_of_shipment;
                    assert forall|j: int| 0 <= j < target.len() implies cur[j] == target[j] by {
                        if j == i {
                            assert(cur[j].0 == sid@);
                            assert(cur[j].1 =~= v0[i as int].1.push(idx));
                        } else {
                            assert(cur[j] == v0[j]);
                        }
                    }
                    assert(cur =~= target);
                    assert(self@ =~= (TracksView {
                        events_of_shipment: kv_append(v0, sid@, idx),
                        ..old(self)@
                    }));
                }
                return;
            }
            i += 1;
        }
        proof {
            lemma_kv_index(self@.events_of_shipment, sid@);
        }
        let mut fresh: Vec<u64> = Vec::new();
        fresh.push(idx);
        self.events_of_shipment.push((sid, fresh));
        proof {
            let v0 = old(self)@.events_of_shipment;
            let target = v0.push((sid@, seq![idx]));
            let cur = self@.events_of_shipment;
            assert forall|j: int| 0 <= j < target.len() implies cur[j] == target[j] by {
                if j == v0.len() {
                    assert(cur[j].0 == sid@);
                    assert(cur[j].1 =~= seq![idx]);
                } else {
                    assert(cur[j] == v0[j]);
                }
            }
            assert(cur =~= target);
            assert(self@ =~= (TracksView {
                events_of_shipment: kv_append(v0, sid@, idx),
                ..old(self)@
            }));
        }
    }

    /// Writes `shipment` into the registry as it stands, without validation,
    /// event emission, or index maintenance. This is the raw registry write
    /// that `register_shipment` performs after its checks; it lets a test
    /// start from a chosen registry state.
    pub fn store_shipment(&mut self, shipment: Shipment)
        requires
            old(self)@.well_formed(),
            !kv_contains(old(self)@.shipments, shipment.id@),
        ensures
            final(self)@.well_formed(),
            final(self)@ == (TracksView {
                shipments: old(self)@.shipments.push((shipment.id@, shipment@)),
                ..old(self)@
            }),
    {
        let ghost sid = shipment.id@;
        let ghost shv = shipment@;
        proof {
            lemma_kv_index(self@.shipments, sid);
            lemma_kv_unique_push(self@.shipments, (sid, shv));
        }
        self.shipments.push(shipment);
        proof {
            assert(self@.shipments =~= old(self)@.shipments.push((sid, shv)));
            assert(self@ =~= (TracksView {
                shipments: old(self)@.shipments.push((sid, shv)),
                ..old(self)@
            }));
        }
    }

    /// Appends `event` to the ledger under the next index, without
    /// validation or event emission: the counter is raised by one, the
    /// record is stored at the new index, the event id is mapped to it, and
    /// the index is appended to the shipment's list. This is the raw ledger
    /// write that `record_event` performs after its checks.
    pub fn store_event(&mut self, event: ShippingEvent)
        requires
            old(self)@.well_formed(),
            old(self)@.event_count < u64::MAX,
            !kv_contains(old(self)@.event_indices, event.id@),
        ensures
            final(self)@.well_formed(),
            final(self)@ == (TracksView {
                event_count: (old(self)@.event_count + 1) as u64,
                all_events: old(self)@.all_events.push(event@),
                event_indices: old(self)@.event_indices.push(
                    (event.id@, (old(self)@.event_count + 1) as u64),
                ),
                events_of_shipment: kv_append(
                    old(self)@.events_of_shipment,
                    event.shipment_id@,
                    (old(self)@.event_count + 1) as u64,
                ),
                ..old(self)@
            }),
    {
        let ghost s0 = self@;
        let ghost evv = event@;
        let idx = self.event_count + 1;
        let ei_id = clone_bytes(&event.id);
        let sid = clone_bytes(&event.shipment_id);
        proof {
            lemma_kv_index(s0.event_indices, evv.id);
            lemma_kv_unique_push(s0.event_indices, (evv.id, idx));
            lemma_kv_append_unique(s0.events_of_shipment, evv.shipment_id, idx);
        }
        self.event_count = idx;
        self.all_events.push(event);
        self.event_indices.push((ei_id, idx));
        self.append_event_of_shipment(sid, idx);
        proof {
            assert(self@.all_events =~= s0.all_events.push(evv));
            assert(self@.event_indices =~= s0.event_indices.push((evv.id, idx)));
            assert(self@ =~= (TracksView {
                event_count: idx,
                all_events: s0.all_events.push(evv),
                event_indices: s0.event_indices.push((evv.id, idx)),
                events_of_shipment: kv_append(s0.events_of_shipment, evv.shipment_id, idx),
                ..s0
            }));
        }
    }

    /// Registers a new shipment owned by `owner` under `id`, at time `now`.
    ///
    /// The identifier must be admissible, the product list within bounds,
    /// and the id free, checked in that order; the first failure is
    /// reported and the state is left untouched. On success the shipment is
    /// stored `Pending` and undelivered, the owner's index gains the id,
    /// and `ShipmentRegistered` then `ShipmentStatusUpdated` are emitted.
    pub fn register_shipment(
        &mut self,
        who: u64,
        id: Vec<u8>,
        owner: u64,
        products: Vec<Vec<u8>>,
        now: u64,
    ) -> (r: Result<(), Error>)
        requires
            old(self)@.well_formed(),
        ensures
            final(self)@.well_formed(),
            r == register_shipment_result(old(self)@, id@, bytes_view(products@)),
            r is Ok ==> final(self)@ == register_shipment_state(
                old(self)@,
                who,
                id@,
                owner,
                bytes_view(products@),
                now,
            ),
            r is Err ==> final(self)@ == old(self)@,
    {
        let ghost idv = id@;
        let ghost prodv = bytes_view(products@);
        if let Err(e) = Tracks::validate_identifier(&id) {
            return Err(e);
        }
        if let Err(e) = Tracks::validate_shipment_products(&products) {
            return Err(e);
        }
        if let Err(e) = self.validate_new_shipment(&id) {
            return Err(e);
        }
        let ev_id1 = clone_bytes(&id);
        let ev_id2 = clone_bytes(&id);
        let org_id = clone_bytes(&id);
        let shipment = Tracks::new_shipment()
            .identified_by(id)
            .owned_by(owner)
            .registered_on(now)
            .with_products(products)
            .build();
        let status = shipment.status;
        proof {
            lemma_kv_index(old(self)@.shipments, idv);
            lemma_kv_unique_push(old(self)@.shipments, (idv, shipment@));
        }
        self.shipments.push(shipment);
        proof {
            assert(self@.shipments =~= old(self)@.shipments.push((idv, new_shipment_record(
                idv,
                owner,
                prodv,
                now,
            ))));
        }
        self.append_org_entry(owner, org_id);
        self.events.push(RawEvent::ShipmentRegistered(who, ev_id1, owner));
        self.events.push(RawEvent::ShipmentStatusUpdated(ev_id2, status));
        proof {
            let s0 = old(self)@;
            lemma_kv_append_unique(s0.shipments_of_org, owner, idv);
            assert(self@.emitted =~= s0.emitted.push(RawEventView::ShipmentRegistered(
                who,
                idv,
                owner,
            )).push(RawEventView::ShipmentStatusUpdated(idv, ShipmentStatus::Pending)));
            assert(self@ =~= register_shipment_state(s0, who, idv, owner, prodv, now));
        }
        Ok(())
    }

    /// Records a shipping event against the shipment it references, at
    /// time `now`.
    ///
    /// Both identifiers must be admissible; the event counter must have
    /// room; the event id must be free; the shipment must exist; and its
    /// status must admit the event's kind — checked in that order, with the
    /// first failure reported and the state left untouched. On success the
    /// event is stored under the next index, `ShippingEventRecorded` is
    /// emitted, and a pickup or delivery moves the shipment's status and
    /// emits `ShipmentStatusUpdated`; a delivery also records `now` as the
    /// delivery time.
    pub fn record_event(&mut self, who: u64, event: ShippingEvent, now: u64) -> (r: Result<
        (),
        Error,
    >)
        requires
            old(self)@.well_formed(),
        ensures
            final(self)@.well_formed(),
            r == record_event_result(old(self)@, event@),
            r is Ok ==> final(self)@ == record_event_state(old(self)@, who, event@, now),
            r is Err ==> final(self)@ == old(self)@,
    {
        let ghost s0 = self@;
        let ghost evv = event@;
        if let Err(e) = Tracks::validate_identifier(&event.id) {
            return Err(e);
        }
        if let Err(e) = Tracks::validate_identifier(&event.shipment_id) {
            return Err(e);
        }
        let event_id = clone_bytes(&event.id);
        let event_type = event.event_type;
        let shipment_id = clone_bytes(&event.shipment_id);
        let event_count = self.event_count;
        if event_count == u64::MAX {
            return Err(Error::ShippingEventMaxExceeded);
        }
        let event_idx = event_count + 1;
        if let Err(e) = self.validate_new_shipping_event(&event_id) {
            return Err(e);
        }
        let si = match self.find_shipment_position(&shipment_id) {
            None => {
                proof {
                    lemma_kv_index(s0.shipments, evv.shipment_id);
                }
                return Err(Error::ShipmentIsUnknown);
            },
            Some(i) => i,
        };
        proof {
            lemma_kv_index(s0.shipments, evv.shipment_id);
            assert(kv_find(s0.shipments, evv.shipment_id) == Some(s0.shipments[si as int].1));
        }
        let status0 = self.shipments[si].status;
        if status0 == ShipmentStatus::Delivered {
            return Err(Error::ShipmentHasBeenDelivered);
        }
        if status0 == ShipmentStatus::InTransit && event_type == ShippingEventType::ShipmentPickup {
            return Err(Error::ShipmentIsInTransit);
        }
        self.store_event(event);
        self.events.push(
            RawEvent::ShippingEventRecorded(who, event_id, clone_bytes(&shipment_id), event_type),
        );
        let ghost mid = self@;
        proof {
            assert(mid.emitted =~= s0.emitted.push(
                RawEventView::ShippingEventRecorded(who, evv.id, evv.shipment_id, evv.event_type),
            ));
        }
        if event_type == ShippingEventType::SensorReading {
            proof {
                assert(self@ =~= record_event_state(s0, who, evv, now));
            }
            return Ok(());
        }
        let sh = self.shipments.remove(si);
        let sh2 = if event_type == ShippingEventType::ShipmentPickup {
            sh.pickup()
        } else {
            sh.deliver(now)
        };
        let new_status = sh2.status;
        self.shipments.insert(si, sh2);
        self.events.push(RawEvent::ShipmentStatusUpdated(shipment_id, new_status));
        proof {
            let target = record_event_state(s0, who, evv, now);
            let shv = s0.shipments[si as int].1;
            assert(sh@ == shv);
            assert(s0.shipments[si as int].0 == shv.id);
            assert forall|j: int| 0 <= j < self@.shipments.len() implies self@.shipments[j]
                == target.shipments[j] by {
                if j != si {
                    assert(self@.shipments[j] == s0.shipments[j]);
                }
            }
            assert(self@.shipments =~= target.shipments);
            assert(self@.emitted =~= target.emitted);
            assert(self@ =~= target);
            assert forall|a: int, b: int|
                0 <= a < b < self@.shipments.len() implies self@.shipments[a].0
                != self@.shipments[b].0 by {
                assert(self@.shipments[a].0 == s0.shipments[a].0);
                assert(self@.shipments[b].0 == s0.shipments[b].0);
            }
            assert forall|i: int| 0 <= i < self@.shipments.len() implies (#[trigger] self@.shipments[i].1).id
                == self@.shipments[i].0 by {
                if i != si {
                    assert(self@.shipments[i] == s0.shipments[i]);
                }
            }
        }
        Ok(())
    }

    /// A fresh, empty ledger.
    pub fn new() -> (r: Self)
        ensures
            r@.well_formed(),
            r@ == (TracksView {
                members: Seq::<u64>::empty(),
                member_count: 0u32,
                shipments: Seq::<(Seq<u8>, ShipmentView)>::empty(),
                shipments_of_org: Seq::<(u64, Seq<Seq<u8>>)>::empty(),
                event_count: 0u64,
                all_events: Seq::<ShippingEventView>::empty(),
                event_indices: Seq::<(Seq<u8>, u64)>::empty(),
                events_of_shipment: Seq::<(Seq<u8>, Seq<u64>)>::empty(),
                emitted: Seq::<RawEventView>::empty(),
            }),
    {
        let r = Tracks {
            members: Vec::new(),
            member_count: 0,
            shipments: Vec::new(),
            shipments_of_org: Vec::new(),
            event_count: 0,
            all_events: Vec::new(),
            event_indices: Vec::new(),
            events_of_shipment: Vec::new(),
            events: Vec::new(),
        };
        proof {
            assert(r@ =~= (TracksView {
                members: Seq::<u64>::empty(),
                member_count: 0u32,
                shipments: Seq::<(Seq<u8>, ShipmentView)>::empty(),
                shipments_of_org: Seq::<(u64, Seq<Seq<u8>>)>::empty(),
                event_count: 0u64,
                all_events: Seq::<ShippingEventView>::empty(),
                event_indices: Seq::<(Seq<u8>, u64)>::empty(),
                events_of_shipment: Seq::<(Seq<u8>, Seq<u64>)>::empty(),
                emitted: Seq::<RawEventView>::empty(),
            }));
        }
        r
    }

    /// The shipment registered under `id`, if any.
    pub fn shipment_by_id(&self, id: &Vec<u8>) -> (r: Option<&Shipment>)
        ensures
            match r {
                Some(sh) => kv_find(self@.shipments, id@) == Some(sh@),
                None => kv_find(self@.shipments, id@) is None,
            },
    {
        match self.find_shipment_position(id) {
            Some(i) => Some(&self.shipments[i]),
            None => None,
        }
    }

    /// The ids of the shipments owned by `org`, in registration order;
    /// empty when the organization owns none.
    pub fn shipments_of_org(&self, org: u64) -> (r: Vec<Vec<u8>>)
        ensures
            bytes_view(r@) == match kv_find(self@.shipments_of_org, org) {
                Some(ids) => ids,
                None => Seq::<Seq<u8>>::empty(),
            },
    {
        let mut i: usize = 0;
        while i < self.shipments_of_org.len()
            invariant
                i <= self.shipments_of_org.len(),
                forall|j: int| 0 <= j < i ==> (#[trigger] self@.shipments_of_org[j]).0 != org,
            decreases self.shipments_of_org.len() - i,
        {
            if self.shipments_of_org[i].0 == org {
                proof {
                    lemma_kv_index_at(self@.shipments_of_org, org, i as int);
                }
                return clone_byte_list(&self.shipments_of_org[i].1);
            }
            i += 1;
        }
        proof {
            lemma_kv_index(self@.shipments_of_org, org);
        }
        let r: Vec<Vec<u8>> = Vec::new();
        proof {
            assert(bytes_view(r@) =~= Seq::<Seq<u8>>::empty());
        }
        r
    }

    /// The number of events recorded so far.
    pub fn event_count(&self) -> (r: u64)
        ensures
            r == self@.event_count,
    {
        self.event_count
    }

    /// The event recorded under index `idx`, if any; indices run from 1 to
    /// the event count.
    pub fn event_by_idx(&self, idx: u64) -> (r: Option<&ShippingEvent>)
        requires
            self@.well_formed(),
        ensures
            match r {
                Some(ev) => 1 <= idx <= self@.event_count && ev@ == self@.all_events[idx - 1],
                None => !(1 <= idx <= self@.event_count),
            },
    {
        if idx == 0 || idx > self.event_count {
            return None;
        }
        let n = self.all_events.len();
        proof {
            assert(n == self@.all_events.len());
            assert(idx - 1 < n);
        }
        let i = (idx - 1) as usize;
        Some(&self.all_events[i])
    }

    /// The index the event with id `id` was recorded under, if any.
    pub fn event_idx_from_id(&self, id: &Vec<u8>) -> (r: Option<u64>)
        ensures
            r == kv_find(self@.event_indices, id@),
    {
        match self.find_event_position(id) {
            Some(i) => Some(self.event_indices[i].1),
            None => None,
        }
    }

    /// The indices of the events that reference shipment `id`, oldest
    /// first; empty when none do.
    pub fn events_of_shipment(&self, id: &Vec<u8>) -> (r: Vec<u64>)
        ensures
            r@ == match kv_find(self@.events_of_shipment, id@) {
                Some(idxs) => idxs,
                None => Seq::<u64>::empty(),
            },
    {
        let mut i: usize = 0;
        while i < self.events_of_shipment.len()
            invariant
                i <= self.events_of_shipment.len(),
                forall|j: int| 0 <= j < i ==> (#[trigger] self@.events_of_shipment[j]).0 != id@,
            decreases self.events_of_shipment.len() - i,
        {
            if bytes_eq(&self.events_of_shipment[i].0, id) {
                proof {
                    lemma_kv_index_at(self@.events_of_shipment, id@, i as int);
                }
                return clone_indices(&self.events_of_shipment[i].1);
            }
            i += 1;
        }
        proof {
            lemma_kv_index(self@.events_of_shipment, id@);
        }
        Vec::new()
    }

    /// The domain events deposited so far, oldest first.
    pub fn events(&self) -> (r: &Vec<RawEvent>)
        ensures
            self@.emitted == r@.map_values(|ev: RawEvent| ev@),
    {
        &self.events
    }

    /// The members, in order of joining.
    pub fn members(&self) -> (r: &Vec<u64>)
        ensures
            r@ == self@.members,
    {
        &self.members
    }

    /// Position of `who` in the membership list, if present.
    fn member_position(&self, who: u64) -> (r: Option<usize>)
        ensures
            match r {
                Some(i) => i < self.members.len() && self@.members[i as int] == who,
                None => !self@.members.contains(who),
            },
    {
        let mut i: usize = 0;
        while i < self.members.len()
            invariant
                i <= self.members.len(),
                forall|j: int| 0 <= j < i ==> self@.members[j] != who,
            decreases self.members.len() - i,
        {
            if self.members[i] == who {
                return Some(i);
            }
            i += 1;
        }
        None
    }

    /// Adds `new_member` to the membership set.
    ///
    /// Fails with `MembershipLimitReached` when the set is at capacity, and
    /// with `AlreadyMember` when `new_member` is already present; otherwise
    /// appends the member, raises the count by one, and emits `MemberAdded`.
    pub fn add_member(&mut self, new_member: u64) -> (r: Result<(), Error>)
        requires
            old(self)@.well_formed(),
        ensures
            final(self)@.well_formed(),
            r == add_member_result(old(self)@, new_member),
            r is Ok ==> final(self)@ == add_member_state(old(self)@, new_member),
            r is Err ==> final(self)@ == old(self)@,
    {
        if self.member_count >= MAX_MEMBERS {
            return Err(Error::MembershipLimitReached);
        }
        if let Some(_) = self.member_position(new_member) {
            proof {
                assert(self@.members.contains(new_member));
            }
            return Err(Error::AlreadyMember);
        }
        self.members.push(new_member);
        self.member_count = self.member_count + 1;
        self.events.push(RawEvent::MemberAdded(new_member));
        proof {
            assert(self@ =~= add_member_state(old(self)@, new_member));
        }
        Ok(())
    }

    /// Removes `old_member` from the membership set.
    ///
    /// Fails with `NotMember` when `old_member` is absent; otherwise drops
    /// the member, lowers the count by one, and emits `MemberRemoved`.
    pub fn remove_member(&mut self, old_member: u64) -> (r: Result<(), Error>)
        requires
            old(self)@.well_formed(),
        ensures
            final(self)@.well_formed(),
            r == remove_member_result(old(self)@, old_member),
            r is Ok ==> final(self)@ == remove_member_state(old(self)@, old_member),
            r is Err ==> final(self)@ == old(self)@,
    {
        let i = match self.member_position(old_member) {
            None => {
                return Err(Error::NotMember);
            },
            Some(i) => i,
        };
        proof {
            assert(self@.members.contains(old_member));
        }
        self.members.remove(i);
        self.member_count = self.member_count - 1;
        self.events.push(RawEvent::MemberRemoved(old_member));
        proof {
            let m0 = old(self)@.members;
            assert(m0[i as int] == old_member);
            assert(m0.contains(old_member));
            m0.index_of_first_ensures(old_member);
            let j = m0.index_of_first(old_member).unwrap();
            assert(0 <= j < m0.len() && m0[j] == old_member);
            assert(j == i) by {
                if j != i {
                    assert(m0[j] == m0[i as int]);
                }
            }
            assert(m0.remove_value(old_member) == m0.remove(i as int));
            assert(self@ =~= remove_member_state(old(self)@, old_member));
        }
        Ok(())
    }
}

} // verus!
