//! Shipment and shipping-event data types.
//!
//! Identifiers are bounded byte strings; sensor values are fixed-point
//! decimals carried as their raw 16.16 bit patterns.

use vstd::prelude::*;

use crate::assoc::bytes_view;

verus! {

/// Longest admissible shipment or shipping-event identifier, in bytes.
pub const IDENTIFIER_MAX_LENGTH: usize = 10;

/// Largest number of products one shipment may carry.
pub const SHIPMENT_MAX_PRODUCTS: usize = 10;

/// An unsigned fixed-point decimal with 16 integer and 16 fractional bits,
/// carried as its raw bit pattern. The ledger never computes with these
/// values; it only stores them.
#[derive(Clone, Copy, PartialEq, Eq, Structural, Debug)]
pub struct Decimal {
    pub bits: u32,
}

/// Lifecycle state of a shipment. `Pending` is the only initial state and
/// `Delivered` is terminal.
#[derive(Clone, Copy, PartialEq, Eq, Structural, Debug)]
pub enum ShipmentStatus {
    Pending,
    InTransit,
    Delivered,
}

/// The kind of a shipping event.
#[derive(Clone, Copy, PartialEq, Eq, Structural, Debug)]
pub enum ShippingEventType {
    ShipmentPickup,
    SensorReading,
    ShipmentDelivery,
}

/// The kind of a sensor reading.
#[derive(Clone, Copy, PartialEq, Eq, Structural, Debug)]
pub enum ReadingType {
    Humidity,
    Pressure,
    Shock,
    Tilt,
    Temperature,
    Vibration,
}

/// A geographic position attached to an event.
#[derive(Clone, Copy, PartialEq, Eq, Structural, Debug)]
pub struct ReadPoint {
    pub latitude: Decimal,
    pub longitude: Decimal,
}

/// A single sensor reading attached to an event.
#[derive(Clone, PartialEq, Eq, Debug)]
pub struct Reading {
    pub device_id: Vec<u8>,
    pub reading_type: ReadingType,
    pub timestamp: u64,
    pub value: Decimal,
}

/// Mathematical image of a [`Reading`].
#[verifier::ext_equal]
pub struct ReadingView {
    pub device_id: Seq<u8>,
    pub reading_type: ReadingType,
    pub timestamp: u64,
    pub value: Decimal,
}

impl View for Reading {
    type V = ReadingView;

    open spec fn view(&self) -> ReadingView {
        ReadingView {
            device_id: self.device_id@,
            reading_type: self.reading_type,
            timestamp: self.timestamp,
            value: self.value,
        }
    }
}

/// An immutable record of something that happened to a shipment.
#[derive(Clone, PartialEq, Eq, Debug)]
pub struct ShippingEvent {
    pub id: Vec<u8>,
    pub event_type: ShippingEventType,
    pub shipment_id: Vec<u8>,
    pub location: Option<ReadPoint>,
    pub readings: Vec<Reading>,
    pub timestamp: u64,
}

/// Mathematical image of a [`ShippingEvent`].
#[verifier::ext_equal]
pub struct ShippingEventView {
    pub id: Seq<u8>,
    pub event_type: ShippingEventType,
    pub shipment_id: Seq<u8>,
    pub location: Option<ReadPoint>,
    pub readings: Seq<ReadingView>,
    pub timestamp: u64,
}

impl View for ShippingEvent {
    type V = ShippingEventView;

    open spec fn view(&self) -> ShippingEventView {
        ShippingEventView {
            id: self.id@,
            event_type: self.event_type,
            shipment_id: self.shipment_id@,
            location: self.location,
            readings: self.readings@.map_values(|r: Reading| r@),
            timestamp: self.timestamp,
        }
    }
}

/// A tracked consignment of products. The owner and the product list are
/// fixed at registration; only the status and the delivery time ever change,
/// and only through the ledger's transition logic.
#[derive(Clone, PartialEq, Eq, Debug)]
pub struct Shipment {
    pub id: Vec<u8>,
    pub owner: u64,
    pub status: ShipmentStatus,
    pub products: Vec<Vec<u8>>,
    pub registered: u64,
    pub delivered: Option<u64>,
}

/// Mathematical image of a [`Shipment`].
#[verifier::ext_equal]
pub struct ShipmentView {
    pub id: Seq<u8>,
    pub owner: u64,
    pub status: ShipmentStatus,
    pub products: Seq<Seq<u8>>,
    pub registered: u64,
    pub delivered: Option<u64>,
}

impl View for Shipment {
    type V = ShipmentView;

    open spec fn view(&self) -> ShipmentView {
        ShipmentView {
            id: self.id@,
            owner: self.owner,
            status: self.status,
            products: bytes_view(self.products@),
            registered: self.registered,
            delivered: self.delivered,
        }
    }
}

impl ShipmentView {
    /// The shipment as it stands after a pickup event.
    pub open spec fn after_pickup(self) -> ShipmentView {
        ShipmentView { status: ShipmentStatus::InTransit, ..self }
    }

    /// The shipment as it stands after a delivery event at time
    /// `delivered_on`.
    pub open spec fn after_delivery(self, delivered_on: u64) -> ShipmentView {
        ShipmentView {
            status: ShipmentStatus::Delivered,
            delivered: Some(delivered_on),
            ..self
        }
    }
}

impl Shipment {
    /// Marks the shipment as picked up: the status becomes `InTransit` and
    /// every other field is kept.
    pub fn pickup(self) -> (r: Self)
        ensures
            r@ == self@.after_pickup(),
    {
        let mut s = self;
        s.status = ShipmentStatus::InTransit;
        s
    }

    /// Marks the shipment as delivered at `delivered_on`: the status becomes
    /// `Delivered`, the delivery time is recorded, and every other field is
    /// kept.
    pub fn deliver(self, delivered_on: u64) -> (r: Self)
        ensures
            r@ == self@.after_delivery(delivered_on),
    {
        let mut s = self;
        s.status = ShipmentStatus::Delivered;
        s.delivered = Some(delivered_on);
        s
    }
}

/// Whether `id` is an admissible shipment or shipping-event identifier:
/// non-empty and at most [`IDENTIFIER_MAX_LENGTH`] bytes.
pub open spec fn valid_identifier(id: Seq<u8>) -> bool {
    0 < id.len() <= IDENTIFIER_MAX_LENGTH
}

} // verus!
