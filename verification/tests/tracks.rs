use fixed::types::U16F16;

use tracks::ledger::{Error, RawEvent, Tracks, MAX_MEMBERS};
use tracks::shipment::{
    Decimal, ReadPoint, Reading, ReadingType, Shipment, ShipmentStatus, ShippingEvent,
    ShippingEventType,
};

/// A deterministic stand-in for the environment's account derivation: each
/// test name maps to a distinct account id.
fn account_key(s: &str) -> u64 {
    s.bytes().fold(0u64, |a, b| a.wrapping_mul(31).wrapping_add(b as u64))
}

const TEST_SENDER: &str = "Alice";
const TEST_PRODUCT_ID: &str = "00012345678905";
const TEST_SHIPMENT_ID: &str = "0001";
const TEST_ORGANIZATION: &str = "Northwind";
const TEST_SHIPPING_EVENT_ID: &str = "9421fec019fb48299fbe";
const LONG_VALUE: &str = "Lorem ipsum dolor sit amet, consectetur adipiscing elit. Donec aliquam ut tortor nec congue. Pellente";

fn store_test_shipment(
    tracks: &mut Tracks,
    id: Vec<u8>,
    owner: u64,
    status: ShipmentStatus,
    products: Vec<Vec<u8>>,
    registered: u64,
) {
    tracks.store_shipment(Shipment { id, owner, status, products, registered, delivered: None });
}

fn store_test_event(tracks: &mut Tracks, id: Vec<u8>, shipment_id: Vec<u8>) {
    tracks.store_event(ShippingEvent {
        id,
        event_type: ShippingEventType::ShipmentPickup,
        shipment_id,
        location: None,
        readings: vec![],
        timestamp: 42,
    });
}

#[test]
fn add_member_works() {
    let mut tracks = Tracks::new();
    let sender = account_key(TEST_SENDER);
    assert!(tracks.add_member(sender).is_ok());

    let expected_event = RawEvent::MemberAdded(sender);
    assert!(tracks.events().iter().any(|a| *a == expected_event));

    assert!(tracks.members().contains(&sender));
}

#[test]
fn register_shipment_without_products() {
    let mut tracks = Tracks::new();
    let sender = account_key(TEST_SENDER);
    let id = TEST_SHIPMENT_ID.as_bytes().to_owned();
    let owner = account_key(TEST_ORGANIZATION);
    let now = 42;

    let result = tracks.register_shipment(sender, id.clone(), owner, vec![], now);

    assert!(result.is_ok());

    assert_eq!(
        tracks.shipment_by_id(&id),
        Some(&Shipment {
            id: id.clone(),
            owner,
            status: ShipmentStatus::Pending,
            products: vec![],
            registered: now,
            delivered: None
        })
    );

    assert_eq!(tracks.shipments_of_org(owner), vec![id]);
}

#[test]
fn register_shipment_with_missing_id() {
    let mut tracks = Tracks::new();
    assert_eq!(
        tracks.register_shipment(
            account_key(TEST_SENDER),
            vec![],
            account_key(TEST_ORGANIZATION),
            vec![],
            42,
        ),
        Err(Error::InvalidOrMissingIdentifier)
    );
}

#[test]
fn register_shipment_with_long_id() {
    let mut tracks = Tracks::new();
    assert_eq!(
        tracks.register_shipment(
            account_key(TEST_SENDER),
            LONG_VALUE.as_bytes().to_owned(),
            account_key(TEST_ORGANIZATION),
            vec![],
            42,
        ),
        Err(Error::InvalidOrMissingIdentifier)
    );
}

#[test]
fn register_shipment_with_existing_id() {
    let mut tracks = Tracks::new();
    let existing_shipment = TEST_SHIPMENT_ID.as_bytes().to_owned();
    let now = 42;

    store_test_shipment(
        &mut tracks,
        existing_shipment.clone(),
        account_key(TEST_ORGANIZATION),
        ShipmentStatus::Pending,
        vec![],
        now,
    );

    assert_eq!(
        tracks.register_shipment(
            account_key(TEST_SENDER),
            existing_shipment,
            account_key(TEST_ORGANIZATION),
            vec![],
            now,
        ),
        Err(Error::ShipmentAlreadyExists)
    );
}

#[test]
fn register_shipment_with_too_many_products() {
    let mut tracks = Tracks::new();
    assert_eq!(
        tracks.register_shipment(
            account_key(TEST_SENDER),
            TEST_SHIPMENT_ID.as_bytes().to_owned(),
            account_key(TEST_ORGANIZATION),
            vec![
                b"00012345600001".to_vec(),
                b"00012345600002".to_vec(),
                b"00012345600003".to_vec(),
                b"00012345600004".to_vec(),
                b"00012345600005".to_vec(),
                b"00012345600006".to_vec(),
                b"00012345600007".to_vec(),
                b"00012345600008".to_vec(),
                b"00012345600009".to_vec(),
                b"00012345600010".to_vec(),
                b"00012345600011".to_vec(),
            ],
            42,
        ),
        Err(Error::ShipmentHasTooManyProducts)
    );
    // a failed operation performs zero storage mutation and zero emission
    assert_eq!(
        tracks.shipment_by_id(&TEST_SHIPMENT_ID.as_bytes().to_owned()),
        None
    );
    assert!(tracks
        .shipments_of_org(account_key(TEST_ORGANIZATION))
        .is_empty());
    assert!(tracks.events().is_empty());
}

#[test]
fn record_event_with_missing_event_id() {
    let mut tracks = Tracks::new();
    let now = 42;

    assert_eq!(
        tracks.record_event(
            account_key(TEST_SENDER),
            ShippingEvent {
                id: vec![],
                event_type: ShippingEventType::ShipmentPickup,
                shipment_id: TEST_SHIPMENT_ID.as_bytes().to_owned(),
                location: None,
                readings: vec![],
                timestamp: now,
            },
            now,
        ),
        Err(Error::InvalidOrMissingIdentifier)
    );
}

#[test]
fn record_event_with_long_event_id() {
    let mut tracks = Tracks::new();
    let now = 42;

    assert_eq!(
        tracks.record_event(
            account_key(TEST_SENDER),
            ShippingEvent {
                id: LONG_VALUE.as_bytes().to_owned(),
                event_type: ShippingEventType::ShipmentPickup,
                shipment_id: TEST_SHIPMENT_ID.as_bytes().to_owned(),
                location: None,
                readings: vec![],
                timestamp: now,
            },
            now,
        ),
        Err(Error::InvalidOrMissingIdentifier)
    );
}

#[test]
fn record_event_with_missing_shipment_id() {
    let mut tracks = Tracks::new();
    let now = 42;

    assert_eq!(
        tracks.record_event(
            account_key(TEST_SENDER),
            ShippingEvent {
                id: TEST_SHIPPING_EVENT_ID.as_bytes().to_owned(),
                event_type: ShippingEventType::ShipmentPickup,
                shipment_id: vec![],
                location: None,
                readings: vec![],
                timestamp: now,
            },
            now,
        ),
        Err(Error::InvalidOrMissingIdentifier)
    );
}

#[test]
fn record_event_with_long_shipment_id() {
    let mut tracks = Tracks::new();
    let now = 42;

    assert_eq!(
        tracks.record_event(
            account_key(TEST_SENDER),
            ShippingEvent {
                id: TEST_SHIPPING_EVENT_ID.as_bytes().to_owned(),
                event_type: ShippingEventType::ShipmentPickup,
                shipment_id: LONG_VALUE.as_bytes().to_owned(),
                location: None,
                readings: vec![],
                timestamp: now,
            },
            now,
        ),
        Err(Error::InvalidOrMissingIdentifier)
    );
}

#[test]
fn record_event_with_existing_id() {
    let mut tracks = Tracks::new();
    let existing_event = hex::decode(TEST_SHIPPING_EVENT_ID).unwrap();
    let existing_shipment = TEST_SHIPMENT_ID.as_bytes().to_owned();
    let now = 42;

    store_test_shipment(
        &mut tracks,
        existing_shipment.clone(),
        account_key(TEST_ORGANIZATION),
        ShipmentStatus::Pending,
        vec![],
        now,
    );

    store_test_event(&mut tracks, existing_event.clone(), existing_shipment.clone());

    assert_eq!(
        tracks.record_event(
            account_key(TEST_SENDER),
            ShippingEvent {
                id: existing_event,
                event_type: ShippingEventType::ShipmentPickup,
                shipment_id: existing_shipment,
                location: None,
                readings: vec![],
                timestamp: now,
            },
            now,
        ),
        Err(Error::ShippingEventAlreadyExists)
    );
}

#[test]
fn record_event_with_unknown_shipment() {
    let mut tracks = Tracks::new();
    let event_id = hex::decode(TEST_SHIPPING_EVENT_ID).unwrap();
    let unknown_shipment = TEST_SHIPMENT_ID.as_bytes().to_owned();
    let now = 42;

    assert_eq!(
        tracks.record_event(
            account_key(TEST_SENDER),
            ShippingEvent {
                id: event_id,
                event_type: ShippingEventType::ShipmentPickup,
                shipment_id: unknown_shipment,
                location: None,
                readings: vec![],
                timestamp: now,
            },
            now,
        ),
        Err(Error::ShipmentIsUnknown)
    );
}

#[test]
fn record_event_for_shipment_pickup() {
    let mut tracks = Tracks::new();
    let owner = account_key(TEST_ORGANIZATION);
    let event_id = hex::decode(TEST_SHIPPING_EVENT_ID).unwrap();
    let shipment_id = TEST_SHIPMENT_ID.as_bytes().to_owned();
    let now = 42;

    store_test_shipment(
        &mut tracks,
        shipment_id.clone(),
        owner,
        ShipmentStatus::Pending,
        vec![TEST_PRODUCT_ID.as_bytes().to_owned()],
        now,
    );

    // the call succeeds
    let event = ShippingEvent {
        id: event_id.clone(),
        event_type: ShippingEventType::ShipmentPickup,
        shipment_id: shipment_id.clone(),
        location: None,
        readings: vec![],
        timestamp: now,
    };
    assert!(tracks
        .record_event(account_key(TEST_SENDER), event.clone(), now)
        .is_ok());

    // storage is correctly updated
    assert_eq!(tracks.event_count(), 1);
    assert_eq!(tracks.event_idx_from_id(&event_id), Some(1));
    assert_eq!(tracks.event_by_idx(1), Some(&event));
    assert_eq!(tracks.events_of_shipment(&shipment_id), vec![1]);

    // the shipment's status moves to InTransit
    assert_eq!(
        tracks.shipment_by_id(&shipment_id),
        Some(&Shipment {
            id: shipment_id.clone(),
            owner,
            status: ShipmentStatus::InTransit,
            products: vec![TEST_PRODUCT_ID.as_bytes().to_owned()],
            registered: now,
            delivered: None
        })
    );
}

#[test]
fn record_event_for_shipment_delivery() {
    let mut tracks = Tracks::new();
    let owner = account_key(TEST_ORGANIZATION);
    let event_id = hex::decode(TEST_SHIPPING_EVENT_ID).unwrap();
    let shipment_id = TEST_SHIPMENT_ID.as_bytes().to_owned();
    let now = 42;

    // store a shipment already in transit
    store_test_shipment(
        &mut tracks,
        shipment_id.clone(),
        owner,
        ShipmentStatus::InTransit,
        vec![TEST_PRODUCT_ID.as_bytes().to_owned()],
        now,
    );

    // the call succeeds
    let event = ShippingEvent {
        id: event_id.clone(),
        event_type: ShippingEventType::ShipmentDelivery,
        shipment_id: shipment_id.clone(),
        location: None,
        readings: vec![],
        timestamp: now,
    };
    assert!(tracks
        .record_event(account_key(TEST_SENDER), event.clone(), now)
        .is_ok());

    // storage is correctly updated
    assert_eq!(tracks.event_count(), 1);
    assert_eq!(tracks.event_idx_from_id(&event_id), Some(1));
    assert_eq!(tracks.event_by_idx(1), Some(&event));
    assert_eq!(tracks.events_of_shipment(&shipment_id), vec![1]);

    // the shipment's status moves to Delivered, with the delivery time set
    assert_eq!(
        tracks.shipment_by_id(&shipment_id),
        Some(&Shipment {
            id: shipment_id.clone(),
            owner,
            status: ShipmentStatus::Delivered,
            products: vec![TEST_PRODUCT_ID.as_bytes().to_owned()],
            registered: now,
            delivered: Some(now)
        })
    );
}

#[test]
fn record_event_for_sensor_reading() {
    let mut tracks = Tracks::new();
    let owner = account_key(TEST_ORGANIZATION);
    let event_id = hex::decode(TEST_SHIPPING_EVENT_ID).unwrap();
    let shipment_id = TEST_SHIPMENT_ID.as_bytes().to_owned();
    let now = 42;

    // store a shipment already in transit, with one event recorded
    store_test_shipment(
        &mut tracks,
        shipment_id.clone(),
        owner,
        ShipmentStatus::InTransit,
        vec![TEST_PRODUCT_ID.as_bytes().to_owned()],
        now,
    );

    store_test_event(
        &mut tracks,
        hex::decode("88356e4576444cae8c78").unwrap(),
        shipment_id.clone(),
    );

    // the call succeeds
    let event = ShippingEvent {
        id: event_id.clone(),
        event_type: ShippingEventType::SensorReading,
        shipment_id: shipment_id.clone(),
        location: Some(ReadPoint {
            latitude: Decimal { bits: U16F16::from_num(52.4941126).to_bits() },
            longitude: Decimal { bits: U16F16::from_num(13.4355606).to_bits() },
        }),
        readings: vec![Reading {
            device_id: "14d453ea4bdf46bc8042".as_bytes().to_owned(),
            reading_type: ReadingType::Temperature,
            value: Decimal { bits: U16F16::from_num(20.123).to_bits() },
            timestamp: now,
        }],
        timestamp: now,
    };
    assert!(tracks
        .record_event(account_key(TEST_SENDER), event.clone(), now)
        .is_ok());

    // storage is correctly updated
    assert_eq!(tracks.event_count(), 2);
    assert_eq!(tracks.event_idx_from_id(&event_id), Some(2));
    assert_eq!(tracks.event_by_idx(2), Some(&event));
    assert_eq!(tracks.events_of_shipment(&shipment_id), vec![1, 2]);

    // the shipment's status is still InTransit
    assert_eq!(
        tracks.shipment_by_id(&shipment_id),
        Some(&Shipment {
            id: shipment_id.clone(),
            owner,
            status: ShipmentStatus::InTransit,
            products: vec![TEST_PRODUCT_ID.as_bytes().to_owned()],
            registered: now,
            delivered: None
        })
    );
}

#[test]
fn record_event_for_delivered_shipment() {
    let mut tracks = Tracks::new();
    let owner = account_key(TEST_ORGANIZATION);
    let event_id = hex::decode(TEST_SHIPPING_EVENT_ID).unwrap();
    let shipment_id = TEST_SHIPMENT_ID.as_bytes().to_owned();
    let now = 42;

    // store a shipment already delivered
    store_test_shipment(
        &mut tracks,
        shipment_id.clone(),
        owner,
        ShipmentStatus::Delivered,
        vec![TEST_PRODUCT_ID.as_bytes().to_owned()],
        now,
    );

    assert_eq!(
        tracks.record_event(
            account_key(TEST_SENDER),
            ShippingEvent {
                id: event_id.clone(),
                event_type: ShippingEventType::ShipmentPickup,
                shipment_id: shipment_id.clone(),
                location: None,
                readings: vec![],
                timestamp: now,
            },
            now,
        ),
        Err(Error::ShipmentHasBeenDelivered)
    );
}

#[test]
fn record_event_for_intransit_shipment() {
    let mut tracks = Tracks::new();
    let owner = account_key(TEST_ORGANIZATION);
    let event_id = hex::decode(TEST_SHIPPING_EVENT_ID).unwrap();
    let shipment_id = TEST_SHIPMENT_ID.as_bytes().to_owned();
    let now = 42;

    // store a shipment already in transit
    store_test_shipment(
        &mut tracks,
        shipment_id.clone(),
        owner,
        ShipmentStatus::InTransit,
        vec![TEST_PRODUCT_ID.as_bytes().to_owned()],
        now,
    );

    assert_eq!(
        tracks.record_event(
            account_key(TEST_SENDER),
            ShippingEvent {
                id: event_id.clone(),
                event_type: ShippingEventType::ShipmentPickup,
                shipment_id: shipment_id.clone(),
                location: None,
                readings: vec![],
                timestamp: now,
            },
            now,
        ),
        Err(Error::ShipmentIsInTransit)
    );
}

#[test]
fn test_vec_set() {
    let mut tracks = Tracks::new();
    assert!(tracks.add_member(1).is_ok());

    assert_eq!(*tracks.members(), vec![1]);
}

#[test]
fn members_can_call() {
    let mut tracks = Tracks::new();
    assert!(tracks.add_member(1).is_ok());
}

#[test]
fn tests_add_member_works() {
    let mut tracks = Tracks::new();
    let sender = account_key(TEST_SENDER);
    assert!(tracks.add_member(sender).is_ok());

    let expected_event = RawEvent::MemberAdded(sender);
    assert!(tracks.events().iter().any(|a| *a == expected_event));

    assert!(tracks.members().contains(&sender));
}

#[test]
fn add_member_twice_fails() {
    let mut tracks = Tracks::new();
    assert!(tracks.add_member(7).is_ok());
    assert_eq!(tracks.add_member(7), Err(Error::AlreadyMember));
    assert_eq!(*tracks.members(), vec![7]);
}

#[test]
fn remove_member_works() {
    let mut tracks = Tracks::new();
    assert!(tracks.add_member(7).is_ok());
    assert!(tracks.add_member(9).is_ok());
    assert!(tracks.remove_member(7).is_ok());
    assert_eq!(*tracks.members(), vec![9]);
    assert!(tracks
        .events()
        .iter()
        .any(|a| *a == RawEvent::MemberRemoved(7)));
}

#[test]
fn remove_absent_member_fails() {
    let mut tracks = Tracks::new();
    assert_eq!(tracks.remove_member(7), Err(Error::NotMember));
}

#[test]
fn membership_limit_reached() {
    let mut tracks = Tracks::new();
    for m in 0..MAX_MEMBERS as u64 {
        assert!(tracks.add_member(m).is_ok());
    }
    assert_eq!(
        tracks.add_member(MAX_MEMBERS as u64),
        Err(Error::MembershipLimitReached)
    );
    assert_eq!(tracks.members().len(), MAX_MEMBERS as usize);
}

#[test]
fn scenario_register_then_pickup() {
    let mut tracks = Tracks::new();
    let sender = account_key(TEST_SENDER);
    let owner = account_key(TEST_ORGANIZATION);
    let id = b"0001".to_vec();

    assert!(tracks
        .register_shipment(sender, id.clone(), owner, vec![], 42)
        .is_ok());
    let shipment = tracks.shipment_by_id(&id).unwrap();
    assert_eq!(shipment.status, ShipmentStatus::Pending);
    assert_eq!(shipment.registered, 42);
    assert_eq!(shipment.delivered, None);

    let pickup = ShippingEvent {
        id: b"ev-pickup".to_vec(),
        event_type: ShippingEventType::ShipmentPickup,
        shipment_id: id.clone(),
        location: None,
        readings: vec![],
        timestamp: 43,
    };
    assert!(tracks.record_event(sender, pickup, 43).is_ok());
    assert_eq!(tracks.event_count(), 1);
    assert_eq!(
        tracks.shipment_by_id(&id).unwrap().status,
        ShipmentStatus::InTransit
    );
}

#[test]
fn scenario_second_pickup_rejected() {
    let mut tracks = Tracks::new();
    let sender = account_key(TEST_SENDER);
    let owner = account_key(TEST_ORGANIZATION);
    let id = b"0001".to_vec();

    assert!(tracks
        .register_shipment(sender, id.clone(), owner, vec![], 42)
        .is_ok());
    let pickup = ShippingEvent {
        id: b"ev-pickup".to_vec(),
        event_type: ShippingEventType::ShipmentPickup,
        shipment_id: id.clone(),
        location: None,
        readings: vec![],
        timestamp: 43,
    };
    assert!(tracks.record_event(sender, pickup, 43).is_ok());
    assert_eq!(tracks.event_count(), 1);

    // a second pickup while in transit fails, and nothing is appended
    let second = ShippingEvent {
        id: b"ev-again".to_vec(),
        event_type: ShippingEventType::ShipmentPickup,
        shipment_id: id.clone(),
        location: None,
        readings: vec![],
        timestamp: 44,
    };
    assert_eq!(
        tracks.record_event(sender, second, 44),
        Err(Error::ShipmentIsInTransit)
    );
    assert_eq!(tracks.event_count(), 1);
    assert_eq!(tracks.events_of_shipment(&id), vec![1]);
    assert_eq!(tracks.event_idx_from_id(&b"ev-again".to_vec()), None);
}

#[test]
fn scenario_delivery_is_terminal() {
    let mut tracks = Tracks::new();
    let sender = account_key(TEST_SENDER);
    let owner = account_key(TEST_ORGANIZATION);
    let id = b"0001".to_vec();

    store_test_shipment(
        &mut tracks,
        id.clone(),
        owner,
        ShipmentStatus::InTransit,
        vec![],
        42,
    );

    let delivery = ShippingEvent {
        id: b"ev-deliver".to_vec(),
        event_type: ShippingEventType::ShipmentDelivery,
        shipment_id: id.clone(),
        location: None,
        readings: vec![],
        timestamp: 100,
    };
    assert!(tracks.record_event(sender, delivery, 100).is_ok());
    let shipment = tracks.shipment_by_id(&id).unwrap();
    assert_eq!(shipment.status, ShipmentStatus::Delivered);
    assert_eq!(shipment.delivered, Some(100));

    // every later event of any kind is refused
    for (eid, kind) in [
        (b"ev-p2".to_vec(), ShippingEventType::ShipmentPickup),
        (b"ev-s2".to_vec(), ShippingEventType::SensorReading),
        (b"ev-d2".to_vec(), ShippingEventType::ShipmentDelivery),
    ] {
        assert_eq!(
            tracks.record_event(
                sender,
                ShippingEvent {
                    id: eid,
                    event_type: kind,
                    shipment_id: id.clone(),
                    location: None,
                    readings: vec![],
                    timestamp: 101,
                },
                101,
            ),
            Err(Error::ShipmentHasBeenDelivered)
        );
    }
    assert_eq!(tracks.event_count(), 1);
}

#[test]
fn failed_record_leaves_state_unchanged() {
    let mut tracks = Tracks::new();
    let sender = account_key(TEST_SENDER);
    let owner = account_key(TEST_ORGANIZATION);
    let id = b"0001".to_vec();

    assert!(tracks
        .register_shipment(sender, id.clone(), owner, vec![], 42)
        .is_ok());
    let events_before = tracks.events().len();

    assert_eq!(
        tracks.record_event(
            sender,
            ShippingEvent {
                id: b"ev-x".to_vec(),
                event_type: ShippingEventType::ShipmentPickup,
                shipment_id: b"no-such".to_vec(),
                location: None,
                readings: vec![],
                timestamp: 43,
            },
            43,
        ),
        Err(Error::ShipmentIsUnknown)
    );
    assert_eq!(tracks.event_count(), 0);
    assert_eq!(tracks.events().len(), events_before);
    assert_eq!(tracks.event_idx_from_id(&b"ev-x".to_vec()), None);
}

#[test]
fn event_indices_count_up_from_one() {
    let mut tracks = Tracks::new();
    let sender = account_key(TEST_SENDER);
    let owner = account_key(TEST_ORGANIZATION);
    let id = b"0001".to_vec();

    assert!(tracks
        .register_shipment(sender, id.clone(), owner, vec![], 42)
        .is_ok());
    for (n, eid) in [b"ev-a".to_vec(), b"ev-b".to_vec(), b"ev-c".to_vec()]
        .into_iter()
        .enumerate()
    {
        assert!(tracks
            .record_event(
                sender,
                ShippingEvent {
                    id: eid.clone(),
                    event_type: ShippingEventType::SensorReading,
                    shipment_id: id.clone(),
                    location: None,
                    readings: vec![],
                    timestamp: 43 + n as u64,
                },
                43 + n as u64,
            )
            .is_ok());
        assert_eq!(tracks.event_count(), n as u64 + 1);
        assert_eq!(tracks.event_idx_from_id(&eid), Some(n as u64 + 1));
    }
    assert_eq!(tracks.events_of_shipment(&id), vec![1, 2, 3]);
    assert_eq!(tracks.event_by_idx(0), None);
    assert_eq!(tracks.event_by_idx(4), None);
}
