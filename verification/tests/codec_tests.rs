use bus_rental::codec::{
    decode_bus, decode_customer, decode_maintenance, decode_reservation, encode_bus,
    encode_customer, encode_maintenance, encode_reservation,
};
use bus_rental::entities::{Bus, Customer, MaintenanceRecord, Reservation};

fn sample_bus() -> Bus {
    Bus {
        id: 42,
        owner_principal: "principal-p".to_string(),
        make: "Volvo".to_string(),
        model: "B7R".to_string(),
        year: 2015,
        color: "red".to_string(),
        created_at: 123456789,
        updated_at: Some(987654321),
        is_booked: true,
    }
}

#[test]
fn bus_round_trip() {
    let bus = sample_bus();
    let bytes = encode_bus(&bus);
    let back = decode_bus(&bytes).expect("an encoded bus decodes");
    assert_eq!(back.id, bus.id);
    assert_eq!(back.owner_principal, bus.owner_principal);
    assert_eq!(back.make, bus.make);
    assert_eq!(back.model, bus.model);
    assert_eq!(back.year, bus.year);
    assert_eq!(back.color, bus.color);
    assert_eq!(back.created_at, bus.created_at);
    assert_eq!(back.updated_at, bus.updated_at);
    assert_eq!(back.is_booked, bus.is_booked);
}

#[test]
fn bus_round_trip_with_empty_option_and_unicode() {
    let mut bus = sample_bus();
    bus.updated_at = None;
    bus.is_booked = false;
    bus.owner_principal = "δ-principal-ø".to_string();
    bus.color = "röd 🚌".to_string();
    let bytes = encode_bus(&bus);
    let back = decode_bus(&bytes).unwrap();
    assert_eq!(back.owner_principal, "δ-principal-ø");
    assert_eq!(back.color, "röd 🚌");
    assert_eq!(back.updated_at, None);
    assert!(!back.is_booked);
}

#[test]
fn bus_encoding_is_not_the_identity() {
    let bus = sample_bus();
    let bytes = encode_bus(&bus);
    // the first eight bytes carry the identifier, little endian
    assert_eq!(&bytes[0..8], &[42, 0, 0, 0, 0, 0, 0, 0]);
}

#[test]
fn truncated_or_padded_bytes_are_rejected() {
    let bus = sample_bus();
    let mut bytes = encode_bus(&bus);
    bytes.push(0);
    assert!(decode_bus(&bytes).is_none());
    bytes.pop();
    bytes.pop();
    assert!(decode_bus(&bytes).is_none());
    assert!(decode_bus(&Vec::new()).is_none());
}

#[test]
fn customer_round_trip() {
    let customer = Customer {
        id: 7,
        customer_principal: "principal-jane".to_string(),
        name: "Jane".to_string(),
        contact: "jane@x.com".to_string(),
    };
    let bytes = encode_customer(&customer);
    let back = decode_customer(&bytes).unwrap();
    assert_eq!(back.id, 7);
    assert_eq!(back.customer_principal, "principal-jane");
    assert_eq!(back.name, "Jane");
    assert_eq!(back.contact, "jane@x.com");
}

#[test]
fn reservation_round_trip() {
    let reservation = Reservation { bus_id: 3, customer_id: 9, reservation_time: 555 };
    let bytes = encode_reservation(&reservation);
    let back = decode_reservation(&bytes).unwrap();
    assert_eq!(back, reservation);
}

#[test]
fn maintenance_round_trip() {
    let record = MaintenanceRecord {
        id: 11,
        bus_id: 3,
        maintenance_date: 20240101,
        details: "brake pads".to_string(),
    };
    let bytes = encode_maintenance(&record);
    let back = decode_maintenance(&bytes).unwrap();
    assert_eq!(back.id, 11);
    assert_eq!(back.bus_id, 3);
    assert_eq!(back.maintenance_date, 20240101);
    assert_eq!(back.details, "brake pads");
}

#[test]
fn records_of_one_kind_do_not_decode_as_another() {
    let reservation = Reservation { bus_id: 3, customer_id: 9, reservation_time: 555 };
    let bytes = encode_reservation(&reservation);
    assert!(decode_bus(&bytes).is_none());
    assert!(decode_customer(&bytes).is_none());
}
