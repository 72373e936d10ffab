use bus_rental::entities::{BusPayload, Error, MaintenancePayload, SearchQuery, TimeRange};
use bus_rental::persist::RegionAllocator;
use bus_rental::service::Service;

fn fresh_service() -> Service {
    Service::restore(RegionAllocator::init()).expect("a fresh memory space restores")
}

fn volvo_payload() -> BusPayload {
    BusPayload {
        make: "Volvo".to_string(),
        model: "B7R".to_string(),
        year: 2015,
        color: "red".to_string(),
        is_booked: false,
    }
}

fn empty_query() -> SearchQuery {
    SearchQuery { make: None, model: None, year: None, color: None, is_booked: None }
}

#[test]
fn add_bus_assigns_first_id_and_fields() {
    let mut s = fresh_service();
    let p = "principal-p".to_string();
    let bus = s.add_bus(&volvo_payload(), &p, 77).unwrap();
    assert_eq!(bus.id, 1);
    assert_eq!(bus.owner_principal, p);
    assert_eq!(bus.make, "Volvo");
    assert_eq!(bus.model, "B7R");
    assert_eq!(bus.year, 2015);
    assert_eq!(bus.color, "red");
    assert_eq!(bus.created_at, 77);
    assert_eq!(bus.updated_at, None);
    assert!(!bus.is_booked);
}

#[test]
fn update_bus_authorization_scenario() {
    let mut s = fresh_service();
    let p = "principal-p".to_string();
    let q = "principal-q".to_string();
    let bus = s.add_bus(&volvo_payload(), &p, 10).unwrap();
    assert_eq!(bus.id, 1);

    let mut payload = volvo_payload();
    payload.color = "blue".to_string();

    let refused = s.update_bus(1, &payload, &q, 20);
    assert_eq!(refused.unwrap_err(), Error::FailedAuthentication);
    // the stored bus is unchanged
    let stored = s.get_bus(1).unwrap();
    assert_eq!(stored.color, "red");
    assert_eq!(stored.updated_at, None);

    let updated = s.update_bus(1, &payload, &p, 20).unwrap();
    assert_eq!(updated.color, "blue");
    assert_eq!(updated.updated_at, Some(20));
    assert_eq!(updated.created_at, 10);
    assert_eq!(updated.owner_principal, p);
}

#[test]
fn reservation_scenario() {
    let mut s = fresh_service();
    let owner = "principal-p".to_string();
    let jane = "principal-jane".to_string();
    let bus = s.add_bus(&volvo_payload(), &owner, 10).unwrap();
    assert_eq!(bus.id, 1);
    let customer = s.add_customer("Jane".to_string(), "jane@x.com".to_string(), &jane).unwrap();
    assert_eq!(customer.id, 2);
    assert_eq!(customer.customer_principal, jane);
    assert_eq!(customer.name, "Jane");
    assert_eq!(customer.contact, "jane@x.com");

    let reservation = s.make_reservation(1, 2, &jane, 150).unwrap();
    assert_eq!(reservation.bus_id, 1);
    assert_eq!(reservation.customer_id, 2);
    assert_eq!(reservation.reservation_time, 150);
    assert_eq!(s.is_booked(1).unwrap(), true);

    let again = s.make_reservation(1, 2, &jane, 160);
    assert_eq!(again.unwrap_err(), Error::AlreadyBooked);
}

#[test]
fn reservation_requires_the_customer_itself() {
    let mut s = fresh_service();
    let owner = "principal-p".to_string();
    let jane = "principal-jane".to_string();
    s.add_bus(&volvo_payload(), &owner, 10).unwrap();
    s.add_customer("Jane".to_string(), "jane@x.com".to_string(), &jane).unwrap();
    let refused = s.make_reservation(1, 2, &owner, 150);
    assert_eq!(refused.unwrap_err(), Error::FailedAuthentication);
    let missing = s.make_reservation(1, 9, &jane, 150);
    assert_eq!(missing.unwrap_err(), Error::NotFound);
    let missing_bus = s.make_reservation(9, 2, &jane, 150);
    assert_eq!(missing_bus.unwrap_err(), Error::NotFound);
}

#[test]
fn cancellation_restores_availability() {
    let mut s = fresh_service();
    let owner = "principal-p".to_string();
    let jane = "principal-jane".to_string();
    let karl = "principal-karl".to_string();
    s.add_bus(&volvo_payload(), &owner, 10).unwrap();
    s.add_customer("Jane".to_string(), "jane@x.com".to_string(), &jane).unwrap();
    s.add_customer("Karl".to_string(), "karl@x.com".to_string(), &karl).unwrap();

    s.make_reservation(1, 2, &jane, 150).unwrap();
    let stranger = "principal-q".to_string();
    assert_eq!(s.cancel_reservation(1, &stranger).unwrap_err(), Error::FailedAuthentication);
    s.cancel_reservation(1, &jane).unwrap();
    assert_eq!(s.get_reservation(1).unwrap_err(), Error::NotFound);
    assert_eq!(s.is_booked(1).unwrap(), false);

    // a later reservation by another customer succeeds
    let second = s.make_reservation(1, 3, &karl, 700).unwrap();
    assert_eq!(second.customer_id, 3);

    // the bus owner may cancel too
    s.cancel_reservation(1, &owner).unwrap();
    assert_eq!(s.is_booked(1).unwrap(), false);
    assert_eq!(s.cancel_reservation(1, &owner).unwrap_err(), Error::NotFound);
}

#[test]
fn availability_scenario() {
    let mut s = fresh_service();
    let owner = "principal-p".to_string();
    let jane = "principal-jane".to_string();
    s.add_bus(&volvo_payload(), &owner, 10).unwrap();
    s.add_customer("Jane".to_string(), "jane@x.com".to_string(), &jane).unwrap();

    s.make_reservation(1, 2, &jane, 150).unwrap();
    let range = TimeRange { start_time: 100, end_time: 200 };
    assert_eq!(s.check_bus_availability(1, &range).unwrap(), false);

    s.cancel_reservation(1, &jane).unwrap();
    s.make_reservation(1, 2, &jane, 500).unwrap();
    assert_eq!(s.check_bus_availability(1, &range).unwrap(), true);

    assert_eq!(s.check_bus_availability(9, &range).unwrap_err(), Error::NotFound);
}

#[test]
fn availability_interval_is_closed() {
    let mut s = fresh_service();
    let owner = "principal-p".to_string();
    let jane = "principal-jane".to_string();
    s.add_bus(&volvo_payload(), &owner, 10).unwrap();
    s.add_customer("Jane".to_string(), "jane@x.com".to_string(), &jane).unwrap();
    let range = TimeRange { start_time: 100, end_time: 200 };

    for (instant, free) in [(100u64, false), (200, false), (99, true), (201, true)] {
        s.make_reservation(1, 2, &jane, instant).unwrap();
        assert_eq!(s.check_bus_availability(1, &range).unwrap(), free);
        s.cancel_reservation(1, &jane).unwrap();
    }
}

#[test]
fn identifiers_strictly_increase_across_collections() {
    let mut s = fresh_service();
    let p = "principal-p".to_string();
    let bus = s.add_bus(&volvo_payload(), &p, 1).unwrap();
    assert_eq!(bus.id, 1);
    let customer = s.add_customer("Jane".to_string(), "jane@x.com".to_string(), &p).unwrap();
    assert_eq!(customer.id, 2);
    let record = s.add_bus_maintenance_record(&MaintenancePayload {
        bus_id: 1,
        maintenance_date: 9,
        details: "brakes".to_string(),
    });
    assert_eq!(record.id, 3);
    let second_bus = s.add_bus(&volvo_payload(), &p, 2).unwrap();
    assert_eq!(second_bus.id, 4);
}

#[test]
fn add_bus_validation() {
    let mut s = fresh_service();
    let p = "principal-p".to_string();

    let mut blank_make = volvo_payload();
    blank_make.make = "   ".to_string();
    assert_eq!(s.add_bus(&blank_make, &p, 1).unwrap_err(), Error::InvalidInputData);

    let mut unicode_blank_model = volvo_payload();
    unicode_blank_model.model = "\u{000B}\u{00A0}\u{3000}".to_string();
    assert_eq!(s.add_bus(&unicode_blank_model, &p, 1).unwrap_err(), Error::InvalidInputData);

    let mut empty_color = volvo_payload();
    empty_color.color = "".to_string();
    assert_eq!(s.add_bus(&empty_color, &p, 1).unwrap_err(), Error::InvalidInputData);

    let mut too_old = volvo_payload();
    too_old.year = 1994;
    assert_eq!(s.add_bus(&too_old, &p, 1).unwrap_err(), Error::InvalidInputData);

    let mut too_new = volvo_payload();
    too_new.year = 2025;
    assert_eq!(s.add_bus(&too_new, &p, 1).unwrap_err(), Error::InvalidInputData);

    let mut oldest = volvo_payload();
    oldest.year = 1995;
    assert_eq!(s.add_bus(&oldest, &p, 1).unwrap().year, 1995);

    let mut newest = volvo_payload();
    newest.year = 2024;
    assert_eq!(s.add_bus(&newest, &p, 1).unwrap().year, 2024);

    // a failed add mints no identifier: the next one continues the sequence
    assert_eq!(s.add_bus(&volvo_payload(), &p, 1).unwrap().id, 3);
}

#[test]
fn add_customer_validation() {
    let mut s = fresh_service();
    let p = "principal-p".to_string();
    assert_eq!(
        s.add_customer(" \t\n".to_string(), "jane@x.com".to_string(), &p).unwrap_err(),
        Error::InvalidInputData
    );
    assert_eq!(
        s.add_customer("\u{000C}\u{2028}".to_string(), "jane@x.com".to_string(), &p).unwrap_err(),
        Error::InvalidInputData
    );
    assert_eq!(
        s.add_customer("Jane".to_string(), "".to_string(), &p).unwrap_err(),
        Error::InvalidInputData
    );
}

#[test]
fn lookups_report_not_found() {
    let mut s = fresh_service();
    assert_eq!(s.get_bus(1).unwrap_err(), Error::NotFound);
    assert_eq!(s.get_customer(1).unwrap_err(), Error::NotFound);
    assert_eq!(s.get_reservation(1).unwrap_err(), Error::NotFound);
    assert_eq!(s.is_booked(1).unwrap_err(), Error::NotFound);
    let p = "principal-p".to_string();
    assert_eq!(s.update_bus(1, &volvo_payload(), &p, 5).unwrap_err(), Error::NotFound);
    assert_eq!(s.delete_bus(1, &p).unwrap_err(), Error::NotFound);
    assert_eq!(s.delete_customer(1, &p).unwrap_err(), Error::NotFound);
    assert_eq!(s.cancel_reservation(1, &p).unwrap_err(), Error::NotFound);
    assert_eq!(s.delete_bus_maintenance_record(1).unwrap_err(), Error::NotFound);
}

#[test]
fn delete_bus_requires_owner() {
    let mut s = fresh_service();
    let p = "principal-p".to_string();
    let q = "principal-q".to_string();
    s.add_bus(&volvo_payload(), &p, 1).unwrap();
    assert_eq!(s.delete_bus(1, &q).unwrap_err(), Error::FailedAuthentication);
    assert_eq!(s.get_bus(1).unwrap().id, 1);
    let removed = s.delete_bus(1, &p).unwrap();
    assert_eq!(removed.id, 1);
    assert_eq!(s.get_bus(1).unwrap_err(), Error::NotFound);
}

#[test]
fn delete_customer_requires_the_customer() {
    let mut s = fresh_service();
    let jane = "principal-jane".to_string();
    let q = "principal-q".to_string();
    s.add_customer("Jane".to_string(), "jane@x.com".to_string(), &jane).unwrap();
    assert_eq!(s.delete_customer(1, &q).unwrap_err(), Error::FailedAuthentication);
    let removed = s.delete_customer(1, &jane).unwrap();
    assert_eq!(removed.name, "Jane");
    assert_eq!(s.get_customer(1).unwrap_err(), Error::NotFound);
}

#[test]
fn report_and_empty_search_list_every_bus_in_key_order() {
    let mut s = fresh_service();
    let p = "principal-p".to_string();
    let mut payload = volvo_payload();
    s.add_bus(&payload, &p, 1).unwrap();
    payload.make = "Scania".to_string();
    s.add_bus(&payload, &p, 2).unwrap();
    payload.make = "MAN".to_string();
    s.add_bus(&payload, &p, 3).unwrap();

    let report = s.generate_report();
    assert_eq!(report.len(), 3);
    assert_eq!(report[0].id, 1);
    assert_eq!(report[1].id, 2);
    assert_eq!(report[2].id, 3);
    assert_eq!(report[0].make, "Volvo");
    assert_eq!(report[2].make, "MAN");

    let found = s.search_buses(&empty_query());
    assert_eq!(found.len(), 3);
    assert_eq!(found[0].id, 1);
    assert_eq!(found[1].id, 2);
    assert_eq!(found[2].id, 3);
}

#[test]
fn search_buses_applies_every_present_predicate() {
    let mut s = fresh_service();
    let p = "principal-p".to_string();
    let mut payload = volvo_payload();
    s.add_bus(&payload, &p, 1).unwrap();
    payload.color = "blue".to_string();
    s.add_bus(&payload, &p, 2).unwrap();
    payload.make = "Scania".to_string();
    payload.year = 2000;
    s.add_bus(&payload, &p, 3).unwrap();

    let mut by_color = empty_query();
    by_color.color = Some("blue".to_string());
    let blue = s.search_buses(&by_color);
    assert_eq!(blue.len(), 2);
    assert_eq!(blue[0].id, 2);
    assert_eq!(blue[1].id, 3);

    let mut blue_volvo = empty_query();
    blue_volvo.color = Some("blue".to_string());
    blue_volvo.make = Some("Volvo".to_string());
    let found = s.search_buses(&blue_volvo);
    assert_eq!(found.len(), 1);
    assert_eq!(found[0].id, 2);

    let mut by_year = empty_query();
    by_year.year = Some(2000);
    let found = s.search_buses(&by_year);
    assert_eq!(found.len(), 1);
    assert_eq!(found[0].id, 3);

    let mut by_missing = empty_query();
    by_missing.make = Some("Setra".to_string());
    assert!(s.search_buses(&by_missing).is_empty());
}

#[test]
fn search_buses_by_booking_state() {
    let mut s = fresh_service();
    let p = "principal-p".to_string();
    let jane = "principal-jane".to_string();
    s.add_bus(&volvo_payload(), &p, 1).unwrap();
    s.add_bus(&volvo_payload(), &p, 2).unwrap();
    s.add_customer("Jane".to_string(), "jane@x.com".to_string(), &jane).unwrap();
    s.make_reservation(2, 3, &jane, 5).unwrap();

    let mut booked = empty_query();
    booked.is_booked = Some(true);
    let found = s.search_buses(&booked);
    assert_eq!(found.len(), 1);
    assert_eq!(found[0].id, 2);

    let mut free = empty_query();
    free.is_booked = Some(false);
    let found = s.search_buses(&free);
    assert_eq!(found.len(), 1);
    assert_eq!(found[0].id, 1);
}

#[test]
fn a_bus_added_as_booked_cannot_be_reserved() {
    let mut s = fresh_service();
    let p = "principal-p".to_string();
    let jane = "principal-jane".to_string();
    let mut payload = volvo_payload();
    payload.is_booked = true;
    s.add_bus(&payload, &p, 1).unwrap();
    s.add_customer("Jane".to_string(), "jane@x.com".to_string(), &jane).unwrap();
    assert_eq!(s.make_reservation(1, 2, &jane, 5).unwrap_err(), Error::AlreadyBooked);
}

#[test]
fn maintenance_records_are_kept_per_bus() {
    let mut s = fresh_service();
    let p = "principal-p".to_string();
    s.add_bus(&volvo_payload(), &p, 1).unwrap();
    let first = s.add_bus_maintenance_record(&MaintenancePayload {
        bus_id: 1,
        maintenance_date: 100,
        details: "brakes".to_string(),
    });
    assert_eq!(first.id, 2);
    let second = s.add_bus_maintenance_record(&MaintenancePayload {
        bus_id: 1,
        maintenance_date: 200,
        details: "tyres".to_string(),
    });
    assert_eq!(second.id, 3);
    let other = s.add_bus_maintenance_record(&MaintenancePayload {
        bus_id: 9,
        maintenance_date: 300,
        details: "paint".to_string(),
    });
    assert_eq!(other.id, 4);

    let records = s.get_bus_maintenance_records(1);
    assert_eq!(records.len(), 2);
    assert_eq!(records[0].id, 2);
    assert_eq!(records[0].details, "brakes");
    assert_eq!(records[1].id, 3);
    assert_eq!(records[1].details, "tyres");

    s.delete_bus_maintenance_record(2).unwrap();
    let records = s.get_bus_maintenance_records(1);
    assert_eq!(records.len(), 1);
    assert_eq!(records[0].id, 3);
    assert_eq!(s.delete_bus_maintenance_record(2).unwrap_err(), Error::NotFound);
}

#[test]
fn customer_reservations_are_listed_in_bus_order() {
    let mut s = fresh_service();
    let p = "principal-p".to_string();
    let jane = "principal-jane".to_string();
    let karl = "principal-karl".to_string();
    s.add_bus(&volvo_payload(), &p, 1).unwrap();
    s.add_bus(&volvo_payload(), &p, 2).unwrap();
    s.add_bus(&volvo_payload(), &p, 3).unwrap();
    s.add_customer("Jane".to_string(), "jane@x.com".to_string(), &jane).unwrap();
    s.add_customer("Karl".to_string(), "karl@x.com".to_string(), &karl).unwrap();

    s.make_reservation(3, 4, &jane, 50).unwrap();
    s.make_reservation(1, 4, &jane, 60).unwrap();
    s.make_reservation(2, 5, &karl, 70).unwrap();

    let janes = s.get_customer_reservations(4);
    assert_eq!(janes.len(), 2);
    assert_eq!(janes[0].bus_id, 1);
    assert_eq!(janes[1].bus_id, 3);
    assert!(s.get_customer_reservations(9).is_empty());
}

#[test]
fn cancelling_an_orphan_reservation() {
    let mut s = fresh_service();
    let p = "principal-p".to_string();
    let jane = "principal-jane".to_string();
    s.add_bus(&volvo_payload(), &p, 1).unwrap();
    s.add_customer("Jane".to_string(), "jane@x.com".to_string(), &jane).unwrap();
    s.make_reservation(1, 2, &jane, 5).unwrap();

    // the bus is deleted; the reservation row stays behind
    s.delete_bus(1, &p).unwrap();
    assert_eq!(s.get_reservation(1).unwrap().customer_id, 2);

    // the bus owner is gone, but the reserving customer may still cancel
    assert_eq!(s.cancel_reservation(1, &p).unwrap_err(), Error::FailedAuthentication);
    s.cancel_reservation(1, &jane).unwrap();
    assert_eq!(s.get_reservation(1).unwrap_err(), Error::NotFound);
}

#[test]
fn state_survives_a_restart() {
    let p = "principal-p".to_string();
    let jane = "principal-jane".to_string();
    let mut s = Service::restore(RegionAllocator::init()).unwrap();
    s.add_bus(&volvo_payload(), &p, 10).unwrap();
    s.add_customer("Jane".to_string(), "jane@x.com".to_string(), &jane).unwrap();
    s.make_reservation(1, 2, &jane, 150).unwrap();
    let alloc = s.into_allocator();
    let mut s = Service::restore(alloc).unwrap();
    assert_eq!(s.get_bus(1).unwrap().make, "Volvo");
    assert_eq!(s.get_customer(2).unwrap().name, "Jane");
    assert_eq!(s.get_reservation(1).unwrap().reservation_time, 150);
    assert_eq!(s.is_booked(1).unwrap(), true);
    // the restored counter continues the sequence
    assert_eq!(s.add_bus(&volvo_payload(), &p, 20).unwrap().id, 3);
}
