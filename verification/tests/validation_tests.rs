use bus_rental::entities::{is_invalid_string, BusPayload};
use bus_rental::persist::RegionAllocator;
use bus_rental::service::Service;

#[test]
fn blank_strings_are_invalid() {
    assert!(is_invalid_string(&"".to_string()));
    assert!(is_invalid_string(&" ".to_string()));
    assert!(is_invalid_string(&" \t\r\n ".to_string()));
    assert!(!is_invalid_string(&"x".to_string()));
    assert!(!is_invalid_string(&"  x  ".to_string()));
}

#[test]
fn the_validator_agrees_with_trim_on_every_character() {
    // every white-space character str::trim strips makes a blank string
    for c in [
        '\u{0009}', '\u{000A}', '\u{000B}', '\u{000C}', '\u{000D}', '\u{0020}', '\u{0085}',
        '\u{00A0}', '\u{1680}', '\u{2000}', '\u{2001}', '\u{2002}', '\u{2003}', '\u{2004}',
        '\u{2005}', '\u{2006}', '\u{2007}', '\u{2008}', '\u{2009}', '\u{200A}', '\u{2028}',
        '\u{2029}', '\u{202F}', '\u{205F}', '\u{3000}',
    ] {
        let s = c.to_string();
        assert!(s.trim().is_empty());
        assert!(is_invalid_string(&s));
    }
    // near misses that trim keeps are not blank
    for c in ['\u{0008}', '\u{200B}', '\u{FEFF}', '\u{1FFF}', '\u{2030}'] {
        let s = c.to_string();
        assert!(!s.trim().is_empty());
        assert!(!is_invalid_string(&s));
    }
}

#[test]
fn do_insert_bus_overwrites_the_stored_record() {
    let mut s = Service::restore(RegionAllocator::init()).unwrap();
    let p = "principal-p".to_string();
    let payload = BusPayload {
        make: "Volvo".to_string(),
        model: "B7R".to_string(),
        year: 2015,
        color: "red".to_string(),
        is_booked: false,
    };
    let mut bus = s.add_bus(&payload, &p, 10).unwrap();
    bus.color = "green".to_string();
    s.do_insert_bus(&bus);
    assert_eq!(s.get_bus(1).unwrap().color, "green");
}
