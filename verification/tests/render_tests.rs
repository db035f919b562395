use red::parser::{either_address_parser, Address, AddressPosition, AddressRange, SingularAddress};
use red::render::render_address;

fn sing(position: AddressPosition, offset: i64) -> Option<SingularAddress> {
    Some(SingularAddress { position, offset })
}

fn round_trip(addr: Address) {
    let text = render_address(&addr);
    let (consumed, back) = either_address_parser(&text, 0).expect("canonical text must parse");
    assert_eq!(consumed, text.len());
    assert_eq!(back, addr);
}

#[test]
fn round_trip_singular_forms() {
    round_trip(Address::Singular(None));
    round_trip(Address::Singular(sing(AddressPosition::CurrentLine, 0)));
    round_trip(Address::Singular(sing(AddressPosition::LastLine, -2)));
    round_trip(Address::Singular(sing(AddressPosition::Line(10), 5)));
    round_trip(Address::Singular(sing(AddressPosition::Line(0), 0)));
    round_trip(Address::Singular(sing(AddressPosition::Default, 3)));
    round_trip(Address::Singular(sing(AddressPosition::Default, 0)));
    round_trip(Address::Singular(sing(AddressPosition::Default, -1)));
    round_trip(Address::Singular(sing(AddressPosition::Line(u64::MAX), i64::MAX)));
    round_trip(Address::Singular(sing(AddressPosition::Line(7), i64::MIN + 1)));
}

#[test]
fn round_trip_absolute_ranges() {
    round_trip(Address::Range(AddressRange::Absolute((None, None))));
    round_trip(Address::Range(AddressRange::Absolute((
        sing(AddressPosition::Line(2), 0),
        sing(AddressPosition::Line(5), 0),
    ))));
    round_trip(Address::Range(AddressRange::Absolute((
        sing(AddressPosition::CurrentLine, -1),
        None,
    ))));
    round_trip(Address::Range(AddressRange::Absolute((
        None,
        sing(AddressPosition::LastLine, 0),
    ))));
}

#[test]
fn round_trip_relative_ranges() {
    round_trip(Address::Range(AddressRange::Relative((None, None))));
    round_trip(Address::Range(AddressRange::Relative((
        sing(AddressPosition::Line(4), 0),
        sing(AddressPosition::Default, 3),
    ))));
    round_trip(Address::Range(AddressRange::Relative((
        sing(AddressPosition::CurrentLine, 0),
        sing(AddressPosition::Line(9), -4),
    ))));
}

#[test]
fn canonical_text_forms() {
    assert_eq!(
        render_address(&Address::Singular(sing(AddressPosition::Line(10), 5))),
        b"10+5".to_vec()
    );
    assert_eq!(
        render_address(&Address::Singular(sing(AddressPosition::CurrentLine, -3))),
        b".-3".to_vec()
    );
    assert_eq!(render_address(&Address::Singular(None)), b"".to_vec());
    assert_eq!(
        render_address(&Address::Singular(sing(AddressPosition::Default, 0))),
        b"+0".to_vec()
    );
    assert_eq!(
        render_address(&Address::Singular(sing(AddressPosition::LastLine, 0))),
        b"$".to_vec()
    );
    assert_eq!(
        render_address(&Address::Range(AddressRange::Absolute((
            sing(AddressPosition::Line(2), 0),
            sing(AddressPosition::Line(5), 0),
        )))),
        b"2,5".to_vec()
    );
    assert_eq!(
        render_address(&Address::Range(AddressRange::Relative((
            sing(AddressPosition::CurrentLine, 0),
            sing(AddressPosition::Default, 5),
        )))),
        b".;+5".to_vec()
    );
    assert_eq!(
        render_address(&Address::Singular(sing(AddressPosition::Line(1234567890), 0))),
        b"1234567890".to_vec()
    );
}
