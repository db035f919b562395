use red::parser::{
    command_parser, parse_command, Address, AddressPosition, AddressRange, AppendCommand,
    ChangeCommand, Command, InsertCommand, MoveCommand, ParseError, PrintNoLinesCommand,
    SingularAddress,
};

fn sing(position: AddressPosition, offset: i64) -> Option<SingularAddress> {
    Some(SingularAddress { position, offset })
}

fn append(addr: Address) -> Command {
    Command::Append(AppendCommand { addr })
}

#[test]
fn decimal_line_append() {
    let r = parse_command(b"12a").unwrap();
    assert_eq!(r, append(Address::Singular(sing(AddressPosition::Line(12), 0))));
}

#[test]
fn zero_line_is_grammatical() {
    let r = parse_command(b"0a").unwrap();
    assert_eq!(r, append(Address::Singular(sing(AddressPosition::Line(0), 0))));
}

#[test]
fn bare_append_has_default_address() {
    let r = parse_command(b"a").unwrap();
    assert_eq!(r, append(Address::Singular(None)));
}

#[test]
fn last_line_append() {
    let r = parse_command(b"$a").unwrap();
    assert_eq!(r, append(Address::Singular(sing(AddressPosition::LastLine, 0))));
}

#[test]
fn current_line_append() {
    let r = parse_command(b".a").unwrap();
    assert_eq!(r, append(Address::Singular(sing(AddressPosition::CurrentLine, 0))));
}

#[test]
fn chained_offsets_fully_consumed() {
    let r = parse_command(b"10+2+3a").unwrap();
    assert_eq!(r, append(Address::Singular(sing(AddressPosition::Line(10), 5))));
}

#[test]
fn mixed_sign_offsets_sum() {
    let r = parse_command(b".+7-2a").unwrap();
    assert_eq!(r, append(Address::Singular(sing(AddressPosition::CurrentLine, 5))));
}

#[test]
fn underscore_separators_in_decimal() {
    let r = parse_command(b"1_2a").unwrap();
    assert_eq!(r, append(Address::Singular(sing(AddressPosition::Line(12), 0))));
}

#[test]
fn offset_without_anchor() {
    let r = parse_command(b"+3a").unwrap();
    assert_eq!(r, append(Address::Singular(sing(AddressPosition::Default, 3))));
}

#[test]
fn bare_sign_means_one() {
    let plus = parse_command(b"+a").unwrap();
    assert_eq!(plus, append(Address::Singular(sing(AddressPosition::Default, 1))));
    let minus = parse_command(b"-a").unwrap();
    assert_eq!(minus, append(Address::Singular(sing(AddressPosition::Default, -1))));
}

#[test]
fn absolute_range_print() {
    let r = parse_command(b"2,5p").unwrap();
    assert_eq!(
        r,
        Command::PrintNoLines(PrintNoLinesCommand {
            addr: Address::Range(AddressRange::Absolute((
                sing(AddressPosition::Line(2), 0),
                sing(AddressPosition::Line(5), 0),
            ))),
        })
    );
}

#[test]
fn relative_range_print() {
    let r = parse_command(b".;+5p").unwrap();
    assert_eq!(
        r,
        Command::PrintNoLines(PrintNoLinesCommand {
            addr: Address::Range(AddressRange::Relative((
                sing(AddressPosition::CurrentLine, 0),
                sing(AddressPosition::Default, 5),
            ))),
        })
    );
}

#[test]
fn open_ended_ranges() {
    let both = parse_command(b",p").unwrap();
    assert_eq!(
        both,
        Command::PrintNoLines(PrintNoLinesCommand {
            addr: Address::Range(AddressRange::Absolute((None, None))),
        })
    );
    let left_only = parse_command(b"5,c").unwrap();
    assert_eq!(
        left_only,
        Command::Change(ChangeCommand {
            addr: Address::Range(AddressRange::Absolute((
                sing(AddressPosition::Line(5), 0),
                None,
            ))),
        })
    );
}

#[test]
fn change_with_range() {
    let r = parse_command(b"2,3c").unwrap();
    assert_eq!(
        r,
        Command::Change(ChangeCommand {
            addr: Address::Range(AddressRange::Absolute((
                sing(AddressPosition::Line(2), 0),
                sing(AddressPosition::Line(3), 0),
            ))),
        })
    );
}

#[test]
fn insert_command_parses() {
    let r = parse_command(b"3i").unwrap();
    assert_eq!(
        r,
        Command::Insert(InsertCommand { addr: sing(AddressPosition::Line(3), 0) })
    );
}

#[test]
fn move_command_parses() {
    let r = parse_command(b"1m2").unwrap();
    assert_eq!(
        r,
        Command::Move(MoveCommand {
            prev_addr: Address::Singular(sing(AddressPosition::Line(1), 0)),
            addr: sing(AddressPosition::Line(2), 0),
        })
    );
}

#[test]
fn trailing_input_rejected() {
    let r = parse_command(b"2px");
    assert_eq!(r, Err(ParseError::TrailingInput { at: 2 }));
}

#[test]
fn unknown_input_rejected() {
    assert_eq!(parse_command(b"x"), Err(ParseError::NoMatch));
    assert_eq!(parse_command(b""), Err(ParseError::NoMatch));
    assert_eq!(parse_command(b"2,"), Err(ParseError::NoMatch));
}

#[test]
fn line_number_overflow_rejected() {
    // one past u64::MAX
    assert_eq!(parse_command(b"18446744073709551616a"), Err(ParseError::NoMatch));
    // u64::MAX itself is fine
    let r = parse_command(b"18446744073709551615a").unwrap();
    assert_eq!(r, append(Address::Singular(sing(AddressPosition::Line(u64::MAX), 0))));
}

#[test]
fn offset_magnitude_overflow_rejected() {
    // one past i64::MAX as an offset magnitude
    assert_eq!(parse_command(b"1+9223372036854775808a"), Err(ParseError::NoMatch));
    let r = parse_command(b"1+9223372036854775807a").unwrap();
    assert_eq!(r, append(Address::Singular(sing(AddressPosition::Line(1), i64::MAX))));
}

#[test]
fn offset_sum_overflow_rejected() {
    assert_eq!(
        parse_command(b"+9223372036854775807+1a"),
        Err(ParseError::NoMatch)
    );
}

#[test]
fn command_parser_reports_consumed_prefix() {
    let (consumed, cmd) = command_parser(b"2pX", 0).unwrap();
    assert_eq!(consumed, 2);
    assert_eq!(
        cmd,
        Command::PrintNoLines(PrintNoLinesCommand {
            addr: Address::Singular(sing(AddressPosition::Line(2), 0)),
        })
    );
}
