use riscmon::command::{
    parse_command, parse_write_bytes, range_from_len, validate_range, CmdError, Command,
};
use riscmon::memory::{
    is_in_ram, is_in_stack, is_valid_monitor_address, ranges_overlap, RAM_BASE,
    RAM_END_INCLUSIVE, STACK_BOTTOM, STACK_TOP,
};

fn noop_error(line: &str) -> CmdError {
    match parse_command(line.as_bytes()) {
        Some(Command::Noop { error }) => error,
        other => panic!("expected a rejected line, got {:?}", other),
    }
}

#[test]
fn keywords_and_aliases() {
    assert!(matches!(parse_command(b"help"), Some(Command::Help)));
    assert!(matches!(parse_command(b"  info  "), Some(Command::Info)));
    assert!(matches!(parse_command(b"clear"), Some(Command::Clear)));
    assert!(matches!(parse_command(b"reset"), Some(Command::Clear)));
    assert!(matches!(parse_command(b"poweroff"), Some(Command::Poweroff)));
    assert!(matches!(parse_command(b"q"), Some(Command::Poweroff)));
    assert!(matches!(parse_command(b"HELP"), Some(Command::Unknown)));
    assert!(matches!(parse_command(b"help me"), Some(Command::Unknown)));
}

#[test]
fn empty_line_is_no_command() {
    assert!(parse_command(b"").is_none());
    assert!(parse_command(b"  \t ").is_none());
}

#[test]
fn address_forms() {
    assert!(matches!(parse_command(b"@"), Some(Command::AddrGet)));
    assert!(matches!(parse_command(b"@  "), Some(Command::AddrGet)));
    assert!(matches!(parse_command(b"@80001000"), Some(Command::AddrSet { addr: 0x8000_1000 })));
    assert!(matches!(parse_command(b"@ 0x10"), Some(Command::AddrSet { addr: 0x10 })));
    assert_eq!(noop_error("@xyz"), CmdError::InvalidAddress);
}

#[test]
fn write_form() {
    match parse_command(b"80000000: 48 69 21") {
        Some(Command::Write { start, bytes }) => {
            assert_eq!(start, 0x8000_0000);
            assert_eq!(bytes, vec![0x48, 0x69, 0x21]);
        }
        other => panic!("unexpected {:?}", other),
    }
    assert_eq!(noop_error(": 48"), CmdError::InvalidAddress);
    assert_eq!(noop_error("80000000:"), CmdError::NoData);
    assert_eq!(noop_error("8000zz00: 48"), CmdError::InvalidAddress);
    assert_eq!(noop_error("80000000: 4"), CmdError::InvalidByte);
    assert_eq!(noop_error("80000000: 48 6g"), CmdError::InvalidByte);
}

#[test]
fn colon_wins_over_dump_forms() {
    assert_eq!(noop_error("80000000: 1+2"), CmdError::InvalidByte);
}

#[test]
fn write_bytes_are_capped_at_32() {
    let ok: Vec<String> = (0..32).map(|i| format!("{:02x}", i)).collect();
    let bytes = parse_write_bytes(ok.join(" ").as_bytes()).unwrap();
    assert_eq!(bytes.len(), 32);
    assert_eq!(bytes[31], 31);
    let too_many: Vec<String> = (0..33).map(|i| format!("{:02x}", i)).collect();
    assert_eq!(parse_write_bytes(too_many.join(" ").as_bytes()), Err(CmdError::TooManyBytes));
    assert_eq!(parse_write_bytes(b"   "), Err(CmdError::NoData));
    assert_eq!(parse_write_bytes(b" 01\t02  03 "), Ok(vec![1, 2, 3]));
}

#[test]
fn dump_forms() {
    assert!(matches!(
        parse_command(b"80000000.8000000f"),
        Some(Command::Dump { start: 0x8000_0000, end: 0x8000_000f, ascii: false })
    ));
    assert!(matches!(
        parse_command(b"80000000+10.as_str"),
        Some(Command::Dump { start: 0x8000_0000, end: 0x8000_000f, ascii: true })
    ));
    assert!(matches!(
        parse_command(b"80001000.8000103f.as_str"),
        Some(Command::Dump { start: 0x8000_1000, end: 0x8000_103f, ascii: true })
    ));
    assert!(matches!(
        parse_command(b"80002004+4"),
        Some(Command::Dump { start: 0x8000_2004, end: 0x8000_2007, ascii: false })
    ));
    assert!(matches!(parse_command(b"zz"), Some(Command::Unknown)));
}

#[test]
fn dump_form_errors() {
    assert_eq!(noop_error("80000000+0"), CmdError::OffsetZero);
    assert_eq!(noop_error("80000000+101"), CmdError::RangeTooLarge);
    assert_eq!(noop_error("80000010.80000000"), CmdError::EndBeforeStart);
    assert_eq!(noop_error("x+10"), CmdError::InvalidStart);
    assert_eq!(noop_error("80000000+y"), CmdError::InvalidOffset);
    assert_eq!(noop_error("x.80000000"), CmdError::InvalidStart);
    assert_eq!(noop_error("80000000.y"), CmdError::InvalidEnd);
    assert_eq!(noop_error("10.20"), CmdError::OutOfRange);
    assert_eq!(noop_error("80000000.80000100"), CmdError::RangeTooLarge);
}

#[test]
fn range_rules() {
    assert_eq!(validate_range(0x8000_0000, 0x8000_00ff), Ok(()));
    assert_eq!(validate_range(0x8000_0000, 0x8000_0100), Err(CmdError::RangeTooLarge));
    assert_eq!(validate_range(2, 1), Err(CmdError::EndBeforeStart));
    assert_eq!(validate_range(RAM_END_INCLUSIVE, RAM_END_INCLUSIVE + 1), Err(CmdError::OutOfRange));
    assert_eq!(range_from_len(0x8000_0000, 0x100), Ok((0x8000_0000, 0x8000_00ff)));
    assert_eq!(range_from_len(0x8000_0000, 0), Err(CmdError::OffsetZero));
    assert_eq!(range_from_len(0x8000_0000, 0x101), Err(CmdError::RangeTooLarge));
    assert_eq!(range_from_len(usize::MAX, 2), Err(CmdError::AddressOverflow));
}

#[test]
fn memory_predicates() {
    assert!(is_in_ram(RAM_BASE));
    assert!(is_in_ram(RAM_END_INCLUSIVE));
    assert!(!is_in_ram(RAM_BASE - 1));
    assert!(!is_in_ram(RAM_END_INCLUSIVE + 1));
    assert!(is_in_stack(STACK_BOTTOM));
    assert!(!is_in_stack(STACK_TOP));
    assert!(is_valid_monitor_address(STACK_TOP));
    assert!(!is_valid_monitor_address(STACK_TOP - 1));
    assert!(ranges_overlap(1, 5, 5, 9));
    assert!(!ranges_overlap(1, 4, 5, 9));
}

#[test]
fn unicode_whitespace_trims_and_separates() {
    let nbsp = "\u{a0}";
    let ideo = "\u{3000}";
    assert_eq!(riscmon::hex::parse_hex_usize(format!("{nbsp}ff{ideo}").as_bytes()), Some(0xff));
    assert_eq!(riscmon::hex::parse_hex_u8_token(format!("{nbsp}4a\u{2009}").as_bytes()), Some(0x4a));
    assert_eq!(riscmon::hex::trim_hex(format!("{nbsp}0xff").as_bytes()), (4, 6));
    assert!(parse_command(nbsp.as_bytes()).is_none());
    assert!(parse_command(format!("{nbsp}\u{85}\u{1680}\u{205f}").as_bytes()).is_none());
    assert!(matches!(parse_command(format!("help{nbsp}").as_bytes()), Some(Command::Help)));
    assert!(matches!(parse_command(format!("@{nbsp}").as_bytes()), Some(Command::AddrGet)));
    match parse_command(format!("80000000:{nbsp}48\u{2028}69").as_bytes()) {
        Some(Command::Write { start, bytes }) => {
            assert_eq!(start, 0x8000_0000);
            assert_eq!(bytes, vec![0x48, 0x69]);
        }
        other => panic!("unexpected {:?}", other),
    }
    let many: Vec<String> = (0..33).map(|i| format!("{:02x}", i)).collect();
    assert_eq!(
        parse_write_bytes(many.join(nbsp).as_bytes()),
        Err(CmdError::TooManyBytes)
    );
    // U+0080 is no whitespace: it stays part of the token.
    assert_eq!(parse_write_bytes("4\u{80}".as_bytes()), Err(CmdError::InvalidByte));
    // U+200B (zero width space) is not White_Space.
    assert_eq!(riscmon::hex::parse_hex_usize("\u{200b}1".as_bytes()), None);
}
