use pscan::cli::utils::{parse_port_spec, IntErrorKind, IntOrRange, PortSpecError};

const USAGE: &str = ". Usage: --port START-END | --port INT";

#[test]
fn single_port() {
    assert_eq!(IntOrRange::from_str("80"), Ok(IntOrRange::Int(80)));
    assert_eq!(IntOrRange::from_str("+443"), Ok(IntOrRange::Int(443)));
    assert_eq!(IntOrRange::from_str("65535"), Ok(IntOrRange::Int(65535)));
    assert_eq!(IntOrRange::from_str("0080"), Ok(IntOrRange::Int(80)));
}

#[test]
fn port_range() {
    assert_eq!(IntOrRange::from_str("20-80"), Ok(IntOrRange::Range(20, 80)));
    assert_eq!(IntOrRange::from_str("1-443"), Ok(IntOrRange::Range(1, 443)));
    assert_eq!(IntOrRange::from_str("7-7"), Ok(IntOrRange::Range(7, 7)));
    assert_eq!(IntOrRange::from_str("1-65535"), Ok(IntOrRange::Range(1, 65535)));
}

#[test]
fn port_zero_refused() {
    assert_eq!(IntOrRange::from_str("0"), Err("Port 0 cannot be scanned".to_string()));
    assert_eq!(parse_port_spec("0"), Err(PortSpecError::PortZero));
}

#[test]
fn range_from_zero_refused() {
    assert_eq!(IntOrRange::from_str("0-5"), Err("Range cannot start with port 0".to_string()));
    assert_eq!(parse_port_spec("0-0"), Err(PortSpecError::RangeStartsAtZero));
}

#[test]
fn reversed_range_refused() {
    assert_eq!(IntOrRange::from_str("80-20"), Err("START cannot be greater than END".to_string()));
    assert_eq!(parse_port_spec("2-1"), Err(PortSpecError::StartAfterEnd));
}

#[test]
fn too_many_dashes_refused() {
    assert_eq!(
        IntOrRange::from_str("1-2-3"),
        Err("Port range must be in the START-END format".to_string())
    );
    assert_eq!(parse_port_spec("--"), Err(PortSpecError::RangeFormat));
}

#[test]
fn bad_numbers_refused() {
    assert_eq!(
        IntOrRange::from_str("abc"),
        Err(format!("Error parsing as int: invalid digit found in string{}", USAGE))
    );
    assert_eq!(
        IntOrRange::from_str(""),
        Err(format!("Error parsing as int: cannot parse integer from empty string{}", USAGE))
    );
    assert_eq!(
        IntOrRange::from_str("70000"),
        Err(format!("Error parsing as int: number too large to fit in target type{}", USAGE))
    );
    assert_eq!(parse_port_spec("-5"), Err(PortSpecError::ParseInt(IntErrorKind::Empty)));
    assert_eq!(parse_port_spec("5-"), Err(PortSpecError::ParseInt(IntErrorKind::Empty)));
    assert_eq!(parse_port_spec("+"), Err(PortSpecError::ParseInt(IntErrorKind::InvalidDigit)));
    assert_eq!(parse_port_spec("1-+"), Err(PortSpecError::ParseInt(IntErrorKind::InvalidDigit)));
    assert_eq!(parse_port_spec("8 0"), Err(PortSpecError::ParseInt(IntErrorKind::InvalidDigit)));
    assert_eq!(parse_port_spec("99999a"), Err(PortSpecError::ParseInt(IntErrorKind::PosOverflow)));
    assert_eq!(parse_port_spec("1a99999"), Err(PortSpecError::ParseInt(IntErrorKind::InvalidDigit)));
    assert_eq!(parse_port_spec("x-0"), Err(PortSpecError::ParseInt(IntErrorKind::InvalidDigit)));
    assert_eq!(parse_port_spec("0-x"), Err(PortSpecError::ParseInt(IntErrorKind::InvalidDigit)));
}

#[test]
fn number_reading_agrees_with_std() {
    for text in ["0", "1", "+1", "65535", "65536", "", "+", "-", "-1", "12a", "007", "99999", "٣"] {
        let ours = parse_port_spec(text);
        let std_result = text.parse::<u16>();
        match std_result {
            Ok(0) => assert_eq!(ours, Err(PortSpecError::PortZero), "{}", text),
            Ok(v) if !text.contains('-') => assert_eq!(ours, Ok(IntOrRange::Int(v)), "{}", text),
            _ => assert!(ours.is_err(), "{}", text),
        }
    }
}

#[test]
fn error_messages() {
    assert_eq!(PortSpecError::RangeFormat.message(), "Port range must be in the START-END format");
    assert_eq!(
        PortSpecError::ParseInt(IntErrorKind::PosOverflow).message(),
        format!("Error parsing as int: {}{}", "70000".parse::<u16>().unwrap_err(), USAGE)
    );
    assert_eq!(
        PortSpecError::ParseInt(IntErrorKind::Empty).message(),
        format!("Error parsing as int: {}{}", "".parse::<u16>().unwrap_err(), USAGE)
    );
    assert_eq!(
        PortSpecError::ParseInt(IntErrorKind::InvalidDigit).message(),
        format!("Error parsing as int: {}{}", "x".parse::<u16>().unwrap_err(), USAGE)
    );
}

#[test]
fn every_port_reads_back() {
    for v in 1..=u16::MAX {
        assert_eq!(IntOrRange::from_str(&v.to_string()), Ok(IntOrRange::Int(v)));
    }
}

#[test]
fn ranges_read_back() {
    for (a, b) in [(1u16, 1u16), (1, 65535), (9, 10), (99, 100), (443, 8080), (65535, 65535)] {
        assert_eq!(IntOrRange::from_str(&format!("{}-{}", a, b)), Ok(IntOrRange::Range(a, b)));
    }
}
