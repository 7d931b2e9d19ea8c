use stromzaehler2mqtt::parser::{parse_telegram, parse_telegram_text, ParseError, Reading, Telegram};

/// The text of the `f64` value of a decimal literal, as the program forms it.
fn value_text(literal: &str) -> String {
    literal.parse::<f64>().expect("a float literal").to_string()
}


// Real telegram captured from an eBZ DD3 2R06 meter
const SAMPLE: &[u8] = b"/EBZ5DD32R06ETA_107\r\n\
    \r\n\
    1-0:0.0.0*255(1EBZ0102861889)\r\n\
    1-0:96.1.0*255(1EBZ0102861889)\r\n\
    1-0:1.8.0*255(002714.12830185*kWh)\r\n\
    1-0:2.8.0*255(000001.20600000*kWh)\r\n\
    1-0:16.7.0*255(000211.26*W)\r\n\
    1-0:36.7.0*255(000157.64*W)\r\n\
    1-0:56.7.0*255(000015.64*W)\r\n\
    1-0:76.7.0*255(000037.98*W)\r\n\
    1-0:96.5.0*255(001C0104)\r\n\
    0-0:96.8.0*255(02FAB8BF)\r\n\
    !\r\n";

fn sample_telegram() -> Telegram {
    parse_telegram(SAMPLE, &value_text).unwrap()
}

fn parse_single_line(line: &str) -> Reading {
    let telegram = format!("/EBZ\r\n{line}\r\n!\r\n");
    let parsed = parse_telegram(telegram.as_bytes(), &value_text).unwrap();
    assert_eq!(parsed.readings.len(), 1);
    parsed.readings.into_iter().next().unwrap()
}

fn assert_sample_contains(expected: Reading) {
    let telegram = sample_telegram();
    assert!(telegram.readings.contains(&expected));
}

fn text(s: &str) -> String {
    s.to_string()
}

#[test]
fn parse_device_id() {
    let t = sample_telegram();
    assert_eq!(t.device_id, "EBZ5DD32R06ETA_107");
}

#[test]
fn parse_reading_count() {
    let t = sample_telegram();
    assert_eq!(t.readings.len(), 10);
}

#[test]
fn parse_energy_import() {
    assert_sample_contains(Reading::EnergyImport(text("2714.12830185")));
}

#[test]
fn parse_meter_id() {
    assert_sample_contains(Reading::MeterId("1EBZ0102861889".to_string()));
}

#[test]
fn parse_serial_number() {
    assert_sample_contains(Reading::SerialNumber("1EBZ0102861889".to_string()));
}

#[test]
fn parse_energy_export() {
    assert_sample_contains(Reading::EnergyExport(text("1.206")));
}

#[test]
fn parse_power_total() {
    assert_sample_contains(Reading::PowerTotal(text("211.26")));
}

#[test]
fn parse_power_l1() {
    assert_sample_contains(Reading::PowerL1(text("157.64")));
}

#[test]
fn parse_power_l2() {
    assert_sample_contains(Reading::PowerL2(text("15.64")));
}

#[test]
fn parse_power_l3() {
    assert_sample_contains(Reading::PowerL3(text("37.98")));
}

#[test]
fn parse_status_flags() {
    assert_sample_contains(Reading::StatusFlags(0x001C0104));
}

#[test]
fn parse_operating_time() {
    assert_sample_contains(Reading::OperatingTime(0x02FAB8BF));
}

#[test]
fn parse_unknown_obis_with_unit() {
    assert_eq!(
        parse_single_line("1-0:99.9.9*255(123.45*kvarh)"),
        Reading::Unknown {
            code: "1-0:99.9.9*255".to_string(),
            value: "123.45".to_string(),
            unit: Some("kvarh".to_string()),
        }
    );
}

#[test]
fn parse_unknown_obis_without_unit() {
    assert_eq!(
        parse_single_line("1-0:99.9.9*255(opaque-value)"),
        Reading::Unknown {
            code: "1-0:99.9.9*255".to_string(),
            value: "opaque-value".to_string(),
            unit: None,
        }
    );
}

#[test]
fn malformed_line_missing_parens() {
    let bad = b"/EBZ\r\n\r\n1-0:1.8.0*255 no parens here\r\n!\r\n";
    assert!(matches!(parse_telegram(bad, &value_text), Err(ParseError::MalformedLine(_))));
}

#[test]
fn malformed_line_invalid_float_value() {
    let bad = b"/EBZ\r\n\r\n1-0:1.8.0*255(not-a-float*kWh)\r\n!\r\n";
    assert_eq!(
        parse_telegram(bad, &value_text),
        Err(ParseError::MalformedLine("1-0:1.8.0*255(not-a-float*kWh)".to_string()))
    );
}

#[test]
fn malformed_line_invalid_hex_value() {
    let bad = b"/EBZ\r\n\r\n1-0:96.5.0*255(nothex)\r\n!\r\n";
    assert_eq!(
        parse_telegram(bad, &value_text),
        Err(ParseError::MalformedLine("1-0:96.5.0*255(nothex)".to_string()))
    );
}

#[test]
fn invalid_utf8() {
    assert_eq!(parse_telegram(b"/EBZ\xff\r\n!\r\n", &value_text), Err(ParseError::InvalidUtf8));
}

#[test]
fn missing_header() {
    assert_eq!(parse_telegram(b"", &value_text), Err(ParseError::MissingHeader));
    assert_eq!(parse_telegram(b"no slash\r\n!\r\n", &value_text), Err(ParseError::MissingHeader));
}

#[test]
fn display_reading_variants() {
    assert_eq!(
        Reading::SerialNumber("1EBZ0102861889".to_string()).describe(),
        "Serial Number (96.1.0) = 1EBZ0102861889"
    );
    assert_eq!(Reading::PowerL2(text("15.64")).describe(), "Power L2 (56.7.0) = 15.64 W");
    assert_eq!(
        Reading::Unknown {
            code: "1-0:99.9.9*255".to_string(),
            value: "opaque-value".to_string(),
            unit: Some("kvarh".to_string()),
        }
        .describe(),
        "1-0:99.9.9*255 = opaque-value kvarh"
    );
    assert_eq!(
        Reading::Unknown {
            code: "1-0:99.9.9*255".to_string(),
            value: "opaque-value".to_string(),
            unit: None,
        }
        .describe(),
        "1-0:99.9.9*255 = opaque-value"
    );
}

#[test]
fn display_parse_error_variants() {
    assert_eq!(ParseError::InvalidUtf8.message(), "invalid UTF-8 in telegram");
    assert_eq!(ParseError::MissingHeader.message(), "telegram does not start with '/'");
    assert_eq!(
        ParseError::MalformedLine("broken".to_string()).message(),
        "malformed data line: \"broken\""
    );
}

// Further cases of this library.

#[test]
fn describe_remaining_variants() {
    assert_eq!(Reading::MeterId(text("X1")).describe(), "Meter ID (0.0.0) = X1");
    assert_eq!(Reading::EnergyImport(text("2714.1")).describe(), "Energy Import (1.8.0) = 2714.1 kWh");
    assert_eq!(Reading::EnergyExport(text("1.206")).describe(), "Energy Export (2.8.0) = 1.206 kWh");
    assert_eq!(Reading::PowerTotal(text("211.26")).describe(), "Power Total (16.7.0) = 211.26 W");
    assert_eq!(Reading::PowerL1(text("0")).describe(), "Power L1 (36.7.0) = 0 W");
    assert_eq!(Reading::PowerL3(text("37.98")).describe(), "Power L3 (76.7.0) = 37.98 W");
    assert_eq!(Reading::StatusFlags(0x001C0104).describe(), "Status Flags (96.5.0) = 0x001C0104");
    assert_eq!(Reading::StatusFlags(0xABCDEF12).describe(), "Status Flags (96.5.0) = 0xABCDEF12");
    assert_eq!(Reading::OperatingTime(0x02FAB8BF).describe(), "Operating Time (96.8.0) = 49985727 s");
    assert_eq!(Reading::OperatingTime(0).describe(), "Operating Time (96.8.0) = 0 s");
}

#[test]
fn malformed_line_message_escapes_like_debug() {
    assert_eq!(
        ParseError::MalformedLine("a\"b\tc".to_string()).message(),
        "malformed data line: \"a\\\"b\\tc\""
    );
}

#[test]
fn meter_id_is_first_meter_id_reading() {
    let t = sample_telegram();
    assert_eq!(t.meter_id(), Some("1EBZ0102861889"));
    let two = Telegram {
        device_id: text("D"),
        readings: vec![
            Reading::PowerL1(text("1")),
            Reading::MeterId(text("first")),
            Reading::MeterId(text("second")),
        ],
    };
    assert_eq!(two.meter_id(), Some("first"));
    let none = Telegram { device_id: text("D"), readings: vec![Reading::PowerL1(text("1"))] };
    assert_eq!(none.meter_id(), None);
}

#[test]
fn header_device_id_is_trimmed_and_header_needs_slash_first() {
    assert_eq!(parse_telegram(b"/  EBZ 1 \r\n!\r\n", &value_text).unwrap().device_id, "EBZ 1");
    assert_eq!(parse_telegram(b"/EBZ", &value_text).unwrap().device_id, "EBZ");
    assert_eq!(parse_telegram(b" /EBZ\r\n", &value_text), Err(ParseError::MissingHeader));
    assert_eq!(parse_telegram(b"\r\n/EBZ\r\n", &value_text), Err(ParseError::MissingHeader));
    assert_eq!(parse_telegram(b"\n", &value_text), Err(ParseError::MissingHeader));
}

#[test]
fn blank_and_terminator_lines_are_skipped_and_lines_after_terminator_parsed() {
    let t = parse_telegram(b"/X\n\n   \n!CRC\n1-0:96.1.0*255(S)\n", &value_text).unwrap();
    assert_eq!(t.readings, vec![Reading::SerialNumber(text("S"))]);
    let t = parse_telegram(b"/X\r\n  1-0:0.0.0*255(M)  \r\n", &value_text).unwrap();
    assert_eq!(t.readings, vec![Reading::MeterId(text("M"))]);
}

#[test]
fn first_malformed_line_is_reported() {
    let bad = b"/X\r\na(1)\r\nfirst\r\nsecond\r\n";
    assert_eq!(parse_telegram(bad, &value_text), Err(ParseError::MalformedLine(text("first"))));
    // the reported line is the trimmed one
    let bad = b"/X\r\n  1-0:96.5.0*255(+)  \r\n";
    assert_eq!(parse_telegram(bad, &value_text), Err(ParseError::MalformedLine(text("1-0:96.5.0*255(+)"))));
}

#[test]
fn reading_parts_use_first_paren_last_close_and_first_star() {
    assert_eq!(
        parse_single_line("a(b(c*d*e)"),
        Reading::Unknown { code: text("a"), value: text("b(c"), unit: Some(text("d*e")) }
    );
    assert_eq!(
        parse_single_line("(x)"),
        Reading::Unknown { code: text(""), value: text("x"), unit: None }
    );
    assert_eq!(
        parse_single_line("c(*)"),
        Reading::Unknown { code: text("c"), value: text(""), unit: Some(text("")) }
    );
    assert!(matches!(parse_telegram(b"/X\r\nc(x\r\n", &value_text), Err(ParseError::MalformedLine(_))));
    assert!(matches!(parse_telegram(b"/X\r\nc)x(\r\n", &value_text), Err(ParseError::MalformedLine(_))));
}

#[test]
fn decimal_values_are_canonical() {
    let cases = [
        ("000211.26", "211.26"),
        ("+5", "5"),
        ("-000.500", "-0.5"),
        (".5", "0.5"),
        ("5.", "5"),
        ("0", "0"),
        ("-0", "-0"),
        ("0000", "0"),
        ("12.000", "12"),
        ("inf", "inf"),
        ("-Infinity", "-inf"),
        ("+INF", "inf"),
        ("NaN", "NaN"),
        ("-nan", "NaN"),
        ("1e5", "100000"),
        ("2.5E-3", "0.0025"),
        ("123e-2", "1.23"),
        ("1.5e1", "15"),
        ("0e5", "0"),
        ("-1.25E+2", "-125"),
        ("0.0012e3", "1.2"),
        ("1e-7", "0.0000001"),
        ("1e400", "inf"),
        ("-1e400", "-inf"),
        ("1e-400", "0"),
        ("-1e-400", "-0"),
        ("5e00000000000000000000000001", "50"),
        ("1e99999999999999999999999999", "inf"),
    ];
    for (raw, value) in cases {
        assert_eq!(
            parse_single_line(&format!("1-0:16.7.0*255({raw}*W)")),
            Reading::PowerTotal(text(value)),
            "{raw}"
        );
    }
}

#[test]
fn decimal_values_outside_the_float_grammar_are_rejected() {
    for raw in [".", "", "+", "-", "1.2.3", "1e", "1e+", "e5", "1 ", "0x10", "in", "infinit", "1,5", "--1"] {
        let line = format!("/X\r\n1-0:1.8.0*255({raw}*kWh)\r\n");
        assert_eq!(
            parse_telegram(line.as_bytes(), &value_text),
            Err(ParseError::MalformedLine(format!("1-0:1.8.0*255({raw}*kWh)"))),
            "{raw}"
        );
    }
}

#[test]
fn hex_values_follow_from_str_radix() {
    assert_eq!(parse_single_line("1-0:96.5.0*255(+ff)"), Reading::StatusFlags(255));
    assert_eq!(parse_single_line("1-0:96.5.0*255(FFFFFFFF)"), Reading::StatusFlags(u32::MAX));
    assert_eq!(parse_single_line("0-0:96.8.0*255(000000000001)"), Reading::OperatingTime(1));
    for raw in ["", "+", "-1", "100000000", "g", "ff "] {
        let line = format!("/X\r\n1-0:96.5.0*255({raw})\r\n");
        assert!(matches!(parse_telegram(line.as_bytes(), &value_text), Err(ParseError::MalformedLine(_))), "{raw}");
    }
}

#[test]
fn parse_telegram_text_matches_bytes() {
    let text_form = std::str::from_utf8(SAMPLE).unwrap();
    assert_eq!(parse_telegram_text(text_form, &value_text), parse_telegram(SAMPLE, &value_text));
}

#[test]
fn published_decimal_values_read_back_unchanged() {
    for raw in ["002714.12830185", "-000.500", ".5", "5.", "-0", "+INF", "nan", "2.5E-3", "1e5", "-7.5e-9", "1e400"] {
        let first = parse_single_line(&format!("1-0:1.8.0*255({raw}*kWh)"));
        let Reading::EnergyImport(value) = first else { panic!("{raw}") };
        let again = parse_single_line(&format!("1-0:1.8.0*255({value}*kWh)"));
        assert_eq!(again, Reading::EnergyImport(value.clone()), "{raw}");
    }
}

#[test]
fn logged_status_flags_read_back() {
    for v in [0u32, 0x001C0104, 0xFFFF_FFFF, 0x8000_0001] {
        let shown = Reading::StatusFlags(v).describe();
        let hex = shown.strip_prefix("Status Flags (96.5.0) = 0x").unwrap();
        assert_eq!(hex.len(), 8);
        assert_eq!(parse_single_line(&format!("1-0:96.5.0*255({hex})")), Reading::StatusFlags(v));
    }
}

#[test]
fn data_line_is_rebuilt_from_its_parts() {
    for line in ["1-0:99.9.9*255(12*3*kWh)", "1-0:99.9.9*255(value)", "x((a)*b)", "c()"] {
        match parse_single_line(line) {
            Reading::Unknown { code, value, unit } => {
                let rebuilt = match &unit {
                    Some(u) => format!("{code}({value}*{u})"),
                    None => format!("{code}({value})"),
                };
                assert_eq!(rebuilt, line);
                assert!(!code.contains('('));
                assert!(!value.contains('*'));
            }
            other => panic!("{line}: {}", other.describe()),
        }
    }
}

#[test]
fn decimal_values_beyond_the_largest_float_are_infinite() {
    let near_max = format!("179769313486231{}", "0".repeat(294));
    let max = format!("17976931348623157{}", "0".repeat(292));
    let cases = [
        ("1.8e308", "inf".to_string()),
        ("-2e308", "-inf".to_string()),
        ("1.797693134862316e308", "inf".to_string()),
        ("1.79769313486231e308", near_max),
        ("1.7976931348623157e308", max),
    ];
    for (raw, value) in cases {
        assert_eq!(
            parse_single_line(&format!("1-0:16.7.0*255({raw}*W)")),
            Reading::PowerTotal(value),
            "{raw}"
        );
    }
}

#[test]
fn decimal_values_are_the_nearest_float() {
    let cases = [
        ("9007199254740993", "9007199254740992".to_string()),
        ("1.0000000000000001", "1".to_string()),
        ("123456789012345678901234567890", "123456789012345680000000000000".to_string()),
        ("0.1000000000000000055511151231257827", "0.1".to_string()),
        ("3e-324", format!("0.{}5", "0".repeat(323))),
        ("2e-324", "0".to_string()),
    ];
    for (raw, value) in cases {
        assert_eq!(
            parse_single_line(&format!("1-0:1.8.0*255({raw}*kWh)")),
            Reading::EnergyImport(value),
            "{raw}"
        );
    }
}
