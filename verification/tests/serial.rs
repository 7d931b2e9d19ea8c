use stromzaehler2mqtt::serial::{supported_baud_rate, BaudRate, TelegramFramer};

#[test]
fn framer_starts_at_slash_and_ends_at_bang_line() {
    let mut f = TelegramFramer::new();
    assert!(!f.push_line(b"garbage\r\n"));
    assert!(!f.push_line(b"xx/EBZ\r\n"));
    assert!(!f.push_line(b"\r\n"));
    assert!(!f.push_line(b"1-0:0.0.0*255(1)\r\n"));
    assert!(!f.push_line(b" !not at start\r\n"));
    assert!(f.push_line(b"!\r\n"));
    assert_eq!(
        f.telegram().as_slice(),
        b"/EBZ\r\n\r\n1-0:0.0.0*255(1)\r\n !not at start\r\n!\r\n"
    );
    // a complete telegram takes no more lines
    assert!(f.push_line(b"/other\r\n"));
    assert_eq!(f.telegram().len(), 45);
}

#[test]
fn framer_header_line_is_not_an_end_line() {
    let mut f = TelegramFramer::new();
    assert!(!f.push_line(b"!/X\r\n"));
    assert_eq!(f.telegram().as_slice(), b"/X\r\n");
    assert!(f.push_line(b"!"));
}

#[test]
fn baud_rates() {
    assert_eq!(supported_baud_rate(9600), Some(BaudRate::B9600));
    assert_eq!(supported_baud_rate(300), Some(BaudRate::B300));
    assert_eq!(supported_baud_rate(38400), Some(BaudRate::B38400));
    assert_eq!(supported_baud_rate(115200), None);
    assert_eq!(supported_baud_rate(0), None);
}
