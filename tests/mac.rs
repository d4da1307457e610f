use wolapp::mac::{MacAddr, MacAddrError};

#[test]
fn render_is_lowercase_colon_hex() {
    let m = MacAddr([0x01, 0x23, 0x45, 0x67, 0x89, 0xab]);
    assert_eq!(m.to_string(), "01:23:45:67:89:ab");
}

#[test]
fn render_pads_with_zeros() {
    let m = MacAddr([0x00, 0x0a, 0x0f, 0x10, 0xf0, 0xff]);
    assert_eq!(m.to_string(), "00:0a:0f:10:f0:ff");
}

#[test]
fn round_trip_through_text() {
    let samples: Vec<[u8; 6]> = vec![
        [0, 0, 0, 0, 0, 0],
        [0xff, 0xff, 0xff, 0xff, 0xff, 0xff],
        [0xaa, 0xbb, 0xcc, 0xdd, 0xee, 0xff],
        [0x01, 0x00, 0x5e, 0x7f, 0x80, 0x09],
    ];
    for b in samples {
        let decoded = MacAddr::from_bytes(&b).unwrap();
        let text = decoded.to_string();
        assert_eq!(MacAddr::parse(&text), Ok(decoded));
    }
}

#[test]
fn parse_accepts_either_case() {
    let upper = MacAddr::parse("AA:BB:CC:DD:EE:FF").unwrap();
    let lower = MacAddr::parse("aa:bb:cc:dd:ee:ff").unwrap();
    assert_eq!(upper, lower);
    assert_eq!(upper.0, [0xaa, 0xbb, 0xcc, 0xdd, 0xee, 0xff]);
    assert_eq!(upper.to_string(), "aa:bb:cc:dd:ee:ff");
}

#[test]
fn decode_rejects_wrong_lengths() {
    for len in [0usize, 1, 5, 7] {
        let bytes = vec![0x11u8; len];
        assert_eq!(MacAddr::from_bytes(&bytes), Err(MacAddrError::MalformedAddress));
    }
    assert_eq!(MacAddr::from_bytes(&[1, 2, 3, 4, 5, 6]), Ok(MacAddr([1, 2, 3, 4, 5, 6])));
}

#[test]
fn parse_rejects_malformed_text() {
    let bad = [
        "",
        "01",
        "01:23:45:67:89",
        "01:23:45:67:89:ab:cd",
        "01:23:45:67:89:zz",
        "01:23:45:67:89:a",
        "1:23:45:67:89:ab",
        "01-23-45-67-89-ab",
        "01:23:45:67:89:ab:",
        "01::23:45:67:89:ab",
        "01:23:45:67:89:+a",
        "01:23:45:67:89:é0",
    ];
    for s in bad {
        assert_eq!(MacAddr::parse(s), Err(MacAddrError::MalformedAddress), "{s}");
    }
}
