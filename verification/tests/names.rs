use embassy_dns::labels::write_labels;
use embassy_dns::text::{split_text, write_text};
use embassy_dns::{DnsName, Error, Name};

fn name(text: &str) -> Name {
    Name::try_from(text).unwrap()
}

#[test]
fn text_becomes_wire_format() {
    assert_eq!(name("rust-lang.org").as_raw(), b"\x09rust-lang\x03org\x00");
    assert_eq!(name("a").as_raw(), b"\x01a\x00");
    assert_eq!(
        name("_http._tcp.local").as_raw(),
        b"\x05_http\x04_tcp\x05local\x00"
    );
}

#[test]
fn final_dot_is_ignored() {
    assert_eq!(name("rust-lang.org."), name("rust-lang.org"));
    assert_eq!(name("rust-lang.org.").to_text(), "rust-lang.org");
}

#[test]
fn malformed_text_is_refused() {
    for text in ["", ".", "..", ".org", "a..b", "rust-lang.org.."] {
        assert_eq!(Name::try_from(text), Err(Error::InvalidName), "{text:?}");
    }
}

#[test]
fn labels_have_63_bytes_at_most() {
    let longest = "x".repeat(63);
    let raw = name(&longest);
    assert_eq!(raw.as_raw().len(), 65);
    assert_eq!(raw.as_raw()[0], 63);
    assert_eq!(Name::try_from("x".repeat(64).as_str()), Err(Error::InvalidName));
}

#[test]
fn names_have_255_bytes_at_most() {
    let label = "x".repeat(63);
    let longest = format!("{label}.{label}.{label}.{}", "y".repeat(61));
    let fits = name(&longest);
    assert_eq!(fits.as_raw().len(), 255);
    assert_eq!(fits.to_text(), longest);
    let over = format!("{label}.{label}.{label}.{}", "y".repeat(62));
    assert_eq!(Name::try_from(over.as_str()), Err(Error::InvalidName));
}

#[test]
fn text_is_read_back() {
    for text in ["rust-lang.org", "a", "b\u{fc}cher.example", "My Printer._ipp._tcp.local"] {
        assert_eq!(name(text).to_text(), text);
    }
}

#[test]
fn text_of_bytes_that_are_not_utf8() {
    let raw = b"\x02\xff\x61\x03org\x00";
    let read = DnsName::from_const(raw).unwrap();
    assert_eq!(Name::from(read).to_text(), "\u{fffd}a.org");
}

#[test]
fn root_is_a_dot() {
    let root = Name::from(DnsName::from_const(b"\x00").unwrap());
    assert_eq!(root.as_raw(), b"\x00");
    assert_eq!(root.to_text(), ".");
}

#[test]
fn canonical_bytes_are_borrowed() {
    let raw = b"\x03www\x07example\x03org\x00";
    let borrowed = DnsName::from_const(raw).unwrap();
    assert_eq!(borrowed.write_uncompressed(), raw);
    assert_eq!(borrowed.to_text(), "www.example.org");
}

#[test]
fn other_bytes_are_not_canonical() {
    for raw in [
        &b""[..],
        b"\x03www",
        b"\x03ww",
        b"\x03www\x00\x00",
        b"\x40",
        b"\x80a\x00",
        b"\xc0\x00",
        b"\x01a\xc0\x00",
    ] {
        assert!(DnsName::from_const(raw).is_none(), "{raw:?}");
    }
    let mut long = Vec::new();
    for _ in 0..4 {
        long.push(63);
        long.extend_from_slice(&[b'x'; 63]);
    }
    long.push(0);
    assert!(DnsName::from_const(&long).is_none());
}

#[test]
fn name_round_trips_through_a_borrowed_name() {
    let owned = name("host.example.org");
    let copy = Name::from(owned.as_smoltcp());
    assert_eq!(copy, owned);
    assert_eq!(copy.as_raw(), owned.as_raw());
}

#[test]
fn copies_are_equal() {
    let owned = name("host.example.org");
    assert_eq!(Name::from(&owned), owned);
    assert_eq!(owned.clone(), owned);
    assert_ne!(owned, name("host.example.com"));
    assert_eq!(AsRef::<[u8]>::as_ref(&owned), owned.as_raw());
}

// A response about www.facebook.com: at 0x0c the name asked about, at 0x2e an alias.
const RESPONSE: &[u8] = &[
    0x78, 0x6c, 0x81, 0x80, 0x00, 0x01, 0x00, 0x02, 0x00, 0x00, 0x00, 0x00, 0x03, 0x77, 0x77, 0x77,
    0x08, 0x66, 0x61, 0x63, 0x65, 0x62, 0x6f, 0x6f, 0x6b, 0x03, 0x63, 0x6f, 0x6d, 0x00, 0x00, 0x01,
    0x00, 0x01, 0xc0, 0x0c, 0x00, 0x05, 0x00, 0x01, 0x00, 0x00, 0x05, 0xf3, 0x00, 0x11, 0x09, 0x73,
    0x74, 0x61, 0x72, 0x2d, 0x6d, 0x69, 0x6e, 0x69, 0x04, 0x63, 0x31, 0x30, 0x72, 0xc0, 0x10, 0xc0,
    0x2e, 0x00, 0x01, 0x00, 0x01, 0x00, 0x00, 0x00, 0x05, 0x00, 0x04, 0x1f, 0x0d, 0x53, 0x24,
];

#[test]
fn compression_is_undone() {
    let read = |at: usize| Name::from(DnsName::parse(RESPONSE, &RESPONSE[at..]).unwrap());
    assert_eq!(read(0x0c), name("www.facebook.com"));
    assert_eq!(read(0x22), name("www.facebook.com"));
    assert_eq!(read(0x2e), name("star-mini.c10r.facebook.com"));
    assert_eq!(read(0x3f), name("star-mini.c10r.facebook.com"));
    assert_eq!(
        read(0x3f).as_raw(),
        b"\x09star-mini\x04c10r\x08facebook\x03com\x00"
    );
}

#[test]
fn chained_pointers_are_followed() {
    let packet = b"\x01a\x00\xc0\x00\xc0\x03";
    let read = Name::from(DnsName::parse(packet, &packet[5..]).unwrap());
    assert_eq!(read.as_raw(), b"\x01a\x00");
    // The second pointer leads behind the first place: it is out of what is left to read.
    let packet = b"\xc0\x02\x01a\x00";
    assert!(DnsName::parse(packet, b"\xc0\x00").is_none());
}

#[test]
fn names_under_local_are_recognised() {
    for text in ["local", "printer.local", "_http._tcp.local."] {
        assert!(name(text).is_local(), "{text:?}");
    }
    for text in ["locals", "local.org", "LOCAL", "x\u{5}local"] {
        assert!(!name(text).is_local(), "{text:?}");
    }
    assert!(!DnsName::from_const(b"\x00").unwrap().is_local());
}

#[test]
fn malformed_messages_are_refused() {
    assert!(DnsName::parse(b"", b"").is_none());
    assert!(DnsName::parse(b"abc", b"\xc0").is_none());
    assert!(DnsName::parse(b"abc", b"\xc0\x03").is_none());
    assert!(DnsName::parse(b"\xc0\x00", b"\xc0\x00").is_none());
    assert!(DnsName::parse(b"abc", b"\x41a\x00").is_none());
    assert!(DnsName::parse(b"abc", b"\x04abc").is_none());
}

#[test]
fn decompressed_names_have_255_bytes_at_most() {
    let mut packet = Vec::new();
    for _ in 0..3 {
        packet.push(63);
        packet.extend_from_slice(&[b'x'; 63]);
    }
    packet.push(0);
    let mut fits = vec![61];
    fits.extend_from_slice(&[b'y'; 61]);
    fits.extend_from_slice(&[0xc0, 0x00]);
    let read = Name::from(DnsName::parse(&packet, &fits).unwrap());
    assert_eq!(read.as_raw().len(), 255);
    let mut over = vec![62];
    over.extend_from_slice(&[b'y'; 62]);
    over.extend_from_slice(&[0xc0, 0x00]);
    assert!(DnsName::parse(&packet, &over).is_none());
}

#[test]
fn labels_are_written() {
    let labels = vec![b"a".to_vec(), b"bc".to_vec()];
    assert_eq!(write_labels(&labels), Some(b"\x01a\x02bc\x00".to_vec()));
    assert_eq!(write_text(&labels), "a.bc");
    assert_eq!(write_labels(&vec![]), Some(vec![0]));
    assert_eq!(write_labels(&vec![vec![]]), None);
    assert_eq!(write_labels(&vec![vec![b'x'; 64]]), None);
    assert_eq!(write_labels(&vec![vec![b'x'; 63]; 4]), None);
}

#[test]
fn text_is_split_at_dots() {
    assert_eq!(split_text(b"a.bc"), vec![b"a".to_vec(), b"bc".to_vec()]);
    assert_eq!(split_text(b"a.bc."), vec![b"a".to_vec(), b"bc".to_vec()]);
    assert_eq!(split_text(b"a..b"), vec![b"a".to_vec(), vec![], b"b".to_vec()]);
    assert_eq!(split_text(b""), vec![Vec::<u8>::new()]);
}
