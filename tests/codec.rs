use symbol_history::entry::{McpRecord, VersionEntry};
use symbol_history::version::VersionId;

#[test]
fn version_flag_and_ordinal() {
    let stable = VersionId::new(12, false);
    let snap = VersionId::new(12, true);
    assert_eq!(stable.value(), 12);
    assert!(!stable.is_snapshot());
    assert_eq!(snap.value(), 12);
    assert!(snap.is_snapshot());
    assert_eq!(snap.0, 0x8000_000c);
}

#[test]
fn version_bytes_are_little_endian() {
    let v = VersionId(0x8403_0201);
    assert_eq!(v.write_bytes(), [0x01, 0x02, 0x03, 0x84]);
    assert_eq!(VersionId::from_bytes(&[0x01, 0x02, 0x03, 0x84]), Some(v));
}

#[test]
fn version_decode_short_input() {
    assert_eq!(VersionId::from_bytes(&[1, 2, 3]), None);
    assert_eq!(VersionId::from_bytes(&[]), None);
}

#[test]
fn version_round_trip_extremes() {
    for raw in [0u32, 1, 0x7fff_ffff, 0x8000_0000, 0xffff_ffff] {
        let v = VersionId(raw);
        assert_eq!(VersionId::from_bytes(&v.write_bytes()), Some(v));
    }
}

#[test]
fn entry_layout() {
    let e = VersionEntry { id: VersionId::new(3, true), name: "func_a".to_string() };
    let bytes = e.write_bytes();
    let mut expected = vec![3u8, 0, 0, 0x80];
    expected.extend_from_slice(b"func_a");
    assert_eq!(bytes, expected);
}

#[test]
fn entry_round_trip() {
    for (ordinal, snapshot, name) in [(0u32, false, "a"), (7, true, "naïve_ünïcode"), (0x7fff_ffff, true, "x")] {
        let e = VersionEntry { id: VersionId::new(ordinal, snapshot), name: name.to_string() };
        let back = VersionEntry::from_bytes(&e.write_bytes()).unwrap();
        assert_eq!(back.id, e.id);
        assert_eq!(back.name, e.name);
    }
}

#[test]
fn entry_decode_rejects_short_header() {
    assert!(VersionEntry::from_bytes(&[1, 0, 0]).is_none());
}

#[test]
fn entry_decode_rejects_bad_utf8() {
    assert!(VersionEntry::from_bytes(&[1, 0, 0, 0, 0xff, 0xfe]).is_none());
}

#[test]
fn entry_decode_reads_name_bytes() {
    let e = VersionEntry::from_bytes(&[5, 0, 0, 0, b'o', b'k']).unwrap();
    assert_eq!(e.id.value(), 5);
    assert_eq!(e.name, "ok");
}

#[test]
fn record_as_entry() {
    let r = McpRecord { serage: "field_1".to_string(), name: "health".to_string(), side: 2 };
    let e = r.as_entry(VersionId::new(9, false));
    assert_eq!(e.id, VersionId::new(9, false));
    assert_eq!(e.name, "health");
}
