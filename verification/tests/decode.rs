use procscope::decode::{decode, decode_with_probe, event_from_record, read_probe, EVENT_SIZE, PROBE};
use procscope::event::{Event, EventKind};

fn record(e: &Event) -> Vec<u8> {
    let mut b = Vec::new();
    b.extend_from_slice(&e.pid.to_ne_bytes());
    b.extend_from_slice(&e.kind.to_ne_bytes());
    b.extend_from_slice(&e.arg.to_ne_bytes());
    b.extend_from_slice(&e.ts_ns.to_ne_bytes());
    b.extend_from_slice(&e.comm);
    b.extend_from_slice(&e.path);
    b.extend_from_slice(&e.path_len.to_ne_bytes());
    b.extend_from_slice(&e._pad.to_ne_bytes());
    b
}

#[test]
fn decodes_a_full_record() {
    let mut e = Event::new(77, EventKind::Connect, 0x01BB_0102_0304);
    e.ts_ns = 987654321;
    e.comm[..4].copy_from_slice(b"curl");
    e.path[..3].copy_from_slice(b"/tm");
    e.path_len = 3;
    let b = record(&e);
    assert_eq!(b.len(), EVENT_SIZE);
    let d = decode(&b).expect("large enough");
    assert_eq!(d.pid, 77);
    assert_eq!(d.kind, EventKind::Connect as u32);
    assert_eq!(d.arg, 0x01BB_0102_0304);
    assert_eq!(d.ts_ns, 987654321);
    assert_eq!(d.comm_str(), "curl");
    assert_eq!(d.path_str(), "/tm");
    assert_eq!(d.path_len, 3);
}

#[test]
fn short_record_is_rejected() {
    let b = record(&Event::new(1, EventKind::Open, 0));
    assert!(decode(&b[..EVENT_SIZE - 1]).is_none());
    assert!(decode(&[]).is_none());
}

#[test]
fn trailing_bytes_are_ignored() {
    let mut b = record(&Event::new(5, EventKind::Exit, 9));
    b.extend_from_slice(&[0xAA; 8]);
    let d = decode(&b).expect("large enough");
    assert_eq!(d.pid, 5);
    assert_eq!(d.arg, 9);
}

#[test]
fn record_reads_in_either_byte_order() {
    let mut b = vec![0u8; EVENT_SIZE];
    b[0..4].copy_from_slice(&[0x01, 0x02, 0x03, 0x04]);
    b[8..16].copy_from_slice(&[1, 0, 0, 0, 0, 0, 0, 2]);
    b[24..28].copy_from_slice(b"bash");
    b[104] = 5;
    let le = event_from_record(&b, true);
    assert_eq!(le.pid, 0x0403_0201);
    assert_eq!(le.arg, 0x0200_0000_0000_0001);
    assert_eq!(le.path_len, 5);
    assert_eq!(le.comm_str(), "bash");
    let be = event_from_record(&b, false);
    assert_eq!(be.pid, 0x0102_0304);
    assert_eq!(be.arg, 0x0100_0000_0000_0002);
    assert_eq!(be.path_len, 0x0500_0000);
    assert_eq!(be.comm_str(), "bash");
}

#[test]
fn probe_reading_picks_the_byte_order() {
    let v = read_probe();
    assert!(v == 1 || v == 0x100_0000);
    assert_eq!(v, u32::from_ne_bytes(PROBE));
    let mut b = vec![0u8; EVENT_SIZE];
    b[0..4].copy_from_slice(&[0x01, 0x02, 0x03, 0x04]);
    assert_eq!(decode_with_probe(&b, 1).unwrap().pid, 0x0403_0201);
    assert_eq!(decode_with_probe(&b, 0x100_0000).unwrap().pid, 0x0102_0304);
    assert!(decode_with_probe(&b[..100], 1).is_none());
    assert_eq!(decode(&b).unwrap().pid, u32::from_ne_bytes([0x01, 0x02, 0x03, 0x04]));
}
