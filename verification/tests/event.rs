use procscope::event::{kind_from_u32, kind_code, Event, EventKind, COMM_LEN, PATH_LEN};

#[test]
fn event_is_plain_old_data() {
    // As large as the ring-buffer record: 4+4+8+8+16+64+4+4 = 112, no padding.
    assert_eq!(core::mem::size_of::<Event>(), 112);
    let e = Event::new(7, EventKind::Open, 42);
    assert_eq!(e.pid, 7);
    assert_eq!(e.kind, EventKind::Open as u32);
    assert_eq!(e.arg, 42);
}

#[test]
fn comm_and_path_decode() {
    let mut e = Event::new(1, EventKind::Open, 0);
    e.comm[..4].copy_from_slice(b"bash");
    e.path[..11].copy_from_slice(b"/etc/passwd");
    e.path_len = 11;
    assert_eq!(e.comm_str(), "bash");
    assert_eq!(e.path_str(), "/etc/passwd");
}

#[test]
fn new_event_is_empty() {
    let e = Event::new(3, EventKind::Exit, 9);
    assert_eq!(e.ts_ns, 0);
    assert_eq!(e.comm, [0u8; COMM_LEN]);
    assert_eq!(e.path, [0u8; PATH_LEN]);
    assert_eq!(e.path_len, 0);
    assert_eq!(e.comm_str(), "");
    assert_eq!(e.path_str(), "");
}

#[test]
fn comm_without_nul_uses_whole_field() {
    let mut e = Event::new(1, EventKind::Exec, 0);
    e.comm.copy_from_slice(b"abcdefghijklmnop");
    assert_eq!(e.comm_str(), "abcdefghijklmnop");
}

#[test]
fn comm_stops_at_first_nul() {
    let mut e = Event::new(1, EventKind::Exec, 0);
    e.comm[..7].copy_from_slice(b"ab\0cdef");
    assert_eq!(e.comm_str(), "ab");
}

#[test]
fn invalid_utf8_reads_as_empty() {
    let mut e = Event::new(1, EventKind::Open, 0);
    e.comm[..2].copy_from_slice(&[0xff, 0xfe]);
    e.path[..3].copy_from_slice(&[b'a', 0xc3, b'b']);
    e.path_len = 3;
    assert_eq!(e.comm_str(), "");
    assert_eq!(e.path_str(), "");
}

#[test]
fn path_len_is_capped_at_field_size() {
    let mut e = Event::new(1, EventKind::Open, 0);
    e.path.copy_from_slice(&[b'x'; PATH_LEN]);
    e.path_len = 1000;
    assert_eq!(e.path_str().len(), PATH_LEN);
    e.path_len = 2;
    assert_eq!(e.path_str(), "xx");
}

#[test]
fn kind_codes_round_trip() {
    let kinds = [
        EventKind::Open,
        EventKind::Read,
        EventKind::Write,
        EventKind::Connect,
        EventKind::Accept,
        EventKind::Exec,
        EventKind::Exit,
        EventKind::Other,
    ];
    for (i, k) in kinds.iter().enumerate() {
        assert_eq!(kind_code(*k), i as u32);
        assert_eq!(kind_code(*k), *k as u32);
        assert_eq!(kind_from_u32(kind_code(*k)), *k);
    }
    assert_eq!(kind_from_u32(8), EventKind::Other);
    assert_eq!(kind_from_u32(u32::MAX), EventKind::Other);
}

#[test]
fn probe_event_takes_pid_from_upper_half() {
    let mut comm = [0u8; COMM_LEN];
    comm[..4].copy_from_slice(b"curl");
    let e = Event::from_probe((4242u64 << 32) | 17, EventKind::Connect, 5, 123, comm, [0u8; PATH_LEN], 0);
    assert_eq!(e.pid, 4242);
    assert_eq!(e.kind, EventKind::Connect as u32);
    assert_eq!(e.arg, 5);
    assert_eq!(e.ts_ns, 123);
    assert_eq!(e.comm_str(), "curl");
    assert_eq!(e.path_len, 0);
    assert_eq!(e.path_str(), "");
}

#[test]
fn probe_event_keeps_name_and_path() {
    let mut comm = [0u8; COMM_LEN];
    comm.copy_from_slice(b"averylongcommand");
    let mut path = [0u8; PATH_LEN];
    path[..9].copy_from_slice(b"/dev/null");
    let e = Event::from_probe(7u64 << 32, EventKind::Open, 0, 1, comm, path, 9);
    assert_eq!(e.pid, 7);
    assert_eq!(e.comm_str(), "averylongcommand");
    assert_eq!(e.path_str(), "/dev/null");
}
