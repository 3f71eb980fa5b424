use procscope::event::{Event, EventKind};
use procscope::format::{encode_v4, format_event};

#[test]
fn formats_openat_with_path() {
    let mut e = Event::new(1, EventKind::Open, 0);
    e.path[..11].copy_from_slice(b"/etc/passwd");
    e.path_len = 11;
    assert_eq!(format_event(&e), "openat /etc/passwd");
}

#[test]
fn formats_openat_without_path() {
    let e = Event::new(1, EventKind::Open, 0);
    assert_eq!(format_event(&e), "openat");
}

#[test]
fn formats_read_with_fd() {
    assert_eq!(format_event(&Event::new(1, EventKind::Read, 5)), "read fd 5");
}

#[test]
fn formats_connect_with_ipv4() {
    let e = Event::new(1, EventKind::Connect, encode_v4([1, 2, 3, 4], 443));
    assert_eq!(format_event(&e), "connect 1.2.3.4:443");
}

#[test]
fn formats_exit() {
    assert_eq!(format_event(&Event::new(1, EventKind::Exit, 0)), "exit");
}

#[test]
fn encode_v4_packs_address_then_port() {
    assert_eq!(encode_v4([1, 2, 3, 4], 443), 0x01BB_0102_0304);
    assert_eq!(encode_v4([0, 0, 0, 0], 0), 0);
    assert_eq!(encode_v4([255, 255, 255, 255], 65535), 0xFFFF_FFFF_FFFF);
}

#[test]
fn connect_round_trips_extreme_endpoints() {
    let e = Event::new(1, EventKind::Connect, encode_v4([255, 0, 10, 255], 65535));
    assert_eq!(format_event(&e), "connect 255.0.10.255:65535");
    let e = Event::new(1, EventKind::Connect, encode_v4([0, 0, 0, 0], 0));
    assert_eq!(format_event(&e), "connect");
    let e = Event::new(1, EventKind::Connect, encode_v4([0, 0, 0, 0], 80));
    assert_eq!(format_event(&e), "connect 0.0.0.0:80");
}

#[test]
fn connect_ignores_bits_above_the_port() {
    let arg = encode_v4([10, 0, 0, 1], 22) | (0xABCDu64 << 48);
    assert_eq!(format_event(&Event::new(1, EventKind::Connect, arg)), "connect 10.0.0.1:22");
}

#[test]
fn formats_every_kind() {
    assert_eq!(format_event(&Event::new(1, EventKind::Read, 0)), "read");
    assert_eq!(format_event(&Event::new(1, EventKind::Write, 0)), "write");
    assert_eq!(format_event(&Event::new(1, EventKind::Write, 18446744073709551615)), "write fd 18446744073709551615");
    assert_eq!(format_event(&Event::new(1, EventKind::Accept, 3)), "accept");
    assert_eq!(format_event(&Event::new(1, EventKind::Exec, 0)), "execve");
    assert_eq!(format_event(&Event::new(1, EventKind::Other, 7)), "syscall");
    let mut e = Event::new(1, EventKind::Read, 10);
    e.kind = 99;
    assert_eq!(format_event(&e), "syscall");
}
