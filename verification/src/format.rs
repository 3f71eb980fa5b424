//! Rendering an [`Event`] as one line of human-readable text.

use vstd::prelude::*;
use crate::event::{Event, EventKind, spec_kind_from_code, spec_path_text, kind_from_u32};
use crate::text::{decimal, push_char, push_decimal};
use vstd::string::StringExecFns;

verus! {

/// The `Event.arg` of a connection to `octets[0].octets[1].octets[2].octets[3]:port`:
/// the address, first octet most significant, in bits 0..32 and the port in
/// bits 32..48.
pub open spec fn spec_encode_v4(octets: Seq<u8>, port: u16) -> int {
    octets[0] * 0x100_0000 + octets[1] * 0x1_0000 + octets[2] * 0x100 + octets[3] + port
        * 0x1_0000_0000
}

/// Packs an IPv4 address and port into an `Event.arg`.
pub fn encode_v4(octets: [u8; 4], port: u16) -> (arg: u64)
    ensures
        arg == spec_encode_v4(octets@, port),
{
    let a = octets[0];
    let b = octets[1];
    let c = octets[2];
    let d = octets[3];
    let ip = (a as u64) << 24u64 | (b as u64) << 16u64 | (c as u64) << 8u64 | (d as u64);
    let r = ip | ((port as u64) << 32u64);
    assert(r == a * 0x100_0000 + b * 0x1_0000 + c * 0x100 + d + port * 0x1_0000_0000) by (bit_vector)
        requires
            ip == (a as u64) << 24u64 | (b as u64) << 16u64 | (c as u64) << 8u64 | (d as u64),
            r == ip | ((port as u64) << 32u64),
    ;
    r
}

/// The port stored in bits 32..48 of an argument.
pub open spec fn arg_port(arg: u64) -> nat {
    ((arg as nat / 0x1_0000_0000) % 0x1_0000) as nat
}

/// `a.b.c.d:port` for the address and port packed in an argument.
pub open spec fn spec_endpoint(arg: u64) -> Seq<char> {
    decimal(((arg as nat / 0x100_0000) % 256) as nat) + seq!['.'] + decimal(
        ((arg as nat / 0x1_0000) % 256) as nat,
    ) + seq!['.'] + decimal(((arg as nat / 0x100) % 256) as nat) + seq!['.'] + decimal(
        (arg as nat % 256) as nat,
    ) + seq![':'] + decimal(arg_port(arg))
}

/// The line an event is rendered as.
pub open spec fn spec_format_event(e: Event) -> Seq<char> {
    match spec_kind_from_code(e.kind) {
        EventKind::Open => if spec_path_text(e).len() == 0 {
            "openat"@
        } else {
            "openat "@ + spec_path_text(e)
        },
        EventKind::Read => if e.arg == 0 {
            "read"@
        } else {
            "read fd "@ + decimal(e.arg as nat)
        },
        EventKind::Write => if e.arg == 0 {
            "write"@
        } else {
            "write fd "@ + decimal(e.arg as nat)
        },
        EventKind::Connect => if e.arg == 0 {
            "connect"@
        } else {
            "connect "@ + spec_endpoint(e.arg)
        },
        EventKind::Accept => "accept"@,
        EventKind::Exec => "execve"@,
        EventKind::Exit => "exit"@,
        EventKind::Other => "syscall"@,
    }
}

/// Renders an event: the syscall's name, followed by the opened path, the
/// file descriptor or the `a.b.c.d:port` endpoint where the event has one.
pub fn format_event(e: &Event) -> (s: String)
    ensures
        s@ == spec_format_event(*e),
{
    let kind = kind_from_u32(e.kind);
    match kind {
        EventKind::Open => {
            let p = e.path_str();
            if p.is_empty() {
                String::from_str("openat")
            } else {
                let mut s = String::from_str("openat ");
                s.append(p);
                s
            }
        },
        EventKind::Read => {
            if e.arg == 0 {
                String::from_str("read")
            } else {
                let mut s = String::from_str("read fd ");
                push_decimal(&mut s, e.arg);
                s
            }
        },
        EventKind::Write => {
            if e.arg == 0 {
                String::from_str("write")
            } else {
                let mut s = String::from_str("write fd ");
                push_decimal(&mut s, e.arg);
                s
            }
        },
        EventKind::Connect => {
            if e.arg == 0 {
                String::from_str("connect")
            } else {
                let mut s = String::from_str("connect ");
                let ghost start = s@;
                let arg = e.arg;
                let ip = arg & 0xFFFF_FFFFu64;
                let port = (arg >> 32u64) & 0xFFFFu64;
                let o1 = (ip >> 24u64) & 0xFFu64;
                let o2 = (ip >> 16u64) & 0xFFu64;
                let o3 = (ip >> 8u64) & 0xFFu64;
                let o4 = ip & 0xFFu64;
                assert(o1 == (arg / 0x100_0000) % 256 && o2 == (arg / 0x1_0000) % 256 && o3 == (arg
                    / 0x100) % 256 && o4 == arg % 256 && port == (arg / 0x1_0000_0000) % 0x1_0000)
                    by (bit_vector)
                    requires
                        ip == arg & 0xFFFF_FFFFu64,
                        port == (arg >> 32u64) & 0xFFFFu64,
                        o1 == (ip >> 24u64) & 0xFFu64,
                        o2 == (ip >> 16u64) & 0xFFu64,
                        o3 == (ip >> 8u64) & 0xFFu64,
                        o4 == ip & 0xFFu64,
                ;
                push_decimal(&mut s, o1);
                push_char(&mut s, '.');
                push_decimal(&mut s, o2);
                push_char(&mut s, '.');
                push_decimal(&mut s, o3);
                push_char(&mut s, '.');
                push_decimal(&mut s, o4);
                push_char(&mut s, ':');
                push_decimal(&mut s, port);
                assert(s@ =~= start + spec_endpoint(arg));
                s
            }
        },
        EventKind::Accept => String::from_str("accept"),
        EventKind::Exec => String::from_str("execve"),
        EventKind::Exit => String::from_str("exit"),
        EventKind::Other => String::from_str("syscall"),
    }
}

/// The parts of a packed address read back as they were packed.
pub proof fn lemma_encode_v4_fields(octets: Seq<u8>, port: u16)
    requires
        octets.len() == 4,
    ensures
        (spec_encode_v4(octets, port) / 0x100_0000) % 256 == octets[0],
        (spec_encode_v4(octets, port) / 0x1_0000) % 256 == octets[1],
        (spec_encode_v4(octets, port) / 0x100) % 256 == octets[2],
        spec_encode_v4(octets, port) % 256 == octets[3],
        (spec_encode_v4(octets, port) / 0x1_0000_0000) % 0x1_0000 == port,
        spec_encode_v4(octets, port) == 0 <==> (octets[0] == 0 && octets[1] == 0 && octets[2] == 0
            && octets[3] == 0 && port == 0),
{
    let a = octets[0];
    let b = octets[1];
    let c = octets[2];
    let d = octets[3];
    assert({
        let x = a * 0x100_0000 + b * 0x1_0000 + c * 0x100 + d + port * 0x1_0000_0000;
        &&& (x / 0x100_0000) % 256 == a
        &&& (x / 0x1_0000) % 256 == b
        &&& (x / 0x100) % 256 == c
        &&& x % 256 == d
        &&& (x / 0x1_0000_0000) % 0x1_0000 == port
        &&& (x == 0 <==> (a == 0 && b == 0 && c == 0 && d == 0 && port == 0))
    }) by (bit_vector);
}

/// A connection event whose argument was packed from an address and port
/// renders as `connect a.b.c.d:port` with those very numbers; when address
/// and port are all zero the argument is 0 and it renders as `connect`.
pub proof fn law_connect_roundtrip(e: Event, octets: [u8; 4], port: u16)
    requires
        e.kind == crate::event::spec_kind_code(EventKind::Connect),
        e.arg == spec_encode_v4(octets@, port),
    ensures
        e.arg != 0 ==> spec_format_event(e) == "connect "@ + decimal(octets[0] as nat) + seq!['.']
            + decimal(octets[1] as nat) + seq!['.'] + decimal(octets[2] as nat) + seq!['.']
            + decimal(octets[3] as nat) + seq![':'] + decimal(port as nat),
        e.arg == 0 ==> spec_format_event(e) == "connect"@,
{
    lemma_encode_v4_fields(octets@, port);
}

/// The name of the syscall of each kind, as a line shows it.
pub open spec fn syscall_name(kind: EventKind) -> Seq<char> {
    match kind {
        EventKind::Open => seq!['o', 'p', 'e', 'n', 'a', 't'],
        EventKind::Read => seq!['r', 'e', 'a', 'd'],
        EventKind::Write => seq!['w', 'r', 'i', 't', 'e'],
        EventKind::Connect => seq!['c', 'o', 'n', 'n', 'e', 'c', 't'],
        EventKind::Accept => seq!['a', 'c', 'c', 'e', 'p', 't'],
        EventKind::Exec => seq!['e', 'x', 'e', 'c', 'v', 'e'],
        EventKind::Exit => seq!['e', 'x', 'i', 't'],
        EventKind::Other => seq!['s', 'y', 's', 'c', 'a', 'l', 'l'],
    }
}

proof fn lemma_literals()
    ensures
        "openat"@ == seq!['o', 'p', 'e', 'n', 'a', 't'],
        "openat "@ == seq!['o', 'p', 'e', 'n', 'a', 't', ' '],
        "read"@ == seq!['r', 'e', 'a', 'd'],
        "read fd "@ == seq!['r', 'e', 'a', 'd', ' ', 'f', 'd', ' '],
        "write"@ == seq!['w', 'r', 'i', 't', 'e'],
        "write fd "@ == seq!['w', 'r', 'i', 't', 'e', ' ', 'f', 'd', ' '],
        "connect"@ == seq!['c', 'o', 'n', 'n', 'e', 'c', 't'],
        "connect "@ == seq!['c', 'o', 'n', 'n', 'e', 'c', 't', ' '],
        "accept"@ == seq!['a', 'c', 'c', 'e', 'p', 't'],
        "execve"@ == seq!['e', 'x', 'e', 'c', 'v', 'e'],
        "exit"@ == seq!['e', 'x', 'i', 't'],
        "syscall"@ == seq!['s', 'y', 's', 'c', 'a', 'l', 'l'],
{
    reveal_strlit("openat");
    reveal_strlit("openat ");
    reveal_strlit("read");
    reveal_strlit("read fd ");
    reveal_strlit("write");
    reveal_strlit("write fd ");
    reveal_strlit("connect");
    reveal_strlit("connect ");
    reveal_strlit("accept");
    reveal_strlit("execve");
    reveal_strlit("exit");
    reveal_strlit("syscall");
}

/// Every line starts with the name of the event's syscall (by its stored
/// kind code), and whatever follows the name is set off by a space.
pub proof fn law_format_names_the_syscall(e: Event)
    ensures
        ({
            let l = spec_format_event(e);
            let n = syscall_name(spec_kind_from_code(e.kind));
            &&& l.len() >= n.len()
            &&& l.subrange(0, n.len() as int) == n
            &&& l.len() == n.len() || l[n.len() as int] == ' '
        }),
{
    lemma_literals();
    let l = spec_format_event(e);
    let n = syscall_name(spec_kind_from_code(e.kind));
    assert(l.subrange(0, n.len() as int) =~= n);
}

/// A read or a write on a nonzero descriptor renders as its syscall name,
/// ` fd `, and the decimal digits of the descriptor, which read back as
/// the descriptor; on descriptor 0 it renders as the bare name.
pub proof fn law_format_fd(e: Event)
    requires
        e.kind == 1 || e.kind == 2,
    ensures
        e.arg != 0 ==> spec_format_event(e) == syscall_name(spec_kind_from_code(e.kind)) + seq![
            ' ',
            'f',
            'd',
            ' ',
        ] + decimal(e.arg as nat),
        e.arg != 0 ==> crate::text::digits_value(
            spec_format_event(e).subrange(
                syscall_name(spec_kind_from_code(e.kind)).len() + 4int,
                spec_format_event(e).len() as int,
            ),
        ) == e.arg,
        e.arg == 0 ==> spec_format_event(e) == syscall_name(spec_kind_from_code(e.kind)),
{
    lemma_literals();
    crate::text::law_decimal_reads_back(e.arg as nat);
    let n = syscall_name(spec_kind_from_code(e.kind));
    if e.arg != 0 {
        let l = spec_format_event(e);
        assert(l =~= n + seq![' ', 'f', 'd', ' '] + decimal(e.arg as nat));
        assert(l.subrange(n.len() + 4int, l.len() as int) =~= decimal(e.arg as nat));
    }
}

/// An open renders as `openat`, then, when the event has a path, a space
/// and that path; accept, execve, exit and unknown kinds render as their
/// bare name.
pub proof fn law_format_open_and_bare(e: Event)
    ensures
        e.kind == 0 ==> spec_format_event(e) == if spec_path_text(e).len() == 0 {
            syscall_name(EventKind::Open)
        } else {
            syscall_name(EventKind::Open) + seq![' '] + spec_path_text(e)
        },
        e.kind >= 4 ==> spec_format_event(e) == syscall_name(spec_kind_from_code(e.kind)),
{
    lemma_literals();
}

} // verus!
