//! The event record shared between the kernel probes and user space.

use vstd::prelude::*;
use vstd::utf8::{valid_utf8, decode_utf8, encode_utf8};
use vstd::string::StringSliceAdditionalSpecFns;

verus! {

/// Size of the process-name field of an [`Event`].
pub const COMM_LEN: usize = 16;

/// Size of the path field of an [`Event`].
pub const PATH_LEN: usize = 64;

/// Category of the captured syscall. Its numeric code (the value stored in
/// [`Event::kind`]) is its position in this list, starting at 0.
#[derive(Clone, Copy, Debug, PartialEq, Eq, Structural)]
pub enum EventKind {
    Open,
    Read,
    Write,
    Connect,
    Accept,
    Exec,
    Exit,
    Other,
}

/// One observed syscall. The type has Rust's own field layout; the byte
/// layout of the record the kernel writes into the ring buffer (C layout,
/// 112 bytes) is the one `decode` reads.
#[derive(Clone, Copy, Debug)]
pub struct Event {
    pub pid: u32,
    /// The code of an [`EventKind`]; any other value reads as `Other`.
    pub kind: u32,
    /// The file descriptor, or an IPv4 address and port packed by
    /// `encode_v4`, depending on the kind.
    pub arg: u64,
    pub ts_ns: u64,
    /// Process name, NUL-padded.
    pub comm: [u8; COMM_LEN],
    /// Opened file name, NUL-padded; its length is in `path_len`.
    pub path: [u8; PATH_LEN],
    pub path_len: u32,
    pub _pad: u32,
}

/// The numeric code of a kind.
pub open spec fn spec_kind_code(kind: EventKind) -> u32 {
    match kind {
        EventKind::Open => 0,
        EventKind::Read => 1,
        EventKind::Write => 2,
        EventKind::Connect => 3,
        EventKind::Accept => 4,
        EventKind::Exec => 5,
        EventKind::Exit => 6,
        EventKind::Other => 7,
    }
}

/// The kind a numeric code stands for; unknown codes read as `Other`.
pub open spec fn spec_kind_from_code(v: u32) -> EventKind {
    if v == 0 {
        EventKind::Open
    } else if v == 1 {
        EventKind::Read
    } else if v == 2 {
        EventKind::Write
    } else if v == 3 {
        EventKind::Connect
    } else if v == 4 {
        EventKind::Accept
    } else if v == 5 {
        EventKind::Exec
    } else if v == 6 {
        EventKind::Exit
    } else {
        EventKind::Other
    }
}

/// The numeric code of a kind.
pub fn kind_code(kind: EventKind) -> (code: u32)
    ensures
        code == spec_kind_code(kind),
{
    match kind {
        EventKind::Open => 0,
        EventKind::Read => 1,
        EventKind::Write => 2,
        EventKind::Connect => 3,
        EventKind::Accept => 4,
        EventKind::Exec => 5,
        EventKind::Exit => 6,
        EventKind::Other => 7,
    }
}

/// Reads the kind stored in an event; codes above 6 read as `Other`.
pub fn kind_from_u32(v: u32) -> (kind: EventKind)
    ensures
        kind == spec_kind_from_code(v),
{
    match v {
        0 => EventKind::Open,
        1 => EventKind::Read,
        2 => EventKind::Write,
        3 => EventKind::Connect,
        4 => EventKind::Accept,
        5 => EventKind::Exec,
        6 => EventKind::Exit,
        _ => EventKind::Other,
    }
}

/// The code stored for a kind reads back as that kind.
pub proof fn law_kind_code_roundtrip(kind: EventKind)
    ensures
        spec_kind_from_code(spec_kind_code(kind)) == kind,
{
}

/// Number of leading bytes before the first NUL (all of them if there is none).
pub open spec fn c_text_len(b: Seq<u8>) -> nat
    decreases b.len(),
{
    if b.len() == 0 {
        0
    } else if b[0] == 0 {
        0
    } else {
        1 + c_text_len(b.drop_first())
    }
}

/// The text that bytes hold: their UTF-8 decoding, or empty when they are
/// not valid UTF-8.
pub open spec fn utf8_text(b: Seq<u8>) -> Seq<char> {
    if valid_utf8(b) {
        decode_utf8(b)
    } else {
        Seq::empty()
    }
}

/// The text of a NUL-padded byte field: the bytes up to the first NUL.
pub open spec fn c_text(b: Seq<u8>) -> Seq<char> {
    utf8_text(b.take(c_text_len(b) as int))
}

/// Number of path bytes that count: `path_len`, at most the field's size.
pub open spec fn spec_path_bytes_len(e: Event) -> int {
    if e.path_len <= PATH_LEN {
        e.path_len as int
    } else {
        PATH_LEN as int
    }
}

/// The opened file name of an event.
pub open spec fn spec_path_text(e: Event) -> Seq<char> {
    utf8_text(e.path@.take(spec_path_bytes_len(e)))
}

/// The process name of an event.
pub open spec fn spec_comm_text(e: Event) -> Seq<char> {
    c_text(e.comm@)
}

/// `core::str::from_utf8`: succeeds exactly on valid UTF-8, and the string
/// it gives back is made of the same bytes.
#[verifier::external_body]
fn str_from_utf8(b: &[u8]) -> (r: Option<&str>)
    ensures
        r is Some <==> valid_utf8(b@),
        r matches Some(s) ==> s.spec_bytes() == b@,
{
    match core::str::from_utf8(b) {
        Ok(s) => Some(s),
        Err(_) => None,
    }
}

/// The text of bytes, or the empty string when they are not valid UTF-8.
fn text_or_empty(b: &[u8]) -> (s: &str)
    ensures
        s@ == utf8_text(b@),
{
    match str_from_utf8(b) {
        Some(s) => {
            proof {
                vstd::utf8::encode_utf8_decode_utf8(s@);
            }
            s
        },
        None => {
            let e = "";
            proof {
                reveal_strlit("");
            }
            e
        },
    }
}

proof fn lemma_c_text_len(b: Seq<u8>, i: int)
    requires
        0 <= i <= b.len(),
        forall|j: int| 0 <= j < i ==> b[j] != 0,
        i == b.len() || b[i] == 0,
    ensures
        c_text_len(b) == i,
    decreases i,
{
    if i > 0 {
        lemma_c_text_len(b.drop_first(), i - 1);
    }
}

/// The text of a NUL-padded byte field, up to its first NUL.
fn cstr(b: &[u8]) -> (s: &str)
    ensures
        s@ == c_text(b@),
{
    let mut end: usize = 0;
    while end < b.len() && b[end] != 0
        invariant
            0 <= end <= b@.len(),
            forall|j: int| 0 <= j < end ==> b@[j] != 0,
        decreases b@.len() - end,
    {
        end = end + 1;
    }
    proof {
        lemma_c_text_len(b@, end as int);
    }
    let (head, _) = b.split_at(end);
    text_or_empty(head)
}

impl Event {
    /// An event with empty process name and path; the probes and tests fill
    /// in the rest.
    pub fn new(pid: u32, kind: EventKind, arg: u64) -> (e: Event)
        ensures
            e.pid == pid,
            e.kind == spec_kind_code(kind),
            e.arg == arg,
            e.ts_ns == 0,
            e.comm@ == Seq::new(COMM_LEN as nat, |i: int| 0u8),
            e.path@ == Seq::new(PATH_LEN as nat, |i: int| 0u8),
            e.path_len == 0,
            e._pad == 0,
    {
        let e = Event {
            pid,
            kind: kind_code(kind),
            arg,
            ts_ns: 0,
            comm: [0u8; 16],
            path: [0u8; 64],
            path_len: 0,
            _pad: 0,
        };
        assert(e.comm@ =~= Seq::new(COMM_LEN as nat, |i: int| 0u8));
        assert(e.path@ =~= Seq::new(PATH_LEN as nat, |i: int| 0u8));
        e
    }

    /// The event a kernel probe reports: the thread-group id (the upper half
    /// of the probe's `pid_tgid`) as pid, the kind's code, the argument, the
    /// timestamp, and the current task's name (NUL-padded) as the kernel
    /// hands it over, with the opened path and its length where the probe
    /// has one (an empty path of length 0 otherwise).
    pub fn from_probe(
        pid_tgid: u64,
        kind: EventKind,
        arg: u64,
        ts_ns: u64,
        comm: [u8; COMM_LEN],
        path: [u8; PATH_LEN],
        path_len: u32,
    ) -> (e: Event)
        ensures
            e.pid == pid_tgid / 0x1_0000_0000,
            e.kind == spec_kind_code(kind),
            e.arg == arg,
            e.ts_ns == ts_ns,
            e.comm@ == comm@,
            e.path@ == path@,
            e.path_len == path_len,
            e._pad == 0,
    {
        let pid = (pid_tgid >> 32u64) as u32;
        assert((pid_tgid >> 32u64) == pid_tgid / 0x1_0000_0000) by (bit_vector);
        Event { pid, kind: kind_code(kind), arg, ts_ns, comm, path, path_len, _pad: 0 }
    }

    /// Process name as text (up to the first NUL; empty if not UTF-8).
    pub fn comm_str(&self) -> (s: &str)
        ensures
            s@ == spec_comm_text(*self),
    {
        cstr(self.comm.as_slice())
    }

    /// Opened file name as text (the first `path_len` bytes, at most the
    /// whole field; empty if not UTF-8).
    pub fn path_str(&self) -> (s: &str)
        ensures
            s@ == spec_path_text(*self),
    {
        let n: usize = if self.path_len <= 64 {
            self.path_len as usize
        } else {
            PATH_LEN
        };
        let (head, _) = self.path.as_slice().split_at(n);
        text_or_empty(head)
    }
}

/// The path text of an event is made of exactly its first `path_len` path
/// bytes (all 64 of them when `path_len` is larger) when those bytes are
/// valid UTF-8, and is empty when they are not.
pub proof fn law_path_text_is_path_bytes(e: Event)
    ensures
        e.path_len <= 64 && valid_utf8(e.path@.subrange(0, e.path_len as int)) ==> encode_utf8(
            spec_path_text(e),
        ) == e.path@.subrange(0, e.path_len as int),
        e.path_len <= 64 && !valid_utf8(e.path@.subrange(0, e.path_len as int))
            ==> spec_path_text(e).len() == 0,
        e.path_len > 64 && valid_utf8(e.path@) ==> encode_utf8(spec_path_text(e)) == e.path@,
        e.path_len > 64 && !valid_utf8(e.path@) ==> spec_path_text(e).len() == 0,
{
    if e.path_len <= 64 {
        assert(e.path@.take(spec_path_bytes_len(e)) =~= e.path@.subrange(0, e.path_len as int));
    } else {
        assert(e.path@.take(spec_path_bytes_len(e)) =~= e.path@);
    }
    let b = e.path@.take(spec_path_bytes_len(e));
    if valid_utf8(b) {
        vstd::utf8::decode_utf8_encode_utf8(b);
    }
}

/// The name text of an event is made of exactly the name bytes before the
/// first NUL (all 16 when there is none) when those bytes are valid UTF-8,
/// and is empty when they are not.
pub proof fn law_comm_text_is_name_bytes(e: Event, k: int)
    requires
        0 <= k <= 16,
        forall|j: int| 0 <= j < k ==> e.comm@[j] != 0,
        k == 16 || e.comm@[k] == 0,
    ensures
        valid_utf8(e.comm@.subrange(0, k)) ==> encode_utf8(spec_comm_text(e)) == e.comm@.subrange(
            0,
            k,
        ),
        !valid_utf8(e.comm@.subrange(0, k)) ==> spec_comm_text(e).len() == 0,
{
    lemma_c_text_len(e.comm@, k);
    assert(e.comm@.take(c_text_len(e.comm@) as int) =~= e.comm@.subrange(0, k));
    if valid_utf8(e.comm@.subrange(0, k)) {
        vstd::utf8::decode_utf8_encode_utf8(e.comm@.subrange(0, k));
    }
}

} // verus!
