//! Reading an [`Event`] out of a raw ring-buffer record.
//!
//! A record holds the event in C layout: `pid` at byte 0, `kind` at 4, `arg`
//! at 8, `ts_ns` at 16, `comm` at 24, `path` at 40, `path_len` at 104 and
//! `_pad` at 108; 112 bytes in all. Numbers are in the machine's byte order,
//! which `bytemuck` reveals on a known pattern of bytes.

use vstd::prelude::*;
use crate::event::{Event, COMM_LEN, PATH_LEN};

verus! {

/// Size of an event record in bytes.
pub const EVENT_SIZE: usize = 112;

/// The number whose little-endian bytes these are.
pub open spec fn le_value(s: Seq<u8>) -> nat
    decreases s.len(),
{
    if s.len() == 0 {
        0
    } else {
        s[0] as nat + 256 * le_value(s.drop_first())
    }
}

/// The number whose big-endian bytes these are.
pub open spec fn be_value(s: Seq<u8>) -> nat {
    le_value(s.reverse())
}

/// What the bytes of a number field read as: little-endian when `little`,
/// big-endian otherwise.
pub open spec fn field_value(s: Seq<u8>, little: bool) -> nat {
    if little {
        le_value(s)
    } else {
        be_value(s)
    }
}

/// The event fields stand in the record as the C layout places them, every
/// number in the same byte order: little-endian when `little`, big-endian
/// otherwise.
pub open spec fn record_holds(b: Seq<u8>, e: Event, little: bool) -> bool {
    &&& e.pid == field_value(b.subrange(0, 4), little)
    &&& e.kind == field_value(b.subrange(4, 8), little)
    &&& e.arg == field_value(b.subrange(8, 16), little)
    &&& e.ts_ns == field_value(b.subrange(16, 24), little)
    &&& e.comm@ == b.subrange(24, 40)
    &&& e.path@ == b.subrange(40, 104)
    &&& e.path_len == field_value(b.subrange(104, 108), little)
    &&& e._pad == field_value(b.subrange(108, 112), little)
}

/// Whether the machine running this code reads numbers little-endian, as
/// vstd's `endianness` of the executing hardware says.
pub open spec fn machine_is_little() -> bool {
    vstd::endian::endianness() is Little
}

/// The record holds the event in one of the two byte orders.
pub open spec fn decodes_to(b: Seq<u8>, e: Event) -> bool {
    record_holds(b, e, true) || record_holds(b, e, false)
}

/// `bytemuck::pod_read_unaligned::<u32>`: copies four bytes into a `u32`
/// bit for bit, so the value is their reading in the machine's byte order
/// (little- or big-endian). The call panics unless exactly four bytes are
/// given. The order is that of the executing hardware, vstd's
/// `endianness`; which of the two that is is left unsaid.
#[verifier::external_body]
fn read_u32(bytes: &[u8]) -> (v: u32)
    requires
        bytes@.len() == 4,
    ensures
        v == le_value(bytes@) || v == be_value(bytes@),
        v == field_value(bytes@, machine_is_little()),
{
    bytemuck::pod_read_unaligned::<u32>(bytes)
}

/// The bytes whose reading reveals the machine's byte order: they read as
/// 1 little-endian and as 2^24 big-endian.
pub const PROBE: [u8; 4] = [1u8, 0u8, 0u8, 0u8];

/// What the machine reads [`PROBE`] as: its little-endian or its big-endian
/// reading, that is 1 or 2^24.
pub fn read_probe() -> (v: u32)
    ensures
        v == le_value(PROBE@) || v == be_value(PROBE@),
        v == 1 || v == 0x100_0000,
        v == field_value(PROBE@, machine_is_little()),
        probe_says_little(v) == machine_is_little(),
{
    let probe = PROBE;
    proof {
        lemma_le_value_4(probe@);
    }
    read_u32(probe.as_slice())
}

/// The probe reading `v` says the machine reads numbers little-endian.
pub open spec fn probe_says_little(v: u32) -> bool {
    v == le_value(PROBE@)
}

proof fn lemma_le_value_4(s: Seq<u8>)
    requires
        s.len() == 4,
    ensures
        le_value(s) == s[0] + 0x100 * s[1] + 0x1_0000 * s[2] + 0x100_0000 * s[3],
        be_value(s) == s[3] + 0x100 * s[2] + 0x1_0000 * s[1] + 0x100_0000 * s[0],
{
    reveal_with_fuel(le_value, 5);
    let r = s.reverse();
    assert(r.drop_first().drop_first().drop_first().drop_first().len() == 0);
    assert(s.drop_first().drop_first().drop_first().drop_first().len() == 0);
    assert(r[0] == s[3] && r[1] == s[2] && r[2] == s[1] && r[3] == s[0]);
}

proof fn lemma_le_value_8(s: Seq<u8>)
    requires
        s.len() == 8,
    ensures
        le_value(s) == s[0] + 0x100 * s[1] + 0x1_0000 * s[2] + 0x100_0000 * s[3] + 0x1_0000_0000
            * s[4] + 0x100_0000_0000 * s[5] + 0x1_0000_0000_0000 * s[6] + 0x100_0000_0000_0000
            * s[7],
        be_value(s) == s[7] + 0x100 * s[6] + 0x1_0000 * s[5] + 0x100_0000 * s[4] + 0x1_0000_0000
            * s[3] + 0x100_0000_0000 * s[2] + 0x1_0000_0000_0000 * s[1] + 0x100_0000_0000_0000
            * s[0],
{
    reveal_with_fuel(le_value, 9);
    let r = s.reverse();
    let t = s.drop_first().drop_first().drop_first().drop_first();
    assert(t.drop_first().drop_first().drop_first().drop_first().len() == 0);
    let u = r.drop_first().drop_first().drop_first().drop_first();
    assert(u.drop_first().drop_first().drop_first().drop_first().len() == 0);
    assert(r[0] == s[7] && r[1] == s[6] && r[2] == s[5] && r[3] == s[4]);
    assert(r[4] == s[3] && r[5] == s[2] && r[6] == s[1] && r[7] == s[0]);
}

/// The 4-byte number at `at`, in the given byte order.
fn u32_at(b: &[u8], at: usize, little: bool) -> (v: u32)
    requires
        at + 4 <= b@.len(),
    ensures
        v == field_value(b@.subrange(at as int, at + 4), little),
{
    proof {
        lemma_le_value_4(b@.subrange(at as int, at + 4));
    }
    let b0 = b[at] as u32;
    let b1 = b[at + 1] as u32;
    let b2 = b[at + 2] as u32;
    let b3 = b[at + 3] as u32;
    if little {
        b0 + 0x100 * b1 + 0x1_0000 * b2 + 0x100_0000 * b3
    } else {
        b3 + 0x100 * b2 + 0x1_0000 * b1 + 0x100_0000 * b0
    }
}

/// The 8-byte number at `at`, in the given byte order.
fn u64_at(b: &[u8], at: usize, little: bool) -> (v: u64)
    requires
        at + 8 <= b@.len(),
    ensures
        v == field_value(b@.subrange(at as int, at + 8), little),
{
    proof {
        lemma_le_value_8(b@.subrange(at as int, at + 8));
    }
    let b0 = b[at] as u64;
    let b1 = b[at + 1] as u64;
    let b2 = b[at + 2] as u64;
    let b3 = b[at + 3] as u64;
    let b4 = b[at + 4] as u64;
    let b5 = b[at + 5] as u64;
    let b6 = b[at + 6] as u64;
    let b7 = b[at + 7] as u64;
    if little {
        b0 + 0x100 * b1 + 0x1_0000 * b2 + 0x100_0000 * b3 + 0x1_0000_0000 * b4 + 0x100_0000_0000
            * b5 + 0x1_0000_0000_0000 * b6 + 0x100_0000_0000_0000 * b7
    } else {
        b7 + 0x100 * b6 + 0x1_0000 * b5 + 0x100_0000 * b4 + 0x1_0000_0000 * b3 + 0x100_0000_0000
            * b2 + 0x1_0000_0000_0000 * b1 + 0x100_0000_0000_0000 * b0
    }
}

/// Builds the event a record holds, reading every number little-endian
/// when `little` and big-endian otherwise; bytes past the event are ignored.
pub fn event_from_record(bytes: &[u8], little: bool) -> (e: Event)
    requires
        bytes@.len() >= EVENT_SIZE,
    ensures
        record_holds(bytes@, e, little),
{
    let mut comm = [0u8; 16];
    let mut i: usize = 0;
    while i < COMM_LEN
        invariant
            bytes@.len() >= EVENT_SIZE,
            i <= COMM_LEN,
            comm@.len() == COMM_LEN,
            forall|k: int| 0 <= k < i ==> comm@[k] == bytes@[24 + k],
        decreases COMM_LEN - i,
    {
        comm[i] = bytes[24 + i];
        i = i + 1;
    }
    let mut path = [0u8; 64];
    let mut j: usize = 0;
    while j < PATH_LEN
        invariant
            bytes@.len() >= EVENT_SIZE,
            j <= PATH_LEN,
            path@.len() == PATH_LEN,
            forall|k: int| 0 <= k < j ==> path@[k] == bytes@[40 + k],
        decreases PATH_LEN - j,
    {
        path[j] = bytes[40 + j];
        j = j + 1;
    }
    let e = Event {
        pid: u32_at(bytes, 0, little),
        kind: u32_at(bytes, 4, little),
        arg: u64_at(bytes, 8, little),
        ts_ns: u64_at(bytes, 16, little),
        comm,
        path,
        path_len: u32_at(bytes, 104, little),
        _pad: u32_at(bytes, 108, little),
    };
    assert(e.comm@ =~= bytes@.subrange(24, 40));
    assert(e.path@ =~= bytes@.subrange(40, 104));
    e
}

/// Decodes one ring-buffer record into an [`Event`], if it is large enough
/// to hold one, given what the machine read [`PROBE`] as: numbers are read
/// little-endian when the probe read as its little-endian value, big-endian
/// otherwise. Bytes past the event are ignored.
pub fn decode_with_probe(bytes: &[u8], probe: u32) -> (r: Option<Event>)
    requires
        probe == le_value(PROBE@) || probe == be_value(PROBE@),
    ensures
        r is Some <==> bytes@.len() >= EVENT_SIZE,
        r matches Some(e) ==> record_holds(bytes@, e, probe_says_little(probe)),
{
    if bytes.len() < EVENT_SIZE {
        return None;
    }
    let p = PROBE;
    proof {
        lemma_le_value_4(p@);
    }
    let little = probe == 1;
    Some(event_from_record(bytes, little))
}

/// Decodes one ring-buffer record into an [`Event`], if it is large enough
/// to hold one; bytes past the event are ignored. Numbers are read in the
/// machine's byte order, the same for every field.
pub fn decode(bytes: &[u8]) -> (r: Option<Event>)
    ensures
        r is Some <==> bytes@.len() >= EVENT_SIZE,
        r matches Some(e) ==> decodes_to(bytes@, e),
        r matches Some(e) ==> record_holds(bytes@, e, machine_is_little()),
{
    decode_with_probe(bytes, read_probe())
}

/// Reading the probe in a byte order reveals that order.
pub proof fn law_probe_reveals_order(little: bool)
    ensures
        probe_says_little(field_value(PROBE@, little) as u32) == little,
{
    lemma_le_value_4(PROBE@);
}

/// An event a record holds has, in the given byte order, the numbers the
/// C layout puts at bytes 0, 4, 8, 16, 104 and 108 (least significant byte
/// first when `little`, last otherwise), and the name and path bytes at 24
/// and 40; so a record holds at most one event per byte order.
pub proof fn law_record_fields(b: Seq<u8>, e: Event, little: bool)
    requires
        b.len() >= EVENT_SIZE,
        record_holds(b, e, little),
    ensures
        little ==> e.pid == b[0] + 0x100 * b[1] + 0x1_0000 * b[2] + 0x100_0000 * b[3],
        !little ==> e.pid == b[3] + 0x100 * b[2] + 0x1_0000 * b[1] + 0x100_0000 * b[0],
        little ==> e.kind == b[4] + 0x100 * b[5] + 0x1_0000 * b[6] + 0x100_0000 * b[7],
        !little ==> e.kind == b[7] + 0x100 * b[6] + 0x1_0000 * b[5] + 0x100_0000 * b[4],
        little ==> e.arg == b[8] + 0x100 * b[9] + 0x1_0000 * b[10] + 0x100_0000 * b[11]
            + 0x1_0000_0000 * b[12] + 0x100_0000_0000 * b[13] + 0x1_0000_0000_0000 * b[14]
            + 0x100_0000_0000_0000 * b[15],
        !little ==> e.arg == b[15] + 0x100 * b[14] + 0x1_0000 * b[13] + 0x100_0000 * b[12]
            + 0x1_0000_0000 * b[11] + 0x100_0000_0000 * b[10] + 0x1_0000_0000_0000 * b[9]
            + 0x100_0000_0000_0000 * b[8],
        little ==> e.ts_ns == b[16] + 0x100 * b[17] + 0x1_0000 * b[18] + 0x100_0000 * b[19]
            + 0x1_0000_0000 * b[20] + 0x100_0000_0000 * b[21] + 0x1_0000_0000_0000 * b[22]
            + 0x100_0000_0000_0000 * b[23],
        !little ==> e.ts_ns == b[23] + 0x100 * b[22] + 0x1_0000 * b[21] + 0x100_0000 * b[20]
            + 0x1_0000_0000 * b[19] + 0x100_0000_0000 * b[18] + 0x1_0000_0000_0000 * b[17]
            + 0x100_0000_0000_0000 * b[16],
        forall|i: int| 0 <= i < 16 ==> #[trigger] e.comm@[i] == b[24 + i],
        forall|i: int| 0 <= i < 64 ==> #[trigger] e.path@[i] == b[40 + i],
        little ==> e.path_len == b[104] + 0x100 * b[105] + 0x1_0000 * b[106] + 0x100_0000 * b[107],
        !little ==> e.path_len == b[107] + 0x100 * b[106] + 0x1_0000 * b[105] + 0x100_0000 * b[104],
        little ==> e._pad == b[108] + 0x100 * b[109] + 0x1_0000 * b[110] + 0x100_0000 * b[111],
        !little ==> e._pad == b[111] + 0x100 * b[110] + 0x1_0000 * b[109] + 0x100_0000 * b[108],
{
    lemma_le_value_4(b.subrange(0, 4));
    lemma_le_value_4(b.subrange(4, 8));
    lemma_le_value_8(b.subrange(8, 16));
    lemma_le_value_8(b.subrange(16, 24));
    lemma_le_value_4(b.subrange(104, 108));
    lemma_le_value_4(b.subrange(108, 112));
    assert forall|i: int| 0 <= i < 16 implies #[trigger] e.comm@[i] == b[24 + i] by {
        assert(e.comm@[i] == b.subrange(24, 40)[i]);
    }
    assert forall|i: int| 0 <= i < 64 implies #[trigger] e.path@[i] == b[40 + i] by {
        assert(e.path@[i] == b.subrange(40, 104)[i]);
    }
}

} // verus!
