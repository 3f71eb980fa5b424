//! What the terminal front end shows and how it reacts to keys, as plain
//! values: rows of the process list, lines of the activity panel, the
//! selection, and the lines of the plain-text mode.

use vstd::prelude::*;
use vstd::string::StringExecFns;
use crate::event::Event;
use crate::decode::{decode, decodes_to, machine_is_little, record_holds, EVENT_SIZE};
use crate::format::{format_event, spec_format_event};
use crate::model::Process;
use crate::text::{decimal, pad_left, push_decimal, push_decimal_padded, all_digits, digits_value, law_pad_left_decimal};

verus! {

/// How many of a process's newest events the activity panel shows.
pub const ACTIVITY_LINES: usize = 40;

/// One row of the process list: the pid right-aligned in 7 columns, two
/// spaces, the event total right-aligned in 8 columns, then ` syscalls`.
pub open spec fn spec_process_row(pid: u32, total: u64) -> Seq<char> {
    pad_left(decimal(pid as nat), 7) + "  "@ + pad_left(decimal(total as nat), 8) + " syscalls"@
}

/// Renders one row of the process list.
pub fn process_row(p: &Process) -> (s: String)
    ensures
        s@ == spec_process_row(p.pid, p.total),
{
    let mut s = String::new();
    push_decimal_padded(&mut s, p.pid as u64, 7);
    s.append("  ");
    push_decimal_padded(&mut s, p.total, 8);
    s.append(" syscalls");
    s
}

/// One line of the plain-text mode: the pid right-aligned in 7 columns, two
/// spaces, then the rendered event.
pub open spec fn spec_event_line(e: Event) -> Seq<char> {
    pad_left(decimal(e.pid as nat), 7) + "  "@ + spec_format_event(e)
}

/// Renders one line of the plain-text mode.
pub fn event_line(e: &Event) -> (s: String)
    ensures
        s@ == spec_event_line(*e),
{
    let mut s = String::new();
    push_decimal_padded(&mut s, e.pid as u64, 7);
    s.append("  ");
    let body = format_event(e);
    s.append(body.as_str());
    s
}

/// The plain-text line of one ring-buffer record: `None` when the record is
/// too short to hold an event or its process is not watched (every process
/// is watched when `filter` is `None`).
pub fn record_line(bytes: &[u8], filter: Option<u32>) -> (r: Option<String>)
    ensures
        bytes@.len() < EVENT_SIZE ==> r is None,
        bytes@.len() >= EVENT_SIZE ==> exists|e: Event|
            #[trigger] decodes_to(bytes@, e) && record_holds(bytes@, e, machine_is_little()) && match r {
                None => filter is Some && filter != Some(e.pid),
                Some(s) => (filter is None || filter == Some(e.pid)) && s@ == spec_event_line(e),
            },
{
    match decode(bytes) {
        None => None,
        Some(e) => {
            if passes_filter(filter, e.pid) {
                let s = event_line(&e);
                assert(decodes_to(bytes@, e) && record_holds(bytes@, e, machine_is_little()));
                Some(s)
            } else {
                assert(decodes_to(bytes@, e) && record_holds(bytes@, e, machine_is_little()));
                None
            }
        },
    }
}

/// Whether an event of process `pid` is shown when watching only `filter`
/// (every event is shown when there is no filter).
pub fn passes_filter(filter: Option<u32>, pid: u32) -> (shown: bool)
    ensures
        shown == match filter {
            None => true,
            Some(p) => p == pid,
        },
{
    match filter {
        None => true,
        Some(p) => p == pid,
    }
}

/// The selected row once the list has `n` rows: the requested one, or the
/// last row when it is past the end (row 0 when the list is empty).
pub fn clamp_selection(selected: usize, n: usize) -> (sel: usize)
    ensures
        sel == if n == 0 {
            0
        } else if selected < n {
            selected as int
        } else {
            n - 1
        },
{
    let last: usize = if n == 0 {
        0
    } else {
        n - 1
    };
    if selected < last {
        selected
    } else {
        last
    }
}

/// The keys the front end reacts to.
#[derive(Clone, Copy, Debug, PartialEq, Eq, Structural)]
pub enum Key {
    /// `q` or Escape.
    Quit,
    Down,
    Up,
    Other,
}

/// The selection after a key press, or `None` when the key ends the
/// session. Down and Up move by one row, stopping at the ends of the
/// number range; other keys change nothing.
pub fn on_key(selected: usize, key: Key) -> (next: Option<usize>)
    ensures
        next == match key {
            Key::Quit => None,
            Key::Down => Some(
                if selected == usize::MAX {
                    selected
                } else {
                    (selected + 1) as usize
                },
            ),
            Key::Up => Some(
                if selected == 0 {
                    0usize
                } else {
                    (selected - 1) as usize
                },
            ),
            Key::Other => Some(selected),
        },
{
    match key {
        Key::Quit => None,
        Key::Down => Some(selected.saturating_add(1)),
        Key::Up => Some(selected.saturating_sub(1)),
        Key::Other => Some(selected),
    }
}

/// The activity panel of a process whose window is `recent` (oldest
/// first): its newest events, newest first, at most [`ACTIVITY_LINES`].
pub fn activity_lines(recent: &Vec<Event>) -> (lines: Vec<String>)
    ensures
        lines@.len() == if recent@.len() < ACTIVITY_LINES {
            recent@.len() as int
        } else {
            ACTIVITY_LINES as int
        },
        forall|i: int|
            0 <= i < lines@.len() ==> #[trigger] lines@[i]@ == spec_format_event(
                recent@[recent@.len() - 1 - i],
            ),
{
    let n = recent.len();
    let mut lines: Vec<String> = Vec::new();
    let mut i: usize = 0;
    while i < n && i < ACTIVITY_LINES
        invariant
            n == recent@.len(),
            i <= n,
            i <= ACTIVITY_LINES,
            lines@.len() == i,
            forall|k: int|
                0 <= k < i ==> #[trigger] lines@[k]@ == spec_format_event(recent@[n - 1 - k]),
        decreases n - i,
    {
        let line = format_event(&recent[n - 1 - i]);
        lines.push(line);
        i = i + 1;
    }
    lines
}

/// The title of the activity panel, which shows the count of lost events.
pub open spec fn spec_activity_title(dropped: u64) -> Seq<char> {
    "Activity  (dropped: "@ + decimal(dropped as nat) + ")"@
}

/// Renders the title of the activity panel.
pub fn activity_title(dropped: u64) -> (s: String)
    ensures
        s@ == spec_activity_title(dropped),
{
    let mut s = String::from_str("Activity  (dropped: ");
    push_decimal(&mut s, dropped);
    s.append(")");
    s
}

/// A plain-text line starts with the event's full pid right-aligned in 7
/// columns (spaces, then digits that read back as the pid), then two
/// spaces, then the rendered event.
pub proof fn law_event_line_layout(e: Event)
    ensures
        ({
            let l = spec_event_line(e);
            let d = decimal(e.pid as nat).len();
            let k: int = if d < 7 { 7 - d } else { 0 };
            &&& l.len() == k + d + 2 + spec_format_event(e).len()
            &&& forall|i: int| 0 <= i < k ==> #[trigger] l[i] == ' '
            &&& all_digits(l.subrange(k, k + d))
            &&& digits_value(l.subrange(k, k + d)) == e.pid
            &&& l[k + d] == ' ' && l[k + d + 1] == ' '
            &&& l.subrange(k + d + 2, l.len() as int) == spec_format_event(e)
        }),
{
    reveal_strlit("  ");
    law_pad_left_decimal(e.pid as nat, 7);
    let l = spec_event_line(e);
    let p = pad_left(decimal(e.pid as nat), 7);
    let d = decimal(e.pid as nat).len();
    let k: int = if d < 7 { 7 - d } else { 0 };
    assert(l.subrange(k, k + d) =~= p.subrange(k, k + d));
    assert(l.subrange(k + d + 2, l.len() as int) =~= spec_format_event(e));
    assert forall|i: int| 0 <= i < k implies #[trigger] l[i] == ' ' by {
        assert(l[i] == p[i]);
    }
}

/// A process-list row holds the full pid right-aligned in 7 columns, two
/// spaces, the full event total right-aligned in 8 columns, and
/// ` syscalls`; both numbers' digits read back as the numbers.
pub proof fn law_process_row_layout(pid: u32, total: u64)
    ensures
        ({
            let l = spec_process_row(pid, total);
            let d = decimal(pid as nat).len();
            let k: int = if d < 7 { 7 - d } else { 0 };
            let t = decimal(total as nat).len();
            let j: int = if t < 8 { 8 - t } else { 0 };
            let a = k + d + 2;
            &&& l.len() == a + j + t + 9
            &&& digits_value(l.subrange(k, k + d)) == pid
            &&& l[k + d] == ' ' && l[k + d + 1] == ' '
            &&& forall|i: int| 0 <= i < j ==> #[trigger] l[a + i] == ' '
            &&& digits_value(l.subrange(a + j, a + j + t)) == total
            &&& l.subrange(a + j + t, l.len() as int) == seq![' ', 's', 'y', 's', 'c', 'a', 'l', 'l', 's']
        }),
{
    reveal_strlit("  ");
    reveal_strlit(" syscalls");
    law_pad_left_decimal(pid as nat, 7);
    law_pad_left_decimal(total as nat, 8);
    let l = spec_process_row(pid, total);
    let p = pad_left(decimal(pid as nat), 7);
    let q = pad_left(decimal(total as nat), 8);
    let d = decimal(pid as nat).len();
    let k: int = if d < 7 { 7 - d } else { 0 };
    let t = decimal(total as nat).len();
    let j: int = if t < 8 { 8 - t } else { 0 };
    let a = k + d + 2;
    assert(l.subrange(k, k + d) =~= p.subrange(k, k + d));
    assert(l.subrange(a + j, a + j + t) =~= q.subrange(j, j + t));
    assert(l.subrange(a + j + t, l.len() as int) =~= seq![' ', 's', 'y', 's', 'c', 'a', 'l', 'l', 's']);
    assert forall|i: int| 0 <= i < j implies #[trigger] l[a + i] == ' ' by {
        assert(l[a + i] == q[i]);
    }
}

} // verus!
