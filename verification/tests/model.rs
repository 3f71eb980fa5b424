use procscope::event::{Event, EventKind};
use procscope::model::{category, category_index, AppState, Category, Intake, RECENT_CAP};

fn ev(pid: u32, kind: EventKind) -> Event {
    Event::new(pid, kind, 0)
}

#[test]
fn categories_map_correctly() {
    assert_eq!(category(EventKind::Open), Category::File);
    assert_eq!(category(EventKind::Read), Category::File);
    assert_eq!(category(EventKind::Write), Category::File);
    assert_eq!(category(EventKind::Connect), Category::Network);
    assert_eq!(category(EventKind::Accept), Category::Network);
    assert_eq!(category(EventKind::Exec), Category::Process);
    assert_eq!(category(EventKind::Exit), Category::Process);
    assert_eq!(category(EventKind::Other), Category::Other);
}

#[test]
fn category_index_matches_declaration_order() {
    for c in [Category::File, Category::Network, Category::Process, Category::Other] {
        assert_eq!(category_index(c), c as usize);
    }
}

#[test]
fn aggregates_counts_per_pid() {
    let mut state = AppState::default();
    state.ingest(ev(10, EventKind::Open));
    state.ingest(ev(10, EventKind::Open));
    state.ingest(ev(10, EventKind::Connect));
    state.ingest(ev(20, EventKind::Write));

    let p10 = state.process(10).expect("pid 10 tracked");
    assert_eq!(p10.total, 3);
    assert_eq!(p10.by_category[Category::File as usize], 2);
    assert_eq!(p10.by_category[Category::Network as usize], 1);

    let p20 = state.process(20).expect("pid 20 tracked");
    assert_eq!(p20.total, 1);
}

#[test]
fn processes_sorted_by_rate_desc() {
    let mut state = AppState::default();
    state.ingest(ev(1, EventKind::Open));
    state.ingest(ev(2, EventKind::Open));
    state.ingest(ev(2, EventKind::Open));
    let order: Vec<u32> = state.processes_by_activity().iter().map(|p| p.pid).collect();
    assert_eq!(order, vec![2, 1]);
}

#[test]
fn keeps_bounded_recent_events_per_selected_pid() {
    let mut state = AppState::default();
    for i in 0..150u64 {
        state.ingest(Event { pid: 5, kind: EventKind::Open as u32, arg: i, ts_ns: i, ..Event::new(5, EventKind::Open, 0) });
    }
    let recent = state.recent_for(5);
    assert_eq!(recent.len(), 100, "ring capped at 100");
    assert_eq!(recent.last().unwrap().arg, 149, "newest kept");
    assert_eq!(recent.first().unwrap().arg, 50, "oldest dropped");
}

#[test]
fn counts_dropped_events() {
    let mut state = AppState::default();
    state.note_dropped(7);
    state.note_dropped(3);
    assert_eq!(state.dropped(), 10);
}

#[test]
fn ties_are_broken_by_smaller_pid() {
    let mut state = AppState::default();
    for pid in [30u32, 10, 20, 40] {
        state.ingest(ev(pid, EventKind::Read));
    }
    state.ingest(ev(40, EventKind::Read));
    let order: Vec<u32> = state.processes_by_activity().iter().map(|p| p.pid).collect();
    assert_eq!(order, vec![40, 10, 20, 30]);
}

#[test]
fn empty_state_lists_nothing() {
    let state = AppState::default();
    assert!(state.processes_by_activity().is_empty());
    assert!(state.process(1).is_none());
    assert!(state.recent_for(1).is_empty());
    assert_eq!(state.dropped(), 0);
}

#[test]
fn window_holds_newest_of_whole_history() {
    let mut state = AppState::default();
    for i in 0..(RECENT_CAP as u64 + 7) {
        state.ingest(Event::new(9, EventKind::Write, i));
        let recent = state.recent_for(9);
        let seen = i + 1;
        let expect_len = seen.min(RECENT_CAP as u64);
        assert_eq!(recent.len() as u64, expect_len);
        let args: Vec<u64> = recent.iter().map(|e| e.arg).collect();
        let want: Vec<u64> = (seen - expect_len..seen).collect();
        assert_eq!(args, want);
    }
}

#[test]
fn counts_add_up_and_other_pids_untouched() {
    let mut state = AppState::default();
    state.ingest(ev(1, EventKind::Exec));
    let before = state.process(1).unwrap().clone();
    let kinds = [EventKind::Open, EventKind::Accept, EventKind::Exit, EventKind::Other, EventKind::Write];
    for k in kinds {
        state.ingest(ev(2, k));
    }
    let p2 = state.process(2).unwrap();
    assert_eq!(p2.total, 5);
    assert_eq!(p2.by_category, [2, 1, 1, 1]);
    assert_eq!(p2.by_category.iter().sum::<u64>(), p2.total);
    let p1 = state.process(1).unwrap();
    assert_eq!(p1.total, before.total);
    assert_eq!(p1.by_category, [0, 0, 1, 0]);
    assert_eq!(p1.recent.len(), 1);
}

#[test]
fn unknown_kind_code_counts_as_other() {
    let mut state = AppState::default();
    let mut e = ev(3, EventKind::Open);
    e.kind = 1234;
    state.ingest(e);
    assert_eq!(state.process(3).unwrap().by_category[Category::Other as usize], 1);
}

#[test]
fn dropped_count_is_independent_of_ingest() {
    let mut state = AppState::default();
    state.note_dropped(4);
    state.ingest(ev(1, EventKind::Open));
    assert_eq!(state.dropped(), 4);
    state.note_dropped(0);
    assert_eq!(state.dropped(), 4);
}

fn record(e: &Event) -> Vec<u8> {
    let mut b = Vec::new();
    b.extend_from_slice(&e.pid.to_ne_bytes());
    b.extend_from_slice(&e.kind.to_ne_bytes());
    b.extend_from_slice(&e.arg.to_ne_bytes());
    b.extend_from_slice(&e.ts_ns.to_ne_bytes());
    b.extend_from_slice(&e.comm);
    b.extend_from_slice(&e.path);
    b.extend_from_slice(&e.path_len.to_ne_bytes());
    b.extend_from_slice(&e._pad.to_ne_bytes());
    b
}

#[test]
fn take_record_decodes_filters_and_ingests() {
    let mut state = AppState::default();
    let rec = record(&Event::new(11, EventKind::Connect, 9));
    assert!(matches!(state.take_record(&rec[..50], None), Intake::TooShort));
    assert!(state.process(11).is_none());
    assert_eq!(state.dropped(), 1);
    assert!(matches!(state.take_record(&[], Some(11)), Intake::TooShort));
    assert_eq!(state.dropped(), 2);
    match state.take_record(&rec, Some(12)) {
        Intake::Filtered(e) => assert_eq!(e.pid, 11),
        other => panic!("unexpected {:?}", other),
    }
    assert!(state.process(11).is_none());
    match state.take_record(&rec, Some(11)) {
        Intake::Ingested(e) => assert_eq!(e.arg, 9),
        other => panic!("unexpected {:?}", other),
    }
    match state.take_record(&rec, None) {
        Intake::Ingested(e) => assert_eq!(e.pid, 11),
        other => panic!("unexpected {:?}", other),
    }
    assert_eq!(state.dropped(), 2);
    let p = state.process(11).unwrap();
    assert_eq!(p.total, 2);
    assert_eq!(p.by_category[Category::Network as usize], 2);
}

#[test]
fn ingest_order_does_not_change_counts_or_listing() {
    let a = ev(1, EventKind::Open);
    let b = ev(2, EventKind::Exec);
    let c = ev(1, EventKind::Accept);
    let mut s1 = AppState::default();
    let mut s2 = AppState::default();
    for e in [a, b, c, b] {
        s1.ingest(e);
    }
    for e in [b, c, b, a] {
        s2.ingest(e);
    }
    for pid in [1u32, 2] {
        let p1 = s1.process(pid).unwrap();
        let p2 = s2.process(pid).unwrap();
        assert_eq!(p1.total, p2.total);
        assert_eq!(p1.by_category, p2.by_category);
    }
    let o1: Vec<u32> = s1.processes_by_activity().iter().map(|p| p.pid).collect();
    let o2: Vec<u32> = s2.processes_by_activity().iter().map(|p| p.pid).collect();
    assert_eq!(o1, o2);
    assert_eq!(o1, vec![1, 2]);
}

#[test]
fn totals_count_each_process_history() {
    let history: Vec<Event> = (0..300u32).map(|i| Event::new(i % 7, EventKind::Read, i as u64)).collect();
    let mut state = AppState::default();
    for e in &history {
        state.ingest(*e);
    }
    for pid in 0..7u32 {
        let mine: Vec<u64> = history.iter().filter(|e| e.pid == pid).map(|e| e.arg).collect();
        let p = state.process(pid).unwrap();
        assert_eq!(p.total as usize, mine.len());
        let window: Vec<u64> = state.recent_for(pid).iter().map(|e| e.arg).collect();
        let keep = mine.len().min(RECENT_CAP);
        assert_eq!(window, mine[mine.len() - keep..].to_vec());
    }
    assert!(state.process(7).is_none());
}

#[test]
fn lost_count_stops_at_max() {
    let mut state = AppState::default();
    state.note_dropped(u64::MAX - 1);
    assert!(matches!(state.take_record(&[1, 2, 3], None), Intake::TooShort));
    assert_eq!(state.dropped(), u64::MAX);
    assert!(matches!(state.take_record(&[1, 2, 3], None), Intake::TooShort));
    assert_eq!(state.dropped(), u64::MAX);
}
