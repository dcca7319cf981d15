use sable_network::id::{EpochId, EventClock, EventId, ServerId};
use sable_network::sync::eventlog::{Event, EventIdGenerator, EventLog, EventLogState};

fn id(server: u16, local: u64) -> EventId {
    EventId::new(ServerId(server), EpochId(1), local)
}

fn clock_of(ids: &[EventId]) -> EventClock {
    let mut c = EventClock::new();
    for i in ids {
        c.update_with_id(*i);
    }
    c
}

fn event(eid: EventId, deps: &[EventId], ts: i64) -> Event {
    Event { id: eid, timestamp: ts, clock: clock_of(deps), payload: vec![eid.local as u8] }
}

fn new_log() -> EventLog {
    EventLog::new(EventIdGenerator::new(ServerId(9), EpochId(1), 0))
}

fn ids_of(events: &[Event]) -> Vec<EventId> {
    events.iter().map(|e| e.id).collect()
}

#[test]
fn event_ids_order_by_server_epoch_local() {
    assert!(id(1, 1).precedes(&id(1, 2)));
    assert!(id(1, 9).precedes(&id(2, 1)));
    assert!(!id(2, 1).precedes(&id(1, 9)));
    assert!(id(1, 3).same_as(&id(1, 3)));
    assert_eq!(id(4, 1).server(), ServerId(4));
}

#[test]
fn clock_keeps_latest_per_server() {
    let mut c = EventClock::new();
    c.update_with_id(id(2, 5));
    c.update_with_id(id(1, 3));
    c.update_with_id(id(2, 7));
    assert_eq!(c.get(ServerId(2)), Some(id(2, 7)));
    assert_eq!(c.get(ServerId(1)), Some(id(1, 3)));
    assert_eq!(c.get(ServerId(3)), None);
    assert_eq!(c.len(), 2);
    assert_eq!(c.entry(0), id(1, 3));
    let smaller = clock_of(&[id(2, 6)]);
    assert!(smaller.le(&c));
    assert!(!c.le(&smaller));
}

#[test]
fn event_with_satisfied_dependencies_is_emitted() {
    let mut log = new_log();
    let out = log.add(event(id(1, 1), &[], 10));
    assert_eq!(ids_of(&out), vec![id(1, 1)]);
    assert_eq!(log.clock().get(ServerId(1)), Some(id(1, 1)));
    assert!(log.get(&id(1, 1)).is_some());
}

#[test]
fn event_waits_for_its_dependencies() {
    let mut log = new_log();
    let late = event(id(1, 2), &[id(1, 1)], 20);
    assert!(!log.has_dependencies_for(&late));
    let out = log.add(late);
    assert!(out.is_empty());
    assert!(log.get(&id(1, 2)).is_none());
    assert_eq!(ids_of(&log.pending_events()), vec![id(1, 2)]);
    assert_eq!(log.get_stats().pending_events, 1);
    let out = log.add(event(id(1, 1), &[], 10));
    assert_eq!(ids_of(&out), vec![id(1, 1), id(1, 2)]);
    assert!(log.pending_events().is_empty());
}

#[test]
fn duplicate_event_is_ignored() {
    let mut log = new_log();
    log.add(event(id(1, 1), &[], 10));
    let again = log.add(event(id(1, 1), &[], 10));
    assert!(again.is_empty());
    assert_eq!(log.all_events().len(), 1);
}

fn permutations(items: &[usize]) -> Vec<Vec<usize>> {
    if items.len() <= 1 {
        return vec![items.to_vec()];
    }
    let mut out = Vec::new();
    for i in 0..items.len() {
        let mut rest = items.to_vec();
        let first = rest.remove(i);
        for mut p in permutations(&rest) {
            p.insert(0, first);
            out.push(p);
        }
    }
    out
}

#[test]
fn event_reordering() {
    // A chain on server 1, an event of server 2 depending on its middle, and
    // one of server 3 depending on both servers.
    let specs: Vec<(EventId, Vec<EventId>)> = vec![
        (id(1, 1), vec![]),
        (id(1, 2), vec![id(1, 1)]),
        (id(2, 1), vec![id(1, 2)]),
        (id(1, 3), vec![id(1, 2)]),
        (id(3, 1), vec![id(1, 3), id(2, 1)]),
    ];
    let mut reference: Option<Vec<EventId>> = None;
    for order in permutations(&[0, 1, 2, 3, 4]) {
        let mut log = new_log();
        let mut emitted = Vec::new();
        for k in order {
            let (eid, deps) = &specs[k];
            emitted.extend(ids_of(&log.add(event(*eid, deps, 1))));
        }
        assert_eq!(emitted.len(), specs.len());
        for (eid, deps) in &specs {
            let pos = emitted.iter().position(|x| x == eid).unwrap();
            for d in deps {
                let dpos = emitted.iter().position(|x| x == d).unwrap();
                assert!(dpos < pos);
            }
        }
        let all = ids_of(&log.all_events());
        match &reference {
            None => reference = Some(all),
            Some(r) => assert_eq!(&all, r),
        }
    }
}

#[test]
fn a_run_of_additions_processes_each_event_once() {
    let specs: Vec<(EventId, Vec<EventId>)> = vec![
        (id(2, 1), vec![id(1, 2)]),
        (id(1, 2), vec![id(1, 1)]),
        (id(2, 1), vec![id(1, 2)]),
        (id(3, 1), vec![id(1, 3), id(2, 1)]),
        (id(1, 1), vec![]),
        (id(1, 1), vec![]),
        (id(1, 3), vec![id(1, 2)]),
    ];
    let mut log = new_log();
    let mut emitted: Vec<EventId> = Vec::new();
    for (eid, deps) in &specs {
        let before = log.clock().duplicate();
        let out = log.add(event(*eid, deps, 1));
        let mut clock = before;
        for e in &out {
            assert!(e.clock.le(&clock));
            clock.update_with_id(e.id);
        }
        emitted.extend(ids_of(&out));
        for p in log.pending_events() {
            assert!(!log.has_dependencies_for(&p));
            assert!(log.get(&p.id).is_none());
        }
    }
    assert_eq!(emitted, vec![id(1, 1), id(1, 2), id(2, 1), id(1, 3), id(3, 1)]);
}

#[test]
fn the_clock_keeps_the_last_event_processed_from_each_server() {
    let mut first = new_log();
    first.add(event(id(1, 5), &[], 1));
    first.add(event(id(1, 3), &[], 1));
    let mut second = new_log();
    second.add(event(id(1, 3), &[], 1));
    second.add(event(id(1, 5), &[], 1));
    assert_eq!(ids_of(&first.all_events()), ids_of(&second.all_events()));
    assert_eq!(first.clock().get(ServerId(1)), Some(id(1, 3)));
    assert_eq!(second.clock().get(ServerId(1)), Some(id(1, 5)));
}

#[test]
fn get_since_returns_events_after_the_clock() {
    let mut log = new_log();
    log.add(event(id(1, 1), &[], 1));
    log.add(event(id(1, 2), &[id(1, 1)], 2));
    log.add(event(id(2, 1), &[], 3));
    let remote = clock_of(&[id(1, 1)]);
    assert_eq!(ids_of(&log.get_since(&remote)), vec![id(1, 2), id(2, 1)]);
    assert!(log.get_since(log.clock()).is_empty());
}

#[test]
fn missing_ids_are_those_not_in_the_log() {
    let mut log = new_log();
    log.add(event(id(1, 1), &[], 1));
    let wanted = clock_of(&[id(1, 1), id(2, 4), id(3, 2)]);
    assert_eq!(log.missing_ids_for(&wanted), vec![id(2, 4), id(3, 2)]);
}

#[test]
fn pruning_removes_events_older_than_the_threshold() {
    let mut log = new_log();
    log.add(event(id(1, 1), &[], 100));
    log.add(event(id(1, 2), &[id(1, 1)], 200));
    log.add(event(id(1, 3), &[id(1, 2)], 300));
    log.prune_events_before(200);
    assert_eq!(ids_of(&log.all_events()), vec![id(1, 2), id(1, 3)]);
    assert_eq!(log.clock().get(ServerId(1)), Some(id(1, 3)));
}

#[test]
fn created_events_take_successive_ids_and_the_clock() {
    let mut log = new_log();
    log.add(event(id(1, 1), &[], 1));
    let a = log.create_at(50, vec![1, 2]);
    assert_eq!(a.id, EventId::new(ServerId(9), EpochId(1), 1));
    assert_eq!(a.timestamp, 50);
    assert_eq!(a.payload, vec![1, 2]);
    assert_eq!(a.clock.get(ServerId(1)), Some(id(1, 1)));
    let b = log.create(vec![]);
    assert_eq!(b.id, EventId::new(ServerId(9), EpochId(1), 2));
    assert!(a.id.precedes(&b.id));
}

#[test]
fn saved_log_resumes_clock_and_numbering() {
    let mut log = new_log();
    log.add(event(id(1, 1), &[], 1));
    let _ = log.create_at(5, vec![]);
    let state: EventLogState = log.save_state();
    let mut resumed = EventLog::restore(state);
    assert_eq!(resumed.clock().get(ServerId(1)), Some(id(1, 1)));
    assert!(resumed.all_events().is_empty());
    let next = resumed.create_at(6, vec![]);
    assert_eq!(next.id.local, 2);
}

#[test]
fn set_clock_replaces_the_clock() {
    let mut log = new_log();
    log.set_clock(clock_of(&[id(5, 5)]));
    assert_eq!(log.clock().get(ServerId(5)), Some(id(5, 5)));
    let out = log.add(event(id(6, 1), &[id(5, 5)], 1));
    assert_eq!(ids_of(&out), vec![id(6, 1)]);
}
