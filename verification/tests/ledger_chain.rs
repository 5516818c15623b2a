use rampage::ledger::{calculate_hash, verify_chain, Ledger, LedgerError, GENESIS_HASH, MAX_PAGE};

const T0: i64 = 1_700_000_000_000_000_000;

#[test]
fn appends_and_verifies_chain() {
    let mut ledger = Ledger::in_memory().unwrap();
    let first = ledger.append("job.proposed", "job-1", "{\"a\":1}", T0).unwrap();
    let second = ledger.append("job.admitted", "job-1", "{\"node\":\"n1\"}", T0 + 1).unwrap();
    assert_eq!(first.sequence, 1);
    assert_eq!(first.previous_hash, GENESIS_HASH);
    assert_eq!(second.previous_hash, first.event_hash);
    assert_eq!(ledger.verify().unwrap(), 2);
}

#[test]
fn verification_crosses_the_query_page_boundary() {
    let mut ledger = Ledger::in_memory().unwrap();
    for index in 0..10_005i64 {
        ledger.append("page.test", "subject", &index.to_string(), T0 + index).unwrap();
    }
    assert_eq!(ledger.verify().unwrap(), 10_005);
    assert_eq!(ledger.events(0, 20_000).unwrap().len(), MAX_PAGE as usize);
    assert_eq!(ledger.events(10_000, 100).unwrap().len(), 5);
}

#[test]
fn fencing_epochs_advance_one_at_a_time_and_are_chained() {
    let mut ledger = Ledger::in_memory().unwrap();
    assert_eq!(ledger.current_fencing_epoch("controller").unwrap(), 0);
    assert_eq!(ledger.advance_fencing_epoch("controller", T0).unwrap(), 1);
    assert_eq!(ledger.advance_fencing_epoch("controller", T0 + 1).unwrap(), 2);
    assert_eq!(ledger.current_fencing_epoch("controller").unwrap(), 2);
    assert_eq!(ledger.current_fencing_epoch("other").unwrap(), 0);
    assert_eq!(ledger.verify().unwrap(), 2);
}

#[test]
fn queries_page_in_order_and_filter_by_subject() {
    let mut ledger = Ledger::in_memory().unwrap();
    ledger.append("a", "one", "1", T0).unwrap();
    ledger.append("b", "two", "2", T0 + 1).unwrap();
    ledger.append("c", "one", "3", T0 + 2).unwrap();
    let after_first = ledger.events(1, 10).unwrap();
    assert_eq!(after_first.iter().map(|e| e.sequence).collect::<Vec<_>>(), vec![2, 3]);
    let about_one = ledger.events_for_subject("one", 10).unwrap();
    assert_eq!(about_one.iter().map(|e| e.payload_json.as_str()).collect::<Vec<_>>(), vec!["1", "3"]);
}

#[test]
fn tampered_events_fail_verification() {
    let mut ledger = Ledger::in_memory().unwrap();
    ledger.append("a", "one", "1", T0).unwrap();
    ledger.append("b", "one", "2", T0 + 1).unwrap();
    let mut events = ledger.events(0, 10).unwrap();
    assert_eq!(verify_chain(&events), Ok(2));
    events[1].payload_json = "3".into();
    assert_eq!(verify_chain(&events), Err(LedgerError::HashMismatch { sequence: 2 }));
    let mut events = ledger.events(0, 10).unwrap();
    events[1].previous_hash = "elsewhere".into();
    assert!(matches!(verify_chain(&events), Err(LedgerError::BrokenLink { sequence: 2, .. })));
}

#[test]
fn event_hash_covers_every_field() {
    let base = calculate_hash(1, T0, "a", "s", "{}", GENESIS_HASH);
    assert_eq!(base.len(), 64);
    assert_ne!(base, calculate_hash(2, T0, "a", "s", "{}", GENESIS_HASH));
    assert_ne!(base, calculate_hash(1, T0 + 1, "a", "s", "{}", GENESIS_HASH));
    assert_ne!(base, calculate_hash(1, T0, "b", "s", "{}", GENESIS_HASH));
    assert_ne!(base, calculate_hash(1, T0, "a", "t", "{}", GENESIS_HASH));
    assert_ne!(base, calculate_hash(1, T0, "a", "s", "[]", GENESIS_HASH));
    assert_ne!(base, calculate_hash(1, T0, "a", "s", "{}", "other"));
}

#[test]
fn appended_events_verify_as_one_chain_from_genesis() {
    let mut ledger = Ledger::in_memory().unwrap();
    let mut previous = GENESIS_HASH.to_string();
    for n in 1..=5u64 {
        let event = ledger.append("job.proposed", "job-n", "{}", T0 + n as i64).unwrap();
        assert_eq!(event.sequence, n);
        assert_eq!(event.previous_hash, previous);
        previous = event.event_hash.clone();
    }
    assert_eq!(ledger.verify().unwrap(), 5);
}

#[test]
fn advancing_an_epoch_raises_it_by_one_with_one_chained_event() {
    let mut ledger = Ledger::in_memory().unwrap();
    ledger.append("job.proposed", "job-1", "{}", T0).unwrap();
    assert_eq!(ledger.advance_fencing_epoch("storage:alpha", T0 + 1).unwrap(), 1);
    assert_eq!(ledger.advance_fencing_epoch("storage:alpha", T0 + 2).unwrap(), 2);
    assert_eq!(ledger.current_fencing_epoch("storage:alpha").unwrap(), 2);
    assert_eq!(ledger.current_fencing_epoch("storage:beta").unwrap(), 0);
    let events = ledger.events(0, 10).unwrap();
    assert_eq!(events.len(), 3);
    assert_eq!(events[2].event_type, "authority.epoch.advanced");
    assert_eq!(events[2].payload_json, "{\"fencing_epoch\":2}");
    assert_eq!(events[2].previous_hash, events[1].event_hash);
    assert_eq!(ledger.verify().unwrap(), 3);
}
