use myth_loader::channel::DeliveryError;
use myth_loader::monitor::{
    group_events, placeable, process_block, BlockEntry, BlockError, BlockReport, EventDetails,
    ExtrinsicDetails, ExtrinsicTracker, Monitor, Notice, Phase, RootEvent, Verdict,
};
use myth_loader::substrate::H256;

fn hash(n: u128) -> H256 {
    H256 { hi: n, lo: n + 1 }
}

fn event(index: u32, root: Option<RootEvent>, byte: u8) -> EventDetails {
    in_phase(Phase::ApplyExtrinsic(index), root, byte)
}

fn in_phase(phase: Phase, root: Option<RootEvent>, byte: u8) -> EventDetails {
    let (pallet, variant) = match root {
        Some(RootEvent::ExtrinsicSuccess) => ("System", "ExtrinsicSuccess"),
        Some(RootEvent::ExtrinsicFailed) => ("System", "ExtrinsicFailed"),
        Some(RootEvent::Other) | None => ("Balances", "Transfer"),
    };
    EventDetails {
        phase,
        index: 100 + byte as u32,
        pallet_name: pallet.to_string(),
        variant_name: variant.to_string(),
        root,
        bytes: vec![byte],
        topics: vec![hash(byte as u128)],
    }
}

fn success(index: u32) -> EventDetails {
    event(index, Some(RootEvent::ExtrinsicSuccess), 1)
}

fn failure(index: u32) -> EventDetails {
    event(index, Some(RootEvent::ExtrinsicFailed), 2)
}

fn other(index: u32, byte: u8) -> EventDetails {
    event(index, Some(RootEvent::Other), byte)
}

fn extrinsics(count: u32) -> Vec<ExtrinsicDetails> {
    (0..count).map(|index| ExtrinsicDetails { index, hash: hash(index as u128) }).collect()
}

fn entry(n: u32, last: EventDetails) -> BlockEntry {
    BlockEntry {
        extrinsic: ExtrinsicDetails { index: n, hash: hash(n as u128) },
        events: vec![other(n, 7), last],
    }
}

fn take(
    monitor: &mut Monitor,
    extrinsics: Vec<ExtrinsicDetails>,
    events: Vec<EventDetails>,
) -> Result<BlockReport, BlockError> {
    assert!(monitor.accepts(&extrinsics, &events));
    monitor.monitor(extrinsics, events)
}

fn notices(result: Result<BlockReport, BlockError>) -> Vec<Notice> {
    match result {
        Ok(report) => report.notices,
        Err(_) => panic!("failed"),
    }
}

fn bytes(events: &[EventDetails]) -> Vec<u8> {
    events.iter().map(|event| event.bytes[0]).collect()
}

#[test]
fn success_is_told() {
    let mut monitor = Monitor::new();
    let rx = monitor.tracker.track(hash(1));
    let events = vec![success(0), other(1, 7), other(1, 8), success(1)];
    let told = notices(take(&mut monitor, extrinsics(2), events));
    assert_eq!(told.len(), 1);
    assert_eq!(told[0].extrinsic.index, 1);
    assert_eq!(told[0].extrinsic.hash, hash(1));
    assert!(told[0].success);
    assert!(told[0].delivery.is_ok());
    let (succeeded, events) = rx.try_recv().unwrap();
    assert!(succeeded);
    assert_eq!(bytes(&events), vec![7, 8, 1]);
    assert!(rx.is_disconnected());
}

#[test]
fn failure_is_told() {
    let mut monitor = Monitor::new();
    let rx = monitor.tracker.track(hash(0));
    let told = notices(take(&mut monitor, extrinsics(1), vec![failure(0)]));
    assert_eq!(told.len(), 1);
    assert!(!told[0].success);
    let (succeeded, events) = rx.try_recv().unwrap();
    assert!(!succeeded);
    assert_eq!(bytes(&events), vec![2]);
}

#[test]
fn others_keep_waiting() {
    let mut monitor = Monitor::new();
    let rx = monitor.tracker.track(hash(5));
    let told = notices(take(&mut monitor, extrinsics(2), vec![success(0), success(1)]));
    assert!(told.is_empty());
    assert!(rx.try_recv().is_err());
    assert!(!rx.is_disconnected());
    let told = notices(take(
        &mut monitor,
        vec![ExtrinsicDetails { index: 0, hash: hash(5) }],
        vec![success(0)],
    ));
    assert_eq!(told.len(), 1);
    assert!(rx.try_recv().is_ok());
}

#[test]
fn nothing_is_told_twice() {
    let mut monitor = Monitor::new();
    let rx = monitor.tracker.track(hash(0));
    assert_eq!(notices(take(&mut monitor, extrinsics(1), vec![success(0)])).len(), 1);
    assert!(notices(take(&mut monitor, extrinsics(1), vec![success(0)])).is_empty());
    assert!(rx.try_recv().is_ok());
    assert!(rx.try_recv().is_err());
}

#[test]
fn tracking_again_replaces_the_channel() {
    let mut monitor = Monitor::new();
    let first = monitor.tracker.track(hash(0));
    let second = monitor.tracker.track(hash(0));
    assert!(first.is_disconnected());
    notices(take(&mut monitor, extrinsics(1), vec![success(0)]));
    assert!(first.try_recv().is_err());
    assert!(second.try_recv().is_ok());
}

#[test]
fn hashes_with_equal_halves_are_told_apart() {
    let mut monitor = Monitor::new();
    let a = monitor.tracker.track(H256 { hi: 1, lo: 1 });
    let b = monitor.tracker.track(H256 { hi: 1, lo: 2 });
    let c = monitor.tracker.track(H256 { hi: 2, lo: 1 });
    let block = vec![ExtrinsicDetails { index: 0, hash: H256 { hi: 1, lo: 2 } }];
    notices(take(&mut monitor, block, vec![success(0)]));
    assert!(a.try_recv().is_err() && !a.is_disconnected());
    assert!(b.try_recv().is_ok());
    assert!(c.try_recv().is_err() && !c.is_disconnected());
}

#[test]
fn payload_comes_back_where_nobody_receives() {
    let mut monitor = Monitor::new();
    let rx = monitor.tracker.track(hash(0));
    std::mem::drop(rx);
    let told = notices(take(&mut monitor, extrinsics(1), vec![other(0, 9), failure(0)]));
    match &told[0].delivery {
        Err(DeliveryError::Disconnected((succeeded, events))) => {
            assert!(!succeeded);
            assert_eq!(bytes(events), vec![9, 2]);
        }
        _ => panic!("delivered"),
    }
}

#[test]
fn channel_holds_one_payload() {
    let mut tracker = ExtrinsicTracker::default();
    let rx = tracker.track(hash(0));
    let mut second = entry(0, failure(0));
    second.extrinsic.index = 1;
    let entries = vec![entry(0, success(0)), second];
    assert!(tracker.accepts(&entries));
    let told = notices(process_block(entries, &mut tracker));
    assert_eq!(told.len(), 2);
    assert!(told[0].delivery.is_ok());
    assert!(matches!(&told[1].delivery, Err(DeliveryError::Full((false, _)))));
    assert!(rx.try_recv().unwrap().0);
}

#[test]
fn undecodable_event_fails_the_block() {
    let mut monitor = Monitor::new();
    let first = monitor.tracker.track(hash(0));
    let second = monitor.tracker.track(hash(1));
    let third = monitor.tracker.track(hash(2));
    let events = vec![success(0), event(1, None, 5), success(2)];
    match take(&mut monitor, extrinsics(3), events) {
        Err(error) => {
            assert_eq!(error.extrinsic.index, 1);
            assert_eq!(error.extrinsic.hash, hash(1));
            assert_eq!(error.notices.len(), 1);
            assert_eq!(error.notices[0].extrinsic.index, 0);
        }
        Ok(_) => panic!("no error"),
    }
    assert!(first.try_recv().is_ok());
    for rx in [first, second, third] {
        assert!(rx.try_recv().is_err());
        assert!(!rx.is_disconnected());
    }
}

#[test]
fn undecodable_event_of_others_does_no_harm() {
    let mut monitor = Monitor::new();
    let rx = monitor.tracker.track(hash(0));
    let events = vec![success(0), event(1, None, 5), other(2, 6)];
    assert_eq!(notices(take(&mut monitor, extrinsics(3), events)).len(), 1);
    assert!(rx.try_recv().is_ok());
}

#[test]
fn notices_come_in_order() {
    let mut tracker = ExtrinsicTracker::default();
    let mut entries = vec![];
    let mut receivers = vec![];
    for n in 0..500 {
        if n % 3 != 0 {
            receivers.push((n, tracker.track(hash(n as u128))));
        }
        entries.push(entry(n, if n % 2 == 0 { success(n) } else { failure(n) }));
    }
    assert!(tracker.accepts(&entries));
    let told = notices(process_block(entries, &mut tracker));
    assert_eq!(told.len(), receivers.len());
    for (notice, (n, rx)) in told.iter().zip(&receivers) {
        assert_eq!(notice.extrinsic.index, *n);
        assert_eq!(notice.success, n % 2 == 0);
        assert_eq!(rx.try_recv().unwrap().0, n % 2 == 0);
    }
}

#[test]
fn verdicts() {
    let mut tracker = ExtrinsicTracker::default();
    let _rx = tracker.track(hash(0));
    assert_eq!(tracker.examine(&entry(0, success(0))), Verdict::Succeeded);
    assert_eq!(tracker.examine(&entry(0, failure(0))), Verdict::Failed);
    assert_eq!(tracker.examine(&entry(0, event(0, None, 1))), Verdict::Undecodable);
    assert_eq!(tracker.examine(&entry(1, success(1))), Verdict::Untracked);
}

#[test]
fn events_come_to_their_extrinsics() {
    let mut events = vec![];
    events.push(in_phase(Phase::Initialization, Some(RootEvent::Other), 0));
    events.push(other(1, 10));
    events.push(other(0, 11));
    events.push(success(1));
    events.push(in_phase(Phase::Finalization, Some(RootEvent::Other), 0));
    events.push(failure(0));
    assert!(placeable(&extrinsics(3), &events));
    let entries = group_events(extrinsics(3), events);
    assert_eq!(entries.len(), 3);
    assert_eq!(bytes(&entries[0].events), vec![11, 2]);
    assert_eq!(bytes(&entries[1].events), vec![10, 1]);
    assert!(entries[2].events.is_empty());
    for (i, entry) in entries.iter().enumerate() {
        assert_eq!(entry.extrinsic.index, i as u32);
    }
}

#[test]
fn impossible_blocks_are_refused() {
    let mut monitor = Monitor::new();
    let _rx = monitor.tracker.track(hash(0));
    assert!(monitor.accepts(&extrinsics(1), &vec![success(0)]));
    assert!(monitor.accepts(&vec![], &vec![]));
    assert!(!monitor.accepts(&extrinsics(1), &vec![]));
    assert!(!monitor.accepts(&extrinsics(1), &vec![success(0), success(1)]));
    assert!(!monitor.accepts(&extrinsics(1), &vec![success(0), other(0, 1)]));
    assert!(monitor.accepts(&extrinsics(2), &vec![success(0), other(1, 1)]));
    let misplaced = vec![ExtrinsicDetails { index: 1, hash: hash(0) }];
    assert!(!placeable(&misplaced, &vec![success(0)]));
    let mut tracker = ExtrinsicTracker::default();
    assert!(tracker.accepts(&vec![entry(0, other(0, 1))]));
    let _rx = tracker.track(hash(0));
    assert!(!tracker.accepts(&vec![entry(0, other(0, 1))]));
}

#[test]
fn every_receiver_is_accounted_for() {
    let repeated = |n: u128| {
        let half = n * 0x0101_0101_0101_0101_0101_0101_0101_0101;
        H256 { hi: half, lo: half }
    };
    let mut tracker = ExtrinsicTracker::default();
    let r1 = tracker.track(repeated(1));
    let r2 = tracker.track(repeated(2));
    let r3 = tracker.track(repeated(3));
    for rx in [&r1, &r2, &r3] {
        assert_eq!(rx.capacity(), Some(1));
        assert!(rx.is_empty());
    }
    let block = |index: u32, n: u128, events: Vec<EventDetails>| BlockEntry {
        extrinsic: ExtrinsicDetails { index, hash: repeated(n) },
        events,
    };
    let entries = vec![
        block(0, 1, vec![other(0, 7), success(0)]),
        block(1, 2, vec![failure(1)]),
        block(2, 4, vec![success(2)]),
    ];
    assert!(tracker.accepts(&entries));
    let report = match process_block(entries, &mut tracker) {
        Ok(report) => report,
        Err(_) => panic!("failed"),
    };
    assert_eq!(report.notices.len(), 2);
    assert_eq!(report.done.len(), 2);
    assert_eq!((r1.len(), r2.len(), r3.len()), (1, 1, 0));
    let (succeeded, events) = r1.try_recv().unwrap();
    assert!(succeeded);
    assert_eq!(bytes(&events), vec![7, 1]);
    let (succeeded, events) = r2.try_recv().unwrap();
    assert!(!succeeded);
    assert_eq!(bytes(&events), vec![2]);
    assert!(r1.is_disconnected() && r2.is_disconnected());
    assert!(r3.is_empty() && !r3.is_disconnected());
}

#[test]
fn events_are_handed_out_whole() {
    let mut monitor = Monitor::new();
    let rx = monitor.tracker.track(hash(0));
    notices(take(&mut monitor, extrinsics(1), vec![other(0, 7), success(0)]));
    let (_, events) = rx.try_recv().unwrap();
    assert_eq!(events[0].index, 107);
    assert_eq!(events[0].pallet_name, "Balances");
    assert_eq!(events[0].variant_name, "Transfer");
    assert_eq!(events[0].topics, vec![hash(7)]);
    assert_eq!(events[1].index, 101);
    assert_eq!(events[1].pallet_name, "System");
    assert_eq!(events[1].root, Some(RootEvent::ExtrinsicSuccess));
}

#[test]
fn receivers_are_disconnected_at_once() {
    let mut monitor = Monitor::new();
    let rx = monitor.tracker.track(hash(0));
    let waiting = monitor.tracker.track(hash(5));
    let report = match take(&mut monitor, extrinsics(1), vec![success(0)]) {
        Ok(report) => report,
        Err(_) => panic!("failed"),
    };
    assert!(rx.is_disconnected());
    assert!(!waiting.is_disconnected());
    assert_eq!(report.done.len(), 1);
    assert_eq!(report.done[0].hash, hash(0));
    assert!(rx.try_recv().is_ok());
    assert_eq!(monitor.tracker.examine(&entry(0, success(0))), Verdict::Untracked);
}

#[test]
fn hash_that_occurs_twice_is_done_once() {
    let mut tracker = ExtrinsicTracker::default();
    let rx = tracker.track(hash(0));
    let mut second = entry(0, success(0));
    second.extrinsic.index = 1;
    let entries = vec![entry(0, success(0)), second];
    assert!(tracker.accepts(&entries));
    let report = match process_block(entries, &mut tracker) {
        Ok(report) => report,
        Err(_) => panic!("failed"),
    };
    assert_eq!(report.notices.len(), 2);
    assert_eq!(report.done.len(), 1);
    assert!(rx.is_disconnected());
}

#[test]
fn hash_that_comes_again_is_not_told() {
    let mut monitor = Monitor::new();
    let rx = monitor.tracker.track(hash(0));
    notices(take(&mut monitor, extrinsics(1), vec![success(0)]));
    let later = vec![
        ExtrinsicDetails { index: 0, hash: hash(9) },
        ExtrinsicDetails { index: 1, hash: hash(0) },
    ];
    assert!(notices(take(&mut monitor, later, vec![success(0), failure(1)])).is_empty());
    assert!(rx.is_disconnected());
    assert!(rx.try_recv().unwrap().0);
    assert!(rx.is_empty());
}

#[test]
fn hash_of_an_extrinsic() {
    let extrinsic = ExtrinsicDetails::from_bytes(4, b"");
    assert_eq!(extrinsic.index, 4);
    assert_eq!(
        extrinsic.hash,
        H256 {
            hi: 0x0e57_51c0_26e5_43b2_e8ab_2eb0_6099_daa1,
            lo: 0xd1e5_df47_778f_7787_faab_45cd_f12f_e3a8,
        }
    );
    assert_ne!(ExtrinsicDetails::from_bytes(4, b"x").hash, extrinsic.hash);
}
