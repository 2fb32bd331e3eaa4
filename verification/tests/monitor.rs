use std::cell::RefCell;
use std::collections::VecDeque;
use std::rc::Rc;

use agentx_ifstack::error::{other, Error};
use agentx_ifstack::link::ObservedLink;
use agentx_ifstack::mib::Mib;
use agentx_ifstack::monitor::{
    cycle, next_delay, publication, Acquisition, AcquisitionError, Attempt, EventBatch, Failure,
    Inventory, State, TableChange, TableReader, Task, WaitOutcome,
};
use agentx_ifstack::time::Span;

type Reader = Rc<RefCell<TableReader>>;

fn shared() -> Reader {
    Rc::new(RefCell::new(publication()))
}

fn run(source: &mut Controlled, reader: &Reader, reconcile: Span) {
    let mut state = State::new(reconcile);
    loop {
        let end = cycle(&mut state, source);
        reader.borrow_mut().apply(end.change);
        if end.stop {
            return;
        }
    }
}

enum InventoryStep {
    Complete {
        links: Vec<ObservedLink>,
        elapsed: Span,
        events: EventBatch,
        stale: bool,
    },
    Ordinary,
    Lost,
    OrdinaryWithEvents(EventBatch),
    LostWithEvents(EventBatch),
}

enum WaitStep {
    Change,
    Loss,
    Stop,
}

struct Controlled {
    now: Span,
    subscriptions: VecDeque<bool>,
    inventories: VecDeque<InventoryStep>,
    waits: VecDeque<(Span, WaitStep)>,
    subscription_times: Vec<Span>,
    acquisition_times: Vec<Span>,
    availability_while_waiting: Vec<bool>,
    reader: Reader,
}

impl Controlled {
    fn new(reader: Reader) -> Self {
        Self {
            now: Span::zero(),
            subscriptions: VecDeque::from([true]),
            inventories: VecDeque::new(),
            waits: VecDeque::new(),
            subscription_times: Vec::new(),
            acquisition_times: Vec::new(),
            availability_while_waiting: Vec::new(),
            reader,
        }
    }

    fn complete(index: u32) -> InventoryStep {
        InventoryStep::Complete {
            links: vec![ObservedLink::plain(index, &format!("link{index}"))],
            elapsed: Span::zero(),
            events: EventBatch::default(),
            stale: false,
        }
    }
}

impl Acquisition for Controlled {
    fn now(&self) -> Span {
        self.now
    }

    fn subscribe(&mut self) -> Result<(), Error> {
        self.subscription_times.push(self.now);
        if self.subscriptions.pop_front().unwrap_or(true) {
            Ok(())
        } else {
            Err(other("scripted subscription failure".to_owned()))
        }
    }

    fn inventory(
        &mut self,
        attempt: Attempt,
    ) -> Result<Inventory, AcquisitionError> {
        self.acquisition_times.push(self.now);
        match self
            .inventories
            .pop_front()
            .unwrap_or_else(|| Controlled::complete(1))
        {
            InventoryStep::Complete {
                links,
                elapsed,
                events,
                stale,
            } => {
                self.now = self.now.saturating_add(elapsed);
                Ok(Inventory {
                    attempt: if stale {
                        Attempt {
                            continuity: attempt.continuity.saturating_sub(1),
                        }
                    } else {
                        attempt
                    },
                    links,
                    events,
                })
            }
            InventoryStep::Ordinary => Err(AcquisitionError::Ordinary {
                error: other("scripted inventory failure".to_owned()),
                events: EventBatch::default(),
            }),
            InventoryStep::Lost => Err(AcquisitionError::Lost {
                error: other("scripted continuity loss".to_owned()),
                events: EventBatch::default(),
            }),
            InventoryStep::OrdinaryWithEvents(events) => Err(AcquisitionError::Ordinary {
                error: other("scripted inventory failure with events".to_owned()),
                events,
            }),
            InventoryStep::LostWithEvents(events) => Err(AcquisitionError::Lost {
                error: other("scripted continuity loss with events".to_owned()),
                events,
            }),
        }
    }

    fn wait(&mut self, timeout: Span) -> Result<WaitOutcome, Error> {
        self.availability_while_waiting
            .push(self.reader.borrow().snapshot().is_some());
        let deadline = self.now.saturating_add(timeout);
        let Some((at, _)) = self.waits.front() else {
            return Ok(WaitOutcome::Shutdown);
        };
        if *at > deadline {
            self.now = deadline;
            return Ok(WaitOutcome::Deadline);
        }
        let (at, step) = self.waits.pop_front().expect("front checked");
        self.now = at.max(self.now);
        match step {
            WaitStep::Change => Ok(WaitOutcome::LinkChanged(at)),
            WaitStep::Loss => Err(other("scripted notification loss".to_owned())),
            WaitStep::Stop => Ok(WaitOutcome::Shutdown),
        }
    }
}

#[test]
fn startup_publishes_and_reads_do_not_request_acquisition() {
    let reader = shared();
    let mut source = Controlled::new(reader.clone());
    source.inventories.push_back(Controlled::complete(2));

    run(&mut source, &reader, Span::from_secs(3600));

    assert!(reader.borrow().snapshot().is_some());
    for _ in 0..20 {
        assert!(reader.borrow().snapshot().is_some());
    }
    assert_eq!(source.acquisition_times, [Span::zero()]);
}

#[test]
fn published_table_remains_available_while_an_event_update_is_pending() {
    let reader = shared();
    let mut source = Controlled::new(reader.clone());
    source.inventories.push_back(Controlled::complete(1));
    source.waits.extend([
        (Span::from_secs(10), WaitStep::Change),
        (Span::from_millis(10_500), WaitStep::Stop),
    ]);

    run(&mut source, &reader, Span::from_secs(3600));

    assert_eq!(source.acquisition_times, [Span::zero()]);
    assert!(reader.borrow().snapshot().is_some());
    assert_eq!(source.availability_while_waiting.last(), Some(&true));
}

#[test]
fn event_backoff_is_exact_and_later_events_do_not_postpone() {
    let reader = shared();
    let mut source = Controlled::new(reader.clone());
    source
        .inventories
        .extend((0..8).map(|_| Controlled::complete(1)));
    source.waits.extend([
        (Span::from_secs(10), WaitStep::Change),
        (Span::from_secs(12), WaitStep::Change),
        (Span::from_secs(15), WaitStep::Change),
        (Span::from_secs(16), WaitStep::Change),
        (Span::from_secs(20), WaitStep::Change),
        (Span::from_secs(29), WaitStep::Change),
        (Span::from_secs(46), WaitStep::Change),
        (Span::from_secs(77), WaitStep::Change),
        (Span::from_secs(108), WaitStep::Stop),
    ]);

    run(&mut source, &reader, Span::from_secs(3600));

    assert_eq!(
        source.acquisition_times,
        [0, 11, 14, 19, 28, 45, 76, 107].map(Span::from_secs)
    );
}

#[test]
fn event_backoff_resets_only_after_sixty_quiet_seconds() {
    let reader = shared();
    let mut source = Controlled::new(reader.clone());
    source
        .inventories
        .extend((0..4).map(|_| Controlled::complete(1)));
    source.waits.extend([
        (Span::from_secs(10), WaitStep::Change),
        (Span::from_secs(69), WaitStep::Change),
        (Span::from_secs(70), WaitStep::Change),
        (Span::from_secs(131), WaitStep::Change),
        (Span::from_secs(133), WaitStep::Stop),
    ]);

    run(&mut source, &reader, Span::from_secs(3600));

    assert_eq!(
        source.acquisition_times,
        [0, 11, 71, 132].map(Span::from_secs)
    );
}

#[test]
fn failure_backoff_is_exact_and_success_resets_it() {
    let reader = shared();
    let mut source = Controlled::new(reader.clone());
    source
        .inventories
        .extend((0..7).map(|_| InventoryStep::Ordinary));
    source.inventories.push_back(Controlled::complete(1));
    source
        .waits
        .push_back((Span::from_secs(92), WaitStep::Change));
    source.inventories.push_back(InventoryStep::Ordinary);
    source.inventories.push_back(Controlled::complete(1));
    source
        .waits
        .push_back((Span::from_secs(95), WaitStep::Stop));

    run(&mut source, &reader, Span::from_secs(3600));

    assert_eq!(
        source.acquisition_times,
        [0, 1, 3, 7, 15, 31, 61, 91, 93, 94].map(Span::from_secs)
    );
}

#[test]
fn failed_subscription_retries_without_starting_an_inventory() {
    let reader = shared();
    let mut source = Controlled::new(reader.clone());
    source.subscriptions = VecDeque::from([false, false, true]);
    source.inventories.push_back(Controlled::complete(1));
    source
        .waits
        .push_back((Span::from_secs(4), WaitStep::Stop));

    run(&mut source, &reader, Span::from_secs(3600));

    assert_eq!(
        source.subscription_times,
        [0, 1, 3].map(Span::from_secs)
    );
    assert_eq!(source.acquisition_times, [Span::from_secs(3)]);
}

#[test]
fn events_and_reconciliation_do_not_bypass_failure_not_before() {
    let reader = shared();
    let mut source = Controlled::new(reader.clone());
    source.inventories.extend([
        Controlled::complete(1),
        InventoryStep::Ordinary,
        Controlled::complete(2),
        Controlled::complete(3),
    ]);
    source.waits.extend([
        (Span::from_secs(10), WaitStep::Change),
        (Span::from_millis(11_500), WaitStep::Change),
        (Span::from_secs(25), WaitStep::Stop),
    ]);

    run(&mut source, &reader, Span::from_secs(11));

    assert_eq!(
        source.acquisition_times,
        [0, 11, 12, 23].map(Span::from_secs)
    );
}

#[test]
fn ordinary_failure_preserves_the_table_but_loss_removes_it_until_recovery() {
    let reader = shared();
    let mut source = Controlled::new(reader.clone());
    source.inventories.extend([
        Controlled::complete(1),
        InventoryStep::Ordinary,
        Controlled::complete(2),
        InventoryStep::Lost,
        Controlled::complete(3),
    ]);
    source.waits.extend([
        (Span::from_secs(10), WaitStep::Change),
        (Span::from_secs(20), WaitStep::Change),
        (Span::from_secs(30), WaitStep::Stop),
    ]);

    run(&mut source, &reader, Span::from_secs(3600));

    assert!(
        source
            .availability_while_waiting
            .windows(2)
            .any(|values| values == [true, false])
    );
    assert!(reader.borrow().snapshot().is_some());
}

#[test]
fn notifications_during_inventory_publish_and_remain_pending() {
    let reader = shared();
    let mut source = Controlled::new(reader.clone());
    source.inventories.extend([
        InventoryStep::Complete {
            links: vec![ObservedLink::plain(1, "first")],
            elapsed: Span::from_millis(600),
            events: EventBatch::one(Span::from_millis(500)),
            stale: false,
        },
        Controlled::complete(2),
    ]);
    source
        .waits
        .push_back((Span::from_secs(2), WaitStep::Stop));

    run(&mut source, &reader, Span::from_secs(3600));

    assert_eq!(
        source.acquisition_times,
        [Span::zero(), Span::from_millis(1500)]
    );
    assert!(reader.borrow().snapshot().is_some());
}

#[test]
fn failed_inventories_retain_event_backoff_across_retry_and_recovery() {
    for lost in [false, true] {
        let reader = shared();
        let mut source = Controlled::new(reader.clone());
        let failed = if lost {
            InventoryStep::LostWithEvents(EventBatch::one(Span::from_secs(11)))
        } else {
            InventoryStep::OrdinaryWithEvents(EventBatch::one(Span::from_secs(11)))
        };
        source.inventories.extend([
            Controlled::complete(1),
            failed,
            Controlled::complete(2),
            Controlled::complete(3),
        ]);
        source.waits.extend([
            (Span::from_secs(10), WaitStep::Change),
            (Span::from_secs(70), WaitStep::Change),
            (Span::from_secs(75), WaitStep::Stop),
        ]);

        run(&mut source, &reader, Span::from_secs(3600));

        assert_eq!(
            source.acquisition_times,
            [0, 11, 12, 74].map(Span::from_secs),
            "lost={lost}"
        );
        assert_eq!(
            source.subscription_times,
            if lost {
                vec![Span::zero(), Span::from_secs(12)]
            } else {
                vec![Span::zero()]
            }
        );
    }
}

#[test]
fn stale_post_loss_completion_cannot_restore_availability() {
    let reader = shared();
    let mut source = Controlled::new(reader.clone());
    source.inventories.extend([
        Controlled::complete(1),
        InventoryStep::Complete {
            links: vec![ObservedLink::plain(2, "stale")],
            elapsed: Span::zero(),
            events: EventBatch::default(),
            stale: true,
        },
        Controlled::complete(3),
    ]);
    source.waits.extend([
        (Span::from_secs(10), WaitStep::Loss),
        (Span::from_secs(14), WaitStep::Stop),
    ]);

    run(&mut source, &reader, Span::from_secs(3600));

    assert_eq!(
        source.acquisition_times,
        [0, 11, 13].map(Span::from_secs)
    );
    assert!(source.availability_while_waiting.contains(&false));
    assert!(reader.borrow().snapshot().is_some());
}

fn secs(secs: u64) -> Span {
    Span::from_secs(secs)
}

#[test]
fn delays_double_and_stop_at_half_a_minute() {
    let mut delay = secs(1);
    let mut delays = Vec::new();
    for _ in 0..7 {
        delays.push(delay);
        delay = next_delay(delay);
    }
    assert_eq!(delays, [1, 2, 4, 8, 16, 30, 30].map(Span::from_secs));
}

#[test]
fn a_failure_puts_off_everything_until_its_delay_is_over() {
    let mut state = State::new(secs(3600));
    state.subscribe();
    state.fail(secs(10));
    state.record_event(secs(10));
    assert!(!state.retry_ready(Span::from_millis(10_999)));
    assert!(!state.acquisition_ready(Span::from_millis(10_999)));
    assert!(state.acquisition_ready(secs(11)));
    assert_eq!(state.next_deadline(secs(10)), secs(11));
    assert_eq!(state.failure_delay, secs(2));
}

#[test]
fn the_next_deadline_is_the_first_of_a_change_and_of_the_age_of_the_inventory() {
    let mut state = State::new(secs(100));
    assert_eq!(state.next_deadline(secs(7)), secs(7));
    state.subscribe();
    assert_eq!(
        state.next_task(secs(7)),
        Task::Acquire(Attempt { continuity: 0 })
    );
    let inventory = Inventory {
        attempt: Attempt { continuity: 0 },
        links: vec![ObservedLink::plain(1, "lo")],
        events: EventBatch::default(),
    };
    state.accept_inventory(inventory, secs(8)).unwrap();
    assert_eq!(state.next_task(secs(8)), Task::Wait(secs(100)));
    state.record_event(secs(20));
    assert_eq!(state.next_task(Span::from_millis(20_500)), Task::Wait(Span::from_millis(500)));
    assert!(state.acquisition_ready(secs(21)));
}

#[test]
fn impossible_batches_are_refused() {
    for batch in [
        EventBatch { first: None, last: Some(secs(1)) },
        EventBatch { first: Some(secs(1)), last: None },
        EventBatch { first: Some(secs(2)), last: Some(secs(1)) },
        EventBatch { first: Some(secs(1)), last: Some(secs(61)) },
    ] {
        let mut state = State::new(secs(3600));
        let before = state;
        let error = state.record_batch(batch).unwrap_err();
        assert_eq!(error.message(), "invalid inventory notification timestamps");
        assert_eq!(state, before);
        assert!(state.retain_failed_events(batch).is_some());
        assert_eq!(state, before);
    }
    let mut state = State::new(secs(3600));
    let batch = EventBatch { first: Some(secs(1)), last: Some(secs(60)) };
    assert!(state.record_batch(batch).is_ok());
    assert_eq!(state.last_event, Some(secs(60)));
    assert_eq!(state.event_deadline, Some(secs(2)));
}

#[test]
fn a_refused_inventory_keeps_its_changes_and_a_stale_one_does_not() {
    let mut state = State::new(secs(3600));
    let refused = Inventory {
        attempt: Attempt { continuity: 0 },
        links: vec![ObservedLink::plain(0, "zero")],
        events: EventBatch::one(secs(5)),
    };
    let error = state.accept_inventory(refused, secs(6)).unwrap_err();
    assert_eq!(error.message(), "interface \"zero\" has invalid index 0");
    assert_eq!(state.last_event, Some(secs(5)));
    assert_eq!(state.last_success, None);

    let stale = Inventory {
        attempt: Attempt { continuity: 7 },
        links: vec![],
        events: EventBatch::one(secs(9)),
    };
    let before = state;
    let error = state.accept_inventory(stale, secs(10)).unwrap_err();
    assert_eq!(
        error.message(),
        "stale inventory from an earlier continuity generation"
    );
    assert_eq!(state, before);
}

#[test]
fn a_loss_begins_a_new_run_of_notifications() {
    let mut state = State::new(secs(3600));
    state.subscribe();
    let mut reader = publication();
    reader.publish(Mib::new(vec![(1, 0)]));
    let change = state.lose_continuity(secs(4));
    assert!(matches!(change, TableChange::Withdraw));
    reader.apply(change);
    assert!(reader.snapshot().is_none());
    assert_eq!(state.continuity, 1);
    assert!(!state.subscribed);
    assert!(state.needs_inventory);
    assert!(!state.subscription_ready(Span::from_millis(4_999)));
    assert!(state.subscription_ready(secs(5)));
    reader.apply(TableChange::Publish(Mib::new(vec![(2, 0)])));
    reader.apply(TableChange::Keep);
    assert!(reader.snapshot().is_some());
}

#[test]
fn a_cycle_reports_what_failed() {
    let reader = shared();
    let mut source = Controlled::new(reader);
    source.subscriptions = VecDeque::from([false, true]);
    source.inventories.push_back(InventoryStep::Ordinary);
    let mut state = State::new(secs(3600));
    source.waits.push_back((secs(1), WaitStep::Change));
    let end = cycle(&mut state, &mut source);
    assert!(matches!(&end.failures[..], [Failure::Subscription(error)]
        if error.message() == "scripted subscription failure"));
    let end = cycle(&mut state, &mut source);
    assert!(matches!(&end.failures[..], [Failure::Acquisition(error)]
        if error.message() == "scripted inventory failure"));
    assert!(matches!(end.change, TableChange::Keep));
}

#[test]
fn the_first_and_the_last_change_stand_for_all_of_a_batch() {
    let times = [10, 12, 12, 40, 69].map(Span::from_secs);
    for pending in [false, true] {
        let mut all = State::new(secs(3600));
        all.record_event(secs(1));
        if !pending {
            all.start_acquisition();
        }
        let mut ends = all;
        for at in times {
            all.record_event(at);
        }
        ends.record_batch(EventBatch {
            first: Some(times[0]),
            last: Some(times[4]),
        })
        .unwrap();
        assert_eq!(all, ends);
    }
}

#[test]
fn an_inventory_is_repeated_once_it_is_old_enough() {
    let mut state = State::new(secs(60));
    state.subscribe();
    state.start_acquisition();
    let inventory = Inventory {
        attempt: Attempt { continuity: 0 },
        links: vec![],
        events: EventBatch::default(),
    };
    state.accept_inventory(inventory, secs(5)).unwrap();
    assert!(!state.acquisition_ready(Span::from_millis(64_999)));
    assert!(state.acquisition_ready(secs(65)));
    state.fail(secs(65));
    assert_eq!(state.last_success, Some(secs(5)));
}

#[test]
fn the_delay_after_changes_falls_back_after_a_quiet_minute() {
    let mut state = State::new(secs(3600));
    state.record_event(secs(10));
    assert_eq!(state.event_deadline, Some(secs(11)));
    state.start_acquisition();
    state.record_event(secs(69));
    assert_eq!(state.event_deadline, Some(secs(71)));
    state.record_event(secs(70));
    assert_eq!(state.event_deadline, Some(secs(71)));
    state.start_acquisition();
    assert_eq!(state.event_delay, secs(4));
    state.record_event(secs(130));
    assert_eq!(state.event_deadline, Some(secs(131)));
}

#[test]
fn what_the_source_reports_decides_on_the_table() {
    let links = || vec![ObservedLink::plain(1, "one")];
    let mut state = State::new(secs(3600));
    let failures = state.after_subscription(Err(other("no".to_owned())), secs(5));
    assert!(matches!(&failures[..], [Failure::Subscription(error)] if error.message() == "no"));
    assert_eq!(state.retry_not_before, Some(secs(6)));
    assert!(state.after_subscription(Ok(()), secs(6)).is_empty());
    assert!(state.subscribed && state.needs_inventory);

    let task = state.next_task(secs(6));
    assert_eq!(task, Task::Acquire(Attempt { continuity: 0 }));
    let found = |continuity: u64| {
        Ok(Inventory {
            attempt: Attempt { continuity },
            links: links(),
            events: EventBatch::default(),
        })
    };
    let end = state.after_inventory(found(0), secs(7), secs(8));
    assert!(matches!(end.change, TableChange::Publish(_)));
    assert!(end.failures.is_empty() && !end.stop);
    assert_eq!(state.last_success, Some(secs(7)));
    assert_eq!(state.retry_not_before, None);

    let end = state.after_inventory(found(3), secs(9), secs(10));
    assert!(matches!(end.change, TableChange::Keep));
    assert!(matches!(&end.failures[..], [Failure::Inventory(_)]));
    assert_eq!(state.retry_not_before, Some(secs(11)));

    let impossible = EventBatch {
        first: Some(secs(9)),
        last: None,
    };
    let end = state.after_inventory(
        Err(AcquisitionError::Lost {
            error: other("gone".to_owned()),
            events: impossible,
        }),
        secs(12),
        secs(12),
    );
    assert!(matches!(end.change, TableChange::Withdraw));
    assert!(matches!(
        &end.failures[..],
        [Failure::Events(_), Failure::Continuity(error)] if error.message() == "gone"
    ));
    assert_eq!(state.continuity, 1);
    assert!(!state.subscribed);

    let end = state.after_wait(Ok(WaitOutcome::LinkChanged(secs(13))), secs(13));
    assert!(matches!(end.change, TableChange::Keep));
    assert_eq!(state.last_event, Some(secs(13)));
    assert!(state.after_wait(Ok(WaitOutcome::Shutdown), secs(13)).stop);
    let end = state.after_wait(Err(other("cut".to_owned())), secs(14));
    assert!(matches!(end.change, TableChange::Withdraw));
    assert!(matches!(&end.failures[..], [Failure::Notification(error)] if error.message() == "cut"));
    assert_eq!(state.continuity, 2);
}
