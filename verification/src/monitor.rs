//! When to take an inventory of the interfaces, and what becomes of the table.
//!
//! The interfaces are taken stock of once after a subscription to their changes,
//! then after each burst of changes, and in any case at regular intervals.
//! Repeated bursts and repeated failures are answered at growing intervals.

use vstd::prelude::*;

use std::sync::Arc;

use crate::error::{other, Error, ErrorKind};
use crate::link::{ObservedLink, Topology};
use crate::mib::Mib;
use crate::pairs::Pair;
use crate::time::Span;

verus! {

/// The first delay after a change or a failure.
pub open spec fn initial_delay() -> Span {
    crate::time::seconds(1)
}

/// The longest delay after a change or a failure.
pub open spec fn max_delay() -> Span {
    crate::time::seconds(30)
}

/// How long it has to be quiet before changes are answered at once again.
pub open spec fn event_reset() -> Span {
    crate::time::seconds(60)
}

/// The delay that follows a delay: twice as long, up to the longest one.
pub open spec fn following_delay(delay: Span) -> Span {
    if 2 * delay.nanos <= max_delay().nanos {
        Span { nanos: (2 * delay.nanos) as u128 }
    } else {
        max_delay()
    }
}

/// An attempt to take an inventory, and the run of notifications without a gap
/// that it belongs to.
#[derive(Clone, Copy, Debug, PartialEq, Eq, Structural)]
pub struct Attempt {
    pub continuity: u64,
}

/// When the first and the last of the changes during an inventory came.
#[derive(Clone, Copy, Debug, PartialEq, Eq, Structural)]
pub struct EventBatch {
    pub first: Option<Span>,
    pub last: Option<Span>,
}

impl EventBatch {
    /// One change.
    pub fn one(at: Span) -> (batch: Self)
        ensures
            batch == (EventBatch { first: Some(at), last: Some(at) }),
    {
        Self { first: Some(at), last: Some(at) }
    }
}

impl Default for EventBatch {
    /// No change.
    fn default() -> (batch: Self)
        ensures
            batch == (EventBatch { first: None, last: None }),
    {
        Self { first: None, last: None }
    }
}

/// What an attempt has found.
#[derive(Debug)]
pub struct Inventory {
    pub attempt: Attempt,
    pub links: Vec<ObservedLink>,
    pub events: EventBatch,
}

/// Why an attempt has failed: for a reason that leaves the notifications whole,
/// or because some of them are lost.
#[derive(Debug)]
pub enum AcquisitionError {
    Ordinary { error: Error, events: EventBatch },
    Lost { error: Error, events: EventBatch },
}

/// What a wait ended with.
#[derive(Debug)]
pub enum WaitOutcome {
    Deadline,
    LinkChanged(Span),
    Shutdown,
}

/// Where inventories and notifications come from.
pub trait Acquisition {
    /// The time since a fixed start.
    fn now(&self) -> Span;

    /// Starts to listen for changes.
    fn subscribe(&mut self) -> Result<(), Error>;

    /// Takes stock of the interfaces.
    fn inventory(&mut self, attempt: Attempt) -> Result<Inventory, AcquisitionError>;

    /// Waits for a change, but no longer than `timeout`.
    fn wait(&mut self, timeout: Span) -> Result<WaitOutcome, Error>;
}

/// What has happened so far, as far as it decides what comes next.
#[derive(Clone, Copy, Debug, PartialEq, Eq, Structural)]
pub struct State {
    pub reconcile: Span,
    pub continuity: u64,
    pub subscribed: bool,
    pub needs_inventory: bool,
    pub retry_not_before: Option<Span>,
    pub failure_delay: Span,
    pub event_deadline: Option<Span>,
    pub event_delay: Span,
    pub last_event: Option<Span>,
    pub last_success: Option<Span>,
}

impl State {
    /// The state before anything has happened.
    pub open spec fn initial(reconcile: Span) -> State {
        State {
            reconcile,
            continuity: 0,
            subscribed: false,
            needs_inventory: true,
            retry_not_before: None,
            failure_delay: initial_delay(),
            event_deadline: None,
            event_delay: initial_delay(),
            last_event: None,
            last_success: None,
        }
    }

    /// Whether the delay after the last failure is over.
    pub open spec fn may_retry(self, now: Span) -> bool {
        self.retry_not_before matches Some(deadline) ==> deadline.nanos <= now.nanos
    }

    /// Whether an inventory is wanted: one is missing, changes have waited long
    /// enough, or the last one is too old.
    pub open spec fn wants_inventory(self, now: Span) -> bool {
        ||| self.needs_inventory
        ||| self.event_deadline matches Some(deadline) && deadline.nanos <= now.nanos
        ||| self.last_success matches Some(success) && crate::time::later(
            success,
            self.reconcile,
        ).nanos <= now.nanos
    }

    /// Whether an inventory is to be taken now.
    pub open spec fn may_acquire(self, now: Span) -> bool {
        self.may_retry(now) && self.wants_inventory(now)
    }

    /// The state once an inventory has been started: what led to it is dealt
    /// with, and if it was changes, the next ones wait longer.
    pub open spec fn acquiring(self) -> State {
        State {
            needs_inventory: false,
            event_deadline: None,
            event_delay: if self.event_deadline is Some {
                following_delay(self.event_delay)
            } else {
                self.event_delay
            },
            ..self
        }
    }

    /// The state after a change. A change after a quiet time is answered after
    /// the first delay again; a change while another one waits changes nothing of
    /// when that is answered.
    pub open spec fn changed(self, at: Span) -> State {
        let event_delay = match self.last_event {
            Some(last) => if crate::time::remainder(at, last).nanos >= event_reset().nanos {
                initial_delay()
            } else {
                self.event_delay
            },
            None => initial_delay(),
        };
        State {
            event_delay,
            last_event: Some(at),
            event_deadline: match self.event_deadline {
                Some(deadline) => Some(deadline),
                None => Some(crate::time::later(at, event_delay)),
            },
            ..self
        }
    }

    /// The state after the changes of a batch.
    pub open spec fn changed_by(self, batch: EventBatch) -> State {
        match (batch.first, batch.last) {
            (Some(first), Some(last)) => if first == last {
                self.changed(first)
            } else {
                self.changed(first).changed(last)
            },
            _ => self,
        }
    }

    /// The state after a failure: another attempt is due, but not before the
    /// delay is over.
    pub open spec fn failed(self, now: Span) -> State {
        State {
            needs_inventory: true,
            retry_not_before: Some(crate::time::later(now, self.failure_delay)),
            failure_delay: following_delay(self.failure_delay),
            ..self
        }
    }

    /// The state after notifications were lost: a new run of them has to be
    /// subscribed to.
    pub open spec fn lost(self, now: Span) -> State {
        State {
            continuity: if self.continuity == u64::MAX {
                0
            } else {
                (self.continuity + 1) as u64
            },
            subscribed: false,
            ..self
        }.failed(now)
    }

    /// The state after an inventory has been accepted.
    pub open spec fn succeeded(self, now: Span) -> State {
        State {
            retry_not_before: None,
            failure_delay: initial_delay(),
            last_success: Some(now),
            ..self
        }
    }
}

/// Whether a batch is possible: no change, or a first and a last one in this
/// order and less than a quiet time apart.
pub open spec fn batch_possible(batch: EventBatch) -> bool {
    match (batch.first, batch.last) {
        (None, None) => true,
        (Some(first), Some(last)) => first.nanos <= last.nanos && last.nanos - first.nanos
            < event_reset().nanos,
        _ => false,
    }
}

/// The delay that follows a delay.
pub fn next_delay(delay: Span) -> (next: Span)
    ensures
        next == following_delay(delay),
{
    if delay.nanos > 15_000_000_000 {
        Span::from_secs(30)
    } else {
        Span { nanos: delay.nanos * 2 }
    }
}

impl State {
    /// The state before anything has happened.
    pub fn new(reconcile: Span) -> (state: Self)
        ensures
            state == State::initial(reconcile),
    {
        Self {
            reconcile,
            continuity: 0,
            subscribed: false,
            needs_inventory: true,
            retry_not_before: None,
            failure_delay: Span::from_secs(1),
            event_deadline: None,
            event_delay: Span::from_secs(1),
            last_event: None,
            last_success: None,
        }
    }

    /// Whether the delay after the last failure is over.
    pub fn retry_ready(&self, now: Span) -> (ready: bool)
        ensures
            ready == self.may_retry(now),
    {
        match self.retry_not_before {
            None => true,
            Some(deadline) => now.nanos >= deadline.nanos,
        }
    }

    /// Whether an inventory is to be taken now.
    pub fn acquisition_ready(&self, now: Span) -> (ready: bool)
        ensures
            ready == self.may_acquire(now),
    {
        if !self.retry_ready(now) {
            return false;
        }
        let events: bool = match self.event_deadline {
            None => false,
            Some(deadline) => now.nanos >= deadline.nanos,
        };
        let aged: bool = match self.last_success {
            None => false,
            Some(success) => now.nanos >= success.saturating_add(self.reconcile).nanos,
        };
        self.needs_inventory || events || aged
    }

    /// Notes that an inventory is started.
    pub fn start_acquisition(&mut self)
        ensures
            *final(self) == old(self).acquiring(),
    {
        self.needs_inventory = false;
        if self.event_deadline.is_some() {
            self.event_deadline = None;
            self.event_delay = next_delay(self.event_delay);
        }
    }

    /// Notes a change.
    pub fn record_event(&mut self, at: Span)
        ensures
            *final(self) == old(self).changed(at),
    {
        let quiet: bool = match self.last_event {
            None => true,
            Some(last) => at.saturating_sub(last).nanos >= 60_000_000_000,
        };
        if quiet {
            self.event_delay = Span::from_secs(1);
        }
        self.last_event = Some(at);
        if self.event_deadline.is_none() {
            self.event_deadline = Some(at.saturating_add(self.event_delay));
        }
    }

    /// Notes the changes of a batch, unless the batch is impossible.
    pub fn record_batch(&mut self, batch: EventBatch) -> (recorded: Result<(), Error>)
        ensures
            match recorded {
                Ok(()) => batch_possible(batch) && *final(self) == old(self).changed_by(batch),
                Err(error) => {
                    &&& !batch_possible(batch)
                    &&& *final(self) == *old(self)
                    &&& error@.kind == ErrorKind::Other
                    &&& error@.message == "invalid inventory notification timestamps"@
                },
            },
    {
        match (batch.first, batch.last) {
            (None, None) => {
                return Ok(());
            },
            (Some(first), Some(last)) => {
                if first.nanos <= last.nanos && last.nanos - first.nanos < 60_000_000_000 {
                    self.record_event(first);
                    if first.nanos != last.nanos {
                        self.record_event(last);
                    }
                    return Ok(());
                }
            },
            _ => {},
        }
        Err(other("invalid inventory notification timestamps".to_owned()))
    }

    /// Notes the changes that came during a failed inventory, or says why they
    /// cannot be noted.
    pub fn retain_failed_events(&mut self, events: EventBatch) -> (refused: Option<Error>)
        ensures
            refused is None <==> batch_possible(events),
            *final(self) == if batch_possible(events) {
                old(self).changed_by(events)
            } else {
                *old(self)
            },
            refused matches Some(error) ==> error@.kind == ErrorKind::Other && error@.message
                == "invalid inventory notification timestamps"@,
    {
        match self.record_batch(events) {
            Ok(()) => None,
            Err(error) => Some(error),
        }
    }

    /// Notes a failure.
    pub fn fail(&mut self, now: Span)
        ensures
            *final(self) == old(self).failed(now),
    {
        self.needs_inventory = true;
        self.retry_not_before = Some(now.saturating_add(self.failure_delay));
        self.failure_delay = next_delay(self.failure_delay);
    }

    /// Notes that notifications were lost. The table can no longer be trusted
    /// then.
    pub fn lose_continuity(&mut self, now: Span) -> (change: TableChange)
        ensures
            *final(self) == old(self).lost(now),
            change is Withdraw,
    {
        self.continuity = self.continuity.wrapping_add(1);
        self.subscribed = false;
        self.needs_inventory = true;
        self.fail(now);
        TableChange::Withdraw
    }

    /// Takes over what an attempt has found, or says why it cannot. A batch of
    /// changes is noted even if the links are refused.
    pub fn accept_inventory(&mut self, inventory: Inventory, now: Span) -> (accepted: Result<
        Topology,
        Error,
    >)
        ensures
            match accepted {
                Ok(topology) => {
                    &&& inventory_refusal(old(self).continuity, inventory) is None
                    &&& *final(self) == old(self).changed_by(inventory.events).succeeded(now)
                    &&& topology.indexes() == Set::new(
                        |index: u32| crate::link::known(inventory.links@, index),
                    )
                    &&& topology.pairs().to_set() == Set::new(
                        |pair: Pair|
                            crate::link::stacked(
                                inventory.links@,
                                inventory.links@.len() as int,
                                pair,
                            ),
                    )
                    &&& crate::pairs::ascending(topology.pairs())
                },
                Err(error) => {
                    &&& inventory_refusal(old(self).continuity, inventory) == Some(error@)
                    &&& *final(self) == if inventory_timely(old(self).continuity, inventory) {
                        old(self).changed_by(inventory.events)
                    } else {
                        *old(self)
                    }
                },
            },
    {
        if inventory.attempt.continuity != self.continuity {
            return Err(other("stale inventory from an earlier continuity generation".to_owned()));
        }
        match self.record_batch(inventory.events) {
            Ok(()) => {},
            Err(error) => {
                return Err(error);
            },
        }
        match Topology::from_observed(inventory.links) {
            Ok(topology) => {
                self.retry_not_before = None;
                self.failure_delay = Span::from_secs(1);
                self.last_success = Some(now);
                Ok(topology)
            },
            Err(error) => Err(error),
        }
    }

    /// When to look again at the latest, if nothing happens before.
    pub open spec fn deadline(self, now: Span) -> Span {
        let due = match self.retry_not_before {
            Some(deadline) => deadline,
            None => if !self.subscribed || self.needs_inventory {
                now
            } else {
                let reconcile = match self.last_success {
                    Some(success) => crate::time::later(success, self.reconcile),
                    None => now,
                };
                match self.event_deadline {
                    Some(event) => if event.nanos <= reconcile.nanos {
                        event
                    } else {
                        reconcile
                    },
                    None => reconcile,
                }
            },
        };
        if due.nanos >= now.nanos {
            due
        } else {
            now
        }
    }

    /// When to look again at the latest, if nothing happens before.
    pub fn next_deadline(&self, now: Span) -> (deadline: Span)
        ensures
            deadline == self.deadline(now),
    {
        if let Some(deadline) = self.retry_not_before {
            return deadline.max(now);
        }
        if !self.subscribed || self.needs_inventory {
            return now;
        }
        let event: Span = match self.event_deadline {
            Some(deadline) => deadline,
            None => Span::longest(),
        };
        let reconcile: Span = match self.last_success {
            Some(success) => success.saturating_add(self.reconcile),
            None => now,
        };
        event.min(reconcile).max(now)
    }
}

/// Whether what an attempt has found belongs to the present run of
/// notifications, with a possible batch of changes.
pub open spec fn inventory_timely(continuity: u64, inventory: Inventory) -> bool {
    inventory.attempt.continuity == continuity && batch_possible(inventory.events)
}

/// Why what an attempt has found is refused, if it is.
pub open spec fn inventory_refusal(continuity: u64, inventory: Inventory) -> Option<
    crate::error::Report,
> {
    if inventory.attempt.continuity != continuity {
        Some(
            crate::error::Report {
                kind: ErrorKind::Other,
                message: "stale inventory from an earlier continuity generation"@,
            },
        )
    } else if !batch_possible(inventory.events) {
        Some(
            crate::error::Report {
                kind: ErrorKind::Other,
                message: "invalid inventory notification timestamps"@,
            },
        )
    } else {
        match crate::link::refusal(inventory.links@) {
            Some(message) => Some(
                crate::error::Report { kind: ErrorKind::InvalidData, message },
            ),
            None => None,
        }
    }
}

/// What is to become of the table that is served.
#[derive(Debug)]
pub enum TableChange {
    Keep,
    Publish(Mib),
    Withdraw,
}

/// The table that is served at present, if there is one.
#[derive(Debug)]
pub struct TableReader {
    table: Option<Arc<Mib>>,
}

/// No table yet.
pub fn publication() -> (reader: TableReader)
    ensures
        reader.current() is None,
{
    TableReader { table: None }
}

impl TableReader {
    /// The table that is served at present.
    pub closed spec fn current(&self) -> Option<Mib> {
        match self.table {
            Some(table) => Some(*table),
            None => None,
        }
    }

    /// The table that is served at present.
    pub fn snapshot(&self) -> (table: Option<Arc<Mib>>)
        ensures
            match table {
                Some(table) => self.current() == Some(*table),
                None => self.current() is None,
            },
    {
        match &self.table {
            Some(table) => Some(table.clone()),
            None => None,
        }
    }

    /// A reader of the same table, which later changes to this one do not affect.
    pub fn copy(&self) -> (reader: TableReader)
        ensures
            reader.current() == self.current(),
    {
        TableReader { table: self.snapshot() }
    }

    /// Serves this table from now on.
    pub fn publish(&mut self, mib: Mib)
        ensures
            final(self).current() == Some(mib),
    {
        self.table = Some(Arc::new(mib));
    }

    /// Serves no table from now on.
    pub fn unavailable(&mut self)
        ensures
            final(self).current() is None,
    {
        self.table = None;
    }

    /// Lets a change come into effect.
    pub fn apply(&mut self, change: TableChange)
        ensures
            final(self).current() == match change {
                TableChange::Keep => old(self).current(),
                TableChange::Publish(mib) => Some(mib),
                TableChange::Withdraw => None,
            },
    {
        match change {
            TableChange::Keep => {},
            TableChange::Publish(mib) => self.publish(mib),
            TableChange::Withdraw => self.unavailable(),
        }
    }
}

/// Something that went wrong during a cycle.
#[derive(Debug)]
pub enum Failure {
    Subscription(Error),
    Acquisition(Error),
    Events(Error),
    Inventory(Error),
    Continuity(Error),
    Notification(Error),
}

/// What a cycle ended with.
#[derive(Debug)]
pub struct CycleEnd {
    pub change: TableChange,
    pub failures: Vec<Failure>,
    pub stop: bool,
}

/// What a source reported during a cycle: the times that it gave, and what came
/// of each request that was made.
pub struct Reported {
    pub started: Span,
    pub made: Result<(), Error>,
    pub subscription_failed: Span,
    pub ready: Span,
    pub taken: Result<Inventory, AcquisitionError>,
    pub waited: Result<WaitOutcome, Error>,
    pub ended: Span,
    pub failed: Span,
}

/// What a failure says.
pub enum FailureView {
    Subscription(crate::error::Report),
    Acquisition(crate::error::Report),
    Events(crate::error::Report),
    Inventory(crate::error::Report),
    Continuity(crate::error::Report),
    Notification(crate::error::Report),
}

impl View for Failure {
    type V = FailureView;

    open spec fn view(&self) -> FailureView {
        match *self {
            Failure::Subscription(error) => FailureView::Subscription(error@),
            Failure::Acquisition(error) => FailureView::Acquisition(error@),
            Failure::Events(error) => FailureView::Events(error@),
            Failure::Inventory(error) => FailureView::Inventory(error@),
            Failure::Continuity(error) => FailureView::Continuity(error@),
            Failure::Notification(error) => FailureView::Notification(error@),
        }
    }
}

/// What becomes of the table.
pub enum Fate {
    Kept,
    Replaced { links: Seq<ObservedLink> },
    Withdrawn,
}

/// Where a cycle leads to.
pub struct Course {
    pub state: State,
    pub fate: Fate,
    pub failures: Seq<FailureView>,
    pub stop: bool,
}

impl State {
    /// Whether a subscription is to be made now.
    pub open spec fn may_subscribe(self, now: Span) -> bool {
        !self.subscribed && self.may_retry(now)
    }

    /// Where an attempt to subscribe leads to, by what came of it and the time
    /// after it.
    pub open spec fn subscription_course(self, made: Result<(), Error>, failed: Span) -> Course {
        match made {
            Ok(()) => Course {
                state: State { subscribed: true, needs_inventory: true, ..self },
                fate: Fate::Kept,
                failures: seq![],
                stop: false,
            },
            Err(error) => Course {
                state: self.failed(failed),
                fate: Fate::Kept,
                failures: seq![FailureView::Subscription(error@)],
                stop: false,
            },
        }
    }

    /// The first part of a cycle: a subscription, where one is to be made.
    pub open spec fn first_course(self, reported: Reported) -> Course {
        if self.may_subscribe(reported.started) {
            self.subscription_course(reported.made, reported.subscription_failed)
        } else {
            Course { state: self, fate: Fate::Kept, failures: seq![], stop: false }
        }
    }

    /// Where an inventory leads to that has been started, by what came of it, the
    /// time after it, and the time when it turned out to be a failure.
    pub open spec fn inventory_course(
        self,
        taken: Result<Inventory, AcquisitionError>,
        ended: Span,
        failed: Span,
    ) -> Course {
        match taken {
            Ok(inventory) => {
                let noted = if inventory_timely(self.continuity, inventory) {
                    self.changed_by(inventory.events)
                } else {
                    self
                };
                match inventory_refusal(self.continuity, inventory) {
                    None => Course {
                        state: noted.succeeded(ended),
                        fate: Fate::Replaced { links: inventory.links@ },
                        failures: seq![],
                        stop: false,
                    },
                    Some(error) => Course {
                        state: noted.failed(failed),
                        fate: Fate::Kept,
                        failures: seq![FailureView::Inventory(error)],
                        stop: false,
                    },
                }
            },
            Err(AcquisitionError::Ordinary { error, events }) => Course {
                state: self.retaining(events).failed(failed),
                fate: Fate::Kept,
                failures: unretained(events).push(FailureView::Acquisition(error@)),
                stop: false,
            },
            Err(AcquisitionError::Lost { error, events }) => Course {
                state: self.retaining(events).lost(failed),
                fate: Fate::Withdrawn,
                failures: unretained(events).push(FailureView::Continuity(error@)),
                stop: false,
            },
        }
    }

    /// The state with the changes noted that came during a failed inventory.
    pub open spec fn retaining(self, events: EventBatch) -> State {
        if batch_possible(events) {
            self.changed_by(events)
        } else {
            self
        }
    }

    /// Where a wait leads to, by what came of it and the time after it.
    pub open spec fn wait_course(self, waited: Result<WaitOutcome, Error>, failed: Span) -> Course {
        let unchanged = Course { state: self, fate: Fate::Kept, failures: seq![], stop: false };
        match waited {
            Ok(WaitOutcome::Deadline) => unchanged,
            Ok(WaitOutcome::LinkChanged(at)) => Course { state: self.changed(at), ..unchanged },
            Ok(WaitOutcome::Shutdown) => Course { stop: true, ..unchanged },
            Err(error) => Course {
                state: self.lost(failed),
                fate: Fate::Withdrawn,
                failures: seq![FailureView::Notification(error@)],
                stop: false,
            },
        }
    }

    /// The second part of a cycle: an inventory, where one is to be taken, or a wait.
    pub open spec fn second_course(self, reported: Reported) -> Course {
        match self.task(reported.ready) {
            Task::Acquire(_) => self.acquiring().inventory_course(
                reported.taken,
                reported.ended,
                reported.failed,
            ),
            Task::Wait(_) => self.wait_course(reported.waited, reported.failed),
        }
    }

    /// A whole cycle.
    pub open spec fn course(self, reported: Reported) -> Course {
        let first = self.first_course(reported);
        let second = first.state.second_course(reported);
        Course { failures: first.failures + second.failures, ..second }
    }
}

/// What is said of the changes during a failed inventory, if they are impossible.
pub open spec fn unretained(events: EventBatch) -> Seq<FailureView> {
    if batch_possible(events) {
        seq![]
    } else {
        seq![
            FailureView::Events(
                crate::error::Report {
                    kind: ErrorKind::Other,
                    message: "invalid inventory notification timestamps"@,
                },
            ),
        ]
    }
}

/// Whether a change to the table is what becomes of it.
pub open spec fn change_is(change: TableChange, fate: Fate) -> bool {
    match fate {
        Fate::Kept => change is Keep,
        Fate::Withdrawn => change is Withdraw,
        Fate::Replaced { links } => change matches TableChange::Publish(mib) && serves(mib, links),
    }
}

/// Whether a table is that of these links.
pub open spec fn serves(mib: Mib, links: Seq<ObservedLink>) -> bool {
    &&& crate::pairs::ascending(mib.rows())
    &&& forall|row: Pair| #[trigger] mib.rows().contains(row) <==> link_row(links, row)
}

/// The rows of the table of some links: a row for each direct relationship, and
/// a row with a zero on the side where a link has no neighbour.
pub open spec fn link_row(links: Seq<ObservedLink>, row: Pair) -> bool {
    let n = links.len() as int;
    ||| crate::link::stacked(links, n, row)
    ||| row.0 == 0 && crate::link::known(links, row.1) && !exists|p: Pair| #[trigger]
        crate::link::stacked(links, n, p) && p.1 == row.1
    ||| row.1 == 0 && crate::link::known(links, row.0) && !exists|p: Pair| #[trigger]
        crate::link::stacked(links, n, p) && p.0 == row.0
}

/// Makes the table of a topology.
fn table_of(topology: &Topology, Ghost(links): Ghost<Seq<ObservedLink>>) -> (mib: Mib)
    requires
        topology.indexes() == Set::new(|index: u32| crate::link::known(links, index)),
        topology.pairs().to_set() == Set::new(
            |pair: Pair| crate::link::stacked(links, links.len() as int, pair),
        ),
    ensures
        serves(mib, links),
{
    let mib: Mib = Mib::from_topology(topology);
    proof {
        let n = links.len() as int;
        let pairs = topology.pairs();
        assert forall|p: Pair| #[trigger] pairs.contains(p) <==> crate::link::stacked(
            links,
            n,
            p,
        ) by {
            assert(pairs.to_set().contains(p) <==> pairs.contains(p));
        }
        assert forall|row: Pair| #[trigger] mib.rows().contains(row) <==> link_row(links, row) by {
            assert(crate::mib::is_row(topology.indexes(), pairs, row) <==> link_row(links, row)) by {
                if exists|p: Pair| #[trigger]
                    crate::link::stacked(links, n, p) && p.1 == row.1 {
                    let p = choose|p: Pair| #[trigger]
                        crate::link::stacked(links, n, p) && p.1 == row.1;
                    assert(pairs.contains(p));
                }
                if exists|p: Pair| #[trigger]
                    crate::link::stacked(links, n, p) && p.0 == row.0 {
                    let p = choose|p: Pair| #[trigger]
                        crate::link::stacked(links, n, p) && p.0 == row.0;
                    assert(pairs.contains(p));
                }
            }
        }
    }
    mib
}

/// What a cycle is to do next.
#[derive(Clone, Copy, Debug, PartialEq, Eq, Structural)]
pub enum Task {
    Acquire(Attempt),
    Wait(Span),
}

impl State {
    /// What is to be done at this time: an inventory for the present run of
    /// notifications, or a wait until something is to be done.
    pub open spec fn task(self, now: Span) -> Task {
        if self.subscribed && self.may_acquire(now) {
            Task::Acquire(Attempt { continuity: self.continuity })
        } else {
            Task::Wait(crate::time::remainder(self.deadline(now), now))
        }
    }

    /// Whether a subscription is to be made now.
    pub fn subscription_ready(&self, now: Span) -> (ready: bool)
        ensures
            ready == self.may_subscribe(now),
    {
        !self.subscribed && self.retry_ready(now)
    }

    /// Notes that a subscription has been made.
    pub fn subscribe(&mut self)
        ensures
            *final(self) == (State { subscribed: true, needs_inventory: true, ..*old(self) }),
    {
        self.subscribed = true;
        self.needs_inventory = true;
    }

    /// Decides what to do at this time, and notes it if that is an inventory.
    pub fn next_task(&mut self, now: Span) -> (task: Task)
        ensures
            task == old(self).task(now),
            *final(self) == if task is Acquire {
                old(self).acquiring()
            } else {
                *old(self)
            },
    {
        if self.subscribed && self.acquisition_ready(now) {
            self.start_acquisition();
            Task::Acquire(Attempt { continuity: self.continuity })
        } else {
            Task::Wait(self.next_deadline(now).saturating_sub(now))
        }
    }
}

/// What a list of failures says.
pub open spec fn failure_views(failures: Seq<Failure>) -> Seq<FailureView> {
    failures.map_values(|failure: Failure| failure@)
}

/// Whether what was done from one state on ended in another one as its course
/// says.
pub open spec fn took(course: Course, after: State, end: CycleEnd) -> bool {
    &&& after == course.state
    &&& change_is(end.change, course.fate)
    &&& failure_views(end.failures@) == course.failures
    &&& end.stop == course.stop
}

/// Whether a cycle from `before` to `after` ended as its course says.
pub open spec fn followed(before: State, reported: Reported, after: State, end: CycleEnd) -> bool {
    took(before.course(reported), after, end)
}

impl State {
    /// Goes on after an attempt to subscribe, with what came of it and the time
    /// after it. Hands out what went wrong.
    pub fn after_subscription(&mut self, made: Result<(), Error>, failed: Span) -> (failures: Vec<
        Failure,
    >)
        ensures
            *final(self) == old(self).subscription_course(made, failed).state,
            failure_views(failures@) == old(self).subscription_course(made, failed).failures,
    {
        let mut failures: Vec<Failure> = Vec::new();
        match made {
            Ok(()) => {
                self.subscribe();
                assert(failure_views(failures@) =~= seq![]);
            },
            Err(error) => {
                let ghost report = error@;
                failures.push(Failure::Subscription(error));
                self.fail(failed);
                assert(failure_views(failures@) =~= seq![FailureView::Subscription(report)]);
            },
        }
        failures
    }

    /// Goes on after an inventory that had been started, with what came of it, the
    /// time after it, and the time that counts if it turns out to be a failure.
    pub fn after_inventory(
        &mut self,
        taken: Result<Inventory, AcquisitionError>,
        ended: Span,
        failed: Span,
    ) -> (end: CycleEnd)
        ensures
            took(old(self).inventory_course(taken, ended, failed), *final(self), end),
    {
        let mut failures: Vec<Failure> = Vec::new();
        assert(failure_views(failures@) =~= seq![]);
        match taken {
            Ok(inventory) => {
                let ghost found = inventory;
                match self.accept_inventory(inventory, ended) {
                    Ok(topology) => {
                        let mib: Mib = table_of(&topology, Ghost(found.links@));
                        CycleEnd { change: TableChange::Publish(mib), failures, stop: false }
                    },
                    Err(error) => {
                        let ghost report = error@;
                        failures.push(Failure::Inventory(error));
                        self.fail(failed);
                        assert(failure_views(failures@) =~= seq![FailureView::Inventory(report)]);
                        CycleEnd { change: TableChange::Keep, failures, stop: false }
                    },
                }
            },
            Err(AcquisitionError::Ordinary { error, events }) => {
                let ghost report = error@;
                if let Some(refused) = self.retain_failed_events(events) {
                    failures.push(Failure::Events(refused));
                }
                assert(failure_views(failures@) =~= unretained(events));
                let ghost noted = failures@;
                failures.push(Failure::Acquisition(error));
                self.fail(failed);
                proof {
                    lemma_failures_pushed(noted, failures@, FailureView::Acquisition(report));
                }
                CycleEnd { change: TableChange::Keep, failures, stop: false }
            },
            Err(AcquisitionError::Lost { error, events }) => {
                let ghost report = error@;
                if let Some(refused) = self.retain_failed_events(events) {
                    failures.push(Failure::Events(refused));
                }
                assert(failure_views(failures@) =~= unretained(events));
                let ghost noted = failures@;
                failures.push(Failure::Continuity(error));
                let change: TableChange = self.lose_continuity(failed);
                proof {
                    lemma_failures_pushed(noted, failures@, FailureView::Continuity(report));
                }
                CycleEnd { change, failures, stop: false }
            },
        }
    }

    /// Goes on after a wait, with what came of it and the time after it.
    pub fn after_wait(&mut self, waited: Result<WaitOutcome, Error>, failed: Span) -> (end:
        CycleEnd)
        ensures
            took(old(self).wait_course(waited, failed), *final(self), end),
    {
        let mut failures: Vec<Failure> = Vec::new();
        assert(failure_views(failures@) =~= seq![]);
        match waited {
            Ok(outcome) => {
                let mut stop: bool = false;
                match outcome {
                    WaitOutcome::Deadline => {},
                    WaitOutcome::LinkChanged(at) => {
                        self.record_event(at);
                    },
                    WaitOutcome::Shutdown => {
                        stop = true;
                    },
                }
                CycleEnd { change: TableChange::Keep, failures, stop }
            },
            Err(error) => {
                let ghost report = error@;
                failures.push(Failure::Notification(error));
                let change: TableChange = self.lose_continuity(failed);
                assert(failure_views(failures@) =~= seq![FailureView::Notification(report)]);
                CycleEnd { change, failures, stop: false }
            },
        }
    }
}

/// Whether the first part of a cycle ended as its course says.
pub open spec fn began(
    before: State,
    reported: Reported,
    after: State,
    failures: Seq<Failure>,
) -> bool {
    &&& after == before.first_course(reported).state
    &&& failure_views(failures) == before.first_course(reported).failures
}

/// Whether the second part of a cycle ended as its course says.
pub open spec fn went_on(before: State, reported: Reported, after: State, end: CycleEnd) -> bool {
    took(before.second_course(reported), after, end)
}

/// The first part of a cycle: subscribes where that is to be done. Hands out what
/// went wrong.
pub fn begin_cycle<A: Acquisition>(state: &mut State, source: &mut A) -> (failures: Vec<Failure>)
    ensures
        exists|reported: Reported|
            {
                &&& #[trigger] began(*old(state), reported, *final(state), failures@)
                &&& call_ensures(A::now, (&*old(source),), reported.started)
                &&& if old(state).may_subscribe(reported.started) {
                    &&& exists|asked: &mut A|
                        {
                            &&& #[trigger] call_ensures(A::subscribe, (asked,), reported.made)
                            &&& *asked == *old(source)
                            &&& *final(asked) == *final(source)
                        }
                    &&& call_ensures(A::now, (&*final(source),), reported.subscription_failed)
                } else {
                    *final(source) == *old(source)
                }
            },
{
    let ghost before = *state;
    let started: Span = source.now();
    let ghost blank = Reported {
        started,
        made: Ok(()),
        subscription_failed: started,
        ready: started,
        taken: arbitrary(),
        waited: arbitrary(),
        ended: started,
        failed: started,
    };
    if state.subscription_ready(started) {
        let made: Result<(), Error> = source.subscribe();
        let failed: Span = source.now();
        let ghost reported = Reported { made, subscription_failed: failed, ..blank };
        let failures: Vec<Failure> = state.after_subscription(made, failed);
        assert(began(before, reported, *state, failures@));
        return failures;
    }
    let failures: Vec<Failure> = Vec::new();
    assert(failure_views(failures@) =~= seq![]);
    assert(began(before, blank, *state, failures@));
    failures
}

/// The second part of a cycle: takes an inventory if that is to be done, and else
/// waits until something is.
pub fn finish_cycle<A: Acquisition>(state: &mut State, source: &mut A) -> (end: CycleEnd)
    ensures
        exists|reported: Reported|
            {
                &&& #[trigger] went_on(*old(state), reported, *final(state), end)
                &&& call_ensures(A::now, (&*old(source),), reported.ready)
                &&& exists|asked: &mut A|
                    {
                        &&& *asked == *old(source)
                        &&& *final(asked) == *final(source)
                        &&& match old(state).task(reported.ready) {
                            Task::Acquire(attempt) => {
                                &&& call_ensures(A::inventory, (asked, attempt), reported.taken)
                                &&& call_ensures(A::now, (&*final(source),), reported.ended)
                            },
                            Task::Wait(timeout) => call_ensures(
                                A::wait,
                                (asked, timeout),
                                reported.waited,
                            ),
                        }
                    }
                &&& call_ensures(A::now, (&*final(source),), reported.failed)
            },
{
    let ghost before = *state;
    let ready: Span = source.now();
    let ghost blank = Reported {
        started: ready,
        made: Ok(()),
        subscription_failed: ready,
        ready,
        taken: arbitrary(),
        waited: arbitrary(),
        ended: ready,
        failed: ready,
    };
    match state.next_task(ready) {
        Task::Acquire(attempt) => {
            let taken: Result<Inventory, AcquisitionError> = source.inventory(attempt);
            let ended: Span = source.now();
            let failed: Span = source.now();
            let ghost reported = Reported { taken, ended, failed, ..blank };
            let end: CycleEnd = state.after_inventory(taken, ended, failed);
            assert(went_on(before, reported, *state, end));
            end
        },
        Task::Wait(timeout) => {
            let waited: Result<WaitOutcome, Error> = source.wait(timeout);
            let failed: Span = source.now();
            let ghost reported = Reported { waited, failed, ..blank };
            let end: CycleEnd = state.after_wait(waited, failed);
            assert(went_on(before, reported, *state, end));
            end
        },
    }
}

/// One cycle: subscribes where that is to be done; then takes an inventory if
/// that is to be done, and else waits until something is. What the source reports
/// decides on the state that follows and on what becomes of the table. `between`
/// is the source after the subscription, or at once if none is to be made.
pub fn cycle<A: Acquisition>(state: &mut State, source: &mut A) -> (end: CycleEnd)
    ensures
        exists|reported: Reported, between: A|
            {
                &&& #[trigger] followed(*old(state), reported, *final(state), end)
                &&& call_ensures(A::now, (&*old(source),), reported.started)
                &&& if old(state).may_subscribe(reported.started) {
                    &&& exists|asked: &mut A|
                        {
                            &&& #[trigger] call_ensures(A::subscribe, (asked,), reported.made)
                            &&& *asked == *old(source)
                            &&& *final(asked) == between
                        }
                    &&& call_ensures(A::now, (&between,), reported.subscription_failed)
                } else {
                    between == *old(source)
                }
                &&& #[trigger] call_ensures(A::now, (&between,), reported.ready)
                &&& exists|asked: &mut A|
                    {
                        &&& *asked == between
                        &&& *final(asked) == *final(source)
                        &&& match old(state).first_course(reported).state.task(reported.ready) {
                            Task::Acquire(attempt) => {
                                &&& call_ensures(A::inventory, (asked, attempt), reported.taken)
                                &&& call_ensures(A::now, (&*final(source),), reported.ended)
                            },
                            Task::Wait(timeout) => call_ensures(
                                A::wait,
                                (asked, timeout),
                                reported.waited,
                            ),
                        }
                    }
                &&& call_ensures(A::now, (&*final(source),), reported.failed)
            },
{
    let ghost before = *state;
    let ghost subject = *source;
    let failures: Vec<Failure> = begin_cycle(state, source);
    let ghost middle = *state;
    let ghost between = *source;
    let end: CycleEnd = finish_cycle(state, source);
    let all: CycleEnd = joined(failures, end);
    proof {
        let one = choose|reported: Reported|
            {
                &&& #[trigger] began(before, reported, middle, failures@)
                &&& call_ensures(A::now, (&subject,), reported.started)
                &&& if before.may_subscribe(reported.started) {
                    &&& exists|asked: &mut A|
                        {
                            &&& #[trigger] call_ensures(A::subscribe, (asked,), reported.made)
                            &&& *asked == subject
                            &&& *final(asked) == between
                        }
                    &&& call_ensures(A::now, (&between,), reported.subscription_failed)
                } else {
                    between == subject
                }
            };
        let two = choose|reported: Reported|
            {
                &&& #[trigger] went_on(middle, reported, *state, end)
                &&& call_ensures(A::now, (&between,), reported.ready)
                &&& exists|asked: &mut A|
                    {
                        &&& *asked == between
                        &&& *final(asked) == *source
                        &&& match middle.task(reported.ready) {
                            Task::Acquire(attempt) => {
                                &&& call_ensures(A::inventory, (asked, attempt), reported.taken)
                                &&& call_ensures(A::now, (&*source,), reported.ended)
                            },
                            Task::Wait(timeout) => call_ensures(
                                A::wait,
                                (asked, timeout),
                                reported.waited,
                            ),
                        }
                    }
                &&& call_ensures(A::now, (&*source,), reported.failed)
            };
        let reported = Reported {
            started: one.started,
            made: one.made,
            subscription_failed: one.subscription_failed,
            ..two
        };
        assert(followed(before, reported, *state, all));
    }
    all
}

/// Puts failures in front of those of an end.
fn joined(failures: Vec<Failure>, end: CycleEnd) -> (all: CycleEnd)
    ensures
        all.change == end.change,
        all.stop == end.stop,
        failure_views(all.failures@) == failure_views(failures@) + failure_views(end.failures@),
{
    let mut all: Vec<Failure> = failures;
    let mut later: Vec<Failure> = end.failures;
    all.append(&mut later);
    assert(failure_views(all@) =~= failure_views(failures@) + failure_views(end.failures@));
    CycleEnd { change: end.change, failures: all, stop: end.stop }
}

proof fn lemma_failures_pushed(before: Seq<Failure>, after: Seq<Failure>, failure: FailureView)
    requires
        after.len() == before.len() + 1,
        forall|i: int| 0 <= i < before.len() ==> after[i] == before[i],
        after.last()@ == failure,
    ensures
        failure_views(after) == failure_views(before).push(failure),
{
    assert(failure_views(after) =~= failure_views(before).push(failure));
}

impl State {
    /// What holds between cycles: the delays are in their bounds; a subscribed
    /// source that wants nothing has been taken stock of; and after a failure an
    /// inventory is wanted.
    pub open spec fn steady(self) -> bool {
        &&& initial_delay().nanos <= self.failure_delay.nanos <= max_delay().nanos
        &&& initial_delay().nanos <= self.event_delay.nanos <= max_delay().nanos
        &&& self.subscribed && !self.needs_inventory ==> self.last_success is Some
        &&& self.retry_not_before is Some ==> self.needs_inventory
    }

    /// Whether anything is to be done at this time but to wait.
    pub open spec fn due(self, now: Span) -> bool {
        self.may_subscribe(now) || (self.subscribed && self.may_acquire(now))
    }
}

/// The initial state is steady, and a cycle leads from a steady state to a
/// steady state, whatever the source reports.
pub proof fn cycles_keep_the_state_steady(reconcile: Span, state: State, reported: Reported)
    ensures
        State::initial(reconcile).steady(),
        state.steady() ==> state.course(reported).state.steady(),
{
}

/// A wait ends in time: nothing is to be done before the deadline, and at the
/// deadline something is.
pub proof fn a_wait_ends_when_something_is_due(state: State, now: Span, at: Span)
    requires
        state.steady(),
    ensures
        now.nanos <= state.deadline(now).nanos,
        state.due(state.deadline(now)),
        now.nanos <= at.nanos < state.deadline(now).nanos ==> !state.due(at),
{
}

/// The number `n` delay in a row, from the first one on.
pub open spec fn delay_after(n: nat) -> Span
    decreases n,
{
    if n == 0 {
        initial_delay()
    } else {
        following_delay(delay_after((n - 1) as nat))
    }
}

/// Delays double from one second up to half a minute, and stay there.
pub proof fn delays_double_up_to_the_longest(n: nat)
    ensures
        n == 0 ==> delay_after(n) == crate::time::seconds(1),
        n == 1 ==> delay_after(n) == crate::time::seconds(2),
        n == 2 ==> delay_after(n) == crate::time::seconds(4),
        n == 3 ==> delay_after(n) == crate::time::seconds(8),
        n == 4 ==> delay_after(n) == crate::time::seconds(16),
        n >= 5 ==> delay_after(n) == crate::time::seconds(30),
    decreases n,
{
    if n > 0 {
        delays_double_up_to_the_longest((n - 1) as nat);
    }
}

/// The delay after a failure is a floor: until it is over neither a change, nor
/// the age of the last inventory, nor a start of another attempt leads to
/// anything.
pub proof fn nothing_is_due_before_a_retry_may_be_made(state: State, now: Span, at: Span, t: Span)
    requires
        t.nanos < crate::time::later(now, state.failure_delay).nanos,
    ensures
        !state.failed(now).due(t),
        !state.failed(now).changed(at).due(t),
        !state.lost(now).due(t),
        !state.lost(now).changed(at).due(t),
{
}

/// A change while another one waits does not put off when that is answered.
pub proof fn a_later_change_postpones_nothing(state: State, first: Span, second: Span)
    ensures
        state.changed(first).changed(second).event_deadline == state.changed(first).event_deadline,
        state.event_deadline is Some ==> state.changed(first).event_deadline
            == state.event_deadline,
{
}

/// The delay after a change falls back to the first one exactly if the change
/// comes a minute or more after the one before it.
pub proof fn only_quiet_resets_the_delay_after_changes(state: State, last: Span, at: Span)
    requires
        state.last_event == Some(last),
    ensures
        at.nanos - last.nanos >= event_reset().nanos ==> state.changed(at).event_delay
            == initial_delay(),
        at.nanos - last.nanos < event_reset().nanos ==> state.changed(at).event_delay
            == state.event_delay,
{
}

/// A success ends the delays after failures, and leaves the delay after changes
/// and the changes that wait as they are.
pub proof fn a_success_resets_only_the_delay_after_failures(state: State, now: Span)
    ensures
        state.succeeded(now).retry_not_before is None,
        state.succeeded(now).failure_delay == initial_delay(),
        state.succeeded(now).event_delay == state.event_delay,
        state.succeeded(now).event_deadline == state.event_deadline,
        state.succeeded(now).last_event == state.last_event,
{
}

/// The table is withdrawn exactly if notifications were lost, which a failed wait
/// or a failed inventory reports: other failures keep it.
pub proof fn only_a_loss_withdraws_the_table(state: State, reported: Reported)
    ensures
        state.course(reported).fate is Withdrawn <==> match state.first_course(reported).state.task(
            reported.ready,
        ) {
            Task::Acquire(_) => reported.taken matches Err(error) && error is Lost,
            Task::Wait(_) => reported.waited is Err,
        },
        state.course(reported).fate is Withdrawn <==> state.course(reported).state.continuity
            != state.continuity,
        state.course(reported).fate is Withdrawn ==> !state.course(reported).state.subscribed
            && state.course(reported).state.needs_inventory,
        state.course(reported).fate is Withdrawn <==> exists|i: int|
            0 <= i < state.course(reported).failures.len() && {
                ||| #[trigger] state.course(reported).failures[i] is Continuity
                ||| state.course(reported).failures[i] is Notification
            },
{
    let course = state.course(reported);
    let first = state.first_course(reported);
    if course.fate is Withdrawn {
        let last = course.failures.len() - 1;
        assert(course.failures[last] is Continuity || course.failures[last] is Notification);
    }
}

/// The table is replaced only by that of an inventory that was taken, after a
/// subscription, in the present run of notifications, and whose links are
/// accepted. So nothing that was found before a loss is ever served after it.
pub proof fn only_a_present_inventory_replaces_the_table(state: State, reported: Reported)
    requires
        state.course(reported).fate is Replaced,
    ensures
        state.course(reported).state.subscribed,
        reported.taken matches Ok(inventory) && {
            &&& inventory.attempt.continuity == state.continuity
            &&& inventory.attempt.continuity == state.course(reported).state.continuity
            &&& crate::link::refusal(inventory.links@) is None
            &&& state.course(reported).fate == Fate::Replaced { links: inventory.links@ }
        },
{
}

/// The state after changes, one after the other.
pub open spec fn changed_by_all(state: State, times: Seq<Span>) -> State
    decreases times.len(),
{
    if times.len() == 0 {
        state
    } else {
        changed_by_all(state, times.drop_last()).changed(times.last())
    }
}

/// Of changes that come in order and less than a quiet time apart, the first and
/// the last one say all that matters.
pub proof fn the_first_and_the_last_change_stand_for_all(state: State, times: Seq<Span>)
    requires
        times.len() > 0,
        forall|i: int, j: int|
            #![trigger times[i], times[j]]
            0 <= i <= j < times.len() ==> times[i].nanos <= times[j].nanos,
        times.last().nanos - times.first().nanos < event_reset().nanos,
    ensures
        changed_by_all(state, times) == state.changed_by(
            EventBatch { first: Some(times.first()), last: Some(times.last()) },
        ),
        batch_possible(EventBatch { first: Some(times.first()), last: Some(times.last()) }),
    decreases times.len(),
{
    let earlier = times.drop_last();
    if earlier.len() > 0 {
        assert(earlier.first() == times.first());
        assert(times[times.len() - 2] == earlier.last());
        assert forall|i: int, j: int|
            #![trigger earlier[i], earlier[j]]
            0 <= i <= j < earlier.len() implies earlier[i].nanos <= earlier[j].nanos by {
            assert(times[i] == earlier[i] && times[j] == earlier[j]);
        }
        assert(times[0] == times.first() && times[times.len() - 1] == times.last());
        the_first_and_the_last_change_stand_for_all(state, earlier);
        assert(times.first().nanos <= earlier.last().nanos <= times.last().nanos);
    } else {
        assert(times.first() == times.last());
        reveal_with_fuel(changed_by_all, 2);
    }
}

/// During sustained change each inventory that changes lead to comes later after
/// them than the one before.
pub proof fn sustained_change_is_answered_ever_later(state: State, n: nat, last: Span, at: Span)
    requires
        state.event_delay == delay_after(n),
        state.event_deadline is None,
        state.last_event == Some(last),
        at.nanos - last.nanos < event_reset().nanos,
    ensures
        state.changed(at).event_deadline == Some(crate::time::later(at, delay_after(n))),
        state.changed(at).acquiring().event_delay == delay_after(n + 1),
        state.changed(at).acquiring().event_deadline is None,
{
}

/// Failures in a row are followed by ever longer delays.
pub proof fn failures_in_a_row_are_retried_ever_later(state: State, n: nat, now: Span)
    requires
        state.failure_delay == delay_after(n),
    ensures
        state.failed(now).retry_not_before == Some(crate::time::later(now, delay_after(n))),
        state.failed(now).failure_delay == delay_after(n + 1),
        state.failed(now).last_success == state.last_success,
        state.failed(now).event_delay == state.event_delay,
{
}

/// Without changes the next inventory is taken exactly when the last successful
/// one has the age at which it is to be repeated.
pub proof fn an_inventory_is_repeated_by_its_age(state: State, now: Span, t: Span)
    requires
        !state.needs_inventory,
        state.event_deadline is None,
    ensures
        state.succeeded(now).may_acquire(t) <==> crate::time::later(now, state.reconcile).nanos
            <= t.nanos,
{
}

/// A valid inventory is served even if there were changes while it was taken;
/// those still wait for an inventory of their own.
pub proof fn changes_during_an_inventory_stay_pending(
    state: State,
    inventory: Inventory,
    ended: Span,
    failed: Span,
)
    requires
        inventory_refusal(state.continuity, inventory) is None,
    ensures
        state.acquiring().inventory_course(Ok(inventory), ended, failed).fate == (Fate::Replaced {
            links: inventory.links@,
        }),
        inventory.events.first is Some <==> state.acquiring().inventory_course(
            Ok(inventory),
            ended,
            failed,
        ).state.event_deadline is Some,
{
}

/// The state after the first `n` cycles.
pub open spec fn state_after(state: State, reports: Seq<Reported>, n: int) -> State
    decreases n,
{
    if n <= 0 {
        state
    } else {
        let before = state_after(state, reports, n - 1);
        before.course(reports[n - 1]).state
    }
}

/// What becomes of the table in cycle `n`.
pub open spec fn fate_in(state: State, reports: Seq<Reported>, n: int) -> Fate {
    state_after(state, reports, n).course(reports[n]).fate
}

/// Whether a subscription is made in cycle `n`.
pub open spec fn subscribes_in(state: State, reports: Seq<Reported>, n: int) -> bool {
    state_after(state, reports, n).may_subscribe(reports[n].started)
        && reports[n].made is Ok
}

/// Once notifications were lost, the table is served again only after a new
/// subscription, and only from an inventory that was asked for after the loss.
pub proof fn a_lost_table_is_restored_by_a_new_subscription_and_inventory(
    state: State,
    reports: Seq<Reported>,
    lost: int,
    restored: int,
)
    requires
        0 <= lost < restored < reports.len(),
        fate_in(state, reports, lost) is Withdrawn,
        forall|n: int|
            lost < n < restored ==> !(#[trigger] fate_in(state, reports, n) is Withdrawn),
        fate_in(state, reports, restored) is Replaced,
    ensures
        exists|n: int| lost < n <= restored && #[trigger] subscribes_in(state, reports, n),
        reports[restored].taken matches Ok(inventory)
            && inventory.attempt.continuity == state_after(state, reports, lost + 1).continuity,
{
    only_a_loss_withdraws_the_table(state_after(state, reports, lost), reports[lost]);
    assert(state_after(state, reports, lost + 1) == state_after(state, reports, lost).course(
        reports[lost],
    ).state);
    lemma_since_loss(state, reports, lost, restored);
    let before = state_after(state, reports, restored);
    only_a_present_inventory_replaces_the_table(before, reports[restored]);
    if !before.subscribed {
        assert(subscribes_in(state, reports, restored));
    }
}

/// Since a loss the run of notifications is the same, and nothing is subscribed
/// unless a subscription has been made.
proof fn lemma_since_loss(state: State, reports: Seq<Reported>, lost: int, n: int)
    requires
        0 <= lost < n <= reports.len(),
        !state_after(state, reports, lost + 1).subscribed,
        forall|m: int| lost < m < n ==> !(#[trigger] fate_in(state, reports, m) is Withdrawn),
    ensures
        state_after(state, reports, n).continuity == state_after(
            state,
            reports,
            lost + 1,
        ).continuity,
        state_after(state, reports, n).subscribed ==> exists|m: int|
            lost < m < n && #[trigger] subscribes_in(state, reports, m),
    decreases n,
{
    if n > lost + 1 {
        lemma_since_loss(state, reports, lost, n - 1);
        let before = state_after(state, reports, n - 1);
        assert(!(fate_in(state, reports, n - 1) is Withdrawn));
        only_a_loss_withdraws_the_table(before, reports[n - 1]);
        assert(state_after(state, reports, n) == before.course(reports[n - 1]).state);
        if state_after(state, reports, n).subscribed && !before.subscribed {
            assert(subscribes_in(state, reports, n - 1));
        }
    }
}

/// What becomes of the table in each cycle.
pub open spec fn fates_in(state: State, reports: Seq<Reported>) -> Seq<Fate> {
    Seq::new(reports.len(), |n: int| fate_in(state, reports, n))
}

/// The links of the table that is served after the first `n` cycles, if there is
/// one, by what became of it in each.
pub open spec fn served_after(fates: Seq<Fate>, n: int) -> Option<Seq<ObservedLink>>
    decreases n,
{
    if n <= 0 {
        None
    } else {
        match fates[n - 1] {
            Fate::Kept => served_after(fates, n - 1),
            Fate::Replaced { links } => Some(links),
            Fate::Withdrawn => None,
        }
    }
}

/// Whether a table is that of these links, or there is neither.
pub open spec fn shows(table: Option<Mib>, links: Option<Seq<ObservedLink>>) -> bool {
    match (table, links) {
        (Some(mib), Some(links)) => serves(mib, links),
        (None, None) => true,
        _ => false,
    }
}

/// Whether cycle `m` replaced the table, and notifications were not lost from then on
/// until cycle `n`.
pub open spec fn holds_since(fates: Seq<Fate>, m: int, n: int) -> bool {
    &&& fates[m] is Replaced
    &&& forall|k: int| m < k < n ==> !(#[trigger] fates[k] is Withdrawn)
}

/// A table is served exactly if an inventory was accepted since the last loss, or
/// since the beginning.
pub proof fn a_table_is_served_exactly_since_an_accepted_inventory(fates: Seq<Fate>, n: int)
    requires
        0 <= n <= fates.len(),
    ensures
        served_after(fates, n) is Some <==> exists|m: int|
            0 <= m < n && #[trigger] holds_since(fates, m, n),
    decreases n,
{
    if n > 0 {
        a_table_is_served_exactly_since_an_accepted_inventory(fates, n - 1);
        if served_after(fates, n) is Some {
            if fates[n - 1] is Replaced {
                assert(holds_since(fates, n - 1, n));
            } else {
                let m = choose|m: int| 0 <= m < n - 1 && #[trigger] holds_since(fates, m, n - 1);
                assert(holds_since(fates, m, n));
            }
        }
        if exists|m: int| 0 <= m < n && #[trigger] holds_since(fates, m, n) {
            let m = choose|m: int| 0 <= m < n && #[trigger] holds_since(fates, m, n);
            if m < n - 1 {
                assert(!(fates[n - 1] is Withdrawn));
                assert(holds_since(fates, m, n - 1));
            }
        }
    }
}

/// The table that is served is that of the latest inventory that was accepted, and
/// none after a loss.
pub proof fn the_latest_accepted_inventory_is_served(fates: Seq<Fate>, m: int, n: int)
    requires
        0 <= m < n <= fates.len(),
        forall|k: int| m < k < n ==> #[trigger] fates[k] is Kept,
    ensures
        fates[m] matches Fate::Replaced { links } ==> served_after(fates, n) == Some(links),
        fates[m] is Withdrawn ==> served_after(fates, n) is None,
    decreases n,
{
    if m < n - 1 {
        assert(fates[n - 1] is Kept);
        the_latest_accepted_inventory_is_served(fates, m, n - 1);
    }
}

/// If each change that a cycle ends with comes into effect, the table is always the
/// one that is to be served.
pub proof fn applied_changes_keep_the_table_right(
    fates: Seq<Fate>,
    n: int,
    table: Option<Mib>,
    change: TableChange,
)
    requires
        0 <= n < fates.len(),
        shows(table, served_after(fates, n)),
        change_is(change, fates[n]),
    ensures
        shows(
            match change {
                TableChange::Keep => table,
                TableChange::Publish(mib) => Some(mib),
                TableChange::Withdraw => None,
            },
            served_after(fates, n + 1),
        ),
{
}

/// An inventory is only ever taken after a subscription that succeeded, and since
/// which no notifications were lost.
pub proof fn an_inventory_follows_a_subscription(reconcile: Span, reports: Seq<Reported>, n: int)
    requires
        0 <= n < reports.len(),
        state_after(State::initial(reconcile), reports, n).first_course(reports[n]).state.task(
            reports[n].ready,
        ) is Acquire,
    ensures
        exists|m: int|
            0 <= m <= n && #[trigger] subscribes_in(State::initial(reconcile), reports, m) && (
            forall|k: int|
                m <= k < n ==> !(#[trigger] fate_in(
                    State::initial(reconcile),
                    reports,
                    k,
                ) is Withdrawn)),
{
    let state = State::initial(reconcile);
    if !state_after(state, reports, n).subscribed {
        assert(subscribes_in(state, reports, n));
    } else {
        lemma_subscribed(state, reports, n);
    }
}

proof fn lemma_subscribed(state: State, reports: Seq<Reported>, n: int)
    requires
        0 <= n <= reports.len(),
        !state.subscribed,
        state_after(state, reports, n).subscribed,
    ensures
        exists|m: int|
            0 <= m < n && #[trigger] subscribes_in(state, reports, m) && (forall|k: int|
                m <= k < n ==> !(#[trigger] fate_in(state, reports, k) is Withdrawn)),
    decreases n,
{
    let before = state_after(state, reports, n - 1);
    only_a_loss_withdraws_the_table(before, reports[n - 1]);
    assert(!(fate_in(state, reports, n - 1) is Withdrawn));
    if before.subscribed {
        lemma_subscribed(state, reports, n - 1);
        let m = choose|m: int|
            0 <= m < n - 1 && #[trigger] subscribes_in(state, reports, m) && (forall|k: int|
                m <= k < n - 1 ==> !(#[trigger] fate_in(state, reports, k) is Withdrawn));
        assert(subscribes_in(state, reports, m));
    } else {
        assert(subscribes_in(state, reports, n - 1));
    }
}

/// A row without a zero is in the table of accepted links exactly if a link says that
/// its first index is on top of its second; a row with a zero exactly if the other
/// index is that of a link with no neighbour on that side.
pub proof fn the_table_of_links_has_the_rows_that_they_say(
    links: Seq<ObservedLink>,
    row: Pair,
    index: u32,
)
    requires
        crate::link::refusal(links) is None,
        row.0 != 0 && row.1 != 0,
        index != 0,
    ensures
        link_row(links, row) <==> exists|i: int|
            0 <= i < links.len() && #[trigger] crate::link::says(links, i, row),
        link_row(links, (0, index)) <==> crate::link::known(links, index) && forall|i: int, p: Pair|
            0 <= i < links.len() && p.1 == index ==> !(#[trigger] crate::link::says(links, i, p)),
        link_row(links, (index, 0)) <==> crate::link::known(links, index) && forall|i: int, p: Pair|
            0 <= i < links.len() && p.0 == index ==> !(#[trigger] crate::link::says(links, i, p)),
        !link_row(links, (0, 0)),
{
    let n = links.len() as int;
    assert forall|p: Pair| #[trigger] crate::link::stacked(links, n, p) <==> exists|i: int|
        0 <= i < n && #[trigger] crate::link::says(links, i, p) by {
        lemma_stacked_as_said(links, p);
    }
    crate::link::links_are_accepted_exactly_if_they_are_consistent(links);
    assert(!crate::link::known(links, 0)) by {
        if crate::link::known(links, 0) {
            let j = crate::link::position(links, 0);
            assert(links[j].index == 0);
            assert(crate::link::named_and_numbered(links[j]));
        }
    }
    assert forall|p: Pair| #[trigger] crate::link::stacked(links, n, p) implies p.0 != 0 && p.1
        != 0 by {
        crate::link::accepted_links_stack_distinct_known_interfaces(links, p);
    }
    if exists|p: Pair| #[trigger] crate::link::stacked(links, n, p) && p.1 == index {
        let p = choose|p: Pair| #[trigger] crate::link::stacked(links, n, p) && p.1 == index;
        let i = choose|i: int| 0 <= i < n && #[trigger] crate::link::says(links, i, p);
        assert(crate::link::says(links, i, p));
    }
    if exists|p: Pair| #[trigger] crate::link::stacked(links, n, p) && p.0 == index {
        let p = choose|p: Pair| #[trigger] crate::link::stacked(links, n, p) && p.0 == index;
        let i = choose|i: int| 0 <= i < n && #[trigger] crate::link::says(links, i, p);
        assert(crate::link::says(links, i, p));
    }
    assert forall|i: int, p: Pair|
        0 <= i < n && #[trigger] crate::link::says(links, i, p) implies crate::link::stacked(
        links,
        n,
        p,
    ) by {}
    assert(!crate::link::stacked(links, n, (0u32, index)));
    assert(!crate::link::stacked(links, n, (index, 0u32)));
    assert(!crate::link::stacked(links, n, (0u32, 0u32)));
}

/// One interface is on top of another exactly if a link says so.
proof fn lemma_stacked_as_said(links: Seq<ObservedLink>, pair: Pair)
    requires
        crate::link::refusal(links) is None,
    ensures
        crate::link::stacked(links, links.len() as int, pair) <==> exists|i: int|
            0 <= i < links.len() && #[trigger] crate::link::says(links, i, pair),
{
    if crate::link::stacked(links, links.len() as int, pair) {
        crate::link::nothing_is_stacked_unless_a_link_says_so(links, pair);
    }
    if exists|i: int| 0 <= i < links.len() && #[trigger] crate::link::says(links, i, pair) {
        let i = choose|i: int| 0 <= i < links.len() && #[trigger] crate::link::says(links, i, pair);
        if links[i].index == pair.1 && links[i].controller == Some(pair.0) && exists|j: int|
            0 <= j < links.len() && (#[trigger] links[j]).index == pair.0 && (links[j].kind
                == crate::link::LinkKind::Bond || links[j].kind == crate::link::LinkKind::Bridge) {
            let j = choose|j: int|
                0 <= j < links.len() && (#[trigger] links[j]).index == pair.0 && (links[j].kind
                    == crate::link::LinkKind::Bond || links[j].kind
                    == crate::link::LinkKind::Bridge);
            crate::link::a_bond_or_bridge_is_on_top_of_its_members(links, i, j);
        } else if links[i].kind == crate::link::LinkKind::Vxlan {
            let j = choose|j: int| 0 <= j < links.len() && (#[trigger] links[j]).index == pair.1;
            crate::link::a_vxlan_is_on_top_of_its_underlay(links, i, j);
        } else {
            crate::link::a_link_with_a_lower_one_is_on_top_of_it(links, i, pair.1);
        }
    }
}

} // verus!
