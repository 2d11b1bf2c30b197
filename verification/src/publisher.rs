//! The server's publishing cycle for one connection: sample, send, sleep,
//! and again, until a send fails.

use crate::snapshot::assembled;
use crate::snapshot::FactsView;
use crate::snapshot::HostFacts;
use crate::snapshot::MetricsSnapshot;
use crate::snapshot::TickReadings;
use crate::wire::encode;
use crate::wire::encoded;
use crate::wire::record_view;
use crate::wire::FieldView;
use crate::wire::WireField;
use vstd::prelude::*;

verus! {

/// Default time between two snapshots, in seconds.
pub const POLL_INTERVAL_SECS: u64 = 1;

/// What the publisher is waiting for.
#[derive(Clone, Copy, Debug, PartialEq, Eq)]
pub enum Phase {
    /// The readings of the next snapshot.
    Sampling,
    /// The verdict on the snapshot it handed out to be sent.
    Sending,
    /// The end of the pause between two snapshots.
    Sleeping,
    /// Nothing: the connection is given up.
    Closed,
}

/// What the connection's owner reports back to the publisher.
#[derive(Clone, Copy, Debug, PartialEq, Eq)]
pub enum PublisherEvent {
    /// The host's counters were read.
    Sampled(TickReadings),
    /// The snapshot went out.
    Sent,
    /// The snapshot could not be sent.
    SendFailed,
    /// The pause is over.
    Woke,
}

/// What the publisher asks the connection's owner to do next.
#[derive(Clone, Debug, PartialEq, Eq)]
pub enum PublisherAction {
    /// Read the host's counters.
    Sample,
    /// Send this record.
    Send(Vec<WireField>),
    /// Pause for this many seconds.
    Sleep(u64),
    /// Release the connection; nothing more will be asked.
    Stop,
}

/// An action as a plain value.
pub ghost enum ActionView {
    Sample,
    Send(Seq<FieldView>),
    Sleep(u64),
    Stop,
}

impl View for PublisherAction {
    type V = ActionView;

    open spec fn view(&self) -> ActionView {
        match self {
            PublisherAction::Sample => ActionView::Sample,
            PublisherAction::Send(fields) => ActionView::Send(record_view(fields@)),
            PublisherAction::Sleep(secs) => ActionView::Sleep(*secs),
            PublisherAction::Stop => ActionView::Stop,
        }
    }
}

/// A publisher as a plain value.
pub ghost struct PublisherView {
    pub facts: FactsView,
    pub interval: u64,
    pub phase: Phase,
    pub sent: u64,
}

/// The publisher of one connection. It keeps the facts of the host that do
/// not change, and counts the snapshots that went out.
#[derive(Clone, Debug, PartialEq, Eq)]
pub struct Publisher {
    facts: HostFacts,
    interval: u64,
    phase: Phase,
    sent: u64,
}

/// One more, unless the count is at its limit.
pub open spec fn counted(sent: u64) -> u64 {
    if sent < u64::MAX {
        (sent + 1) as u64
    } else {
        sent
    }
}

/// The publisher after `event`. Readings move it from sampling to sending,
/// a sent snapshot from sending to sleeping, the end of the pause from
/// sleeping to sampling. A failed send, or any event out of turn, closes it
/// for good.
pub open spec fn publisher_after(publisher: PublisherView, event: PublisherEvent) -> PublisherView {
    match (publisher.phase, event) {
        (Phase::Sampling, PublisherEvent::Sampled(_)) => PublisherView {
            phase: Phase::Sending,
            ..publisher
        },
        (Phase::Sending, PublisherEvent::Sent) => PublisherView {
            phase: Phase::Sleeping,
            sent: counted(publisher.sent),
            ..publisher
        },
        (Phase::Sleeping, PublisherEvent::Woke) => PublisherView {
            phase: Phase::Sampling,
            ..publisher
        },
        _ => PublisherView { phase: Phase::Closed, ..publisher },
    }
}

/// What the publisher asks for on `event`: to send the snapshot made of the
/// readings, to pause once it went out, to sample once the pause is over,
/// and to stop in every other case.
pub open spec fn action_on(publisher: PublisherView, event: PublisherEvent) -> ActionView {
    match (publisher.phase, event) {
        (Phase::Sampling, PublisherEvent::Sampled(readings)) => ActionView::Send(
            encoded(assembled(publisher.facts, readings)),
        ),
        (Phase::Sending, PublisherEvent::Sent) => ActionView::Sleep(publisher.interval),
        (Phase::Sleeping, PublisherEvent::Woke) => ActionView::Sample,
        _ => ActionView::Stop,
    }
}

/// The order of publishing. A snapshot is handed out only for readings just
/// taken; a pause begins only once the snapshot before it went out, which is
/// then counted; the next readings are asked for only after that pause. So
/// snapshots leave in the order they were sampled, none is skipped, and none
/// is queued behind a send that has not finished.
pub proof fn lemma_publishing_order(publisher: PublisherView, event: PublisherEvent)
    ensures
        action_on(publisher, event) is Send ==> publisher.phase == Phase::Sampling
            && publisher_after(publisher, event).phase == Phase::Sending,
        action_on(publisher, event) is Sleep ==> publisher.phase == Phase::Sending && event
            == PublisherEvent::Sent && publisher_after(publisher, event).sent == counted(
            publisher.sent,
        ),
        action_on(publisher, event) is Sample ==> publisher.phase == Phase::Sleeping,
        !(action_on(publisher, event) is Sleep) ==> publisher_after(publisher, event).sent
            == publisher.sent,
{
}

/// A send that fails closes the publisher, and a closed publisher stays
/// closed: it asks only to stop, whatever is reported to it.
pub proof fn lemma_closed_for_good(publisher: PublisherView, event: PublisherEvent)
    ensures
        publisher.phase == Phase::Sending && event == PublisherEvent::SendFailed
            ==> publisher_after(publisher, event).phase == Phase::Closed,
        publisher.phase == Phase::Closed ==> publisher_after(publisher, event).phase
            == Phase::Closed && action_on(publisher, event) == ActionView::Stop,
{
}

impl View for Publisher {
    type V = PublisherView;

    closed spec fn view(&self) -> PublisherView {
        PublisherView {
            facts: self.facts@,
            interval: self.interval,
            phase: self.phase,
            sent: self.sent,
        }
    }
}

impl Publisher {
    /// The publisher of a new connection of a host with these facts, which
    /// pauses `interval` seconds between snapshots. It waits for the first
    /// readings.
    pub fn new(facts: HostFacts, interval: u64) -> (publisher: Self)
        ensures
            publisher@ == (PublisherView {
                facts: facts@,
                interval,
                phase: Phase::Sampling,
                sent: 0,
            }),
    {
        Publisher { facts, interval, phase: Phase::Sampling, sent: 0 }
    }

    /// What the publisher is waiting for.
    pub fn phase(&self) -> (phase: Phase)
        ensures
            phase == self@.phase,
    {
        self.phase
    }

    /// Number of snapshots that went out.
    pub fn sent(&self) -> (sent: u64)
        ensures
            sent == self@.sent,
    {
        self.sent
    }

    /// Takes what the connection's owner reports and says what to do next.
    pub fn step(&mut self, event: PublisherEvent) -> (action: PublisherAction)
        ensures
            final(self)@ == publisher_after(old(self)@, event),
            action@ == action_on(old(self)@, event),
    {
        match (self.phase, event) {
            (Phase::Sampling, PublisherEvent::Sampled(readings)) => {
                let snapshot = MetricsSnapshot::assemble(&self.facts, readings);
                self.phase = Phase::Sending;
                PublisherAction::Send(encode(&snapshot))
            },
            (Phase::Sending, PublisherEvent::Sent) => {
                self.phase = Phase::Sleeping;
                if self.sent < u64::MAX {
                    self.sent = self.sent + 1;
                }
                PublisherAction::Sleep(self.interval)
            },
            (Phase::Sleeping, PublisherEvent::Woke) => {
                self.phase = Phase::Sampling;
                PublisherAction::Sample
            },
            _ => {
                self.phase = Phase::Closed;
                PublisherAction::Stop
            },
        }
    }
}

} // verus!
