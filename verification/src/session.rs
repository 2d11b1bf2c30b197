//! The client's session with one node: what each event on its connection
//! does to the session and to the node's history.

use crate::history::accepts;
use crate::history::history_of;
use crate::history::is_within;
use crate::history::store_appended;
use crate::history::AppendError;
use crate::history::HistorySample;
use crate::history::HistoryStore;
use crate::snapshot::usage_of;
use crate::snapshot::MetricsSnapshot;
use crate::snapshot::SnapshotView;
use crate::wire::decode;
use crate::wire::decoded;
use crate::wire::record_view;
use crate::wire::DecodeError;
use crate::wire::FieldView;
use crate::wire::WireField;
use vstd::prelude::*;

verus! {

/// How a connection was lost.
#[derive(Clone, Copy, Debug, PartialEq, Eq)]
pub enum TransportError {
    /// The node's address could not be reached.
    Unreachable,
    /// The peer closed the stream.
    Closed,
    /// Receiving failed: the connection was reset or broke.
    Reset,
}

/// What happened on a session's connection.
#[derive(Clone, Debug, PartialEq, Eq)]
pub enum SessionEvent {
    /// A message arrived and was taken apart into these fields.
    Message(Vec<WireField>),
    /// A message arrived that could not be taken apart into fields.
    Unreadable,
    /// The connection was lost.
    Lost(TransportError),
    /// The owner asked the session to end.
    Shutdown,
}

/// Why a message was discarded.
#[derive(Clone, Copy, Debug, PartialEq, Eq)]
pub enum DropReason {
    /// It could not be read as a snapshot.
    Undecodable(DecodeError),
    /// Its memory counters give no usage: the total is zero or below what is in use.
    NoUsage,
    /// It arrived at a time before that of the newest stored sample.
    OutOfOrder,
}

/// What an event led to.
#[derive(Clone, Copy, Debug, PartialEq, Eq)]
pub enum Outcome {
    /// The message gave this sample, which is now the newest of the node's history.
    Recorded(HistorySample),
    /// The message was discarded; the session goes on.
    Dropped(DropReason),
    /// The session ended with this event; its connection is to be released.
    Terminated,
    /// There is no live session the event could concern; nothing changed.
    Ignored,
}

/// An event as a plain value.
pub ghost enum EventView {
    Message(Seq<FieldView>),
    Unreadable,
    Lost(TransportError),
    Shutdown,
}

impl View for SessionEvent {
    type V = EventView;

    open spec fn view(&self) -> EventView {
        match self {
            SessionEvent::Message(fields) => EventView::Message(record_view(fields@)),
            SessionEvent::Unreadable => EventView::Unreadable,
            SessionEvent::Lost(error) => EventView::Lost(*error),
            SessionEvent::Shutdown => EventView::Shutdown,
        }
    }
}

/// A session as a plain value.
pub ghost struct SessionView {
    pub node_id: i32,
    pub endpoint: Seq<char>,
    pub live: bool,
    pub last_error: Option<TransportError>,
    pub latest: Option<SnapshotView>,
}

/// The session with one node. It is live from the moment it is made until
/// its connection is lost or it is shut down, and never comes back to life.
#[derive(Clone, Debug, PartialEq, Eq)]
pub struct Session {
    node_id: i32,
    endpoint: String,
    live: bool,
    last_error: Option<TransportError>,
    latest: Option<MetricsSnapshot>,
}

/// The sample a snapshot gives at time `elapsed`: its memory usage, where it has one.
pub open spec fn sample_of(snapshot: SnapshotView, elapsed: u64) -> Option<HistorySample> {
    match usage_of(snapshot.used_memory, snapshot.total_memory) {
        Some(value) => Some(HistorySample { elapsed_secs: elapsed, value }),
        None => None,
    }
}

/// What `event`, at time `elapsed`, leads to for `session` while the node's
/// history is `history`.
pub open spec fn outcome_of(
    session: SessionView,
    history: Seq<HistorySample>,
    event: EventView,
    elapsed: u64,
) -> Outcome {
    if !session.live {
        Outcome::Ignored
    } else {
        match event {
            EventView::Shutdown => Outcome::Terminated,
            EventView::Lost(_) => Outcome::Terminated,
            EventView::Unreadable => Outcome::Dropped(
                DropReason::Undecodable(DecodeError::Unreadable),
            ),
            EventView::Message(record) => match decoded(record) {
                Err(fault) => Outcome::Dropped(DropReason::Undecodable(fault)),
                Ok(snapshot) => match sample_of(snapshot, elapsed) {
                    None => Outcome::Dropped(DropReason::NoUsage),
                    Some(sample) => if accepts(history, sample) {
                        Outcome::Recorded(sample)
                    } else {
                        Outcome::Dropped(DropReason::OutOfOrder)
                    },
                },
            },
        }
    }
}

/// The session after `event`. A live session ends on a lost connection,
/// which it keeps as its last error, and on shutdown; a message that can be
/// read becomes its latest snapshot. A session that has ended stays as it is.
pub open spec fn session_after(session: SessionView, event: EventView) -> SessionView {
    if !session.live {
        session
    } else {
        match event {
            EventView::Shutdown => SessionView { live: false, ..session },
            EventView::Lost(error) => SessionView {
                live: false,
                last_error: Some(error),
                ..session
            },
            EventView::Unreadable => session,
            EventView::Message(record) => match decoded(record) {
                Err(_) => session,
                Ok(snapshot) => SessionView { latest: Some(snapshot), ..session },
            },
        }
    }
}

/// The store after an event on node `id` that led to `outcome`: only a
/// recorded sample changes it, and only that node's history.
pub open spec fn store_after(
    store: Map<i32, Seq<HistorySample>>,
    id: i32,
    outcome: Outcome,
    window: u64,
) -> Map<i32, Seq<HistorySample>> {
    match outcome {
        Outcome::Recorded(sample) => store_appended(store, id, sample, window),
        _ => store,
    }
}

/// A message that cannot become a snapshot: it could not be taken apart, or
/// what it was taken apart into does not read as one.
pub open spec fn is_undecodable(event: EventView) -> bool {
    match event {
        EventView::Unreadable => true,
        EventView::Message(record) => decoded(record) is Err,
        _ => false,
    }
}

/// The session and the store after the events of `events`, each with the
/// time it came at, were handled one after another.
pub open spec fn after_events(
    session: SessionView,
    store: Map<i32, Seq<HistorySample>>,
    window: u64,
    events: Seq<(EventView, u64)>,
) -> (SessionView, Map<i32, Seq<HistorySample>>)
    decreases events.len(),
{
    if events.len() == 0 {
        (session, store)
    } else {
        let (earlier_session, earlier_store) = after_events(
            session,
            store,
            window,
            events.drop_last(),
        );
        let (event, elapsed) = events.last();
        let outcome = outcome_of(
            earlier_session,
            history_of(earlier_store, earlier_session.node_id),
            event,
            elapsed,
        );
        (
            session_after(earlier_session, event),
            store_after(earlier_store, earlier_session.node_id, outcome, window),
        )
    }
}

/// A message that cannot be decoded is dropped and changes nothing: the live
/// session stays live and the store stays as it was.
pub proof fn lemma_undecodable_message_is_dropped(
    session: SessionView,
    store: Map<i32, Seq<HistorySample>>,
    window: u64,
    event: EventView,
    elapsed: u64,
)
    requires
        session.live,
        is_undecodable(event),
    ensures
        outcome_of(session, history_of(store, session.node_id), event, elapsed) is Dropped,
        session_after(session, event) == session,
        store_after(
            store,
            session.node_id,
            outcome_of(session, history_of(store, session.node_id), event, elapsed),
            window,
        ) == store,
{
}

/// Any number of messages that cannot be decoded, one after another, leave
/// a live session and the store exactly as they were.
pub proof fn lemma_undecodable_messages_change_nothing(
    session: SessionView,
    store: Map<i32, Seq<HistorySample>>,
    window: u64,
    events: Seq<(EventView, u64)>,
)
    requires
        session.live,
        forall|i: int| 0 <= i < events.len() ==> is_undecodable(#[trigger] events[i].0),
    ensures
        after_events(session, store, window, events) == (session, store),
    decreases events.len(),
{
    if events.len() > 0 {
        let earlier = events.drop_last();
        assert forall|i: int| 0 <= i < earlier.len() implies is_undecodable(
            #[trigger] earlier[i].0,
        ) by {
            assert(earlier[i] == events[i]);
        }
        lemma_undecodable_messages_change_nothing(session, store, window, earlier);
        assert(is_undecodable(events[events.len() - 1].0));
    }
}

/// Corrupt messages are not fatal. After any number of messages that cannot
/// be decoded, a message that reads as a snapshot with a memory usage, at a
/// time the history accepts, finds the session live and is recorded: its
/// sample is then the newest of the node's history.
pub proof fn lemma_valid_message_after_failures_is_recorded(
    session: SessionView,
    store: Map<i32, Seq<HistorySample>>,
    window: u64,
    failures: Seq<(EventView, u64)>,
    record: Seq<FieldView>,
    elapsed: u64,
)
    requires
        session.live,
        forall|i: int| 0 <= i < failures.len() ==> is_undecodable(#[trigger] failures[i].0),
        decoded(record) is Ok,
        sample_of(decoded(record)->Ok_0, elapsed) is Some,
        accepts(history_of(store, session.node_id), sample_of(decoded(record)->Ok_0, elapsed)->0),
    ensures
        ({
            let sample = sample_of(decoded(record)->Ok_0, elapsed)->0;
            let events = failures.push((EventView::Message(record), elapsed));
            let (last_session, last_store) = after_events(session, store, window, events);
            &&& last_session.live
            &&& last_session.latest == Some(decoded(record)->Ok_0)
            &&& history_of(last_store, session.node_id).len() > 0
            &&& history_of(last_store, session.node_id).last() == sample
        }),
{
    let sample = sample_of(decoded(record)->Ok_0, elapsed)->0;
    let events = failures.push((EventView::Message(record), elapsed));
    assert(events.drop_last() =~= failures);
    lemma_undecodable_messages_change_nothing(session, store, window, failures);
    crate::history::lemma_append_respects_window(
        history_of(store, session.node_id),
        sample,
        window,
    );
}

impl Outcome {
    /// After this outcome the session is still to receive.
    pub fn keeps_receiving(&self) -> (going: bool)
        ensures
            going == (self is Recorded || self is Dropped),
    {
        match self {
            Outcome::Recorded(_) => true,
            Outcome::Dropped(_) => true,
            Outcome::Terminated => false,
            Outcome::Ignored => false,
        }
    }
}

impl View for Session {
    type V = SessionView;

    closed spec fn view(&self) -> SessionView {
        SessionView {
            node_id: self.node_id,
            endpoint: self.endpoint@,
            live: self.live,
            last_error: self.last_error,
            latest: match self.latest {
                Some(snapshot) => Some(snapshot@),
                None => None,
            },
        }
    }
}

impl Session {
    /// A live session with node `node_id`, whose stream is read from `endpoint`.
    pub fn new(node_id: i32, endpoint: String) -> (session: Self)
        ensures
            session@ == (SessionView {
                node_id,
                endpoint: endpoint@,
                live: true,
                last_error: None,
                latest: None,
            }),
    {
        Session { node_id, endpoint, live: true, last_error: None, latest: None }
    }

    /// The id of the node this session is with.
    pub fn node_id(&self) -> (id: i32)
        ensures
            id == self@.node_id,
    {
        self.node_id
    }

    /// The address the session's stream is read from.
    pub fn endpoint(&self) -> (endpoint: &str)
        ensures
            endpoint@ == self@.endpoint,
    {
        self.endpoint.as_str()
    }

    /// Whether the session is live.
    pub fn is_live(&self) -> (live: bool)
        ensures
            live == self@.live,
    {
        self.live
    }

    /// How the session's connection was lost, if it was.
    pub fn last_error(&self) -> (error: Option<TransportError>)
        ensures
            error == self@.last_error,
    {
        self.last_error
    }

    /// The newest snapshot read on this session, if any.
    pub fn latest(&self) -> (snapshot: Option<&MetricsSnapshot>)
        ensures
            match snapshot {
                Some(newest) => self@.latest == Some(newest@),
                None => self@.latest is None,
            },
    {
        self.latest.as_ref()
    }

    /// Ends the session on its owner's request.
    pub fn shutdown(&mut self)
        ensures
            final(self)@ == session_after(old(self)@, EventView::Shutdown),
    {
        self.live = false;
    }

    /// Takes one event of the session's connection, at `elapsed_secs` seconds
    /// since the client started. A message that reads as a snapshot with a
    /// memory usage is appended to the node's history in `store`; any other
    /// message is discarded and the session goes on. A lost connection or a
    /// shutdown ends the session. Nothing but this node's history is written,
    /// and after a recorded sample none of its samples is older than the
    /// window at `elapsed_secs`.
    pub fn handle(&mut self, event: SessionEvent, elapsed_secs: u64, store: &mut HistoryStore) -> (outcome:
        Outcome)
        ensures
            outcome == outcome_of(
                old(self)@,
                history_of(old(store)@, old(self)@.node_id),
                event@,
                elapsed_secs,
            ),
            final(self)@ == session_after(old(self)@, event@),
            final(store)@ == store_after(
                old(store)@,
                old(self)@.node_id,
                outcome,
                old(store).window(),
            ),
            final(store).window() == old(store).window(),
            outcome is Recorded ==> is_within(
                final(store)@,
                old(self)@.node_id,
                elapsed_secs,
                old(store).window(),
            ),
    {
        if !self.live {
            return Outcome::Ignored;
        }
        match event {
            SessionEvent::Shutdown => {
                self.live = false;
                Outcome::Terminated
            },
            SessionEvent::Lost(error) => {
                self.live = false;
                self.last_error = Some(error);
                Outcome::Terminated
            },
            SessionEvent::Unreadable => Outcome::Dropped(
                DropReason::Undecodable(DecodeError::Unreadable),
            ),
            SessionEvent::Message(fields) => match decode(&fields) {
                Err(fault) => Outcome::Dropped(DropReason::Undecodable(fault)),
                Ok(snapshot) => {
                    let usage = snapshot.memory_usage();
                    self.latest = Some(snapshot);
                    match usage {
                        None => Outcome::Dropped(DropReason::NoUsage),
                        Some(value) => {
                            let sample = HistorySample { elapsed_secs, value };
                            match store.append(self.node_id, sample) {
                                Ok(_) => Outcome::Recorded(sample),
                                Err(AppendError::OutOfOrder) => Outcome::Dropped(
                                    DropReason::OutOfOrder,
                                ),
                            }
                        },
                    }
                },
            },
        }
    }
}

} // verus!
