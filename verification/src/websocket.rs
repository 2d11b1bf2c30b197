//! The connection manager: one session per configured node, found by node
//! id, and the histories their messages are recorded in.

use crate::history::history_of;
use crate::history::is_windowed;
use crate::history::HistorySample;
use crate::history::HistoryStore;
use crate::history::NodeHistory;
use crate::history::DEFAULT_WINDOW_SECS;
use crate::nodes::Node;
use crate::nodes::NodeView;
use crate::outside::normalized_address;
use crate::outside::parse_address;
use crate::session::outcome_of;
use crate::session::session_after;
use crate::session::store_after;
use crate::session::EventView;
use crate::session::Outcome;
use crate::session::Session;
use crate::session::SessionEvent;
use crate::session::SessionView;
use crate::session::TransportError;
use std::collections::HashMap;
use std::collections::HashSet;
use vstd::prelude::*;

verus! {

broadcast use vstd::std_specs::hash::group_hash_axioms;

/// Why a node could not be connected.
#[derive(Clone, Copy, Debug, PartialEq, Eq)]
pub enum ConnectError {
    /// The address of the node with this id is no absolute URL.
    InvalidAddress(i32),
    /// There is a session with this node id already.
    AlreadyConnected(i32),
}

/// A manager as a plain value: its sessions by node id, the node ids in the
/// order their sessions were made, the histories by node id, and the window
/// the histories retain.
pub ghost struct ManagerView {
    pub sessions: Map<i32, SessionView>,
    pub order: Seq<i32>,
    pub histories: Map<i32, Seq<HistorySample>>,
    pub window: u64,
}

/// Owns the sessions of all configured nodes and the store their samples go to.
pub struct WebSocketManager {
    order: Vec<i32>,
    sessions: HashMap<i32, Session>,
    store: HistoryStore,
}

/// A manager without sessions and histories that retains `window` seconds.
pub open spec fn empty_manager(window: u64) -> ManagerView {
    ManagerView { sessions: Map::empty(), order: Seq::empty(), histories: Map::empty(), window }
}

/// The session with node `id`, if there is one.
pub open spec fn session_of(sessions: Map<i32, SessionView>, id: i32) -> Option<SessionView> {
    if sessions.contains_key(id) {
        Some(sessions[id])
    } else {
        None
    }
}

/// The session a node gets when it is connected: live, with nothing received
/// and nothing gone wrong.
pub open spec fn fresh_session(id: i32, endpoint: Seq<char>) -> SessionView {
    SessionView { node_id: id, endpoint, live: true, last_error: None, latest: None }
}

/// A node on its way to a session: its id, and the address its stream is to
/// be read from where the node's address gave one.
#[derive(Clone, Debug, PartialEq, Eq)]
pub struct Dial {
    pub node_id: i32,
    pub endpoint: Option<String>,
}

/// A dial as a plain value.
pub ghost struct DialView {
    pub node_id: i32,
    pub endpoint: Option<Seq<char>>,
}

impl View for Dial {
    type V = DialView;

    open spec fn view(&self) -> DialView {
        DialView {
            node_id: self.node_id,
            endpoint: match self.endpoint {
                Some(endpoint) => Some(endpoint@),
                None => None,
            },
        }
    }
}

/// The dials of a vector as plain values, in order.
pub open spec fn dials_view(dials: Seq<Dial>) -> Seq<DialView> {
    dials.map_values(|dial: Dial| dial@)
}

/// What admitting `dial` gives: a manager with one more session, or the
/// reason there is none. A dial without an endpoint stands for an address
/// that is no URL; that is looked at first.
pub open spec fn admitted(manager: ManagerView, dial: DialView) -> Result<
    ManagerView,
    ConnectError,
> {
    match dial.endpoint {
        None => Err(ConnectError::InvalidAddress(dial.node_id)),
        Some(endpoint) => if manager.sessions.contains_key(dial.node_id) {
            Err(ConnectError::AlreadyConnected(dial.node_id))
        } else {
            Ok(
                ManagerView {
                    sessions: manager.sessions.insert(
                        dial.node_id,
                        fresh_session(dial.node_id, endpoint),
                    ),
                    order: manager.order.push(dial.node_id),
                    ..manager
                },
            )
        },
    }
}

/// What admitting the dials of `dials` one after another gives: the manager
/// with a session for each, or the reason the first of them that cannot be
/// admitted has none.
pub open spec fn admitted_all(manager: ManagerView, dials: Seq<DialView>) -> Result<
    ManagerView,
    ConnectError,
>
    decreases dials.len(),
{
    if dials.len() == 0 {
        Ok(manager)
    } else {
        match admitted_all(manager, dials.drop_last()) {
            Err(error) => Err(error),
            Ok(earlier) => admitted(earlier, dials.last()),
        }
    }
}

/// The dial of a node: its id, with its address in normal form where it is
/// an absolute URL.
pub open spec fn dial_of(node: NodeView) -> DialView {
    DialView { node_id: node.id, endpoint: normalized_address(node.address) }
}

/// What connecting `node` gives: what admitting its dial gives.
pub open spec fn connected(manager: ManagerView, node: NodeView) -> Result<
    ManagerView,
    ConnectError,
> {
    admitted(manager, dial_of(node))
}

/// The nodes of a vector as plain values, in order.
pub open spec fn nodes_view(nodes: Seq<Node>) -> Seq<NodeView> {
    nodes.map_values(|node: Node| node@)
}

/// What connecting the nodes of `nodes` one after another gives: what
/// admitting their dials gives.
pub open spec fn connected_all(manager: ManagerView, nodes: Seq<NodeView>) -> Result<
    ManagerView,
    ConnectError,
> {
    admitted_all(manager, nodes.map_values(|node: NodeView| dial_of(node)))
}

/// What `event` on the connection of node `id` leads to.
pub open spec fn manager_outcome(
    manager: ManagerView,
    id: i32,
    event: EventView,
    elapsed: u64,
) -> Outcome {
    if manager.sessions.contains_key(id) {
        outcome_of(manager.sessions[id], history_of(manager.histories, id), event, elapsed)
    } else {
        Outcome::Ignored
    }
}

/// The manager after `event` on the connection of node `id`: the session
/// with that node and that node's history move on; all else stays.
pub open spec fn manager_after(
    manager: ManagerView,
    id: i32,
    event: EventView,
    elapsed: u64,
) -> ManagerView {
    if manager.sessions.contains_key(id) {
        ManagerView {
            sessions: manager.sessions.insert(id, session_after(manager.sessions[id], event)),
            histories: store_after(
                manager.histories,
                id,
                manager_outcome(manager, id, event, elapsed),
                manager.window,
            ),
            ..manager
        }
    } else {
        manager
    }
}

/// The manager after all its sessions were told to shut down.
pub open spec fn shut_down(manager: ManagerView) -> ManagerView {
    ManagerView {
        sessions: manager.sessions.map_values(
            |session: SessionView| session_after(session, EventView::Shutdown),
        ),
        ..manager
    }
}

/// The sessions of a map as plain values, under the same ids.
pub open spec fn sessions_view(sessions: Map<i32, Session>) -> Map<i32, SessionView> {
    sessions.map_values(|session: Session| session@)
}

/// Every session is kept under the id of its node, and the order lists
/// exactly the ids that have a session.
pub open spec fn is_consistent(sessions: Map<i32, SessionView>, order: Seq<i32>) -> bool {
    &&& forall|id: i32| #[trigger] sessions.contains_key(id) ==> sessions[id].node_id == id
    &&& forall|i: int| 0 <= i < order.len() ==> sessions.contains_key(#[trigger] order[i])
    &&& forall|id: i32| #[trigger] sessions.contains_key(id) ==> order.contains(id)
}

impl View for WebSocketManager {
    type V = ManagerView;

    closed spec fn view(&self) -> ManagerView {
        ManagerView {
            sessions: sessions_view(self.sessions@),
            order: self.order@,
            histories: self.store@,
            window: self.store.window(),
        }
    }
}

impl WebSocketManager {
    #[verifier::type_invariant]
    spec fn well_formed(self) -> bool {
        is_consistent(sessions_view(self.sessions@), self.order@)
    }

    /// A manager without sessions whose histories retain 24 hours.
    pub fn new() -> (manager: Self)
        ensures
            manager@ == empty_manager(DEFAULT_WINDOW_SECS),
    {
        Self::with_window(DEFAULT_WINDOW_SECS)
    }

    /// A manager without sessions whose histories retain `window` seconds.
    pub fn with_window(window: u64) -> (manager: Self)
        ensures
            manager@ == empty_manager(window),
    {
        let sessions: HashMap<i32, Session> = HashMap::new();
        assert(sessions_view(sessions@) =~= Map::empty());
        WebSocketManager { order: Vec::new(), sessions, store: HistoryStore::new(window) }
    }

    /// Number of sessions.
    pub fn len(&self) -> (count: usize)
        ensures
            count == self@.order.len(),
            is_consistent(self@.sessions, self@.order),
    {
        proof {
            use_type_invariant(self);
        }
        self.order.len()
    }

    /// The `index`-th session, in the order the sessions were made.
    pub fn session_at(&self, index: usize) -> (session: Option<&Session>)
        ensures
            match session {
                Some(found) => {
                    &&& index < self@.order.len()
                    &&& self@.sessions.contains_key(self@.order[index as int])
                    &&& found@ == self@.sessions[self@.order[index as int]]
                },
                None => index >= self@.order.len(),
            },
    {
        proof {
            use_type_invariant(self);
        }
        if index < self.order.len() {
            let id: i32 = self.order[index];
            assert(sessions_view(self.sessions@).contains_key(id));
            self.sessions.get(&id)
        } else {
            None
        }
    }

    /// The session with node `id`, if there is one.
    pub fn lookup(&self, id: i32) -> (session: Option<&Session>)
        ensures
            match session {
                Some(found) => session_of(self@.sessions, id) == Some(found@) && found@.node_id
                    == id,
                None => session_of(self@.sessions, id) is None,
            },
    {
        proof {
            use_type_invariant(self);
        }
        self.sessions.get(&id)
    }

    /// The history of node `id`, if a sample of it was ever recorded. It is
    /// in order and within the manager's window.
    pub fn history(&self, id: i32) -> (history: Option<&NodeHistory>)
        ensures
            match history {
                Some(found) => {
                    &&& self@.histories.contains_key(id)
                    &&& found@ == self@.histories[id]
                    &&& found.window() == self@.window
                    &&& is_windowed(found@, self@.window)
                },
                None => !self@.histories.contains_key(id),
            },
    {
        self.store.get(id)
    }

    /// Makes a live session with `node`, to be read from the node's address
    /// in its normal form. Fails, and changes nothing, where the address is
    /// no absolute URL or the node has a session already.
    pub fn connect(&mut self, node: &Node) -> (made: Result<(), ConnectError>)
        ensures
            match made {
                Ok(()) => connected(old(self)@, node@) == Ok::<ManagerView, ConnectError>(
                    final(self)@,
                ),
                Err(error) => {
                    &&& connected(old(self)@, node@) == Err::<ManagerView, ConnectError>(error)
                    &&& final(self)@ == old(self)@
                },
            },
    {
        match parse_address(node.address) {
            Ok(endpoint) => self.register(node.id, endpoint),
            Err(_) => Err(ConnectError::InvalidAddress(node.id)),
        }
    }

    /// Makes a live session with node `id`, to be read from `endpoint` as it
    /// stands. Fails, and changes nothing, where the node has a session already.
    pub fn register(&mut self, id: i32, endpoint: String) -> (made: Result<(), ConnectError>)
        ensures
            match made {
                Ok(()) => {
                    &&& !old(self)@.sessions.contains_key(id)
                    &&& final(self)@ == (ManagerView {
                        sessions: old(self)@.sessions.insert(id, fresh_session(id, endpoint@)),
                        order: old(self)@.order.push(id),
                        ..old(self)@
                    })
                },
                Err(error) => {
                    &&& error == ConnectError::AlreadyConnected(id)
                    &&& old(self)@.sessions.contains_key(id)
                    &&& final(self)@ == old(self)@
                },
            },
    {
        proof {
            use_type_invariant(&*self);
        }
        if self.sessions.contains_key(&id) {
            return Err(ConnectError::AlreadyConnected(id));
        }
        let mut taken = WebSocketManager::with_window(0);
        std::mem::swap(self, &mut taken);
        let WebSocketManager { mut order, mut sessions, store } = taken;
        let ghost before = sessions_view(sessions@);
        let ghost listed = order@;
        sessions.insert(id, Session::new(id, endpoint));
        order.push(id);
        proof {
            let after = sessions_view(sessions@);
            assert(after =~= before.insert(id, fresh_session(id, endpoint@)));
            assert forall|i: int| 0 <= i < order@.len() implies after.contains_key(
                #[trigger] order@[i],
            ) by {
                if i < listed.len() {
                    assert(order@[i] == listed[i]);
                }
            }
            assert forall|other: i32| #[trigger] after.contains_key(other) implies order@.contains(
                other,
            ) by {
                if other == id {
                    assert(order@[listed.len() as int] == id);
                } else {
                    let i = choose|i: int| 0 <= i < listed.len() && listed[i] == other;
                    assert(order@[i] == other);
                }
            }
        }
        *self = WebSocketManager { order, sessions, store };
        Ok(())
    }

    /// Makes a live session for each dial of `dials`, in order, or for none
    /// of them: where one cannot be admitted, its error comes back and the
    /// manager stays as it was.
    pub fn admit_all(&mut self, dials: &Vec<Dial>) -> (made: Result<(), ConnectError>)
        ensures
            match made {
                Ok(()) => admitted_all(old(self)@, dials_view(dials@)) == Ok::<
                    ManagerView,
                    ConnectError,
                >(final(self)@),
                Err(error) => {
                    &&& admitted_all(old(self)@, dials_view(dials@)) == Err::<
                        ManagerView,
                        ConnectError,
                    >(error)
                    &&& final(self)@ == old(self)@
                },
            },
    {
        let ghost before = self@;
        let ghost all = dials_view(dials@);
        let ghost reached = before;
        let mut seen: HashSet<i32> = HashSet::new();
        let mut index: usize = 0;
        assert(all.take(0) =~= Seq::empty());
        while index < dials.len()
            invariant
                index <= dials.len(),
                self@ == before,
                all == dials_view(dials@),
                admitted_all(before, all.take(index as int)) == Ok::<ManagerView, ConnectError>(
                    reached,
                ),
                forall|id: i32|
                    #[trigger] reached.sessions.contains_key(id) <==> before.sessions.contains_key(
                        id,
                    ) || seen@.contains(id),
            decreases dials.len() - index,
        {
            let dial = &dials[index];
            proof {
                assert(all.take(index + 1).drop_last() =~= all.take(index as int));
                assert(all.take(index + 1).last() == dial@);
            }
            if dial.endpoint.is_none() {
                proof {
                    lemma_admitting_fails_for_good(before, all, index + 1);
                }
                return Err(ConnectError::InvalidAddress(dial.node_id));
            }
            if self.known(dial.node_id) || seen.contains(&dial.node_id) {
                proof {
                    assert(dial@.endpoint is Some);
                    assert(reached.sessions.contains_key(dial.node_id));
                    lemma_admitting_fails_for_good(before, all, index + 1);
                }
                return Err(ConnectError::AlreadyConnected(dial.node_id));
            }
            seen.insert(dial.node_id);
            proof {
                assert(dial@.endpoint is Some);
                assert(!reached.sessions.contains_key(dial.node_id));
                reached = admitted(reached, dial@)->Ok_0;
            }
            index = index + 1;
        }
        assert(all.take(index as int) =~= all);
        index = 0;
        while index < dials.len()
            invariant
                index <= dials.len(),
                all == dials_view(dials@),
                admitted_all(before, all) is Ok,
                admitted_all(before, all.take(index as int)) == Ok::<ManagerView, ConnectError>(
                    self@,
                ),
            decreases dials.len() - index,
        {
            let dial = &dials[index];
            proof {
                assert(all.take(index + 1).drop_last() =~= all.take(index as int));
                assert(all.take(index + 1).last() == dial@);
                if admitted_all(before, all.take(index + 1)) is Err {
                    lemma_admitting_fails_for_good(before, all, index + 1);
                }
            }
            let made = match &dial.endpoint {
                Some(endpoint) => self.register(dial.node_id, endpoint.clone()),
                None => Ok(()),
            };
            assert(made is Ok);
            index = index + 1;
        }
        assert(all.take(index as int) =~= all);
        Ok(())
    }

    fn known(&self, id: i32) -> (known: bool)
        ensures
            known == self@.sessions.contains_key(id),
    {
        self.sessions.contains_key(&id)
    }

    /// Makes a live session with each node of `nodes`, in order, or with none
    /// of them: where one cannot be connected, its error comes back and the
    /// manager stays as it was.
    pub fn start(&mut self, nodes: &Vec<Node>) -> (started: Result<(), ConnectError>)
        ensures
            match started {
                Ok(()) => connected_all(old(self)@, nodes_view(nodes@)) == Ok::<
                    ManagerView,
                    ConnectError,
                >(final(self)@),
                Err(error) => {
                    &&& connected_all(old(self)@, nodes_view(nodes@)) == Err::<
                        ManagerView,
                        ConnectError,
                    >(error)
                    &&& final(self)@ == old(self)@
                },
            },
    {
        let ghost wanted = nodes_view(nodes@).map_values(|node: NodeView| dial_of(node));
        let mut dials: Vec<Dial> = Vec::new();
        let mut index: usize = 0;
        while index < nodes.len()
            invariant
                index <= nodes.len(),
                wanted == nodes_view(nodes@).map_values(|node: NodeView| dial_of(node)),
                dials_view(dials@) =~= wanted.take(index as int),
            decreases nodes.len() - index,
        {
            let node = &nodes[index];
            let endpoint = match parse_address(node.address) {
                Ok(endpoint) => Some(endpoint),
                Err(_) => None,
            };
            let ghost earlier = dials_view(dials@);
            dials.push(Dial { node_id: node.id, endpoint });
            proof {
                assert(nodes_view(nodes@)[index as int] == node@);
                assert(wanted[index as int] == dial_of(node@));
                assert(dials_view(dials@) =~= earlier.push(dial_of(node@)));
                assert(wanted.take(index + 1) =~= wanted.take(index as int).push(
                    wanted[index as int],
                ));
            }
            index = index + 1;
        }
        assert(wanted.take(index as int) =~= wanted);
        self.admit_all(&dials)
    }

    /// Ends every session. The histories stay, so what was recorded can
    /// still be read.
    pub fn shutdown(&mut self)
        ensures
            final(self)@ == shut_down(old(self)@),
    {
        proof {
            use_type_invariant(&*self);
        }
        let ghost before = self@;
        let mut taken = WebSocketManager::with_window(0);
        std::mem::swap(self, &mut taken);
        let WebSocketManager { order, mut sessions, store } = taken;
        let mut index: usize = 0;
        while index < order.len()
            invariant
                index <= order.len(),
                order@ == before.order,
                is_consistent(before.sessions, before.order),
                forall|id: i32|
                    sessions_view(sessions@).contains_key(id) <==> before.sessions.contains_key(id),
                forall|id: i32| #[trigger]
                    before.sessions.contains_key(id) ==> sessions_view(sessions@)[id] == (if exists|
                        j: int,
                    |
                        0 <= j < index && order@[j] == id {
                        session_after(before.sessions[id], EventView::Shutdown)
                    } else {
                        before.sessions[id]
                    }),
            decreases order.len() - index,
        {
            let id: i32 = order[index];
            let ghost prior = sessions_view(sessions@);
            assert(before.sessions.contains_key(order@[index as int]));
            match sessions.remove(&id) {
                Some(session) => {
                    let mut session = session;
                    session.shutdown();
                    sessions.insert(id, session);
                },
                None => {},
            }
            proof {
                let now = sessions_view(sessions@);
                assert(now =~= prior.insert(id, session_after(prior[id], EventView::Shutdown)));
                assert forall|other: i32| #[trigger]
                    before.sessions.contains_key(other) implies now[other] == (if exists|j: int|
                    0 <= j < index + 1 && order@[j] == other {
                    session_after(before.sessions[other], EventView::Shutdown)
                } else {
                    before.sessions[other]
                }) by {
                    if other == id {
                        assert(order@[index as int] == other);
                    } else if exists|j: int| 0 <= j < index + 1 && order@[j] == other {
                        let j = choose|j: int| 0 <= j < index + 1 && order@[j] == other;
                        assert(0 <= j < index && order@[j] == other);
                    }
                }
            }
            index = index + 1;
        }
        proof {
            let now = sessions_view(sessions@);
            assert forall|id: i32| #[trigger] now.contains_key(id) implies now[id] == session_after(
                before.sessions[id],
                EventView::Shutdown,
            ) by {
                assert(before.sessions.contains_key(id));
                let j = choose|j: int| 0 <= j < order@.len() && order@[j] == id;
                assert(0 <= j < index && order@[j] == id);
            }
            assert(now =~= shut_down(before).sessions);
        }
        *self = WebSocketManager { order, sessions, store };
    }

    /// Takes one event of the connection of node `id`, at `elapsed_secs`
    /// seconds since the client started, and hands it to the node's session.
    /// No other session and no other node's history changes; an event for a
    /// node without a session changes nothing at all.
    pub fn handle(&mut self, id: i32, event: SessionEvent, elapsed_secs: u64) -> (outcome: Outcome)
        ensures
            outcome == manager_outcome(old(self)@, id, event@, elapsed_secs),
            final(self)@ == manager_after(old(self)@, id, event@, elapsed_secs),
    {
        proof {
            use_type_invariant(&*self);
        }
        if !self.sessions.contains_key(&id) {
            return Outcome::Ignored;
        }
        let mut taken = WebSocketManager::with_window(0);
        std::mem::swap(self, &mut taken);
        let WebSocketManager { order, mut sessions, mut store } = taken;
        let ghost prior = sessions_view(sessions@);
        let outcome = match sessions.remove(&id) {
            Some(session) => {
                let mut session = session;
                let outcome = session.handle(event, elapsed_secs, &mut store);
                sessions.insert(id, session);
                outcome
            },
            None => Outcome::Ignored,
        };
        proof {
            assert(sessions_view(sessions@) =~= prior.insert(id, session_after(prior[id], event@)));
        }
        *self = WebSocketManager { order, sessions, store };
        outcome
    }
}

/// Once admitting has failed for the first `n` dials, it fails the same way
/// for all of them.
pub proof fn lemma_admitting_fails_for_good(manager: ManagerView, dials: Seq<DialView>, n: int)
    requires
        0 <= n <= dials.len(),
        admitted_all(manager, dials.take(n)) is Err,
    ensures
        admitted_all(manager, dials) == admitted_all(manager, dials.take(n)),
    decreases dials.len() - n,
{
    if n < dials.len() {
        assert(dials.take(n + 1).drop_last() =~= dials.take(n));
        lemma_admitting_fails_for_good(manager, dials, n + 1);
    } else {
        assert(dials.take(n) =~= dials);
    }
}

/// Isolation of sessions: an event on the connection of node `a` leaves the
/// session and the history of every other node as they were.
pub proof fn lemma_events_are_isolated(
    manager: ManagerView,
    a: i32,
    event: EventView,
    elapsed: u64,
    b: i32,
)
    requires
        a != b,
    ensures
        session_of(manager_after(manager, a, event, elapsed).sessions, b) == session_of(
            manager.sessions,
            b,
        ),
        history_of(manager_after(manager, a, event, elapsed).histories, b) == history_of(
            manager.histories,
            b,
        ),
{
}

/// A lost connection ends exactly one session. Where node `a` has a live
/// session, losing its connection ends that session with the loss as its
/// last error, touches no history, and leaves the session of every other
/// node, live or not, as it was.
pub proof fn lemma_lost_connection_ends_one_session(
    manager: ManagerView,
    a: i32,
    error: TransportError,
    elapsed: u64,
)
    requires
        session_of(manager.sessions, a) is Some,
        session_of(manager.sessions, a)->0.live,
    ensures
        ({
            let after = manager_after(manager, a, EventView::Lost(error), elapsed);
            let ended = session_of(manager.sessions, a)->0;
            &&& manager_outcome(manager, a, EventView::Lost(error), elapsed) == Outcome::Terminated
            &&& session_of(after.sessions, a) == Some(
                SessionView { live: false, last_error: Some(error), ..ended },
            )
            &&& after.histories == manager.histories
            &&& after.order == manager.order
            &&& forall|b: i32|
                b != a ==> #[trigger] session_of(after.sessions, b) == session_of(manager.sessions, b)
        }),
{
}

} // verus!
