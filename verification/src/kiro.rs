//! The state of the client: the configured nodes, the one that is selected,
//! the connection manager, and a store of stand-in samples for the plots.

use crate::history::history_of;
use crate::history::is_windowed;
use crate::history::is_within;
use crate::history::store_appended;
use crate::history::HistorySample;
use crate::history::HistoryStore;
use crate::history::NodeHistory;
use crate::history::DEFAULT_WINDOW_SECS;
use crate::nodes::Node;
use crate::outside::random_in_range;
use crate::session::Outcome;
use crate::session::SessionEvent;
use crate::websocket::connected_all;
use crate::websocket::empty_manager;
use crate::websocket::manager_after;
use crate::websocket::manager_outcome;
use crate::websocket::shut_down;
use crate::websocket::nodes_view;
use crate::websocket::ConnectError;
use crate::websocket::ManagerView;
use crate::websocket::WebSocketManager;
use vstd::prelude::*;

verus! {

/// The value a stand-in history starts from: 50 percent.
pub const MOCK_START: u32 = 5_000;

/// The smallest stand-in value: 30 percent.
pub const MOCK_FLOOR: u32 = 3_000;

/// The largest stand-in value: 90 percent.
pub const MOCK_CEILING: u32 = 9_000;

/// A stand-in value moves by less than this between two samples: 2 percent.
pub const MOCK_STEP: i32 = 200;

/// The client's state.
pub struct Kiro<'a> {
    nodes: &'a Vec<Node<'a>>,
    selected: Option<i32>,
    ram_history: HistoryStore,
    manager: WebSocketManager,
}

/// The value of the newest sample of `history`, if it has one.
pub open spec fn newest_value(history: Seq<HistorySample>) -> Option<u32> {
    if history.len() == 0 {
        None
    } else {
        Some(history.last().value)
    }
}

/// The stand-in value that follows `last` when the walk moves by `step`:
/// the start value where there is none yet, moved by the step and kept
/// between floor and ceiling.
pub open spec fn next_mock_value(last: Option<u32>, step: i32) -> u32 {
    let base: int = match last {
        Some(value) => value as int,
        None => MOCK_START as int,
    };
    if base + step < MOCK_FLOOR {
        MOCK_FLOOR
    } else if base + step > MOCK_CEILING {
        MOCK_CEILING
    } else {
        (base + step) as u32
    }
}

/// The store after each node of `ids` got one stand-in sample at time
/// `elapsed`, the walk of the `i`-th node moving by `steps[i]`.
pub open spec fn mocked(
    store: Map<i32, Seq<HistorySample>>,
    ids: Seq<i32>,
    steps: Seq<i32>,
    elapsed: u64,
    window: u64,
) -> Map<i32, Seq<HistorySample>>
    decreases ids.len(),
{
    if ids.len() == 0 || steps.len() != ids.len() {
        store
    } else {
        let earlier = mocked(store, ids.drop_last(), steps.drop_last(), elapsed, window);
        let id = ids.last();
        store_appended(
            earlier,
            id,
            HistorySample {
                elapsed_secs: elapsed,
                value: next_mock_value(newest_value(history_of(earlier, id)), steps.last()),
            },
            window,
        )
    }
}

/// The ids of the nodes of a vector, in order.
pub open spec fn ids_of(nodes: Seq<Node>) -> Seq<i32> {
    nodes.map_values(|node: Node| node.id)
}

/// Whether a node of `nodes` has the id `id`.
pub open spec fn is_configured(nodes: Seq<Node>, id: i32) -> bool {
    exists|i: int| 0 <= i < nodes.len() && nodes[i].id == id
}

/// The stand-in value that follows `last` when the walk moves by `step`.
pub fn mock_value(last: Option<u32>, step: i32) -> (value: u32)
    ensures
        value == next_mock_value(last, step),
{
    let base: i64 = match last {
        Some(value) => value as i64,
        None => MOCK_START as i64,
    };
    let moved: i64 = base + step as i64;
    if moved < MOCK_FLOOR as i64 {
        MOCK_FLOOR
    } else if moved > MOCK_CEILING as i64 {
        MOCK_CEILING
    } else {
        moved as u32
    }
}

/// Gives node `id` one stand-in sample at time `elapsed_secs`, its walk
/// moving by `step`.
pub fn mock_sample(store: &mut HistoryStore, id: i32, elapsed_secs: u64, step: i32)
    ensures
        final(store).window() == old(store).window(),
        final(store)@ == store_appended(
            old(store)@,
            id,
            HistorySample {
                elapsed_secs,
                value: next_mock_value(newest_value(history_of(old(store)@, id)), step),
            },
            old(store).window(),
        ),
        is_within(final(store)@, id, elapsed_secs, old(store).window()),
{
    let last: Option<u32> = match store.get(id) {
        Some(history) => newest(history),
        None => None,
    };
    let _ = store.append(id, HistorySample { elapsed_secs, value: mock_value(last, step) });
}

fn newest(history: &NodeHistory) -> (value: Option<u32>)
    ensures
        value == newest_value(history@),
{
    let count = history.len();
    if count == 0 {
        None
    } else {
        match history.get(count - 1) {
            Some(sample) => Some(sample.value),
            None => None,
        }
    }
}

fn position(nodes: &Vec<Node>, id: i32) -> (found: Option<usize>)
    ensures
        match found {
            Some(index) => index < nodes.len() && nodes[index as int].id == id,
            None => !is_configured(nodes@, id),
        },
{
    let mut index: usize = 0;
    while index < nodes.len()
        invariant
            index <= nodes.len(),
            forall|i: int| 0 <= i < index ==> nodes[i].id != id,
        decreases nodes.len() - index,
    {
        if nodes[index].id == id {
            return Some(index);
        }
        index = index + 1;
    }
    None
}

impl<'a> Kiro<'a> {
    /// The nodes the client was configured with.
    pub closed spec fn nodes(&self) -> Seq<Node<'a>> {
        self.nodes@
    }

    /// The id of the selected node, if one is selected.
    pub closed spec fn selection(&self) -> Option<i32> {
        self.selected
    }

    /// The stand-in histories, by node id.
    pub closed spec fn mock_histories(&self) -> Map<i32, Seq<HistorySample>> {
        self.ram_history@
    }

    /// The window the stand-in histories retain, in seconds.
    pub closed spec fn mock_window(&self) -> u64 {
        self.ram_history.window()
    }

    /// The connection manager as a plain value.
    pub closed spec fn connections(&self) -> ManagerView {
        self.manager@
    }

    /// The client for `nodes`: nothing selected, no samples, and a live
    /// session with every node. Fails with the first node that cannot be
    /// connected; there is no client for a part of the nodes.
    pub fn new(nodes: &'a Vec<Node<'a>>) -> (made: Result<Self, ConnectError>)
        ensures
            match made {
                Ok(kiro) => {
                    &&& kiro.nodes() == nodes@
                    &&& kiro.selection() is None
                    &&& kiro.mock_histories() == Map::<i32, Seq<HistorySample>>::empty()
                    &&& kiro.mock_window() == DEFAULT_WINDOW_SECS
                    &&& connected_all(empty_manager(DEFAULT_WINDOW_SECS), nodes_view(nodes@)) == Ok::<
                        ManagerView,
                        ConnectError,
                    >(kiro.connections())
                },
                Err(error) => connected_all(empty_manager(DEFAULT_WINDOW_SECS), nodes_view(nodes@))
                    == Err::<ManagerView, ConnectError>(error),
            },
    {
        let mut manager = WebSocketManager::new();
        match manager.start(nodes) {
            Ok(()) => Ok(
                Kiro {
                    nodes,
                    selected: None,
                    ram_history: HistoryStore::new(DEFAULT_WINDOW_SECS),
                    manager,
                },
            ),
            Err(error) => Err(error),
        }
    }

    /// The connection manager.
    pub fn manager(&self) -> (manager: &WebSocketManager)
        ensures
            manager@ == self.connections(),
    {
        &self.manager
    }

    /// The id of the selected node, if one is selected.
    pub fn selected(&self) -> (id: Option<i32>)
        ensures
            id == self.selection(),
    {
        self.selected
    }

    /// Selects the node with id `id` and says whether there is one; an id
    /// that no configured node has leaves the selection as it was.
    pub fn select(&mut self, id: i32) -> (done: bool)
        ensures
            done == is_configured(old(self).nodes(), id),
            final(self).selection() == if done {
                Some(id)
            } else {
                old(self).selection()
            },
            final(self).nodes() == old(self).nodes(),
            final(self).mock_histories() == old(self).mock_histories(),
            final(self).mock_window() == old(self).mock_window(),
            final(self).connections() == old(self).connections(),
    {
        match position(self.nodes, id) {
            Some(_) => {
                self.selected = Some(id);
                true
            },
            None => false,
        }
    }

    /// The selected node: the first configured node with the selected id.
    pub fn selected_node(&self) -> (node: Option<&Node<'a>>)
        ensures
            match node {
                Some(found) => self.selection() == Some(found.id) && self.nodes().contains(*found),
                None => self.selection() is None || !is_configured(
                    self.nodes(),
                    self.selection()->0,
                ),
            },
    {
        match self.selected {
            None => None,
            Some(id) => match position(self.nodes, id) {
                Some(index) => Some(&self.nodes[index]),
                None => None,
            },
        }
    }

    /// The stand-in history of node `id`, if it has one. It is in order and
    /// within the window.
    pub fn ram_history(&self, id: i32) -> (history: Option<&NodeHistory>)
        ensures
            match history {
                Some(found) => {
                    &&& self.mock_histories().contains_key(id)
                    &&& found@ == self.mock_histories()[id]
                    &&& found.window() == self.mock_window()
                    &&& is_windowed(found@, self.mock_window())
                },
                None => !self.mock_histories().contains_key(id),
            },
    {
        self.ram_history.get(id)
    }

    /// Gives every configured node one stand-in sample at `elapsed_secs`
    /// seconds since the client started. Each node's value walks at random
    /// from its newest one, by less than `MOCK_STEP` and never out of the
    /// range from `MOCK_FLOOR` to `MOCK_CEILING`; what is older than the
    /// window leaves, so afterwards no sample of a configured node is older
    /// than the window at `elapsed_secs`. Whatever is drawn, the store is the
    /// one that `mocked` gives for some steps within that bound.
    pub fn mock_data(&mut self, elapsed_secs: u64)
        ensures
            final(self).nodes() == old(self).nodes(),
            final(self).selection() == old(self).selection(),
            final(self).connections() == old(self).connections(),
            final(self).mock_window() == old(self).mock_window(),
            forall|i: int|
                0 <= i < old(self).nodes().len() ==> is_within(
                    final(self).mock_histories(),
                    (#[trigger] old(self).nodes()[i]).id,
                    elapsed_secs,
                    old(self).mock_window(),
                ),
            exists|steps: Seq<i32>|
                {
                    &&& steps.len() == old(self).nodes().len()
                    &&& forall|i: int| 0 <= i < steps.len() ==> -MOCK_STEP <= #[trigger] steps[i] < MOCK_STEP
                    &&& final(self).mock_histories() == mocked(
                        old(self).mock_histories(),
                        ids_of(old(self).nodes()),
                        steps,
                        elapsed_secs,
                        old(self).mock_window(),
                    )
                },
    {
        let ghost before = self.ram_history@;
        let ghost window = self.ram_history.window();
        let ghost ids = ids_of(self.nodes@);
        let ghost steps: Seq<i32> = Seq::empty();
        let mut index: usize = 0;
        assert(ids.take(0) =~= Seq::empty());
        while index < self.nodes.len()
            invariant
                index <= self.nodes.len(),
                self.nodes == old(self).nodes,
                self.selected == old(self).selected,
                self.manager == old(self).manager,
                ids == ids_of(self.nodes@),
                window == self.ram_history.window(),
                steps.len() == index,
                forall|i: int| 0 <= i < steps.len() ==> -MOCK_STEP <= #[trigger] steps[i] < MOCK_STEP,
                self.ram_history@ == mocked(before, ids.take(index as int), steps, elapsed_secs, window),
                forall|i: int|
                    0 <= i < index ==> is_within(
                        self.ram_history@,
                        (#[trigger] self.nodes@[i]).id,
                        elapsed_secs,
                        window,
                    ),
            decreases self.nodes.len() - index,
        {
            let id: i32 = self.nodes[index].id;
            let step: i32 = random_in_range(-MOCK_STEP, MOCK_STEP - 1);
            let ghost earlier = self.ram_history@;
            mock_sample(&mut self.ram_history, id, elapsed_secs, step);
            proof {
                assert forall|i: int| 0 <= i < index + 1 implies is_within(
                    self.ram_history@,
                    (#[trigger] self.nodes@[i]).id,
                    elapsed_secs,
                    window,
                ) by {
                    let other = self.nodes@[i].id;
                    if other != id {
                        assert(is_within(earlier, other, elapsed_secs, window));
                        assert(self.ram_history@[other] == earlier[other]);
                    }
                }
                let longer = steps.push(step);
                assert(ids.take(index + 1).drop_last() =~= ids.take(index as int));
                assert(longer.drop_last() =~= steps);
                assert(ids.take(index + 1).last() == id);
                steps = longer;
            }
            index = index + 1;
        }
        assert(ids.take(index as int) =~= ids);
        assert(steps.len() == old(self).nodes().len());
        assert(self.mock_histories() == mocked(
            old(self).mock_histories(),
            ids_of(old(self).nodes()),
            steps,
            elapsed_secs,
            old(self).mock_window(),
        ));
    }

    /// Takes one event of the connection of node `id` and hands it to the
    /// connection manager.
    pub fn handle(&mut self, id: i32, event: SessionEvent, elapsed_secs: u64) -> (outcome: Outcome)
        ensures
            outcome == manager_outcome(old(self).connections(), id, event@, elapsed_secs),
            final(self).connections() == manager_after(
                old(self).connections(),
                id,
                event@,
                elapsed_secs,
            ),
            final(self).nodes() == old(self).nodes(),
            final(self).selection() == old(self).selection(),
            final(self).mock_histories() == old(self).mock_histories(),
            final(self).mock_window() == old(self).mock_window(),
    {
        self.manager.handle(id, event, elapsed_secs)
    }

    /// Ends every session. Nodes, selection and samples stay.
    pub fn shutdown(&mut self)
        ensures
            final(self).connections() == shut_down(old(self).connections()),
            final(self).nodes() == old(self).nodes(),
            final(self).selection() == old(self).selection(),
            final(self).mock_histories() == old(self).mock_histories(),
            final(self).mock_window() == old(self).mock_window(),
    {
        self.manager.shutdown()
    }
}

} // verus!
