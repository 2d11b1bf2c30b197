//! Bounded histories: per node, the samples of the trailing time window in
//! the order they arrived.

use crate::outside::duration_text;
use crate::outside::format_seconds;
use std::collections::HashMap;
use std::collections::VecDeque;
use vstd::prelude::*;

verus! {

broadcast use vstd::std_specs::hash::group_hash_axioms;

/// Default length of the retained window: 24 hours, in seconds.
pub const DEFAULT_WINDOW_SECS: u64 = 86_400;

/// One observation: when it was made, in seconds since the client started,
/// and the observed value in hundredths of a percent.
#[derive(Clone, Copy, Debug, PartialEq, Eq)]
pub struct HistorySample {
    pub elapsed_secs: u64,
    pub value: u32,
}

impl HistorySample {
    /// The time of the sample in words, such as `2h 37m`, as it is written
    /// along the time axis of a plot.
    pub fn elapsed_label(&self) -> (label: String)
        ensures
            label@ == duration_text(self.elapsed_secs),
    {
        format_seconds(self.elapsed_secs)
    }
}

/// Why a sample was not stored.
#[derive(Clone, Copy, Debug, PartialEq, Eq)]
pub enum AppendError {
    /// The sample is older than the newest one already stored.
    OutOfOrder,
}

/// At time `now`, `sample` is no older than `window`.
pub open spec fn in_window(now: u64, sample: HistorySample, window: u64) -> bool {
    now - sample.elapsed_secs <= window
}

/// The samples of `samples` that are no older than `window` at time `now`, in order.
pub open spec fn retained(samples: Seq<HistorySample>, now: u64, window: u64) -> Seq<
    HistorySample,
> {
    samples.filter(|s: HistorySample| in_window(now, s, window))
}

/// No sample is older than one before it.
pub open spec fn is_chronological(samples: Seq<HistorySample>) -> bool {
    forall|i: int, j: int|
        0 <= i <= j < samples.len() ==> samples[i].elapsed_secs <= samples[j].elapsed_secs
}

/// The samples are in order and within the window: none is older than one
/// before it, and none is older than `window` at the time of the newest.
pub open spec fn is_windowed(samples: Seq<HistorySample>, window: u64) -> bool {
    &&& is_chronological(samples)
    &&& forall|i: int|
        0 <= i < samples.len() ==> in_window(
            samples.last().elapsed_secs,
            #[trigger] samples[i],
            window,
        )
}

/// `sample` may follow `samples`: it is not older than the newest of them.
pub open spec fn accepts(samples: Seq<HistorySample>, sample: HistorySample) -> bool {
    samples.len() == 0 || samples.last().elapsed_secs <= sample.elapsed_secs
}

/// The history that results from offering `sample` to `samples`: an
/// out-of-order sample changes nothing; any other is put at the end, and then
/// everything older than `window` at the sample's own time leaves.
pub open spec fn appended(samples: Seq<HistorySample>, sample: HistorySample, window: u64) -> Seq<
    HistorySample,
> {
    if accepts(samples, sample) {
        retained(samples.push(sample), sample.elapsed_secs, window)
    } else {
        samples
    }
}

/// A sequence splits at `k` into a part where `pred` fails everywhere and a
/// part where it holds everywhere: filtering keeps exactly the second part.
pub proof fn lemma_filter_keeps_suffix<A>(s: Seq<A>, pred: spec_fn(A) -> bool, k: int)
    requires
        0 <= k <= s.len(),
        forall|i: int| 0 <= i < k ==> !pred(s[i]),
        forall|i: int| k <= i < s.len() ==> pred(s[i]),
    ensures
        s.filter(pred) == s.skip(k),
    decreases s.len(),
{
    reveal(Seq::filter);
    if s.len() > 0 {
        let front = s.drop_last();
        if k == s.len() {
            lemma_filter_keeps_suffix(front, pred, k - 1);
            assert(front.skip(k - 1) =~= s.skip(k));
        } else {
            lemma_filter_keeps_suffix(front, pred, k);
            assert(front.skip(k).push(s.last()) =~= s.skip(k));
        }
    } else {
        assert(s.skip(k) =~= s);
    }
}

/// Filtering by `p` and then by `q` is filtering by `q` alone, where `q`
/// holds only of elements of which `p` holds.
pub proof fn lemma_filter_refines<A>(s: Seq<A>, p: spec_fn(A) -> bool, q: spec_fn(A) -> bool)
    requires
        forall|i: int| 0 <= i < s.len() && q(s[i]) ==> p(s[i]),
    ensures
        s.filter(p).filter(q) == s.filter(q),
    decreases s.len(),
{
    reveal(Seq::filter);
    if s.len() > 0 {
        let front = s.drop_last();
        lemma_filter_refines(front, p, q);
        if p(s.last()) {
            assert(front.filter(p).push(s.last()).drop_last() =~= front.filter(p));
        }
    }
}

/// The window law of one append. Once `sample` has been accepted, every
/// retained sample is no older than the window at the sample's time, the
/// sample itself is the newest of them, and no sample that is within the
/// window has been evicted.
pub proof fn lemma_append_respects_window(
    samples: Seq<HistorySample>,
    sample: HistorySample,
    window: u64,
)
    requires
        accepts(samples, sample),
    ensures
        forall|i: int|
            0 <= i < appended(samples, sample, window).len() ==> in_window(
                sample.elapsed_secs,
                #[trigger] appended(samples, sample, window)[i],
                window,
            ),
        forall|i: int|
            0 <= i < samples.len() && in_window(sample.elapsed_secs, #[trigger] samples[i], window)
                ==> appended(samples, sample, window).contains(samples[i]),
        appended(samples, sample, window).len() > 0,
        appended(samples, sample, window).last() == sample,
{
    let pred = |s: HistorySample| in_window(sample.elapsed_secs, s, window);
    let offered = samples.push(sample);
    let after = appended(samples, sample, window);
    assert(after == offered.filter(pred));
    assert forall|i: int| 0 <= i < after.len() implies in_window(
        sample.elapsed_secs,
        #[trigger] after[i],
        window,
    ) by {
        offered.lemma_filter_pred(pred, i);
    }
    assert forall|i: int|
        0 <= i < samples.len() && in_window(
            sample.elapsed_secs,
            #[trigger] samples[i],
            window,
        ) implies after.contains(samples[i]) by {
        assert(offered[i] == samples[i]);
        offered.lemma_filter_contains(pred, i);
    }
    assert(after.len() > 0 && after.last() == sample) by {
        reveal(Seq::filter);
        assert(offered.drop_last() =~= samples);
        assert(pred(sample));
    }
}

/// Where `pred`, once it holds, holds of every later element, the sequence
/// splits at the returned index into a part where it fails everywhere and a
/// part where it holds everywhere.
pub proof fn lemma_split_point<A>(s: Seq<A>, pred: spec_fn(A) -> bool) -> (k: int)
    requires
        forall|i: int, j: int| 0 <= i <= j < s.len() && pred(s[i]) ==> pred(s[j]),
    ensures
        0 <= k <= s.len(),
        forall|i: int| 0 <= i < k ==> !pred(s[i]),
        forall|i: int| k <= i < s.len() ==> pred(s[i]),
    decreases s.len(),
{
    if s.len() == 0 || pred(s[0]) {
        0
    } else {
        let rest = s.drop_first();
        assert forall|i: int, j: int| 0 <= i <= j < rest.len() && pred(rest[i]) implies pred(
            rest[j],
        ) by {
            assert(rest[i] == s[i + 1] && rest[j] == s[j + 1]);
        }
        let k = lemma_split_point(rest, pred);
        assert forall|i: int| 0 <= i < k + 1 implies !pred(s[i]) by {
            if i > 0 {
                assert(rest[i - 1] == s[i]);
            }
        }
        assert forall|i: int| k + 1 <= i < s.len() implies pred(s[i]) by {
            assert(rest[i - 1] == s[i]);
        }
        k + 1
    }
}

/// The invariant of a history. Offering a sample to a history that is in
/// order and within its window leaves it so, whether the sample is accepted
/// or refused; and afterwards no stored sample is older than the window at
/// the time of the offered sample.
pub proof fn lemma_append_keeps_history_windowed(
    samples: Seq<HistorySample>,
    sample: HistorySample,
    window: u64,
)
    requires
        is_windowed(samples, window),
    ensures
        is_windowed(appended(samples, sample, window), window),
        forall|i: int|
            0 <= i < appended(samples, sample, window).len() ==> in_window(
                sample.elapsed_secs,
                #[trigger] appended(samples, sample, window)[i],
                window,
            ),
{
    let after = appended(samples, sample, window);
    if accepts(samples, sample) {
        let offered = samples.push(sample);
        let pred = |s: HistorySample| in_window(sample.elapsed_secs, s, window);
        assert(is_chronological(offered));
        let k = lemma_split_point(offered, pred);
        lemma_filter_keeps_suffix(offered, pred, k);
        lemma_append_respects_window(samples, sample, window);
        assert(after == offered.skip(k));
        assert forall|i: int, j: int| 0 <= i <= j < after.len() implies after[i].elapsed_secs
            <= after[j].elapsed_secs by {
            assert(after[i] == offered[i + k] && after[j] == offered[j + k]);
        }
    } else {
        assert forall|i: int| 0 <= i < after.len() implies in_window(
            sample.elapsed_secs,
            #[trigger] after[i],
            window,
        ) by {
            assert(in_window(samples.last().elapsed_secs, samples[i], window));
        }
    }
}

/// The history that results from offering the samples of `stream` one after
/// another to an empty history.
pub open spec fn replay(stream: Seq<HistorySample>, window: u64) -> Seq<HistorySample>
    decreases stream.len(),
{
    if stream.len() == 0 {
        Seq::empty()
    } else {
        appended(replay(stream.drop_last(), window), stream.last(), window)
    }
}

/// The window law of a whole stream. After any number of in-order appends the
/// history holds exactly the samples of the stream that are no older than the
/// window at the time of the newest one: none that is too old stays, and none
/// that is recent enough is lost.
pub proof fn lemma_replay_is_trailing_window(stream: Seq<HistorySample>, window: u64)
    requires
        is_chronological(stream),
        stream.len() > 0,
    ensures
        replay(stream, window) == retained(stream, stream.last().elapsed_secs, window),
    decreases stream.len(),
{
    let newest = stream.last();
    let earlier = stream.drop_last();
    let pred = |s: HistorySample| in_window(newest.elapsed_secs, s, window);
    assert(earlier.push(newest) =~= stream);
    if earlier.len() == 0 {
        reveal(Seq::filter);
        assert(replay(earlier, window) =~= earlier);
    } else {
        lemma_replay_is_trailing_window(earlier, window);
        let before = earlier.last();
        let pred_before = |s: HistorySample| in_window(before.elapsed_secs, s, window);
        let kept = replay(earlier, window);
        assert(kept == earlier.filter(pred_before));
        assert(accepts(kept, newest)) by {
            if kept.len() > 0 {
                assert(kept.contains(kept.last()));
                earlier.lemma_filter_contains_rev(pred_before, kept.last());
                let i = choose|i: int| 0 <= i < earlier.len() && earlier[i] == kept.last();
                assert(stream[i] == earlier[i]);
            }
        }
        assert forall|i: int| 0 <= i < earlier.len() && pred(earlier[i]) implies pred_before(
            earlier[i],
        ) by {
            assert(stream[earlier.len() - 1] == before);
        }
        lemma_filter_refines(earlier, pred_before, pred);
        assert(kept.push(newest).filter(pred) == stream.filter(pred)) by {
            reveal(Seq::filter);
            assert(kept.push(newest).drop_last() =~= kept);
            assert(stream.drop_last() == earlier);
        }
    }
}

/// The samples kept for one node.
pub struct NodeHistory {
    samples: VecDeque<HistorySample>,
    window: u64,
}

impl View for NodeHistory {
    type V = Seq<HistorySample>;

    closed spec fn view(&self) -> Seq<HistorySample> {
        self.samples@
    }
}

impl NodeHistory {
    #[verifier::type_invariant]
    spec fn well_formed(self) -> bool {
        is_windowed(self.samples@, self.window)
    }

    /// Length of the window this history retains, in seconds.
    pub closed spec fn window(&self) -> u64 {
        self.window
    }

    /// An empty history that retains `window` seconds.
    pub fn new(window: u64) -> (history: Self)
        ensures
            history@ == Seq::<HistorySample>::empty(),
            history.window() == window,
    {
        NodeHistory { samples: VecDeque::new(), window }
    }

    /// Number of samples retained.
    pub fn len(&self) -> (n: usize)
        ensures
            n == self@.len(),
            is_windowed(self@, self.window()),
    {
        proof {
            use_type_invariant(self);
        }
        self.samples.len()
    }

    /// The `index`-th retained sample, oldest first.
    pub fn get(&self, index: usize) -> (sample: Option<HistorySample>)
        ensures
            sample == if index < self@.len() {
                Some(self@[index as int])
            } else {
                None
            },
            is_windowed(self@, self.window()),
    {
        proof {
            use_type_invariant(self);
        }
        if index < self.samples.len() {
            Some(self.samples[index])
        } else {
            None
        }
    }

    /// Puts `sample` at the end and evicts from the front what has left the
    /// window; returns how many samples were evicted. A sample older than the
    /// newest stored one is refused and the history stays as it was.
    pub fn append(&mut self, sample: HistorySample) -> (outcome: Result<usize, AppendError>)
        ensures
            final(self).window() == old(self).window(),
            final(self)@ == appended(old(self)@, sample, old(self).window()),
            match outcome {
                Ok(evicted) => {
                    &&& accepts(old(self)@, sample)
                    &&& evicted == old(self)@.len() + 1 - final(self)@.len()
                },
                Err(AppendError::OutOfOrder) => !accepts(old(self)@, sample),
            },
            is_windowed(old(self)@, old(self).window()),
            is_windowed(final(self)@, old(self).window()),
            forall|i: int|
                0 <= i < final(self)@.len() ==> in_window(
                    sample.elapsed_secs,
                    #[trigger] final(self)@[i],
                    old(self).window(),
                ),
    {
        proof {
            use_type_invariant(&*self);
            lemma_append_keeps_history_windowed(self@, sample, self.window);
        }
        let count = self.samples.len();
        if count > 0 && sample.elapsed_secs < self.samples[count - 1].elapsed_secs {
            return Err(AppendError::OutOfOrder);
        }
        let now = sample.elapsed_secs;
        let window = self.window;
        let mut samples: VecDeque<HistorySample> = VecDeque::new();
        std::mem::swap(&mut self.samples, &mut samples);
        samples.push_back(sample);
        let ghost full = samples@;
        assert(is_chronological(full));
        assert(full.len() == samples.len());
        let mut evicted: usize = 0;
        while samples.len() > 1 && now - samples[0].elapsed_secs > window
            invariant
                now == sample.elapsed_secs,
                is_chronological(full),
                0 < full.len() <= usize::MAX,
                full.last() == sample,
                0 <= evicted < full.len(),
                samples@ == full.skip(evicted as int),
                forall|i: int| 0 <= i < evicted ==> !in_window(now, full[i], window),
            decreases full.len() - evicted,
        {
            samples.pop_front();
            evicted = evicted + 1;
        }
        proof {
            let pred = |s: HistorySample| in_window(now, s, window);
            assert forall|i: int| evicted <= i < full.len() implies pred(full[i]) by {
                assert(full.skip(evicted as int)[0] == full[evicted as int]);
            }
            lemma_filter_keeps_suffix(full, pred, evicted as int);
        }
        self.samples = samples;
        Ok(evicted)
    }
}

/// The history of node `id` in `store`; empty for a node the store has not seen.
pub open spec fn history_of(store: Map<i32, Seq<HistorySample>>, id: i32) -> Seq<HistorySample> {
    if store.contains_key(id) {
        store[id]
    } else {
        Seq::empty()
    }
}

/// Node `id` has a history in `store`, and none of its samples is older than
/// `window` at time `now`.
pub open spec fn is_within(
    store: Map<i32, Seq<HistorySample>>,
    id: i32,
    now: u64,
    window: u64,
) -> bool {
    &&& store.contains_key(id)
    &&& forall|i: int| 0 <= i < store[id].len() ==> in_window(now, #[trigger] store[id][i], window)
}

/// The store that results from offering `sample` to the history of node `id`.
pub open spec fn store_appended(
    store: Map<i32, Seq<HistorySample>>,
    id: i32,
    sample: HistorySample,
    window: u64,
) -> Map<i32, Seq<HistorySample>> {
    if accepts(history_of(store, id), sample) {
        store.insert(id, appended(history_of(store, id), sample, window))
    } else {
        store
    }
}

/// Isolation: offering a sample to node `a` leaves the history of every other
/// node, and whether the store knows that node, as they were.
pub proof fn lemma_append_is_isolated(
    store: Map<i32, Seq<HistorySample>>,
    a: i32,
    sample: HistorySample,
    window: u64,
    b: i32,
)
    requires
        a != b,
    ensures
        store_appended(store, a, sample, window).contains_key(b) == store.contains_key(b),
        history_of(store_appended(store, a, sample, window), b) == history_of(store, b),
{
}

/// Isolation, over two appends: samples offered to two different nodes give
/// the same store in either order.
pub proof fn lemma_appends_commute(
    store: Map<i32, Seq<HistorySample>>,
    a: i32,
    sample_a: HistorySample,
    b: i32,
    sample_b: HistorySample,
    window: u64,
)
    requires
        a != b,
    ensures
        store_appended(store_appended(store, a, sample_a, window), b, sample_b, window)
            == store_appended(store_appended(store, b, sample_b, window), a, sample_a, window),
{
    let first_a = store_appended(store, a, sample_a, window);
    let first_b = store_appended(store, b, sample_b, window);
    lemma_append_is_isolated(store, a, sample_a, window, b);
    lemma_append_is_isolated(store, b, sample_b, window, a);
    assert(store_appended(first_a, b, sample_b, window) =~= store_appended(
        first_b,
        a,
        sample_a,
        window,
    ));
}

/// The histories of all nodes, keyed by node id. Each node's history is
/// written only through an append to that node.
pub struct HistoryStore {
    histories: HashMap<i32, NodeHistory>,
    window: u64,
}

impl View for HistoryStore {
    type V = Map<i32, Seq<HistorySample>>;

    closed spec fn view(&self) -> Map<i32, Seq<HistorySample>> {
        Map::new(|id: i32| self.histories@.contains_key(id), |id: i32| self.histories@[id]@)
    }
}

impl HistoryStore {
    #[verifier::type_invariant]
    spec fn well_formed(self) -> bool {
        forall|id: i32| #[trigger]
            self.histories@.contains_key(id) ==> self.histories@[id].window() == self.window
    }

    /// Length of the window every history of this store retains, in seconds.
    pub closed spec fn window(&self) -> u64 {
        self.window
    }

    /// A store without histories that retains `window` seconds per node.
    pub fn new(window: u64) -> (store: Self)
        ensures
            store@ == Map::<i32, Seq<HistorySample>>::empty(),
            store.window() == window,
    {
        let store = HistoryStore { histories: HashMap::new(), window };
        assert(store@ =~= Map::<i32, Seq<HistorySample>>::empty());
        store
    }

    /// Length of the retained window, in seconds.
    pub fn window_secs(&self) -> (window: u64)
        ensures
            window == self.window(),
    {
        self.window
    }

    /// The history of node `id`, if the store has one.
    pub fn get(&self, id: i32) -> (history: Option<&NodeHistory>)
        ensures
            match history {
                Some(h) => {
                    &&& self@.contains_key(id)
                    &&& h@ == self@[id]
                    &&& h.window() == self.window()
                    &&& is_windowed(h@, self.window())
                },
                None => !self@.contains_key(id),
            },
    {
        proof {
            use_type_invariant(self);
        }
        let found = self.histories.get(&id);
        proof {
            if let Some(history) = found {
                use_type_invariant(history);
            }
        }
        found
    }

    /// Offers `sample` to the history of node `id`, which is created if the
    /// node had none, and returns how many samples left that history. No other
    /// node's history is touched.
    pub fn append(&mut self, id: i32, sample: HistorySample) -> (outcome: Result<
        usize,
        AppendError,
    >)
        ensures
            final(self).window() == old(self).window(),
            final(self)@ == store_appended(old(self)@, id, sample, old(self).window()),
            match outcome {
                Ok(evicted) => {
                    &&& accepts(history_of(old(self)@, id), sample)
                    &&& evicted == history_of(old(self)@, id).len() + 1 - final(self)@[id].len()
                },
                Err(AppendError::OutOfOrder) => !accepts(history_of(old(self)@, id), sample),
            },
            is_windowed(history_of(old(self)@, id), old(self).window()),
            is_windowed(history_of(final(self)@, id), old(self).window()),
            is_within(final(self)@, id, sample.elapsed_secs, old(self).window()),
    {
        proof {
            use_type_invariant(&*self);
        }
        let mut histories: HashMap<i32, NodeHistory> = HashMap::new();
        std::mem::swap(&mut self.histories, &mut histories);
        let mut history = match histories.remove(&id) {
            Some(existing) => existing,
            None => NodeHistory::new(self.window),
        };
        let ghost before = history@;
        assert(before == history_of(old(self)@, id));
        let outcome = history.append(sample);
        histories.insert(id, history);
        self.histories = histories;
        assert(self@ =~= store_appended(old(self)@, id, sample, old(self).window()));
        outcome
    }
}

} // verus!
