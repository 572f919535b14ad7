//! The loading latch: it waits until every raw load has resolved, then has
//! the deferred composites built and asks for the phase that follows the
//! loading phase.

use crate::asset_manager::{
    activated, lemma_activated_wf, lemma_declared_tag_indexed, lemma_sprite_sheet_deferred,
    AssetDescriptor,
};
use crate::asset_store::{
    base_tag, lemma_base_tag_differs, lemma_built_covers, AssetError, AssetErrorView, AssetStore,
    AtlasJob, Handle, StoreView,
};
use crate::game_menus::MenuResource;
use crate::phase::Phase;
use crate::tag_index::lists_values;
use vstd::prelude::*;

verus! {

/// What the host's asset backend says of a load.
#[derive(Clone, Copy, Debug, PartialEq, Eq, Structural)]
pub enum LoadState {
    /// Not finished yet.
    Pending,
    /// Finished: the resource is there.
    Loaded,
    /// Given up by the backend. The latch goes on waiting for such a load.
    Failed,
}

/// What a loading latch is, mathematically: the raw handles it still waits
/// for, and whether it has opened.
pub struct LatchView {
    pub pending: Seq<usize>,
    pub ready: bool,
}

/// What one poll of the latch reports.
#[derive(Clone, Debug, PartialEq, Eq)]
pub struct LatchReport {
    /// How many loads the latch still waits for.
    pub remaining: usize,
    /// The composites that the host has to build now.
    pub atlases: Vec<AtlasJob>,
    /// The phase to move to now.
    pub next_phase: Option<Phase>,
}

/// A report with its orders as a sequence.
pub struct LatchReportView {
    pub remaining: usize,
    pub atlases: Seq<AtlasJob>,
    pub next_phase: Option<Phase>,
}

impl View for LatchReport {
    type V = LatchReportView;

    open spec fn view(&self) -> LatchReportView {
        LatchReportView {
            remaining: self.remaining,
            atlases: self.atlases@,
            next_phase: self.next_phase,
        }
    }
}

/// What the backend has said of the load at position `i` of the list: the
/// state at that position of `states`. A load that `states` does not reach
/// counts as pending.
pub open spec fn state_at(states: Seq<LoadState>, i: int) -> LoadState {
    if 0 <= i < states.len() {
        states[i]
    } else {
        LoadState::Pending
    }
}

/// The handles of `pending` that are still waited for once the backend has
/// said `states` of them, position by position: those whose state is not
/// `Loaded`, in their old order.
pub open spec fn still_pending(pending: Seq<usize>, states: Seq<LoadState>) -> Seq<usize>
    decreases pending.len(),
{
    if pending.len() == 0 {
        Seq::empty()
    } else if state_at(states, pending.len() - 1) == LoadState::Loaded {
        still_pending(pending.drop_last(), states)
    } else {
        still_pending(pending.drop_last(), states).push(pending.last())
    }
}

/// Whether the backend has said of `handle` that it is loaded.
pub open spec fn reported_loaded(pending: Seq<usize>, states: Seq<LoadState>, handle: int) -> bool {
    exists|i: int|
        0 <= i < pending.len() && #[trigger] pending[i] == handle && state_at(states, i)
            == LoadState::Loaded
}

impl StoreView {
    /// The store after the backend has said `states` of the loads `pending`:
    /// the loads reported as loaded have resolved, the others are as before.
    pub open spec fn with_reports(self, pending: Seq<usize>, states: Seq<LoadState>) -> StoreView {
        StoreView {
            loaded: Seq::new(
                self.loaded.len(),
                |h: int| self.loaded[h] || reported_loaded(pending, states, h),
            ),
            ..self
        }
    }
}

/// The state of latch and store after a poll, and what the poll reports.
pub struct Polled {
    pub latch: LatchView,
    pub store: StoreView,
    pub outcome: Result<LatchReportView, AssetErrorView>,
}

impl LatchView {
    /// Whether the latch watches over `store`: every raw handle in the index
    /// of the store has resolved or is still waited for.
    pub open spec fn guards(self, store: StoreView) -> bool {
        forall|tag: Seq<char>| #[trigger]
            store.index.contains_key(tag) ==> {
                ||| self.pending.contains(store.index[tag])
                ||| (store.index[tag] < store.loaded.len() && store.loaded[store.index[tag] as int])
            }
    }

    /// One poll of the latch, given what the backend says of each load that
    /// the latch waits for.
    ///
    /// An open latch does nothing. A waiting latch takes the loaded handles off
    /// its list and marks them as resolved in the store. While handles are
    /// left it reports their number. Once none is left it has every deferred
    /// composite built, opens, and asks for the phase `next`; but where the
    /// base image of a composite has not resolved it fails, stays closed and
    /// builds nothing.
    pub open spec fn poll(self, store: StoreView, states: Seq<LoadState>, next: Phase) -> Polled {
        if self.ready {
            Polled {
                latch: self,
                store,
                outcome: Ok(
                    LatchReportView { remaining: 0, atlases: Seq::empty(), next_phase: None },
                ),
            }
        } else {
            let pending = still_pending(self.pending, states);
            let marked = store.with_reports(self.pending, states);
            if pending.len() > 0 {
                Polled {
                    latch: LatchView { pending, ready: false },
                    store: marked,
                    outcome: Ok(
                        LatchReportView {
                            remaining: pending.len() as usize,
                            atlases: Seq::empty(),
                            next_phase: None,
                        },
                    ),
                }
            } else {
                match marked.first_unresolved() {
                    None => Polled {
                        latch: LatchView { pending, ready: true },
                        store: marked.with_atlases(),
                        outcome: Ok(
                            LatchReportView {
                                remaining: 0,
                                atlases: marked.jobs(),
                                next_phase: Some(next),
                            },
                        ),
                    },
                    Some(i) => Polled {
                        latch: LatchView { pending, ready: false },
                        store: marked,
                        outcome: Err(
                            AssetErrorView::UnresolvedBase { tag: marked.deferred[i].texture_tag },
                        ),
                    },
                }
            }
        }
    }
}

/// The loading latch.
pub struct LoadingLatch {
    to_load: Vec<usize>,
    ready: bool,
}

impl View for LoadingLatch {
    type V = LatchView;

    closed spec fn view(&self) -> LatchView {
        LatchView { pending: self.to_load@, ready: self.ready }
    }
}

impl LoadingLatch {
    /// A closed latch that waits for every raw handle in the index of
    /// `assets`, each once, in no particular order.
    pub fn setup(assets: &AssetStore) -> (latch: Self)
        ensures
            !latch@.ready,
            exists|tags: Seq<Seq<char>>| lists_values(assets@.index, tags, latch@.pending),
            latch@.guards(assets@),
    {
        let to_load = assets.indexed_handles();
        proof {
            let tags = choose|tags: Seq<Seq<char>>| lists_values(assets@.index, tags, to_load@);
            assert forall|tag: Seq<char>| #[trigger]
                assets@.index.contains_key(tag) implies to_load@.contains(assets@.index[tag]) by {
                assert(tags.to_set().contains(tag));
                let i = choose|i: int| 0 <= i < tags.len() && tags[i] == tag;
                assert(to_load@[i] == assets@.index[tags[i]]);
            }
        }
        let latch = LoadingLatch { to_load, ready: false };
        proof {
            let tags = choose|tags: Seq<Seq<char>>| lists_values(assets@.index, tags, to_load@);
            assert(lists_values(assets@.index, tags, latch@.pending));
        }
        latch
    }

    /// How many loads the latch still waits for.
    pub fn remaining(&self) -> (count: usize)
        ensures
            count == self@.pending.len(),
    {
        self.to_load.len()
    }

    /// The raw handles that the latch still waits for, in the order in which
    /// `run` takes their states.
    pub fn pending(&self) -> (handles: Vec<usize>)
        ensures
            handles@ == self@.pending,
    {
        self.to_load.clone()
    }

    /// Whether the latch has opened.
    pub fn is_ready(&self) -> (ready: bool)
        ensures
            ready == self@.ready,
    {
        self.ready
    }

    /// Polls the latch once. `states` holds what the backend says of each
    /// handle of `pending()`, in that order; the phase that follows the
    /// loading phase is the menu phase of `menu_info`.
    pub fn run(
        &mut self,
        states: &Vec<LoadState>,
        store: &mut AssetStore,
        menu_info: &MenuResource,
    ) -> (outcome: Result<LatchReport, AssetError>)
        ensures
            final(self)@ == old(self)@.poll(old(store)@, states@, menu_info.menu_state).latch,
            final(store)@ == old(self)@.poll(old(store)@, states@, menu_info.menu_state).store,
            match old(self)@.poll(old(store)@, states@, menu_info.menu_state).outcome {
                Ok(report) => outcome matches Ok(given) && given@ == report,
                Err(error) => outcome matches Err(given) && given@ == error,
            },
    {
        if self.ready {
            return Ok(LatchReport { remaining: 0, atlases: Vec::new(), next_phase: None });
        }
        let mut left: Vec<usize> = Vec::new();
        let mut i: usize = 0;
        assert(self.to_load@.take(0) =~= Seq::<usize>::empty());
        assert(store@.with_reports(Seq::empty(), states@).loaded =~= store@.loaded);
        while i < self.to_load.len()
            invariant
                i <= self.to_load.len(),
                *self == *old(self),
                left@ == still_pending(self.to_load@.take(i as int), states@),
                store@ == old(store)@.with_reports(self.to_load@.take(i as int), states@),
            decreases self.to_load.len() - i,
        {
            let handle = self.to_load[i];
            let state = if i < states.len() {
                states[i]
            } else {
                LoadState::Pending
            };
            proof {
                let grown = self.to_load@.take(i + 1);
                assert(grown.drop_last() =~= self.to_load@.take(i as int));
                assert(grown.last() == handle);
                lemma_reports_grow(old(store)@, self.to_load@, states@, i as int);
            }
            if state == LoadState::Loaded {
                store.mark_loaded(handle);
            } else {
                left.push(handle);
            }
            i = i + 1;
        }
        proof {
            assert(self.to_load@.take(self.to_load@.len() as int) =~= self.to_load@);
        }
        self.to_load = left;
        if self.to_load.len() > 0 {
            return Ok(
                LatchReport { remaining: self.to_load.len(), atlases: Vec::new(), next_phase: None },
            );
        }
        match store.load_atlases() {
            Ok(atlases) => {
                self.ready = true;
                Ok(LatchReport { remaining: 0, atlases, next_phase: Some(menu_info.menu_state) })
            },
            Err(error) => Err(error),
        }
    }
}

/// Taking the report on one more load into account marks that load as
/// resolved, where the report says that it is loaded, and changes nothing
/// otherwise.
proof fn lemma_reports_grow(store: StoreView, pending: Seq<usize>, states: Seq<LoadState>, i: int)
    requires
        0 <= i < pending.len(),
    ensures
        store.with_reports(pending.take(i + 1), states) == if state_at(states, i)
            == LoadState::Loaded {
            store.with_reports(pending.take(i), states).with_resolved(pending[i])
        } else {
            store.with_reports(pending.take(i), states)
        },
{
    let before = store.with_reports(pending.take(i), states);
    let after = store.with_reports(pending.take(i + 1), states);
    let expected = if state_at(states, i) == LoadState::Loaded {
        before.with_resolved(pending[i])
    } else {
        before
    };
    assert forall|h: int| 0 <= h < store.loaded.len() implies after.loaded[h]
        == expected.loaded[h] by {
        if reported_loaded(pending.take(i), states, h) {
            let k = choose|k: int|
                0 <= k < pending.take(i).len() && #[trigger] pending.take(i)[k] == h && state_at(
                    states,
                    k,
                ) == LoadState::Loaded;
            assert(pending.take(i + 1)[k] == h);
        }
        if state_at(states, i) == LoadState::Loaded && pending[i] == h {
            assert(pending.take(i + 1)[i] == h);
        }
        if reported_loaded(pending.take(i + 1), states, h) {
            let k = choose|k: int|
                0 <= k < pending.take(i + 1).len() && #[trigger] pending.take(i + 1)[k] == h
                    && state_at(states, k) == LoadState::Loaded;
            if k < i {
                assert(pending.take(i)[k] == h);
            }
        }
    }
    assert(after.loaded =~= expected.loaded);
}

/// A latch together with the store that it watches over.
pub struct Loading {
    pub latch: LatchView,
    pub store: StoreView,
}

impl Loading {
    /// The store is well formed and the latch watches over it; once the latch
    /// has opened it waits for nothing, and every deferred composite has a
    /// handle under its tag.
    pub open spec fn settled(self) -> bool {
        &&& self.store.wf()
        &&& self.latch.guards(self.store)
        &&& self.latch.ready ==> {
            &&& self.latch.pending.len() == 0
            &&& forall|i: int|
                0 <= i < self.store.deferred.len() ==> self.store.composites.contains_key(
                    (#[trigger] self.store.deferred[i]).tag,
                )
        }
    }

    /// Latch and store after one poll.
    pub open spec fn polled(self, states: Seq<LoadState>, next: Phase) -> Loading {
        Loading {
            latch: self.latch.poll(self.store, states, next).latch,
            store: self.latch.poll(self.store, states, next).store,
        }
    }

    /// Latch and store after the polls `reports`, one after the other.
    pub open spec fn after_polls(self, reports: Seq<Seq<LoadState>>, next: Phase) -> Loading
        decreases reports.len(),
    {
        if reports.len() == 0 {
            self
        } else {
            self.after_polls(reports.drop_last(), next).polled(reports.last(), next)
        }
    }
}

/// What is still waited for after a poll was waited for before it, so the
/// list never grows; and a handle stays on the list unless the backend has
/// said that it is loaded.
pub proof fn lemma_still_pending_shrinks(pending: Seq<usize>, states: Seq<LoadState>)
    ensures
        still_pending(pending, states).len() <= pending.len(),
        forall|h: usize| #[trigger]
            still_pending(pending, states).contains(h) ==> pending.contains(h),
        forall|i: int|
            0 <= i < pending.len() && state_at(states, i) != LoadState::Loaded ==> still_pending(
                pending,
                states,
            ).contains(#[trigger] pending[i]),
    decreases pending.len(),
{
    if pending.len() > 0 {
        let heads = pending.drop_last();
        let last = pending.len() - 1;
        lemma_still_pending_shrinks(heads, states);
        let kept = still_pending(heads, states);
        let now = still_pending(pending, states);
        assert forall|h: usize| #[trigger] now.contains(h) implies pending.contains(h) by {
            let k = choose|k: int| 0 <= k < now.len() && now[k] == h;
            if k < kept.len() {
                assert(kept[k] == h);
                assert(kept.contains(h));
                let at = choose|at: int| 0 <= at < heads.len() && heads[at] == h;
                assert(pending[at] == h);
            } else {
                assert(pending[last] == h);
            }
        }
        assert forall|i: int|
            0 <= i < pending.len() && state_at(states, i) != LoadState::Loaded implies now.contains(
            #[trigger] pending[i],
        ) by {
            if i < last {
                assert(heads[i] == pending[i]);
                assert(kept.contains(heads[i]));
                let k = choose|k: int| 0 <= k < kept.len() && kept[k] == heads[i];
                assert(now[k] == pending[i]);
            } else {
                assert(now[now.len() - 1] == pending[i]);
            }
        }
    }
}

/// A poll keeps latch and store settled, and leaves the index and the
/// deferred composites of the store as they were.
pub proof fn lemma_poll_keeps_settled(before: Loading, states: Seq<LoadState>, next: Phase)
    requires
        before.settled(),
    ensures
        before.polled(states, next).settled(),
        before.polled(states, next).store.index == before.store.index,
        before.polled(states, next).store.deferred == before.store.deferred,
{
    let latch = before.latch;
    let store = before.store;
    if !latch.ready {
        let pending = still_pending(latch.pending, states);
        let marked = store.with_reports(latch.pending, states);
        lemma_still_pending_shrinks(latch.pending, states);
        assert forall|tag: Seq<char>| #[trigger] marked.index.contains_key(tag) implies {
            ||| pending.contains(marked.index[tag])
            ||| (marked.index[tag] < marked.loaded.len() && marked.loaded[marked.index[tag] as int])
        } by {
            let h = store.index[tag];
            if latch.pending.contains(h) {
                let i = choose|i: int| 0 <= i < latch.pending.len() && latch.pending[i] == h;
                if state_at(states, i) == LoadState::Loaded {
                    assert(reported_loaded(latch.pending, states, h as int));
                } else {
                    assert(pending.contains(latch.pending[i]));
                }
            }
        }
        assert(marked.wf());
        if pending.len() == 0 && marked.first_unresolved().is_none() {
            lemma_built_covers(marked, marked.deferred.len());
        }
    }
}

/// Any number of polls keeps latch and store settled, and leaves the index and
/// the deferred composites of the store as they were.
pub proof fn lemma_polls_keep_settled(
    before: Loading,
    reports: Seq<Seq<LoadState>>,
    next: Phase,
)
    requires
        before.settled(),
    ensures
        before.after_polls(reports, next).settled(),
        before.after_polls(reports, next).store.index == before.store.index,
        before.after_polls(reports, next).store.deferred == before.store.deferred,
    decreases reports.len(),
{
    if reports.len() > 0 {
        lemma_polls_keep_settled(before, reports.drop_last(), next);
        lemma_poll_keeps_settled(
            before.after_polls(reports.drop_last(), next),
            reports.last(),
            next,
        );
    }
}

/// Once a settled latch waits for nothing, every tag of the index stands for
/// a handle.
pub proof fn lemma_indexed_tag_resolves(now: Loading, tag: Seq<char>)
    requires
        now.settled(),
        now.latch.pending.len() == 0,
        now.store.index.contains_key(tag),
    ensures
        now.store.raw(tag) == Some(now.store.index[tag]),
        now.store.lookup(tag).is_some(),
{
    assert(!now.latch.pending.contains(now.store.index[tag]));
}

/// A settled latch never fails: the poll that finds nothing left to wait for
/// opens the latch, orders every deferred composite, and asks for the next
/// phase.
pub proof fn lemma_settled_latch_opens(before: Loading, states: Seq<LoadState>, next: Phase)
    requires
        before.settled(),
    ensures
        before.latch.poll(before.store, states, next).outcome is Ok,
        !before.latch.ready && still_pending(before.latch.pending, states).len() == 0 ==> {
            &&& before.polled(states, next).latch.ready
            &&& before.latch.poll(before.store, states, next).outcome == Ok::<
                LatchReportView,
                AssetErrorView,
            >(
                LatchReportView {
                    remaining: 0,
                    atlases: before.store.with_reports(before.latch.pending, states).jobs(),
                    next_phase: Some(next),
                },
            )
        },
{
    if !before.latch.ready && still_pending(before.latch.pending, states).len() == 0 {
        let marked = before.store.with_reports(before.latch.pending, states);
        lemma_poll_keeps_settled(before, states, next);
        if marked.first_unresolved().is_some() {
            let i = marked.first_unresolved().unwrap();
            assert(marked.is_first_unresolved(i));
            let waiting = Loading {
                latch: LatchView { pending: Seq::empty(), ready: false },
                store: marked,
            };
            assert(waiting.latch.pending =~= before.polled(states, next).latch.pending);
            lemma_indexed_tag_resolves(waiting, marked.deferred[i].texture_tag);
        }
    }
}

/// A latch that has opened does nothing when polled again: latch and store
/// stay as they are, no composite is ordered and no phase is asked for.
pub proof fn lemma_open_latch_is_idle(
    latch: LatchView,
    store: StoreView,
    states: Seq<LoadState>,
    next: Phase,
)
    requires
        latch.ready,
    ensures
        latch.poll(store, states, next).latch == latch,
        latch.poll(store, states, next).store == store,
        latch.poll(store, states, next).outcome == Ok::<LatchReportView, AssetErrorView>(
            LatchReportView { remaining: 0, atlases: Seq::empty(), next_phase: None },
        ),
{
}

/// A poll orders composites or asks for the next phase only when it opens the
/// latch; with the law above, that happens at most once.
pub proof fn lemma_latch_opens_once(
    latch: LatchView,
    store: StoreView,
    states: Seq<LoadState>,
    next: Phase,
)
    ensures
        latch.poll(store, states, next).outcome matches Ok(report) ==> (report.next_phase.is_some()
            || report.atlases.len() > 0) ==> !latch.ready && latch.poll(
            store,
            states,
            next,
        ).latch.ready,
{
}

/// After activation and any number of polls of a latch set up on the
/// activated store, once the latch waits for nothing, every declared asset
/// that is no sprite sheet is found under its tag.
pub proof fn lemma_declared_asset_resolves(
    assets: Seq<AssetDescriptor>,
    latch: LatchView,
    reports: Seq<Seq<LoadState>>,
    next: Phase,
    i: int,
)
    requires
        assets.len() <= usize::MAX,
        0 <= i < assets.len(),
        !(assets[i].kind is SpriteSheet),
        !latch.ready,
        latch.guards(activated(assets)),
        (Loading { latch, store: activated(assets) }).after_polls(
            reports,
            next,
        ).latch.pending.len() == 0,
    ensures
        (Loading { latch, store: activated(assets) }).after_polls(
            reports,
            next,
        ).store.lookup(assets[i].tag).is_some(),
{
    let start = Loading { latch, store: activated(assets) };
    lemma_activated_wf(assets);
    lemma_declared_tag_indexed(assets, i);
    lemma_polls_keep_settled(start, reports, next);
    lemma_indexed_tag_resolves(start.after_polls(reports, next), assets[i].tag);
}

/// After activation and any number of polls of a latch set up on the
/// activated store, once the latch has opened, every declared sprite sheet is
/// found under its tag, its base image is found under the base tag, and the
/// two handles differ.
pub proof fn lemma_sprite_sheet_resolves(
    assets: Seq<AssetDescriptor>,
    latch: LatchView,
    reports: Seq<Seq<LoadState>>,
    next: Phase,
    i: int,
)
    requires
        assets.len() <= usize::MAX,
        0 <= i < assets.len(),
        assets[i].kind is SpriteSheet,
        !latch.ready,
        latch.guards(activated(assets)),
        (Loading { latch, store: activated(assets) }).after_polls(
            reports,
            next,
        ).latch.ready,
    ensures
        ({
            let store = (Loading {
                latch,
                store: activated(assets),
            }).after_polls(reports, next).store;
            &&& store.lookup(assets[i].tag) matches Some(Handle::Composite(_))
            &&& store.lookup(base_tag(assets[i].tag)).is_some()
            &&& store.lookup(assets[i].tag) != store.lookup(
                base_tag(assets[i].tag),
            )
        }),
{
    let start = Loading { latch, store: activated(assets) };
    let end = start.after_polls(reports, next);
    let tag = assets[i].tag;
    let base = base_tag(tag);
    lemma_activated_wf(assets);
    lemma_declared_tag_indexed(assets, i);
    lemma_sprite_sheet_deferred(assets, i);
    lemma_polls_keep_settled(start, reports, next);
    let j = choose|j: int|
        0 <= j < start.store.deferred.len() && (#[trigger] start.store.deferred[j]).tag == tag;
    assert(end.store.composites.contains_key(end.store.deferred[j].tag));
    lemma_indexed_tag_resolves(end, base);
    lemma_base_tag_differs(tag);
}

} // verus!
