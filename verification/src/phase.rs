//! The phase scheduler: a finite-state machine over the phases of an
//! application. Each phase has three ordered hook lists (entry, tick, exit).
//! A cycle applies the transition that was requested since the last one, and
//! says which hooks the host has to run, in which order.

use vstd::prelude::*;

verus! {

/// One of the phases of the application. The application numbers its phases.
#[derive(Clone, Copy, Debug, PartialEq, Eq, Hash, Structural)]
pub struct Phase(pub u64);

/// The three hook lists of a phase.
#[derive(Clone, Copy, Debug, PartialEq, Eq, Structural)]
pub enum Stage {
    Entry,
    Tick,
    Exit,
}

/// A stage of a phase that a cycle goes through.
#[derive(Clone, Copy, Debug, PartialEq, Eq, Structural)]
pub struct PhaseEvent {
    pub stage: Stage,
    pub phase: Phase,
}

/// One hook that the host has to run, with the phase and stage it belongs to.
#[derive(Clone, Copy, Debug, PartialEq, Eq, Structural)]
pub struct HookRun {
    pub phase: Phase,
    pub stage: Stage,
    pub hook: u64,
}

/// Why the scheduler turned a request down.
#[derive(Clone, Copy, Debug, PartialEq, Eq, Structural)]
pub enum PhaseError {
    /// The phase asked for was never registered.
    Unregistered(Phase),
}

/// The hooks registered for one phase, in registration order.
pub struct HookLists {
    pub entry: Seq<u64>,
    pub tick: Seq<u64>,
    pub exit: Seq<u64>,
}

impl HookLists {
    pub open spec fn none() -> HookLists {
        HookLists { entry: Seq::empty(), tick: Seq::empty(), exit: Seq::empty() }
    }

    pub open spec fn of(self, stage: Stage) -> Seq<u64> {
        match stage {
            Stage::Entry => self.entry,
            Stage::Tick => self.tick,
            Stage::Exit => self.exit,
        }
    }

    /// These lists with those of `later` behind them.
    pub open spec fn followed_by(self, later: HookLists) -> HookLists {
        HookLists {
            entry: self.entry + later.entry,
            tick: self.tick + later.tick,
            exit: self.exit + later.exit,
        }
    }
}

/// The hooks `hooks` as runs of the given phase and stage.
pub open spec fn as_runs(hooks: Seq<u64>, phase: Phase, stage: Stage) -> Seq<HookRun> {
    hooks.map_values(|hook: u64| HookRun { phase, stage, hook })
}

/// What a scheduler is, mathematically: the registration table, the current
/// phase, the phase requested since the last cycle, and whether the entry
/// hooks of the current phase have run.
pub struct SchedulerState {
    pub hooks: Map<Phase, HookLists>,
    pub current: Phase,
    pub next: Option<Phase>,
    pub entered: bool,
}

impl SchedulerState {
    /// A scheduler that starts in `phase`, with no hooks and no request.
    pub open spec fn initial(phase: Phase) -> SchedulerState {
        SchedulerState {
            hooks: Map::empty().insert(phase, HookLists::none()),
            current: phase,
            next: None,
            entered: false,
        }
    }

    /// The current phase and the requested phase are registered.
    pub open spec fn wf(self) -> bool {
        &&& self.hooks.contains_key(self.current)
        &&& self.next matches Some(target) ==> self.hooks.contains_key(target)
    }

    /// The hooks of `phase`; none where it is not registered.
    pub open spec fn lists_of(self, phase: Phase) -> HookLists {
        if self.hooks.contains_key(phase) {
            self.hooks[phase]
        } else {
            HookLists::none()
        }
    }

    /// The state after `lists` were registered for `phase`: they go behind the
    /// hooks that the phase already has.
    pub open spec fn with_phase(self, phase: Phase, lists: HookLists) -> SchedulerState {
        SchedulerState {
            hooks: self.hooks.insert(phase, self.lists_of(phase).followed_by(lists)),
            ..self
        }
    }

    /// The state after a request for `target`: a registered target replaces
    /// whatever was requested before, an unregistered one changes nothing.
    pub open spec fn requested(self, target: Phase) -> SchedulerState {
        if self.hooks.contains_key(target) {
            SchedulerState { next: Some(target), ..self }
        } else {
            self
        }
    }

    /// The state after the requests `targets`, taken in order.
    pub open spec fn after_requests(self, targets: Seq<Phase>) -> SchedulerState
        decreases targets.len(),
    {
        if targets.len() == 0 {
            self
        } else {
            self.after_requests(targets.drop_last()).requested(targets.last())
        }
    }

    /// The phase that the next cycle moves to, if it moves: the requested
    /// phase, where it differs from the current one.
    pub open spec fn transition(self) -> Option<Phase> {
        match self.next {
            Some(target) => if target != self.current {
                Some(target)
            } else {
                None
            },
            None => None,
        }
    }

    /// The phase whose tick hooks the next cycle runs.
    pub open spec fn phase_after(self) -> Phase {
        match self.transition() {
            Some(target) => target,
            None => self.current,
        }
    }

    /// The stages that the next cycle goes through, in order: the entry of
    /// the starting phase where it has not been entered yet; on a transition
    /// the exit of the phase left and then the entry of the phase reached;
    /// last the tick of the phase the cycle ends in.
    pub open spec fn events(self) -> Seq<PhaseEvent> {
        let start = if self.entered {
            Seq::<PhaseEvent>::empty()
        } else {
            seq![PhaseEvent { stage: Stage::Entry, phase: self.current }]
        };
        let change = match self.transition() {
            Some(target) => seq![
                PhaseEvent { stage: Stage::Exit, phase: self.current },
                PhaseEvent { stage: Stage::Entry, phase: target },
            ],
            None => Seq::<PhaseEvent>::empty(),
        };
        start + change + seq![PhaseEvent { stage: Stage::Tick, phase: self.phase_after() }]
    }

    /// The hooks of one stage of one phase, as runs, in registration order.
    pub open spec fn runs_of(self, event: PhaseEvent) -> Seq<HookRun> {
        as_runs(self.lists_of(event.phase).of(event.stage), event.phase, event.stage)
    }

    /// The hooks of the stages `events`, one stage after the other.
    pub open spec fn hook_runs(self, events: Seq<PhaseEvent>) -> Seq<HookRun>
        decreases events.len(),
    {
        if events.len() == 0 {
            Seq::empty()
        } else {
            self.hook_runs(events.drop_last()) + self.runs_of(events.last())
        }
    }

    /// The state after a cycle: the transition is applied and the request is
    /// used up.
    pub open spec fn after_cycle(self) -> SchedulerState {
        SchedulerState { current: self.phase_after(), next: None, entered: true, ..self }
    }

    /// The stages gone through by `requests.len()` cycles in a row, where
    /// `requests[k]` are the requests made while the hooks of cycle `k` ran.
    pub open spec fn trace(self, requests: Seq<Seq<Phase>>) -> Seq<PhaseEvent>
        decreases requests.len(),
    {
        if requests.len() == 0 {
            Seq::empty()
        } else {
            self.events() + self.after_cycle().after_requests(requests[0]).trace(
                requests.drop_first(),
            )
        }
    }

    /// How often the next cycle is due to go through `event`: through the
    /// exit of a phase once where the cycle leaves that phase for another;
    /// through the entry of a phase once where the cycle reaches it from
    /// another, or starts in it; through the tick of a phase once where the
    /// cycle ends in it.
    pub open spec fn due(self, event: PhaseEvent) -> nat {
        match event.stage {
            Stage::Exit => if self.current == event.phase && self.transition().is_some() {
                1
            } else {
                0
            },
            Stage::Entry => if self.transition() == Some(event.phase) || (!self.entered
                && self.current == event.phase) {
                1
            } else {
                0
            },
            Stage::Tick => if self.phase_after() == event.phase {
                1
            } else {
                0
            },
        }
    }

    /// How often `requests.len()` cycles in a row are due to go through
    /// `event`, with the requests `requests[k]` made during cycle `k`.
    pub open spec fn due_over(self, requests: Seq<Seq<Phase>>, event: PhaseEvent) -> nat
        decreases requests.len(),
    {
        if requests.len() == 0 {
            0
        } else {
            self.due(event) + self.after_cycle().after_requests(requests[0]).due_over(
                requests.drop_first(),
                event,
            )
        }
    }

    /// How many of those cycles leave `phase` for another phase.
    pub open spec fn departures(self, requests: Seq<Seq<Phase>>, phase: Phase) -> nat
        decreases requests.len(),
    {
        if requests.len() == 0 {
            0
        } else {
            let leaves: nat = if self.current == phase && self.transition().is_some() {
                1
            } else {
                0
            };
            leaves + self.after_cycle().after_requests(requests[0]).departures(
                requests.drop_first(),
                phase,
            )
        }
    }
}

/// How often the stages `events` hold `event`.
pub open spec fn occurrences(events: Seq<PhaseEvent>, event: PhaseEvent) -> nat
    decreases events.len(),
{
    if events.len() == 0 {
        0
    } else {
        let here: nat = if events.last() == event {
            1
        } else {
            0
        };
        occurrences(events.drop_last(), event) + here
    }
}

/// One row of the registration table.
struct PhaseHooks {
    phase: Phase,
    entry: Vec<u64>,
    tick: Vec<u64>,
    exit: Vec<u64>,
}

impl PhaseHooks {
    spec fn of(self, stage: Stage) -> Seq<u64> {
        match stage {
            Stage::Entry => self.entry@,
            Stage::Tick => self.tick@,
            Stage::Exit => self.exit@,
        }
    }
}

/// Whether some row of the table is for `phase`.
spec fn listed(rows: Seq<PhaseHooks>, phase: Phase) -> bool {
    exists|i: int| 0 <= i < rows.len() && (#[trigger] rows[i]).phase == phase
}

/// The hooks that the rows for `phase` hold for `stage`, row after row.
spec fn collected(rows: Seq<PhaseHooks>, phase: Phase, stage: Stage) -> Seq<u64>
    decreases rows.len(),
{
    if rows.len() == 0 {
        Seq::empty()
    } else if rows.last().phase == phase {
        collected(rows.drop_last(), phase, stage) + rows.last().of(stage)
    } else {
        collected(rows.drop_last(), phase, stage)
    }
}

spec fn lists_in(rows: Seq<PhaseHooks>, phase: Phase) -> HookLists {
    HookLists {
        entry: collected(rows, phase, Stage::Entry),
        tick: collected(rows, phase, Stage::Tick),
        exit: collected(rows, phase, Stage::Exit),
    }
}

spec fn table_of(rows: Seq<PhaseHooks>) -> Map<Phase, HookLists> {
    Map::new(|phase: Phase| listed(rows, phase), |phase: Phase| lists_in(rows, phase))
}

proof fn lemma_unlisted_has_no_hooks(rows: Seq<PhaseHooks>, phase: Phase, stage: Stage)
    requires
        !listed(rows, phase),
    ensures
        collected(rows, phase, stage) == Seq::<u64>::empty(),
    decreases rows.len(),
{
    if rows.len() > 0 {
        assert(rows[rows.len() - 1].phase != phase);
        assert forall|i: int| 0 <= i < rows.drop_last().len() implies (
        #[trigger] rows.drop_last()[i]).phase != phase by {
            assert(rows[i].phase != phase);
        }
        lemma_unlisted_has_no_hooks(rows.drop_last(), phase, stage);
    }
}

proof fn lemma_push_row(rows: Seq<PhaseHooks>, row: PhaseHooks)
    ensures
        table_of(rows.push(row)) == table_of(rows).insert(
            row.phase,
            (if listed(rows, row.phase) {
                lists_in(rows, row.phase)
            } else {
                HookLists::none()
            }).followed_by(
                HookLists { entry: row.entry@, tick: row.tick@, exit: row.exit@ },
            ),
        ),
{
    let grown = rows.push(row);
    assert(grown.drop_last() =~= rows);
    assert(grown.last() == row);
    let expected = table_of(rows).insert(
        row.phase,
        (if listed(rows, row.phase) {
            lists_in(rows, row.phase)
        } else {
            HookLists::none()
        }).followed_by(HookLists { entry: row.entry@, tick: row.tick@, exit: row.exit@ }),
    );
    assert forall|phase: Phase| listed(grown, phase) == (listed(rows, phase) || phase
        == row.phase) by {
        if listed(rows, phase) {
            let i = choose|i: int| 0 <= i < rows.len() && (#[trigger] rows[i]).phase == phase;
            assert(grown[i].phase == phase);
        }
        if phase == row.phase {
            assert(grown[rows.len() as int].phase == phase);
        }
        if listed(grown, phase) {
            let i = choose|i: int| 0 <= i < grown.len() && (#[trigger] grown[i]).phase == phase;
            if i < rows.len() {
                assert(rows[i].phase == phase);
            }
        }
    }
    if !listed(rows, row.phase) {
        lemma_unlisted_has_no_hooks(rows, row.phase, Stage::Entry);
        lemma_unlisted_has_no_hooks(rows, row.phase, Stage::Tick);
        lemma_unlisted_has_no_hooks(rows, row.phase, Stage::Exit);
    }
    assert(table_of(grown) =~= expected);
}

/// The scheduler: the registration table and the state of the machine.
pub struct PhaseScheduler {
    table: Vec<PhaseHooks>,
    current: Phase,
    next: Option<Phase>,
    entered: bool,
}

impl View for PhaseScheduler {
    type V = SchedulerState;

    closed spec fn view(&self) -> SchedulerState {
        SchedulerState {
            hooks: table_of(self.table@),
            current: self.current,
            next: self.next,
            entered: self.entered,
        }
    }
}

impl PhaseScheduler {
    /// A scheduler that starts in `initial`, which it registers without
    /// hooks. The entry hooks of `initial` run in the first cycle.
    pub fn new(initial: Phase) -> (scheduler: Self)
        ensures
            scheduler@ == SchedulerState::initial(initial),
            scheduler@.wf(),
    {
        let mut table: Vec<PhaseHooks> = Vec::new();
        let row = PhaseHooks {
            phase: initial,
            entry: Vec::new(),
            tick: Vec::new(),
            exit: Vec::new(),
        };
        proof {
            lemma_push_row(table@, row);
            assert(table_of(table@) =~= Map::empty());
            assert(HookLists::none().followed_by(
                HookLists { entry: row.entry@, tick: row.tick@, exit: row.exit@ },
            ) == HookLists::none()) by {
                assert(Seq::<u64>::empty() + row.entry@ =~= Seq::<u64>::empty());
                assert(Seq::<u64>::empty() + row.tick@ =~= Seq::<u64>::empty());
                assert(Seq::<u64>::empty() + row.exit@ =~= Seq::<u64>::empty());
            }
        }
        table.push(row);
        assert(table@[0].phase == initial);
        PhaseScheduler { table, current: initial, next: None, entered: false }
    }

    /// Registers hooks for `phase`: `start` for its entry, `run` for every
    /// cycle spent in it, `exit` for leaving it. Hooks registered earlier for
    /// the same phase stay in front of these.
    pub fn add_phase(&mut self, phase: Phase, start: Vec<u64>, run: Vec<u64>, exit: Vec<u64>)
        ensures
            final(self)@ == old(self)@.with_phase(
                phase,
                HookLists { entry: start@, tick: run@, exit: exit@ },
            ),
            old(self)@.wf() ==> final(self)@.wf(),
    {
        let row = PhaseHooks { phase, entry: start, tick: run, exit };
        proof {
            lemma_push_row(self.table@, row);
        }
        self.table.push(row);
    }

    /// The phase that the scheduler is in.
    pub fn current(&self) -> (phase: Phase)
        ensures
            phase == self@.current,
    {
        self.current
    }

    /// The phase requested since the last cycle, if any.
    pub fn requested(&self) -> (target: Option<Phase>)
        ensures
            target == self@.next,
    {
        self.next
    }

    /// Whether `phase` is registered.
    pub fn is_registered(&self, phase: Phase) -> (known: bool)
        ensures
            known == self@.hooks.contains_key(phase),
    {
        let mut i: usize = 0;
        while i < self.table.len()
            invariant
                i <= self.table.len(),
                forall|j: int| 0 <= j < i ==> (#[trigger] self.table@[j]).phase != phase,
            decreases self.table.len() - i,
        {
            if self.table[i].phase == phase {
                return true;
            }
            i = i + 1;
        }
        false
    }

    /// Asks for a transition to `target`, to be applied by the next cycle.
    /// Of several requests between two cycles the last one counts. A request
    /// for a phase that was never registered is turned down and changes
    /// nothing.
    pub fn request(&mut self, target: Phase) -> (outcome: Result<(), PhaseError>)
        ensures
            final(self)@ == old(self)@.requested(target),
            old(self)@.wf() ==> final(self)@.wf(),
            outcome == if old(self)@.hooks.contains_key(target) {
                Ok::<(), PhaseError>(())
            } else {
                Err::<(), PhaseError>(PhaseError::Unregistered(target))
            },
    {
        if self.is_registered(target) {
            self.next = Some(target);
            Ok(())
        } else {
            Err(PhaseError::Unregistered(target))
        }
    }

    /// The hooks registered for one stage of one phase, in registration
    /// order.
    pub fn hooks(&self, phase: Phase, stage: Stage) -> (hooks: Vec<u64>)
        ensures
            hooks@ == self@.lists_of(phase).of(stage),
    {
        let mut hooks: Vec<u64> = Vec::new();
        let mut i: usize = 0;
        assert(self.table@.take(0) =~= Seq::<PhaseHooks>::empty());
        while i < self.table.len()
            invariant
                i <= self.table.len(),
                hooks@ == collected(self.table@.take(i as int), phase, stage),
            decreases self.table.len() - i,
        {
            let row = &self.table[i];
            proof {
                let upto = self.table@.take(i + 1);
                assert(upto.drop_last() =~= self.table@.take(i as int));
                assert(upto.last() == self.table@[i as int]);
            }
            if row.phase == phase {
                let list: &Vec<u64> = match stage {
                    Stage::Entry => &row.entry,
                    Stage::Tick => &row.tick,
                    Stage::Exit => &row.exit,
                };
                let ghost before = hooks@;
                let mut j: usize = 0;
                while j < list.len()
                    invariant
                        j <= list.len(),
                        hooks@ == before + list@.take(j as int),
                    decreases list.len() - j,
                {
                    hooks.push(list[j]);
                    assert(list@.take(j + 1) =~= list@.take(j as int).push(list@[j as int]));
                    j = j + 1;
                }
                assert(list@.take(list@.len() as int) =~= list@);
            }
            i = i + 1;
        }
        proof {
            assert(self.table@.take(self.table@.len() as int) =~= self.table@);
            if !listed(self.table@, phase) {
                lemma_unlisted_has_no_hooks(self.table@, phase, stage);
            }
        }
        hooks
    }

    /// The stages that the next cycle goes through.
    fn plan(&self) -> (events: Vec<PhaseEvent>)
        ensures
            events@ == self@.events(),
    {
        let mut events: Vec<PhaseEvent> = Vec::new();
        if !self.entered {
            events.push(PhaseEvent { stage: Stage::Entry, phase: self.current });
        }
        let mut reached = self.current;
        match self.next {
            Some(target) => {
                if target != self.current {
                    events.push(PhaseEvent { stage: Stage::Exit, phase: self.current });
                    events.push(PhaseEvent { stage: Stage::Entry, phase: target });
                    reached = target;
                }
            },
            None => {},
        }
        events.push(PhaseEvent { stage: Stage::Tick, phase: reached });
        assert(events@ =~= self@.events());
        events
    }

    /// Runs one cycle of the machine and returns the hooks that the host has
    /// to run for it, in order. The transition requested since the last
    /// cycle is applied first: the exit hooks of the phase left, then the
    /// entry hooks of the phase reached. Then come the tick hooks of the
    /// phase the scheduler is in. A request for the current phase is no
    /// transition. The first cycle starts with the entry hooks of the initial
    /// phase.
    pub fn cycle(&mut self) -> (runs: Vec<HookRun>)
        ensures
            final(self)@ == old(self)@.after_cycle(),
            old(self)@.wf() ==> final(self)@.wf(),
            runs@ == old(self)@.hook_runs(old(self)@.events()),
    {
        let events = self.plan();
        let mut runs: Vec<HookRun> = Vec::new();
        let mut k: usize = 0;
        assert(events@.take(0) =~= Seq::<PhaseEvent>::empty());
        while k < events.len()
            invariant
                k <= events.len(),
                runs@ == self@.hook_runs(events@.take(k as int)),
            decreases events.len() - k,
        {
            let event = events[k];
            let hooks = self.hooks(event.phase, event.stage);
            let ghost before = runs@;
            let mut j: usize = 0;
            while j < hooks.len()
                invariant
                    j <= hooks.len(),
                    runs@ == before + as_runs(hooks@.take(j as int), event.phase, event.stage),
                decreases hooks.len() - j,
            {
                runs.push(HookRun { phase: event.phase, stage: event.stage, hook: hooks[j] });
                assert(hooks@.take(j + 1) =~= hooks@.take(j as int).push(hooks@[j as int]));
                j = j + 1;
            }
            proof {
                assert(hooks@.take(hooks@.len() as int) =~= hooks@);
                let upto = events@.take(k + 1);
                assert(upto.drop_last() =~= events@.take(k as int));
                assert(upto.last() == event);
            }
            k = k + 1;
        }
        assert(events@.take(events@.len() as int) =~= events@);
        match self.next {
            Some(target) => {
                self.current = target;
            },
            None => {},
        }
        self.next = None;
        self.entered = true;
        runs
    }
}

/// Of two requests made between two cycles the later one counts, where its
/// target is registered; so the last registered target wins.
pub proof fn lemma_last_request_wins(s: SchedulerState, first: Phase, last: Phase)
    requires
        s.hooks.contains_key(last),
    ensures
        s.requested(first).requested(last) == s.requested(last),
{
}

/// Asking twice for the same phase is asking once.
pub proof fn lemma_repeated_request_is_one(s: SchedulerState, target: Phase)
    ensures
        s.requested(target).requested(target) == s.requested(target),
{
}

/// The occurrences counted in two runs of stages add up.
proof fn lemma_occurrences_concat(a: Seq<PhaseEvent>, b: Seq<PhaseEvent>, event: PhaseEvent)
    ensures
        occurrences(a + b, event) == occurrences(a, event) + occurrences(b, event),
    decreases b.len(),
{
    if b.len() == 0 {
        assert(a + b =~= a);
    } else {
        assert((a + b).drop_last() =~= a + b.drop_last());
        assert((a + b).last() == b.last());
        lemma_occurrences_concat(a, b.drop_last(), event);
    }
}

/// The stages of one cycle, written out.
proof fn lemma_events_shape(s: SchedulerState)
    ensures
        s.entered && s.transition().is_none() ==> s.events() == seq![
            PhaseEvent { stage: Stage::Tick, phase: s.current },
        ],
        !s.entered && s.transition().is_none() ==> s.events() == seq![
            PhaseEvent { stage: Stage::Entry, phase: s.current },
            PhaseEvent { stage: Stage::Tick, phase: s.current },
        ],
        s.entered && s.transition().is_some() ==> s.events() == seq![
            PhaseEvent { stage: Stage::Exit, phase: s.current },
            PhaseEvent { stage: Stage::Entry, phase: s.phase_after() },
            PhaseEvent { stage: Stage::Tick, phase: s.phase_after() },
        ],
        !s.entered && s.transition().is_some() ==> s.events() == seq![
            PhaseEvent { stage: Stage::Entry, phase: s.current },
            PhaseEvent { stage: Stage::Exit, phase: s.current },
            PhaseEvent { stage: Stage::Entry, phase: s.phase_after() },
            PhaseEvent { stage: Stage::Tick, phase: s.phase_after() },
        ],
{
    if s.entered && s.transition().is_none() {
        assert(s.events() =~= seq![PhaseEvent { stage: Stage::Tick, phase: s.current }]);
    } else if !s.entered && s.transition().is_none() {
        assert(s.events() =~= seq![
            PhaseEvent { stage: Stage::Entry, phase: s.current },
            PhaseEvent { stage: Stage::Tick, phase: s.current },
        ]);
    } else if s.entered {
        assert(s.events() =~= seq![
            PhaseEvent { stage: Stage::Exit, phase: s.current },
            PhaseEvent { stage: Stage::Entry, phase: s.phase_after() },
            PhaseEvent { stage: Stage::Tick, phase: s.phase_after() },
        ]);
    } else {
        assert(s.events() =~= seq![
            PhaseEvent { stage: Stage::Entry, phase: s.current },
            PhaseEvent { stage: Stage::Exit, phase: s.current },
            PhaseEvent { stage: Stage::Entry, phase: s.phase_after() },
            PhaseEvent { stage: Stage::Tick, phase: s.phase_after() },
        ]);
    }
}

/// One cycle goes through each stage of each phase as often as it is due.
proof fn lemma_cycle_runs_what_is_due(s: SchedulerState, event: PhaseEvent)
    ensures
        occurrences(s.events(), event) == s.due(event),
{
    lemma_events_shape(s);
    reveal_with_fuel(occurrences, 5);
    let events = s.events();
    if events.len() == 4 {
        assert(events.drop_last().drop_last().drop_last().len() == 1);
    }
}

/// Over any number of cycles, with any requests between them, each stage of
/// each phase is gone through exactly as often as it is due: an entry once
/// for each arrival in its phase, a tick once for each cycle that ends in its
/// phase, an exit once for each departure from its phase.
pub proof fn lemma_stages_run_when_due(
    s: SchedulerState,
    requests: Seq<Seq<Phase>>,
    event: PhaseEvent,
)
    ensures
        occurrences(s.trace(requests), event) == s.due_over(requests, event),
    decreases requests.len(),
{
    if requests.len() > 0 {
        let then = s.after_cycle().after_requests(requests[0]);
        lemma_cycle_runs_what_is_due(s, event);
        lemma_occurrences_concat(s.events(), then.trace(requests.drop_first()), event);
        lemma_stages_run_when_due(then, requests.drop_first(), event);
    }
}

/// Over any number of cycles, with any requests between them, the exit of a
/// phase is gone through exactly once for each cycle that leaves that phase
/// for another one.
pub proof fn lemma_exit_once_per_departure(
    s: SchedulerState,
    requests: Seq<Seq<Phase>>,
    phase: Phase,
)
    ensures
        occurrences(s.trace(requests), PhaseEvent { stage: Stage::Exit, phase }) == s.departures(
            requests,
            phase,
        ),
    decreases requests.len(),
{
    if requests.len() > 0 {
        let then = s.after_cycle().after_requests(requests[0]);
        let exit = PhaseEvent { stage: Stage::Exit, phase };
        lemma_cycle_runs_what_is_due(s, exit);
        lemma_occurrences_concat(s.events(), then.trace(requests.drop_first()), exit);
        lemma_exit_once_per_departure(then, requests.drop_first(), phase);
    }
}

/// Over any number of cycles, with any requests between them, the exit of a
/// phase is followed at once by the entry of another phase, and that by the
/// tick of the phase entered: nothing of the next phase comes before the
/// exit of the phase left.
pub proof fn lemma_exit_precedes_entry(s: SchedulerState, requests: Seq<Seq<Phase>>, i: int)
    requires
        0 <= i < s.trace(requests).len(),
        s.trace(requests)[i].stage == Stage::Exit,
    ensures
        i + 2 < s.trace(requests).len(),
        s.trace(requests)[i + 1].stage == Stage::Entry,
        s.trace(requests)[i + 1].phase != s.trace(requests)[i].phase,
        s.trace(requests)[i + 2] == (PhaseEvent {
            stage: Stage::Tick,
            phase: s.trace(requests)[i + 1].phase,
        }),
    decreases requests.len(),
{
    if requests.len() > 0 {
        let then = s.after_cycle().after_requests(requests[0]);
        let rest = then.trace(requests.drop_first());
        lemma_events_shape(s);
        if i >= s.events().len() {
            lemma_exit_precedes_entry(then, requests.drop_first(), i - s.events().len());
        }
    }
}

/// The hooks of a cycle that changes phase, written out: every exit hook of
/// the phase left, once and in registration order; behind them every entry
/// hook of the phase reached; behind those its tick hooks.
pub proof fn lemma_transition_runs(s: SchedulerState, target: Phase)
    requires
        s.entered,
        s.transition() == Some(target),
    ensures
        s.hook_runs(s.events()) == as_runs(s.lists_of(s.current).exit, s.current, Stage::Exit)
            + as_runs(s.lists_of(target).entry, target, Stage::Entry) + as_runs(
            s.lists_of(target).tick,
            target,
            Stage::Tick,
        ),
{
    lemma_events_shape(s);
    reveal_with_fuel(SchedulerState::hook_runs, 4);
    let events = s.events();
    assert(events.drop_last() =~= seq![
        PhaseEvent { stage: Stage::Exit, phase: s.current },
        PhaseEvent { stage: Stage::Entry, phase: target },
    ]);
    assert(events.drop_last().drop_last() =~= seq![
        PhaseEvent { stage: Stage::Exit, phase: s.current },
    ]);
    assert(events.drop_last().drop_last().drop_last() =~= Seq::<PhaseEvent>::empty());
    assert(Seq::<HookRun>::empty() + s.runs_of(events[0]) =~= s.runs_of(events[0]));
}

/// The hooks of a cycle that stays in its phase are the tick hooks of that
/// phase, in registration order: no entry hook and no exit hook runs.
pub proof fn lemma_steady_runs(s: SchedulerState)
    requires
        s.entered,
        s.transition().is_none(),
    ensures
        s.hook_runs(s.events()) == as_runs(s.lists_of(s.current).tick, s.current, Stage::Tick),
{
    lemma_events_shape(s);
    reveal_with_fuel(SchedulerState::hook_runs, 2);
    let events = s.events();
    assert(events.drop_last() =~= Seq::<PhaseEvent>::empty());
    assert(Seq::<HookRun>::empty() + s.runs_of(events[0]) =~= s.runs_of(events[0]));
}

} // verus!
