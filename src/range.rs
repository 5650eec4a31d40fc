//! The bounded traversal of a block range, and what it does to the status store.

use vstd::prelude::*;
use crate::status::{BlockIndexingStatus, StatusStore, skip_spec, terminated_under};

verus! {

/// Where the range traversal stands on its current block.
#[derive(PartialEq, Eq, Structural, Clone, Copy, Debug)]
pub enum RangePhase {
    Check,
    Notify,
    MarkProcessing,
    Fetch,
    Terminate,
    Report,
    Done,
}

/// What the driver must do next for the range traversal.
#[derive(PartialEq, Eq, Structural, Clone, Copy, Debug)]
pub enum RangeAction {
    /// Ask the status store whether `block` is to be skipped, and hand the
    /// answer to `advance`.
    CheckSkip { block: u64 },
    /// Tell the progress observer that `block` is being processed.
    NotifyProcessing { block: u64 },
    /// Write `Processing` for `block`, tagged with the engine's version and identifier.
    MarkProcessing { block: u64 },
    /// Fetch the block's timestamp and its events for the registrar's keys,
    /// and run the event pipeline over each in order.
    FetchAndProcess { block: u64 },
    /// Write `Terminated` for `block`, tagged with the engine's version and identifier.
    MarkTerminated { block: u64 },
    /// Tell the progress observer that `block` is done; the percentage
    /// reported is `block / to * 100`.
    NotifyTerminated { block: u64, to: u64 },
    /// The range is done.
    Finished,
}

/// The bounded traversal of blocks `from ..= to`, in ascending order.
#[derive(PartialEq, Eq, Structural, Clone, Copy, Debug)]
pub struct RangeIndexer {
    pub from: u64,
    pub current: u64,
    pub to: u64,
    pub phase: RangePhase,
}

/// The traversal's start state.
pub open spec fn range_start(from: u64, to: u64) -> RangeIndexer {
    RangeIndexer {
        from,
        current: from,
        to,
        phase: if from <= to { RangePhase::Check } else { RangePhase::Done },
    }
}

/// The action that state `s` asks of the driver.
pub open spec fn range_action(s: RangeIndexer) -> RangeAction {
    match s.phase {
        RangePhase::Check => RangeAction::CheckSkip { block: s.current },
        RangePhase::Notify => RangeAction::NotifyProcessing { block: s.current },
        RangePhase::MarkProcessing => RangeAction::MarkProcessing { block: s.current },
        RangePhase::Fetch => RangeAction::FetchAndProcess { block: s.current },
        RangePhase::Terminate => RangeAction::MarkTerminated { block: s.current },
        RangePhase::Report => RangeAction::NotifyTerminated { block: s.current, to: s.to },
        RangePhase::Done => RangeAction::Finished,
    }
}

/// Leaves the current block: on to the next one, or done after `to`.
pub open spec fn range_move_on(s: RangeIndexer) -> RangeIndexer {
    if s.current >= s.to {
        RangeIndexer { phase: RangePhase::Done, ..s }
    } else {
        RangeIndexer { current: (s.current + 1) as u64, phase: RangePhase::Check, ..s }
    }
}

/// The state after the driver did `range_action(s)`; `skip` is the store's
/// answer where that action was `CheckSkip`, and is ignored otherwise.
pub open spec fn range_next(s: RangeIndexer, skip: bool) -> RangeIndexer {
    match s.phase {
        RangePhase::Check => if skip { range_move_on(s) } else { RangeIndexer { phase: RangePhase::Notify, ..s } },
        RangePhase::Notify => RangeIndexer { phase: RangePhase::MarkProcessing, ..s },
        RangePhase::MarkProcessing => RangeIndexer { phase: RangePhase::Fetch, ..s },
        RangePhase::Fetch => RangeIndexer { phase: RangePhase::Terminate, ..s },
        RangePhase::Terminate => RangeIndexer { phase: RangePhase::Report, ..s },
        RangePhase::Report => range_move_on(s),
        RangePhase::Done => s,
    }
}

impl RangeIndexer {
    /// Starts a traversal of `from ..= to`; an empty range is done at once.
    pub fn new(from: u64, to: u64) -> (r: RangeIndexer)
        ensures
            r == range_start(from, to),
    {
        RangeIndexer {
            from,
            current: from,
            to,
            phase: if from <= to { RangePhase::Check } else { RangePhase::Done },
        }
    }

    /// The action the driver must perform next.
    pub fn action(&self) -> (r: RangeAction)
        ensures
            r == range_action(*self),
    {
        match self.phase {
            RangePhase::Check => RangeAction::CheckSkip { block: self.current },
            RangePhase::Notify => RangeAction::NotifyProcessing { block: self.current },
            RangePhase::MarkProcessing => RangeAction::MarkProcessing { block: self.current },
            RangePhase::Fetch => RangeAction::FetchAndProcess { block: self.current },
            RangePhase::Terminate => RangeAction::MarkTerminated { block: self.current },
            RangePhase::Report => RangeAction::NotifyTerminated { block: self.current, to: self.to },
            RangePhase::Done => RangeAction::Finished,
        }
    }

    /// Whether the traversal is over.
    pub fn is_finished(&self) -> (r: bool)
        ensures
            r == (self.phase == RangePhase::Done),
    {
        match self.phase {
            RangePhase::Done => true,
            _ => false,
        }
    }

    fn move_on(&mut self)
        ensures
            *final(self) == range_move_on(*old(self)),
    {
        if self.current >= self.to {
            self.phase = RangePhase::Done;
        } else {
            self.current = self.current + 1;
            self.phase = RangePhase::Check;
        }
    }

    /// Moves on once the driver has performed `self.action()`; `skip` is the
    /// store's answer to a `CheckSkip`.
    pub fn advance(&mut self, skip: bool)
        ensures
            *final(self) == range_next(*old(self), skip),
    {
        match self.phase {
            RangePhase::Check => {
                if skip {
                    self.move_on();
                } else {
                    self.phase = RangePhase::Notify;
                }
            },
            RangePhase::Notify => { self.phase = RangePhase::MarkProcessing; },
            RangePhase::MarkProcessing => { self.phase = RangePhase::Fetch; },
            RangePhase::Fetch => { self.phase = RangePhase::Terminate; },
            RangePhase::Terminate => { self.phase = RangePhase::Report; },
            RangePhase::Report => { self.move_on(); },
            RangePhase::Done => {},
        }
    }
}

/// What a status write of action `a` does to the store, for an engine of
/// version `version` and identifier `id`.
pub open spec fn range_store_after(store: StatusStore, a: RangeAction, version: Seq<char>, id: Seq<char>) -> StatusStore {
    match a {
        RangeAction::MarkProcessing { block } => store.insert(block, (BlockIndexingStatus::Processing, version, id)),
        RangeAction::MarkTerminated { block } => store.insert(block, (BlockIndexingStatus::Terminated, version, id)),
        _ => store,
    }
}

/// `fuel` steps of the traversal from state `s` against a status store that
/// answers by the skip rule: the final state, the final store, and how many
/// blocks had their events fetched and processed.
pub open spec fn range_run(
    s: RangeIndexer,
    store: StatusStore,
    version: Seq<char>,
    id: Seq<char>,
    force: bool,
    fuel: nat,
) -> (RangeIndexer, StatusStore, nat)
    decreases fuel,
{
    if fuel == 0 {
        (s, store, 0)
    } else {
        let a = range_action(s);
        let skip = skip_spec(store, s.current, version, force);
        let rest = range_run(range_next(s, skip), range_store_after(store, a, version, id), version, id, force, (fuel - 1) as nat);
        (rest.0, rest.1, rest.2 + if a is FetchAndProcess { 1nat } else { 0nat })
    }
}

/// What holds at every state of a traversal: every block passed over, and
/// the current one once reported, stands terminated under `version`.
pub open spec fn range_inv(s: RangeIndexer, store: StatusStore, version: Seq<char>) -> bool {
    &&& s.phase != RangePhase::Done ==> s.from <= s.current <= s.to
    &&& s.phase != RangePhase::Done ==> forall|k: u64| s.from <= k < s.current ==> #[trigger] terminated_under(store, k, version)
    &&& s.phase == RangePhase::Report ==> terminated_under(store, s.current, version)
    &&& s.phase == RangePhase::Done ==> forall|k: u64| s.from <= k <= s.to ==> #[trigger] terminated_under(store, k, version)
}

proof fn lemma_range_step_inv(s: RangeIndexer, store: StatusStore, version: Seq<char>, id: Seq<char>, force: bool)
    requires
        range_inv(s, store, version),
    ensures
        range_inv(
            range_next(s, skip_spec(store, s.current, version, force)),
            range_store_after(store, range_action(s), version, id),
            version,
        ),
{
    let store2 = range_store_after(store, range_action(s), version, id);
    let s2 = range_next(s, skip_spec(store, s.current, version, force));
    if s.phase != RangePhase::Done {
        assert forall|k: u64| s.from <= k < s.current implies #[trigger] terminated_under(store2, k, version) by {
            assert(terminated_under(store, k, version));
        }
    }
    if s2.phase == RangePhase::Done && s.phase != RangePhase::Done {
        assert forall|k: u64| s.from <= k <= s.to implies #[trigger] terminated_under(store2, k, version) by {
            if k < s.current {
                assert(terminated_under(store, k, version));
            }
        }
    }
    if s2.phase == RangePhase::Check && s2.current != s.current {
        assert forall|k: u64| s2.from <= k < s2.current implies #[trigger] terminated_under(store2, k, version) by {
            if k < s.current {
                assert(terminated_under(store, k, version));
            }
        }
    }
}

proof fn lemma_range_run_bounds(s: RangeIndexer, store: StatusStore, version: Seq<char>, id: Seq<char>, force: bool, fuel: nat)
    ensures
        range_run(s, store, version, id, force, fuel).0.from == s.from,
        range_run(s, store, version, id, force, fuel).0.to == s.to,
    decreases fuel,
{
    if fuel > 0 {
        lemma_range_run_bounds(
            range_next(s, skip_spec(store, s.current, version, force)),
            range_store_after(store, range_action(s), version, id),
            version,
            id,
            force,
            (fuel - 1) as nat,
        );
    }
}

/// Every state that a traversal reaches from one where `range_inv` holds
/// satisfies it too.
pub proof fn lemma_range_run_inv(s: RangeIndexer, store: StatusStore, version: Seq<char>, id: Seq<char>, force: bool, fuel: nat)
    requires
        range_inv(s, store, version),
    ensures
        range_inv(range_run(s, store, version, id, force, fuel).0, range_run(s, store, version, id, force, fuel).1, version),
    decreases fuel,
{
    if fuel > 0 {
        lemma_range_step_inv(s, store, version, id, force);
        let a = range_action(s);
        lemma_range_run_inv(
            range_next(s, skip_spec(store, s.current, version, force)),
            range_store_after(store, a, version, id),
            version,
            id,
            force,
            (fuel - 1) as nat,
        );
    }
}

/// Once a traversal of `from ..= to` has finished, every block of the range
/// stands terminated under the engine's version, and the skip rule without
/// forcing skips it.
pub proof fn lemma_range_terminates_every_block(
    from: u64,
    to: u64,
    store: StatusStore,
    version: Seq<char>,
    id: Seq<char>,
    force: bool,
    fuel: nat,
)
    ensures
        ({
            let (fin, st, _) = range_run(range_start(from, to), store, version, id, force, fuel);
            fin.phase == RangePhase::Done ==> forall|n: u64| from <= n <= to ==>
                #[trigger] terminated_under(st, n, version) && skip_spec(st, n, version, false)
        }),
{
    let r = range_run(range_start(from, to), store, version, id, force, fuel);
    lemma_range_run_inv(range_start(from, to), store, version, id, force, fuel);
    lemma_range_run_bounds(range_start(from, to), store, version, id, force, fuel);
    if r.0.phase == RangePhase::Done {
        assert forall|n: u64| from <= n <= to implies #[trigger] terminated_under(r.1, n, version)
            && skip_spec(r.1, n, version, false) by {
            assert(terminated_under(r.1, n, version));
        }
    }
}

/// The store holds every block of `from ..= to` terminated under `version`.
pub open spec fn range_all_terminated(store: StatusStore, from: u64, to: u64, version: Seq<char>) -> bool {
    forall|k: u64| from <= k <= to ==> #[trigger] terminated_under(store, k, version)
}

proof fn lemma_range_run_skips(s: RangeIndexer, store: StatusStore, version: Seq<char>, id: Seq<char>, fuel: nat)
    requires
        s.phase == RangePhase::Check || s.phase == RangePhase::Done,
        s.phase == RangePhase::Check ==> s.from <= s.current <= s.to,
        range_all_terminated(store, s.from, s.to, version),
    ensures
        range_run(s, store, version, id, false, fuel).2 == 0,
        range_run(s, store, version, id, false, fuel).1 == store,
    decreases fuel,
{
    if fuel > 0 {
        if s.phase == RangePhase::Check {
            assert(terminated_under(store, s.current, version));
        }
        lemma_range_run_skips(range_next(s, skip_spec(store, s.current, version, false)), store, version, id, (fuel - 1) as nat);
    }
}

/// Running a traversal of `from ..= to` again without forcing, after one
/// finished, fetches and processes no block, and leaves the store as it was.
pub proof fn lemma_range_rerun_skips_all(
    from: u64,
    to: u64,
    store: StatusStore,
    version: Seq<char>,
    id: Seq<char>,
    force: bool,
    fuel1: nat,
    fuel2: nat,
)
    ensures
        ({
            let (fin, st, _) = range_run(range_start(from, to), store, version, id, force, fuel1);
            fin.phase == RangePhase::Done ==> {
                &&& range_run(range_start(from, to), st, version, id, false, fuel2).2 == 0
                &&& range_run(range_start(from, to), st, version, id, false, fuel2).1 == st
            }
        }),
{
    lemma_range_terminates_every_block(from, to, store, version, id, force, fuel1);
    let st = range_run(range_start(from, to), store, version, id, force, fuel1).1;
    if range_run(range_start(from, to), store, version, id, force, fuel1).0.phase == RangePhase::Done {
        assert(range_all_terminated(st, from, to, version));
        lemma_range_run_skips(range_start(from, to), st, version, id, fuel2);
    }
}

/// How many blocks a forced traversal has fetched and processed by state `s`.
pub open spec fn range_forced_count(s: RangeIndexer) -> int {
    if s.phase == RangePhase::Done {
        if s.from <= s.to { s.to - s.from + 1 } else { 0 }
    } else if s.phase == RangePhase::Terminate || s.phase == RangePhase::Report {
        s.current - s.from + 1
    } else {
        s.current - s.from
    }
}

proof fn lemma_range_run_forced(s: RangeIndexer, store: StatusStore, version: Seq<char>, id: Seq<char>, fuel: nat)
    requires
        s.phase != RangePhase::Done ==> s.from <= s.current <= s.to,
    ensures
        range_forced_count(s) + range_run(s, store, version, id, true, fuel).2
            == range_forced_count(range_run(s, store, version, id, true, fuel).0),
    decreases fuel,
{
    if fuel > 0 {
        let a = range_action(s);
        lemma_range_run_forced(range_next(s, false), range_store_after(store, a, version, id), version, id, (fuel - 1) as nat);
    }
}

/// A forced traversal of `from ..= to` that finished fetched and processed
/// every block of the range, once each, whatever the store held.
pub proof fn lemma_range_forced_processes_all(
    from: u64,
    to: u64,
    store: StatusStore,
    version: Seq<char>,
    id: Seq<char>,
    fuel: nat,
)
    requires
        from <= to,
    ensures
        ({
            let (fin, _, processed) = range_run(range_start(from, to), store, version, id, true, fuel);
            fin.phase == RangePhase::Done ==> processed == to - from + 1
        }),
{
    let r = range_run(range_start(from, to), store, version, id, true, fuel);
    lemma_range_run_forced(range_start(from, to), store, version, id, fuel);
    assert(range_forced_count(range_start(from, to)) == 0);
    if r.0.phase == RangePhase::Done {
        assert(r.0.from == from && r.0.to == to) by {
            lemma_range_run_bounds(range_start(from, to), store, version, id, true, fuel);
        }
    }
}

/// The observer hears that a block is done only once the block stands
/// terminated in the store, and once per block: the report is followed by
/// the next block or the end.
pub proof fn lemma_range_report_after_terminated(s: RangeIndexer, store: StatusStore, version: Seq<char>, skip: bool)
    requires
        range_inv(s, store, version),
        range_action(s) is NotifyTerminated,
    ensures
        terminated_under(store, s.current, version),
        range_next(s, skip).phase == RangePhase::Done || range_next(s, skip).current == s.current + 1,
{
}

} // verus!
