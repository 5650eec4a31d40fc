//! The pending-block tail: polling, rollover to the latest block, and the
//! desync cleanup.

use vstd::prelude::*;
use crate::felt::Felt;
use crate::pending::PendingBlockData;

verus! {

/// Where the pending-tail loop stands within one tick.
#[derive(PartialEq, Eq, Structural, Clone, Copy, Debug)]
pub enum TailPhase {
    /// Waiting for the pending block's timestamp and transactions.
    Poll,
    /// The pending timestamp moved: waiting for the latest block.
    AwaitLatest,
    /// The latest block is not the one tracked: its record is being removed.
    Cleaning,
    /// Going through the latest block's transactions.
    Latest,
    /// The latest block is done: its record is being written.
    Promote,
    /// Going through the pending block's transactions.
    Pending,
    /// The tick is over.
    Rest,
    /// A transaction of the latest block could not be read.
    Aborted,
}

/// What the driver must do next for the pending tail.
#[derive(PartialEq, Eq, Structural, Clone, Copy, Debug)]
pub enum TailAction {
    /// Fetch the pending block's timestamp and transaction hashes, and hand
    /// them back as `TailInput::Pending`.
    FetchPending,
    /// Fetch the latest block number, then the latest block's timestamp and
    /// transaction hashes, and hand them back as `TailInput::Latest`.
    FetchLatest,
    /// Remove the status record of the block stored under `timestamp`.
    CleanBlock { timestamp: u64 },
    /// Fetch the events of transaction `hash` and run the event pipeline over
    /// them at `block_number` and `timestamp`.
    ProcessTx { hash: Felt, block_number: u64, timestamp: u64 },
    /// Write the tracked pending block, stored under `timestamp`, as block
    /// `block_number`, terminated.
    UpdateLastPendingBlock { block_number: u64, timestamp: u64 },
    /// Wait before the next tick.
    Sleep,
    /// Stop the loop with an error: transaction `hash` of the latest block
    /// could not be read.
    Abort { hash: Felt },
}

/// What the driver hands back after performing an action.
pub enum TailInput {
    Pending { timestamp: u64, txs: Vec<Felt> },
    Latest { block_number: u64, timestamp: u64, txs: Vec<Felt> },
    /// The transaction's events were fetched and went through the pipeline.
    TxProcessed,
    /// The transaction's events could not be fetched.
    TxFailed,
    /// A status write or the sleep is done.
    Done,
}

/// The mathematical value of a `TailInput`.
pub ghost enum TailEvent {
    Pending { timestamp: u64, txs: Seq<Felt> },
    Latest { block_number: u64, timestamp: u64, txs: Seq<Felt> },
    TxProcessed,
    TxFailed,
    Done,
}

impl View for TailInput {
    type V = TailEvent;

    open spec fn view(&self) -> TailEvent {
        match self {
            TailInput::Pending { timestamp, txs } => TailEvent::Pending { timestamp: *timestamp, txs: txs@ },
            TailInput::Latest { block_number, timestamp, txs } => TailEvent::Latest {
                block_number: *block_number,
                timestamp: *timestamp,
                txs: txs@,
            },
            TailInput::TxProcessed => TailEvent::TxProcessed,
            TailInput::TxFailed => TailEvent::TxFailed,
            TailInput::Done => TailEvent::Done,
        }
    }
}

/// The state of the pending-tail loop: the cache of the tracked pending
/// block, and what the current tick has seen so far.
pub struct PendingTail {
    pub cache: PendingBlockData,
    pub phase: TailPhase,
    pub pending_ts: u64,
    pub pending_txs: Vec<Felt>,
    pub latest_block: u64,
    pub latest_ts: u64,
    pub latest_txs: Vec<Felt>,
    pub cursor: usize,
}

/// The mathematical value of a `PendingTail`.
pub ghost struct TailView {
    pub timestamp: u64,
    pub processed: Seq<Felt>,
    pub phase: TailPhase,
    pub pending_ts: u64,
    pub pending_txs: Seq<Felt>,
    pub latest_block: u64,
    pub latest_ts: u64,
    pub latest_txs: Seq<Felt>,
    pub cursor: int,
}

impl View for PendingTail {
    type V = TailView;

    open spec fn view(&self) -> TailView {
        TailView {
            timestamp: self.cache.timestamp,
            processed: self.cache.tx_hashes@,
            phase: self.phase,
            pending_ts: self.pending_ts,
            pending_txs: self.pending_txs@,
            latest_block: self.latest_block,
            latest_ts: self.latest_ts,
            latest_txs: self.latest_txs@,
            cursor: self.cursor as int,
        }
    }
}

/// The first position from `i` on whose hash is not in `done`, or the
/// length of `txs` if there is none.
pub open spec fn next_unprocessed(txs: Seq<Felt>, done: Seq<Felt>, i: int) -> int
    decreases txs.len() - i,
{
    if i >= txs.len() {
        txs.len() as int
    } else if done.contains(txs[i]) {
        next_unprocessed(txs, done, i + 1)
    } else {
        i
    }
}

/// Goes on through the latest block's transactions from position `i`.
pub open spec fn enter_latest(v: TailView, i: int) -> TailView {
    let j = next_unprocessed(v.latest_txs, v.processed, i);
    if j < v.latest_txs.len() {
        TailView { phase: TailPhase::Latest, cursor: j, ..v }
    } else {
        TailView { phase: TailPhase::Promote, ..v }
    }
}

/// Goes on through the pending block's transactions from position `i`.
pub open spec fn enter_pending(v: TailView, i: int) -> TailView {
    let j = next_unprocessed(v.pending_txs, v.processed, i);
    if j < v.pending_txs.len() {
        TailView { phase: TailPhase::Pending, cursor: j, ..v }
    } else {
        TailView { phase: TailPhase::Rest, ..v }
    }
}

/// `done` with `h` recorded as processed.
pub open spec fn mark(done: Seq<Felt>, h: Felt) -> Seq<Felt> {
    if done.contains(h) { done } else { done.push(h) }
}

/// The action that state `v` asks of the driver.
pub open spec fn tail_action(v: TailView) -> TailAction {
    match v.phase {
        TailPhase::Poll => TailAction::FetchPending,
        TailPhase::AwaitLatest => TailAction::FetchLatest,
        TailPhase::Cleaning => TailAction::CleanBlock { timestamp: v.timestamp },
        TailPhase::Latest => TailAction::ProcessTx {
            hash: v.latest_txs[v.cursor],
            block_number: v.latest_block,
            timestamp: v.latest_ts,
        },
        TailPhase::Promote => TailAction::UpdateLastPendingBlock { block_number: v.latest_block, timestamp: v.latest_ts },
        TailPhase::Pending => TailAction::ProcessTx {
            hash: v.pending_txs[v.cursor],
            block_number: v.timestamp,
            timestamp: v.timestamp,
        },
        TailPhase::Rest => TailAction::Sleep,
        TailPhase::Aborted => TailAction::Abort { hash: v.latest_txs[v.cursor] },
    }
}

/// The state after the driver performed `tail_action(v)` and handed back
/// `e`. An input that does not answer the action leaves the state as it is.
pub open spec fn tail_next(v: TailView, e: TailEvent) -> TailView {
    match v.phase {
        TailPhase::Poll => match e {
            TailEvent::Pending { timestamp, txs } => {
                let cached = if v.timestamp == 0 { timestamp } else { v.timestamp };
                let seen = TailView { timestamp: cached, pending_ts: timestamp, pending_txs: txs, ..v };
                if timestamp != cached {
                    TailView { phase: TailPhase::AwaitLatest, ..seen }
                } else {
                    enter_pending(seen, 0)
                }
            },
            _ => v,
        },
        TailPhase::AwaitLatest => match e {
            TailEvent::Latest { block_number, timestamp, txs } => {
                if timestamp != v.timestamp {
                    TailView { phase: TailPhase::Cleaning, ..v }
                } else {
                    enter_latest(TailView { latest_block: block_number, latest_ts: timestamp, latest_txs: txs, ..v }, 0)
                }
            },
            _ => v,
        },
        TailPhase::Cleaning => match e {
            TailEvent::Done => TailView { timestamp: 0, processed: Seq::empty(), phase: TailPhase::Poll, ..v },
            _ => v,
        },
        TailPhase::Latest => match e {
            TailEvent::TxProcessed => enter_latest(
                TailView { processed: mark(v.processed, v.latest_txs[v.cursor]), ..v },
                v.cursor + 1,
            ),
            TailEvent::TxFailed => TailView { phase: TailPhase::Aborted, ..v },
            _ => v,
        },
        TailPhase::Promote => match e {
            TailEvent::Done => enter_pending(TailView { timestamp: v.pending_ts, processed: Seq::empty(), ..v }, 0),
            _ => v,
        },
        TailPhase::Pending => match e {
            TailEvent::TxProcessed => enter_pending(
                TailView { processed: mark(v.processed, v.pending_txs[v.cursor]), ..v },
                v.cursor + 1,
            ),
            TailEvent::TxFailed => enter_pending(v, v.cursor + 1),
            _ => v,
        },
        TailPhase::Rest => match e {
            TailEvent::Done => TailView { phase: TailPhase::Poll, ..v },
            _ => v,
        },
        TailPhase::Aborted => v,
    }
}

/// The cursor points at a transaction of the list being gone through, and
/// one that is not processed yet.
pub open spec fn tail_wf(v: TailView) -> bool {
    &&& (v.phase == TailPhase::Latest || v.phase == TailPhase::Aborted) ==> {
        &&& 0 <= v.cursor < v.latest_txs.len()
        &&& !v.processed.contains(v.latest_txs[v.cursor])
    }
    &&& v.phase == TailPhase::Pending ==> {
        &&& 0 <= v.cursor < v.pending_txs.len()
        &&& !v.processed.contains(v.pending_txs[v.cursor])
    }
}

proof fn lemma_next_unprocessed(txs: Seq<Felt>, done: Seq<Felt>, i: int)
    requires
        0 <= i,
    ensures
        i <= next_unprocessed(txs, done, i) || i > txs.len(),
        next_unprocessed(txs, done, i) <= txs.len(),
        next_unprocessed(txs, done, i) < txs.len() ==> !done.contains(txs[next_unprocessed(txs, done, i)]),
    decreases txs.len() - i,
{
    if i < txs.len() && done.contains(txs[i]) {
        lemma_next_unprocessed(txs, done, i + 1);
    }
}

/// Every position between `i` and `next_unprocessed(txs, done, i)` holds a
/// processed hash.
proof fn lemma_next_unprocessed_skips(txs: Seq<Felt>, done: Seq<Felt>, i: int, k: int)
    requires
        0 <= i <= k < next_unprocessed(txs, done, i),
        k < txs.len(),
    ensures
        done.contains(txs[k]),
    decreases k - i,
{
    if i < k {
        lemma_next_unprocessed_skips(txs, done, i + 1, k);
    }
}

/// The first position from `start` on whose hash `cache` has not processed.
fn first_unprocessed(txs: &Vec<Felt>, cache: &PendingBlockData, start: usize) -> (r: usize)
    ensures
        r == next_unprocessed(txs@, cache.tx_hashes@, start as int),
{
    let mut i: usize = start;
    if i > txs.len() {
        return txs.len();
    }
    while i < txs.len()
        invariant
            start <= i <= txs@.len(),
            next_unprocessed(txs@, cache.tx_hashes@, i as int) == next_unprocessed(txs@, cache.tx_hashes@, start as int),
        decreases txs@.len() - i,
    {
        if !cache.is_tx_processed(&txs[i]) {
            return i;
        }
        i = i + 1;
    }
    i
}

impl PendingTail {
    /// A loop that tracks nothing yet and is about to poll.
    pub fn new() -> (r: PendingTail)
        ensures
            r@.timestamp == 0,
            r@.processed == Seq::<Felt>::empty(),
            r@.phase == TailPhase::Poll,
            tail_wf(r@),
            tail_cache_inv(r@),
    {
        PendingTail {
            cache: PendingBlockData::new(),
            phase: TailPhase::Poll,
            pending_ts: 0,
            pending_txs: Vec::new(),
            latest_block: 0,
            latest_ts: 0,
            latest_txs: Vec::new(),
            cursor: 0,
        }
    }

    /// The action the driver must perform next.
    pub fn action(&self) -> (r: TailAction)
        requires
            tail_wf(self@),
        ensures
            r == tail_action(self@),
    {
        match self.phase {
            TailPhase::Poll => TailAction::FetchPending,
            TailPhase::AwaitLatest => TailAction::FetchLatest,
            TailPhase::Cleaning => TailAction::CleanBlock { timestamp: self.cache.timestamp },
            TailPhase::Latest => TailAction::ProcessTx {
                hash: self.latest_txs[self.cursor],
                block_number: self.latest_block,
                timestamp: self.latest_ts,
            },
            TailPhase::Promote => TailAction::UpdateLastPendingBlock {
                block_number: self.latest_block,
                timestamp: self.latest_ts,
            },
            TailPhase::Pending => TailAction::ProcessTx {
                hash: self.pending_txs[self.cursor],
                block_number: self.cache.timestamp,
                timestamp: self.cache.timestamp,
            },
            TailPhase::Rest => TailAction::Sleep,
            TailPhase::Aborted => TailAction::Abort { hash: self.latest_txs[self.cursor] },
        }
    }

    fn go_latest(&mut self, i: usize)
        ensures
            final(self)@ == enter_latest(old(self)@, i as int),
            tail_wf(final(self)@),
    {
        let j = first_unprocessed(&self.latest_txs, &self.cache, i);
        proof { lemma_next_unprocessed(self.latest_txs@, self.cache.tx_hashes@, i as int); }
        if j < self.latest_txs.len() {
            self.phase = TailPhase::Latest;
            self.cursor = j;
        } else {
            self.phase = TailPhase::Promote;
        }
    }

    fn go_pending(&mut self, i: usize)
        ensures
            final(self)@ == enter_pending(old(self)@, i as int),
            tail_wf(final(self)@),
    {
        let j = first_unprocessed(&self.pending_txs, &self.cache, i);
        proof { lemma_next_unprocessed(self.pending_txs@, self.cache.tx_hashes@, i as int); }
        if j < self.pending_txs.len() {
            self.phase = TailPhase::Pending;
            self.cursor = j;
        } else {
            self.phase = TailPhase::Rest;
        }
    }

    /// Moves on once the driver performed `self.action()` and handed back
    /// `input`; returns the next action.
    pub fn step(&mut self, input: TailInput) -> (r: TailAction)
        requires
            tail_wf(old(self)@),
        ensures
            final(self)@ == tail_next(old(self)@, input@),
            tail_wf(final(self)@),
            r == tail_action(final(self)@),
    {
        match self.phase {
            TailPhase::Poll => {
                if let TailInput::Pending { timestamp, txs } = input {
                    if self.cache.get_timestamp() == 0 {
                        self.cache.set_timestamp(timestamp);
                    }
                    self.pending_ts = timestamp;
                    self.pending_txs = txs;
                    if timestamp != self.cache.get_timestamp() {
                        self.phase = TailPhase::AwaitLatest;
                    } else {
                        self.go_pending(0);
                    }
                }
            },
            TailPhase::AwaitLatest => {
                if let TailInput::Latest { block_number, timestamp, txs } = input {
                    if timestamp != self.cache.get_timestamp() {
                        self.phase = TailPhase::Cleaning;
                    } else {
                        self.latest_block = block_number;
                        self.latest_ts = timestamp;
                        self.latest_txs = txs;
                        self.go_latest(0);
                    }
                }
            },
            TailPhase::Cleaning => {
                if let TailInput::Done = input {
                    self.cache.reset(0);
                    self.phase = TailPhase::Poll;
                }
            },
            TailPhase::Latest => {
                match input {
                    TailInput::TxProcessed => {
                        assert(self.cursor < self.latest_txs.len());
                        let h = self.latest_txs[self.cursor];
                        self.cache.add_tx_as_processed(&h);
                        self.go_latest(self.cursor + 1);
                    },
                    TailInput::TxFailed => {
                        self.phase = TailPhase::Aborted;
                    },
                    _ => {},
                }
            },
            TailPhase::Promote => {
                if let TailInput::Done = input {
                    self.cache.reset(self.pending_ts);
                    self.go_pending(0);
                }
            },
            TailPhase::Pending => {
                match input {
                    TailInput::TxProcessed => {
                        assert(self.cursor < self.pending_txs.len());
                        let h = self.pending_txs[self.cursor];
                        self.cache.add_tx_as_processed(&h);
                        self.go_pending(self.cursor + 1);
                    },
                    TailInput::TxFailed => {
                        assert(self.cursor < self.pending_txs.len());
                        self.go_pending(self.cursor + 1);
                    },
                    _ => {},
                }
            },
            TailPhase::Rest => {
                if let TailInput::Done = input {
                    self.phase = TailPhase::Poll;
                }
            },
            TailPhase::Aborted => {},
        }
        self.action()
    }
}

/// A transaction is handed to the pipeline only while the cache does not
/// hold it as processed, and once the pipeline is through with it the cache
/// holds it: within one tracked block, each transaction goes through once.
pub proof fn lemma_tail_tx_once(v: TailView)
    requires
        tail_wf(v),
        tail_action(v) is ProcessTx,
    ensures
        !v.processed.contains(tail_action(v)->ProcessTx_hash),
        tail_next(v, TailEvent::TxProcessed).processed.contains(tail_action(v)->ProcessTx_hash),
        tail_wf(tail_next(v, TailEvent::TxProcessed)),
{
    let h = tail_action(v)->ProcessTx_hash;
    let done = mark(v.processed, h);
    assert(done[done.len() - 1] == h);
    if v.phase == TailPhase::Latest {
        lemma_next_unprocessed(v.latest_txs, done, v.cursor + 1);
    } else {
        lemma_next_unprocessed(v.pending_txs, done, v.cursor + 1);
    }
}

/// A pending transaction whose events could not be fetched stays
/// unprocessed, so a later tick that sees it again hands it to the pipeline;
/// a transaction of the latest block whose events could not be fetched
/// stops the loop.
pub proof fn lemma_tail_tx_failure(v: TailView)
    requires
        tail_wf(v),
        v.phase == TailPhase::Pending || v.phase == TailPhase::Latest,
    ensures
        v.phase == TailPhase::Pending ==> {
            &&& tail_next(v, TailEvent::TxFailed).processed == v.processed
            &&& !tail_next(v, TailEvent::TxFailed).processed.contains(v.pending_txs[v.cursor])
            &&& tail_next(v, TailEvent::TxFailed).phase != TailPhase::Aborted
        },
        v.phase == TailPhase::Latest ==> tail_action(tail_next(v, TailEvent::TxFailed)) == (TailAction::Abort {
            hash: v.latest_txs[v.cursor],
        }),
{
}

/// Rollover: when the latest block carries the tracked timestamp, its
/// unprocessed transactions are handed over at the latest block's number and
/// timestamp; once they are through, the block is written as that number,
/// and the cache then tracks the newly seen pending block with nothing
/// processed.
pub proof fn lemma_tail_rollover(v: TailView, block_number: u64, txs: Seq<Felt>)
    requires
        tail_wf(v),
        v.phase == TailPhase::AwaitLatest,
    ensures
        ({
            let w = tail_next(v, TailEvent::Latest { block_number, timestamp: v.timestamp, txs });
            &&& w.latest_block == block_number
            &&& w.latest_ts == v.timestamp
            &&& w.processed == v.processed
            &&& (w.phase == TailPhase::Latest || w.phase == TailPhase::Promote)
            &&& w.phase == TailPhase::Latest ==> {
                &&& w.cursor == next_unprocessed(txs, v.processed, 0)
                &&& !v.processed.contains(txs[w.cursor])
                &&& tail_action(w) == (TailAction::ProcessTx { hash: txs[w.cursor], block_number, timestamp: v.timestamp })
            }
            &&& w.phase == TailPhase::Promote ==> forall|i: int| 0 <= i < txs.len() ==> v.processed.contains(#[trigger] txs[i])
        }),
{
    lemma_next_unprocessed(txs, v.processed, 0);
    let w = tail_next(v, TailEvent::Latest { block_number, timestamp: v.timestamp, txs });
    if w.phase == TailPhase::Promote {
        assert forall|i: int| 0 <= i < txs.len() implies v.processed.contains(#[trigger] txs[i]) by {
            lemma_next_unprocessed_skips(txs, v.processed, 0, i);
        }
    }
}

/// Once the latest block's transactions are through, the block is written
/// terminated under its number, and the cache moves on to the pending block
/// seen this tick, with nothing processed.
pub proof fn lemma_tail_promote(v: TailView)
    requires
        tail_wf(v),
        v.phase == TailPhase::Promote,
    ensures
        tail_action(v) == (TailAction::UpdateLastPendingBlock { block_number: v.latest_block, timestamp: v.latest_ts }),
        tail_next(v, TailEvent::Done).timestamp == v.pending_ts,
        tail_next(v, TailEvent::Done).processed == Seq::<Felt>::empty(),
{
}

/// Desync: when the latest block does not carry the tracked timestamp, the
/// record of the tracked block is removed and the cache is emptied, with no
/// transaction handed over, and the loop polls again at once.
pub proof fn lemma_tail_desync(v: TailView, block_number: u64, timestamp: u64, txs: Seq<Felt>)
    requires
        tail_wf(v),
        v.phase == TailPhase::AwaitLatest,
        timestamp != v.timestamp,
    ensures
        ({
            let w = tail_next(v, TailEvent::Latest { block_number, timestamp, txs });
            let u = tail_next(w, TailEvent::Done);
            &&& tail_action(w) == (TailAction::CleanBlock { timestamp: v.timestamp })
            &&& w.processed == v.processed
            &&& u.timestamp == 0
            &&& u.processed == Seq::<Felt>::empty()
            &&& tail_action(u) == TailAction::FetchPending
        }),
{
}

/// While the cache tracks no block it holds nothing processed and the loop
/// is about to poll; past the poll, a pending block was seen.
pub open spec fn tail_cache_inv(v: TailView) -> bool {
    &&& v.timestamp == 0 ==> v.processed == Seq::<Felt>::empty() && v.phase == TailPhase::Poll
    &&& v.phase != TailPhase::Poll ==> v.pending_ts != 0
}

/// The processed hashes all belong to the block the cache tracks: whenever
/// the tracked timestamp changes, the processed set starts empty. A pending
/// block reported with timestamp 0 is left out: 0 stands for no block.
pub proof fn lemma_tail_timestamp_change_clears(v: TailView, e: TailEvent)
    requires
        tail_wf(v),
        tail_cache_inv(v),
        e is Pending ==> e->Pending_timestamp != 0,
    ensures
        tail_next(v, e).timestamp != v.timestamp ==> tail_next(v, e).processed == Seq::<Felt>::empty(),
        tail_cache_inv(tail_next(v, e)),
{
}

/// Goes through the latest block for at most `fuel` transactions, each
/// answered as processed: the state reached, and the hashes handed over in order.
pub open spec fn latest_pass(u: TailView, fuel: nat) -> (TailView, Seq<Felt>)
    decreases fuel,
{
    if fuel == 0 || u.phase != TailPhase::Latest {
        (u, Seq::empty())
    } else {
        let rest = latest_pass(tail_next(u, TailEvent::TxProcessed), (fuel - 1) as nat);
        (rest.0, seq![u.latest_txs[u.cursor]] + rest.1)
    }
}

/// Every hash of the latest block before the cursor, or all of them once
/// the block is to be promoted, is processed.
pub open spec fn latest_covered(u: TailView) -> bool {
    &&& u.phase == TailPhase::Latest ==> forall|i: int| 0 <= i < u.cursor ==> u.processed.contains(#[trigger] u.latest_txs[i])
    &&& u.phase == TailPhase::Promote ==> forall|i: int| 0 <= i < u.latest_txs.len() ==> u.processed.contains(#[trigger] u.latest_txs[i])
}

proof fn lemma_latest_pass(u: TailView, fuel: nat)
    requires
        tail_wf(u),
        u.phase == TailPhase::Latest || u.phase == TailPhase::Promote,
        latest_covered(u),
    ensures
        ({
            let (f, hs) = latest_pass(u, fuel);
            &&& f.processed == u.processed + hs
            &&& f.latest_txs == u.latest_txs
            &&& f.latest_block == u.latest_block
            &&& f.latest_ts == u.latest_ts
            &&& f.pending_ts == u.pending_ts
            &&& f.pending_txs == u.pending_txs
            &&& f.timestamp == u.timestamp
            &&& hs.no_duplicates()
            &&& forall|k: int| 0 <= k < hs.len() ==> !u.processed.contains(#[trigger] hs[k]) && u.latest_txs.contains(hs[k])
            &&& (u.phase == TailPhase::Promote || fuel >= u.latest_txs.len() - u.cursor) ==> f.phase == TailPhase::Promote
            &&& f.phase == TailPhase::Promote ==> latest_covered(f)
            &&& (f.phase == TailPhase::Latest || f.phase == TailPhase::Promote)
            &&& tail_wf(f)
        }),
    decreases fuel,
{
    if fuel == 0 || u.phase != TailPhase::Latest {
        assert(u.processed + Seq::<Felt>::empty() =~= u.processed);
    } else {
        let h = u.latest_txs[u.cursor];
        let txs = u.latest_txs;
        let marked = TailView { processed: u.processed.push(h), ..u };
        let u2 = tail_next(u, TailEvent::TxProcessed);
        assert(mark(u.processed, h) == u.processed.push(h));
        assert(u2 == enter_latest(marked, u.cursor + 1));
        lemma_next_unprocessed(txs, marked.processed, u.cursor + 1);
        assert forall|x: Felt| u.processed.contains(x) implies #[trigger] marked.processed.contains(x) by {
            let j = choose|j: int| 0 <= j < u.processed.len() && u.processed[j] == x;
            assert(marked.processed[j] == x);
        }
        assert(marked.processed[marked.processed.len() - 1] == h);
        assert forall|i: int| 0 <= i < txs.len() && (i <= u.cursor || i < next_unprocessed(txs, marked.processed, u.cursor + 1))
            implies marked.processed.contains(#[trigger] txs[i]) by {
            if i < u.cursor {
                assert(u.processed.contains(txs[i]));
            } else if i > u.cursor {
                lemma_next_unprocessed_skips(txs, marked.processed, u.cursor + 1, i);
            }
        }
        assert(latest_covered(u2));
        lemma_next_unprocessed(txs, u2.processed, u.cursor + 1);
        lemma_latest_pass(u2, (fuel - 1) as nat);
        let (f, hs2) = latest_pass(u2, (fuel - 1) as nat);
        let hs = seq![h] + hs2;
        assert(u2.processed + hs2 =~= u.processed + hs);
        assert forall|k: int| 0 <= k < hs.len() implies !u.processed.contains(#[trigger] hs[k]) && txs.contains(hs[k]) by {
            if k == 0 {
                assert(txs[u.cursor] == h);
            } else {
                assert(hs[k] == hs2[k - 1]);
                if u.processed.contains(hs[k]) {
                    assert(marked.processed.contains(hs2[k - 1]));
                }
            }
        }
        assert forall|a: int, b: int| 0 <= a < hs.len() && 0 <= b < hs.len() && a != b implies hs[a] != hs[b] by {
            if a == 0 && b > 0 {
                assert(hs[b] == hs2[b - 1]);
                assert(!marked.processed.contains(hs2[b - 1]));
            } else if b == 0 && a > 0 {
                assert(hs[a] == hs2[a - 1]);
                assert(!marked.processed.contains(hs2[a - 1]));
            } else if a > 0 && b > 0 {
                assert(hs[a] == hs2[a - 1] && hs[b] == hs2[b - 1]);
            }
        }
    }
}

/// Rollover, whole: once the latest block is found to carry the tracked
/// timestamp, and every transaction handed over goes through, the engine
/// hands over each transaction of that block not yet processed exactly once
/// (and none already processed), at the latest block's number and
/// timestamp; it then writes that block terminated under its number, and the
/// cache moves on to the new pending block with nothing processed.
pub proof fn lemma_tail_rollover_exactly_once(v: TailView, block_number: u64, txs: Seq<Felt>, fuel: nat)
    requires
        tail_wf(v),
        v.phase == TailPhase::AwaitLatest,
        fuel >= txs.len(),
    ensures
        ({
            let w = tail_next(v, TailEvent::Latest { block_number, timestamp: v.timestamp, txs });
            let (f, handed) = latest_pass(w, fuel);
            let after = tail_next(f, TailEvent::Done);
            &&& handed.no_duplicates()
            &&& forall|h: Felt| #[trigger] handed.contains(h) <==> (txs.contains(h) && !v.processed.contains(h))
            &&& tail_action(f) == (TailAction::UpdateLastPendingBlock { block_number, timestamp: v.timestamp })
            &&& after.timestamp == v.pending_ts
            &&& after.processed == Seq::<Felt>::empty()
        }),
{
    let w = tail_next(v, TailEvent::Latest { block_number, timestamp: v.timestamp, txs });
    lemma_tail_rollover(v, block_number, txs);
    lemma_next_unprocessed(txs, v.processed, 0);
    if w.phase == TailPhase::Latest {
        assert forall|i: int| 0 <= i < w.cursor implies w.processed.contains(#[trigger] w.latest_txs[i]) by {
            lemma_next_unprocessed_skips(txs, v.processed, 0, i);
        }
    }
    lemma_latest_pass(w, fuel);
    let (f, handed) = latest_pass(w, fuel);
    assert forall|h: Felt| #[trigger] handed.contains(h) <==> (txs.contains(h) && !v.processed.contains(h)) by {
        if handed.contains(h) {
            let k = choose|k: int| 0 <= k < handed.len() && handed[k] == h;
            assert(!v.processed.contains(handed[k]));
        }
        if txs.contains(h) && !v.processed.contains(h) {
            let i = choose|i: int| 0 <= i < txs.len() && txs[i] == h;
            assert(f.processed.contains(f.latest_txs[i]));
            let j = choose|j: int| 0 <= j < f.processed.len() && f.processed[j] == h;
            if j < v.processed.len() {
                assert((v.processed + handed)[j] == v.processed[j]);
            } else {
                assert(handed[j - v.processed.len()] == h);
            }
        }
    }
}

} // verus!
