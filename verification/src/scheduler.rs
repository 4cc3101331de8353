//! The download scheduler: a state machine over one batch of downloads.
//!
//! Every selected file becomes one item. The unverified driver walks the
//! items, telling the machine at dispatch time whether the destination
//! already exists (then the item is skipped and nothing is ever written
//! for it), and otherwise starting the transfer only when a permit is
//! free: the machine refuses a start that would put more than `bound`
//! transfers in flight at once. Each transfer reports back exactly once;
//! a failure settles only its own item. When every item is terminal the
//! machine hands out one traceable outcome per item.

use vstd::prelude::*;
use crate::model::TransferError;

verus! {

/// One unit of work: the URL to stream from and the local destination
/// path to write.
pub struct DownloadItem {
    pub url: String,
    pub path: String,
}

/// Where one item stands.
pub enum ItemState {
    /// Not yet dispatched.
    Pending,
    /// Destination already existed at dispatch time; no transfer runs.
    Skipped,
    /// Transfer in flight, holding one of the `bound` permits.
    Active,
    /// Transfer finished and the file was written.
    Succeeded,
    /// Transfer failed; a partial file may remain, nothing is rolled back.
    Failed(TransferError),
}

/// A state that no event can change any more.
pub open spec fn terminal(s: ItemState) -> bool {
    match s {
        ItemState::Pending => false,
        ItemState::Active => false,
        ItemState::Skipped => true,
        ItemState::Succeeded => true,
        ItemState::Failed(_) => true,
    }
}

/// 1 for an in-flight item, 0 for any other.
pub open spec fn active_weight(s: ItemState) -> nat {
    if s is Active {
        1nat
    } else {
        0nat
    }
}

/// How many items of `s` are in flight.
pub open spec fn active_count(s: Seq<ItemState>) -> nat
    decreases s.len(),
{
    if s.len() == 0 {
        0nat
    } else {
        active_count(s.drop_last()) + active_weight(s.last())
    }
}

proof fn lemma_active_count_push(s: Seq<ItemState>, x: ItemState)
    ensures
        active_count(s.push(x)) == active_count(s) + active_weight(x),
{
    assert(s.push(x).drop_last() =~= s);
}

proof fn lemma_active_count_update(s: Seq<ItemState>, i: int, x: ItemState)
    requires
        0 <= i < s.len(),
    ensures
        active_count(s.update(i, x)) + active_weight(s[i]) == active_count(s) + active_weight(x),
    decreases s.len(),
{
    let su = s.update(i, x);
    if i == s.len() - 1 {
        assert(su.drop_last() =~= s.drop_last());
    } else {
        assert(su.drop_last() =~= s.drop_last().update(i, x));
        assert(su.last() == s.last());
        lemma_active_count_update(s.drop_last(), i, x);
    }
}

proof fn lemma_active_count_at_least_one(s: Seq<ItemState>, i: int)
    requires
        0 <= i < s.len(),
        s[i] is Active,
    ensures
        active_count(s) >= 1,
    decreases s.len(),
{
    if i < s.len() - 1 {
        lemma_active_count_at_least_one(s.drop_last(), i);
    }
}

/// One batch of downloads with a hard ceiling on concurrent transfers.
pub struct Scheduler {
    bound: usize,
    items: Vec<DownloadItem>,
    states: Vec<ItemState>,
    in_flight: usize,
}

impl Scheduler {
    /// The permit-pool size: the ceiling on simultaneous transfers.
    pub closed spec fn bound_int(&self) -> int {
        self.bound as int
    }

    /// The batch, in dispatch order.
    pub closed spec fn items_seq(&self) -> Seq<DownloadItem> {
        self.items@
    }

    /// Per-item states, indexed as the batch is.
    pub closed spec fn states_seq(&self) -> Seq<ItemState> {
        self.states@
    }

    /// How many transfers hold a permit right now.
    pub closed spec fn in_flight_int(&self) -> int {
        self.in_flight as int
    }

    /// Well-formedness: one state per item, an accurate in-flight counter,
    /// and never more in flight than the bound allows.
    pub closed spec fn wf(&self) -> bool {
        &&& self.states@.len() == self.items@.len()
        &&& self.bound >= 1
        &&& self.in_flight as nat == active_count(self.states@)
        &&& self.in_flight <= self.bound
    }

    /// The concurrency ceiling, as a law: a well-formed scheduler never
    /// has more transfers in flight than its bound.
    pub proof fn lemma_concurrency_bounded(&self)
        requires
            self.wf(),
        ensures
            active_count(self.states_seq()) == self.in_flight_int(),
            self.in_flight_int() <= self.bound_int(),
    {
    }

    /// A fresh batch: every item pending, nothing in flight.
    pub fn new(bound: usize, items: Vec<DownloadItem>) -> (s: Scheduler)
        requires
            bound >= 1,
        ensures
            s.wf(),
            s.bound_int() == bound,
            s.items_seq() == items@,
            s.states_seq().len() == items@.len(),
            forall|i: int| 0 <= i < s.states_seq().len() ==> s.states_seq()[i] is Pending,
            s.in_flight_int() == 0,
    {
        let n = items.len();
        let mut states: Vec<ItemState> = Vec::new();
        let mut i: usize = 0;
        while i < n
            invariant
                0 <= i <= n,
                states@.len() == i,
                forall|j: int| 0 <= j < i ==> states@[j] is Pending,
                active_count(states@) == 0,
            decreases n - i,
        {
            proof {
                lemma_active_count_push(states@, ItemState::Pending);
            }
            states.push(ItemState::Pending);
            i = i + 1;
        }
        Scheduler { bound, items, states, in_flight: 0 }
    }

    /// Number of items in the batch.
    pub fn item_count(&self) -> (n: usize)
        ensures
            n == self.items_seq().len(),
    {
        self.items.len()
    }

    /// Transfers currently in flight.
    pub fn in_flight(&self) -> (n: usize)
        ensures
            n == self.in_flight_int(),
    {
        self.in_flight
    }

    /// The URL of one item.
    pub fn item_url(&self, i: usize) -> (u: &String)
        requires
            0 <= i < self.items_seq().len(),
        ensures
            u@ == self.items_seq()[i as int].url@,
    {
        &self.items[i].url
    }

    /// The destination path of one item.
    pub fn item_path(&self, i: usize) -> (p: &String)
        requires
            0 <= i < self.items_seq().len(),
        ensures
            p@ == self.items_seq()[i as int].path@,
    {
        &self.items[i].path
    }

    /// Whether one item is still awaiting dispatch.
    pub fn is_pending(&self, i: usize) -> (r: bool)
        requires
            0 <= i < self.states_seq().len(),
        ensures
            r == (self.states_seq()[i as int] is Pending),
    {
        match self.states[i] {
            ItemState::Pending => true,
            _ => false,
        }
    }

    /// Whether one item's transfer is in flight.
    pub fn is_active(&self, i: usize) -> (r: bool)
        requires
            0 <= i < self.states_seq().len(),
        ensures
            r == (self.states_seq()[i as int] is Active),
    {
        match self.states[i] {
            ItemState::Active => true,
            _ => false,
        }
    }

    /// Dispatch one pending item. The existence check comes first: an item
    /// whose destination already exists is settled as skipped and no
    /// transfer ever starts for it. Otherwise the transfer starts only
    /// when a permit is free, so the number in flight never passes the
    /// bound; when the pool is full nothing changes and the caller must
    /// come back once a transfer has completed.
    pub fn dispatch(&mut self, i: usize, dest_exists: bool) -> (started: bool)
        requires
            old(self).wf(),
            0 <= i < old(self).states_seq().len(),
            old(self).states_seq()[i as int] is Pending,
        ensures
            final(self).wf(),
            final(self).bound_int() == old(self).bound_int(),
            final(self).items_seq() == old(self).items_seq(),
            dest_exists ==> {
                &&& !started
                &&& final(self).states_seq() == old(self).states_seq().update(
                    i as int,
                    ItemState::Skipped,
                )
                &&& final(self).in_flight_int() == old(self).in_flight_int()
            },
            !dest_exists && old(self).in_flight_int() < old(self).bound_int() ==> {
                &&& started
                &&& final(self).states_seq() == old(self).states_seq().update(
                    i as int,
                    ItemState::Active,
                )
                &&& final(self).in_flight_int() == old(self).in_flight_int() + 1
            },
            !dest_exists && old(self).in_flight_int() >= old(self).bound_int() ==> {
                &&& !started
                &&& final(self).states_seq() == old(self).states_seq()
                &&& final(self).in_flight_int() == old(self).in_flight_int()
            },
            final(self).states_seq() == step(
                old(self).bound_int(),
                old(self).states_seq(),
                (SchedulerEvent::Dispatch { item: i, dest_exists }),
            ),
    {
        if dest_exists {
            proof {
                lemma_active_count_update(self.states@, i as int, ItemState::Skipped);
            }
            self.states[i] = ItemState::Skipped;
            false
        } else if self.in_flight < self.bound {
            proof {
                lemma_active_count_update(self.states@, i as int, ItemState::Active);
            }
            self.states[i] = ItemState::Active;
            self.in_flight = self.in_flight + 1;
            true
        } else {
            false
        }
    }

    /// Settle one in-flight item with its transfer's result, releasing
    /// its permit. Only that item's state moves: a failure neither cancels
    /// nor touches any sibling. The state it lands in is
    /// `item_final_state` of the item's own inputs alone.
    pub fn complete(&mut self, i: usize, result: Result<(), TransferError>)
        requires
            old(self).wf(),
            0 <= i < old(self).states_seq().len(),
            old(self).states_seq()[i as int] is Active,
        ensures
            final(self).wf(),
            final(self).bound_int() == old(self).bound_int(),
            final(self).items_seq() == old(self).items_seq(),
            final(self).in_flight_int() == old(self).in_flight_int() - 1,
            final(self).states_seq() == old(self).states_seq().update(
                i as int,
                item_final_state(false, result),
            ),
            final(self).states_seq() == step(
                old(self).bound_int(),
                old(self).states_seq(),
                (SchedulerEvent::Complete { item: i, result }),
            ),
    {
        proof {
            lemma_active_count_at_least_one(self.states@, i as int);
        }
        let next = match result {
            Ok(()) => ItemState::Succeeded,
            Err(e) => ItemState::Failed(e),
        };
        proof {
            lemma_active_count_update(self.states@, i as int, next);
        }
        self.states[i] = next;
        self.in_flight = self.in_flight - 1;
    }

    /// Whether every item has reached a terminal state.
    pub fn all_terminal(&self) -> (r: bool)
        ensures
            r == forall|i: int|
                0 <= i < self.states_seq().len() ==> terminal(self.states_seq()[i]),
    {
        let n = self.states.len();
        let mut i: usize = 0;
        while i < n
            invariant
                0 <= i <= n,
                n == self.states@.len(),
                forall|j: int| 0 <= j < i ==> terminal(self.states@[j]),
            decreases n - i,
        {
            match self.states[i] {
                ItemState::Pending => {
                    proof {
                        assert(!terminal(self.states_seq()[i as int]));
                    }
                    return false;
                },
                ItemState::Active => {
                    proof {
                        assert(!terminal(self.states_seq()[i as int]));
                    }
                    return false;
                },
                _ => {},
            }
            i = i + 1;
        }
        true
    }

    /// One outcome per item, each traceable to its destination path.
    pub fn outcomes(&self) -> (os: Vec<DownloadOutcome>)
        requires
            self.wf(),
            forall|i: int| 0 <= i < self.states_seq().len() ==> terminal(self.states_seq()[i]),
        ensures
            os@.len() == self.items_seq().len(),
            forall|i: int|
                0 <= i < os@.len() ==> outcome_reports(
                    os@[i],
                    self.items_seq()[i].path@,
                    self.states_seq()[i],
                ),
    {
        let n = self.items.len();
        let mut os: Vec<DownloadOutcome> = Vec::new();
        let mut i: usize = 0;
        while i < n
            invariant
                0 <= i <= n,
                n == self.items_seq().len(),
                self.states_seq().len() == self.items_seq().len(),
                forall|j: int| 0 <= j < n ==> terminal(self.states_seq()[j]),
                os@.len() == i,
                forall|j: int|
                    0 <= j < i ==> outcome_reports(
                        os@[j],
                        self.items_seq()[j].path@,
                        self.states_seq()[j],
                    ),
            decreases n - i,
        {
            let path = self.items[i].path.clone();
            let o = match &self.states[i] {
                ItemState::Skipped => DownloadOutcome::Skipped { path },
                ItemState::Succeeded => DownloadOutcome::Succeeded { path },
                ItemState::Failed(e) => DownloadOutcome::Failed { path, error: *e },
                // every state is terminal here, so this arm is dead
                _ => DownloadOutcome::Skipped { path },
            };
            os.push(o);
            i = i + 1;
        }
        os
    }
}

/// One item's reported outcome.
pub enum DownloadOutcome {
    /// The destination already existed; nothing was written.
    Skipped { path: String },
    /// The transfer ran and the file was written.
    Succeeded { path: String },
    /// The transfer ran and failed; siblings are unaffected.
    Failed { path: String, error: TransferError },
}

/// The outcome `o` reports terminal state `st` for the item whose
/// destination is `path`.
pub open spec fn outcome_reports(o: DownloadOutcome, path: Seq<char>, st: ItemState) -> bool {
    match st {
        ItemState::Skipped => o matches DownloadOutcome::Skipped { path: p } && p@ == path,
        ItemState::Succeeded => o matches DownloadOutcome::Succeeded { path: p } && p@ == path,
        ItemState::Failed(e) => o matches DownloadOutcome::Failed { path: p, error } && p@ == path
            && error == e,
        ItemState::Pending => false,
        ItemState::Active => false,
    }
}

/// One call the driver can make on a scheduler, as ghost data: the trace
/// model below runs sequences of these.
pub enum SchedulerEvent {
    /// `Scheduler::dispatch(item, dest_exists)`.
    Dispatch { item: usize, dest_exists: bool },
    /// `Scheduler::complete(item, result)`.
    Complete { item: usize, result: Result<(), TransferError> },
}

/// The item an event is aimed at.
pub open spec fn event_item(e: SchedulerEvent) -> usize {
    match e {
        SchedulerEvent::Dispatch { item, .. } => item,
        SchedulerEvent::Complete { item, .. } => item,
    }
}

/// What one event does to the per-item states. An event that does not
/// apply — a dispatch of a non-pending item, a start with the permit
/// pool full, a completion of an item not in flight — changes nothing.
/// `dispatch` and `complete` land exactly on this function.
pub open spec fn step(bound: int, s: Seq<ItemState>, e: SchedulerEvent) -> Seq<ItemState> {
    match e {
        SchedulerEvent::Dispatch { item, dest_exists } => {
            if 0 <= item < s.len() && s[item as int] is Pending {
                if dest_exists {
                    s.update(item as int, ItemState::Skipped)
                } else if active_count(s) < bound {
                    s.update(item as int, ItemState::Active)
                } else {
                    s
                }
            } else {
                s
            }
        },
        SchedulerEvent::Complete { item, result } => {
            if 0 <= item < s.len() && s[item as int] is Active {
                s.update(item as int, item_final_state(false, result))
            } else {
                s
            }
        },
    }
}

/// A whole run: the events applied in order.
pub open spec fn run(bound: int, s: Seq<ItemState>, es: Seq<SchedulerEvent>) -> Seq<ItemState>
    decreases es.len(),
{
    if es.len() == 0 {
        s
    } else {
        step(bound, run(bound, s, es.drop_last()), es.last())
    }
}

/// The concurrency ceiling over whole runs: whatever the driver does, in
/// whatever order, a batch that starts within the bound never has more
/// than `bound` transfers in flight.
pub proof fn lemma_run_respects_bound(bound: int, s: Seq<ItemState>, es: Seq<SchedulerEvent>)
    requires
        active_count(s) <= bound,
    ensures
        active_count(run(bound, s, es)) <= bound,
    decreases es.len(),
{
    if es.len() > 0 {
        lemma_run_respects_bound(bound, s, es.drop_last());
        let s1 = run(bound, s, es.drop_last());
        match es.last() {
            SchedulerEvent::Dispatch { item, dest_exists } => {
                if 0 <= item < s1.len() && s1[item as int] is Pending {
                    if dest_exists {
                        lemma_active_count_update(s1, item as int, ItemState::Skipped);
                    } else if active_count(s1) < bound {
                        lemma_active_count_update(s1, item as int, ItemState::Active);
                    }
                }
            },
            SchedulerEvent::Complete { item, result } => {
                if 0 <= item < s1.len() && s1[item as int] is Active {
                    lemma_active_count_update(s1, item as int, item_final_state(false, result));
                }
            },
        }
    }
}

/// Isolation over whole runs: events aimed at other items — among them
/// any number of failed transfers — leave an item's state exactly as it
/// was.
pub proof fn lemma_run_isolation(bound: int, s: Seq<ItemState>, es: Seq<SchedulerEvent>, i: int)
    requires
        0 <= i < s.len(),
        forall|k: int| 0 <= k < es.len() ==> event_item(es[k]) != i,
    ensures
        run(bound, s, es).len() == s.len(),
        run(bound, s, es)[i] == s[i],
    decreases es.len(),
{
    if es.len() > 0 {
        lemma_run_isolation(bound, s, es.drop_last(), i);
    }
}

/// Every item is still pending or was skipped: no transfer has started,
/// so nothing has been written.
pub open spec fn no_transfer_started(s: Seq<ItemState>) -> bool {
    forall|j: int| 0 <= j < s.len() ==> (s[j] is Pending || s[j] is Skipped)
}

/// A run never changes the batch's size.
pub proof fn lemma_run_len(bound: int, s: Seq<ItemState>, es: Seq<SchedulerEvent>)
    ensures
        run(bound, s, es).len() == s.len(),
    decreases es.len(),
{
    if es.len() > 0 {
        lemma_run_len(bound, s, es.drop_last());
    }
}

/// Runs compose: playing one trace after another is playing their
/// concatenation.
proof fn lemma_run_concat(bound: int, s: Seq<ItemState>, es1: Seq<SchedulerEvent>, es2: Seq<
    SchedulerEvent,
>)
    ensures
        run(bound, s, es1 + es2) == run(bound, run(bound, s, es1), es2),
    decreases es2.len(),
{
    if es2.len() == 0 {
        assert(es1 + es2 =~= es1);
    } else {
        lemma_run_concat(bound, s, es1, es2.drop_last());
        assert((es1 + es2).drop_last() =~= es1 + es2.drop_last());
        assert((es1 + es2).last() == es2.last());
    }
}

/// A settled item stays settled: no later event, whatever it is, moves
/// an item out of a terminal state.
pub proof fn lemma_terminal_is_stable(bound: int, s: Seq<ItemState>, es: Seq<SchedulerEvent>, i: int)
    requires
        0 <= i < s.len(),
        terminal(s[i]),
    ensures
        run(bound, s, es).len() == s.len(),
        run(bound, s, es)[i] == s[i],
    decreases es.len(),
{
    if es.len() > 0 {
        lemma_terminal_is_stable(bound, s, es.drop_last(), i);
    }
}

/// An event that is either no dispatch at all, or a dispatch that found
/// its destination already present.
pub open spec fn dispatch_sees_existing(e: SchedulerEvent) -> bool {
    e matches SchedulerEvent::Dispatch { dest_exists, .. } ==> dest_exists
}

/// Idempotence over whole runs: on a fresh batch whose every dispatch
/// finds the destination already present — a second run over an
/// unchanged directory — no transfer ever starts and nothing is written.
pub proof fn lemma_rerun_starts_nothing(bound: int, s: Seq<ItemState>, es: Seq<SchedulerEvent>)
    requires
        no_transfer_started(s),
        forall|k: int| 0 <= k < es.len() ==> dispatch_sees_existing(es[k]),
    ensures
        no_transfer_started(run(bound, s, es)),
    decreases es.len(),
{
    if es.len() > 0 {
        lemma_rerun_starts_nothing(bound, s, es.drop_last());
    }
}

/// Idempotence over whole runs, per item: on a fresh batch, when every
/// dispatch of the trace finds its destination already present and item
/// `j`'s dispatch is among them, item `j` ends skipped — however the
/// rest of the trace is interleaved around it.
pub proof fn lemma_rerun_item_skipped(
    bound: int,
    s: Seq<ItemState>,
    es: Seq<SchedulerEvent>,
    j: usize,
    k: int,
)
    requires
        no_transfer_started(s),
        0 <= j < s.len(),
        forall|m: int| 0 <= m < es.len() ==> dispatch_sees_existing(es[m]),
        0 <= k < es.len(),
        es[k] == (SchedulerEvent::Dispatch { item: j, dest_exists: true }),
    ensures
        run(bound, s, es)[j as int] is Skipped,
{
    let prefix = es.subrange(0, k);
    let rest = es.subrange(k, es.len() as int);
    let mid = seq![es[k]];
    let suffix = es.subrange(k + 1, es.len() as int);
    assert(es =~= prefix + rest);
    assert(rest =~= mid + suffix);
    lemma_run_concat(bound, s, prefix, rest);
    let s1 = run(bound, s, prefix);
    lemma_run_concat(bound, s1, mid, suffix);
    assert(run(bound, s, es) == run(bound, run(bound, s1, mid), suffix));

    assert forall|m: int| 0 <= m < prefix.len() implies dispatch_sees_existing(
        prefix[m],
    ) by {
        assert(prefix[m] == es[m]);
    }
    lemma_rerun_starts_nothing(bound, s, prefix);
    lemma_run_len(bound, s, prefix);

    let s2 = run(bound, s1, mid);
    assert(mid.drop_last() =~= Seq::<SchedulerEvent>::empty());
    assert(run(bound, s1, mid.drop_last()) == s1);
    assert(mid.last() == es[k]);
    assert(s2 == step(bound, s1, es[k]));
    assert(s1[j as int] is Pending || s1[j as int] is Skipped);
    assert(s2[j as int] is Skipped);

    lemma_terminal_is_stable(bound, s2, suffix, j as int);
}

/// The terminal state one item reaches, as a function of that item's own
/// inputs alone: whether its destination already existed at dispatch
/// time, and — only when it did not — how its transfer ended.
pub open spec fn item_final_state(existed: bool, transfer: Result<(), TransferError>) -> ItemState {
    if existed {
        ItemState::Skipped
    } else {
        match transfer {
            Ok(_) => ItemState::Succeeded,
            Err(e) => ItemState::Failed(e),
        }
    }
}

} // verus!
