//! One pass over the discovered pairs, as a state machine: the caller
//! performs each action (a store probe, a lookup, a fetch, an insert, a
//! sleep) and hands back what came of it; the pass decides what comes next.
use crate::discovery::{pair_seq, Pair};
use crate::record::ResolvedRecord;
use mongodb::bson::Bson;
use vstd::prelude::*;
use vstd::multiset::Multiset;

verus! {

/// Milliseconds to wait before retrying a failed fetch or insert.
pub const RETRY_DELAY_MS: u64 = 1000;

/// Milliseconds to wait after storing a record before the next pair.
pub const PACE_DELAY_MS: u64 = 1000;

/// What a store lookup for an identifier came to.
#[derive(Clone, Copy, Debug, PartialEq, Eq, Structural)]
pub enum LookupOutcome {
    Found,
    Absent,
    /// The query itself failed.
    Failed,
}

/// Whether a lookup counts as the record being stored. A failed query
/// counts as absent: the record is fetched and inserted again rather than
/// missed.
pub open spec fn present(o: LookupOutcome) -> bool {
    o == LookupOutcome::Found
}

pub fn is_present(o: LookupOutcome) -> (r: bool)
    ensures
        r == present(o),
{
    match o {
        LookupOutcome::Found => true,
        LookupOutcome::Absent => false,
        LookupOutcome::Failed => false,
    }
}

/// What to do when resolving a record keeps failing.
#[derive(Clone, Copy, Debug, PartialEq, Eq, Structural)]
pub enum ResolvePolicy {
    /// Retry until it succeeds; the pass waits on that record.
    RetryForever,
    /// Give up on the record after this many failed attempts and go on with
    /// the next pair.
    GiveUpAfter(u64),
}

pub open spec fn gives_up(p: ResolvePolicy, failures: int) -> bool {
    match p {
        ResolvePolicy::RetryForever => false,
        ResolvePolicy::GiveUpAfter(m) => failures >= m,
    }
}

/// Where a pass stands.
#[derive(Clone, Copy, Debug, PartialEq, Eq, Structural)]
pub enum Stage {
    /// Probing the store until it answers.
    Connecting,
    /// Looking up the current pair's identifier in the store.
    Checking,
    /// Fetching the current pair's record.
    Resolving,
    /// Waiting before fetching again.
    ResolveBackoff,
    /// Inserting the fetched record.
    Writing,
    /// Waiting before inserting again.
    WriteBackoff,
    /// Waiting after an insert before the next pair.
    Pausing,
    Done,
}

/// What the caller reports back after performing an action.
pub enum Event {
    PingFailed,
    PingSucceeded,
    Looked(LookupOutcome),
    ResolveFailed,
    Resolved(ResolvedRecord),
    InsertFailed,
    Inserted,
    Slept,
}

/// What the caller is to do next.
#[derive(Debug, PartialEq, Eq)]
pub enum Action {
    /// Probe the store.
    Ping,
    /// Look up this identifier in the store.
    Lookup(i64),
    /// Fetch and merge the record of this identifier and access hash.
    Resolve(i64, String),
    /// Insert the pending record.
    Insert,
    /// Wait this many milliseconds.
    Sleep(u64),
    /// The pass is over; this many records were stored.
    Finish(usize),
}

/// The state of a pass as mathematics.
pub struct PassView {
    pub pairs: Seq<(i64, Seq<char>)>,
    pub next: int,
    pub stage: Stage,
    pub uploaded: int,
    pub attempts: int,
    pub policy: ResolvePolicy,
    pub pending: Option<Seq<(Seq<char>, Bson)>>,
}

/// The stages in which the current pair is known to be absent from the
/// store and is being fetched or written.
pub open spec fn busy(s: Stage) -> bool {
    s == Stage::Resolving || s == Stage::ResolveBackoff || s == Stage::Writing || s == Stage::WriteBackoff
}

impl PassView {
    pub open spec fn wf(self) -> bool {
        &&& 0 <= self.next <= self.pairs.len()
        &&& self.stage == Stage::Connecting ==> self.next == 0
        &&& self.stage == Stage::Done <==> (self.stage != Stage::Connecting && self.next == self.pairs.len())
        &&& 0 <= self.uploaded <= self.next + (if self.stage == Stage::Pausing { 1int } else { 0int })
        &&& 0 <= self.attempts <= u64::MAX
        &&& (self.stage == Stage::Writing || self.stage == Stage::WriteBackoff) <==> self.pending is Some
        &&& self.pairs.len() <= usize::MAX
    }

    /// The identifier of the pair being worked on.
    pub open spec fn current_id(self) -> i64 {
        self.pairs[self.next].0
    }
}

/// A pass that has not yet reached the store.
pub open spec fn fresh(pairs: Seq<(i64, Seq<char>)>, policy: ResolvePolicy) -> PassView {
    PassView { pairs, next: 0, stage: Stage::Connecting, uploaded: 0, attempts: 0, policy, pending: None }
}

/// Move on to the pair after the current one.
pub open spec fn advance(v: PassView) -> PassView {
    PassView {
        next: v.next + 1,
        stage: if v.next + 1 < v.pairs.len() { Stage::Checking } else { Stage::Done },
        attempts: 0,
        pending: None,
        ..v
    }
}

/// How a pass changes on an event. An event that does not answer the
/// current action leaves the pass as it is.
pub open spec fn next_view(v: PassView, e: Event) -> PassView {
    match v.stage {
        Stage::Connecting => match e {
            Event::PingSucceeded => PassView {
                stage: if v.pairs.len() > 0 { Stage::Checking } else { Stage::Done },
                ..v
            },
            _ => v,
        },
        Stage::Checking => match e {
            Event::Looked(o) => if present(o) {
                advance(v)
            } else {
                PassView { stage: Stage::Resolving, attempts: 0, ..v }
            },
            _ => v,
        },
        Stage::Resolving => match e {
            Event::Resolved(r) => PassView { stage: Stage::Writing, pending: Some(r@), ..v },
            Event::ResolveFailed => if gives_up(v.policy, v.attempts + 1) {
                advance(v)
            } else {
                PassView {
                    stage: Stage::ResolveBackoff,
                    attempts: if v.attempts < u64::MAX { v.attempts + 1 } else { v.attempts },
                    ..v
                }
            },
            _ => v,
        },
        Stage::ResolveBackoff => match e {
            Event::Slept => PassView { stage: Stage::Resolving, ..v },
            _ => v,
        },
        Stage::Writing => match e {
            Event::Inserted => PassView {
                stage: Stage::Pausing,
                uploaded: v.uploaded + 1,
                pending: None,
                ..v
            },
            Event::InsertFailed => PassView { stage: Stage::WriteBackoff, ..v },
            _ => v,
        },
        Stage::WriteBackoff => match e {
            Event::Slept => PassView { stage: Stage::Writing, ..v },
            _ => v,
        },
        Stage::Pausing => match e {
            Event::Slept => advance(v),
            _ => v,
        },
        Stage::Done => v,
    }
}

/// The action a pass asks for in a given state.
pub open spec fn action_for(v: PassView, a: Action) -> bool {
    match v.stage {
        Stage::Connecting => a == Action::Ping,
        Stage::Checking => a == Action::Lookup(v.current_id()),
        Stage::Resolving => a matches Action::Resolve(id, h) && id == v.current_id() && h@ == v.pairs[v.next].1,
        Stage::ResolveBackoff => a == Action::Sleep(RETRY_DELAY_MS),
        Stage::Writing => a == Action::Insert,
        Stage::WriteBackoff => a == Action::Sleep(RETRY_DELAY_MS),
        Stage::Pausing => a == Action::Sleep(PACE_DELAY_MS),
        Stage::Done => a == Action::Finish(v.uploaded as usize),
    }
}

/// The identifiers in the store after an event: an insert adds the current
/// pair's identifier.
pub open spec fn store_after(v: PassView, store: Multiset<i64>, e: Event) -> Multiset<i64> {
    if v.stage == Stage::Writing && e is Inserted {
        store.insert(v.current_id())
    } else {
        store
    }
}

/// The event is what a store holding `store` would answer: a lookup finds
/// the current identifier exactly when it is stored, and does not fail.
pub open spec fn answers_truly(v: PassView, store: Multiset<i64>, e: Event) -> bool {
    (v.stage == Stage::Checking && e is Looked) ==> e == Event::Looked(
        if store.count(v.current_id()) > 0 { LookupOutcome::Found } else { LookupOutcome::Absent },
    )
}

/// The pass after a sequence of events.
pub open spec fn run_view(v: PassView, events: Seq<Event>) -> PassView
    decreases events.len(),
{
    if events.len() == 0 {
        v
    } else {
        run_view(next_view(v, events[0]), events.drop_first())
    }
}

/// The store after a sequence of events.
pub open spec fn run_store(v: PassView, store: Multiset<i64>, events: Seq<Event>) -> Multiset<i64>
    decreases events.len(),
{
    if events.len() == 0 {
        store
    } else {
        run_store(next_view(v, events[0]), store_after(v, store, events[0]), events.drop_first())
    }
}

/// Every lookup in the sequence is answered truly by the store as it
/// stands at that point.
pub open spec fn truthful_run(v: PassView, store: Multiset<i64>, events: Seq<Event>) -> bool
    decreases events.len(),
{
    events.len() == 0 || (answers_truly(v, store, events[0]) && truthful_run(
        next_view(v, events[0]),
        store_after(v, store, events[0]),
        events.drop_first(),
    ))
}

pub open spec fn at_most_once(store: Multiset<i64>) -> bool {
    forall|id: i64| #[trigger] store.count(id) <= 1
}

proof fn lemma_step_keeps_once(v: PassView, store: Multiset<i64>, e: Event)
    requires
        v.wf(),
        at_most_once(store),
        busy(v.stage) ==> store.count(v.current_id()) == 0,
        answers_truly(v, store, e),
    ensures
        next_view(v, e).wf(),
        at_most_once(store_after(v, store, e)),
        busy(next_view(v, e).stage) ==> store_after(v, store, e).count(next_view(v, e).current_id()) == 0,
{
    let w = next_view(v, e);
    let s2 = store_after(v, store, e);
    if v.stage == Stage::Writing && e is Inserted {
        assert forall|id: i64| #[trigger] s2.count(id) <= 1 by {
            assert(store.count(id) <= 1);
        }
    }
}

proof fn lemma_run_keeps_once(v: PassView, store: Multiset<i64>, events: Seq<Event>)
    requires
        v.wf(),
        at_most_once(store),
        busy(v.stage) ==> store.count(v.current_id()) == 0,
        truthful_run(v, store, events),
    ensures
        at_most_once(run_store(v, store, events)),
    decreases events.len(),
{
    if events.len() > 0 {
        lemma_step_keeps_once(v, store, events[0]);
        lemma_run_keeps_once(next_view(v, events[0]), store_after(v, store, events[0]), events.drop_first());
    }
}

/// Processing one pair at a time against a store that answers lookups
/// truly, a pass never stores an identifier twice: if the store held each
/// identifier at most once before the pass, it still does after any
/// sequence of events, whatever repeats the pairs hold.
pub proof fn lemma_pass_stores_each_id_once(
    pairs: Seq<(i64, Seq<char>)>,
    policy: ResolvePolicy,
    store: Multiset<i64>,
    events: Seq<Event>,
)
    requires
        pairs.len() <= usize::MAX,
        at_most_once(store),
        truthful_run(fresh(pairs, policy), store, events),
    ensures
        at_most_once(run_store(fresh(pairs, policy), store, events)),
{
    lemma_run_keeps_once(fresh(pairs, policy), store, events);
}

proof fn lemma_run_stores_nothing(v: PassView, store: Multiset<i64>, events: Seq<Event>)
    requires
        v.wf(),
        !busy(v.stage),
        v.stage != Stage::Pausing,
        forall|i: int| 0 <= i < v.pairs.len() ==> #[trigger] store.count(v.pairs[i].0) > 0,
        truthful_run(v, store, events),
    ensures
        run_view(v, events).uploaded == v.uploaded,
        run_store(v, store, events) == store,
    decreases events.len(),
{
    if events.len() > 0 {
        let e = events[0];
        if v.stage == Stage::Checking {
            assert(store.count(v.pairs[v.next].0) > 0);
        }
        lemma_run_stores_nothing(next_view(v, e), store, events.drop_first());
    }
}

/// A pass over pairs whose identifiers are all stored already, against a
/// store that answers lookups truly, stores nothing and reports no upload,
/// whatever the sequence of events.
pub proof fn lemma_pass_over_stored_pairs_uploads_nothing(
    pairs: Seq<(i64, Seq<char>)>,
    policy: ResolvePolicy,
    store: Multiset<i64>,
    events: Seq<Event>,
)
    requires
        pairs.len() <= usize::MAX,
        forall|i: int| 0 <= i < pairs.len() ==> #[trigger] store.count(pairs[i].0) > 0,
        truthful_run(fresh(pairs, policy), store, events),
    ensures
        run_view(fresh(pairs, policy), events).uploaded == 0,
        run_store(fresh(pairs, policy), store, events) == store,
{
    lemma_run_stores_nothing(fresh(pairs, policy), store, events);
}

/// `id` is the identifier of one of the pairs.
pub open spec fn listed(pairs: Seq<(i64, Seq<char>)>, id: i64) -> bool {
    exists|i: int| 0 <= i < pairs.len() && pairs[i].0 == id
}

/// What a pass that retries until success has done to the store so far:
/// each pair before the current one is stored, the current one too once it
/// is written, and identifiers of no pair are as they were.
pub open spec fn progress(v: PassView, store0: Multiset<i64>, store: Multiset<i64>) -> bool {
    &&& v.policy == ResolvePolicy::RetryForever
    &&& forall|i: int| 0 <= i < v.next ==> #[trigger] store.count(v.pairs[i].0) >= 1
    &&& v.stage == Stage::Pausing ==> store.count(v.current_id()) >= 1
    &&& forall|id: i64| !listed(v.pairs, id) ==> #[trigger] store.count(id) == store0.count(id)
}

proof fn lemma_step_progress(v: PassView, store0: Multiset<i64>, store: Multiset<i64>, e: Event)
    requires
        v.wf(),
        progress(v, store0, store),
        answers_truly(v, store, e),
    ensures
        progress(next_view(v, e), store0, store_after(v, store, e)),
{
    let w = next_view(v, e);
    let s2 = store_after(v, store, e);
    if v.stage == Stage::Writing && e is Inserted {
        assert(listed(v.pairs, v.current_id()));
        assert forall|id: i64| !listed(w.pairs, id) implies #[trigger] s2.count(id) == store0.count(id) by {
            assert(id != v.current_id());
        }
        assert forall|i: int| 0 <= i < w.next implies #[trigger] s2.count(w.pairs[i].0) >= 1 by {
            assert(store.count(v.pairs[i].0) >= 1);
        }
    }
    assert forall|i: int| 0 <= i < w.next implies #[trigger] s2.count(w.pairs[i].0) >= 1 by {
        if i < v.next {
            assert(store.count(v.pairs[i].0) >= 1);
        }
    }
}

proof fn lemma_run_progress(v: PassView, store0: Multiset<i64>, store: Multiset<i64>, events: Seq<Event>)
    requires
        v.wf(),
        progress(v, store0, store),
        truthful_run(v, store, events),
    ensures
        run_view(v, events).wf(),
        progress(run_view(v, events), store0, run_store(v, store, events)),
    decreases events.len(),
{
    if events.len() > 0 {
        lemma_step_keeps_wf(v, events[0]);
        lemma_step_progress(v, store0, store, events[0]);
        lemma_run_progress(next_view(v, events[0]), store0, store_after(v, store, events[0]), events.drop_first());
    }
}

proof fn lemma_step_keeps_wf(v: PassView, e: Event)
    requires
        v.wf(),
    ensures
        next_view(v, e).wf(),
{
}

proof fn lemma_run_pairs(v: PassView, events: Seq<Event>)
    ensures
        run_view(v, events).pairs == v.pairs,
    decreases events.len(),
{
    if events.len() > 0 {
        lemma_run_pairs(next_view(v, events[0]), events.drop_first());
    }
}

/// A pass that retries until success and has finished, against a store that
/// answers lookups truly and held each identifier at most once, leaves each
/// discovered identifier stored exactly once, however often it was listed,
/// and every other identifier as it was.
pub proof fn lemma_finished_pass_stores_each_pair_once(
    pairs: Seq<(i64, Seq<char>)>,
    store: Multiset<i64>,
    events: Seq<Event>,
)
    requires
        pairs.len() <= usize::MAX,
        at_most_once(store),
        truthful_run(fresh(pairs, ResolvePolicy::RetryForever), store, events),
        run_view(fresh(pairs, ResolvePolicy::RetryForever), events).stage == Stage::Done,
    ensures
        forall|i: int|
            0 <= i < pairs.len() ==> #[trigger] run_store(fresh(pairs, ResolvePolicy::RetryForever), store, events).count(
                pairs[i].0,
            ) == 1,
        forall|id: i64|
            !listed(pairs, id) ==> #[trigger] run_store(fresh(pairs, ResolvePolicy::RetryForever), store, events).count(id)
                == store.count(id),
{
    let v = fresh(pairs, ResolvePolicy::RetryForever);
    let end = run_store(v, store, events);
    lemma_run_progress(v, store, store, events);
    lemma_run_keeps_once(v, store, events);
    lemma_run_pairs(v, events);
    assert forall|i: int| 0 <= i < pairs.len() implies #[trigger] end.count(pairs[i].0) == 1 by {
        assert(end.count(run_view(v, events).pairs[i].0) >= 1);
        assert(end.count(pairs[i].0) <= 1);
    }
}

/// Pairs are worked on one at a time, in order: an event keeps the current
/// pair or moves to the next one, and a pair is left only when the store
/// already holds it, after the pause that follows its insert, or when the
/// policy gives up fetching it; never while its record is being fetched
/// again or written.
pub proof fn lemma_one_pair_at_a_time(v: PassView, e: Event)
    requires
        v.wf(),
    ensures
        next_view(v, e).next == v.next || next_view(v, e).next == v.next + 1,
        next_view(v, e).next == v.next + 1 ==> {
            ||| v.stage == Stage::Checking && (e matches Event::Looked(o) && present(o))
            ||| v.stage == Stage::Pausing && e is Slept
            ||| v.stage == Stage::Resolving && e is ResolveFailed && gives_up(v.policy, v.attempts + 1)
        },
        v.stage == Stage::Writing || v.stage == Stage::WriteBackoff || v.stage == Stage::ResolveBackoff
            ==> next_view(v, e).next == v.next,
{
}

/// One pass over the discovered pairs.
pub struct Pass {
    pairs: Vec<Pair>,
    next: usize,
    stage: Stage,
    uploaded: usize,
    attempts: u64,
    policy: ResolvePolicy,
    pending: Option<ResolvedRecord>,
}

impl View for Pass {
    type V = PassView;

    closed spec fn view(&self) -> PassView {
        PassView {
            pairs: pair_seq(self.pairs@),
            next: self.next as int,
            stage: self.stage,
            uploaded: self.uploaded as int,
            attempts: self.attempts as int,
            policy: self.policy,
            pending: match self.pending {
                Some(r) => Some(r@),
                None => None,
            },
        }
    }
}

impl Pass {
    /// A pass over `pairs` that starts by probing the store.
    pub fn new(pairs: Vec<Pair>, policy: ResolvePolicy) -> (r: Pass)
        ensures
            r@ == fresh(pair_seq(pairs@), policy),
            r@.wf(),
    {
        let n: usize = pairs.len();
        proof {
            assert(pair_seq(pairs@).len() == n);
        }
        Pass { pairs, next: 0, stage: Stage::Connecting, uploaded: 0, attempts: 0, policy, pending: None }
    }

    pub fn stage(&self) -> (r: Stage)
        ensures
            r == self@.stage,
    {
        self.stage
    }

    /// Records stored so far in this pass.
    pub fn uploaded(&self) -> (r: usize)
        ensures
            r == self@.uploaded,
    {
        self.uploaded
    }

    /// The record waiting to be inserted.
    pub fn pending(&self) -> (r: Option<&ResolvedRecord>)
        ensures
            r matches Some(x) ==> self@.pending == Some(x@),
            r is None <==> self@.pending is None,
    {
        match &self.pending {
            Some(x) => Some(x),
            None => None,
        }
    }

    /// What the caller is to do now.
    pub fn action(&self) -> (a: Action)
        requires
            self@.wf(),
        ensures
            action_for(self@, a),
    {
        match self.stage {
            Stage::Connecting => Action::Ping,
            Stage::Checking => Action::Lookup(self.pairs[self.next].0),
            Stage::Resolving => {
                let p = &self.pairs[self.next];
                Action::Resolve(p.0, p.1.clone())
            },
            Stage::ResolveBackoff => Action::Sleep(RETRY_DELAY_MS),
            Stage::Writing => Action::Insert,
            Stage::WriteBackoff => Action::Sleep(RETRY_DELAY_MS),
            Stage::Pausing => Action::Sleep(PACE_DELAY_MS),
            Stage::Done => Action::Finish(self.uploaded),
        }
    }

    fn advance(&mut self)
        requires
            old(self)@.wf(),
            old(self)@.stage != Stage::Connecting,
            old(self)@.stage != Stage::Done,
            old(self)@.uploaded <= old(self)@.next + 1,
        ensures
            final(self)@ == advance(old(self)@),
    {
        self.next = self.next + 1;
        self.stage = if self.next < self.pairs.len() { Stage::Checking } else { Stage::Done };
        self.attempts = 0;
        self.pending = None;
    }

    /// Take in what came of the last action.
    pub fn step(&mut self, e: Event)
        requires
            old(self)@.wf(),
        ensures
            final(self)@ == next_view(old(self)@, e),
            final(self)@.wf(),
    {
        match self.stage {
            Stage::Connecting => {
                if let Event::PingSucceeded = e {
                    self.stage = if self.pairs.len() > 0 { Stage::Checking } else { Stage::Done };
                }
            },
            Stage::Checking => {
                if let Event::Looked(o) = e {
                    if is_present(o) {
                        self.advance();
                    } else {
                        self.stage = Stage::Resolving;
                        self.attempts = 0;
                    }
                }
            },
            Stage::Resolving => {
                match e {
                    Event::Resolved(r) => {
                        self.stage = Stage::Writing;
                        self.pending = Some(r);
                    },
                    Event::ResolveFailed => {
                        let gave_up = match self.policy {
                            ResolvePolicy::RetryForever => false,
                            ResolvePolicy::GiveUpAfter(m) => m == 0 || m - 1 <= self.attempts,
                        };
                        if gave_up {
                            self.advance();
                        } else {
                            self.stage = Stage::ResolveBackoff;
                            if self.attempts < u64::MAX {
                                self.attempts = self.attempts + 1;
                            }
                        }
                    },
                    _ => {},
                }
            },
            Stage::ResolveBackoff => {
                if let Event::Slept = e {
                    self.stage = Stage::Resolving;
                }
            },
            Stage::Writing => {
                match e {
                    Event::Inserted => {
                        self.stage = Stage::Pausing;
                        self.uploaded = self.uploaded + 1;
                        self.pending = None;
                    },
                    Event::InsertFailed => {
                        self.stage = Stage::WriteBackoff;
                    },
                    _ => {},
                }
            },
            Stage::WriteBackoff => {
                if let Event::Slept = e {
                    self.stage = Stage::Writing;
                }
            },
            Stage::Pausing => {
                if let Event::Slept = e {
                    self.advance();
                }
            },
            Stage::Done => {},
        }
    }
}

} // verus!
