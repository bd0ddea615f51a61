//! The network worker's bookkeeping: allocation of block-request
//! identifiers, the set of outstanding requests, and the classification of
//! swarm activity into the events that the sync loop consumes.
use fnv::FnvBuildHasher;
use hashbrown::HashSet;
use vstd::prelude::*;

verus! {

/// Identifier of a block-sync request, unique while the request is outstanding.
#[derive(Debug, Copy, Clone, Hash, PartialEq, Eq, Structural)]
pub struct BlocksRequestId(pub u64);

/// Event that can happen on the network.
#[derive(Debug)]
pub enum Event {
    /// Received a block announcement for specific blocks.
    BlocksAnnouncementReceived {
        /// List of encoded headers.
        headers: Vec<Vec<u8>>,
    },
    /// A blocks request started with `Network::start_block_request` has gotten a response.
    BlocksRequestFinished { id: BlocksRequestId, result: Result<(), ()> },
}

/// Activity reported by the swarm, as the worker sees it.
#[derive(Debug)]
pub enum SwarmActivity {
    /// Peers announced these encoded headers.
    AnnouncementReceived { headers: Vec<Vec<u8>> },
    /// A block request got a response, or failed.
    RequestFinished { id: BlocksRequestId, result: Result<(), ()> },
    /// Anything else: connections, discovery, keep-alive. Not surfaced.
    Other,
}

/// A block request that the swarm is to send.
#[derive(Debug, Copy, Clone, PartialEq, Eq, Structural)]
pub struct BlockRequest {
    pub id: BlocksRequestId,
    pub block_num: u32,
}

/// Every request identifier has been handed out.
#[derive(Debug, Copy, Clone, PartialEq, Eq, Structural)]
pub struct RequestIdExhausted;

/// Set of outstanding request identifiers, held in hashbrown's set with the
/// FNV hasher. The set is kept behind this opaque struct because hashbrown's
/// set type bounds its allocator parameter by a trait that hashbrown does not
/// export, so the type cannot be declared with its own bounds.
#[verifier::external_body]
pub struct RequestSet {
    set: HashSet<u64, FnvBuildHasher>,
}

/// The identifiers that a request set holds.
pub uninterp spec fn request_set_contents(s: RequestSet) -> Set<u64>;

impl RequestSet {
    /// Relies on hashbrown's `HashSet::default`: an empty set.
    #[verifier::external_body]
    pub(crate) fn empty() -> (r: RequestSet)
        ensures
            request_set_contents(r) == Set::<u64>::empty(),
    {
        RequestSet { set: HashSet::default() }
    }

    /// Relies on hashbrown's `HashSet::insert`: adds the value, and tells
    /// whether it was absent.
    #[verifier::external_body]
    pub(crate) fn insert(&mut self, v: u64) -> (r: bool)
        ensures
            request_set_contents(*final(self)) == request_set_contents(*old(self)).insert(v),
            r == !request_set_contents(*old(self)).contains(v),
    {
        self.set.insert(v)
    }

    /// Relies on hashbrown's `HashSet::remove`: takes the value out, and
    /// tells whether it was present.
    #[verifier::external_body]
    pub(crate) fn remove(&mut self, v: u64) -> (r: bool)
        ensures
            request_set_contents(*final(self)) == request_set_contents(*old(self)).remove(v),
            r == request_set_contents(*old(self)).contains(v),
    {
        self.set.remove(&v)
    }

    /// Relies on hashbrown's `HashSet::len`: the number of values held.
    #[verifier::external_body]
    pub(crate) fn len(&self) -> (r: usize)
        ensures
            request_set_contents(*self).finite() ==> r == request_set_contents(*self).len(),
    {
        self.set.len()
    }
}

/// The worker's bookkeeping, in mathematical terms.
pub struct NetworkState {
    /// Identifiers of the outstanding requests.
    pub outstanding: Set<u64>,
    /// Identifier that the next request will get.
    pub next: u64,
}

/// The state of a worker that has just started.
pub open spec fn initial_state() -> NetworkState {
    NetworkState { outstanding: Set::empty(), next: 0 }
}

/// Every outstanding identifier was handed out before the counter's value.
pub open spec fn state_wf(s: NetworkState) -> bool {
    &&& s.outstanding.finite()
    &&& forall|id: u64| #[trigger] s.outstanding.contains(id) ==> id < s.next
}

/// `post` follows `pre` by starting the request `id`.
pub open spec fn started(pre: NetworkState, id: u64, post: NetworkState) -> bool {
    &&& pre.next < u64::MAX
    &&& id == pre.next
    &&& post.next == pre.next + 1
    &&& post.outstanding == pre.outstanding.insert(id)
}

/// `post` follows `pre` by the completion of the outstanding request `id`.
pub open spec fn finished(pre: NetworkState, id: u64, post: NetworkState) -> bool {
    &&& pre.outstanding.contains(id)
    &&& post.next == pre.next
    &&& post.outstanding == pre.outstanding.remove(id)
}

/// State machine of the network's block requests.
pub struct Network {
    /// Identifiers of the block requests in progress.
    blocks_requests: RequestSet,
    /// Identifier to assign to the next blocks request to start.
    next_blocks_request: BlocksRequestId,
}

impl View for Network {
    type V = NetworkState;

    closed spec fn view(&self) -> NetworkState {
        NetworkState {
            outstanding: request_set_contents(self.blocks_requests),
            next: self.next_blocks_request.0,
        }
    }
}

impl Network {
    /// The worker's bookkeeping is consistent.
    pub open spec fn wf(&self) -> bool {
        state_wf(self@)
    }

    /// A worker with no request outstanding, whose first request gets id 0.
    pub fn new() -> (r: Network)
        ensures
            r@ == initial_state(),
            r.wf(),
    {
        Network { blocks_requests: RequestSet::empty(), next_blocks_request: BlocksRequestId(0) }
    }

    /// Allocates the next request identifier and records the request as
    /// outstanding; the caller sends the returned request on the swarm.
    /// Fails, changing nothing, once every identifier has been handed out.
    pub fn start_block_request(&mut self, block_num: u32) -> (r: Result<
        BlockRequest,
        RequestIdExhausted,
    >)
        requires
            old(self).wf(),
        ensures
            old(self)@.next == u64::MAX <==> r is Err,
            r is Err ==> final(self)@ == old(self)@,
            r is Ok ==> r->Ok_0.block_num == block_num,
            r is Ok ==> started(old(self)@, r->Ok_0.id.0, final(self)@),
            final(self).wf(),
    {
        if self.next_blocks_request.0 == u64::MAX {
            return Err(RequestIdExhausted);
        }
        let id = self.next_blocks_request;
        self.next_blocks_request = BlocksRequestId(id.0 + 1);
        self.blocks_requests.insert(id.0);
        Ok(BlockRequest { id, block_num })
    }

    /// Returns the number of ongoing block requests.
    pub fn num_blocks_request(&self) -> (r: usize)
        requires
            self.wf(),
        ensures
            r == self@.outstanding.len(),
    {
        self.blocks_requests.len()
    }

    /// Classifies one piece of swarm activity. An announcement is passed on;
    /// the completion of an outstanding request resolves it and is passed on;
    /// anything else, including a completion of no outstanding request, is
    /// dropped.
    pub fn on_swarm_activity(&mut self, activity: SwarmActivity) -> (r: Option<Event>)
        requires
            old(self).wf(),
        ensures
            match activity {
                SwarmActivity::AnnouncementReceived { headers } => {
                    &&& final(self)@ == old(self)@
                    &&& r matches Some(Event::BlocksAnnouncementReceived { headers: h })
                    &&& h == headers
                },
                SwarmActivity::RequestFinished { id, result } => if old(self)@.outstanding.contains(id.0) {
                    &&& finished(old(self)@, id.0, final(self)@)
                    &&& r == Some(Event::BlocksRequestFinished { id, result })
                } else {
                    &&& final(self)@ == old(self)@
                    &&& r is None
                },
                SwarmActivity::Other => final(self)@ == old(self)@ && r is None,
            },
            final(self).wf(),
    {
        match activity {
            SwarmActivity::AnnouncementReceived { headers } => {
                Some(Event::BlocksAnnouncementReceived { headers })
            },
            SwarmActivity::RequestFinished { id, result } => {
                if self.blocks_requests.remove(id.0) {
                    Some(Event::BlocksRequestFinished { id, result })
                } else {
                    proof {
                        assert(self@.outstanding =~= old(self)@.outstanding);
                    }
                    None
                }
            },
            SwarmActivity::Other => None,
        }
    }
}

/// One step of the bookkeeping: a request started, or an outstanding one finished.
pub enum Step {
    Start(u64),
    Finish(u64),
}

/// `post` follows `pre` by `step`.
pub open spec fn step_taken(pre: NetworkState, step: Step, post: NetworkState) -> bool {
    match step {
        Step::Start(id) => started(pre, id, post),
        Step::Finish(id) => finished(pre, id, post),
    }
}

/// Requests started among the first `k` steps.
pub open spec fn starts_in(steps: Seq<Step>, k: nat) -> int
    decreases k,
{
    if k == 0 {
        0
    } else {
        starts_in(steps, (k - 1) as nat) + if steps[k - 1] is Start {
            1int
        } else {
            0int
        }
    }
}

/// Requests finished among the first `k` steps.
pub open spec fn finishes_in(steps: Seq<Step>, k: nat) -> int
    decreases k,
{
    if k == 0 {
        0
    } else {
        finishes_in(steps, (k - 1) as nat) + if steps[k - 1] is Finish {
            1int
        } else {
            0int
        }
    }
}

proof fn lemma_counter_advances(states: Seq<NetworkState>, ids: Seq<u64>, k: int)
    requires
        states.len() == ids.len() + 1,
        forall|i: int| 0 <= i < ids.len() ==> started(#[trigger] states[i], ids[i], states[i + 1]),
        0 <= k <= ids.len(),
    ensures
        states[k].next == states[0].next + k,
    decreases k,
{
    if k > 0 {
        lemma_counter_advances(states, ids, k - 1);
        assert(started(states[k - 1], ids[k - 1], states[k]));
    }
}

/// Requests started one after the other, with none finishing in between,
/// get pairwise distinct identifiers in strictly increasing order.
pub proof fn lemma_request_ids_increase(states: Seq<NetworkState>, ids: Seq<u64>)
    requires
        states.len() == ids.len() + 1,
        forall|i: int| 0 <= i < ids.len() ==> started(#[trigger] states[i], ids[i], states[i + 1]),
    ensures
        forall|i: int| 0 <= i < ids.len() ==> #[trigger] ids[i] == states[0].next + i,
        forall|i: int, j: int| 0 <= i < j < ids.len() ==> ids[i] < ids[j],
        forall|i: int, j: int| 0 <= i < ids.len() && 0 <= j < ids.len() && i != j ==> ids[i] != ids[j],
{
    assert forall|i: int| 0 <= i < ids.len() implies #[trigger] ids[i] == states[0].next + i by {
        lemma_counter_advances(states, ids, i);
        assert(started(states[i], ids[i], states[i + 1]));
    }
}

/// A step keeps the bookkeeping consistent, and moves the number of
/// outstanding requests by one.
pub proof fn lemma_step_counts(pre: NetworkState, step: Step, post: NetworkState)
    requires
        state_wf(pre),
        step_taken(pre, step, post),
    ensures
        state_wf(post),
        post.outstanding.len() == pre.outstanding.len() + if step is Start {
            1int
        } else {
            -1int
        },
{
    match step {
        Step::Start(id) => {
            assert(!pre.outstanding.contains(id));
        },
        Step::Finish(id) => {},
    }
}

/// Along any run from a fresh worker, the number of outstanding requests is
/// at every point the number started minus the number finished.
pub proof fn lemma_outstanding_count(states: Seq<NetworkState>, steps: Seq<Step>)
    requires
        states.len() == steps.len() + 1,
        states[0] == initial_state(),
        forall|i: int| 0 <= i < steps.len() ==> step_taken(#[trigger] states[i], steps[i], states[i + 1]),
    ensures
        forall|k: int| 0 <= k < states.len() ==> state_wf(#[trigger] states[k]),
        forall|k: int|
            0 <= k < states.len() ==> (#[trigger] states[k]).outstanding.len() == starts_in(steps, k as nat)
                - finishes_in(steps, k as nat),
{
    assert forall|k: int| 0 <= k < states.len() implies state_wf(#[trigger] states[k])
        && states[k].outstanding.len() == starts_in(steps, k as nat) - finishes_in(steps, k as nat) by {
        lemma_outstanding_prefix(states, steps, k);
    }
}

proof fn lemma_outstanding_prefix(states: Seq<NetworkState>, steps: Seq<Step>, k: int)
    requires
        states.len() == steps.len() + 1,
        states[0] == initial_state(),
        forall|i: int| 0 <= i < steps.len() ==> step_taken(#[trigger] states[i], steps[i], states[i + 1]),
        0 <= k < states.len(),
    ensures
        state_wf(states[k]),
        states[k].outstanding.len() == starts_in(steps, k as nat) - finishes_in(steps, k as nat),
    decreases k,
{
    if k > 0 {
        lemma_outstanding_prefix(states, steps, k - 1);
        assert(step_taken(states[k - 1], steps[k - 1], states[k]));
        lemma_step_counts(states[k - 1], steps[k - 1], states[k]);
    }
}

} // verus!
