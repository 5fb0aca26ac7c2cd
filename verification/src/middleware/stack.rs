//! An ordered chain of middleware layers.

use crate::error::Result;
use crate::middleware::traits::{acts_as, share, Middleware, MiddlewareAction, SharedMiddleware};
use crate::model::types::{ChatRequest, ChatResponse};
use crate::tool::ToolCall;
use vstd::prelude::*;

verus! {

/// Whether an outcome lets the next layer have its turn.
pub open spec fn goes_on(r: Result<MiddlewareAction>) -> bool {
    r matches Ok(MiddlewareAction::Continue)
}

/// Whether `n` layers come to `r` if those that had their turn came out as `acts`:
/// all but the last went on, the last decides, and a layer is left out only if the
/// one before it did not go on or was left out itself.
pub open spec fn settles(
    acts: Seq<Result<MiddlewareAction>>,
    n: nat,
    r: Result<MiddlewareAction>,
) -> bool {
    &&& acts.len() <= n
    &&& forall|i: int| 0 <= i < acts.len() - 1 ==> goes_on(#[trigger] acts[i])
    &&& acts.len() < n ==> acts.len() > 0 && !goes_on(acts.last())
    &&& if acts.len() == 0 {
        goes_on(r)
    } else {
        r == acts.last()
    }
}

/// Whether the first layers may have had their turns at a request, each on its own
/// reference to it, and have come out as `acts`.
pub open spec fn requests_ran(
    layers: Seq<SharedMiddleware>,
    qs: Seq<&mut ChatRequest>,
    acts: Seq<Result<MiddlewareAction>>,
) -> bool {
    &&& qs.len() == acts.len() <= layers.len()
    &&& forall|i: int|
        0 <= i < qs.len() ==> #[trigger] layers[i].hooks.request_hook(qs[i], acts[i])
}

/// Whether the first layers may have had their turns at a response, each on its own
/// reference to it, and have come out as `acts`.
pub open spec fn responses_ran(
    layers: Seq<SharedMiddleware>,
    qs: Seq<&mut ChatResponse>,
    acts: Seq<Result<MiddlewareAction>>,
) -> bool {
    &&& qs.len() == acts.len() <= layers.len()
    &&& forall|i: int|
        0 <= i < qs.len() ==> #[trigger] layers[i].hooks.response_hook(qs[i], acts[i])
}

/// Whether the first layers may have had their turns at a tool call, each on its own
/// reference to it, and have come out as `acts`.
pub open spec fn tool_calls_ran(
    layers: Seq<SharedMiddleware>,
    qs: Seq<&mut ToolCall>,
    acts: Seq<Result<MiddlewareAction>>,
) -> bool {
    &&& qs.len() == acts.len() <= layers.len()
    &&& forall|i: int|
        0 <= i < qs.len() ==> #[trigger] layers[i].hooks.tool_call_hook(qs[i], acts[i])
}

/// An ordered chain of middleware layers. Each sees what passes in the order in
/// which they were added; the first action other than going on ends the chain.
pub struct MiddlewareStack {
    layers: Vec<SharedMiddleware>,
}

impl View for MiddlewareStack {
    type V = Seq<SharedMiddleware>;

    closed spec fn view(&self) -> Seq<SharedMiddleware> {
        self.layers@
    }
}

impl MiddlewareStack {
    /// A stack without layers.
    pub fn new() -> (r: Self)
        ensures
            r@ == Seq::<SharedMiddleware>::empty(),
    {
        MiddlewareStack { layers: Vec::new() }
    }

    /// Adds a layer behind the others.
    pub fn push<M: Middleware + 'static>(&mut self, mw: M)
        ensures
            final(self)@.len() == old(self)@.len() + 1,
            final(self)@.drop_last() == old(self)@,
            acts_as(*final(self)@.last(), mw),
    {
        self.push_shared(share(mw));
        assert(self@.drop_last() =~= old(self)@);
    }

    /// Adds a layer behind the others that other stacks may hold too.
    pub fn push_shared(&mut self, mw: SharedMiddleware)
        ensures
            final(self)@ == old(self)@.push(mw),
            final(self)@.len() == old(self)@.len() + 1,
            final(self)@.drop_last() == old(self)@,
            final(self)@.last() == mw,
    {
        self.layers.push(mw);
        assert(self@.drop_last() =~= old(self)@);
    }

    /// Whether there are no layers.
    pub fn is_empty(&self) -> (r: bool)
        ensures
            r == (self@.len() == 0),
    {
        self.layers.len() == 0
    }

    /// Runs a request through the layers. Each has its turn at what the one before it
    /// left.
    pub fn run_on_request(&self, request: &mut ChatRequest) -> (r: Result<MiddlewareAction>)
        ensures
            exists|qs: Seq<&mut ChatRequest>, acts: Seq<Result<MiddlewareAction>>|
                {
                    &&& #[trigger] requests_ran(self@, qs, acts)
                    &&& settles(acts, self@.len(), r)
                    &&& qs.len() == 0 ==> *final(request) == *old(request)
                    &&& qs.len() > 0 ==> *qs[0] == *old(request) && *final(qs[qs.len() - 1]) == *final(request)
                    &&& forall|i: int| 0 < i < qs.len() ==> *(#[trigger] qs[i]) == *final(qs[i - 1])
                },
    {
        assert(self@.skip(0) =~= self@);
        self.request_from(0, request)
    }

    fn request_from(&self, i: usize, request: &mut ChatRequest) -> (r: Result<MiddlewareAction>)
        requires
            i <= self@.len(),
        ensures
            exists|qs: Seq<&mut ChatRequest>, acts: Seq<Result<MiddlewareAction>>|
                {
                    &&& #[trigger] requests_ran(self@.skip(i as int), qs, acts)
                    &&& settles(acts, self@.skip(i as int).len(), r)
                    &&& qs.len() == 0 ==> *final(request) == *old(request)
                    &&& qs.len() > 0 ==> *qs[0] == *old(request) && *final(qs[qs.len() - 1]) == *final(request)
                    &&& forall|i: int| 0 < i < qs.len() ==> *(#[trigger] qs[i]) == *final(qs[i - 1])
                },
        decreases self@.len() - i,
    {
        let ghost layers = self@.skip(i as int);
        if i >= self.layers.len() {
            assert(requests_ran(layers, Seq::empty(), Seq::empty()));
            return Ok(MiddlewareAction::Continue);
        }
        let a = self.layers[i].hooks.on_request_erased(request);
        let ghost q = choose|q: &mut ChatRequest|
            {
                &&& *q == *old(request)
                &&& *final(q) == *request
                &&& #[trigger] layers[0].hooks.request_hook(q, a)
            };
        let ghost first = a;
        assert(layers.skip(1) =~= self@.skip(i + 1));
        match a {
            Ok(MiddlewareAction::Continue) => {
                let r = self.request_from(i + 1, request);
                proof {
                    let (qs, acts) = choose|
                        qs: Seq<&mut ChatRequest>,
                        acts: Seq<Result<MiddlewareAction>>,
                    |
                        {
                            &&& #[trigger] requests_ran(layers.skip(1), qs, acts)
                            &&& settles(acts, layers.skip(1).len(), r)
                            &&& qs.len() == 0 ==> *request == *final(q)
                            &&& qs.len() > 0 ==> *qs[0] == *final(q) && *final(qs[qs.len() - 1])
                                == *request
                            &&& forall|i: int|
                                0 < i < qs.len() ==> *(#[trigger] qs[i]) == *final(qs[i - 1])
                        };
                    let all = seq![q] + qs;
                    let came = seq![first] + acts;
                    assert forall|j: int| 0 <= j < all.len() implies #[trigger]
                        layers[j].hooks.request_hook(all[j], came[j]) by {
                        if j > 0 {
                            assert(layers.skip(1)[j - 1].hooks.request_hook(qs[j - 1], acts[j - 1]));
                        }
                    }
                    assert(requests_ran(layers, all, came));
                    assert forall|j: int| 0 <= j < came.len() - 1 implies goes_on(
                        #[trigger] came[j],
                    ) by {
                        if j > 0 {
                            assert(goes_on(acts[j - 1]));
                        }
                    }
                    assert forall|j: int| 0 < j < all.len() implies *(#[trigger] all[j])
                        == *final(all[j - 1]) by {
                        if j > 1 {
                            assert(*qs[j - 1] == *final(qs[j - 2]));
                        }
                    }
                }
                r
            },
            _ => {
                proof {
                    assert(requests_ran(layers, seq![q], seq![first]));
                }
                a
            },
        }
    }

    /// Runs a response through the layers. Each has its turn at what the one before it
    /// left.
    pub fn run_on_response(&self, response: &mut ChatResponse) -> (r: Result<MiddlewareAction>)
        ensures
            exists|qs: Seq<&mut ChatResponse>, acts: Seq<Result<MiddlewareAction>>|
                {
                    &&& #[trigger] responses_ran(self@, qs, acts)
                    &&& settles(acts, self@.len(), r)
                    &&& qs.len() == 0 ==> *final(response) == *old(response)
                    &&& qs.len() > 0 ==> *qs[0] == *old(response) && *final(qs[qs.len() - 1]) == *final(response)
                    &&& forall|i: int| 0 < i < qs.len() ==> *(#[trigger] qs[i]) == *final(qs[i - 1])
                },
    {
        assert(self@.skip(0) =~= self@);
        self.response_from(0, response)
    }

    fn response_from(&self, i: usize, response: &mut ChatResponse) -> (r: Result<MiddlewareAction>)
        requires
            i <= self@.len(),
        ensures
            exists|qs: Seq<&mut ChatResponse>, acts: Seq<Result<MiddlewareAction>>|
                {
                    &&& #[trigger] responses_ran(self@.skip(i as int), qs, acts)
                    &&& settles(acts, self@.skip(i as int).len(), r)
                    &&& qs.len() == 0 ==> *final(response) == *old(response)
                    &&& qs.len() > 0 ==> *qs[0] == *old(response) && *final(qs[qs.len() - 1]) == *final(response)
                    &&& forall|i: int| 0 < i < qs.len() ==> *(#[trigger] qs[i]) == *final(qs[i - 1])
                },
        decreases self@.len() - i,
    {
        let ghost layers = self@.skip(i as int);
        if i >= self.layers.len() {
            assert(responses_ran(layers, Seq::empty(), Seq::empty()));
            return Ok(MiddlewareAction::Continue);
        }
        let a = self.layers[i].hooks.on_response_erased(response);
        let ghost q = choose|q: &mut ChatResponse|
            {
                &&& *q == *old(response)
                &&& *final(q) == *response
                &&& #[trigger] layers[0].hooks.response_hook(q, a)
            };
        let ghost first = a;
        assert(layers.skip(1) =~= self@.skip(i + 1));
        match a {
            Ok(MiddlewareAction::Continue) => {
                let r = self.response_from(i + 1, response);
                proof {
                    let (qs, acts) = choose|
                        qs: Seq<&mut ChatResponse>,
                        acts: Seq<Result<MiddlewareAction>>,
                    |
                        {
                            &&& #[trigger] responses_ran(layers.skip(1), qs, acts)
                            &&& settles(acts, layers.skip(1).len(), r)
                            &&& qs.len() == 0 ==> *response == *final(q)
                            &&& qs.len() > 0 ==> *qs[0] == *final(q) && *final(qs[qs.len() - 1])
                                == *response
                            &&& forall|i: int|
                                0 < i < qs.len() ==> *(#[trigger] qs[i]) == *final(qs[i - 1])
                        };
                    let all = seq![q] + qs;
                    let came = seq![first] + acts;
                    assert forall|j: int| 0 <= j < all.len() implies #[trigger]
                        layers[j].hooks.response_hook(all[j], came[j]) by {
                        if j > 0 {
                            assert(layers.skip(1)[j - 1].hooks.response_hook(qs[j - 1], acts[j - 1]));
                        }
                    }
                    assert(responses_ran(layers, all, came));
                    assert forall|j: int| 0 <= j < came.len() - 1 implies goes_on(
                        #[trigger] came[j],
                    ) by {
                        if j > 0 {
                            assert(goes_on(acts[j - 1]));
                        }
                    }
                    assert forall|j: int| 0 < j < all.len() implies *(#[trigger] all[j])
                        == *final(all[j - 1]) by {
                        if j > 1 {
                            assert(*qs[j - 1] == *final(qs[j - 2]));
                        }
                    }
                }
                r
            },
            _ => {
                proof {
                    assert(responses_ran(layers, seq![q], seq![first]));
                }
                a
            },
        }
    }

    /// Runs a tool call through the layers. Each has its turn at what the one before it
    /// left.
    pub fn run_on_tool_call(&self, call: &mut ToolCall) -> (r: Result<MiddlewareAction>)
        ensures
            exists|qs: Seq<&mut ToolCall>, acts: Seq<Result<MiddlewareAction>>|
                {
                    &&& #[trigger] tool_calls_ran(self@, qs, acts)
                    &&& settles(acts, self@.len(), r)
                    &&& qs.len() == 0 ==> *final(call) == *old(call)
                    &&& qs.len() > 0 ==> *qs[0] == *old(call) && *final(qs[qs.len() - 1]) == *final(call)
                    &&& forall|i: int| 0 < i < qs.len() ==> *(#[trigger] qs[i]) == *final(qs[i - 1])
                },
    {
        assert(self@.skip(0) =~= self@);
        self.tool_call_from(0, call)
    }

    fn tool_call_from(&self, i: usize, call: &mut ToolCall) -> (r: Result<MiddlewareAction>)
        requires
            i <= self@.len(),
        ensures
            exists|qs: Seq<&mut ToolCall>, acts: Seq<Result<MiddlewareAction>>|
                {
                    &&& #[trigger] tool_calls_ran(self@.skip(i as int), qs, acts)
                    &&& settles(acts, self@.skip(i as int).len(), r)
                    &&& qs.len() == 0 ==> *final(call) == *old(call)
                    &&& qs.len() > 0 ==> *qs[0] == *old(call) && *final(qs[qs.len() - 1]) == *final(call)
                    &&& forall|i: int| 0 < i < qs.len() ==> *(#[trigger] qs[i]) == *final(qs[i - 1])
                },
        decreases self@.len() - i,
    {
        let ghost layers = self@.skip(i as int);
        if i >= self.layers.len() {
            assert(tool_calls_ran(layers, Seq::empty(), Seq::empty()));
            return Ok(MiddlewareAction::Continue);
        }
        let a = self.layers[i].hooks.on_tool_call_erased(call);
        let ghost q = choose|q: &mut ToolCall|
            {
                &&& *q == *old(call)
                &&& *final(q) == *call
                &&& #[trigger] layers[0].hooks.tool_call_hook(q, a)
            };
        let ghost first = a;
        assert(layers.skip(1) =~= self@.skip(i + 1));
        match a {
            Ok(MiddlewareAction::Continue) => {
                let r = self.tool_call_from(i + 1, call);
                proof {
                    let (qs, acts) = choose|
                        qs: Seq<&mut ToolCall>,
                        acts: Seq<Result<MiddlewareAction>>,
                    |
                        {
                            &&& #[trigger] tool_calls_ran(layers.skip(1), qs, acts)
                            &&& settles(acts, layers.skip(1).len(), r)
                            &&& qs.len() == 0 ==> *call == *final(q)
                            &&& qs.len() > 0 ==> *qs[0] == *final(q) && *final(qs[qs.len() - 1])
                                == *call
                            &&& forall|i: int|
                                0 < i < qs.len() ==> *(#[trigger] qs[i]) == *final(qs[i - 1])
                        };
                    let all = seq![q] + qs;
                    let came = seq![first] + acts;
                    assert forall|j: int| 0 <= j < all.len() implies #[trigger]
                        layers[j].hooks.tool_call_hook(all[j], came[j]) by {
                        if j > 0 {
                            assert(layers.skip(1)[j - 1].hooks.tool_call_hook(qs[j - 1], acts[j - 1]));
                        }
                    }
                    assert(tool_calls_ran(layers, all, came));
                    assert forall|j: int| 0 <= j < came.len() - 1 implies goes_on(
                        #[trigger] came[j],
                    ) by {
                        if j > 0 {
                            assert(goes_on(acts[j - 1]));
                        }
                    }
                    assert forall|j: int| 0 < j < all.len() implies *(#[trigger] all[j])
                        == *final(all[j - 1]) by {
                        if j > 1 {
                            assert(*qs[j - 1] == *final(qs[j - 2]));
                        }
                    }
                }
                r
            },
            _ => {
                proof {
                    assert(tool_calls_ran(layers, seq![q], seq![first]));
                }
                a
            },
        }
    }
}

impl Default for MiddlewareStack {
    fn default() -> (r: Self)
        ensures
            r@ == Seq::<SharedMiddleware>::empty(),
    {
        MiddlewareStack::new()
    }
}

impl Clone for MiddlewareStack {
    /// A stack of the same layers, which both then hold.
    fn clone(&self) -> (r: Self)
        ensures
            r@ == self@,
    {
        let mut layers: Vec<SharedMiddleware> = Vec::new();
        let mut i: usize = 0;
        while i < self.layers.len()
            invariant
                i <= self.layers@.len(),
                layers@ == self.layers@.take(i as int),
            decreases self.layers@.len() - i,
        {
            let layer = self.layers[i].clone();
            layers.push(layer);
            i += 1;
            assert(layers@ =~= self.layers@.take(i as int));
        }
        assert(layers@ =~= self.layers@);
        MiddlewareStack { layers }
    }
}

// ---------------------------------------------------------------------
// Laws
// ---------------------------------------------------------------------

/// A stack that began empty is empty until a layer is added, in whichever way.
pub proof fn stacks_are_empty_until_added(added: Seq<SharedMiddleware>)
    ensures
        (Seq::<SharedMiddleware>::empty() + added).len() == 0 <==> added.len() == 0,
        forall|mw: SharedMiddleware| (#[trigger] added.push(mw)).len() > 0,
{
}

/// Whether two layers act alike on everything.
pub open spec fn act_alike(a: SharedMiddleware, b: SharedMiddleware) -> bool {
    &&& forall|q: &mut ChatRequest, r: Result<MiddlewareAction>| #[trigger]
        a.hooks.request_hook(q, r) == b.hooks.request_hook(q, r)
    &&& forall|q: &mut ChatResponse, r: Result<MiddlewareAction>| #[trigger]
        a.hooks.response_hook(q, r) == b.hooks.response_hook(q, r)
    &&& forall|q: &mut ToolCall, r: Result<MiddlewareAction>| #[trigger]
        a.hooks.tool_call_hook(q, r) == b.hooks.tool_call_hook(q, r)
}

/// Adding a layer itself and adding it shared come to the same: both stacks then
/// act alike on every request, response and tool call.
pub proof fn shared_layers_act_as_pushed<M: Middleware>(
    layers: Seq<SharedMiddleware>,
    mw: M,
    pushed: SharedMiddleware,
    shared: SharedMiddleware,
)
    requires
        acts_as(*pushed, mw),
        acts_as(*shared, mw),
    ensures
        act_alike(pushed, shared),
        forall|qs: Seq<&mut ChatRequest>, acts: Seq<Result<MiddlewareAction>>| #[trigger]
            requests_ran(layers.push(pushed), qs, acts) == requests_ran(
                layers.push(shared),
                qs,
                acts,
            ),
        forall|qs: Seq<&mut ChatResponse>, acts: Seq<Result<MiddlewareAction>>| #[trigger]
            responses_ran(layers.push(pushed), qs, acts) == responses_ran(
                layers.push(shared),
                qs,
                acts,
            ),
        forall|qs: Seq<&mut ToolCall>, acts: Seq<Result<MiddlewareAction>>| #[trigger]
            tool_calls_ran(layers.push(pushed), qs, acts) == tool_calls_ran(
                layers.push(shared),
                qs,
                acts,
            ),
{
    let a = layers.push(pushed);
    let b = layers.push(shared);
    assert forall|i: int| 0 <= i < a.len() implies act_alike(#[trigger] a[i], b[i]) by {
        if i < layers.len() {
            assert(a[i] == layers[i] && b[i] == layers[i]);
        }
    }
    lemma_alike(a, b);
    lemma_alike(b, a);
}

proof fn lemma_alike(a: Seq<SharedMiddleware>, b: Seq<SharedMiddleware>)
    requires
        a.len() == b.len(),
        forall|i: int| 0 <= i < a.len() ==> act_alike(#[trigger] a[i], b[i]),
    ensures
        forall|qs: Seq<&mut ChatRequest>, acts: Seq<Result<MiddlewareAction>>| #[trigger]
            requests_ran(a, qs, acts) ==> requests_ran(b, qs, acts),
        forall|qs: Seq<&mut ChatResponse>, acts: Seq<Result<MiddlewareAction>>| #[trigger]
            responses_ran(a, qs, acts) ==> responses_ran(b, qs, acts),
        forall|qs: Seq<&mut ToolCall>, acts: Seq<Result<MiddlewareAction>>| #[trigger]
            tool_calls_ran(a, qs, acts) ==> tool_calls_ran(b, qs, acts),
{
    assert forall|qs: Seq<&mut ChatRequest>, acts: Seq<Result<MiddlewareAction>>| #[trigger]
        requests_ran(a, qs, acts) implies requests_ran(b, qs, acts) by {
        assert forall|i: int| 0 <= i < qs.len() implies #[trigger] b[i].hooks.request_hook(
            qs[i],
            acts[i],
        ) by {
            assert(act_alike(a[i], b[i]));
            assert(a[i].hooks.request_hook(qs[i], acts[i]));
        }
    }
    assert forall|qs: Seq<&mut ChatResponse>, acts: Seq<Result<MiddlewareAction>>| #[trigger]
        responses_ran(a, qs, acts) implies responses_ran(b, qs, acts) by {
        assert forall|i: int| 0 <= i < qs.len() implies #[trigger] b[i].hooks.response_hook(
            qs[i],
            acts[i],
        ) by {
            assert(act_alike(a[i], b[i]));
            assert(a[i].hooks.response_hook(qs[i], acts[i]));
        }
    }
    assert forall|qs: Seq<&mut ToolCall>, acts: Seq<Result<MiddlewareAction>>| #[trigger]
        tool_calls_ran(a, qs, acts) implies tool_calls_ran(b, qs, acts) by {
        assert forall|i: int| 0 <= i < qs.len() implies #[trigger] b[i].hooks.tool_call_hook(
            qs[i],
            acts[i],
        ) by {
            assert(act_alike(a[i], b[i]));
            assert(a[i].hooks.tool_call_hook(qs[i], acts[i]));
        }
    }
}

/// A layer that never goes on ends the chain: no layer behind it has a turn at a
/// request, and what comes out is its own action, or that of an earlier layer that did
/// not go on either.
pub proof fn short_circuits_settle_requests(
    layers: Seq<SharedMiddleware>,
    qs: Seq<&mut ChatRequest>,
    acts: Seq<Result<MiddlewareAction>>,
    r: Result<MiddlewareAction>,
    k: int,
)
    requires
        requests_ran(layers, qs, acts),
        settles(acts, layers.len(), r),
        0 <= k < layers.len(),
        forall|q: &mut ChatRequest, a: Result<MiddlewareAction>| #[trigger]
            layers[k].hooks.request_hook(q, a) ==> !goes_on(a),
    ensures
        0 < acts.len() <= k + 1,
        r == acts.last(),
        layers[acts.len() - 1].hooks.request_hook(qs.last(), r),
        !goes_on(r),
{
    if acts.len() > k {
        assert(layers[k].hooks.request_hook(qs[k], acts[k]));
    }
    assert(layers[acts.len() - 1].hooks.request_hook(qs[acts.len() - 1], acts[acts.len() - 1]));
}

/// The first layer that does not go on decides, and every layer before it had its
/// turn and went on. If all go on, so does the chain.
pub proof fn first_action_decides_requests(
    layers: Seq<SharedMiddleware>,
    qs: Seq<&mut ChatRequest>,
    acts: Seq<Result<MiddlewareAction>>,
    r: Result<MiddlewareAction>,
)
    requires
        requests_ran(layers, qs, acts),
        settles(acts, layers.len(), r),
    ensures
        goes_on(r) ==> acts.len() == layers.len() && forall|i: int|
            0 <= i < acts.len() ==> goes_on(#[trigger] acts[i]),
        !goes_on(r) ==> acts.len() > 0 && layers[acts.len() - 1].hooks.request_hook(qs.last(), r)
            && forall|i: int| 0 <= i < acts.len() - 1 ==> goes_on(#[trigger] acts[i]),
{
    if acts.len() > 0 {
        assert(layers[acts.len() - 1].hooks.request_hook(qs[acts.len() - 1], acts[acts.len() - 1]));
    }
}

/// Layers that all pass leave a request as it was and let the call go on.
pub proof fn passing_layers_keep_requests(
    layers: Seq<SharedMiddleware>,
    qs: Seq<&mut ChatRequest>,
    acts: Seq<Result<MiddlewareAction>>,
    from: ChatRequest,
    to: ChatRequest,
    r: Result<MiddlewareAction>,
)
    requires
        requests_ran(layers, qs, acts),
        settles(acts, layers.len(), r),
        qs.len() == 0 ==> to == from,
        qs.len() > 0 ==> *qs[0] == from && *final(qs[qs.len() - 1]) == to,
        forall|i: int| 0 < i < qs.len() ==> *(#[trigger] qs[i]) == *final(qs[i - 1]),
        forall|i: int, q: &mut ChatRequest, a: Result<MiddlewareAction>|
            0 <= i < layers.len() && #[trigger] layers[i].hooks.request_hook(q, a) ==> *final(q) == *q
                && goes_on(a),
    ensures
        to == from,
        goes_on(r),
        acts.len() == layers.len(),
{
    assert forall|i: int| 0 <= i < qs.len() implies *final(#[trigger] qs[i]) == from && goes_on(
        acts[i],
    ) by {
        lemma_kept_requests(layers, qs, acts, from, i);
    }
}

proof fn lemma_kept_requests(
    layers: Seq<SharedMiddleware>,
    qs: Seq<&mut ChatRequest>,
    acts: Seq<Result<MiddlewareAction>>,
    from: ChatRequest,
    i: int,
)
    requires
        requests_ran(layers, qs, acts),
        0 <= i < qs.len(),
        *qs[0] == from,
        forall|i: int| 0 < i < qs.len() ==> *(#[trigger] qs[i]) == *final(qs[i - 1]),
        forall|i: int, q: &mut ChatRequest, a: Result<MiddlewareAction>|
            0 <= i < layers.len() && #[trigger] layers[i].hooks.request_hook(q, a) ==> *final(q) == *q
                && goes_on(a),
    ensures
        *final(qs[i]) == from,
        goes_on(acts[i]),
    decreases i,
{
    assert(layers[i].hooks.request_hook(qs[i], acts[i]));
    if i > 0 {
        lemma_kept_requests(layers, qs, acts, from, i - 1);
    }
}

/// A layer that never goes on ends the chain: no layer behind it has a turn at a
/// response, and what comes out is its own action, or that of an earlier layer that did
/// not go on either.
pub proof fn short_circuits_settle_responses(
    layers: Seq<SharedMiddleware>,
    qs: Seq<&mut ChatResponse>,
    acts: Seq<Result<MiddlewareAction>>,
    r: Result<MiddlewareAction>,
    k: int,
)
    requires
        responses_ran(layers, qs, acts),
        settles(acts, layers.len(), r),
        0 <= k < layers.len(),
        forall|q: &mut ChatResponse, a: Result<MiddlewareAction>| #[trigger]
            layers[k].hooks.response_hook(q, a) ==> !goes_on(a),
    ensures
        0 < acts.len() <= k + 1,
        r == acts.last(),
        layers[acts.len() - 1].hooks.response_hook(qs.last(), r),
        !goes_on(r),
{
    if acts.len() > k {
        assert(layers[k].hooks.response_hook(qs[k], acts[k]));
    }
    assert(layers[acts.len() - 1].hooks.response_hook(qs[acts.len() - 1], acts[acts.len() - 1]));
}

/// The first layer that does not go on decides, and every layer before it had its
/// turn and went on. If all go on, so does the chain.
pub proof fn first_action_decides_responses(
    layers: Seq<SharedMiddleware>,
    qs: Seq<&mut ChatResponse>,
    acts: Seq<Result<MiddlewareAction>>,
    r: Result<MiddlewareAction>,
)
    requires
        responses_ran(layers, qs, acts),
        settles(acts, layers.len(), r),
    ensures
        goes_on(r) ==> acts.len() == layers.len() && forall|i: int|
            0 <= i < acts.len() ==> goes_on(#[trigger] acts[i]),
        !goes_on(r) ==> acts.len() > 0 && layers[acts.len() - 1].hooks.response_hook(qs.last(), r)
            && forall|i: int| 0 <= i < acts.len() - 1 ==> goes_on(#[trigger] acts[i]),
{
    if acts.len() > 0 {
        assert(layers[acts.len() - 1].hooks.response_hook(qs[acts.len() - 1], acts[acts.len() - 1]));
    }
}

/// Layers that all pass leave a response as it was and let the call go on.
pub proof fn passing_layers_keep_responses(
    layers: Seq<SharedMiddleware>,
    qs: Seq<&mut ChatResponse>,
    acts: Seq<Result<MiddlewareAction>>,
    from: ChatResponse,
    to: ChatResponse,
    r: Result<MiddlewareAction>,
)
    requires
        responses_ran(layers, qs, acts),
        settles(acts, layers.len(), r),
        qs.len() == 0 ==> to == from,
        qs.len() > 0 ==> *qs[0] == from && *final(qs[qs.len() - 1]) == to,
        forall|i: int| 0 < i < qs.len() ==> *(#[trigger] qs[i]) == *final(qs[i - 1]),
        forall|i: int, q: &mut ChatResponse, a: Result<MiddlewareAction>|
            0 <= i < layers.len() && #[trigger] layers[i].hooks.response_hook(q, a) ==> *final(q) == *q
                && goes_on(a),
    ensures
        to == from,
        goes_on(r),
        acts.len() == layers.len(),
{
    assert forall|i: int| 0 <= i < qs.len() implies *final(#[trigger] qs[i]) == from && goes_on(
        acts[i],
    ) by {
        lemma_kept_responses(layers, qs, acts, from, i);
    }
}

proof fn lemma_kept_responses(
    layers: Seq<SharedMiddleware>,
    qs: Seq<&mut ChatResponse>,
    acts: Seq<Result<MiddlewareAction>>,
    from: ChatResponse,
    i: int,
)
    requires
        responses_ran(layers, qs, acts),
        0 <= i < qs.len(),
        *qs[0] == from,
        forall|i: int| 0 < i < qs.len() ==> *(#[trigger] qs[i]) == *final(qs[i - 1]),
        forall|i: int, q: &mut ChatResponse, a: Result<MiddlewareAction>|
            0 <= i < layers.len() && #[trigger] layers[i].hooks.response_hook(q, a) ==> *final(q) == *q
                && goes_on(a),
    ensures
        *final(qs[i]) == from,
        goes_on(acts[i]),
    decreases i,
{
    assert(layers[i].hooks.response_hook(qs[i], acts[i]));
    if i > 0 {
        lemma_kept_responses(layers, qs, acts, from, i - 1);
    }
}

/// A layer that never goes on ends the chain: no layer behind it has a turn at a
/// tool call, and what comes out is its own action, or that of an earlier layer that did
/// not go on either.
pub proof fn short_circuits_settle_tool_calls(
    layers: Seq<SharedMiddleware>,
    qs: Seq<&mut ToolCall>,
    acts: Seq<Result<MiddlewareAction>>,
    r: Result<MiddlewareAction>,
    k: int,
)
    requires
        tool_calls_ran(layers, qs, acts),
        settles(acts, layers.len(), r),
        0 <= k < layers.len(),
        forall|q: &mut ToolCall, a: Result<MiddlewareAction>| #[trigger]
            layers[k].hooks.tool_call_hook(q, a) ==> !goes_on(a),
    ensures
        0 < acts.len() <= k + 1,
        r == acts.last(),
        layers[acts.len() - 1].hooks.tool_call_hook(qs.last(), r),
        !goes_on(r),
{
    if acts.len() > k {
        assert(layers[k].hooks.tool_call_hook(qs[k], acts[k]));
    }
    assert(layers[acts.len() - 1].hooks.tool_call_hook(qs[acts.len() - 1], acts[acts.len() - 1]));
}

/// The first layer that does not go on decides, and every layer before it had its
/// turn and went on. If all go on, so does the chain.
pub proof fn first_action_decides_tool_calls(
    layers: Seq<SharedMiddleware>,
    qs: Seq<&mut ToolCall>,
    acts: Seq<Result<MiddlewareAction>>,
    r: Result<MiddlewareAction>,
)
    requires
        tool_calls_ran(layers, qs, acts),
        settles(acts, layers.len(), r),
    ensures
        goes_on(r) ==> acts.len() == layers.len() && forall|i: int|
            0 <= i < acts.len() ==> goes_on(#[trigger] acts[i]),
        !goes_on(r) ==> acts.len() > 0 && layers[acts.len() - 1].hooks.tool_call_hook(qs.last(), r)
            && forall|i: int| 0 <= i < acts.len() - 1 ==> goes_on(#[trigger] acts[i]),
{
    if acts.len() > 0 {
        assert(layers[acts.len() - 1].hooks.tool_call_hook(qs[acts.len() - 1], acts[acts.len() - 1]));
    }
}

/// Layers that all pass leave a tool call as it was and let the call go on.
pub proof fn passing_layers_keep_tool_calls(
    layers: Seq<SharedMiddleware>,
    qs: Seq<&mut ToolCall>,
    acts: Seq<Result<MiddlewareAction>>,
    from: ToolCall,
    to: ToolCall,
    r: Result<MiddlewareAction>,
)
    requires
        tool_calls_ran(layers, qs, acts),
        settles(acts, layers.len(), r),
        qs.len() == 0 ==> to == from,
        qs.len() > 0 ==> *qs[0] == from && *final(qs[qs.len() - 1]) == to,
        forall|i: int| 0 < i < qs.len() ==> *(#[trigger] qs[i]) == *final(qs[i - 1]),
        forall|i: int, q: &mut ToolCall, a: Result<MiddlewareAction>|
            0 <= i < layers.len() && #[trigger] layers[i].hooks.tool_call_hook(q, a) ==> *final(q) == *q
                && goes_on(a),
    ensures
        to == from,
        goes_on(r),
        acts.len() == layers.len(),
{
    assert forall|i: int| 0 <= i < qs.len() implies *final(#[trigger] qs[i]) == from && goes_on(
        acts[i],
    ) by {
        lemma_kept_tool_calls(layers, qs, acts, from, i);
    }
}

proof fn lemma_kept_tool_calls(
    layers: Seq<SharedMiddleware>,
    qs: Seq<&mut ToolCall>,
    acts: Seq<Result<MiddlewareAction>>,
    from: ToolCall,
    i: int,
)
    requires
        tool_calls_ran(layers, qs, acts),
        0 <= i < qs.len(),
        *qs[0] == from,
        forall|i: int| 0 < i < qs.len() ==> *(#[trigger] qs[i]) == *final(qs[i - 1]),
        forall|i: int, q: &mut ToolCall, a: Result<MiddlewareAction>|
            0 <= i < layers.len() && #[trigger] layers[i].hooks.tool_call_hook(q, a) ==> *final(q) == *q
                && goes_on(a),
    ensures
        *final(qs[i]) == from,
        goes_on(acts[i]),
    decreases i,
{
    assert(layers[i].hooks.tool_call_hook(qs[i], acts[i]));
    if i > 0 {
        lemma_kept_tool_calls(layers, qs, acts, from, i - 1);
    }
}

/// Only a layer that says so lets the next one have its turn: one that fails or answers
/// itself ends the chain, and one that goes on does not.
pub proof fn only_going_on_goes_on(
    acts: Seq<Result<MiddlewareAction>>,
    n: nat,
    r: Result<MiddlewareAction>,
)
    requires
        settles(acts, n, r),
    ensures
        forall|i: int|
            0 <= i < acts.len() - 1 ==> (#[trigger] acts[i] matches Ok(MiddlewareAction::Continue)),
        acts.len() < n ==> acts.len() > 0 && !(acts.last() matches Ok(MiddlewareAction::Continue)),
        acts.len() == n && acts.len() > 0 ==> r == acts.last(),
        n == 0 ==> (r matches Ok(MiddlewareAction::Continue)),
{
}

} // verus!
