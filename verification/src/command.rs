//! Lifecycle hooks for chains of commands.
//!
//! A command is a single unit of work exposing three hooks: `pre_run`, `run`
//! and `post_run`, and may delegate to exactly one successor. The engine in
//! this module drives a chain of such nodes with a strict ordering and
//! failure-propagation discipline:
//!
//! - `pre_run` and `run` fire root-to-leaf, in order;
//! - `post_run` fires leaf-to-root, and only if everything beneath the node
//!   (its own `pre_run` and `run`, and the entire subtree) succeeded;
//! - the first failure anywhere aborts the traversal immediately and is
//!   propagated unchanged; no `post_run` hook runs after a failure. This "no
//!   cleanup on partial failure" policy is deliberate.
//!
//! The ordering logic is verified twice over: once as [`run_plan`], a runner
//! over a chain whose hook outcomes are prescribed as data, whose trace of
//! invocations is pinned down exactly by [`chain_trace`] and [`chain_result`];
//! and once as a step machine ([`engine_step`]) that an unverified driver can
//! consult one decision at a time while invoking real hooks, including
//! asynchronous ones.

use vstd::prelude::*;

verus! {

/// An error raised by a lifecycle hook. The engine propagates the first such
/// error unchanged and runs no further hooks.
#[derive(Debug)]
pub struct Error {
    pub message: String,
}

impl Clone for Error {
    fn clone(&self) -> (r: Self)
        ensures
            r == *self,
    {
        let r = Error { message: self.message.clone() };
        assert(r == *self);
        r
    }
}

/// The base structure for commands.
///
/// The default implementations are no-ops and allow for commands to implement
/// only what they need: parent commands typically implement `pre_run` and
/// `post_run`, leaf commands implement `run`.
pub trait Command {
    /// Performs any setup required before the command is run.
    fn pre_run(&self) -> Result<(), Error> {
        Ok(())
    }

    /// Execution of the command.
    fn run(&self) -> Result<(), Error> {
        Ok(())
    }

    /// Performs any cleanup required after the command is run.
    fn post_run(&self) -> Result<(), Error> {
        Ok(())
    }
}

/// Allows commands to optionally contain subcommands.
pub trait Container {
    /// Optionally returns the next command to be run.
    fn next(&self) -> Option<&dyn Command> {
        None
    }
}

/// Which lifecycle hook was invoked.
#[derive(Debug, Clone, Copy, PartialEq, Eq, Structural)]
pub enum Hook {
    Pre,
    Run,
    Post,
}

/// One observed hook invocation: hook `hook` on the node at position `node`.
#[derive(Debug, Clone, Copy, PartialEq, Eq, Structural)]
pub struct Call {
    pub node: usize,
    pub hook: Hook,
}

/// One node of a chain with prescribed hook outcomes: `None` means the hook
/// succeeds, `Some(e)` means it fails with `e`.
#[derive(Debug)]
pub struct NodePlan {
    pub pre: Option<Error>,
    pub run: Option<Error>,
    pub post: Option<Error>,
}

/// The outcome of one hook, as a result.
pub open spec fn hook_outcome(o: Option<Error>) -> Result<(), Error> {
    match o {
        Some(e) => Err(e),
        None => Ok(()),
    }
}

/// The overall result of driving the chain from node `i` on: the first
/// failure among `pre`, `run`, the subtree, and finally this node's `post`.
pub open spec fn chain_result(chain: Seq<NodePlan>, i: int) -> Result<(), Error>
    decreases chain.len() - i,
{
    if i < 0 || i >= chain.len() {
        Ok(())
    } else if chain[i].pre is Some {
        Err(chain[i].pre->0)
    } else if chain[i].run is Some {
        Err(chain[i].run->0)
    } else if i + 1 < chain.len() && chain_result(chain, i + 1) is Err {
        chain_result(chain, i + 1)
    } else {
        hook_outcome(chain[i].post)
    }
}

/// The exact sequence of hook invocations made when driving the chain from
/// node `i` on. A hook that fails is still invoked (it appears in the trace);
/// nothing after it is.
pub open spec fn chain_trace(chain: Seq<NodePlan>, i: int) -> Seq<Call>
    decreases chain.len() - i,
{
    if i < 0 || i >= chain.len() {
        Seq::empty()
    } else {
        let pre_call = seq![Call { node: i as usize, hook: Hook::Pre }];
        if chain[i].pre is Some {
            pre_call
        } else {
            let run_call = pre_call + seq![Call { node: i as usize, hook: Hook::Run }];
            if chain[i].run is Some {
                run_call
            } else {
                let below = run_call + chain_trace(chain, i + 1);
                if i + 1 < chain.len() && chain_result(chain, i + 1) is Err {
                    below
                } else {
                    below + seq![Call { node: i as usize, hook: Hook::Post }]
                }
            }
        }
    }
}

/// Drives the chain from node `i` on, recording every hook invocation in
/// `trace`, and returns the first failure, if any, unchanged.
pub fn run_plan_from(chain: &Vec<NodePlan>, i: usize, trace: &mut Vec<Call>) -> (r: Result<
    (),
    Error,
>)
    requires
        i < chain@.len(),
    ensures
        final(trace)@ == old(trace)@ + chain_trace(chain@, i as int),
        r == chain_result(chain@, i as int),
    decreases chain@.len() - i,
{
    trace.push(Call { node: i, hook: Hook::Pre });
    match &chain[i].pre {
        Some(e) => {
            assert(trace@ =~= old(trace)@ + chain_trace(chain@, i as int));
            return Err(e.clone());
        },
        None => {},
    }
    trace.push(Call { node: i, hook: Hook::Run });
    match &chain[i].run {
        Some(e) => {
            assert(trace@ =~= old(trace)@ + chain_trace(chain@, i as int));
            return Err(e.clone());
        },
        None => {},
    }
    let n = chain.len();
    if i < n - 1 {
        let sub = run_plan_from(chain, i + 1, trace);
        match sub {
            Err(e) => {
                assert(trace@ =~= old(trace)@ + chain_trace(chain@, i as int));
                return Err(e);
            },
            Ok(_) => {},
        }
    }
    trace.push(Call { node: i, hook: Hook::Post });
    assert(trace@ =~= old(trace)@ + chain_trace(chain@, i as int));
    match &chain[i].post {
        Some(e) => Err(e.clone()),
        None => Ok(()),
    }
}

/// Drives a whole chain of prescribed nodes and returns the trace of hook
/// invocations together with the overall result.
pub fn run_plan(chain: &Vec<NodePlan>) -> (r: (Vec<Call>, Result<(), Error>))
    ensures
        r.0@ == chain_trace(chain@, 0),
        r.1 == chain_result(chain@, 0),
{
    let mut trace: Vec<Call> = Vec::new();
    if chain.len() == 0 {
        assert(trace@ =~= chain_trace(chain@, 0));
        return (trace, Ok(()));
    }
    let result = run_plan_from(chain, 0, &mut trace);
    (trace, result)
}

/// The invocations made while descending a fully successful chain of length
/// `n`, starting at node `i`: `pre` then `run` of every node, in order.
pub open spec fn descend_calls(n: int, i: int) -> Seq<Call>
    decreases n - i,
{
    if i < 0 || i >= n {
        Seq::empty()
    } else {
        seq![
            Call { node: i as usize, hook: Hook::Pre },
            Call { node: i as usize, hook: Hook::Run },
        ] + descend_calls(n, i + 1)
    }
}

/// The invocations made while unwinding a fully successful chain of length
/// `n` back up to node `i`: `post` of every node, leaf first.
pub open spec fn unwind_calls(n: int, i: int) -> Seq<Call>
    decreases n - i,
{
    if i < 0 || i >= n {
        Seq::empty()
    } else {
        unwind_calls(n, i + 1) + seq![Call { node: i as usize, hook: Hook::Post }]
    }
}

proof fn lemma_success_order_from(chain: Seq<NodePlan>, i: int)
    requires
        0 <= i <= chain.len(),
        forall|j: int| i <= j < chain.len() ==> (#[trigger] chain[j]).pre is None && chain[j].run
            is None && chain[j].post is None,
    ensures
        chain_result(chain, i) is Ok,
        chain_trace(chain, i) == descend_calls(chain.len() as int, i) + unwind_calls(
            chain.len() as int,
            i,
        ),
    decreases chain.len() - i,
{
    let n = chain.len() as int;
    if i >= n {
        assert(chain_trace(chain, i) =~= descend_calls(n, i) + unwind_calls(n, i));
    } else {
        lemma_success_order_from(chain, i + 1);
        assert(chain[i].pre is None && chain[i].run is None && chain[i].post is None);
        assert(chain_trace(chain, i) =~= descend_calls(n, i) + unwind_calls(n, i));
    }
}

/// When every hook of every node succeeds, the traversal succeeds and the
/// observed call order is exactly `pre` and `run` root-to-leaf, followed by
/// `post` leaf-to-root.
pub proof fn lemma_success_order(chain: Seq<NodePlan>)
    requires
        forall|j: int| 0 <= j < chain.len() ==> (#[trigger] chain[j]).pre is None && chain[j].run
            is None && chain[j].post is None,
    ensures
        chain_result(chain, 0) is Ok,
        chain_trace(chain, 0) == descend_calls(chain.len() as int, 0) + unwind_calls(
            chain.len() as int,
            0,
        ),
{
    lemma_success_order_from(chain, 0);
}

proof fn lemma_failure_from(chain: Seq<NodePlan>, k: int, i: int)
    requires
        0 <= i <= k < chain.len(),
        forall|j: int| i <= j < k ==> (#[trigger] chain[j]).pre is None && chain[j].run is None,
        chain[k].pre is Some || chain[k].run is Some,
    ensures
        chain[k].pre is Some ==> chain_result(chain, i) == Err::<(), Error>(chain[k].pre->0),
        chain[k].pre is None ==> chain_result(chain, i) == Err::<(), Error>(chain[k].run->0),
        forall|m: int| 0 <= m < chain_trace(chain, i).len() ==> (#[trigger] chain_trace(
            chain,
            i,
        )[m]).hook != Hook::Post,
    decreases k - i,
{
    if i == k {
        let t = chain_trace(chain, i);
        if chain[k].pre is Some {
            assert(t =~= seq![Call { node: i as usize, hook: Hook::Pre }]);
        } else {
            assert(t =~= seq![
                Call { node: i as usize, hook: Hook::Pre },
                Call { node: i as usize, hook: Hook::Run },
            ]);
        }
    } else {
        lemma_failure_from(chain, k, i + 1);
        assert(chain[i].pre is None && chain[i].run is None);
        assert(chain_result(chain, i + 1) is Err);
        let t = chain_trace(chain, i);
        let sub = chain_trace(chain, i + 1);
        assert(t =~= seq![
            Call { node: i as usize, hook: Hook::Pre },
            Call { node: i as usize, hook: Hook::Run },
        ] + sub);
        assert forall|m: int| 0 <= m < t.len() implies (#[trigger] t[m]).hook != Hook::Post by {
            if m >= 2 {
                assert(t[m] == sub[m - 2]);
            }
        }
    }
}

/// When node `k`'s `pre_run` or `run` fails and every node before it
/// succeeded that far, the traversal's overall result is exactly that
/// failure, and `post_run` is invoked on no node at all.
pub proof fn lemma_failure_suppresses_post(chain: Seq<NodePlan>, k: int)
    requires
        0 <= k < chain.len(),
        forall|j: int| 0 <= j < k ==> (#[trigger] chain[j]).pre is None && chain[j].run is None,
        chain[k].pre is Some || chain[k].run is Some,
    ensures
        chain[k].pre is Some ==> chain_result(chain, 0) == Err::<(), Error>(chain[k].pre->0),
        chain[k].pre is None ==> chain_result(chain, 0) == Err::<(), Error>(chain[k].run->0),
        forall|m: int| 0 <= m < chain_trace(chain, 0).len() ==> (#[trigger] chain_trace(
            chain,
            0,
        )[m]).hook != Hook::Post,
{
    lemma_failure_from(chain, k, 0);
}

/// A chain of a single node with all hooks succeeding executes exactly
/// `pre_run`, `run`, `post_run`, once each, in that order.
pub proof fn lemma_single_node_lifecycle(chain: Seq<NodePlan>)
    requires
        chain.len() == 1,
        chain[0].pre is None,
        chain[0].run is None,
        chain[0].post is None,
    ensures
        chain_result(chain, 0) is Ok,
        chain_trace(chain, 0) == seq![
            Call { node: 0usize, hook: Hook::Pre },
            Call { node: 0usize, hook: Hook::Run },
            Call { node: 0usize, hook: Hook::Post },
        ],
{
    assert(chain_result(chain, 1) is Ok);
    assert(chain_trace(chain, 1) =~= Seq::<Call>::empty());
    assert(chain_trace(chain, 0) =~= seq![
        Call { node: 0usize, hook: Hook::Pre },
        Call { node: 0usize, hook: Hook::Run },
        Call { node: 0usize, hook: Hook::Post },
    ]);
}

/// The engine's position in a traversal, between two hook invocations. Each
/// `Awaiting*` state names the node whose hook or successor query the driver
/// is currently carrying out.
#[derive(Debug, Clone, Copy, PartialEq, Eq, Structural)]
pub enum EngineState {
    AwaitingPre { node: usize },
    AwaitingRun { node: usize },
    AwaitingNext { node: usize },
    AwaitingPost { node: usize },
    Finished,
}

/// What the driver observed while carrying out the engine's last request.
#[derive(Debug)]
pub enum HookEvent {
    /// The requested hook returned without error.
    Succeeded,
    /// The requested hook failed with this error.
    Failed(Error),
    /// The queried node has a successor.
    ChildFound,
    /// The queried node has no successor.
    NoChild,
}

/// What the engine asks the driver to do next.
#[derive(Debug)]
pub enum EngineAction {
    InvokePre(usize),
    InvokeRun(usize),
    QueryNext(usize),
    InvokePost(usize),
    /// The traversal is over; this is its overall result.
    Stop(Result<(), Error>),
}

/// Whether `e` answers the request that state `s` is waiting on. The bound in
/// the `ChildFound` case only keeps the next node's position representable.
pub open spec fn event_fits(s: EngineState, e: HookEvent) -> bool {
    match s {
        EngineState::AwaitingPre { .. } => e is Succeeded || e is Failed,
        EngineState::AwaitingRun { .. } => e is Succeeded || e is Failed,
        EngineState::AwaitingPost { .. } => e is Succeeded || e is Failed,
        EngineState::AwaitingNext { node } => (e is ChildFound && node < usize::MAX)
            || e is NoChild,
        EngineState::Finished => false,
    }
}

/// The engine's transition function: from the current state and the driver's
/// observation to the next state and the next request.
pub open spec fn step_spec(s: EngineState, e: HookEvent) -> (EngineState, EngineAction) {
    match (s, e) {
        (EngineState::AwaitingPre { node }, HookEvent::Succeeded) => (
            EngineState::AwaitingRun { node },
            EngineAction::InvokeRun(node),
        ),
        (EngineState::AwaitingPre { .. }, HookEvent::Failed(err)) => (
            EngineState::Finished,
            EngineAction::Stop(Err(err)),
        ),
        (EngineState::AwaitingRun { node }, HookEvent::Succeeded) => (
            EngineState::AwaitingNext { node },
            EngineAction::QueryNext(node),
        ),
        (EngineState::AwaitingRun { .. }, HookEvent::Failed(err)) => (
            EngineState::Finished,
            EngineAction::Stop(Err(err)),
        ),
        (EngineState::AwaitingNext { node }, HookEvent::ChildFound) => (
            EngineState::AwaitingPre { node: (node + 1) as usize },
            EngineAction::InvokePre((node + 1) as usize),
        ),
        (EngineState::AwaitingNext { node }, HookEvent::NoChild) => (
            EngineState::AwaitingPost { node },
            EngineAction::InvokePost(node),
        ),
        (EngineState::AwaitingPost { node }, HookEvent::Succeeded) => {
            if node == 0 {
                (EngineState::Finished, EngineAction::Stop(Ok(())))
            } else {
                (
                    EngineState::AwaitingPost { node: (node - 1) as usize },
                    EngineAction::InvokePost((node - 1) as usize),
                )
            }
        },
        (EngineState::AwaitingPost { .. }, HookEvent::Failed(err)) => (
            EngineState::Finished,
            EngineAction::Stop(Err(err)),
        ),
        (_, _) => (EngineState::Finished, EngineAction::Stop(Ok(()))),
    }
}

/// The state and request with which every traversal begins: invoke `pre_run`
/// on the root.
pub fn engine_start() -> (r: (EngineState, EngineAction))
    ensures
        r.0 == (EngineState::AwaitingPre { node: 0usize }),
        r.1 == EngineAction::InvokePre(0usize),
{
    (EngineState::AwaitingPre { node: 0 }, EngineAction::InvokePre(0))
}

/// One engine decision. A driver performs the returned action (invoking a
/// hook or querying for a successor), reports what it observed, and calls
/// this again, until the action is `Stop`.
pub fn engine_step(s: EngineState, e: HookEvent) -> (r: (EngineState, EngineAction))
    requires
        event_fits(s, e),
    ensures
        r == step_spec(s, e),
{
    match (s, e) {
        (EngineState::AwaitingPre { node }, HookEvent::Succeeded) => (
            EngineState::AwaitingRun { node },
            EngineAction::InvokeRun(node),
        ),
        (EngineState::AwaitingPre { .. }, HookEvent::Failed(err)) => (
            EngineState::Finished,
            EngineAction::Stop(Err(err)),
        ),
        (EngineState::AwaitingRun { node }, HookEvent::Succeeded) => (
            EngineState::AwaitingNext { node },
            EngineAction::QueryNext(node),
        ),
        (EngineState::AwaitingRun { .. }, HookEvent::Failed(err)) => (
            EngineState::Finished,
            EngineAction::Stop(Err(err)),
        ),
        (EngineState::AwaitingNext { node }, HookEvent::ChildFound) => (
            EngineState::AwaitingPre { node: node + 1 },
            EngineAction::InvokePre(node + 1),
        ),
        (EngineState::AwaitingNext { node }, HookEvent::NoChild) => (
            EngineState::AwaitingPost { node },
            EngineAction::InvokePost(node),
        ),
        (EngineState::AwaitingPost { node }, HookEvent::Succeeded) => {
            if node == 0 {
                (EngineState::Finished, EngineAction::Stop(Ok(())))
            } else {
                (EngineState::AwaitingPost { node: node - 1 }, EngineAction::InvokePost(node - 1))
            }
        },
        (EngineState::AwaitingPost { .. }, HookEvent::Failed(err)) => (
            EngineState::Finished,
            EngineAction::Stop(Err(err)),
        ),
        (_, _) => (EngineState::Finished, EngineAction::Stop(Ok(()))),
    }
}

/// Whether `pre_run` and `run` succeed on every node before `k`.
pub open spec fn hooks_clear_to(chain: Seq<NodePlan>, k: int) -> bool {
    forall|j: int| 0 <= j < k ==> (#[trigger] chain[j]).pre is None && chain[j].run is None
}

/// Whether `post_run` succeeds on every node from `k` on.
pub open spec fn posts_clear_from(chain: Seq<NodePlan>, k: int) -> bool {
    forall|j: int| k <= j < chain.len() ==> (#[trigger] chain[j]).post is None
}

/// The first failure among the `post_run` hooks of nodes `i` down to the
/// root, in the order they unwind.
pub open spec fn posts_result(chain: Seq<NodePlan>, i: int) -> Result<(), Error>
    decreases i + 1,
{
    if i < 0 || i >= chain.len() {
        Ok(())
    } else if chain[i].post is Some {
        Err(chain[i].post->0)
    } else {
        posts_result(chain, i - 1)
    }
}

/// The `post_run` invocations made unwinding from node `i` toward the
/// root: leaf-to-root, cut short at the first failing hook.
pub open spec fn unwind_trace(chain: Seq<NodePlan>, i: int) -> Seq<Call>
    decreases i + 1,
{
    if i < 0 || i >= chain.len() {
        Seq::empty()
    } else if chain[i].post is Some {
        seq![Call { node: i as usize, hook: Hook::Post }]
    } else {
        seq![Call { node: i as usize, hook: Hook::Post }] + unwind_trace(chain, i - 1)
    }
}

proof fn lemma_descend_calls_snoc(n: int, j: int)
    requires
        0 <= j <= n,
    ensures
        descend_calls(n + 1, j) == descend_calls(n, j) + seq![
            Call { node: n as usize, hook: Hook::Pre },
            Call { node: n as usize, hook: Hook::Run },
        ],
    decreases n - j,
{
    if j == n {
        assert(descend_calls(n + 1, n + 1) =~= Seq::<Call>::empty());
        assert(descend_calls(n, n) =~= Seq::<Call>::empty());
        assert(descend_calls(n + 1, j) =~= descend_calls(n, j) + seq![
            Call { node: n as usize, hook: Hook::Pre },
            Call { node: n as usize, hook: Hook::Run },
        ]);
    } else {
        lemma_descend_calls_snoc(n, j + 1);
        assert(descend_calls(n + 1, j) =~= descend_calls(n, j) + seq![
            Call { node: n as usize, hook: Hook::Pre },
            Call { node: n as usize, hook: Hook::Run },
        ]);
    }
}

/// Looking at the whole traversal from partway down the descent: once every
/// node before `i` got through `pre_run` and `run`, the traversal is the
/// descent so far, then the traversal of the rest, then — only if the rest
/// succeeded — the ancestors' unwind; and its result is the rest's failure,
/// or else the first ancestor `post_run` failure.
proof fn lemma_descend_decompose(chain: Seq<NodePlan>, i: int)
    requires
        0 <= i <= chain.len(),
        hooks_clear_to(chain, i),
    ensures
        chain_trace(chain, 0) == descend_calls(i, 0) + chain_trace(chain, i) + (
        if chain_result(chain, i) is Ok {
            unwind_trace(chain, i - 1)
        } else {
            Seq::<Call>::empty()
        }),
        chain_result(chain, 0) == (if chain_result(chain, i) is Err {
            chain_result(chain, i)
        } else {
            posts_result(chain, i - 1)
        }),
    decreases i,
{
    if i == 0 {
        assert(chain_trace(chain, 0) =~= descend_calls(0, 0) + chain_trace(chain, 0)
            + Seq::<Call>::empty());
        assert(chain_trace(chain, 0) =~= descend_calls(0, 0) + chain_trace(chain, 0)
            + unwind_trace(chain, -1));
    } else {
        lemma_descend_decompose(chain, i - 1);
        lemma_descend_calls_snoc(i - 1, 0);
        assert(chain[i - 1].pre is None && chain[i - 1].run is None);
        let pr = seq![
            Call { node: (i - 1) as usize, hook: Hook::Pre },
            Call { node: (i - 1) as usize, hook: Hook::Run },
        ];
        // One node's slice of the traversal, given its own two descending
        // hooks succeed.
        if i == chain.len() {
            assert(chain_trace(chain, i) =~= Seq::<Call>::empty());
            assert(chain_result(chain, i) is Ok);
        }
        assert(chain_trace(chain, i - 1) =~= pr + chain_trace(chain, i) + (
        if chain_result(chain, i) is Ok {
            seq![Call { node: (i - 1) as usize, hook: Hook::Post }]
        } else {
            Seq::<Call>::empty()
        }));
        if chain_result(chain, i) is Ok {
            if chain[i - 1].post is Some {
                assert(unwind_trace(chain, i - 1) =~= seq![
                    Call { node: (i - 1) as usize, hook: Hook::Post },
                ]);
                assert(posts_result(chain, i - 1) == chain_result(chain, i - 1));
                assert(chain_trace(chain, 0) =~= descend_calls(i, 0) + chain_trace(chain, i)
                    + unwind_trace(chain, i - 1));
            } else {
                assert(unwind_trace(chain, i - 1) =~= seq![
                    Call { node: (i - 1) as usize, hook: Hook::Post },
                ] + unwind_trace(chain, i - 2));
                assert(chain_trace(chain, 0) =~= descend_calls(i, 0) + chain_trace(chain, i)
                    + unwind_trace(chain, i - 1));
            }
        } else {
            assert(chain_trace(chain, 0) =~= descend_calls(i, 0) + chain_trace(chain, i)
                + Seq::<Call>::empty());
        }
    }
}

/// Unwinding partway up: once every `post_run` above node `i` succeeded,
/// what remains of the unwind is the successful posts so far and then the
/// unwind from `i`; the overall post result is decided from `i` down.
proof fn lemma_unwind_prefix(chain: Seq<NodePlan>, i: int)
    requires
        -1 <= i < chain.len(),
        posts_clear_from(chain, i + 1),
    ensures
        unwind_trace(chain, chain.len() - 1) == unwind_calls(chain.len() as int, i + 1) + (
        if i >= 0 {
            unwind_trace(chain, i)
        } else {
            Seq::<Call>::empty()
        }),
        posts_result(chain, chain.len() - 1) == posts_result(chain, i),
    decreases chain.len() - i,
{
    let n = chain.len() as int;
    if i == n - 1 {
        assert(unwind_calls(n, n) =~= Seq::<Call>::empty());
        assert(unwind_calls(n, i + 1) == Seq::<Call>::empty());
        if i >= 0 {
            assert(unwind_trace(chain, n - 1) =~= unwind_calls(n, i + 1) + unwind_trace(chain, i));
        } else {
            assert(unwind_trace(chain, n - 1) =~= Seq::<Call>::empty());
            assert(unwind_trace(chain, n - 1) =~= unwind_calls(n, i + 1) + Seq::<Call>::empty());
        }
    } else {
        assert(chain[i + 1].post is None);
        lemma_unwind_prefix(chain, i + 1);
        if i >= 0 {
            assert(unwind_trace(chain, i + 1) =~= seq![
                Call { node: (i + 1) as usize, hook: Hook::Post },
            ] + unwind_trace(chain, i));
        } else {
            assert(unwind_trace(chain, -1) =~= Seq::<Call>::empty());
            assert(unwind_trace(chain, i + 1) =~= seq![
                Call { node: (i + 1) as usize, hook: Hook::Post },
            ] + Seq::<Call>::empty());
        }
        assert(unwind_calls(n, i + 1) =~= unwind_calls(n, i + 2) + seq![
            Call { node: (i + 1) as usize, hook: Hook::Post },
        ]);
        assert(unwind_trace(chain, n - 1) =~= unwind_calls(n, i + 1) + (
        if i >= 0 {
            unwind_trace(chain, i)
        } else {
            Seq::<Call>::empty()
        }));
    }
}

/// How many engine decisions are still ahead from a given state: the loop
/// measure of a driver.
pub open spec fn engine_measure(s: EngineState, n: int) -> int {
    match s {
        EngineState::AwaitingPre { node } => 4 * (n - node) + node + 3,
        EngineState::AwaitingRun { node } => 4 * (n - node) + node + 2,
        EngineState::AwaitingNext { node } => 4 * (n - node) + node + 1,
        EngineState::AwaitingPost { node } => node + 2,
        EngineState::Finished => 0,
    }
}

/// The traversal once more, this time one engine decision at a time: a
/// driver loop that performs each requested hook on the prescribed chain
/// and reports the outcome back to [`engine_step`]. It produces exactly the
/// trace and result of [`run_plan`] — the step machine realizes the same
/// semantics.
pub fn run_plan_stepped(chain: &Vec<NodePlan>) -> (r: (Vec<Call>, Result<(), Error>))
    ensures
        r.0@ == chain_trace(chain@, 0),
        r.1 == chain_result(chain@, 0),
{
    let n = chain.len();
    let mut trace: Vec<Call> = Vec::new();
    if n == 0 {
        assert(trace@ =~= chain_trace(chain@, 0));
        return (trace, Ok(()));
    }
    let (mut state, mut action) = engine_start();
    loop
        invariant
            n == chain@.len(),
            n >= 1,
            action matches EngineAction::InvokePre(i) ==> state == (EngineState::AwaitingPre {
                node: i,
            }) && i < n && hooks_clear_to(chain@, i as int) && trace@ == descend_calls(
                i as int,
                0,
            ),
            action matches EngineAction::InvokeRun(i) ==> state == (EngineState::AwaitingRun {
                node: i,
            }) && i < n && hooks_clear_to(chain@, i as int) && chain@[i as int].pre is None
                && trace@ == descend_calls(i as int, 0) + seq![
                Call { node: i, hook: Hook::Pre },
            ],
            action matches EngineAction::QueryNext(i) ==> state == (EngineState::AwaitingNext {
                node: i,
            }) && i < n && hooks_clear_to(chain@, i + 1) && trace@ == descend_calls(i + 1, 0),
            action matches EngineAction::InvokePost(i) ==> state == (EngineState::AwaitingPost {
                node: i,
            }) && i < n && hooks_clear_to(chain@, n as int) && posts_clear_from(chain@, i + 1)
                && trace@ == descend_calls(n as int, 0) + unwind_calls(n as int, i + 1),
            action matches EngineAction::Stop(res) ==> trace@ == chain_trace(chain@, 0) && res
                == chain_result(chain@, 0),
        decreases engine_measure(state, n as int),
    {
        let event: HookEvent = match action {
            EngineAction::InvokePre(i) => {
                trace.push(Call { node: i, hook: Hook::Pre });
                match &chain[i].pre {
                    Some(e) => HookEvent::Failed(e.clone()),
                    None => HookEvent::Succeeded,
                }
            },
            EngineAction::InvokeRun(i) => {
                trace.push(Call { node: i, hook: Hook::Run });
                match &chain[i].run {
                    Some(e) => HookEvent::Failed(e.clone()),
                    None => HookEvent::Succeeded,
                }
            },
            EngineAction::QueryNext(i) => {
                if i < n - 1 {
                    HookEvent::ChildFound
                } else {
                    HookEvent::NoChild
                }
            },
            EngineAction::InvokePost(i) => {
                trace.push(Call { node: i, hook: Hook::Post });
                match &chain[i].post {
                    Some(e) => HookEvent::Failed(e.clone()),
                    None => HookEvent::Succeeded,
                }
            },
            EngineAction::Stop(res) => {
                return (trace, res);
            },
        };
        proof {
            match state {
                EngineState::AwaitingPre { node } => {
                    lemma_descend_decompose(chain@, node as int);
                },
                EngineState::AwaitingRun { node } => {
                    lemma_descend_decompose(chain@, node as int);
                    if chain@[node as int].run is None {
                        lemma_descend_calls_snoc(node as int, 0);
                    }
                },
                EngineState::AwaitingPost { node } => {
                    lemma_descend_decompose(chain@, n as int);
                    lemma_unwind_prefix(chain@, node as int);
                    if chain@[node as int].post is None {
                        lemma_unwind_prefix(chain@, node - 1);
                    }
                },
                _ => {},
            }
        }
        let stepped = engine_step(state, event);
        state = stepped.0;
        action = stepped.1;
        proof {
            assert(action matches EngineAction::Stop(res) ==> trace@ =~= chain_trace(chain@, 0)
                && res == chain_result(chain@, 0));
            assert(action matches EngineAction::InvokeRun(i) ==> trace@ =~= descend_calls(
                i as int,
                0,
            ) + seq![Call { node: i, hook: Hook::Pre }]);
            assert(action matches EngineAction::QueryNext(i) ==> trace@ =~= descend_calls(
                i + 1,
                0,
            ));
            assert(action matches EngineAction::InvokePost(i) ==> trace@ =~= descend_calls(
                n as int,
                0,
            ) + unwind_calls(n as int, i + 1));
        }
    }
}

/// As soon as the driver reports any hook failure, the engine stops at once
/// with exactly that error: it requests no further hook, in particular no
/// `post_run`.
pub proof fn lemma_step_failure_stops(s: EngineState, e: HookEvent)
    requires
        event_fits(s, e),
        e is Failed,
    ensures
        step_spec(s, e).0 == EngineState::Finished,
        e matches HookEvent::Failed(err) ==> step_spec(s, e).1 == EngineAction::Stop(
            Err::<(), Error>(err),
        ),
{
}

} // verus!
