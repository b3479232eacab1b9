use cata::command::{
    engine_start, engine_step, run_plan, run_plan_stepped, Call, EngineAction, EngineState, Error,
    Hook, HookEvent, NodePlan,
};

fn ok_node() -> NodePlan {
    NodePlan { pre: None, run: None, post: None }
}

fn err(msg: &str) -> Option<Error> {
    Some(Error { message: msg.to_string() })
}

fn call(node: usize, hook: Hook) -> Call {
    Call { node, hook }
}

#[test]
fn all_success_order_three_nodes() {
    let chain = vec![ok_node(), ok_node(), ok_node()];
    let (trace, result) = run_plan(&chain);
    assert!(result.is_ok());
    assert_eq!(
        trace,
        vec![
            call(0, Hook::Pre),
            call(0, Hook::Run),
            call(1, Hook::Pre),
            call(1, Hook::Run),
            call(2, Hook::Pre),
            call(2, Hook::Run),
            call(2, Hook::Post),
            call(1, Hook::Post),
            call(0, Hook::Post),
        ]
    );
}

#[test]
fn single_node_runs_pre_run_post() {
    let chain = vec![ok_node()];
    let (trace, result) = run_plan(&chain);
    assert!(result.is_ok());
    assert_eq!(trace, vec![call(0, Hook::Pre), call(0, Hook::Run), call(0, Hook::Post)]);
}

#[test]
fn empty_chain_runs_nothing() {
    let chain: Vec<NodePlan> = vec![];
    let (trace, result) = run_plan(&chain);
    assert!(result.is_ok());
    assert!(trace.is_empty());
}

#[test]
fn pre_failure_suppresses_every_post() {
    let chain = vec![
        ok_node(),
        NodePlan { pre: err("boom"), run: None, post: None },
        ok_node(),
    ];
    let (trace, result) = run_plan(&chain);
    match result {
        Err(e) => assert_eq!(e.message, "boom"),
        Ok(()) => panic!("expected the pre_run failure to propagate"),
    }
    assert_eq!(
        trace,
        vec![call(0, Hook::Pre), call(0, Hook::Run), call(1, Hook::Pre)]
    );
    assert!(trace.iter().all(|c| c.hook != Hook::Post));
}

#[test]
fn run_failure_suppresses_every_post() {
    let chain = vec![
        ok_node(),
        NodePlan { pre: None, run: err("midway"), post: None },
    ];
    let (trace, result) = run_plan(&chain);
    match result {
        Err(e) => assert_eq!(e.message, "midway"),
        Ok(()) => panic!("expected the run failure to propagate"),
    }
    assert_eq!(
        trace,
        vec![call(0, Hook::Pre), call(0, Hook::Run), call(1, Hook::Pre), call(1, Hook::Run)]
    );
    assert!(trace.iter().all(|c| c.hook != Hook::Post));
}

#[test]
fn leaf_post_failure_suppresses_ancestor_posts() {
    let chain = vec![
        ok_node(),
        NodePlan { pre: None, run: None, post: err("cleanup failed") },
    ];
    let (trace, result) = run_plan(&chain);
    match result {
        Err(e) => assert_eq!(e.message, "cleanup failed"),
        Ok(()) => panic!("expected the post_run failure to propagate"),
    }
    // The leaf's post_run is invoked (and fails); the root's never runs.
    assert_eq!(
        trace,
        vec![
            call(0, Hook::Pre),
            call(0, Hook::Run),
            call(1, Hook::Pre),
            call(1, Hook::Run),
            call(1, Hook::Post),
        ]
    );
}

#[test]
fn stepped_runner_agrees_with_recursive_runner() {
    let chains = vec![
        vec![ok_node(), ok_node(), ok_node()],
        vec![ok_node()],
        vec![NodePlan { pre: err("p"), run: None, post: None }],
        vec![ok_node(), NodePlan { pre: None, run: err("r"), post: None }, ok_node()],
        vec![ok_node(), NodePlan { pre: None, run: None, post: err("q") }],
    ];
    for chain in &chains {
        let (trace_a, result_a) = run_plan(chain);
        let (trace_b, result_b) = run_plan_stepped(chain);
        assert_eq!(trace_a, trace_b);
        match (result_a, result_b) {
            (Ok(()), Ok(())) => {},
            (Err(a), Err(b)) => assert_eq!(a.message, b.message),
            _ => panic!("the two runners disagree"),
        }
    }
}

#[test]
fn engine_walks_a_two_node_chain() {
    let (state, action) = engine_start();
    assert_eq!(state, EngineState::AwaitingPre { node: 0 });
    assert!(matches!(action, EngineAction::InvokePre(0)));

    let (state, action) = engine_step(state, HookEvent::Succeeded);
    assert_eq!(state, EngineState::AwaitingRun { node: 0 });
    assert!(matches!(action, EngineAction::InvokeRun(0)));

    let (state, action) = engine_step(state, HookEvent::Succeeded);
    assert_eq!(state, EngineState::AwaitingNext { node: 0 });
    assert!(matches!(action, EngineAction::QueryNext(0)));

    let (state, action) = engine_step(state, HookEvent::ChildFound);
    assert_eq!(state, EngineState::AwaitingPre { node: 1 });
    assert!(matches!(action, EngineAction::InvokePre(1)));

    let (state, action) = engine_step(state, HookEvent::Succeeded);
    let (state, action2) = engine_step(state, HookEvent::Succeeded);
    assert!(matches!(action, EngineAction::InvokeRun(1)));
    assert!(matches!(action2, EngineAction::QueryNext(1)));

    let (state, action) = engine_step(state, HookEvent::NoChild);
    assert_eq!(state, EngineState::AwaitingPost { node: 1 });
    assert!(matches!(action, EngineAction::InvokePost(1)));

    let (state, action) = engine_step(state, HookEvent::Succeeded);
    assert_eq!(state, EngineState::AwaitingPost { node: 0 });
    assert!(matches!(action, EngineAction::InvokePost(0)));

    let (state, action) = engine_step(state, HookEvent::Succeeded);
    assert_eq!(state, EngineState::Finished);
    assert!(matches!(action, EngineAction::Stop(Ok(()))));
}

#[test]
fn engine_stops_with_the_failure() {
    let (state, _) = engine_start();
    let (state, action) = engine_step(
        state,
        HookEvent::Failed(Error { message: "setup failed".to_string() }),
    );
    assert_eq!(state, EngineState::Finished);
    match action {
        EngineAction::Stop(Err(e)) => assert_eq!(e.message, "setup failed"),
        _ => panic!("expected the engine to stop with the failure"),
    }
}
