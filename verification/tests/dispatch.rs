use middleware::pipeline::{
    AfterMiddleware, AroundMiddleware, BeforeMiddleware, CatchAction, ChainBuilder, Error, Event,
    Handler, Op, Request, Response, StepAction,
};

fn before(id: u64, action: StepAction, on_catch: CatchAction) -> BeforeMiddleware {
    BeforeMiddleware { id, action, on_catch }
}

fn after(id: u64, action: StepAction, on_catch: CatchAction) -> AfterMiddleware {
    AfterMiddleware { id, action, on_catch }
}

fn ev(id: u64, op: Op) -> Event {
    Event { id, op }
}

#[test]
fn nop_chain_returns_default_response() {
    let chain = ChainBuilder::new(Handler::Nop);
    let mut req = Request::new();
    let r = chain.call(&mut req);
    assert_eq!(r, Ok(Response { status: 200 }));
    assert_eq!(req.events, vec![]);
}

#[test]
fn scripted_handler_runs_once() {
    let chain = ChainBuilder::new(Handler::Scripted {
        id: 9,
        action: StepAction::Pass,
        on_catch: CatchAction::Rethrow,
    });
    let mut req = Request::new();
    let r = chain.call(&mut req);
    assert_eq!(r, Ok(Response { status: 200 }));
    assert_eq!(req.events, vec![ev(9, Op::Call)]);
}

#[test]
fn before_stages_run_in_order() {
    let mut chain = ChainBuilder::new(Handler::Scripted {
        id: 9,
        action: StepAction::Pass,
        on_catch: CatchAction::Rethrow,
    });
    chain.link_before(before(1, StepAction::Pass, CatchAction::Rethrow));
    chain.link_before(before(2, StepAction::Pass, CatchAction::Rethrow));
    let mut req = Request::new();
    let r = chain.call(&mut req);
    assert_eq!(r, Ok(Response { status: 200 }));
    assert_eq!(req.events, vec![ev(1, Op::Before), ev(2, Op::Before), ev(9, Op::Call)]);
}

// A resolved catch in the before-phase restarts forward mode at index 0:
// the stage at index 0 runs its primary operation twice, the failing stage
// fails once and passes on the re-run.
#[test]
fn before_phase_restarts_at_zero_after_resolve() {
    let mut chain = ChainBuilder::new(Handler::Scripted {
        id: 9,
        action: StepAction::Pass,
        on_catch: CatchAction::Rethrow,
    });
    chain.link_before(before(0, StepAction::Pass, CatchAction::Rethrow));
    chain.link_before(before(1, StepAction::FailOnce(7), CatchAction::Rethrow));
    chain.link_before(before(2, StepAction::Pass, CatchAction::Resolve));
    let mut req = Request::new();
    let r = chain.call(&mut req);
    assert_eq!(r, Ok(Response { status: 200 }));
    assert_eq!(
        req.events,
        vec![
            ev(0, Op::Before),
            ev(1, Op::Before),
            ev(1, Op::BeforeCatch),
            ev(2, Op::BeforeCatch),
            ev(0, Op::Before),
            ev(1, Op::Before),
            ev(2, Op::Before),
            ev(9, Op::Call),
        ]
    );
    let count_before_0 = req.events.iter().filter(|e| e.id == 0 && e.op == Op::Before).count();
    assert_eq!(count_before_0, 2);
}

// A resolved catch in the after-phase resumes just after the catching
// stage: stages before it are not re-run, in contrast with the
// before-phase's restart from index 0.
#[test]
fn after_phase_resumes_past_the_catcher() {
    let mut chain = ChainBuilder::new(Handler::Scripted {
        id: 9,
        action: StepAction::Pass,
        on_catch: CatchAction::Rethrow,
    });
    chain.link_after(after(10, StepAction::Pass, CatchAction::Rethrow));
    chain.link_after(after(11, StepAction::FailOnce(5), CatchAction::Rethrow));
    chain.link_after(after(12, StepAction::Pass, CatchAction::Resolve));
    let mut req = Request::new();
    let r = chain.call(&mut req);
    assert_eq!(r, Ok(Response { status: 200 }));
    assert_eq!(
        req.events,
        vec![
            ev(9, Op::Call),
            ev(10, Op::After),
            ev(11, Op::After),
            ev(11, Op::AfterCatch),
            ev(12, Op::AfterCatch),
        ]
    );
    let count_after_10 = req.events.iter().filter(|e| e.id == 10 && e.op == Op::After).count();
    assert_eq!(count_after_10, 1);
}

// An uncaught handler-originated error fails the whole call with the final
// (here: replaced) error value.
#[test]
fn uncaught_handler_error_fails_the_call_with_final_error() {
    let mut chain = ChainBuilder::new(Handler::Scripted {
        id: 9,
        action: StepAction::FailOnce(3),
        on_catch: CatchAction::Rethrow,
    });
    chain.link_after(after(10, StepAction::Pass, CatchAction::Replace(4)));
    chain.link_after(after(11, StepAction::Pass, CatchAction::Rethrow));
    let mut req = Request::new();
    let r = chain.call(&mut req);
    assert_eq!(r, Err(Error { code: 4 }));
    assert_eq!(
        req.events,
        vec![
            ev(9, Op::Call),
            ev(9, Op::Catch),
            ev(10, Op::AfterCatch),
            ev(11, Op::AfterCatch),
        ]
    );
}

// End-to-end: a failing before-stage whose error nobody in the before list
// catches reaches the handler's catch (the handler's call never runs),
// enters the after-phase in catching mode at index 0 (the first
// after-stage's primary operation is skipped), and a resolving after-stage
// turns the whole call into a success carrying the handler's fallback
// response.
#[test]
fn end_to_end_error_path_resolved_in_after_phase() {
    let mut chain = ChainBuilder::new(Handler::Scripted {
        id: 9,
        action: StepAction::Pass,
        on_catch: CatchAction::Rethrow,
    });
    chain.link_before(before(1, StepAction::Pass, CatchAction::Rethrow));
    chain.link_before(before(2, StepAction::FailOnce(1), CatchAction::Rethrow));
    chain.link_after(after(11, StepAction::Pass, CatchAction::Rethrow));
    chain.link_after(after(12, StepAction::Pass, CatchAction::Resolve));
    let mut req = Request::new();
    let r = chain.call(&mut req);
    assert_eq!(r, Ok(Response { status: 500 }));
    assert_eq!(
        req.events,
        vec![
            ev(1, Op::Before),
            ev(2, Op::Before),
            ev(2, Op::BeforeCatch),
            ev(9, Op::Catch),
            ev(11, Op::AfterCatch),
            ev(12, Op::AfterCatch),
        ]
    );
    assert!(!req.events.iter().any(|e| e.id == 9 && e.op == Op::Call));
    assert!(!req.events.iter().any(|e| e.id == 11 && e.op == Op::After));
}

// A before-stage that replaces the error: the handler's catch receives the
// replaced code, and with no after-stages the call fails with it.
#[test]
fn replaced_error_reaches_the_caller() {
    let mut chain = ChainBuilder::new(Handler::Nop);
    chain.link_before(before(1, StepAction::FailOnce(3), CatchAction::Rethrow));
    chain.link_before(before(2, StepAction::Pass, CatchAction::Replace(8)));
    let mut req = Request::new();
    let r = chain.call(&mut req);
    assert_eq!(r, Err(Error { code: 8 }));
    assert_eq!(
        req.events,
        vec![ev(1, Op::Before), ev(1, Op::BeforeCatch), ev(2, Op::BeforeCatch)]
    );
}

// Two wraps: the second wraps the first, so the last-added wrapper is
// outermost, and the order is outer pre, inner pre, handler, inner post,
// outer post.
#[test]
fn later_wrap_is_outermost() {
    let mut chain = ChainBuilder::new(Handler::Scripted {
        id: 9,
        action: StepAction::Pass,
        on_catch: CatchAction::Rethrow,
    });
    chain.around(AroundMiddleware::new(20));
    chain.around(AroundMiddleware::new(21));
    let mut req = Request::new();
    let r = chain.call(&mut req);
    assert_eq!(r, Ok(Response { status: 200 }));
    assert_eq!(
        req.events,
        vec![
            ev(21, Op::Pre),
            ev(20, Op::Pre),
            ev(9, Op::Call),
            ev(20, Op::Post),
            ev(21, Op::Post),
        ]
    );
}

// A wrapping handler's catch declines the error without consulting what it
// wraps: no pre/post work runs on the error path.
#[test]
fn wrapping_handler_catch_declines() {
    let mut chain = ChainBuilder::new(Handler::Scripted {
        id: 9,
        action: StepAction::Pass,
        on_catch: CatchAction::Rethrow,
    });
    chain.around(AroundMiddleware::new(20));
    chain.link_before(before(1, StepAction::FailOnce(3), CatchAction::Rethrow));
    let mut req = Request::new();
    let r = chain.call(&mut req);
    assert_eq!(r, Err(Error { code: 3 }));
    assert_eq!(
        req.events,
        vec![ev(1, Op::Before), ev(1, Op::BeforeCatch), ev(20, Op::Catch)]
    );
}

// Two calls on the same assembled pipeline with independent requests give
// independent, equal outcomes: the pipeline holds no per-call state.
#[test]
fn repeated_calls_are_independent() {
    let mut chain = ChainBuilder::new(Handler::Scripted {
        id: 9,
        action: StepAction::Pass,
        on_catch: CatchAction::Rethrow,
    });
    chain.link_before(before(1, StepAction::FailOnce(7), CatchAction::Resolve));
    chain.link_after(after(11, StepAction::Pass, CatchAction::Rethrow));
    let mut req1 = Request::new();
    let r1 = chain.call(&mut req1);
    let mut req2 = Request::new();
    let r2 = chain.call(&mut req2);
    assert_eq!(r1, r2);
    assert_eq!(req1.events, req2.events);
    assert_eq!(r1, Ok(Response { status: 200 }));
}

// A whole pipeline nested as the handler of an outer one: the outer
// before-phase's uncaught error enters the inner pipeline through its
// catch, i.e. its before-phase starts in catching mode.
#[test]
fn nested_pipeline_catches_outer_error() {
    let mut inner = ChainBuilder::new(Handler::Scripted {
        id: 6,
        action: StepAction::Pass,
        on_catch: CatchAction::Rethrow,
    });
    inner.link_before(before(5, StepAction::Pass, CatchAction::Resolve));
    let mut outer = ChainBuilder::new(Handler::SubChain(Box::new(inner)));
    outer.link_before(before(1, StepAction::FailOnce(3), CatchAction::Rethrow));
    let mut req = Request::new();
    let r = outer.call(&mut req);
    assert_eq!(r, Ok(Response { status: 200 }));
    assert_eq!(
        req.events,
        vec![
            ev(1, Op::Before),
            ev(1, Op::BeforeCatch),
            ev(5, Op::BeforeCatch),
            ev(5, Op::Before),
            ev(6, Op::Call),
        ]
    );
}

// A nested pipeline that cannot resolve the error hands back an
// internal-error response and the residual error, and the outer pipeline
// keeps propagating it.
#[test]
fn nested_pipeline_residual_error_keeps_propagating() {
    let inner = ChainBuilder::new(Handler::Scripted {
        id: 6,
        action: StepAction::Pass,
        on_catch: CatchAction::Rethrow,
    });
    let mut outer = ChainBuilder::new(Handler::SubChain(Box::new(inner)));
    outer.link_before(before(1, StepAction::FailOnce(3), CatchAction::Rethrow));
    outer.link_after(after(11, StepAction::Pass, CatchAction::Resolve));
    let mut req = Request::new();
    let r = outer.call(&mut req);
    assert_eq!(r, Ok(Response { status: 500 }));
    assert_eq!(
        req.events,
        vec![
            ev(1, Op::Before),
            ev(1, Op::BeforeCatch),
            ev(6, Op::Catch),
            ev(11, Op::AfterCatch),
        ]
    );
}
