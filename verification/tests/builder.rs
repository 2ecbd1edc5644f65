use middleware::pipeline::{
    AfterMiddleware, AroundMiddleware, BeforeMiddleware, CatchAction, ChainBuilder, Error, Event,
    Handler, Nop, Op, Request, Response, StepAction, run_afters, run_befores, run_handler_catch,
};

#[test]
fn request_starts_empty_and_records_events() {
    let mut req = Request::new();
    assert_eq!(req.events, vec![]);
    assert!(!req.has_event(1, Op::Before));
    req.events.push(Event { id: 1, op: Op::Before });
    assert!(req.has_event(1, Op::Before));
    assert!(!req.has_event(1, Op::After));
    assert!(!req.has_event(2, Op::Before));
}

#[test]
fn response_constructors_report_their_status() {
    assert_eq!(Response::new(), Response { status: 200 });
    assert_eq!(Response::with_status(404), Response { status: 404 });
    assert_eq!(Error::new(7), Error { code: 7 });
}

#[test]
fn nop_succeeds_and_declines_errors() {
    let nop = Nop;
    let mut req = Request::new();
    assert_eq!(nop.call(&mut req), Ok(Response { status: 200 }));
    let (res, out) = nop.catch(&mut req, Error::new(7));
    assert_eq!(res, Response { status: 500 });
    assert_eq!(out, Err(Error { code: 7 }));
    assert_eq!(req.events, vec![]);
}

#[test]
fn link_appends_a_before_and_after_pair() {
    let mut chain = ChainBuilder::new(Handler::Nop);
    chain.link((
        BeforeMiddleware { id: 1, action: StepAction::Pass, on_catch: CatchAction::Rethrow },
        AfterMiddleware { id: 11, action: StepAction::Pass, on_catch: CatchAction::Rethrow },
    ));
    chain.link((
        BeforeMiddleware { id: 2, action: StepAction::Pass, on_catch: CatchAction::Rethrow },
        AfterMiddleware { id: 12, action: StepAction::Pass, on_catch: CatchAction::Rethrow },
    ));
    let mut req = Request::new();
    let r = chain.call(&mut req);
    assert_eq!(r, Ok(Response { status: 200 }));
    assert_eq!(
        req.events,
        vec![
            Event { id: 1, op: Op::Before },
            Event { id: 2, op: Op::Before },
            Event { id: 11, op: Op::After },
            Event { id: 12, op: Op::After },
        ]
    );
}

#[test]
fn run_befores_enters_catching_mode_at_index_zero() {
    let befores = vec![
        BeforeMiddleware { id: 1, action: StepAction::Pass, on_catch: CatchAction::Rethrow },
        BeforeMiddleware { id: 2, action: StepAction::Pass, on_catch: CatchAction::Rethrow },
    ];
    let mut req = Request::new();
    let r = run_befores(&mut req, &befores, Some(Error::new(5)));
    assert_eq!(r, Err(Error { code: 5 }));
    assert_eq!(
        req.events,
        vec![Event { id: 1, op: Op::BeforeCatch }, Event { id: 2, op: Op::BeforeCatch }]
    );
}

#[test]
fn run_afters_hands_the_response_through_unchanged() {
    let afters = vec![
        AfterMiddleware { id: 11, action: StepAction::Pass, on_catch: CatchAction::Rethrow },
    ];
    let mut req = Request::new();
    let r = run_afters(&mut req, Response::with_status(204), None, &afters);
    assert_eq!(r, Ok(Response { status: 204 }));
    assert_eq!(req.events, vec![Event { id: 11, op: Op::After }]);
}

#[test]
fn run_handler_catch_reports_the_residual() {
    let resolver = Handler::Scripted {
        id: 9,
        action: StepAction::Pass,
        on_catch: CatchAction::Resolve,
    };
    let mut req = Request::new();
    let (res, residual) = run_handler_catch(&mut req, Error::new(3), &resolver);
    assert_eq!(res, Response { status: 500 });
    assert_eq!(residual, None);

    let decliner = Handler::Scripted {
        id: 8,
        action: StepAction::Pass,
        on_catch: CatchAction::Replace(4),
    };
    let (res2, residual2) = run_handler_catch(&mut req, Error::new(3), &decliner);
    assert_eq!(res2, Response { status: 500 });
    assert_eq!(residual2, Some(Error { code: 4 }));
    assert_eq!(
        req.events,
        vec![Event { id: 9, op: Op::Catch }, Event { id: 8, op: Op::Catch }]
    );
}

#[test]
fn a_handler_failure_is_one_shot_per_log() {
    let handler = Handler::Scripted {
        id: 9,
        action: StepAction::FailOnce(3),
        on_catch: CatchAction::Rethrow,
    };
    let mut req = Request::new();
    assert_eq!(handler.call(&mut req), Err(Error { code: 3 }));
    assert_eq!(handler.call(&mut req), Ok(Response { status: 200 }));
}

#[test]
fn around_new_wraps_the_placeholder_until_installed() {
    let a = AroundMiddleware::new(20);
    assert_eq!(a.id, 20);
    let mut chain = ChainBuilder::new(Handler::Nop);
    chain.around(a);
    let mut req = Request::new();
    let r = chain.call(&mut req);
    assert_eq!(r, Ok(Response { status: 200 }));
    assert_eq!(
        req.events,
        vec![Event { id: 20, op: Op::Pre }, Event { id: 20, op: Op::Post }]
    );
}
