//! The pipeline: stages, the handler slot, the builder, and the dispatch
//! algorithm, together with the small-step interpreter that specifies it.
//!
//! Stages are a closed set of scripted behaviours (the dispatcher is
//! polymorphic over what a stage *does*; a tagged variant keeps that set
//! closed so every path of the dispatcher can be verified).  Each stage
//! records its invocations in the [`Request`]'s event log, so the order in
//! which the dispatcher drives the stages is part of every contract.
//!
//! The dispatch algorithm runs three phases.  Each phase is either in
//! *forward* mode (no active error, running the primary operation) or in
//! *catching* mode (offering an active error to each remaining stage's
//! `catch`).  A stage that fails is itself the first to be offered the error.
//! A successful catch in the before-phase restarts forward mode at index 0;
//! a successful catch in the after-phase resumes forward mode just after the
//! catching stage.  That asymmetry is deliberate and is pinned down by the
//! interpreter below and the laws in [`crate::laws`].

use vstd::prelude::*;

verus! {

/// Status of a freshly constructed, default response.
pub const DEFAULT_STATUS: u64 = 200;

/// Status of the fallback response produced when an error reaches a
/// handler's `catch`.
pub const INTERNAL_ERROR_STATUS: u64 = 500;

/// The operation a stage performed, as recorded in the request's event log.
#[derive(Clone, Copy, PartialEq, Eq, Structural, Debug)]
pub enum Op {
    /// A before-stage's primary operation.
    Before,
    /// A before-stage's catch operation.
    BeforeCatch,
    /// A handler's primary operation.
    Call,
    /// A handler's catch operation.
    Catch,
    /// An after-stage's primary operation.
    After,
    /// An after-stage's catch operation.
    AfterCatch,
    /// A wrapping handler's work on the way in.
    Pre,
    /// A wrapping handler's work on the way out.
    Post,
}

/// One entry of the request's event log: which stage did what.
#[derive(Clone, Copy, PartialEq, Eq, Structural, Debug)]
pub struct Event {
    /// The identifier of the stage that ran.
    pub id: u64,
    /// The operation it performed.
    pub op: Op,
}

/// The request: an opaque, caller-owned record, mutated by the stages.
/// Here its observable content is the log of stage invocations.
pub struct Request {
    /// The log of stage invocations, oldest first.
    pub events: Vec<Event>,
}

/// The response: an opaque record; the dispatcher only ever constructs a
/// default one or an internal-error one.
#[derive(Clone, Copy, PartialEq, Eq, Structural, Debug)]
pub struct Response {
    /// The status this response reports.
    pub status: u64,
}

/// An opaque failure value.  The dispatcher never inspects it, only moves
/// it along the active propagation chain; stages tell errors apart by code.
#[derive(Clone, Copy, PartialEq, Eq, Structural, Debug)]
pub struct Error {
    /// The code a stage chose when it produced this error.
    pub code: u64,
}

/// What a stage's primary operation does.
///
/// A failure is one-shot: a stage fails the first time it runs its primary
/// operation and succeeds on any re-run (it can see its own earlier
/// invocation in the request's log).  One-shot failures keep every dispatch
/// terminating: an always-failing stage ahead of a resolving catcher would
/// make the before-phase's restart rule loop forever.
#[derive(Clone, Copy, PartialEq, Eq, Structural, Debug)]
pub enum StepAction {
    /// Succeed every time.
    Pass,
    /// Fail with this error code the first time, succeed on re-runs.
    FailOnce(u64),
}

/// What a stage's `catch` operation does with an active error.
#[derive(Clone, Copy, PartialEq, Eq, Structural, Debug)]
pub enum CatchAction {
    /// Re-raise the error unchanged (the default behaviour of a stage that
    /// does not handle errors).
    Rethrow,
    /// Resolve the error: propagation ends and forward mode resumes.
    Resolve,
    /// Substitute a new error with this code for the caught one.
    Replace(u64),
}

/// A stage fired before the handler; it sees only the request.
#[derive(Clone, Copy, PartialEq, Eq, Structural, Debug)]
pub struct BeforeMiddleware {
    /// This stage's identifier in the event log.
    pub id: u64,
    /// What its primary operation does.
    pub action: StepAction,
    /// What its catch operation does.
    pub on_catch: CatchAction,
}

/// A stage fired after the handler; it sees the request and the response.
#[derive(Clone, Copy, PartialEq, Eq, Structural, Debug)]
pub struct AfterMiddleware {
    /// This stage's identifier in the event log.
    pub id: u64,
    /// What its primary operation does.
    pub action: StepAction,
    /// What its catch operation does.
    pub on_catch: CatchAction,
}

/// The handler slot: a scripted leaf handler, a wrapping handler around an
/// inner one, a whole nested pipeline, or the no-op placeholder.
pub enum Handler {
    /// The placeholder handler: succeeds with a default response.
    Nop,
    /// A scripted leaf handler.
    Scripted {
        /// Its identifier in the event log.
        id: u64,
        /// What its primary operation does.
        action: StepAction,
        /// What its catch operation does.
        on_catch: CatchAction,
    },
    /// A wrapping handler delegating to the handler it wrapped.
    Around(AroundMiddleware),
    /// A whole pipeline acting as the handler of an outer pipeline.
    SubChain(Box<ChainBuilder>),
}

/// A wrapping handler: runs its own work on the way in, delegates to the
/// handler it was given at installation time, then runs its work on the way
/// out.
pub struct AroundMiddleware {
    /// This stage's identifier in the event log.
    pub id: u64,
    /// The handler this stage wraps; [`Handler::Nop`] until installation.
    pub inner: Box<Handler>,
}

/// The pipeline: ordered before-stages, ordered after-stages, and exactly
/// one handler.  Assembled by the builder methods, then only read during
/// dispatch (`call` and `catch` take `&self`), so one assembled pipeline
/// serves any number of independent calls.
pub struct ChainBuilder {
    /// The before-stages, in the order they run.
    pub befores: Vec<BeforeMiddleware>,
    /// The after-stages, in the order they run.
    pub afters: Vec<AfterMiddleware>,
    /// The handler invoked between the two phases.
    pub handler: Handler,
}

// ---------------------------------------------------------------------------
// The specification: outcomes of single operations.
// ---------------------------------------------------------------------------

/// Whether the log already holds an event of this stage and operation.
pub open spec fn log_has(ev: Seq<Event>, id: u64, op: Op) -> bool {
    exists|k: int| 0 <= k < ev.len() && ev[k].id == id && ev[k].op == op
}

/// The outcome of a primary operation: `None` is success, `Some(code)` a
/// failure with that code.  `ev` is the log before this invocation.
pub open spec fn step_outcome(action: StepAction, id: u64, op: Op, ev: Seq<Event>) -> Option<u64> {
    match action {
        StepAction::Pass => None,
        StepAction::FailOnce(c) => if log_has(ev, id, op) {
            None
        } else {
            Some(c)
        },
    }
}

/// The outcome of a catch operation on error code `e`: `None` means the
/// error was resolved, `Some(code)` that this code keeps propagating.
pub open spec fn catch_outcome(action: CatchAction, e: u64) -> Option<u64> {
    match action {
        CatchAction::Rethrow => Some(e),
        CatchAction::Resolve => None,
        CatchAction::Replace(c) => Some(c),
    }
}

/// The error code of a unit result: `None` for `Ok`.
pub open spec fn unit_code(r: Result<(), Error>) -> Option<u64> {
    match r {
        Ok(u) => None,
        Err(e) => Some(e.code),
    }
}

/// The error code carried by an optional error.
pub open spec fn opt_code(e: Option<Error>) -> Option<u64> {
    match e {
        None => None,
        Some(er) => Some(er.code),
    }
}

/// The plain view of a handler result: response status or error code.
pub open spec fn resp_code(r: Result<Response, Error>) -> Result<u64, u64> {
    match r {
        Ok(resp) => Ok(resp.status),
        Err(e) => Err(e.code),
    }
}

// ---------------------------------------------------------------------------
// The specification: the fuelled interpreter of the dispatch algorithm.
//
// Each function consumes one unit of fuel per step and answers `None` when
// the fuel runs out, so all of them are total; the executable dispatcher is
// proved to produce, for some fuel, exactly the interpreter's answer.
// ---------------------------------------------------------------------------

/// The before-phase from index `i`: forward mode when `err` is `None`,
/// catching mode with the active error otherwise.  Yields the final log and
/// the error, if any, handed on to the handle phase.
pub open spec fn spec_befores(
    bs: Seq<BeforeMiddleware>,
    ev: Seq<Event>,
    i: int,
    err: Option<u64>,
    fuel: nat,
) -> Option<(Seq<Event>, Option<u64>)>
    decreases fuel,
{
    if fuel == 0 {
        None
    } else {
        match err {
            None => {
                if i >= bs.len() {
                    Some((ev, None))
                } else {
                    let s = bs[i];
                    let ev2 = ev.push(Event { id: s.id, op: Op::Before });
                    match step_outcome(s.action, s.id, Op::Before, ev) {
                        None => spec_befores(bs, ev2, i + 1, None, (fuel - 1) as nat),
                        Some(c) => spec_befores(bs, ev2, i, Some(c), (fuel - 1) as nat),
                    }
                }
            },
            Some(e) => {
                if i >= bs.len() {
                    Some((ev, Some(e)))
                } else {
                    let s = bs[i];
                    let ev2 = ev.push(Event { id: s.id, op: Op::BeforeCatch });
                    match catch_outcome(s.on_catch, e) {
                        None => spec_befores(bs, ev2, 0, None, (fuel - 1) as nat),
                        Some(e2) => spec_befores(bs, ev2, i + 1, Some(e2), (fuel - 1) as nat),
                    }
                }
            },
        }
    }
}

/// The after-phase from index `i`, analogous to [`spec_befores`] except for
/// the resumption rule: a resolved error resumes forward mode at the index
/// just after the catching stage, never back at 0.
pub open spec fn spec_afters(
    ats: Seq<AfterMiddleware>,
    ev: Seq<Event>,
    i: int,
    err: Option<u64>,
    fuel: nat,
) -> Option<(Seq<Event>, Option<u64>)>
    decreases fuel,
{
    if fuel == 0 {
        None
    } else {
        match err {
            None => {
                if i >= ats.len() {
                    Some((ev, None))
                } else {
                    let s = ats[i];
                    let ev2 = ev.push(Event { id: s.id, op: Op::After });
                    match step_outcome(s.action, s.id, Op::After, ev) {
                        None => spec_afters(ats, ev2, i + 1, None, (fuel - 1) as nat),
                        Some(c) => spec_afters(ats, ev2, i, Some(c), (fuel - 1) as nat),
                    }
                }
            },
            Some(e) => {
                if i >= ats.len() {
                    Some((ev, Some(e)))
                } else {
                    let s = ats[i];
                    let ev2 = ev.push(Event { id: s.id, op: Op::AfterCatch });
                    match catch_outcome(s.on_catch, e) {
                        None => spec_afters(ats, ev2, i + 1, None, (fuel - 1) as nat),
                        Some(e2) => spec_afters(ats, ev2, i + 1, Some(e2), (fuel - 1) as nat),
                    }
                }
            },
        }
    }
}

/// A handler's primary operation: the final log, and the response status or
/// the error code it failed with.
pub open spec fn spec_handler_call(h: Handler, ev: Seq<Event>, fuel: nat) -> Option<
    (Seq<Event>, Result<u64, u64>),
>
    decreases fuel,
{
    if fuel == 0 {
        None
    } else {
        match h {
            Handler::Nop => Some((ev, Ok(DEFAULT_STATUS))),
            Handler::Scripted { id, action, on_catch } => {
                let ev2 = ev.push(Event { id: id, op: Op::Call });
                match step_outcome(action, id, Op::Call, ev) {
                    None => Some((ev2, Ok(DEFAULT_STATUS))),
                    Some(c) => Some((ev2, Err(c))),
                }
            },
            Handler::Around(a) => {
                let ev2 = ev.push(Event { id: a.id, op: Op::Pre });
                match spec_handler_call(*a.inner, ev2, (fuel - 1) as nat) {
                    None => None,
                    Some((ev3, r)) => Some((ev3.push(Event { id: a.id, op: Op::Post }), r)),
                }
            },
            Handler::SubChain(c) => spec_chain_call(*c, ev, (fuel - 1) as nat),
        }
    }
}

/// A handler's catch on error code `e`: the final log, the status of the
/// response it produces, and the residual error if it did not resolve `e`.
pub open spec fn spec_handler_catch(h: Handler, ev: Seq<Event>, e: u64, fuel: nat) -> Option<
    (Seq<Event>, u64, Option<u64>),
>
    decreases fuel,
{
    if fuel == 0 {
        None
    } else {
        match h {
            Handler::Nop => Some((ev, INTERNAL_ERROR_STATUS, Some(e))),
            Handler::Scripted { id, action, on_catch } => {
                let ev2 = ev.push(Event { id: id, op: Op::Catch });
                Some((ev2, INTERNAL_ERROR_STATUS, catch_outcome(on_catch, e)))
            },
            Handler::Around(a) => Some(
                (ev.push(Event { id: a.id, op: Op::Catch }), INTERNAL_ERROR_STATUS, Some(e)),
            ),
            Handler::SubChain(c) => spec_chain_catch(*c, ev, e, (fuel - 1) as nat),
        }
    }
}

/// The handle phase: the handler's `call` when the before-phase succeeded,
/// its `catch` as soon as an error is in play.  Yields the final log, the
/// response status carried into the after-phase, and the residual error.
pub open spec fn spec_handle_phase(h: Handler, ev: Seq<Event>, berr: Option<u64>, fuel: nat) -> Option<
    (Seq<Event>, u64, Option<u64>),
>
    decreases fuel,
{
    if fuel == 0 {
        None
    } else {
        match berr {
            None => match spec_handler_call(h, ev, (fuel - 1) as nat) {
                None => None,
                Some((ev2, Ok(st))) => Some((ev2, st, None)),
                Some((ev2, Err(e))) => spec_handler_catch(h, ev2, e, (fuel - 1) as nat),
            },
            Some(e) => spec_handler_catch(h, ev, e, (fuel - 1) as nat),
        }
    }
}

/// A whole top-level dispatch: before-phase from index 0 in forward mode,
/// handle phase, after-phase; `Ok(status)` exactly when the after-phase
/// ends with no active error.
pub open spec fn spec_chain_call(c: ChainBuilder, ev: Seq<Event>, fuel: nat) -> Option<
    (Seq<Event>, Result<u64, u64>),
>
    decreases fuel,
{
    if fuel == 0 {
        None
    } else {
        match spec_befores(c.befores@, ev, 0, None, (fuel - 1) as nat) {
            None => None,
            Some((ev1, berr)) => match spec_handle_phase(c.handler, ev1, berr, (fuel - 1) as nat) {
                None => None,
                Some((ev2, st, resid)) => match spec_afters(c.afters@, ev2, 0, resid, (fuel - 1) as nat) {
                    None => None,
                    Some((ev3, None)) => Some((ev3, Ok(st))),
                    Some((ev3, Some(e))) => Some((ev3, Err(e))),
                },
            },
        }
    }
}

/// A whole dispatch of a pipeline nested as a handler inside another: it is
/// entered through `catch`, so the before-phase starts in catching mode with
/// the incoming error; a terminal failure becomes an internal-error response
/// with the residual error, so the outer pipeline can keep propagating.
pub open spec fn spec_chain_catch(c: ChainBuilder, ev: Seq<Event>, e0: u64, fuel: nat) -> Option<
    (Seq<Event>, u64, Option<u64>),
>
    decreases fuel,
{
    if fuel == 0 {
        None
    } else {
        match spec_befores(c.befores@, ev, 0, Some(e0), (fuel - 1) as nat) {
            None => None,
            Some((ev1, berr)) => match spec_handle_phase(c.handler, ev1, berr, (fuel - 1) as nat) {
                None => None,
                Some((ev2, st, resid)) => match spec_afters(c.afters@, ev2, 0, resid, (fuel - 1) as nat) {
                    None => None,
                    Some((ev3, None)) => Some((ev3, st, None)),
                    Some((ev3, Some(e))) => Some((ev3, INTERNAL_ERROR_STATUS, Some(e))),
                },
            },
        }
    }
}

// ---------------------------------------------------------------------------
// Constructors and small executable pieces.
// ---------------------------------------------------------------------------

impl Request {
    /// A fresh request with an empty log.
    pub fn new() -> (r: Request)
        ensures
            r.events@ == Seq::<Event>::empty(),
    {
        Request { events: Vec::new() }
    }

    /// Whether this request's log already holds an event of `id` and `op`.
    pub fn has_event(&self, id: u64, op: Op) -> (b: bool)
        ensures
            b == log_has(self.events@, id, op),
    {
        let mut k: usize = 0;
        while k < self.events.len()
            invariant
                k <= self.events.len(),
                forall|j: int| 0 <= j < k ==> !(self.events@[j].id == id && self.events@[j].op == op),
            decreases self.events.len() - k,
        {
            let e = self.events[k];
            if e.id == id && e.op == op {
                assert(self.events@[k as int].id == id && self.events@[k as int].op == op);
                return true;
            }
            k += 1;
        }
        false
    }
}

impl Response {
    /// The default response.
    pub fn new() -> (r: Response)
        ensures
            r.status == DEFAULT_STATUS,
    {
        Response { status: DEFAULT_STATUS }
    }

    /// A response reporting the given status.
    pub fn with_status(status: u64) -> (r: Response)
        ensures
            r.status == status,
    {
        Response { status }
    }
}

impl Error {
    /// An error carrying the given code.
    pub fn new(code: u64) -> (r: Error)
        ensures
            r.code == code,
    {
        Error { code }
    }
}

impl BeforeMiddleware {
    /// This stage's primary operation: log the invocation, then succeed or
    /// fail as scripted (a one-shot failure consults the log it was handed).
    pub fn before(&self, req: &mut Request) -> (r: Result<(), Error>)
        ensures
            final(req).events@ == old(req).events@.push(Event { id: self.id, op: Op::Before }),
            unit_code(r) == step_outcome(self.action, self.id, Op::Before, old(req).events@),
    {
        let outcome: Option<u64> = match self.action {
            StepAction::Pass => None,
            StepAction::FailOnce(c) => if req.has_event(self.id, Op::Before) {
                None
            } else {
                Some(c)
            },
        };
        req.events.push(Event { id: self.id, op: Op::Before });
        match outcome {
            None => Ok(()),
            Some(c) => Err(Error { code: c }),
        }
    }

    /// This stage's catch: log the invocation, then resolve, re-raise or
    /// replace the active error as scripted.
    pub fn catch(&self, req: &mut Request, err: Error) -> (r: Result<(), Error>)
        ensures
            final(req).events@ == old(req).events@.push(Event { id: self.id, op: Op::BeforeCatch }),
            unit_code(r) == catch_outcome(self.on_catch, err.code),
    {
        req.events.push(Event { id: self.id, op: Op::BeforeCatch });
        match self.on_catch {
            CatchAction::Rethrow => Err(err),
            CatchAction::Resolve => Ok(()),
            CatchAction::Replace(c) => Err(Error { code: c }),
        }
    }
}

impl AfterMiddleware {
    /// This stage's primary operation on the request and the response; the
    /// response is only inspected, never replaced.
    pub fn after(&self, req: &mut Request, res: &mut Response) -> (r: Result<(), Error>)
        ensures
            final(req).events@ == old(req).events@.push(Event { id: self.id, op: Op::After }),
            *final(res) == *old(res),
            unit_code(r) == step_outcome(self.action, self.id, Op::After, old(req).events@),
    {
        let outcome: Option<u64> = match self.action {
            StepAction::Pass => None,
            StepAction::FailOnce(c) => if req.has_event(self.id, Op::After) {
                None
            } else {
                Some(c)
            },
        };
        req.events.push(Event { id: self.id, op: Op::After });
        match outcome {
            None => Ok(()),
            Some(c) => Err(Error { code: c }),
        }
    }

    /// This stage's catch on the active error.
    pub fn catch(&self, req: &mut Request, res: &mut Response, err: Error) -> (r: Result<(), Error>)
        ensures
            final(req).events@ == old(req).events@.push(Event { id: self.id, op: Op::AfterCatch }),
            *final(res) == *old(res),
            unit_code(r) == catch_outcome(self.on_catch, err.code),
    {
        req.events.push(Event { id: self.id, op: Op::AfterCatch });
        match self.on_catch {
            CatchAction::Rethrow => Err(err),
            CatchAction::Resolve => Ok(()),
            CatchAction::Replace(c) => Err(Error { code: c }),
        }
    }
}

impl AroundMiddleware {
    /// A wrapping stage not yet installed: it wraps the placeholder.
    pub fn new(id: u64) -> (a: AroundMiddleware)
        ensures
            a.id == id,
            *a.inner == Handler::Nop,
    {
        AroundMiddleware { id, inner: Box::new(Handler::Nop) }
    }

    /// Install the handler this stage wraps; called exactly once, when the
    /// stage is added to a pipeline, with the handler present at that
    /// moment.
    pub fn with_handler(&mut self, handler: Handler)
        ensures
            final(self).id == old(self).id,
            *final(self).inner == handler,
    {
        self.inner = Box::new(handler);
    }
}

// ---------------------------------------------------------------------------
// Termination of the before-phase.
//
// A resolved catch restarts the before-phase at index 0, so its loop does
// not simply walk the list: it terminates because failures are one-shot.
// The measure is the number of stages still armed, i.e. able to fail.
// ---------------------------------------------------------------------------

/// Whether this stage can still fail, given the log so far.
pub open spec fn armed(s: BeforeMiddleware, ev: Seq<Event>) -> bool {
    s.action matches StepAction::FailOnce(_) && !log_has(ev, s.id, Op::Before)
}

/// How many stages from index `j` on can still fail.
pub open spec fn armed_count(bs: Seq<BeforeMiddleware>, ev: Seq<Event>, j: int) -> nat
    decreases bs.len() - j,
{
    if j < 0 || j >= bs.len() {
        0
    } else {
        (if armed(bs[j], ev) {
            1nat
        } else {
            0nat
        }) + armed_count(bs, ev, j + 1)
    }
}

/// An event present in a log is present after any push.
proof fn lemma_log_has_push(ev: Seq<Event>, e: Event, id: u64, op: Op)
    requires
        log_has(ev, id, op),
    ensures
        log_has(ev.push(e), id, op),
{
    let k = choose|k: int| 0 <= k < ev.len() && ev[k].id == id && ev[k].op == op;
    assert(ev.push(e)[k].id == id && ev.push(e)[k].op == op);
}

/// Growing the log never arms a stage, so the measure never grows.
proof fn lemma_armed_count_push_le(bs: Seq<BeforeMiddleware>, ev: Seq<Event>, e: Event, j: int)
    ensures
        armed_count(bs, ev.push(e), j) <= armed_count(bs, ev, j),
    decreases bs.len() - j,
{
    if 0 <= j < bs.len() {
        if log_has(ev, bs[j].id, Op::Before) {
            lemma_log_has_push(ev, e, bs[j].id, Op::Before);
        }
        lemma_armed_count_push_le(bs, ev, e, j + 1);
    }
}

/// When an armed stage fails, logging its invocation disarms it, and the
/// measure strictly shrinks.
proof fn lemma_armed_count_fail_lt(bs: Seq<BeforeMiddleware>, ev: Seq<Event>, i: int, j: int)
    requires
        0 <= j <= i < bs.len(),
        armed(bs[i], ev),
    ensures
        armed_count(bs, ev.push(Event { id: bs[i].id, op: Op::Before }), j) < armed_count(
            bs,
            ev,
            j,
        ),
    decreases i - j,
{
    let e = Event { id: bs[i].id, op: Op::Before };
    if j == i {
        assert(ev.push(e)[ev.len() as int] == e);
        assert(log_has(ev.push(e), bs[i].id, Op::Before));
        assert(!armed(bs[i], ev.push(e)));
        lemma_armed_count_push_le(bs, ev, e, j + 1);
    } else {
        if log_has(ev, bs[j].id, Op::Before) {
            lemma_log_has_push(ev, e, bs[j].id, Op::Before);
        }
        lemma_armed_count_fail_lt(bs, ev, i, j + 1);
    }
}

/// Rank of a phase mode in the termination measure: catching outranks
/// forward because a resolved catch restarts the before-phase.
pub open spec fn catch_rank(err: Option<u64>) -> int {
    match err {
        None => 0,
        Some(e) => 1,
    }
}

// ---------------------------------------------------------------------------
// The dispatch algorithm.
// ---------------------------------------------------------------------------

/// Run the before-phase over `befores`: forward mode from index 0 when
/// `err` is `None`, catching mode with that error otherwise.  Produces, for
/// some fuel, exactly the interpreter's log and outcome.
pub fn run_befores(req: &mut Request, befores: &Vec<BeforeMiddleware>, err: Option<Error>) -> (r:
    Result<(), Error>)
    ensures
        exists|fuel: nat|
            spec_befores(befores@, old(req).events@, 0, opt_code(err), fuel) == Some(
                (final(req).events@, unit_code(r)),
            ),
{
    let ghost ev0 = req.events@;
    let ghost e0 = opt_code(err);
    let mut i: usize = 0;
    let mut cur: Option<Error> = err;
    let ghost mut used: nat = 0nat;
    while i < befores.len()
        invariant
            i <= befores.len(),
            forall|k: nat|
                spec_befores(befores@, ev0, 0, e0, used + k) == spec_befores(
                    befores@,
                    req.events@,
                    i as int,
                    opt_code(cur),
                    k,
                ),
        decreases
            armed_count(befores@, req.events@, 0),
            catch_rank(opt_code(cur)),
            befores.len() - i,
    {
        let ghost ev_at = req.events@;
        let ghost i_at = i as int;
        let ghost c_at = opt_code(cur);
        let stage = befores[i];
        match cur {
            None => {
                let r = stage.before(req);
                match r {
                    Ok(u) => {
                        cur = None;
                        i = i + 1;
                    },
                    Err(e) => {
                        cur = Some(e);
                    },
                }
                proof {
                    let pushed = Event { id: stage.id, op: Op::Before };
                    lemma_armed_count_push_le(befores@, ev_at, pushed, 0);
                    if c_at is None && opt_code(cur) is Some {
                        assert(armed(befores@[i_at], ev_at));
                        lemma_armed_count_fail_lt(befores@, ev_at, i_at, 0);
                    }
                }
            },
            Some(e) => {
                let r = stage.catch(req, e);
                match r {
                    Ok(u) => {
                        cur = None;
                        i = 0;
                    },
                    Err(e2) => {
                        cur = Some(e2);
                        i = i + 1;
                    },
                }
                proof {
                    let pushed = Event { id: stage.id, op: Op::BeforeCatch };
                    lemma_armed_count_push_le(befores@, ev_at, pushed, 0);
                }
            },
        }
        proof {
            assert forall|k: nat|
                spec_befores(befores@, ev0, 0, e0, (used + 1nat) + k) == spec_befores(
                    befores@,
                    req.events@,
                    i as int,
                    opt_code(cur),
                    k,
                ) by {
                assert(spec_befores(befores@, ev0, 0, e0, used + (k + 1nat)) == spec_befores(
                    befores@,
                    ev_at,
                    i_at,
                    c_at,
                    k + 1nat,
                ));
                assert(spec_befores(befores@, ev_at, i_at, c_at, k + 1nat) == spec_befores(
                    befores@,
                    req.events@,
                    i as int,
                    opt_code(cur),
                    k,
                ));
            }
            used = used + 1nat;
        }
    }
    proof {
        assert(spec_befores(befores@, ev0, 0, e0, used + 1nat) == spec_befores(
            befores@,
            req.events@,
            i as int,
            opt_code(cur),
            1nat,
        ));
        assert(spec_befores(befores@, req.events@, i as int, opt_code(cur), 1nat) == Some(
            (req.events@, opt_code(cur)),
        ));
    }
    match cur {
        None => Ok(()),
        Some(e) => Err(e),
    }
}

/// Rank of a phase mode in the after-phase's termination measure: forward
/// outranks catching because a failure keeps the index while a catch always
/// advances it.
pub open spec fn after_rank(err: Option<u64>) -> int {
    match err {
        None => 1,
        Some(e) => 0,
    }
}

/// Run the after-phase over `afters`, carrying the response produced by the
/// handle phase: forward mode from index 0 when `err` is `None`, catching
/// mode with that error otherwise.  The response is handed back unchanged on
/// success; the final error is handed back on exhaustion.
pub fn run_afters(
    req: &mut Request,
    res: Response,
    err: Option<Error>,
    afters: &Vec<AfterMiddleware>,
) -> (r: Result<Response, Error>)
    ensures
        exists|fuel: nat|
            spec_afters(afters@, old(req).events@, 0, opt_code(err), fuel) == Some(
                (final(req).events@, match r {
                    Ok(resp) => None,
                    Err(e) => Some(e.code),
                }),
            ),
        r matches Ok(resp) ==> resp == res,
{
    let ghost ev0 = req.events@;
    let ghost e0 = opt_code(err);
    let mut response = res;
    let mut i: usize = 0;
    let mut cur: Option<Error> = err;
    let ghost mut used: nat = 0nat;
    while i < afters.len()
        invariant
            i <= afters.len(),
            response == res,
            forall|k: nat|
                spec_afters(afters@, ev0, 0, e0, used + k) == spec_afters(
                    afters@,
                    req.events@,
                    i as int,
                    opt_code(cur),
                    k,
                ),
        decreases 2 * (afters.len() - i) + after_rank(opt_code(cur)),
    {
        let ghost ev_at = req.events@;
        let ghost i_at = i as int;
        let ghost c_at = opt_code(cur);
        let stage = afters[i];
        match cur {
            None => {
                let r = stage.after(req, &mut response);
                match r {
                    Ok(u) => {
                        cur = None;
                        i = i + 1;
                    },
                    Err(e) => {
                        cur = Some(e);
                    },
                }
            },
            Some(e) => {
                let r = stage.catch(req, &mut response, e);
                match r {
                    Ok(u) => {
                        cur = None;
                        i = i + 1;
                    },
                    Err(e2) => {
                        cur = Some(e2);
                        i = i + 1;
                    },
                }
            },
        }
        proof {
            assert forall|k: nat|
                spec_afters(afters@, ev0, 0, e0, (used + 1nat) + k) == spec_afters(
                    afters@,
                    req.events@,
                    i as int,
                    opt_code(cur),
                    k,
                ) by {
                assert(spec_afters(afters@, ev0, 0, e0, used + (k + 1nat)) == spec_afters(
                    afters@,
                    ev_at,
                    i_at,
                    c_at,
                    k + 1nat,
                ));
                assert(spec_afters(afters@, ev_at, i_at, c_at, k + 1nat) == spec_afters(
                    afters@,
                    req.events@,
                    i as int,
                    opt_code(cur),
                    k,
                ));
            }
            used = used + 1nat;
        }
    }
    proof {
        assert(spec_afters(afters@, ev0, 0, e0, used + 1nat) == spec_afters(
            afters@,
            req.events@,
            i as int,
            opt_code(cur),
            1nat,
        ));
        assert(spec_afters(afters@, req.events@, i as int, opt_code(cur), 1nat) == Some(
            (req.events@, opt_code(cur)),
        ));
    }
    match cur {
        None => Ok(response),
        Some(e) => Err(e),
    }
}

impl Handler {
    /// Produce a response from the request, or fail with an error.
    pub fn call(&self, req: &mut Request) -> (r: Result<Response, Error>)
        ensures
            exists|fuel: nat|
                spec_handler_call(*self, old(req).events@, fuel) == Some(
                    (final(req).events@, resp_code(r)),
                ),
        decreases self, 0int,
    {
        let ghost ev0 = req.events@;
        match self {
            Handler::Nop => {
                let r: Result<Response, Error> = Ok(Response::new());
                proof {
                    assert(spec_handler_call(*self, ev0, 1nat) == Some(
                        (req.events@, resp_code(r)),
                    ));
                }
                r
            },
            Handler::Scripted { id, action, .. } => {
                let outcome: Option<u64> = match action {
                    StepAction::Pass => None,
                    StepAction::FailOnce(c) => if req.has_event(*id, Op::Call) {
                        None
                    } else {
                        Some(*c)
                    },
                };
                req.events.push(Event { id: *id, op: Op::Call });
                let r: Result<Response, Error> = match outcome {
                    None => Ok(Response::new()),
                    Some(c) => Err(Error { code: c }),
                };
                proof {
                    assert(spec_handler_call(*self, ev0, 1nat) == Some(
                        (req.events@, resp_code(r)),
                    ));
                }
                r
            },
            Handler::Around(a) => {
                req.events.push(Event { id: a.id, op: Op::Pre });
                let ghost ev1 = req.events@;
                let r = a.inner.call(req);
                let ghost ev2 = req.events@;
                req.events.push(Event { id: a.id, op: Op::Post });
                proof {
                    let f = choose|f: nat|
                        spec_handler_call(*a.inner, ev1, f) == Some((ev2, resp_code(r)));
                    assert(spec_handler_call(*self, ev0, f + 1nat) == Some(
                        (req.events@, resp_code(r)),
                    ));
                }
                r
            },
            Handler::SubChain(c) => {
                let r = c.call(req);
                proof {
                    let f = choose|f: nat|
                        spec_chain_call(**c, ev0, f) == Some((req.events@, resp_code(r)));
                    assert(spec_handler_call(*self, ev0, f + 1nat) == Some(
                        (req.events@, resp_code(r)),
                    ));
                }
                r
            },
        }
    }

    /// Given a prior error, always produce some response, plus either the
    /// confirmation that the error is resolved or a residual error.
    pub fn catch(&self, req: &mut Request, err: Error) -> (r: (Response, Result<(), Error>))
        ensures
            exists|fuel: nat|
                spec_handler_catch(*self, old(req).events@, err.code, fuel) == Some(
                    (final(req).events@, r.0.status, unit_code(r.1)),
                ),
        decreases self, 0int,
    {
        let ghost ev0 = req.events@;
        match self {
            Handler::Nop => {
                let r: (Response, Result<(), Error>) = (
                    Response::with_status(INTERNAL_ERROR_STATUS),
                    Err(err),
                );
                proof {
                    assert(spec_handler_catch(*self, ev0, err.code, 1nat) == Some(
                        (req.events@, r.0.status, unit_code(r.1)),
                    ));
                }
                r
            },
            Handler::Scripted { id, on_catch, .. } => {
                req.events.push(Event { id: *id, op: Op::Catch });
                let r: (Response, Result<(), Error>) = match on_catch {
                    CatchAction::Rethrow => (
                        Response::with_status(INTERNAL_ERROR_STATUS),
                        Err(err),
                    ),
                    CatchAction::Resolve => (Response::with_status(INTERNAL_ERROR_STATUS), Ok(())),
                    CatchAction::Replace(c) => (
                        Response::with_status(INTERNAL_ERROR_STATUS),
                        Err(Error { code: *c }),
                    ),
                };
                proof {
                    assert(spec_handler_catch(*self, ev0, err.code, 1nat) == Some(
                        (req.events@, r.0.status, unit_code(r.1)),
                    ));
                }
                r
            },
            Handler::Around(a) => {
                req.events.push(Event { id: a.id, op: Op::Catch });
                let r: (Response, Result<(), Error>) = (
                    Response::with_status(INTERNAL_ERROR_STATUS),
                    Err(err),
                );
                proof {
                    assert(spec_handler_catch(*self, ev0, err.code, 1nat) == Some(
                        (req.events@, r.0.status, unit_code(r.1)),
                    ));
                }
                r
            },
            Handler::SubChain(c) => {
                let r = c.catch(req, err);
                proof {
                    let f = choose|f: nat|
                        spec_chain_catch(**c, ev0, err.code, f) == Some(
                            (req.events@, r.0.status, unit_code(r.1)),
                        );
                    assert(spec_handler_catch(*self, ev0, err.code, f + 1nat) == Some(
                        (req.events@, r.0.status, unit_code(r.1)),
                    ));
                }
                r
            },
        }
    }
}

/// Offer an error to the handler's `catch`, converting its answer to a
/// response paired with the residual error, if any.
pub fn run_handler_catch(req: &mut Request, err: Error, handler: &Handler) -> (r: (
    Response,
    Option<Error>,
))
    ensures
        exists|fuel: nat|
            spec_handler_catch(*handler, old(req).events@, err.code, fuel) == Some(
                (final(req).events@, r.0.status, opt_code(r.1)),
            ),
{
    let (res, rr) = handler.catch(req, err);
    match rr {
        Ok(u) => (res, None),
        Err(e) => (res, Some(e)),
    }
}

impl ChainBuilder {
    /// A pipeline around the given handler, with no stages yet.
    pub fn new(handler: Handler) -> (c: ChainBuilder)
        ensures
            c.befores@ == Seq::<BeforeMiddleware>::empty(),
            c.afters@ == Seq::<AfterMiddleware>::empty(),
            c.handler == handler,
    {
        ChainBuilder { befores: Vec::new(), afters: Vec::new(), handler }
    }

    /// Append a before-stage and an after-stage at once, in that order.
    pub fn link(&mut self, link: (BeforeMiddleware, AfterMiddleware))
        ensures
            final(self).befores@ == old(self).befores@.push(link.0),
            final(self).afters@ == old(self).afters@.push(link.1),
            final(self).handler == old(self).handler,
    {
        let (before, after) = link;
        self.befores.push(before);
        self.afters.push(after);
    }

    /// Append a before-stage at the end of the before list.
    pub fn link_before(&mut self, before: BeforeMiddleware)
        ensures
            final(self).befores@ == old(self).befores@.push(before),
            final(self).afters@ == old(self).afters@,
            final(self).handler == old(self).handler,
    {
        self.befores.push(before);
    }

    /// Append an after-stage at the end of the after list.
    pub fn link_after(&mut self, after: AfterMiddleware)
        ensures
            final(self).befores@ == old(self).befores@,
            final(self).afters@ == old(self).afters@.push(after),
            final(self).handler == old(self).handler,
    {
        self.afters.push(after);
    }

    /// Wrap the pipeline's handler: the wrapping stage receives the handler
    /// present at this moment and becomes the new handler, so a later wrap
    /// wraps this one (last added is outermost).  The slot holds the no-op
    /// placeholder for the instant of the swap, never an absent handler.
    pub fn around(&mut self, around: AroundMiddleware)
        ensures
            final(self).befores@ == old(self).befores@,
            final(self).afters@ == old(self).afters@,
            final(self).handler == (Handler::Around(
                AroundMiddleware { id: around.id, inner: Box::new(old(self).handler) },
            )),
    {
        let mut wrapper = around;
        let mut slot = Handler::Nop;
        core::mem::swap(&mut slot, &mut self.handler);
        wrapper.with_handler(slot);
        self.handler = Handler::Around(wrapper);
    }

    /// Dispatch a request through the whole pipeline: before-phase, handle
    /// phase, after-phase, with the catch-and-resume rules of the
    /// interpreter; `Ok` exactly when the after-phase ends with no active
    /// error.
    pub fn call(&self, req: &mut Request) -> (r: Result<Response, Error>)
        ensures
            exists|fuel: nat|
                spec_chain_call(*self, old(req).events@, fuel) == Some(
                    (final(req).events@, resp_code(r)),
                ),
        decreases self, 1int,
    {
        let ghost ev0 = req.events@;
        let before_result = run_befores(req, &self.befores, None);
        let ghost ev1 = req.events@;
        let ghost berr = unit_code(before_result);
        let ghost f1 = choose|f: nat|
            spec_befores(self.befores@, ev0, 0, None, f) == Some((ev1, berr));
        let ghost mut fh: nat = 0nat;
        let (res, err_opt): (Response, Option<Error>) = match before_result {
            Ok(u) => {
                let hr = self.handler.call(req);
                match hr {
                    Ok(res) => {
                        proof {
                            let f2 = choose|f: nat|
                                spec_handler_call(self.handler, ev1, f) == Some(
                                    (req.events@, Ok::<u64, u64>(res.status)),
                                );
                            fh = f2 + 1nat;
                            assert(spec_handle_phase(self.handler, ev1, berr, fh) == Some(
                                (req.events@, res.status, None::<u64>),
                            ));
                        }
                        (res, None)
                    },
                    Err(e) => {
                        let ghost ev_mid = req.events@;
                        let (res2, r2) = self.handler.catch(req, e);
                        let eo: Option<Error> = match r2 {
                            Ok(u2) => None,
                            Err(e2) => Some(e2),
                        };
                        proof {
                            let f2 = choose|f: nat|
                                spec_handler_call(self.handler, ev1, f) == Some(
                                    (ev_mid, Err::<u64, u64>(e.code)),
                                );
                            let f3 = choose|f: nat|
                                spec_handler_catch(self.handler, ev_mid, e.code, f) == Some(
                                    (req.events@, res2.status, opt_code(eo)),
                                );
                            lemma_handler_call_mono(self.handler, ev1, f2, f2 + f3);
                            lemma_handler_catch_mono(self.handler, ev_mid, e.code, f3, f2 + f3);
                            fh = f2 + f3 + 1nat;
                            assert(spec_handle_phase(self.handler, ev1, berr, fh) == Some(
                                (req.events@, res2.status, opt_code(eo)),
                            ));
                        }
                        (res2, eo)
                    },
                }
            },
            Err(e) => {
                let (res2, r2) = self.handler.catch(req, e);
                let eo: Option<Error> = match r2 {
                    Ok(u2) => None,
                    Err(e2) => Some(e2),
                };
                proof {
                    let f3 = choose|f: nat|
                        spec_handler_catch(self.handler, ev1, e.code, f) == Some(
                            (req.events@, res2.status, opt_code(eo)),
                        );
                    fh = f3 + 1nat;
                    assert(spec_handle_phase(self.handler, ev1, berr, fh) == Some(
                        (req.events@, res2.status, opt_code(eo)),
                    ));
                }
                (res2, eo)
            },
        };
        let ghost ev2 = req.events@;
        let ghost resid = opt_code(err_opt);
        proof {
            assert(spec_handle_phase(self.handler, ev1, berr, fh) == Some(
                (ev2, res.status, resid),
            ));
        }
        let r = run_afters(req, res, err_opt, &self.afters);
        proof {
            let ghost aerr: Option<u64> = match r {
                Ok(resp) => None,
                Err(e) => Some(e.code),
            };
            let f4 = choose|f: nat|
                spec_afters(self.afters@, ev2, 0, resid, f) == Some((req.events@, aerr));
            let fbig = f1 + fh + f4;
            lemma_befores_mono(self.befores@, ev0, 0, None, f1, fbig);
            lemma_handle_phase_mono(self.handler, ev1, berr, fh, fbig);
            lemma_afters_mono(self.afters@, ev2, 0, resid, f4, fbig);
            assert(spec_chain_call(*self, ev0, fbig + 1nat) == Some((req.events@, resp_code(r))));
        }
        r
    }

    /// Dispatch as the `catch` of a pipeline nested as a handler: re-enter
    /// at the before-phase in catching mode with the supplied error, then
    /// proceed exactly as `call` does; a terminal failure becomes an
    /// internal-error response paired with the residual error.
    pub fn catch(&self, req: &mut Request, err: Error) -> (r: (Response, Result<(), Error>))
        ensures
            exists|fuel: nat|
                spec_chain_catch(*self, old(req).events@, err.code, fuel) == Some(
                    (final(req).events@, r.0.status, unit_code(r.1)),
                ),
        decreases self, 1int,
    {
        let ghost ev0 = req.events@;
        let before_result = run_befores(req, &self.befores, Some(err));
        let ghost ev1 = req.events@;
        let ghost berr = unit_code(before_result);
        let ghost f1 = choose|f: nat|
            spec_befores(self.befores@, ev0, 0, Some(err.code), f) == Some((ev1, berr));
        let ghost mut fh: nat = 0nat;
        let (res, err_opt): (Response, Option<Error>) = match before_result {
            Ok(u) => {
                let hr = self.handler.call(req);
                match hr {
                    Ok(res) => {
                        proof {
                            let f2 = choose|f: nat|
                                spec_handler_call(self.handler, ev1, f) == Some(
                                    (req.events@, Ok::<u64, u64>(res.status)),
                                );
                            fh = f2 + 1nat;
                            assert(spec_handle_phase(self.handler, ev1, berr, fh) == Some(
                                (req.events@, res.status, None::<u64>),
                            ));
                        }
                        (res, None)
                    },
                    Err(e) => {
                        let ghost ev_mid = req.events@;
                        let (res2, r2) = self.handler.catch(req, e);
                        let eo: Option<Error> = match r2 {
                            Ok(u2) => None,
                            Err(e2) => Some(e2),
                        };
                        proof {
                            let f2 = choose|f: nat|
                                spec_handler_call(self.handler, ev1, f) == Some(
                                    (ev_mid, Err::<u64, u64>(e.code)),
                                );
                            let f3 = choose|f: nat|
                                spec_handler_catch(self.handler, ev_mid, e.code, f) == Some(
                                    (req.events@, res2.status, opt_code(eo)),
                                );
                            lemma_handler_call_mono(self.handler, ev1, f2, f2 + f3);
                            lemma_handler_catch_mono(self.handler, ev_mid, e.code, f3, f2 + f3);
                            fh = f2 + f3 + 1nat;
                            assert(spec_handle_phase(self.handler, ev1, berr, fh) == Some(
                                (req.events@, res2.status, opt_code(eo)),
                            ));
                        }
                        (res2, eo)
                    },
                }
            },
            Err(e) => {
                let (res2, r2) = self.handler.catch(req, e);
                let eo: Option<Error> = match r2 {
                    Ok(u2) => None,
                    Err(e2) => Some(e2),
                };
                proof {
                    let f3 = choose|f: nat|
                        spec_handler_catch(self.handler, ev1, e.code, f) == Some(
                            (req.events@, res2.status, opt_code(eo)),
                        );
                    fh = f3 + 1nat;
                    assert(spec_handle_phase(self.handler, ev1, berr, fh) == Some(
                        (req.events@, res2.status, opt_code(eo)),
                    ));
                }
                (res2, eo)
            },
        };
        let ghost ev2 = req.events@;
        let ghost resid = opt_code(err_opt);
        let ghost st: u64 = res.status;
        let after_result = run_afters(req, res, err_opt, &self.afters);
        let r: (Response, Result<(), Error>) = match after_result {
            Ok(resp) => (resp, Ok(())),
            Err(e) => (Response::with_status(INTERNAL_ERROR_STATUS), Err(e)),
        };
        proof {
            let ghost aerr: Option<u64> = match after_result {
                Ok(resp) => None,
                Err(e) => Some(e.code),
            };
            let f4 = choose|f: nat|
                spec_afters(self.afters@, ev2, 0, resid, f) == Some((req.events@, aerr));
            let fbig = f1 + fh + f4;
            lemma_befores_mono(self.befores@, ev0, 0, Some(err.code), f1, fbig);
            lemma_handle_phase_mono(self.handler, ev1, berr, fh, fbig);
            lemma_afters_mono(self.afters@, ev2, 0, resid, f4, fbig);
            assert(spec_chain_catch(*self, ev0, err.code, fbig + 1nat) == Some(
                (req.events@, r.0.status, unit_code(r.1)),
            ));
        }
        r
    }
}

// ---------------------------------------------------------------------------
// Monotonicity: more fuel never changes a settled answer.  These lemmas let
// callers combine interpreter facts obtained at different fuels, and make
// the interpreter's answer unique, which is what the dispatcher's
// determinism rests on.
// ---------------------------------------------------------------------------

/// A settled before-phase answer is stable under more fuel.
pub proof fn lemma_befores_mono(
    bs: Seq<BeforeMiddleware>,
    ev: Seq<Event>,
    i: int,
    err: Option<u64>,
    f1: nat,
    f2: nat,
)
    requires
        f1 <= f2,
        spec_befores(bs, ev, i, err, f1) is Some,
    ensures
        spec_befores(bs, ev, i, err, f2) == spec_befores(bs, ev, i, err, f1),
    decreases f1,
{
    match err {
        None => {
            if i < bs.len() {
                let s = bs[i];
                let ev2 = ev.push(Event { id: s.id, op: Op::Before });
                match step_outcome(s.action, s.id, Op::Before, ev) {
                    None => lemma_befores_mono(
                        bs,
                        ev2,
                        i + 1,
                        None,
                        (f1 - 1) as nat,
                        (f2 - 1) as nat,
                    ),
                    Some(c) => lemma_befores_mono(
                        bs,
                        ev2,
                        i,
                        Some(c),
                        (f1 - 1) as nat,
                        (f2 - 1) as nat,
                    ),
                }
            }
        },
        Some(e) => {
            if i < bs.len() {
                let s = bs[i];
                let ev2 = ev.push(Event { id: s.id, op: Op::BeforeCatch });
                match catch_outcome(s.on_catch, e) {
                    None => lemma_befores_mono(bs, ev2, 0, None, (f1 - 1) as nat, (f2 - 1) as nat),
                    Some(e2) => lemma_befores_mono(
                        bs,
                        ev2,
                        i + 1,
                        Some(e2),
                        (f1 - 1) as nat,
                        (f2 - 1) as nat,
                    ),
                }
            }
        },
    }
}

/// A settled after-phase answer is stable under more fuel.
pub proof fn lemma_afters_mono(
    ats: Seq<AfterMiddleware>,
    ev: Seq<Event>,
    i: int,
    err: Option<u64>,
    f1: nat,
    f2: nat,
)
    requires
        f1 <= f2,
        spec_afters(ats, ev, i, err, f1) is Some,
    ensures
        spec_afters(ats, ev, i, err, f2) == spec_afters(ats, ev, i, err, f1),
    decreases f1,
{
    match err {
        None => {
            if i < ats.len() {
                let s = ats[i];
                let ev2 = ev.push(Event { id: s.id, op: Op::After });
                match step_outcome(s.action, s.id, Op::After, ev) {
                    None => lemma_afters_mono(
                        ats,
                        ev2,
                        i + 1,
                        None,
                        (f1 - 1) as nat,
                        (f2 - 1) as nat,
                    ),
                    Some(c) => lemma_afters_mono(
                        ats,
                        ev2,
                        i,
                        Some(c),
                        (f1 - 1) as nat,
                        (f2 - 1) as nat,
                    ),
                }
            }
        },
        Some(e) => {
            if i < ats.len() {
                let s = ats[i];
                let ev2 = ev.push(Event { id: s.id, op: Op::AfterCatch });
                match catch_outcome(s.on_catch, e) {
                    None => lemma_afters_mono(
                        ats,
                        ev2,
                        i + 1,
                        None,
                        (f1 - 1) as nat,
                        (f2 - 1) as nat,
                    ),
                    Some(e2) => lemma_afters_mono(
                        ats,
                        ev2,
                        i + 1,
                        Some(e2),
                        (f1 - 1) as nat,
                        (f2 - 1) as nat,
                    ),
                }
            }
        },
    }
}

/// A settled handler-call answer is stable under more fuel.
pub proof fn lemma_handler_call_mono(h: Handler, ev: Seq<Event>, f1: nat, f2: nat)
    requires
        f1 <= f2,
        spec_handler_call(h, ev, f1) is Some,
    ensures
        spec_handler_call(h, ev, f2) == spec_handler_call(h, ev, f1),
    decreases f1,
{
    match h {
        Handler::Nop => {},
        Handler::Scripted { id, action, on_catch } => {},
        Handler::Around(a) => {
            let ev2 = ev.push(Event { id: a.id, op: Op::Pre });
            lemma_handler_call_mono(*a.inner, ev2, (f1 - 1) as nat, (f2 - 1) as nat);
        },
        Handler::SubChain(c) => {
            lemma_chain_call_mono(*c, ev, (f1 - 1) as nat, (f2 - 1) as nat);
        },
    }
}

/// A settled handler-catch answer is stable under more fuel.
pub proof fn lemma_handler_catch_mono(h: Handler, ev: Seq<Event>, e: u64, f1: nat, f2: nat)
    requires
        f1 <= f2,
        spec_handler_catch(h, ev, e, f1) is Some,
    ensures
        spec_handler_catch(h, ev, e, f2) == spec_handler_catch(h, ev, e, f1),
    decreases f1,
{
    match h {
        Handler::SubChain(c) => {
            lemma_chain_catch_mono(*c, ev, e, (f1 - 1) as nat, (f2 - 1) as nat);
        },
        _ => {},
    }
}

/// A settled handle-phase answer is stable under more fuel.
pub proof fn lemma_handle_phase_mono(h: Handler, ev: Seq<Event>, berr: Option<u64>, f1: nat, f2: nat)
    requires
        f1 <= f2,
        spec_handle_phase(h, ev, berr, f1) is Some,
    ensures
        spec_handle_phase(h, ev, berr, f2) == spec_handle_phase(h, ev, berr, f1),
    decreases f1,
{
    match berr {
        None => {
            lemma_handler_call_mono(h, ev, (f1 - 1) as nat, (f2 - 1) as nat);
            match spec_handler_call(h, ev, (f1 - 1) as nat) {
                None => {},
                Some((ev2, rc)) => match rc {
                    Ok(st) => {},
                    Err(e) => lemma_handler_catch_mono(h, ev2, e, (f1 - 1) as nat, (f2 - 1) as nat),
                },
            }
        },
        Some(e) => {
            lemma_handler_catch_mono(h, ev, e, (f1 - 1) as nat, (f2 - 1) as nat);
        },
    }
}

/// A settled top-level dispatch answer is stable under more fuel.
pub proof fn lemma_chain_call_mono(c: ChainBuilder, ev: Seq<Event>, f1: nat, f2: nat)
    requires
        f1 <= f2,
        spec_chain_call(c, ev, f1) is Some,
    ensures
        spec_chain_call(c, ev, f2) == spec_chain_call(c, ev, f1),
    decreases f1,
{
    lemma_befores_mono(c.befores@, ev, 0, None, (f1 - 1) as nat, (f2 - 1) as nat);
    match spec_befores(c.befores@, ev, 0, None, (f1 - 1) as nat) {
        None => {},
        Some((ev1, berr)) => {
            lemma_handle_phase_mono(c.handler, ev1, berr, (f1 - 1) as nat, (f2 - 1) as nat);
            match spec_handle_phase(c.handler, ev1, berr, (f1 - 1) as nat) {
                None => {},
                Some((ev2, st, resid)) => {
                    lemma_afters_mono(c.afters@, ev2, 0, resid, (f1 - 1) as nat, (f2 - 1) as nat);
                },
            }
        },
    }
}

/// A settled nested dispatch answer is stable under more fuel.
pub proof fn lemma_chain_catch_mono(c: ChainBuilder, ev: Seq<Event>, e0: u64, f1: nat, f2: nat)
    requires
        f1 <= f2,
        spec_chain_catch(c, ev, e0, f1) is Some,
    ensures
        spec_chain_catch(c, ev, e0, f2) == spec_chain_catch(c, ev, e0, f1),
    decreases f1,
{
    lemma_befores_mono(c.befores@, ev, 0, Some(e0), (f1 - 1) as nat, (f2 - 1) as nat);
    match spec_befores(c.befores@, ev, 0, Some(e0), (f1 - 1) as nat) {
        None => {},
        Some((ev1, berr)) => {
            lemma_handle_phase_mono(c.handler, ev1, berr, (f1 - 1) as nat, (f2 - 1) as nat);
            match spec_handle_phase(c.handler, ev1, berr, (f1 - 1) as nat) {
                None => {},
                Some((ev2, st, resid)) => {
                    lemma_afters_mono(c.afters@, ev2, 0, resid, (f1 - 1) as nat, (f2 - 1) as nat);
                },
            }
        },
    }
}

/// The no-op handler: the placeholder held by a wrapping stage before
/// installation and by the handler slot while it is being swapped.
pub struct Nop;

impl Nop {
    /// Succeed with a default response, leaving the request untouched.
    pub fn call(&self, req: &mut Request) -> (r: Result<Response, Error>)
        ensures
            final(req).events@ == old(req).events@,
            r == Ok::<Response, Error>(Response { status: DEFAULT_STATUS }),
    {
        Ok(Response::new())
    }

    /// Decline to handle the error: an internal-error response plus the
    /// unchanged error.
    pub fn catch(&self, req: &mut Request, err: Error) -> (r: (Response, Result<(), Error>))
        ensures
            final(req).events@ == old(req).events@,
            r.0.status == INTERNAL_ERROR_STATUS,
            r.1 == Err::<(), Error>(err),
    {
        (Response::with_status(INTERNAL_ERROR_STATUS), Err(err))
    }
}

} // verus!
