//! Laws of the dispatch algorithm, stated over the interpreter in
//! [`crate::pipeline`] and proved once and for all.
//!
//! Every executable dispatch entry point is proved to agree with that
//! interpreter, so each law here is a law of the executable pipeline too.

use vstd::prelude::*;

use crate::pipeline::{
    AfterMiddleware, AroundMiddleware, BeforeMiddleware, CatchAction, ChainBuilder, Event, Handler,
    Op, catch_outcome, lemma_afters_mono, lemma_befores_mono, lemma_chain_call_mono,
    lemma_handler_call_mono, lemma_handler_catch_mono, spec_afters,
    spec_befores, spec_chain_call, spec_handle_phase, spec_handler_call, spec_handler_catch,
    step_outcome,
};

verus! {

/// How many events of this stage and operation a log holds.
pub open spec fn count_op(ev: Seq<Event>, id: u64, op: Op) -> nat
    decreases ev.len(),
{
    if ev.len() == 0 {
        0
    } else {
        count_op(ev.drop_last(), id, op) + (if ev.last().id == id && ev.last().op == op {
            1nat
        } else {
            0nat
        })
    }
}

/// Appending one event raises exactly the matching count by one.
pub proof fn lemma_count_op_push(ev: Seq<Event>, e: Event, id: u64, op: Op)
    ensures
        count_op(ev.push(e), id, op) == count_op(ev, id, op) + (if e.id == id && e.op == op {
            1nat
        } else {
            0nat
        }),
{
    assert(ev.push(e).drop_last() =~= ev);
    assert(ev.push(e).last() == e);
}

/// The before-phase only ever logs `Before` and `BeforeCatch` events: every
/// other count is untouched, whatever happens.
pub proof fn lemma_befores_count(
    bs: Seq<BeforeMiddleware>,
    ev: Seq<Event>,
    i: int,
    err: Option<u64>,
    fuel: nat,
    id: u64,
    op: Op,
)
    requires
        op != Op::Before,
        op != Op::BeforeCatch,
        spec_befores(bs, ev, i, err, fuel) is Some,
    ensures
        spec_befores(bs, ev, i, err, fuel) matches Some(p) ==> count_op(p.0, id, op) == count_op(
            ev,
            id,
            op,
        ),
    decreases fuel,
{
    match err {
        None => {
            if i < bs.len() {
                let s = bs[i];
                let e = Event { id: s.id, op: Op::Before };
                lemma_count_op_push(ev, e, id, op);
                match step_outcome(s.action, s.id, Op::Before, ev) {
                    None => lemma_befores_count(
                        bs,
                        ev.push(e),
                        i + 1,
                        None,
                        (fuel - 1) as nat,
                        id,
                        op,
                    ),
                    Some(c) => lemma_befores_count(
                        bs,
                        ev.push(e),
                        i,
                        Some(c),
                        (fuel - 1) as nat,
                        id,
                        op,
                    ),
                }
            }
        },
        Some(e0) => {
            if i < bs.len() {
                let s = bs[i];
                let e = Event { id: s.id, op: Op::BeforeCatch };
                lemma_count_op_push(ev, e, id, op);
                match catch_outcome(s.on_catch, e0) {
                    None => lemma_befores_count(bs, ev.push(e), 0, None, (fuel - 1) as nat, id, op),
                    Some(e2) => lemma_befores_count(
                        bs,
                        ev.push(e),
                        i + 1,
                        Some(e2),
                        (fuel - 1) as nat,
                        id,
                        op,
                    ),
                }
            }
        },
    }
}

/// The after-phase only ever logs `After` and `AfterCatch` events: every
/// other count is untouched, whatever happens.
pub proof fn lemma_afters_count(
    ats: Seq<AfterMiddleware>,
    ev: Seq<Event>,
    i: int,
    err: Option<u64>,
    fuel: nat,
    id: u64,
    op: Op,
)
    requires
        op != Op::After,
        op != Op::AfterCatch,
        spec_afters(ats, ev, i, err, fuel) is Some,
    ensures
        spec_afters(ats, ev, i, err, fuel) matches Some(p) ==> count_op(p.0, id, op) == count_op(
            ev,
            id,
            op,
        ),
    decreases fuel,
{
    match err {
        None => {
            if i < ats.len() {
                let s = ats[i];
                let e = Event { id: s.id, op: Op::After };
                lemma_count_op_push(ev, e, id, op);
                match step_outcome(s.action, s.id, Op::After, ev) {
                    None => lemma_afters_count(
                        ats,
                        ev.push(e),
                        i + 1,
                        None,
                        (fuel - 1) as nat,
                        id,
                        op,
                    ),
                    Some(c) => lemma_afters_count(
                        ats,
                        ev.push(e),
                        i,
                        Some(c),
                        (fuel - 1) as nat,
                        id,
                        op,
                    ),
                }
            }
        },
        Some(e0) => {
            if i < ats.len() {
                let s = ats[i];
                let e = Event { id: s.id, op: Op::AfterCatch };
                lemma_count_op_push(ev, e, id, op);
                match catch_outcome(s.on_catch, e0) {
                    None => lemma_afters_count(
                        ats,
                        ev.push(e),
                        i + 1,
                        None,
                        (fuel - 1) as nat,
                        id,
                        op,
                    ),
                    Some(e2) => lemma_afters_count(
                        ats,
                        ev.push(e),
                        i + 1,
                        Some(e2),
                        (fuel - 1) as nat,
                        id,
                        op,
                    ),
                }
            }
        },
    }
}

/// The error that leaves a run of catching before-stages none of which
/// resolves: each `Replace` substitutes its code, each `Rethrow` passes the
/// current one on.
pub open spec fn folded_before_err(bs: Seq<BeforeMiddleware>, i: int, e: u64) -> u64
    decreases bs.len() - i,
{
    if i < 0 || i >= bs.len() {
        e
    } else {
        match bs[i].on_catch {
            CatchAction::Replace(c) => folded_before_err(bs, i + 1, c),
            CatchAction::Rethrow => folded_before_err(bs, i + 1, e),
            CatchAction::Resolve => folded_before_err(bs, i + 1, e),
        }
    }
}

/// When a before-stage fails and no stage from it onward can catch, the
/// before-phase exhausts its list in catching mode and ends in failure with
/// the folded error: that error, and no other, is what reaches the
/// handler's `catch`.
pub proof fn lemma_befores_uncaught(bs: Seq<BeforeMiddleware>, ev: Seq<Event>, i: int, e: u64)
    requires
        0 <= i <= bs.len(),
        forall|j: int| i <= j < bs.len() ==> !(bs[j].on_catch is Resolve),
    ensures
        spec_befores(bs, ev, i, Some(e), (bs.len() - i + 1) as nat) is Some,
        spec_befores(bs, ev, i, Some(e), (bs.len() - i + 1) as nat) matches Some(p) ==> p.1
            == Some(folded_before_err(bs, i, e)),
    decreases bs.len() - i,
{
    if i == bs.len() {
        assert(spec_befores(bs, ev, i, Some(e), 1nat) == Some((ev, Some(e))));
    } else {
        let s = bs[i];
        let ev2 = ev.push(Event { id: s.id, op: Op::BeforeCatch });
        assert(!(s.on_catch is Resolve));
        match s.on_catch {
            CatchAction::Rethrow => {
                lemma_befores_uncaught(bs, ev2, i + 1, e);
                assert(spec_befores(bs, ev, i, Some(e), (bs.len() - i + 1) as nat)
                    == spec_befores(bs, ev2, i + 1, Some(e), (bs.len() - (i + 1) + 1) as nat));
            },
            CatchAction::Replace(c) => {
                lemma_befores_uncaught(bs, ev2, i + 1, c);
                assert(spec_befores(bs, ev, i, Some(e), (bs.len() - i + 1) as nat)
                    == spec_befores(bs, ev2, i + 1, Some(c), (bs.len() - (i + 1) + 1) as nat));
            },
            CatchAction::Resolve => {},
        }
    }
}

/// A before-stage list's failure falls to the handler's `catch`: when the
/// before-phase ends in failure with error `e`, the whole dispatch proceeds
/// by the handler's `catch` on exactly `e`; the handler's normal `call` is
/// never invoked — a scripted handler gains one `Catch` event and no `Call`
/// event in the final log.
pub proof fn lemma_before_failure_reaches_handler_catch(
    c: ChainBuilder,
    ev: Seq<Event>,
    f1: nat,
    f2: nat,
    f3: nat,
    ev1: Seq<Event>,
    e: u64,
    ev2: Seq<Event>,
    st: u64,
    resid: Option<u64>,
    ev3: Seq<Event>,
    aerr: Option<u64>,
)
    requires
        spec_befores(c.befores@, ev, 0, None, f1) == Some((ev1, Some(e))),
        spec_handler_catch(c.handler, ev1, e, f2) == Some((ev2, st, resid)),
        spec_afters(c.afters@, ev2, 0, resid, f3) == Some((ev3, aerr)),
    ensures
        spec_chain_call(c, ev, f1 + f2 + f3 + 2) == Some(
            (ev3, (match aerr {
                None => Ok(st),
                Some(ec) => Err(ec),
            })),
        ),
        c.handler matches Handler::Scripted { id, action, on_catch } ==> count_op(
            ev3,
            id,
            Op::Call,
        ) == count_op(ev, id, Op::Call),
        c.handler matches Handler::Scripted { id, action, on_catch } ==> count_op(
            ev3,
            id,
            Op::Catch,
        ) == count_op(ev1, id, Op::Catch) + 1,
{
    let fbig = (f1 + f2 + f3) as nat;
    lemma_befores_mono(c.befores@, ev, 0, None, f1, (fbig + 1) as nat);
    lemma_handler_catch_mono(c.handler, ev1, e, f2, fbig);
    assert(spec_handle_phase(c.handler, ev1, Some(e), (fbig + 1) as nat) == Some(
        (ev2, st, resid),
    ));
    lemma_afters_mono(c.afters@, ev2, 0, resid, f3, (fbig + 1) as nat);
    assert(spec_chain_call(c, ev, (fbig + 2) as nat) == Some(
        (ev3, (match aerr {
            None => Ok::<u64, u64>(st),
            Some(ec) => Err::<u64, u64>(ec),
        })),
    ));
    match c.handler {
        Handler::Scripted { id, action, on_catch } => {
            lemma_befores_count(c.befores@, ev, 0, None, f1, id, Op::Call);
            lemma_befores_count(c.befores@, ev, 0, None, f1, id, Op::Catch);
            let ce = Event { id: id, op: Op::Catch };
            assert(ev2 == ev1.push(ce));
            lemma_count_op_push(ev1, ce, id, Op::Call);
            lemma_count_op_push(ev1, ce, id, Op::Catch);
            lemma_afters_count(c.afters@, ev2, 0, resid, f3, id, Op::Call);
            lemma_afters_count(c.afters@, ev2, 0, resid, f3, id, Op::Catch);
        },
        _ => {},
    }
}

/// A successful catch in the before-phase restarts forward mode at index 0
/// of the whole before list: every stage runs its primary operation on the
/// second pass, including those that had already succeeded.
pub proof fn lemma_before_resolve_restarts_at_zero(
    bs: Seq<BeforeMiddleware>,
    ev: Seq<Event>,
    i: int,
    e: u64,
    fuel: nat,
)
    requires
        0 <= i < bs.len(),
        bs[i].on_catch is Resolve,
    ensures
        spec_befores(bs, ev, i, Some(e), fuel + 1) == spec_befores(
            bs,
            ev.push(Event { id: bs[i].id, op: Op::BeforeCatch }),
            0,
            None,
            fuel,
        ),
{
}

/// A successful catch in the after-phase resumes forward mode at the index
/// just after the catching stage: stages before it are not re-run.  This is
/// the deliberate counterpart to the before-phase's restart from index 0.
pub proof fn lemma_after_resolve_resumes_next(
    ats: Seq<AfterMiddleware>,
    ev: Seq<Event>,
    i: int,
    e: u64,
    fuel: nat,
)
    requires
        0 <= i < ats.len(),
        ats[i].on_catch is Resolve,
    ensures
        spec_afters(ats, ev, i, Some(e), fuel + 1) == spec_afters(
            ats,
            ev.push(Event { id: ats[i].id, op: Op::AfterCatch }),
            i + 1,
            None,
            fuel,
        ),
{
}

/// The error that leaves a run of catching stages none of which resolves:
/// each `Replace` substitutes its code, each `Rethrow` passes the current
/// one on.
pub open spec fn folded_err(ats: Seq<AfterMiddleware>, i: int, e: u64) -> u64
    decreases ats.len() - i,
{
    if i < 0 || i >= ats.len() {
        e
    } else {
        match ats[i].on_catch {
            CatchAction::Replace(c) => folded_err(ats, i + 1, c),
            CatchAction::Rethrow => folded_err(ats, i + 1, e),
            CatchAction::Resolve => folded_err(ats, i + 1, e),
        }
    }
}

/// When no remaining after-stage resolves, the after-phase exhausts its
/// list in catching mode and ends in failure with the folded error.
pub proof fn lemma_afters_uncaught(ats: Seq<AfterMiddleware>, ev: Seq<Event>, i: int, e: u64)
    requires
        0 <= i <= ats.len(),
        forall|j: int| i <= j < ats.len() ==> !(ats[j].on_catch is Resolve),
    ensures
        spec_afters(ats, ev, i, Some(e), (ats.len() - i + 1) as nat) is Some,
        spec_afters(ats, ev, i, Some(e), (ats.len() - i + 1) as nat) matches Some(p) ==> p.1
            == Some(folded_err(ats, i, e)),
    decreases ats.len() - i,
{
    if i == ats.len() {
        assert(spec_afters(ats, ev, i, Some(e), 1nat) == Some((ev, Some(e))));
    } else {
        let s = ats[i];
        let ev2 = ev.push(Event { id: s.id, op: Op::AfterCatch });
        assert(!(s.on_catch is Resolve));
        match s.on_catch {
            CatchAction::Rethrow => {
                lemma_afters_uncaught(ats, ev2, i + 1, e);
                assert(spec_afters(ats, ev, i, Some(e), (ats.len() - i + 1) as nat)
                    == spec_afters(ats, ev2, i + 1, Some(e), (ats.len() - (i + 1) + 1) as nat));
            },
            CatchAction::Replace(c) => {
                lemma_afters_uncaught(ats, ev2, i + 1, c);
                assert(spec_afters(ats, ev, i, Some(e), (ats.len() - i + 1) as nat)
                    == spec_afters(ats, ev2, i + 1, Some(c), (ats.len() - (i + 1) + 1) as nat));
            },
            CatchAction::Resolve => {},
        }
    }
}

/// If no after-stage catches a handler-originated error, the overall call
/// is a failure carrying the final — possibly replaced — error value.
pub proof fn lemma_uncaught_handler_error_fails_call(
    c: ChainBuilder,
    ev: Seq<Event>,
    f1: nat,
    f2: nat,
    f3: nat,
    ev1: Seq<Event>,
    ev2: Seq<Event>,
    e0: u64,
    ev3: Seq<Event>,
    st: u64,
    e: u64,
)
    requires
        spec_befores(c.befores@, ev, 0, None, f1) == Some((ev1, None::<u64>)),
        spec_handler_call(c.handler, ev1, f2) == Some((ev2, Err::<u64, u64>(e0))),
        spec_handler_catch(c.handler, ev2, e0, f3) == Some((ev3, st, Some(e))),
        forall|j: int| 0 <= j < c.afters@.len() ==> !(c.afters@[j].on_catch is Resolve),
    ensures
        spec_chain_call(c, ev, (f1 + f2 + f3 + c.afters@.len() + 3) as nat) is Some,
        spec_chain_call(c, ev, (f1 + f2 + f3 + c.afters@.len() + 3) as nat) matches Some(p)
            ==> p.1 == Err::<u64, u64>(folded_err(c.afters@, 0, e)),
{
    lemma_afters_uncaught(c.afters@, ev3, 0, e);
    let f4 = (c.afters@.len() + 1) as nat;
    let r4 = spec_afters(c.afters@, ev3, 0, Some(e), f4);
    match r4 {
        Some(res4) => {
            let fbig = (f1 + f2 + f3 + f4) as nat;
            lemma_befores_mono(c.befores@, ev, 0, None, f1, (fbig + 1) as nat);
            lemma_handler_call_mono(c.handler, ev1, f2, fbig);
            lemma_handler_catch_mono(c.handler, ev2, e0, f3, fbig);
            assert(spec_handle_phase(c.handler, ev1, None, (fbig + 1) as nat) == Some(
                (ev3, st, Some(e)),
            ));
            lemma_afters_mono(c.afters@, ev3, 0, Some(e), f4, (fbig + 1) as nat);
            assert(spec_chain_call(c, ev, (fbig + 2) as nat) == Some(
                (res4.0, Err::<u64, u64>(folded_err(c.afters@, 0, e))),
            ));
        },
        None => {
            assert(false);
        },
    }
}

/// A wrapping stage wraps exactly the handler present at the moment it was
/// installed, and delegates in order: its own work on the way in, then that
/// handler's whole run, then its work on the way out.  A later wrap wraps
/// this one, so the last stage added is outermost.
pub proof fn lemma_around_call_order(
    a: AroundMiddleware,
    ev: Seq<Event>,
    fuel: nat,
    ev2: Seq<Event>,
    rc: Result<u64, u64>,
)
    requires
        spec_handler_call(*a.inner, ev.push(Event { id: a.id, op: Op::Pre }), fuel) == Some(
            (ev2, rc),
        ),
    ensures
        spec_handler_call(Handler::Around(a), ev, fuel + 1) == Some(
            (ev2.push(Event { id: a.id, op: Op::Post }), rc),
        ),
{
}

/// The interpreter's settled answer is unique: two dispatches of one
/// assembled pipeline from equal starting logs settle on the same final log
/// and result.  `call` takes the pipeline by shared reference and all
/// per-call state lives in the request, so nothing leaks between calls.
pub proof fn lemma_chain_call_deterministic(c: ChainBuilder, ev: Seq<Event>, fa: nat, fb: nat)
    requires
        spec_chain_call(c, ev, fa) is Some,
        spec_chain_call(c, ev, fb) is Some,
    ensures
        spec_chain_call(c, ev, fa) == spec_chain_call(c, ev, fb),
{
    if fa <= fb {
        lemma_chain_call_mono(c, ev, fa, fb);
    } else {
        lemma_chain_call_mono(c, ev, fb, fa);
    }
}

} // verus!
