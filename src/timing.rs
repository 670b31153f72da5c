use vstd::prelude::*;

verus! {

/// Whether a response counts as a success or an error.
#[derive(Clone, Copy, Debug, PartialEq, Eq, Structural)]
pub enum StatusClass {
    Success,
    Error,
}

/// How a request ended: with a response of this HTTP status, or cancelled
/// before the handler produced one.
#[derive(Clone, Copy, Debug, PartialEq, Eq, Structural)]
pub enum Outcome {
    Responded(u16),
    Cancelled,
}

/// A metric to send: the in-flight counter `ongoing_requests` up or down by
/// one, or the `response` timer with its `status` tag.
#[derive(Clone, Copy, Debug, PartialEq, Eq, Structural)]
pub enum MetricEvent {
    Increment,
    Decrement,
    ResponseTime { millis: u64, status: StatusClass },
}

pub open spec fn class_of(outcome: Outcome) -> StatusClass {
    match outcome {
        Outcome::Responded(s) => if 200 <= s <= 299 {
            StatusClass::Success
        } else {
            StatusClass::Error
        },
        Outcome::Cancelled => StatusClass::Error,
    }
}

/// The class of an outcome: a response in the 2xx range is a success;
/// anything else, and a cancellation, is an error.
pub fn status_class(outcome: Outcome) -> (r: StatusClass)
    ensures
        r == class_of(outcome),
{
    match outcome {
        Outcome::Responded(s) => if 200 <= s && s <= 299 {
            StatusClass::Success
        } else {
            StatusClass::Error
        },
        Outcome::Cancelled => StatusClass::Error,
    }
}

impl StatusClass {
    /// The value of the `status` tag.
    pub fn tag(&self) -> (r: &'static str)
        ensures
            r@ == (if *self == StatusClass::Success { "success"@ } else { "error"@ }),
    {
        match self {
            StatusClass::Success => "success",
            StatusClass::Error => "error",
        }
    }
}

impl MetricEvent {
    /// The name of the metric on the wire.
    pub fn name(&self) -> (r: &'static str)
        ensures
            r@ == (if *self is ResponseTime { "response"@ } else { "ongoing_requests"@ }),
    {
        match self {
            MetricEvent::ResponseTime { .. } => "response",
            _ => "ongoing_requests",
        }
    }
}

/// The timing state of one request, from its start to its end.
#[derive(Debug)]
pub struct RequestTimer {
    pub instrumented: bool,
    pub started_ms: u64,
}

pub open spec fn start_events(metrics_available: bool) -> Seq<MetricEvent> {
    if metrics_available {
        seq![MetricEvent::Increment]
    } else {
        seq![]
    }
}

pub open spec fn elapsed(started_ms: u64, now_ms: u64) -> u64 {
    if now_ms >= started_ms { (now_ms - started_ms) as u64 } else { 0 }
}

pub open spec fn finish_events(timer: RequestTimer, outcome: Outcome, now_ms: u64) -> Seq<MetricEvent> {
    if timer.instrumented {
        seq![
            MetricEvent::ResponseTime {
                millis: elapsed(timer.started_ms, now_ms),
                status: class_of(outcome),
            },
            MetricEvent::Decrement,
        ]
    } else {
        seq![]
    }
}

impl RequestTimer {
    /// Starts timing a request at `now_ms`. Where the metrics client is not
    /// available the request passes through untimed and nothing is emitted;
    /// else the in-flight counter goes up.
    pub fn start(metrics_available: bool, now_ms: u64) -> (r: (RequestTimer, Vec<MetricEvent>))
        ensures
            r.0.instrumented == metrics_available,
            r.0.started_ms == now_ms,
            r.1@ == start_events(metrics_available),
    {
        let mut events: Vec<MetricEvent> = Vec::new();
        if metrics_available {
            events.push(MetricEvent::Increment);
        }
        assert(events@ =~= start_events(metrics_available));
        (RequestTimer { instrumented: metrics_available, started_ms: now_ms }, events)
    }

    /// Ends the request at `now_ms` with `outcome`: the response timer with
    /// the outcome's class and the time since the start (none if the clock
    /// went back), then the in-flight counter down. Taking the timer by value
    /// makes this happen once per request.
    pub fn finish(self, outcome: Outcome, now_ms: u64) -> (r: Vec<MetricEvent>)
        ensures
            r@ == finish_events(self, outcome, now_ms),
    {
        let mut events: Vec<MetricEvent> = Vec::new();
        if self.instrumented {
            let millis: u64 = if now_ms >= self.started_ms {
                now_ms - self.started_ms
            } else {
                0
            };
            events.push(MetricEvent::ResponseTime { millis, status: status_class(outcome) });
            events.push(MetricEvent::Decrement);
        }
        assert(events@ =~= finish_events(self, outcome, now_ms));
        events
    }
}

/// How many of `evs` are `Increment`.
pub open spec fn increments(evs: Seq<MetricEvent>) -> nat
    decreases evs.len(),
{
    if evs.len() == 0 {
        0
    } else {
        increments(evs.drop_last()) + if evs.last() is Increment { 1nat } else { 0nat }
    }
}

/// How many of `evs` are `Decrement`.
pub open spec fn decrements(evs: Seq<MetricEvent>) -> nat
    decreases evs.len(),
{
    if evs.len() == 0 {
        0
    } else {
        decrements(evs.drop_last()) + if evs.last() is Decrement { 1nat } else { 0nat }
    }
}

/// How many of `evs` are response timers with status class `c`.
pub open spec fn timers_with(evs: Seq<MetricEvent>, c: StatusClass) -> nat
    decreases evs.len(),
{
    if evs.len() == 0 {
        0
    } else {
        timers_with(evs.drop_last(), c) + if evs.last() matches MetricEvent::ResponseTime {
            status,
            ..
        } && status == c {
            1nat
        } else {
            0nat
        }
    }
}

/// How many of `evs` are response timers.
pub open spec fn timers(evs: Seq<MetricEvent>) -> nat
    decreases evs.len(),
{
    if evs.len() == 0 {
        0
    } else {
        timers(evs.drop_last()) + if evs.last() is ResponseTime { 1nat } else { 0nat }
    }
}

/// Everything one request emits, from its start at `t0` to its end at `t1`.
pub open spec fn request_events(metrics_available: bool, outcome: Outcome, t0: u64, t1: u64) -> Seq<
    MetricEvent,
> {
    start_events(metrics_available) + finish_events(
        RequestTimer { instrumented: metrics_available, started_ms: t0 },
        outcome,
        t1,
    )
}


/// Every completed request that was timed emits one increment and one
/// decrement of the in-flight counter and one response timer, whose status
/// is the class of its outcome; one that passed through untimed emits nothing.
pub proof fn lemma_request_emits_once(metrics_available: bool, outcome: Outcome, t0: u64, t1: u64)
    ensures
        metrics_available ==> {
            let evs = request_events(metrics_available, outcome, t0, t1);
            &&& increments(evs) == 1
            &&& decrements(evs) == 1
            &&& timers(evs) == 1
            &&& timers_with(evs, class_of(outcome)) == 1
        },
        !metrics_available ==> request_events(metrics_available, outcome, t0, t1).len() == 0,
{
    let evs = request_events(metrics_available, outcome, t0, t1);
    if metrics_available {
        assert(evs =~= seq![
            MetricEvent::Increment,
            MetricEvent::ResponseTime { millis: elapsed(t0, t1), status: class_of(outcome) },
            MetricEvent::Decrement,
        ]);
        reveal_with_fuel(increments, 4);
        reveal_with_fuel(decrements, 4);
        reveal_with_fuel(timers, 4);
        reveal_with_fuel(timers_with, 4);
        assert(evs.drop_last().drop_last().drop_last() =~= Seq::<MetricEvent>::empty());
    } else {
        assert(evs =~= Seq::<MetricEvent>::empty());
    }
}

/// One run of a request: whether metrics were available, how it ended, and
/// when it started and ended.
pub struct RequestRun {
    pub metrics_available: bool,
    pub outcome: Outcome,
    pub started_ms: u64,
    pub ended_ms: u64,
}

/// Everything that `runs` emit, run after run.
pub open spec fn all_events(runs: Seq<RequestRun>) -> Seq<MetricEvent>
    decreases runs.len(),
{
    if runs.len() == 0 {
        seq![]
    } else {
        let r = runs.last();
        all_events(runs.drop_last()) + request_events(
            r.metrics_available,
            r.outcome,
            r.started_ms,
            r.ended_ms,
        )
    }
}

proof fn lemma_counts_add(a: Seq<MetricEvent>, b: Seq<MetricEvent>)
    ensures
        increments(a + b) == increments(a) + increments(b),
        decrements(a + b) == decrements(a) + decrements(b),
    decreases b.len(),
{
    if b.len() == 0 {
        assert(a + b =~= a);
    } else {
        assert((a + b).drop_last() =~= a + b.drop_last());
        lemma_counts_add(a, b.drop_last());
    }
}

/// Once all of any number of requests have completed, whatever their
/// outcomes, the in-flight counter has gone up as often as it went down.
pub proof fn lemma_completed_requests_balance(runs: Seq<RequestRun>)
    ensures
        increments(all_events(runs)) == decrements(all_events(runs)),
    decreases runs.len(),
{
    if runs.len() > 0 {
        let r = runs.last();
        lemma_completed_requests_balance(runs.drop_last());
        lemma_request_emits_once(r.metrics_available, r.outcome, r.started_ms, r.ended_ms);
        let evs = request_events(r.metrics_available, r.outcome, r.started_ms, r.ended_ms);
        lemma_counts_add(all_events(runs.drop_last()), evs);
        if !r.metrics_available {
            assert(evs =~= Seq::<MetricEvent>::empty());
        }
    }
}

} // verus!
