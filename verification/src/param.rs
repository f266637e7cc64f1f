//! The timeline of an automated parameter: which scheduled event governs
//! the value at a given time.
//!
//! Times are carried as the bit patterns of non-negative doubles, in
//! seconds: among such patterns the order of the unsigned integers is the
//! order of the times. Values are carried as the bit patterns of singles.
//! The timeline keeps the events in order and selects the governing one;
//! the value itself is computed from the selected events by the caller.

use vstd::prelude::*;
use crossbeam_channel::Receiver;
use crate::channel::{queued, try_recv, Received};
use crate::error::ConfigurationError;
use crate::render::topology::ParamId;
use crate::render::order::NodeId;
use crate::RENDER_QUANTUM_SIZE;

verus! {

/// How often a parameter is evaluated.
#[derive(Clone, Copy, Debug, PartialEq, Eq, Structural)]
pub enum AutomationRate {
    /// Once per frame.
    A,
    /// Once per quantum, for the whole quantum.
    K,
}

/// A scheduled change of the value of a parameter.
#[derive(Clone, Debug, PartialEq, Eq)]
pub enum AutomationEvent {
    /// From `time` on the value is `value`.
    SetValue { time: u64, value: u32 },
    /// The value moves in a straight line from where it was at the event
    /// before, to reach `value` at `time`.
    LinearRampToValue { time: u64, value: u32 },
    /// The value moves along an exponential from where it was at the event
    /// before, to reach `value` at `time`.
    ExponentialRampToValue { time: u64, value: u32 },
    /// From `time` on the value approaches `value` exponentially, at the
    /// pace that `time_constant` gives.
    SetTargetAtTime { time: u64, value: u32, time_constant: u64 },
    /// From `time` on, for `duration`, the value follows `curve`.
    SetValueCurve { time: u64, duration: u64, curve: Vec<u32> },
}

/// The segment of the timeline that governs the value at some time.
#[derive(Clone, Copy, Debug, PartialEq, Eq, Structural)]
pub enum Segment {
    /// No event has begun and no ramp leads up to the time: the value is
    /// the one that was set directly, or the default.
    Intrinsic,
    /// The event at this place has begun and none after it has: its rule
    /// gives the value.
    Hold { event: usize },
    /// The time lies before the ramp at place `to`, and after the event
    /// before it: the value is on its way to the target of the ramp. The
    /// ramp starts from the intrinsic value where it is the first event.
    Ramp { to: usize },
}

/// The time at which an event begins or, for a ramp, arrives.
pub open spec fn time_of(e: AutomationEvent) -> u64 {
    match e {
        AutomationEvent::SetValue { time, .. } => time,
        AutomationEvent::LinearRampToValue { time, .. } => time,
        AutomationEvent::ExponentialRampToValue { time, .. } => time,
        AutomationEvent::SetTargetAtTime { time, .. } => time,
        AutomationEvent::SetValueCurve { time, .. } => time,
    }
}

/// Whether an event is a ramp, which governs the time before it.
pub open spec fn is_ramp(e: AutomationEvent) -> bool {
    e is LinearRampToValue || e is ExponentialRampToValue
}

/// The same event at another time.
pub open spec fn retimed(e: AutomationEvent, t: u64) -> AutomationEvent {
    match e {
        AutomationEvent::SetValue { time, value } => AutomationEvent::SetValue { time: t, value },
        AutomationEvent::LinearRampToValue { time, value } => AutomationEvent::LinearRampToValue {
            time: t,
            value,
        },
        AutomationEvent::ExponentialRampToValue { time, value } => AutomationEvent::ExponentialRampToValue {
            time: t,
            value,
        },
        AutomationEvent::SetTargetAtTime { time, value, time_constant } => AutomationEvent::SetTargetAtTime {
            time: t,
            value,
            time_constant,
        },
        AutomationEvent::SetValueCurve { time, duration, curve } => AutomationEvent::SetValueCurve {
            time: t,
            duration,
            curve,
        },
    }
}

/// The events are in the order of their times.
pub open spec fn in_order(events: Seq<AutomationEvent>) -> bool {
    forall|i: int, j: int|
        0 <= i <= j < events.len() ==> time_of(#[trigger] events[i]) <= time_of(#[trigger] events[j])
}

/// How many of the events, which are in order, have begun by time `t`.
pub open spec fn begun(events: Seq<AutomationEvent>, t: u64) -> int
    decreases events.len(),
{
    if events.len() == 0 {
        0
    } else if time_of(events.last()) <= t {
        events.len() as int
    } else {
        begun(events.drop_last(), t)
    }
}

/// The later of two times.
pub open spec fn later(a: u64, b: u64) -> u64 {
    if a < b {
        b
    } else {
        a
    }
}

/// The segment that governs the value at time `t`: the ramp that is under
/// way, if the next event is a ramp; else the last event that has begun;
/// else none.
pub open spec fn governing(events: Seq<AutomationEvent>, t: u64) -> Segment {
    let k = begun(events, t);
    if k < events.len() && is_ramp(events[k]) {
        Segment::Ramp { to: k as usize }
    } else if k > 0 {
        Segment::Hold { event: (k - 1) as usize }
    } else {
        Segment::Intrinsic
    }
}

/// How many events of a timeline that is rendered up to `horizon` are
/// behind it for good: all that have begun but the last.
pub open spec fn elapsed(events: Seq<AutomationEvent>, horizon: u64) -> int {
    if begun(events, horizon) > 0 {
        begun(events, horizon) - 1
    } else {
        0
    }
}

/// What `begun` counts: the events up to the count have begun by `t`, and
/// those from it on have not.
pub proof fn lemma_begun(events: Seq<AutomationEvent>, t: u64)
    requires
        in_order(events),
    ensures
        0 <= begun(events, t) <= events.len(),
        forall|i: int| 0 <= i < begun(events, t) ==> time_of(#[trigger] events[i]) <= t,
        forall|i: int| begun(events, t) <= i < events.len() ==> time_of(#[trigger] events[i]) > t,
    decreases events.len(),
{
    if events.len() > 0 {
        let front = events.drop_last();
        if !(time_of(events.last()) <= t) {
            lemma_begun(front, t);
            assert forall|i: int| 0 <= i < begun(events, t) implies time_of(#[trigger] events[i]) <= t by {
                assert(front[i] == events[i]);
            }
            assert forall|i: int| begun(events, t) <= i < events.len() implies time_of(#[trigger] events[i])
                > t by {
                if i < front.len() {
                    assert(front[i] == events[i]);
                }
            }
        }
    }
}

/// The count of the events that have begun is the one place at which the
/// events before have begun and those from it on have not.
pub proof fn lemma_begun_is(events: Seq<AutomationEvent>, t: u64, k: int)
    requires
        in_order(events),
        0 <= k <= events.len(),
        forall|i: int| 0 <= i < k ==> time_of(#[trigger] events[i]) <= t,
        forall|i: int| k <= i < events.len() ==> time_of(#[trigger] events[i]) > t,
    ensures
        begun(events, t) == k,
{
    lemma_begun(events, t);
    let b = begun(events, t);
    if b < k {
        assert(time_of(events[b]) <= t);
    }
    if k < b {
        assert(time_of(events[k]) <= t);
    }
}

/// At the time at which a ramp arrives, and until the next event begins,
/// the ramp itself governs: the value is its target. Before that time, and
/// after every event before the ramp has begun, the ramp is under way.
pub proof fn lemma_ramp_segments(events: Seq<AutomationEvent>, i: int, t: u64)
    requires
        in_order(events),
        0 <= i < events.len(),
        is_ramp(events[i]),
        i > 0 ==> time_of(events[i - 1]) < time_of(events[i]),
        i + 1 < events.len() ==> time_of(events[i]) < time_of(events[i + 1]),
        i + 1 < events.len() ==> !is_ramp(events[i + 1]),
    ensures
        t == time_of(events[i]) ==> governing(events, t) == (Segment::Hold { event: i as usize }),
        t < time_of(events[i]) && (i > 0 ==> time_of(events[i - 1]) <= t) ==> governing(events, t) == (
        Segment::Ramp { to: i as usize }),
{
    if t == time_of(events[i]) {
        lemma_begun_is(events, t, i + 1);
    }
    if t < time_of(events[i]) && (i > 0 ==> time_of(events[i - 1]) <= t) {
        lemma_begun_is(events, t, i);
    }
}

/// The number of values that a parameter takes in one quantum.
pub open spec fn values_in_quantum(rate: AutomationRate) -> int {
    match rate {
        AutomationRate::A => RENDER_QUANTUM_SIZE as int,
        AutomationRate::K => 1,
    }
}

fn event_time(e: &AutomationEvent) -> (t: u64)
    ensures
        t == time_of(*e),
{
    match e {
        AutomationEvent::SetValue { time, .. } => *time,
        AutomationEvent::LinearRampToValue { time, .. } => *time,
        AutomationEvent::ExponentialRampToValue { time, .. } => *time,
        AutomationEvent::SetTargetAtTime { time, .. } => *time,
        AutomationEvent::SetValueCurve { time, .. } => *time,
    }
}

fn event_is_ramp(e: &AutomationEvent) -> (r: bool)
    ensures
        r == is_ramp(*e),
{
    match e {
        AutomationEvent::LinearRampToValue { .. } => true,
        AutomationEvent::ExponentialRampToValue { .. } => true,
        _ => false,
    }
}

fn retime(e: AutomationEvent, t: u64) -> (r: AutomationEvent)
    ensures
        r == retimed(e, t),
{
    match e {
        AutomationEvent::SetValue { time, value } => AutomationEvent::SetValue { time: t, value },
        AutomationEvent::LinearRampToValue { time, value } => AutomationEvent::LinearRampToValue {
            time: t,
            value,
        },
        AutomationEvent::ExponentialRampToValue { time, value } => AutomationEvent::ExponentialRampToValue {
            time: t,
            value,
        },
        AutomationEvent::SetTargetAtTime { time, value, time_constant } => AutomationEvent::SetTargetAtTime {
            time: t,
            value,
            time_constant,
        },
        AutomationEvent::SetValueCurve { time, duration, curve } => AutomationEvent::SetValueCurve {
            time: t,
            duration,
            curve,
        },
    }
}

/// The place of a value in the order of the single-precision values,
/// computed from its bit pattern: a value is smaller than another exactly
/// when its place is. Negative zero is placed just below positive zero,
/// and a pattern that is no number is placed beyond the infinity of its
/// sign.
pub open spec fn place_of(bits: u32) -> u32 {
    if bits >= 0x8000_0000 {
        (u32::MAX - bits) as u32
    } else {
        (bits + 0x8000_0000) as u32
    }
}

/// The value `bits`, held to the range from `min` to `max`.
pub open spec fn clamped(bits: u32, min: u32, max: u32) -> u32 {
    if place_of(bits) < place_of(min) {
        min
    } else if place_of(max) < place_of(bits) {
        max
    } else {
        bits
    }
}

/// No two values share a place, and a value held to a range lies in it.
pub proof fn lemma_places(a: u32, b: u32, min: u32, max: u32)
    ensures
        place_of(a) == place_of(b) ==> a == b,
        place_of(min) <= place_of(max) ==> place_of(min) <= place_of(clamped(a, min, max)) <= place_of(max),
        place_of(min) <= place_of(a) <= place_of(max) ==> clamped(a, min, max) == a,
{
}

fn place(bits: u32) -> (r: u32)
    ensures
        r == place_of(bits),
{
    if bits >= 0x8000_0000 {
        u32::MAX - bits
    } else {
        bits + 0x8000_0000
    }
}

/// The range of a parameter: its smallest value, its default and its
/// largest value, with the default between the two.
#[derive(Clone, Copy, Debug)]
pub struct ParamRange {
    min: u32,
    default: u32,
    max: u32,
}

impl ParamRange {
    #[verifier::type_invariant]
    spec fn well_formed(&self) -> bool {
        place_of(self.min) <= place_of(self.default) <= place_of(self.max)
    }

    /// The smallest value.
    pub closed spec fn smallest(&self) -> u32 {
        self.min
    }

    /// The default value.
    pub closed spec fn initial(&self) -> u32 {
        self.default
    }

    /// The largest value.
    pub closed spec fn largest(&self) -> u32 {
        self.max
    }

    /// The range with the given bounds and default. Fails when the
    /// default is not between the bounds.
    pub fn new(min_value: u32, default_value: u32, max_value: u32) -> (r: Result<ParamRange, ConfigurationError>)
        ensures
            r is Ok <==> place_of(min_value) <= place_of(default_value) <= place_of(max_value),
            r matches Ok(range) ==> range.smallest() == min_value && range.initial() == default_value
                && range.largest() == max_value,
            r matches Err(e) ==> e == ConfigurationError::InvalidParamRange,
    {
        if place(min_value) <= place(default_value) && place(default_value) <= place(max_value) {
            Ok(ParamRange { min: min_value, default: default_value, max: max_value })
        } else {
            Err(ConfigurationError::InvalidParamRange)
        }
    }

    /// The smallest value.
    pub fn min_value(&self) -> (r: u32)
        ensures
            r == self.smallest(),
    {
        self.min
    }

    /// The default value.
    pub fn default_value(&self) -> (r: u32)
        ensures
            r == self.initial(),
            place_of(self.smallest()) <= place_of(r) <= place_of(self.largest()),
    {
        proof {
            use_type_invariant(self);
        }
        self.default
    }

    /// The largest value.
    pub fn max_value(&self) -> (r: u32)
        ensures
            r == self.largest(),
    {
        self.max
    }

    /// The value `value`, held to the range: a value below the range
    /// becomes the smallest value, one above it the largest.
    pub fn clamp(&self, value: u32) -> (r: u32)
        ensures
            r == clamped(value, self.smallest(), self.largest()),
            place_of(self.smallest()) <= place_of(r) <= place_of(self.largest()),
    {
        proof {
            use_type_invariant(self);
        }
        if place(value) < place(self.min) {
            self.min
        } else if place(self.max) < place(value) {
            self.max
        } else {
            value
        }
    }
}

/// The timeline of a parameter as a mathematical value.
#[verifier::ext_equal]
pub struct TimelineView {
    /// The parameter that the timeline belongs to.
    pub param: ParamId,
    /// The node that owns the parameter.
    pub owner: NodeId,
    /// How often the parameter is evaluated.
    pub rate: AutomationRate,
    /// The events that are scheduled, in the order of their times; among
    /// events of one time, in the order in which they were scheduled.
    pub events: Seq<AutomationEvent>,
    /// The time up to which the parameter has been rendered.
    pub horizon: u64,
}

impl TimelineView {
    /// The timeline after `event` was scheduled: an event that lies before
    /// the horizon is moved to the horizon; the event takes its place
    /// after the events that begin no later than it.
    pub open spec fn scheduled(self, event: AutomationEvent) -> TimelineView {
        let at = later(time_of(event), self.horizon);
        TimelineView { events: self.events.insert(begun(self.events, at), retimed(event, at)), ..self }
    }

    /// The timeline after it was rendered up to `until`: the horizon never
    /// moves back, and the events that are behind it for good are gone.
    pub open spec fn advanced(self, until: u64) -> TimelineView {
        let horizon = later(self.horizon, until);
        TimelineView { horizon, events: self.events.skip(elapsed(self.events, horizon)), ..self }
    }
}

/// The timeline of one parameter on the render thread.
pub struct Timeline {
    id: ParamId,
    owner: NodeId,
    rate: AutomationRate,
    events: Vec<AutomationEvent>,
    horizon: u64,
}

impl View for Timeline {
    type V = TimelineView;

    closed spec fn view(&self) -> TimelineView {
        TimelineView {
            param: self.id,
            owner: self.owner,
            rate: self.rate,
            events: self.events@,
            horizon: self.horizon,
        }
    }
}

impl Timeline {
    /// The events are in order.
    pub closed spec fn wf(&self) -> bool {
        in_order(self.events@)
    }

    /// The events of a well-formed timeline are in order.
    pub proof fn lemma_wf(&self)
        requires
            self.wf(),
        ensures
            in_order(self@.events),
    {
    }

    /// The timeline of a parameter without events, rendered up to time
    /// zero.
    pub fn new(id: ParamId, owner: NodeId, rate: AutomationRate) -> (r: Timeline)
        ensures
            r.wf(),
            r@ == (TimelineView { param: id, owner, rate, events: Seq::empty(), horizon: 0 }),
    {
        Timeline { id, owner, rate, events: Vec::new(), horizon: 0 }
    }

    /// The parameter that the timeline belongs to.
    pub fn id(&self) -> (r: ParamId)
        ensures
            r == self@.param,
    {
        self.id
    }

    /// The node that owns the parameter.
    pub fn owner(&self) -> (r: NodeId)
        ensures
            r == self@.owner,
    {
        self.owner
    }

    /// How often the parameter is evaluated.
    pub fn rate(&self) -> (r: AutomationRate)
        ensures
            r == self@.rate,
    {
        self.rate
    }

    /// The time up to which the parameter has been rendered.
    pub fn horizon(&self) -> (r: u64)
        ensures
            r == self@.horizon,
    {
        self.horizon
    }

    /// The number of values that the parameter takes in one quantum: one
    /// per frame at a-rate; one, for the whole quantum, at k-rate.
    pub fn values_per_quantum(&self) -> (r: usize)
        ensures
            r == values_in_quantum(self@.rate),
    {
        match self.rate {
            AutomationRate::A => RENDER_QUANTUM_SIZE,
            AutomationRate::K => 1,
        }
    }

    /// The number of events that are scheduled.
    pub fn len(&self) -> (r: usize)
        ensures
            r == self@.events.len(),
    {
        self.events.len()
    }

    /// The event at place `index`, if there is one.
    pub fn event(&self, index: usize) -> (r: Option<&AutomationEvent>)
        ensures
            r is Some <==> index < self@.events.len(),
            r matches Some(e) ==> *e == self@.events[index as int],
    {
        if index < self.events.len() {
            Some(&self.events[index])
        } else {
            None
        }
    }

    fn count_begun(&self, t: u64) -> (k: usize)
        requires
            self.wf(),
        ensures
            k == begun(self@.events, t),
            k <= self@.events.len(),
    {
        let mut k: usize = 0;
        while k < self.events.len() && event_time(&self.events[k]) <= t
            invariant
                k <= self.events.len(),
                forall|i: int| 0 <= i < k ==> time_of(#[trigger] self.events@[i]) <= t,
            decreases self.events.len() - k,
        {
            k += 1;
        }
        proof {
            lemma_begun_is(self.events@, t, k as int);
        }
        k
    }

    /// Schedules an event. An event that lies before the time up to which
    /// the parameter has been rendered is moved to that time, so that
    /// nothing that was rendered is changed. The event takes its place
    /// after the events that begin no later than it.
    pub fn schedule(&mut self, event: AutomationEvent)
        requires
            old(self).wf(),
        ensures
            final(self).wf(),
            final(self)@ == old(self)@.scheduled(event),
    {
        let time = event_time(&event);
        let at = if time < self.horizon {
            self.horizon
        } else {
            time
        };
        let place = self.count_begun(at);
        let moved = retime(event, at);
        let ghost before = self.events@;
        proof {
            lemma_begun(before, at);
        }
        self.events.insert(place, moved);
        proof {
            let after = self.events@;
            assert forall|i: int, j: int| 0 <= i <= j < after.len() implies time_of(#[trigger] after[i])
                <= time_of(#[trigger] after[j]) by {
                if i == place && j != place {
                    assert(time_of(before[j - 1]) > at);
                } else if j == place && i != place {
                    assert(time_of(before[i]) <= at);
                }
            }
        }
    }

    /// Records that the parameter has been rendered up to time `until`,
    /// and forgets the events that are behind that time for good: all
    /// that have begun but the last, which still governs. The time never
    /// moves back. Returns how many events were forgotten.
    pub fn advance(&mut self, until: u64) -> (r: usize)
        requires
            old(self).wf(),
        ensures
            final(self).wf(),
            final(self)@ == old(self)@.advanced(until),
            r == elapsed(old(self)@.events, later(old(self)@.horizon, until)),
    {
        if self.horizon < until {
            self.horizon = until;
        }
        let k = self.count_begun(self.horizon);
        let drop = if k > 0 {
            k - 1
        } else {
            0
        };
        let rest = self.events.split_off(drop);
        self.events = rest;
        drop
    }

    /// The segment that governs the value of the parameter at time `t`.
    pub fn governing(&self, t: u64) -> (r: Segment)
        requires
            self.wf(),
        ensures
            r == governing(self@.events, t),
    {
        let k = self.count_begun(t);
        if k < self.events.len() && event_is_ramp(&self.events[k]) {
            Segment::Ramp { to: k }
        } else if k > 0 {
            Segment::Hold { event: k - 1 }
        } else {
            Segment::Intrinsic
        }
    }
}

/// Forgetting the events that are behind the rendered time for good does
/// not change which event governs from that time on.
pub proof fn lemma_advance_keeps_governing(events: Seq<AutomationEvent>, horizon: u64, t: u64)
    requires
        in_order(events),
        horizon <= t,
        events.len() <= usize::MAX,
    ensures
        match governing(events, t) {
            Segment::Intrinsic => governing(events.skip(elapsed(events, horizon)), t) == Segment::Intrinsic,
            Segment::Hold { event } => governing(events.skip(elapsed(events, horizon)), t) == (Segment::Hold {
                event: (event - elapsed(events, horizon)) as usize,
            }),
            Segment::Ramp { to } => governing(events.skip(elapsed(events, horizon)), t) == (Segment::Ramp {
                to: (to - elapsed(events, horizon)) as usize,
            }),
        },
{
    let d = elapsed(events, horizon);
    let rest = events.skip(d);
    lemma_begun(events, horizon);
    lemma_begun(events, t);
    let k = begun(events, t);
    lemma_begun_is(rest, t, k - d);
}

/// An event for the timeline of a parameter, sent by the control thread.
#[derive(Clone, Debug, PartialEq, Eq)]
pub struct ParamMessage {
    pub param: ParamId,
    pub event: AutomationEvent,
}

/// Some timeline of `store` belongs to `param`.
pub open spec fn has_param(store: Seq<TimelineView>, param: ParamId) -> bool {
    exists|i: int| 0 <= i < store.len() && (#[trigger] store[i]).param == param
}

/// No two timelines belong to one parameter.
pub open spec fn distinct_params(store: Seq<TimelineView>) -> bool {
    forall|i: int, j: int|
        0 <= i < j < store.len() ==> (#[trigger] store[i]).param != (#[trigger] store[j]).param
}

/// The timelines after `event` was scheduled for `param`: a parameter
/// without a timeline takes no events.
pub open spec fn with_event(store: Seq<TimelineView>, param: ParamId, event: AutomationEvent) -> Seq<
    TimelineView,
> {
    Seq::new(
        store.len(),
        |i: int|
            if store[i].param == param {
                store[i].scheduled(event)
            } else {
                store[i]
            },
    )
}

/// The timelines after the messages `ms` were taken in, first to last.
pub open spec fn with_events(store: Seq<TimelineView>, ms: Seq<ParamMessage>) -> Seq<TimelineView>
    decreases ms.len(),
{
    if ms.len() == 0 {
        store
    } else {
        with_event(with_events(store, ms.drop_last()), ms.last().param, ms.last().event)
    }
}

/// The timelines after every one was rendered up to `until`.
pub open spec fn all_advanced(store: Seq<TimelineView>, until: u64) -> Seq<TimelineView> {
    Seq::new(store.len(), |i: int| store[i].advanced(until))
}

/// Holds of the timelines whose parameter `node` does not own.
pub open spec fn not_owned_by(node: NodeId) -> spec_fn(TimelineView) -> bool {
    |t: TimelineView| t.owner != node
}

/// The timelines of all parameters on the render thread.
pub struct ParamStore {
    timelines: Vec<Timeline>,
}

impl View for ParamStore {
    type V = Seq<TimelineView>;

    closed spec fn view(&self) -> Seq<TimelineView> {
        Seq::new(self.timelines@.len(), |i: int| self.timelines@[i]@)
    }
}

impl ParamStore {
    /// Every timeline is in order, and no two belong to one parameter.
    pub closed spec fn wf(&self) -> bool {
        &&& forall|i: int| 0 <= i < self.timelines@.len() ==> (#[trigger] self.timelines@[i]).wf()
        &&& distinct_params(self@)
    }

    /// In a well-formed store every timeline is in order and no two
    /// belong to one parameter.
    pub proof fn lemma_wf(&self)
        requires
            self.wf(),
        ensures
            distinct_params(self@),
            forall|i: int| 0 <= i < self@.len() ==> in_order((#[trigger] self@[i]).events),
    {
        assert forall|i: int| 0 <= i < self@.len() implies in_order((#[trigger] self@[i]).events) by {
            self.timelines@[i].lemma_wf();
        }
    }

    /// A store without timelines.
    pub fn new() -> (r: ParamStore)
        ensures
            r.wf(),
            r@ == Seq::<TimelineView>::empty(),
    {
        let r = ParamStore { timelines: Vec::new() };
        r
    }

    fn find(&self, param: ParamId) -> (r: Option<usize>)
        ensures
            r is Some <==> has_param(self@, param),
            r matches Some(i) ==> i < self@.len() && self@[i as int].param == param,
    {
        let mut i: usize = 0;
        while i < self.timelines.len()
            invariant
                i <= self.timelines.len(),
                forall|j: int| 0 <= j < i ==> (#[trigger] self@[j]).param != param,
            decreases self.timelines.len() - i,
        {
            if self.timelines[i].id() == param {
                return Some(i);
            }
            i += 1;
        }
        None
    }

    /// Whether the store has a timeline for `param`.
    pub fn contains(&self, param: ParamId) -> (r: bool)
        ensures
            r == has_param(self@, param),
    {
        self.find(param).is_some()
    }

    /// The timeline of `param`, if the store has one.
    pub fn timeline(&self, param: ParamId) -> (r: Option<&Timeline>)
        requires
            self.wf(),
        ensures
            r is Some <==> has_param(self@, param),
            r matches Some(t) ==> t.wf() && t@.param == param && self@.contains(t@),
    {
        match self.find(param) {
            Some(i) => {
                Some(&self.timelines[i])
            },
            None => None,
        }
    }

    /// Adds an empty timeline for parameter `param` of node `owner`, and
    /// says whether it did: a parameter has one timeline at most.
    pub fn add(&mut self, param: ParamId, owner: NodeId, rate: AutomationRate) -> (r: bool)
        requires
            old(self).wf(),
        ensures
            final(self).wf(),
            r == !has_param(old(self)@, param),
            final(self)@ == if r {
                old(self)@.push(
                    (TimelineView { param, owner, rate, events: Seq::empty(), horizon: 0 }),
                )
            } else {
                old(self)@
            },
    {
        if self.find(param).is_some() {
            return false;
        }
        let ghost before = self@;
        self.timelines.push(Timeline::new(param, owner, rate));
        proof {
            assert(self@ =~= before.push(
                (TimelineView { param, owner, rate, events: Seq::empty(), horizon: 0 }),
            ));
        }
        true
    }

    /// Schedules `event` for parameter `param`, and says whether the store
    /// has a timeline for it. Without one, the event is dropped.
    pub fn schedule(&mut self, param: ParamId, event: AutomationEvent) -> (r: bool)
        requires
            old(self).wf(),
        ensures
            final(self).wf(),
            r == has_param(old(self)@, param),
            final(self)@ == with_event(old(self)@, param, event),
    {
        let ghost before = self@;
        match self.find(param) {
            Some(i) => {
                self.timelines[i].schedule(event);
                proof {
                    assert(self@ =~= with_event(before, param, event));
                }
                true
            },
            None => {
                false
            },
        }
    }

    /// Takes in one message, as [`ParamStore::schedule`] does.
    pub fn apply(&mut self, message: ParamMessage) -> (r: bool)
        requires
            old(self).wf(),
        ensures
            final(self).wf(),
            r == has_param(old(self)@, message.param),
            final(self)@ == with_event(old(self)@, message.param, message.event),
    {
        self.schedule(message.param, message.event)
    }

    /// Takes in the messages that are queued at this moment, in their
    /// order, and returns how many it took in. Never waits: messages that
    /// arrive during the call are left for the next one.
    ///
    /// What is queued is for the other thread to decide, so the timelines
    /// are stated for whatever messages came: each was applied as
    /// [`ParamStore::apply`] applies it.
    pub fn drain(&mut self, receiver: &Receiver<ParamMessage>) -> (r: usize)
        requires
            old(self).wf(),
        ensures
            final(self).wf(),
            exists|messages: Seq<ParamMessage>|
                messages.len() == r && final(self)@ == #[trigger] with_events(old(self)@, messages),
    {
        let batch = queued(receiver);
        let mut taken: usize = 0;
        let ghost mut messages: Seq<ParamMessage> = Seq::empty();
        let mut open = true;
        while taken < batch && open
            invariant
                self.wf(),
                taken <= batch,
                messages.len() == taken,
                self@ == with_events(old(self)@, messages),
            decreases
                    batch - taken + if open {
                        1int
                    } else {
                        0int
                    },
        {
            let received = try_recv(receiver);
            proof {
                if received is Message {
                    let next = messages.push(received->0);
                    assert(next.drop_last() =~= messages);
                    messages = next;
                }
            }
            open = self.take(received);
            if open {
                taken += 1;
            }
        }
        taken
    }

    /// What one look at the queue means for the store. A message is taken
    /// in as [`ParamStore::apply`] takes it, and another look may follow.
    /// An empty queue, or one whose sender is gone, ends the taking and
    /// changes nothing.
    pub fn take(&mut self, received: Received<ParamMessage>) -> (more: bool)
        requires
            old(self).wf(),
        ensures
            final(self).wf(),
            more == (received is Message),
            received matches Received::Message(message) ==> final(self)@ == with_event(
                old(self)@,
                message.param,
                message.event,
            ),
            !(received is Message) ==> final(self)@ == old(self)@,
    {
        match received {
            Received::Message(message) => {
                self.apply(message);
                true
            },
            Received::Empty => false,
            Received::Disconnected => false,
        }
    }

    /// Records that every parameter has been rendered up to time `until`.
    pub fn advance(&mut self, until: u64)
        requires
            old(self).wf(),
        ensures
            final(self).wf(),
            final(self)@ == all_advanced(old(self)@, until),
    {
        let ghost before = self@;
        let n = self.timelines.len();
        let mut i: usize = 0;
        while i < n
            invariant
                i <= n,
                n == self.timelines@.len(),
                n == before.len(),
                forall|j: int| 0 <= j < n ==> (#[trigger] self.timelines@[j]).wf(),
                forall|j: int| 0 <= j < i ==> (#[trigger] self@[j]) == before[j].advanced(until),
                forall|j: int| i <= j < n ==> (#[trigger] self@[j]) == before[j],
            decreases n - i,
        {
            let ghost mid = self@;
            let ghost lines = self.timelines@;
            proof {
                assert forall|j: int| 0 <= j < n implies mid[j] == (#[trigger] lines[j])@ by {}
            }
            self.timelines[i].advance(until);
            i += 1;
        }
    }

    /// Forgets the timelines of the parameters that node `node` owns, and
    /// returns how many there were. Parameters live as long as their node.
    pub fn release(&mut self, node: NodeId) -> (r: usize)
        requires
            old(self).wf(),
        ensures
            final(self).wf(),
            final(self)@ == old(self)@.filter(not_owned_by(node)),
            r == old(self)@.len() - final(self)@.len(),
    {
        let ghost before = self@;
        let ghost lines = self.timelines@;
        let total = self.timelines.len();
        let mut stack: Vec<Timeline> = Vec::new();
        while self.timelines.len() > 0
            invariant
                total == lines.len(),
                self.timelines@.len() + stack@.len() == total,
                forall|j: int| 0 <= j < self.timelines@.len() ==> self.timelines@[j] == lines[j],
                forall|j: int| 0 <= j < stack@.len() ==> stack@[j] == lines[total - 1 - j],
            decreases self.timelines.len(),
        {
            match self.timelines.pop() {
                Some(timeline) => stack.push(timeline),
                None => vstd::pervasive::unreached(),
            }
        }
        let mut kept: Vec<Timeline> = Vec::new();
        let mut removed: usize = 0;
        let ghost mut done: int = 0;
        proof {
            reveal(Seq::filter);
        }
        while stack.len() > 0
            invariant
                total == lines.len(),
                before.len() == total,
                forall|j: int| 0 <= j < total ==> before[j] == (#[trigger] lines[j])@ && lines[j].wf(),
                done + stack@.len() == total,
                forall|j: int| 0 <= j < stack@.len() ==> stack@[j] == lines[total - 1 - j],
                forall|j: int| 0 <= j < kept@.len() ==> (#[trigger] kept@[j]).wf(),
                Seq::new(kept@.len(), |i: int| kept@[i]@) == before.take(done).filter(not_owned_by(node)),
                removed + kept@.len() == done,
            decreases stack.len(),
        {
            let timeline = match stack.pop() {
                Some(timeline) => timeline,
                None => vstd::pervasive::unreached(),
            };
            proof {
                before.take(done).lemma_filter_push(before[done], not_owned_by(node));
                assert(before.take(done + 1) =~= before.take(done).push(before[done]));
            }
            if timeline.owner() != node {
                kept.push(timeline);
            } else {
                removed += 1;
            }
            proof {
                done = done + 1;
            }
        }
        self.timelines = kept;
        proof {
            assert(before.take(done) =~= before);
            crate::render::topology::lemma_filtered(before, not_owned_by(node));
            assert forall|a: int, b: int| 0 <= a < b < self@.len() implies (#[trigger] self@[a]).param != (
            #[trigger] self@[b]).param by {
                lemma_filter_keeps_order(before, not_owned_by(node), a, b);
            }
        }
        removed
    }
}

/// Two members of a filtered sequence stand in it as they stood in the
/// sequence: the earlier one earlier.
proof fn lemma_filter_keeps_order<T>(s: Seq<T>, keep: spec_fn(T) -> bool, a: int, b: int) -> (r: (int, int))
    requires
        0 <= a < b < s.filter(keep).len(),
    ensures
        0 <= r.0 < r.1 < s.len(),
        s[r.0] == s.filter(keep)[a],
        s[r.1] == s.filter(keep)[b],
    decreases s.len(),
{
    reveal(Seq::filter);
    let front = s.drop_last();
    let f = front.filter(keep);
    if keep(s.last()) && b == f.len() {
        crate::render::topology::lemma_filtered(front, keep);
        assert(front.contains(f[a]));
        let i = choose|i: int| 0 <= i < front.len() && front[i] == f[a];
        (i, s.len() - 1)
    } else {
        let r = lemma_filter_keeps_order(front, keep, a, b);
        r
    }
}

} // verus!
