//! The tick planner: the decisions of the capture-detect-click loop.
//!
//! The loop driver acquires a frame, asks `step` what to do, performs
//! the planned clicks in order, and paces itself with `cadence_sleep_us`.
//! Everything that decides is here and pure; acquiring frames, clicking
//! keys and sleeping are the driver's business.

use vstd::prelude::*;

use crate::detect::HitZone;
use crate::frame::Frame;
use crate::lanes::Key;
use crate::lanes::Lane;

verus! {

/// Target tick period in microseconds (about 120 ticks per second).
pub const PERIOD_US: u64 = 8333;

/// Back-off in microseconds after a transient capture failure.
pub const BACKOFF_US: u64 = 1000;

/// Outcome of one frame acquisition.
pub enum CaptureEvent {
    /// A frame arrived.
    Captured(Frame),
    /// The frame was not ready; back off briefly and retry.
    Transient,
    /// The capture handle is gone; the loop must end.
    Fatal,
}

/// What the loop driver must do after a tick's decisions.
#[derive(Clone, Copy, PartialEq, Eq, Structural, Debug)]
pub enum Directive {
    /// Sleep out the remainder of the period, then start the next tick.
    Proceed,
    /// Sleep `BACKOFF_US` and retry the capture.
    Backoff,
    /// Terminate the loop.
    Stop,
}

/// The clicks planned for the first `n` lanes: one key per lane whose
/// note is in the hit zone, in lane order.
pub open spec fn planned_prefix(hz: HitZone, f: Frame, lanes: Seq<Lane>, n: int) -> Seq<Key>
    decreases n,
{
    if n <= 0 {
        Seq::empty()
    } else {
        let p = planned_prefix(hz, f, lanes, n - 1);
        if hz.note_present(f, lanes[n - 1]) {
            p.push(lanes[n - 1].key)
        } else {
            p
        }
    }
}

/// The clicks planned for one captured frame, in lane order.
pub open spec fn planned(hz: HitZone, f: Frame, lanes: Seq<Lane>) -> Seq<Key> {
    planned_prefix(hz, f, lanes, lanes.len() as int)
}

/// Plan one tick's clicks for a captured frame: one key per lane whose
/// note is in the hit zone, in lane order.
#[verifier::loop_isolation(false)]
pub fn plan_tick(hz: &HitZone, frame: &Frame, lanes: &Vec<Lane>) -> (keys: Vec<Key>)
    requires
        frame.wf(),
    ensures
        keys@ == planned(*hz, *frame, lanes@),
{
    let mut keys: Vec<Key> = Vec::new();
    let n = lanes.len();
    let mut i: usize = 0;
    while i < n
        invariant
            i <= n,
            keys@ == planned_prefix(*hz, *frame, lanes@, i as int),
        decreases n - i,
    {
        let lane = lanes[i];
        if hz.note_in_hitzone(frame, &lane) {
            keys.push(lane.key);
        }
        i = i + 1;
    }
    keys
}

/// The clicks a capture outcome leads to: those of the frame when one
/// arrived, none on a failure.
pub open spec fn step_presses(hz: HitZone, ev: CaptureEvent, lanes: Seq<Lane>) -> Seq<Key> {
    match ev {
        CaptureEvent::Captured(f) => planned(hz, f, lanes),
        CaptureEvent::Transient => Seq::empty(),
        CaptureEvent::Fatal => Seq::empty(),
    }
}

/// What the loop driver does after each capture outcome.
pub open spec fn step_directive(ev: CaptureEvent) -> Directive {
    match ev {
        CaptureEvent::Captured(_) => Directive::Proceed,
        CaptureEvent::Transient => Directive::Backoff,
        CaptureEvent::Fatal => Directive::Stop,
    }
}

/// One tick's decisions: the clicks to perform, in order, and what to do next.
pub struct TickPlan {
    /// Keys to click, in lane order.
    pub presses: Vec<Key>,
    /// How the loop goes on after the clicks.
    pub directive: Directive,
}

/// Decide one tick from the outcome of a frame acquisition.
pub fn step(hz: &HitZone, event: CaptureEvent, lanes: &Vec<Lane>) -> (plan: TickPlan)
    requires
        event matches CaptureEvent::Captured(f) ==> f.wf(),
    ensures
        plan.presses@ == step_presses(*hz, event, lanes@),
        plan.directive == step_directive(event),
{
    match event {
        CaptureEvent::Captured(frame) => TickPlan {
            presses: plan_tick(hz, &frame, lanes),
            directive: Directive::Proceed,
        },
        CaptureEvent::Transient => TickPlan {
            presses: Vec::new(),
            directive: Directive::Backoff,
        },
        CaptureEvent::Fatal => TickPlan { presses: Vec::new(), directive: Directive::Stop },
    }
}

/// How long the driver sleeps after a tick that took `elapsed_us`.
pub open spec fn sleep_spec(elapsed_us: u64) -> int {
    if elapsed_us >= PERIOD_US {
        0
    } else {
        PERIOD_US - elapsed_us
    }
}

/// Remaining sleep of a tick that took `elapsed_us` so far: the tick is
/// padded to the period; an overlong tick is not slept at all, and no
/// catch-up is attempted.
pub fn cadence_sleep_us(elapsed_us: u64) -> (s: u64)
    ensures
        s == sleep_spec(elapsed_us),
        elapsed_us + s == if elapsed_us >= PERIOD_US {
            elapsed_us as int
        } else {
            PERIOD_US as int
        },
{
    if elapsed_us >= PERIOD_US {
        0
    } else {
        PERIOD_US - elapsed_us
    }
}

/// Wall time of one tick whose work took `elapsed_us`: the work plus the
/// cadence sleep.
pub open spec fn tick_time(elapsed_us: u64) -> int {
    elapsed_us + sleep_spec(elapsed_us)
}

/// Total wall time of a run of ticks whose work times are `els`.
pub open spec fn total_tick_time(els: Seq<u64>) -> int
    decreases els.len(),
{
    if els.len() == 0 {
        0
    } else {
        total_tick_time(els.drop_last()) + tick_time(els.last())
    }
}

/// Cadence law: when every tick's work finishes within the period, a run
/// of ticks takes exactly one period per tick of wall time.
pub proof fn lemma_cadence_exact(els: Seq<u64>)
    requires
        forall|i: int| 0 <= i < els.len() ==> els[i] <= PERIOD_US,
    ensures
        total_tick_time(els) == els.len() * PERIOD_US,
    decreases els.len(),
{
    if els.len() > 0 {
        assert(forall|i: int|
            0 <= i < els.drop_last().len() ==> els.drop_last()[i] == els[i]);
        lemma_cadence_exact(els.drop_last());
        assert(els.last() <= PERIOD_US);
        assert((els.len() - 1) * PERIOD_US + PERIOD_US == els.len() * PERIOD_US)
            by (nonlinear_arith);
    }
}

/// Backoff law: a transient capture failure plans no clicks and a short
/// back-off, and a following successful capture is detected as usual.
pub proof fn lemma_transient_then_success(hz: HitZone, f: Frame, lanes: Seq<Lane>)
    ensures
        step_presses(hz, CaptureEvent::Transient, lanes) == Seq::<Key>::empty(),
        step_directive(CaptureEvent::Transient) == Directive::Backoff,
        step_presses(hz, CaptureEvent::Captured(f), lanes) == planned(hz, f, lanes),
        step_directive(CaptureEvent::Captured(f)) == Directive::Proceed,
{
}

/// How many of the first `n` lanes have a note in the hit zone.
pub open spec fn count_matches(hz: HitZone, f: Frame, lanes: Seq<Lane>, n: int) -> int
    decreases n,
{
    if n <= 0 {
        0
    } else {
        count_matches(hz, f, lanes, n - 1) + if hz.note_present(f, lanes[n - 1]) {
            1int
        } else {
            0int
        }
    }
}

/// A tick plans exactly one click per matching lane.
pub proof fn lemma_planned_len(hz: HitZone, f: Frame, lanes: Seq<Lane>, n: int)
    ensures
        planned_prefix(hz, f, lanes, n).len() == count_matches(hz, f, lanes, n),
    decreases n,
{
    if n > 0 {
        lemma_planned_len(hz, f, lanes, n - 1);
    }
}

/// Counting matches over more lanes never loses any.
pub proof fn lemma_count_matches_monotonic(hz: HitZone, f: Frame, lanes: Seq<Lane>, i: int, j: int)
    requires
        i <= j,
    ensures
        count_matches(hz, f, lanes, i) <= count_matches(hz, f, lanes, j),
    decreases j - i,
{
    if i < j {
        lemma_count_matches_monotonic(hz, f, lanes, i, j - 1);
    }
}

/// A matching lane's key stands at the position given by the number of
/// matching lanes before it.
pub proof fn lemma_planned_key_at(hz: HitZone, f: Frame, lanes: Seq<Lane>, i: int, n: int)
    requires
        0 <= i < n,
        n <= lanes.len(),
        hz.note_present(f, lanes[i]),
    ensures
        0 <= count_matches(hz, f, lanes, i) < planned_prefix(hz, f, lanes, n).len(),
        planned_prefix(hz, f, lanes, n)[count_matches(hz, f, lanes, i)] == lanes[i].key,
    decreases n,
{
    lemma_count_matches_monotonic(hz, f, lanes, 0, i);
    lemma_planned_len(hz, f, lanes, n - 1);
    lemma_planned_len(hz, f, lanes, n);
    if n == i + 1 {
        lemma_planned_len(hz, f, lanes, i);
    } else {
        lemma_planned_key_at(hz, f, lanes, i, n - 1);
        lemma_count_matches_monotonic(hz, f, lanes, i + 1, n - 1);
    }
}

/// Ordering law: when two lanes both match in one tick, the earlier
/// lane's key is planned before the later lane's.
pub proof fn lemma_clicks_follow_lane_order(hz: HitZone, f: Frame, lanes: Seq<Lane>, i: int, j: int)
    requires
        0 <= i < j < lanes.len(),
        hz.note_present(f, lanes[i]),
        hz.note_present(f, lanes[j]),
    ensures
        exists|p: int, q: int|
            0 <= p < q < planned(hz, f, lanes).len() && planned(hz, f, lanes)[p] == lanes[i].key
                && planned(hz, f, lanes)[q] == lanes[j].key,
{
    let n = lanes.len() as int;
    lemma_planned_key_at(hz, f, lanes, i, n);
    lemma_planned_key_at(hz, f, lanes, j, n);
    let p = count_matches(hz, f, lanes, i);
    let q = count_matches(hz, f, lanes, j);
    lemma_count_matches_monotonic(hz, f, lanes, i + 1, j);
    assert(0 <= p < q < planned(hz, f, lanes).len() && planned(hz, f, lanes)[p] == lanes[i].key
        && planned(hz, f, lanes)[q] == lanes[j].key);
}

} // verus!
