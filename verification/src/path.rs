//! The course of one light path: when a ray is traced, and when the path ends.
//!
//! A path starts with a budget of bounces. While it lasts, the caller traces the current ray
//! and reports what became of it; the path then ends, or goes on with the scattered ray and
//! one bounce less. A path without budget ends in black before anything is traced.
use crate::color::Color;
use crate::interval::Interval;
use crate::scalar::{Scalar, INFINITY_BITS};
use crate::vec3::Vec3;
use vstd::prelude::*;

verus! {

/// The pattern of 0.001: hits nearer than this to a ray's origin are not counted, so that a
/// scattered ray does not hit the surface it starts on.
pub const TRACE_START_BITS: u64 = 0x3f50_624d_d2f1_a9fc;

/// Where a path stands.
#[derive(Clone, Copy, Debug, PartialEq, Eq, Structural)]
pub enum Path {
    /// A ray is to be traced; `depth` bounces are left, this one included.
    Tracing { depth: i32 },
    /// Ended without light: the budget ran out, or a surface absorbed the ray.
    Black,
    /// Ended in the background: the ray hit nothing.
    Escaped,
}

/// What became of a traced ray.
#[derive(Clone, Copy, Debug, PartialEq, Eq, Structural)]
pub enum Event {
    /// It hit nothing.
    Missed,
    /// It hit a surface whose material absorbed it.
    Absorbed,
    /// It hit a surface whose material scattered it.
    Scattered,
}

impl Path {
    /// A path with `depth` bounces left: black when none is left.
    pub open spec fn with_budget(depth: int) -> Path {
        if depth <= 0 {
            Path::Black
        } else {
            Path::Tracing { depth: depth as i32 }
        }
    }

    /// The path after `event`. A miss ends it in the background, an absorbed ray in black; a
    /// scattered ray goes on with one bounce less. A path that has ended stays as it is.
    pub open spec fn spec_step(self, event: Event) -> Path {
        match self {
            Path::Tracing { depth } => match event {
                Event::Missed => Path::Escaped,
                Event::Absorbed => Path::Black,
                Event::Scattered => Path::with_budget(depth - 1),
            },
            _ => self,
        }
    }

    /// Whether a ray is to be traced.
    pub open spec fn spec_is_tracing(self) -> bool {
        self is Tracing
    }

    /// The path after each of `events` in turn.
    pub open spec fn run(self, events: Seq<Event>) -> Path
        decreases events.len(),
    {
        if events.len() == 0 {
            self
        } else {
            self.run(events.drop_last()).spec_step(events.last())
        }
    }

    /// The bounces that are left: none once the path has ended.
    pub open spec fn budget(self) -> int {
        match self {
            Path::Tracing { depth } => if depth > 0 {
                depth as int
            } else {
                0
            },
            _ => 0,
        }
    }

    /// The light of an ended path: black, or for an escaped path `escaped`, the background
    /// seen along the last ray times the attenuations met on the way. None while the path
    /// lasts.
    pub open spec fn spec_finish(self, escaped: Color) -> Option<Color> {
        match self {
            Path::Tracing { .. } => None,
            Path::Black => Some(Vec3 { x: Scalar::zero(), y: Scalar::zero(), z: Scalar::zero() }),
            Path::Escaped => Some(escaped),
        }
    }

    /// The range of ray parameters in which hits count: from 0.001 on, without end.
    pub open spec fn spec_trace_range() -> Interval {
        Interval { min: Scalar { bits: TRACE_START_BITS }, max: Scalar { bits: INFINITY_BITS } }
    }

    /// Starts a path that may bounce `max_depth` times.
    pub fn start(max_depth: i32) -> (r: Path)
        ensures
            r == Path::with_budget(max_depth as int),
    {
        if max_depth <= 0 {
            Path::Black
        } else {
            Path::Tracing { depth: max_depth }
        }
    }

    /// Whether a ray is to be traced.
    #[verifier::when_used_as_spec(spec_is_tracing)]
    pub fn is_tracing(self) -> (r: bool)
        ensures
            r == self.spec_is_tracing(),
    {
        match self {
            Path::Tracing { .. } => true,
            _ => false,
        }
    }

    /// The path after `event`. A miss ends it in the background, an absorbed ray in black; a
    /// scattered ray goes on with one bounce less. A path that has ended stays as it is.
    #[verifier::when_used_as_spec(spec_step)]
    pub fn step(self, event: Event) -> (r: Path)
        ensures
            r == self.spec_step(event),
            r.budget() <= self.budget(),
            r.is_tracing() ==> r.budget() < self.budget(),
    {
        match self {
            Path::Tracing { depth } => match event {
                Event::Missed => Path::Escaped,
                Event::Absorbed => Path::Black,
                Event::Scattered => if depth <= 1 {
                    Path::Black
                } else {
                    Path::Tracing { depth: depth - 1 }
                },
            },
            _ => self,
        }
    }

    /// The light of an ended path: black, or for an escaped path `escaped`, the background
    /// seen along the last ray times the attenuations met on the way. None while the path
    /// lasts.
    #[verifier::when_used_as_spec(spec_finish)]
    pub fn finish(self, escaped: Color) -> (r: Option<Color>)
        ensures
            r == self.spec_finish(escaped),
    {
        match self {
            Path::Tracing { .. } => None,
            Path::Black => Some(Color::default()),
            Path::Escaped => Some(escaped),
        }
    }

    /// The range of ray parameters in which hits count: from 0.001 on, without end.
    #[verifier::when_used_as_spec(spec_trace_range)]
    pub fn trace_range() -> (r: Interval)
        ensures
            r == Path::spec_trace_range(),
    {
        Interval::new(Scalar::from_bits(TRACE_START_BITS), Scalar::infinity())
    }
}

/// A path without budget is black, whatever the ray and whatever is reported to it.
pub proof fn lemma_no_budget_is_black(max_depth: i32, events: Seq<Event>, escaped: Color)
    requires
        max_depth <= 0,
    ensures
        Path::with_budget(max_depth as int).run(events) == Path::Black,
        Path::with_budget(max_depth as int).run(events).finish(escaped) == Some(
            Vec3 { x: Scalar::zero(), y: Scalar::zero(), z: Scalar::zero() },
        ),
    decreases events.len(),
{
    if events.len() > 0 {
        lemma_no_budget_is_black(max_depth, events.drop_last(), escaped);
    }
}

/// Each event takes at least one bounce from a path that goes on: after `n` events a path
/// that still traces has at most its first budget less `n`.
pub proof fn lemma_budget_shrinks(path: Path, events: Seq<Event>)
    ensures
        path.run(events).budget() <= path.budget(),
        path.run(events).is_tracing() ==> path.run(events).budget() + events.len()
            <= path.budget(),
    decreases events.len(),
{
    if events.len() > 0 {
        lemma_budget_shrinks(path, events.drop_last());
    }
}

/// A path traces at most as many rays as its budget allows: once `max_depth` events have
/// been reported, it has ended.
pub proof fn lemma_path_ends(max_depth: i32, events: Seq<Event>)
    requires
        events.len() >= max_depth,
    ensures
        !Path::with_budget(max_depth as int).run(events).is_tracing(),
{
    lemma_budget_shrinks(Path::with_budget(max_depth as int), events);
}

} // verus!
