use vstd::prelude::*;

verus! {

/// What one test of the world along a path's current ray found.
#[derive(Clone, Copy, Debug, PartialEq, Eq, Structural)]
pub enum SurfaceEvent {
    /// The ray hit nothing.
    Missed,
    /// The ray hit a surface whose material absorbed it.
    Absorbed,
    /// The ray hit a surface whose material scattered it on.
    Scattered,
}

/// What a path does next.
#[derive(Clone, Copy, Debug, PartialEq, Eq, Structural)]
pub enum PathStep {
    /// The path ends and brings no light.
    Black,
    /// The path ends in the background, whose gradient gives its light.
    Background,
    /// The world is tested along the current ray, with `depth` levels of
    /// scattering left, this one included.
    Probe { depth: u32 },
}

/// First step of a path that may scatter `depth` times: with no depth left
/// it brings no light, whatever the ray and the world.
pub open spec fn first_step(depth: u32) -> PathStep {
    if depth == 0 {
        PathStep::Black
    } else {
        PathStep::Probe { depth }
    }
}

/// Step that follows a probe at `depth`: a miss shows the background, an
/// absorbed ray is black, and a scattered ray goes on with one level less.
pub open spec fn next_step(depth: u32, event: SurfaceEvent) -> PathStep {
    match event {
        SurfaceEvent::Missed => PathStep::Background,
        SurfaceEvent::Absorbed => PathStep::Black,
        SurfaceEvent::Scattered => first_step((depth - 1) as u32),
    }
}

/// Starts a path with `depth` levels of scattering.
pub fn begin_path(depth: u32) -> (r: PathStep)
    ensures
        r == first_step(depth),
        depth == 0 ==> r == PathStep::Black,
{
    if depth == 0 {
        PathStep::Black
    } else {
        PathStep::Probe { depth }
    }
}

/// Decides how a path goes on after a probe at `depth` found `event`.
pub fn after_probe(depth: u32, event: SurfaceEvent) -> (r: PathStep)
    requires
        depth > 0,
    ensures
        r == next_step(depth, event),
{
    match event {
        SurfaceEvent::Missed => PathStep::Background,
        SurfaceEvent::Absorbed => PathStep::Black,
        SurfaceEvent::Scattered => begin_path(depth - 1),
    }
}

/// Number of probes that a path in state `step` makes when the surfaces it
/// meets report `events` in turn, ignoring events left over once it ends.
pub open spec fn probes(step: PathStep, events: Seq<SurfaceEvent>) -> nat
    decreases events.len(),
{
    match step {
        PathStep::Probe { depth } => if events.len() == 0 || depth == 0 {
            0
        } else {
            1 + probes(next_step(depth, events[0]), events.drop_first())
        },
        _ => 0,
    }
}

/// A path started with `depth` tests the world at most `depth` times,
/// whatever the surfaces report: the recursion is bounded by the depth.
pub proof fn lemma_probes_bounded(depth: u32, events: Seq<SurfaceEvent>)
    ensures
        probes(first_step(depth), events) <= depth,
    decreases events.len(),
{
    if depth > 0 && events.len() > 0 {
        let rest = events.drop_first();
        lemma_probes_bounded((depth - 1) as u32, rest);
        let next = next_step(depth, events[0]);
        assert(probes(first_step(depth), events) == 1 + probes(next, rest));
        if events[0] != SurfaceEvent::Scattered {
            assert(probes(next, rest) == 0);
        }
    }
}

} // verus!
