use vstd::prelude::*;

verus! {

/// What the scene did with the ray traced at one step of a path.
#[derive(Clone, Copy, Debug, PartialEq, Eq, Structural)]
pub enum Bounce {
    /// The ray hit nothing.
    Missed,
    /// The ray hit a surface that absorbed it.
    Absorbed,
    /// The ray hit a surface that scattered it into a new ray.
    Scattered,
}

/// What a path does after a step.
#[derive(Clone, Copy, Debug, PartialEq, Eq, Structural)]
pub enum PathStep {
    /// The path ends with the sky's colour, scaled by the attenuation so far.
    Sky,
    /// The path ends black.
    Black,
    /// The path goes on with the scattered ray and this many steps left.
    Next(i32),
}

pub open spec fn step_spec(depth_left: i32, bounce: Bounce) -> PathStep {
    if depth_left <= 0 {
        PathStep::Black
    } else {
        match bounce {
            Bounce::Missed => PathStep::Sky,
            Bounce::Absorbed => PathStep::Black,
            Bounce::Scattered => PathStep::Next((depth_left - 1) as i32),
        }
    }
}

/// Whether a path with `depth_left` steps left traces another ray.
pub fn may_trace(depth_left: i32) -> (r: bool)
    ensures
        r == (depth_left > 0),
{
    depth_left > 0
}

/// The integrator's decision after tracing a ray with `depth_left` steps left:
/// a path with no steps left ends black; a miss ends with the sky; an
/// absorption ends black; a scatter goes on with one step fewer.
pub fn path_step(depth_left: i32, bounce: Bounce) -> (r: PathStep)
    ensures
        r == step_spec(depth_left, bounce),
{
    if depth_left <= 0 {
        PathStep::Black
    } else {
        match bounce {
            Bounce::Missed => PathStep::Sky,
            Bounce::Absorbed => PathStep::Black,
            Bounce::Scattered => PathStep::Next(depth_left - 1),
        }
    }
}

/// How a path that starts with `depth` steps ends when the scene does
/// `bounces` in turn; `None` where the bounces run out first.
pub open spec fn path_end(depth: i32, bounces: Seq<Bounce>) -> Option<PathStep>
    decreases bounces.len(),
{
    if depth <= 0 {
        Some(PathStep::Black)
    } else if bounces.len() == 0 {
        None
    } else {
        match step_spec(depth, bounces[0]) {
            PathStep::Next(d) => path_end(d, bounces.drop_first()),
            end => Some(end),
        }
    }
}

/// A path with no steps allowed ends black, whatever the scene would do.
pub proof fn lemma_zero_depth_is_black(depth: i32, bounces: Seq<Bounce>)
    requires
        depth <= 0,
    ensures
        path_end(depth, bounces) == Some(PathStep::Black),
{
}

/// A path never takes more steps than it is allowed: with `depth` steps
/// allowed it has ended once `depth` bounces have happened.
pub proof fn lemma_path_ends_within_depth(depth: i32, bounces: Seq<Bounce>)
    requires
        bounces.len() >= depth,
    ensures
        path_end(depth, bounces) == Some(PathStep::Sky) || path_end(depth, bounces) == Some(
            PathStep::Black,
        ),
    decreases bounces.len(),
{
    if depth > 0 {
        match step_spec(depth, bounces[0]) {
            PathStep::Next(d) => lemma_path_ends_within_depth(d, bounces.drop_first()),
            _ => {},
        }
    }
}

/// The first ray of a path that may trace at all, missing the scene, ends it
/// with the sky.
pub proof fn lemma_miss_is_sky(depth: i32, bounces: Seq<Bounce>)
    requires
        depth > 0,
        bounces.len() > 0,
        bounces[0] == Bounce::Missed,
    ensures
        path_end(depth, bounces) == Some(PathStep::Sky),
{
}

} // verus!
