//! The corridor bookkeeping of the ground mover, shared by the authoritative
//! server and the predicting client so the two cannot drift apart on which
//! corner a unit is walking to.
//!
//! The kinematic law itself (stepping, turning, facing) is floating-point and
//! lives with the application; what stands here is the route: which point a
//! mover steers at, and when an order is finished.

use vstd::prelude::*;
use bevy::math::Vec2;

verus! {

/// The destination a unit is walking to — a world XZ ground point.
#[derive(Clone, Copy, Debug, PartialEq)]
pub struct MoveGoal(pub Vec2);

/// The corridor a unit is walking: the route's remaining waypoints, nearest
/// first, ending at its [`MoveGoal`].
#[derive(Clone, Debug, Default)]
pub struct MovePath {
    /// Waypoints still ahead, nearest first.
    waypoints: Vec<Vec2>,
}

impl View for MovePath {
    type V = Seq<Vec2>;

    closed spec fn view(&self) -> Seq<Vec2> {
        self.waypoints@
    }
}

/// The corridor after the corner just reached is dropped.
pub open spec fn spec_advanced(p: Seq<Vec2>) -> Seq<Vec2> {
    if p.len() > 0 { p.drop_first() } else { p }
}

impl MovePath {
    /// A corridor over `waypoints` (nearest first).
    pub fn new(waypoints: Vec<Vec2>) -> (p: Self)
        ensures
            p@ == waypoints@,
    {
        MovePath { waypoints }
    }

    /// The corner being walked to, if any.
    pub fn next(&self) -> (r: Option<Vec2>)
        ensures
            r == if self@.len() > 0 { Some(self@[0]) } else { None::<Vec2> },
    {
        if self.waypoints.len() > 0 {
            Some(self.waypoints[0])
        } else {
            None
        }
    }

    /// Drop the corner just reached.
    pub fn advance(&mut self)
        ensures
            final(self)@ == spec_advanced(old(self)@),
    {
        if self.waypoints.len() > 0 {
            self.waypoints.remove(0);
            assert(self.waypoints@ =~= spec_advanced(old(self)@));
        }
    }

    /// Whether the whole corridor has been walked.
    pub fn is_empty(&self) -> (b: bool)
        ensures
            b <==> self@.len() == 0,
    {
        self.waypoints.len() == 0
    }

    /// How many corners are still ahead.
    pub fn len(&self) -> (n: usize)
        ensures
            n == self@.len(),
    {
        self.waypoints.len()
    }
}

/// What a mover steers at: the next corner of its corridor when it has one,
/// else the goal itself.
pub open spec fn spec_steer_target(path: Option<Seq<Vec2>>, goal: Vec2) -> Vec2 {
    match path {
        Some(p) => if p.len() > 0 { p[0] } else { goal },
        None => goal,
    }
}

/// What a mover should steer at this tick: the next corner of its corridor
/// when it has one, else the goal itself.
pub fn steer_target(path: Option<&MovePath>, goal: Vec2) -> (t: Vec2)
    ensures
        t == spec_steer_target(
            match path {
                Some(p) => Some(p@),
                None => None,
            },
            goal,
        ),
{
    match path {
        Some(p) => match p.next() {
            Some(corner) => corner,
            None => goal,
        },
        None => goal,
    }
}

/// Book the arrival a mover just made and answer whether the whole order is
/// finished. Reaching a waypoint drops that corner, and the order is done when
/// the last one is behind it; a mover with no corridor is finished the moment
/// it arrives, and nothing changes on a tick without an arrival.
pub fn consume_arrival(path: Option<&mut MovePath>, arrived: bool) -> (finished: bool)
    ensures
        match path {
            Some(p) => if arrived {
                &&& final(p)@ == spec_advanced(p@)
                &&& finished == (spec_advanced(p@).len() == 0)
            } else {
                &&& final(p)@ == p@
                &&& !finished
            },
            None => finished == arrived,
        },
{
    match path {
        Some(p) if arrived => {
            p.advance();
            p.is_empty()
        },
        _ => arrived,
    }
}

/// Walking a corridor finishes its order on the arrival at its last corner and
/// not before: from a corridor of `n` corners, arrival number `k` (counting
/// from one) finishes the order exactly when `k == n`.
pub proof fn law_corridor_finishes_at_its_last_corner(p: Seq<Vec2>, k: nat)
    requires
        1 <= k <= p.len(),
    ensures
        p.skip(k as int - 1).len() > 0,
        spec_advanced(p.skip(k as int - 1)) == p.skip(k as int),
        (spec_advanced(p.skip(k as int - 1)).len() == 0) <==> k == p.len(),
{
    assert(p.skip(k as int - 1).drop_first() =~= p.skip(k as int));
}

/// A mover with a corner left in its corridor steers at that corner, the
/// nearest one; with no corner left, or no corridor, it steers at the goal.
/// Once the corner is reached and dropped, it steers at the corner after it,
/// and at the goal after the last.
pub proof fn law_steer_heads_for_the_next_corner(p: Seq<Vec2>, goal: Vec2)
    ensures
        p.len() > 0 ==> spec_steer_target(Some(p), goal) == p[0],
        p.len() == 0 ==> spec_steer_target(Some(p), goal) == goal,
        spec_steer_target(None, goal) == goal,
        spec_steer_target(Some(spec_advanced(p)), goal) == if p.len() > 1 {
            p[1]
        } else {
            goal
        },
{
}

} // verus!
