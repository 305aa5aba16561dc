//! The state of one charge and the guard on its changes. The library keeps
//! the state and decides what may change; the values themselves come from
//! the host, which computes them.

use crate::point::{is_zero, Point};
use vstd::prelude::*;

verus! {

/// One charge.
#[derive(Debug, Clone, Copy)]
pub struct Charge<T> {
    cur_pos: Point<T>,
    v: Point<T>,
    past_a: Point<T>,
    q: T,
    fixed: bool,
    cur_f: Point<T>,
}

/// What a `Charge` holds.
pub struct ChargeState<T> {
    /// Where the charge is.
    pub position: Point<T>,
    /// How fast it moves.
    pub velocity: Point<T>,
    /// Its acceleration in the tick before.
    pub prior_acceleration: Point<T>,
    /// How much charge it carries, with sign.
    pub magnitude: T,
    /// Whether it stays where it is.
    pub fixed: bool,
    /// The force gathered on it in the tick at hand.
    pub accumulated_force: Point<T>,
}

impl<T> View for Charge<T> {
    type V = ChargeState<T>;

    closed spec fn view(&self) -> ChargeState<T> {
        ChargeState {
            position: self.cur_pos,
            velocity: self.v,
            prior_acceleration: self.past_a,
            magnitude: self.q,
            fixed: self.fixed,
            accumulated_force: self.cur_f,
        }
    }
}

/// What holds between a state of a charge and any later one: the magnitude
/// and the flag are the same, and a fixed charge is where it was, with the
/// velocity it had.
pub open spec fn preserved<T>(before: ChargeState<T>, after: ChargeState<T>) -> bool {
    &&& after.magnitude == before.magnitude
    &&& after.fixed == before.fixed
    &&& before.fixed ==> after.position == before.position && after.velocity == before.velocity
}

/// `c` with `total` as its gathered force.
pub open spec fn with_force<T>(c: ChargeState<T>, total: Point<T>) -> ChargeState<T> {
    ChargeState { accumulated_force: total, ..c }
}

/// `c` after a step of the integrator that gave the three vectors: moved if
/// it is free, as it was if it is fixed.
pub open spec fn advanced<T>(
    c: ChargeState<T>,
    position: Point<T>,
    velocity: Point<T>,
    acceleration: Point<T>,
) -> ChargeState<T> {
    if c.fixed {
        c
    } else {
        ChargeState { position, velocity, prior_acceleration: acceleration, ..c }
    }
}

impl<T: Copy + Default> Charge<T> {
    /// A charge at `pos` with velocity `v`, magnitude `q` and the given flag.
    /// No force is gathered on it yet and its prior acceleration is zero.
    pub fn new(pos: Point<T>, v: Point<T>, q: T, fixed: bool) -> (c: Charge<T>)
        ensures
            c@.position == pos,
            c@.velocity == v,
            c@.magnitude == q,
            c@.fixed == fixed,
            is_zero(c@.prior_acceleration),
            is_zero(c@.accumulated_force),
    {
        Charge { cur_pos: pos, v, past_a: Point::new(), q, fixed, cur_f: Point::new() }
    }

    /// Takes the outcome of one step of the integrator. A charge that is not
    /// fixed gets the new position, velocity and acceleration; a fixed one
    /// stays as it is.
    pub fn advance(&mut self, position: Point<T>, velocity: Point<T>, acceleration: Point<T>)
        ensures
            final(self)@ == advanced(old(self)@, position, velocity, acceleration),
            preserved(old(self)@, final(self)@),
    {
        if !self.fixed {
            self.cur_pos = position;
            self.v = velocity;
            self.past_a = acceleration;
        }
    }

    /// The magnitude, with sign.
    pub fn get_magnitude(self) -> (q: T)
        ensures
            q == self@.magnitude,
    {
        self.q
    }

    /// Puts the gathered force back to zero. Nothing else changes.
    pub fn reset(&mut self)
        ensures
            is_zero(final(self)@.accumulated_force),
            final(self)@ == with_force(old(self)@, final(self)@.accumulated_force),
            preserved(old(self)@, final(self)@),
    {
        self.cur_f = Point::new();
    }

    /// Takes `total` as the force gathered so far. Nothing else changes; a
    /// fixed charge gathers force as any other does.
    pub fn set_force(&mut self, total: Point<T>)
        ensures
            final(self)@ == with_force(old(self)@, total),
            preserved(old(self)@, final(self)@),
    {
        self.cur_f = total;
    }

    /// The position along x.
    pub fn x(self) -> (x: T)
        ensures
            x == self@.position.0,
    {
        self.cur_pos.x()
    }

    /// The position along y.
    pub fn y(self) -> (y: T)
        ensures
            y == self@.position.1,
    {
        self.cur_pos.y()
    }

    /// The position along z.
    pub fn z(self) -> (z: T)
        ensures
            z == self@.position.2,
    {
        self.cur_pos.z()
    }

    /// The position.
    pub fn get_pos(self) -> (p: Point<T>)
        ensures
            p == self@.position,
    {
        self.cur_pos
    }

    /// The velocity.
    pub fn get_velocity(self) -> (v: Point<T>)
        ensures
            v == self@.velocity,
    {
        self.v
    }

    /// The acceleration of the tick before.
    pub fn get_prior_acceleration(self) -> (a: Point<T>)
        ensures
            a == self@.prior_acceleration,
    {
        self.past_a
    }

    /// The force gathered in the tick at hand.
    pub fn get_force(self) -> (f: Point<T>)
        ensures
            f == self@.accumulated_force,
    {
        self.cur_f
    }

    /// Whether the charge is fixed.
    pub fn is_fixed(self) -> (fixed: bool)
        ensures
            fixed == self@.fixed,
    {
        self.fixed
    }
}

/// A charge is what it holds: two charges with the same state are the same.
pub proof fn lemma_state_is_all<T>(a: Charge<T>, b: Charge<T>)
    requires
        a@ == b@,
    ensures
        a == b,
{
}

/// Through any number of changes a charge keeps its magnitude and its flag,
/// and a fixed charge keeps its position and its velocity: if each state of a
/// history is `preserved` from the one before, the last is `preserved` from
/// the first.
pub proof fn lemma_preserved_through<T>(history: Seq<ChargeState<T>>)
    requires
        history.len() >= 1,
        forall|k: int| 0 <= k < history.len() - 1 ==> preserved(#[trigger] history[k], history[k + 1]),
    ensures
        preserved(history.first(), history.last()),
    decreases history.len(),
{
    if history.len() > 1 {
        let shorter = history.drop_last();
        assert forall|k: int| 0 <= k < shorter.len() - 1 implies preserved(
            #[trigger] shorter[k],
            shorter[k + 1],
        ) by {
            assert(preserved(history[k], history[k + 1]));
        }
        lemma_preserved_through(shorter);
        assert(preserved(history[history.len() - 2], history[history.len() - 1]));
    }
}

} // verus!
