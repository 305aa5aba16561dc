//! One tick of the simulation. The library runs the tick: it decides what is
//! computed, in what order, and what is kept. The computing itself, which is
//! arithmetic on the components, is the host's and comes in through
//! `Physics`. Nothing is assumed of what the host computes: every contract
//! here holds whatever its methods give.

use crate::charge::{advanced, lemma_state_is_all, preserved, with_force, Charge};
use crate::point::{is_default, is_zero, Point};
use crate::schedule::{all_pairs, lemma_plan_layout, movable, plan_of, tick_plan, Step};
use vstd::prelude::*;

verus! {

/// The arithmetic that a tick needs, for components of type `T`. The host
/// implements it; the comments say what each method is meant to compute, and
/// no contract here relies on it.
pub trait Physics<T> {
    /// The Coulomb force on `c1` from `c2`: of size `q1 * q2 * K / r^2`, with
    /// `r` the distance between the two, along the unit vector from `c2` to
    /// `c1`.
    fn coulomb(&self, c1: Charge<T>, c2: Charge<T>) -> Point<T>;

    /// Whether `c1` and `c2` are at most the minimum separation apart.
    fn within_cutoff(&self, c1: Charge<T>, c2: Charge<T>) -> bool;

    /// The Lorentz force on `c`: `q * (E + v x B)`, where each field has, along
    /// each axis, its coefficient times the charge's own coordinate to the
    /// power of its exponent.
    fn lorentz(&self, c: Charge<T>) -> Point<T>;

    /// The Abraham-Lorentz term of `c`: as long as
    /// `(2/3) * K * q^2 / C^3 * (force - prior acceleration) / dt`, and
    /// turned against the velocity.
    fn abraham_lorentz(&self, c: Charge<T>) -> Point<T>;

    /// The sum of two vectors.
    fn sum(&self, a: Point<T>, b: Point<T>) -> Point<T>;

    /// The negation of a vector.
    fn negate(&self, a: Point<T>) -> Point<T>;

    /// One step of the integrator for `c`. With `a = force / mass`: the new
    /// position `x + v * dt + a * dt^2 / 2`, the new velocity
    /// `v + dt * (a + prior acceleration) / 2`, and `a`, in this order.
    fn integrate(&self, c: Charge<T>) -> (Point<T>, Point<T>, Point<T>);

    /// Moves the clock on by one step in time.
    fn advance_clock(&mut self);
}

/// `kept` is `force` after the guard against the singularity: zero if the
/// two charges are within the cutoff, else the force as computed.
pub open spec fn guarded<T: Default>(force: Point<T>, within_cutoff: bool, kept: Point<T>) -> bool {
    if within_cutoff {
        is_zero(kept)
    } else {
        kept == force
    }
}

/// What the step for a pair makes of two charges: the host computes the
/// Coulomb force on the first from the second; the guard keeps it or puts
/// zero in its place; the first gathers what is kept and the second its
/// negation. Nothing but the gathered forces changes.
pub open spec fn pair_outcome<T: Default, H: Physics<T>>(
    host: &H,
    c1: Charge<T>,
    c2: Charge<T>,
    after1: Charge<T>,
    after2: Charge<T>,
) -> bool {
    exists|computed: Point<T>, within: bool, kept: Point<T>, opposite: Point<T>|
        #![trigger
            call_ensures(H::coulomb, (host, c1, c2), computed),
            call_ensures(H::within_cutoff, (host, c1, c2), within),
            call_ensures(H::negate, (host, kept), opposite)
        ]
        {
            &&& call_ensures(H::coulomb, (host, c1, c2), computed)
            &&& call_ensures(H::within_cutoff, (host, c1, c2), within)
            &&& guarded(computed, within, kept)
            &&& call_ensures(H::negate, (host, kept), opposite)
            &&& call_ensures(
                H::sum,
                (host, c1@.accumulated_force, kept),
                after1@.accumulated_force,
            )
            &&& call_ensures(
                H::sum,
                (host, c2@.accumulated_force, opposite),
                after2@.accumulated_force,
            )
            &&& after1@ == with_force(c1@, after1@.accumulated_force)
            &&& after2@ == with_force(c2@, after2@.accumulated_force)
        }
}

/// What the step for the fields makes of a charge: it gathers the Lorentz
/// force that the host computes for it, and nothing else: the Abraham-Lorentz
/// term is computed and left aside.
pub open spec fn field_outcome<T, H: Physics<T>>(host: &H, c: Charge<T>, after: Charge<T>) -> bool {
    exists|force: Point<T>|
        {
            &&& #[trigger] call_ensures(H::lorentz, (host, c), force)
            &&& call_ensures(H::sum, (host, c@.accumulated_force, force), after@.accumulated_force)
            &&& after@ == with_force(c@, after@.accumulated_force)
        }
}

/// What the step of the integrator makes of a charge: a free charge takes the
/// position, velocity and acceleration that the host computes for it; a fixed
/// charge stays as it is.
pub open spec fn move_outcome<T, H: Physics<T>>(host: &H, c: Charge<T>, after: Charge<T>) -> bool {
    exists|position: Point<T>, velocity: Point<T>, acceleration: Point<T>|
        {
            &&& #[trigger] call_ensures(H::integrate, (host, c), (position, velocity, acceleration))
            &&& after@ == advanced(c@, position, velocity, acceleration)
        }
}

/// The force between two charges after the guard against the singularity:
/// zero if the two are within the cutoff, else the force as computed.
pub fn cut_off<T: Copy + Default>(force: Point<T>, within_cutoff: bool) -> (kept: Point<T>)
    ensures
        guarded(force, within_cutoff, kept),
{
    if within_cutoff {
        Point::new()
    } else {
        force
    }
}

/// The step for a pair: the force between `c1` and `c2` is gathered on both,
/// with opposite signs.
pub fn interact<T: Copy + Default, H: Physics<T>>(host: &H, c1: Charge<T>, c2: Charge<T>) -> (after:
    (Charge<T>, Charge<T>))
    ensures
        pair_outcome(host, c1, c2, after.0, after.1),
        preserved(c1@, after.0@),
        preserved(c2@, after.1@),
{
    let computed = host.coulomb(c1, c2);
    let within = host.within_cutoff(c1, c2);
    let kept = cut_off(computed, within);
    let opposite = host.negate(kept);
    let total1 = host.sum(c1.get_force(), kept);
    let total2 = host.sum(c2.get_force(), opposite);
    let mut after1 = c1;
    let mut after2 = c2;
    after1.set_force(total1);
    after2.set_force(total2);
    assert(call_ensures(H::negate, (host, kept), opposite));
    (after1, after2)
}

/// The step for the fields: the Lorentz force is gathered on `c`.
pub fn drive<T: Copy + Default, H: Physics<T>>(host: &H, c: Charge<T>) -> (after: Charge<T>)
    ensures
        field_outcome(host, c, after),
        preserved(c@, after@),
{
    let force = host.lorentz(c);
    let _radiation = host.abraham_lorentz(c);
    let total = host.sum(c.get_force(), force);
    let mut after = c;
    after.set_force(total);
    after
}

/// The step of the integrator: `c` moves, unless it is fixed.
pub fn relocate<T: Copy + Default, H: Physics<T>>(host: &H, c: Charge<T>) -> (after: Charge<T>)
    ensures
        move_outcome(host, c, after),
        preserved(c@, after@),
{
    let (position, velocity, acceleration) = host.integrate(c);
    let mut after = c;
    after.advance(position, velocity, acceleration);
    after
}

/// For each charge, in order, whether it is fixed.
pub open spec fn flags_of<T>(charges: Seq<Charge<T>>) -> Seq<bool> {
    Seq::new(charges.len(), |i: int| charges[i]@.fixed)
}

/// Lists for each charge, in order, whether it is fixed.
pub fn fixed_flags<T: Copy + Default>(charges: &Vec<Charge<T>>) -> (flags: Vec<bool>)
    ensures
        flags@ == flags_of(charges@),
{
    let mut flags: Vec<bool> = Vec::new();
    let mut i: usize = 0;
    while i < charges.len()
        invariant
            i <= charges.len(),
            flags@ == flags_of(charges@).take(i as int),
        decreases charges.len() - i,
    {
        flags.push(charges[i].is_fixed());
        i += 1;
        assert(flags@ =~= flags_of(charges@).take(i as int));
    }
    assert(flags_of(charges@).take(i as int) =~= flags_of(charges@));
    flags
}

/// Whether `step` works on the charge with number `i`.
pub open spec fn touches(step: Step, i: int) -> bool {
    match step {
        Step::Pair { first, second } => i == first || i == second,
        Step::Field { charge } => i == charge,
        Step::Integrate { charge } => i == charge,
        Step::Reset { charge } => i == charge,
        Step::Clock => false,
    }
}

/// Whether every charge that `step` names is among `n` charges.
pub open spec fn in_range(step: Step, n: int) -> bool {
    match step {
        Step::Pair { first, second } => first < second < n,
        Step::Field { charge } => charge < n,
        Step::Integrate { charge } => charge < n,
        Step::Reset { charge } => charge < n,
        Step::Clock => true,
    }
}

/// What one step makes of the charges: a charge that the step does not name
/// stays as it is; one that it names becomes what the step's kind says.
pub open spec fn step_outcome<T: Default, H: Physics<T>>(
    host: &H,
    step: Step,
    before: Seq<Charge<T>>,
    after: Seq<Charge<T>>,
) -> bool {
    &&& after.len() == before.len()
    &&& forall|i: int|
        0 <= i < before.len() && !touches(step, i) ==> #[trigger] after[i] == before[i]
    &&& match step {
        Step::Pair { first, second } => pair_outcome(
            host,
            before[first as int],
            before[second as int],
            after[first as int],
            after[second as int],
        ),
        Step::Field { charge } => field_outcome(host, before[charge as int], after[charge as int]),
        Step::Integrate { charge } => move_outcome(
            host,
            before[charge as int],
            after[charge as int],
        ),
        Step::Reset { charge } => {
            &&& is_zero(after[charge as int]@.accumulated_force)
            &&& after[charge as int]@ == with_force(
                before[charge as int]@,
                after[charge as int]@.accumulated_force,
            )
        },
        Step::Clock => true,
    }
}

/// Whether `states` are the charges before, between and after the steps of
/// `plan`: one state more than there are steps, each step leading from its
/// state to the next.
pub open spec fn is_run<T: Default, H: Physics<T>>(
    host: &H,
    plan: Seq<Step>,
    states: Seq<Seq<Charge<T>>>,
) -> bool {
    &&& states.len() == plan.len() + 1
    &&& forall|k: int|
        #![trigger states[k]]
        0 <= k < plan.len() ==> step_outcome(host, plan[k], states[k], states[k + 1])
}

/// Carries out one step of a plan on the charges.
pub fn carry_out<T: Copy + Default, H: Physics<T>>(
    charges: &mut Vec<Charge<T>>,
    host: &mut H,
    step: Step,
)
    requires
        in_range(step, old(charges)@.len() as int),
    ensures
        step_outcome(&*old(host), step, old(charges)@, final(charges)@),
        forall|i: int|
            0 <= i < old(charges)@.len() ==> preserved(
                #[trigger] old(charges)@[i]@,
                final(charges)@[i]@,
            ),
        !(step is Clock) ==> *final(host) == *old(host),
{
    match step {
        Step::Pair { first, second } => {
            let (c1, c2) = interact(&*host, charges[first], charges[second]);
            charges.set(first, c1);
            charges.set(second, c2);
        },
        Step::Field { charge } => {
            let c = drive(&*host, charges[charge]);
            charges.set(charge, c);
        },
        Step::Integrate { charge } => {
            let c = relocate(&*host, charges[charge]);
            charges.set(charge, c);
        },
        Step::Reset { charge } => {
            let mut c = charges[charge];
            c.reset();
            charges.set(charge, c);
        },
        Step::Clock => {
            host.advance_clock();
        },
    }
}

/// One tick: carries out the plan of the charges' flags, step by step.
///
/// The charges go through a run of `plan_of`: for every pair once the force
/// between the two, then the fields on every charge, then the move of every
/// free charge, then the reset of every charge, and at last the clock. The
/// host computes each value from the charges as they are at that step, and
/// up to the clock it is the host that came in.
///
/// Whatever the host computes, the charges are as many as before, each keeps
/// its magnitude and its flag, a fixed charge keeps its position and its
/// velocity, and no force is left gathered on any charge.
pub fn tick<T: Copy + Default, H: Physics<T>>(charges: &mut Vec<Charge<T>>, host: &mut H)
    ensures
        exists|states: Seq<Seq<Charge<T>>>|
            #[trigger] is_run(&*old(host), plan_of(flags_of(old(charges)@)), states)
                && states.first() == old(charges)@ && states.last() == final(charges)@,
        final(charges)@.len() == old(charges)@.len(),
        forall|i: int|
            0 <= i < old(charges)@.len() ==> preserved(
                #[trigger] old(charges)@[i]@,
                final(charges)@[i]@,
            ),
        forall|i: int|
            0 <= i < final(charges)@.len() ==> is_zero(
                (#[trigger] final(charges)@[i])@.accumulated_force,
            ),
{
    let flags = fixed_flags(charges);
    let plan = tick_plan(&flags);
    let count: usize = charges.len();
    let ghost n = count as int;
    let ghost resets = all_pairs(n as usize).len() + n + movable(flags@).len();
    let ghost mut states: Seq<Seq<Charge<T>>> = seq![charges@];
    let mut k: usize = 0;
    while k < plan.len()
        invariant
            k <= plan.len(),
            plan@ == plan_of(flags@),
            n == count,
            flags@.len() == n,
            charges@.len() == n,
            resets == all_pairs(n as usize).len() + n + movable(flags@).len(),
            k < plan.len() ==> *host == *old(host),
            states.len() == k + 1,
            states[0] == old(charges)@,
            states[k as int] == charges@,
            forall|j: int|
                #![trigger states[j]]
                0 <= j < k ==> step_outcome(&*old(host), plan@[j], states[j], states[j + 1]),
            forall|i: int|
                0 <= i < n ==> preserved(#[trigger] old(charges)@[i]@, charges@[i]@),
            forall|i: int|
                0 <= i < n && resets + i < k ==> is_zero(
                    (#[trigger] charges@[i])@.accumulated_force,
                ),
        decreases plan.len() - k,
    {
        let step = plan[k];
        proof {
            lemma_plan_layout(flags@, k as int);
        }
        let ghost before = charges@;
        carry_out(charges, host, step);
        proof {
            states = states.push(charges@);
            assert forall|i: int| 0 <= i < n implies preserved(
                #[trigger] old(charges)@[i]@,
                charges@[i]@,
            ) by {
                assert(preserved(old(charges)@[i]@, before[i]@));
                assert(preserved(before[i]@, charges@[i]@));
            }
            assert forall|i: int| 0 <= i < n && resets + i < k + 1 implies is_zero(
                (#[trigger] charges@[i])@.accumulated_force,
            ) by {
                if resets + i < k {
                    assert(is_zero(before[i]@.accumulated_force));
                    assert(!touches(step, i));
                }
            }
        }
        k += 1;
    }
    proof {
        lemma_plan_layout(flags@, 0);
        assert(is_run(&*old(host), plan_of(flags_of(old(charges)@)), states));
    }
}

/// Whether the host's arithmetic is a function of its arguments: asked twice
/// for the same, it gives the same; and `T` has one default value.
pub open spec fn is_deterministic<T: Default, H: Physics<T>>(host: &H) -> bool {
    &&& forall|a: T, b: T| #[trigger] is_default(a) && #[trigger] is_default(b) ==> a == b
    &&& forall|c1: Charge<T>, c2: Charge<T>, f: Point<T>, g: Point<T>|
        #[trigger] call_ensures(H::coulomb, (host, c1, c2), f) && #[trigger] call_ensures(
            H::coulomb,
            (host, c1, c2),
            g,
        ) ==> f == g
    &&& forall|c1: Charge<T>, c2: Charge<T>, f: bool, g: bool|
        #[trigger] call_ensures(H::within_cutoff, (host, c1, c2), f) && #[trigger] call_ensures(
            H::within_cutoff,
            (host, c1, c2),
            g,
        ) ==> f == g
    &&& forall|c: Charge<T>, f: Point<T>, g: Point<T>|
        #[trigger] call_ensures(H::lorentz, (host, c), f) && #[trigger] call_ensures(
            H::lorentz,
            (host, c),
            g,
        ) ==> f == g
    &&& forall|a: Point<T>, b: Point<T>, f: Point<T>, g: Point<T>|
        #[trigger] call_ensures(H::sum, (host, a, b), f) && #[trigger] call_ensures(
            H::sum,
            (host, a, b),
            g,
        ) ==> f == g
    &&& forall|a: Point<T>, f: Point<T>, g: Point<T>|
        #[trigger] call_ensures(H::negate, (host, a), f) && #[trigger] call_ensures(
            H::negate,
            (host, a),
            g,
        ) ==> f == g
    &&& forall|
        c: Charge<T>,
        f: (Point<T>, Point<T>, Point<T>),
        g: (Point<T>, Point<T>, Point<T>),
    |
        #[trigger] call_ensures(H::integrate, (host, c), f) && #[trigger] call_ensures(
            H::integrate,
            (host, c),
            g,
        ) ==> f == g
}

/// With arithmetic that is a function of its arguments, a step has one
/// outcome.
pub proof fn lemma_step_is_function<T: Default, H: Physics<T>>(
    host: &H,
    step: Step,
    before: Seq<Charge<T>>,
    after1: Seq<Charge<T>>,
    after2: Seq<Charge<T>>,
)
    requires
        is_deterministic(host),
        in_range(step, before.len() as int),
        step_outcome(host, step, before, after1),
        step_outcome(host, step, before, after2),
    ensures
        after1 == after2,
{
    assert forall|i: int| 0 <= i < before.len() implies after1[i] == after2[i] by {
        if touches(step, i) {
            match step {
                Step::Pair { first, second } => {
                    let c1 = before[first as int];
                    let c2 = before[second as int];
                    lemma_pair_is_function(
                        host,
                        c1,
                        c2,
                        after1[first as int],
                        after1[second as int],
                        after2[first as int],
                        after2[second as int],
                    );
                },
                Step::Field { charge } => {
                    let c = before[charge as int];
                    let a1 = after1[charge as int];
                    let a2 = after2[charge as int];
                    let f1 = choose|force: Point<T>|
                        {
                            &&& #[trigger] call_ensures(H::lorentz, (host, c), force)
                            &&& call_ensures(
                                H::sum,
                                (host, c@.accumulated_force, force),
                                a1@.accumulated_force,
                            )
                            &&& a1@ == with_force(c@, a1@.accumulated_force)
                        };
                    let f2 = choose|force: Point<T>|
                        {
                            &&& #[trigger] call_ensures(H::lorentz, (host, c), force)
                            &&& call_ensures(
                                H::sum,
                                (host, c@.accumulated_force, force),
                                a2@.accumulated_force,
                            )
                            &&& a2@ == with_force(c@, a2@.accumulated_force)
                        };
                    assert(f1 == f2);
                    lemma_state_is_all(a1, a2);
                },
                Step::Integrate { charge } => {
                    let c = before[charge as int];
                    let a1 = after1[charge as int];
                    let a2 = after2[charge as int];
                    let m1 = choose|position: Point<T>, velocity: Point<T>, acceleration: Point<T>|
                        {
                            &&& #[trigger] call_ensures(
                                H::integrate,
                                (host, c),
                                (position, velocity, acceleration),
                            )
                            &&& a1@ == advanced(c@, position, velocity, acceleration)
                        };
                    let m2 = choose|position: Point<T>, velocity: Point<T>, acceleration: Point<T>|
                        {
                            &&& #[trigger] call_ensures(
                                H::integrate,
                                (host, c),
                                (position, velocity, acceleration),
                            )
                            &&& a2@ == advanced(c@, position, velocity, acceleration)
                        };
                    assert(m1 == m2);
                    lemma_state_is_all(a1, a2);
                },
                Step::Reset { charge } => {
                    let a1 = after1[charge as int];
                    let a2 = after2[charge as int];
                    lemma_zero_is_one(a1@.accumulated_force, a2@.accumulated_force);
                    lemma_state_is_all(a1, a2);
                },
                Step::Clock => {},
            }
        }
    }
    assert(after1 =~= after2);
}

/// Where `T` has one default value, there is one zero vector.
proof fn lemma_zero_is_one<T: Default>(a: Point<T>, b: Point<T>)
    requires
        forall|x: T, y: T| #[trigger] is_default(x) && #[trigger] is_default(y) ==> x == y,
        is_zero(a),
        is_zero(b),
    ensures
        a == b,
{
}

/// With arithmetic that is a function of its arguments, the step for a pair
/// has one outcome.
proof fn lemma_pair_is_function<T: Default, H: Physics<T>>(
    host: &H,
    c1: Charge<T>,
    c2: Charge<T>,
    a1: Charge<T>,
    a2: Charge<T>,
    b1: Charge<T>,
    b2: Charge<T>,
)
    requires
        is_deterministic(host),
        pair_outcome(host, c1, c2, a1, a2),
        pair_outcome(host, c1, c2, b1, b2),
    ensures
        a1 == b1,
        a2 == b2,
{
    let (computed, within, kept, opposite) = choose|
        computed: Point<T>,
        within: bool,
        kept: Point<T>,
        opposite: Point<T>,
    |
        #![trigger
            call_ensures(H::coulomb, (host, c1, c2), computed),
            call_ensures(H::within_cutoff, (host, c1, c2), within),
            call_ensures(H::negate, (host, kept), opposite)
        ]
        {
            &&& call_ensures(H::coulomb, (host, c1, c2), computed)
            &&& call_ensures(H::within_cutoff, (host, c1, c2), within)
            &&& guarded(computed, within, kept)
            &&& call_ensures(H::negate, (host, kept), opposite)
            &&& call_ensures(H::sum, (host, c1@.accumulated_force, kept), a1@.accumulated_force)
            &&& call_ensures(
                H::sum,
                (host, c2@.accumulated_force, opposite),
                a2@.accumulated_force,
            )
            &&& a1@ == with_force(c1@, a1@.accumulated_force)
            &&& a2@ == with_force(c2@, a2@.accumulated_force)
        };
    let (computed_b, within_b, kept_b, opposite_b) = choose|
        computed: Point<T>,
        within: bool,
        kept: Point<T>,
        opposite: Point<T>,
    |
        #![trigger
            call_ensures(H::coulomb, (host, c1, c2), computed),
            call_ensures(H::within_cutoff, (host, c1, c2), within),
            call_ensures(H::negate, (host, kept), opposite)
        ]
        {
            &&& call_ensures(H::coulomb, (host, c1, c2), computed)
            &&& call_ensures(H::within_cutoff, (host, c1, c2), within)
            &&& guarded(computed, within, kept)
            &&& call_ensures(H::negate, (host, kept), opposite)
            &&& call_ensures(H::sum, (host, c1@.accumulated_force, kept), b1@.accumulated_force)
            &&& call_ensures(
                H::sum,
                (host, c2@.accumulated_force, opposite),
                b2@.accumulated_force,
            )
            &&& b1@ == with_force(c1@, b1@.accumulated_force)
            &&& b2@ == with_force(c2@, b2@.accumulated_force)
        };
    assert(computed == computed_b);
    assert(within == within_b);
    if within {
        lemma_zero_is_one(kept, kept_b);
    }
    assert(kept == kept_b);
    assert(opposite == opposite_b);
    lemma_state_is_all(a1, b1);
    lemma_state_is_all(a2, b2);
}

/// With arithmetic that is a function of its arguments, a tick is one too:
/// two runs of the same plan from the same charges go through the same
/// states, so they end with the same charges.
pub proof fn lemma_run_is_function<T: Default, H: Physics<T>>(
    host: &H,
    plan: Seq<Step>,
    run1: Seq<Seq<Charge<T>>>,
    run2: Seq<Seq<Charge<T>>>,
)
    requires
        is_deterministic(host),
        is_run(host, plan, run1),
        is_run(host, plan, run2),
        run1.first() == run2.first(),
        forall|k: int| 0 <= k < plan.len() ==> in_range(#[trigger] plan[k], run1.first().len() as int),
    ensures
        run1 == run2,
{
    assert forall|k: int| 0 <= k <= plan.len() implies run1[k] == run2[k] by {
        lemma_run_agrees(host, plan, run1, run2, k);
    }
    assert(run1 =~= run2);
}

/// Two runs as in `lemma_run_is_function` agree on their state `k`, which
/// holds as many charges as the first.
proof fn lemma_run_agrees<T: Default, H: Physics<T>>(
    host: &H,
    plan: Seq<Step>,
    run1: Seq<Seq<Charge<T>>>,
    run2: Seq<Seq<Charge<T>>>,
    k: int,
)
    requires
        is_deterministic(host),
        is_run(host, plan, run1),
        is_run(host, plan, run2),
        run1.first() == run2.first(),
        forall|j: int| 0 <= j < plan.len() ==> in_range(#[trigger] plan[j], run1.first().len() as int),
        0 <= k <= plan.len(),
    ensures
        run1[k] == run2[k],
        run1[k].len() == run1.first().len(),
    decreases k,
{
    if k > 0 {
        lemma_run_agrees(host, plan, run1, run2, k - 1);
        assert(step_outcome(host, plan[k - 1], run1[k - 1], run1[k - 1 + 1]));
        assert(step_outcome(host, plan[k - 1], run2[k - 1], run2[k - 1 + 1]));
        assert(in_range(plan[k - 1], run1.first().len() as int));
        lemma_step_is_function(host, plan[k - 1], run1[k - 1], run1[k], run2[k]);
    }
}

/// A tick adds no chance of its own: with arithmetic that is a function of
/// its arguments, the charges before a tick fix the charges after it.
pub proof fn lemma_tick_is_function<T: Default, H: Physics<T>>(
    host: &H,
    start: Seq<Charge<T>>,
    run1: Seq<Seq<Charge<T>>>,
    run2: Seq<Seq<Charge<T>>>,
)
    requires
        start.len() <= usize::MAX,
        is_deterministic(host),
        is_run(host, plan_of(flags_of(start)), run1),
        is_run(host, plan_of(flags_of(start)), run2),
        run1.first() == start,
        run2.first() == start,
    ensures
        run1.last() == run2.last(),
{
    let plan = plan_of(flags_of(start));
    assert forall|k: int| 0 <= k < plan.len() implies in_range(
        #[trigger] plan[k],
        start.len() as int,
    ) by {
        lemma_plan_layout(flags_of(start), k);
    }
    lemma_run_is_function(host, plan, run1, run2);
}

} // verus!
