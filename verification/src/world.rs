//! From a scenario to the charges and fields of a run. A scenario holds its
//! numbers as literals; the host turns a literal into a value, and the
//! library puts the values where they belong.

use crate::charge::{Charge, ChargeState};
use crate::number::is_float_literal;
use crate::point::{is_zero, Point};
use crate::scenario::{
    is_numeric, read, scenario_of, triple_is_numeric, ChargeEntry, ChargeText, FieldSpec,
    FieldText, LoadError, Scenario, ScenarioText, Triple, TripleText,
};
use vstd::prelude::*;

verus! {

/// One field with its numbers as values: for each axis a coefficient and an
/// exponent.
#[derive(Debug, Clone, Copy)]
pub struct Field<T> {
    pub coefficients: Point<T>,
    pub exponents: Point<T>,
}

/// The fields and the charges of a run, the charges in the order of their
/// lines.
#[derive(Debug, Clone)]
pub struct World<T> {
    pub electric: Field<T>,
    pub magnetic: Field<T>,
    pub charges: Vec<Charge<T>>,
}

/// Whether `number` can be called on every literal.
pub open spec fn takes_literals<T, F: Fn(&String) -> T>(number: &F) -> bool {
    forall|s: &String| is_float_literal(s@) ==> call_requires(*number, (s,))
}

/// Whether `value` is what `number` gave for a string that reads `literal`.
pub open spec fn reads<T, F: Fn(&String) -> T>(number: &F, literal: Seq<char>, value: T) -> bool {
    exists|s: &String| s@ == literal && #[trigger] call_ensures(*number, (s,), value)
}

/// Whether each component of `p` is what `number` gave for the literal in
/// its place.
pub open spec fn reads_triple<T, F: Fn(&String) -> T>(
    number: &F,
    literals: TripleText,
    p: Point<T>,
) -> bool {
    reads(number, literals.x, p.0) && reads(number, literals.y, p.1) && reads(
        number,
        literals.z,
        p.2,
    )
}

/// Whether `field` holds the values of the literals of `literals`.
pub open spec fn reads_field<T, F: Fn(&String) -> T>(
    number: &F,
    literals: FieldText,
    field: Field<T>,
) -> bool {
    reads_triple(number, literals.coefficients, field.coefficients) && reads_triple(
        number,
        literals.exponents,
        field.exponents,
    )
}

/// Whether `c` is the charge that `entry` describes, at the start of a run:
/// position, velocity and magnitude are the values of the literals, the flag
/// is the entry's, and neither force nor prior acceleration is there yet.
pub open spec fn reads_charge<T: Default, F: Fn(&String) -> T>(
    number: &F,
    entry: ChargeText,
    c: ChargeState<T>,
) -> bool {
    &&& reads_triple(number, entry.position, c.position)
    &&& reads_triple(number, entry.velocity, c.velocity)
    &&& reads(number, entry.magnitude, c.magnitude)
    &&& c.fixed == entry.fixed
    &&& is_zero(c.prior_acceleration)
    &&& is_zero(c.accumulated_force)
}

/// Whether `world` is the run that `scenario` describes.
pub open spec fn reads_scenario<T: Default, F: Fn(&String) -> T>(
    number: &F,
    scenario: ScenarioText,
    world: World<T>,
) -> bool {
    &&& reads_field(number, scenario.electric, world.electric)
    &&& reads_field(number, scenario.magnetic, world.magnetic)
    &&& world.charges@.len() == scenario.charges.len()
    &&& forall|i: int|
        0 <= i < scenario.charges.len() ==> reads_charge(
            number,
            #[trigger] scenario.charges[i],
            world.charges@[i]@,
        )
}

/// The vector of three literals.
pub fn point_of<T: Copy + Default, F: Fn(&String) -> T>(triple: &Triple, number: &F) -> (p: Point<
    T,
>)
    requires
        takes_literals(number),
        triple_is_numeric(triple@),
    ensures
        reads_triple(number, triple@, p),
{
    let x = number(&triple.x);
    let y = number(&triple.y);
    let z = number(&triple.z);
    Point::from(x, y, z)
}

/// The field of a field line.
pub fn field_of<T: Copy + Default, F: Fn(&String) -> T>(spec: &FieldSpec, number: &F) -> (field:
    Field<T>)
    requires
        takes_literals(number),
        triple_is_numeric(spec@.coefficients),
        triple_is_numeric(spec@.exponents),
    ensures
        reads_field(number, spec@, field),
{
    Field {
        coefficients: point_of(&spec.coefficients, number),
        exponents: point_of(&spec.exponents, number),
    }
}

/// The charge of a charge line, as it is at the start of a run.
pub fn charge_of<T: Copy + Default, F: Fn(&String) -> T>(entry: &ChargeEntry, number: &F) -> (c:
    Charge<T>)
    requires
        takes_literals(number),
        triple_is_numeric(entry@.position),
        triple_is_numeric(entry@.velocity),
        is_float_literal(entry@.magnitude),
    ensures
        reads_charge(number, entry@, c@),
{
    let position = point_of(&entry.position, number);
    let velocity = point_of(&entry.velocity, number);
    let magnitude = number(&entry.magnitude);
    Charge::new(position, velocity, magnitude, entry.fixed)
}

/// The run that a scenario describes.
pub fn assemble<T: Copy + Default, F: Fn(&String) -> T>(scenario: &Scenario, number: &F) -> (world:
    World<T>)
    requires
        takes_literals(number),
        is_numeric(scenario@),
    ensures
        reads_scenario(number, scenario@, world),
{
    let electric = field_of(&scenario.electric, number);
    let magnetic = field_of(&scenario.magnetic, number);
    let mut charges: Vec<Charge<T>> = Vec::new();
    let mut i: usize = 0;
    while i < scenario.charges.len()
        invariant
            i <= scenario.charges.len(),
            takes_literals(number),
            is_numeric(scenario@),
            charges@.len() == i,
            forall|k: int|
                0 <= k < i ==> reads_charge(
                    number,
                    #[trigger] scenario@.charges[k],
                    charges@[k]@,
                ),
        decreases scenario.charges.len() - i,
    {
        assert(scenario@.charges[i as int] == scenario.charges@[i as int]@);
        let c = charge_of(&scenario.charges[i], number);
        charges.push(c);
        i += 1;
    }
    World { electric, magnetic, charges }
}

/// Reads the text of a scenario file and builds the run that it describes.
///
/// Fails exactly when the text is no scenario, with the first line that
/// cannot be read; else every value is what `number` gave for its literal.
pub fn setup<T: Copy + Default, F: Fn(&String) -> T>(contents: &str, number: &F) -> (r: Result<
    World<T>,
    LoadError,
>)
    requires
        takes_literals(number),
    ensures
        match r {
            Ok(world) => scenario_of(contents@) is Ok && reads_scenario(
                number,
                scenario_of(contents@)->Ok_0,
                world,
            ),
            Err(error) => scenario_of(contents@) == Err::<ScenarioText, LoadError>(error),
        },
{
    match read(contents) {
        Ok(scenario) => Ok(assemble(&scenario, number)),
        Err(error) => Err(error),
    }
}

} // verus!
