//! The scenario text format. A scenario is a text of lines: a heading that is
//! not read, one line for the electric field, one for the magnetic field, and
//! one line for each charge. Numbers are kept as the literals that the text
//! holds, so that nothing is lost or rounded on the way to the host.

use crate::number::{float_literal, is_float_literal};
use crate::text::{
    chars_of, rows, split, split_on, string_of, strip_parens, trim, trimmed, without_parens,
};
use vstd::prelude::*;

verus! {

/// Three numbers, one for each axis, as literals.
#[derive(Debug, Clone, PartialEq, Eq)]
pub struct Triple {
    pub x: String,
    pub y: String,
    pub z: String,
}

/// What a `Triple` holds.
pub struct TripleText {
    pub x: Seq<char>,
    pub y: Seq<char>,
    pub z: Seq<char>,
}

impl View for Triple {
    type V = TripleText;

    open spec fn view(&self) -> TripleText {
        TripleText { x: self.x@, y: self.y@, z: self.z@ }
    }
}

/// One field: for each axis a coefficient and an exponent.
#[derive(Debug, Clone, PartialEq, Eq)]
pub struct FieldSpec {
    pub coefficients: Triple,
    pub exponents: Triple,
}

/// What a `FieldSpec` holds.
pub struct FieldText {
    pub coefficients: TripleText,
    pub exponents: TripleText,
}

impl View for FieldSpec {
    type V = FieldText;

    open spec fn view(&self) -> FieldText {
        FieldText { coefficients: self.coefficients@, exponents: self.exponents@ }
    }
}

/// One charge as the scenario describes it.
#[derive(Debug, Clone, PartialEq, Eq)]
pub struct ChargeEntry {
    pub position: Triple,
    pub velocity: Triple,
    pub magnitude: String,
    pub fixed: bool,
}

/// What a `ChargeEntry` holds.
pub struct ChargeText {
    pub position: TripleText,
    pub velocity: TripleText,
    pub magnitude: Seq<char>,
    pub fixed: bool,
}

impl View for ChargeEntry {
    type V = ChargeText;

    open spec fn view(&self) -> ChargeText {
        ChargeText {
            position: self.position@,
            velocity: self.velocity@,
            magnitude: self.magnitude@,
            fixed: self.fixed,
        }
    }
}

/// A whole scenario: the two fields and the charges in the order of their
/// lines.
#[derive(Debug, Clone, PartialEq, Eq)]
pub struct Scenario {
    pub electric: FieldSpec,
    pub magnetic: FieldSpec,
    pub charges: Vec<ChargeEntry>,
}

/// What a `Scenario` holds.
pub struct ScenarioText {
    pub electric: FieldText,
    pub magnetic: FieldText,
    pub charges: Seq<ChargeText>,
}

/// The views of the entries of `v`, in order.
pub open spec fn entries(v: Seq<ChargeEntry>) -> Seq<ChargeText> {
    Seq::new(v.len(), |i: int| v[i]@)
}

impl View for Scenario {
    type V = ScenarioText;

    open spec fn view(&self) -> ScenarioText {
        ScenarioText {
            electric: self.electric@,
            magnetic: self.magnetic@,
            charges: entries(self.charges@),
        }
    }
}

/// Why a line of a scenario cannot be read.
#[derive(Debug, Clone, Copy, PartialEq, Eq, Structural)]
pub enum Fault {
    /// The text ends before this line.
    MissingLine,
    /// The line holds fewer tokens, or a group fewer numbers, than it needs.
    MissingToken,
    /// A number is no literal of a binary64 value.
    BadNumber,
    /// The flag is neither `true` nor `false`.
    BadBoolean,
}

/// The first line that cannot be read, counted from zero, and why.
#[derive(Debug, Clone, Copy, PartialEq, Eq, Structural)]
pub struct LoadError {
    pub line: usize,
    pub fault: Fault,
}

/// Every sequence in `parts` is a literal.
pub open spec fn all_literals(parts: Seq<Seq<char>>) -> bool {
    forall|i: int| 0 <= i < parts.len() ==> is_float_literal(#[trigger] parts[i])
}

/// The numbers of one group, brackets removed wherever they stand and commas
/// between the numbers. At least three numbers are needed and the first three
/// are kept. In a group of a field line the white space at both ends is
/// dropped and every number must be a literal; in a group of a charge line
/// only the first three are looked at.
pub open spec fn triple_of(token: Seq<char>, of_field: bool) -> Result<TripleText, Fault> {
    let inner = strip_parens(token);
    let parts = split(if of_field { trim(inner) } else { inner }, ',');
    if parts.len() < 3 {
        Err(Fault::MissingToken)
    } else if !all_literals(if of_field { parts } else { parts.take(3) }) {
        Err(Fault::BadNumber)
    } else {
        Ok(TripleText { x: parts[0], y: parts[1], z: parts[2] })
    }
}

/// A field line: the group of coefficients, one space, the group of
/// exponents. What follows a further space is not read.
pub open spec fn field_of(line: Seq<char>) -> Result<FieldText, Fault> {
    let tokens = split(line, ' ');
    match triple_of(tokens[0], true) {
        Err(fault) => Err(fault),
        Ok(coefficients) => if tokens.len() < 2 {
            Err(Fault::MissingToken)
        } else {
            match triple_of(tokens[1], true) {
                Err(fault) => Err(fault),
                Ok(exponents) => Ok(FieldText { coefficients, exponents }),
            }
        },
    }
}

/// The flag of a charge line: `true` or `false`, with white space allowed at
/// both ends.
pub open spec fn flag_of(token: Seq<char>) -> Result<bool, Fault> {
    let word = trim(token);
    if word == seq!['t', 'r', 'u', 'e'] {
        Ok(true)
    } else if word == seq!['f', 'a', 'l', 's', 'e'] {
        Ok(false)
    } else {
        Err(Fault::BadBoolean)
    }
}

/// A charge line: position, velocity, magnitude and flag, one space between
/// neighbours. What follows a further space is not read.
pub open spec fn charge_of(line: Seq<char>) -> Result<ChargeText, Fault> {
    let tokens = split(line, ' ');
    match triple_of(tokens[0], false) {
        Err(fault) => Err(fault),
        Ok(position) => if tokens.len() < 2 {
            Err(Fault::MissingToken)
        } else {
            match triple_of(tokens[1], false) {
                Err(fault) => Err(fault),
                Ok(velocity) => if tokens.len() < 3 {
                    Err(Fault::MissingToken)
                } else if !is_float_literal(tokens[2]) {
                    Err(Fault::BadNumber)
                } else if tokens.len() < 4 {
                    Err(Fault::MissingToken)
                } else {
                    match flag_of(tokens[3]) {
                        Err(fault) => Err(fault),
                        Ok(fixed) => Ok(
                            ChargeText { position, velocity, magnitude: tokens[2], fixed },
                        ),
                    }
                },
            }
        },
    }
}

/// The first line at or after `from` that is no charge line, or the number of
/// lines if there is none.
pub open spec fn first_bad_charge(lines: Seq<Seq<char>>, from: int) -> int
    decreases lines.len() - from,
{
    if from < 0 || from >= lines.len() {
        lines.len() as int
    } else if charge_of(lines[from]) is Err {
        from
    } else {
        first_bad_charge(lines, from + 1)
    }
}

/// The scenario that `text` describes, or its first line that cannot be
/// read. Lines end at a line feed; the line before the first line feed is the
/// heading; a text that ends in a line feed has an empty last line, which is
/// no charge line.
pub open spec fn scenario_of(text: Seq<char>) -> Result<ScenarioText, LoadError> {
    let lines = split(text, '\n');
    if lines.len() < 2 {
        Err(LoadError { line: 1, fault: Fault::MissingLine })
    } else {
        match field_of(lines[1]) {
            Err(fault) => Err(LoadError { line: 1, fault }),
            Ok(electric) => if lines.len() < 3 {
                Err(LoadError { line: 2, fault: Fault::MissingLine })
            } else {
                match field_of(lines[2]) {
                    Err(fault) => Err(LoadError { line: 2, fault }),
                    Ok(magnetic) => {
                        let bad = first_bad_charge(lines, 3);
                        if bad < lines.len() {
                            Err(
                                LoadError {
                                    line: bad as usize,
                                    fault: charge_of(lines[bad])->Err_0,
                                },
                            )
                        } else {
                            Ok(
                                ScenarioText {
                                    electric,
                                    magnetic,
                                    charges: Seq::new(
                                        (lines.len() - 3) as nat,
                                        |k: int| charge_of(lines[k + 3])->Ok_0,
                                    ),
                                },
                            )
                        }
                    },
                }
            },
        }
    }
}

/// Whether `got` is `expected` seen through the view of its value.
pub open spec fn mirrors<T: View>(got: Result<T, Fault>, expected: Result<T::V, Fault>) -> bool {
    match got {
        Ok(value) => expected == Ok::<T::V, Fault>(value@),
        Err(fault) => expected == Err::<T::V, Fault>(fault),
    }
}

/// Reads one group of numbers.
#[verifier::loop_isolation(false)]
fn triple(token: &Vec<char>, of_field: bool) -> (r: Result<Triple, Fault>)
    ensures
        mirrors(r, triple_of(token@, of_field)),
{
    let inner = without_parens(token);
    let body = if of_field {
        trimmed(&inner)
    } else {
        inner
    };
    let parts = split_on(&body, ',');
    if parts.len() < 3 {
        return Err(Fault::MissingToken);
    }
    let checked = if of_field {
        parts.len()
    } else {
        3
    };
    let ghost looked = rows(parts@).take(checked as int);
    let mut i: usize = 0;
    while i < checked
        invariant
            i <= checked <= parts.len(),
            looked == rows(parts@).take(checked as int),
            forall|k: int| 0 <= k < i ==> is_float_literal(#[trigger] looked[k]),
        decreases checked - i,
    {
        if !float_literal(parts[i].as_slice()) {
            assert(!is_float_literal(looked[i as int]));
            assert(of_field ==> looked =~= rows(parts@));
            return Err(Fault::BadNumber);
        }
        i += 1;
    }
    assert(all_literals(looked));
    assert(of_field ==> looked =~= rows(parts@));
    Ok(Triple { x: string_of(&parts[0]), y: string_of(&parts[1]), z: string_of(&parts[2]) })
}

/// Reads a field line.
fn field_line(line: &Vec<char>) -> (r: Result<FieldSpec, Fault>)
    ensures
        mirrors(r, field_of(line@)),
{
    let tokens = split_on(line, ' ');
    proof {
        crate::text::lemma_split_nonempty(line@, ' ');
    }
    let coefficients = match triple(&tokens[0], true) {
        Ok(t) => t,
        Err(fault) => { return Err(fault); },
    };
    if tokens.len() < 2 {
        return Err(Fault::MissingToken);
    }
    let exponents = match triple(&tokens[1], true) {
        Ok(t) => t,
        Err(fault) => { return Err(fault); },
    };
    Ok(FieldSpec { coefficients, exponents })
}

/// Reads the flag of a charge line.
fn flag(token: &Vec<char>) -> (r: Result<bool, Fault>)
    ensures
        r == flag_of(token@),
{
    let word = trimmed(token);
    if word.len() == 4 && word[0] == 't' && word[1] == 'r' && word[2] == 'u' && word[3] == 'e' {
        assert(word@ =~= seq!['t', 'r', 'u', 'e']);
        Ok(true)
    } else if word.len() == 5 && word[0] == 'f' && word[1] == 'a' && word[2] == 'l' && word[3]
        == 's' && word[4] == 'e' {
        assert(word@ =~= seq!['f', 'a', 'l', 's', 'e']);
        assert(word@ != seq!['t', 'r', 'u', 'e']);
        Ok(false)
    } else {
        proof {
            if word@ == seq!['t', 'r', 'u', 'e'] {
                assert(word@.len() == 4);
                assert(word@[0] == 't' && word@[1] == 'r' && word@[2] == 'u' && word@[3] == 'e');
            }
            if word@ == seq!['f', 'a', 'l', 's', 'e'] {
                assert(word@.len() == 5);
                assert(word@[0] == 'f' && word@[1] == 'a' && word@[2] == 'l' && word@[3] == 's'
                    && word@[4] == 'e');
            }
        }
        Err(Fault::BadBoolean)
    }
}

/// Reads a charge line.
fn charge_line(line: &Vec<char>) -> (r: Result<ChargeEntry, Fault>)
    ensures
        mirrors(r, charge_of(line@)),
{
    let tokens = split_on(line, ' ');
    proof {
        crate::text::lemma_split_nonempty(line@, ' ');
    }
    let position = match triple(&tokens[0], false) {
        Ok(t) => t,
        Err(fault) => { return Err(fault); },
    };
    if tokens.len() < 2 {
        return Err(Fault::MissingToken);
    }
    let velocity = match triple(&tokens[1], false) {
        Ok(t) => t,
        Err(fault) => { return Err(fault); },
    };
    if tokens.len() < 3 {
        return Err(Fault::MissingToken);
    }
    if !float_literal(tokens[2].as_slice()) {
        return Err(Fault::BadNumber);
    }
    if tokens.len() < 4 {
        return Err(Fault::MissingToken);
    }
    let fixed = match flag(&tokens[3]) {
        Ok(b) => b,
        Err(fault) => { return Err(fault); },
    };
    Ok(ChargeEntry { position, velocity, magnitude: string_of(&tokens[2]), fixed })
}

/// Lines that are charge lines do not hold the first bad one.
proof fn lemma_first_bad_skips(lines: Seq<Seq<char>>, from: int, upto: int)
    requires
        0 <= from <= upto <= lines.len(),
        forall|k: int| from <= k < upto ==> charge_of(#[trigger] lines[k]) is Ok,
    ensures
        first_bad_charge(lines, from) == first_bad_charge(lines, upto),
    decreases upto - from,
{
    if from < upto {
        assert(charge_of(lines[from]) is Ok);
        lemma_first_bad_skips(lines, from + 1, upto);
    }
}

/// Reads a scenario from the text of its file.
///
/// The result is `scenario_of(contents)`: the scenario with every number as
/// the text wrote it, or the first line that cannot be read and the reason.
#[verifier::loop_isolation(false)]
pub fn read(contents: &str) -> (r: Result<Scenario, LoadError>)
    ensures
        match r {
            Ok(scenario) => scenario_of(contents@) == Ok::<ScenarioText, LoadError>(scenario@),
            Err(error) => scenario_of(contents@) == Err::<ScenarioText, LoadError>(error),
        },
        r matches Ok(scenario) ==> is_numeric(scenario@),
{
    let text = chars_of(contents);
    let lines = split_on(&text, '\n');
    if lines.len() < 2 {
        return Err(LoadError { line: 1, fault: Fault::MissingLine });
    }
    let electric = match field_line(&lines[1]) {
        Ok(f) => f,
        Err(fault) => { return Err(LoadError { line: 1, fault }); },
    };
    if lines.len() < 3 {
        return Err(LoadError { line: 2, fault: Fault::MissingLine });
    }
    let magnetic = match field_line(&lines[2]) {
        Ok(f) => f,
        Err(fault) => { return Err(LoadError { line: 2, fault }); },
    };
    let ghost all = rows(lines@);
    let mut charges: Vec<ChargeEntry> = Vec::new();
    let mut i: usize = 3;
    while i < lines.len()
        invariant
            3 <= i <= lines.len(),
            all == rows(lines@),
            charges.len() == i - 3,
            forall|k: int| 3 <= k < i ==> charge_of(#[trigger] all[k]) == Ok::<ChargeText, Fault>(
                charges@[k - 3]@,
            ),
        decreases lines.len() - i,
    {
        match charge_line(&lines[i]) {
            Ok(entry) => {
                charges.push(entry);
            },
            Err(fault) => {
                proof {
                    lemma_first_bad_skips(all, 3, i as int);
                    assert(charge_of(all[i as int]) == Err::<ChargeText, Fault>(fault));
                    assert(first_bad_charge(all, i as int) == i);
                }
                return Err(LoadError { line: i, fault });
            },
        }
        i += 1;
    }
    proof {
        lemma_first_bad_skips(all, 3, all.len() as int);
        let expected = Seq::new((all.len() - 3) as nat, |k: int| charge_of(all[k + 3])->Ok_0);
        assert(entries(charges@) =~= expected);
        lemma_scenario_is_numeric(contents@);
    }
    Ok(Scenario { electric, magnetic, charges })
}

/// Every number of the triple is a literal.
pub open spec fn triple_is_numeric(t: TripleText) -> bool {
    is_float_literal(t.x) && is_float_literal(t.y) && is_float_literal(t.z)
}

/// Every number of the scenario is a literal.
pub open spec fn is_numeric(s: ScenarioText) -> bool {
    &&& triple_is_numeric(s.electric.coefficients)
    &&& triple_is_numeric(s.electric.exponents)
    &&& triple_is_numeric(s.magnetic.coefficients)
    &&& triple_is_numeric(s.magnetic.exponents)
    &&& forall|k: int|
        0 <= k < s.charges.len() ==> {
            &&& triple_is_numeric((#[trigger] s.charges[k]).position)
            &&& triple_is_numeric(s.charges[k].velocity)
            &&& is_float_literal(s.charges[k].magnitude)
        }
}

/// A group that can be read holds three literals.
pub proof fn lemma_triple_is_numeric(token: Seq<char>, of_field: bool)
    requires
        triple_of(token, of_field) is Ok,
    ensures
        triple_is_numeric(triple_of(token, of_field)->Ok_0),
{
    let inner = strip_parens(token);
    let parts = split(if of_field { trim(inner) } else { inner }, ',');
    let looked = if of_field { parts } else { parts.take(3) };
    assert(is_float_literal(looked[0]));
    assert(is_float_literal(looked[1]));
    assert(is_float_literal(looked[2]));
}

/// A scenario that can be read holds a literal wherever it holds a number,
/// and one charge for each line after the two field lines.
pub proof fn lemma_scenario_is_numeric(text: Seq<char>)
    requires
        scenario_of(text) is Ok,
    ensures
        is_numeric(scenario_of(text)->Ok_0),
        scenario_of(text)->Ok_0.charges.len() == split(text, '\n').len() - 3,
{
    let lines = split(text, '\n');
    let s = scenario_of(text)->Ok_0;
    lemma_triple_is_numeric(split(lines[1], ' ')[0], true);
    lemma_triple_is_numeric(split(lines[1], ' ')[1], true);
    lemma_triple_is_numeric(split(lines[2], ' ')[0], true);
    lemma_triple_is_numeric(split(lines[2], ' ')[1], true);
    assert forall|k: int| 0 <= k < s.charges.len() implies {
        &&& triple_is_numeric((#[trigger] s.charges[k]).position)
        &&& triple_is_numeric(s.charges[k].velocity)
        &&& is_float_literal(s.charges[k].magnitude)
    } by {
        lemma_first_bad_reaches(lines, 3, k + 3);
        let tokens = split(lines[k + 3], ' ');
        lemma_triple_is_numeric(tokens[0], false);
        lemma_triple_is_numeric(tokens[1], false);
    }
}

/// Where no line from `from` on is bad, each of them is a charge line.
proof fn lemma_first_bad_reaches(lines: Seq<Seq<char>>, from: int, k: int)
    requires
        0 <= from <= k < lines.len(),
        first_bad_charge(lines, from) >= lines.len(),
    ensures
        charge_of(lines[k]) is Ok,
    decreases k - from,
{
    if from < k {
        lemma_first_bad_reaches(lines, from + 1, k);
    }
}

} // verus!
