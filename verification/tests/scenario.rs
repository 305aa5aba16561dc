use charge_sim::scenario::{read, ChargeEntry, Fault, FieldSpec, LoadError, Triple};

fn triple(x: &str, y: &str, z: &str) -> Triple {
    Triple { x: x.to_string(), y: y.to_string(), z: z.to_string() }
}

fn fault_of(text: &str) -> LoadError {
    match read(text) {
        Ok(_) => panic!("the text was read: {:?}", text),
        Err(error) => error,
    }
}

const TWO_CHARGES: &str = "two charges\n(1,0,0) (1,1,1)\n(0,0,0) (1,1,1)\n(0,0,0) (0,0,0) 1.0 false\n(1,0,0) (0,0,0) -1.0 false";

#[test]
fn round_trip_two_charges() {
    let scenario = read(TWO_CHARGES).unwrap();
    assert_eq!(
        scenario.electric,
        FieldSpec { coefficients: triple("1", "0", "0"), exponents: triple("1", "1", "1") }
    );
    assert_eq!(
        scenario.magnetic,
        FieldSpec { coefficients: triple("0", "0", "0"), exponents: triple("1", "1", "1") }
    );
    assert_eq!(scenario.charges.len(), 2);
    assert_eq!(
        scenario.charges[0],
        ChargeEntry {
            position: triple("0", "0", "0"),
            velocity: triple("0", "0", "0"),
            magnitude: "1.0".to_string(),
            fixed: false,
        }
    );
    assert_eq!(
        scenario.charges[1],
        ChargeEntry {
            position: triple("1", "0", "0"),
            velocity: triple("0", "0", "0"),
            magnitude: "-1.0".to_string(),
            fixed: false,
        }
    );
}

#[test]
fn round_trip_values_match_the_tokens() {
    let scenario = read(TWO_CHARGES).unwrap();
    let numbers = |t: &Triple| -> [f64; 3] {
        [t.x.parse().unwrap(), t.y.parse().unwrap(), t.z.parse().unwrap()]
    };
    assert_eq!(numbers(&scenario.electric.coefficients), [1.0, 0.0, 0.0]);
    assert_eq!(numbers(&scenario.electric.exponents), [1.0, 1.0, 1.0]);
    assert_eq!(numbers(&scenario.magnetic.coefficients), [0.0, 0.0, 0.0]);
    assert_eq!(numbers(&scenario.magnetic.exponents), [1.0, 1.0, 1.0]);
    assert_eq!(numbers(&scenario.charges[0].position), [0.0, 0.0, 0.0]);
    assert_eq!(numbers(&scenario.charges[0].velocity), [0.0, 0.0, 0.0]);
    assert_eq!(scenario.charges[0].magnitude.parse::<f64>().unwrap(), 1.0);
    assert!(!scenario.charges[0].fixed);
    assert_eq!(numbers(&scenario.charges[1].position), [1.0, 0.0, 0.0]);
    assert_eq!(numbers(&scenario.charges[1].velocity), [0.0, 0.0, 0.0]);
    assert_eq!(scenario.charges[1].magnitude.parse::<f64>().unwrap(), -1.0);
    assert!(!scenario.charges[1].fixed);
}

#[test]
fn heading_is_not_read() {
    let with_heading = read("(((( anything, at all\n(1,2,3) (4,5,6)\n(7,8,9) (1,1,1)").unwrap();
    let without = read("\n(1,2,3) (4,5,6)\n(7,8,9) (1,1,1)").unwrap();
    assert_eq!(with_heading, without);
    assert_eq!(with_heading.electric.coefficients, triple("1", "2", "3"));
    assert_eq!(with_heading.electric.exponents, triple("4", "5", "6"));
    assert_eq!(with_heading.magnetic.coefficients, triple("7", "8", "9"));
    assert!(with_heading.charges.is_empty());
}

#[test]
fn charges_keep_the_order_of_their_lines() {
    let mut text = String::from("h\n(0,0,0) (1,1,1)\n(0,0,0) (1,1,1)");
    for i in 0..20u32 {
        text.push_str(&format!("\n({},0,0) (0,{},0) {}e-3 {}", i, i + 1, i + 2, i % 2 == 0));
    }
    let scenario = read(&text).unwrap();
    assert_eq!(scenario.charges.len(), 20);
    for i in 0..20u32 {
        let charge = &scenario.charges[i as usize];
        assert_eq!(charge.position, triple(&i.to_string(), "0", "0"));
        assert_eq!(charge.velocity, triple("0", &(i + 1).to_string(), "0"));
        assert_eq!(charge.magnitude, format!("{}e-3", i + 2));
        assert_eq!(charge.fixed, i % 2 == 0);
    }
}

#[test]
fn fixed_flag_is_read() {
    let scenario =
        read("h\n(0,0,0) (1,1,1)\n(0,0,0) (1,1,1)\n(1,2,3) (4,5,6) 2.5 true").unwrap();
    assert!(scenario.charges[0].fixed);
    assert_eq!(scenario.charges[0].magnitude, "2.5");
}

#[test]
fn brackets_are_dropped_wherever_they_stand() {
    let scenario =
        read("h\n1,2,3 ((4),5,6)\n)7(,8,9 (1,1,1)\n1(.5),0,0 (0,0,0) 1 false").unwrap();
    assert_eq!(scenario.electric.coefficients, triple("1", "2", "3"));
    assert_eq!(scenario.electric.exponents, triple("4", "5", "6"));
    assert_eq!(scenario.magnetic.coefficients, triple("7", "8", "9"));
    assert_eq!(scenario.charges[0].position, triple("1.5", "0", "0"));
}

#[test]
fn brackets_in_the_magnitude_are_not_dropped() {
    assert_eq!(
        fault_of("h\n(0,0,0) (1,1,1)\n(0,0,0) (1,1,1)\n(0,0,0) (0,0,0) (1.0) false"),
        LoadError { line: 3, fault: Fault::BadNumber }
    );
}

#[test]
fn carriage_returns_at_the_end_of_lines() {
    let scenario = read(
        "h\r\n(1,0,0) (1,1,1)\r\n(0,0,0) (1,1,1)\r\n(0,0,0) (0,0,0) 1.0 true\r\n(1,0,0) (0,0,0) -1.0 false",
    )
    .unwrap();
    assert_eq!(scenario.electric.exponents, triple("1", "1", "1"));
    assert_eq!(scenario.magnetic.exponents, triple("1", "1", "1"));
    assert_eq!(scenario.charges.len(), 2);
    assert!(scenario.charges[0].fixed);
}

#[test]
fn white_space_round_a_field_group_is_dropped() {
    let scenario = read("h\n\t(1,0,0)\t (1,1,1)\u{a0}\n(0,0,0) (1,1,1)").unwrap();
    assert_eq!(scenario.electric.coefficients, triple("1", "0", "0"));
    assert_eq!(scenario.electric.exponents, triple("1", "1", "1"));
}

#[test]
fn white_space_round_a_charge_group_is_an_error() {
    assert_eq!(
        fault_of("h\n(0,0,0) (1,1,1)\n(0,0,0) (1,1,1)\n\t(0,0,0) (0,0,0) 1 false"),
        LoadError { line: 3, fault: Fault::BadNumber }
    );
}

#[test]
fn special_values_and_exponents_are_numbers() {
    let scenario = read(
        "h\n(inf,-Infinity,NaN) (1e3,2.5E-3,+.5)\n(5.,007,-0) (1,1,1)\n(0,0,0) (0,0,0) -nan true",
    )
    .unwrap();
    assert_eq!(scenario.electric.coefficients, triple("inf", "-Infinity", "NaN"));
    assert_eq!(scenario.electric.exponents, triple("1e3", "2.5E-3", "+.5"));
    assert_eq!(scenario.magnetic.coefficients, triple("5.", "007", "-0"));
    assert_eq!(scenario.charges[0].magnitude, "-nan");
}

#[test]
fn further_tokens_on_a_line_are_not_read() {
    let scenario = read(
        "h\n(1,0,0) (1,1,1) more words\n(0,0,0) (1,1,1) (x,y,z)\n(0,0,0) (0,0,0) 1 false and more",
    )
    .unwrap();
    assert_eq!(scenario.charges.len(), 1);
    assert_eq!(scenario.charges[0].magnitude, "1");
}

#[test]
fn further_numbers_in_a_charge_group_are_not_read() {
    let scenario =
        read("h\n(1,0,0) (1,1,1)\n(0,0,0) (1,1,1)\n(1,2,3,x) (4,5,6,,) 1 false").unwrap();
    assert_eq!(scenario.charges[0].position, triple("1", "2", "3"));
    assert_eq!(scenario.charges[0].velocity, triple("4", "5", "6"));
}

#[test]
fn further_numbers_in_a_field_group_must_be_numbers() {
    let scenario = read("h\n(1,2,3,4) (1,1,1)\n(0,0,0) (1,1,1)").unwrap();
    assert_eq!(scenario.electric.coefficients, triple("1", "2", "3"));
    assert_eq!(
        fault_of("h\n(1,2,3,x) (1,1,1)\n(0,0,0) (1,1,1)"),
        LoadError { line: 1, fault: Fault::BadNumber }
    );
}

#[test]
fn missing_lines() {
    assert_eq!(fault_of(""), LoadError { line: 1, fault: Fault::MissingLine });
    assert_eq!(fault_of("heading only"), LoadError { line: 1, fault: Fault::MissingLine });
    assert_eq!(
        fault_of("h\n(1,0,0) (1,1,1)"),
        LoadError { line: 2, fault: Fault::MissingLine }
    );
}

#[test]
fn a_bad_first_field_line_is_told_before_a_missing_second() {
    assert_eq!(fault_of("h\n(1,0,0)"), LoadError { line: 1, fault: Fault::MissingToken });
    assert_eq!(fault_of("h\n(1,zero,0) (1,1,1)"), LoadError { line: 1, fault: Fault::BadNumber });
}

#[test]
fn field_line_with_too_few_tokens() {
    assert_eq!(
        fault_of("h\n(1,0,0)\n(0,0,0) (1,1,1)"),
        LoadError { line: 1, fault: Fault::MissingToken }
    );
    assert_eq!(
        fault_of("h\n(1,0,0) (1,1,1)\n(0,0,0)"),
        LoadError { line: 2, fault: Fault::MissingToken }
    );
    assert_eq!(
        fault_of("h\n(1,0) (1,1,1)\n(0,0,0) (1,1,1)"),
        LoadError { line: 1, fault: Fault::MissingToken }
    );
    assert_eq!(
        fault_of("h\n(1,0,0) (1,1)\n(0,0,0) (1,1,1)"),
        LoadError { line: 1, fault: Fault::MissingToken }
    );
    assert_eq!(
        fault_of("h\n\n(0,0,0) (1,1,1)"),
        LoadError { line: 1, fault: Fault::MissingToken }
    );
}

#[test]
fn two_spaces_make_an_empty_token() {
    assert_eq!(
        fault_of("h\n(1,0,0)  (1,1,1)\n(0,0,0) (1,1,1)"),
        LoadError { line: 1, fault: Fault::MissingToken }
    );
    assert_eq!(
        fault_of("h\n(1,0,0) (1,1,1)\n(0,0,0) (1,1,1)\n(0,0,0) (0,0,0)  1 false"),
        LoadError { line: 3, fault: Fault::BadNumber }
    );
}

#[test]
fn field_line_with_a_bad_number() {
    assert_eq!(
        fault_of("h\n(1,0,0) (1,one,1)\n(0,0,0) (1,1,1)"),
        LoadError { line: 1, fault: Fault::BadNumber }
    );
    assert_eq!(
        fault_of("h\n(1,0,0) (1,1,1)\n(0,0,0x10) (1,1,1)"),
        LoadError { line: 2, fault: Fault::BadNumber }
    );
    assert_eq!(
        fault_of("h\n(1, 0,0) (1,1,1)\n(0,0,0) (1,1,1)"),
        LoadError { line: 1, fault: Fault::MissingToken }
    );
}

#[test]
fn charge_line_with_too_few_tokens() {
    let head = "h\n(1,0,0) (1,1,1)\n(0,0,0) (1,1,1)\n";
    for line in ["(0,0,0)", "(0,0,0) (0,0,0)", "(0,0,0) (0,0,0) 1.0", "(0,0) (0,0,0) 1.0 true",
        "(0,0,0) (0,0) 1.0 true"]
    {
        assert_eq!(
            fault_of(&format!("{}{}", head, line)),
            LoadError { line: 3, fault: Fault::MissingToken },
            "{}",
            line
        );
    }
}

#[test]
fn charge_line_with_a_bad_number() {
    let head = "h\n(1,0,0) (1,1,1)\n(0,0,0) (1,1,1)\n";
    for line in ["(a,0,0) (0,0,0) 1.0 true", "(0,0,0) (0,,0) 1.0 true", "(0,0,0) (0,0,0) q true",
        "(0,0,0) (0,0,0) 1.0e true", "(0,0,0) (0,0,1_000) 1.0 true"]
    {
        assert_eq!(
            fault_of(&format!("{}{}", head, line)),
            LoadError { line: 3, fault: Fault::BadNumber },
            "{}",
            line
        );
    }
}

#[test]
fn charge_line_with_a_bad_flag() {
    let head = "h\n(1,0,0) (1,1,1)\n(0,0,0) (1,1,1)\n";
    for flag in ["yes", "True", "FALSE", "1", "", "tru", "falsey", "(true)"] {
        assert_eq!(
            fault_of(&format!("{}(0,0,0) (0,0,0) 1.0 {}", head, flag)),
            LoadError { line: 3, fault: Fault::BadBoolean },
            "{}",
            flag
        );
    }
    let scenario = read(&format!("{}(0,0,0) (0,0,0) 1.0 \ttrue\r", head)).unwrap();
    assert!(scenario.charges[0].fixed);
}

#[test]
fn the_first_bad_line_is_told() {
    let text = "h\n(1,0,0) (1,1,1)\n(0,0,0) (1,1,1)\n(0,0,0) (0,0,0) 1 true\n(0,0,0) (0,0,0) 1 maybe\n(0,0,0) (0,0,0) x true\n(0,0,0)";
    assert_eq!(fault_of(text), LoadError { line: 4, fault: Fault::BadBoolean });
}

#[test]
fn a_line_feed_at_the_end_leaves_an_empty_charge_line() {
    assert_eq!(
        fault_of(&format!("{}\n", TWO_CHARGES)),
        LoadError { line: 5, fault: Fault::MissingToken }
    );
}

#[test]
fn every_number_of_a_loaded_scenario_parses() {
    let scenario = read(
        "h\n(1e308,-2.5E-7,.5) (+3.,inf,nan)\n(0,0,0) (1,1,1)\n(1,2,3) (4,5,6) -7.25e2 false",
    )
    .unwrap();
    let mut numbers: Vec<&String> = Vec::new();
    for field in [&scenario.electric, &scenario.magnetic] {
        for t in [&field.coefficients, &field.exponents] {
            numbers.extend([&t.x, &t.y, &t.z]);
        }
    }
    for charge in &scenario.charges {
        for t in [&charge.position, &charge.velocity] {
            numbers.extend([&t.x, &t.y, &t.z]);
        }
        numbers.push(&charge.magnitude);
    }
    assert_eq!(numbers.len(), 19);
    for n in numbers {
        assert!(n.parse::<f64>().is_ok(), "{}", n);
    }
    assert_eq!(scenario.charges[0].magnitude.parse::<f64>().unwrap(), -725.0);
}

#[test]
fn loading_twice_gives_the_same_scenario() {
    assert_eq!(read(TWO_CHARGES), read(TWO_CHARGES));
}
