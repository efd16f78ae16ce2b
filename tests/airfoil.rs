use nacafoil::{boundary_trace, parse_designation, plan_airfoil, Designation, Fraction, NacaError};

#[test]
fn decodes_cambered_designation() {
    let d = parse_designation("2412").unwrap();
    assert_eq!(
        d,
        Designation { max_camber_percent: 2, max_camber_location_tenths: 4, thickness_percent: 12 }
    );
    assert!(!d.is_symmetric());
}

#[test]
fn decodes_symmetric_designation() {
    let d = parse_designation("0006").unwrap();
    assert_eq!(d.thickness_percent, 6);
    assert!(d.is_symmetric());
    assert!(!parse_designation("0406").unwrap().is_symmetric());
    assert!(!parse_designation("2006").unwrap().is_symmetric());
}

#[test]
fn refuses_designation_of_wrong_length() {
    for name in ["", "241", "24120", "2412 "] {
        assert_eq!(parse_designation(name), Err(NacaError::InvalidDesignation), "{}", name);
    }
}

#[test]
fn refuses_designation_with_other_characters() {
    for name in ["24a2", "+412", "2.12", "x412", "24-2", "\u{ff12}412"] {
        assert_eq!(parse_designation(name), Err(NacaError::InvalidDesignation), "{}", name);
    }
}

#[test]
fn plans_naca_2412() {
    let p = plan_airfoil("2412", 13).unwrap();
    assert_eq!(p.designation.max_camber_percent, 2);
    assert_eq!(p.designation.max_camber_location_tenths, 4);
    assert_eq!(p.designation.thickness_percent, 12);
    assert_eq!(p.half_num, 7);
    let nums: Vec<i64> = p.angles.iter().map(|f| f.num).collect();
    assert_eq!(nums, [6, 5, 4, 3, 2, 1, 0]);
    assert!(p.angles.iter().all(|f| f.den == 6));
}

#[test]
fn plans_even_count() {
    let p = plan_airfoil("0006", 10000).unwrap();
    assert_eq!(p.half_num, 5000);
    assert_eq!(p.angles.len(), 5000);
    assert_eq!(p.angles[0], Fraction { num: 4999, den: 4999 });
    assert_eq!(p.angles[4999], Fraction { num: 0, den: 4999 });
}

#[test]
fn plan_errors() {
    assert_eq!(plan_airfoil("24x2", 100).unwrap_err(), NacaError::InvalidDesignation);
    assert_eq!(plan_airfoil("2412", 1).unwrap_err(), NacaError::InvalidArgument);
    assert_eq!(plan_airfoil("2412", -4).unwrap_err(), NacaError::InvalidArgument);
    assert_eq!(plan_airfoil("241", 1).unwrap_err(), NacaError::InvalidDesignation);
}

#[test]
fn plan_is_deterministic() {
    let first = plan_airfoil("4415", 101).unwrap();
    let second = plan_airfoil("4415", 101).unwrap();
    assert_eq!(first.designation, second.designation);
    assert_eq!(first.half_num, second.half_num);
    assert_eq!(first.angles, second.angles);
}

#[test]
fn trace_runs_upper_then_lower() {
    let upper = vec![(0.0, 0.0), (0.5, 0.06), (1.0, 0.001)];
    let lower = vec![(0.0, 0.0), (0.5, -0.06), (1.0, -0.001)];
    let trace = boundary_trace(&upper, &lower);
    assert_eq!(
        trace,
        [(1.0, 0.001), (0.5, 0.06), (0.0, 0.0), (0.0, 0.0), (0.5, -0.06), (1.0, -0.001)]
    );
}

#[test]
fn trace_of_empty_surfaces() {
    let upper: Vec<i32> = vec![];
    let lower = vec![7, 8];
    assert_eq!(boundary_trace(&upper, &lower), [7, 8]);
    assert_eq!(boundary_trace(&lower, &upper), [8, 7]);
}
