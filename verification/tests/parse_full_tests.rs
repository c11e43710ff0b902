use poppk::config::CovariateModel;
use poppk::config::DosingRoute;
use poppk::config::ErrorModel;
use poppk::config::IntegrationMethod;
use poppk::decimal::Decimal;
use poppk::error::PKError;
use poppk::nonmem::parse_control_stream;
use poppk::nonmem::ControlStreamParser;

#[test]
fn test_parse_full_control_stream() {
    let content = r#"
$PROBLEM Two compartment infusion study
$SUBROUTINES ADVAN3
$THETA
(0.5, 2.0, 10.0)  ; CL
15.0              ; V1
1.0               ; Q
5.0               ; V2
$OMEGA
0.09
0.04
$SIGMA
MODEL = COMBINED
0.0144, 0.0025
$DOSING
ROUTE = INFUSION
AMOUNT = 500
TIMES = 0.0, 12.0
DURATION = 2.0
$POPULATION
WEIGHT_MEAN = 75
WEIGHT_SD = 10
AGE_MEAN = 50
AGE_SD = 8
COV_CL_WT_EFFECT = 0.75
$SIMULATION
TIME_POINTS = 0.0, 1.0, 2.0, 4.0, 8.0
METHOD = RK4
"#;
    let config = parse_control_stream(content.as_bytes()).unwrap();

    assert_eq!(config.model.compartments, 2);
    assert_eq!(config.model.parameters.len(), 4);
    let cl = config.model.parameters.get("CL".as_bytes()).unwrap();
    assert_eq!(cl.theta, Decimal::from_int(2));
    assert_eq!(cl.bounds, Some((Decimal::from_nanos(500_000_000), Decimal::from_int(10))));
    assert_eq!(cl.omega, Some(Decimal::from_int(30))); // sqrt(0.09)*100
    let v1 = config.model.parameters.get("V1".as_bytes()).unwrap();
    assert_eq!(v1.theta, Decimal::from_int(15));
    assert_eq!(v1.omega, Some(Decimal::from_int(20))); // sqrt(0.04)*100

    assert_eq!(config.dosing.route, DosingRoute::IvInfusion);
    assert_eq!(config.dosing.amount, Decimal::from_int(500));
    assert_eq!(config.dosing.times, vec![Decimal::from_int(0), Decimal::from_int(12)]);
    let add = config.dosing.additional.unwrap();
    assert_eq!(add.duration, Some(Decimal::from_int(2)));

    assert_eq!(config.population.demographics.weight_mean, Decimal::from_int(75));
    assert_eq!(config.population.demographics.age_sd, Decimal::from_int(8));
    let covs = config.population.covariates.as_ref().unwrap();
    let wt = covs.get("CL_WT".as_bytes()).unwrap();
    assert_eq!(wt.effect, Decimal::from_nanos(750_000_000));
    assert_eq!(wt.reference, Decimal::from_int(70));
    assert!(matches!(wt.model, CovariateModel::Power));

    assert_eq!(
        config.simulation.time_points,
        vec![
            Decimal::from_int(0),
            Decimal::from_int(1),
            Decimal::from_int(2),
            Decimal::from_int(4),
            Decimal::from_int(8)
        ]
    );
    match config.simulation.error_model {
        ErrorModel::Combined { sigma_prop, sigma_add } => {
            assert_eq!(sigma_prop, Decimal::from_nanos(120_000_000)); // sqrt(0.0144)
            assert_eq!(sigma_add, Decimal::from_nanos(50_000_000)); // sqrt(0.0025)
        },
        other => panic!("expected a combined error model, got {:?}", other),
    }
    assert_eq!(config.simulation.integration_method, IntegrationMethod::Rk4);

    // the parsed configuration passes validation
    assert!(config.validate().is_ok());
}

#[test]
fn test_parse_defaults_when_blocks_absent() {
    let config = parse_control_stream("$SUBROUTINES ADVAN1\n$THETA\n2.0\n10.0\n".as_bytes())
        .unwrap();
    assert_eq!(config.model.compartments, 1);
    // dosing defaults: IV bolus of 100 at time zero
    assert_eq!(config.dosing.route, DosingRoute::IvBolus);
    assert_eq!(config.dosing.amount, Decimal::from_int(100));
    assert_eq!(config.dosing.times, vec![Decimal::from_int(0)]);
    assert!(config.dosing.additional.is_none());
    // demographics defaults
    assert_eq!(config.population.demographics.weight_mean, Decimal::from_int(70));
    assert_eq!(config.population.demographics.weight_sd, Decimal::from_int(15));
    assert_eq!(config.population.demographics.age_mean, Decimal::from_int(45));
    assert_eq!(config.population.demographics.age_sd, Decimal::from_int(12));
    // simulation defaults: the standard grid and a proportional error
    assert_eq!(config.simulation.time_points.len(), 7);
    assert_eq!(config.simulation.time_points[6], Decimal::from_int(24));
    match config.simulation.error_model {
        ErrorModel::Proportional { sigma } => assert_eq!(sigma, Decimal::from_nanos(100_000_000)),
        other => panic!("expected a proportional error model, got {:?}", other),
    }
}

#[test]
fn test_parse_requires_subroutines() {
    match parse_control_stream("$THETA\n2.0\n".as_bytes()) {
        Err(PKError::InvalidModel(f)) => assert_eq!(f, "$THETA".as_bytes().to_vec()),
        other => panic!("expected InvalidModel, got {:?}", other),
    }
    match parse_control_stream("$PROBLEM nothing else\n".as_bytes()) {
        Err(PKError::InvalidModel(f)) => assert_eq!(f, "$SUBROUTINES".as_bytes().to_vec()),
        other => panic!("expected InvalidModel, got {:?}", other),
    }
}

#[test]
fn test_parse_advan11_selects_three_compartments() {
    let config = parse_control_stream("$SUBROUTINES ADVAN11\n".as_bytes()).unwrap();
    assert_eq!(config.model.compartments, 3);
    match parse_control_stream("$SUBROUTINES ADVAN7\n".as_bytes()) {
        Err(PKError::InvalidModel(f)) => assert_eq!(f, "$SUBROUTINES ADVAN7".as_bytes().to_vec()),
        other => panic!("expected InvalidModel, got {:?}", other),
    }
}

#[test]
fn test_parse_rejects_bad_theta_value() {
    let mut parser = ControlStreamParser::new("$SUBROUTINES ADVAN1\n$THETA\nabc\n".as_bytes());
    match parser.parse() {
        Err(PKError::Validation(f)) => assert_eq!(f, "abc".as_bytes().to_vec()),
        other => panic!("expected Validation, got {:?}", other),
    }
}

#[test]
fn test_comments_and_blank_lines_are_dropped() {
    let parser = ControlStreamParser::new(
        "; a full comment line\n\n  $PROBLEM x ; trailing\n\t\n$DATA y\n".as_bytes(),
    );
    assert_eq!(parser.lines.len(), 2);
    assert_eq!(parser.lines[0], "$PROBLEM x".as_bytes().to_vec());
    assert_eq!(parser.lines[1], "$DATA y".as_bytes().to_vec());
}
