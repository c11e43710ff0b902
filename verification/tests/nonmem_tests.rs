use poppk::config::CovariateModel;
use poppk::config::ErrorModel;
use poppk::decimal::Decimal;
use poppk::nonmem::ControlStreamParser;

#[test]
fn test_parse_simple_control_stream() {
    let content = r#"
$PROBLEM One compartment oral model
$SUBROUTINES ADVAN1 TRANS2
$PK
CL = THETA(1)
V = THETA(2)
KA = THETA(3)
$THETA
(0.1, 2.0, 10.0)  ; CL
(5.0, 15.0, 50.0) ; V
(0.1, 1.5, 5.0)   ; KA
$OMEGA
0.09  ; CL
0.0625 ; V
0.16   ; KA
$SIGMA
0.0225
"#;

    let mut parser = ControlStreamParser::new(content.as_bytes());
    let config = parser.parse().unwrap();

    assert_eq!(config.model.compartments, 1);
    assert_eq!(config.model.parameters.len(), 3);
    assert_eq!(config.model.parameters.get("CL".as_bytes()).unwrap().theta, Decimal::from_int(2));
    assert_eq!(config.model.parameters.get("V".as_bytes()).unwrap().theta, Decimal::from_int(15));
    assert_eq!(
        config.model.parameters.get("KA".as_bytes()).unwrap().theta,
        Decimal::from_nanos(1_500_000_000)
    );
}

#[test]
fn test_parse_theta_with_bounds() {
    let parser = ControlStreamParser::new("".as_bytes());

    // Test simple value
    let result = parser.parse_theta_line("2.5".as_bytes()).unwrap();
    assert_eq!(result, (None, Decimal::from_nanos(2_500_000_000), None));

    // Test with bounds
    let result = parser.parse_theta_line("(0.1, 2.0, 10.0)".as_bytes()).unwrap();
    assert_eq!(
        result,
        (
            Some(Decimal::from_nanos(100_000_000)),
            Decimal::from_int(2),
            Some(Decimal::from_int(10))
        )
    );

    // Test with spaces
    let result = parser.parse_theta_line("( 0.5 , 3.0 , 15.0 )".as_bytes()).unwrap();
    assert_eq!(
        result,
        (
            Some(Decimal::from_nanos(500_000_000)),
            Decimal::from_int(3),
            Some(Decimal::from_int(15))
        )
    );
}

#[test]
fn test_parse_omega_conversion() {
    let parser = ControlStreamParser::new("".as_bytes());

    // Test variance to CV% conversion
    let result = parser.parse_omega_line("0.09".as_bytes()).unwrap();
    assert_eq!(result, Decimal::from_int(30)); // sqrt(0.09) * 100 = 30%

    let result = parser.parse_omega_line("0.0625".as_bytes()).unwrap();
    assert_eq!(result, Decimal::from_int(25)); // sqrt(0.0625) * 100 = 25%
}

#[test]
fn test_parse_covariate_line() {
    let parser = ControlStreamParser::new("".as_bytes());

    // Test weight effect
    let (param, config) = parser.parse_covariate_line("COV_CL_WT_EFFECT = 0.75".as_bytes()).unwrap();
    assert_eq!(param, "CL_WT".as_bytes().to_vec());
    assert_eq!(config.effect, Decimal::from_nanos(750_000_000));
    assert_eq!(config.reference, Decimal::from_int(70));
    assert!(matches!(config.model, CovariateModel::Power));

    // Test categorical effect
    let (param, config) = parser.parse_covariate_line("COV_CL_SEX_EFFECT = 0.2".as_bytes()).unwrap();
    assert_eq!(param, "CL_SEX".as_bytes().to_vec());
    assert_eq!(config.effect, Decimal::from_nanos(200_000_000));
    assert_eq!(config.reference, Decimal::from_int(0));
    assert!(matches!(config.model, CovariateModel::Linear));
}

#[test]
fn test_parse_time_values() {
    let parser = ControlStreamParser::new("".as_bytes());

    let result = parser.extract_time_values("TIME_POINTS = 0.0, 1.0, 2.0, 4.0".as_bytes()).unwrap();
    assert_eq!(
        result,
        vec![
            Decimal::from_int(0),
            Decimal::from_int(1),
            Decimal::from_int(2),
            Decimal::from_int(4)
        ]
    );

    let result = parser.extract_time_values("TIMES = 0.0,12.0,24.0".as_bytes()).unwrap();
    assert_eq!(
        result,
        vec![Decimal::from_int(0), Decimal::from_int(12), Decimal::from_int(24)]
    );
}

#[test]
fn test_parse_error_models() {
    let content_prop = r#"
$SIGMA
MODEL = PROPORTIONAL
0.0225
"#;
    let mut parser = ControlStreamParser::new(content_prop.as_bytes());
    parser.current_line = 0; // at $SIGMA (blank lines are dropped)
    let config = parser.parse_sigma_block().unwrap();
    assert!(matches!(config.error_model, ErrorModel::Proportional { .. }));

    let content_combined = r#"
$SIGMA
MODEL = COMBINED
0.0144, 0.0025
"#;
    let mut parser = ControlStreamParser::new(content_combined.as_bytes());
    parser.current_line = 0; // at $SIGMA (blank lines are dropped)
    let config = parser.parse_sigma_block().unwrap();
    assert!(matches!(config.error_model, ErrorModel::Combined { .. }));
}
