use poppk::config::AdditionalDosingParams;
use poppk::config::Config;
use poppk::config::DemographicsConfig;
use poppk::config::DosingConfig;
use poppk::config::DosingRoute;
use poppk::config::ErrorModel;
use poppk::config::IntegrationMethod;
use poppk::config::ModelConfig;
use poppk::config::ParameterConfig;
use poppk::config::ParameterMap;
use poppk::config::PopulationConfig;
use poppk::config::SimulationConfig;
use poppk::decimal::Decimal;
use poppk::error::PKError;

fn param(theta: i64) -> ParameterConfig {
    ParameterConfig { theta: Decimal::from_int(theta), omega: None, bounds: None }
}

fn base_config() -> Config {
    let mut parameters = ParameterMap::new();
    parameters.insert("CL".as_bytes().to_vec(), param(2));
    parameters.insert("V".as_bytes().to_vec(), param(10));
    Config {
        model: ModelConfig { compartments: 1, parameters },
        dosing: DosingConfig {
            route: DosingRoute::IvBolus,
            amount: Decimal::from_int(100),
            times: vec![Decimal::from_int(0)],
            additional: None,
        },
        population: PopulationConfig {
            demographics: DemographicsConfig {
                weight_mean: Decimal::from_int(70),
                weight_sd: Decimal::from_int(15),
                age_mean: Decimal::from_int(45),
                age_sd: Decimal::from_int(12),
            },
            covariates: None,
        },
        simulation: SimulationConfig {
            time_points: vec![Decimal::from_int(0), Decimal::from_int(5)],
            error_model: ErrorModel::Proportional { sigma: Decimal::from_nanos(100_000_000) },
            integration_method: IntegrationMethod::Analytical,
            tolerance: None,
        },
    }
}

#[test]
fn test_validate_accepts_base_config() {
    assert!(base_config().validate().is_ok());
}

#[test]
fn test_validate_rejects_bad_compartments() {
    let mut cfg = base_config();
    cfg.model.compartments = 4;
    match cfg.validate() {
        Err(PKError::InvalidModel(f)) => assert_eq!(f, "compartments".as_bytes().to_vec()),
        other => panic!("expected InvalidModel, got {:?}", other),
    }
}

#[test]
fn test_validate_rejects_missing_parameter() {
    let mut cfg = base_config();
    cfg.model.compartments = 2; // now needs CL, V1, Q, V2
    match cfg.validate() {
        Err(PKError::InvalidModel(f)) => assert_eq!(f, "V1".as_bytes().to_vec()),
        other => panic!("expected InvalidModel, got {:?}", other),
    }
}

#[test]
fn test_validate_rejects_nonpositive_theta() {
    let mut cfg = base_config();
    cfg.model.parameters.insert("CL".as_bytes().to_vec(), param(0));
    match cfg.validate() {
        Err(PKError::Validation(f)) => assert_eq!(f, "CL".as_bytes().to_vec()),
        other => panic!("expected Validation, got {:?}", other),
    }
}

#[test]
fn test_validate_requires_ka_for_oral() {
    let mut cfg = base_config();
    cfg.dosing.route = DosingRoute::Oral;
    match cfg.validate() {
        Err(PKError::InvalidModel(f)) => assert_eq!(f, "KA".as_bytes().to_vec()),
        other => panic!("expected InvalidModel, got {:?}", other),
    }
    cfg.model.parameters.insert("KA".as_bytes().to_vec(), param(1));
    assert!(cfg.validate().is_ok());
}

#[test]
fn test_validate_rejects_bad_dosing() {
    let mut cfg = base_config();
    cfg.dosing.amount = Decimal::from_int(0);
    match cfg.validate() {
        Err(PKError::InvalidDosing(f)) => assert_eq!(f, "amount".as_bytes().to_vec()),
        other => panic!("expected InvalidDosing, got {:?}", other),
    }

    let mut cfg = base_config();
    cfg.dosing.times = vec![];
    match cfg.validate() {
        Err(PKError::InvalidDosing(f)) => assert_eq!(f, "times".as_bytes().to_vec()),
        other => panic!("expected InvalidDosing, got {:?}", other),
    }

    let mut cfg = base_config();
    cfg.dosing.route = DosingRoute::IvInfusion;
    match cfg.validate() {
        Err(PKError::InvalidDosing(f)) => assert_eq!(f, "duration".as_bytes().to_vec()),
        other => panic!("expected InvalidDosing, got {:?}", other),
    }
    cfg.dosing.additional = Some(AdditionalDosingParams {
        duration: Some(Decimal::from_int(2)),
        lag_time: None,
        bioavailability: None,
    });
    assert!(cfg.validate().is_ok());
}

#[test]
fn test_validate_rejects_empty_time_grid() {
    let mut cfg = base_config();
    cfg.simulation.time_points = vec![];
    match cfg.validate() {
        Err(PKError::Validation(f)) => assert_eq!(f, "time_points".as_bytes().to_vec()),
        other => panic!("expected Validation, got {:?}", other),
    }
}

#[test]
fn test_parameter_map_keeps_insertion_order() {
    let mut m = ParameterMap::new();
    m.insert("CL".as_bytes().to_vec(), param(2));
    m.insert("V".as_bytes().to_vec(), param(10));
    m.insert("KA".as_bytes().to_vec(), param(1));
    assert_eq!(m.len(), 3);
    assert_eq!(m.key_at(0), &"CL".as_bytes().to_vec());
    assert_eq!(m.key_at(1), &"V".as_bytes().to_vec());
    assert_eq!(m.key_at(2), &"KA".as_bytes().to_vec());
    // replacing keeps the position
    m.insert("V".as_bytes().to_vec(), param(20));
    assert_eq!(m.len(), 3);
    assert_eq!(m.key_at(1), &"V".as_bytes().to_vec());
    assert_eq!(m.get("V".as_bytes()).unwrap().theta, Decimal::from_int(20));
}
