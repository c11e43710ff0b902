use poppk::config::ModelConfig;
use poppk::config::ParameterConfig;
use poppk::config::ParameterMap;
use poppk::decimal::Decimal;
use poppk::error::PKError;
use poppk::models::create_model;
use poppk::models::ModelParameters;
use poppk::models::OneCompartmentModel;
use poppk::models::StructuralModel;
use poppk::models::ThreeCompartmentModel;
use poppk::models::TwoCompartmentModel;

fn param(theta: i64) -> ParameterConfig {
    ParameterConfig { theta: Decimal::from_int(theta), omega: None, bounds: None }
}

#[test]
fn test_model_parameters_from_config() {
    let mut parameters = ParameterMap::new();
    parameters.insert("CL".as_bytes().to_vec(), param(2));
    parameters.insert("V".as_bytes().to_vec(), param(10));
    let mc = ModelConfig { compartments: 1, parameters };
    let p = ModelParameters::from_config(&mc).unwrap();
    assert_eq!(p.cl, Decimal::from_int(2));
    assert_eq!(p.v1, Decimal::from_int(10));
    assert_eq!(p.ka, None);
}

#[test]
fn test_model_parameters_from_config_rejects_unknown() {
    let mut parameters = ParameterMap::new();
    parameters.insert("CL".as_bytes().to_vec(), param(2));
    parameters.insert("XX".as_bytes().to_vec(), param(1));
    let mc = ModelConfig { compartments: 1, parameters };
    match ModelParameters::from_config(&mc) {
        Err(PKError::InvalidModel(f)) => assert_eq!(f, "XX".as_bytes().to_vec()),
        other => panic!("expected InvalidModel, got {:?}", other),
    }
}

#[test]
fn test_set_parameters_one_compartment() {
    let mut model = OneCompartmentModel::new();
    let values = vec![
        ("CL".as_bytes().to_vec(), Decimal::from_int(2)),
        ("V".as_bytes().to_vec(), Decimal::from_int(10)),
        ("KA".as_bytes().to_vec(), Decimal::from_int(1)),
    ];
    model.set_parameters(&values).unwrap();
    assert_eq!(model.params.cl, Decimal::from_int(2));
    assert_eq!(model.params.v1, Decimal::from_int(10));
    assert_eq!(model.params.ka, Some(Decimal::from_int(1)));
}

#[test]
fn test_set_parameters_rejects_nonpositive() {
    let mut model = TwoCompartmentModel::new();
    let values = vec![("CL".as_bytes().to_vec(), Decimal::from_int(0))];
    match model.set_parameters(&values) {
        Err(PKError::Validation(f)) => assert_eq!(f, "CL".as_bytes().to_vec()),
        other => panic!("expected Validation, got {:?}", other),
    }
    // the model keeps its defaults after a failure
    assert_eq!(model.params.cl, Decimal::from_int(1));
}

#[test]
fn test_set_parameters_rejects_unknown_name() {
    let mut model = ThreeCompartmentModel::new();
    let values = vec![("Q".as_bytes().to_vec(), Decimal::from_int(1))];
    match model.set_parameters(&values) {
        Err(PKError::InvalidModel(f)) => assert_eq!(f, "Q".as_bytes().to_vec()),
        other => panic!("expected InvalidModel, got {:?}", other),
    }
}

#[test]
fn test_create_model_dispatch() {
    match create_model(1).unwrap() {
        StructuralModel::One(m) => {
            assert_eq!(m.get_parameter_names(), vec!["CL".as_bytes().to_vec(), "V".as_bytes().to_vec()]);
        },
        other => panic!("expected a one-compartment model, got {:?}", other),
    }
    match create_model(3).unwrap() {
        StructuralModel::Three(m) => {
            assert_eq!(m.params.q3, Some(Decimal::from_nanos(200_000_000)));
        },
        other => panic!("expected a three-compartment model, got {:?}", other),
    }
    match create_model(9) {
        Err(PKError::InvalidModel(f)) => assert_eq!(f, "compartments".as_bytes().to_vec()),
        other => panic!("expected InvalidModel, got {:?}", other),
    }
}
