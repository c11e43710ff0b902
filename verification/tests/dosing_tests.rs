use poppk::config::AdditionalDosingParams;
use poppk::config::DosingConfig;
use poppk::config::DosingRoute;
use poppk::decimal::Decimal;
use poppk::dosing::DosingRegimen;
use poppk::models::DoseRoute;

#[test]
fn test_dosing_regimen_creation() {
    let config = DosingConfig {
        route: DosingRoute::Oral,
        amount: Decimal::from_int(100),
        times: vec![Decimal::from_int(0), Decimal::from_int(12), Decimal::from_int(24)],
        additional: None,
    };

    let regimen = DosingRegimen::from_config(&config).unwrap();
    assert_eq!(regimen.events.len(), 3);
    assert_eq!(regimen.events[0].time, Decimal::from_int(0));
    assert_eq!(regimen.events[1].time, Decimal::from_int(12));
    assert_eq!(regimen.events[2].time, Decimal::from_int(24));
}

#[test]
fn test_infusion_regimen() {
    let config = DosingConfig {
        route: DosingRoute::IvInfusion,
        amount: Decimal::from_int(1000),
        times: vec![Decimal::from_int(0)],
        additional: Some(AdditionalDosingParams {
            duration: Some(Decimal::from_int(2)),
            lag_time: None,
            bioavailability: None,
        }),
    };

    let regimen = DosingRegimen::from_config(&config).unwrap();
    assert_eq!(regimen.events.len(), 1);
    assert_eq!(regimen.events[0].duration, Some(Decimal::from_int(2)));
}

#[test]
fn test_regimen_sorts_unordered_times() {
    let config = DosingConfig {
        route: DosingRoute::IvBolus,
        amount: Decimal::from_int(50),
        times: vec![Decimal::from_int(24), Decimal::from_int(0), Decimal::from_int(12)],
        additional: None,
    };

    let regimen = DosingRegimen::from_config(&config).unwrap();
    assert_eq!(regimen.events.len(), 3);
    assert_eq!(regimen.events[0].time, Decimal::from_int(0));
    assert_eq!(regimen.events[1].time, Decimal::from_int(12));
    assert_eq!(regimen.events[2].time, Decimal::from_int(24));
    for e in &regimen.events {
        assert_eq!(e.amount, Decimal::from_int(50));
        assert_eq!(e.route, DoseRoute::IvBolus);
        assert_eq!(e.duration, None);
    }
}

#[test]
fn test_events_before_causal_filter() {
    let config = DosingConfig {
        route: DosingRoute::IvBolus,
        amount: Decimal::from_int(100),
        times: vec![Decimal::from_int(0), Decimal::from_int(12), Decimal::from_int(24)],
        additional: None,
    };
    let regimen = DosingRegimen::from_config(&config).unwrap();

    let before = regimen.get_events_before(Decimal::from_int(12));
    assert_eq!(before.len(), 2);
    assert_eq!(before[0].time, Decimal::from_int(0));
    assert_eq!(before[1].time, Decimal::from_int(12));

    let none_yet = regimen.get_events_before(Decimal::from_nanos(-1));
    assert_eq!(none_yet.len(), 0);

    let all = regimen.get_events_before(Decimal::from_int(100));
    assert_eq!(all.len(), 3);
}
