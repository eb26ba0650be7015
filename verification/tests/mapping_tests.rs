use plectrum::enums::State;
use plectrum::mapping::{enum_round_trip, enum_values_distinct};
use plectrum::{DataSource, Error, Mapping};

struct StateModel;

impl DataSource for StateModel {
    fn load(&self) -> Result<Vec<(i64, String)>, Error> {
        Ok(vec![
            (1, "stopped".to_string()),
            (2, "running".to_string()),
            (3, "stopping".to_string()),
        ])
    }
}

struct StateModelMissingValues;

impl DataSource for StateModelMissingValues {
    fn load(&self) -> Result<Vec<(i64, String)>, Error> {
        Ok(vec![(1, "stopped".to_string()), (2, "running".to_string())])
    }
}

struct StateModelExtraValues;

impl DataSource for StateModelExtraValues {
    fn load(&self) -> Result<Vec<(i64, String)>, Error> {
        Ok(vec![
            (1, "stopped".to_string()),
            (2, "running".to_string()),
            (2, "stopping".to_string()),
            (2, "waiting".to_string()),
        ])
    }
}

struct FailingModel;

impl DataSource for FailingModel {
    fn load(&self) -> Result<Vec<(i64, String)>, Error> {
        Err(Error::DataSource("connection refused".to_string()))
    }
}

#[test]
fn test_mapping_happy_path() {
    let model = StateModel {};
    let mapping = Mapping::load(&model).unwrap();
    assert_eq!(State::Stopped, mapping.by_id(1).unwrap());
    assert_eq!(State::Running, mapping.by_value("running").unwrap());
    assert_eq!(3, mapping.get_id(&State::Stopping).unwrap());
}

#[test]
fn test_mapping_errors_when_loading() {
    let model = StateModelMissingValues {};
    match Mapping::<State>::load(&model) {
        Err(Error::NotFoundInDb) => assert!(true),
        _ => assert!(false),
    }

    let model = StateModelExtraValues {};
    match Mapping::<State>::load(&model) {
        Err(Error::NotDefinedInCode) => assert!(true),
        _ => assert!(false),
    }
}

#[test]
fn test_data_source_failure_is_propagated() {
    let model = FailingModel {};
    match Mapping::<State>::load(&model) {
        Err(Error::DataSource(msg)) => assert_eq!(msg, "connection refused"),
        _ => assert!(false),
    }
}

#[test]
fn test_missing_keys_give_empty_results() {
    let model = StateModel {};
    let mapping = Mapping::<State>::load(&model).unwrap();
    assert!(mapping.by_id(99).is_none());
    assert!(mapping.by_value("paused").is_none());
}

#[test]
fn test_duplicate_ids_last_row_wins() {
    let rows = vec![
        (1, "stopped".to_string()),
        (2, "stopping".to_string()),
        (2, "running".to_string()),
        (3, "stopping".to_string()),
    ];
    let mapping = Mapping::<State>::from_rows(rows).unwrap();
    assert_eq!(State::Running, mapping.by_id(2).unwrap());
    assert_eq!(State::Stopping, mapping.by_id(3).unwrap());
}

#[test]
fn test_row_round_trip_laws() {
    let model = StateModel {};
    let mapping = Mapping::<State>::load(&model).unwrap();
    assert_eq!("running", mapping.stored_label_round_trip(2));
    assert_eq!(1, mapping.id_round_trip(1));
    assert_eq!(3, mapping.id_round_trip(3));
}

#[test]
fn test_enum_laws() {
    assert_eq!(State::Running, enum_round_trip(&State::Running));
    assert_eq!(State::Stopped, enum_round_trip(&State::Stopped));
    let labels = enum_values_distinct::<State>();
    assert_eq!(labels.len(), 3);
    assert!(labels.contains(&"stopping".to_string()));
}
