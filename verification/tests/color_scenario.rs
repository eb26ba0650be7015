use plectrum::binder::{LabelBinding, VariantDef};
use plectrum::enums::Color;
use plectrum::style::CaseStyle;
use plectrum::{DataSource, Enum, Error, Mapping};

fn color_variants() -> Vec<VariantDef> {
    vec![
        VariantDef { name: "Red".to_string(), has_payload: false },
        VariantDef { name: "Green".to_string(), has_payload: false },
        VariantDef { name: "Yellow".to_string(), has_payload: false },
        VariantDef { name: "DarkBlue".to_string(), has_payload: false },
    ]
}

struct MatchingTable;

impl DataSource for MatchingTable {
    fn load(&self) -> Result<Vec<(i64, String)>, Error> {
        Ok(vec![
            (1, "red".to_string()),
            (2, "green".to_string()),
            (3, "yellow".to_string()),
            (4, "dark_blue".to_string()),
        ])
    }
}

struct MissingDarkBlue;

impl DataSource for MissingDarkBlue {
    fn load(&self) -> Result<Vec<(i64, String)>, Error> {
        Ok(vec![
            (1, "red".to_string()),
            (2, "green".to_string()),
            (3, "yellow".to_string()),
        ])
    }
}

struct ExtraWaiting;

impl DataSource for ExtraWaiting {
    fn load(&self) -> Result<Vec<(i64, String)>, Error> {
        Ok(vec![
            (1, "red".to_string()),
            (2, "green".to_string()),
            (3, "yellow".to_string()),
            (4, "dark_blue".to_string()),
            (5, "waiting".to_string()),
        ])
    }
}

#[test]
fn test_color_snake_case_binding_matches_enum() {
    let binding = LabelBinding::bind(&color_variants(), Some(CaseStyle::Snake)).unwrap();
    assert_eq!(binding.values(), Color::values());
    assert_eq!(binding.value(3), "dark_blue");
    assert_eq!(binding.from_value("yellow"), 2);
    assert_eq!(binding.try_from_value("waiting"), None);
}

#[test]
fn test_color_matching_table_loads() {
    let mapping = Mapping::<Color>::load(&MatchingTable {}).unwrap();
    assert_eq!(Color::DarkBlue, mapping.by_id(4).unwrap());
    assert_eq!(Color::Yellow, mapping.by_value("yellow").unwrap());
    assert_eq!(4, mapping.get_id(&Color::DarkBlue).unwrap());
}

#[test]
fn test_color_missing_label_fails() {
    match Mapping::<Color>::load(&MissingDarkBlue {}) {
        Err(Error::NotFoundInDb) => assert!(true),
        _ => assert!(false),
    }
}

#[test]
fn test_color_extra_label_fails() {
    match Mapping::<Color>::load(&ExtraWaiting {}) {
        Err(Error::NotDefinedInCode) => assert!(true),
        _ => assert!(false),
    }
}
