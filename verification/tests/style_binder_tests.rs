use plectrum::binder::{DefinitionError, LabelBinding, VariantDef};
use plectrum::style::{convert_deterministic, CaseStyle};

fn variant(name: &str) -> VariantDef {
    VariantDef { name: name.to_string(), has_payload: false }
}

#[test]
fn test_from_name_recognises_all_twelve_tokens() {
    assert_eq!(CaseStyle::from_name("UPPER CASE"), Some(CaseStyle::Upper));
    assert_eq!(CaseStyle::from_name("lower case"), Some(CaseStyle::Lower));
    assert_eq!(CaseStyle::from_name("Title Case"), Some(CaseStyle::Title));
    assert_eq!(CaseStyle::from_name("camelCase"), Some(CaseStyle::Camel));
    assert_eq!(CaseStyle::from_name("UpperCamelCase"), Some(CaseStyle::UpperCamel));
    assert_eq!(CaseStyle::from_name("snake_case"), Some(CaseStyle::Snake));
    assert_eq!(CaseStyle::from_name("UPPER_SNAKE_CASE"), Some(CaseStyle::UpperSnake));
    assert_eq!(CaseStyle::from_name("kebab-case"), Some(CaseStyle::Kebab));
    assert_eq!(CaseStyle::from_name("UPPER-KEBAB-CASE"), Some(CaseStyle::UpperKebab));
    assert_eq!(CaseStyle::from_name("Train-Case"), Some(CaseStyle::Train));
    assert_eq!(CaseStyle::from_name("flatcase"), Some(CaseStyle::Flat));
    assert_eq!(CaseStyle::from_name("UPPERFLATCASE"), Some(CaseStyle::UpperFlat));
}

#[test]
fn test_from_name_rejects_unrecognised_tokens() {
    assert_eq!(CaseStyle::from_name("Snake_Case"), None);
    assert_eq!(CaseStyle::from_name("snake case"), None);
    assert_eq!(CaseStyle::from_name(""), None);
    assert_eq!(CaseStyle::from_name("pascalCase"), None);
}

#[test]
fn test_convert_renders_each_style() {
    assert_eq!(CaseStyle::Upper.convert("DarkBlue"), "DARK BLUE");
    assert_eq!(CaseStyle::Lower.convert("DarkBlue"), "dark blue");
    assert_eq!(CaseStyle::Title.convert("DarkBlue"), "Dark Blue");
    assert_eq!(CaseStyle::Camel.convert("DarkBlue"), "darkBlue");
    assert_eq!(CaseStyle::UpperCamel.convert("dark_blue"), "DarkBlue");
    assert_eq!(CaseStyle::Snake.convert("DarkBlue"), "dark_blue");
    assert_eq!(CaseStyle::UpperSnake.convert("DarkBlue"), "DARK_BLUE");
    assert_eq!(CaseStyle::Kebab.convert("DarkBlue"), "dark-blue");
    assert_eq!(CaseStyle::UpperKebab.convert("DarkBlue"), "DARK-BLUE");
    assert_eq!(CaseStyle::Train.convert("DarkBlue"), "Dark-Blue");
    assert_eq!(CaseStyle::Flat.convert("DarkBlue"), "darkblue");
    assert_eq!(CaseStyle::UpperFlat.convert("DarkBlue"), "DARKBLUE");
}

#[test]
fn test_convert_idempotent_on_its_own_output() {
    for style in [CaseStyle::Snake, CaseStyle::Camel, CaseStyle::Kebab, CaseStyle::Flat] {
        for input in ["DarkBlue", "already_snake", "miXed-Things", "simple"] {
            let once = style.convert(input);
            let twice = style.convert(&once);
            assert_eq!(once, twice);
        }
    }
}

#[test]
fn test_convert_deterministic_law() {
    let (a, b) = convert_deterministic(&CaseStyle::Snake, "DarkBlue");
    assert_eq!(a, b);
    assert_eq!(a, "dark_blue");
}

#[test]
fn test_bind_verbatim_keeps_identifier_text() {
    let binding = LabelBinding::bind(&vec![variant("Red"), variant("DarkBlue")], None).unwrap();
    assert_eq!(binding.num_variants(), 2);
    assert_eq!(binding.values(), vec!["Red".to_string(), "DarkBlue".to_string()]);
    assert_eq!(binding.value(1), "DarkBlue");
    assert_eq!(binding.from_value("Red"), 0);
}

#[test]
fn test_bind_rejects_payload_variant() {
    let defs = vec![
        variant("Ok"),
        VariantDef { name: "Failed".to_string(), has_payload: true },
    ];
    assert!(matches!(
        LabelBinding::bind(&defs, None),
        Err(DefinitionError::PayloadVariant)
    ));
}

#[test]
fn test_bind_rejects_label_collision() {
    let defs = vec![variant("DarkBlue"), variant("dark_blue")];
    assert!(matches!(
        LabelBinding::bind(&defs, Some(CaseStyle::Snake)),
        Err(DefinitionError::LabelCollision)
    ));
}

#[test]
fn test_bind_renamed_parses_style_token() {
    let defs = vec![variant("DarkBlue"), variant("Red")];
    let binding = LabelBinding::bind_renamed(&defs, Some("kebab-case")).unwrap();
    assert_eq!(binding.values(), vec!["dark-blue".to_string(), "red".to_string()]);
    let verbatim = LabelBinding::bind_renamed(&defs, None).unwrap();
    assert_eq!(verbatim.values(), vec!["DarkBlue".to_string(), "Red".to_string()]);
}

#[test]
fn test_bind_renamed_rejects_unknown_token() {
    let defs = vec![variant("Red")];
    assert!(matches!(
        LabelBinding::bind_renamed(&defs, Some("bogus-case")),
        Err(DefinitionError::UnknownStyle)
    ));
}

#[test]
fn test_binding_round_trip_law() {
    let defs = vec![variant("Red"), variant("Green"), variant("DarkBlue")];
    let binding = LabelBinding::bind(&defs, Some(CaseStyle::Snake)).unwrap();
    for v in 0..binding.num_variants() {
        assert_eq!(binding.round_trip(v), v);
        let label = binding.value(v);
        assert_eq!(binding.try_from_value(&label), Some(v));
    }
}
