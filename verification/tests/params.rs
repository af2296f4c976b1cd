use echocard::params::{any_param_nonzero, ParameterStore};
use echocard::template_config::{TemplateConfig, TemplateIdentifier};
use echocard::EngineError;

fn bits(values: &[f32]) -> Vec<u32> {
    values.iter().map(|v| v.to_bits()).collect()
}

#[test]
fn store_returns_what_it_was_loaded_with() {
    let params = bits(&[0.25; 19]);
    let store = ParameterStore::new(params.clone(), 0.9f32.to_bits());
    assert_eq!(store.current_params(), params);
    assert_eq!(store.desired_retention_bits(), 0.9f32.to_bits());
}

#[test]
fn setting_retention_keeps_the_parameters() {
    let params = bits(&[0.25; 19]);
    let mut store = ParameterStore::new(params.clone(), 0.9f32.to_bits());
    store.set_desired_retention(0.85f32.to_bits());
    assert_eq!(store.desired_retention_bits(), 0.85f32.to_bits());
    assert_eq!(store.current_params(), params);
}

#[test]
fn a_longer_trained_vector_fills_the_whole_store() {
    // A 21-entry fit overwrites all 19 stored entries; its tail is
    // ignored.
    let mut store = ParameterStore::new(bits(&[0.0; 19]), 0.9f32.to_bits());
    let trained = bits(&[2.0; 21]);
    store.apply_trained(&trained);
    assert_eq!(store.current_params(), bits(&[2.0; 19]));
    assert_eq!(store.desired_retention_bits(), 0.9f32.to_bits());
}

#[test]
fn a_shorter_trained_vector_leaves_the_tail() {
    let mut store = ParameterStore::new(bits(&[1.0; 19]), 0.9f32.to_bits());
    store.apply_trained(&bits(&[3.0, 4.0]));
    let mut expected = bits(&[1.0; 19]);
    expected[0] = 3.0f32.to_bits();
    expected[1] = 4.0f32.to_bits();
    assert_eq!(store.current_params(), expected);
}

#[test]
fn an_empty_trained_vector_changes_nothing() {
    let params = bits(&[1.5; 19]);
    let mut store = ParameterStore::new(params.clone(), 0.9f32.to_bits());
    store.apply_trained(&Vec::new());
    assert_eq!(store.current_params(), params);
}

#[test]
fn registering_a_template_appends_it() {
    let mut config = TemplateConfig::new();
    config
        .add_template_info("basic".to_string(), "BasicCard".to_string(), "./basic".to_string())
        .unwrap();
    assert_eq!(config.templates.len(), 1);
    assert_eq!(config.templates[0].template_name, "basic");
    assert_eq!(config.templates[0].class_name, "BasicCard");
    assert_eq!(config.templates[0].import_path, "./basic");
}

#[test]
fn registering_a_duplicate_name_fails_and_changes_nothing() {
    let mut config = TemplateConfig::new();
    config
        .add_template_info("basic".to_string(), "BasicCard".to_string(), "./basic".to_string())
        .unwrap();
    let r = config.add_template_info(
        "basic".to_string(),
        "OtherCard".to_string(),
        "./other".to_string(),
    );
    assert_eq!(r.unwrap_err(), EngineError::DuplicateTemplateName);
    assert_eq!(config.templates.len(), 1);
    assert_eq!(config.templates[0].class_name, "BasicCard");
}

#[test]
fn template_keys_come_from_ids_and_names() {
    let by_id: TemplateIdentifier = 7u32.into();
    assert!(matches!(by_id, TemplateIdentifier::Id(7)));
    let by_name: TemplateIdentifier = "basic".into();
    assert!(matches!(by_name, TemplateIdentifier::Name("basic")));
}

#[test]
fn all_zero_parameters_count_as_unset() {
    assert!(!any_param_nonzero(&vec![0u32; 19]));
    // A negative zero is still zero.
    assert!(!any_param_nonzero(&vec![(-0.0f32).to_bits(); 19]));
    assert!(!any_param_nonzero(&Vec::new()));
}

#[test]
fn a_single_nonzero_parameter_counts_as_set() {
    let mut params = vec![0u32; 19];
    params[7] = 0.5f32.to_bits();
    assert!(any_param_nonzero(&params));
    // NaN compares unequal to zero, so it counts as set too.
    let mut params = vec![(-0.0f32).to_bits(); 19];
    params[0] = f32::NAN.to_bits();
    assert!(any_param_nonzero(&params));
}
