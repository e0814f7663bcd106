use monjolo::simulation::load_config;
use monjolo::snapshot::Snapshot;

const CONTENT: &str = "\
[meta]
description = \"ignorado, não é numérico\"

[state.reactor_vapor]
A = 10.5
B = 2

[state.reactor]
energy = 3.25
";

#[test]
fn flattens_nested_tables_into_dotted_keys() {
    let values = Snapshot::from_file("initial.toml", Ok(CONTENT.to_string())).unwrap();

    assert_eq!(values.get("state.reactor_vapor.A"), Some(10.5f64.to_bits()));
    assert_eq!(values.get("state.reactor_vapor.B"), Some(2.0f64.to_bits()));
    assert_eq!(values.get("state.reactor.energy"), Some(3.25f64.to_bits()));
    assert_eq!(values.get("meta.description"), None);
}

#[test]
fn from_pairs_builds_a_queryable_snapshot() {
    let snapshot = Snapshot::from_pairs(&[("a", 1.0f64.to_bits()), ("b", 2.0f64.to_bits())]);
    assert_eq!(snapshot.get("a"), Some(1.0f64.to_bits()));
    assert_eq!(snapshot.get("missing"), None);
    assert_eq!(snapshot.get_or_zero("b"), 2.0f64.to_bits());
    assert_eq!(snapshot.get_or_zero("missing"), 0.0f64.to_bits());
}

#[test]
fn values_that_are_no_numbers_are_left_out() {
    let content = "flag = true\nlist = [1, 2]\nwhen = 1979-05-27\ntext = \"x\"\nn = -3\n";
    let values = Snapshot::from_file("initial.toml", Ok(content.to_string())).unwrap();
    assert_eq!(values.get("n"), Some((-3.0f64).to_bits()));
    for key in ["flag", "list", "when", "text"] {
        assert_eq!(values.get(key), None, "{key}");
    }
}

#[test]
fn a_file_that_cannot_be_read_is_an_error() {
    let outcome = Snapshot::from_file("gone.toml", Err("No such file".to_string()));
    assert_eq!(outcome.err(), Some("Erro lendo arquivo 'gone.toml': No such file".to_string()));
}

#[test]
fn a_file_that_is_no_document_is_an_error() {
    let outcome = Snapshot::from_file("broken.toml", Ok("a = = 1".to_string()));
    let message = outcome.err().expect("the document is broken");
    assert!(message.starts_with("Erro parseando TOML 'broken.toml': "), "{message}");
    let reason = toml::from_str::<toml::Value>("a = = 1").unwrap_err().to_string();
    assert_eq!(message, format!("Erro parseando TOML 'broken.toml': {reason}"));
}

#[test]
fn a_simulation_without_a_path_has_no_initial_values() {
    let config = load_config(&None, Err("not looked at".to_string())).unwrap();
    assert_eq!(config.get("state.reactor.energy"), None);
}

#[test]
fn a_configuration_that_cannot_be_loaded_names_its_path() {
    let path = Some("gone.toml".to_string());
    let outcome = load_config(&path, Err("No such file".to_string()));
    assert_eq!(
        outcome.err(),
        Some(
            "plant thread: falha ao carregar config de 'gone.toml': \
            Erro lendo arquivo 'gone.toml': No such file"
                .to_string()
        )
    );
    let loaded = load_config(&path, Ok(CONTENT.to_string())).unwrap();
    assert_eq!(loaded.get("state.reactor.energy"), Some(3.25f64.to_bits()));
}
