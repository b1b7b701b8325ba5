use workflow_engine::json::{json_eq, JsonValue};
use workflow_engine::runner::{parse_language, Language, RunnerRegistry, StepError};
use workflow_engine::config::AppConfig;
use workflow_engine::step::Step;
use workflow_engine::store::ResultStore;

fn step(name: &str, language: &str, deps: Vec<&str>) -> Step {
    Step {
        name: name.to_string(),
        language: language.to_string(),
        code: "".to_string(),
        depends_on: deps.into_iter().map(|d| d.to_string()).collect(),
        module_ref: None,
        function_name: None,
    }
}

#[test]
fn language_aliases_collapse_case_insensitively() {
    assert_eq!(parse_language("lua"), Some(Language::Lua));
    assert_eq!(parse_language("Python"), Some(Language::Python));
    for t in ["bash", "shell", "sh"] {
        assert_eq!(parse_language(t), Some(Language::Shell));
    }
    for t in ["javascript", "JS", "node", "nodejs"] {
        assert_eq!(parse_language(t), Some(Language::JavaScript));
    }
    assert_eq!(parse_language("wasm"), Some(Language::Wasm));
    assert_eq!(parse_language("WebAssembly"), Some(Language::Wasm));
    assert_eq!(parse_language("cobol"), None);
}

#[test]
fn unsupported_language_names_the_tag() {
    let reg = RunnerRegistry::from_config(&AppConfig::default());
    let s = step("odd", "cobol", vec![]);
    match reg.dispatch(&s) {
        Err(StepError::UnsupportedLanguage(t)) => {
            assert_eq!(t, "cobol");
        }
        other => panic!("expected an unsupported-language failure, got {:?}", other.err()),
    }
    let msg = StepError::UnsupportedLanguage("cobol".to_string()).message();
    assert_eq!(msg, "Unsupported language: cobol");
}

#[test]
fn disabled_runner_is_unregistered() {
    let mut config = AppConfig::default();
    config.runners.wasm.enabled = false;
    let reg = RunnerRegistry::from_config(&config);
    assert!(reg.dispatch(&step("w", "wasm", vec![])).is_err());
    assert!(reg.dispatch(&step("l", "lua", vec![])).is_ok());
}

#[test]
fn inputs_carry_exactly_the_dependencies() {
    let mut store = ResultStore::new();
    store.publish(
        "A".to_string(),
        JsonValue::Obj(vec![(
            "data".to_string(),
            JsonValue::Arr(vec![
                JsonValue::Num("1".to_string()),
                JsonValue::Num("2".to_string()),
                JsonValue::Num("3".to_string()),
            ]),
        )]),
    );
    store.publish("unrelated".to_string(), JsonValue::Bool(true));
    let deps = vec!["A".to_string()];
    let inputs = store.gather_inputs(&deps);
    assert_eq!(inputs.len(), 1);
    assert_eq!(inputs[0].0, "A");
    let expected = JsonValue::Obj(vec![(
        "data".to_string(),
        JsonValue::Arr(vec![
            JsonValue::Num("1".to_string()),
            JsonValue::Num("2".to_string()),
            JsonValue::Num("3".to_string()),
        ]),
    )]);
    assert!(json_eq(&inputs[0].1, &expected));
}

#[test]
fn absent_dependencies_yield_no_entry() {
    let store = ResultStore::new();
    let deps = vec!["missing".to_string()];
    let inputs = store.gather_inputs(&deps);
    assert!(inputs.is_empty());
}
