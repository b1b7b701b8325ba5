use workflow_engine::engine::RunState;
use workflow_engine::json::{json_eq, JsonValue};
use workflow_engine::loader::{steps_from_raw, RawStep};
use workflow_engine::native::{classify_table, native_to_json, NativeKey, NativeValue};
use workflow_engine::outcome::{ExecutionStatus, StepStatus};
use workflow_engine::parallel::{ParallelRun, TaskOutcome};
use workflow_engine::render::render_json;
use workflow_engine::resolve::{group_by_dependency_level, sort_steps_by_dependencies};
use workflow_engine::runner::StepError;
use workflow_engine::script::{build_javascript_program, build_shell_script};
use workflow_engine::step::Step;
use workflow_engine::wasm::{default_entry_point, signature_probes, wasm_outcome, WasmSignature};

fn step(name: &str, deps: Vec<&str>) -> Step {
    Step {
        name: name.to_string(),
        language: "shell".to_string(),
        code: "".to_string(),
        depends_on: deps.into_iter().map(|d| d.to_string()).collect(),
        module_ref: None,
        function_name: None,
    }
}

fn obj(entries: Vec<(&str, JsonValue)>) -> JsonValue {
    JsonValue::Obj(entries.into_iter().map(|(k, v)| (k.to_string(), v)).collect())
}

#[test]
fn sequential_run_propagates_inputs_and_stops_on_failure() {
    // B depends on A; C depends on B. A's exact output reaches B; after B
    // fails, C never executes and its outcome stays absent.
    let order =
        sort_steps_by_dependencies(vec![step("A", vec![]), step("B", vec!["A"]), step(
            "C",
            vec!["B"],
        )])
        .unwrap();
    let mut run = RunState::start(order);

    let (a, a_inputs) = run.current_task().unwrap();
    assert_eq!(a.name, "A");
    assert!(a_inputs.is_empty());
    let a_out = obj(vec![(
        "data",
        JsonValue::Arr(vec![
            JsonValue::Num("1".to_string()),
            JsonValue::Num("2".to_string()),
            JsonValue::Num("3".to_string()),
        ]),
    )]);
    let rendered = render_json(&a_out);
    run.record_success(a_out, rendered, 5);

    let (b, b_inputs) = run.current_task().unwrap();
    assert_eq!(b.name, "B");
    assert_eq!(b_inputs.len(), 1);
    assert_eq!(b_inputs[0].0, "A");
    let expected = obj(vec![(
        "data",
        JsonValue::Arr(vec![
            JsonValue::Num("1".to_string()),
            JsonValue::Num("2".to_string()),
            JsonValue::Num("3".to_string()),
        ]),
    )]);
    assert!(json_eq(&b_inputs[0].1, &expected));

    run.record_failure("exit 1".to_string(), 7);
    assert!(run.current_task().is_none());
    let trace = run.into_execution("demo".to_string(), 12);
    assert_eq!(trace.status, ExecutionStatus::Failed);
    assert_eq!(trace.steps.len(), 2);
    assert_eq!(trace.steps[0].status, StepStatus::Success);
    assert_eq!(trace.steps[1].status, StepStatus::Failed);
    assert_eq!(trace.steps[1].output.as_deref(), Some("Error: exit 1"));
    assert_eq!(trace.error.as_deref(), Some("exit 1"));
}

#[test]
fn parallel_levels_isolate_siblings_and_gate_dependents() {
    // A and B share level zero; C depends on both and sits alone in level
    // one. C is only planned after the whole first level completed, and its
    // inputs hold exactly A's and B's outputs.
    let steps = vec![step("A", vec![]), step("B", vec![]), step("C", vec!["A", "B"])];
    let levels = group_by_dependency_level(&steps).unwrap();
    assert_eq!(levels.len(), 2);
    assert_eq!(levels[0].len(), 2);
    assert_eq!(levels[1].len(), 1);

    let mut run = ParallelRun::start(levels);
    let tasks = run.plan_level().unwrap();
    assert_eq!(tasks.len(), 2);
    assert!(tasks.iter().all(|t| t.inputs.is_empty()));
    run.complete_level(vec![
        TaskOutcome::Success {
            output: JsonValue::Num("1".to_string()),
            rendered: "1".to_string(),
            duration_ms: 1,
        },
        TaskOutcome::Success {
            output: JsonValue::Num("2".to_string()),
            rendered: "2".to_string(),
            duration_ms: 1,
        },
    ]);

    let tasks = run.plan_level().unwrap();
    assert_eq!(tasks.len(), 1);
    assert_eq!(tasks[0].step.name, "C");
    assert_eq!(tasks[0].inputs.len(), 2);
    assert!(json_eq(&tasks[0].inputs[0].1, &JsonValue::Num("1".to_string())));
    assert!(json_eq(&tasks[0].inputs[1].1, &JsonValue::Num("2".to_string())));
    run.complete_level(vec![TaskOutcome::Success {
        output: JsonValue::Null,
        rendered: "null".to_string(),
        duration_ms: 1,
    }]);
    assert_eq!(run.status, ExecutionStatus::Completed);
    assert!(run.plan_level().is_none());
}

#[test]
fn failed_level_stops_the_run_but_keeps_prior_results() {
    // The first level succeeds; the second fails (an unregistered language
    // would do this). No further level is planned, and the trace keeps the
    // first level's outcomes.
    let steps = vec![step("early", vec![]), step("late", vec!["early"])];
    let levels = group_by_dependency_level(&steps).unwrap();
    let mut run = ParallelRun::start(levels);
    let tasks = run.plan_level().unwrap();
    assert_eq!(tasks.len(), 1);
    run.complete_level(vec![TaskOutcome::Success {
        output: JsonValue::Bool(true),
        rendered: "true".to_string(),
        duration_ms: 1,
    }]);
    let _tasks = run.plan_level().unwrap();
    let unsupported = StepError::UnsupportedLanguage("cobol".to_string()).message();
    run.complete_level(vec![TaskOutcome::Failure { message: unsupported, duration_ms: 1 }]);
    assert_eq!(run.status, ExecutionStatus::Failed);
    assert!(run.plan_level().is_none());
    assert_eq!(run.outcomes.len(), 2);
    assert_eq!(run.outcomes[0].status, StepStatus::Success);
    assert_eq!(run.outcomes[1].status, StepStatus::Failed);
    assert_eq!(run.error.as_deref(), Some("Unsupported language: cobol"));
}

#[test]
fn loader_defaults_and_rejections() {
    let plain = |name: &str, language: Option<&str>, code: Option<&str>| RawStep {
        name: name.to_string(),
        language: language.map(|s| s.to_string()),
        code: code.map(|s| s.to_string()),
        depends_on: None,
        module_ref: None,
        func: None,
        function_name: None,
        has_legacy_run: false,
    };

    let steps = steps_from_raw(&vec![plain("a", None, Some("return 1"))]).unwrap();
    assert_eq!(steps[0].language, "lua");
    assert_eq!(steps[0].code, "return 1");
    assert!(steps[0].depends_on.is_empty());

    let steps = steps_from_raw(&vec![RawStep {
        module_ref: Some("m.wasm".to_string()),
        func: Some("go".to_string()),
        function_name: Some("ignored".to_string()),
        ..plain("w", Some("WebAssembly"), None)
    }])
    .unwrap();
    assert_eq!(steps[0].code, "");
    assert_eq!(steps[0].function_name.as_deref(), Some("go"));

    let err = steps_from_raw(&vec![plain("bare", None, None)]).unwrap_err();
    assert_eq!(err, "Lua step 'bare' is missing required 'code' field");

    let err = steps_from_raw(&vec![RawStep {
        has_legacy_run: true,
        ..plain("old", Some("lua"), None)
    }])
    .unwrap_err();
    assert!(err.starts_with("Legacy Lua workflow format detected in step 'old'"));

    let err = steps_from_raw(&vec![plain("s", Some("shell"), None)]).unwrap_err();
    assert_eq!(err, "Step 's' is missing required 'code' field");
}

#[test]
fn contiguous_integer_keys_classify_as_an_array() {
    let table = vec![
        (NativeKey::Int(1), NativeValue::Str("first".to_string())),
        (NativeKey::Int(2), NativeValue::Str("second".to_string())),
        (NativeKey::Int(3), NativeValue::Str("third".to_string())),
    ];
    let expected = JsonValue::Arr(vec![
        JsonValue::Str("first".to_string()),
        JsonValue::Str("second".to_string()),
        JsonValue::Str("third".to_string()),
    ]);
    assert!(json_eq(&classify_table(&table), &expected));
}

#[test]
fn gapped_or_named_keys_classify_as_an_object() {
    let gapped = vec![
        (NativeKey::Int(1), NativeValue::Bool(true)),
        (NativeKey::Int(3), NativeValue::Bool(false)),
    ];
    let expected = obj(vec![("1", JsonValue::Bool(true)), ("3", JsonValue::Bool(false))]);
    assert!(json_eq(&classify_table(&gapped), &expected));

    let named = vec![
        (NativeKey::Str("name".to_string()), NativeValue::Str("test".to_string())),
        (NativeKey::Int(42), NativeValue::Int(42)),
    ];
    let expected = obj(vec![
        ("name", JsonValue::Str("test".to_string())),
        ("42", JsonValue::Num("42".to_string())),
    ]);
    assert!(json_eq(&classify_table(&named), &expected));

    // The empty table has no one-based run of keys, so it is an object.
    assert!(json_eq(&classify_table(&vec![]), &obj(vec![])));
}

#[test]
fn scalars_convert_directly() {
    assert!(json_eq(&native_to_json(&NativeValue::Nil), &JsonValue::Null));
    assert!(json_eq(&native_to_json(&NativeValue::Bool(true)), &JsonValue::Bool(true)));
    assert!(json_eq(
        &native_to_json(&NativeValue::Int(-7)),
        &JsonValue::Num("-7".to_string())
    ));
    assert!(json_eq(
        &native_to_json(&NativeValue::Str("hello".to_string())),
        &JsonValue::Str("hello".to_string())
    ));
}

#[test]
fn wasm_return_codes_map_to_outcomes() {
    let ok = wasm_outcome("m.wasm", "run", 0, 2).unwrap();
    let rendered = render_json(&ok);
    assert_eq!(
        rendered,
        "{\"wasm_execution\":{\"module\":\"m.wasm\",\"function\":\"run\",\"return_code\":0,\
         \"status\":\"success\",\"input_count\":2}}"
    );
    let warn = wasm_outcome("m.wasm", "run", 5, 0).unwrap();
    assert!(render_json(&warn).contains("\"status\":\"warning\""));
    match wasm_outcome("m.wasm", "go", 11, 0) {
        Err(StepError::Execution(m)) => {
            assert_eq!(m, "WASM function 'go' failed with return code: 11");
        }
        other => panic!("code 11 must fail, got {:?}", other.err()),
    }
    assert_eq!(default_entry_point(), "run");
    assert_eq!(signature_probes(), vec![
        WasmSignature::NoArgToCode,
        WasmSignature::IntArgToCode,
        WasmSignature::NoArgNoReturn,
    ]);
}

#[test]
fn rendering_is_canonical_and_escaped() {
    let v = obj(vec![
        ("result", JsonValue::Str("suc\"cess\n".to_string())),
        ("value", JsonValue::Num("42".to_string())),
        ("items", JsonValue::Arr(vec![JsonValue::Null, JsonValue::Bool(false)])),
    ]);
    assert_eq!(
        render_json(&v),
        "{\"result\":\"suc\\\"cess\\n\",\"value\":42,\"items\":[null,false]}"
    );
}

#[test]
fn generated_scripts_embed_inputs() {
    let inputs = vec![("data".to_string(), obj(vec![("n", JsonValue::Num("42".to_string()))]))];
    assert_eq!(
        build_shell_script("echo \"$INPUT_DATA\"", &inputs),
        "set -e\nexport INPUT_DATA='{\"n\":42}'\necho \"$INPUT_DATA\"\n\
         if type run >/dev/null 2>&1; then run; fi\n"
    );
    let js = build_javascript_program("function run(inputs) { return inputs.data; }", &inputs);
    assert!(js.starts_with("const inputs = {};\ninputs[\"data\"] = {\"n\":42};\n"));
    assert!(js.contains("function run(inputs)"));
    assert!(js.ends_with(
        "const result = Object.keys(inputs).length ? run(inputs) : run();\n\
         console.log(JSON.stringify(result === undefined || result === null ? {} : result));\n"
    ));
}
