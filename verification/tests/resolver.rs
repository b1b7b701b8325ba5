use workflow_engine::resolve::{sort_steps_by_dependencies, ResolveError};
use workflow_engine::step::Step;

fn step(name: &str, deps: Vec<&str>) -> Step {
    Step {
        name: name.to_string(),
        language: "lua".to_string(),
        code: "".to_string(),
        depends_on: deps.into_iter().map(|d| d.to_string()).collect(),
        module_ref: None,
        function_name: None,
    }
}

#[test]
fn test_sort_steps_no_dependencies() {
    let steps = vec![step("step1", vec![]), step("step2", vec![])];
    let result = sort_steps_by_dependencies(steps);
    assert!(result.is_ok());
    let sorted = result.unwrap();
    assert_eq!(sorted.len(), 2);
}

#[test]
fn test_sort_steps_with_dependencies() {
    let steps = vec![step("step2", vec!["step1"]), step("step1", vec![])];
    let result = sort_steps_by_dependencies(steps);
    assert!(result.is_ok());
    let sorted = result.unwrap();
    assert_eq!(sorted.len(), 2);
    assert_eq!(sorted[0].name, "step1");
    assert_eq!(sorted[1].name, "step2");
}

#[test]
fn test_sort_steps_circular_dependency() {
    let steps = vec![step("step1", vec!["step2"]), step("step2", vec!["step1"])];
    let result = sort_steps_by_dependencies(steps);
    assert!(result.is_err());
}

#[test]
fn test_sort_steps_complex_dependencies() {
    let steps = vec![
        step("step3", vec!["step1", "step2"]),
        step("step1", vec![]),
        step("step2", vec!["step1"]),
    ];
    let result = sort_steps_by_dependencies(steps);
    assert!(result.is_ok());
    let sorted = result.unwrap();
    assert_eq!(sorted.len(), 3);
    assert_eq!(sorted[0].name, "step1");
    assert_eq!(sorted[1].name, "step2");
    assert_eq!(sorted[2].name, "step3");
}

#[test]
fn cycle_error_names_a_step_on_the_cycle() {
    let steps = vec![
        step("entry", vec![]),
        step("a", vec!["b", "entry"]),
        step("b", vec!["a"]),
    ];
    let result = sort_steps_by_dependencies(steps);
    match result {
        Err(e) => {
            let msg = e.message();
            assert!(msg.contains("Circular dependency"));
            assert!(msg.contains("'a'") || msg.contains("'b'"));
        }
        Ok(_) => panic!("a cyclic step set must be rejected"),
    }
}

#[test]
fn unknown_dependency_is_reported() {
    let steps = vec![step("only", vec!["missing"])];
    match sort_steps_by_dependencies(steps) {
        Err(ResolveError::UnknownDependency(n)) => assert_eq!(n, "missing"),
        _ => panic!("an unknown dependency must be rejected"),
    }
}

use workflow_engine::resolve::group_by_dependency_level;

#[test]
fn test_group_by_level_no_dependencies() {
    let steps = vec![step("step1", vec![]), step("step2", vec![])];
    let result = group_by_dependency_level(&steps);
    assert!(result.is_ok());
    let levels = result.unwrap();
    assert_eq!(levels.len(), 1);
    assert_eq!(levels[0].len(), 2);
}

#[test]
fn test_group_by_level_with_dependencies() {
    let steps = vec![step("step1", vec![]), step("step2", vec!["step1"])];
    let result = group_by_dependency_level(&steps);
    assert!(result.is_ok());
    let levels = result.unwrap();
    assert_eq!(levels.len(), 2);
    assert_eq!(levels[0].len(), 1);
    assert_eq!(levels[1].len(), 1);
}

#[test]
fn test_group_by_level_complex() {
    let steps = vec![
        step("step1", vec![]),
        step("step2", vec![]),
        step("step3", vec!["step1", "step2"]),
    ];
    let result = group_by_dependency_level(&steps);
    assert!(result.is_ok());
    let levels = result.unwrap();
    assert_eq!(levels.len(), 2);
    assert_eq!(levels[0].len(), 2);
    assert_eq!(levels[1].len(), 1);
}

#[test]
fn test_group_by_level_circular_dependency() {
    let steps = vec![step("step1", vec!["step2"]), step("step2", vec!["step1"])];
    let result = group_by_dependency_level(&steps);
    assert!(result.is_err());
    assert!(result.unwrap_err().message().contains("Circular dependency"));
}

#[test]
fn resolvers_agree_on_feasibility() {
    let cyclic = || vec![step("a", vec!["b"]), step("b", vec!["a"])];
    assert!(sort_steps_by_dependencies(cyclic()).is_err());
    assert!(group_by_dependency_level(&cyclic()).is_err());
    let acyclic = || vec![step("a", vec![]), step("b", vec!["a"]), step("c", vec!["a", "b"])];
    assert!(sort_steps_by_dependencies(acyclic()).is_ok());
    let levels = group_by_dependency_level(&acyclic()).unwrap();
    assert_eq!(levels.len(), 3);
    let flat: Vec<String> = levels.iter().flatten().map(|s| s.name.clone()).collect();
    assert_eq!(flat, vec!["a", "b", "c"]);
}
