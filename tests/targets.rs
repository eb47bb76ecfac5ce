use ruxgo::error::ConfigError;
use ruxgo::target::TargetConfig;

fn target(name: &str, deps: &[&str]) -> TargetConfig {
    TargetConfig {
        name: name.to_string(),
        src: "./src".to_string(),
        src_excluded: Vec::new(),
        include_dir: "./".to_string(),
        typ: "static".to_string(),
        cflags: String::new(),
        archive: String::new(),
        ldflags: String::new(),
        deps: deps.iter().map(|d| d.to_string()).collect(),
    }
}

fn names(ts: &[TargetConfig]) -> Vec<String> {
    ts.iter().map(|t| t.name.clone()).collect()
}

#[test]
fn arrange_chain_in_any_order() {
    let orders: Vec<Vec<usize>> = vec![vec![0, 1, 2], vec![2, 1, 0], vec![1, 2, 0], vec![2, 0, 1]];
    for order in orders {
        let all = [target("A", &[]), target("B", &["A"]), target("C", &["B"])];
        let input: Vec<TargetConfig> = order.iter().map(|&i| all[i].clone()).collect();
        let out = TargetConfig::arrange_targets(input).unwrap();
        assert_eq!(names(&out), vec!["A", "B", "C"]);
    }
}

#[test]
fn arrange_puts_dependencies_first() {
    let input = vec![
        target("app", &["net", "core"]),
        target("net", &["core"]),
        target("util", &[]),
        target("core", &[]),
    ];
    let out = TargetConfig::arrange_targets(input).unwrap();
    let pos = |n: &str| out.iter().position(|t| t.name == n).unwrap();
    assert_eq!(out.len(), 4);
    assert!(pos("core") < pos("net"));
    assert!(pos("net") < pos("app"));
    assert!(pos("core") < pos("app"));
}

#[test]
fn arrange_two_cycle_is_an_error() {
    let input = vec![target("A", &["B"]), target("B", &["A"])];
    match TargetConfig::arrange_targets(input) {
        Err(ConfigError::CircularDependency { first, second }) => {
            let mut pair = vec![first, second];
            pair.sort();
            assert_eq!(pair, vec!["A", "B"]);
        }
        other => panic!("unexpected: {:?}", other),
    }
}

#[test]
fn arrange_three_cycle_is_an_error() {
    let input = vec![target("A", &["B"]), target("B", &["C"]), target("C", &["A"])];
    assert!(matches!(
        TargetConfig::arrange_targets(input),
        Err(ConfigError::CircularDependency { .. })
    ));
}

#[test]
fn arrange_self_dependency_is_an_error() {
    let input = vec![target("A", &["A"])];
    assert!(matches!(
        TargetConfig::arrange_targets(input),
        Err(ConfigError::CircularDependency { .. })
    ));
}

#[test]
fn arrange_ignores_unknown_dependencies() {
    let input = vec![target("A", &["pthread"]), target("B", &["A", "m"])];
    let out = TargetConfig::arrange_targets(input).unwrap();
    assert_eq!(names(&out), vec!["A", "B"]);
}

#[test]
fn arrange_empty_list() {
    let out = TargetConfig::arrange_targets(Vec::new()).unwrap();
    assert!(out.is_empty());
}

#[test]
fn cycle_error_names_targets_on_the_cycle() {
    let input = vec![target("D", &["A"]), target("A", &["B"]), target("B", &["A"])];
    match TargetConfig::arrange_targets(input) {
        Err(ConfigError::CircularDependency { first, second }) => {
            let mut pair = vec![first, second];
            pair.sort();
            assert_eq!(pair, vec!["A", "B"]);
        }
        other => panic!("unexpected: {:?}", other),
    }
}
