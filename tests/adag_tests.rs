use bet_architecture::adag::{OctoTree, Task};

fn task(id: &str, name: &str, duration: u32, deps: &[&str]) -> Task {
    Task {
        id: id.to_string(),
        name: name.to_string(),
        duration,
        dependencies: deps.iter().map(|d| d.to_string()).collect(),
    }
}

fn position(order: &[String], id: &str) -> usize {
    order.iter().position(|x| x == id).unwrap()
}

#[test]
fn test_topological_sort() {
    let mut tree = OctoTree::new();
    tree.add_task(Task {
        id: "A".to_string(),
        name: "Task A".to_string(),
        duration: 5,
        dependencies: vec![],
    });
    tree.add_task(Task {
        id: "B".to_string(),
        name: "Task B".to_string(),
        duration: 3,
        dependencies: vec!["A".to_string()],
    });

    let result = tree.topological_sort().unwrap();
    assert_eq!(result, vec!["A", "B"]);
}

#[test]
fn test_adag_critical_path() {
    let mut dag = OctoTree::new();

    dag.add_task(Task {
        id: "A".to_string(),
        name: "Task A".to_string(),
        duration: 5,
        dependencies: vec![],
    });

    dag.add_task(Task {
        id: "B".to_string(),
        name: "Task B".to_string(),
        duration: 10,
        dependencies: vec!["A".to_string()],
    });

    dag.add_task(Task {
        id: "C".to_string(),
        name: "Task C".to_string(),
        duration: 3,
        dependencies: vec!["A".to_string()],
    });

    let sorted = dag.topological_sort().expect("Should sort successfully");
    assert_eq!(sorted[0], "A");
    assert!(sorted.contains(&"B".to_string()));
    assert!(sorted.contains(&"C".to_string()));

    let (_critical_tasks, _max_time) = dag.critical_path().expect("Should find critical path");
}

#[test]
fn test_adag_cycle_detection() {
    let mut dag = OctoTree::new();

    dag.add_task(Task {
        id: "A".to_string(),
        name: "Task A".to_string(),
        duration: 5,
        dependencies: vec!["B".to_string()],
    });

    dag.add_task(Task {
        id: "B".to_string(),
        name: "Task B".to_string(),
        duration: 3,
        dependencies: vec!["A".to_string()],
    });

    let result = dag.topological_sort();
    assert!(result.is_err());
    assert!(result.unwrap_err().contains("Cycle"));
}

#[test]
fn sort_of_diamond_respects_every_dependency() {
    let mut dag = OctoTree::new();
    dag.add_task(task("D", "join", 1, &["B", "C"]));
    dag.add_task(task("B", "left", 2, &["A"]));
    dag.add_task(task("C", "right", 3, &["A"]));
    dag.add_task(task("A", "root", 4, &[]));
    let order = dag.topological_sort().unwrap();
    assert_eq!(order.len(), 4);
    let mut sorted = order.clone();
    sorted.sort();
    assert_eq!(sorted, vec!["A", "B", "C", "D"]);
    assert!(position(&order, "A") < position(&order, "B"));
    assert!(position(&order, "A") < position(&order, "C"));
    assert!(position(&order, "B") < position(&order, "D"));
    assert!(position(&order, "C") < position(&order, "D"));
}

#[test]
fn three_task_cycle_is_reported() {
    let mut dag = OctoTree::new();
    dag.add_task(task("A", "a", 1, &["C"]));
    dag.add_task(task("B", "b", 1, &["A"]));
    dag.add_task(task("C", "c", 1, &["B"]));
    dag.add_task(task("Z", "free", 1, &[]));
    assert_eq!(dag.topological_sort(), Err("Cycle detected in DAG".to_string()));
    assert_eq!(dag.critical_path(), Err("Cycle detected in DAG".to_string()));
}

#[test]
fn self_dependency_is_a_cycle() {
    let mut dag = OctoTree::new();
    dag.add_task(task("A", "a", 1, &["A"]));
    assert_eq!(dag.topological_sort(), Err("Cycle detected in DAG".to_string()));
}

#[test]
fn unknown_dependency_blocks_the_sort() {
    let mut dag = OctoTree::new();
    dag.add_task(task("A", "a", 1, &["ghost"]));
    assert_eq!(dag.topological_sort(), Err("Cycle detected in DAG".to_string()));
}

#[test]
fn unknown_dependency_blocks_its_dependents_too() {
    let mut dag = OctoTree::new();
    dag.add_task(task("R", "ready", 1, &[]));
    dag.add_task(task("A", "a", 1, &["ghost"]));
    dag.add_task(task("B", "b", 1, &["A"]));
    assert!(dag.topological_sort().is_err());
    assert!(dag.critical_path().is_err());
}

#[test]
fn repeated_dependency_is_met_once_its_task_runs() {
    let mut dag = OctoTree::new();
    dag.add_task(task("A", "a", 1, &[]));
    dag.add_task(task("B", "b", 1, &["A", "A"]));
    assert_eq!(dag.topological_sort().unwrap(), vec!["A", "B"]);
}

#[test]
fn empty_graph_sorts_and_has_flat_critical_path() {
    let dag = OctoTree::new();
    assert_eq!(dag.topological_sort().unwrap(), Vec::<String>::new());
    assert_eq!(dag.critical_path().unwrap(), (Vec::<String>::new(), 0));
}

#[test]
fn fan_out_places_root_first_and_every_task_is_critical() {
    let mut dag = OctoTree::new();
    dag.add_task(task("A", "a", 4, &[]));
    dag.add_task(task("B", "b", 7, &["A"]));
    dag.add_task(task("C", "c", 9, &["A"]));
    let order = dag.topological_sort().unwrap();
    assert_eq!(order[0], "A");
    let (mut critical, total) = dag.critical_path().unwrap();
    assert_eq!(total, 0);
    critical.sort();
    assert_eq!(critical, vec!["A", "B", "C"]);
}

#[test]
fn chain_has_every_task_critical_with_zero_start() {
    let mut dag = OctoTree::new();
    dag.add_task(task("C", "c", 8, &["B"]));
    dag.add_task(task("B", "b", 6, &["A"]));
    dag.add_task(task("A", "a", 5, &[]));
    assert_eq!(dag.topological_sort().unwrap(), vec!["A", "B", "C"]);
    assert_eq!(
        dag.critical_path().unwrap(),
        (vec!["A".to_string(), "B".to_string(), "C".to_string()], 0)
    );
}

#[test]
fn two_task_cycle_error_names_a_cycle() {
    let mut dag = OctoTree::new();
    dag.add_task(task("A", "a", 1, &["B"]));
    dag.add_task(task("B", "b", 1, &["A"]));
    let err = dag.topological_sort().unwrap_err();
    assert_eq!(err, "Cycle detected in DAG");
}

#[test]
fn sorting_twice_gives_the_same_answer() {
    let mut dag = OctoTree::new();
    dag.add_task(task("X", "x", 1, &[]));
    dag.add_task(task("Y", "y", 1, &[]));
    dag.add_task(task("Z", "z", 1, &["X", "Y"]));
    let first = dag.topological_sort().unwrap();
    let second = dag.topological_sort().unwrap();
    assert_eq!(first, second);
    assert_eq!(first[2], "Z");
}

#[test]
fn later_task_with_same_id_replaces_earlier() {
    let mut dag = OctoTree::new();
    dag.add_task(task("A", "first", 1, &["missing"]));
    assert!(dag.topological_sort().is_err());
    dag.add_task(task("A", "second", 2, &[]));
    assert_eq!(dag.display(), "OCTOTREÉ: 1 tasks");
    assert_eq!(dag.topological_sort().unwrap(), vec!["A"]);
}

#[test]
fn display_counts_tasks() {
    let mut dag = OctoTree::new();
    assert_eq!(dag.display(), "OCTOTREÉ: 0 tasks");
    for i in 0..12 {
        dag.add_task(task(&format!("t{}", i), "step", 1, &[]));
    }
    assert_eq!(dag.display(), "OCTOTREÉ: 12 tasks");
}

#[test]
fn ready_tasks_keep_insertion_order() {
    let mut dag = OctoTree::new();
    dag.add_task(task("second", "s", 1, &["first"]));
    dag.add_task(task("first", "f", 1, &[]));
    dag.add_task(task("other", "o", 1, &[]));
    assert_eq!(dag.topological_sort().unwrap(), vec!["first", "other", "second"]);
}

#[test]
fn long_chain_added_backwards_sorts_forwards() {
    let mut dag = OctoTree::new();
    for i in (0..300).rev() {
        let id = format!("step{}", i);
        let deps: Vec<String> = if i == 0 { vec![] } else { vec![format!("step{}", i - 1)] };
        dag.add_task(Task { id, name: "s".to_string(), duration: i, dependencies: deps });
    }
    let order = dag.topological_sort().unwrap();
    let expected: Vec<String> = (0..300).map(|i| format!("step{}", i)).collect();
    assert_eq!(order, expected);
    let (critical, total) = dag.critical_path().unwrap();
    assert_eq!(critical, expected);
    assert_eq!(total, 0);
    assert_eq!(dag.display(), "OCTOTREÉ: 300 tasks");
}
