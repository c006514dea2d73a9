use just::graph::plan;

fn names(list: &[&str]) -> Vec<String> {
    list.iter().map(|name| (*name).to_owned()).collect()
}

#[test]
fn dependency_order_runs_dependencies_first_and_once() {
    // b: a / a: / d: c / c: b, invoked as `a d`
    let deps: Vec<Vec<usize>> = vec![vec![1], vec![], vec![3], vec![0]];
    let order = plan(&deps, &vec![1, 2]).unwrap();
    assert_eq!(order, vec![1, 0, 3, 2]);
}

#[test]
fn diamond_dependency_runs_shared_dependency_once() {
    // a: b c / b: d / c: d
    let deps: Vec<Vec<usize>> = vec![vec![1, 2], vec![3], vec![3], vec![]];
    let order = plan(&deps, &vec![0]).unwrap();
    assert_eq!(order, vec![3, 1, 2, 0]);
    let d = order.iter().position(|&r| r == 3).unwrap();
    let b = order.iter().position(|&r| r == 1).unwrap();
    let c = order.iter().position(|&r| r == 2).unwrap();
    let a = order.iter().position(|&r| r == 0).unwrap();
    assert!(d < b && d < c && b < c && c < a);
    assert_eq!(order.iter().filter(|&&r| r == 3).count(), 1);
}

#[test]
fn circular_dependency_reports_full_cycle() {
    // a: b / b: c / c: d / d: a, invoked as `a`
    let deps: Vec<Vec<usize>> = vec![vec![1], vec![2], vec![3], vec![0]];
    let e = plan(&deps, &vec![0]).unwrap_err();
    assert_eq!(e.path, vec![0, 1, 2, 3, 0]);
    assert_eq!(e.recipe, 3);
    assert_eq!(
        e.message(&names(&["a", "b", "c", "d"])),
        "Recipe `d` has circular dependency `a -> b -> c -> d -> a`"
    );
}

#[test]
fn self_dependency_is_reported_directly() {
    let deps: Vec<Vec<usize>> = vec![vec![0]];
    let e = plan(&deps, &vec![0]).unwrap_err();
    assert_eq!(e.path, vec![0, 0]);
    assert_eq!(e.message(&names(&["a"])), "Recipe `a` depends on itself");
}

#[test]
fn unrequested_recipes_do_not_run() {
    let deps: Vec<Vec<usize>> = vec![vec![], vec![]];
    let order = plan(&deps, &vec![1]).unwrap();
    assert_eq!(order, vec![1]);
}

#[test]
fn requested_twice_runs_once() {
    let deps: Vec<Vec<usize>> = vec![vec![]];
    let order = plan(&deps, &vec![0, 0]).unwrap();
    assert_eq!(order, vec![0]);
}

#[test]
fn cycle_behind_a_dependency_is_found() {
    // a: b / b: c / c: b
    let deps: Vec<Vec<usize>> = vec![vec![1], vec![2], vec![1]];
    let e = plan(&deps, &vec![0]).unwrap_err();
    assert_eq!(e.path, vec![1, 2, 1]);
    assert_eq!(
        e.message(&names(&["a", "b", "c"])),
        "Recipe `c` has circular dependency `b -> c -> b`"
    );
}
