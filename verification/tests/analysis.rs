use just::analysis::check_parameters;
use just::binding::Parameter;

fn parameter(name: &str, default: Option<&str>, variadic: bool) -> Parameter {
    Parameter {
        name: name.to_owned(),
        default: default.map(str::to_owned),
        variadic,
    }
}

fn variables(list: &[&str]) -> Vec<String> {
    list.iter().map(|v| (*v).to_owned()).collect()
}

#[test]
fn well_formed_parameters_pass() {
    let params = vec![
        parameter("a", None, false),
        parameter("b", Some("1"), false),
        parameter("c", Some("2"), true),
    ];
    assert!(check_parameters("r", &params, &variables(&["x"])).is_ok());
    assert!(check_parameters("r", &vec![], &variables(&[])).is_ok());
}

#[test]
fn duplicate_parameter_is_reported() {
    let params = vec![parameter("a", None, false), parameter("a", None, false)];
    assert_eq!(
        check_parameters("r", &params, &variables(&[])).unwrap_err(),
        "Recipe `r` has duplicate parameter `a`"
    );
}

#[test]
fn parameter_shadowing_a_variable_is_reported() {
    let params = vec![parameter("x", None, false)];
    assert_eq!(
        check_parameters("r", &params, &variables(&["x"])).unwrap_err(),
        "Parameter `x` shadows variable of the same name"
    );
}

#[test]
fn required_after_default_is_reported() {
    let params = vec![parameter("a", Some("1"), false), parameter("b", None, false)];
    assert_eq!(
        check_parameters("r", &params, &variables(&[])).unwrap_err(),
        "Non-default parameter `b` follows default parameter"
    );
}

#[test]
fn parameter_after_variadic_is_reported() {
    let params = vec![parameter("a", None, true), parameter("b", None, false)];
    assert_eq!(
        check_parameters("r", &params, &variables(&[])).unwrap_err(),
        "Parameter `b` follows variadic parameter"
    );
}

use just::analysis::{check_duplicate_recipes, resolve_dependencies, RecipeDecl};
use just::graph::plan;

fn decl(name: &str, line: u64, num_params: usize, deps: &[&str]) -> RecipeDecl {
    RecipeDecl {
        name: name.to_owned(),
        line,
        num_params,
        deps: deps.iter().map(|d| (*d).to_owned()).collect(),
    }
}

#[test]
fn dependencies_resolve_to_indexes() {
    // b: a / a: / d: c / c: b
    let decls = vec![
        decl("b", 1, 0, &["a"]),
        decl("a", 4, 0, &[]),
        decl("d", 8, 0, &["c"]),
        decl("c", 11, 0, &["b"]),
    ];
    let graph = resolve_dependencies(&decls).unwrap();
    assert_eq!(graph, vec![vec![1], vec![], vec![3], vec![0]]);
    // resolved indexes feed straight into planning: invoked as `a d`
    assert_eq!(plan(&graph, &vec![1, 2]).unwrap(), vec![1, 0, 3, 2]);
}

#[test]
fn unknown_dependency_is_reported() {
    let decls = vec![decl("a", 1, 0, &["ghost"])];
    assert_eq!(
        resolve_dependencies(&decls).unwrap_err(),
        "Recipe `a` has unknown dependency `ghost`"
    );
}

#[test]
fn duplicate_dependency_is_reported() {
    let decls = vec![decl("a", 1, 0, &["b", "b"]), decl("b", 2, 0, &[])];
    assert_eq!(
        resolve_dependencies(&decls).unwrap_err(),
        "Recipe `a` has duplicate dependency `b`"
    );
}

#[test]
fn parameterized_dependency_is_reported() {
    let decls = vec![decl("a", 1, 0, &["b"]), decl("b", 2, 1, &[])];
    assert_eq!(
        resolve_dependencies(&decls).unwrap_err(),
        "Recipe `a` depends on `b` which requires arguments. \
         Dependencies may not require arguments"
    );
}

#[test]
fn redefined_recipe_is_reported() {
    let decls = vec![
        decl("a", 1, 0, &[]),
        decl("b", 3, 0, &[]),
        decl("a", 5, 0, &[]),
    ];
    assert_eq!(
        check_duplicate_recipes(&decls).unwrap_err(),
        "Recipe `a` first defined on line 1 is redefined on line 5"
    );
    let distinct = vec![decl("a", 1, 0, &[]), decl("b", 3, 0, &[])];
    assert!(check_duplicate_recipes(&distinct).is_ok());
}

use just::analysis::{check_aliases, AliasDecl};

fn alias(name: &str, target: &str, line: u64) -> AliasDecl {
    AliasDecl {
        name: name.to_owned(),
        target: target.to_owned(),
        line,
    }
}

#[test]
fn well_formed_aliases_pass() {
    let recipes = vec![decl("foo", 1, 0, &[])];
    let aliases = vec![alias("f", "foo", 3)];
    assert!(check_aliases(&aliases, &recipes).is_ok());
}

#[test]
fn redefined_alias_is_reported() {
    let recipes = vec![decl("foo", 1, 0, &[])];
    let aliases = vec![alias("f", "foo", 3), alias("f", "foo", 4)];
    assert_eq!(
        check_aliases(&aliases, &recipes).unwrap_err(),
        "Alias `f` first defined on line 3 is redefined on line 4"
    );
}

#[test]
fn alias_shadowing_a_recipe_is_reported() {
    let recipes = vec![decl("foo", 1, 0, &[]), decl("f", 5, 0, &[])];
    let aliases = vec![alias("f", "foo", 7)];
    assert_eq!(
        check_aliases(&aliases, &recipes).unwrap_err(),
        "Alias `f` defined on line 7 shadows recipe defined on line 5"
    );
}

#[test]
fn alias_with_unknown_target_is_reported() {
    let recipes = vec![decl("foo", 1, 0, &[])];
    let aliases = vec![alias("f", "fop", 3)];
    assert_eq!(
        check_aliases(&aliases, &recipes).unwrap_err(),
        "Alias `f` has an unknown target `fop`"
    );
}
