use just::binding::Parameter;
use just::invoke::{group_arguments, split_overrides, unknown_recipes_message, RecipeSig};

fn sig(name: &str, params: Vec<Parameter>) -> RecipeSig {
    RecipeSig {
        name: name.to_owned(),
        params,
    }
}

fn required(name: &str) -> Parameter {
    Parameter {
        name: name.to_owned(),
        default: None,
        variadic: false,
    }
}

fn variadic_with_default(name: &str, default: &str) -> Parameter {
    Parameter {
        name: name.to_owned(),
        default: Some(default.to_owned()),
        variadic: true,
    }
}

fn tokens(list: &[&str]) -> Vec<String> {
    list.iter().map(|t| (*t).to_owned()).collect()
}

#[test]
fn recipe_names_open_new_invocations() {
    let recipes = vec![sig("a", vec![]), sig("d", vec![])];
    let (groups, missing) = group_arguments(&recipes, &tokens(&["a", "d"])).unwrap();
    assert_eq!(groups, vec![(0, vec![]), (1, vec![])]);
    assert!(missing.is_empty());
}

#[test]
fn variadic_recipe_absorbs_all_following_tokens() {
    let recipes = vec![sig(
        "a",
        vec![
            required("x"),
            required("y"),
            variadic_with_default("z", "HELLO"),
        ],
    )];
    let (groups, missing) =
        group_arguments(&recipes, &tokens(&["a", "0", "1", "2", "3", " 4 "])).unwrap();
    assert_eq!(groups, vec![(0, tokens(&["0", "1", "2", "3", " 4 "]))]);
    assert!(missing.is_empty());
}

#[test]
fn parameters_absorb_even_recipe_names() {
    let recipes = vec![sig("a", vec![]), sig("b", vec![required("x")])];
    let (groups, missing) = group_arguments(&recipes, &tokens(&["b", "a"])).unwrap();
    assert_eq!(groups, vec![(1, tokens(&["a"]))]);
    assert!(missing.is_empty());
}

#[test]
fn unknown_tokens_are_collected_and_reported() {
    let recipes = vec![sig("a", vec![])];
    let (groups, missing) = group_arguments(&recipes, &tokens(&["nope", "a"])).unwrap();
    assert_eq!(groups, vec![(0, vec![])]);
    assert_eq!(missing, tokens(&["nope"]));
    assert_eq!(
        unknown_recipes_message(&missing),
        "Justfile does not contain recipe `nope`."
    );
    assert_eq!(
        unknown_recipes_message(&tokens(&["x", "y"])),
        "Justfile does not contain recipes `x` or `y`."
    );
}

#[test]
fn short_invocation_is_an_argument_count_error() {
    let recipes = vec![sig("a", vec![required("x"), required("y")])];
    let (recipe, e) = group_arguments(&recipes, &tokens(&["a", "1"])).unwrap_err();
    assert_eq!(recipe, 0);
    assert_eq!(e.found, 1);
    assert_eq!(e.message("a"), "Recipe `a` got 1 argument but takes 2");
}

#[test]
fn leading_assignments_become_overrides() {
    let (overrides, rest) = split_overrides(&tokens(&["k=v", "x=a=b", "recipe", "arg=1"]));
    assert_eq!(
        overrides,
        vec![
            ("k".to_owned(), "v".to_owned()),
            ("x".to_owned(), "a=b".to_owned()),
        ]
    );
    assert_eq!(rest, tokens(&["recipe", "arg=1"]));
}

#[test]
fn bare_equals_is_no_override() {
    let (overrides, rest) = split_overrides(&tokens(&["=x", "k=v"]));
    assert!(overrides.is_empty());
    assert_eq!(rest, tokens(&["=x", "k=v"]));
}
