use just::binding::Parameter;
use just::listing::{list_output, ListedRecipe};

fn recipe(name: &str, params: Vec<Parameter>, doc: Option<&str>) -> ListedRecipe {
    ListedRecipe {
        name: name.to_owned(),
        params,
        doc: doc.map(str::to_owned),
    }
}

fn parameter(name: &str, default: Option<&str>, variadic: bool) -> Parameter {
    Parameter {
        name: name.to_owned(),
        default: default.map(str::to_owned),
        variadic,
    }
}

#[test]
fn alias_listing() {
    // foo: / echo foo / alias f := foo, invoked as `--list`
    let recipes = vec![recipe("foo", vec![], None)];
    let aliases = vec![("f".to_owned(), "foo".to_owned())];
    assert_eq!(
        list_output(&recipes, &aliases),
        "Available recipes:\n    foo\n    f   # alias for `foo`\n"
    );
}

#[test]
fn listing_aligns_doc_columns() {
    let recipes = vec![
        recipe("build", vec![], Some("compile it")),
        recipe("x", vec![], Some("tiny")),
    ];
    assert_eq!(
        list_output(&recipes, &vec![]),
        "Available recipes:\n    build # compile it\n    x     # tiny\n"
    );
}

#[test]
fn listing_renders_parameters() {
    let recipes = vec![recipe(
        "a",
        vec![
            parameter("x", None, false),
            parameter("y", Some("1"), false),
            parameter("z", None, true),
        ],
        None,
    )];
    assert_eq!(
        list_output(&recipes, &vec![]),
        "Available recipes:\n    a x y=1 +z\n"
    );
}

#[test]
fn listing_skips_private_recipes_and_aliases() {
    let recipes = vec![
        recipe("_hidden", vec![], None),
        recipe("shown", vec![], None),
    ];
    let aliases = vec![
        ("_h".to_owned(), "shown".to_owned()),
        ("s".to_owned(), "shown".to_owned()),
        ("x".to_owned(), "_hidden".to_owned()),
    ];
    assert_eq!(
        list_output(&recipes, &aliases),
        "Available recipes:\n    shown\n    s     # alias for `shown`\n"
    );
}
