use just::binding::{bind, Parameter};
use just::config_error::{and_ticked, count_word, ConfigError};
use just::runtime::{backtick_outcome, backtick_value, command_outcome, error_line};

fn parameter(name: &str, default: Option<&str>, variadic: bool) -> Parameter {
    Parameter {
        name: name.to_owned(),
        default: default.map(str::to_owned),
        variadic,
    }
}

fn args(list: &[&str]) -> Vec<String> {
    list.iter().map(|arg| (*arg).to_owned()).collect()
}

#[test]
fn variadic_with_default_absorbs_remaining_arguments() {
    // a x y +z='HELLO', invoked with `0 1 2 3 " 4 "`
    let params = vec![
        parameter("x", None, false),
        parameter("y", None, false),
        parameter("z", Some("HELLO"), true),
    ];
    let bound = bind(&params, &args(&["0", "1", "2", "3", " 4 "])).unwrap();
    assert_eq!(
        bound,
        vec![
            ("x".to_owned(), "0".to_owned()),
            ("y".to_owned(), "1".to_owned()),
            ("z".to_owned(), "2 3  4 ".to_owned()),
        ]
    );
}

#[test]
fn variadic_default_used_only_when_no_arguments_remain() {
    let params = vec![
        parameter("x", None, false),
        parameter("z", Some("HELLO"), true),
    ];
    let bound = bind(&params, &args(&["0"])).unwrap();
    assert_eq!(bound[1], ("z".to_owned(), "HELLO".to_owned()));
}

#[test]
fn defaults_fill_missing_trailing_arguments() {
    let params = vec![parameter("a", None, false), parameter("b", Some("x"), false)];
    let bound = bind(&params, &args(&["1"])).unwrap();
    assert_eq!(
        bound,
        vec![("a".to_owned(), "1".to_owned()), ("b".to_owned(), "x".to_owned())]
    );
}

#[test]
fn too_few_arguments_report_the_count() {
    let params = vec![parameter("a", None, false), parameter("b", None, false)];
    let e = bind(&params, &args(&["1"])).unwrap_err();
    assert_eq!(e.found, 1);
    assert_eq!(e.min, 2);
    assert_eq!(e.max, Some(2));
    assert_eq!(e.message("r"), "Recipe `r` got 1 argument but takes 2");
}

#[test]
fn too_many_arguments_report_the_count() {
    let params = vec![parameter("a", None, false)];
    let e = bind(&params, &args(&["1", "2"])).unwrap_err();
    assert_eq!(e.message("r"), "Recipe `r` got 2 arguments but only takes 1");
}

#[test]
fn variadic_without_default_requires_an_argument() {
    let params = vec![parameter("v", None, true)];
    let e = bind(&params, &args(&[])).unwrap_err();
    assert_eq!(e.max, None);
    assert_eq!(e.message("r"), "Recipe `r` got 0 arguments but takes at least 1");
}

#[test]
fn defaulted_parameters_widen_the_valid_range() {
    let params = vec![parameter("a", None, false), parameter("b", Some("x"), false)];
    assert!(bind(&params, &args(&["1"])).is_ok());
    assert!(bind(&params, &args(&["1", "2"])).is_ok());
    let too_few = bind(&params, &args(&[])).unwrap_err();
    assert_eq!(too_few.message("r"), "Recipe `r` got 0 arguments but takes at least 1");
    let too_many = bind(&params, &args(&["1", "2", "3"])).unwrap_err();
    assert_eq!(too_many.message("r"), "Recipe `r` got 3 arguments but takes at most 2");
}

#[test]
fn recipe_failure_propagates_the_exit_code() {
    // recipe: / @exit 100 on body line 4
    assert!(command_outcome("recipe", 4, 0).is_ok());
    let failure = command_outcome("recipe", 4, 100).unwrap_err();
    assert_eq!(failure.code, 100);
    assert_eq!(
        failure.message(),
        "Recipe `recipe` failed on line 4 with exit code 100"
    );
    assert_eq!(
        error_line(&failure.message()),
        "error: Recipe `recipe` failed on line 4 with exit code 100"
    );
}

#[test]
fn backtick_failure_propagates_the_exit_code() {
    assert!(backtick_outcome(0).is_ok());
    let failure = backtick_outcome(7).unwrap_err();
    assert_eq!(failure.message(), "Backtick failed with exit code 7");
}

#[test]
fn backtick_value_strips_exactly_one_trailing_newline() {
    assert_eq!(backtick_value("Hello,"), "Hello,");
    assert_eq!(backtick_value("Hello,\n"), "Hello,");
    assert_eq!(backtick_value("Hello,\n\n"), "Hello,\n");
    assert_eq!(backtick_value("  spaced  "), "  spaced  ");
    assert_eq!(backtick_value(""), "");
}

#[test]
fn internal_error_message_asks_for_a_report() {
    let e = ConfigError::internal("oops");
    assert_eq!(
        e.message(),
        "Internal config error, this may indicate a bug in just: oops \
         consider filing an issue: https://github.com/casey/just/issues/new"
    );
}

#[test]
fn search_dir_conflict_message() {
    assert_eq!(
        ConfigError::SearchDirConflict.message(),
        "Path-prefixed recipes may not be used with `--working-directory` or `--justfile`."
    );
}

#[test]
fn current_dir_message_carries_the_cause() {
    let e = ConfigError::CurrentDir {
        description: "permission denied".to_owned(),
    };
    assert_eq!(
        e.message(),
        "Failed to get current directory: permission denied"
    );
}

#[test]
fn subcommand_argument_messages_count_and_list() {
    let one = ConfigError::SubcommandArguments {
        subcommand: "DUMP".to_owned(),
        arguments: args(&["foo"]),
    };
    assert_eq!(
        one.message(),
        "`--dump` used with unexpected argument: `foo`"
    );
    let three = ConfigError::SubcommandArguments {
        subcommand: "DUMP".to_owned(),
        arguments: args(&["a", "b", "c"]),
    };
    assert_eq!(
        three.message(),
        "`--dump` used with unexpected arguments: `a`, `b` and `c`"
    );
}

#[test]
fn subcommand_override_messages() {
    let overrides = vec![("k".to_owned(), "v".to_owned())];
    let plain = ConfigError::SubcommandOverrides {
        subcommand: "LIST".to_owned(),
        overrides: overrides.clone(),
    };
    assert_eq!(
        plain.message(),
        "`--list` used with unexpected overrides: `k=v`"
    );
    let both = ConfigError::SubcommandOverridesAndArguments {
        subcommand: "LIST".to_owned(),
        overrides,
        arguments: args(&["x", "y"]),
    };
    assert_eq!(
        both.message(),
        "`--list` used with unexpected overrides: `k=v`; and arguments: `x` and `y`"
    );
}

#[test]
fn list_and_count_helpers() {
    assert_eq!(and_ticked(&args(&[])), "");
    assert_eq!(and_ticked(&args(&["a"])), "`a`");
    assert_eq!(and_ticked(&args(&["a", "b"])), "`a` and `b`");
    assert_eq!(and_ticked(&args(&["a", "b", "c", "d"])), "`a`, `b`, `c` and `d`");
    assert_eq!(count_word("argument", 1), "argument");
    assert_eq!(count_word("argument", 2), "arguments");
    assert_eq!(count_word("argument", 0), "arguments");
}
