use just::evaluator::{
    evaluate, evaluate_assignments, evaluate_line, EvalContext, Expression, Fragment,
};
use just::function::FunctionContext;

fn context(ticks: &[&str]) -> EvalContext {
    EvalContext {
        functions: FunctionContext {
            dotenv: vec![("FROM_DOTENV".to_owned(), "dotenv".to_owned())],
            invocation_directory: "/work".to_owned(),
            justfile: "/work/justfile".to_owned(),
        },
        env: vec![("FROM_ENV".to_owned(), "env".to_owned())],
        executable: "/usr/bin/just".to_owned(),
        arch: "x86_64".to_owned(),
        os: "linux".to_owned(),
        os_family: "unix".to_owned(),
        ticks: ticks.iter().map(|t| (*t).to_owned()).collect(),
    }
}

fn scope(pairs: &[(&str, &str)]) -> Vec<(String, String)> {
    pairs
        .iter()
        .map(|(k, v)| ((*k).to_owned(), (*v).to_owned()))
        .collect()
}

fn literal(s: &str) -> Expression {
    Expression::StringLiteral {
        cooked: s.to_owned(),
    }
}

fn variable(name: &str) -> Expression {
    Expression::Variable {
        name: name.to_owned(),
    }
}

fn backtick(command: &str, id: usize) -> Expression {
    Expression::Backtick {
        command: command.to_owned(),
        id,
    }
}

fn call(function: &str, arguments: Vec<Expression>) -> Expression {
    Expression::Call {
        function: function.to_owned(),
        arguments,
    }
}

fn concat(lhs: Expression, rhs: Expression) -> Expression {
    Expression::Concat {
        lhs: Box::new(lhs),
        rhs: Box::new(rhs),
    }
}

#[test]
fn backtick_concat_captures_and_joins() {
    // a := `printf Hello,` used in '{{a + `printf ' world.'`}}'
    let ctx = context(&["Hello,", " world."]);
    let a = evaluate(&backtick("printf Hello,", 0), &scope(&[]), &ctx).unwrap();
    assert_eq!(a, "Hello,");
    let value = evaluate(
        &concat(variable("a"), backtick("printf ' world.'", 1)),
        &scope(&[("a", "Hello,")]),
        &ctx,
    )
    .unwrap();
    assert_eq!(value, "Hello, world.");
}

#[test]
fn backtick_value_loses_one_trailing_newline() {
    let ctx = context(&["out\n"]);
    assert_eq!(
        evaluate(&backtick("echo out", 0), &scope(&[]), &ctx).unwrap(),
        "out"
    );
}

#[test]
fn undefined_variable_is_an_error() {
    let ctx = context(&[]);
    assert_eq!(
        evaluate(&variable("nope"), &scope(&[]), &ctx).unwrap_err(),
        "Variable `nope` not defined"
    );
}

#[test]
fn calls_dispatch_to_the_builtin_table() {
    let ctx = context(&[]);
    let sc = scope(&[]);
    assert_eq!(
        evaluate(&call("uppercase", vec![literal("abc")]), &sc, &ctx).unwrap(),
        "ABC"
    );
    assert_eq!(
        evaluate(
            &call("replace", vec![literal("aaa"), literal("aa"), literal("b")]),
            &sc,
            &ctx
        )
        .unwrap(),
        "ba"
    );
    assert_eq!(evaluate(&call("arch", vec![]), &sc, &ctx).unwrap(), "x86_64");
    assert_eq!(
        evaluate(&call("just_executable", vec![]), &sc, &ctx).unwrap(),
        "/usr/bin/just"
    );
    assert_eq!(
        evaluate(&call("justfile_directory", vec![]), &sc, &ctx).unwrap(),
        "/work"
    );
}

#[test]
fn env_var_prefers_dotenv_then_snapshot() {
    let ctx = context(&[]);
    let sc = scope(&[]);
    assert_eq!(
        evaluate(&call("env_var", vec![literal("FROM_DOTENV")]), &sc, &ctx).unwrap(),
        "dotenv"
    );
    assert_eq!(
        evaluate(&call("env_var", vec![literal("FROM_ENV")]), &sc, &ctx).unwrap(),
        "env"
    );
    assert_eq!(
        evaluate(&call("env_var", vec![literal("MISSING")]), &sc, &ctx).unwrap_err(),
        "environment variable `MISSING` not present"
    );
    assert_eq!(
        evaluate(
            &call(
                "env_var_or_default",
                vec![literal("MISSING"), literal("fallback")]
            ),
            &sc,
            &ctx
        )
        .unwrap(),
        "fallback"
    );
}

#[test]
fn unknown_function_and_wrong_arity_are_errors() {
    let ctx = context(&[]);
    let sc = scope(&[]);
    assert_eq!(
        evaluate(&call("nope", vec![]), &sc, &ctx).unwrap_err(),
        "Call to unknown function `nope`"
    );
    assert_eq!(
        evaluate(&call("trim", vec![]), &sc, &ctx).unwrap_err(),
        "Function `trim` called with 0 arguments but takes 1"
    );
    assert_eq!(
        evaluate(&call("arch", vec![literal("x")]), &sc, &ctx).unwrap_err(),
        "Function `arch` called with 1 argument but takes 0"
    );
}

#[test]
fn line_fragments_concatenate() {
    // echo {{x}} {{y}} {{z}} with x=0 y=1 z='2 3  4 '
    let ctx = context(&[]);
    let sc = scope(&[("x", "0"), ("y", "1"), ("z", "2 3  4 ")]);
    let frags = vec![
        Fragment::Text {
            text: "echo ".to_owned(),
        },
        Fragment::Interpolation {
            expression: variable("x"),
        },
        Fragment::Text {
            text: " ".to_owned(),
        },
        Fragment::Interpolation {
            expression: variable("y"),
        },
        Fragment::Text {
            text: " ".to_owned(),
        },
        Fragment::Interpolation {
            expression: variable("z"),
        },
    ];
    assert_eq!(
        evaluate_line(&frags, &sc, &ctx).unwrap(),
        "echo 0 1 2 3  4 "
    );
}

#[test]
fn assignments_evaluate_in_order_and_overrides_skip_evaluation() {
    let ctx = context(&["captured\n"]);
    let assignments = vec![
        ("a".to_owned(), literal("one")),
        ("b".to_owned(), concat(variable("a"), literal("!"))),
        // overridden: its backtick would otherwise be needed
        ("c".to_owned(), backtick("exit 1", 0)),
    ];
    let overrides = scope(&[("c", "forced")]);
    let result = evaluate_assignments(&assignments, &overrides, &ctx).unwrap();
    assert_eq!(
        result,
        scope(&[("a", "one"), ("b", "one!"), ("c", "forced")])
    );
    let unforced = evaluate_assignments(&assignments, &scope(&[]), &ctx).unwrap();
    assert_eq!(
        unforced,
        scope(&[("a", "one"), ("b", "one!"), ("c", "captured")])
    );
}
