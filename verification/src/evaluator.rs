//! Evaluating buildfile expressions.
//!
//! Values are strings. An expression is a literal, a captured-subprocess
//! backtick, a variable, a built-in function call, a concatenation, or a
//! parenthesized group. Everything the outside world contributes — the
//! captured backtick outputs, the process environment, the runner's own
//! path, and the host descriptors — stands in the evaluation context as
//! plain values, so evaluation itself is a function of its inputs.

use vstd::prelude::*;

use crate::config_error::count_spec;
use crate::config_error::count_word;
use crate::function::{
    dotenv_get, dotenv_value, extension, file_name, file_stem, parent_directory, replace, trim,
    without_extension, Binary, Function, FunctionContext, Nullary, Ternary, Unary,
};
use crate::function::{clean, join, lowercase, uppercase};
use crate::function::table_spec;
use crate::outside::{
    extension_of, file_name_of, file_stem_of, join_of, lexiclean_of, lower_of, parent_of, upper_of,
};
use crate::runtime::{backtick_value, backtick_value_spec};
use crate::text::{dec_spec, dec_string, msg3, replace_spec, trim_spec};

verus! {

/// An expression of the buildfile language.
pub enum Expression {
    /// A string literal, already cooked: escapes decoded.
    StringLiteral { cooked: String },
    /// A backtick: `command` is its script, `id` names its captured output
    /// in the evaluation context.
    Backtick { command: String, id: usize },
    /// A variable reference.
    Variable { name: String },
    /// A call of a built-in function.
    Call { function: String, arguments: Vec<Expression> },
    /// Concatenation of two expressions.
    Concat { lhs: Box<Expression>, rhs: Box<Expression> },
    /// A parenthesized expression.
    Group { inner: Box<Expression> },
}

/// What evaluation draws on besides the scope: the built-in function
/// context, a snapshot of the process environment, the runner's own path,
/// the host descriptors, and the captured output of each backtick.
pub struct EvalContext {
    pub functions: FunctionContext,
    pub env: Vec<(String, String)>,
    pub executable: String,
    pub arch: String,
    pub os: String,
    pub os_family: String,
    pub ticks: Vec<String>,
}

/// Whether every backtick of the expression names one of the `nticks`
/// captured outputs.
pub open spec fn wf_expression(e: Expression, nticks: int) -> bool
    decreases e,
{
    match e {
        Expression::StringLiteral { .. } => true,
        Expression::Backtick { id, .. } => (id as int) < nticks,
        Expression::Variable { .. } => true,
        Expression::Call { arguments, .. } => wf_expressions(arguments@, nticks),
        Expression::Concat { lhs, rhs } => wf_expression(*lhs, nticks) && wf_expression(
            *rhs,
            nticks,
        ),
        Expression::Group { inner } => wf_expression(*inner, nticks),
    }
}

/// Whether every expression of the list is well-formed.
pub open spec fn wf_expressions(es: Seq<Expression>, nticks: int) -> bool
    decreases es,
{
    if es.len() == 0 {
        true
    } else {
        wf_expression(es[0], nticks) && wf_expressions(es.drop_first(), nticks)
    }
}

/// The value under `key` in a scope: the value of the first pair whose
/// name matches.
pub open spec fn scope_value(entries: Seq<(Seq<char>, Seq<char>)>, key: Seq<char>) -> Option<
    Seq<char>,
>
    decreases entries.len(),
{
    if entries.len() == 0 {
        None
    } else if entries[0].0 == key {
        Some(entries[0].1)
    } else {
        scope_value(entries.drop_first(), key)
    }
}

/// Looks `key` up in a scope.
fn scope_get(entries: &Vec<(String, String)>, key: &str) -> (r: Option<String>)
    ensures
        r.deep_view() == scope_value(entries.deep_view(), key@),
{
    let ghost ev = entries.deep_view();
    let mut i: usize = 0;
    proof {
        assert(ev.len() == entries@.len());
        assert(ev.skip(0) =~= ev);
    }
    while i < entries.len()
        invariant
            i <= entries@.len(),
            ev == entries.deep_view(),
            ev.len() == entries@.len(),
            scope_value(ev, key@) == scope_value(ev.skip(i as int), key@),
        decreases entries@.len() - i,
    {
        proof {
            assert(ev.skip(i as int)[0] == ev[i as int]);
            assert(ev[i as int] == (entries@[i as int].0@, entries@[i as int].1@));
            assert(ev.skip(i as int).drop_first() =~= ev.skip(i as int + 1));
        }
        if crate::text::str_eq_str(entries[i].0.as_str(), key) {
            return Some(entries[i].1.clone());
        }
        i = i + 1;
    }
    proof {
        assert(ev.skip(i as int) =~= Seq::<(Seq<char>, Seq<char>)>::empty());
    }
    None
}

/// The value of environment variable `key` as evaluation sees it: the
/// dotenv mapping wins over the environment snapshot.
pub open spec fn env_value(ctx: EvalContext, key: Seq<char>) -> Option<Seq<char>> {
    match dotenv_value(ctx.functions.dotenv@, key) {
        Some(v) => Some(v),
        None => dotenv_value(ctx.env@, key),
    }
}

/// What a built-in function applied to evaluated argument values returns:
/// its value, or the message it fails with. An unknown name or a wrong
/// argument count is an error here too, though the static analysis reports
/// those before anything is evaluated.
pub open spec fn apply_spec(name: Seq<char>, vals: Seq<Seq<char>>, ctx: EvalContext) -> Result<
    Seq<char>,
    Seq<char>,
> {
    match table_spec(name) {
        None => Err("Call to unknown function `"@ + name + "`"@),
        Some(f) => {
            if f.argc_spec() != vals.len() {
                Err(
                    "Function `"@ + name + "` called with "@ + dec_spec(vals.len() as int) + " "@
                        + count_spec("argument"@, vals.len() as int) + " but takes "@ + dec_spec(
                        f.argc_spec(),
                    ),
                )
            } else {
                apply_known_spec(f, vals, ctx)
            }
        },
    }
}

/// What a built-in function of the right arity returns.
pub open spec fn apply_known_spec(f: Function, vals: Seq<Seq<char>>, ctx: EvalContext) -> Result<
    Seq<char>,
    Seq<char>,
> {
    match f {
        Function::Nullary(n) => match n {
            Nullary::Arch => Ok(ctx.arch@),
            Nullary::Os => Ok(ctx.os@),
            Nullary::OsFamily => Ok(ctx.os_family@),
            Nullary::JustExecutable => Ok(ctx.executable@),
            Nullary::Justfile => Ok(ctx.functions.justfile@),
            Nullary::JustfileDirectory => match parent_of(ctx.functions.justfile@) {
                Some(d) => Ok(d),
                None => Err(
                    "Could not resolve justfile directory. Justfile `"@ + ctx.functions.justfile@
                        + "` had no parent."@,
                ),
            },
            Nullary::InvocationDirectory => Ok(ctx.functions.invocation_directory@),
        },
        Function::Unary(u) => {
            let a = vals[0];
            match u {
                Unary::Clean => Ok(lexiclean_of(a)),
                Unary::EnvVar => match env_value(ctx, a) {
                    Some(v) => Ok(v),
                    None => Err("environment variable `"@ + a + "` not present"@),
                },
                Unary::Extension => match extension_of(a) {
                    Some(e) => Ok(e),
                    None => Err("Could not extract extension from `"@ + a + "`"@),
                },
                Unary::FileName => match file_name_of(a) {
                    Some(e) => Ok(e),
                    None => Err("Could not extract file name from `"@ + a + "`"@),
                },
                Unary::FileStem => match file_stem_of(a) {
                    Some(e) => Ok(e),
                    None => Err("Could not extract file stem from `"@ + a + "`"@),
                },
                Unary::Lowercase => Ok(lower_of(a)),
                Unary::ParentDirectory => match parent_of(a) {
                    Some(e) => Ok(e),
                    None => Err("Could not extract parent directory from `"@ + a + "`"@),
                },
                Unary::Trim => Ok(trim_spec(a)),
                Unary::Uppercase => Ok(upper_of(a)),
                Unary::WithoutExtension => match parent_of(a) {
                    None => Err("Could not extract parent from `"@ + a + "`"@),
                    Some(parent) => match file_stem_of(a) {
                        None => Err("Could not extract file stem from `"@ + a + "`"@),
                        Some(stem) => Ok(join_of(parent, stem)),
                    },
                },
            }
        },
        Function::Binary(b) => match b {
            Binary::EnvVarOrDefault => match env_value(ctx, vals[0]) {
                Some(v) => Ok(v),
                None => Ok(vals[1]),
            },
            Binary::Join => Ok(join_of(vals[0], vals[1])),
        },
        Function::Ternary(t) => match t {
            Ternary::Replace => Ok(replace_spec(vals[0], vals[1], vals[2])),
        },
    }
}

/// What evaluating an expression yields: its string value, or the message
/// of the first failure, found leftmost-innermost.
pub open spec fn eval_spec(
    e: Expression,
    scope: Seq<(Seq<char>, Seq<char>)>,
    ctx: EvalContext,
) -> Result<Seq<char>, Seq<char>>
    decreases e,
{
    match e {
        Expression::StringLiteral { cooked } => Ok(cooked@),
        Expression::Backtick { command, id } => {
            if (id as int) < ctx.ticks@.len() {
                Ok(backtick_value_spec(ctx.ticks@[id as int]@))
            } else {
                Ok(Seq::<char>::empty())
            }
        },
        Expression::Variable { name } => match scope_value(scope, name@) {
            Some(v) => Ok(v),
            None => Err("Variable `"@ + name@ + "` not defined"@),
        },
        Expression::Call { function, arguments } => match eval_list_spec(arguments@, scope, ctx) {
            Ok(vals) => apply_spec(function@, vals, ctx),
            Err(m) => Err(m),
        },
        Expression::Concat { lhs, rhs } => match eval_spec(*lhs, scope, ctx) {
            Ok(l) => match eval_spec(*rhs, scope, ctx) {
                Ok(r) => Ok(l + r),
                Err(m) => Err(m),
            },
            Err(m) => Err(m),
        },
        Expression::Group { inner } => eval_spec(*inner, scope, ctx),
    }
}

/// What evaluating a list of expressions, left to right, yields.
pub open spec fn eval_list_spec(
    es: Seq<Expression>,
    scope: Seq<(Seq<char>, Seq<char>)>,
    ctx: EvalContext,
) -> Result<Seq<Seq<char>>, Seq<char>>
    decreases es,
{
    if es.len() == 0 {
        Ok(Seq::<Seq<char>>::empty())
    } else {
        match eval_spec(es[0], scope, ctx) {
            Ok(v) => match eval_list_spec(es.drop_first(), scope, ctx) {
                Ok(rest) => Ok(seq![v] + rest),
                Err(m) => Err(m),
            },
            Err(m) => Err(m),
        }
    }
}

/// Applies a built-in function to evaluated argument values.
fn apply(name: &str, vals: &Vec<String>, ctx: &EvalContext) -> (r: Result<String, String>)
    ensures
        match r {
            Ok(v) => apply_spec(name@, vals.deep_view(), *ctx) == Ok::<Seq<char>, Seq<char>>(v@),
            Err(m) => apply_spec(name@, vals.deep_view(), *ctx) == Err::<Seq<char>, Seq<char>>(
                m@,
            ),
        },
{
    let ghost vv = vals.deep_view();
    proof {
        assert(vv.len() == vals@.len());
    }
    let f = match Function::lookup(name) {
        Some(f) => f,
        None => {
            return Err(msg3("Call to unknown function `", name, "`"));
        },
    };
    if f.argc() != vals.len() {
        let mut m = String::from_str("Function `");
        m.append(name);
        m.append("` called with ");
        let shown = dec_string(vals.len() as u64);
        m.append(shown.as_str());
        m.append(" ");
        let noun = count_word("argument", vals.len());
        m.append(noun.as_str());
        m.append(" but takes ");
        let takes = dec_string(f.argc() as u64);
        m.append(takes.as_str());
        proof {
            assert(m@ =~= apply_spec(name@, vv, *ctx)->Err_0);
        }
        return Err(m);
    }
    proof {
        if vals@.len() > 0 {
            assert(vv[0] == vals@[0]@);
        }
        if vals@.len() > 1 {
            assert(vv[1] == vals@[1]@);
        }
        if vals@.len() > 2 {
            assert(vv[2] == vals@[2]@);
        }
    }
    match f {
        Function::Nullary(n) => match n {
            Nullary::Arch => Ok(ctx.arch.clone()),
            Nullary::Os => Ok(ctx.os.clone()),
            Nullary::OsFamily => Ok(ctx.os_family.clone()),
            Nullary::JustExecutable => Ok(ctx.executable.clone()),
            Nullary::Justfile => Ok(ctx.functions.justfile.clone()),
            Nullary::JustfileDirectory => crate::function::justfile_directory(&ctx.functions),
            Nullary::InvocationDirectory => Ok(ctx.functions.invocation_directory.clone()),
        },
        Function::Unary(u) => {
            let a = vals[0].as_str();
            match u {
                Unary::Clean => clean(&ctx.functions, a),
                Unary::EnvVar => env_var_snapshot(ctx, a),
                Unary::Extension => extension(&ctx.functions, a),
                Unary::FileName => file_name(&ctx.functions, a),
                Unary::FileStem => file_stem(&ctx.functions, a),
                Unary::Lowercase => lowercase(&ctx.functions, a),
                Unary::ParentDirectory => parent_directory(&ctx.functions, a),
                Unary::Trim => trim(&ctx.functions, a),
                Unary::Uppercase => uppercase(&ctx.functions, a),
                Unary::WithoutExtension => without_extension(&ctx.functions, a),
            }
        },
        Function::Binary(b) => match b {
            Binary::EnvVarOrDefault => match env_var_snapshot(ctx, vals[0].as_str()) {
                Ok(v) => Ok(v),
                Err(_) => Ok(vals[1].clone()),
            },
            Binary::Join => join(&ctx.functions, vals[0].as_str(), vals[1].as_str()),
        },
        Function::Ternary(t) => match t {
            Ternary::Replace => replace(
                &ctx.functions,
                vals[0].as_str(),
                vals[1].as_str(),
                vals[2].as_str(),
            ),
        },
    }
}

/// Looks a variable up in the dotenv mapping, then in the environment
/// snapshot; a miss in both is the `not present` error.
fn env_var_snapshot(ctx: &EvalContext, key: &str) -> (r: Result<String, String>)
    ensures
        match env_value(*ctx, key@) {
            Some(v) => r is Ok && r->Ok_0@ == v,
            None => r is Err && r->Err_0@ == "environment variable `"@ + key@
                + "` not present"@,
        },
{
    if let Some(v) = dotenv_get(&ctx.functions.dotenv, key) {
        return Ok(v);
    }
    if let Some(v) = dotenv_get(&ctx.env, key) {
        return Ok(v);
    }
    Err(msg3("environment variable `", key, "` not present"))
}

/// Evaluates an expression to its string value, or to the message of the
/// first failure.
pub fn evaluate(e: &Expression, scope: &Vec<(String, String)>, ctx: &EvalContext) -> (r: Result<
    String,
    String,
>)
    requires
        wf_expression(*e, ctx.ticks@.len() as int),
    ensures
        match r {
            Ok(v) => eval_spec(*e, scope.deep_view(), *ctx) == Ok::<Seq<char>, Seq<char>>(v@),
            Err(m) => eval_spec(*e, scope.deep_view(), *ctx) == Err::<Seq<char>, Seq<char>>(m@),
        },
    decreases *e,
{
    match e {
        Expression::StringLiteral { cooked } => Ok(cooked.clone()),
        Expression::Backtick { command: _, id } => {
            let captured = &ctx.ticks[*id];
            Ok(backtick_value(captured.as_str()))
        },
        Expression::Variable { name } => match scope_get(scope, name.as_str()) {
            Some(v) => Ok(v),
            None => Err(msg3("Variable `", name.as_str(), "` not defined")),
        },
        Expression::Call { function, arguments } => {
            let ghost es = arguments@;
            let mut vals: Vec<String> = Vec::new();
            let mut i: usize = 0;
            proof {
                assert(es.skip(0) =~= es);
            }
            let n = arguments.len();
            while i < n
                invariant
                    i <= n == es.len(),
                    es == arguments@,
                    (*e) is Call,
                    (*e)->Call_arguments@ == es,
                    wf_expressions(es.skip(i as int), ctx.ticks@.len() as int),
                    eval_list_spec(es, scope.deep_view(), *ctx) == (match eval_list_spec(
                        es.skip(i as int),
                        scope.deep_view(),
                        *ctx,
                    ) {
                        Ok(rest) => Ok::<Seq<Seq<char>>, Seq<char>>(vals.deep_view() + rest),
                        Err(m) => Err::<Seq<Seq<char>>, Seq<char>>(m),
                    }),
                decreases n - i,
            {
                let ghost vals0 = vals.deep_view();
                let ghost erest = es.skip(i as int);
                proof {
                    assert(erest[0] == es[i as int]);
                    assert(erest.drop_first() =~= es.skip(i as int + 1));
                    assert(decreases_to!(*e => (*e)->Call_arguments));
                    assert(decreases_to!((*e)->Call_arguments => (*e)->Call_arguments@));
                    assert(decreases_to!((*e)->Call_arguments@ => es[i as int]));
                    assert(decreases_to!(*e => es[i as int]));
                }
                match evaluate(&arguments[i], scope, ctx) {
                    Ok(v) => {
                        vals.push(v);
                        proof {
                            assert(vals.deep_view() =~= vals0.push(
                                eval_spec(es[i as int], scope.deep_view(), *ctx)->Ok_0,
                            ));
                            let rest_r = eval_list_spec(
                                es.skip(i as int + 1),
                                scope.deep_view(),
                                *ctx,
                            );
                            if rest_r is Ok {
                                assert(vals.deep_view() + rest_r->Ok_0 =~= vals0 + (seq![
                                    eval_spec(es[i as int], scope.deep_view(), *ctx)->Ok_0,
                                ] + rest_r->Ok_0));
                            }
                        }
                    },
                    Err(m) => {
                        proof {
                            assert(eval_list_spec(es, scope.deep_view(), *ctx) == Err::<
                                Seq<Seq<char>>,
                                Seq<char>,
                            >(m@));
                            assert(eval_spec(*e, scope.deep_view(), *ctx) == Err::<
                                Seq<char>,
                                Seq<char>,
                            >(m@));
                        }
                        return Err(m);
                    },
                }
                i = i + 1;
            }
            proof {
                assert(es.skip(n as int) =~= Seq::<Expression>::empty());
                assert(vals.deep_view() + Seq::<Seq<char>>::empty() =~= vals.deep_view());
            }
            apply(function.as_str(), &vals, ctx)
        },
        Expression::Concat { lhs, rhs } => {
            let l = match evaluate(lhs, scope, ctx) {
                Ok(l) => l,
                Err(m) => {
                    return Err(m);
                },
            };
            let r = match evaluate(rhs, scope, ctx) {
                Ok(r) => r,
                Err(m) => {
                    return Err(m);
                },
            };
            let mut v = l;
            v.append(r.as_str());
            Ok(v)
        },
        Expression::Group { inner } => evaluate(inner, scope, ctx),
    }
}

/// A piece of a recipe body line: literal text, or an interpolation to
/// evaluate.
pub enum Fragment {
    Text { text: String },
    Interpolation { expression: Expression },
}

/// Whether every fragment's backticks name captured outputs.
pub open spec fn wf_fragments(frags: Seq<Fragment>, nticks: int) -> bool
    decreases frags,
{
    if frags.len() == 0 {
        true
    } else {
        (match frags[0] {
            Fragment::Text { .. } => true,
            Fragment::Interpolation { expression } => wf_expression(expression, nticks),
        }) && wf_fragments(frags.drop_first(), nticks)
    }
}

/// What evaluating a line's fragments yields: their values concatenated in
/// order, or the first failure.
pub open spec fn eval_line_spec(
    frags: Seq<Fragment>,
    scope: Seq<(Seq<char>, Seq<char>)>,
    ctx: EvalContext,
) -> Result<Seq<char>, Seq<char>>
    decreases frags,
{
    if frags.len() == 0 {
        Ok(Seq::<char>::empty())
    } else {
        let head = match frags[0] {
            Fragment::Text { text } => Ok::<Seq<char>, Seq<char>>(text@),
            Fragment::Interpolation { expression } => eval_spec(expression, scope, ctx),
        };
        match head {
            Ok(v) => match eval_line_spec(frags.drop_first(), scope, ctx) {
                Ok(rest) => Ok(v + rest),
                Err(m) => Err(m),
            },
            Err(m) => Err(m),
        }
    }
}

/// Evaluates one recipe body line: every fragment in order, concatenated
/// into the command string handed to the shell.
pub fn evaluate_line(
    frags: &Vec<Fragment>,
    scope: &Vec<(String, String)>,
    ctx: &EvalContext,
) -> (r: Result<String, String>)
    requires
        wf_fragments(frags@, ctx.ticks@.len() as int),
    ensures
        match r {
            Ok(v) => eval_line_spec(frags@, scope.deep_view(), *ctx) == Ok::<Seq<char>, Seq<char>>(
                v@,
            ),
            Err(m) => eval_line_spec(frags@, scope.deep_view(), *ctx) == Err::<
                Seq<char>,
                Seq<char>,
            >(m@),
        },
{
    let ghost fv = frags@;
    let mut out = String::new();
    let mut i: usize = 0;
    proof {
        assert(fv.skip(0) =~= fv);
    }
    let n = frags.len();
    while i < n
        invariant
            i <= n == fv.len(),
            fv == frags@,
            wf_fragments(fv.skip(i as int), ctx.ticks@.len() as int),
            eval_line_spec(fv, scope.deep_view(), *ctx) == (match eval_line_spec(
                fv.skip(i as int),
                scope.deep_view(),
                *ctx,
            ) {
                Ok(rest) => Ok::<Seq<char>, Seq<char>>(out@ + rest),
                Err(m) => Err::<Seq<char>, Seq<char>>(m),
            }),
        decreases n - i,
    {
        let ghost out0 = out@;
        let ghost frest = fv.skip(i as int);
        proof {
            assert(frest[0] == fv[i as int]);
            assert(frest.drop_first() =~= fv.skip(i as int + 1));
        }
        match &frags[i] {
            Fragment::Text { text } => {
                out.append(text.as_str());
                proof {
                    let rest_r = eval_line_spec(fv.skip(i as int + 1), scope.deep_view(), *ctx);
                    if rest_r is Ok {
                        assert(out0 + (text@ + rest_r->Ok_0) =~= out@ + rest_r->Ok_0);
                    }
                }
            },
            Fragment::Interpolation { expression } => {
                match evaluate(expression, scope, ctx) {
                    Ok(v) => {
                        out.append(v.as_str());
                        proof {
                            let rest_r = eval_line_spec(
                                fv.skip(i as int + 1),
                                scope.deep_view(),
                                *ctx,
                            );
                            if rest_r is Ok {
                                assert(out0 + (v@ + rest_r->Ok_0) =~= out@ + rest_r->Ok_0);
                            }
                        }
                    },
                    Err(m) => {
                        proof {
                            assert(eval_line_spec(fv, scope.deep_view(), *ctx) == Err::<
                                Seq<char>,
                                Seq<char>,
                            >(m@));
                        }
                        return Err(m);
                    },
                }
            },
        }
        i = i + 1;
    }
    proof {
        assert(fv.skip(n as int) =~= Seq::<Fragment>::empty());
        assert(out@ + Seq::<char>::empty() =~= out@);
    }
    Ok(out)
}

/// Whether `name` is overridden on the command line.
pub open spec fn overridden(overrides: Seq<(String, String)>, name: Seq<char>) -> bool {
    dotenv_value(overrides, name) is Some
}

/// What evaluating the assignments yields, in the given order: each name is
/// bound to its command-line override if it has one — its expression is
/// never evaluated then — and otherwise to its expression's value in the
/// scope built so far.
pub open spec fn scope_spec(
    assignments: Seq<(String, Expression)>,
    overrides: Seq<(String, String)>,
    scope: Seq<(Seq<char>, Seq<char>)>,
    ctx: EvalContext,
) -> Result<Seq<(Seq<char>, Seq<char>)>, Seq<char>>
    decreases assignments,
{
    if assignments.len() == 0 {
        Ok(Seq::<(Seq<char>, Seq<char>)>::empty())
    } else {
        let name = assignments[0].0;
        let head = match dotenv_value(overrides, name@) {
            Some(v) => Ok::<Seq<char>, Seq<char>>(v),
            None => eval_spec(assignments[0].1, scope, ctx),
        };
        match head {
            Ok(v) => {
                match scope_spec(
                    assignments.drop_first(),
                    overrides,
                    scope.push((name@, v)),
                    ctx,
                ) {
                    Ok(rest) => Ok(seq![(name@, v)] + rest),
                    Err(m) => Err(m),
                }
            },
            Err(m) => Err(m),
        }
    }
}

/// An assignment overridden on the command line contributes its override
/// value whatever its expression stands for: replacing that expression —
/// a failing backtick included — changes nothing about the evaluated
/// scope, since an overridden expression is never evaluated.
pub proof fn lemma_override_suppresses_evaluation(
    assignments: Seq<(String, Expression)>,
    overrides: Seq<(String, String)>,
    scope: Seq<(Seq<char>, Seq<char>)>,
    ctx: EvalContext,
    i: int,
    other: Expression,
)
    requires
        0 <= i < assignments.len(),
        overridden(overrides, assignments[i].0@),
    ensures
        scope_spec(assignments.update(i, (assignments[i].0, other)), overrides, scope, ctx)
            == scope_spec(assignments, overrides, scope, ctx),
    decreases assignments.len(),
{
    let a2 = assignments.update(i, (assignments[i].0, other));
    if i == 0 {
        assert(a2[0].0 == assignments[0].0);
        assert(dotenv_value(overrides, assignments[0].0@) is Some);
        assert(a2.drop_first() =~= assignments.drop_first());
    } else {
        assert(a2[0] == assignments[0]);
        let head = match dotenv_value(overrides, assignments[0].0@) {
            Some(v) => Ok::<Seq<char>, Seq<char>>(v),
            None => eval_spec(assignments[0].1, scope, ctx),
        };
        if head is Ok {
            let v = head->Ok_0;
            let scope2 = scope.push((assignments[0].0@, v));
            assert(a2.drop_first() =~= assignments.drop_first().update(
                i - 1,
                (assignments[i].0, other),
            ));
            assert(assignments.drop_first()[i - 1] == assignments[i]);
            lemma_override_suppresses_evaluation(
                assignments.drop_first(),
                overrides,
                scope2,
                ctx,
                i - 1,
                other,
            );
        }
    }
}

/// Whether every assignment's expression is well-formed.
pub open spec fn wf_assignments(assignments: Seq<(String, Expression)>, nticks: int) -> bool
    decreases assignments,
{
    if assignments.len() == 0 {
        true
    } else {
        wf_expression(assignments[0].1, nticks) && wf_assignments(
            assignments.drop_first(),
            nticks,
        )
    }
}

/// Evaluates the top-level assignments, in the given order — dependency
/// order, as the analyzer fixes it — into the scope: an overridden
/// assignment takes its command-line value and its expression is not
/// evaluated; every other assignment is evaluated in the scope built so
/// far.
pub fn evaluate_assignments(
    assignments: &Vec<(String, Expression)>,
    overrides: &Vec<(String, String)>,
    ctx: &EvalContext,
) -> (r: Result<Vec<(String, String)>, String>)
    requires
        wf_assignments(assignments@, ctx.ticks@.len() as int),
    ensures
        match r {
            Ok(scope) => scope_spec(assignments@, overrides@, Seq::empty(), *ctx) == Ok::<
                Seq<(Seq<char>, Seq<char>)>,
                Seq<char>,
            >(scope.deep_view()),
            Err(m) => scope_spec(assignments@, overrides@, Seq::empty(), *ctx) == Err::<
                Seq<(Seq<char>, Seq<char>)>,
                Seq<char>,
            >(m@),
        },
{
    let ghost av = assignments@;
    let mut scope: Vec<(String, String)> = Vec::new();
    let mut i: usize = 0;
    proof {
        assert(av.skip(0) =~= av);
        assert(scope.deep_view() =~= Seq::<(Seq<char>, Seq<char>)>::empty());
    }
    let n = assignments.len();
    while i < n
        invariant
            i <= n == av.len(),
            av == assignments@,
            wf_assignments(av.skip(i as int), ctx.ticks@.len() as int),
            scope.deep_view().len() == i,
            scope_spec(av, overrides@, Seq::empty(), *ctx) == (match scope_spec(
                av.skip(i as int),
                overrides@,
                scope.deep_view(),
                *ctx,
            ) {
                Ok(rest) => Ok::<Seq<(Seq<char>, Seq<char>)>, Seq<char>>(
                    scope.deep_view() + rest,
                ),
                Err(m) => Err::<Seq<(Seq<char>, Seq<char>)>, Seq<char>>(m),
            }),
        decreases n - i,
    {
        let ghost scope0 = scope.deep_view();
        let ghost arest = av.skip(i as int);
        proof {
            assert(arest[0] == av[i as int]);
            assert(arest.drop_first() =~= av.skip(i as int + 1));
        }
        let name = assignments[i].0.clone();
        let value = match dotenv_get(overrides, name.as_str()) {
            Some(v) => v,
            None => {
                match evaluate(&assignments[i].1, &scope, ctx) {
                    Ok(v) => v,
                    Err(m) => {
                        proof {
                            assert(scope_spec(arest, overrides@, scope0, *ctx) == Err::<
                                Seq<(Seq<char>, Seq<char>)>,
                                Seq<char>,
                            >(m@));
                        }
                        return Err(m);
                    },
                }
            },
        };
        scope.push((name, value));
        i = i + 1;
        proof {
            let v = scope.deep_view()[i - 1].1;
            assert(scope.deep_view() =~= scope0.push((av[i - 1].0@, v)));
            let rest_r = scope_spec(av.skip(i as int), overrides@, scope.deep_view(), *ctx);
            assert(scope_spec(arest, overrides@, scope0, *ctx) == (match rest_r {
                Ok(rest) => Ok::<Seq<(Seq<char>, Seq<char>)>, Seq<char>>(seq![
                    (av[i - 1].0@, v),
                ] + rest),
                Err(m) => Err::<Seq<(Seq<char>, Seq<char>)>, Seq<char>>(m),
            }));
            if rest_r is Ok {
                assert(scope.deep_view() + rest_r->Ok_0 =~= scope0 + (seq![(av[i - 1].0@, v)]
                    + rest_r->Ok_0));
            }
        }
    }
    proof {
        assert(av.skip(n as int) =~= Seq::<(String, Expression)>::empty());
        assert(scope.deep_view() + Seq::<(Seq<char>, Seq<char>)>::empty() =~= scope.deep_view());
    }
    Ok(scope)
}

} // verus!
