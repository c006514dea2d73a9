//! Binding a recipe's positional arguments to its parameters.
//!
//! Arguments are taken left to right. A parameter without a default must
//! receive an argument; a parameter with a default uses it only when no
//! arguments remain; a variadic parameter absorbs every remaining argument,
//! joined by single spaces. Binding succeeds exactly for the valid argument
//! counts, and otherwise reports the count the recipe takes.

use vstd::prelude::*;

use crate::config_error::count_spec;
use crate::config_error::count_word;
use crate::text::{dec_spec, dec_string};

verus! {

/// A recipe parameter: a name, an optional default value, and whether the
/// parameter absorbs all remaining arguments.
pub struct Parameter {
    pub name: String,
    pub default: Option<String>,
    pub variadic: bool,
}

/// How many arguments the parameters require: one for each parameter without
/// a default.
pub open spec fn min_args(params: Seq<Parameter>) -> int
    decreases params.len(),
{
    if params.len() == 0 {
        0
    } else {
        (if params[0].default is None {
            1int
        } else {
            0int
        }) + min_args(params.drop_first())
    }
}

/// Whether some parameter absorbs all remaining arguments.
pub open spec fn has_variadic(params: Seq<Parameter>) -> bool {
    exists|i: int| 0 <= i < params.len() && params[i].variadic
}

/// Whether `n` arguments can be bound to the parameters.
pub open spec fn count_ok(params: Seq<Parameter>, n: int) -> bool {
    min_args(params) <= n && (has_variadic(params) || n <= params.len())
}

/// The arguments joined by single spaces.
pub open spec fn join_spaces(args: Seq<Seq<char>>) -> Seq<char>
    decreases args.len(),
{
    if args.len() == 0 {
        Seq::<char>::empty()
    } else if args.len() == 1 {
        args[0]
    } else {
        args[0] + " "@ + join_spaces(args.drop_first())
    }
}

/// A parameter's default value, or the empty string if it has none.
pub open spec fn default_view(p: Parameter) -> Seq<char> {
    match p.default {
        Some(d) => d@,
        None => Seq::<char>::empty(),
    }
}

/// The name-to-value bindings that the arguments produce, taken left to
/// right: a variadic parameter absorbs every remaining argument, any other
/// parameter takes the next one, and a parameter falls back to its default
/// once no arguments remain.
pub open spec fn bind_spec(params: Seq<Parameter>, args: Seq<Seq<char>>) -> Seq<
    (Seq<char>, Seq<char>),
>
    decreases params.len(),
{
    if params.len() == 0 {
        Seq::<(Seq<char>, Seq<char>)>::empty()
    } else if args.len() == 0 {
        seq![(params[0].name@, default_view(params[0]))] + bind_spec(
            params.drop_first(),
            args,
        )
    } else if params[0].variadic {
        seq![(params[0].name@, join_spaces(args))] + bind_spec(
            params.drop_first(),
            args.skip(args.len() as int),
        )
    } else {
        seq![(params[0].name@, args[0])] + bind_spec(params.drop_first(), args.drop_first())
    }
}

/// The argument count did not fit the parameters: `found` were given, at
/// least `min` and at most `max` (no bound when `max` is `None`) are taken.
#[derive(Debug)]
pub struct ArgumentCountError {
    pub found: usize,
    pub min: usize,
    pub max: Option<usize>,
}

/// Counts the parameters without a default.
pub(crate) fn count_required(params: &Vec<Parameter>) -> (n: usize)
    ensures
        n == min_args(params@),
{
    let mut n: usize = 0;
    let mut i: usize = 0;
    proof {
        assert(params@.skip(0) =~= params@);
    }
    while i < params.len()
        invariant
            i <= params@.len(),
            n <= i,
            min_args(params@) == n + min_args(params@.skip(i as int)),
        decreases params@.len() - i,
    {
        proof {
            assert(params@.skip(i as int)[0] == params@[i as int]);
            assert(params@.skip(i as int).drop_first() =~= params@.skip(i as int + 1));
        }
        if params[i].default.is_none() {
            n = n + 1;
        }
        i = i + 1;
    }
    proof {
        assert(params@.skip(params@.len() as int) =~= Seq::<Parameter>::empty());
    }
    n
}

/// Whether some parameter is variadic.
pub(crate) fn any_variadic(params: &Vec<Parameter>) -> (r: bool)
    ensures
        r == has_variadic(params@),
{
    let mut i: usize = 0;
    while i < params.len()
        invariant
            i <= params@.len(),
            forall|j: int| 0 <= j < i ==> !params@[j].variadic,
        decreases params@.len() - i,
    {
        if params[i].variadic {
            return true;
        }
        i = i + 1;
    }
    false
}

/// Joins the arguments from `from` on with single spaces.
fn join_rest(args: &Vec<String>, from: usize) -> (r: String)
    requires
        from <= args@.len(),
    ensures
        r@ == join_spaces(args.deep_view().skip(from as int)),
{
    let ghost av = args.deep_view();
    proof {
        assert(av.len() == args@.len());
    }
    if from == args.len() {
        proof {
            assert(av.skip(from as int) =~= Seq::<Seq<char>>::empty());
        }
        return String::new();
    }
    let mut r = String::from_str(args[from].as_str());
    proof {
        assert(av.skip(from as int)[0] == av[from as int]);
        assert(av[from as int] == args@[from as int]@);
        lemma_join_tail(av.skip(from as int));
        assert(av.skip(from as int).drop_first() =~= av.skip(from as int + 1));
    }
    let mut i: usize = from + 1;
    while i < args.len()
        invariant
            from < i <= args@.len(),
            av == args.deep_view(),
            av.len() == args@.len(),
            join_spaces(av.skip(from as int)) == r@ + tail_spaces(av.skip(i as int)),
        decreases args@.len() - i,
    {
        let ghost r0 = r@;
        proof {
            assert(av.skip(i as int)[0] == av[i as int]);
            assert(av[i as int] == args@[i as int]@);
            assert(av.skip(i as int).drop_first() =~= av.skip(i as int + 1));
        }
        r.append(" ");
        r.append(args[i].as_str());
        proof {
            let x = tail_spaces(av.skip(i as int + 1));
            assert(tail_spaces(av.skip(i as int)) == " "@ + av[i as int] + x);
            assert(r@ + x =~= r0 + (" "@ + av[i as int] + x));
        }
        i = i + 1;
    }
    proof {
        assert(av.skip(args@.len() as int) =~= Seq::<Seq<char>>::empty());
        assert(r@ + Seq::<char>::empty() =~= r@);
    }
    r
}

/// What follows the first argument in a space-joined rendering.
pub open spec fn tail_spaces(rest: Seq<Seq<char>>) -> Seq<char>
    decreases rest.len(),
{
    if rest.len() == 0 {
        Seq::<char>::empty()
    } else {
        " "@ + rest[0] + tail_spaces(rest.drop_first())
    }
}

/// `join_spaces` splits into its first argument and the space-prefixed rest.
proof fn lemma_join_tail(args: Seq<Seq<char>>)
    requires
        args.len() > 0,
    ensures
        join_spaces(args) == args[0] + tail_spaces(args.drop_first()),
    decreases args.len(),
{
    if args.len() == 1 {
        assert(tail_spaces(args.drop_first()) == Seq::<char>::empty());
        assert(args[0] + Seq::<char>::empty() =~= args[0]);
    } else {
        lemma_join_tail(args.drop_first());
        let rest = args.drop_first();
        assert(join_spaces(args) == args[0] + " "@ + join_spaces(rest));
        assert(join_spaces(rest) == rest[0] + tail_spaces(rest.drop_first()));
        assert(tail_spaces(rest) == " "@ + rest[0] + tail_spaces(rest.drop_first()));
        assert(args[0] + " "@ + (rest[0] + tail_spaces(rest.drop_first())) =~= args[0] + (" "@
            + rest[0] + tail_spaces(rest.drop_first())));
    }
}

/// Binds the positional arguments to the parameters, or reports how many
/// arguments the recipe takes. Binding succeeds exactly when the count is
/// valid: at least one argument per parameter without a default, and no more
/// arguments than parameters unless one is variadic.
pub fn bind(params: &Vec<Parameter>, args: &Vec<String>) -> (r: Result<
    Vec<(String, String)>,
    ArgumentCountError,
>)
    ensures
        r is Ok <==> count_ok(params@, args@.len() as int),
        r is Ok ==> r->Ok_0.deep_view() == bind_spec(params@, args.deep_view()),
        r is Err ==> {
            &&& r->Err_0.found == args@.len()
            &&& r->Err_0.min == min_args(params@)
            &&& r->Err_0.max == (if has_variadic(params@) {
                Option::<usize>::None
            } else {
                Option::<usize>::Some(params@.len() as usize)
            })
        },
{
    let required = count_required(params);
    let variadic = any_variadic(params);
    if args.len() < required || (!variadic && args.len() > params.len()) {
        return Err(
            ArgumentCountError {
                found: args.len(),
                min: required,
                max: if variadic {
                    None
                } else {
                    Some(params.len())
                },
            },
        );
    }
    let ghost pv = params@;
    let ghost av = args.deep_view();
    let mut out: Vec<(String, String)> = Vec::new();
    let mut i: usize = 0;
    let mut j: usize = 0;
    proof {
        assert(av.len() == args@.len());
        assert(pv.skip(0) =~= pv);
        assert(av.skip(0) =~= av);
        assert(out.deep_view() =~= Seq::<(Seq<char>, Seq<char>)>::empty());
        assert(bind_spec(pv, av) =~= out.deep_view() + bind_spec(pv.skip(0), av.skip(0)));
    }
    while i < params.len()
        invariant
            i <= pv.len(),
            j <= av.len(),
            pv == params@,
            av == args.deep_view(),
            av.len() == args@.len(),
            bind_spec(pv, av) == out.deep_view() + bind_spec(pv.skip(i as int), av.skip(j as int)),
        decreases pv.len() - i,
    {
        let ghost out0 = out.deep_view();
        let ghost prest = pv.skip(i as int);
        let ghost arest = av.skip(j as int);
        proof {
            assert(prest[0] == pv[i as int]);
            assert(prest.drop_first() =~= pv.skip(i as int + 1));
        }
        let name = params[i].name.clone();
        if j >= args.len() {
            let value = match &params[i].default {
                Some(d) => d.clone(),
                None => String::new(),
            };
            out.push((name, value));
            proof {
                assert(arest.len() == 0);
                assert(arest =~= Seq::<Seq<char>>::empty());
                let x = bind_spec(pv.skip(i as int + 1), arest);
                assert(bind_spec(prest, arest) == seq![(pv[i as int].name@, default_view(
                    pv[i as int],
                ))] + x);
                assert(out.deep_view() =~= out0.push(
                    (pv[i as int].name@, default_view(pv[i as int])),
                ));
                assert(out.deep_view() + x =~= out0 + (seq![(pv[i as int].name@, default_view(
                    pv[i as int],
                ))] + x));
            }
        } else if params[i].variadic {
            let value = join_rest(args, j);
            out.push((name, value));
            j = args.len();
            proof {
                assert(arest.len() > 0);
                let x = bind_spec(pv.skip(i as int + 1), arest.skip(arest.len() as int));
                assert(bind_spec(prest, arest) == seq![(pv[i as int].name@, join_spaces(arest))]
                    + x);
                assert(arest.skip(arest.len() as int) =~= av.skip(j as int));
                assert(bind_spec(pv.skip(i as int + 1), arest.skip(arest.len() as int))
                    == bind_spec(pv.skip(i as int + 1), av.skip(j as int)));
                assert(out.deep_view() =~= out0.push((pv[i as int].name@, join_spaces(arest))));
                assert(out.deep_view() + x =~= out0 + (seq![(pv[i as int].name@, join_spaces(
                    arest,
                ))] + x));
            }
        } else {
            let value = args[j].clone();
            out.push((name, value));
            j = j + 1;
            proof {
                assert(arest.len() > 0);
                assert(arest[0] == av[j as int - 1]);
                assert(av[j as int - 1] == args@[j as int - 1]@);
                assert(arest.drop_first() =~= av.skip(j as int));
                let x = bind_spec(pv.skip(i as int + 1), av.skip(j as int));
                assert(bind_spec(prest, arest) == seq![(pv[i as int].name@, arest[0])] + x);
                assert(out.deep_view() =~= out0.push((pv[i as int].name@, arest[0])));
                assert(out.deep_view() + x =~= out0 + (seq![(pv[i as int].name@, arest[0])] + x));
            }
        }
        i = i + 1;
    }
    proof {
        assert(pv.skip(pv.len() as int) =~= Seq::<Parameter>::empty());
        assert(bind_spec(pv.skip(pv.len() as int), av.skip(j as int)) =~= Seq::<
            (Seq<char>, Seq<char>),
        >::empty());
        assert(out.deep_view() + Seq::<(Seq<char>, Seq<char>)>::empty() =~= out.deep_view());
    }
    Ok(out)
}

/// The message an argument-count mismatch renders to: how many arguments
/// were given and how many the recipe takes.
pub open spec fn count_message_spec(recipe: Seq<char>, found: int, min: int, max: Option<usize>)
    -> Seq<char> {
    let head = "Recipe `"@ + recipe + "` got "@ + dec_spec(found) + " "@ + count_spec(
        "argument"@,
        found,
    );
    match max {
        Some(m) => {
            if min == m && found > m {
                head + " but only takes "@ + dec_spec(m as int)
            } else if min == m {
                head + " but takes "@ + dec_spec(m as int)
            } else if found < min {
                head + " but takes at least "@ + dec_spec(min)
            } else {
                head + " but takes at most "@ + dec_spec(m as int)
            }
        },
        None => head + " but takes at least "@ + dec_spec(min),
    }
}

impl ArgumentCountError {
    /// Renders this error's message for the recipe named `recipe`.
    pub fn message(&self, recipe: &str) -> (r: String)
        ensures
            r@ == count_message_spec(recipe@, self.found as int, self.min as int, self.max),
    {
        let mut r = String::from_str("Recipe `");
        r.append(recipe);
        r.append("` got ");
        let found = dec_string(self.found as u64);
        r.append(found.as_str());
        r.append(" ");
        let noun = count_word("argument", self.found);
        r.append(noun.as_str());
        match self.max {
            Some(m) => {
                if self.min == m && self.found > m {
                    r.append(" but only takes ");
                    let shown = dec_string(m as u64);
                    r.append(shown.as_str());
                } else if self.min == m {
                    r.append(" but takes ");
                    let shown = dec_string(m as u64);
                    r.append(shown.as_str());
                } else if self.found < self.min {
                    r.append(" but takes at least ");
                    let shown = dec_string(self.min as u64);
                    r.append(shown.as_str());
                } else {
                    r.append(" but takes at most ");
                    let shown = dec_string(m as u64);
                    r.append(shown.as_str());
                }
            },
            None => {
                r.append(" but takes at least ");
                let shown = dec_string(self.min as u64);
                r.append(shown.as_str());
            },
        }
        proof {
            assert(r@ =~= count_message_spec(
                recipe@,
                self.found as int,
                self.min as int,
                self.max,
            ));
        }
        r
    }
}

} // verus!
