//! Grouping the command line's positional tokens into recipe invocations.
//!
//! Leading tokens of the form `name=value` are overrides. After them, the
//! tokens are read left to right, greedily: a token naming a known recipe
//! opens an invocation, which takes the following tokens as arguments, as
//! many as the recipe's parameters accept; a token naming no recipe is
//! collected as unknown and reported after the scan.

use vstd::prelude::*;

use crate::binding::{has_variadic, min_args, Parameter};
use crate::binding::{any_variadic, count_required};
use crate::config_error::{count_spec, count_word, or_ticked, or_ticked_spec};
use crate::text::{
    chars_to_string, first_where, lemma_first_where, lemma_first_where_is, str_chars, str_eq_str,
    sub_chars,
};

verus! {

/// A recipe as the command line sees it: its name and its parameters.
pub struct RecipeSig {
    pub name: String,
    pub params: Vec<Parameter>,
}

/// The index of the first recipe named `name`, or `rs.len()` if there is
/// none.
pub open spec fn recipe_index(rs: Seq<RecipeSig>, name: Seq<char>) -> int
    decreases rs.len(),
{
    if rs.len() == 0 {
        0
    } else if rs[0].name@ == name {
        0
    } else {
        1 + recipe_index(rs.drop_first(), name)
    }
}

proof fn lemma_recipe_index(rs: Seq<RecipeSig>, name: Seq<char>)
    ensures
        0 <= recipe_index(rs, name) <= rs.len(),
        forall|j: int| 0 <= j < recipe_index(rs, name) ==> rs[j].name@ != name,
        recipe_index(rs, name) < rs.len() ==> rs[recipe_index(rs, name)].name@ == name,
    decreases rs.len(),
{
    if rs.len() > 0 && rs[0].name@ != name {
        lemma_recipe_index(rs.drop_first(), name);
        assert forall|j: int| 0 <= j < recipe_index(rs, name) implies rs[j].name@ != name by {
            if j >= 1 {
                assert(rs.drop_first()[j - 1] == rs[j]);
            }
        }
        if recipe_index(rs, name) < rs.len() {
            assert(rs.drop_first()[recipe_index(rs.drop_first(), name)] == rs[recipe_index(
                rs,
                name,
            )]);
        }
    }
}

proof fn lemma_recipe_index_is(rs: Seq<RecipeSig>, name: Seq<char>, i: int)
    requires
        0 <= i <= rs.len(),
        forall|j: int| 0 <= j < i ==> rs[j].name@ != name,
        i < rs.len() ==> rs[i].name@ == name,
    ensures
        recipe_index(rs, name) == i,
{
    lemma_recipe_index(rs, name);
    let f = recipe_index(rs, name);
    if f < i {
        assert(rs[f].name@ == name);
        assert(rs[f].name@ != name);
    } else if i < f {
        assert(rs[i].name@ != name);
        assert(rs[i].name@ == name);
    }
}

/// Finds the first recipe named `name`; `rs.len()` means none is.
fn find_recipe(rs: &Vec<RecipeSig>, name: &str) -> (r: usize)
    ensures
        r as int == recipe_index(rs@, name@),
        r <= rs@.len(),
{
    let mut i: usize = 0;
    while i < rs.len()
        invariant
            i <= rs@.len(),
            forall|j: int| 0 <= j < i ==> rs@[j].name@ != name@,
        decreases rs@.len() - i,
    {
        if str_eq_str(rs[i].name.as_str(), name) {
            proof {
                lemma_recipe_index_is(rs@, name@, i as int);
            }
            return i;
        }
        i = i + 1;
    }
    proof {
        lemma_recipe_index_is(rs@, name@, rs@.len() as int);
    }
    i
}

/// How many of the following tokens an invocation of the recipe absorbs: a
/// variadic recipe takes them all, any other at most one per parameter.
pub open spec fn absorbed(params: Seq<Parameter>, remaining: int) -> int {
    if has_variadic(params) {
        remaining
    } else if remaining <= params.len() {
        remaining
    } else {
        params.len() as int
    }
}

/// What grouping the tokens yields: an argument-count error at the first
/// invocation whose absorbed count falls short (the recipe's index and the
/// count), or the invocations (recipe index and argument tokens) and the
/// tokens that named no recipe.
pub open spec fn group_spec(rs: Seq<RecipeSig>, toks: Seq<Seq<char>>) -> (
    Option<(int, int)>,
    Seq<(int, Seq<Seq<char>>)>,
    Seq<Seq<char>>,
)
    decreases toks.len(),
{
    if toks.len() == 0 {
        (None, Seq::<(int, Seq<Seq<char>>)>::empty(), Seq::<Seq<char>>::empty())
    } else {
        let idx = recipe_index(rs, toks[0]);
        if idx == rs.len() {
            combine(
                Seq::<(int, Seq<Seq<char>>)>::empty(),
                seq![toks[0]],
                group_spec(rs, toks.drop_first()),
            )
        } else {
            let params = rs[idx].params@;
            let tail = toks.drop_first();
            let count = absorbed(params, tail.len() as int);
            if count < min_args(params) {
                (
                    Some((idx, count)),
                    Seq::<(int, Seq<Seq<char>>)>::empty(),
                    Seq::<Seq<char>>::empty(),
                )
            } else {
                combine(
                    seq![(idx, tail.take(count))],
                    Seq::<Seq<char>>::empty(),
                    group_spec(rs, tail.skip(count)),
                )
            }
        }
    }
}

/// Prefixes groups and unknown tokens onto a grouping outcome; an error
/// outcome stands as it is.
pub open spec fn combine(
    g0: Seq<(int, Seq<Seq<char>>)>,
    m0: Seq<Seq<char>>,
    rest: (Option<(int, int)>, Seq<(int, Seq<Seq<char>>)>, Seq<Seq<char>>),
) -> (Option<(int, int)>, Seq<(int, Seq<Seq<char>>)>, Seq<Seq<char>>) {
    if rest.0 is Some {
        rest
    } else {
        (None, g0 + rest.1, m0 + rest.2)
    }
}

proof fn lemma_combine_assoc(
    g0: Seq<(int, Seq<Seq<char>>)>,
    m0: Seq<Seq<char>>,
    g1: Seq<(int, Seq<Seq<char>>)>,
    m1: Seq<Seq<char>>,
    rest: (Option<(int, int)>, Seq<(int, Seq<Seq<char>>)>, Seq<Seq<char>>),
)
    ensures
        combine(g0, m0, combine(g1, m1, rest)) == combine(g0 + g1, m0 + m1, rest),
{
    if rest.0 is Some {
    } else {
        assert(g0 + (g1 + rest.1) =~= (g0 + g1) + rest.1);
        assert(m0 + (m1 + rest.2) =~= (m0 + m1) + rest.2);
    }
}

/// The views of collected invocations.
pub open spec fn groups_view(gs: Seq<(usize, Vec<String>)>) -> Seq<(int, Seq<Seq<char>>)> {
    gs.map_values(|p: (usize, Vec<String>)| (p.0 as int, p.1.deep_view()))
}

/// Groups the positional tokens into recipe invocations. On success the
/// invocations come in token order with their argument tokens, alongside
/// the tokens that named no recipe; an invocation left short of arguments
/// is an error naming the recipe and the count it was given.
pub fn group_arguments(rs: &Vec<RecipeSig>, tokens: &Vec<String>) -> (r: Result<
    (Vec<(usize, Vec<String>)>, Vec<String>),
    (usize, crate::binding::ArgumentCountError),
>)
    ensures
        match r {
            Ok(out) => group_spec(rs@, tokens.deep_view()) == (
                None::<(int, int)>,
                groups_view(out.0@),
                out.1.deep_view(),
            ),
            Err(e) => {
                &&& group_spec(rs@, tokens.deep_view()).0 == Some(
                    (e.0 as int, e.1.found as int),
                )
                &&& (e.0 as int) < rs@.len()
                &&& e.1.min == min_args(rs@[e.0 as int].params@)
                &&& e.1.max == (if has_variadic(rs@[e.0 as int].params@) {
                    Option::<usize>::None
                } else {
                    Option::<usize>::Some(rs@[e.0 as int].params@.len() as usize)
                })
            },
        },
{
    let ghost tv = tokens.deep_view();
    let mut groups: Vec<(usize, Vec<String>)> = Vec::new();
    let mut missing: Vec<String> = Vec::new();
    let mut j: usize = 0;
    proof {
        assert(tv.len() == tokens@.len());
        assert(tv.skip(0) =~= tv);
        assert(groups_view(groups@) =~= Seq::<(int, Seq<Seq<char>>)>::empty());
        assert(missing.deep_view() =~= Seq::<Seq<char>>::empty());
        assert(combine(groups_view(groups@), missing.deep_view(), group_spec(rs@, tv))
            =~= group_spec(rs@, tv));
    }
    while j < tokens.len()
        invariant
            j <= tv.len(),
            tv == tokens.deep_view(),
            tv.len() == tokens@.len(),
            group_spec(rs@, tv) == combine(
                groups_view(groups@),
                missing.deep_view(),
                group_spec(rs@, tv.skip(j as int)),
            ),
        decreases tv.len() - j,
    {
        let ghost g0 = groups_view(groups@);
        let ghost m0 = missing.deep_view();
        let ghost trest = tv.skip(j as int);
        proof {
            assert(trest[0] == tv[j as int]);
            assert(tv[j as int] == tokens@[j as int]@);
            assert(trest.drop_first() =~= tv.skip(j as int + 1));
        }
        let idx = find_recipe(rs, tokens[j].as_str());
        if idx == rs.len() {
            missing.push(tokens[j].clone());
            j = j + 1;
            proof {
                let rest = group_spec(rs@, tv.skip(j as int));
                assert(group_spec(rs@, trest) == combine(
                    Seq::<(int, Seq<Seq<char>>)>::empty(),
                    seq![tv[j as int - 1]],
                    rest,
                ));
                lemma_combine_assoc(
                    g0,
                    m0,
                    Seq::<(int, Seq<Seq<char>>)>::empty(),
                    seq![tv[j as int - 1]],
                    rest,
                );
                assert(g0 + Seq::<(int, Seq<Seq<char>>)>::empty() =~= groups_view(groups@));
                assert(m0 + seq![tv[j as int - 1]] =~= missing.deep_view());
            }
        } else {
            let tail_len = tokens.len() - (j + 1);
            let variadic = any_variadic(&rs[idx].params);
            let count = if variadic {
                tail_len
            } else if tail_len <= rs[idx].params.len() {
                tail_len
            } else {
                rs[idx].params.len()
            };
            let required = count_required(&rs[idx].params);
            proof {
                assert(count as int == absorbed(rs@[idx as int].params@, trest.len() - 1));
            }
            if count < required {
                return Err(
                    (
                        idx,
                        crate::binding::ArgumentCountError {
                            found: count,
                            min: required,
                            max: if variadic {
                                None
                            } else {
                                Some(rs[idx].params.len())
                            },
                        },
                    ),
                );
            }
            let group_args = sub_strings(tokens, j + 1, j + 1 + count);
            groups.push((idx, group_args));
            j = j + 1 + count;
            proof {
                let rest = group_spec(rs@, tv.skip(j as int));
                assert(trest.drop_first().take(count as int) =~= tv.subrange(
                    j as int - count,
                    j as int,
                ));
                assert(trest.drop_first().skip(count as int) =~= tv.skip(j as int));
                assert(group_spec(rs@, trest) == combine(
                    seq![(idx as int, trest.drop_first().take(count as int))],
                    Seq::<Seq<char>>::empty(),
                    rest,
                ));
                lemma_combine_assoc(
                    g0,
                    m0,
                    seq![(idx as int, trest.drop_first().take(count as int))],
                    Seq::<Seq<char>>::empty(),
                    rest,
                );
                assert(g0 + seq![(idx as int, trest.drop_first().take(count as int))]
                    =~= groups_view(groups@));
                assert(m0 + Seq::<Seq<char>>::empty() =~= missing.deep_view());
            }
        }
    }
    proof {
        assert(tv.skip(tv.len() as int) =~= Seq::<Seq<char>>::empty());
        let done = group_spec(rs@, tv.skip(tv.len() as int));
        assert(done.0 is None);
        assert(groups_view(groups@) + done.1 =~= groups_view(groups@));
        assert(missing.deep_view() + done.2 =~= missing.deep_view());
    }
    Ok((groups, missing))
}

/// The tokens of `v` from `from` (inclusive) to `to` (exclusive).
fn sub_strings(v: &Vec<String>, from: usize, to: usize) -> (r: Vec<String>)
    requires
        from <= to <= v@.len(),
    ensures
        r.deep_view() == v.deep_view().subrange(from as int, to as int),
{
    let mut r: Vec<String> = Vec::new();
    let mut i: usize = from;
    while i < to
        invariant
            from <= i <= to <= v@.len(),
            r@.len() == i - from,
            forall|k: int| 0 <= k < i - from ==> r@[k]@ == v@[from + k]@,
        decreases to - i,
    {
        r.push(v[i].clone());
        i = i + 1;
    }
    proof {
        let dv = r.deep_view();
        let sv = v.deep_view().subrange(from as int, to as int);
        assert(dv.len() == sv.len());
        assert forall|k: int| 0 <= k < dv.len() implies dv[k] == sv[k] by {
            assert(dv[k] == r@[k]@);
            assert(sv[k] == v.deep_view()[from + k]);
            assert(v.deep_view()[from + k] == v@[from + k]@);
        }
        assert(dv =~= sv);
    }
    r
}

/// The message unknown recipes render to.
pub open spec fn unknown_recipes_spec(names: Seq<Seq<char>>) -> Seq<char> {
    "Justfile does not contain "@ + count_spec("recipe"@, names.len() as int) + " "@
        + or_ticked_spec(names) + "."@
}

/// Renders the message for tokens that named no recipe.
pub fn unknown_recipes_message(names: &Vec<String>) -> (r: String)
    ensures
        r@ == unknown_recipes_spec(names.deep_view()),
{
    let mut r = String::from_str("Justfile does not contain ");
    let noun = count_word("recipe", names.len());
    r.append(noun.as_str());
    r.append(" ");
    let list = or_ticked(names);
    r.append(list.as_str());
    r.append(".");
    proof {
        assert(names.deep_view().len() == names@.len());
        assert(r@ =~= unknown_recipes_spec(names.deep_view()));
    }
    r
}

/// Whether a token is an override: it carries an `=` after a non-empty
/// name.
pub open spec fn is_override_spec(tok: Seq<char>) -> bool {
    tok.len() >= 1 && first_where(tok.drop_first(), eq_p()) < tok.len() - 1
}

/// The predicate selecting an equals sign.
pub open spec fn eq_p() -> spec_fn(char) -> bool {
    |c: char| c == '='
}

/// The override a token splits into: the name before the first `=` past
/// the first character, and the value after it.
pub open spec fn override_spec(tok: Seq<char>) -> (Seq<char>, Seq<char>) {
    let i = 1 + first_where(tok.drop_first(), eq_p());
    (tok.take(i), tok.skip(i + 1))
}

/// The leading overrides among the tokens, and where they stop.
pub open spec fn overrides_end(toks: Seq<Seq<char>>) -> int
    decreases toks.len(),
{
    if toks.len() == 0 || !is_override_spec(toks[0]) {
        0
    } else {
        1 + overrides_end(toks.drop_first())
    }
}

/// Splits a token at its first `=` past the first character, if it has one.
pub(crate) fn split_override(tok: &str) -> (r: Option<(String, String)>)
    ensures
        match r {
            Some(kv) => is_override_spec(tok@) && kv.0@ == override_spec(tok@).0 && kv.1@
                == override_spec(tok@).1,
            None => !is_override_spec(tok@),
        },
{
    let chars = str_chars(tok);
    if chars.len() == 0 {
        return None;
    }
    let mut i: usize = 1;
    while i < chars.len()
        invariant
            1 <= i <= chars@.len(),
            chars@ == tok@,
            forall|j: int| 1 <= j < i ==> chars@[j] != '=',
        decreases chars@.len() - i,
    {
        if chars[i] == '=' {
            proof {
                assert forall|j: int|
                    0 <= j < i - 1 implies !(eq_p())(tok@.drop_first()[j]) by {
                    assert(tok@.drop_first()[j] == tok@[j + 1]);
                }
                assert(tok@.drop_first()[i - 1] == tok@[i as int]);
                lemma_first_where_is(tok@.drop_first(), eq_p(), i - 1);
            }
            let name = sub_chars(&chars, 0, i);
            let value = sub_chars(&chars, i + 1, chars.len());
            proof {
                assert(name@ =~= tok@.take(i as int));
                assert(value@ =~= tok@.skip(i as int + 1));
            }
            return Some((chars_to_string(&name), chars_to_string(&value)));
        }
        i = i + 1;
    }
    proof {
        assert forall|j: int|
            0 <= j < tok@.drop_first().len() implies !(eq_p())(tok@.drop_first()[j]) by {
            assert(tok@.drop_first()[j] == tok@[j + 1]);
        }
        lemma_first_where_is(tok@.drop_first(), eq_p(), tok@.len() - 1);
    }
    None
}

/// Splits the leading `name=value` tokens off as overrides; the remaining
/// tokens, from the first that is no override, are the positional tokens.
pub fn split_overrides(tokens: &Vec<String>) -> (r: (Vec<(String, String)>, Vec<String>))
    ensures
        ({
            let end = overrides_end(tokens.deep_view());
            &&& r.0@.len() == end
            &&& forall|k: int|
                0 <= k < end ==> (#[trigger] r.0@[k]).0@ == override_spec(
                    tokens.deep_view()[k],
                ).0
            &&& forall|k: int|
                0 <= k < end ==> (#[trigger] r.0@[k]).1@ == override_spec(
                    tokens.deep_view()[k],
                ).1
            &&& r.1.deep_view() == tokens.deep_view().skip(end)
        }),
{
    let ghost tv = tokens.deep_view();
    let mut overrides: Vec<(String, String)> = Vec::new();
    let mut i: usize = 0;
    proof {
        assert(tv.len() == tokens@.len());
    }
    while i < tokens.len()
        invariant_except_break
            i <= tv.len(),
            tv == tokens.deep_view(),
            tv.len() == tokens@.len(),
            overrides@.len() == i,
            forall|k: int| #![trigger tv[k]] 0 <= k < i ==> is_override_spec(tv[k]),
            forall|k: int|
                0 <= k < i ==> (#[trigger] overrides@[k]).0@ == override_spec(tv[k]).0,
            forall|k: int|
                0 <= k < i ==> (#[trigger] overrides@[k]).1@ == override_spec(tv[k]).1,
        ensures
            i <= tv.len(),
            tv == tokens.deep_view(),
            tv.len() == tokens@.len(),
            overrides@.len() == i,
            forall|k: int| #![trigger tv[k]] 0 <= k < i ==> is_override_spec(tv[k]),
            forall|k: int|
                0 <= k < i ==> (#[trigger] overrides@[k]).0@ == override_spec(tv[k]).0,
            forall|k: int|
                0 <= k < i ==> (#[trigger] overrides@[k]).1@ == override_spec(tv[k]).1,
            i < tv.len() ==> !is_override_spec(tv[i as int]),
        decreases tv.len() - i,
    {
        proof {
            assert(tv[i as int] == tokens@[i as int]@);
        }
        match split_override(tokens[i].as_str()) {
            Some(kv) => {
                overrides.push(kv);
                proof {
                    assert(overrides@[i as int] == kv);
                }
            },
            None => {
                break;
            },
        }
        i = i + 1;
    }
    proof {
        lemma_overrides_end_is(tv, i as int);
    }
    let rest = sub_strings(tokens, i, tokens.len());
    proof {
        assert(tv.subrange(i as int, tv.len() as int) =~= tv.skip(i as int));
    }
    (overrides, rest)
}

/// `overrides_end` is the first index whose token is no override.
proof fn lemma_overrides_end_is(toks: Seq<Seq<char>>, i: int)
    requires
        0 <= i <= toks.len(),
        forall|k: int| 0 <= k < i ==> is_override_spec(#[trigger] toks[k]),
        i < toks.len() ==> !is_override_spec(toks[i]),
    ensures
        overrides_end(toks) == i,
    decreases toks.len(),
{
    if toks.len() == 0 {
    } else if i == 0 {
    } else {
        assert(is_override_spec(toks[0]));
        assert forall|k: int| 0 <= k < i - 1 implies is_override_spec(
            #[trigger] toks.drop_first()[k],
        ) by {
            assert(toks.drop_first()[k] == toks[k + 1]);
        }
        if i - 1 < toks.drop_first().len() {
            assert(toks.drop_first()[i - 1] == toks[i]);
        }
        lemma_overrides_end_is(toks.drop_first(), i - 1);
    }
}

} // verus!
