//! Static checks on the analyzed buildfile.
//!
//! Recipe names must be unique. Dependency names must resolve to known
//! recipes, each named once, and a dependency may not take parameters;
//! resolution yields the index graph that dependency planning walks.
//! Parameter names must be unique within their recipe and must not shadow
//! a top-level assignment; no required parameter may follow one with a
//! default; and nothing may follow a variadic parameter. In each check the
//! first offence, in declaration order, is the error reported.

use vstd::prelude::*;

use crate::binding::Parameter;
use crate::text::{dec_string, dec_spec, msg3, str_eq_str};

verus! {

/// A recipe as dependency resolution sees it: its name, the line it is
/// defined on, how many parameters it takes, and the names it depends on.
pub struct RecipeDecl {
    pub name: String,
    pub line: u64,
    pub num_params: usize,
    pub deps: Vec<String>,
}

/// The index of the first declaration named `name`, or `decls.len()` if
/// there is none.
pub open spec fn decl_index(decls: Seq<RecipeDecl>, name: Seq<char>) -> int
    decreases decls.len(),
{
    if decls.len() == 0 {
        0
    } else if decls[0].name@ == name {
        0
    } else {
        1 + decl_index(decls.drop_first(), name)
    }
}

proof fn lemma_decl_index_is(decls: Seq<RecipeDecl>, name: Seq<char>, i: int)
    requires
        0 <= i <= decls.len(),
        forall|j: int| 0 <= j < i ==> decls[j].name@ != name,
        i < decls.len() ==> decls[i].name@ == name,
    ensures
        decl_index(decls, name) == i,
    decreases decls.len(),
{
    if decls.len() > 0 && decls[0].name@ != name {
        assert forall|j: int|
            0 <= j < i - 1 implies decls.drop_first()[j].name@ != name by {
            assert(decls.drop_first()[j] == decls[j + 1]);
        }
        if i - 1 < decls.drop_first().len() {
            assert(decls.drop_first()[i - 1] == decls[i]);
        }
        lemma_decl_index_is(decls.drop_first(), name, i - 1);
    }
}

/// Finds the first declaration named `name`; `decls.len()` means none is.
fn find_decl(decls: &Vec<RecipeDecl>, name: &str) -> (r: usize)
    ensures
        r as int == decl_index(decls@, name@),
        r <= decls@.len(),
{
    let mut i: usize = 0;
    while i < decls.len()
        invariant
            i <= decls@.len(),
            forall|j: int| 0 <= j < i ==> decls@[j].name@ != name@,
        decreases decls@.len() - i,
    {
        if str_eq_str(decls[i].name.as_str(), name) {
            proof {
                lemma_decl_index_is(decls@, name@, i as int);
            }
            return i;
        }
        i = i + 1;
    }
    proof {
        lemma_decl_index_is(decls@, name@, decls@.len() as int);
    }
    i
}

/// The resolution of one recipe's dependency names, scanned in order with
/// the names already resolved: each must be new, must name a known recipe,
/// and that recipe must take no parameters.
pub open spec fn resolve_deps_spec(
    decls: Seq<RecipeDecl>,
    recipe: Seq<char>,
    deps: Seq<String>,
    seen: Seq<String>,
) -> Result<Seq<int>, Seq<char>>
    decreases deps.len(),
{
    if deps.len() == 0 {
        Ok(Seq::<int>::empty())
    } else {
        let d = deps[0]@;
        if name_in(seen, d) {
            Err("Recipe `"@ + recipe + "` has duplicate dependency `"@ + d + "`"@)
        } else {
            let k = decl_index(decls, d);
            if k == decls.len() {
                Err("Recipe `"@ + recipe + "` has unknown dependency `"@ + d + "`"@)
            } else if decls[k].num_params != 0 {
                Err(
                    "Recipe `"@ + recipe + "` depends on `"@ + d
                        + "` which requires arguments. Dependencies may not require arguments"@,
                )
            } else {
                match resolve_deps_spec(decls, recipe, deps.drop_first(), seen.push(deps[0])) {
                    Ok(rest) => Ok(seq![k] + rest),
                    Err(m) => Err(m),
                }
            }
        }
    }
}

/// The resolution of every recipe's dependencies, in declaration order:
/// the first offence is the error, and otherwise recipe `i` depends on the
/// recipes at the listed indexes.
pub open spec fn resolve_all_spec(decls: Seq<RecipeDecl>, full: Seq<RecipeDecl>) -> Result<
    Seq<Seq<int>>,
    Seq<char>,
>
    decreases decls.len(),
{
    if decls.len() == 0 {
        Ok(Seq::<Seq<int>>::empty())
    } else {
        match resolve_deps_spec(full, decls[0].name@, decls[0].deps@, Seq::<String>::empty()) {
            Ok(first) => match resolve_all_spec(decls.drop_first(), full) {
                Ok(rest) => Ok(seq![first] + rest),
                Err(m) => Err(m),
            },
            Err(m) => Err(m),
        }
    }
}

/// The index view of a resolved dependency graph.
pub open spec fn graph_view(g: Seq<Vec<usize>>) -> Seq<Seq<int>> {
    g.map_values(|d: Vec<usize>| d@.map_values(|u: usize| u as int))
}

/// Resolves one recipe's dependency names against the declarations.
fn resolve_deps(decls: &Vec<RecipeDecl>, recipe: &RecipeDecl) -> (r: Result<Vec<usize>, String>)
    ensures
        match r {
            Ok(out) => resolve_deps_spec(
                decls@,
                recipe.name@,
                recipe.deps@,
                Seq::<String>::empty(),
            ) == Ok::<Seq<int>, Seq<char>>(out@.map_values(|u: usize| u as int)),
            Err(m) => resolve_deps_spec(
                decls@,
                recipe.name@,
                recipe.deps@,
                Seq::<String>::empty(),
            ) == Err::<Seq<int>, Seq<char>>(m@),
        },
{
    let ghost dv = recipe.deps@;
    let mut out: Vec<usize> = Vec::new();
    let mut i: usize = 0;
    proof {
        assert(dv.skip(0) =~= dv);
        assert(dv.take(0) =~= Seq::<String>::empty());
        assert(out@.map_values(|u: usize| u as int) =~= Seq::<int>::empty());
    }
    while i < recipe.deps.len()
        invariant
            i <= dv.len(),
            dv == recipe.deps@,
            out@.len() == i,
            resolve_deps_spec(decls@, recipe.name@, dv, Seq::<String>::empty()) == (
            match resolve_deps_spec(decls@, recipe.name@, dv.skip(i as int), dv.take(i as int)) {
                Ok(rest) => Ok::<Seq<int>, Seq<char>>(out@.map_values(|u: usize| u as int)
                    + rest),
                Err(m) => Err::<Seq<int>, Seq<char>>(m),
            }),
        decreases dv.len() - i,
    {
        let ghost out0 = out@.map_values(|u: usize| u as int);
        let ghost drest = dv.skip(i as int);
        proof {
            assert(drest[0] == dv[i as int]);
            assert(drest.drop_first() =~= dv.skip(i as int + 1));
            assert(dv.take(i as int).push(dv[i as int]) =~= dv.take(i as int + 1));
        }
        let name = recipe.deps[i].as_str();
        if earlier_dep_named(&recipe.deps, i, name) {
            let mut m = msg3("Recipe `", recipe.name.as_str(), "` has duplicate dependency `");
            m.append(name);
            m.append("`");
            return Err(m);
        }
        let k = find_decl(decls, name);
        if k == decls.len() {
            let mut m = msg3("Recipe `", recipe.name.as_str(), "` has unknown dependency `");
            m.append(name);
            m.append("`");
            return Err(m);
        }
        if decls[k].num_params != 0 {
            let mut m = msg3("Recipe `", recipe.name.as_str(), "` depends on `");
            m.append(name);
            m.append("` which requires arguments. Dependencies may not require arguments");
            return Err(m);
        }
        out.push(k);
        i = i + 1;
        proof {
            assert(out@.map_values(|u: usize| u as int) =~= out0.push(k as int));
            let rest_r = resolve_deps_spec(
                decls@,
                recipe.name@,
                dv.skip(i as int),
                dv.take(i as int),
            );
            if rest_r is Ok {
                assert(out@.map_values(|u: usize| u as int) + rest_r->Ok_0 =~= out0 + (seq![
                    k as int,
                ] + rest_r->Ok_0));
            }
        }
    }
    proof {
        assert(dv.skip(dv.len() as int) =~= Seq::<String>::empty());
        assert(out@.map_values(|u: usize| u as int) + Seq::<int>::empty() =~= out@.map_values(
            |u: usize| u as int,
        ));
    }
    Ok(out)
}

/// Whether an earlier dependency (below index `i`) bears `name`.
fn earlier_dep_named(deps: &Vec<String>, i: usize, name: &str) -> (r: bool)
    requires
        i <= deps@.len(),
    ensures
        r == name_in(deps@.take(i as int), name@),
{
    let mut j: usize = 0;
    while j < i
        invariant
            j <= i <= deps@.len(),
            forall|k: int| 0 <= k < j ==> deps@[k]@ != name@,
        decreases i - j,
    {
        if str_eq_str(deps[j].as_str(), name) {
            proof {
                assert(deps@.take(i as int)[j as int] == deps@[j as int]);
            }
            return true;
        }
        j = j + 1;
    }
    proof {
        assert forall|k: int|
            0 <= k < deps@.take(i as int).len() implies deps@.take(i as int)[k]@ != name@ by {
            assert(deps@.take(i as int)[k] == deps@[k]);
        }
    }
    false
}

/// Resolves every recipe's dependency names into the index graph that
/// dependency planning walks: recipe `i` depends on the recipes listed in
/// entry `i`. The first unknown, duplicate, or parameterized dependency,
/// in declaration order, is the error.
pub fn resolve_dependencies(decls: &Vec<RecipeDecl>) -> (r: Result<Vec<Vec<usize>>, String>)
    ensures
        match r {
            Ok(g) => resolve_all_spec(decls@, decls@) == Ok::<Seq<Seq<int>>, Seq<char>>(
                graph_view(g@),
            ),
            Err(m) => resolve_all_spec(decls@, decls@) == Err::<Seq<Seq<int>>, Seq<char>>(m@),
        },
{
    let ghost av = decls@;
    let mut g: Vec<Vec<usize>> = Vec::new();
    let mut i: usize = 0;
    proof {
        assert(av.skip(0) =~= av);
        assert(graph_view(g@) =~= Seq::<Seq<int>>::empty());
    }
    while i < decls.len()
        invariant
            i <= av.len(),
            av == decls@,
            g@.len() == i,
            resolve_all_spec(av, av) == (match resolve_all_spec(av.skip(i as int), av) {
                Ok(rest) => Ok::<Seq<Seq<int>>, Seq<char>>(graph_view(g@) + rest),
                Err(m) => Err::<Seq<Seq<int>>, Seq<char>>(m),
            }),
        decreases av.len() - i,
    {
        let ghost g0 = graph_view(g@);
        let ghost arest = av.skip(i as int);
        proof {
            assert(arest[0] == av[i as int]);
            assert(arest.drop_first() =~= av.skip(i as int + 1));
        }
        match resolve_deps(decls, &decls[i]) {
            Ok(entry) => {
                let ghost ev = entry@.map_values(|u: usize| u as int);
                g.push(entry);
                proof {
                    assert(graph_view(g@) =~= g0.push(ev));
                    let rest_r = resolve_all_spec(av.skip(i as int), av);
                    let tail_r = resolve_all_spec(av.skip(i as int + 1), av);
                    if tail_r is Ok {
                        assert(graph_view(g@) + tail_r->Ok_0 =~= g0 + (seq![ev]
                            + tail_r->Ok_0));
                    }
                }
            },
            Err(m) => {
                return Err(m);
            },
        }
        i = i + 1;
    }
    proof {
        assert(av.skip(av.len() as int) =~= Seq::<RecipeDecl>::empty());
        assert(graph_view(g@) + Seq::<Seq<int>>::empty() =~= graph_view(g@));
    }
    Ok(g)
}

/// The first redefined recipe, scanning in declaration order: a name seen
/// twice is the error, naming both lines.
pub open spec fn duplicate_recipe_spec(decls: Seq<RecipeDecl>, full: Seq<RecipeDecl>, start: int)
    -> Option<Seq<char>>
    decreases decls.len(),
{
    if decls.len() == 0 {
        None
    } else {
        let first = decl_index(full, decls[0].name@);
        if first < start {
            Some(
                "Recipe `"@ + decls[0].name@ + "` first defined on line "@ + dec_spec(
                    full[first].line as int,
                ) + " is redefined on line "@ + dec_spec(decls[0].line as int),
            )
        } else {
            duplicate_recipe_spec(decls.drop_first(), full, start + 1)
        }
    }
}

/// Checks that no recipe is defined twice; the first redefinition, in
/// declaration order, is the error.
pub fn check_duplicate_recipes(decls: &Vec<RecipeDecl>) -> (r: Result<(), String>)
    ensures
        match r {
            Ok(_) => duplicate_recipe_spec(decls@, decls@, 0) is None,
            Err(m) => duplicate_recipe_spec(decls@, decls@, 0) == Some(m@),
        },
{
    let ghost av = decls@;
    let mut i: usize = 0;
    proof {
        assert(av.skip(0) =~= av);
    }
    while i < decls.len()
        invariant
            i <= av.len(),
            av == decls@,
            duplicate_recipe_spec(av, av, 0) == duplicate_recipe_spec(
                av.skip(i as int),
                av,
                i as int,
            ),
        decreases av.len() - i,
    {
        let ghost arest = av.skip(i as int);
        proof {
            assert(arest[0] == av[i as int]);
            assert(arest.drop_first() =~= av.skip(i as int + 1));
        }
        let first = find_decl(decls, decls[i].name.as_str());
        if first < i {
            let mut m = msg3("Recipe `", decls[i].name.as_str(), "` first defined on line ");
            let shown = dec_string(decls[first].line);
            m.append(shown.as_str());
            m.append(" is redefined on line ");
            let again = dec_string(decls[i].line);
            m.append(again.as_str());
            proof {
                assert(m@ =~= duplicate_recipe_spec(arest, av, i as int)->0);
            }
            return Err(m);
        }
        proof {
            assert(first as int >= i);
        }
        i = i + 1;
    }
    proof {
        assert(av.skip(av.len() as int) =~= Seq::<RecipeDecl>::empty());
    }
    Ok(())
}

/// An alias as the checks see it: its name, its target recipe's name, and
/// the line it is defined on.
pub struct AliasDecl {
    pub name: String,
    pub target: String,
    pub line: u64,
}

/// The index of the first alias named `name`, or `aliases.len()` if there
/// is none.
pub open spec fn alias_index(aliases: Seq<AliasDecl>, name: Seq<char>) -> int
    decreases aliases.len(),
{
    if aliases.len() == 0 {
        0
    } else if aliases[0].name@ == name {
        0
    } else {
        1 + alias_index(aliases.drop_first(), name)
    }
}

proof fn lemma_alias_index_is(aliases: Seq<AliasDecl>, name: Seq<char>, i: int)
    requires
        0 <= i <= aliases.len(),
        forall|j: int| 0 <= j < i ==> aliases[j].name@ != name,
        i < aliases.len() ==> aliases[i].name@ == name,
    ensures
        alias_index(aliases, name) == i,
    decreases aliases.len(),
{
    if aliases.len() > 0 && aliases[0].name@ != name {
        assert forall|j: int|
            0 <= j < i - 1 implies aliases.drop_first()[j].name@ != name by {
            assert(aliases.drop_first()[j] == aliases[j + 1]);
        }
        if i - 1 < aliases.drop_first().len() {
            assert(aliases.drop_first()[i - 1] == aliases[i]);
        }
        lemma_alias_index_is(aliases.drop_first(), name, i - 1);
    }
}

/// Finds the first alias named `name`; `aliases.len()` means none is.
fn find_alias(aliases: &Vec<AliasDecl>, name: &str) -> (r: usize)
    ensures
        r as int == alias_index(aliases@, name@),
        r <= aliases@.len(),
{
    let mut i: usize = 0;
    while i < aliases.len()
        invariant
            i <= aliases@.len(),
            forall|j: int| 0 <= j < i ==> aliases@[j].name@ != name@,
        decreases aliases@.len() - i,
    {
        if str_eq_str(aliases[i].name.as_str(), name) {
            proof {
                lemma_alias_index_is(aliases@, name@, i as int);
            }
            return i;
        }
        i = i + 1;
    }
    proof {
        lemma_alias_index_is(aliases@, name@, aliases@.len() as int);
    }
    i
}

/// The first alias error, scanning in declaration order: a redefined
/// alias, then one shadowing a recipe of its own name, then one whose
/// target is unknown.
pub open spec fn alias_error_spec(
    rest: Seq<AliasDecl>,
    full: Seq<AliasDecl>,
    recipes: Seq<RecipeDecl>,
    start: int,
) -> Option<Seq<char>>
    decreases rest.len(),
{
    if rest.len() == 0 {
        None
    } else {
        let a = rest[0];
        let first = alias_index(full, a.name@);
        if first < start {
            Some(
                "Alias `"@ + a.name@ + "` first defined on line "@ + dec_spec(
                    full[first].line as int,
                ) + " is redefined on line "@ + dec_spec(a.line as int),
            )
        } else {
            let r = decl_index(recipes, a.name@);
            if r < recipes.len() {
                Some(
                    "Alias `"@ + a.name@ + "` defined on line "@ + dec_spec(a.line as int)
                        + " shadows recipe defined on line "@ + dec_spec(
                        recipes[r].line as int,
                    ),
                )
            } else if decl_index(recipes, a.target@) == recipes.len() {
                Some("Alias `"@ + a.name@ + "` has an unknown target `"@ + a.target@ + "`"@)
            } else {
                alias_error_spec(rest.drop_first(), full, recipes, start + 1)
            }
        }
    }
}

/// Checks every alias: none may be defined twice, shadow a recipe of its
/// own name, or point at an unknown recipe. The first offence, in
/// declaration order, is the error.
pub fn check_aliases(aliases: &Vec<AliasDecl>, recipes: &Vec<RecipeDecl>) -> (r: Result<
    (),
    String,
>)
    ensures
        match r {
            Ok(_) => alias_error_spec(aliases@, aliases@, recipes@, 0) is None,
            Err(m) => alias_error_spec(aliases@, aliases@, recipes@, 0) == Some(m@),
        },
{
    let ghost av = aliases@;
    let mut i: usize = 0;
    proof {
        assert(av.skip(0) =~= av);
    }
    while i < aliases.len()
        invariant
            i <= av.len(),
            av == aliases@,
            alias_error_spec(av, av, recipes@, 0) == alias_error_spec(
                av.skip(i as int),
                av,
                recipes@,
                i as int,
            ),
        decreases av.len() - i,
    {
        let ghost arest = av.skip(i as int);
        proof {
            assert(arest[0] == av[i as int]);
            assert(arest.drop_first() =~= av.skip(i as int + 1));
        }
        let name = aliases[i].name.as_str();
        let first = find_alias(aliases, name);
        if first < i {
            let mut m = msg3("Alias `", name, "` first defined on line ");
            let shown = dec_string(aliases[first].line);
            m.append(shown.as_str());
            m.append(" is redefined on line ");
            let again = dec_string(aliases[i].line);
            m.append(again.as_str());
            proof {
                assert(m@ =~= alias_error_spec(arest, av, recipes@, i as int)->0);
            }
            return Err(m);
        }
        let shadowed = find_decl(recipes, name);
        if shadowed < recipes.len() {
            let mut m = msg3("Alias `", name, "` defined on line ");
            let own = dec_string(aliases[i].line);
            m.append(own.as_str());
            m.append(" shadows recipe defined on line ");
            let other = dec_string(recipes[shadowed].line);
            m.append(other.as_str());
            proof {
                assert(m@ =~= alias_error_spec(arest, av, recipes@, i as int)->0);
            }
            return Err(m);
        }
        let target = find_decl(recipes, aliases[i].target.as_str());
        if target == recipes.len() {
            let mut m = msg3("Alias `", name, "` has an unknown target `");
            m.append(aliases[i].target.as_str());
            m.append("`");
            proof {
                assert(m@ =~= alias_error_spec(arest, av, recipes@, i as int)->0);
            }
            return Err(m);
        }
        proof {
            assert(first as int >= i);
        }
        i = i + 1;
    }
    proof {
        assert(av.skip(av.len() as int) =~= Seq::<AliasDecl>::empty());
    }
    Ok(())
}

/// Whether `name` occurs among `names`.
pub open spec fn name_in(names: Seq<String>, name: Seq<char>) -> bool {
    exists|i: int| 0 <= i < names.len() && names[i]@ == name
}

/// Whether a parameter named `name` occurs among `params`.
pub open spec fn param_named(params: Seq<Parameter>, name: Seq<char>) -> bool {
    exists|i: int| 0 <= i < params.len() && params[i].name@ == name
}

/// The first parameter error, scanning the parameters in order with the
/// ones already seen, whether a default has been passed, and whether a
/// variadic parameter has been passed.
pub open spec fn param_error_from(
    recipe: Seq<char>,
    params: Seq<Parameter>,
    variables: Seq<String>,
    seen: Seq<Parameter>,
    passed_default: bool,
    passed_variadic: bool,
) -> Option<Seq<char>>
    decreases params,
{
    if params.len() == 0 {
        None
    } else {
        let p = params[0];
        if param_named(seen, p.name@) {
            Some("Recipe `"@ + recipe + "` has duplicate parameter `"@ + p.name@ + "`"@)
        } else if name_in(variables, p.name@) {
            Some("Parameter `"@ + p.name@ + "` shadows variable of the same name"@)
        } else if passed_variadic {
            Some("Parameter `"@ + p.name@ + "` follows variadic parameter"@)
        } else if passed_default && p.default is None {
            Some("Non-default parameter `"@ + p.name@ + "` follows default parameter"@)
        } else {
            param_error_from(
                recipe,
                params.drop_first(),
                variables,
                seen.push(p),
                passed_default || p.default is Some,
                passed_variadic || p.variadic,
            )
        }
    }
}

/// The first parameter error of a recipe, if any.
pub open spec fn param_error(
    recipe: Seq<char>,
    params: Seq<Parameter>,
    variables: Seq<String>,
) -> Option<Seq<char>> {
    param_error_from(
        recipe,
        params,
        variables,
        Seq::<Parameter>::empty(),
        false,
        false,
    )
}

/// Whether some earlier parameter (below index `i`) bears `name`.
fn earlier_param_named(params: &Vec<Parameter>, i: usize, name: &str) -> (r: bool)
    requires
        i <= params@.len(),
    ensures
        r == param_named(params@.take(i as int), name@),
{
    let mut j: usize = 0;
    while j < i
        invariant
            j <= i <= params@.len(),
            forall|k: int| 0 <= k < j ==> params@[k].name@ != name@,
        decreases i - j,
    {
        if str_eq_str(params[j].name.as_str(), name) {
            proof {
                assert(params@.take(i as int)[j as int] == params@[j as int]);
            }
            return true;
        }
        j = j + 1;
    }
    proof {
        assert forall|k: int|
            0 <= k < params@.take(i as int).len() implies params@.take(i as int)[k].name@
            != name@ by {
            assert(params@.take(i as int)[k] == params@[k]);
        }
    }
    false
}

/// Whether some variable bears `name`.
fn variable_named(variables: &Vec<String>, name: &str) -> (r: bool)
    ensures
        r == name_in(variables@, name@),
{
    let mut j: usize = 0;
    while j < variables.len()
        invariant
            j <= variables@.len(),
            forall|k: int| 0 <= k < j ==> variables@[k]@ != name@,
        decreases variables@.len() - j,
    {
        if str_eq_str(variables[j].as_str(), name) {
            return true;
        }
        j = j + 1;
    }
    false
}

/// Checks the parameter rules for the recipe named `recipe`, against the
/// names of the top-level assignments: the first offence in declaration
/// order is the error returned.
pub fn check_parameters(recipe: &str, params: &Vec<Parameter>, variables: &Vec<String>) -> (r:
    Result<(), String>)
    ensures
        match r {
            Ok(_) => param_error(recipe@, params@, variables@) is None,
            Err(m) => param_error(recipe@, params@, variables@) == Some(m@),
        },
{
    let ghost pv = params@;
    let mut passed_default = false;
    let mut passed_variadic = false;
    let mut i: usize = 0;
    proof {
        assert(pv.skip(0) =~= pv);
        assert(pv.take(0) =~= Seq::<Parameter>::empty());
    }
    while i < params.len()
        invariant
            i <= pv.len(),
            pv == params@,
            param_error(recipe@, pv, variables@) == param_error_from(
                recipe@,
                pv.skip(i as int),
                variables@,
                pv.take(i as int),
                passed_default,
                passed_variadic,
            ),
        decreases pv.len() - i,
    {
        let ghost prest = pv.skip(i as int);
        proof {
            assert(prest[0] == pv[i as int]);
            assert(prest.drop_first() =~= pv.skip(i as int + 1));
            assert(pv.take(i as int).push(pv[i as int]) =~= pv.take(i as int + 1));
        }
        let name = params[i].name.as_str();
        if earlier_param_named(params, i, name) {
            let mut m = msg3("Recipe `", recipe, "` has duplicate parameter `");
            m.append(name);
            m.append("`");
            return Err(m);
        }
        if variable_named(variables, name) {
            return Err(msg3("Parameter `", name, "` shadows variable of the same name"));
        }
        if passed_variadic {
            return Err(msg3("Parameter `", name, "` follows variadic parameter"));
        }
        if passed_default && params[i].default.is_none() {
            return Err(msg3("Non-default parameter `", name, "` follows default parameter"));
        }
        passed_default = passed_default || params[i].default.is_some();
        passed_variadic = passed_variadic || params[i].variadic;
        i = i + 1;
    }
    proof {
        assert(pv.skip(pv.len() as int) =~= Seq::<Parameter>::empty());
    }
    Ok(())
}

} // verus!
