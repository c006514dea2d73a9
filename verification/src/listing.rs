//! The recipe listing.
//!
//! `Available recipes:` is followed by one indented line per recipe whose
//! name does not start with an underscore, in source order; each alias of a
//! listed recipe follows it. A recipe with a doc comment, and every alias,
//! carries a `#` column aligned one column past the widest signature.

use vstd::prelude::*;

use crate::binding::Parameter;
use crate::text::push_char;

verus! {

/// A recipe as the listing sees it: its name, its parameters, and the doc
/// comment directly above it, if any.
pub struct ListedRecipe {
    pub name: String,
    pub params: Vec<Parameter>,
    pub doc: Option<String>,
}

/// One line of the listing: a signature and an optional doc column.
pub struct ListEntry {
    pub signature: String,
    pub doc: Option<String>,
}

/// Whether a name is private: it starts with an underscore.
pub open spec fn private_spec(name: Seq<char>) -> bool {
    name.len() > 0 && name[0] == '_'
}

/// How a parameter is shown: a `+` for a variadic parameter, the name, and
/// `=` with the default value if it has one.
pub open spec fn param_display(p: Parameter) -> Seq<char> {
    (if p.variadic {
        "+"@
    } else {
        Seq::<char>::empty()
    }) + p.name@ + (match p.default {
        Some(d) => "="@ + d@,
        None => Seq::<char>::empty(),
    })
}

/// The parameters of a signature, each after one space.
pub open spec fn params_display(params: Seq<Parameter>) -> Seq<char>
    decreases params.len(),
{
    if params.len() == 0 {
        Seq::<char>::empty()
    } else {
        " "@ + param_display(params[0]) + params_display(params.drop_first())
    }
}

/// A signature: the shown name followed by the parameters.
pub open spec fn signature_spec(name: Seq<char>, params: Seq<Parameter>) -> Seq<char> {
    name + params_display(params)
}

/// The doc column of an alias.
pub open spec fn alias_doc_spec(target: Seq<char>) -> Seq<char> {
    "alias for `"@ + target + "`"@
}

/// The view of one entry: its signature and optional doc.
pub open spec fn entry_view(e: ListEntry) -> (Seq<char>, Option<Seq<char>>) {
    (
        e.signature@,
        match e.doc {
            Some(d) => Some(d@),
            None => None,
        },
    )
}

/// The views of all entries.
pub open spec fn entry_views(entries: Seq<ListEntry>) -> Seq<(Seq<char>, Option<Seq<char>>)> {
    entries.map_values(|e: ListEntry| entry_view(e))
}

/// The entries the aliases of one recipe contribute, in order.
pub open spec fn alias_entries_spec(aliases: Seq<(String, String)>, r: ListedRecipe) -> Seq<
    (Seq<char>, Option<Seq<char>>),
>
    decreases aliases.len(),
{
    if aliases.len() == 0 {
        Seq::<(Seq<char>, Option<Seq<char>>)>::empty()
    } else {
        (if aliases[0].1@ == r.name@ && !private_spec(aliases[0].0@) {
            seq![
                (
                    signature_spec(aliases[0].0@, r.params@),
                    Some(alias_doc_spec(r.name@)),
                ),
            ]
        } else {
            Seq::<(Seq<char>, Option<Seq<char>>)>::empty()
        }) + alias_entries_spec(aliases.drop_first(), r)
    }
}

/// The view of one recipe's doc column.
pub open spec fn doc_view(r: ListedRecipe) -> Option<Seq<char>> {
    match r.doc {
        Some(d) => Some(d@),
        None => None,
    }
}

/// The listing's entries: every non-private recipe in order, each followed
/// by its non-private aliases; a private recipe and its aliases are left
/// out.
pub open spec fn entries_spec(recipes: Seq<ListedRecipe>, aliases: Seq<(String, String)>) -> Seq<
    (Seq<char>, Option<Seq<char>>),
>
    decreases recipes.len(),
{
    if recipes.len() == 0 {
        Seq::<(Seq<char>, Option<Seq<char>>)>::empty()
    } else {
        (if private_spec(recipes[0].name@) {
            Seq::<(Seq<char>, Option<Seq<char>>)>::empty()
        } else {
            seq![(signature_spec(recipes[0].name@, recipes[0].params@), doc_view(recipes[0]))]
                + alias_entries_spec(aliases, recipes[0])
        }) + entries_spec(recipes.drop_first(), aliases)
    }
}

/// The widest signature among the entries.
pub open spec fn max_signature(entries: Seq<(Seq<char>, Option<Seq<char>>)>) -> int
    decreases entries.len(),
{
    if entries.len() == 0 {
        0
    } else {
        let rest = max_signature(entries.drop_first());
        if entries[0].0.len() > rest {
            entries[0].0.len() as int
        } else {
            rest
        }
    }
}

/// `n` spaces.
pub open spec fn spaces(n: int) -> Seq<char>
    decreases n,
{
    if n <= 0 {
        Seq::<char>::empty()
    } else {
        spaces(n - 1).push(' ')
    }
}

/// One rendered line: four spaces of indent, the signature, and for a doc
/// the column padding, a `#`, and the doc text.
pub open spec fn line_spec(entry: (Seq<char>, Option<Seq<char>>), width: int) -> Seq<char> {
    "    "@ + entry.0 + (match entry.1 {
        Some(d) => spaces(width - entry.0.len()) + " # "@ + d,
        None => Seq::<char>::empty(),
    }) + "\n"@
}

/// All rendered lines, in order.
pub open spec fn lines_spec(entries: Seq<(Seq<char>, Option<Seq<char>>)>, width: int) -> Seq<char>
    decreases entries.len(),
{
    if entries.len() == 0 {
        Seq::<char>::empty()
    } else {
        line_spec(entries[0], width) + lines_spec(entries.drop_first(), width)
    }
}

/// The whole listing.
pub open spec fn list_spec(recipes: Seq<ListedRecipe>, aliases: Seq<(String, String)>)
    -> Seq<char> {
    let entries = entries_spec(recipes, aliases);
    "Available recipes:\n"@ + lines_spec(entries, max_signature(entries))
}

/// Renders one signature.
fn render_signature(name: &str, params: &Vec<Parameter>) -> (r: String)
    ensures
        r@ == signature_spec(name@, params@),
{
    let mut r = String::from_str(name);
    let ghost pv = params@;
    let mut i: usize = 0;
    proof {
        assert(pv.skip(0) =~= pv);
    }
    while i < params.len()
        invariant
            i <= pv.len(),
            pv == params@,
            signature_spec(name@, pv) == r@ + params_display(pv.skip(i as int)),
        decreases pv.len() - i,
    {
        let ghost r0 = r@;
        proof {
            assert(pv.skip(i as int)[0] == pv[i as int]);
            assert(pv.skip(i as int).drop_first() =~= pv.skip(i as int + 1));
        }
        r.append(" ");
        if params[i].variadic {
            r.append("+");
        }
        r.append(params[i].name.as_str());
        match &params[i].default {
            Some(d) => {
                r.append("=");
                r.append(d.as_str());
            },
            None => {},
        }
        proof {
            let x = params_display(pv.skip(i as int + 1));
            assert(params_display(pv.skip(i as int)) == " "@ + param_display(pv[i as int]) + x);
            assert(r@ + x =~= r0 + (" "@ + param_display(pv[i as int]) + x));
        }
        i = i + 1;
    }
    proof {
        assert(pv.skip(pv.len() as int) =~= Seq::<Parameter>::empty());
        assert(r@ + Seq::<char>::empty() =~= r@);
    }
    r
}

/// Whether `name` is private.
fn is_private(name: &str) -> (r: bool)
    ensures
        r == private_spec(name@),
{
    let n = name.unicode_len();
    n > 0 && name.get_char(0) == '_'
}

/// Collects the listing's entries.
fn collect_entries(recipes: &Vec<ListedRecipe>, aliases: &Vec<(String, String)>) -> (r: Vec<
    ListEntry,
>)
    ensures
        entry_views(r@) == entries_spec(recipes@, aliases@),
{
    let ghost rv = recipes@;
    let ghost av = aliases@;
    let mut out: Vec<ListEntry> = Vec::new();
    let mut i: usize = 0;
    proof {
        assert(rv.skip(0) =~= rv);
        assert(entry_views(out@) =~= Seq::<(Seq<char>, Option<Seq<char>>)>::empty());
        assert(entries_spec(rv, av) =~= entry_views(out@) + entries_spec(rv.skip(0), av));
    }
    while i < recipes.len()
        invariant
            i <= rv.len(),
            rv == recipes@,
            av == aliases@,
            entries_spec(rv, av) == entry_views(out@) + entries_spec(rv.skip(i as int), av),
        decreases rv.len() - i,
    {
        let ghost out0 = entry_views(out@);
        let ghost rrest = rv.skip(i as int);
        proof {
            assert(rrest[0] == rv[i as int]);
            assert(rrest.drop_first() =~= rv.skip(i as int + 1));
        }
        if !is_private(recipes[i].name.as_str()) {
            let signature = render_signature(recipes[i].name.as_str(), &recipes[i].params);
            let doc = match &recipes[i].doc {
                Some(d) => Some(d.clone()),
                None => None,
            };
            out.push(ListEntry { signature, doc });
            proof {
                assert(entry_views(out@) =~= out0.push(
                    (signature_spec(rv[i as int].name@, rv[i as int].params@), doc_view(
                        rv[i as int],
                    )),
                ));
            }
            let mut j: usize = 0;
            proof {
                assert(av.skip(0) =~= av);
            }
            while j < aliases.len()
                invariant
                    j <= av.len(),
                    i < rv.len(),
                    rv == recipes@,
                    av == aliases@,
                    entries_spec(rv, av) == entry_views(out@) + alias_entries_spec(
                        av.skip(j as int),
                        rv[i as int],
                    ) + entries_spec(rv.skip(i as int + 1), av),
                decreases av.len() - j,
            {
                let ghost outj = entry_views(out@);
                let ghost arest = av.skip(j as int);
                proof {
                    assert(arest[0] == av[j as int]);
                    assert(arest.drop_first() =~= av.skip(j as int + 1));
                }
                let matches_target = crate::text::str_eq_str(
                    aliases[j].1.as_str(),
                    recipes[i].name.as_str(),
                );
                if matches_target && !is_private(aliases[j].0.as_str()) {
                    let signature = render_signature(aliases[j].0.as_str(), &recipes[i].params);
                    let mut doc = String::from_str("alias for `");
                    doc.append(recipes[i].name.as_str());
                    doc.append("`");
                    out.push(ListEntry { signature, doc: Some(doc) });
                    proof {
                        assert(entry_views(out@) =~= outj.push(
                            (signature_spec(av[j as int].0@, rv[i as int].params@), Some(
                                alias_doc_spec(rv[i as int].name@),
                            )),
                        ));
                        let x = alias_entries_spec(av.skip(j as int + 1), rv[i as int]);
                        assert(alias_entries_spec(arest, rv[i as int]) == seq![
                            (signature_spec(av[j as int].0@, rv[i as int].params@), Some(
                                alias_doc_spec(rv[i as int].name@),
                            )),
                        ] + x);
                        assert(entry_views(out@) + x =~= outj + (seq![
                            (signature_spec(av[j as int].0@, rv[i as int].params@), Some(
                                alias_doc_spec(rv[i as int].name@),
                            )),
                        ] + x));
                    }
                } else {
                    proof {
                        let x = alias_entries_spec(av.skip(j as int + 1), rv[i as int]);
                        assert(alias_entries_spec(arest, rv[i as int]) == Seq::<
                            (Seq<char>, Option<Seq<char>>),
                        >::empty() + x);
                        assert(Seq::<(Seq<char>, Option<Seq<char>>)>::empty() + x =~= x);
                    }
                }
                j = j + 1;
            }
            proof {
                assert(av.skip(av.len() as int) =~= Seq::<(String, String)>::empty());
                assert(alias_entries_spec(av.skip(av.len() as int), rv[i as int]) =~= Seq::<
                    (Seq<char>, Option<Seq<char>>),
                >::empty());
                assert(entry_views(out@) + Seq::<(Seq<char>, Option<Seq<char>>)>::empty()
                    + entries_spec(rv.skip(i as int + 1), av) =~= entry_views(out@)
                    + entries_spec(rv.skip(i as int + 1), av));
            }
        } else {
            proof {
                assert(entries_spec(rrest, av) == Seq::<(Seq<char>, Option<Seq<char>>)>::empty()
                    + entries_spec(rv.skip(i as int + 1), av));
                assert(out0 + (Seq::<(Seq<char>, Option<Seq<char>>)>::empty() + entries_spec(
                    rv.skip(i as int + 1),
                    av,
                )) =~= out0 + entries_spec(rv.skip(i as int + 1), av));
            }
        }
        i = i + 1;
    }
    proof {
        assert(rv.skip(rv.len() as int) =~= Seq::<ListedRecipe>::empty());
        assert(entry_views(out@) + Seq::<(Seq<char>, Option<Seq<char>>)>::empty() =~= entry_views(
            out@,
        ));
    }
    out
}

/// The widest signature among the entries.
fn widest(entries: &Vec<ListEntry>) -> (r: usize)
    ensures
        r as int == max_signature(entry_views(entries@)),
{
    let ghost ev = entry_views(entries@);
    let mut r: usize = 0;
    let mut i: usize = entries.len();
    while i > 0
        invariant
            i <= entries@.len(),
            ev == entry_views(entries@),
            ev.len() == entries@.len(),
            r as int == max_signature(ev.skip(i as int)),
        decreases i,
    {
        i = i - 1;
        proof {
            assert(ev.skip(i as int)[0] == ev[i as int]);
            assert(ev[i as int].0 == entries@[i as int].signature@);
            assert(ev.skip(i as int).drop_first() =~= ev.skip(i as int + 1));
        }
        let w = entries[i].signature.as_str().unicode_len();
        if w > r {
            r = w;
        }
    }
    proof {
        assert(ev.skip(0) =~= ev);
    }
    r
}

/// Appends `n` spaces to `out`.
fn push_spaces(out: &mut String, n: usize)
    ensures
        final(out)@ == old(out)@ + spaces(n as int),
{
    let mut i: usize = 0;
    while i < n
        invariant
            i <= n,
            out@ == old(out)@ + spaces(i as int),
        decreases n - i,
    {
        push_char(out, ' ');
        i = i + 1;
    }
}

/// Appends one rendered line for `entry`.
fn push_line(r: &mut String, entry: &ListEntry, width: usize)
    requires
        entry.signature@.len() <= width,
    ensures
        final(r)@ == old(r)@ + line_spec(entry_view(*entry), width as int),
{
    r.append("    ");
    r.append(entry.signature.as_str());
    match &entry.doc {
        Some(d) => {
            let w = entry.signature.as_str().unicode_len();
            push_spaces(r, width - w);
            r.append(" # ");
            r.append(d.as_str());
        },
        None => {},
    }
    r.append("\n");
    proof {
        assert(r@ =~= old(r)@ + line_spec(entry_view(*entry), width as int));
    }
}

/// Renders the whole listing for `--list`: the heading, then one line per
/// listed recipe and alias, doc columns aligned one column past the widest
/// signature.
pub fn list_output(recipes: &Vec<ListedRecipe>, aliases: &Vec<(String, String)>) -> (r: String)
    ensures
        r@ == list_spec(recipes@, aliases@),
{
    let entries = collect_entries(recipes, aliases);
    let width = widest(&entries);
    let ghost ev = entry_views(entries@);
    let mut r = String::from_str("Available recipes:\n");
    let mut i: usize = 0;
    proof {
        assert(ev.skip(0) =~= ev);
    }
    while i < entries.len()
        invariant
            i <= entries@.len(),
            ev == entry_views(entries@),
            ev.len() == entries@.len(),
            width as int == max_signature(ev),
            "Available recipes:\n"@ + lines_spec(ev, width as int) == r@ + lines_spec(
                ev.skip(i as int),
                width as int,
            ),
        decreases entries@.len() - i,
    {
        let ghost r0 = r@;
        proof {
            assert(ev.skip(i as int)[0] == ev[i as int]);
            assert(ev[i as int] == entry_view(entries@[i as int]));
            assert(ev.skip(i as int).drop_first() =~= ev.skip(i as int + 1));
            lemma_max_covers(ev, i as int);
        }
        push_line(&mut r, &entries[i], width);
        proof {
            let x = lines_spec(ev.skip(i as int + 1), width as int);
            assert(lines_spec(ev.skip(i as int), width as int) == line_spec(
                ev[i as int],
                width as int,
            ) + x);
            assert(r@ + x =~= r0 + (line_spec(ev[i as int], width as int) + x));
        }
        i = i + 1;
    }
    proof {
        assert(ev.skip(entries@.len() as int) =~= Seq::<(Seq<char>, Option<Seq<char>>)>::empty());
        assert(r@ + Seq::<char>::empty() =~= r@);
    }
    r
}

/// Every entry's signature fits inside the maximum.
proof fn lemma_max_covers(entries: Seq<(Seq<char>, Option<Seq<char>>)>, i: int)
    requires
        0 <= i < entries.len(),
    ensures
        entries[i].0.len() <= max_signature(entries),
    decreases entries.len(),
{
    if i == 0 {
    } else {
        lemma_max_covers(entries.drop_first(), i - 1);
        assert(entries.drop_first()[i - 1] == entries[i]);
    }
}

} // verus!
