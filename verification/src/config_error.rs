//! Errors in the runner's configuration: conflicting options, subcommands
//! given arguments or overrides they do not take, and internal faults.
//!
//! Each error renders to one message string; [`ConfigError::message`] states
//! the exact text produced for every variant.

use vstd::prelude::*;

use crate::outside::{lower_of, str_lowercase};
use crate::text::msg3;

verus! {

/// `s` wrapped in backticks.
pub open spec fn ticked(s: Seq<char>) -> Seq<char> {
    "`"@ + s + "`"@
}

/// What follows the first item in a displayed list: each further item after
/// a comma, except the last, which follows the conjunction.
pub open spec fn list_tail(items: Seq<Seq<char>>, conjunction: Seq<char>) -> Seq<char>
    decreases items.len(),
{
    if items.len() == 0 {
        Seq::<char>::empty()
    } else if items.len() == 1 {
        conjunction + items[0]
    } else {
        ", "@ + items[0] + list_tail(items.drop_first(), conjunction)
    }
}

/// Items joined for display: `a`, `a and b`, `a, b and c`, and so on.
pub open spec fn list_display(items: Seq<Seq<char>>, conjunction: Seq<char>) -> Seq<char> {
    if items.len() == 0 {
        Seq::<char>::empty()
    } else {
        items[0] + list_tail(items.drop_first(), conjunction)
    }
}

/// Items wrapped in backticks and joined with `and`.
pub open spec fn and_ticked_spec(items: Seq<Seq<char>>) -> Seq<char> {
    list_display(items.map_values(|s: Seq<char>| ticked(s)), " and "@)
}

/// A noun with a count: singular for one, plural with a trailing `s`
/// otherwise.
pub open spec fn count_spec(word: Seq<char>, n: int) -> Seq<char> {
    if n == 1 {
        word
    } else {
        word + "s"@
    }
}

/// `s` wrapped in backticks.
pub fn tick(s: &str) -> (r: String)
    ensures
        r@ == ticked(s@),
{
    msg3("`", s, "`")
}

/// Items wrapped in backticks and joined with `or`.
pub open spec fn or_ticked_spec(items: Seq<Seq<char>>) -> Seq<char> {
    list_display(items.map_values(|s: Seq<char>| ticked(s)), " or "@)
}

/// Joins `items`, each wrapped in backticks, with `or`.
pub fn or_ticked(items: &Vec<String>) -> (r: String)
    ensures
        r@ == or_ticked_spec(items.deep_view()),
{
    let ghost tv = items.deep_view().map_values(|s: Seq<char>| ticked(s));
    proof {
        assert(tv.len() == items@.len());
    }
    let n = items.len();
    if n == 0 {
        return String::new();
    }
    let mut r = tick(items[0].as_str());
    proof {
        assert(tv[0] == ticked(items@[0]@));
    }
    let mut i: usize = 1;
    while i < n
        invariant
            1 <= i <= n == items@.len(),
            tv == items.deep_view().map_values(|s: Seq<char>| ticked(s)),
            tv.len() == n,
            list_display(tv, " or "@) == r@ + list_tail(tv.skip(i as int), " or "@),
        decreases n - i,
    {
        let ghost r0 = r@;
        proof {
            assert(tv.skip(i as int)[0] == tv[i as int]);
            assert(tv[i as int] == ticked(items@[i as int]@));
            assert(tv.skip(i as int).drop_first() =~= tv.skip(i as int + 1));
        }
        if i + 1 == n {
            r.append(" or ");
            let t = tick(items[i].as_str());
            r.append(t.as_str());
            proof {
                assert(tv.skip(i as int).len() == 1);
                assert(list_tail(tv.skip(i as int), " or "@) == " or "@ + tv[i as int]);
                assert(r@ + list_tail(tv.skip(i as int + 1), " or "@) =~= r0 + (" or "@
                    + tv[i as int]));
            }
        } else {
            r.append(", ");
            let t = tick(items[i].as_str());
            r.append(t.as_str());
            proof {
                assert(list_tail(tv.skip(i as int), " or "@) == ", "@ + tv[i as int]
                    + list_tail(tv.skip(i as int + 1), " or "@));
                assert(r@ + list_tail(tv.skip(i as int + 1), " or "@) =~= r0 + (", "@
                    + tv[i as int] + list_tail(tv.skip(i as int + 1), " or "@)));
            }
        }
        i = i + 1;
    }
    proof {
        assert(tv.skip(n as int) =~= Seq::<Seq<char>>::empty());
        assert(r@ + Seq::<char>::empty() =~= r@);
    }
    r
}

/// Joins `items`, each wrapped in backticks, with `and`.
pub fn and_ticked(items: &Vec<String>) -> (r: String)
    ensures
        r@ == and_ticked_spec(items.deep_view()),
{
    let ghost tv = items.deep_view().map_values(|s: Seq<char>| ticked(s));
    proof {
        assert(tv.len() == items@.len());
    }
    let n = items.len();
    if n == 0 {
        return String::new();
    }
    let mut r = tick(items[0].as_str());
    proof {
        assert(tv[0] == ticked(items@[0]@));
    }
    let mut i: usize = 1;
    while i < n
        invariant
            1 <= i <= n == items@.len(),
            tv == items.deep_view().map_values(|s: Seq<char>| ticked(s)),
            tv.len() == n,
            list_display(tv, " and "@) == r@ + list_tail(tv.skip(i as int), " and "@),
        decreases n - i,
    {
        let ghost r0 = r@;
        proof {
            assert(tv.skip(i as int)[0] == tv[i as int]);
            assert(tv[i as int] == ticked(items@[i as int]@));
            assert(tv.skip(i as int).drop_first() =~= tv.skip(i as int + 1));
        }
        if i + 1 == n {
            r.append(" and ");
            let t = tick(items[i].as_str());
            r.append(t.as_str());
            proof {
                assert(tv.skip(i as int).len() == 1);
                assert(list_tail(tv.skip(i as int), " and "@) == " and "@ + tv[i as int]);
                assert(r@ + list_tail(tv.skip(i as int + 1), " and "@) =~= r0 + (" and "@
                    + tv[i as int]));
            }
        } else {
            r.append(", ");
            let t = tick(items[i].as_str());
            r.append(t.as_str());
            proof {
                assert(list_tail(tv.skip(i as int), " and "@) == ", "@ + tv[i as int]
                    + list_tail(tv.skip(i as int + 1), " and "@));
                assert(r@ + list_tail(tv.skip(i as int + 1), " and "@) =~= r0 + (", "@
                    + tv[i as int] + list_tail(tv.skip(i as int + 1), " and "@)));
            }
        }
        i = i + 1;
    }
    proof {
        assert(tv.skip(n as int) =~= Seq::<Seq<char>>::empty());
        assert(r@ + Seq::<char>::empty() =~= r@);
    }
    r
}

/// The noun `word` with count `n`: singular for one, plural otherwise.
pub fn count_word(word: &str, n: usize) -> (r: String)
    ensures
        r@ == count_spec(word@, n as int),
{
    if n == 1 {
        String::from_str(word)
    } else {
        let mut r = String::from_str(word);
        r.append("s");
        r
    }
}

/// The display forms of command-line overrides: `key=value` for each entry.
pub open spec fn override_strings(overrides: Seq<(String, String)>) -> Seq<Seq<char>> {
    overrides.map_values(|p: (String, String)| p.0@ + "="@ + p.1@)
}

/// Renders each override as `key=value`.
pub fn override_display(overrides: &Vec<(String, String)>) -> (r: Vec<String>)
    ensures
        r.deep_view() == override_strings(overrides@),
{
    let mut r: Vec<String> = Vec::new();
    let mut i: usize = 0;
    while i < overrides.len()
        invariant
            i <= overrides@.len(),
            r@.len() == i,
            forall|k: int|
                0 <= k < i ==> r@[k]@ == overrides@[k].0@ + "="@ + overrides@[k].1@,
        decreases overrides@.len() - i,
    {
        let s = msg3(overrides[i].0.as_str(), "=", overrides[i].1.as_str());
        r.push(s);
        i = i + 1;
    }
    proof {
        let dv = r.deep_view();
        let os = override_strings(overrides@);
        assert(dv.len() == os.len());
        assert forall|k: int| 0 <= k < dv.len() implies dv[k] == os[k] by {
            assert(dv[k] == r@[k]@);
            assert(os[k] == overrides@[k].0@ + "="@ + overrides@[k].1@);
        }
        assert(dv =~= os);
    }
    r
}

/// An error in the runner's configuration.
pub enum ConfigError {
    /// A fault that should be unreachable; the message asks for a bug report.
    Internal { message: String },
    /// The current directory could not be determined; the payload describes
    /// the underlying failure.
    CurrentDir { description: String },
    /// A path-prefixed recipe was combined with `--working-directory` or
    /// `--justfile`.
    SearchDirConflict,
    /// A subcommand was given positional arguments it does not take.
    SubcommandArguments { subcommand: String, arguments: Vec<String> },
    /// A subcommand was given both overrides and positional arguments it
    /// does not take.
    SubcommandOverridesAndArguments {
        subcommand: String,
        overrides: Vec<(String, String)>,
        arguments: Vec<String>,
    },
    /// A subcommand was given overrides it does not take.
    SubcommandOverrides { subcommand: String, overrides: Vec<(String, String)> },
}

impl ConfigError {
    /// The message this error renders to.
    pub open spec fn message_spec(self) -> Seq<char> {
        match self {
            ConfigError::Internal { message } => {
                "Internal config error, this may indicate a bug in just: "@ + message@
                    + " consider filing an issue: https://github.com/casey/just/issues/new"@
            },
            ConfigError::CurrentDir { description } => {
                "Failed to get current directory: "@ + description@
            },
            ConfigError::SearchDirConflict => {
                "Path-prefixed recipes may not be used with `--working-directory` or `--justfile`."@
            },
            ConfigError::SubcommandArguments { subcommand, arguments } => {
                "`--"@ + lower_of(subcommand@) + "` used with unexpected "@ + count_spec(
                    "argument"@,
                    arguments@.len() as int,
                ) + ": "@ + and_ticked_spec(arguments.deep_view())
            },
            ConfigError::SubcommandOverridesAndArguments { subcommand, overrides, arguments } => {
                "`--"@ + lower_of(subcommand@) + "` used with unexpected overrides: "@
                    + and_ticked_spec(override_strings(overrides@)) + "; and arguments: "@
                    + and_ticked_spec(arguments.deep_view())
            },
            ConfigError::SubcommandOverrides { subcommand, overrides } => {
                "`--"@ + lower_of(subcommand@) + "` used with unexpected overrides: "@
                    + and_ticked_spec(override_strings(overrides@))
            },
        }
    }

    /// An internal error carrying `message`.
    pub fn internal(message: &str) -> (r: Self)
        ensures
            r matches ConfigError::Internal { message: m } && m@ == message@,
    {
        ConfigError::Internal { message: String::from_str(message) }
    }

    /// Renders this error's message.
    pub fn message(&self) -> (r: String)
        ensures
            r@ == self.message_spec(),
    {
        match self {
            ConfigError::Internal { message } => {
                let mut r = String::from_str(
                    "Internal config error, this may indicate a bug in just: ",
                );
                r.append(message.as_str());
                r.append(
                    " consider filing an issue: https://github.com/casey/just/issues/new",
                );
                proof {
                    assert(r@ =~= self.message_spec());
                }
                r
            },
            ConfigError::CurrentDir { description } => {
                let mut r = String::from_str("Failed to get current directory: ");
                r.append(description.as_str());
                r
            },
            ConfigError::SearchDirConflict => {
                String::from_str(
                    "Path-prefixed recipes may not be used with `--working-directory` or `--justfile`.",
                )
            },
            ConfigError::SubcommandArguments { subcommand, arguments } => {
                let mut r = String::from_str("`--");
                let lower = str_lowercase(subcommand.as_str());
                r.append(lower.as_str());
                r.append("` used with unexpected ");
                let noun = count_word("argument", arguments.len());
                r.append(noun.as_str());
                r.append(": ");
                let list = and_ticked(arguments);
                r.append(list.as_str());
                proof {
                    assert(r@ =~= self.message_spec());
                }
                r
            },
            ConfigError::SubcommandOverridesAndArguments { subcommand, overrides, arguments } => {
                let mut r = String::from_str("`--");
                let lower = str_lowercase(subcommand.as_str());
                r.append(lower.as_str());
                r.append("` used with unexpected overrides: ");
                let shown = override_display(overrides);
                let list = and_ticked(&shown);
                r.append(list.as_str());
                r.append("; and arguments: ");
                let args = and_ticked(arguments);
                r.append(args.as_str());
                proof {
                    assert(r@ =~= self.message_spec());
                }
                r
            },
            ConfigError::SubcommandOverrides { subcommand, overrides } => {
                let mut r = String::from_str("`--");
                let lower = str_lowercase(subcommand.as_str());
                r.append(lower.as_str());
                r.append("` used with unexpected overrides: ");
                let shown = override_display(overrides);
                let list = and_ticked(&shown);
                r.append(list.as_str());
                proof {
                    assert(r@ =~= self.message_spec());
                }
                r
            },
        }
    }
}

} // verus!
