//! Shebang lines of script recipes.
//!
//! A recipe whose first body line begins with `#!` is executed as a single
//! script file. The text after `#!` names the interpreter and, optionally,
//! one argument field; the interpreter decides the script file's name and
//! whether the shebang line itself is kept in it.

use vstd::prelude::*;

use crate::text::{
    chars_to_string, first_newline_index, first_sep_index, first_where, last_slash_index,
    last_where, lemma_first_where, lemma_last_where, newline_p, sep_p, slash_p, str_chars,
    str_eq_str, sub_chars, trim_chars, trim_spec,
};

verus! {

/// The first line of `rest`: the characters before the first newline, minus a
/// carriage return left just before that newline.
pub open spec fn first_line_of(rest: Seq<char>) -> Seq<char> {
    let i = first_where(rest, newline_p());
    if i == rest.len() {
        rest
    } else {
        let p = rest.take(i);
        if p.len() > 0 && p.last() == '\r' {
            p.drop_last()
        } else {
            p
        }
    }
}

/// What parsing a shebang line yields: the interpreter and its optional
/// argument, or nothing when `line` does not start with `#!` or names no
/// interpreter.
pub open spec fn shebang_spec(line: Seq<char>) -> Option<(Seq<char>, Option<Seq<char>>)> {
    if line.len() < 2 || line[0] != '#' || line[1] != '!' {
        None
    } else {
        let t = trim_spec(first_line_of(line.skip(2)));
        if t.len() == 0 {
            None
        } else {
            let i = first_where(t, sep_p());
            if i == t.len() {
                Some((t, None))
            } else {
                Some((t.take(i), Some(t.skip(i + 1))))
            }
        }
    }
}

/// The interpreter's file name: what follows the last slash or backslash, or
/// the whole interpreter if it has neither.
pub open spec fn filename_of(interp: Seq<char>) -> Seq<char> {
    let i = last_where(interp, slash_p());
    if i == -1 {
        interp
    } else {
        interp.skip(i + 1)
    }
}

/// The name given to the materialized script of a recipe: `cmd` scripts get a
/// `.bat` extension, `powershell` scripts a `.ps1` extension, all others the
/// bare recipe name.
pub open spec fn script_filename_spec(interp: Seq<char>, recipe: Seq<char>) -> Seq<char> {
    let f = filename_of(interp);
    if f == "cmd"@ || f == "cmd.exe"@ {
        recipe + ".bat"@
    } else if f == "powershell"@ || f == "powershell.exe"@ {
        recipe + ".ps1"@
    } else {
        recipe
    }
}

/// An interpreter and optional argument parsed from a `#!` line.
#[derive(Debug)]
pub struct Shebang {
    pub interpreter: String,
    pub argument: Option<String>,
}

impl Shebang {
    /// Parses `line` as a shebang line.
    pub fn new(line: &str) -> (r: Option<Shebang>)
        ensures
            match r {
                Some(sb) => shebang_spec(line@) == Some(
                    (sb.interpreter@, sb.argument.deep_view()),
                ),
                None => shebang_spec(line@) is None,
            },
    {
        let chars = str_chars(line);
        if chars.len() < 2 {
            return None;
        }
        if chars[0] != '#' || chars[1] != '!' {
            return None;
        }
        let rest = sub_chars(&chars, 2, chars.len());
        proof {
            assert(rest@ =~= line@.skip(2));
        }
        let nl = first_newline_index(&rest);
        proof {
            lemma_first_where(rest@, newline_p());
        }
        let fl = if nl == rest.len() {
            rest
        } else if nl > 0 && rest[nl - 1] == '\r' {
            let p = sub_chars(&rest, 0, nl - 1);
            proof {
                assert(rest@.take(nl as int).drop_last() =~= p@);
            }
            p
        } else {
            let p = sub_chars(&rest, 0, nl);
            proof {
                assert(rest@.take(nl as int) =~= p@);
            }
            p
        };
        proof {
            assert(fl@ == first_line_of(line@.skip(2)));
        }
        let t = trim_chars(&fl);
        if t.len() == 0 {
            return None;
        }
        let sep = first_sep_index(&t);
        proof {
            lemma_first_where(t@, sep_p());
        }
        if sep == t.len() {
            Some(Shebang { interpreter: chars_to_string(&t), argument: None })
        } else {
            let interp = sub_chars(&t, 0, sep);
            let arg = sub_chars(&t, sep + 1, t.len());
            proof {
                assert(interp@ =~= t@.take(sep as int));
                assert(arg@ =~= t@.skip(sep as int + 1));
            }
            Some(
                Shebang {
                    interpreter: chars_to_string(&interp),
                    argument: Some(chars_to_string(&arg)),
                },
            )
        }
    }

    /// The interpreter's file name, without any leading directory path.
    pub fn interpreter_filename(&self) -> (r: String)
        ensures
            r@ == filename_of(self.interpreter@),
    {
        let chars = str_chars(self.interpreter.as_str());
        match last_slash_index(&chars) {
            None => chars_to_string(&chars),
            Some(i) => {
                let n = chars.len();
                proof {
                    lemma_last_where(chars@, slash_p());
                }
                let f = sub_chars(&chars, i + 1, n);
                proof {
                    assert(f@ =~= self.interpreter@.skip(i + 1));
                }
                chars_to_string(&f)
            },
        }
    }

    /// The file name under which the recipe's body is materialized for this
    /// interpreter.
    pub fn script_filename(&self, recipe: &str) -> (r: String)
        ensures
            r@ == script_filename_spec(self.interpreter@, recipe@),
    {
        let f = self.interpreter_filename();
        if str_eq_str(f.as_str(), "cmd") || str_eq_str(f.as_str(), "cmd.exe") {
            let mut r = String::from_str(recipe);
            r.append(".bat");
            r
        } else if str_eq_str(f.as_str(), "powershell") || str_eq_str(f.as_str(), "powershell.exe") {
            let mut r = String::from_str(recipe);
            r.append(".ps1");
            r
        } else {
            String::from_str(recipe)
        }
    }

    /// Whether the shebang line itself belongs in the materialized script;
    /// `cmd` alone does not understand one.
    pub fn include_shebang_line(&self) -> (r: bool)
        ensures
            r == (filename_of(self.interpreter@) != "cmd"@ && filename_of(self.interpreter@)
                != "cmd.exe"@),
    {
        let f = self.interpreter_filename();
        !(str_eq_str(f.as_str(), "cmd") || str_eq_str(f.as_str(), "cmd.exe"))
    }
}

} // verus!
