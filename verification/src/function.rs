//! The table of built-in functions callable from buildfile expressions, and
//! the functions themselves.
//!
//! Every built-in takes a [`FunctionContext`] describing the current
//! invocation and returns either its string value or an error message. The
//! environment-variable built-ins consult the context's dotenv mapping first
//! and otherwise decide from the process environment's answer, which the
//! caller passes in as a plain value.

use vstd::prelude::*;

use crate::outside::{
    extension_of, file_name_of, file_stem_of, join_of, lexiclean_of, lower_of, parent_of,
    path_extension, path_file_name, path_file_stem, path_join, path_lexiclean, path_parent,
    str_lowercase, str_uppercase, target_arch, target_family, target_os, upper_of,
};
use crate::text::{chars_to_string, msg3, replace_chars, replace_spec, str_chars, str_eq_str,
    trim_chars, trim_spec};

verus! {

/// A built-in function of no arguments.
#[derive(Clone, Copy, PartialEq, Eq, Debug)]
pub enum Nullary {
    Arch,
    InvocationDirectory,
    JustExecutable,
    Justfile,
    JustfileDirectory,
    Os,
    OsFamily,
}

/// A built-in function of one argument.
#[derive(Clone, Copy, PartialEq, Eq, Debug)]
pub enum Unary {
    Clean,
    EnvVar,
    Extension,
    FileName,
    FileStem,
    Lowercase,
    ParentDirectory,
    Trim,
    Uppercase,
    WithoutExtension,
}

/// A built-in function of two arguments.
#[derive(Clone, Copy, PartialEq, Eq, Debug)]
pub enum Binary {
    EnvVarOrDefault,
    Join,
}

/// A built-in function of three arguments.
#[derive(Clone, Copy, PartialEq, Eq, Debug)]
pub enum Ternary {
    Replace,
}

/// A built-in function, tagged by its arity.
#[derive(Clone, Copy, PartialEq, Eq, Debug)]
pub enum Function {
    Nullary(Nullary),
    Unary(Unary),
    Binary(Binary),
    Ternary(Ternary),
}

/// The entry of the built-in function table under `name`, if any.
pub open spec fn table_spec(name: Seq<char>) -> Option<Function> {
    if name == "arch"@ {
        Some(Function::Nullary(Nullary::Arch))
    } else if name == "clean"@ {
        Some(Function::Unary(Unary::Clean))
    } else if name == "env_var"@ {
        Some(Function::Unary(Unary::EnvVar))
    } else if name == "env_var_or_default"@ {
        Some(Function::Binary(Binary::EnvVarOrDefault))
    } else if name == "extension"@ {
        Some(Function::Unary(Unary::Extension))
    } else if name == "file_name"@ {
        Some(Function::Unary(Unary::FileName))
    } else if name == "file_stem"@ {
        Some(Function::Unary(Unary::FileStem))
    } else if name == "invocation_directory"@ {
        Some(Function::Nullary(Nullary::InvocationDirectory))
    } else if name == "join"@ {
        Some(Function::Binary(Binary::Join))
    } else if name == "just_executable"@ {
        Some(Function::Nullary(Nullary::JustExecutable))
    } else if name == "justfile"@ {
        Some(Function::Nullary(Nullary::Justfile))
    } else if name == "justfile_directory"@ {
        Some(Function::Nullary(Nullary::JustfileDirectory))
    } else if name == "lowercase"@ {
        Some(Function::Unary(Unary::Lowercase))
    } else if name == "os"@ {
        Some(Function::Nullary(Nullary::Os))
    } else if name == "os_family"@ {
        Some(Function::Nullary(Nullary::OsFamily))
    } else if name == "parent_directory"@ {
        Some(Function::Unary(Unary::ParentDirectory))
    } else if name == "replace"@ {
        Some(Function::Ternary(Ternary::Replace))
    } else if name == "trim"@ {
        Some(Function::Unary(Unary::Trim))
    } else if name == "uppercase"@ {
        Some(Function::Unary(Unary::Uppercase))
    } else if name == "without_extension"@ {
        Some(Function::Unary(Unary::WithoutExtension))
    } else {
        None
    }
}

impl Function {
    /// How many arguments the function takes.
    pub open spec fn argc_spec(self) -> int {
        match self {
            Function::Nullary(_) => 0,
            Function::Unary(_) => 1,
            Function::Binary(_) => 2,
            Function::Ternary(_) => 3,
        }
    }

    /// The number of arguments the function takes.
    pub fn argc(&self) -> (n: usize)
        ensures
            n == self.argc_spec(),
    {
        match *self {
            Function::Nullary(_) => 0,
            Function::Unary(_) => 1,
            Function::Binary(_) => 2,
            Function::Ternary(_) => 3,
        }
    }

    /// Looks `name` up in the built-in function table.
    pub fn lookup(name: &str) -> (r: Option<Function>)
        ensures
            r == table_spec(name@),
    {
        if str_eq_str(name, "arch") {
            Some(Function::Nullary(Nullary::Arch))
        } else if str_eq_str(name, "clean") {
            Some(Function::Unary(Unary::Clean))
        } else if str_eq_str(name, "env_var") {
            Some(Function::Unary(Unary::EnvVar))
        } else if str_eq_str(name, "env_var_or_default") {
            Some(Function::Binary(Binary::EnvVarOrDefault))
        } else if str_eq_str(name, "extension") {
            Some(Function::Unary(Unary::Extension))
        } else if str_eq_str(name, "file_name") {
            Some(Function::Unary(Unary::FileName))
        } else if str_eq_str(name, "file_stem") {
            Some(Function::Unary(Unary::FileStem))
        } else if str_eq_str(name, "invocation_directory") {
            Some(Function::Nullary(Nullary::InvocationDirectory))
        } else if str_eq_str(name, "join") {
            Some(Function::Binary(Binary::Join))
        } else if str_eq_str(name, "just_executable") {
            Some(Function::Nullary(Nullary::JustExecutable))
        } else if str_eq_str(name, "justfile") {
            Some(Function::Nullary(Nullary::Justfile))
        } else if str_eq_str(name, "justfile_directory") {
            Some(Function::Nullary(Nullary::JustfileDirectory))
        } else if str_eq_str(name, "lowercase") {
            Some(Function::Unary(Unary::Lowercase))
        } else if str_eq_str(name, "os") {
            Some(Function::Nullary(Nullary::Os))
        } else if str_eq_str(name, "os_family") {
            Some(Function::Nullary(Nullary::OsFamily))
        } else if str_eq_str(name, "parent_directory") {
            Some(Function::Unary(Unary::ParentDirectory))
        } else if str_eq_str(name, "replace") {
            Some(Function::Ternary(Ternary::Replace))
        } else if str_eq_str(name, "trim") {
            Some(Function::Unary(Unary::Trim))
        } else if str_eq_str(name, "uppercase") {
            Some(Function::Unary(Unary::Uppercase))
        } else if str_eq_str(name, "without_extension") {
            Some(Function::Unary(Unary::WithoutExtension))
        } else {
            None
        }
    }
}

/// What the built-in functions know about the current invocation: the dotenv
/// mapping, the user's directory at launch, and the resolved buildfile path.
pub struct FunctionContext {
    pub dotenv: Vec<(String, String)>,
    pub invocation_directory: String,
    pub justfile: String,
}

/// The value under `key` in a dotenv mapping: the value of the first entry
/// whose key matches.
pub open spec fn dotenv_value(entries: Seq<(String, String)>, key: Seq<char>) -> Option<Seq<char>>
    decreases entries.len(),
{
    if entries.len() == 0 {
        None
    } else if entries[0].0@ == key {
        Some(entries[0].1@)
    } else {
        dotenv_value(entries.drop_first(), key)
    }
}

/// Looks `key` up in a dotenv mapping.
pub fn dotenv_get(entries: &Vec<(String, String)>, key: &str) -> (r: Option<String>)
    ensures
        r.deep_view() == dotenv_value(entries@, key@),
{
    let mut i: usize = 0;
    proof {
        assert(entries@.skip(0) =~= entries@);
    }
    while i < entries.len()
        invariant
            i <= entries@.len(),
            dotenv_value(entries@, key@) == dotenv_value(entries@.skip(i as int), key@),
        decreases entries@.len() - i,
    {
        proof {
            assert(entries@.skip(i as int)[0] == entries@[i as int]);
            assert(entries@.skip(i as int).drop_first() =~= entries@.skip(i as int + 1));
        }
        if str_eq_str(entries[i].0.as_str(), key) {
            return Some(entries[i].1.clone());
        }
        i = i + 1;
    }
    proof {
        assert(entries@.skip(i as int) =~= Seq::<(String, String)>::empty());
    }
    None
}

/// The process environment's answer to a variable lookup, handed in by the
/// caller that performed it.
pub enum EnvVarAnswer {
    /// The variable is set to this value.
    Present(String),
    /// The variable is not set.
    NotPresent,
    /// The variable is set but not valid Unicode; the payload is the caller's
    /// rendering of the raw value.
    NotUnicode(String),
}

/// The name of the architecture the runner was built for.
pub fn arch(_context: &FunctionContext) -> (r: Result<String, String>)
    ensures
        r is Ok && r->Ok_0@.len() > 0,
{
    Ok(target_arch())
}

/// The name of the operating system the runner was built for.
pub fn os(_context: &FunctionContext) -> (r: Result<String, String>)
    ensures
        r is Ok && r->Ok_0@.len() > 0,
{
    Ok(target_os())
}

/// The family of the operating system the runner was built for.
pub fn os_family(_context: &FunctionContext) -> (r: Result<String, String>)
    ensures
        r is Ok,
        r->Ok_0@ == "unix"@ || r->Ok_0@ == "wasm"@ || r->Ok_0@ == "windows"@,
{
    Ok(target_family())
}

/// Lexically normalizes `path`.
pub fn clean(_context: &FunctionContext, path: &str) -> (r: Result<String, String>)
    ensures
        r is Ok && r->Ok_0@ == lexiclean_of(path@),
{
    Ok(path_lexiclean(path))
}

/// The value of environment variable `key`: the dotenv mapping wins over the
/// process environment's answer; an unset or non-Unicode variable is an
/// error.
pub fn env_var(context: &FunctionContext, key: &str, answer: EnvVarAnswer) -> (r: Result<
    String,
    String,
>)
    ensures
        match dotenv_value(context.dotenv@, key@) {
            Some(v) => r is Ok && r->Ok_0@ == v,
            None => match answer {
                EnvVarAnswer::Present(value) => r is Ok && r->Ok_0@ == value@,
                EnvVarAnswer::NotPresent => r is Err && r->Err_0@ == "environment variable `"@
                    + key@ + "` not present"@,
                EnvVarAnswer::NotUnicode(raw) => r is Err && r->Err_0@
                    == "environment variable `"@ + key@ + "` not unicode: "@ + raw@,
            },
        },
{
    if let Some(value) = dotenv_get(&context.dotenv, key) {
        return Ok(value);
    }
    match answer {
        EnvVarAnswer::Present(value) => Ok(value),
        EnvVarAnswer::NotPresent => Err(msg3("environment variable `", key, "` not present")),
        EnvVarAnswer::NotUnicode(raw) => {
            let mut m = msg3("environment variable `", key, "` not unicode: ");
            m.append(raw.as_str());
            Err(m)
        },
    }
}

/// The value of environment variable `key`, or `default` when it is unset;
/// the dotenv mapping wins over the process environment's answer.
pub fn env_var_or_default(
    context: &FunctionContext,
    key: &str,
    default: &str,
    answer: EnvVarAnswer,
) -> (r: Result<String, String>)
    ensures
        match dotenv_value(context.dotenv@, key@) {
            Some(v) => r is Ok && r->Ok_0@ == v,
            None => match answer {
                EnvVarAnswer::Present(value) => r is Ok && r->Ok_0@ == value@,
                EnvVarAnswer::NotPresent => r is Ok && r->Ok_0@ == default@,
                EnvVarAnswer::NotUnicode(raw) => r is Err && r->Err_0@
                    == "environment variable `"@ + key@ + "` not unicode: "@ + raw@,
            },
        },
{
    if let Some(value) = dotenv_get(&context.dotenv, key) {
        return Ok(value);
    }
    match answer {
        EnvVarAnswer::Present(value) => Ok(value),
        EnvVarAnswer::NotPresent => Ok(String::from_str(default)),
        EnvVarAnswer::NotUnicode(raw) => {
            let mut m = msg3("environment variable `", key, "` not unicode: ");
            m.append(raw.as_str());
            Err(m)
        },
    }
}

/// The extension of `path`'s file name.
pub fn extension(_context: &FunctionContext, path: &str) -> (r: Result<String, String>)
    ensures
        match extension_of(path@) {
            Some(e) => r is Ok && r->Ok_0@ == e,
            None => r is Err && r->Err_0@ == "Could not extract extension from `"@ + path@
                + "`"@,
        },
{
    match path_extension(path) {
        Some(e) => Ok(e),
        None => Err(msg3("Could not extract extension from `", path, "`")),
    }
}

/// The final component of `path`.
pub fn file_name(_context: &FunctionContext, path: &str) -> (r: Result<String, String>)
    ensures
        match file_name_of(path@) {
            Some(f) => r is Ok && r->Ok_0@ == f,
            None => r is Err && r->Err_0@ == "Could not extract file name from `"@ + path@
                + "`"@,
        },
{
    match path_file_name(path) {
        Some(f) => Ok(f),
        None => Err(msg3("Could not extract file name from `", path, "`")),
    }
}

/// The stem of `path`'s file name.
pub fn file_stem(_context: &FunctionContext, path: &str) -> (r: Result<String, String>)
    ensures
        match file_stem_of(path@) {
            Some(f) => r is Ok && r->Ok_0@ == f,
            None => r is Err && r->Err_0@ == "Could not extract file stem from `"@ + path@
                + "`"@,
        },
{
    match path_file_stem(path) {
        Some(f) => Ok(f),
        None => Err(msg3("Could not extract file stem from `", path, "`")),
    }
}

/// The user's working directory at launch.
pub fn invocation_directory(context: &FunctionContext) -> (r: Result<String, String>)
    ensures
        r is Ok && r->Ok_0@ == context.invocation_directory@,
{
    Ok(context.invocation_directory.clone())
}

/// `with` adjoined to the path `base`.
pub fn join(_context: &FunctionContext, base: &str, with: &str) -> (r: Result<String, String>)
    ensures
        r is Ok && r->Ok_0@ == join_of(base@, with@),
{
    Ok(path_join(base, with))
}

/// The path of the resolved buildfile.
pub fn justfile(context: &FunctionContext) -> (r: Result<String, String>)
    ensures
        r is Ok && r->Ok_0@ == context.justfile@,
{
    Ok(context.justfile.clone())
}

/// The directory containing the resolved buildfile.
pub fn justfile_directory(context: &FunctionContext) -> (r: Result<String, String>)
    ensures
        match parent_of(context.justfile@) {
            Some(d) => r is Ok && r->Ok_0@ == d,
            None => r is Err && r->Err_0@ == "Could not resolve justfile directory. Justfile `"@
                + context.justfile@ + "` had no parent."@,
        },
{
    match path_parent(context.justfile.as_str()) {
        Some(d) => Ok(d),
        None => Err(
            msg3(
                "Could not resolve justfile directory. Justfile `",
                context.justfile.as_str(),
                "` had no parent.",
            ),
        ),
    }
}

/// `s` in lowercase.
pub fn lowercase(_context: &FunctionContext, s: &str) -> (r: Result<String, String>)
    ensures
        r is Ok && r->Ok_0@ == lower_of(s@),
{
    Ok(str_lowercase(s))
}

/// The path `path` without its final component.
pub fn parent_directory(_context: &FunctionContext, path: &str) -> (r: Result<String, String>)
    ensures
        match parent_of(path@) {
            Some(d) => r is Ok && r->Ok_0@ == d,
            None => r is Err && r->Err_0@ == "Could not extract parent directory from `"@ + path@
                + "`"@,
        },
{
    match path_parent(path) {
        Some(d) => Ok(d),
        None => Err(msg3("Could not extract parent directory from `", path, "`")),
    }
}

/// `s` with every occurrence of `from` replaced by `to`.
pub fn replace(_context: &FunctionContext, s: &str, from: &str, to: &str) -> (r: Result<
    String,
    String,
>)
    ensures
        r is Ok && r->Ok_0@ == replace_spec(s@, from@, to@),
{
    let sc = str_chars(s);
    let fc = str_chars(from);
    let tc = str_chars(to);
    let out = replace_chars(&sc, &fc, &tc);
    Ok(chars_to_string(&out))
}

/// `s` without leading and trailing whitespace.
pub fn trim(_context: &FunctionContext, s: &str) -> (r: Result<String, String>)
    ensures
        r is Ok && r->Ok_0@ == trim_spec(s@),
{
    let sc = str_chars(s);
    let out = trim_chars(&sc);
    Ok(chars_to_string(&out))
}

/// `s` in uppercase.
pub fn uppercase(_context: &FunctionContext, s: &str) -> (r: Result<String, String>)
    ensures
        r is Ok && r->Ok_0@ == upper_of(s@),
{
    Ok(str_uppercase(s))
}

/// `path` without its extension: its parent joined with its file stem.
pub fn without_extension(_context: &FunctionContext, path: &str) -> (r: Result<String, String>)
    ensures
        match parent_of(path@) {
            None => r is Err && r->Err_0@ == "Could not extract parent from `"@ + path@ + "`"@,
            Some(parent) => match file_stem_of(path@) {
                None => r is Err && r->Err_0@ == "Could not extract file stem from `"@ + path@
                    + "`"@,
                Some(stem) => r is Ok && r->Ok_0@ == join_of(parent, stem),
            },
        },
{
    let parent = match path_parent(path) {
        Some(p) => p,
        None => {
            return Err(msg3("Could not extract parent from `", path, "`"));
        },
    };
    let stem = match path_file_stem(path) {
        Some(s) => s,
        None => {
            return Err(msg3("Could not extract file stem from `", path, "`"));
        },
    };
    Ok(path_join(parent.as_str(), stem.as_str()))
}

} // verus!
