//! Trusted declarations for the outside functions the library calls: host
//! descriptors from the `target` crate, lexical path cleaning from
//! `lexiclean`, path decomposition from `camino`, and Unicode case mapping
//! from std. Each wrapper's contract states what the called function's source
//! or documentation shows; Verus takes the contracts on trust and verifies
//! every caller against them.

use vstd::prelude::*;

use lexiclean::Lexiclean;

verus! {

/// The lowercase equivalent of a string, as `str::to_lowercase` computes it.
pub uninterp spec fn lower_of(s: Seq<char>) -> Seq<char>;

/// The uppercase equivalent of a string, as `str::to_uppercase` computes it.
pub uninterp spec fn upper_of(s: Seq<char>) -> Seq<char>;

/// The lexically cleaned form of a path, as `lexiclean` computes it.
pub uninterp spec fn lexiclean_of(path: Seq<char>) -> Seq<char>;

/// The extension of a path's file name, as `Utf8Path::extension` yields it.
pub uninterp spec fn extension_of(path: Seq<char>) -> Option<Seq<char>>;

/// The final component of a path, as `Utf8Path::file_name` yields it.
pub uninterp spec fn file_name_of(path: Seq<char>) -> Option<Seq<char>>;

/// The stem of a path's file name, as `Utf8Path::file_stem` yields it.
pub uninterp spec fn file_stem_of(path: Seq<char>) -> Option<Seq<char>>;

/// A path without its final component, as `Utf8Path::parent` yields it.
pub uninterp spec fn parent_of(path: Seq<char>) -> Option<Seq<char>>;

/// `with` adjoined to the path `base`, as `Utf8Path::join` yields it.
pub uninterp spec fn join_of(base: Seq<char>, with: Seq<char>) -> Seq<char>;

/// Relies on `str::to_lowercase`: the result depends on the characters alone,
/// and an empty string stays empty.
#[verifier::external_body]
pub fn str_lowercase(s: &str) -> (r: String)
    ensures
        r@ == lower_of(s@),
        s@.len() == 0 ==> r@.len() == 0,
{
    s.to_lowercase()
}

/// Relies on `str::to_uppercase`: the result depends on the characters alone,
/// and an empty string stays empty.
#[verifier::external_body]
pub fn str_uppercase(s: &str) -> (r: String)
    ensures
        r@ == upper_of(s@),
        s@.len() == 0 ==> r@.len() == 0,
{
    s.to_uppercase()
}

/// Relies on `target::arch`: the name of the architecture this crate was
/// compiled for, always one of a fixed list of non-empty names.
#[verifier::external_body]
pub fn target_arch() -> (r: String)
    ensures
        r@.len() > 0,
{
    target::arch().to_owned()
}

/// Relies on `target::os`: the name of the operating system this crate was
/// compiled for, always one of a fixed list of non-empty names.
#[verifier::external_body]
pub fn target_os() -> (r: String)
    ensures
        r@.len() > 0,
{
    target::os().to_owned()
}

/// Relies on `target::family`: the family of the operating system this crate
/// was compiled for; its source yields exactly one of these three names.
#[verifier::external_body]
pub fn target_family() -> (r: String)
    ensures
        r@ == "unix"@ || r@ == "wasm"@ || r@ == "windows"@,
{
    target::family().to_owned()
}

/// Relies on `lexiclean::Lexiclean::lexiclean`: lexical cleaning keeps only
/// components of the input path, so the cleaned path of a UTF-8 path is
/// UTF-8 and the conversion back to a string cannot fail.
#[verifier::external_body]
pub fn path_lexiclean(path: &str) -> (r: String)
    ensures
        r@ == lexiclean_of(path@),
{
    std::path::Path::new(path).lexiclean().to_str().unwrap().to_owned()
}

/// Relies on `camino::Utf8Path::extension`: the portion of the file name
/// after the final dot, if the file name has an embedded dot.
#[verifier::external_body]
pub fn path_extension(path: &str) -> (r: Option<String>)
    ensures
        r.deep_view() == extension_of(path@),
{
    camino::Utf8Path::new(path).extension().map(str::to_owned)
}

/// Relies on `camino::Utf8Path::file_name`: the final component of the path,
/// if it does not end in `..` or a root.
#[verifier::external_body]
pub fn path_file_name(path: &str) -> (r: Option<String>)
    ensures
        r.deep_view() == file_name_of(path@),
{
    camino::Utf8Path::new(path).file_name().map(str::to_owned)
}

/// Relies on `camino::Utf8Path::file_stem`: the file name without its
/// extension, if the path has a file name.
#[verifier::external_body]
pub fn path_file_stem(path: &str) -> (r: Option<String>)
    ensures
        r.deep_view() == file_stem_of(path@),
{
    camino::Utf8Path::new(path).file_stem().map(str::to_owned)
}

/// Relies on `camino::Utf8Path::parent`: the path without its final
/// component, unless the path is empty or ends in a root or prefix.
#[verifier::external_body]
pub fn path_parent(path: &str) -> (r: Option<String>)
    ensures
        r.deep_view() == parent_of(path@),
{
    camino::Utf8Path::new(path).parent().map(|p| p.as_str().to_owned())
}

/// Relies on `camino::Utf8Path::join`: `with` adjoined to `base`, replacing
/// `base` entirely when `with` is absolute.
#[verifier::external_body]
pub fn path_join(base: &str, with: &str) -> (r: String)
    ensures
        r@ == join_of(base@, with@),
{
    camino::Utf8Path::new(base).join(with).into_string()
}

} // verus!
