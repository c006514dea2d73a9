//! Locating the buildfile.
//!
//! The runner searches upward from the working directory for a file named
//! `justfile` or `.justfile`, compared without regard to ASCII case, and
//! stops at the filesystem root or at a directory carrying a
//! version-control marker. `--init` writes a default buildfile into the
//! project root: the nearest directory with a marker, or the working
//! directory itself. The directory listings come in from outside as plain
//! values, nearest directory first.

use vstd::prelude::*;

use crate::text::{msg3, str_chars, str_eq_str};

verus! {

/// A directory as the search sees it: its path and the names of its
/// entries.
pub struct Directory {
    pub path: String,
    pub entries: Vec<String>,
}

/// The ASCII-lowercase equivalent of a character.
pub open spec fn ascii_lower_char(c: char) -> char {
    if c == 'A' {
        'a'
    } else if c == 'B' {
        'b'
    } else if c == 'C' {
        'c'
    } else if c == 'D' {
        'd'
    } else if c == 'E' {
        'e'
    } else if c == 'F' {
        'f'
    } else if c == 'G' {
        'g'
    } else if c == 'H' {
        'h'
    } else if c == 'I' {
        'i'
    } else if c == 'J' {
        'j'
    } else if c == 'K' {
        'k'
    } else if c == 'L' {
        'l'
    } else if c == 'M' {
        'm'
    } else if c == 'N' {
        'n'
    } else if c == 'O' {
        'o'
    } else if c == 'P' {
        'p'
    } else if c == 'Q' {
        'q'
    } else if c == 'R' {
        'r'
    } else if c == 'S' {
        's'
    } else if c == 'T' {
        't'
    } else if c == 'U' {
        'u'
    } else if c == 'V' {
        'v'
    } else if c == 'W' {
        'w'
    } else if c == 'X' {
        'x'
    } else if c == 'Y' {
        'y'
    } else if c == 'Z' {
        'z'
    } else {
        c
    }
}

/// A name folded to ASCII lowercase.
pub open spec fn ascii_lower(name: Seq<char>) -> Seq<char> {
    name.map_values(|c: char| ascii_lower_char(c))
}

/// Whether `name` names a buildfile, without regard to ASCII case.
pub open spec fn is_justfile_name(name: Seq<char>) -> bool {
    ascii_lower(name) == "justfile"@ || ascii_lower(name) == ".justfile"@
}

/// Whether `name` is a version-control marker.
pub open spec fn is_marker(name: Seq<char>) -> bool {
    name == ".git"@ || name == "_darcs"@ || name == ".hg"@ || name == ".svn"@ || name
        == ".fslckout"@
}

/// Whether some entry is a version-control marker.
pub open spec fn has_marker(entries: Seq<String>) -> bool {
    exists|i: int| 0 <= i < entries.len() && is_marker(entries[i]@)
}

/// The first entry naming a buildfile, if any.
pub open spec fn justfile_entry(entries: Seq<String>) -> Option<Seq<char>>
    decreases entries.len(),
{
    if entries.len() == 0 {
        None
    } else if is_justfile_name(entries[0]@) {
        Some(entries[0]@)
    } else {
        justfile_entry(entries.drop_first())
    }
}

/// Whether some entry is named exactly `name`.
pub open spec fn has_entry(entries: Seq<String>, name: Seq<char>) -> bool {
    exists|i: int| 0 <= i < entries.len() && entries[i]@ == name
}

/// The index of the first directory with a version-control marker, or
/// `dirs.len()` if there is none.
pub open spec fn marker_index(dirs: Seq<Directory>) -> int
    decreases dirs.len(),
{
    if dirs.len() == 0 {
        0
    } else if has_marker(dirs[0].entries@) {
        0
    } else {
        1 + marker_index(dirs.drop_first())
    }
}

/// The index of the project root among the directories, nearest first: the
/// first directory with a version-control marker, or the nearest directory
/// itself.
pub open spec fn project_root_spec(dirs: Seq<Directory>) -> int {
    if marker_index(dirs) == dirs.len() {
        0
    } else {
        marker_index(dirs)
    }
}

/// Where `--init` writes the default buildfile: `justfile` in the project
/// root, unless one is already there.
pub open spec fn init_path_spec(dirs: Seq<Directory>) -> Result<Seq<char>, Seq<char>> {
    let root = dirs[project_root_spec(dirs)];
    if has_entry(root.entries@, "justfile"@) {
        Err("Justfile `"@ + root.path@ + "/justfile` already exists"@)
    } else {
        Ok(root.path@ + "/justfile"@)
    }
}

/// The buildfile the search finds: walking the directories nearest first,
/// the first buildfile entry wins; a directory with a version-control
/// marker but no buildfile ends the search, as does running out of
/// directories.
pub open spec fn search_spec(dirs: Seq<Directory>) -> Result<Seq<char>, Seq<char>>
    decreases dirs.len(),
{
    if dirs.len() == 0 {
        Err("No justfile found"@)
    } else {
        match justfile_entry(dirs[0].entries@) {
            Some(name) => Ok(dirs[0].path@ + "/"@ + name),
            None => {
                if has_marker(dirs[0].entries@) {
                    Err("No justfile found"@)
                } else {
                    search_spec(dirs.drop_first())
                }
            },
        }
    }
}

/// The contents `--init` writes.
pub fn default_justfile() -> (r: String)
    ensures
        r@ == "default:\n\techo 'Hello, world!'\n"@,
{
    String::from_str("default:\n\techo 'Hello, world!'\n")
}

/// Folds one character to ASCII lowercase.
fn lower_char(c: char) -> (r: char)
    ensures
        r == ascii_lower_char(c),
{
    match c {
        'A' => 'a',
        'B' => 'b',
        'C' => 'c',
        'D' => 'd',
        'E' => 'e',
        'F' => 'f',
        'G' => 'g',
        'H' => 'h',
        'I' => 'i',
        'J' => 'j',
        'K' => 'k',
        'L' => 'l',
        'M' => 'm',
        'N' => 'n',
        'O' => 'o',
        'P' => 'p',
        'Q' => 'q',
        'R' => 'r',
        'S' => 's',
        'T' => 't',
        'U' => 'u',
        'V' => 'v',
        'W' => 'w',
        'X' => 'x',
        'Y' => 'y',
        'Z' => 'z',
        _ => c,
    }
}

/// Whether `name`, folded to ASCII lowercase, equals `target`.
fn lower_eq(name: &str, target: &str) -> (r: bool)
    ensures
        r == (ascii_lower(name@) == target@),
{
    let chars = str_chars(name);
    let n = target.unicode_len();
    if chars.len() != n {
        proof {
            assert(ascii_lower(name@).len() == name@.len());
        }
        return false;
    }
    let mut i: usize = 0;
    while i < n
        invariant
            i <= n == target@.len(),
            chars@ == name@,
            n == name@.len(),
            forall|j: int| 0 <= j < i ==> ascii_lower_char(name@[j]) == target@[j],
        decreases n - i,
    {
        if lower_char(chars[i]) != target.get_char(i) {
            proof {
                assert(ascii_lower(name@)[i as int] == ascii_lower_char(name@[i as int]));
            }
            return false;
        }
        i = i + 1;
    }
    proof {
        assert forall|j: int|
            0 <= j < name@.len() implies ascii_lower(name@)[j] == target@[j] by {
            assert(ascii_lower(name@)[j] == ascii_lower_char(name@[j]));
        }
        assert(ascii_lower(name@) =~= target@);
    }
    true
}

/// Whether `name` names a buildfile.
fn justfile_name(name: &str) -> (r: bool)
    ensures
        r == is_justfile_name(name@),
{
    lower_eq(name, "justfile") || lower_eq(name, ".justfile")
}

/// Whether `name` is a version-control marker.
fn marker_name(name: &str) -> (r: bool)
    ensures
        r == is_marker(name@),
{
    str_eq_str(name, ".git") || str_eq_str(name, "_darcs") || str_eq_str(name, ".hg")
        || str_eq_str(name, ".svn") || str_eq_str(name, ".fslckout")
}

/// Whether some entry is a version-control marker.
fn any_marker(entries: &Vec<String>) -> (r: bool)
    ensures
        r == has_marker(entries@),
{
    let mut i: usize = 0;
    while i < entries.len()
        invariant
            i <= entries@.len(),
            forall|j: int| 0 <= j < i ==> !is_marker(entries@[j]@),
        decreases entries@.len() - i,
    {
        if marker_name(entries[i].as_str()) {
            return true;
        }
        i = i + 1;
    }
    false
}

/// The first entry naming a buildfile, if any.
fn find_justfile_entry(entries: &Vec<String>) -> (r: Option<String>)
    ensures
        r.deep_view() == justfile_entry(entries@),
{
    let mut i: usize = 0;
    proof {
        assert(entries@.skip(0) =~= entries@);
    }
    while i < entries.len()
        invariant
            i <= entries@.len(),
            justfile_entry(entries@) == justfile_entry(entries@.skip(i as int)),
        decreases entries@.len() - i,
    {
        proof {
            assert(entries@.skip(i as int)[0] == entries@[i as int]);
            assert(entries@.skip(i as int).drop_first() =~= entries@.skip(i as int + 1));
        }
        if justfile_name(entries[i].as_str()) {
            return Some(entries[i].clone());
        }
        i = i + 1;
    }
    proof {
        assert(entries@.skip(i as int) =~= Seq::<String>::empty());
    }
    None
}

/// Whether some entry is named exactly `name`.
fn any_entry(entries: &Vec<String>, name: &str) -> (r: bool)
    ensures
        r == has_entry(entries@, name@),
{
    let mut i: usize = 0;
    while i < entries.len()
        invariant
            i <= entries@.len(),
            forall|j: int| 0 <= j < i ==> entries@[j]@ != name@,
        decreases entries@.len() - i,
    {
        if str_eq_str(entries[i].as_str(), name) {
            return true;
        }
        i = i + 1;
    }
    false
}

/// The project root: the first directory with a version-control marker, or
/// the nearest directory.
fn project_root(dirs: &Vec<Directory>) -> (r: usize)
    requires
        dirs@.len() > 0,
    ensures
        r as int == project_root_spec(dirs@),
        r < dirs@.len(),
{
    let mut i: usize = 0;
    while i < dirs.len()
        invariant
            i <= dirs@.len(),
            forall|j: int| 0 <= j < i ==> !has_marker(dirs@[j].entries@),
        decreases dirs@.len() - i,
    {
        if any_marker(&dirs[i].entries) {
            proof {
                lemma_marker_index_is(dirs@, i as int);
            }
            return i;
        }
        i = i + 1;
    }
    proof {
        lemma_marker_index_is(dirs@, dirs@.len() as int);
    }
    0
}

proof fn lemma_marker_index_is(dirs: Seq<Directory>, i: int)
    requires
        0 <= i <= dirs.len(),
        forall|j: int| 0 <= j < i ==> !has_marker(dirs[j].entries@),
        i < dirs.len() ==> has_marker(dirs[i].entries@),
    ensures
        marker_index(dirs) == i,
    decreases dirs.len(),
{
    if dirs.len() > 0 && !has_marker(dirs[0].entries@) {
        assert forall|j: int|
            0 <= j < i - 1 implies !has_marker(dirs.drop_first()[j].entries@) by {
            assert(dirs.drop_first()[j] == dirs[j + 1]);
        }
        if i - 1 < dirs.drop_first().len() {
            assert(dirs.drop_first()[i - 1] == dirs[i]);
        }
        lemma_marker_index_is(dirs.drop_first(), i - 1);
    }
}

/// Where `--init` writes the default buildfile, given the directories from
/// the working directory upward: `justfile` in the project root, an error
/// when one is already there.
pub fn init_path(dirs: &Vec<Directory>) -> (r: Result<String, String>)
    requires
        dirs@.len() > 0,
    ensures
        match r {
            Ok(p) => init_path_spec(dirs@) == Ok::<Seq<char>, Seq<char>>(p@),
            Err(m) => init_path_spec(dirs@) == Err::<Seq<char>, Seq<char>>(m@),
        },
{
    let root = project_root(dirs);
    if any_entry(&dirs[root].entries, "justfile") {
        Err(msg3("Justfile `", dirs[root].path.as_str(), "/justfile` already exists"))
    } else {
        let mut p = String::from_str(dirs[root].path.as_str());
        p.append("/justfile");
        Ok(p)
    }
}

/// The buildfile the search finds, given the directories from the working
/// directory upward.
pub fn search_justfile(dirs: &Vec<Directory>) -> (r: Result<String, String>)
    ensures
        match r {
            Ok(p) => search_spec(dirs@) == Ok::<Seq<char>, Seq<char>>(p@),
            Err(m) => search_spec(dirs@) == Err::<Seq<char>, Seq<char>>(m@),
        },
{
    let mut i: usize = 0;
    proof {
        assert(dirs@.skip(0) =~= dirs@);
    }
    while i < dirs.len()
        invariant
            i <= dirs@.len(),
            search_spec(dirs@) == search_spec(dirs@.skip(i as int)),
        decreases dirs@.len() - i,
    {
        proof {
            assert(dirs@.skip(i as int)[0] == dirs@[i as int]);
            assert(dirs@.skip(i as int).drop_first() =~= dirs@.skip(i as int + 1));
        }
        match find_justfile_entry(&dirs[i].entries) {
            Some(name) => {
                let mut p = String::from_str(dirs[i].path.as_str());
                p.append("/");
                p.append(name.as_str());
                return Ok(p);
            },
            None => {},
        }
        if any_marker(&dirs[i].entries) {
            return Err(String::from_str("No justfile found"));
        }
        i = i + 1;
    }
    proof {
        assert(dirs@.skip(i as int) =~= Seq::<Directory>::empty());
    }
    Err(String::from_str("No justfile found"))
}

} // verus!
