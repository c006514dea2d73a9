//! Parsing `.env` text into the dotenv mapping.
//!
//! The file holds plain `KEY=VALUE` lines. A line is an entry when an `=`
//! follows a non-empty key; the key is everything before the first such
//! `=`, the value everything after it. Every other line is ignored. A
//! carriage return just before the newline does not belong to the line.

use vstd::prelude::*;

use crate::invoke::{is_override_spec, override_spec, split_override};
use crate::text::{
    chars_to_string, first_newline_index, first_where, lemma_first_where, newline_p, str_chars,
    sub_chars,
};

verus! {

/// The entries one line contributes: one for a `KEY=VALUE` line, none
/// otherwise.
pub open spec fn line_entries(line: Seq<char>) -> Seq<(Seq<char>, Seq<char>)> {
    let l = if line.len() > 0 && line.last() == '\r' {
        line.drop_last()
    } else {
        line
    };
    if is_override_spec(l) {
        seq![override_spec(l)]
    } else {
        Seq::<(Seq<char>, Seq<char>)>::empty()
    }
}

/// The entries of a whole `.env` text, line by line.
pub open spec fn dotenv_entries(text: Seq<char>) -> Seq<(Seq<char>, Seq<char>)>
    decreases text.len(),
{
    let i = first_where(text, newline_p());
    if i == text.len() || !(0 <= i < text.len()) {
        line_entries(text)
    } else {
        line_entries(text.take(i)) + dotenv_entries(text.skip(i + 1))
    }
}

/// The views of parsed entries.
pub open spec fn entries_view(entries: Seq<(String, String)>) -> Seq<(Seq<char>, Seq<char>)> {
    entries.map_values(|p: (String, String)| (p.0@, p.1@))
}

/// Parses the lines of `chars` from position `pos` on.
fn parse_from(chars: &Vec<char>, pos: usize) -> (r: Vec<(String, String)>)
    requires
        pos <= chars@.len(),
    ensures
        entries_view(r@) == dotenv_entries(chars@.skip(pos as int)),
    decreases chars@.len() - pos,
{
    let rem = sub_chars(chars, pos, chars.len());
    proof {
        assert(rem@ =~= chars@.skip(pos as int));
        lemma_first_where(rem@, newline_p());
    }
    let nl = first_newline_index(&rem);
    let line = sub_chars(&rem, 0, nl);
    proof {
        assert(line@ =~= rem@.take(nl as int));
        if nl == rem.len() {
            assert(line@ =~= rem@);
        }
    }
    let stripped = if line.len() > 0 && line[line.len() - 1] == '\r' {
        let s = sub_chars(&line, 0, line.len() - 1);
        proof {
            assert(s@ =~= line@.drop_last());
        }
        s
    } else {
        line
    };
    let text = chars_to_string(&stripped);
    let entry = split_override(text.as_str());
    let mut out: Vec<(String, String)> = Vec::new();
    match entry {
        Some(kv) => {
            out.push(kv);
        },
        None => {},
    }
    if nl == rem.len() {
        proof {
            assert(entries_view(out@) =~= dotenv_entries(chars@.skip(pos as int)));
        }
        out
    } else {
        let ghost head = entries_view(out@);
        let mut rest = parse_from(chars, pos + nl + 1);
        proof {
            assert(rem@.skip(nl as int + 1) =~= chars@.skip(pos as int + nl as int + 1));
            assert(dotenv_entries(chars@.skip(pos as int)) == line_entries(rem@.take(nl as int))
                + dotenv_entries(chars@.skip(pos as int + nl as int + 1)));
        }
        let ghost tail = entries_view(rest@);
        out.append(&mut rest);
        proof {
            assert(entries_view(out@) =~= head + tail);
        }
        out
    }
}

/// Parses `.env` text into its entries, in file order.
pub fn parse_dotenv(text: &str) -> (r: Vec<(String, String)>)
    ensures
        entries_view(r@) == dotenv_entries(text@),
{
    let chars = str_chars(text);
    let r = parse_from(&chars, 0);
    proof {
        assert(chars@.skip(0) =~= text@);
    }
    r
}

} // verus!
