//! Rendering diagnostics.
//!
//! A diagnostic is a severity, a message, and optionally a source span: the
//! line's number and text, and the column and width of the underlined part.
//! The plain rendering puts the message first and, for a span, the source
//! line under it with a caret underline, the line number right-aligned in
//! its column. Caret positioning counts display cells: a tab is four cells
//! wide, any other character one.

use vstd::prelude::*;

use crate::listing::spaces;
use crate::text::{dec_spec, dec_string, push_char, str_chars};

verus! {

/// The severity of a diagnostic.
#[derive(Clone, Copy, PartialEq, Eq, Debug)]
pub enum Severity {
    Error,
    Warning,
}

/// A source span: the one-based line number, the line's text, and the
/// column and width, in characters, of the underlined part.
pub struct Span {
    pub line: u64,
    pub column: usize,
    pub width: usize,
    pub text: String,
}

/// The word a severity renders to.
pub open spec fn severity_word(severity: Severity) -> Seq<char> {
    match severity {
        Severity::Error => "error"@,
        Severity::Warning => "warning"@,
    }
}

/// How many display cells one character occupies.
pub open spec fn cell_width(c: char) -> int {
    if c == '\t' {
        4
    } else {
        1
    }
}

/// How many display cells a string occupies.
pub open spec fn cells(s: Seq<char>) -> int
    decreases s.len(),
{
    if s.len() == 0 {
        0
    } else {
        cell_width(s[0]) + cells(s.drop_first())
    }
}

/// `n` caret characters.
pub open spec fn carets(n: int) -> Seq<char>
    decreases n,
{
    if n <= 0 {
        Seq::<char>::empty()
    } else {
        carets(n - 1).push('^')
    }
}

/// The caret underline of a span: one caret per display cell of the
/// underlined text, and a single caret for an empty span.
pub open spec fn underline(text: Seq<char>, column: int, width: int) -> Seq<char> {
    if width == 0 {
        carets(1)
    } else {
        carets(cells(text.subrange(column, column + width)))
    }
}

/// The rendering of a diagnostic without a span: the severity and the
/// message.
pub open spec fn headline_spec(severity: Severity, message: Seq<char>) -> Seq<char> {
    severity_word(severity) + ": "@ + message
}

/// The rendering of a diagnostic with a span: the headline, then the
/// source line behind its right-aligned number, then the caret underline
/// positioned by display cells.
pub open spec fn rendered_spec(severity: Severity, message: Seq<char>, span: Span) -> Seq<char> {
    let number = dec_spec(span.line as int);
    let gutter = spaces(number.len() as int);
    headline_spec(severity, message) + "\n"@ + gutter + " |\n"@ + number + " | "@ + span.text@
        + "\n"@ + gutter + " | "@ + spaces(cells(span.text@.take(span.column as int)))
        + underline(span.text@, span.column as int, span.width as int)
}

/// Sums the display cells of `v` from `from` (inclusive) to `to`
/// (exclusive).
fn count_cells(v: &Vec<char>, from: usize, to: usize) -> (r: usize)
    requires
        from <= to <= v@.len(),
        v@.len() <= usize::MAX / 4,
    ensures
        r as int == cells(v@.subrange(from as int, to as int)),
        r <= 4 * (to - from),
    decreases to - from,
{
    if from == to {
        proof {
            assert(v@.subrange(from as int, to as int) =~= Seq::<char>::empty());
        }
        return 0;
    }
    let head: usize = if v[from] == '\t' {
        4
    } else {
        1
    };
    let rest = count_cells(v, from + 1, to);
    proof {
        let s = v@.subrange(from as int, to as int);
        assert(s[0] == v@[from as int]);
        assert(s.drop_first() =~= v@.subrange(from as int + 1, to as int));
    }
    head + rest
}

/// Appends `n` carets to `out`.
fn push_carets(out: &mut String, n: usize)
    ensures
        final(out)@ == old(out)@ + carets(n as int),
{
    let mut i: usize = 0;
    while i < n
        invariant
            i <= n,
            out@ == old(out)@ + carets(i as int),
        decreases n - i,
    {
        push_char(out, '^');
        i = i + 1;
    }
}

/// Appends `n` spaces to `out`.
fn pad(out: &mut String, n: usize)
    ensures
        final(out)@ == old(out)@ + spaces(n as int),
{
    let mut i: usize = 0;
    while i < n
        invariant
            i <= n,
            out@ == old(out)@ + spaces(i as int),
        decreases n - i,
    {
        push_char(out, ' ');
        i = i + 1;
    }
}

/// The word for a severity.
fn severity_str(severity: Severity) -> (r: &'static str)
    ensures
        r@ == severity_word(severity),
{
    match severity {
        Severity::Error => "error",
        Severity::Warning => "warning",
    }
}

/// Renders a diagnostic without a span.
pub fn headline(severity: Severity, message: &str) -> (r: String)
    ensures
        r@ == headline_spec(severity, message@),
{
    let mut r = String::from_str(severity_str(severity));
    r.append(": ");
    r.append(message);
    r
}

/// Renders a diagnostic with a span, in plain form.
pub fn rendered(severity: Severity, message: &str, span: &Span) -> (r: String)
    requires
        span.column + span.width <= span.text@.len(),
        span.text@.len() <= usize::MAX / 4,
    ensures
        r@ == rendered_spec(severity, message@, *span),
{
    let chars = str_chars(span.text.as_str());
    let number = dec_string(span.line);
    let number_width = number.as_str().unicode_len();
    let mut r = headline(severity, message);
    r.append("\n");
    pad(&mut r, number_width);
    r.append(" |\n");
    r.append(number.as_str());
    r.append(" | ");
    r.append(span.text.as_str());
    r.append("\n");
    pad(&mut r, number_width);
    r.append(" | ");
    let indent = count_cells(&chars, 0, span.column);
    pad(&mut r, indent);
    proof {
        assert(chars@.subrange(0, span.column as int) =~= span.text@.take(span.column as int));
    }
    if span.width == 0 {
        push_carets(&mut r, 1);
    } else {
        let caret_cells = count_cells(&chars, span.column, span.column + span.width);
        push_carets(&mut r, caret_cells);
        proof {
            assert(chars@.subrange(span.column as int, span.column as int + span.width as int)
                =~= span.text@.subrange(
                span.column as int,
                span.column as int + span.width as int,
            ));
        }
    }
    proof {
        assert(r@ =~= rendered_spec(severity, message@, *span));
    }
    r
}

} // verus!
