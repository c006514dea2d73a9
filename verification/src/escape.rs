//! Escape sequences of cooked string literals.
//!
//! A double-quoted literal understands `\n`, `\r`, `\t`, `\"` and `\\`;
//! any other escape is an error naming the sequence. Pretty-printing walks
//! the other way, escaping those characters back. Decoding what escaping
//! produced returns the original text.

use vstd::prelude::*;

use crate::text::push_char;

verus! {

/// What one escaped character decodes to, if the escape is valid.
pub open spec fn unescape_char(c: char) -> Option<char> {
    if c == 'n' {
        Some('\n')
    } else if c == 'r' {
        Some('\r')
    } else if c == 't' {
        Some('\t')
    } else if c == '"' {
        Some('"')
    } else if c == '\\' {
        Some('\\')
    } else {
        None
    }
}

/// The error message an invalid escape yields.
pub open spec fn bad_escape_msg(c: char) -> Seq<char> {
    "`\\"@ + seq![c] + "` is not a valid escape sequence"@
}

/// What decoding the body of a cooked string literal yields: the text with
/// every escape sequence replaced, or the message of the first invalid
/// escape. A backslash ending the text is an invalid escape of nothing.
pub open spec fn cook_spec(s: Seq<char>) -> Result<Seq<char>, Seq<char>>
    decreases s.len(),
{
    if s.len() == 0 {
        Ok(Seq::<char>::empty())
    } else if s[0] != '\\' {
        match cook_spec(s.drop_first()) {
            Ok(r) => Ok(seq![s[0]] + r),
            Err(m) => Err(m),
        }
    } else if s.len() == 1 {
        Err("`\\` is not a valid escape sequence"@)
    } else {
        match unescape_char(s[1]) {
            Some(c) => match cook_spec(s.skip(2)) {
                Ok(r) => Ok(seq![c] + r),
                Err(m) => Err(m),
            },
            None => Err(bad_escape_msg(s[1])),
        }
    }
}

/// How one character is escaped when a literal is printed back.
pub open spec fn escape_char(c: char) -> Seq<char> {
    if c == '\n' {
        seq!['\\', 'n']
    } else if c == '\r' {
        seq!['\\', 'r']
    } else if c == '\t' {
        seq!['\\', 't']
    } else if c == '"' {
        seq!['\\', '"']
    } else if c == '\\' {
        seq!['\\', '\\']
    } else {
        seq![c]
    }
}

/// The body of a printed cooked string literal: every character escaped as
/// needed.
pub open spec fn escape_spec(s: Seq<char>) -> Seq<char>
    decreases s.len(),
{
    if s.len() == 0 {
        Seq::<char>::empty()
    } else {
        escape_char(s[0]) + escape_spec(s.drop_first())
    }
}

/// Decoding what escaping produced returns the original text: the two
/// directions of literal printing and reading cancel.
pub proof fn lemma_escape_round_trip(s: Seq<char>)
    ensures
        cook_spec(escape_spec(s)) == Ok::<Seq<char>, Seq<char>>(s),
    decreases s.len(),
{
    if s.len() == 0 {
        assert(escape_spec(s) =~= Seq::<char>::empty());
        assert(s =~= Seq::<char>::empty());
    } else {
        lemma_escape_round_trip(s.drop_first());
        let e = escape_spec(s);
        let head = escape_char(s[0]);
        let tail = escape_spec(s.drop_first());
        assert(e == head + tail);
        if head.len() == 2 {
            assert(e[0] == '\\');
            assert(e[1] == head[1]);
            assert(e.len() >= 2);
            assert(e.skip(2) =~= tail);
            assert(unescape_char(head[1]) == Some(s[0]));
            assert(cook_spec(tail) == Ok::<Seq<char>, Seq<char>>(s.drop_first()));
            assert(cook_spec(e) == Ok::<Seq<char>, Seq<char>>(seq![s[0]] + s.drop_first()));
            assert(seq![s[0]] + s.drop_first() =~= s);
        } else {
            assert(head =~= seq![s[0]]);
            assert(e[0] == s[0]);
            assert(s[0] != '\\');
            assert(e.drop_first() =~= tail);
            assert(cook_spec(tail) == Ok::<Seq<char>, Seq<char>>(s.drop_first()));
            assert(cook_spec(e) == Ok::<Seq<char>, Seq<char>>(seq![s[0]] + s.drop_first()));
            assert(seq![s[0]] + s.drop_first() =~= s);
        }
    }
}

/// The escaped form of one character, appended to `out`.
fn push_escaped(out: &mut String, c: char)
    ensures
        final(out)@ == old(out)@ + escape_char(c),
{
    if c == '\n' {
        push_char(out, '\\');
        push_char(out, 'n');
    } else if c == '\r' {
        push_char(out, '\\');
        push_char(out, 'r');
    } else if c == '\t' {
        push_char(out, '\\');
        push_char(out, 't');
    } else if c == '"' {
        push_char(out, '\\');
        push_char(out, '"');
    } else if c == '\\' {
        push_char(out, '\\');
        push_char(out, '\\');
    } else {
        push_char(out, c);
    }
    proof {
        assert(out@ =~= old(out)@ + escape_char(c));
    }
}

/// Escapes `s` for printing inside a cooked string literal.
pub fn escape(s: &str) -> (r: String)
    ensures
        r@ == escape_spec(s@),
{
    let chars = crate::text::str_chars(s);
    let mut out = String::new();
    let mut i: usize = 0;
    proof {
        assert(chars@.skip(0) =~= s@);
    }
    while i < chars.len()
        invariant
            i <= chars@.len(),
            chars@ == s@,
            escape_spec(s@) == out@ + escape_spec(s@.skip(i as int)),
        decreases chars@.len() - i,
    {
        let ghost out0 = out@;
        proof {
            assert(s@.skip(i as int)[0] == s@[i as int]);
            assert(s@.skip(i as int).drop_first() =~= s@.skip(i as int + 1));
        }
        push_escaped(&mut out, chars[i]);
        proof {
            let x = escape_spec(s@.skip(i as int + 1));
            assert(escape_spec(s@.skip(i as int)) == escape_char(s@[i as int]) + x);
            assert(out@ + x =~= out0 + (escape_char(s@[i as int]) + x));
        }
        i = i + 1;
    }
    proof {
        assert(s@.skip(chars@.len() as int) =~= Seq::<char>::empty());
        assert(out@ + Seq::<char>::empty() =~= out@);
    }
    out
}

/// Decodes the body of a cooked string literal: every escape sequence is
/// replaced, and the first invalid escape is the error.
pub fn cook(s: &str) -> (r: Result<String, String>)
    ensures
        match r {
            Ok(v) => cook_spec(s@) == Ok::<Seq<char>, Seq<char>>(v@),
            Err(m) => cook_spec(s@) == Err::<Seq<char>, Seq<char>>(m@),
        },
{
    let chars = crate::text::str_chars(s);
    let n = chars.len();
    let mut out = String::new();
    let mut i: usize = 0;
    proof {
        assert(chars@.skip(0) =~= s@);
    }
    while i < n
        invariant
            i <= n == chars@.len(),
            chars@ == s@,
            cook_spec(s@) == (match cook_spec(s@.skip(i as int)) {
                Ok(rest) => Ok::<Seq<char>, Seq<char>>(out@ + rest),
                Err(m) => Err::<Seq<char>, Seq<char>>(m),
            }),
        decreases n - i,
    {
        let ghost out0 = out@;
        let ghost srest = s@.skip(i as int);
        proof {
            assert(srest[0] == s@[i as int]);
            assert(srest.drop_first() =~= s@.skip(i as int + 1));
        }
        let c = chars[i];
        if c != '\\' {
            push_char(&mut out, c);
            proof {
                let x = cook_spec(s@.skip(i as int + 1));
                if x is Ok {
                    assert(out@ + x->Ok_0 =~= out0 + (seq![c] + x->Ok_0));
                }
            }
            i = i + 1;
        } else if i + 1 == n {
            proof {
                assert(srest.len() == 1);
            }
            return Err(String::from_str("`\\` is not a valid escape sequence"));
        } else {
            let e = chars[i + 1];
            proof {
                assert(srest[1] == s@[i as int + 1]);
                assert(srest.skip(2) =~= s@.skip(i as int + 2));
            }
            let decoded = if e == 'n' {
                Some('\n')
            } else if e == 'r' {
                Some('\r')
            } else if e == 't' {
                Some('\t')
            } else if e == '"' {
                Some('"')
            } else if e == '\\' {
                Some('\\')
            } else {
                None
            };
            match decoded {
                Some(d) => {
                    push_char(&mut out, d);
                    proof {
                        let x = cook_spec(s@.skip(i as int + 2));
                        if x is Ok {
                            assert(out@ + x->Ok_0 =~= out0 + (seq![d] + x->Ok_0));
                        }
                    }
                    i = i + 2;
                },
                None => {
                    let mut m = String::from_str("`\\");
                    push_char(&mut m, e);
                    m.append("` is not a valid escape sequence");
                    proof {
                        assert(m@ =~= bad_escape_msg(s@[i as int + 1]));
                    }
                    return Err(m);
                },
            }
        }
    }
    proof {
        assert(s@.skip(n as int) =~= Seq::<char>::empty());
        assert(out@ + Seq::<char>::empty() =~= out@);
    }
    Ok(out)
}

} // verus!
