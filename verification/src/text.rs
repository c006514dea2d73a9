//! Character and string utilities shared by the rest of the crate.
//!
//! Strings are modelled as `Seq<char>`; every executable helper here states
//! exactly what it returns in terms of that model.

use vstd::prelude::*;

verus! {

/// The Unicode `White_Space` characters, the set that `char::is_whitespace`
/// recognizes.
pub open spec fn is_space_char(c: char) -> bool {
    c == ' ' || c == '\t' || c == '\n' || c == '\r' || c == '\u{b}' || c == '\u{c}'
        || c == '\u{85}' || c == '\u{a0}' || c == '\u{1680}'
        || (0x2000 <= c as u32 && c as u32 <= 0x200a)
        || c == '\u{2028}' || c == '\u{2029}' || c == '\u{202f}' || c == '\u{205f}'
        || c == '\u{3000}'
}

/// Decides `is_space_char`.
pub fn space_char(c: char) -> (r: bool)
    ensures
        r == is_space_char(c),
{
    let u = c as u32;
    u == 0x20 || u == 0x9 || u == 0xa || u == 0xd || u == 0xb || u == 0xc || u == 0x85
        || u == 0xa0 || u == 0x1680 || (0x2000 <= u && u <= 0x200a) || u == 0x2028
        || u == 0x2029 || u == 0x202f || u == 0x205f || u == 0x3000
}

/// The characters of `s`, in order.
pub fn str_chars(s: &str) -> (r: Vec<char>)
    ensures
        r@ == s@,
{
    let n = s.unicode_len();
    let mut r: Vec<char> = Vec::new();
    let mut i: usize = 0;
    while i < n
        invariant
            n == s@.len(),
            i <= n,
            r@ == s@.take(i as int),
        decreases n - i,
    {
        let c = s.get_char(i);
        r.push(c);
        i = i + 1;
        proof {
            assert(r@ =~= s@.take(i as int));
        }
    }
    proof {
        assert(r@ =~= s@);
    }
    r
}

/// Relies on `String::push`: appends one character at the end of the string.
#[verifier::external_body]
pub fn push_char(s: &mut String, c: char)
    ensures
        final(s)@ == old(s)@.push(c),
{
    s.push(c);
}

/// A `String` holding exactly the characters of `v`.
pub fn chars_to_string(v: &Vec<char>) -> (r: String)
    ensures
        r@ == v@,
{
    let mut r = String::new();
    let mut i: usize = 0;
    while i < v.len()
        invariant
            i <= v@.len(),
            r@ == v@.take(i as int),
        decreases v@.len() - i,
    {
        push_char(&mut r, v[i]);
        i = i + 1;
        proof {
            assert(r@ =~= v@.take(i as int));
        }
    }
    proof {
        assert(r@ =~= v@);
    }
    r
}

/// Index of the first character of `s` satisfying `p`, or `s.len()` if none
/// does.
pub open spec fn first_where(s: Seq<char>, p: spec_fn(char) -> bool) -> int
    decreases s.len(),
{
    if s.len() == 0 {
        0
    } else if p(s[0]) {
        0
    } else {
        1 + first_where(s.drop_first(), p)
    }
}

/// Index of the last character of `s` satisfying `p`, or `-1` if none does.
pub open spec fn last_where(s: Seq<char>, p: spec_fn(char) -> bool) -> int
    decreases s.len(),
{
    if s.len() == 0 {
        -1
    } else if p(s.last()) {
        s.len() - 1
    } else {
        last_where(s.drop_last(), p)
    }
}

pub proof fn lemma_first_where(s: Seq<char>, p: spec_fn(char) -> bool)
    ensures
        0 <= first_where(s, p) <= s.len(),
        forall|j: int| 0 <= j < first_where(s, p) ==> !p(s[j]),
        first_where(s, p) < s.len() ==> p(s[first_where(s, p)]),
    decreases s.len(),
{
    if s.len() == 0 {
    } else if p(s[0]) {
    } else {
        lemma_first_where(s.drop_first(), p);
        assert forall|j: int| 0 <= j < first_where(s, p) implies !p(s[j]) by {
            if j >= 1 {
                assert(!p(s.drop_first()[j - 1]));
                assert(s.drop_first()[j - 1] == s[j]);
            }
        }
        if first_where(s, p) < s.len() {
            assert(p(s.drop_first()[first_where(s.drop_first(), p)]));
            assert(s.drop_first()[first_where(s.drop_first(), p)] == s[first_where(s, p)]);
        }
    }
}

/// `first_where` is the unique index below which `p` fails and at which `p`
/// holds (or `s.len()` when `p` never holds).
pub proof fn lemma_first_where_is(s: Seq<char>, p: spec_fn(char) -> bool, i: int)
    requires
        0 <= i <= s.len(),
        forall|j: int| 0 <= j < i ==> !p(s[j]),
        i < s.len() ==> p(s[i]),
    ensures
        first_where(s, p) == i,
{
    lemma_first_where(s, p);
    let f = first_where(s, p);
    if f < i {
        assert(p(s[f]));
        assert(!p(s[f]));
    } else if i < f {
        assert(!p(s[i]));
        assert(p(s[i]));
    }
}

pub proof fn lemma_last_where(s: Seq<char>, p: spec_fn(char) -> bool)
    ensures
        -1 <= last_where(s, p) < s.len(),
        forall|j: int| last_where(s, p) < j < s.len() ==> !p(s[j]),
        last_where(s, p) >= 0 ==> p(s[last_where(s, p)]),
    decreases s.len(),
{
    if s.len() == 0 {
    } else if p(s.last()) {
    } else {
        lemma_last_where(s.drop_last(), p);
        assert(forall|j: int|
            0 <= j < s.len() - 1 ==> s.drop_last()[j] == s[j]);
    }
}

/// `last_where` is the unique index above which `p` fails and at which `p`
/// holds (or `-1` when `p` never holds).
pub proof fn lemma_last_where_is(s: Seq<char>, p: spec_fn(char) -> bool, i: int)
    requires
        -1 <= i < s.len(),
        forall|j: int| i < j < s.len() ==> !p(s[j]),
        i >= 0 ==> p(s[i]),
    ensures
        last_where(s, p) == i,
{
    lemma_last_where(s, p);
    let f = last_where(s, p);
    if f < i {
        assert(!p(s[i]));
        assert(p(s[i]));
    } else if i < f {
        assert(!p(s[f]));
        assert(p(s[f]));
    }
}

/// The predicate selecting a newline character.
pub open spec fn newline_p() -> spec_fn(char) -> bool {
    |c: char| c == '\n'
}

/// The predicate selecting a space or tab, the separators inside a shebang
/// line.
pub open spec fn sep_p() -> spec_fn(char) -> bool {
    |c: char| c == ' ' || c == '\t'
}

/// The predicate selecting a forward or backward slash.
pub open spec fn slash_p() -> spec_fn(char) -> bool {
    |c: char| c == '/' || c == '\\'
}

/// The predicate selecting a character that is not whitespace.
pub open spec fn non_space_p() -> spec_fn(char) -> bool {
    |c: char| !is_space_char(c)
}

/// `s` with leading whitespace removed.
pub open spec fn trim_start_spec(s: Seq<char>) -> Seq<char>
    decreases s.len(),
{
    if s.len() > 0 && is_space_char(s[0]) {
        trim_start_spec(s.drop_first())
    } else {
        s
    }
}

/// `s` with trailing whitespace removed.
pub open spec fn trim_end_spec(s: Seq<char>) -> Seq<char>
    decreases s.len(),
{
    if s.len() > 0 && is_space_char(s.last()) {
        trim_end_spec(s.drop_last())
    } else {
        s
    }
}

/// `s` with leading and trailing whitespace removed, the model of `str::trim`.
pub open spec fn trim_spec(s: Seq<char>) -> Seq<char> {
    trim_end_spec(trim_start_spec(s))
}

pub proof fn lemma_trim_start(s: Seq<char>)
    ensures
        trim_start_spec(s) == s.skip(first_where(s, non_space_p())),
    decreases s.len(),
{
    lemma_first_where(s, non_space_p());
    if s.len() > 0 && is_space_char(s[0]) {
        lemma_trim_start(s.drop_first());
        assert(s.drop_first() =~= s.skip(1));
        let f = first_where(s.drop_first(), non_space_p());
        assert(first_where(s, non_space_p()) == 1 + f);
        assert(s.drop_first().skip(f) =~= s.skip(1 + f));
    } else {
        assert(s.skip(0) =~= s);
    }
}

pub proof fn lemma_trim_end(s: Seq<char>)
    ensures
        trim_end_spec(s) == s.take(last_where(s, non_space_p()) + 1),
    decreases s.len(),
{
    lemma_last_where(s, non_space_p());
    if s.len() > 0 && is_space_char(s.last()) {
        lemma_trim_end(s.drop_last());
        assert(s.drop_last() =~= s.take(s.len() - 1));
        let f = last_where(s.drop_last(), non_space_p());
        assert(last_where(s, non_space_p()) == f);
        assert(s.drop_last().take(f + 1) =~= s.take(f + 1));
    } else {
        assert(s.take(s.len() as int) =~= s);
    }
}

/// The characters of `v` from `from` (inclusive) to `to` (exclusive).
pub fn sub_chars(v: &Vec<char>, from: usize, to: usize) -> (r: Vec<char>)
    requires
        from <= to <= v@.len(),
    ensures
        r@ == v@.subrange(from as int, to as int),
{
    let mut r: Vec<char> = Vec::new();
    let mut i: usize = from;
    while i < to
        invariant
            from <= i <= to <= v@.len(),
            r@ == v@.subrange(from as int, i as int),
        decreases to - i,
    {
        r.push(v[i]);
        i = i + 1;
        proof {
            assert(r@ =~= v@.subrange(from as int, i as int));
        }
    }
    r
}

/// Index of the first space or tab in `v`, or `v.len()` if there is none.
pub fn first_sep_index(v: &Vec<char>) -> (r: usize)
    ensures
        r as int == first_where(v@, sep_p()),
{
    let mut i: usize = 0;
    while i < v.len()
        invariant
            i <= v@.len(),
            forall|j: int| 0 <= j < i ==> !(sep_p())(v@[j]),
        decreases v@.len() - i,
    {
        let c = v[i];
        if c == ' ' || c == '\t' {
            proof {
                lemma_first_where_is(v@, sep_p(), i as int);
            }
            return i;
        }
        i = i + 1;
    }
    proof {
        lemma_first_where_is(v@, sep_p(), v@.len() as int);
    }
    i
}

/// Index of the first newline in `v`, or `v.len()` if there is none.
pub fn first_newline_index(v: &Vec<char>) -> (r: usize)
    ensures
        r as int == first_where(v@, newline_p()),
{
    let mut i: usize = 0;
    while i < v.len()
        invariant
            i <= v@.len(),
            forall|j: int| 0 <= j < i ==> !(newline_p())(v@[j]),
        decreases v@.len() - i,
    {
        if v[i] == '\n' {
            proof {
                lemma_first_where_is(v@, newline_p(), i as int);
            }
            return i;
        }
        i = i + 1;
    }
    proof {
        lemma_first_where_is(v@, newline_p(), v@.len() as int);
    }
    i
}

/// Index of the last slash or backslash in `v`, if any.
pub fn last_slash_index(v: &Vec<char>) -> (r: Option<usize>)
    ensures
        match r {
            Some(i) => i as int == last_where(v@, slash_p()),
            None => last_where(v@, slash_p()) == -1,
        },
{
    let mut i: usize = v.len();
    while i > 0
        invariant
            i <= v@.len(),
            forall|j: int| i <= j < v@.len() ==> !(slash_p())(v@[j]),
        decreases i,
    {
        i = i - 1;
        let c = v[i];
        if c == '/' || c == '\\' {
            proof {
                lemma_last_where_is(v@, slash_p(), i as int);
            }
            return Some(i);
        }
    }
    proof {
        lemma_last_where_is(v@, slash_p(), -1);
    }
    None
}

/// `v` with leading and trailing whitespace removed.
pub fn trim_chars(v: &Vec<char>) -> (r: Vec<char>)
    ensures
        r@ == trim_spec(v@),
{
    let n = v.len();
    let mut a: usize = 0;
    while a < n
        invariant_except_break
            a <= n == v@.len(),
            forall|j: int| 0 <= j < a ==> is_space_char(v@[j]),
        ensures
            a <= n == v@.len(),
            forall|j: int| 0 <= j < a ==> is_space_char(v@[j]),
            a < n ==> !is_space_char(v@[a as int]),
        decreases n - a,
    {
        if !space_char(v[a]) {
            break;
        }
        a = a + 1;
    }
    if a == n {
        proof {
            lemma_first_where_is(v@, non_space_p(), n as int);
            lemma_trim_start(v@);
            assert(v@.skip(n as int) =~= Seq::<char>::empty());
            assert(trim_end_spec(Seq::<char>::empty()) =~= Seq::<char>::empty());
        }
        return Vec::new();
    }
    proof {
        lemma_first_where_is(v@, non_space_p(), a as int);
        lemma_trim_start(v@);
    }
    let mut b: usize = n - 1;
    while b > a
        invariant_except_break
            a <= b < n == v@.len(),
            forall|j: int| b < j < n ==> is_space_char(v@[j]),
        ensures
            a <= b < n == v@.len(),
            forall|j: int| b < j < n ==> is_space_char(v@[j]),
            !is_space_char(v@[b as int]) || b == a,
        decreases b,
    {
        if !space_char(v[b]) {
            break;
        }
        b = b - 1;
    }
    let r = sub_chars(v, a, b + 1);
    proof {
        let t = v@.skip(a as int);
        assert(forall|j: int| 0 <= j < t.len() ==> t[j] == v@[a + j]);
        lemma_last_where_is(t, non_space_p(), b - a);
        lemma_trim_end(t);
        assert(t.take(b - a + 1) =~= v@.subrange(a as int, b as int + 1));
    }
    r
}

/// Whether two string slices hold the same characters.
pub fn str_eq_str(a: &str, b: &str) -> (r: bool)
    ensures
        r == (a@ == b@),
{
    let na = a.unicode_len();
    let nb = b.unicode_len();
    if na != nb {
        proof {
            assert(a@ != b@);
        }
        return false;
    }
    let mut i: usize = 0;
    while i < na
        invariant
            na == a@.len(),
            na == b@.len(),
            i <= na,
            forall|j: int| 0 <= j < i ==> a@[j] == b@[j],
        decreases na - i,
    {
        if a.get_char(i) != b.get_char(i) {
            return false;
        }
        i = i + 1;
    }
    proof {
        assert(a@ =~= b@);
    }
    true
}

/// The decimal digit character for `d`.
pub open spec fn dec_digit(d: int) -> char {
    if d == 0 {
        '0'
    } else if d == 1 {
        '1'
    } else if d == 2 {
        '2'
    } else if d == 3 {
        '3'
    } else if d == 4 {
        '4'
    } else if d == 5 {
        '5'
    } else if d == 6 {
        '6'
    } else if d == 7 {
        '7'
    } else if d == 8 {
        '8'
    } else {
        '9'
    }
}

/// The decimal rendering of `n`, without leading zeros.
pub open spec fn dec_spec(n: int) -> Seq<char>
    decreases n,
{
    if n < 10 {
        seq![dec_digit(n)]
    } else {
        dec_spec(n / 10) + seq![dec_digit(n % 10)]
    }
}

/// The digit character for `d`.
fn digit_char(d: u64) -> (c: char)
    requires
        d < 10,
    ensures
        c == dec_digit(d as int),
{
    if d == 0 {
        '0'
    } else if d == 1 {
        '1'
    } else if d == 2 {
        '2'
    } else if d == 3 {
        '3'
    } else if d == 4 {
        '4'
    } else if d == 5 {
        '5'
    } else if d == 6 {
        '6'
    } else if d == 7 {
        '7'
    } else if d == 8 {
        '8'
    } else {
        '9'
    }
}

/// Appends the decimal rendering of `n` to `out`.
fn push_dec(n: u64, out: &mut String)
    ensures
        final(out)@ == old(out)@ + dec_spec(n as int),
    decreases n,
{
    if n < 10 {
        push_char(out, digit_char(n));
        proof {
            assert(out@ =~= old(out)@ + dec_spec(n as int));
        }
    } else {
        push_dec(n / 10, out);
        push_char(out, digit_char(n % 10));
        proof {
            assert(out@ =~= old(out)@ + dec_spec(n as int));
        }
    }
}

/// The decimal rendering of `n`.
pub fn dec_string(n: u64) -> (r: String)
    ensures
        r@ == dec_spec(n as int),
{
    let mut r = String::new();
    push_dec(n, &mut r);
    proof {
        assert(Seq::<char>::empty() + dec_spec(n as int) =~= dec_spec(n as int));
    }
    r
}

/// The concatenation of three strings.
pub fn msg3(a: &str, b: &str, c: &str) -> (r: String)
    ensures
        r@ == a@ + b@ + c@,
{
    let mut r = String::from_str(a);
    r.append(b);
    r.append(c);
    r
}

/// Appends all characters of `other` to `r`.
pub fn append_chars(r: &mut Vec<char>, other: &Vec<char>)
    ensures
        final(r)@ == old(r)@ + other@,
{
    let mut i: usize = 0;
    while i < other.len()
        invariant
            i <= other@.len(),
            r@ == old(r)@ + other@.take(i as int),
        decreases other@.len() - i,
    {
        r.push(other[i]);
        i = i + 1;
        proof {
            assert(r@ =~= old(r)@ + other@.take(i as int));
        }
    }
    proof {
        assert(old(r)@ + other@.take(other@.len() as int) =~= old(r)@ + other@);
    }
}

/// Whether `from` occurs in `s` starting at index `i`.
pub fn matches_at(s: &Vec<char>, from: &Vec<char>, i: usize) -> (r: bool)
    requires
        i <= s@.len(),
    ensures
        r == (i + from@.len() <= s@.len() && s@.subrange(
            i as int,
            i as int + from@.len() as int,
        ) == from@),
{
    let m = from.len();
    if m > s.len() - i {
        return false;
    }
    let mut j: usize = 0;
    while j < m
        invariant
            j <= m == from@.len(),
            i + m <= s@.len() <= usize::MAX,
            forall|k: int| 0 <= k < j ==> s@[i + k] == from@[k],
        decreases m - j,
    {
        if s[i + j] != from[j] {
            proof {
                assert(s@.subrange(i as int, i as int + m as int)[j as int] != from@[j as int]);
            }
            return false;
        }
        j = j + 1;
    }
    proof {
        assert(s@.subrange(i as int, i as int + m as int) =~= from@);
    }
    true
}

/// `s` with every non-overlapping occurrence of `from`, found left to right,
/// replaced by `to`; an empty `from` matches at every character boundary,
/// including both ends. The model of `str::replace`.
pub open spec fn replace_spec(s: Seq<char>, from: Seq<char>, to: Seq<char>) -> Seq<char>
    decreases s.len(),
{
    if from.len() == 0 {
        if s.len() == 0 {
            to
        } else {
            to + seq![s[0]] + replace_spec(s.drop_first(), from, to)
        }
    } else if s.len() < from.len() {
        s
    } else if s.take(from.len() as int) == from {
        to + replace_spec(s.skip(from.len() as int), from, to)
    } else {
        seq![s[0]] + replace_spec(s.drop_first(), from, to)
    }
}

/// Replaces every occurrence of `from` in `s` by `to`.
pub fn replace_chars(s: &Vec<char>, from: &Vec<char>, to: &Vec<char>) -> (r: Vec<char>)
    ensures
        r@ == replace_spec(s@, from@, to@),
{
    let n = s.len();
    let m = from.len();
    let mut r: Vec<char> = Vec::new();
    let mut i: usize = 0;
    proof {
        assert(s@.skip(0) =~= s@);
        assert(replace_spec(s@, from@, to@) == Seq::<char>::empty() + replace_spec(s@, from@, to@))
            by {
            assert(Seq::<char>::empty() + replace_spec(s@, from@, to@) =~= replace_spec(
                s@,
                from@,
                to@,
            ));
        }
    }
    while i < n
        invariant
            i <= n == s@.len(),
            m == from@.len(),
            replace_spec(s@, from@, to@) == r@ + replace_spec(s@.skip(i as int), from@, to@),
        decreases n - i,
    {
        let ghost r0 = r@;
        let ghost rem = s@.skip(i as int);
        proof {
            assert(rem.len() == n - i);
            assert(rem[0] == s@[i as int]);
        }
        if m == 0 {
            append_chars(&mut r, to);
            r.push(s[i]);
            proof {
                let x = replace_spec(s@.skip(i as int + 1), from@, to@);
                assert(rem.drop_first() =~= s@.skip(i as int + 1));
                assert(replace_spec(rem, from@, to@) == to@ + seq![rem[0]] + x);
                assert(r@ + x =~= r0 + (to@ + seq![rem[0]] + x));
            }
            i = i + 1;
        } else if matches_at(s, from, i) {
            append_chars(&mut r, to);
            proof {
                let x = replace_spec(s@.skip(i as int + m as int), from@, to@);
                assert(rem.take(m as int) =~= s@.subrange(i as int, i as int + m as int));
                assert(rem.skip(m as int) =~= s@.skip(i as int + m as int));
                assert(replace_spec(rem, from@, to@) == to@ + x);
                assert(r@ + x =~= r0 + (to@ + x));
            }
            i = i + m;
        } else {
            r.push(s[i]);
            proof {
                let x = replace_spec(s@.skip(i as int + 1), from@, to@);
                if i + m <= n {
                    assert(rem.take(m as int) =~= s@.subrange(i as int, i as int + m as int));
                    assert(rem.take(m as int) != from@);
                    assert(rem.drop_first() =~= s@.skip(i as int + 1));
                    assert(replace_spec(rem, from@, to@) == seq![rem[0]] + x);
                } else {
                    assert(rem.len() < m);
                    assert(replace_spec(rem, from@, to@) == rem);
                    assert(s@.skip(i as int + 1).len() < m);
                    assert(x == s@.skip(i as int + 1));
                    assert(rem =~= seq![rem[0]] + s@.skip(i as int + 1));
                }
                assert(r@ + x =~= r0 + (seq![rem[0]] + x));
            }
            i = i + 1;
        }
    }
    proof {
        assert(s@.skip(n as int) =~= Seq::<char>::empty());
    }
    if m == 0 {
        let ghost r0 = r@;
        append_chars(&mut r, to);
        proof {
            assert(replace_spec(Seq::<char>::empty(), from@, to@) == to@);
            assert(r@ =~= r0 + to@);
        }
    } else {
        proof {
            assert(replace_spec(Seq::<char>::empty(), from@, to@) == Seq::<char>::empty());
            assert(r@ + Seq::<char>::empty() =~= r@);
        }
    }
    r
}

} // verus!
