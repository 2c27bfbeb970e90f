//! Character and string helpers shared by the lexers and code generators.
use vstd::prelude::*;

verus! {

/// Appends one character to a `String` (`String::push` of std).
///
/// Trusted: `String::push` appends `c` at the end of the string and changes nothing else.
#[verifier::external_body]
pub(crate) fn push_char(s: &mut String, c: char)
    ensures
        final(s)@ == old(s)@.push(c),
{
    s.push(c);
}

/// `format!("{:#?}", x)` of std: the pretty `Debug` form of a value (for a string, the
/// string between double quotes with its special characters escaped).
///
/// Trusted, and nothing is stated of the result: it only goes into error messages.
#[verifier::external_body]
pub(crate) fn debug_pretty<T: std::fmt::Debug + ?Sized>(x: &T) -> String {
    format!("{:#?}", x)
}

/// What `format!("{:#?}", s)` gives for a string slice `s`: the string between double
/// quotes, with its special characters escaped. A function of the characters alone.
pub uninterp spec fn debug_str_text(s: Seq<char>) -> Seq<char>;

/// `format!("{:#?}", s)` of std for a string slice.
///
/// Trusted: the contract only names the result as `debug_str_text` of the characters;
/// what that text is is not stated.
#[verifier::external_body]
pub(crate) fn debug_str(s: &str) -> (r: String)
    ensures
        r@ == debug_str_text(s@),
{
    format!("{:#?}", s)
}

/// The characters of a string slice, in order.
pub fn to_chars(s: &str) -> (v: Vec<char>)
    ensures
        v@ == s@,
{
    broadcast use vstd::string::group_string_axioms;

    let mut v: Vec<char> = Vec::new();
    for c in it: s.chars()
        invariant
            it.seq() == s@,
            v@ == s@.take(it.index() as int),
    {
        v.push(c);
        assert(s@.take(it.index() + 1) == s@.take(it.index() as int).push(c));
    }
    assert(s@.take(s@.len() as int) == s@);
    v
}

/// Builds a `String` holding exactly the given characters.
pub fn from_chars(v: &[char]) -> (s: String)
    ensures
        s@ == v@,
{
    let mut s = String::new();
    let mut i: usize = 0;
    while i < v.len()
        invariant
            i <= v@.len(),
            s@ == v@.take(i as int),
        decreases v@.len() - i,
    {
        push_char(&mut s, v[i]);
        assert(v@.take(i + 1) == v@.take(i as int).push(v@[i as int]));
        i = i + 1;
    }
    assert(v@.take(v@.len() as int) == v@);
    s
}

/// A one-character string.
pub fn char_string(c: char) -> (s: String)
    ensures
        s@ == seq![c],
{
    let mut s = String::new();
    push_char(&mut s, c);
    s
}

/// Appends a string slice to a `String`.
pub fn push_str(s: &mut String, t: &str)
    ensures
        final(s)@ == old(s)@ + t@,
{
    let v = to_chars(t);
    let ghost start = s@;
    let mut i: usize = 0;
    while i < v.len()
        invariant
            i <= v@.len(),
            v@ == t@,
            s@ == start + v@.take(i as int),
        decreases v@.len() - i,
    {
        push_char(s, v[i]);
        assert(v@.take(i + 1) == v@.take(i as int).push(v@[i as int]));
        i = i + 1;
    }
    assert(v@.take(v@.len() as int) == v@);
}

/// A line without the `\r` of a `\r\n` ending.
pub open spec fn strip_cr(l: Seq<char>) -> Seq<char> {
    if l.len() > 0 && l.last() == '\r' {
        l.drop_last()
    } else {
        l
    }
}

/// The completed lines of `s` and the line being read at its end.
pub open spec fn lines_state(s: Seq<char>) -> (Seq<Seq<char>>, Seq<char>)
    decreases s.len(),
{
    if s.len() == 0 {
        (seq![], seq![])
    } else {
        let (done, cur) = lines_state(s.drop_last());
        if s.last() == '\n' {
            (done.push(strip_cr(cur)), seq![])
        } else {
            (done, cur.push(s.last()))
        }
    }
}

/// The lines of `s` as `str::lines` gives them: split after each `\n`, which is dropped
/// together with a `\r` just before it; a last line without `\n` is kept as it is, and
/// an empty one is not a line.
pub open spec fn lines_of(s: Seq<char>) -> Seq<Seq<char>> {
    let (done, cur) = lines_state(s);
    if cur.len() > 0 {
        done.push(cur)
    } else {
        done
    }
}

/// `str::lines`: the lines of `s`.
pub fn lines(s: &str) -> (r: Vec<String>)
    ensures
        Seq::new(r@.len(), |i: int| r@[i]@) == lines_of(s@),
{
    broadcast use vstd::string::group_string_axioms;

    let mut out: Vec<String> = Vec::new();
    let mut cur: Vec<char> = Vec::new();
    for c in it: s.chars()
        invariant
            it.seq() == s@,
            ({
                let (done, w) = lines_state(s@.take(it.index() as int));
                &&& Seq::new(out@.len(), |i: int| out@[i]@) == done
                &&& cur@ == w
            }),
    {
        proof {
            let post = s@.take(it.index() + 1);
            assert(post.drop_last() == s@.take(it.index() as int));
            assert(post.last() == c);
        }
        if c == '\n' {
            let n = cur.len();
            if n > 0 && cur[n - 1] == '\r' {
                cur.pop();
            }
            out.push(from_chars(cur.as_slice()));
            cur = Vec::new();
        } else {
            cur.push(c);
        }
        assert(Seq::new(out@.len(), |i: int| out@[i]@) =~= lines_state(
            s@.take(it.index() + 1),
        ).0);
    }
    assert(s@.take(s@.len() as int) == s@);
    if cur.len() > 0 {
        out.push(from_chars(cur.as_slice()));
    }
    assert(Seq::new(out@.len(), |i: int| out@[i]@) =~= lines_of(s@));
    out
}

/// `str::lines`: the lines of `s`, as slices of it.
pub fn line_slices<'a>(s: &'a str) -> (r: Vec<&'a str>)
    ensures
        Seq::new(r@.len(), |i: int| r@[i]@) == lines_of(s@),
{
    let v = to_chars(s);
    let mut out: Vec<&'a str> = Vec::new();
    let mut start: usize = 0;
    let mut idx: usize = 0;
    while idx < v.len()
        invariant
            v@ == s@,
            start <= idx <= v@.len(),
            ({
                let (done, w) = lines_state(s@.take(idx as int));
                &&& Seq::new(out@.len(), |i: int| out@[i]@) == done
                &&& w == s@.subrange(start as int, idx as int)
            }),
        decreases v@.len() - idx,
    {
        let ghost pre = s@.take(idx + 1);
        assert(pre.drop_last() =~= s@.take(idx as int));
        assert(pre.last() == v@[idx as int]);
        if v[idx] == '\n' {
            let end: usize = if idx > start && v[idx - 1] == '\r' {
                idx - 1
            } else {
                idx
            };
            let piece = s.substring_char(start, end);
            assert(piece@ =~= strip_cr(s@.subrange(start as int, idx as int)));
            out.push(piece);
            start = idx + 1;
        }
        assert(Seq::new(out@.len(), |i: int| out@[i]@) =~= lines_state(pre).0);
        assert(lines_state(pre).1 =~= s@.subrange(start as int, idx + 1));
        idx += 1;
    }
    assert(s@.take(idx as int) =~= s@);
    if start < idx {
        out.push(s.substring_char(start, idx));
    }
    assert(Seq::new(out@.len(), |i: int| out@[i]@) =~= lines_of(s@));
    out
}

/// Whether two character vectors are equal.
pub fn chars_equal(a: &[char], b: &[char]) -> (r: bool)
    ensures
        r == (a@ == b@),
{
    if a.len() != b.len() {
        return false;
    }
    let mut i: usize = 0;
    while i < a.len()
        invariant
            a@.len() == b@.len(),
            i <= a@.len(),
            forall|j: int| 0 <= j < i ==> a@[j] == b@[j],
        decreases a@.len() - i,
    {
        if a[i] != b[i] {
            return false;
        }
        i = i + 1;
    }
    assert(a@ =~= b@);
    true
}

/// Whether two string slices hold the same characters.
pub fn str_equal(a: &str, b: &str) -> (r: bool)
    ensures
        r == (a@ == b@),
{
    let va = to_chars(a);
    let vb = to_chars(b);
    chars_equal(va.as_slice(), vb.as_slice())
}

/// Whether a string slice is exactly the single character `c`.
pub fn is_char_str(s: &str, c: char) -> (r: bool)
    ensures
        r == (s@ == seq![c]),
{
    let v = to_chars(s);
    if v.len() == 1 && v[0] == c {
        assert(v@ =~= seq![c]);
        true
    } else {
        false
    }
}

/// The Unicode `White_Space` property, as `char::is_whitespace` defines it.
pub open spec fn spec_is_whitespace(c: char) -> bool {
    ||| ('\t' <= c && c <= '\r')
    ||| c == ' '
    ||| c == '\u{85}'
    ||| c == '\u{a0}'
    ||| c == '\u{1680}'
    ||| ('\u{2000}' <= c && c <= '\u{200a}')
    ||| c == '\u{2028}'
    ||| c == '\u{2029}'
    ||| c == '\u{202f}'
    ||| c == '\u{205f}'
    ||| c == '\u{3000}'
}

/// `char::is_whitespace`: whether `c` has the Unicode `White_Space` property.
pub fn is_whitespace(c: char) -> (r: bool)
    ensures
        r == spec_is_whitespace(c),
{
    ('\t' <= c && c <= '\r') || c == ' ' || c == '\u{85}' || c == '\u{a0}' || c == '\u{1680}'
        || ('\u{2000}' <= c && c <= '\u{200a}') || c == '\u{2028}' || c == '\u{2029}' || c
        == '\u{202f}' || c == '\u{205f}' || c == '\u{3000}'
}

/// The decimal digit character for `d < 10`.
pub open spec fn digit_char(d: nat) -> char {
    if d == 0 {
        '0'
    } else if d == 1 {
        '1'
    } else if d == 2 {
        '2'
    } else if d == 3 {
        '3'
    } else if d == 4 {
        '4'
    } else if d == 5 {
        '5'
    } else if d == 6 {
        '6'
    } else if d == 7 {
        '7'
    } else if d == 8 {
        '8'
    } else {
        '9'
    }
}

/// The shortest decimal representation of a natural number (as `{}` prints it).
pub open spec fn decimal(n: nat) -> Seq<char>
    decreases n,
{
    if n < 10 {
        seq![digit_char(n)]
    } else {
        decimal(n / 10).push(digit_char(n % 10))
    }
}

/// The decimal representation of an integer, with a leading `-` when negative.
pub open spec fn signed_decimal(n: int) -> Seq<char> {
    if n < 0 {
        seq!['-'] + decimal((-n) as nat)
    } else {
        decimal(n as nat)
    }
}

fn exec_digit_char(d: u64) -> (c: char)
    requires
        d < 10,
    ensures
        c == digit_char(d as nat),
{
    if d == 0 {
        '0'
    } else if d == 1 {
        '1'
    } else if d == 2 {
        '2'
    } else if d == 3 {
        '3'
    } else if d == 4 {
        '4'
    } else if d == 5 {
        '5'
    } else if d == 6 {
        '6'
    } else if d == 7 {
        '7'
    } else if d == 8 {
        '8'
    } else {
        '9'
    }
}

/// Appends the decimal representation of `n` to `s`.
pub fn push_decimal(s: &mut String, n: u64)
    ensures
        final(s)@ == old(s)@ + decimal(n as nat),
    decreases n,
{
    if n < 10 {
        push_char(s, exec_digit_char(n));
        assert(old(s)@.push(digit_char(n as nat)) == old(s)@ + seq![digit_char(n as nat)]);
    } else {
        push_decimal(s, n / 10);
        push_char(s, exec_digit_char(n % 10));
        assert(old(s)@ + decimal((n / 10) as nat) + seq![digit_char((n % 10) as nat)]
            == old(s)@ + decimal(n as nat));
    }
}

/// The decimal representation of `n` (`format!("{}", n)` for unsigned integers).
pub fn u64_to_string(n: u64) -> (s: String)
    ensures
        s@ == decimal(n as nat),
{
    let mut s = String::new();
    push_decimal(&mut s, n);
    assert(Seq::<char>::empty() + decimal(n as nat) == decimal(n as nat));
    s
}

/// The decimal representation of a signed integer (`format!("{}", n)`).
pub fn i64_to_string(n: i64) -> (s: String)
    ensures
        s@ == signed_decimal(n as int),
{
    let mut s = String::new();
    if n < 0 {
        push_char(&mut s, '-');
        let m: u64 = if n == i64::MIN {
            9223372036854775808u64
        } else {
            (-n) as u64
        };
        push_decimal(&mut s, m);
    } else {
        push_decimal(&mut s, n as u64);
        assert(Seq::<char>::empty() + decimal(n as nat) == decimal(n as nat));
    }
    s
}

} // verus!
