//! Recognisers for the textual forms of numbers that the front ends accept: the integer
//! syntax of `i64::from_str` and the floating-point syntax of `f64::from_str`.
use vstd::prelude::*;

verus! {

/// An ASCII decimal digit.
pub open spec fn is_digit(c: char) -> bool {
    '0' <= c && c <= '9'
}

/// Every character is an ASCII decimal digit.
pub open spec fn all_digits(s: Seq<char>) -> bool {
    forall|i: int| 0 <= i < s.len() ==> is_digit(#[trigger] s[i])
}

/// The value of a string of decimal digits.
pub open spec fn digits_value(s: Seq<char>) -> nat
    decreases s.len(),
{
    if s.len() == 0 {
        0
    } else {
        digits_value(s.drop_last()) * 10 + (s.last() as nat - '0' as nat) as nat
    }
}

/// The integer that `s` spells in the syntax of `i64::from_str`: an optional `+` or `-`
/// followed by at least one decimal digit; `None` for any other text.
pub open spec fn int_text(s: Seq<char>) -> Option<int> {
    if s.len() > 0 && (s[0] == '+' || s[0] == '-') {
        let d = s.drop_first();
        if d.len() > 0 && all_digits(d) {
            Some(
                if s[0] == '-' {
                    -digits_value(d)
                } else {
                    digits_value(d) as int
                },
            )
        } else {
            None
        }
    } else if s.len() > 0 && all_digits(s) {
        Some(digits_value(s) as int)
    } else {
        None
    }
}

/// What `i64::from_str` gives for `s`: the value it spells when that fits in an `i64`.
pub open spec fn i64_text(s: Seq<char>) -> Option<i64> {
    match int_text(s) {
        Some(v) => if i64::MIN <= v <= i64::MAX {
            Some(v as i64)
        } else {
            None
        },
        None => None,
    }
}

proof fn lemma_digits_grow(s: Seq<char>, k: int)
    requires
        all_digits(s),
        0 <= k <= s.len(),
    ensures
        digits_value(s.take(k)) <= digits_value(s),
    decreases s.len() - k,
{
    if k < s.len() {
        lemma_digits_grow(s, k + 1);
        assert(s.take(k + 1).drop_last() =~= s.take(k));
        assert(is_digit(s[k]));
    } else {
        assert(s.take(k) =~= s);
    }
}

/// `i64::from_str`: the value of `s` when it is an optional sign and decimal digits
/// whose value fits in an `i64`.
pub fn parse_i64(s: &str) -> (r: Option<i64>)
    ensures
        r == i64_text(s@),
{
    broadcast use vstd::string::group_string_axioms;

    let mut negative = false;
    let mut start: usize = 0;
    let mut digits: Vec<char> = Vec::new();
    let mut first = true;
    for c in it: s.chars()
        invariant
            it.seq() == s@,
            first == (it.index() == 0),
            !first ==> (start == 1) == (s@[0] == '+' || s@[0] == '-'),
            !first ==> (start == 0) == !(s@[0] == '+' || s@[0] == '-'),
            !first ==> (negative == (s@[0] == '-')),
            !first ==> digits@ == s@.subrange(start as int, it.index() as int),
            first ==> start == 0 && digits@.len() == 0 && !negative,
    {
        proof {
            assert(s@.take(it.index() + 1).last() == c);
            assert(s@.take(it.index() + 1).last() == s@[it.index() as int]);
        }
        if first && (c == '+' || c == '-') {
            negative = c == '-';
            start = 1;
        } else {
            digits.push(c);
        }
        first = false;
        proof {
            assert(digits@ =~= s@.subrange(start as int, it.index() + 1));
        }
    }
    if first {
        return None;
    }
    proof {
        assert(digits@ =~= s@.subrange(start as int, s@.len() as int));
        if start == 1 {
            assert(digits@ =~= s@.drop_first());
        } else {
            assert(digits@ =~= s@);
        }
    }
    if digits.len() == 0 {
        return None;
    }
    let limit: u128 = if negative { 9223372036854775808u128 } else { 9223372036854775807u128 };
    let mut acc: u128 = 0;
    let mut i: usize = 0;
    while i < digits.len()
        invariant
            i <= digits@.len(),
            limit <= 9223372036854775808u128,
            all_digits(digits@.take(i as int)),
            acc == digits_value(digits@.take(i as int)),
            acc <= limit,
            s@.len() > 0,
            start <= 1,
            digits@.len() > 0,
            limit == (if negative { 9223372036854775808u128 } else { 9223372036854775807u128 }),
            start == 1 ==> (s@[0] == '+' || s@[0] == '-') && digits@ == s@.drop_first() && negative
                == (s@[0] == '-'),
            start == 0 ==> !(s@[0] == '+' || s@[0] == '-') && digits@ == s@ && !negative,
        decreases digits@.len() - i,
    {
        let c = digits[i];
        if !('0' <= c && c <= '9') {
            assert(!is_digit(digits@[i as int]));
            assert(!all_digits(digits@));
            proof {
                if start == 1 {
                    assert(!all_digits(s@.drop_first()));
                    assert(int_text(s@) is None);
                } else {
                    assert(!all_digits(s@));
                    assert(int_text(s@) is None);
                }
            }
            return None;
        }
        proof {
            assert(digits@.take(i + 1).drop_last() =~= digits@.take(i as int));
        }
        let d: u128 = (c as u32 - '0' as u32) as u128;
        acc = acc * 10 + d;
        assert(acc == digits_value(digits@.take(i + 1)));
        if acc > limit {
            proof {
                let j: int = (i + 1) as int;
                if all_digits(digits@) {
                    lemma_digits_grow(digits@, j);
                    assert(digits_value(digits@) > limit);
                    if start == 1 {
                        assert(int_text(s@) == Some(if negative { -digits_value(digits@) } else { digits_value(digits@) as int }));
                    } else {
                        assert(int_text(s@) == Some(digits_value(digits@) as int));
                    }
                } else {
                    if start == 1 {
                        assert(!all_digits(s@.drop_first()));
                    }
                }
            }
            return None;
        }
        i += 1;
    }
    assert(digits@.take(i as int) =~= digits@);
    if negative {
        if acc == 9223372036854775808u128 {
            Some(i64::MIN)
        } else {
            Some(-(acc as i64))
        }
    } else {
        Some(acc as i64)
    }
}

/// Why an integer text was refused, as `ParseIntError` of std reports it.
#[derive(Clone, Copy, Debug, PartialEq, Eq, Structural)]
pub enum IntError {
    Empty,
    InvalidDigit,
    PosOverflow,
}

/// The message of a refused integer text (the `Display` of `ParseIntError`).
pub open spec fn int_error_text(e: IntError) -> Seq<char> {
    match e {
        IntError::Empty => "cannot parse integer from empty string"@,
        IntError::InvalidDigit => "invalid digit found in string"@,
        IntError::PosOverflow => "number too large to fit in target type"@,
    }
}

impl IntError {
    /// The message of the error.
    pub fn message(&self) -> (r: &'static str)
        ensures
            r@ == int_error_text(*self),
    {
        match self {
            IntError::Empty => "cannot parse integer from empty string",
            IntError::InvalidDigit => "invalid digit found in string",
            IntError::PosOverflow => "number too large to fit in target type",
        }
    }
}

/// One digit of an unsigned integer read from the left: the first failure wins.
pub open spec fn u_step(st: Result<nat, IntError>, c: char, max: nat) -> Result<nat, IntError> {
    match st {
        Err(e) => Err(e),
        Ok(acc) => if !is_digit(c) {
            Err(IntError::InvalidDigit)
        } else if acc * 10 + (c as nat - '0' as nat) > max {
            Err(IntError::PosOverflow)
        } else {
            Ok((acc * 10 + (c as nat - '0' as nat)) as nat)
        },
    }
}

/// The digits of `s` read from the left.
pub open spec fn u_fold(s: Seq<char>, max: nat) -> Result<nat, IntError>
    decreases s.len(),
{
    if s.len() == 0 {
        Ok(0)
    } else {
        u_step(u_fold(s.drop_last(), max), s.last(), max)
    }
}

/// What `from_str` of an unsigned integer type whose largest value is `max` gives for
/// `s`: an optional `+` and decimal digits; an empty text, a lone sign, a character that is
/// not a digit, or a value above `max` is refused, by the first of these met from the left.
pub open spec fn unsigned_text(s: Seq<char>, max: nat) -> Result<nat, IntError> {
    if s.len() == 0 {
        Err(IntError::Empty)
    } else if s.len() == 1 && (s[0] == '+' || s[0] == '-') {
        Err(IntError::InvalidDigit)
    } else if s[0] == '+' {
        u_fold(s.drop_first(), max)
    } else {
        u_fold(s, max)
    }
}

/// `from_str` of an unsigned integer type whose largest value is `max`.
pub fn parse_unsigned(s: &str, max: u64) -> (r: Result<u64, IntError>)
    ensures
        match unsigned_text(s@, max as nat) {
            Ok(v) => r == Ok::<u64, IntError>(v as u64) && v <= max,
            Err(e) => r == Err::<u64, IntError>(e),
        },
{
    let v = crate::text::to_chars(s);
    if v.len() == 0 {
        return Err(IntError::Empty);
    }
    if v.len() == 1 && (v[0] == '+' || v[0] == '-') {
        return Err(IntError::InvalidDigit);
    }
    let start: usize = if v[0] == '+' { 1 } else { 0 };
    let ghost d = if v@[0] == '+' { s@.drop_first() } else { s@ };
    assert(d =~= v@.skip(start as int));
    assert(unsigned_text(s@, max as nat) == u_fold(d, max as nat));
    let mut acc: u64 = 0;
    let mut i: usize = start;
    assert(d.take(0) =~= seq![]);
    while i < v.len()
        invariant
            start <= i <= v@.len(),
            d == v@.skip(start as int),
            unsigned_text(s@, max as nat) == u_fold(d, max as nat),
            u_fold(d.take(i - start), max as nat) == Ok::<nat, IntError>(acc as nat),
            acc <= max,
        decreases v@.len() - i,
    {
        let c = v[i];
        assert(d.take(i + 1 - start).drop_last() =~= d.take(i - start));
        assert(d.take(i + 1 - start).last() == c);
        if !('0' <= c && c <= '9') {
            proof {
                lemma_u_fold_stuck(d, max as nat, i + 1 - start, IntError::InvalidDigit);
            }
            return Err(IntError::InvalidDigit);
        }
        let dig: u64 = (c as u32 - '0' as u32) as u64;
        let next: u128 = acc as u128 * 10 + dig as u128;
        if next > max as u128 {
            proof {
                lemma_u_fold_stuck(d, max as nat, i + 1 - start, IntError::PosOverflow);
            }
            return Err(IntError::PosOverflow);
        }
        acc = next as u64;
        i += 1;
    }
    assert(d.take(i - start) =~= d);
    Ok(acc)
}

proof fn lemma_u_fold_stuck(s: Seq<char>, max: nat, k: int, e: IntError)
    requires
        0 <= k <= s.len(),
        u_fold(s.take(k), max) == Err::<nat, IntError>(e),
    ensures
        u_fold(s, max) == Err::<nat, IntError>(e),
    decreases s.len() - k,
{
    if k < s.len() {
        assert(s.take(k + 1).drop_last() =~= s.take(k));
        lemma_u_fold_stuck(s, max, k + 1, e);
    } else {
        assert(s.take(k) =~= s);
    }
}

/// The states of the automaton that reads a decimal floating-point number.
pub open spec fn num_step(state: int, c: char) -> int {
    if state == 0 {
        if c == '+' || c == '-' { 1 } else if is_digit(c) { 2 } else if c == '.' { 4 } else { 9 }
    } else if state == 1 {
        if is_digit(c) { 2 } else if c == '.' { 4 } else { 9 }
    } else if state == 2 {
        if is_digit(c) { 2 } else if c == '.' { 3 } else if c == 'e' || c == 'E' { 6 } else { 9 }
    } else if state == 3 || state == 5 {
        if is_digit(c) { 5 } else if c == 'e' || c == 'E' { 6 } else { 9 }
    } else if state == 4 {
        if is_digit(c) { 5 } else { 9 }
    } else if state == 6 {
        if c == '+' || c == '-' { 7 } else if is_digit(c) { 8 } else { 9 }
    } else if state == 7 || state == 8 {
        if is_digit(c) { 8 } else { 9 }
    } else {
        9
    }
}

/// The automaton's state after reading `s`.
pub open spec fn num_state(s: Seq<char>) -> int
    decreases s.len(),
{
    if s.len() == 0 {
        0
    } else {
        num_step(num_state(s.drop_last()), s.last())
    }
}

/// `s` is a number of the grammar `Sign? (Digit+ | Digit+ '.' Digit* | Digit* '.' Digit+)
/// (('e' | 'E') Sign? Digit+)?`: the automaton stops in an accepting state.
pub open spec fn decimal_float_text(s: Seq<char>) -> bool {
    let q = num_state(s);
    q == 2 || q == 3 || q == 5 || q == 8
}

/// The ASCII lower-case form of a character.
pub open spec fn ascii_lower(c: char) -> char {
    if 'A' <= c && c <= 'Z' {
        ((c as u32) + 32) as char
    } else {
        c
    }
}

/// `s` equals `word` when ASCII letters are compared without regard to case.
pub open spec fn eq_ignore_case(s: Seq<char>, word: Seq<char>) -> bool {
    s.len() == word.len() && forall|i: int| 0 <= i < s.len() ==> ascii_lower(#[trigger] s[i]) == word[i]
}

/// The text that `f64::from_str` accepts: an optional sign followed by `inf`, `infinity` or
/// `nan` in any case, or a decimal number as `decimal_float_text` describes it.
pub open spec fn float_text(s: Seq<char>) -> bool {
    let body = if s.len() > 0 && (s[0] == '+' || s[0] == '-') {
        s.drop_first()
    } else {
        s
    };
    ||| eq_ignore_case(body, "inf"@)
    ||| eq_ignore_case(body, "infinity"@)
    ||| eq_ignore_case(body, "nan"@)
    ||| decimal_float_text(s)
}

fn exec_num_step(state: u8, c: char) -> (r: u8)
    requires
        state <= 9,
    ensures
        r == num_step(state as int, c),
        r <= 9,
{
    let digit = '0' <= c && c <= '9';
    if state == 0 {
        if c == '+' || c == '-' { 1 } else if digit { 2 } else if c == '.' { 4 } else { 9 }
    } else if state == 1 {
        if digit { 2 } else if c == '.' { 4 } else { 9 }
    } else if state == 2 {
        if digit { 2 } else if c == '.' { 3 } else if c == 'e' || c == 'E' { 6 } else { 9 }
    } else if state == 3 || state == 5 {
        if digit { 5 } else if c == 'e' || c == 'E' { 6 } else { 9 }
    } else if state == 4 {
        if digit { 5 } else { 9 }
    } else if state == 6 {
        if c == '+' || c == '-' { 7 } else if digit { 8 } else { 9 }
    } else if state == 7 || state == 8 {
        if digit { 8 } else { 9 }
    } else {
        9
    }
}

fn exec_ascii_lower(c: char) -> (r: char)
    ensures
        r == ascii_lower(c),
{
    if 'A' <= c && c <= 'Z' {
        let b: u8 = (c as u32) as u8;
        (b + 32) as char
    } else {
        c
    }
}

fn chars_eq_ignore_case(s: &[char], start: usize, word: &str) -> (r: bool)
    requires
        start <= s@.len(),
    ensures
        r == eq_ignore_case(s@.skip(start as int), word@),
{
    let w = crate::text::to_chars(word);
    if s.len() - start != w.len() {
        return false;
    }
    let mut k: usize = start;
    while k < s.len()
        invariant
            start <= k <= s@.len(),
            s@.len() - start == w@.len(),
            w@ == word@,
            forall|j: int| 0 <= j < k - start ==> ascii_lower(#[trigger] s@.skip(start as int)[j]) == word@[j],
        decreases s@.len() - k,
    {
        if exec_ascii_lower(s[k]) != w[k - start] {
            assert(ascii_lower(s@.skip(start as int)[k - start]) != word@[k - start]);
            return false;
        }
        k += 1;
    }
    true
}

/// Whether `f64::from_str` accepts `s`.
pub fn is_float_text(s: &str) -> (r: bool)
    ensures
        r == float_text(s@),
{
    let v = crate::text::to_chars(s);
    let start: usize = if v.len() > 0 && (v[0] == '+' || v[0] == '-') { 1 } else { 0 };
    proof {
        if start == 1 {
            assert(v@.skip(1) =~= s@.drop_first());
        } else {
            assert(v@.skip(0) =~= s@);
        }
    }
    if chars_eq_ignore_case(v.as_slice(), start, "inf") || chars_eq_ignore_case(
        v.as_slice(),
        start,
        "infinity",
    ) || chars_eq_ignore_case(v.as_slice(), start, "nan") {
        return true;
    }
    let mut state: u8 = 0;
    let mut i: usize = 0;
    while i < v.len()
        invariant
            i <= v@.len(),
            v@ == s@,
            state <= 9,
            state == num_state(v@.take(i as int)),
        decreases v@.len() - i,
    {
        proof {
            assert(v@.take(i + 1).drop_last() =~= v@.take(i as int));
        }
        state = exec_num_step(state, v[i]);
        i += 1;
    }
    assert(v@.take(i as int) =~= s@);
    state == 2 || state == 3 || state == 5 || state == 8
}

} // verus!
