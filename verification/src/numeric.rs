//! Decimal integer literals and the syntax of floating-point literals.

use vstd::prelude::*;
use crate::text::chars_of;

verus! {

/// `c` is one of the ten decimal digits.
pub open spec fn is_digit(c: char) -> bool {
    48 <= c as u32 <= 57
}

/// The number that the digit `c` stands for.
pub open spec fn digit_value(c: char) -> int {
    c as u32 - 48
}

/// Every character of `s` is a decimal digit.
pub open spec fn all_digits(s: Seq<char>) -> bool {
    forall|i: int| 0 <= i < s.len() ==> is_digit(#[trigger] s[i])
}

/// The number written by the digits of `s`, most significant first.
pub open spec fn digits_value(s: Seq<char>) -> int
    decreases s.len(),
{
    if s.len() == 0 {
        0
    } else {
        digits_value(s.drop_last()) * 10 + digit_value(s.last())
    }
}

/// `c` is a plus or a minus sign.
pub open spec fn is_sign(c: char) -> bool {
    c == '+' || c == '-'
}

/// `s` without its leading sign, where it has one.
pub open spec fn unsigned_part(s: Seq<char>) -> Seq<char> {
    if s.len() > 0 && is_sign(s[0]) {
        s.drop_first()
    } else {
        s
    }
}

/// The value of `s` read as a decimal integer: an optional sign followed by
/// one or more digits. Anything else has no value.
pub open spec fn integer_text_value(s: Seq<char>) -> Option<int> {
    let digits = unsigned_part(s);
    if digits.len() > 0 && all_digits(digits) {
        if s[0] == '-' {
            Some(-digits_value(digits))
        } else {
            Some(digits_value(digits))
        }
    } else {
        None
    }
}

/// The value of `s` as a decimal integer, provided that it lies between
/// `min` and `max`.
pub open spec fn bounded_integer(s: Seq<char>, min: int, max: int) -> Option<int> {
    match integer_text_value(s) {
        Some(v) => if min <= v <= max {
            Some(v)
        } else {
            None
        },
        None => None,
    }
}

/// A digit string is worth at least as much as each of its prefixes.
pub proof fn lemma_digits_prefix_bound(s: Seq<char>, k: int)
    requires
        all_digits(s),
        0 <= k <= s.len(),
    ensures
        0 <= digits_value(s.take(k)) <= digits_value(s),
    decreases s.len() - k,
{
    lemma_digits_nonnegative(s.take(k));
    if k == s.len() {
        assert(s.take(k) =~= s);
    } else {
        lemma_digits_prefix_bound(s, k + 1);
        assert(s.take(k + 1).drop_last() =~= s.take(k));
        assert(s.take(k + 1).last() == s[k]);
        assert(is_digit(s[k]));
    }
}

/// A digit string never stands for a negative number.
pub proof fn lemma_digits_nonnegative(s: Seq<char>)
    requires
        all_digits(s),
    ensures
        0 <= digits_value(s),
    decreases s.len(),
{
    if s.len() > 0 {
        lemma_digits_nonnegative(s.drop_last());
        assert(is_digit(s.last()));
    }
}

/// Whether the characters of `v` from `from` up to `to` are all digits.
pub fn digits_in(v: &Vec<char>, from: usize, to: usize) -> (r: bool)
    requires
        from <= to <= v@.len(),
    ensures
        r == all_digits(v@.subrange(from as int, to as int)),
{
    let mut i: usize = from;
    while i < to
        invariant
            from <= i <= to <= v@.len(),
            forall|k: int| from <= k < i ==> is_digit(#[trigger] v@[k]),
        decreases to - i,
    {
        let d: u32 = v[i] as u32;
        if d < 48 || d > 57 {
            assert(!is_digit(v@.subrange(from as int, to as int)[i - from]));
            return false;
        }
        i += 1;
    }
    assert forall|k: int| 0 <= k < to - from implies is_digit(
        #[trigger] v@.subrange(from as int, to as int)[k],
    ) by {
        assert(is_digit(v@[from + k]));
    }
    true
}

/// Reads `s` as a decimal integer between `min` and `max`.
pub fn parse_bounded(s: &str, min: i64, max: i64) -> (r: Option<i64>)
    requires
        min <= 0 <= max,
    ensures
        r matches Some(v) ==> bounded_integer(s@, min as int, max as int) == Some(v as int),
        r is None ==> bounded_integer(s@, min as int, max as int) is None,
{
    let v = chars_of(s);
    let n: usize = v.len();
    if n == 0 {
        return None;
    }
    let negative: bool = v[0] == '-';
    let start: usize = if v[0] == '-' || v[0] == '+' {
        1
    } else {
        0
    };
    let ghost digits = unsigned_part(s@);
    assert(digits =~= v@.subrange(start as int, n as int));
    if start == n || !digits_in(&v, start, n) {
        return None;
    }
    let limit: i128 = if negative {
        -(min as i128)
    } else {
        max as i128
    };
    let mut acc: i128 = 0;
    let mut i: usize = start;
    assert(digits.take(0) =~= Seq::<char>::empty());
    while i < n
        invariant
            v@ == s@,
            n == v@.len(),
            start <= i <= n,
            n > 0,
            negative == (s@[0] == '-'),
            digits == unsigned_part(s@),
            digits == v@.subrange(start as int, n as int),
            all_digits(digits),
            limit == (if negative { -(min as int) } else { max as int }),
            0 <= limit <= 0x8000_0000_0000_0000,
            0 <= acc <= limit,
            acc == digits_value(digits.take(i - start)),
        decreases n - i,
    {
        proof {
            assert(digits[i - start] == v@[i as int]);
            assert(is_digit(digits[i - start]));
        }
        let d: i128 = (v[i] as u32 - 48) as i128;
        proof {
            assert(digits.take(i - start + 1).drop_last() =~= digits.take(i - start));
            assert(digits.take(i - start + 1).last() == digits[i - start]);
            lemma_digits_prefix_bound(digits, i - start + 1);
        }
        let next: i128 = acc * 10 + d;
        if next > limit {
            return None;
        }
        acc = next;
        i += 1;
    }
    assert(digits.take(n - start) =~= digits);
    if negative {
        Some((-acc) as i64)
    } else {
        Some(acc as i64)
    }
}

/// The position of the first `a` or `b` in `s`, or the length of `s` where
/// it holds neither.
pub open spec fn first_position(s: Seq<char>, a: char, b: char) -> int
    decreases s.len(),
{
    if s.len() == 0 || s[0] == a || s[0] == b {
        0
    } else {
        1 + first_position(s.drop_first(), a, b)
    }
}

/// `m` is the mantissa of a decimal number: digits with at most one point
/// among them, and at least one digit.
pub open spec fn is_mantissa(m: Seq<char>) -> bool {
    let point = first_position(m, '.', '.');
    all_digits(m.take(point)) && if point == m.len() {
        point > 0
    } else {
        all_digits(m.skip(point + 1)) && m.len() > 1
    }
}

/// `x` is what may follow an exponent mark: an optional sign and one or
/// more digits.
pub open spec fn is_exponent(x: Seq<char>) -> bool {
    unsigned_part(x).len() > 0 && all_digits(unsigned_part(x))
}

/// `s` is an unsigned decimal number: a mantissa, and after an `e` or `E`
/// an exponent.
pub open spec fn is_decimal_number(s: Seq<char>) -> bool {
    let mark = first_position(s, 'e', 'E');
    is_mantissa(s.take(mark)) && (mark == s.len() || is_exponent(s.skip(mark + 1)))
}

/// The code of `c`, or of its lower-case form where `c` is an ASCII capital.
pub open spec fn lower_code(c: char) -> int {
    if 65 <= c as u32 <= 90 {
        c as u32 + 32
    } else {
        c as u32 as int
    }
}

/// `s` spells `word` when the case of ASCII letters is ignored. `word` is
/// in lower case.
pub open spec fn spells(s: Seq<char>, word: Seq<char>) -> bool {
    s.len() == word.len() && forall|i: int|
        0 <= i < s.len() ==> lower_code(#[trigger] s[i]) == word[i] as u32
}

/// `s` names an infinity or a value that is not a number.
pub open spec fn is_special_float(s: Seq<char>) -> bool {
    spells(s, seq!['i', 'n', 'f']) || spells(s, seq!['i', 'n', 'f', 'i', 'n', 'i', 't', 'y'])
        || spells(s, seq!['n', 'a', 'n'])
}

/// `s` is a floating-point literal: an optional sign, then a decimal number
/// or one of the special words.
pub open spec fn is_float_text(s: Seq<char>) -> bool {
    is_special_float(unsigned_part(s)) || is_decimal_number(unsigned_part(s))
}

/// The position of the first `a` or `b` among the characters of `v` from
/// `from` up to `to`, or `to` where there is none.
pub fn find_first(v: &Vec<char>, from: usize, to: usize, a: char, b: char) -> (r: usize)
    requires
        from <= to <= v@.len(),
    ensures
        from <= r <= to,
        r - from == first_position(v@.subrange(from as int, to as int), a, b),
{
    let mut i: usize = from;
    assert(v@.subrange(from as int, to as int) =~= v@.subrange(i as int, to as int));
    while i < to
        invariant
            from <= i <= to <= v@.len(),
            first_position(v@.subrange(from as int, to as int), a, b) == (i - from)
                + first_position(v@.subrange(i as int, to as int), a, b),
        decreases to - i,
    {
        let ghost rest = v@.subrange(i as int, to as int);
        assert(rest[0] == v@[i as int]);
        assert(rest.drop_first() =~= v@.subrange(i as int + 1, to as int));
        if v[i] == a || v[i] == b {
            return i;
        }
        i += 1;
    }
    i
}

/// Whether the characters of `v` from `from` up to `to` spell `word`.
fn spells_in(v: &Vec<char>, from: usize, to: usize, word: &Vec<char>) -> (r: bool)
    requires
        from <= to <= v@.len(),
    ensures
        r == spells(v@.subrange(from as int, to as int), word@),
{
    if to - from != word.len() {
        return false;
    }
    let mut i: usize = 0;
    while i < word.len()
        invariant
            from <= to <= v@.len(),
            to - from == word@.len(),
            i <= word@.len(),
            forall|k: int| 0 <= k < i ==> lower_code(#[trigger] v@[from + k]) == word@[k] as u32,
        decreases word@.len() - i,
    {
        let c: u32 = v[from + i] as u32;
        let low: u32 = if 65 <= c && c <= 90 {
            c + 32
        } else {
            c
        };
        if low != word[i] as u32 {
            assert(v@.subrange(from as int, to as int)[i as int] == v@[from + i]);
            return false;
        }
        i += 1;
    }
    assert forall|k: int| 0 <= k < to - from implies lower_code(
        #[trigger] v@.subrange(from as int, to as int)[k],
    ) == word@[k] as u32 by {
        assert(lower_code(v@[from + k]) == word@[k] as u32);
    }
    true
}

/// Whether `s` is a floating-point literal.
pub fn is_float_literal(s: &str) -> (r: bool)
    ensures
        r == is_float_text(s@),
{
    let v = chars_of(s);
    let n: usize = v.len();
    let start: usize = if n > 0 && (v[0] == '+' || v[0] == '-') {
        1
    } else {
        0
    };
    let ghost body = unsigned_part(s@);
    assert(body =~= v@.subrange(start as int, n as int));
    let inf: Vec<char> = vec!['i', 'n', 'f'];
    let infinity: Vec<char> = vec!['i', 'n', 'f', 'i', 'n', 'i', 't', 'y'];
    let nan: Vec<char> = vec!['n', 'a', 'n'];
    assert(inf@ =~= seq!['i', 'n', 'f']);
    assert(infinity@ =~= seq!['i', 'n', 'f', 'i', 'n', 'i', 't', 'y']);
    assert(nan@ =~= seq!['n', 'a', 'n']);
    if spells_in(&v, start, n, &inf) || spells_in(&v, start, n, &infinity) || spells_in(
        &v,
        start,
        n,
        &nan,
    ) {
        return true;
    }
    let mark: usize = find_first(&v, start, n, 'e', 'E');
    let ghost mantissa = body.take(mark - start);
    assert(mantissa =~= v@.subrange(start as int, mark as int));
    let point: usize = find_first(&v, start, mark, '.', '.');
    assert(mantissa.take(point - start) =~= v@.subrange(start as int, point as int));
    if !digits_in(&v, start, point) {
        return false;
    }
    if point == mark {
        if point == start {
            return false;
        }
    } else {
        assert(mantissa.skip(point - start + 1) =~= v@.subrange(point as int + 1, mark as int));
        if !digits_in(&v, point + 1, mark) || mark - start <= 1 {
            return false;
        }
    }
    if mark == n {
        return true;
    }
    let ghost exponent = body.skip(mark - start + 1);
    assert(exponent =~= v@.subrange(mark as int + 1, n as int));
    let after: usize = mark + 1;
    let first_digit: usize = if after < n && (v[after] == '+' || v[after] == '-') {
        after + 1
    } else {
        after
    };
    assert(unsigned_part(exponent) =~= v@.subrange(first_digit as int, n as int));
    first_digit < n && digits_in(&v, first_digit, n)
}

} // verus!
