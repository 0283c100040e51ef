//! Numbers as they are written: reading decimal notation and comparing the numbers it
//! denotes exactly, digit by digit.

use vstd::prelude::*;
use crate::text::{
    chars_lt, digits_value, is_digit, lemma_text_lt_irreflexive, read_digits, slice_chars, text_lt,
};

verus! {

/// Exponents are read up to this magnitude; a larger one counts as this.
pub const EXPONENT_LIMIT: u64 = 4000000000000000000u64;

/// The number that a text denotes.
pub enum Num {
    /// Not a number.
    NaN,
    /// Below every finite number.
    NegInf,
    /// Above every finite number.
    PosInf,
    /// `0.d1 d2 .. dn` times ten to the power `exp`, negated where `negative`; `digits`
    /// neither begins nor ends with `0`, and is empty for zero.
    Finite { negative: bool, digits: Seq<char>, exp: int },
}

/// Executable form of [`Num`].
#[derive(Debug)]
pub enum Decimal {
    NaN,
    NegInf,
    PosInf,
    Finite { negative: bool, digits: Vec<char>, exp: i128 },
}

impl View for Decimal {
    type V = Num;

    open spec fn view(&self) -> Num {
        match self {
            Decimal::NaN => Num::NaN,
            Decimal::NegInf => Num::NegInf,
            Decimal::PosInf => Num::PosInf,
            Decimal::Finite { negative, digits, exp } => Num::Finite {
                negative: *negative,
                digits: digits@,
                exp: *exp as int,
            },
        }
    }
}

/// Where a number stands among the signs: 0 for minus infinity, 1 for a negative number,
/// 2 for zero, 3 for a positive number, 4 for infinity.
pub open spec fn sign_class(n: Num) -> int {
    match n {
        Num::NaN => 2,
        Num::NegInf => 0,
        Num::PosInf => 4,
        Num::Finite { negative, digits, exp } => if digits.len() == 0 {
            2
        } else if negative {
            1
        } else {
            3
        },
    }
}

/// Whether the magnitude `0.a × 10^ea` is below `0.b × 10^eb`, for digit runs that do not
/// begin with `0`.
pub open spec fn magnitude_lt(a: Seq<char>, ea: int, b: Seq<char>, eb: int) -> bool {
    ea < eb || (ea == eb && text_lt(a, b))
}

/// Whether `a` is strictly below `b`. Nothing is below or above what is not a number.
///
/// The numbers are compared as they are written, to their last digit: two numbers that
/// differ in any digit are different, however close they are, and no finite number is
/// too large or too small to be told from its neighbours.
pub open spec fn num_lt(a: Num, b: Num) -> bool {
    if a is NaN || b is NaN {
        false
    } else if sign_class(a) != sign_class(b) {
        sign_class(a) < sign_class(b)
    } else {
        match (a, b) {
            (
                Num::Finite { negative: na, digits: da, exp: ea },
                Num::Finite { negative: nb, digits: db, exp: eb },
            ) => if da.len() == 0 {
                false
            } else if na {
                magnitude_lt(db, eb, da, ea)
            } else {
                magnitude_lt(da, ea, db, eb)
            },
            _ => false,
        }
    }
}

/// Number of digits of `s` in a row from index `i` on.
pub open spec fn digit_run(s: Seq<char>, i: int) -> nat
    decreases s.len() - i,
{
    if 0 <= i < s.len() && is_digit(s[i]) {
        1 + digit_run(s, i + 1)
    } else {
        0
    }
}

/// Number of `0` characters of `s` in a row from index `i` on.
pub open spec fn zero_run(s: Seq<char>, i: int) -> nat
    decreases s.len() - i,
{
    if 0 <= i < s.len() && s[i] == '0' {
        1 + zero_run(s, i + 1)
    } else {
        0
    }
}

/// Number of `0` characters at the end of `s`.
pub open spec fn trailing_zeros(s: Seq<char>) -> nat
    decreases s.len(),
{
    if s.len() > 0 && s.last() == '0' {
        1 + trailing_zeros(s.drop_last())
    } else {
        0
    }
}

/// The lower-case form of an ASCII letter; other characters stay.
pub open spec fn ascii_lower(c: char) -> char {
    if 65 <= c as int <= 90 {
        (c as int + 32) as char
    } else {
        c
    }
}

/// Whether `s` is `word` but for the case of its letters. `word` is in lower case.
pub open spec fn is_word(s: Seq<char>, word: Seq<char>) -> bool {
    s.len() == word.len() && forall|i: int| 0 <= i < s.len() ==> ascii_lower(#[trigger] s[i]) == word[i]
}

/// The exponent that follows a mantissa: none where the text ends, else `e` or `E`, an
/// optional sign and one digit or more. Its magnitude is capped at [`EXPONENT_LIMIT`].
pub open spec fn read_exponent(t: Seq<char>) -> Option<int> {
    if t.len() == 0 {
        Some(0)
    } else if t[0] != 'e' && t[0] != 'E' {
        None
    } else {
        let r = t.drop_first();
        let negative = r.len() > 0 && r[0] == '-';
        let d = if r.len() > 0 && (r[0] == '+' || r[0] == '-') {
            r.drop_first()
        } else {
            r
        };
        if d.len() == 0 {
            None
        } else {
            match digits_value(d) {
                None => None,
                Some(v) => {
                    let c = if v > EXPONENT_LIMIT {
                        EXPONENT_LIMIT as int
                    } else {
                        v as int
                    };
                    Some(
                        if negative {
                            -c
                        } else {
                            c
                        },
                    )
                },
            }
        }
    }
}

/// The number with the given sign, digits, count of digits before the point, and exponent.
pub open spec fn normalize(negative: bool, digits: Seq<char>, point: int, e: int) -> Num {
    let z = zero_run(digits, 0) as int;
    let rest = digits.skip(z);
    let core = rest.take(rest.len() - trailing_zeros(rest));
    if core.len() == 0 {
        Num::Finite { negative: false, digits: Seq::empty(), exp: 0 }
    } else {
        Num::Finite { negative, digits: core, exp: point - z + e }
    }
}

/// Reads an unsigned decimal number: digits, an optional point with digits, an optional
/// exponent; one digit at least before or after the point.
pub open spec fn read_finite(negative: bool, b: Seq<char>) -> Option<Num> {
    let int_len = digit_run(b, 0) as int;
    let has_point = int_len < b.len() && b[int_len] == '.';
    let frac_start = if has_point {
        int_len + 1
    } else {
        int_len
    };
    let frac_len = if has_point {
        digit_run(b, frac_start) as int
    } else {
        0
    };
    let mantissa_end = frac_start + frac_len;
    if int_len + frac_len == 0 {
        None
    } else {
        match read_exponent(b.skip(mantissa_end)) {
            None => None,
            Some(e) => Some(
                normalize(
                    negative,
                    b.subrange(0, int_len) + b.subrange(frac_start, mantissa_end),
                    int_len,
                    e,
                ),
            ),
        }
    }
}

/// The number that `s` denotes in the notation of Rust's floating-point literals read from
/// text: an optional sign, then `inf`, `infinity` or `nan` in any case, or a decimal number.
/// `None` where `s` is no such text.
pub open spec fn read_number(s: Seq<char>) -> Option<Num> {
    let negative = s.len() > 0 && s[0] == '-';
    let body = if s.len() > 0 && (s[0] == '+' || s[0] == '-') {
        s.drop_first()
    } else {
        s
    };
    if is_word(body, seq!['i', 'n', 'f']) || is_word(
        body,
        seq!['i', 'n', 'f', 'i', 'n', 'i', 't', 'y'],
    ) {
        Some(
            if negative {
                Num::NegInf
            } else {
                Num::PosInf
            },
        )
    } else if is_word(body, seq!['n', 'a', 'n']) {
        Some(Num::NaN)
    } else {
        read_finite(negative, body)
    }
}

/// A run of digits ends within the text, holds digits only, and stops before what is none.
pub proof fn lemma_digit_run(s: Seq<char>, i: int)
    requires
        0 <= i <= s.len(),
    ensures
        i + digit_run(s, i) <= s.len(),
        forall|k: int| i <= k < i + digit_run(s, i) ==> is_digit(#[trigger] s[k]),
        i + digit_run(s, i) < s.len() ==> !is_digit(s[i + digit_run(s, i)]),
    decreases s.len() - i,
{
    if i < s.len() && is_digit(s[i]) {
        lemma_digit_run(s, i + 1);
    }
}

/// Counts the digits in a row from `from` on.
fn count_digits(v: &Vec<char>, from: usize) -> (n: usize)
    requires
        from <= v.len(),
    ensures
        n == digit_run(v@, from as int),
        from + n <= v.len(),
{
    let mut i: usize = from;
    while i < v.len() && '0' <= v[i] && v[i] <= '9'
        invariant
            from <= i <= v.len(),
            digit_run(v@, from as int) == (i - from) + digit_run(v@, i as int),
        decreases v.len() - i,
    {
        i += 1;
    }
    i - from
}

/// Counts the `0` characters in a row from `from` on.
fn count_zeros(v: &Vec<char>, from: usize) -> (n: usize)
    requires
        from <= v.len(),
    ensures
        n == zero_run(v@, from as int),
        from + n <= v.len(),
{
    let mut i: usize = from;
    while i < v.len() && v[i] == '0'
        invariant
            from <= i <= v.len(),
            zero_run(v@, from as int) == (i - from) + zero_run(v@, i as int),
        decreases v.len() - i,
    {
        i += 1;
    }
    i - from
}

/// Counts the `0` characters at the end of `v`, not looking before `from`.
fn count_trailing_zeros(v: &Vec<char>, from: usize) -> (n: usize)
    requires
        from <= v.len(),
    ensures
        n == trailing_zeros(v@.skip(from as int)),
        from + n <= v.len(),
{
    let ghost s = v@.skip(from as int);
    let mut end: usize = v.len();
    assert(s.take(s.len() as int) =~= s);
    while end > from && v[end - 1] == '0'
        invariant
            from <= end <= v.len(),
            s == v@.skip(from as int),
            trailing_zeros(s) == (v.len() - end) + trailing_zeros(s.take(end - from)),
        decreases end,
    {
        assert(s.take(end - from).last() == v@[end - 1]);
        assert(s.take(end - from).drop_last() =~= s.take(end - from - 1));
        end -= 1;
    }
    proof {
        if end > from {
            assert(s.take(end - from).last() == v@[end - 1]);
        }
    }
    v.len() - end
}

/// Whether `v` is `word` but for the case of its letters.
fn word_matches(v: &Vec<char>, word: &Vec<char>) -> (r: bool)
    ensures
        r == is_word(v@, word@),
{
    if v.len() != word.len() {
        return false;
    }
    let mut i: usize = 0;
    while i < v.len()
        invariant
            i <= v.len(),
            v.len() == word.len(),
            forall|k: int| 0 <= k < i ==> ascii_lower(#[trigger] v@[k]) == word@[k],
        decreases v.len() - i,
    {
        let c = v[i];
        let lower: char = if 'A' <= c && c <= 'Z' {
            ((c as u8) + 32) as char
        } else {
            c
        };
        if lower != word[i] {
            assert(ascii_lower(v@[i as int]) != word@[i as int]);
            return false;
        }
        i += 1;
    }
    true
}

/// Reads the exponent part of a number.
fn parse_exponent(t: &Vec<char>) -> (r: Option<i128>)
    ensures
        r == match read_exponent(t@) {
            Some(e) => Some(e as i128),
            None => None,
        },
        r is Some ==> -(EXPONENT_LIMIT as int) <= r->0 <= EXPONENT_LIMIT as int,
{
    if t.len() == 0 {
        return Some(0);
    }
    if t[0] != 'e' && t[0] != 'E' {
        return None;
    }
    let negative = t.len() > 1 && t[1] == '-';
    let from: usize = if t.len() > 1 && (t[1] == '+' || t[1] == '-') {
        2
    } else {
        1
    };
    let ghost r = t@.drop_first();
    let ghost d = t@.skip(from as int);
    proof {
        if from == 2 {
            assert(r.drop_first() =~= d);
        } else {
            assert(r =~= d);
        }
    }
    if from == t.len() {
        return None;
    }
    let run = count_digits(t, from);
    proof {
        lemma_digit_run(t@, from as int);
        crate::numeric::lemma_all_digits(d, t@, from as int);
    }
    if from + run < t.len() {
        return None;
    }
    let magnitude: i128 = match read_digits(t, from) {
        Some(v) => if v > EXPONENT_LIMIT {
            EXPONENT_LIMIT as i128
        } else {
            v as i128
        },
        None => EXPONENT_LIMIT as i128,
    };
    Some(
        if negative {
            -magnitude
        } else {
            magnitude
        },
    )
}

/// A run of digits has a value, and a text that is no run of digits has none.
pub proof fn lemma_all_digits(d: Seq<char>, s: Seq<char>, from: int)
    requires
        0 <= from <= s.len(),
        d == s.skip(from),
    ensures
        digits_value(d) is Some <==> from + digit_run(s, from) == s.len(),
    decreases d.len(),
{
    lemma_digit_run(s, from);
    lemma_digits_value_some(d);
    if from + digit_run(s, from) == s.len() {
        assert forall|k: int| 0 <= k < d.len() implies is_digit(#[trigger] d[k]) by {
            assert(d[k] == s[from + k]);
        }
    } else {
        let k = digit_run(s, from) as int;
        assert(!is_digit(d[k]));
    }
}

/// A text has a value as a run of digits exactly when each of its characters is a digit.
pub proof fn lemma_digits_value_some(d: Seq<char>)
    ensures
        digits_value(d) is Some <==> (forall|k: int| 0 <= k < d.len() ==> is_digit(#[trigger] d[k])),
    decreases d.len(),
{
    if d.len() > 0 {
        lemma_digits_value_some(d.drop_last());
        if digits_value(d) is Some {
            assert forall|k: int| 0 <= k < d.len() implies is_digit(#[trigger] d[k]) by {
                if k < d.len() - 1 {
                    assert(d.drop_last()[k] == d[k]);
                }
            }
        } else {
            if forall|k: int| 0 <= k < d.len() ==> is_digit(#[trigger] d[k]) {
                assert(is_digit(d.last()));
                assert forall|k: int| 0 <= k < d.drop_last().len() implies is_digit(
                    #[trigger] d.drop_last()[k],
                ) by {
                    assert(d.drop_last()[k] == d[k]);
                }
            }
        }
    }
}


impl Decimal {
    /// The number zero.
    fn zero() -> (r: Decimal)
        ensures
            r@ == (Num::Finite { negative: false, digits: Seq::empty(), exp: 0 }),
    {
        let r = Decimal::Finite { negative: false, digits: Vec::new(), exp: 0 };
        assert(r@->Finite_digits =~= Seq::<char>::empty());
        r
    }

    /// Reads an unsigned decimal number from `b`.
    fn parse_finite(negative: bool, b: &Vec<char>) -> (r: Option<Decimal>)
        ensures
            r.is_some() == read_finite(negative, b@).is_some(),
            r is Some ==> r->0@ == read_finite(negative, b@)->0,
    {
        let int_len = count_digits(b, 0);
        let has_point = int_len < b.len() && b[int_len] == '.';
        let frac_start: usize = if has_point {
            int_len + 1
        } else {
            int_len
        };
        let frac_len: usize = if has_point {
            count_digits(b, frac_start)
        } else {
            0
        };
        let mantissa_end: usize = frac_start + frac_len;
        if int_len == 0 && frac_len == 0 {
            return None;
        }
        let tail = slice_chars(b, mantissa_end, b.len());
        assert(b@.subrange(mantissa_end as int, b.len() as int) =~= b@.skip(mantissa_end as int));
        let e = match parse_exponent(&tail) {
            Some(e) => e,
            None => {
                return None;
            },
        };
        let mut digits = slice_chars(b, 0, int_len);
        let frac = slice_chars(b, frac_start, mantissa_end);
        crate::text::push_chars(&mut digits, &frac);
        let z = count_zeros(&digits, 0);
        let t = count_trailing_zeros(&digits, z);
        let core = slice_chars(&digits, z, digits.len() - t);
        proof {
            let rest = digits@.skip(z as int);
            assert(rest.take(rest.len() - t) =~= digits@.subrange(z as int, digits.len() - t));
        }
        if core.len() == 0 {
            return Some(Decimal::zero());
        }
        let exp: i128 = (int_len as i128) - (z as i128) + e;
        Some(Decimal::Finite { negative, digits: core, exp })
    }

    /// Reads a number from text.
    ///
    /// Returns what [`read_number`] gives for the text, `None` where it is no number.
    pub fn parse(s: &str) -> (r: Option<Decimal>)
        ensures
            r.is_some() == read_number(s@).is_some(),
            r is Some ==> r->0@ == read_number(s@)->0,
    {
        let v = crate::text::chars_of(s);
        let negative = v.len() > 0 && v[0] == '-';
        let from: usize = if v.len() > 0 && (v[0] == '+' || v[0] == '-') {
            1
        } else {
            0
        };
        let body = slice_chars(&v, from, v.len());
        proof {
            if from == 1 {
                assert(v@.subrange(1, v.len() as int) =~= v@.drop_first());
            } else {
                assert(v@.subrange(0, v.len() as int) =~= v@);
            }
        }
        let inf = vec!['i', 'n', 'f'];
        let infinity = vec!['i', 'n', 'f', 'i', 'n', 'i', 't', 'y'];
        let nan = vec!['n', 'a', 'n'];
        assert(inf@ =~= seq!['i', 'n', 'f']);
        assert(infinity@ =~= seq!['i', 'n', 'f', 'i', 'n', 'i', 't', 'y']);
        assert(nan@ =~= seq!['n', 'a', 'n']);
        if word_matches(&body, &inf) || word_matches(&body, &infinity) {
            if negative {
                Some(Decimal::NegInf)
            } else {
                Some(Decimal::PosInf)
            }
        } else if word_matches(&body, &nan) {
            Some(Decimal::NaN)
        } else {
            Decimal::parse_finite(negative, &body)
        }
    }

    /// The place of this number among the signs.
    fn class(&self) -> (c: u8)
        ensures
            c as int == sign_class(self@),
    {
        match self {
            Decimal::NaN => 2,
            Decimal::NegInf => 0,
            Decimal::PosInf => 4,
            Decimal::Finite { negative, digits, exp } => if digits.len() == 0 {
                2
            } else if *negative {
                1
            } else {
                3
            },
        }
    }

    /// Whether this number is strictly below `other`.
    pub fn lt(&self, other: &Decimal) -> (r: bool)
        ensures
            r == num_lt(self@, other@),
    {
        match self {
            Decimal::NaN => {
                return false;
            },
            _ => {},
        }
        match other {
            Decimal::NaN => {
                return false;
            },
            _ => {},
        }
        let ca = self.class();
        let cb = other.class();
        if ca != cb {
            return ca < cb;
        }
        match self {
            Decimal::Finite { negative: na, digits: da, exp: ea } => match other {
                Decimal::Finite { negative: nb, digits: db, exp: eb } => {
                    if da.len() == 0 {
                        false
                    } else if *na {
                        *eb < *ea || (*eb == *ea && chars_lt(db, da))
                    } else {
                        *ea < *eb || (*ea == *eb && chars_lt(da, db))
                    }
                },
                _ => false,
            },
            _ => false,
        }
    }
}

} // verus!
