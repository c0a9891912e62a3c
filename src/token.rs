//! Conversion of one token into a typed value.

use vstd::prelude::*;

verus! {

/// An ASCII decimal digit.
pub open spec fn is_digit(c: char) -> bool {
    '0' as u32 <= c as u32 && c as u32 <= '9' as u32
}

/// A non-empty run of ASCII decimal digits.
pub open spec fn all_digits(s: Seq<char>) -> bool {
    s.len() > 0 && forall|i: int| 0 <= i < s.len() ==> is_digit(#[trigger] s[i])
}

/// The number that the decimal digits of `s` write.
pub open spec fn digits_value(s: Seq<char>) -> int
    decreases s.len(),
{
    if s.len() == 0 {
        0
    } else {
        10 * digits_value(s.drop_last()) + (s.last() as u32 - '0' as u32)
    }
}

/// The integer that `s` writes in decimal: an optional `+` (or `-`, where
/// negative numbers are read), then one or more ASCII digits, nothing else.
pub open spec fn decimal_value(s: Seq<char>, signed: bool) -> Option<int> {
    if s.len() > 0 && s[0] == '+' {
        if all_digits(s.drop_first()) {
            Some(digits_value(s.drop_first()))
        } else {
            None
        }
    } else if signed && s.len() > 0 && s[0] == '-' {
        if all_digits(s.drop_first()) {
            Some(-digits_value(s.drop_first()))
        } else {
            None
        }
    } else if all_digits(s) {
        Some(digits_value(s))
    } else {
        None
    }
}

/// The value of the integer token `s` in a type with bounds `min..=max`, if it
/// is one and lies there.
pub open spec fn integer_value(s: Seq<char>, signed: bool, min: int, max: int) -> Option<int> {
    match decimal_value(s, signed) {
        Some(v) => if min <= v <= max {
            Some(v)
        } else {
            None
        },
        None => None,
    }
}

/// Reads the integer token `s` for a type with bounds `min..=max`.
pub fn parse_integer(s: &Vec<char>, signed: bool, min: i128, max: i128) -> (r: Option<i128>)
    requires
        i64::MIN <= min <= 0 <= max <= u64::MAX,
        !signed ==> min == 0,
    ensures
        r matches Some(v) ==> integer_value(s@, signed, min as int, max as int) == Some(v as int),
        r is None ==> integer_value(s@, signed, min as int, max as int) is None,
{
    let n = s.len();
    if n == 0 {
        return None;
    }
    let mut start: usize = 0;
    let mut negative = false;
    if s[0] == '+' {
        start = 1;
    } else if signed && s[0] == '-' {
        start = 1;
        negative = true;
    }
    let ghost body = s@.subrange(start as int, n as int);
    assert(start == 1 ==> body =~= s@.drop_first());
    assert(start == 0 ==> body =~= s@);
    assert(decimal_value(s@, signed) == if all_digits(body) {
        Some(
            if negative {
                -digits_value(body)
            } else {
                digits_value(body)
            },
        )
    } else {
        None::<int>
    });
    if start == n {
        return None;
    }
    let limit: u128 = if negative {
        (0 - min) as u128
    } else {
        max as u128
    };
    let mut acc: u128 = 0;
    let mut i = start;
    assert(s@.subrange(start as int, start as int) =~= Seq::<char>::empty());
    while i < n
        invariant
            start <= i <= n == s.len(),
            body == s@.subrange(start as int, n as int),
            decimal_value(s@, signed) == if all_digits(body) {
                Some(
                    if negative {
                        -digits_value(body)
                    } else {
                        digits_value(body)
                    },
                )
            } else {
                None::<int>
            },
            limit == if negative {
                -min
            } else {
                max as int
            },
            limit <= u64::MAX + 1,
            forall|k: int| start <= k < i ==> is_digit(#[trigger] s@[k]),
            acc <= limit + 1,
            acc <= limit ==> acc == digits_value(s@.subrange(start as int, i as int)),
            acc > limit ==> digits_value(s@.subrange(start as int, i as int)) > limit,
        decreases n - i,
    {
        let u = s[i] as u32;
        if !('0' as u32 <= u && u <= '9' as u32) {
            assert(body[i - start] == s@[i as int]);
            assert(!is_digit(body[i - start]));
            return None;
        }
        let d = (u - '0' as u32) as u128;
        let ghost pre = s@.subrange(start as int, i as int);
        assert(s@.subrange(start as int, i as int + 1).drop_last() =~= pre);
        let next = acc * 10 + d;
        acc = if next > limit {
            limit + 1
        } else {
            next
        };
        i = i + 1;
    }
    assert(body == s@.subrange(start as int, i as int));
    assert(all_digits(body)) by {
        assert forall|k: int| 0 <= k < body.len() implies is_digit(#[trigger] body[k]) by {
            assert(body[k] == s@[start + k]);
        }
    }
    if acc > limit {
        None
    } else if negative {
        Some(0 - (acc as i128))
    } else {
        Some(acc as i128)
    }
}

/// A type whose values can be read from one token.
pub trait FromToken: Sized {
    /// Whether `s` is the text of some value.
    spec fn is_token_of(s: Seq<char>) -> bool;

    /// Whether `v` is the value that `s` writes.
    spec fn token_value(s: Seq<char>, v: Self) -> bool;

    /// Reads the token `s`.
    fn from_token(s: &Vec<char>) -> (r: Option<Self>)
        ensures
            r matches Some(v) ==> Self::is_token_of(s@) && Self::token_value(s@, v),
            r is None ==> !Self::is_token_of(s@),
    ;
}

impl FromToken for i32 {
    open spec fn is_token_of(s: Seq<char>) -> bool {
        integer_value(s, true, i32::MIN as int, i32::MAX as int) is Some
    }

    open spec fn token_value(s: Seq<char>, v: i32) -> bool {
        integer_value(s, true, i32::MIN as int, i32::MAX as int) == Some(v as int)
    }

    fn from_token(s: &Vec<char>) -> (r: Option<i32>) {
        match parse_integer(s, true, i32::MIN as i128, i32::MAX as i128) {
            Some(v) => Some(v as i32),
            None => None,
        }
    }
}

impl FromToken for i64 {
    open spec fn is_token_of(s: Seq<char>) -> bool {
        integer_value(s, true, i64::MIN as int, i64::MAX as int) is Some
    }

    open spec fn token_value(s: Seq<char>, v: i64) -> bool {
        integer_value(s, true, i64::MIN as int, i64::MAX as int) == Some(v as int)
    }

    fn from_token(s: &Vec<char>) -> (r: Option<i64>) {
        match parse_integer(s, true, i64::MIN as i128, i64::MAX as i128) {
            Some(v) => Some(v as i64),
            None => None,
        }
    }
}

impl FromToken for isize {
    open spec fn is_token_of(s: Seq<char>) -> bool {
        integer_value(s, true, isize::MIN as int, isize::MAX as int) is Some
    }

    open spec fn token_value(s: Seq<char>, v: isize) -> bool {
        integer_value(s, true, isize::MIN as int, isize::MAX as int) == Some(v as int)
    }

    fn from_token(s: &Vec<char>) -> (r: Option<isize>) {
        match parse_integer(s, true, isize::MIN as i128, isize::MAX as i128) {
            Some(v) => Some(v as isize),
            None => None,
        }
    }
}

impl FromToken for u32 {
    open spec fn is_token_of(s: Seq<char>) -> bool {
        integer_value(s, false, 0, u32::MAX as int) is Some
    }

    open spec fn token_value(s: Seq<char>, v: u32) -> bool {
        integer_value(s, false, 0, u32::MAX as int) == Some(v as int)
    }

    fn from_token(s: &Vec<char>) -> (r: Option<u32>) {
        match parse_integer(s, false, 0, u32::MAX as i128) {
            Some(v) => Some(v as u32),
            None => None,
        }
    }
}

impl FromToken for u64 {
    open spec fn is_token_of(s: Seq<char>) -> bool {
        integer_value(s, false, 0, u64::MAX as int) is Some
    }

    open spec fn token_value(s: Seq<char>, v: u64) -> bool {
        integer_value(s, false, 0, u64::MAX as int) == Some(v as int)
    }

    fn from_token(s: &Vec<char>) -> (r: Option<u64>) {
        match parse_integer(s, false, 0, u64::MAX as i128) {
            Some(v) => Some(v as u64),
            None => None,
        }
    }
}

impl FromToken for usize {
    open spec fn is_token_of(s: Seq<char>) -> bool {
        integer_value(s, false, 0, usize::MAX as int) is Some
    }

    open spec fn token_value(s: Seq<char>, v: usize) -> bool {
        integer_value(s, false, 0, usize::MAX as int) == Some(v as int)
    }

    fn from_token(s: &Vec<char>) -> (r: Option<usize>) {
        match parse_integer(s, false, 0, usize::MAX as i128) {
            Some(v) => Some(v as usize),
            None => None,
        }
    }
}

/// Relies on `String`'s `FromIterator<char>`: the characters, in order.
#[verifier::external_body]
pub(crate) fn string_of(chars: &Vec<char>) -> (r: String)
    ensures
        r@ == chars@,
{
    chars.iter().collect()
}

impl FromToken for String {
    open spec fn is_token_of(s: Seq<char>) -> bool {
        true
    }

    open spec fn token_value(s: Seq<char>, v: String) -> bool {
        v@ == s
    }

    fn from_token(s: &Vec<char>) -> (r: Option<String>) {
        Some(string_of(s))
    }
}

} // verus!
