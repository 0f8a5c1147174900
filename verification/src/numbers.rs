//! Decimal parsing of numeric field tokens: an optional sign followed by
//! ASCII digits, accepted only when the value fits an `i32`.

use vstd::prelude::*;

verus! {

/// `+`, an accepted (and ignored) leading sign.
pub const PLUS: u8 = 0x2b;

/// `-`, the negative leading sign.
pub const MINUS: u8 = 0x2d;

/// True of the ASCII digits `0-9`.
pub open spec fn is_dec_digit(b: u8) -> bool {
    0x30 <= b <= 0x39
}

/// True of a non-empty run of ASCII digits.
pub open spec fn all_dec_digits(s: Seq<u8>) -> bool {
    s.len() > 0 && forall|i: int| 0 <= i < s.len() ==> is_dec_digit(s[i])
}

/// The value of a digit run read as a base-ten numeral.
pub open spec fn dec_value(s: Seq<u8>) -> int
    decreases s.len(),
{
    if s.len() == 0 {
        0
    } else {
        dec_value(s.drop_last()) * 10 + (s.last() - 0x30)
    }
}

/// The token with any single leading sign removed.
pub open spec fn token_digits(s: Seq<u8>) -> Seq<u8> {
    if s.len() > 0 && (s[0] == PLUS || s[0] == MINUS) {
        s.drop_first()
    } else {
        s
    }
}

/// True when the token carries a `-` sign.
pub open spec fn token_negative(s: Seq<u8>) -> bool {
    s.len() > 0 && s[0] == MINUS
}

/// The integer a token denotes: an optional sign followed by one or more
/// digits. `None` when the token is not of that shape.
pub open spec fn int_token_value(s: Seq<u8>) -> Option<int> {
    if all_dec_digits(token_digits(s)) {
        if token_negative(s) {
            Some(-dec_value(token_digits(s)))
        } else {
            Some(dec_value(token_digits(s)))
        }
    } else {
        None
    }
}

/// True when the token denotes an integer that fits an `i32`.
pub open spec fn parses_as_i32(s: Seq<u8>) -> bool {
    &&& int_token_value(s) is Some
    &&& i32::MIN <= int_token_value(s)->0 <= i32::MAX
}

/// The `i32` a token denotes.
pub open spec fn i32_token_value(s: Seq<u8>) -> i32
    recommends
        parses_as_i32(s),
{
    int_token_value(s)->0 as i32
}

/// A digit run's value is never negative.
pub proof fn lemma_dec_value_nonneg(s: Seq<u8>)
    requires
        forall|i: int| 0 <= i < s.len() ==> is_dec_digit(s[i]),
    ensures
        dec_value(s) >= 0,
    decreases s.len(),
{
    if s.len() > 0 {
        lemma_dec_value_nonneg(s.drop_last());
    }
}

/// A digit run's value only grows as digits are appended.
pub proof fn lemma_dec_value_take_le(s: Seq<u8>, k: int)
    requires
        forall|i: int| 0 <= i < s.len() ==> is_dec_digit(s[i]),
        0 <= k <= s.len(),
    ensures
        dec_value(s.take(k)) <= dec_value(s),
    decreases s.len(),
{
    if k == s.len() {
        assert(s.take(k) =~= s);
    } else {
        lemma_dec_value_nonneg(s.drop_last());
        assert(s.drop_last().take(k) =~= s.take(k));
        lemma_dec_value_take_le(s.drop_last(), k);
    }
}

/// Parses a field token as a decimal `i32`: an optional `+` or `-` sign and
/// one or more digits, rejected when malformed or out of range.
pub fn parse_i32_token(t: &[u8]) -> (r: Option<i32>)
    ensures
        r is Some <==> parses_as_i32(t@),
        r is Some ==> r->0 == i32_token_value(t@),
{
    let n = t.len();
    if n == 0 {
        return None;
    }
    let neg = t[0] == MINUS;
    let start: usize = if t[0] == MINUS || t[0] == PLUS {
        1
    } else {
        0
    };
    let ghost digits = token_digits(t@);
    proof {
        assert(digits =~= t@.subrange(start as int, n as int));
    }
    if start >= n {
        return None;
    }
    let mut mag: u64 = 0;
    let mut i: usize = start;
    proof {
        assert(t@.subrange(start as int, start as int) =~= Seq::<u8>::empty());
    }
    while i < n
        invariant
            start <= i <= n,
            n == t@.len(),
            digits == token_digits(t@),
            digits == t@.subrange(start as int, n as int),
            forall|j: int| start <= j < i ==> is_dec_digit(t@[j]),
            mag == dec_value(t@.subrange(start as int, i as int)),
            mag <= 0x8000_0000,
        decreases n - i,
    {
        let b = t[i];
        if b < 0x30 || b > 0x39 {
            proof {
                assert(digits[i - start] == t@[i as int]);
                assert(!is_dec_digit(digits[i - start]));
                assert(!all_dec_digits(digits));
            }
            return None;
        }
        proof {
            assert(t@.subrange(start as int, i + 1 as int).drop_last() =~= t@.subrange(
                start as int,
                i as int,
            ));
        }
        mag = mag * 10 + ((b - 0x30) as u64);
        if mag > 0x8000_0000 {
            proof {
                assert(t@.subrange(start as int, i + 1 as int).last() == b);
                assert(mag == dec_value(t@.subrange(start as int, i + 1 as int)));
                if all_dec_digits(digits) {
                    assert(digits.take(i + 1 - start as int) =~= t@.subrange(
                        start as int,
                        i + 1 as int,
                    ));
                    lemma_dec_value_take_le(digits, i + 1 - start as int);
                    assert(dec_value(digits) > 0x8000_0000);
                    assert(int_token_value(t@)->0 == dec_value(digits) || int_token_value(t@)->0
                        == -dec_value(digits));
                    assert(!parses_as_i32(t@));
                }
            }
            return None;
        }
        i = i + 1;
    }
    proof {
        assert(digits =~= t@.subrange(start as int, n as int));
        assert(all_dec_digits(digits));
    }
    if neg {
        if mag == 0x8000_0000 {
            Some(i32::MIN)
        } else {
            Some(-(mag as i32))
        }
    } else {
        if mag > 0x7fff_ffff {
            None
        } else {
            Some(mag as i32)
        }
    }
}

} // verus!
