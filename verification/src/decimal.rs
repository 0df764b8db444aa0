//! Decimal text for unsigned integers: formatting and strict parsing.
use vstd::prelude::*;

verus! {

pub open spec fn digit_char(d: nat) -> char
    recommends
        d < 10,
{
    (d + 48) as char
}

pub open spec fn is_digit(c: char) -> bool {
    '0' <= c && c <= '9'
}

pub open spec fn digit_value(c: char) -> nat {
    (c as int - 48) as nat
}

/// The decimal digits of `n`, most significant first, without leading zeros.
pub open spec fn dec_digits(n: nat) -> Seq<char>
    decreases n,
{
    if n < 10 {
        seq![digit_char(n)]
    } else {
        dec_digits(n / 10).push(digit_char(n % 10))
    }
}

/// The value of a string of decimal digits.
pub open spec fn dec_value(d: Seq<char>) -> nat
    decreases d.len(),
{
    if d.len() == 0 {
        0
    } else {
        dec_value(d.drop_last()) * 10 + digit_value(d.last())
    }
}

pub open spec fn all_digits(d: Seq<char>) -> bool {
    forall|i: int| 0 <= i < d.len() ==> is_digit(#[trigger] d[i])
}

/// What `str::parse` accepts for an unsigned integer: an optional `+`, then
/// one or more decimal digits.  The value, or `None` when the text is not of
/// that form.
pub open spec fn parse_decimal(s: Seq<char>) -> Option<nat> {
    let d = if s.len() > 0 && s[0] == '+' {
        s.drop_first()
    } else {
        s
    };
    if d.len() > 0 && all_digits(d) {
        Some(dec_value(d))
    } else {
        None
    }
}

/// The decimal digits of `n`.
pub fn usize_to_decimal(n: usize) -> (r: Vec<char>)
    ensures
        r@ == dec_digits(n as nat),
    decreases n,
{
    let d = ((n % 10) as u8 + 48) as char;
    if n < 10 {
        vec![d]
    } else {
        let mut v = usize_to_decimal(n / 10);
        v.push(d);
        v
    }
}

/// Why a text is not an unsigned integer that fits, as `str::parse`
/// reports it.
#[derive(Debug, Clone, Copy, PartialEq, Eq, Structural)]
pub enum IntErrorKind {
    /// The text is empty.
    Empty,
    /// A char that is not a decimal digit comes before the value overflows.
    InvalidDigit,
    /// The value outgrows the type before a char that is not a digit comes.
    PosOverflow,
}

/// The text after an optional leading `+`.
pub open spec fn unsigned_digits(s: Seq<char>) -> Seq<char> {
    if s.len() > 0 && s[0] == '+' {
        s.drop_first()
    } else {
        s
    }
}

/// The length of the run of decimal digits that `d` starts with.
pub open spec fn digit_run(d: Seq<char>) -> nat
    decreases d.len(),
{
    if d.len() > 0 && is_digit(d[0]) {
        1 + digit_run(d.drop_first())
    } else {
        0
    }
}

/// The error `str::parse::<usize>` reports for a text it refuses: digits
/// are read from the left, and the first char that is not a digit, or the
/// first digit that makes the value too large, decides.
pub open spec fn int_error_kind(s: Seq<char>) -> IntErrorKind {
    if s.len() == 0 {
        IntErrorKind::Empty
    } else {
        let d = unsigned_digits(s);
        if dec_value(d.take(digit_run(d) as int)) > usize::MAX {
            IntErrorKind::PosOverflow
        } else {
            IntErrorKind::InvalidDigit
        }
    }
}

proof fn lemma_digit_run(d: Seq<char>, j: int)
    requires
        0 <= j <= d.len(),
        forall|k: int| 0 <= k < j ==> is_digit(#[trigger] d[k]),
        j < d.len() ==> !is_digit(d[j]),
    ensures
        digit_run(d) == j,
    decreases j,
{
    if j > 0 {
        assert forall|k: int| 0 <= k < j - 1 implies is_digit(#[trigger] d.drop_first()[k]) by {
            assert(d.drop_first()[k] == d[k + 1]);
        }
        if j - 1 < d.drop_first().len() {
            assert(d.drop_first()[j - 1] == d[j]);
        }
        lemma_digit_run(d.drop_first(), j - 1);
    }
}

/// Parse an unsigned decimal as `str::parse::<usize>` does: the value, or
/// why the text is not one that fits.
pub fn parse_usize(s: &[char]) -> (r: Result<usize, IntErrorKind>)
    ensures
        match parse_decimal(s@) {
            Some(v) => if v <= usize::MAX {
                r == Ok::<usize, IntErrorKind>(v as usize)
            } else {
                r == Err::<usize, IntErrorKind>(int_error_kind(s@))
            },
            None => r == Err::<usize, IntErrorKind>(int_error_kind(s@)),
        },
{
    if s.len() == 0 {
        return Err(IntErrorKind::Empty);
    }
    let start: usize = if s.len() > 0 && s[0] == '+' {
        1
    } else {
        0
    };
    let ghost d = s@.skip(start as int);
    assert(start == 1 ==> d == s@.drop_first());
    assert(start == 0 ==> d == s@);
    assert(d == unsigned_digits(s@));
    if start >= s.len() {
        assert(d.take(0) =~= Seq::<char>::empty());
        assert(dec_value(d.take(0)) == 0);
        proof { lemma_digit_run(d, 0); }
        return Err(IntErrorKind::InvalidDigit);
    }
    let mut acc: usize = 0;
    let mut overflow = false;
    let mut i = start;
    while i < s.len()
        invariant
            start <= i <= s.len(),
            s@.len() > 0,
            d == unsigned_digits(s@),
            d == s@.skip(start as int),
            start == 1 ==> d == s@.drop_first(),
            start == 0 ==> d == s@,
            start == 1 <==> (s.len() > 0 && s@[0] == '+'),
            forall|j: int| start <= j < i ==> is_digit(#[trigger] s@[j]),
            !overflow ==> acc == dec_value(d.take(i - start)),
            overflow ==> dec_value(d.take(i - start)) > usize::MAX,
        decreases s.len() - i,
    {
        let c = s[i];
        if !('0' <= c && c <= '9') {
            assert(d[i - start] == c);
            assert(!is_digit(d[i - start]));
            assert(!all_digits(d));
            proof {
                assert forall|k: int| 0 <= k < i - start implies is_digit(#[trigger] d[k]) by {
                    assert(d[k] == s@[k + start]);
                }
                lemma_digit_run(d, i - start);
            }
            if overflow {
                return Err(IntErrorKind::PosOverflow);
            } else {
                return Err(IntErrorKind::InvalidDigit);
            }
        }
        let ghost prev = d.take(i - start);
        assert(d.take(i - start + 1).drop_last() == prev);
        assert(d.take(i - start + 1).last() == c);
        let dv = (c as u32 - 48) as usize;
        if !overflow {
            match acc.checked_mul(10) {
                Some(m) => match m.checked_add(dv) {
                    Some(v) => {
                        acc = v;
                    },
                    None => {
                        overflow = true;
                    },
                },
                None => {
                    overflow = true;
                },
            }
        } else {
            assert(dec_value(d.take(i - start + 1)) >= dec_value(prev) * 10) by (nonlinear_arith)
                requires
                    dec_value(d.take(i - start + 1)) == dec_value(prev) * 10 + digit_value(c),
            ;
        }
        i += 1;
    }
    assert(d.take(s.len() - start) == d);
    assert forall|j: int| 0 <= j < d.len() implies is_digit(#[trigger] d[j]) by {
        assert(d[j] == s@[j + start]);
    }
    proof {
        lemma_digit_run(d, d.len() as int);
    }
    if overflow {
        Err(IntErrorKind::PosOverflow)
    } else {
        Ok(acc)
    }
}

/// Formatting a number in decimal and parsing it back gives the number.
pub proof fn lemma_decimal_roundtrip(n: nat)
    ensures
        parse_decimal(dec_digits(n)) == Some(n),
        dec_digits(n).len() > 0,
        dec_digits(n)[0] != '+',
    decreases n,
{
    lemma_dec_digits(n);
}

proof fn lemma_dec_digits(n: nat)
    ensures
        all_digits(dec_digits(n)),
        dec_value(dec_digits(n)) == n,
        dec_digits(n).len() > 0,
        is_digit(dec_digits(n)[0]),
    decreases n,
{
    if n >= 10 {
        lemma_dec_digits(n / 10);
        let p = dec_digits(n / 10);
        let c = digit_char(n % 10);
        assert(dec_digits(n) == p.push(c));
        assert(p.push(c).drop_last() == p);
        assert(dec_value(p.push(c)) == dec_value(p) * 10 + digit_value(c));
        assert(digit_value(c) == n % 10);
        assert((n / 10) * 10 + n % 10 == n) by (nonlinear_arith);
        assert(dec_value(p) == n / 10);
        assert(dec_value(dec_digits(n)) == (n / 10) * 10 + n % 10);
        assert forall|i: int| 0 <= i < p.push(c).len() implies is_digit(#[trigger] p.push(c)[i]) by {
            if i < p.len() {
                assert(p.push(c)[i] == p[i]);
            }
        }
    } else {
        assert(digit_value(digit_char(n)) == n);
        assert(dec_value(dec_digits(n).drop_last()) == 0);
    }
}

} // verus!
