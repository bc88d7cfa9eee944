//! The fixed-count numeric field parser: whitespace tokenization plus
//! per-token validation, succeeding only when exactly the requested number
//! of valid tokens is present.
//!
//! Integer tokens are parsed to their exact value.  Float tokens are
//! validated against the numeric-literal grammar below and handed on as
//! bytes; turning one into a machine float is left to the unverified shell,
//! since floating point stays outside the verified core.

use vstd::prelude::*;

use crate::errors::TranslateError;
use crate::text::{split_whitespace_tokens, split_ws, views_of};

verus! {

/// An ASCII decimal digit.
pub open spec fn is_digit(b: u8) -> bool {
    48 <= b <= 57
}

/// The value of one digit byte.
pub open spec fn digit_val(b: u8) -> int {
    b - 48
}

/// Whether `s` starts with an explicit `+` or `-`.
pub open spec fn has_sign(s: Seq<u8>) -> bool {
    s.len() > 0 && (s[0] == 43 || s[0] == 45)
}

/// The digit part of an integer token: everything after the sign, if any.
pub open spec fn int_digits(s: Seq<u8>) -> Seq<u8> {
    if has_sign(s) {
        s.drop_first()
    } else {
        s
    }
}

/// An integer token: an optional sign followed by one or more digits.
pub open spec fn is_int_token(s: Seq<u8>) -> bool {
    int_digits(s).len() > 0 && forall|k: int|
        0 <= k < int_digits(s).len() ==> is_digit(int_digits(s)[k])
}

/// The value of a run of digit bytes, most significant first.
pub open spec fn digits_val(d: Seq<u8>) -> int
    decreases d.len(),
{
    if d.len() == 0 {
        0
    } else {
        digits_val(d.drop_last()) * 10 + digit_val(d.last())
    }
}

/// The signed value of an integer token.
pub open spec fn int_token_val(s: Seq<u8>) -> int {
    if s.len() > 0 && s[0] == 45 {
        -digits_val(s.drop_first())
    } else if s.len() > 0 && s[0] == 43 {
        digits_val(s.drop_first())
    } else {
        digits_val(s)
    }
}

/// Whether the integer token `s` is valid and its value lies in `[lo, hi]`.
pub open spec fn int_parses(s: Seq<u8>, lo: int, hi: int) -> bool {
    is_int_token(s) && lo <= int_token_val(s) <= hi
}

/// Ten to the `k`.
pub open spec fn pow10(k: nat) -> int
    decreases k,
{
    if k == 0 {
        1
    } else {
        10 * pow10((k - 1) as nat)
    }
}

proof fn lemma_pow10_concrete()
    ensures
        pow10(17) == 100000000000000000,
        pow10(18) == 1000000000000000000,
{
    reveal_with_fuel(pow10, 20);
}

proof fn lemma_pow10_mono(a: nat, b: nat)
    requires
        a <= b,
    ensures
        1 <= pow10(a) <= pow10(b),
    decreases b,
{
    if b == 0 {
    } else if a == b {
        lemma_pow10_mono((a - 1) as nat, (b - 1) as nat);
    } else {
        lemma_pow10_mono(a, (b - 1) as nat);
    }
}

proof fn lemma_digits_val_bounds(d: Seq<u8>)
    requires
        forall|k: int| 0 <= k < d.len() ==> is_digit(d[k]),
    ensures
        0 <= digits_val(d) < pow10(d.len()),
    decreases d.len(),
{
    if d.len() > 0 {
        lemma_digits_val_bounds(d.drop_last());
    }
}

proof fn lemma_digits_val_lower(d: Seq<u8>)
    requires
        forall|k: int| 0 <= k < d.len() ==> is_digit(d[k]),
        d.len() > 0,
        d[0] != 48,
    ensures
        digits_val(d) >= pow10((d.len() - 1) as nat),
    decreases d.len(),
{
    if d.len() == 1 {
        reveal_with_fuel(digits_val, 3);
        assert(d.drop_last().len() == 0);
        assert(digits_val(d) == digit_val(d[0]));
    } else {
        let t = d.drop_last();
        assert(t[0] == d[0]);
        assert forall|k: int| 0 <= k < t.len() implies is_digit(t[k]) by {
            assert(t[k] == d[k]);
        }
        lemma_digits_val_lower(t);
        assert(is_digit(d[d.len() - 1]));
        assert(d.last() == d[d.len() - 1]);
        assert(digit_val(d.last()) >= 0);
        assert(pow10((d.len() - 1) as nat) == 10 * pow10((d.len() - 2) as nat));
        assert(digits_val(d) == digits_val(t) * 10 + digit_val(d.last()));
        assert(digits_val(t) * 10 >= pow10((d.len() - 2) as nat) * 10) by (nonlinear_arith)
            requires
                digits_val(t) >= pow10((d.len() - 2) as nat),
        ;
    }
}

proof fn lemma_all_zero_digits(d: Seq<u8>)
    requires
        forall|k: int| 0 <= k < d.len() ==> d[k] == 48,
    ensures
        digits_val(d) == 0,
    decreases d.len(),
{
    if d.len() > 0 {
        lemma_all_zero_digits(d.drop_last());
    }
}

proof fn lemma_leading_zeros(d: Seq<u8>, z: int)
    requires
        0 <= z <= d.len(),
        forall|k: int| 0 <= k < z ==> d[k] == 48,
    ensures
        digits_val(d) == digits_val(d.skip(z)),
    decreases d.len(),
{
    if z == d.len() {
        lemma_all_zero_digits(d);
        assert(d.skip(z) =~= Seq::<u8>::empty());
    } else {
        if d.len() > 0 {
            lemma_leading_zeros(d.drop_last(), z);
            assert(d.skip(z).drop_last() =~= d.drop_last().skip(z));
            assert(d.skip(z).last() == d.last());
        }
    }
}

/// Parses one integer token, accepting exactly the values in `[lo, hi]`.
#[verifier::loop_isolation(false)]
fn parse_int_token(t: &Vec<u8>, lo: i64, hi: i64) -> (r: Option<i64>)
    requires
        -1000000000000000000 < lo,
        hi < 1000000000000000000,
    ensures
        r is Some <==> int_parses(t@, lo as int, hi as int),
        r is Some ==> r->0 == int_token_val(t@),
{
    let n = t.len();
    if n == 0 {
        return None;
    }
    let neg = t[0] == 45;
    let mut d: usize = 0;
    if t[0] == 43 || t[0] == 45 {
        d = 1;
    }
    if d >= n {
        assert(has_sign(t@));
        assert(t@.drop_first().len() == 0);
        assert(!is_int_token(t@));
        return None;
    }
    let ghost dig = int_digits(t@);
    proof {
        assert(dig =~= t@.skip(d as int));
    }
    let mut k = d;
    while k < n
        invariant
            d <= k <= n == t@.len(),
            d < n,
            d == 0 || d == 1,
            dig =~= t@.skip(d as int),
            forall|j: int| d <= j < k ==> is_digit(t@[j]),
        decreases n - k,
    {
        let b = t[k];
        if !(48 <= b && b <= 57) {
            proof {
                assert(0 <= k - d < int_digits(t@).len());
                assert(!is_digit(int_digits(t@)[k - d]));
                assert(!is_int_token(t@));
            }
            return None;
        }
        k += 1;
    }
    assert(is_int_token(t@)) by {
        assert(forall|j: int| 0 <= j < dig.len() ==> is_digit(#[trigger] dig[j]));
    }
    // Skip leading zeros so that the significant width bounds the value.
    let mut z = d;
    while z < n && t[z] == 48
        invariant
            d <= z <= n == t@.len(),
            forall|j: int| d <= j < z ==> t@[j] == 48,
        decreases n - z,
    {
        z += 1;
    }
    proof {
        assert(forall|j: int| 0 <= j < z - d ==> dig[j] == 48);
        lemma_leading_zeros(dig, z - d);
        assert(dig.skip(z - d) =~= t@.skip(z as int));
    }
    let sig = n - z;
    if sig > 18 {
        proof {
            let s = t@.skip(z as int);
            assert(forall|j: int| 0 <= j < s.len() ==> is_digit(s[j]));
            assert(s[0] != 48);
            lemma_digits_val_lower(s);
            lemma_pow10_mono(18, (s.len() - 1) as nat);
            lemma_pow10_concrete();
            assert(digits_val(dig) >= 1000000000000000000);
        }
        return None;
    }
    let mut acc: u64 = 0;
    let mut j = z;
    while j < n
        invariant
            z <= j <= n == t@.len(),
            n - z <= 18,
            forall|jj: int| z <= jj < n ==> is_digit(t@[jj]),
            acc == digits_val(t@.subrange(z as int, j as int)),
            acc < pow10((j - z) as nat),
        decreases n - j,
    {
        let b = t[j];
        proof {
            assert(t@.subrange(z as int, j + 1).drop_last() =~= t@.subrange(z as int, j as int));
            lemma_pow10_mono((j - z) as nat, 17);
            lemma_pow10_concrete();
        }
        acc = acc * 10 + (b - 48) as u64;
        j += 1;
    }
    proof {
        assert(t@.subrange(z as int, n as int) =~= t@.skip(z as int));
        assert(acc == digits_val(dig));
        lemma_pow10_mono((n - z) as nat, 18);
        lemma_pow10_concrete();
        assert(acc < 1000000000000000000);
        if neg {
            assert(d == 1 && t@[0] == 45);
            assert(int_token_val(t@) == -digits_val(dig));
        } else {
            if d == 1 {
                assert(t@[0] == 43);
                assert(int_token_val(t@) == digits_val(dig));
            } else {
                assert(!has_sign(t@));
                assert(int_token_val(t@) == digits_val(dig));
            }
        }
    }
    let v: i64 = if neg {
        -(acc as i64)
    } else {
        acc as i64
    };
    assert(v == int_token_val(t@));
    if lo <= v && v <= hi {
        Some(v)
    } else {
        None
    }
}

/// The outcome of the integer field parser on `data`: the values of the
/// whitespace-separated tokens when there are exactly `n` of them, each a
/// valid integer within `[lo, hi]`; a parse error when some token is not;
/// a count mismatch when all tokens are valid but their number is wrong.
pub open spec fn spec_parse_nums(n: int, lo: int, hi: int, data: Seq<u8>) -> Result<
    Seq<int>,
    TranslateError,
> {
    let ts = split_ws(data);
    if !(forall|k: int| 0 <= k < ts.len() ==> int_parses(ts[k], lo, hi)) {
        Err(TranslateError::ParseError)
    } else if ts.len() != n {
        Err(TranslateError::CountMismatch { expected: n as usize, got: ts.len() as usize })
    } else {
        Ok(Seq::new(ts.len(), |k: int| int_token_val(ts[k])))
    }
}

/// Parses exactly `n` whitespace-separated integers out of `data`, each of
/// which must lie in `[lo, hi]` — the bounds play the role of the numeric
/// type an unverified caller would have chosen.  All-or-nothing: any
/// invalid token or a wrong token count fails the whole parse.
#[verifier::loop_isolation(false)]
pub fn parse_nums_from_str(n: u16, lo: i64, hi: i64, data: &Vec<u8>) -> (r: Result<
    Vec<i64>,
    TranslateError,
>)
    requires
        -1000000000000000000 < lo,
        hi < 1000000000000000000,
    ensures
        match r {
            Ok(v) => spec_parse_nums(n as int, lo as int, hi as int, data@) == Ok::<
                Seq<int>,
                TranslateError,
            >(v@.map_values(|x: i64| x as int)),
            Err(e) => spec_parse_nums(n as int, lo as int, hi as int, data@) == Err::<
                Seq<int>,
                TranslateError,
            >(e),
        },
{
    let tokens = split_whitespace_tokens(data);
    let ghost ts = split_ws(data@);
    let mut vals: Vec<i64> = Vec::new();
    let mut k: usize = 0;
    while k < tokens.len()
        invariant
            k <= tokens@.len(),
            views_of(tokens@) == ts,
            -1000000000000000000 < lo,
            hi < 1000000000000000000,
            vals@.len() == k,
            forall|j: int| 0 <= j < k ==> int_parses(ts[j], lo as int, hi as int),
            forall|j: int| 0 <= j < k ==> vals@[j] == int_token_val(ts[j]),
        decreases tokens@.len() - k,
    {
        assert(tokens@[k as int]@ == ts[k as int]);
        match parse_int_token(&tokens[k], lo, hi) {
            Some(v) => {
                vals.push(v);
            },
            None => {
                proof {
                    assert(0 <= k < ts.len() && !int_parses(ts[k as int], lo as int, hi as int));
                    assert(!(forall|j: int|
                        0 <= j < ts.len() ==> int_parses(ts[j], lo as int, hi as int)));
                }
                return Err(TranslateError::ParseError);
            },
        }
        k += 1;
    }
    if tokens.len() != n as usize {
        assert(ts.len() != n as int);
        return Err(
            TranslateError::CountMismatch { expected: n as usize, got: tokens.len() },
        );
    }
    proof {
        assert(vals@.map_values(|x: i64| x as int) =~= Seq::new(
            ts.len(),
            |k: int| int_token_val(ts[k]),
        ));
    }
    Ok(vals)
}

/// The field parser is all-or-nothing: whatever the bounds, an input
/// whose token count differs from the requested one is rejected.
pub proof fn lemma_parser_rejects_wrong_count(n: int, lo: int, hi: int, data: Seq<u8>)
    requires
        split_ws(data).len() != n,
    ensures
        spec_parse_nums(n, lo, hi, data) is Err,
        spec_parse_floats(n, data) is Err,
{
}

/// The field parser is all-or-nothing: an input with even one token that
/// is not a valid integer of the requested range is rejected outright.
pub proof fn lemma_parser_rejects_bad_int(n: int, lo: int, hi: int, data: Seq<u8>, k: int)
    requires
        0 <= k < split_ws(data).len(),
        !int_parses(split_ws(data)[k], lo, hi),
    ensures
        spec_parse_nums(n, lo, hi, data) == Err::<Seq<int>, TranslateError>(
            TranslateError::ParseError,
        ),
{
    assert(!(forall|j: int| 0 <= j < split_ws(data).len() ==> int_parses(split_ws(data)[j], lo, hi)));
}

/// The float field parser rejects any input with a token outside the
/// float grammar.
pub proof fn lemma_parser_rejects_bad_float(n: int, data: Seq<u8>, k: int)
    requires
        0 <= k < split_ws(data).len(),
        !is_float_token(split_ws(data)[k]),
    ensures
        spec_parse_floats(n, data) == Err::<Seq<Seq<u8>>, TranslateError>(
            TranslateError::ParseError,
        ),
{
    assert(!(forall|j: int| 0 <= j < split_ws(data).len() ==> is_float_token(split_ws(data)[j])));
}

/// States of the float-token scanner.  The token grammar is
/// `[+|-] ( digits [ . digits* ] | . digits+ ) [ (e|E) [+|-] digits+ ]`.
#[derive(Clone, Copy, PartialEq, Eq, Structural)]
pub enum FloatScan {
    /// Nothing read yet.
    Start,
    /// A leading sign was read.
    Sign,
    /// Inside the integral digits.
    Int,
    /// A dot with no digits before it.
    DotOnly,
    /// A dot right after integral digits.
    DotAfterInt,
    /// Inside the fractional digits.
    Frac,
    /// An exponent mark was read.
    Exp,
    /// A sign right after the exponent mark.
    ExpSign,
    /// Inside the exponent digits.
    ExpDigits,
    /// The token can no longer be valid.
    Bad,
}

/// One scanner step.
pub open spec fn float_step(st: FloatScan, b: u8) -> FloatScan {
    match st {
        FloatScan::Start => if b == 43 || b == 45 {
            FloatScan::Sign
        } else if is_digit(b) {
            FloatScan::Int
        } else if b == 46 {
            FloatScan::DotOnly
        } else {
            FloatScan::Bad
        },
        FloatScan::Sign => if is_digit(b) {
            FloatScan::Int
        } else if b == 46 {
            FloatScan::DotOnly
        } else {
            FloatScan::Bad
        },
        FloatScan::Int => if is_digit(b) {
            FloatScan::Int
        } else if b == 46 {
            FloatScan::DotAfterInt
        } else if b == 101 || b == 69 {
            FloatScan::Exp
        } else {
            FloatScan::Bad
        },
        FloatScan::DotOnly => if is_digit(b) {
            FloatScan::Frac
        } else {
            FloatScan::Bad
        },
        FloatScan::DotAfterInt => if is_digit(b) {
            FloatScan::Frac
        } else if b == 101 || b == 69 {
            FloatScan::Exp
        } else {
            FloatScan::Bad
        },
        FloatScan::Frac => if is_digit(b) {
            FloatScan::Frac
        } else if b == 101 || b == 69 {
            FloatScan::Exp
        } else {
            FloatScan::Bad
        },
        FloatScan::Exp => if b == 43 || b == 45 {
            FloatScan::ExpSign
        } else if is_digit(b) {
            FloatScan::ExpDigits
        } else {
            FloatScan::Bad
        },
        FloatScan::ExpSign => if is_digit(b) {
            FloatScan::ExpDigits
        } else {
            FloatScan::Bad
        },
        FloatScan::ExpDigits => if is_digit(b) {
            FloatScan::ExpDigits
        } else {
            FloatScan::Bad
        },
        FloatScan::Bad => FloatScan::Bad,
    }
}

/// The scanner state after reading all of `s` from state `st`.
pub open spec fn float_scan(st: FloatScan, s: Seq<u8>) -> FloatScan
    decreases s.len(),
{
    if s.len() == 0 {
        st
    } else {
        float_step(float_scan(st, s.drop_last()), s.last())
    }
}

/// States in which a token may end.
pub open spec fn float_accepting(st: FloatScan) -> bool {
    st == FloatScan::Int || st == FloatScan::DotAfterInt || st == FloatScan::Frac || st
        == FloatScan::ExpDigits
}

/// A float token: a decimal literal with optional sign, fraction and
/// exponent, as written by the engine's data files.  The grammar covers
/// decimal numbers only: the special spellings a general float parser
/// would also take (infinities, not-a-number, in any case) are outside
/// it, as no engine data file carries them.
pub open spec fn is_float_token(s: Seq<u8>) -> bool {
    float_accepting(float_scan(FloatScan::Start, s))
}

fn float_step_exec(st: FloatScan, b: u8) -> (r: FloatScan)
    ensures
        r == float_step(st, b),
{
    match st {
        FloatScan::Start => if b == 43 || b == 45 {
            FloatScan::Sign
        } else if 48 <= b && b <= 57 {
            FloatScan::Int
        } else if b == 46 {
            FloatScan::DotOnly
        } else {
            FloatScan::Bad
        },
        FloatScan::Sign => if 48 <= b && b <= 57 {
            FloatScan::Int
        } else if b == 46 {
            FloatScan::DotOnly
        } else {
            FloatScan::Bad
        },
        FloatScan::Int => if 48 <= b && b <= 57 {
            FloatScan::Int
        } else if b == 46 {
            FloatScan::DotAfterInt
        } else if b == 101 || b == 69 {
            FloatScan::Exp
        } else {
            FloatScan::Bad
        },
        FloatScan::DotOnly => if 48 <= b && b <= 57 {
            FloatScan::Frac
        } else {
            FloatScan::Bad
        },
        FloatScan::DotAfterInt => if 48 <= b && b <= 57 {
            FloatScan::Frac
        } else if b == 101 || b == 69 {
            FloatScan::Exp
        } else {
            FloatScan::Bad
        },
        FloatScan::Frac => if 48 <= b && b <= 57 {
            FloatScan::Frac
        } else if b == 101 || b == 69 {
            FloatScan::Exp
        } else {
            FloatScan::Bad
        },
        FloatScan::Exp => if b == 43 || b == 45 {
            FloatScan::ExpSign
        } else if 48 <= b && b <= 57 {
            FloatScan::ExpDigits
        } else {
            FloatScan::Bad
        },
        FloatScan::ExpSign => if 48 <= b && b <= 57 {
            FloatScan::ExpDigits
        } else {
            FloatScan::Bad
        },
        FloatScan::ExpDigits => if 48 <= b && b <= 57 {
            FloatScan::ExpDigits
        } else {
            FloatScan::Bad
        },
        FloatScan::Bad => FloatScan::Bad,
    }
}

/// Checks one token against the float grammar.
pub fn check_float_token(t: &Vec<u8>) -> (r: bool)
    ensures
        r == is_float_token(t@),
{
    let mut st = FloatScan::Start;
    let mut i: usize = 0;
    while i < t.len()
        invariant
            i <= t@.len(),
            st == float_scan(FloatScan::Start, t@.take(i as int)),
        decreases t@.len() - i,
    {
        proof {
            assert(t@.take(i + 1).drop_last() =~= t@.take(i as int));
        }
        st = float_step_exec(st, t[i]);
        i += 1;
    }
    proof {
        assert(t@.take(t@.len() as int) =~= t@);
    }
    match st {
        FloatScan::Int => true,
        FloatScan::DotAfterInt => true,
        FloatScan::Frac => true,
        FloatScan::ExpDigits => true,
        _ => false,
    }
}

/// The outcome of the float field parser on `data`: the tokens themselves
/// when there are exactly `n` of them and each matches the float grammar.
pub open spec fn spec_parse_floats(n: int, data: Seq<u8>) -> Result<Seq<Seq<u8>>, TranslateError> {
    let ts = split_ws(data);
    if !(forall|k: int| 0 <= k < ts.len() ==> is_float_token(ts[k])) {
        Err(TranslateError::ParseError)
    } else if ts.len() != n {
        Err(TranslateError::CountMismatch { expected: n as usize, got: ts.len() as usize })
    } else {
        Ok(ts)
    }
}

/// Parses exactly `n` whitespace-separated float tokens out of `data` and
/// returns them still as bytes, validated against the float grammar.
/// All-or-nothing, like the integer parser.
#[verifier::loop_isolation(false)]
pub fn parse_float_tokens(n: usize, data: &Vec<u8>) -> (r: Result<Vec<Vec<u8>>, TranslateError>)
    ensures
        match r {
            Ok(v) => spec_parse_floats(n as int, data@) == Ok::<Seq<Seq<u8>>, TranslateError>(
                views_of(v@),
            ),
            Err(e) => spec_parse_floats(n as int, data@) == Err::<Seq<Seq<u8>>, TranslateError>(e),
        },
{
    let tokens = split_whitespace_tokens(data);
    let ghost ts = split_ws(data@);
    let mut k: usize = 0;
    while k < tokens.len()
        invariant
            k <= tokens@.len(),
            views_of(tokens@) == ts,
            forall|j: int| 0 <= j < k ==> is_float_token(ts[j]),
        decreases tokens@.len() - k,
    {
        assert(tokens@[k as int]@ == ts[k as int]);
        if !check_float_token(&tokens[k]) {
            proof {
                assert(0 <= k < ts.len() && !is_float_token(ts[k as int]));
                assert(!(forall|j: int| 0 <= j < ts.len() ==> is_float_token(ts[j])));
            }
            return Err(TranslateError::ParseError);
        }
        k += 1;
    }
    if tokens.len() != n {
        return Err(TranslateError::CountMismatch { expected: n, got: tokens.len() });
    }
    Ok(tokens)
}

} // verus!
