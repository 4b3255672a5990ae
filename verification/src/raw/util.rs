//! Numeric tokens: verified integer parsing, and the grammar of the decimal
//! float tokens this library validates and stores as text.

use crate::error::{IntErrorKind, ObjError};
use crate::text::{chars_to_string, first_where, lemma_first_where_unique, lines_model, strs_model};
use vstd::prelude::*;

verus! {

/// Whether `c` is a decimal digit.
pub open spec fn is_digit(c: char) -> bool {
    48 <= c as u32 && c as u32 <= 57
}

/// The value of the decimal digit `c`.
pub open spec fn digit_val(c: char) -> int {
    c as u32 - 48
}

/// Whether every character of `s` is a decimal digit.
pub open spec fn all_digits(s: Seq<char>) -> bool {
    forall|j: int| 0 <= j < s.len() ==> is_digit(s[j])
}

/// Runtime test for [`is_digit`].
pub fn is_digit_char(c: char) -> (b: bool)
    ensures
        b == is_digit(c),
{
    let u = c as u32;
    48 <= u && u <= 57
}

/// Reading decimal digits onto the accumulator `acc`, bounded by `max`:
/// the first non-digit stops with `InvalidDigit`, the first sum above
/// `max` with `PosOverflow`.
pub open spec fn parse_uint_rec(s: Seq<char>, acc: int, max: int) -> Result<int, IntErrorKind>
    decreases s.len(),
{
    if s.len() == 0 {
        Ok(acc)
    } else if !is_digit(s[0]) {
        Err(IntErrorKind::InvalidDigit)
    } else if acc * 10 + digit_val(s[0]) > max {
        Err(IntErrorKind::PosOverflow)
    } else {
        parse_uint_rec(s.skip(1), acc * 10 + digit_val(s[0]), max)
    }
}

/// Reading decimal digits onto the negative accumulator `acc`, bounded
/// below by `min`.
pub open spec fn parse_nint_rec(s: Seq<char>, acc: int, min: int) -> Result<int, IntErrorKind>
    decreases s.len(),
{
    if s.len() == 0 {
        Ok(acc)
    } else if !is_digit(s[0]) {
        Err(IntErrorKind::InvalidDigit)
    } else if acc * 10 - digit_val(s[0]) < min {
        Err(IntErrorKind::NegOverflow)
    } else {
        parse_nint_rec(s.skip(1), acc * 10 - digit_val(s[0]), min)
    }
}

/// What parsing `s` as a `usize` yields: an optional `+` sign and digits,
/// valued at most `usize::MAX`.
pub open spec fn parse_usize_spec(s: Seq<char>) -> Result<int, IntErrorKind> {
    if s.len() == 0 {
        Err(IntErrorKind::Empty)
    } else {
        let body = if s[0] == '+' {
            s.skip(1)
        } else {
            s
        };
        if body.len() == 0 {
            Err(IntErrorKind::InvalidDigit)
        } else {
            parse_uint_rec(body, 0, usize::MAX as int)
        }
    }
}

/// What parsing `s` as a `u32` yields.
pub open spec fn parse_u32_spec(s: Seq<char>) -> Result<int, IntErrorKind> {
    if s.len() == 0 {
        Err(IntErrorKind::Empty)
    } else {
        let body = if s[0] == '+' {
            s.skip(1)
        } else {
            s
        };
        if body.len() == 0 {
            Err(IntErrorKind::InvalidDigit)
        } else {
            parse_uint_rec(body, 0, u32::MAX as int)
        }
    }
}

/// What parsing `s` as an `isize` yields: an optional sign and digits,
/// within the type's bounds.
pub open spec fn parse_isize_spec(s: Seq<char>) -> Result<int, IntErrorKind> {
    if s.len() == 0 {
        Err(IntErrorKind::Empty)
    } else {
        let negative = s[0] == '-';
        let body = if s[0] == '+' || s[0] == '-' {
            s.skip(1)
        } else {
            s
        };
        if body.len() == 0 {
            Err(IntErrorKind::InvalidDigit)
        } else if negative {
            parse_nint_rec(body, 0, isize::MIN as int)
        } else {
            parse_uint_rec(body, 0, isize::MAX as int)
        }
    }
}

/// Whether `c` is `l` or its upper-case form `u`.
pub open spec fn ci(c: char, l: char, u: char) -> bool {
    c == l || c == u
}

/// The word `inf`, in any case.
pub open spec fn is_inf_word(s: Seq<char>) -> bool {
    s.len() == 3 && ci(s[0], 'i', 'I') && ci(s[1], 'n', 'N') && ci(s[2], 'f', 'F')
}

/// The word `infinity`, in any case.
pub open spec fn is_infinity_word(s: Seq<char>) -> bool {
    s.len() == 8 && ci(s[0], 'i', 'I') && ci(s[1], 'n', 'N') && ci(s[2], 'f', 'F') && ci(
        s[3],
        'i',
        'I',
    ) && ci(s[4], 'n', 'N') && ci(s[5], 'i', 'I') && ci(s[6], 't', 'T') && ci(s[7], 'y', 'Y')
}

/// The word `nan`, in any case.
pub open spec fn is_nan_word(s: Seq<char>) -> bool {
    s.len() == 3 && ci(s[0], 'n', 'N') && ci(s[1], 'a', 'A') && ci(s[2], 'n', 'N')
}

/// Digits with at most one decimal point among them, and at least one digit.
pub open spec fn is_mantissa(s: Seq<char>) -> bool {
    let d = first_where(s, |c: char| c == '.');
    if d == s.len() {
        s.len() > 0 && all_digits(s)
    } else {
        s.len() >= 2 && all_digits(s.take(d)) && all_digits(s.skip(d + 1))
    }
}

/// An exponent after its marker: an optional sign, then digits.
pub open spec fn is_exp_part(s: Seq<char>) -> bool {
    let body = if s.len() > 0 && (s[0] == '+' || s[0] == '-') {
        s.skip(1)
    } else {
        s
    };
    body.len() > 0 && all_digits(body)
}

/// A decimal number: a mantissa, optionally followed by `e` or `E` and an
/// exponent.
pub open spec fn is_number(s: Seq<char>) -> bool {
    let e = first_where(s, |c: char| c == 'e' || c == 'E');
    if e == s.len() {
        is_mantissa(s)
    } else {
        is_mantissa(s.take(e)) && is_exp_part(s.skip(e + 1))
    }
}

/// A token `f32`'s `FromStr` accepts: an optional sign, then `inf`,
/// `infinity` or `nan` in any case, or a decimal number.
pub open spec fn is_float_token(s: Seq<char>) -> bool {
    let body = if s.len() > 0 && (s[0] == '+' || s[0] == '-') {
        s.skip(1)
    } else {
        s
    };
    is_inf_word(body) || is_infinity_word(body) || is_nan_word(body) || is_number(body)
}

/// Whether every character of `v` in `[from, to)` is a decimal digit.
fn all_digits_range(v: &Vec<char>, from: usize, to: usize) -> (b: bool)
    requires
        from <= to <= v@.len(),
    ensures
        b == all_digits(v@.subrange(from as int, to as int)),
{
    let ghost sub = v@.subrange(from as int, to as int);
    let mut i: usize = from;
    while i < to
        invariant
            from <= i <= to <= v@.len(),
            sub == v@.subrange(from as int, to as int),
            forall|j: int| 0 <= j < i - from ==> is_digit(sub[j]),
        decreases to - i,
    {
        if !is_digit_char(v[i]) {
            proof {
                assert(sub[i - from] == v@[i as int]);
            }
            return false;
        }
        i += 1;
    }
    true
}

/// The first index at or after `from` holding `e` or `E`, or `v.len()`.
fn find_exp_marker(v: &Vec<char>, from: usize) -> (r: usize)
    requires
        from <= v@.len(),
    ensures
        from <= r <= v@.len(),
        forall|j: int| from <= j < r ==> !(v@[j] == 'e' || v@[j] == 'E'),
        r < v@.len() ==> (v@[r as int] == 'e' || v@[r as int] == 'E'),
{
    let mut i: usize = from;
    while i < v.len()
        invariant
            from <= i <= v@.len(),
            forall|j: int| from <= j < i ==> !(v@[j] == 'e' || v@[j] == 'E'),
        decreases v@.len() - i,
    {
        if v[i] == 'e' || v[i] == 'E' {
            return i;
        }
        i += 1;
    }
    i
}

/// Whether the characters of `v` in `[from, v.len())` form a mantissa.
fn check_mantissa(v: &Vec<char>, from: usize) -> (b: bool)
    requires
        from <= v@.len(),
    ensures
        b == is_mantissa(v@.skip(from as int)),
{
    check_mantissa_to(v, from, v.len())
}

/// Whether the characters of `v` in `[from, to)` form a mantissa.
fn check_mantissa_to(v: &Vec<char>, from: usize, to: usize) -> (b: bool)
    requires
        from <= to <= v@.len(),
    ensures
        b == is_mantissa(v@.subrange(from as int, to as int)),
{
    let ghost mant = v@.subrange(from as int, to as int);
    let dot = crate::text::find_char(v, from, '.');
    if dot >= to {
        proof {
            assert forall|j: int| 0 <= j < mant.len() implies mant[j] != '.' by {
                assert(mant[j] == v@[from + j]);
            }
            lemma_first_where_unique(mant, |c: char| c == '.', mant.len() as int);
        }
        to > from && all_digits_range(v, from, to)
    } else {
        proof {
            assert forall|j: int| 0 <= j < dot - from implies mant[j] != '.' by {
                assert(mant[j] == v@[from + j]);
            }
            assert(mant[dot - from] == v@[dot as int]);
            lemma_first_where_unique(mant, |c: char| c == '.', dot - from);
            assert(mant.take(dot - from) =~= v@.subrange(from as int, dot as int));
            assert(mant.skip(dot - from + 1) =~= v@.subrange(dot + 1, to as int));
        }
        to - from >= 2 && all_digits_range(v, from, dot) && all_digits_range(v, dot + 1, to)
    }
}

/// Whether the characters of `v` in `[from, v.len())` form an exponent.
fn check_exp_part(v: &Vec<char>, from: usize) -> (b: bool)
    requires
        from <= v@.len(),
    ensures
        b == is_exp_part(v@.skip(from as int)),
{
    let ghost part = v@.skip(from as int);
    let n = v.len();
    let start: usize = if from < n && (v[from] == '+' || v[from] == '-') {
        from + 1
    } else {
        from
    };
    proof {
        if part.len() > 0 {
            assert(part[0] == v@[from as int]);
        }
        if from < n && (v@[from as int] == '+' || v@[from as int] == '-') {
            assert(part.skip(1) =~= v@.subrange(from + 1, n as int));
        } else {
            assert(part =~= v@.subrange(from as int, n as int));
        }
    }
    n > start && all_digits_range(v, start, n)
}

/// Whether `v[i]` is `l` or `u`.
fn ci_at(v: &Vec<char>, i: usize, l: char, u: char) -> (b: bool)
    requires
        i < v@.len(),
    ensures
        b == ci(v@[i as int], l, u),
{
    v[i] == l || v[i] == u
}

/// Whether `v` is a token `f32`'s `FromStr` accepts.
pub fn check_float_token(v: &Vec<char>) -> (b: bool)
    ensures
        b == is_float_token(v@),
{
    let n = v.len();
    let start: usize = if n > 0 && (v[0] == '+' || v[0] == '-') {
        1
    } else {
        0
    };
    let ghost body = if v@.len() > 0 && (v@[0] == '+' || v@[0] == '-') {
        v@.skip(1)
    } else {
        v@
    };
    proof {
        assert(body =~= v@.subrange(start as int, n as int));
        assert forall|j: int| 0 <= j < body.len() implies body[j] == v@[start + j] by {}
    }
    let m = n - start;
    if m == 3 && ci_at(v, start, 'i', 'I') && ci_at(v, start + 1, 'n', 'N') && ci_at(
        v,
        start + 2,
        'f',
        'F',
    ) {
        return true;
    }
    if m == 8 && ci_at(v, start, 'i', 'I') && ci_at(v, start + 1, 'n', 'N') && ci_at(
        v,
        start + 2,
        'f',
        'F',
    ) && ci_at(v, start + 3, 'i', 'I') && ci_at(v, start + 4, 'n', 'N') && ci_at(
        v,
        start + 5,
        'i',
        'I',
    ) && ci_at(v, start + 6, 't', 'T') && ci_at(v, start + 7, 'y', 'Y') {
        return true;
    }
    if m == 3 && ci_at(v, start, 'n', 'N') && ci_at(v, start + 1, 'a', 'A') && ci_at(
        v,
        start + 2,
        'n',
        'N',
    ) {
        return true;
    }
    proof {
        assert(!is_inf_word(body) && !is_infinity_word(body) && !is_nan_word(body));
    }
    let e = find_exp_marker(v, start);
    if e == n {
        proof {
            assert forall|j: int| 0 <= j < body.len() implies !(body[j] == 'e' || body[j] == 'E')
                by {
                assert(body[j] == v@[start + j]);
            }
            lemma_first_where_unique(body, |c: char| c == 'e' || c == 'E', body.len() as int);
        }
        check_mantissa(v, start)
    } else {
        proof {
            assert forall|j: int| 0 <= j < e - start implies !(body[j] == 'e' || body[j] == 'E')
                by {
                assert(body[j] == v@[start + j]);
            }
            assert(body[e - start] == v@[e as int]);
            lemma_first_where_unique(body, |c: char| c == 'e' || c == 'E', e - start);
            assert(body.take(e - start) =~= v@.subrange(start as int, e as int));
            assert(body.skip(e - start + 1) =~= v@.skip(e + 1));
        }
        let mant_ok = check_mantissa_to(v, start, e);
        let exp_ok = check_exp_part(v, e + 1);
        mant_ok && exp_ok
    }
}

/// Whether every argument from `from` on is a float token.
pub open spec fn all_float_tokens(args: Seq<Seq<char>>, from: int) -> bool {
    forall|j: int| from <= j < args.len() ==> is_float_token(args[j])
}

/// Validates the arguments from `from` on as float tokens and hands them
/// back as strings, or fails with `ParseFloat` if one is malformed.
pub fn parse_args(args: &Vec<Vec<char>>, from: usize) -> (r: Result<Vec<String>, ObjError>)
    requires
        from <= args@.len(),
    ensures
        match r {
            Ok(v) => all_float_tokens(lines_model(args@), from as int) && strs_model(v@)
                == lines_model(args@).skip(from as int),
            Err(e) => !all_float_tokens(lines_model(args@), from as int) && e
                == ObjError::ParseFloat,
        },
{
    let mut out: Vec<String> = Vec::new();
    let mut j: usize = from;
    proof {
        assert(strs_model(out@) =~= lines_model(args@).subrange(from as int, from as int));
    }
    while j < args.len()
        invariant
            from <= j <= args@.len(),
            forall|k: int| from <= k < j ==> is_float_token(lines_model(args@)[k]),
            strs_model(out@) == lines_model(args@).subrange(from as int, j as int),
        decreases args@.len() - j,
    {
        if !check_float_token(&args[j]) {
            proof {
                assert(lines_model(args@)[j as int] == args@[j as int]@);
            }
            return Err(ObjError::ParseFloat);
        }
        let s = chars_to_string(&args[j]);
        let ghost out0 = out@;
        out.push(s);
        proof {
            let la = lines_model(args@);
            assert(la[j as int] == args@[j as int]@);
            assert(strs_model(out0).len() == out0.len());
            assert(out0.len() == j - from);
            assert forall|k: int|
                0 <= k < out@.len() implies strs_model(out@)[k] == la.subrange(
                from as int,
                j + 1 as int,
            )[k] by {
                if k < out0.len() {
                    assert(out@[k] == out0[k]);
                    assert(strs_model(out0)[k] == out0[k]@);
                    assert(la.subrange(from as int, j as int)[k] == la[from + k]);
                } else {
                    assert(out@[k] == s);
                }
            }
            assert(strs_model(out@) =~= la.subrange(from as int, j + 1 as int));
        }
        j += 1;
    }
    proof {
        assert(lines_model(args@).subrange(from as int, args@.len() as int) =~= lines_model(
            args@,
        ).skip(from as int));
    }
    Ok(out)
}

/// Parses a decimal `usize` token, as `str::parse` would.
pub fn parse_usize(s: &Vec<char>) -> (r: Result<usize, IntErrorKind>)
    ensures
        match r {
            Ok(v) => parse_usize_spec(s@) == Ok::<int, IntErrorKind>(v as int),
            Err(k) => parse_usize_spec(s@) == Err::<int, IntErrorKind>(k),
        },
{
    if s.len() == 0 {
        return Err(IntErrorKind::Empty);
    }
    let start: usize = if s[0] == '+' {
        1
    } else {
        0
    };
    let ghost body = if s@[0] == '+' {
        s@.skip(1)
    } else {
        s@
    };
    if s.len() == start {
        return Err(IntErrorKind::InvalidDigit);
    }
    let mut acc: usize = 0;
    let mut i: usize = start;
    proof {
        assert(body =~= s@.skip(start as int));
    }
    loop
        invariant
            start <= i <= s@.len(),
            s@.len() > 0,
            body.len() > 0,
            body == if s@[0] == '+' {
                s@.skip(1)
            } else {
                s@
            },
            parse_uint_rec(body, 0, usize::MAX as int) == parse_uint_rec(
                s@.skip(i as int),
                acc as int,
                usize::MAX as int,
            ),
        decreases s@.len() - i,
    {
        if i == s.len() {
            proof {
                assert(s@.skip(i as int) =~= Seq::<char>::empty());
            }
            return Ok(acc);
        }
        let c = s[i];
        proof {
            assert(s@.skip(i as int)[0] == s@[i as int]);
        }
        if !is_digit_char(c) {
            return Err(IntErrorKind::InvalidDigit);
        }
        let d = (c as u32 - 48) as usize;
        let step = match acc.checked_mul(10) {
            Some(x) => x.checked_add(d),
            None => None,
        };
        match step {
            None => {
                return Err(IntErrorKind::PosOverflow);
            },
            Some(v) => {
                proof {
                    assert(s@.skip(i as int).skip(1) =~= s@.skip(i + 1));
                }
                acc = v;
                i += 1;
            },
        }
    }
}

/// Parses a decimal `u32` token, as `str::parse` would.
pub fn parse_u32(s: &Vec<char>) -> (r: Result<u32, IntErrorKind>)
    ensures
        match r {
            Ok(v) => parse_u32_spec(s@) == Ok::<int, IntErrorKind>(v as int),
            Err(k) => parse_u32_spec(s@) == Err::<int, IntErrorKind>(k),
        },
{
    if s.len() == 0 {
        return Err(IntErrorKind::Empty);
    }
    let start: usize = if s[0] == '+' {
        1
    } else {
        0
    };
    let ghost body = if s@[0] == '+' {
        s@.skip(1)
    } else {
        s@
    };
    if s.len() == start {
        return Err(IntErrorKind::InvalidDigit);
    }
    let mut acc: u32 = 0;
    let mut i: usize = start;
    proof {
        assert(body =~= s@.skip(start as int));
    }
    loop
        invariant
            start <= i <= s@.len(),
            s@.len() > 0,
            body.len() > 0,
            body == if s@[0] == '+' {
                s@.skip(1)
            } else {
                s@
            },
            parse_uint_rec(body, 0, u32::MAX as int) == parse_uint_rec(
                s@.skip(i as int),
                acc as int,
                u32::MAX as int,
            ),
        decreases s@.len() - i,
    {
        if i == s.len() {
            proof {
                assert(s@.skip(i as int) =~= Seq::<char>::empty());
            }
            return Ok(acc);
        }
        let c = s[i];
        proof {
            assert(s@.skip(i as int)[0] == s@[i as int]);
        }
        if !is_digit_char(c) {
            return Err(IntErrorKind::InvalidDigit);
        }
        let d = c as u32 - 48;
        let step = match acc.checked_mul(10) {
            Some(x) => x.checked_add(d),
            None => None,
        };
        match step {
            None => {
                return Err(IntErrorKind::PosOverflow);
            },
            Some(v) => {
                proof {
                    assert(s@.skip(i as int).skip(1) =~= s@.skip(i + 1));
                }
                acc = v;
                i += 1;
            },
        }
    }
}

/// Parses a decimal `isize` token, as `str::parse` would.
pub fn parse_isize(s: &Vec<char>) -> (r: Result<isize, IntErrorKind>)
    ensures
        match r {
            Ok(v) => parse_isize_spec(s@) == Ok::<int, IntErrorKind>(v as int),
            Err(k) => parse_isize_spec(s@) == Err::<int, IntErrorKind>(k),
        },
{
    if s.len() == 0 {
        return Err(IntErrorKind::Empty);
    }
    let negative = s[0] == '-';
    let start: usize = if s[0] == '+' || s[0] == '-' {
        1
    } else {
        0
    };
    let ghost body = if s@[0] == '+' || s@[0] == '-' {
        s@.skip(1)
    } else {
        s@
    };
    if s.len() == start {
        return Err(IntErrorKind::InvalidDigit);
    }
    if negative {
        let mut acc: isize = 0;
        let mut i: usize = start;
        proof {
            assert(body =~= s@.skip(start as int));
        }
        loop
            invariant
                start <= i <= s@.len(),
                s@.len() > 0,
                s@[0] == '-',
                body.len() > 0,
                body == s@.skip(1),
                acc <= 0,
                parse_nint_rec(body, 0, isize::MIN as int) == parse_nint_rec(
                    s@.skip(i as int),
                    acc as int,
                    isize::MIN as int,
                ),
            decreases s@.len() - i,
        {
            if i == s.len() {
                proof {
                    assert(s@.skip(i as int) =~= Seq::<char>::empty());
                }
                return Ok(acc);
            }
            let c = s[i];
            proof {
                assert(s@.skip(i as int)[0] == s@[i as int]);
            }
            if !is_digit_char(c) {
                return Err(IntErrorKind::InvalidDigit);
            }
            let d = (c as u32 - 48) as isize;
            let step = match acc.checked_mul(10) {
                Some(x) => x.checked_sub(d),
                None => None,
            };
            match step {
                None => {
                    return Err(IntErrorKind::NegOverflow);
                },
                Some(v) => {
                    proof {
                        assert(s@.skip(i as int).skip(1) =~= s@.skip(i + 1));
                    }
                    acc = v;
                    i += 1;
                },
            }
        }
    } else {
        let mut acc: isize = 0;
        let mut i: usize = start;
        proof {
            assert(body =~= s@.skip(start as int));
        }
        loop
            invariant
                start <= i <= s@.len(),
                s@.len() > 0,
                !(s@[0] == '-'),
                body.len() > 0,
                body == if s@[0] == '+' || s@[0] == '-' {
                    s@.skip(1)
                } else {
                    s@
                },
                acc >= 0,
                parse_uint_rec(body, 0, isize::MAX as int) == parse_uint_rec(
                    s@.skip(i as int),
                    acc as int,
                    isize::MAX as int,
                ),
            decreases s@.len() - i,
        {
            if i == s.len() {
                proof {
                    assert(s@.skip(i as int) =~= Seq::<char>::empty());
                }
                return Ok(acc);
            }
            let c = s[i];
            proof {
                assert(s@.skip(i as int)[0] == s@[i as int]);
            }
            if !is_digit_char(c) {
                return Err(IntErrorKind::InvalidDigit);
            }
            let d = (c as u32 - 48) as isize;
            let step = match acc.checked_mul(10) {
                Some(x) => x.checked_add(d),
                None => None,
            };
            match step {
                None => {
                    return Err(IntErrorKind::PosOverflow);
                },
                Some(v) => {
                    proof {
                        assert(s@.skip(i as int).skip(1) =~= s@.skip(i + 1));
                    }
                    acc = v;
                    i += 1;
                },
            }
        }
    }
}

} // verus!
