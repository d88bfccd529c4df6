//! The structured serialization form: an [`Amount`] as a record with a
//! `value` field (the decimal rendered as a string) and a `currency`
//! field (the three-letter code), and a [`CurrencyError`] as a bare
//! string tag or a single-key record. Encoding is verified digit by
//! digit; decoding states exactly when it succeeds, so that decoding an
//! encoded value provably returns the original.

use crate::amount::Amount;
use crate::currency::Currency;
use crate::currency::currency_code;
use crate::currency::currency_registered;
use crate::decimal::Decimal;
use crate::decimal::MANTISSA_LIMIT;
use crate::decimal::MAX_SCALE;
use crate::decimal::lemma_pow10_28;
use crate::decimal::lemma_pow10_pos;
use crate::decimal::pow10;
use crate::decimal::pow10_i128;
use crate::error::CurrencyError;
use vstd::prelude::*;

verus! {

/// The character for one decimal digit.
pub open spec fn digit_char(d: int) -> char {
    if d == 0 {
        '0'
    } else if d == 1 {
        '1'
    } else if d == 2 {
        '2'
    } else if d == 3 {
        '3'
    } else if d == 4 {
        '4'
    } else if d == 5 {
        '5'
    } else if d == 6 {
        '6'
    } else if d == 7 {
        '7'
    } else if d == 8 {
        '8'
    } else {
        '9'
    }
}

/// The digit denoted by a character, `-1` for a non-digit.
pub open spec fn char_digit(c: char) -> int {
    if c == '0' {
        0
    } else if c == '1' {
        1
    } else if c == '2' {
        2
    } else if c == '3' {
        3
    } else if c == '4' {
        4
    } else if c == '5' {
        5
    } else if c == '6' {
        6
    } else if c == '7' {
        7
    } else if c == '8' {
        8
    } else if c == '9' {
        9
    } else {
        -1
    }
}

/// Whether the character is a decimal digit.
pub open spec fn is_digit_char(c: char) -> bool {
    char_digit(c) >= 0
}

/// The decimal digits of `n`, most significant first, with no leading
/// zero except for `n == 0` itself.
pub open spec fn spec_digits(n: nat) -> Seq<char>
    decreases n,
{
    if n < 10 {
        seq![digit_char(n as int)]
    } else {
        spec_digits(n / 10) + seq![digit_char((n % 10) as int)]
    }
}

/// The last `width` decimal digits of `n`, most significant first,
/// zero-padded on the left.
pub open spec fn spec_digits_padded(n: nat, width: nat) -> Seq<char>
    decreases width,
{
    if width == 0 {
        Seq::empty()
    } else {
        spec_digits_padded(n / 10, (width - 1) as nat) + seq![digit_char((n % 10) as int)]
    }
}

/// The number denoted by a run of digit characters, read left to right.
pub open spec fn digits_value(s: Seq<char>) -> int
    decreases s.len(),
{
    if s.len() == 0 {
        0
    } else {
        digits_value(s.drop_last()) * 10 + char_digit(s.last())
    }
}

/// Every character of the run is a decimal digit.
pub open spec fn all_digits(s: Seq<char>) -> bool {
    forall|i: int| 0 <= i < s.len() ==> is_digit_char(#[trigger] s[i])
}

/// The textual rendering of the decimal `m / 10^s`: an optional minus
/// sign, the integer digits, and for a positive scale a point followed
/// by exactly `s` fractional digits.
pub open spec fn render_dec(m: int, s: nat) -> Seq<char> {
    let a = vstd::math::abs(m) as int;
    let sign: Seq<char> = if m < 0 {
        seq!['-']
    } else {
        Seq::empty()
    };
    if s == 0 {
        sign + spec_digits(a as nat)
    } else {
        sign + spec_digits((a / pow10(s)) as nat) + seq!['.'] + spec_digits_padded(
            (a % pow10(s)) as nat,
            s,
        )
    }
}

/// The digits of `n` denote `n`, and are digits.
pub proof fn lemma_digits_props(n: nat)
    ensures
        all_digits(spec_digits(n)),
        digits_value(spec_digits(n)) == n,
        spec_digits(n).len() >= 1,
    decreases n,
{
    if n < 10 {
        let w = spec_digits(n);
        assert(w =~= seq![digit_char(n as int)]);
        assert(w.drop_last() =~= Seq::<char>::empty());
        assert(digits_value(w.drop_last()) == 0);
        assert(w.last() == digit_char(n as int));
        assert(char_digit(digit_char(n as int)) == n);
        assert(digits_value(w) == 0 * 10 + char_digit(w.last()));
    } else {
        lemma_digits_props(n / 10);
        let w = spec_digits(n);
        let h = spec_digits(n / 10);
        assert(w == h + seq![digit_char((n % 10) as int)]);
        assert(w.drop_last() =~= h);
        assert(w.last() == digit_char((n % 10) as int));
        assert(char_digit(w.last()) == n % 10);
        assert(digits_value(w) == (n / 10) * 10 + n % 10);
        vstd::arithmetic::div_mod::lemma_fundamental_div_mod(n as int, 10);
        assert(forall|i: int|
            0 <= i < w.len() ==> is_digit_char(#[trigger] w[i])) by {
            assert(forall|i: int| 0 <= i < h.len() ==> is_digit_char(#[trigger] h[i]));
        }
    }
}

/// The padded digits of `n` denote `n` when `n` fits the width, have
/// exactly that width, and are digits.
pub proof fn lemma_digits_padded_props(n: nat, width: nat)
    requires
        n < pow10(width),
    ensures
        all_digits(spec_digits_padded(n, width)),
        digits_value(spec_digits_padded(n, width)) == n,
        spec_digits_padded(n, width).len() == width,
    decreases width,
{
    if width == 0 {
    } else {
        assert(pow10(width) == 10 * pow10((width - 1) as nat));
        lemma_pow10_pos((width - 1) as nat);
        vstd::arithmetic::div_mod::lemma_fundamental_div_mod(n as int, 10);
        assert(n / 10 < pow10((width - 1) as nat)) by {
            vstd::arithmetic::div_mod::lemma_fundamental_div_mod(n as int, 10);
            if n / 10 >= pow10((width - 1) as nat) {
                vstd::arithmetic::mul::lemma_mul_inequality(
                    pow10((width - 1) as nat),
                    (n / 10) as int,
                    10,
                );
            }
        }
        lemma_digits_padded_props(n / 10, (width - 1) as nat);
        let w = spec_digits_padded(n, width);
        let h = spec_digits_padded(n / 10, (width - 1) as nat);
        assert(w.drop_last() =~= h);
        assert(w.last() == digit_char((n % 10) as int));
        assert(char_digit(w.last()) == n % 10);
        assert(digits_value(w) == (n / 10) * 10 + n % 10);
        assert(forall|i: int|
            0 <= i < w.len() ==> is_digit_char(#[trigger] w[i])) by {
            assert(forall|i: int| 0 <= i < h.len() ==> is_digit_char(#[trigger] h[i]));
        }
    }
}

/// A single decimal digit as text.
fn digit_str(d: i128) -> (r: &'static str)
    requires
        0 <= d <= 9,
    ensures
        r@ =~= seq![digit_char(d as int)],
{
    proof {
        reveal_strlit("0");
        reveal_strlit("1");
        reveal_strlit("2");
        reveal_strlit("3");
        reveal_strlit("4");
        reveal_strlit("5");
        reveal_strlit("6");
        reveal_strlit("7");
        reveal_strlit("8");
        reveal_strlit("9");
    }
    if d == 0 {
        "0"
    } else if d == 1 {
        "1"
    } else if d == 2 {
        "2"
    } else if d == 3 {
        "3"
    } else if d == 4 {
        "4"
    } else if d == 5 {
        "5"
    } else if d == 6 {
        "6"
    } else if d == 7 {
        "7"
    } else if d == 8 {
        "8"
    } else {
        "9"
    }
}

/// Appends the decimal digits of `n`.
fn push_digits(out: &mut String, n: i128)
    requires
        n >= 0,
    ensures
        final(out)@ == old(out)@ + spec_digits(n as nat),
    decreases n,
{
    if n < 10 {
        out.append(digit_str(n));
        assert(final(out)@ =~= old(out)@ + spec_digits(n as nat));
    } else {
        push_digits(out, n / 10);
        out.append(digit_str(n % 10));
        assert(final(out)@ =~= old(out)@ + spec_digits(n as nat));
    }
}

/// Appends exactly `width` decimal digits of `n`, zero-padded.
fn push_digits_padded(out: &mut String, n: i128, width: u32)
    requires
        n >= 0,
    ensures
        final(out)@ == old(out)@ + spec_digits_padded(n as nat, width as nat),
    decreases width,
{
    if width == 0 {
        assert(final(out)@ =~= old(out)@ + spec_digits_padded(n as nat, 0));
    } else {
        push_digits_padded(out, n / 10, width - 1);
        out.append(digit_str(n % 10));
        assert(final(out)@ =~= old(out)@ + spec_digits_padded(n as nat, width as nat));
    }
}

/// Renders a decimal as text: sign, integer digits, and for a positive
/// scale a point and exactly `scale` fractional digits.
pub fn render_decimal(d: &Decimal) -> (r: String)
    requires
        d.well_formed(),
    ensures
        r@ == render_dec(d.mantissa as int, d.scale as nat),
{
    let mut out = String::new();
    if d.mantissa < 0 {
        out.append("-");
        proof {
            reveal_strlit("-");
        }
    }
    let a = if d.mantissa < 0 {
        -d.mantissa
    } else {
        d.mantissa
    };
    if d.scale == 0 {
        push_digits(&mut out, a);
        proof {
            assert(out@ =~= render_dec(d.mantissa as int, d.scale as nat));
        }
    } else {
        let p = pow10_i128(d.scale);
        proof {
            lemma_pow10_pos(d.scale as nat);
        }
        push_digits(&mut out, a / p);
        out.append(".");
        proof {
            reveal_strlit(".");
        }
        push_digits_padded(&mut out, a % p, d.scale);
        proof {
            assert(out@ =~= render_dec(d.mantissa as int, d.scale as nat));
        }
    }
    out
}

/// A digit run denotes a non-negative number.
proof fn lemma_digits_value_nonneg(s: Seq<char>)
    requires
        all_digits(s),
    ensures
        digits_value(s) >= 0,
    decreases s.len(),
{
    if s.len() > 0 {
        assert(is_digit_char(s[s.len() - 1]));
        assert(forall|i: int| 0 <= i < s.drop_last().len() ==> is_digit_char(
            #[trigger] s.drop_last()[i],
        )) by {
            assert(forall|i: int| 0 <= i < s.len() ==> is_digit_char(#[trigger] s[i]));
        }
        lemma_digits_value_nonneg(s.drop_last());
    }
}

/// A prefix of a digit run denotes no more than the whole run.
proof fn lemma_digits_prefix_le(s: Seq<char>, j: int)
    requires
        all_digits(s),
        0 <= j <= s.len(),
    ensures
        digits_value(s.take(j)) <= digits_value(s),
    decreases s.len() - j,
{
    if j == s.len() {
        assert(s.take(j) =~= s);
    } else {
        let t = s.take(j + 1);
        assert(t.drop_last() =~= s.take(j));
        assert(forall|i: int| 0 <= i < t.len() ==> is_digit_char(#[trigger] t[i])) by {
            assert(forall|i: int| 0 <= i < s.len() ==> is_digit_char(#[trigger] s[i]));
        }
        assert(forall|i: int| 0 <= i < s.take(j).len() ==> is_digit_char(
            #[trigger] s.take(j)[i],
        )) by {
            assert(forall|i: int| 0 <= i < s.len() ==> is_digit_char(#[trigger] s[i]));
        }
        lemma_digits_value_nonneg(s.take(j));
        assert(is_digit_char(t.last()));
        assert(digits_value(t) == digits_value(s.take(j)) * 10 + char_digit(t.last()));
        assert(digits_value(s.take(j)) <= digits_value(t));
        lemma_digits_prefix_le(s, j + 1);
    }
}

/// The digit denoted by a character, executable form.
fn char_to_digit(c: char) -> (d: i128)
    ensures
        d == char_digit(c),
{
    match c {
        '0' => 0,
        '1' => 1,
        '2' => 2,
        '3' => 3,
        '4' => 4,
        '5' => 5,
        '6' => 6,
        '7' => 7,
        '8' => 8,
        '9' => 9,
        _ => -1,
    }
}

/// Reads the longest run of digit characters of `s` that starts at
/// `from` and ends before `to`, together with the number it denotes.
/// Gives up only when the run denotes at least `10^32`, which no
/// rendering of a well-formed decimal reaches.
fn parse_run(s: &str, from: usize, to: usize) -> (r: Option<(i128, usize)>)
    requires
        from <= to <= s@.len(),
    ensures
        r matches Some(p) ==> {
            &&& from <= p.1 <= to
            &&& all_digits(s@.subrange(from as int, p.1 as int))
            &&& p.0 == digits_value(s@.subrange(from as int, p.1 as int))
            &&& 0 <= p.0 < 100000000000000000000000000000000
            &&& p.1 == to || !is_digit_char(s@[p.1 as int])
        },
        forall|e: int|
            #![trigger s@.subrange(from as int, e)]
            from <= e <= to && all_digits(s@.subrange(from as int, e)) && (e == to
                || !is_digit_char(s@[e])) && digits_value(s@.subrange(from as int, e))
                < 100000000000000000000000000000000 ==> r == Some(
                (digits_value(s@.subrange(from as int, e)) as i128, e as usize),
            ),
{
    let mut acc: i128 = 0;
    let mut j: usize = from;
    proof {
        assert(s@.subrange(from as int, from as int) =~= Seq::<char>::empty());
    }
    while j < to
        invariant
            from <= j <= to <= s@.len(),
            all_digits(s@.subrange(from as int, j as int)),
            acc == digits_value(s@.subrange(from as int, j as int)),
            0 <= acc < 100000000000000000000000000000000,
        decreases to - j,
    {
        let c = s.get_char(j);
        let d = char_to_digit(c);
        if d < 0 {
            proof {
                assert forall|e: int|
                    #![trigger s@.subrange(from as int, e)]
                    from <= e <= to && all_digits(s@.subrange(from as int, e)) && (e == to
                        || !is_digit_char(s@[e])) && digits_value(s@.subrange(from as int, e))
                        < 100000000000000000000000000000000 implies digits_value(
                    s@.subrange(from as int, e),
                ) == acc && e == j by {
                    lemma_digits_value_nonneg(s@.subrange(from as int, e));
                    if e < j {
                        assert(is_digit_char(s@.subrange(from as int, j as int)[e - from]));
                        assert(false);
                    }
                    if e > j {
                        assert(is_digit_char(s@.subrange(from as int, e)[j as int - from]));
                        assert(false);
                    }
                    assert(s@.subrange(from as int, e) == s@.subrange(from as int, j as int));
                }
            }
            return Some((acc, j));
        }
        if acc >= 10000000000000000000000000000000 {
            proof {
                lemma_run_overflow(s@, from as int, j as int, to as int, acc as int);
                assert forall|e: int|
                    #![trigger s@.subrange(from as int, e)]
                    from <= e <= to && all_digits(s@.subrange(from as int, e)) && (e == to
                        || !is_digit_char(s@[e])) && digits_value(s@.subrange(from as int, e))
                        < 100000000000000000000000000000000 implies None::<(i128, usize)> == Some(
                    (digits_value(s@.subrange(from as int, e)) as i128, e as usize),
                ) by {
                    assert(digits_value(s@.subrange(from as int, e))
                        >= 100000000000000000000000000000000);
                }
            }
            return None;
        }
        acc = acc * 10 + d;
        j = j + 1;
        proof {
            let t = s@.subrange(from as int, j as int);
            assert(t.drop_last() =~= s@.subrange(from as int, j - 1));
            assert(t.last() == s@[j - 1]);
            assert(forall|i: int| 0 <= i < t.len() ==> is_digit_char(#[trigger] t[i])) by {
                assert(forall|i: int|
                    0 <= i < j - 1 - from ==> t[i] == s@.subrange(from as int, j - 1)[i]);
            }
        }
    }
    proof {
        assert forall|e: int|
            #![trigger s@.subrange(from as int, e)]
            from <= e <= to && all_digits(s@.subrange(from as int, e)) && (e == to
                || !is_digit_char(s@[e])) && digits_value(s@.subrange(from as int, e))
                < 100000000000000000000000000000000 implies digits_value(
            s@.subrange(from as int, e),
        ) == acc && e == j by {
            lemma_digits_value_nonneg(s@.subrange(from as int, e));
            if e < j {
                assert(is_digit_char(s@.subrange(from as int, j as int)[e - from]));
                assert(false);
            }
            assert(s@.subrange(from as int, e) == s@.subrange(from as int, j as int));
        }
    }
    Some((acc, j))
}

/// On a run whose accumulated prefix already reaches `10^31` with
/// another digit ahead, every candidate maximal run denotes at least
/// `10^32`.
proof fn lemma_run_overflow(s: Seq<char>, from: int, j: int, to: int, acc: int)
    requires
        0 <= from <= j < to <= s.len(),
        all_digits(s.subrange(from, j)),
        acc == digits_value(s.subrange(from, j)),
        acc >= 10000000000000000000000000000000,
        is_digit_char(s[j]),
    ensures
        forall|e: int|
            #![trigger s.subrange(from, e)]
            from <= e <= to && all_digits(s.subrange(from, e)) && (e == to || !is_digit_char(
                s[e],
            )) ==> digits_value(s.subrange(from, e)) >= 100000000000000000000000000000000,
{
    assert forall|e: int|
        #![trigger s.subrange(from, e)]
        from <= e <= to && all_digits(s.subrange(from, e)) && (e == to || !is_digit_char(
            s[e],
        )) implies digits_value(s.subrange(from, e)) >= 100000000000000000000000000000000 by {
        let run = s.subrange(from, e);
        if e <= j {
            // the endpoint would sit inside the all-digit prefix
            if e < to {
                assert(is_digit_char(s.subrange(from, j)[e - from]));
            }
            assert(false);
        } else {
            let t = s.subrange(from, j + 1);
            assert(t =~= run.take(j + 1 - from));
            assert(t.drop_last() =~= s.subrange(from, j));
            assert(t.last() == s[j]);
            assert(char_digit(t.last()) >= 0);
            assert(digits_value(t) == acc * 10 + char_digit(t.last()));
            lemma_digits_prefix_le(run, j + 1 - from);
        }
    }
}


/// The record form of an amount: a `value` field holding the rendered
/// decimal, and a `currency` field holding the three-letter code.
pub open spec fn render_amount(a: Amount) -> Seq<char> {
    "{\"value\":\""@ + render_dec(a.value.mantissa as int, a.value.scale as nat)
        + "\",\"currency\":\""@ + currency_code(a.currency.numeric) + "\"}"@
}

/// The serialized form of an error: a bare string tag for `Unknown` and
/// `DivideByZero`, a single-key record holding the two codes for
/// `Mismatch`.
pub open spec fn render_error(e: CurrencyError) -> Seq<char> {
    match e {
        CurrencyError::Unknown => "\"Unknown\""@,
        CurrencyError::DivideByZero => "\"DivideByZero\""@,
        CurrencyError::Mismatch(c1, c2) => "{\"Mismatch\":[\""@ + currency_code(c1.numeric)
            + "\",\""@ + currency_code(c2.numeric) + "\"]}"@,
    }
}

/// The catalogue lists the currency, under a three-letter code.
pub open spec fn catalogued(c: Currency) -> bool {
    currency_registered(c.numeric) && currency_code(c.numeric).len() == 3
}

/// Every currency an error carries is catalogued.
pub open spec fn error_catalogued(e: CurrencyError) -> bool {
    e matches CurrencyError::Mismatch(c1, c2) ==> catalogued(c1) && catalogued(c2)
}

/// Length of the sign part of a rendering.
pub open spec fn sign_len(m: int) -> int {
    if m < 0 {
        1
    } else {
        0
    }
}

/// The integer part of `|m| / 10^sc`.
pub open spec fn int_part(m: int, sc: nat) -> nat {
    ((vstd::math::abs(m) as int) / pow10(sc)) as nat
}

/// The fractional digits of `|m| / 10^sc`, as an integer.
pub open spec fn frac_part(m: int, sc: nat) -> nat {
    ((vstd::math::abs(m) as int) % pow10(sc)) as nat
}

/// How a rendering is put together: its length, where its digit runs
/// sit, and what they denote.
proof fn lemma_render_shape(m: int, sc: nat)
    requires
        -MANTISSA_LIMIT < m < MANTISSA_LIMIT,
        sc <= MAX_SCALE,
    ensures
        (m < 0) == (render_dec(m, sc)[0] == '-'),
        render_dec(m, sc).len() == sign_len(m) + spec_digits(int_part(m, sc)).len() + (
        if sc == 0 {
            0int
        } else {
            1 + sc as int
        }),
        render_dec(m, sc).subrange(
            sign_len(m),
            sign_len(m) + spec_digits(int_part(m, sc)).len() as int,
        ) == spec_digits(int_part(m, sc)),
        all_digits(spec_digits(int_part(m, sc))),
        digits_value(spec_digits(int_part(m, sc))) == int_part(m, sc),
        spec_digits(int_part(m, sc)).len() >= 1,
        int_part(m, sc) < MANTISSA_LIMIT,
        sc == 0 ==> int_part(m, sc) == vstd::math::abs(m),
        sc > 0 ==> render_dec(m, sc)[sign_len(m) + spec_digits(int_part(m, sc)).len() as int]
            == '.',
        sc > 0 ==> render_dec(m, sc).subrange(
            sign_len(m) + spec_digits(int_part(m, sc)).len() + 1,
            render_dec(m, sc).len() as int,
        ) == spec_digits_padded(frac_part(m, sc), sc),
        sc > 0 ==> all_digits(spec_digits_padded(frac_part(m, sc), sc)),
        sc > 0 ==> digits_value(spec_digits_padded(frac_part(m, sc), sc)) == frac_part(m, sc),
        sc > 0 ==> spec_digits_padded(frac_part(m, sc), sc).len() == sc,
        sc > 0 ==> frac_part(m, sc) < pow10(sc),
        sc > 0 ==> pow10(sc) <= 10000000000000000000000000000,
        sc > 0 ==> int_part(m, sc) * pow10(sc) + frac_part(m, sc) == vstd::math::abs(m),
        sc > 0 ==> int_part(m, sc) * pow10(sc) >= 0,
{
    let a = vstd::math::abs(m) as int;
    let r = render_dec(m, sc);
    let sl = sign_len(m);
    lemma_pow10_pos(sc);
    if sc == 0 {
        assert(a / pow10(0) == a) by {
            assert(pow10(0) == 1);
            vstd::arithmetic::div_mod::lemma_basic_div_specific_divisor(1);
        }
        let d1 = spec_digits(int_part(m, sc));
        lemma_digits_props(int_part(m, sc));
        let sign: Seq<char> = if m < 0 {
            seq!['-']
        } else {
            Seq::empty()
        };
        assert(r == sign + d1);
        assert(r.len() == sl + d1.len());
        assert(r.subrange(sl, sl + d1.len() as int) =~= d1);
        if m < 0 {
            assert(r[0] == '-');
        } else {
            assert(r[0] == d1[0]);
            assert(is_digit_char(d1[0]));
        }
    } else {
        let p = pow10(sc);
        vstd::arithmetic::div_mod::lemma_fundamental_div_mod(a, p);
        vstd::arithmetic::div_mod::lemma_mod_division_less_than_divisor(a, p);
        vstd::arithmetic::div_mod::lemma_div_pos_is_pos(a, p);
        vstd::arithmetic::div_mod::lemma_div_nonincreasing(a, p);
        let ip = int_part(m, sc);
        let fp = frac_part(m, sc);
        assert(a == p * (a / p) + a % p);
        vstd::arithmetic::mul::lemma_mul_is_commutative(p, a / p);
        assert(ip * p + fp == a);
        vstd::arithmetic::mul::lemma_mul_nonnegative(ip as int, p);
        lemma_pow10_28();
        crate::decimal::lemma_pow10_increases(sc, 28);
        let d1 = spec_digits(ip);
        let d2 = spec_digits_padded(fp, sc);
        lemma_digits_props(ip);
        lemma_digits_padded_props(fp, sc);
        let sign: Seq<char> = if m < 0 {
            seq!['-']
        } else {
            Seq::empty()
        };
        assert(r == sign + d1 + seq!['.'] + d2);
        assert(d2.len() == sc);
        assert(r.len() == sl + d1.len() + 1 + sc);
        assert(r.subrange(sl, sl + d1.len() as int) =~= d1);
        assert(r[sl + d1.len() as int] == '.');
        assert(r.subrange(sl + d1.len() + 1, r.len() as int) =~= d2);
        if m < 0 {
            assert(r[0] == '-');
        } else {
            assert(r[0] == d1[0]);
            assert(is_digit_char(d1[0]));
        }
    }
}

/// Decodes the textual rendering of a decimal: succeeds exactly on the
/// rendering of a well-formed decimal, and returns that decimal.
#[verifier::rlimit(100)]
pub fn decode_decimal(s: &str) -> (r: Option<Decimal>)
    ensures
        r matches Some(d) ==> d.well_formed() && s@ == render_dec(
            d.mantissa as int,
            d.scale as nat,
        ),
        forall|d: Decimal|
            #![trigger render_dec(d.mantissa as int, d.scale as nat)]
            d.well_formed() && s@ == render_dec(d.mantissa as int, d.scale as nat) ==> r == Some(
                d,
            ),
{
    let n = s.unicode_len();
    if n == 0 {
        proof {
            assert forall|d: Decimal|
                #![trigger render_dec(d.mantissa as int, d.scale as nat)]
                d.well_formed() && s@ == render_dec(d.mantissa as int, d.scale as nat)
                implies None::<Decimal> == Some(d) by {
                lemma_render_shape(d.mantissa as int, d.scale as nat);
            }
        }
        return None;
    }
    let neg = s.get_char(0) == '-';
    let start: usize = if neg {
        1
    } else {
        0
    };
    if start >= n {
        proof {
            assert forall|d: Decimal|
                #![trigger render_dec(d.mantissa as int, d.scale as nat)]
                d.well_formed() && s@ == render_dec(d.mantissa as int, d.scale as nat)
                implies None::<Decimal> == Some(d) by {
                lemma_render_shape(d.mantissa as int, d.scale as nat);
            }
        }
        return None;
    }
    let run1 = parse_run(s, start, n);
    proof {
        assert forall|d: Decimal|
            #![trigger render_dec(d.mantissa as int, d.scale as nat)]
            d.well_formed() && s@ == render_dec(d.mantissa as int, d.scale as nat) implies run1
            == Some(
            (
                int_part(d.mantissa as int, d.scale as nat) as i128,
                (sign_len(d.mantissa as int) + spec_digits(
                    int_part(d.mantissa as int, d.scale as nat),
                ).len()) as usize,
            ),
        ) by {
            lemma_render_shape(d.mantissa as int, d.scale as nat);
            let md = d.mantissa as int;
            let sd = d.scale as nat;
            let e = sign_len(md) + spec_digits(int_part(md, sd)).len() as int;
            assert(s@.subrange(start as int, e) == spec_digits(int_part(md, sd)));
            assert(e == n as int || !is_digit_char(s@[e]));
            assert(digits_value(s@.subrange(start as int, e))
                < 100000000000000000000000000000000);
        }
    }
    match run1 {
        None => {
            return None;
        },
        Some((ip, end)) => {
            if end == start {
                proof {
                    assert forall|d: Decimal|
                        #![trigger render_dec(d.mantissa as int, d.scale as nat)]
                        d.well_formed() && s@ == render_dec(d.mantissa as int, d.scale as nat)
                        implies None::<Decimal> == Some(d) by {
                        lemma_render_shape(d.mantissa as int, d.scale as nat);
                    }
                }
                return None;
            }
            if end == n {
                // No fractional part: an integer rendering.
                if ip >= MANTISSA_LIMIT {
                    proof {
                        assert forall|d: Decimal|
                            #![trigger render_dec(d.mantissa as int, d.scale as nat)]
                            d.well_formed() && s@ == render_dec(
                                d.mantissa as int,
                                d.scale as nat,
                            ) implies None::<Decimal> == Some(d) by {
                            lemma_render_shape(d.mantissa as int, d.scale as nat);
                        }
                    }
                    return None;
                }
                let m = if neg {
                    -ip
                } else {
                    ip
                };
                let candidate = Decimal { mantissa: m, scale: 0 };
                let rendered = render_decimal(&candidate);
                let sown = s.to_owned();
                if rendered == sown {
                    proof {
                        assert forall|d: Decimal|
                            #![trigger render_dec(d.mantissa as int, d.scale as nat)]
                            d.well_formed() && s@ == render_dec(
                                d.mantissa as int,
                                d.scale as nat,
                            ) implies Some(candidate) == Some(d) by {
                            lemma_render_shape(d.mantissa as int, d.scale as nat);
                        }
                    }
                    return Some(candidate);
                } else {
                    proof {
                        assert forall|d: Decimal|
                            #![trigger render_dec(d.mantissa as int, d.scale as nat)]
                            d.well_formed() && s@ == render_dec(
                                d.mantissa as int,
                                d.scale as nat,
                            ) implies None::<Decimal> == Some(d) by {
                            lemma_render_shape(d.mantissa as int, d.scale as nat);
                            assert(candidate == d);
                        }
                    }
                    return None;
                }
            }
            // A fractional part follows.
            proof {
                assert forall|d: Decimal|
                    #![trigger render_dec(d.mantissa as int, d.scale as nat)]
                    d.well_formed() && s@ == render_dec(d.mantissa as int, d.scale as nat)
                    implies d.scale > 0 && int_part(d.mantissa as int, d.scale as nat) == ip
                    && sign_len(d.mantissa as int) + spec_digits(
                    int_part(d.mantissa as int, d.scale as nat),
                ).len() == end && (d.mantissa < 0) == neg by {
                    lemma_render_shape(d.mantissa as int, d.scale as nat);
                }
            }
            decode_decimal_frac(s, neg, ip, end, n)
        },
    }
}

/// The fractional-part half of [`decode_decimal`]: the integer digits
/// have been read and a point is expected at `end`.
#[verifier::rlimit(100)]
fn decode_decimal_frac(s: &str, neg: bool, ip: i128, end: usize, n: usize) -> (r: Option<
    Decimal,
>)
    requires
        n == s@.len(),
        0 < end < n,
        0 <= ip < 100000000000000000000000000000000,
        forall|d: Decimal|
            #![trigger render_dec(d.mantissa as int, d.scale as nat)]
            d.well_formed() && s@ == render_dec(d.mantissa as int, d.scale as nat) ==> d.scale
                > 0 && int_part(d.mantissa as int, d.scale as nat) == ip && sign_len(
                d.mantissa as int,
            ) + spec_digits(int_part(d.mantissa as int, d.scale as nat)).len() == end && (
            d.mantissa < 0) == neg,
    ensures
        r matches Some(d) ==> d.well_formed() && s@ == render_dec(
            d.mantissa as int,
            d.scale as nat,
        ),
        forall|d: Decimal|
            #![trigger render_dec(d.mantissa as int, d.scale as nat)]
            d.well_formed() && s@ == render_dec(d.mantissa as int, d.scale as nat) ==> r == Some(
                d,
            ),
{
    if s.get_char(end) != '.' {
        proof {
            assert forall|d: Decimal|
                #![trigger render_dec(d.mantissa as int, d.scale as nat)]
                d.well_formed() && s@ == render_dec(d.mantissa as int, d.scale as nat)
                implies None::<Decimal> == Some(d) by {
                lemma_render_shape(d.mantissa as int, d.scale as nat);
            }
        }
        return None;
    }
    let run2 = parse_run(s, end + 1, n);
    proof {
        assert forall|d: Decimal|
            #![trigger render_dec(d.mantissa as int, d.scale as nat)]
            d.well_formed() && s@ == render_dec(d.mantissa as int, d.scale as nat)
            implies run2 == Some(
            (frac_part(d.mantissa as int, d.scale as nat) as i128, n),
        ) by {
            lemma_render_shape(d.mantissa as int, d.scale as nat);
            let md = d.mantissa as int;
            let sd = d.scale as nat;
            assert(sd > 0);
            let e2 = n as int;
            assert(s@.subrange(end + 1 as int, e2) == spec_digits_padded(
                frac_part(md, sd),
                sd,
            ));
            assert(digits_value(s@.subrange(end + 1 as int, e2))
                < 100000000000000000000000000000000);
        }
    }
    match run2 {
        None => {
            return None;
        },
        Some((fp, end2)) => {
            if end2 != n || end2 == end + 1 || n - end - 1 > 28 {
                proof {
                    assert forall|d: Decimal|
                        #![trigger render_dec(d.mantissa as int, d.scale as nat)]
                        d.well_formed() && s@ == render_dec(
                            d.mantissa as int,
                            d.scale as nat,
                        ) implies None::<Decimal> == Some(d) by {
                        lemma_render_shape(d.mantissa as int, d.scale as nat);
                    }
                }
                return None;
            }
            let scale: u32 = (n - end - 1) as u32;
            let p = pow10_i128(scale);
            let prod = ip.checked_mul(p);
            let total = match prod {
                Some(x) => x.checked_add(fp),
                None => None,
            };
            proof {
                assert forall|d: Decimal|
                    #![trigger render_dec(d.mantissa as int, d.scale as nat)]
                    d.well_formed() && s@ == render_dec(
                        d.mantissa as int,
                        d.scale as nat,
                    ) implies total == Some(
                    (vstd::math::abs(d.mantissa as int)) as i128,
                ) by {
                    lemma_render_shape(d.mantissa as int, d.scale as nat);
                    let md = d.mantissa as int;
                    let sd = d.scale as nat;
                    assert(sd > 0);
                    assert(scale as nat == sd);
                    assert(ip == int_part(md, sd));
                    assert(fp == frac_part(md, sd));
                    assert(ip * p + fp == vstd::math::abs(md));
                }
            }
            match total {
                None => {
                    return None;
                },
                Some(a) => {
                    if a >= MANTISSA_LIMIT {
                        proof {
                            assert forall|d: Decimal|
                                #![trigger render_dec(d.mantissa as int, d.scale as nat)]
                                d.well_formed() && s@ == render_dec(
                                    d.mantissa as int,
                                    d.scale as nat,
                                ) implies None::<Decimal> == Some(d) by {
                                lemma_render_shape(d.mantissa as int, d.scale as nat);
                            }
                        }
                        return None;
                    }
                    proof {
                        lemma_pow10_pos(scale as nat);
                        vstd::arithmetic::mul::lemma_mul_nonnegative(ip as int, p as int);
                    }
                    let m = if neg {
                        -a
                    } else {
                        a
                    };
                    let candidate = Decimal { mantissa: m, scale };
                    let rendered = render_decimal(&candidate);
                    let sown = s.to_owned();
                    if rendered == sown {
                        proof {
                            assert forall|d: Decimal|
                                #![trigger render_dec(d.mantissa as int, d.scale as nat)]
                                d.well_formed() && s@ == render_dec(
                                    d.mantissa as int,
                                    d.scale as nat,
                                ) implies Some(candidate) == Some(d) by {
                                lemma_render_shape(d.mantissa as int, d.scale as nat);
                            }
                        }
                        return Some(candidate);
                    } else {
                        proof {
                            assert forall|d: Decimal|
                                #![trigger render_dec(d.mantissa as int, d.scale as nat)]
                                d.well_formed() && s@ == render_dec(
                                    d.mantissa as int,
                                    d.scale as nat,
                                ) implies None::<Decimal> == Some(d) by {
                                lemma_render_shape(d.mantissa as int, d.scale as nat);
                                assert(candidate == d);
                            }
                        }
                        return None;
                    }
                },
            }
        },
    }
}

/// Encodes an amount as its record form.
pub fn encode_amount(a: &Amount) -> (r: String)
    requires
        a.well_formed(),
    ensures
        r@ == render_amount(*a),
{
    let mut out = String::from_str("{\"value\":\"");
    out.append(render_decimal(&a.value).as_str());
    out.append("\",\"currency\":\"");
    out.append(a.currency.code().as_str());
    out.append("\"}");
    proof {
        assert(out@ =~= render_amount(*a));
    }
    out
}

/// Encodes an error as its serialized form.
pub fn encode_error(e: &CurrencyError) -> (r: String)
    ensures
        r@ == render_error(*e),
{
    match e {
        CurrencyError::Unknown => String::from_str("\"Unknown\""),
        CurrencyError::DivideByZero => String::from_str("\"DivideByZero\""),
        CurrencyError::Mismatch(c1, c2) => {
            let mut out = String::from_str("{\"Mismatch\":[\"");
            out.append(c1.code().as_str());
            out.append("\",\"");
            out.append(c2.code().as_str());
            out.append("\"]}");
            proof {
                assert(out@ =~= render_error(*e));
            }
            out
        },
    }
}

/// Decodes the record form of an amount: succeeds exactly on the
/// encoding of a well-formed amount in a catalogued currency, and
/// returns that amount.
pub fn decode_amount(s: &str) -> (r: Option<Amount>)
    ensures
        r matches Some(a) ==> a.well_formed() && currency_registered(a.currency.numeric) && s@
            == render_amount(a),
        forall|a: Amount|
            #![trigger render_amount(a)]
            a.well_formed() && catalogued(a.currency) && s@ == render_amount(a) ==> r == Some(a),
{
    proof {
        reveal_strlit("{\"value\":\"");
        reveal_strlit("\",\"currency\":\"");
        reveal_strlit("\"}");
    }
    let n = s.unicode_len();
    if n < 30 {
        proof {
            assert forall|a: Amount|
                #![trigger render_amount(a)]
                a.well_formed() && catalogued(a.currency) && s@ == render_amount(a)
                implies None::<Amount> == Some(a) by {
                lemma_render_shape(a.value.mantissa as int, a.value.scale as nat);
            }
        }
        return None;
    }
    let value_part = s.substring_char(10, n - 19);
    let code_part = s.substring_char(n - 5, n - 2);
    let dec_opt = decode_decimal(value_part);
    proof {
        assert forall|a: Amount|
            #![trigger render_amount(a)]
            a.well_formed() && catalogued(a.currency) && s@ == render_amount(a)
            implies dec_opt == Some(a.value) && code_part@ == currency_code(
            a.currency.numeric,
        ) by {
            lemma_render_shape(a.value.mantissa as int, a.value.scale as nat);
            let dv = render_dec(a.value.mantissa as int, a.value.scale as nat);
            assert(s@.len() == 10 + dv.len() + 14 + 3 + 2);
            assert(value_part@ =~= dv);
            assert(code_part@ =~= currency_code(a.currency.numeric));
            assert(value_part@ == render_dec(a.value.mantissa as int, a.value.scale as nat));
        }
    }
    let d = match dec_opt {
        Some(d) => d,
        None => {
            return None;
        },
    };
    let code_opt = Currency::from_code(code_part);
    proof {
        assert forall|a: Amount|
            #![trigger render_amount(a)]
            a.well_formed() && catalogued(a.currency) && s@ == render_amount(a)
            implies code_opt == Some(a.currency) by {
            assert(code_part@ == currency_code(a.currency.numeric));
            assert(code_opt == Some((Currency { numeric: a.currency.numeric })));
        }
    }
    let c = match code_opt {
        Some(c) => c,
        None => {
            return None;
        },
    };
    let candidate = Amount { value: d, currency: c };
    let rendered = encode_amount(&candidate);
    let sown = s.to_owned();
    if rendered == sown {
        return Some(candidate);
    }
    proof {
        assert forall|a: Amount|
            #![trigger render_amount(a)]
            a.well_formed() && catalogued(a.currency) && s@ == render_amount(a)
            implies None::<Amount> == Some(a) by {
            assert(candidate == a);
        }
    }
    None
}

/// Decodes the serialized form of an error: succeeds exactly on the
/// encoding of an error whose currencies, if any, are catalogued, and
/// returns that error.
pub fn decode_error(s: &str) -> (r: Option<CurrencyError>)
    ensures
        r matches Some(e) ==> s@ == render_error(e) && error_catalogued(e),
        forall|e: CurrencyError|
            #![trigger render_error(e)]
            error_catalogued(e) && s@ == render_error(e) ==> r == Some(e),
{
    proof {
        reveal_strlit("\"Unknown\"");
        reveal_strlit("\"DivideByZero\"");
        reveal_strlit("{\"Mismatch\":[\"");
        reveal_strlit("\",\"");
        reveal_strlit("\"]}");
    }
    let sown = s.to_owned();
    if sown == String::from_str("\"Unknown\"") {
        proof {
            assert forall|e: CurrencyError|
                #![trigger render_error(e)]
                error_catalogued(e) && s@ == render_error(e) implies Some(
                CurrencyError::Unknown,
            ) == Some(e) by {
                match e {
                    CurrencyError::Unknown => {},
                    CurrencyError::DivideByZero => {
                        assert(render_error(e).len() == 14);
                        assert(s@.len() == 9);
                    },
                    CurrencyError::Mismatch(x1, x2) => {
                        assert(render_error(e).len() == 26);
                        assert(s@.len() == 9);
                    },
                }
            }
        }
        return Some(CurrencyError::Unknown);
    }
    if sown == String::from_str("\"DivideByZero\"") {
        proof {
            assert forall|e: CurrencyError|
                #![trigger render_error(e)]
                error_catalogued(e) && s@ == render_error(e) implies Some(
                CurrencyError::DivideByZero,
            ) == Some(e) by {
                match e {
                    CurrencyError::DivideByZero => {},
                    CurrencyError::Unknown => {
                        assert(render_error(e).len() == 9);
                        assert(s@.len() == 14);
                    },
                    CurrencyError::Mismatch(x1, x2) => {
                        assert(render_error(e).len() == 26);
                        assert(s@.len() == 14);
                    },
                }
            }
        }
        return Some(CurrencyError::DivideByZero);
    }
    let n = s.unicode_len();
    if n != 26 {
        proof {
            assert forall|e: CurrencyError|
                #![trigger render_error(e)]
                error_catalogued(e) && s@ == render_error(e) implies None::<CurrencyError>
                == Some(e) by {}
        }
        return None;
    }
    let c1_opt = Currency::from_code(s.substring_char(14, 17));
    let c2_opt = Currency::from_code(s.substring_char(20, 23));
    proof {
        assert forall|e: CurrencyError|
            #![trigger render_error(e)]
            error_catalogued(e) && s@ == render_error(e) implies (e matches
        CurrencyError::Mismatch(x1, x2) && c1_opt == Some(x1) && c2_opt == Some(x2)) by {
            match e {
                CurrencyError::Mismatch(x1, x2) => {
                    assert(s@.subrange(14, 17) =~= currency_code(x1.numeric));
                    assert(s@.subrange(20, 23) =~= currency_code(x2.numeric));
                    assert(c1_opt == Some((Currency { numeric: x1.numeric })));
                    assert(c2_opt == Some((Currency { numeric: x2.numeric })));
                },
                _ => {
                    assert(false);
                },
            }
        }
    }
    let c1 = match c1_opt {
        Some(c) => c,
        None => {
            return None;
        },
    };
    let c2 = match c2_opt {
        Some(c) => c,
        None => {
            return None;
        },
    };
    let candidate = CurrencyError::Mismatch(c1, c2);
    let rendered = encode_error(&candidate);
    if rendered == sown {
        return Some(candidate);
    }
    proof {
        assert forall|e: CurrencyError|
            #![trigger render_error(e)]
            error_catalogued(e) && s@ == render_error(e) implies None::<CurrencyError> == Some(
            e,
        ) by {
            assert(candidate == e);
        }
    }
    None
}

/// A well-formed decimal is recoverable from its rendering: two
/// well-formed decimals with the same rendering are the same. Together
/// with the contracts of [`decode_decimal`] this is what makes the
/// textual form a faithful round trip.
pub proof fn lemma_render_dec_injective(d1: Decimal, d2: Decimal)
    requires
        d1.well_formed(),
        d2.well_formed(),
        render_dec(d1.mantissa as int, d1.scale as nat) == render_dec(
            d2.mantissa as int,
            d2.scale as nat,
        ),
    ensures
        d1 == d2,
{
    let m1 = d1.mantissa as int;
    let s1 = d1.scale as nat;
    let m2 = d2.mantissa as int;
    let s2 = d2.scale as nat;
    lemma_render_shape(m1, s1);
    lemma_render_shape(m2, s2);
    let r = render_dec(m1, s1);
    assert((m1 < 0) == (m2 < 0));
    let sl = sign_len(m1);
    let da = spec_digits(int_part(m1, s1));
    let db = spec_digits(int_part(m2, s2));
    let la = da.len() as int;
    let lb = db.len() as int;
    // The integer digit runs have the same length: a longer run would
    // put a digit where the other rendering has its point or its end.
    if la < lb {
        if s1 == 0 {
            assert(r.len() == sl + la);
            assert(r.len() >= sl + lb);
            assert(false);
        } else {
            assert(r[sl + la] == '.');
            assert(r.subrange(sl, sl + lb) == db);
            assert(r[sl + la] == db[la]);
            assert(is_digit_char(db[la]));
            assert(false);
        }
    }
    if lb < la {
        if s2 == 0 {
            assert(r.len() == sl + lb);
            assert(r.len() >= sl + la);
            assert(false);
        } else {
            assert(r[sl + lb] == '.');
            assert(r.subrange(sl, sl + la) == da);
            assert(r[sl + lb] == da[lb]);
            assert(is_digit_char(da[lb]));
            assert(false);
        }
    }
    assert(la == lb);
    assert(da == r.subrange(sl, sl + la) && db == r.subrange(sl, sl + la));
    assert(int_part(m1, s1) == digits_value(da));
    assert(int_part(m1, s1) == int_part(m2, s2));
    // The scales agree, by the total lengths.
    if s1 == 0 && s2 > 0 {
        assert(r.len() == sl + la);
        assert(r.len() == sl + lb + 1 + s2);
        assert(false);
    }
    if s2 == 0 && s1 > 0 {
        assert(r.len() == sl + la + 1 + s1);
        assert(r.len() == sl + lb);
        assert(false);
    }
    if s1 > 0 {
        assert(r.len() == sl + la + 1 + s1);
        assert(r.len() == sl + lb + 1 + s2);
        assert(s1 == s2);
        // The fractional runs are the same subrange, so the fractional
        // parts agree.
        assert(spec_digits_padded(frac_part(m1, s1), s1) == r.subrange(
            sl + la + 1,
            r.len() as int,
        ));
        assert(spec_digits_padded(frac_part(m2, s2), s2) == r.subrange(
            sl + lb + 1,
            r.len() as int,
        ));
        assert(frac_part(m1, s1) == frac_part(m2, s2));
        assert(int_part(m1, s1) * pow10(s1) + frac_part(m1, s1) == vstd::math::abs(m1));
        assert(int_part(m2, s2) * pow10(s2) + frac_part(m2, s2) == vstd::math::abs(m2));
        assert(vstd::math::abs(m1) == vstd::math::abs(m2));
    } else {
        assert(s2 == 0);
        assert(vstd::math::abs(m1) == int_part(m1, s1));
        assert(vstd::math::abs(m2) == int_part(m2, s2));
        assert(vstd::math::abs(m1) == vstd::math::abs(m2));
    }
    if m1 < 0 {
        assert(m1 == -(vstd::math::abs(m1) as int));
        assert(m2 == -(vstd::math::abs(m2) as int));
    } else {
        assert(m1 == vstd::math::abs(m1));
        assert(m2 == vstd::math::abs(m2));
    }
    assert(m1 == m2);
    assert(s1 == s2);
}

} // verus!