//! Rendering numbers from their IEEE 754 double bit pattern.
//!
//! The library stores a number as the 64 bits of a double and renders it as
//! its exact decimal expansion: a finite double is a mantissa times a power
//! of two, so its value is exactly `mantissa * 5^k / 10^k` for scales below
//! one, or `mantissa * 2^e` for scales above, and both are plain naturals
//! whose decimal digits can be computed and proved with integer arithmetic
//! alone. Integral values such as 1 or 8 therefore render as `1` and `8`.

use vstd::prelude::*;

verus! {

/// Two to the power `e`.
pub open spec fn pow2(e: nat) -> nat
    decreases e,
{
    if e == 0 {
        1
    } else {
        2 * pow2((e - 1) as nat)
    }
}

/// Five to the power `e`.
pub open spec fn pow5(e: nat) -> nat
    decreases e,
{
    if e == 0 {
        1
    } else {
        5 * pow5((e - 1) as nat)
    }
}

/// Ten to the power `e`.
pub open spec fn pow10(e: nat) -> nat
    decreases e,
{
    if e == 0 {
        1
    } else {
        10 * pow10((e - 1) as nat)
    }
}

/// The sign bit.
pub open spec fn sign_of(bits: u64) -> bool {
    (bits >> 63) == 1
}

/// The biased exponent field.
pub open spec fn raw_exp(bits: u64) -> u64 {
    (bits >> 52) & 0x7ff
}

/// The fraction field.
pub open spec fn raw_frac(bits: u64) -> u64 {
    bits & 0xf_ffff_ffff_ffff
}

/// Whether the bits encode a NaN.
pub open spec fn is_nan_bits(bits: u64) -> bool {
    raw_exp(bits) == 0x7ff && raw_frac(bits) != 0
}

/// Whether the bits encode an infinity.
pub open spec fn is_inf_bits(bits: u64) -> bool {
    raw_exp(bits) == 0x7ff && raw_frac(bits) == 0
}

/// Whether the bits encode a zero (of either sign).
pub open spec fn is_zero_bits(bits: u64) -> bool {
    raw_exp(bits) == 0 && raw_frac(bits) == 0
}

/// The mantissa: the fraction field, with the hidden bit added for normal
/// values.
pub open spec fn mantissa_of(bits: u64) -> nat {
    if raw_exp(bits) == 0 {
        raw_frac(bits) as nat
    } else {
        (raw_frac(bits) + 0x10_0000_0000_0000) as nat
    }
}

/// The number of decimal places: zero when the value is `mantissa * 2^e`
/// with `e >= 0`, else the `k` with the value `mantissa * 5^k / 10^k`.
pub open spec fn places_of(bits: u64) -> nat {
    if raw_exp(bits) >= 1075 {
        0
    } else if raw_exp(bits) == 0 {
        1074
    } else {
        (1075 - raw_exp(bits)) as nat
    }
}

/// The value scaled to a natural: the numerator of the value over
/// `10^places_of(bits)`.
pub open spec fn scaled_of(bits: u64) -> nat {
    if raw_exp(bits) >= 1075 {
        mantissa_of(bits) * pow2((raw_exp(bits) - 1075) as nat)
    } else {
        mantissa_of(bits) * pow5(places_of(bits))
    }
}

/// The character for one decimal digit.
pub open spec fn digit_char(d: nat) -> char {
    if d == 0 {
        '0'
    } else if d == 1 {
        '1'
    } else if d == 2 {
        '2'
    } else if d == 3 {
        '3'
    } else if d == 4 {
        '4'
    } else if d == 5 {
        '5'
    } else if d == 6 {
        '6'
    } else if d == 7 {
        '7'
    } else if d == 8 {
        '8'
    } else {
        '9'
    }
}

/// The decimal digits of a natural, most significant first.
pub open spec fn dec_digits(n: nat) -> Seq<char>
    decreases n,
{
    if n < 10 {
        seq![digit_char(n)]
    } else {
        dec_digits(n / 10).push(digit_char(n % 10))
    }
}

/// `n` characters `'0'`.
pub open spec fn zero_chars(n: nat) -> Seq<char>
    decreases n,
{
    if n == 0 {
        Seq::empty()
    } else {
        zero_chars((n - 1) as nat).push('0')
    }
}

/// The text with trailing `'0'` characters removed.
pub open spec fn strip_zeros(s: Seq<char>) -> Seq<char>
    decreases s.len(),
{
    if s.len() > 0 && s.last() == '0' {
        strip_zeros(s.drop_last())
    } else {
        s
    }
}

/// The text of an unsigned decimal expansion: the digits with a point set
/// `places` positions from the right, a leading `0` where no whole digit is
/// left, and the fraction dropped where it is all zeros.
pub open spec fn point_text(digits: Seq<char>, places: nat) -> Seq<char> {
    let whole = if digits.len() > places {
        digits.take(digits.len() - places)
    } else {
        seq!['0']
    };
    let frac_raw = if digits.len() > places {
        digits.skip(digits.len() - places)
    } else {
        zero_chars((places - digits.len()) as nat) + digits
    };
    let frac = strip_zeros(frac_raw);
    if frac.len() == 0 {
        whole
    } else {
        whole + seq!['.'] + frac
    }
}

/// The text of a finite, nonzero value, without its sign.
pub open spec fn finite_text(bits: u64) -> Seq<char> {
    point_text(dec_digits(scaled_of(bits)), places_of(bits))
}

/// The canonical text of a number given by its double bit pattern: `NaN`,
/// `inf` or `-inf`, `0` or `-0`, or the signed exact decimal expansion.
pub open spec fn number_text(bits: u64) -> Seq<char> {
    if is_nan_bits(bits) {
        seq!['N', 'a', 'N']
    } else if is_inf_bits(bits) {
        if sign_of(bits) {
            seq!['-', 'i', 'n', 'f']
        } else {
            seq!['i', 'n', 'f']
        }
    } else if is_zero_bits(bits) {
        if sign_of(bits) {
            seq!['-', '0']
        } else {
            seq!['0']
        }
    } else if sign_of(bits) {
        seq!['-'] + finite_text(bits)
    } else {
        finite_text(bits)
    }
}

/// Whether every entry of a little-endian digit sequence is a decimal digit.
pub open spec fn digits_ok(s: Seq<u8>) -> bool {
    forall|i: int| 0 <= i < s.len() ==> (#[trigger] s[i]) < 10
}

/// Whether a little-endian digit sequence is canonical: nonempty, with no
/// leading zero except in the single digit zero itself.
pub open spec fn digits_canon(s: Seq<u8>) -> bool {
    s.len() > 0 && (s.len() == 1 || s.last() != 0)
}

/// The natural a little-endian digit sequence stands for.
pub open spec fn val_of(s: Seq<u8>) -> nat
    decreases s.len(),
{
    if s.len() == 0 {
        0
    } else {
        (s[0] + 10 * val_of(s.skip(1))) as nat
    }
}

/// The text of a little-endian digit sequence, most significant digit first.
pub open spec fn char_digits(s: Seq<u8>) -> Seq<char>
    decreases s.len(),
{
    if s.len() == 0 {
        Seq::empty()
    } else {
        char_digits(s.skip(1)).push(digit_char(s[0] as nat))
    }
}

/// Appending a digit adds its value at the next power of ten.
pub proof fn lemma_val_push(s: Seq<u8>, x: u8)
    ensures
        val_of(s.push(x)) == val_of(s) + x * pow10(s.len()),
    decreases s.len(),
{
    if s.len() == 0 {
        let t = s.push(x);
        assert(t.len() == 1);
        assert(t[0] == x);
        assert(t.skip(1) =~= Seq::<u8>::empty());
        assert(val_of(t.skip(1)) == 0);
        assert(val_of(t) == (t[0] + 10 * val_of(t.skip(1))) as nat);
        assert(val_of(t) == x);
        assert(pow10(s.len()) == 1);
        assert(val_of(s) == 0);
    } else {
        assert(s.push(x).skip(1) =~= s.skip(1).push(x));
        lemma_val_push(s.skip(1), x);
        let a = val_of(s.skip(1)) as int;
        let p = pow10((s.len() - 1) as nat) as int;
        let xi = x as int;
        assert(s.push(x)[0] == s[0]);
        assert(val_of(s.push(x)) == s[0] + 10 * val_of(s.push(x).skip(1)));
        assert(val_of(s.push(x).skip(1)) == a + xi * p);
        assert(pow10(s.len()) == 10 * p);
        assert(10 * (a + xi * p) == 10 * a + xi * (10 * p)) by (nonlinear_arith);
        assert(val_of(s) == s[0] + 10 * a);
        assert(val_of(s.push(x)) == s[0] + 10 * a + xi * (10 * p));
    }
}

/// The text of a digit sequence has one character per digit.
pub proof fn lemma_char_digits_len(s: Seq<u8>)
    ensures
        char_digits(s).len() == s.len(),
    decreases s.len(),
{
    if s.len() > 0 {
        lemma_char_digits_len(s.skip(1));
    }
}

/// The text of a digit sequence reverses it: the character at `i` shows the
/// digit at `len - 1 - i`.
pub proof fn lemma_char_digits_index(s: Seq<u8>, i: int)
    requires
        0 <= i < s.len(),
    ensures
        char_digits(s).len() == s.len(),
        char_digits(s)[i] == digit_char(s[s.len() - 1 - i] as nat),
    decreases s.len(),
{
    lemma_char_digits_len(s);
    lemma_char_digits_len(s.skip(1));
    if i < s.len() - 1 {
        lemma_char_digits_index(s.skip(1), i);
    }
}

/// A digit sequence whose top digit is nonzero stands for a positive value.
pub proof fn lemma_val_pos(s: Seq<u8>)
    requires
        s.len() > 0,
        s.last() != 0,
    ensures
        val_of(s) >= 1,
    decreases s.len(),
{
    if s.len() > 1 {
        lemma_val_pos(s.skip(1));
    }
}

/// A canonical digit sequence writes out as the decimal digits of its value.
pub proof fn lemma_char_digits_dec(s: Seq<u8>)
    requires
        digits_ok(s),
        digits_canon(s),
    ensures
        char_digits(s) == dec_digits(val_of(s)),
    decreases s.len(),
{
    let n = val_of(s);
    if s.len() == 1 {
        assert(s.skip(1) =~= Seq::<u8>::empty());
        assert(val_of(s.skip(1)) == 0);
        assert(n == s[0]);
        assert(char_digits(s.skip(1)) =~= Seq::<char>::empty());
        assert(char_digits(s) == char_digits(s.skip(1)).push(digit_char(s[0] as nat)));
        assert(dec_digits(n) == seq![digit_char(n)]);
        assert(char_digits(s) =~= dec_digits(n));
    } else {
        let rest = s.skip(1);
        assert(rest.last() == s.last());
        lemma_val_pos(rest);
        assert(digits_ok(rest)) by {
            assert(forall|i: int|
                0 <= i < rest.len() ==> (#[trigger] rest[i]) == s[i + 1]);
        }
        lemma_char_digits_dec(rest);
        assert(n == s[0] + 10 * val_of(rest));
        vstd::arithmetic::div_mod::lemma_fundamental_div_mod_converse(
            n as int,
            10,
            val_of(rest) as int,
            s[0] as int,
        );
        assert(n / 10 == val_of(rest));
        assert(n % 10 == s[0]);
        assert(n >= 10);
        assert(dec_digits(n) == dec_digits(val_of(rest)).push(digit_char(s[0] as nat)));
        assert(char_digits(s) == char_digits(rest).push(digit_char(s[0] as nat)));
    }
}

/// Stripping trailing zeros keeps exactly the first `j` characters when all
/// later characters are zeros and the `j`th is not.
pub proof fn lemma_strip_take(s: Seq<char>, j: int)
    requires
        0 <= j <= s.len(),
        forall|i: int| j <= i < s.len() ==> s[i] == '0',
        j > 0 ==> s[j - 1] != '0',
    ensures
        strip_zeros(s) == s.take(j),
    decreases s.len(),
{
    if j == s.len() {
        if s.len() == 0 {
            assert(strip_zeros(s) =~= s.take(j));
        } else {
            assert(s.last() != '0');
            assert(s.take(j) =~= s);
        }
    } else {
        assert(s.last() == '0');
        assert(s.drop_last().take(j) =~= s.take(j));
        lemma_strip_take(s.drop_last(), j);
    }
}

/// The little-endian decimal digits of a machine word.
fn digits_of_u64(n: u64) -> (d: Vec<u8>)
    ensures
        digits_ok(d@),
        digits_canon(d@),
        val_of(d@) == n,
{
    let mut d: Vec<u8> = Vec::new();
    if n == 0 {
        d.push(0);
        proof {
            assert(d@.len() == 1);
            assert(d@[0] == 0);
            assert(d@.skip(1) =~= Seq::<u8>::empty());
            assert(val_of(d@.skip(1)) == 0);
            assert(val_of(d@) == 0);
        }
        return d;
    }
    proof {
        assert(d@ =~= Seq::<u8>::empty());
        assert(val_of(d@) == 0);
        assert(pow10(0) == 1);
    }
    let mut m = n;
    while m > 0
        invariant
            val_of(d@) + m * pow10(d@.len()) == n,
            digits_ok(d@),
            m == 0 ==> digits_canon(d@),
        decreases m,
    {
        let dig = (m % 10) as u8;
        let ghost s0 = d@;
        let ghost m0 = m as int;
        d.push(dig);
        m = m / 10;
        proof {
            lemma_val_push(s0, dig);
            let p = pow10(s0.len()) as int;
            let q = m0 / 10;
            let r = m0 % 10;
            vstd::arithmetic::div_mod::lemma_fundamental_div_mod(m0, 10);
            assert(m0 == 10 * q + r);
            assert((10 * q + r) * p == q * (10 * p) + r * p) by (nonlinear_arith);
            assert(pow10(d@.len()) == 10 * p);
            assert(val_of(d@) == val_of(s0) + r * p);
            assert(val_of(d@) + m * pow10(d@.len()) == n);
            if m == 0 {
                assert(d@.last() == dig);
                assert(dig > 0);
            }
        }
    }
    d
}

/// Multiplies a digit sequence in place by a single-digit factor.
fn mul_digits(d: &mut Vec<u8>, f: u8)
    requires
        2 <= f <= 5,
        digits_ok(old(d)@),
        digits_canon(old(d)@),
    ensures
        digits_ok(final(d)@),
        digits_canon(final(d)@),
        val_of(final(d)@) == f * val_of(old(d)@),
{
    let ghost s0 = old(d)@;
    let n = d.len();
    let mut carry: u8 = 0;
    let mut i: usize = 0;
    proof {
        assert(d@.take(0) =~= Seq::<u8>::empty());
        assert(s0.take(0) =~= Seq::<u8>::empty());
        assert(val_of(d@.take(0)) == 0);
        assert(pow10(0) == 1);
    }
    while i < n
        invariant
            2 <= f <= 5,
            digits_ok(s0),
            digits_canon(s0),
            n == d@.len(),
            n == s0.len(),
            i <= n,
            carry <= 4,
            digits_ok(d@),
            forall|j: int| i <= j < n ==> d@[j] == s0[j],
            val_of(d@.take(i as int)) + carry * pow10(i as nat) == f * val_of(
                s0.take(i as int),
            ),
            (i == n && carry == 0 && n > 1) ==> d@.last() != 0,
        decreases n - i,
    {
        let ghost i_ = i as int;
        let ghost dpre = d@;
        proof {
            assert(dpre[i_] == s0[i_]);
            assert(s0[i_] < 10);
            assert(dpre[i_] * f + carry <= 49) by (nonlinear_arith)
                requires
                    0 <= dpre[i_] < 10,
                    2 <= f <= 5,
                    0 <= carry <= 4,
            ;
        }
        let x = d[i] * f + carry;
        let ghost c_in = carry;
        d[i] = x % 10;
        carry = x / 10;
        proof {
            assert(x == s0[i_] * f + c_in);
            assert(x <= 49) by (nonlinear_arith)
                requires
                    x == s0[i_] * f + c_in,
                    0 <= s0[i_] < 10,
                    2 <= f <= 5,
                    0 <= c_in <= 4,
            ;
            vstd::arithmetic::div_mod::lemma_fundamental_div_mod(x as int, 10);
            assert(d@ == dpre.update(i_, x % 10));
            assert(d@.take(i_) =~= dpre.take(i_));
            assert(d@.take(i_ + 1) =~= d@.take(i_).push((x % 10) as u8));
            assert(s0.take(i_ + 1) =~= s0.take(i_).push(s0[i_]));
            lemma_val_push(d@.take(i_), (x % 10) as u8);
            lemma_val_push(s0.take(i_), s0[i_]);
            let p = pow10(i_ as nat) as int;
            assert(pow10((i_ + 1) as nat) == 10 * p);
            assert(val_of(d@.take(i_ + 1)) + (x / 10) * (10 * p) == f * val_of(
                s0.take(i_ + 1),
            )) by (nonlinear_arith)
                requires
                    val_of(d@.take(i_ + 1)) == val_of(d@.take(i_)) + (x % 10) * p,
                    val_of(s0.take(i_ + 1)) == val_of(s0.take(i_)) + s0[i_] * p,
                    val_of(d@.take(i_)) + c_in * p == f * val_of(s0.take(i_)),
                    x == s0[i_] * f + c_in,
                    x == 10 * (x / 10) + x % 10,
                    p >= 0,
            ;
            if i + 1 == n && x / 10 == 0 && n > 1 {
                assert(s0.last() != 0);
                assert(x % 10 == x);
                assert(x >= 2) by (nonlinear_arith)
                    requires
                        x == s0[i_] * f + c_in,
                        s0[i_] >= 1,
                        f >= 2,
                        c_in >= 0,
                ;
                assert(d@.last() == x % 10);
            }
        }
        i = i + 1;
    }
    proof {
        assert(d@.take(n as int) =~= d@);
        assert(s0.take(n as int) =~= s0);
    }
    if carry > 0 {
        let ghost before = d@;
        d.push(carry);
        proof {
            lemma_val_push(before, carry);
            assert(val_of(d@) == f * val_of(s0));
            assert(d@.last() == carry);
        }
    }
}

/// A run of zeros has the asked length and holds only `'0'`.
pub proof fn lemma_zero_chars(n: nat)
    ensures
        zero_chars(n).len() == n,
        forall|i: int| 0 <= i < n ==> zero_chars(n)[i] == '0',
    decreases n,
{
    if n > 0 {
        lemma_zero_chars((n - 1) as nat);
    }
}

/// The text of a digit sequence, described position by position.
pub proof fn lemma_char_digits_all(s: Seq<u8>)
    ensures
        char_digits(s).len() == s.len(),
        forall|i: int|
            0 <= i < s.len() ==> char_digits(s)[i] == digit_char(
                s[s.len() - 1 - i] as nat,
            ),
{
    lemma_char_digits_len(s);
    assert forall|i: int| 0 <= i < s.len() implies char_digits(s)[i] == digit_char(
        s[s.len() - 1 - i] as nat,
    ) by {
        lemma_char_digits_index(s, i);
    }
}

/// The one-character text of a decimal digit.
fn digit_str(dig: u8) -> (r: &'static str)
    requires
        dig < 10,
    ensures
        r@ == seq![digit_char(dig as nat)],
{
    proof {
        reveal_strlit("0");
        reveal_strlit("1");
        reveal_strlit("2");
        reveal_strlit("3");
        reveal_strlit("4");
        reveal_strlit("5");
        reveal_strlit("6");
        reveal_strlit("7");
        reveal_strlit("8");
        reveal_strlit("9");
    }
    let r: &'static str = if dig == 0 {
        "0"
    } else if dig == 1 {
        "1"
    } else if dig == 2 {
        "2"
    } else if dig == 3 {
        "3"
    } else if dig == 4 {
        "4"
    } else if dig == 5 {
        "5"
    } else if dig == 6 {
        "6"
    } else if dig == 7 {
        "7"
    } else if dig == 8 {
        "8"
    } else {
        "9"
    };
    proof {
        assert(r@ =~= seq![digit_char(dig as nat)]);
    }
    r
}

/// Writes digits with the decimal point `places` positions from the right:
/// the exact decimal expansion of `val_of(d@) / 10^places`.
fn render_digits(d: &Vec<u8>, places: usize) -> (out: String)
    requires
        digits_ok(d@),
        digits_canon(d@),
    ensures
        out@ == point_text(char_digits(d@), places as nat),
{
    let ghost big = char_digits(d@);
    proof {
        lemma_char_digits_all(d@);
    }
    let n = d.len();
    let mut out = String::new();

    // The whole part: the digits above the point, or a single zero.
    if n > places {
        let mut i = n;
        while i > places
            invariant
                places < n == d@.len(),
                places <= i <= n,
                digits_ok(d@),
                big == char_digits(d@),
                big.len() == n,
                forall|t: int|
                    0 <= t < n ==> big[t] == digit_char(d@[n - 1 - t] as nat),
                out@ =~= big.take(n - i),
            decreases i,
        {
            i = i - 1;
            out.append(digit_str(d[i]));
            proof {
                assert(big.take(n - i) =~= big.take(n - i - 1).push(big[n - 1 - i]));
            }
        }
        proof {
            assert(out@ =~= big.take(n - places));
        }
    } else {
        proof {
            reveal_strlit("0");
        }
        out.append("0");
        proof {
            assert(out@ =~= seq!['0']);
        }
    }
    let ghost whole = out@;

    // The lowest nonzero digit bounds the fraction: everything below it
    // writes as a trailing zero, which the expansion drops.
    let mut lz: usize = 0;
    while lz < n && d[lz] == 0
        invariant
            n == d@.len(),
            lz <= n,
            forall|j: int| 0 <= j < lz ==> d@[j] == 0,
        decreases n - lz,
    {
        lz = lz + 1;
    }

    // The raw fraction, position by position: the digit `places - 1 - t`,
    // or a zero above the highest digit.
    let ghost fr_raw = if d@.len() > places as nat {
        big.skip(d@.len() - places)
    } else {
        zero_chars((places - d@.len()) as nat) + big
    };
    proof {
        lemma_zero_chars((places - d@.len()) as nat);
        assert(fr_raw.len() == places);
        assert forall|t: int| 0 <= t < places implies fr_raw[t] == (if places - 1 - t
            < n {
            digit_char(d@[places - 1 - t] as nat)
        } else {
            '0'
        }) by {
            if n > places {
                assert(fr_raw[t] == big[n - places + t]);
            } else {
                if t < places - n {
                    assert(fr_raw[t] == zero_chars((places - d@.len()) as nat)[t]);
                } else {
                    assert(fr_raw[t] == big[t - (places - n)]);
                }
            }
        }
    }

    if lz < places && lz < n {
        // Some fraction digit is nonzero: write the point, any padding
        // zeros, then the digits down to the lowest nonzero one.
        proof {
            lemma_strip_take(fr_raw, places - lz);
            reveal_strlit(".");
        }
        out.append(".");
        proof {
            assert(out@ =~= whole + seq!['.']);
        }
        let mut j = places;
        while j > lz
            invariant
                lz < places,
                lz < n,
                n == d@.len(),
                lz <= j <= places,
                digits_ok(d@),
                fr_raw.len() == places,
                forall|t: int|
                    0 <= t < places ==> fr_raw[t] == (if places - 1 - t < n {
                        digit_char(d@[places - 1 - t] as nat)
                    } else {
                        '0'
                    }),
                out@ =~= whole + seq!['.'] + fr_raw.take(places - j),
            decreases j,
        {
            j = j - 1;
            if j >= n {
                proof {
                    reveal_strlit("0");
                }
                out.append("0");
            } else {
                out.append(digit_str(d[j]));
            }
            proof {
                assert(fr_raw.take(places - j) =~= fr_raw.take(places - j - 1).push(
                    fr_raw[places - 1 - j],
                ));
                reveal_strlit("0");
            }
        }
        proof {
            assert(strip_zeros(fr_raw) == fr_raw.take(places - lz));
            assert(strip_zeros(fr_raw).len() > 0);
            assert(out@ =~= whole + seq!['.'] + strip_zeros(fr_raw));
        }
    } else {
        // Every fraction digit is zero: the expansion has no point.
        proof {
            lemma_strip_take(fr_raw, 0);
            assert(strip_zeros(fr_raw) =~= Seq::<char>::empty());
        }
    }
    proof {
        assert(out@ == point_text(char_digits(d@), places as nat));
    }
    out
}

/// Renders a machine word as its decimal digits.
pub fn format_u64(n: u64) -> (s: String)
    ensures
        s@ == dec_digits(n as nat),
{
    let d = digits_of_u64(n);
    let s = render_digits(&d, 0);
    proof {
        lemma_char_digits_dec(d@);
        lemma_char_digits_len(d@);
        let digits = dec_digits(n as nat);
        assert(digits.skip(digits.len() as int) =~= Seq::<char>::empty());
        assert(strip_zeros(digits.skip(digits.len() as int)) == Seq::<char>::empty());
        assert(digits.take(digits.len() as int) =~= digits);
        assert(point_text(digits, 0) == digits);
    }
    s
}

/// Renders the number held by a double bit pattern as its canonical text:
/// `NaN`, `inf` or `-inf`, `0` or `-0`, or its signed exact decimal
/// expansion.
pub fn format_number(bits: u64) -> (s: String)
    ensures
        s@ == number_text(bits),
{
    let re: u64 = (bits >> 52) & 0x7ff;
    let fr: u64 = bits & 0xf_ffff_ffff_ffff;
    let neg: bool = (bits >> 63) == 1;
    if re == 0x7ff {
        if fr != 0 {
            let s = String::from_str("NaN");
            proof {
                reveal_strlit("NaN");
                assert(s@ =~= number_text(bits));
            }
            s
        } else if neg {
            let s = String::from_str("-inf");
            proof {
                reveal_strlit("-inf");
                assert(s@ =~= number_text(bits));
            }
            s
        } else {
            let s = String::from_str("inf");
            proof {
                reveal_strlit("inf");
                assert(s@ =~= number_text(bits));
            }
            s
        }
    } else if re == 0 && fr == 0 {
        if neg {
            let s = String::from_str("-0");
            proof {
                reveal_strlit("-0");
                assert(s@ =~= number_text(bits));
            }
            s
        } else {
            let s = String::from_str("0");
            proof {
                reveal_strlit("0");
                assert(s@ =~= number_text(bits));
            }
            s
        }
    } else {
        proof {
            assert(fr < 0x10_0000_0000_0000) by (bit_vector)
                requires
                    fr == bits & 0xf_ffff_ffff_ffff,
            ;
        }
        let m: u64 = if re == 0 {
            fr
        } else {
            fr + 0x10_0000_0000_0000
        };
        proof {
            assert(m == mantissa_of(bits));
        }
        let mut d = digits_of_u64(m);
        let places: u64;
        if re >= 1075 {
            let ghost shift = (re - 1075) as nat;
            let mut c: u64 = re - 1075;
            proof {
                assert(pow2(0) == 1);
                assert(val_of(d@) == m * pow2((shift - c) as nat)) by (nonlinear_arith)
                    requires
                        val_of(d@) == m,
                        pow2((shift - c) as nat) == 1,
                        shift == c,
                ;
            }
            while c > 0
                invariant
                    c <= shift,
                    digits_ok(d@),
                    digits_canon(d@),
                    val_of(d@) == m * pow2((shift - c) as nat),
                decreases c,
            {
                let ghost v0 = val_of(d@);
                mul_digits(&mut d, 2);
                c = c - 1;
                proof {
                    assert(pow2((shift - c) as nat) == 2 * pow2((shift - c - 1) as nat));
                    assert(2 * (m * pow2((shift - c - 1) as nat)) == m * (2 * pow2(
                        (shift - c - 1) as nat,
                    ))) by (nonlinear_arith);
                }
            }
            places = 0;
            proof {
                assert(val_of(d@) == scaled_of(bits));
                assert(places == places_of(bits));
            }
        } else {
            let k: u64 = if re == 0 {
                1074
            } else {
                1075 - re
            };
            let mut c: u64 = k;
            proof {
                assert(pow5(0) == 1);
                assert(val_of(d@) == m * pow5((k - c) as nat)) by (nonlinear_arith)
                    requires
                        val_of(d@) == m,
                        pow5((k - c) as nat) == 1,
                        k == c,
                ;
            }
            while c > 0
                invariant
                    c <= k,
                    digits_ok(d@),
                    digits_canon(d@),
                    val_of(d@) == m * pow5((k - c) as nat),
                decreases c,
            {
                mul_digits(&mut d, 5);
                c = c - 1;
                proof {
                    assert(pow5((k - c) as nat) == 5 * pow5((k - c - 1) as nat));
                    assert(5 * (m * pow5((k - c - 1) as nat)) == m * (5 * pow5(
                        (k - c - 1) as nat,
                    ))) by (nonlinear_arith);
                }
            }
            places = k;
            proof {
                assert(val_of(d@) == scaled_of(bits));
                assert(places == places_of(bits));
            }
        }
        let body = render_digits(&d, places as usize);
        proof {
            lemma_char_digits_dec(d@);
            assert(body@ == finite_text(bits));
        }
        if neg {
            let mut s = String::from_str("-");
            s.append(body.as_str());
            proof {
                reveal_strlit("-");
                assert(s@ =~= number_text(bits));
            }
            s
        } else {
            body
        }
    }
}

} // verus!

