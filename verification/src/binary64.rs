//! IEEE 754 double-precision numbers, held by their bit patterns, and their
//! numerals with exactly two decimal places.

use vstd::prelude::*;
use vstd::arithmetic::div_mod::{
    lemma_basic_div,
    lemma_fundamental_div_mod,
    lemma_mod_bound,
    lemma_small_mod,
};
use vstd::arithmetic::power2::{
    lemma2_to64,
    lemma2_to64_rest,
    lemma_pow2_strictly_increases,
    lemma_pow2_unfold,
    pow2,
};
use vstd::string::StringExecFns;
use crate::decimal::{decimal, digit_char, digit_str, digit_value, is_digit, push_decimal};
use crate::digits::Digits;

verus! {

/// The sign bit of a bit pattern.
pub const SIGN_BIT: u64 = 0x8000_0000_0000_0000;

/// Two to the power 52: the number of fractions, and the bit that a normal
/// number's significand has in front of its fraction.
pub const HIDDEN_BIT: u64 = 0x10_0000_0000_0000;

/// The exponent field of infinities and NaNs.
pub const EXPONENT_MAX: u64 = 2047;

/// The exponent field of the numbers from two to the power 52 on, whose
/// significand is their value.
pub const EXPONENT_UNIT: u64 = 1075;

/// A double-precision number: one sign bit, eleven exponent bits and 52
/// fraction bits, from the most significant bit down.
#[derive(Clone, Copy, Debug, PartialEq, Eq, Structural)]
pub struct Binary64 {
    pub bits: u64,
}

/// `n / d` rounded to the nearest natural number, and to the even one of the
/// two where it lies half-way between them.
pub open spec fn round_half_even(n: nat, d: nat) -> nat {
    let q = n / d;
    let r = n % d;
    if 2 * r > d || (2 * r == d && q % 2 == 1) {
        q + 1
    } else {
        q
    }
}

/// The numeral of `h` hundredths: the whole part, a point, and two digits.
pub open spec fn two_places(h: nat) -> Seq<char> {
    decimal(h / 100) + seq!['.', digit_char(h / 10 % 10), digit_char(h % 10)]
}

/// The sign bit, the exponent field and the fraction field make up the whole
/// bit pattern, each in its place.
pub proof fn lemma_fields_make_up_bits(x: Binary64)
    ensures
        x.biased_exponent() <= EXPONENT_MAX,
        x.fraction() < HIDDEN_BIT,
        x.bits == (if x.is_negative() {
            SIGN_BIT as nat
        } else {
            0
        }) + x.biased_exponent() * HIDDEN_BIT + x.fraction(),
{
}

/// Rounding half to even gives a nearest natural number: the result is at
/// most half a unit away from `n / d`, and it is even where it is exactly
/// half a unit away.
pub proof fn lemma_round_half_even_is_nearest(n: nat, d: nat)
    requires
        d > 0,
    ensures
        2 * (round_half_even(n, d) * d - n) <= d,
        2 * (n - round_half_even(n, d) * d) <= d,
        2 * (round_half_even(n, d) * d - n) == d || 2 * (n - round_half_even(n, d) * d) == d
            ==> round_half_even(n, d) % 2 == 0,
{
    let q = n / d;
    let r = n % d;
    lemma_fundamental_div_mod(n as int, d as int);
    lemma_mod_bound(n as int, d as int);
    assert((q + 1) * d == q * d + d) by (nonlinear_arith);
    assert(d * q == q * d) by (nonlinear_arith);
}

/// A numeral of hundredths has exactly two decimal places: a plain numeral of
/// the whole part, a point, and two digits; and it stands for the hundredths
/// that it was made from.
pub proof fn lemma_two_places_shape(h: nat)
    ensures
        two_places(h).len() == decimal(h / 100).len() + 3,
        two_places(h).take(two_places(h).len() - 3) == decimal(h / 100),
        two_places(h)[two_places(h).len() - 3] == '.',
        is_digit(two_places(h)[two_places(h).len() - 2]),
        is_digit(two_places(h)[two_places(h).len() - 1]),
        100 * (h / 100) + 10 * digit_value(two_places(h)[two_places(h).len() - 2]) + digit_value(
            two_places(h)[two_places(h).len() - 1],
        ) == h,
{
    let whole = decimal(h / 100);
    assert(two_places(h).take(two_places(h).len() - 3) =~= whole);
}

impl Binary64 {
    /// The sign bit is set.
    pub open spec fn is_negative(self) -> bool {
        self.bits >= SIGN_BIT
    }

    /// The exponent field.
    pub open spec fn biased_exponent(self) -> nat {
        ((self.bits / HIDDEN_BIT) % 2048) as nat
    }

    /// The fraction field.
    pub open spec fn fraction(self) -> nat {
        (self.bits % HIDDEN_BIT) as nat
    }

    /// Not a number.
    pub open spec fn is_nan(self) -> bool {
        self.biased_exponent() == EXPONENT_MAX && self.fraction() != 0
    }

    /// Positive or negative infinity.
    pub open spec fn is_infinite(self) -> bool {
        self.biased_exponent() == EXPONENT_MAX && self.fraction() == 0
    }

    /// The significand `m` of a finite number, whose magnitude is
    /// `m * 2^exponent()`.
    pub open spec fn significand(self) -> nat {
        if self.biased_exponent() == 0 {
            self.fraction()
        } else {
            HIDDEN_BIT as nat + self.fraction()
        }
    }

    /// The exponent `e` of a finite number, whose magnitude is
    /// `significand() * 2^e`.
    pub open spec fn exponent(self) -> int {
        if self.biased_exponent() == 0 {
            -1074
        } else {
            self.biased_exponent() - EXPONENT_UNIT
        }
    }

    /// A hundred times the magnitude of a finite number as a fraction: this
    /// is its numerator.
    pub open spec fn hundredfold_numerator(self) -> nat {
        if self.exponent() >= 0 {
            100 * self.significand() * pow2(self.exponent() as nat)
        } else {
            100 * self.significand()
        }
    }

    /// The denominator that goes with `hundredfold_numerator()`.
    pub open spec fn hundredfold_denominator(self) -> nat {
        if self.exponent() >= 0 {
            1
        } else {
            pow2((-self.exponent()) as nat)
        }
    }

    /// The magnitude of a finite number in hundredths, rounded to the nearest
    /// hundredth and to the even one where two are equally near.
    pub open spec fn hundredths(self) -> nat {
        round_half_even(self.hundredfold_numerator(), self.hundredfold_denominator())
    }

    /// The sign in front of the numeral: a minus where the sign bit is set.
    pub open spec fn sign_text(self) -> Seq<char> {
        if self.is_negative() {
            seq!['-']
        } else {
            Seq::empty()
        }
    }

    /// The numeral of the number with exactly two decimal places: `NaN` for
    /// what is not a number; else the sign, and then `inf` for an infinity or
    /// the rounded hundredths with a point before the last two digits.
    pub open spec fn two_decimals(self) -> Seq<char> {
        if self.is_nan() {
            seq!['N', 'a', 'N']
        } else if self.is_infinite() {
            self.sign_text() + seq!['i', 'n', 'f']
        } else {
            self.sign_text() + two_places(self.hundredths())
        }
    }

    /// The number with the bit pattern `bits`.
    pub fn from_bits(bits: u64) -> (x: Binary64)
        ensures
            x.bits == bits,
    {
        Binary64 { bits }
    }

    /// The bit pattern of the number.
    pub fn to_bits(self) -> (bits: u64)
        ensures
            bits == self.bits,
    {
        self.bits
    }

    /// The numeral of the number with exactly two decimal places.
    pub fn format_two_decimals(self) -> (s: String)
        ensures
            s@ == self.two_decimals(),
    {
        let negative: bool = self.bits >= SIGN_BIT;
        let biased: u64 = (self.bits / HIDDEN_BIT) % 2048;
        let fraction: u64 = self.bits % HIDDEN_BIT;
        if biased == EXPONENT_MAX && fraction != 0 {
            proof {
                reveal_strlit("NaN");
            }
            let s = String::from_str("NaN");
            assert(s@ =~= self.two_decimals());
            return s;
        }
        let mut s = String::new();
        if negative {
            proof {
                reveal_strlit("-");
            }
            s.append("-");
        }
        assert(s@ =~= self.sign_text());
        if biased == EXPONENT_MAX {
            proof {
                reveal_strlit("inf");
            }
            s.append("inf");
            assert(s@ =~= self.two_decimals());
        } else if biased >= EXPONENT_UNIT {
            let mut whole = Digits::from_u64(fraction + HIDDEN_BIT);
            whole.shift_left(biased - EXPONENT_UNIT);
            proof {
                let v = whole@;
                assert(self.hundredfold_numerator() == 100 * v) by (nonlinear_arith)
                    requires
                        self.hundredfold_numerator() == 100 * self.significand() * pow2(
                            self.exponent() as nat,
                        ),
                        v == self.significand() * pow2(self.exponent() as nat),
                ;
                assert(self.hundredths() == 100 * v);
                reveal_strlit(".00");
            }
            whole.push_to(&mut s);
            s.append(".00");
            assert(two_places(self.hundredths()) =~= decimal(whole@) + seq!['.', '0', '0']);
            assert(s@ =~= self.two_decimals());
        } else {
            let shift: u64 = if biased == 0 {
                1074
            } else {
                EXPONENT_UNIT - biased
            };
            let significand: u64 = if biased == 0 {
                fraction
            } else {
                fraction + HIDDEN_BIT
            };
            let h: u64 = round_scaled(significand, shift);
            proof {
                reveal_strlit(".");
            }
            push_decimal(&mut s, h / 100);
            s.append(".");
            s.append(digit_str((h / 10 % 10) as u8));
            s.append(digit_str((h % 10) as u8));
            assert(s@ =~= self.two_decimals());
        }
        s
    }
}

/// Two to the power `k`.
fn power_of_two(k: u64) -> (p: u64)
    requires
        k <= 62,
    ensures
        p == pow2(k as nat),
{
    let mut p: u64 = 1;
    let mut i: u64 = 0;
    proof {
        lemma2_to64();
    }
    while i < k
        invariant
            i <= k,
            k <= 62,
            p == pow2(i as nat),
        decreases k - i,
    {
        proof {
            lemma_pow2_strictly_increases(i as nat, 63);
            lemma2_to64_rest();
            lemma_pow2_unfold((i + 1) as nat);
        }
        p = 2 * p;
        i = i + 1;
    }
    p
}

/// A hundred times `m`, divided by two to the power `k` and rounded half to
/// even.
fn round_scaled(m: u64, k: u64) -> (h: u64)
    requires
        m < 2 * HIDDEN_BIT,
    ensures
        h == round_half_even(100 * m as nat, pow2(k as nat)),
{
    let n: u64 = 100 * m;
    if k > 61 {
        proof {
            lemma_pow2_strictly_increases(61, k as nat);
            lemma2_to64_rest();
            lemma_basic_div(n as int, pow2(k as nat) as int);
            lemma_small_mod(n as nat, pow2(k as nat));
        }
        0
    } else {
        let d: u64 = power_of_two(k);
        proof {
            lemma_pow2_strictly_increases(k as nat, 62);
            lemma2_to64_rest();
            lemma2_to64();
        }
        let q: u64 = n / d;
        let r: u64 = n % d;
        if 2 * r > d || (2 * r == d && q % 2 == 1) {
            q + 1
        } else {
            q
        }
    }
}

} // verus!
