//! Natural numbers too large for a machine word, held as decimal digits.

use vstd::prelude::*;
use vstd::arithmetic::power2::{lemma2_to64, lemma_pow2_unfold, pow2};
use vstd::string::StringExecFns;
use crate::decimal::{decimal, digit_char, digit_str};

verus! {

/// The number that the digits `ds` stand for, least significant digit first.
spec fn digits_value(ds: Seq<u8>) -> nat
    decreases ds.len(),
{
    if ds.len() == 0 {
        0
    } else {
        ds[0] as nat + 10 * digits_value(ds.drop_first())
    }
}

/// Every element of `ds` is a decimal digit.
spec fn all_digits(ds: Seq<u8>) -> bool {
    forall|i: int| 0 <= i < ds.len() ==> #[trigger] ds[i] < 10
}

/// `ds` holds the digits of a number, least significant first, with no zero
/// in front: it is not empty, and its last digit is zero only where it is the
/// only one.
spec fn is_numeral(ds: Seq<u8>) -> bool {
    &&& all_digits(ds)
    &&& ds.len() >= 1
    &&& (ds.len() == 1 || ds.last() != 0)
}

/// The characters of `ds`, most significant digit first.
spec fn numeral_text(ds: Seq<u8>) -> Seq<char> {
    Seq::new(ds.len(), |i: int| digit_char(ds[ds.len() - 1 - i] as nat))
}

/// The digits of `n`, least significant first, with no zero in front.
spec fn digits_of(n: nat) -> Seq<u8>
    decreases n,
{
    if n < 10 {
        seq![n as u8]
    } else {
        seq![(n % 10) as u8] + digits_of(n / 10)
    }
}

/// The number that `ds` stands for once every digit from position `from` on
/// has been doubled and `carry` has been added at position `from`.
spec fn half_doubled(ds: Seq<u8>, from: nat, carry: nat) -> nat
    decreases from,
{
    if from == 0 || ds.len() == 0 {
        carry + 2 * digits_value(ds)
    } else {
        ds[0] as nat + 10 * half_doubled(ds.drop_first(), (from - 1) as nat, carry)
    }
}

/// Digits whose most significant one is not zero stand for a positive number.
proof fn lemma_leading_digit_counts(ds: Seq<u8>)
    requires
        ds.len() >= 1,
        ds.last() != 0,
    ensures
        digits_value(ds) > 0,
    decreases ds.len(),
{
    if ds.len() > 1 {
        let rest = ds.drop_first();
        assert(rest.last() == ds.last());
        lemma_leading_digit_counts(rest);
    }
}

/// The characters of a numeral are the decimal numeral of its value.
proof fn lemma_numeral_is_decimal(ds: Seq<u8>)
    requires
        is_numeral(ds),
    ensures
        numeral_text(ds) == decimal(digits_value(ds)),
    decreases ds.len(),
{
    if ds.len() == 1 {
        assert(ds.drop_first().len() == 0);
        assert(digits_value(ds.drop_first()) == 0);
        assert(digits_value(ds) == ds[0] as nat);
        assert(numeral_text(ds) =~= seq![digit_char(ds[0] as nat)]);
    } else {
        let rest = ds.drop_first();
        assert(rest.last() == ds.last());
        assert forall|i: int| 0 <= i < rest.len() implies #[trigger] rest[i] < 10 by {
            assert(rest[i] == ds[i + 1]);
        }
        lemma_leading_digit_counts(rest);
        lemma_numeral_is_decimal(rest);
        let n = digits_value(ds);
        assert(n == ds[0] as nat + 10 * digits_value(rest));
        assert(n / 10 == digits_value(rest));
        assert(n % 10 == ds[0] as nat);
        assert(numeral_text(ds) =~= numeral_text(rest).push(digit_char(ds[0] as nat))) by {
            assert forall|i: int| 0 <= i < rest.len() implies numeral_text(ds)[i] == numeral_text(
                rest,
            )[i] by {
                assert(rest[rest.len() - 1 - i] == ds[ds.len() - 1 - i]);
            }
        }
    }
}

/// `digits_of(n)` is the numeral of `n`.
proof fn lemma_digits_of(n: nat)
    ensures
        is_numeral(digits_of(n)),
        digits_value(digits_of(n)) == n,
    decreases n,
{
    let ds = digits_of(n);
    if n < 10 {
        assert(ds.drop_first().len() == 0);
        assert(digits_value(ds.drop_first()) == 0);
    } else {
        lemma_digits_of(n / 10);
        let rest = digits_of(n / 10);
        assert(ds.drop_first() =~= rest);
        assert(ds.last() == rest.last());
        assert forall|i: int| 0 <= i < ds.len() implies #[trigger] ds[i] < 10 by {
            if i > 0 {
                assert(ds[i] == rest[i - 1]);
            }
        }
        if rest.len() == 1 {
            assert(digits_value(rest.drop_first()) == 0);
        }
    }
}

/// Doubling the digit at position `from` and passing the carry on leaves the
/// number that the half-doubled digits stand for unchanged.
proof fn lemma_half_doubled_step(ds: Seq<u8>, from: nat, carry: nat)
    requires
        from < ds.len(),
        all_digits(ds),
        carry <= 1,
    ensures
        half_doubled(
            ds.update(from as int, ((2 * ds[from as int] + carry) % 10) as u8),
            from + 1,
            ((2 * ds[from as int] + carry) / 10) as nat,
        ) == half_doubled(ds, from, carry),
    decreases from,
{
    let t = 2 * ds[from as int] + carry;
    let after = ds.update(from as int, (t % 10) as u8);
    if from == 0 {
        assert(after.drop_first() =~= ds.drop_first());
        assert(half_doubled(after, 1, (t / 10) as nat) == after[0] as nat + 10 * half_doubled(
            after.drop_first(),
            0,
            (t / 10) as nat,
        ));
    } else {
        let rest = ds.drop_first();
        assert(rest[from - 1] == ds[from as int]);
        assert forall|i: int| 0 <= i < rest.len() implies #[trigger] rest[i] < 10 by {
            assert(rest[i] == ds[i + 1]);
        }
        lemma_half_doubled_step(rest, (from - 1) as nat, carry);
        assert(after.drop_first() =~= rest.update(from - 1, (t % 10) as u8));
        assert(after[0] == ds[0]);
    }
}

/// Once every digit has been doubled, the carry that is left is the next digit.
proof fn lemma_half_doubled_done(ds: Seq<u8>, carry: u8)
    ensures
        half_doubled(ds, ds.len(), carry as nat) == digits_value(ds.push(carry)),
        half_doubled(ds, ds.len(), 0) == digits_value(ds),
    decreases ds.len(),
{
    if ds.len() == 0 {
        assert(ds.push(carry).drop_first().len() == 0);
        assert(digits_value(ds.push(carry).drop_first()) == 0);
    } else {
        lemma_half_doubled_done(ds.drop_first(), carry);
        assert(ds.push(carry).drop_first() =~= ds.drop_first().push(carry));
    }
}

/// A natural number of any size.
pub struct Digits {
    /// The decimal digits, least significant first, with no zero in front.
    digits: Vec<u8>,
}

impl View for Digits {
    type V = nat;

    closed spec fn view(&self) -> nat {
        digits_value(self.digits@)
    }
}

impl Digits {
    #[verifier::type_invariant]
    spec fn well_formed(self) -> bool {
        is_numeral(self.digits@)
    }

    /// The number `n`.
    pub fn from_u64(n: u64) -> (number: Digits)
        ensures
            number@ == n,
    {
        let mut digits: Vec<u8> = Vec::new();
        let mut rest: u64 = n;
        while rest >= 10
            invariant
                digits@ + digits_of(rest as nat) == digits_of(n as nat),
            decreases rest,
        {
            let ghost before = digits@;
            digits.push((rest % 10) as u8);
            assert(digits@ + digits_of((rest / 10) as nat) =~= before + digits_of(rest as nat));
            rest = rest / 10;
        }
        let ghost before = digits@;
        digits.push(rest as u8);
        proof {
            assert(digits@ =~= before + digits_of(rest as nat));
            lemma_digits_of(n as nat);
        }
        Digits { digits }
    }

    /// Doubles the number.
    pub fn double(&mut self)
        ensures
            final(self)@ == 2 * old(self)@,
    {
        proof {
            use_type_invariant(&*self);
        }
        let n: usize = self.digits.len();
        let mut doubled: Vec<u8> = Vec::new();
        let mut carry: u8 = 0;
        let mut i: usize = 0;
        assert(doubled@ + self.digits@.skip(0) =~= self.digits@);
        while i < n
            invariant
                i <= n,
                n == self.digits.len(),
                i == doubled.len(),
                carry <= 1,
                is_numeral(self.digits@),
                all_digits(doubled@),
                half_doubled(doubled@ + self.digits@.skip(i as int), i as nat, carry as nat) == 2
                    * digits_value(self.digits@),
                i == n ==> n == 1 || doubled@.last() != 0 || carry == 1,
            decreases n - i,
        {
            let t: u8 = 2 * self.digits[i] + carry;
            proof {
                let mixed = doubled@ + self.digits@.skip(i as int);
                assert(mixed[i as int] == self.digits@[i as int]);
                assert forall|j: int| 0 <= j < mixed.len() implies #[trigger] mixed[j] < 10 by {
                    if j >= i {
                        assert(mixed[j] == self.digits@[j]);
                    }
                }
                lemma_half_doubled_step(mixed, i as nat, carry as nat);
                assert(mixed.update(i as int, (t % 10) as u8) =~= doubled@.push((t % 10) as u8)
                    + self.digits@.skip(i + 1));
            }
            doubled.push(t % 10);
            carry = t / 10;
            i = i + 1;
        }
        proof {
            assert(doubled@ + self.digits@.skip(n as int) =~= doubled@);
            lemma_half_doubled_done(doubled@, carry);
        }
        if carry > 0 {
            doubled.push(carry);
        }
        self.digits = doubled;
    }

    /// Multiplies the number by two to the power `k`.
    pub fn shift_left(&mut self, k: u64)
        ensures
            final(self)@ == old(self)@ * pow2(k as nat),
    {
        let ghost start = self@;
        let mut i: u64 = 0;
        proof {
            lemma2_to64();
        }
        while i < k
            invariant
                i <= k,
                self@ == start * pow2(i as nat),
            decreases k - i,
        {
            proof {
                lemma_pow2_unfold((i + 1) as nat);
                assert(2 * (start * pow2(i as nat)) == start * (2 * pow2(i as nat)))
                    by (nonlinear_arith);
            }
            self.double();
            i = i + 1;
        }
    }

    /// Appends the decimal numeral of the number to `out`.
    pub fn push_to(&self, out: &mut String)
        ensures
            final(out)@ == old(out)@ + decimal(self@),
    {
        proof {
            use_type_invariant(self);
            lemma_numeral_is_decimal(self.digits@);
        }
        let n: usize = self.digits.len();
        let ghost text = numeral_text(self.digits@);
        let mut i: usize = 0;
        while i < n
            invariant
                i <= n,
                n == self.digits.len(),
                all_digits(self.digits@),
                text == numeral_text(self.digits@),
                out@ == old(out)@ + text.take(i as int),
            decreases n - i,
        {
            out.append(digit_str(self.digits[n - 1 - i]));
            assert(out@ =~= old(out)@ + text.take(i + 1)) by {
                assert(text.take(i + 1) =~= text.take(i as int).push(text[i as int]));
            }
            i = i + 1;
        }
        assert(text.take(n as int) =~= text);
    }

    /// The decimal numeral of the number.
    pub fn to_decimal_string(&self) -> (s: String)
        ensures
            s@ == decimal(self@),
    {
        let mut s = String::new();
        self.push_to(&mut s);
        assert(s@ =~= decimal(self@));
        s
    }
}

} // verus!
