//! Exact decimal numbers.
//!
//! The source language writes every scalar as a decimal literal (an optional
//! sign, integer digits, and an optional fraction).  The generated script
//! echoes those scalars back in canonical decimal form, and the only
//! arithmetic the compiler ever performs on them is negating and halving (the
//! centering offset of a cylinder is `-h / 2`).  Halving a decimal is exact in
//! base ten, so a sign plus two digit sequences represents every value the
//! compiler handles with no rounding at all.

use vstd::prelude::*;

verus! {

/// A decimal number: a sign and base-10 digits (each `0..=9`), most
/// significant first, split at the decimal point.
pub struct Decimal {
    pub neg: bool,
    pub int_digits: Vec<u8>,
    pub frac_digits: Vec<u8>,
}

/// The mathematical view of a [`Decimal`].
pub struct DecimalS {
    pub neg: bool,
    pub int_digits: Seq<u8>,
    pub frac_digits: Seq<u8>,
}

impl View for Decimal {
    type V = DecimalS;

    open spec fn view(&self) -> DecimalS {
        DecimalS {
            neg: self.neg,
            int_digits: self.int_digits@,
            frac_digits: self.frac_digits@,
        }
    }
}

/// Every element of `ds` is a base-10 digit value.
pub open spec fn digits_wf(ds: Seq<u8>) -> bool {
    forall|i: int| 0 <= i < ds.len() ==> ds[i] <= 9
}

/// Well-formedness of a decimal: digit values only, and at least one integer
/// digit (a literal always has one, possibly `0`).
pub open spec fn dec_wf(d: DecimalS) -> bool {
    &&& digits_wf(d.int_digits)
    &&& digits_wf(d.frac_digits)
    &&& d.int_digits.len() >= 1
}

/// The integer `sign * (int_digits ++ frac_digits)` read in base 10; the
/// represented value is this divided by `10^frac_digits.len()`.
pub open spec fn digits_val(ds: Seq<u8>) -> int
    decreases ds.len(),
{
    if ds.len() == 0 {
        0
    } else {
        digits_val(ds.drop_last()) * 10 + ds.last()
    }
}

/// The value of `d`, scaled by `10^scale(d)` so that it is an integer.
pub open spec fn scaled_val(d: DecimalS) -> int {
    if d.neg {
        -digits_val(d.int_digits + d.frac_digits)
    } else {
        digits_val(d.int_digits + d.frac_digits)
    }
}

/// The number of fraction digits: `d` stands for `scaled_val(d) / 10^scale(d)`.
pub open spec fn scale(d: DecimalS) -> nat {
    d.frac_digits.len()
}

/// Long division of the digit string `ds[i..]` by two, given the remainder
/// `carry` carried in from the digits before `i`.
pub open spec fn half_digits_from(ds: Seq<u8>, carry: u8, i: int) -> Seq<u8>
    decreases ds.len() - i,
{
    if i < 0 || i >= ds.len() {
        Seq::empty()
    } else {
        let cur = carry * 10 + ds[i];
        seq![(cur / 2) as u8] + half_digits_from(ds, (cur % 2) as u8, i + 1)
    }
}

/// Half of `d`: one long division by two over the digits, with one fraction
/// digit appended so that the division is exact.
pub open spec fn spec_half(d: DecimalS) -> DecimalS {
    let ds = d.int_digits + d.frac_digits + seq![0u8];
    let out = half_digits_from(ds, 0, 0);
    DecimalS {
        neg: d.neg,
        int_digits: out.subrange(0, d.int_digits.len() as int),
        frac_digits: out.subrange(d.int_digits.len() as int, ds.len() as int),
    }
}

/// `d` with its sign flipped.
pub open spec fn spec_neg(d: DecimalS) -> DecimalS {
    DecimalS { neg: !d.neg, int_digits: d.int_digits, frac_digits: d.frac_digits }
}

/// `ds` without leading zero digits, except that a final single digit is
/// always kept.
pub open spec fn strip_lead(ds: Seq<u8>) -> Seq<u8>
    decreases ds.len(),
{
    if ds.len() > 1 && ds[0] == 0 {
        strip_lead(ds.drop_first())
    } else {
        ds
    }
}

/// `ds` without trailing zero digits.
pub open spec fn strip_trail(ds: Seq<u8>) -> Seq<u8>
    decreases ds.len(),
{
    if ds.len() > 0 && ds[ds.len() - 1] == 0 {
        strip_trail(ds.drop_last())
    } else {
        ds
    }
}

/// Digit values rendered as ASCII digit bytes.
pub open spec fn ascii_digits(ds: Seq<u8>) -> Seq<u8> {
    ds.map(|i: int, d: u8| (d + 48) as u8)
}

/// The canonical rendering of `d`: an optional `-`, the integer digits with
/// leading zeros dropped, and, when any nonzero fraction digit remains, a `.`
/// and the fraction digits with trailing zeros dropped.
pub open spec fn dec_bytes(d: DecimalS) -> Seq<u8> {
    let sign: Seq<u8> = if d.neg { seq![45u8] } else { Seq::empty() };
    let ip = ascii_digits(strip_lead(d.int_digits));
    let fp = strip_trail(d.frac_digits);
    sign + ip + if fp.len() > 0 { seq![46u8] + ascii_digits(fp) } else { Seq::empty() }
}

/// Appends the bytes of `s` to `out`.
pub fn push_bytes(out: &mut Vec<u8>, s: &[u8])
    ensures
        final(out)@ == old(out)@ + s@,
{
    let mut i: usize = 0;
    proof {
        assert(out@ =~= old(out)@ + s@.subrange(0, 0));
    }
    while i < s.len()
        invariant
            i <= s@.len(),
            out@ == old(out)@ + s@.subrange(0, i as int),
        decreases s@.len() - i,
    {
        let b = s[i];
        out.push(b);
        proof {
            assert(s@.subrange(0, i + 1) =~= s@.subrange(0, i as int).push(s@[i as int]));
        }
        i = i + 1;
    }
    proof {
        assert(s@.subrange(0, s@.len() as int) =~= s@);
    }
}

/// The decimal digits of `n`, as ASCII bytes, most significant first.
pub open spec fn nat_dec(n: nat) -> Seq<u8>
    decreases n,
{
    if n < 10 {
        seq![(48 + n) as u8]
    } else {
        nat_dec(n / 10) + seq![(48 + n % 10) as u8]
    }
}

/// Appends `n` in decimal to `out`.
pub fn push_u64(out: &mut Vec<u8>, n: u64)
    ensures
        final(out)@ == old(out)@ + nat_dec(n as nat),
    decreases n,
{
    if n < 10 {
        out.push(48 + n as u8);
        proof {
            assert(out@ =~= old(out)@ + nat_dec(n as nat));
        }
    } else {
        push_u64(out, n / 10);
        out.push(48 + (n % 10) as u8);
        proof {
            assert(out@ =~= old(out)@ + nat_dec(n as nat));
        }
    }
}

/// A copy of a digit vector.
pub fn copy_digits(v: &Vec<u8>) -> (r: Vec<u8>)
    ensures
        r@ == v@,
{
    let mut r: Vec<u8> = Vec::new();
    let mut i: usize = 0;
    while i < v.len()
        invariant
            i <= v@.len(),
            r@ == v@.subrange(0, i as int),
        decreases v@.len() - i,
    {
        r.push(v[i]);
        proof {
            assert(v@.subrange(0, i + 1) =~= v@.subrange(0, i as int).push(v@[i as int]));
        }
        i = i + 1;
    }
    proof {
        assert(v@.subrange(0, v@.len() as int) =~= v@);
    }
    r
}

/// A copy of `d`.
pub fn copy_decimal(d: &Decimal) -> (r: Decimal)
    ensures
        r@ == d@,
{
    Decimal {
        neg: d.neg,
        int_digits: copy_digits(&d.int_digits),
        frac_digits: copy_digits(&d.frac_digits),
    }
}

/// `d` with its sign flipped.
pub fn neg_of(d: &Decimal) -> (r: Decimal)
    ensures
        r@ == spec_neg(d@),
{
    Decimal {
        neg: !d.neg,
        int_digits: copy_digits(&d.int_digits),
        frac_digits: copy_digits(&d.frac_digits),
    }
}


/// Powers of ten.
pub open spec fn pow10(n: nat) -> nat
    decreases n,
{
    if n == 0 {
        1
    } else {
        10 * pow10((n - 1) as nat)
    }
}

/// The remainder that one long division by two leaves after the digits from
/// `i` on, entered with remainder `carry`.
pub open spec fn half_rem(ds: Seq<u8>, carry: u8, i: int) -> u8
    decreases ds.len() - i,
{
    if i < 0 || i >= ds.len() {
        carry
    } else {
        half_rem(ds, ((carry * 10 + ds[i]) % 2) as u8, i + 1)
    }
}

/// Reading digits is positional: a concatenation splits into a scaled prefix
/// plus the suffix.
proof fn lemma_digits_val_concat(a: Seq<u8>, b: Seq<u8>)
    ensures
        digits_val(a + b) == digits_val(a) * pow10(b.len()) + digits_val(b),
    decreases b.len(),
{
    if b.len() == 0 {
        assert(a + b =~= a);
        assert(digits_val(a) * 1 == digits_val(a)) by (nonlinear_arith);
    } else {
        lemma_digits_val_concat(a, b.drop_last());
        assert((a + b).drop_last() =~= a + b.drop_last());
        assert((a + b).last() == b.last());
        let p = pow10((b.len() - 1) as nat);
        assert(digits_val(a + b) == (digits_val(a) * p + digits_val(b.drop_last())) * 10
            + b.last());
        assert((digits_val(a) * p + digits_val(b.drop_last())) * 10 == digits_val(a) * (p * 10)
            + digits_val(b.drop_last()) * 10) by (nonlinear_arith);
        assert(pow10(b.len()) == 10 * p);
        assert(digits_val(a) * (p * 10) == digits_val(a) * pow10(b.len())) by (nonlinear_arith)
            requires
                pow10(b.len()) == 10 * p,
        ;
    }
}

/// The long division identity: twice the quotient digits plus the final
/// remainder equals the carried-in remainder scaled up plus the dividend
/// digits.
proof fn lemma_half_digits_val(ds: Seq<u8>, carry: u8, i: int)
    requires
        0 <= i <= ds.len(),
        carry <= 1,
        digits_wf(ds),
    ensures
        2 * digits_val(half_digits_from(ds, carry, i)) + half_rem(ds, carry, i) == carry * pow10(
            (ds.len() - i) as nat,
        ) + digits_val(ds.subrange(i, ds.len() as int)),
    decreases ds.len() - i,
{
    if i == ds.len() {
        assert(half_digits_from(ds, carry, i) =~= Seq::<u8>::empty());
        assert(ds.subrange(i, ds.len() as int) =~= Seq::<u8>::empty());
        assert(digits_val(Seq::<u8>::empty()) == 0);
        assert(pow10((ds.len() - i) as nat) == 1);
    } else {
        let cur = carry * 10 + ds[i];
        let q = (cur / 2) as u8;
        let c2 = ((cur % 2) as u8);
        lemma_half_digits_val(ds, c2, i + 1);
        let rest = half_digits_from(ds, c2, i + 1);
        let p = pow10((ds.len() - i - 1) as nat);
        lemma_digits_val_concat(seq![q], rest);
        lemma_half_digits_len(ds, c2, i + 1);
        assert(digits_val(seq![q]) == q) by {
            assert(seq![q].drop_last() =~= Seq::<u8>::empty());
            assert(digits_val(Seq::<u8>::empty()) == 0);
        }
        assert(half_digits_from(ds, carry, i) == seq![q] + rest);
        assert(digits_val(half_digits_from(ds, carry, i)) == q * p + digits_val(rest));
        lemma_digits_val_concat(seq![ds[i]], ds.subrange(i + 1, ds.len() as int));
        assert(seq![ds[i]] + ds.subrange(i + 1, ds.len() as int) =~= ds.subrange(
            i,
            ds.len() as int,
        ));
        assert(digits_val(seq![ds[i]]) == ds[i]) by {
            assert(seq![ds[i]].drop_last() =~= Seq::<u8>::empty());
            assert(digits_val(Seq::<u8>::empty()) == 0);
        }
        assert(digits_val(ds.subrange(i, ds.len() as int)) == ds[i] * p + digits_val(
            ds.subrange(i + 1, ds.len() as int),
        ));
        assert(pow10((ds.len() - i) as nat) == 10 * p);
        assert(2 * (q * p) + c2 * p == cur * p) by (nonlinear_arith)
            requires
                2 * (q as int) + c2 == cur,
        ;
        assert(cur * p == carry * (10 * p) + ds[i] * p) by (nonlinear_arith)
            requires
                cur == carry * 10 + ds[i],
        ;
        assert(half_rem(ds, carry, i) == half_rem(ds, c2, i + 1));
        assert(cur * p == carry * pow10((ds.len() - i) as nat) + ds[i] * p) by (nonlinear_arith)
            requires
                cur == carry * 10 + ds[i],
                pow10((ds.len() - i) as nat) == 10 * p,
        ;
        assert(2 * digits_val(half_digits_from(ds, carry, i)) == 2 * (q * p) + 2 * digits_val(
            rest,
        ));
    }
}

/// A digit string ending in `0` leaves no remainder when divided by two.
proof fn lemma_half_rem_zero(ds: Seq<u8>, carry: u8, i: int)
    requires
        0 <= i < ds.len(),
        carry <= 1,
        ds.last() == 0,
    ensures
        half_rem(ds, carry, i) == 0,
    decreases ds.len() - i,
{
    let c2 = ((carry * 10 + ds[i]) % 2) as u8;
    if i == ds.len() - 1 {
        assert((carry * 10 + 0) % 2 == 0);
        assert(half_rem(ds, c2, i + 1) == c2);
    } else {
        lemma_half_rem_zero(ds, c2, i + 1);
    }
}

/// Law: halving is exact.  The half of a decimal gains one decimal place, and
/// its scaled integer value doubled is the original's scaled value times ten:
/// no rounding ever happens.
pub proof fn lemma_half_exact(d: DecimalS)
    requires
        dec_wf(d),
    ensures
        scale(spec_half(d)) == scale(d) + 1,
        2 * scaled_val(spec_half(d)) == 10 * scaled_val(d),
{
    let ds = d.int_digits + d.frac_digits + seq![0u8];
    let out = half_digits_from(ds, 0, 0);
    lemma_half_digits_len(ds, 0, 0);
    assert(digits_wf(ds)) by {
        assert(forall|j: int|
            0 <= j < ds.len() ==> ds[j] == (d.int_digits + d.frac_digits + seq![0u8])[j]);
    }
    lemma_half_digits_val(ds, 0, 0);
    lemma_half_rem_zero(ds, 0, 0);
    assert(ds.subrange(0, ds.len() as int) =~= ds);
    assert(2 * digits_val(out) == digits_val(ds));
    lemma_digits_val_concat(d.int_digits + d.frac_digits, seq![0u8]);
    assert(digits_val(seq![0u8]) == 0) by {
        assert(seq![0u8].drop_last() =~= Seq::<u8>::empty());
        assert(digits_val(Seq::<u8>::empty()) == 0);
    }
    assert(pow10(1) == 10) by {
        assert(pow10(0) == 1);
    }
    assert(digits_val(ds) == digits_val(d.int_digits + d.frac_digits) * 10);
    let h = spec_half(d);
    assert(h.int_digits + h.frac_digits =~= out);
    assert(2 * digits_val(h.int_digits + h.frac_digits) == 10 * digits_val(
        d.int_digits + d.frac_digits,
    ));
}

proof fn lemma_half_digits_len(ds: Seq<u8>, carry: u8, i: int)
    ensures
        half_digits_from(ds, carry, i).len() == if i < 0 || i >= ds.len() {
            0int
        } else {
            ds.len() - i
        },
    decreases ds.len() - i,
{
    if 0 <= i < ds.len() {
        let cur = carry * 10 + ds[i];
        lemma_half_digits_len(ds, (cur % 2) as u8, i + 1);
    }
}

proof fn lemma_half_digits_wf(ds: Seq<u8>, carry: u8, i: int)
    requires
        digits_wf(ds),
        carry <= 1,
    ensures
        digits_wf(half_digits_from(ds, carry, i)),
    decreases ds.len() - i,
{
    if 0 <= i < ds.len() {
        let cur = carry * 10 + ds[i];
        lemma_half_digits_wf(ds, (cur % 2) as u8, i + 1);
    }
}

/// Half of `d`, computed by one exact long division of the digits by two.
pub fn half(d: &Decimal) -> (r: Decimal)
    requires
        dec_wf(d@),
    ensures
        r@ == spec_half(d@),
        dec_wf(r@),
{
    let mut ds = copy_digits(&d.int_digits);
    let mut fs = copy_digits(&d.frac_digits);
    ds.append(&mut fs);
    ds.push(0);
    let ghost all = d@.int_digits + d@.frac_digits + seq![0u8];
    proof {
        assert(ds@ =~= all);
        lemma_half_digits_len(all, 0, 0);
        lemma_half_digits_wf(all, 0, 0);
    }
    let mut out: Vec<u8> = Vec::new();
    let mut carry: u8 = 0;
    let mut i: usize = 0;
    while i < ds.len()
        invariant
            i <= ds@.len(),
            ds@ == all,
            digits_wf(all),
            carry <= 1,
            out@.len() == i,
            half_digits_from(all, 0, 0) == out@ + half_digits_from(all, carry, i as int),
        decreases ds@.len() - i,
    {
        let cur = carry * 10 + ds[i];
        out.push(cur / 2);
        carry = cur % 2;
        proof {
            assert(out@ + half_digits_from(all, carry, i + 1) =~= half_digits_from(all, 0, 0));
        }
        i = i + 1;
    }
    proof {
        assert(half_digits_from(all, 0, 0) =~= out@);
    }
    let k = d.int_digits.len();
    let mut int_digits: Vec<u8> = Vec::new();
    let mut i: usize = 0;
    while i < k
        invariant
            i <= k,
            k <= out@.len(),
            int_digits@ == out@.subrange(0, i as int),
        decreases k - i,
    {
        int_digits.push(out[i]);
        proof {
            assert(out@.subrange(0, i + 1) =~= out@.subrange(0, i as int).push(out@[i as int]));
        }
        i = i + 1;
    }
    let mut frac_digits: Vec<u8> = Vec::new();
    let mut i: usize = k;
    while i < out.len()
        invariant
            k <= i <= out@.len(),
            frac_digits@ == out@.subrange(k as int, i as int),
        decreases out@.len() - i,
    {
        frac_digits.push(out[i]);
        proof {
            assert(out@.subrange(k as int, i + 1) =~= out@.subrange(k as int, i as int).push(
                out@[i as int],
            ));
        }
        i = i + 1;
    }
    proof {
        assert(frac_digits@ =~= out@.subrange(k as int, out@.len() as int));
        lemma_half_digits_wf(all, 0, 0);
        assert(digits_wf(int_digits@));
        assert(digits_wf(frac_digits@));
    }
    Decimal { neg: d.neg, int_digits, frac_digits }
}

/// Appends the canonical rendering of `d` to `out`.
#[verifier::rlimit(30)]
pub fn push_decimal(out: &mut Vec<u8>, d: &Decimal)
    requires
        dec_wf(d@),
    ensures
        final(out)@ == old(out)@ + dec_bytes(d@),
{
    if d.neg {
        out.push(45);
    }
    // Skip leading zeros of the integer part, keeping at least one digit.
    let n = d.int_digits.len();
    let mut s: usize = 0;
    proof {
        assert(d@.int_digits.subrange(0, d@.int_digits.len() as int) =~= d@.int_digits);
    }
    while s + 1 < n && *vec_index(&d.int_digits, s) == 0
        invariant
            s < d@.int_digits.len(),
            n == d@.int_digits.len(),
            strip_lead(d@.int_digits) == strip_lead(d@.int_digits.subrange(s as int, d@.int_digits.len() as int)),
        decreases d@.int_digits.len() - s,
    {
        proof {
            let suf = d@.int_digits.subrange(s as int, d@.int_digits.len() as int);
            assert(suf.drop_first() =~= d@.int_digits.subrange(s + 1, d@.int_digits.len() as int));
        }
        s = s + 1;
    }
    proof {
        let suf = d@.int_digits.subrange(s as int, d@.int_digits.len() as int);
        assert(strip_lead(suf) == suf);
        assert(ascii_digits(suf) =~= Seq::new(suf.len(), |j: int| (suf[j] + 48) as u8));
    }
    let mut i: usize = s;
    let ghost suf = d@.int_digits.subrange(s as int, d@.int_digits.len() as int);
    while i < d.int_digits.len()
        invariant
            s <= i <= d@.int_digits.len(),
            suf == d@.int_digits.subrange(s as int, d@.int_digits.len() as int),
            digits_wf(d@.int_digits),
            out@ == old(out)@ + (if d@.neg { seq![45u8] } else { Seq::<u8>::empty() })
                + ascii_digits(suf).subrange(0, i - s),
        decreases d@.int_digits.len() - i,
    {
        let b = *vec_index(&d.int_digits, i);
        out.push(b + 48);
        proof {
            assert(ascii_digits(suf).subrange(0, i + 1 - s) =~= ascii_digits(suf).subrange(
                0,
                i - s,
            ).push((suf[i - s] + 48) as u8));
        }
        i = i + 1;
    }
    proof {
        assert(ascii_digits(suf).subrange(0, suf.len() as int) =~= ascii_digits(suf));
    }
    // Trailing zeros of the fraction are dropped; print a point only when a
    // nonzero fraction digit remains.
    let mut e: usize = d.frac_digits.len();
    proof {
        assert(d@.frac_digits.subrange(0, d@.frac_digits.len() as int) =~= d@.frac_digits);
    }
    while e > 0 && *vec_index(&d.frac_digits, e - 1) == 0
        invariant
            e <= d@.frac_digits.len(),
            strip_trail(d@.frac_digits) == strip_trail(d@.frac_digits.subrange(0, e as int)),
        decreases e,
    {
        proof {
            let pre = d@.frac_digits.subrange(0, e as int);
            assert(pre.drop_last() =~= d@.frac_digits.subrange(0, e - 1));
        }
        e = e - 1;
    }
    let ghost fp = strip_trail(d@.frac_digits);
    proof {
        let pre = d@.frac_digits.subrange(0, e as int);
        assert(strip_trail(pre) == pre);
        assert(fp == pre);
    }
    if e > 0 {
        out.push(46);
        let mut i: usize = 0;
        while i < e
            invariant
                i <= e,
                e <= d@.frac_digits.len(),
                fp == d@.frac_digits.subrange(0, e as int),
                digits_wf(d@.frac_digits),
                out@ == old(out)@ + (if d@.neg { seq![45u8] } else { Seq::<u8>::empty() })
                    + ascii_digits(strip_lead(d@.int_digits)) + seq![46u8]
                    + ascii_digits(fp).subrange(0, i as int),
            decreases e - i,
        {
            let b = *vec_index(&d.frac_digits, i);
            out.push(b + 48);
            proof {
                assert(ascii_digits(fp).subrange(0, i + 1) =~= ascii_digits(fp).subrange(
                    0,
                    i as int,
                ).push((fp[i as int] + 48) as u8));
            }
            i = i + 1;
        }
        proof {
            assert(ascii_digits(fp).subrange(0, fp.len() as int) =~= ascii_digits(fp));
            assert(out@ =~= old(out)@ + dec_bytes(d@));
        }
    } else {
        proof {
            assert(out@ =~= old(out)@ + dec_bytes(d@));
        }
    }
}

/// Borrowing index access used where `v[i]` must stay a place expression.
fn vec_index(v: &Vec<u8>, i: usize) -> (r: &u8)
    requires
        i < v@.len(),
    ensures
        *r == v@[i as int],
{
    &v[i]
}

} // verus!
