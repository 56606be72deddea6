//! A fixed-precision decimal number stored as a scaled integer.
//!
//! `123.45` is the pair `(12345, 2)`: the amount divided by `10^precision`.
//! The abstract value of a `FixedDecimal` is that pair; two pairs denote the
//! same number when `a1 * 10^p2 == a2 * 10^p1` (`same_value`).

use vstd::prelude::*;
use crate::text::{
    chars_of, concat, digits, i64_str, int_str, lemma_all_digits_concat, lemma_digit_not_sep,
    lemma_digits, lemma_digits_len, lemma_digits_val_concat, lemma_int_str_parse,
    lemma_pow10_add, lemma_pow10_pos, lemma_split_on_concat, lemma_split_on_free,
    lemma_zero_pad, lemma_all_digits_no, pad_zeros, parse_in_range, parse_integer, pow10,
    pow10_u64, split_char, split_on, string_from, u64_digits, views, zero_pad, all_digits,
    digits_val, parse_int,
};

verus! {

/// The scaled form with trailing fractional zeros removed; zero is `(0, 0)`.
pub open spec fn normalize(a: int, p: nat) -> (int, nat)
    decreases p,
{
    if a == 0 {
        (0, 0)
    } else if p > 0 && a % 10 == 0 {
        normalize(a / 10, (p - 1) as nat)
    } else {
        (a, p)
    }
}

/// No trailing fractional zero, and zero has precision zero.
pub open spec fn is_canonical(v: (int, nat)) -> bool {
    &&& (v.0 == 0 ==> v.1 == 0)
    &&& (v.1 > 0 ==> v.0 % 10 != 0)
}

/// The two scaled pairs denote the same number.
pub open spec fn same_value(x: (int, nat), y: (int, nat)) -> bool {
    x.0 * pow10(y.1) == y.0 * pow10(x.1)
}

pub open spec fn max_nat(a: nat, b: nat) -> nat {
    if a >= b { a } else { b }
}

/// `x` scaled up to precision `m` (`m >= x.1`).
pub open spec fn aligned(x: (int, nat), m: nat) -> int {
    x.0 * pow10((m - x.1) as nat)
}

/// Exact sum at the larger of the two precisions.
pub open spec fn sum_value(x: (int, nat), y: (int, nat)) -> (int, nat) {
    let m = max_nat(x.1, y.1);
    (aligned(x, m) + aligned(y, m), m)
}

/// Exact difference at the larger of the two precisions.
pub open spec fn difference_value(x: (int, nat), y: (int, nat)) -> (int, nat) {
    let m = max_nat(x.1, y.1);
    (aligned(x, m) - aligned(y, m), m)
}

pub open spec fn in_i64(v: int) -> bool {
    i64::MIN <= v <= i64::MAX
}

/// Aligning both operands stays within `i64` (the scale factor `10^k` itself must fit).
pub open spec fn alignable(x: (int, nat), y: (int, nat)) -> bool {
    let m = max_nat(x.1, y.1);
    &&& m - x.1 <= 18
    &&& m - y.1 <= 18
    &&& in_i64(aligned(x, m))
    &&& in_i64(aligned(y, m))
}

pub open spec fn add_fits(x: (int, nat), y: (int, nat)) -> bool {
    alignable(x, y) && in_i64(sum_value(x, y).0)
}

pub open spec fn sub_fits(x: (int, nat), y: (int, nat)) -> bool {
    alignable(x, y) && in_i64(difference_value(x, y).0)
}

/// `FixedDecimal::from_str` before normalization: the text split at `.`;
/// one piece is an integer, two pieces are joined into the scaled amount and
/// the length of the fraction (taken modulo 256, as `as u8` does) is the precision.
pub open spec fn decimal_parse(s: Seq<char>) -> Option<(int, nat)> {
    let parts = split_on(s, '.');
    if parts.len() == 1 {
        match parse_in_range(parts[0], i64::MIN as int, i64::MAX as int) {
            Some(a) => Some((a, 0nat)),
            None => None,
        }
    } else if parts.len() == 2 {
        match parse_in_range(parts[0] + parts[1], i64::MIN as int, i64::MAX as int) {
            Some(a) => Some((a, (parts[1].len() % 256) as nat)),
            None => None,
        }
    } else {
        None
    }
}

pub open spec fn abs_int(a: int) -> nat {
    if a < 0 { (-a) as nat } else { a as nat }
}

/// The `Display` text: the integer part (truncated toward zero, so a value
/// strictly between -1 and 0 loses its sign), a point, and the fraction
/// zero-padded to the precision.
pub open spec fn decimal_str(v: (int, nat)) -> Seq<char> {
    if v.1 == 0 {
        int_str(v.0)
    } else {
        let mag = abs_int(v.0);
        let q = mag / pow10(v.1);
        let r = mag % pow10(v.1);
        let int_part = if v.0 < 0 { -(q as int) } else { q as int };
        int_str(int_part) + seq!['.'] + zero_pad(digits(r), v.1)
    }
}

/// The number of decimal places a quotient is computed to.
pub open spec fn quotient_places() -> nat {
    6
}

/// `n / d` rounded to the nearest integer, halves away from zero (`d != 0`).
pub open spec fn round_half_away(n: int, d: int) -> int {
    let q = abs_int(n) / abs_int(d);
    let m: int = if 2 * (abs_int(n) % abs_int(d)) >= abs_int(d) { q as int + 1 } else { q as int };
    if (n < 0) == (d < 0) { m } else { -m }
}

/// The quotient `a / b` scaled by `10^quotient_places()` and rounded.
pub open spec fn quotient_scaled(a: (int, nat), b: (int, nat)) -> int {
    round_half_away(a.0 * pow10(b.1 + quotient_places()), b.0 * pow10(a.1))
}

/// The quotient `a / b` to `quotient_places()` decimal places, rounded halves
/// away from zero and reduced; `None` for a zero divisor, for precisions
/// beyond what the computation scales (above 18 for `a`, above 12 for `b`)
/// and for a quotient whose scaled amount leaves `i64`.
pub open spec fn decimal_quotient(a: (int, nat), b: (int, nat)) -> Option<(int, nat)> {
    if b.0 == 0 || a.1 > 18 || b.1 > 12 || !in_i64(quotient_scaled(a, b)) {
        None
    } else {
        Some(normalize(quotient_scaled(a, b), quotient_places()))
    }
}

/// Inputs on which `Display` does not overflow (`10^precision` and `|amount|` fit an `i64`).
pub open spec fn displayable(v: (int, nat)) -> bool {
    v.1 == 0 || (v.1 <= 18 && v.0 != i64::MIN as int)
}

pub open spec fn invalid_decimal_msg(s: Seq<char>) -> Seq<char> {
    "Invalid decimal format: '"@ + s + "'."@
}

/// The scaled amount and precision written in `s` (see `decimal_parse`), not reduced.
pub fn parse_decimal_raw(cs: &[char]) -> (r: Option<(i64, u8)>)
    ensures
        match r {
            Some(v) => decimal_parse(cs@) == Some((v.0 as int, v.1 as nat)),
            None => decimal_parse(cs@) is None,
        },
{
    let parts = split_char(cs, '.');
    proof {
        assert(views(parts@).len() == parts@.len());
    }
    if parts.len() == 1 {
        assert(views(parts@)[0] == parts@[0]@);
        match parse_integer(&parts[0], i64::MIN, i64::MAX) {
            Some(a) => return Some((a, 0)),
            None => {},
        }
    } else if parts.len() == 2 {
        assert(views(parts@)[0] == parts@[0]@);
        assert(views(parts@)[1] == parts@[1]@);
        let precision = (parts[1].len() % 256) as u8;
        let joined = concat(&parts[0], &parts[1]);
        match parse_integer(&joined, i64::MIN, i64::MAX) {
            Some(a) => return Some((a, precision)),
            None => {},
        }
    }
    None
}

/// The text of `amount / 10^precision` with exactly `precision` fractional
/// digits, the integer part truncated towards zero (see `decimal_str`).
pub fn decimal_text(amount: i64, precision: u8) -> (r: String)
    requires
        displayable((amount as int, precision as nat)),
    ensures
        r@ == decimal_str((amount as int, precision as nat)),
{
    if precision == 0 {
        return string_from(&i64_str(amount));
    }
    let pw = pow10_u64(precision);
    proof {
        lemma_pow10_pos(precision as nat);
    }
    let mag: u64 = if amount < 0 { (-amount) as u64 } else { amount as u64 };
    let q = mag / pw;
    let rem = mag % pw;
    let int_part: i64 = if amount < 0 { -(q as i64) } else { q as i64 };
    let mut out = i64_str(int_part);
    out.push('.');
    let frac = pad_zeros(&u64_digits(rem), precision as usize);
    let all = concat(&out, &frac);
    string_from(&all)
}

/// A fixed-precision decimal: `amount / 10^precision`.
#[derive(Clone, Copy, Debug, Hash)]
pub struct FixedDecimal {
    amount: i64,
    precision: u8,
}

impl View for FixedDecimal {
    type V = (int, nat);

    closed spec fn view(&self) -> (int, nat) {
        (self.amount as int, self.precision as nat)
    }
}

pub proof fn lemma_same_value_trans(x: (int, nat), y: (int, nat), z: (int, nat))
    requires
        same_value(x, y),
        same_value(y, z),
    ensures
        same_value(x, z),
{
    let px = pow10(x.1);
    let py = pow10(y.1);
    let pz = pow10(z.1);
    lemma_pow10_pos(y.1);
    assert((x.0 * pz) * py == (z.0 * px) * py) by (nonlinear_arith)
        requires
            x.0 * py == y.0 * px,
            y.0 * pz == z.0 * py,
    ;
    assert(x.0 * pz == z.0 * px) by (nonlinear_arith)
        requires
            (x.0 * pz) * py == (z.0 * px) * py,
            py >= 1,
    ;
}

pub proof fn lemma_normalize(a: int, p: nat)
    ensures
        is_canonical(normalize(a, p)),
        same_value(normalize(a, p), (a, p)),
        normalize(a, p).1 <= p,
        abs_int(normalize(a, p).0) <= abs_int(a),
    decreases p,
{
    if a == 0 {
        assert(0 * pow10(p) == 0);
        assert(0 * pow10(0) == 0);
    } else if p > 0 && a % 10 == 0 {
        lemma_normalize(a / 10, (p - 1) as nat);
        let n = normalize(a / 10, (p - 1) as nat);
        assert(pow10(p) == 10 * pow10((p - 1) as nat));
        assert((a / 10) * pow10(p) == a * pow10((p - 1) as nat)) by (nonlinear_arith)
            requires
                a % 10 == 0,
                pow10(p) == 10 * pow10((p - 1) as nat),
        ;
        lemma_same_value_trans(n, (a / 10, (p - 1) as nat), (a, p));
        assert(abs_int(a / 10) <= abs_int(a)) by (nonlinear_arith)
            requires a % 10 == 0;
    }
}

pub proof fn lemma_canonical_unique(x: (int, nat), y: (int, nat))
    requires
        is_canonical(x),
        is_canonical(y),
        same_value(x, y),
    ensures
        x == y,
{
    if x.1 <= y.1 {
        lemma_canonical_unique_ordered(x, y);
    } else {
        lemma_canonical_unique_ordered(y, x);
    }
}

proof fn lemma_canonical_unique_ordered(x: (int, nat), y: (int, nat))
    requires
        is_canonical(x),
        is_canonical(y),
        same_value(x, y),
        x.1 <= y.1,
    ensures
        x == y,
{
    let d = (y.1 - x.1) as nat;
    lemma_pow10_add(x.1, d);
    assert(x.1 + d == y.1);
    let px = pow10(x.1);
    let pd = pow10(d);
    lemma_pow10_pos(x.1);
    assert(x.0 * pd == y.0) by (nonlinear_arith)
        requires
            x.0 * (px * pd) == y.0 * px,
            px >= 1,
    ;
    if d > 0 {
        assert(pd == 10 * pow10((d - 1) as nat));
        let k = pow10((d - 1) as nat);
        assert(y.0 == (x.0 * k) * 10) by (nonlinear_arith)
            requires
                y.0 == x.0 * pd,
                pd == 10 * k,
        ;
        vstd::arithmetic::div_mod::lemma_mod_multiples_basic(x.0 * k, 10);
        assert(false);
    } else {
        assert(pd == 1);
        assert(x.0 * 1 == x.0);
        assert(x.0 == y.0 && x.1 == y.1);
    }
}

/// Canonical forms decide numeric equality.
pub proof fn lemma_same_value_iff_normal_forms(x: (int, nat), y: (int, nat))
    ensures
        same_value(x, y) <==> normalize(x.0, x.1) == normalize(y.0, y.1),
{
    lemma_normalize(x.0, x.1);
    lemma_normalize(y.0, y.1);
    let nx = normalize(x.0, x.1);
    let ny = normalize(y.0, y.1);
    // same_value is symmetric
    assert(same_value(x, nx));
    if same_value(x, y) {
        lemma_same_value_trans(nx, x, y);
        lemma_same_value_trans(nx, y, ny);
        lemma_canonical_unique(nx, ny);
    }
    if nx == ny {
        lemma_same_value_trans(x, nx, y);
    }
}

impl FixedDecimal {
    /// Builds a `FixedDecimal` and reduces it to its canonical form: trailing
    /// fractional zeros are removed (`new(140, 2)` is `(14, 1)`) and zero is `(0, 0)`.
    pub fn new(amount: i64, precision: u8) -> (r: Self)
        ensures
            r@ == normalize(amount as int, precision as nat),
    {
        if amount == 0 {
            return FixedDecimal { amount: 0, precision: 0 };
        }
        let mut a = amount;
        let mut p = precision;
        while p > 0 && a % 10 == 0
            invariant
                a != 0,
                normalize(a as int, p as nat) == normalize(amount as int, precision as nat),
            decreases p,
        {
            a = a / 10;
            p = p - 1;
        }
        FixedDecimal { amount: a, precision: p }
    }

    /// The raw scaled integer; the value is `raw_amount() / 10^precision()`.
    pub fn raw_amount(&self) -> (r: i64)
        ensures
            r as int == self@.0,
    {
        self.amount
    }

    /// The number of decimal places of the scaled representation.
    pub fn precision(&self) -> (r: u8)
        ensures
            r as nat == self@.1,
    {
        self.precision
    }

    /// Parses a bare number such as `"123.45"` or `"-10"` and reduces it to its
    /// canonical form (`"1.40"` gives `(14, 1)`).
    ///
    /// Errors when the text has more than one decimal point or is not a
    /// (signed) run of digits that fits an `i64` once the point is removed.
    pub fn from_str(s: &str) -> (r: Result<Self, String>)
        ensures
            match r {
                Ok(fd) => decimal_parse(s@) matches Some(v) && fd@ == normalize(v.0, v.1),
                Err(e) => decimal_parse(s@) is None && e@ == invalid_decimal_msg(s@),
            },
    {
        let cs = chars_of(s);
        match parse_decimal_raw(&cs) {
            Some((a, p)) => return Ok(FixedDecimal::new(a, p)),
            None => {},
        }
        let mut e = "Invalid decimal format: '".to_owned();
        e.append(s);
        e.append("'.");
        Err(e)
    }

    /// Both amounts scaled to the larger precision, and that precision.
    fn align_precision(&self, other: &Self) -> (r: (i64, i64, u8))
        requires
            alignable(self@, other@),
        ensures
            r.0 as int == aligned(self@, max_nat(self@.1, other@.1)),
            r.1 as int == aligned(other@, max_nat(self@.1, other@.1)),
            r.2 as nat == max_nat(self@.1, other@.1),
    {
        let m: u8 = if self.precision >= other.precision { self.precision } else { other.precision };
        let f1 = pow10_u64(m - self.precision);
        let f2 = pow10_u64(m - other.precision);
        let a1 = self.amount * (f1 as i64);
        let a2 = other.amount * (f2 as i64);
        (a1, a2, m)
    }

    /// The exact sum, at the larger of the two precisions (not reduced).
    pub fn add(&self, other: &Self) -> (r: Self)
        requires
            add_fits(self@, other@),
        ensures
            r@ == sum_value(self@, other@),
    {
        let (a1, a2, m) = self.align_precision(other);
        FixedDecimal { amount: a1 + a2, precision: m }
    }

    /// Whether `add` can be applied: aligning both operands to the larger
    /// precision and summing them stays within `i64` (see `add_fits`).
    pub fn add_fits_check(&self, other: &Self) -> (r: bool)
        ensures
            r == add_fits(self@, other@),
    {
        let m = if self.precision >= other.precision { self.precision } else { other.precision };
        let d1 = m - self.precision;
        let d2 = m - other.precision;
        if d1 > 18 || d2 > 18 {
            return false;
        }
        let s1 = pow10_u64(d1);
        let s2 = pow10_u64(d2);
        let a = self.amount;
        let b = other.amount;
        proof {
            lemma_pow10_pos(d1 as nat);
            lemma_pow10_pos(d2 as nat);
            assert(a * s1 <= 0x7fff_ffff_ffff_ffff * 1_000_000_000_000_000_000) by (nonlinear_arith)
                requires
                    a <= 0x7fff_ffff_ffff_ffff,
                    1 <= s1 <= 1_000_000_000_000_000_000;
            assert(-0x8000_0000_0000_0000 * 1_000_000_000_000_000_000 <= a * s1) by (nonlinear_arith)
                requires
                    -0x8000_0000_0000_0000 <= a,
                    1 <= s1 <= 1_000_000_000_000_000_000;
            assert(b * s2 <= 0x7fff_ffff_ffff_ffff * 1_000_000_000_000_000_000) by (nonlinear_arith)
                requires
                    b <= 0x7fff_ffff_ffff_ffff,
                    1 <= s2 <= 1_000_000_000_000_000_000;
            assert(-0x8000_0000_0000_0000 * 1_000_000_000_000_000_000 <= b * s2) by (nonlinear_arith)
                requires
                    -0x8000_0000_0000_0000 <= b,
                    1 <= s2 <= 1_000_000_000_000_000_000;
        }
        let x: i128 = (a as i128) * (s1 as i128);
        let y: i128 = (b as i128) * (s2 as i128);
        assert(x as int == aligned(self@, max_nat(self@.1, other@.1)));
        assert(y as int == aligned(other@, max_nat(self@.1, other@.1)));
        let lo: i128 = -0x8000_0000_0000_0000;
        let hi: i128 = 0x7fff_ffff_ffff_ffff;
        lo <= x && x <= hi && lo <= y && y <= hi && lo <= x + y && x + y <= hi
    }

    /// The exact difference, at the larger of the two precisions (not reduced).
    pub fn sub(&self, other: &Self) -> (r: Self)
        requires
            sub_fits(self@, other@),
        ensures
            r@ == difference_value(self@, other@),
    {
        let (a1, a2, m) = self.align_precision(other);
        FixedDecimal { amount: a1 - a2, precision: m }
    }

    /// `self += other`.
    pub fn add_assign(&mut self, other: &Self)
        requires
            add_fits(old(self)@, other@),
        ensures
            final(self)@ == sum_value(old(self)@, other@),
    {
        *self = self.add(other);
    }

    /// `self -= other`.
    pub fn sub_assign(&mut self, other: &Self)
        requires
            sub_fits(old(self)@, other@),
        ensures
            final(self)@ == difference_value(old(self)@, other@),
    {
        *self = self.sub(other);
    }

    /// The quotient `self / other` (see `decimal_quotient`): six decimal
    /// places, rounded halves away from zero, reduced.
    pub fn checked_div(&self, other: &Self) -> (r: Option<Self>)
        ensures
            match decimal_quotient(self@, other@) {
                Some(v) => r matches Some(q) && q@ == v,
                None => r is None,
            },
    {
        let pa = self.precision;
        let pb = other.precision;
        if other.amount == 0 || pa > 18 || pb > 12 {
            return None;
        }
        let sa = pow10_u64(pb + 6);
        let sb = pow10_u64(pa);
        let a = self.amount;
        let b = other.amount;
        proof {
            lemma_pow10_pos((pb + 6) as nat);
            lemma_pow10_pos(pa as nat);
            assert(a * sa <= 0x7fff_ffff_ffff_ffff * 1_000_000_000_000_000_000) by (nonlinear_arith)
                requires
                    -0x8000_0000_0000_0000 <= a <= 0x7fff_ffff_ffff_ffff,
                    1 <= sa <= 1_000_000_000_000_000_000;
            assert(-0x8000_0000_0000_0000 * 1_000_000_000_000_000_000 <= a * sa) by (nonlinear_arith)
                requires
                    -0x8000_0000_0000_0000 <= a,
                    1 <= sa <= 1_000_000_000_000_000_000;
            assert(-0x8000_0000_0000_0000 * 1_000_000_000_000_000_000 <= b * sb <= 0x7fff_ffff_ffff_ffff * 1_000_000_000_000_000_000) by (nonlinear_arith)
                requires
                    -0x8000_0000_0000_0000 <= b <= 0x7fff_ffff_ffff_ffff,
                    1 <= sb <= 1_000_000_000_000_000_000;
        }
        let n: i128 = (a as i128) * (sa as i128);
        let d: i128 = (b as i128) * (sb as i128);
        proof {
            assert(d != 0) by (nonlinear_arith)
                requires
                    b != 0,
                    sb >= 1,
                    d == b * sb;
            assert((n < 0) == (a < 0) && (d < 0) == (b < 0)) by (nonlinear_arith)
                requires
                    sa >= 1,
                    sb >= 1,
                    n == a * sa,
                    d == b * sb;
        }
        let nm: u128 = if n < 0 { (-n) as u128 } else { n as u128 };
        let dm: u128 = if d < 0 { (-d) as u128 } else { d as u128 };
        let q = nm / dm;
        let rem = nm % dm;
        let m: u128 = if 2 * rem >= dm { q + 1 } else { q };
        assert(n as int == self@.0 * pow10(other@.1 + quotient_places()));
        assert(d as int == other@.0 * pow10(self@.1));
        assert(nm as int == abs_int(n as int) && dm as int == abs_int(d as int));
        if (n < 0) == (d < 0) {
            if m > 0x7fff_ffff_ffff_ffffu128 {
                return None;
            }
            Some(FixedDecimal::new(m as i64, 6))
        } else {
            if m > 0x8000_0000_0000_0000u128 {
                return None;
            }
            let neg: i128 = -(m as i128);
            Some(FixedDecimal::new(neg as i64, 6))
        }
    }

    /// The negation: the amount's sign flipped, the precision kept.
    pub fn neg(&self) -> (r: Self)
        requires
            self@.0 != i64::MIN as int,
        ensures
            r@ == (-self@.0, self@.1),
    {
        FixedDecimal { amount: -self.amount, precision: self.precision }
    }

    /// Whether the two decimals denote the same number (`1.4` equals `1.40`).
    pub fn same_value_as(&self, other: &Self) -> (r: bool)
        ensures
            r == same_value(self@, other@),
    {
        let a = FixedDecimal::new(self.amount, self.precision);
        let b = FixedDecimal::new(other.amount, other.precision);
        proof {
            lemma_same_value_iff_normal_forms(self@, other@);
        }
        a.amount == b.amount && a.precision == b.precision
    }

    /// The `Display` text, e.g. `"123.45"`, `"-10"`, `"1.4"`.
    pub fn to_string(&self) -> (r: String)
        requires
            displayable(self@),
        ensures
            r@ == decimal_str(self@),
    {
        decimal_text(self.amount, self.precision)
    }
}

/// `new` always yields the canonical form, and it denotes the number it was given.
pub proof fn law_new_is_canonical(amount: i64, precision: u8)
    ensures
        is_canonical(normalize(amount as int, precision as nat)),
        same_value(normalize(amount as int, precision as nat), (amount as int, precision as nat)),
{
    lemma_normalize(amount as int, precision as nat);
}

/// Equality of decimals is an equivalence relation, and two decimals are equal
/// exactly when their canonical forms coincide.
pub proof fn law_equality(x: FixedDecimal, y: FixedDecimal, z: FixedDecimal)
    ensures
        same_value(x@, x@),
        same_value(x@, y@) == same_value(y@, x@),
        same_value(x@, y@) && same_value(y@, z@) ==> same_value(x@, z@),
        same_value(x@, y@) <==> normalize(x@.0, x@.1) == normalize(y@.0, y@.1),
{
    if same_value(x@, y@) && same_value(y@, z@) {
        lemma_same_value_trans(x@, y@, z@);
    }
    lemma_same_value_iff_normal_forms(x@, y@);
}

/// Addition does not depend on the order of its operands.
pub proof fn law_add_commutative(x: FixedDecimal, y: FixedDecimal)
    ensures
        add_fits(x@, y@) == add_fits(y@, x@),
        sum_value(x@, y@) == sum_value(y@, x@),
{
}

/// Subtracting what was added gives back the same number.
pub proof fn law_add_then_sub(x: FixedDecimal, y: FixedDecimal)
    requires
        add_fits(x@, y@),
        sub_fits(sum_value(x@, y@), y@),
    ensures
        same_value(difference_value(sum_value(x@, y@), y@), x@),
{
    let m = max_nat(x@.1, y@.1);
    let d = (m - x@.1) as nat;
    lemma_pow10_add(d, x@.1);
    assert(d + x@.1 == m);
    assert(pow10(0) == 1);
    assert(aligned(sum_value(x@, y@), m) == sum_value(x@, y@).0) by {
        assert((m - m) as nat == 0);
        assert(sum_value(x@, y@).0 * 1 == sum_value(x@, y@).0);
    }
    let r = difference_value(sum_value(x@, y@), y@);
    assert(r.0 == x@.0 * pow10(d));
    assert(r.1 == m);
    assert((x@.0 * pow10(d)) * pow10(x@.1) == x@.0 * (pow10(d) * pow10(x@.1))) by (nonlinear_arith);
}

/// A number plus its negation is zero.
pub proof fn law_add_negation(x: FixedDecimal)
    requires
        x@.0 != i64::MIN as int,
    ensures
        add_fits(x@, (-x@.0, x@.1)),
        sum_value(x@, (-x@.0, x@.1)).0 == 0,
{
    assert(pow10(0) == 1);
    assert(x@.0 * 1 == x@.0);
    assert((-x@.0) * 1 == -x@.0);
}

/// Parsing the displayed text of a decimal gives back the decimal (in canonical
/// form). The one exception is a negative value above -1 with a fractional part,
/// whose text loses the sign (`-0.5` is shown as `0.5`).
pub proof fn law_display_then_parse(x: FixedDecimal)
    requires
        displayable(x@),
        !(x@.1 > 0 && x@.0 < 0 && abs_int(x@.0) < pow10(x@.1)),
    ensures
        decimal_parse(decimal_str(x@)) == Some(x@),
{
    lemma_decimal_str_parse(x@);
}

/// `law_display_then_parse` for any scaled pair that a decimal can hold.
pub proof fn lemma_decimal_str_parse(v: (int, nat))
    requires
        displayable(v),
        in_i64(v.0),
        v.1 < 256,
        !(v.1 > 0 && v.0 < 0 && abs_int(v.0) < pow10(v.1)),
    ensures
        decimal_parse(decimal_str(v)) == Some(v),
{
    let a = v.0;
    let p = v.1;
    let s = decimal_str(v);
    if p == 0 {
        lemma_int_str_parse(a);
        lemma_split_on_free(int_str(a), '.');
    } else {
        let mag = abs_int(a);
        let pw = pow10(p);
        lemma_pow10_pos(p);
        let q = mag / pw;
        let r = mag % pw;
        let ip = if a < 0 { -(q as int) } else { q as int };
        let s1 = int_str(ip);
        lemma_digits(r);
        lemma_digits_len(r, p);
        let pad = zero_pad(digits(r), p);
        lemma_zero_pad(digits(r), p);
        assert(pad.len() == p);
        lemma_int_str_parse(ip);
        lemma_all_digits_no(pad, '.');
        assert(s =~= s1.push('.') + pad);
        lemma_split_on_concat(s1, pad, '.');
        lemma_split_on_free(pad, '.');
        let parts = split_on(s, '.');
        assert(parts =~= seq![s1, pad]);
        lemma_digits(q);
        lemma_all_digits_concat(digits(q), pad);
        lemma_digits_val_concat(digits(q), pad);
        assert(q * pw + r == mag) by (nonlinear_arith)
            requires
                pw >= 1,
                q == mag / pw,
                r == mag % pw,
        ;
        let body = digits(q) + pad;
        assert(digits_val(body) == mag);
        if a < 0 {
            assert(q >= 1) by (nonlinear_arith)
                requires
                    mag >= pw,
                    pw >= 1,
                    q == mag / pw,
            ;
            assert(s1 =~= seq!['-'] + digits(q));
            assert(s1 + pad =~= seq!['-'] + body);
            assert((seq!['-'] + body).drop_first() =~= body);
            assert((seq!['-'] + body)[0] == '-');
            assert(parse_int(s1 + pad) == Some(a));
        } else {
            assert(s1 == digits(q));
            lemma_digit_not_sep(body[0]);
            assert(parse_int(s1 + pad) == Some(a));
        }
        assert(p % 256 == p);
    }
}

impl PartialEq for FixedDecimal {
    fn eq(&self, other: &Self) -> (r: bool) {
        self.same_value_as(other)
    }
}

impl vstd::std_specs::cmp::PartialEqSpecImpl for FixedDecimal {
    open spec fn obeys_eq_spec() -> bool {
        true
    }

    open spec fn eq_spec(&self, other: &Self) -> bool {
        same_value(self@, other@)
    }
}

/// The text of a decimal holds no whitespace and no `;`, and is not empty.
pub proof fn lemma_decimal_str_no_ws(v: (int, nat))
    ensures
        crate::text::no_ws(decimal_str(v)),
        !decimal_str(v).contains(';'),
        decimal_str(v).len() > 0,
{
    let s = decimal_str(v);
    if v.1 == 0 {
        lemma_int_str_no_ws(v.0);
    } else {
        let mag = abs_int(v.0);
        let q = mag / pow10(v.1);
        let r = mag % pow10(v.1);
        let int_part = if v.0 < 0 { -(q as int) } else { q as int };
        lemma_int_str_no_ws(int_part);
        crate::text::lemma_digits(r);
        let z = zero_pad(digits(r), v.1);
        assert forall|k: int| 0 <= k < z.len() implies !crate::text::is_ws(#[trigger] z[k]) && z[k] != ';' by {
            if digits(r).len() < v.1 {
                let pad = Seq::new((v.1 - digits(r).len()) as nat, |i: int| '0');
                if k >= pad.len() {
                    assert(z[k] == digits(r)[k - pad.len()]);
                    assert(crate::text::is_digit(digits(r)[k - pad.len()]));
                }
            } else {
                assert(crate::text::is_digit(digits(r)[k]));
            }
        }
        let a = int_str(int_part);
        assert(s == a + seq!['.'] + z);
        assert forall|k: int| 0 <= k < s.len() implies !crate::text::is_ws(#[trigger] s[k]) && s[k] != ';' by {
            if k < a.len() {
                assert(s[k] == a[k]);
            } else if k == a.len() {
                assert(s[k] == '.');
            } else {
                assert(s[k] == z[k - a.len() - 1]);
            }
        }
    }
}

proof fn lemma_int_str_no_ws(i: int)
    ensures
        crate::text::no_ws(int_str(i)),
        forall|k: int| 0 <= k < int_str(i).len() ==> #[trigger] int_str(i)[k] != ';',
        int_str(i).len() > 0,
{
    let n = if i < 0 { (-i) as nat } else { i as nat };
    crate::text::lemma_digits(n);
    let d = digits(n);
    assert forall|k: int| 0 <= k < int_str(i).len() implies !crate::text::is_ws(#[trigger] int_str(i)[k]) && int_str(i)[k] != ';' by {
        if i < 0 {
            if k > 0 {
                assert(int_str(i)[k] == d[k - 1]);
                assert(crate::text::is_digit(d[k - 1]));
            }
        } else {
            assert(crate::text::is_digit(d[k]));
        }
    }
}

/// A decimal's amount is an `i64` and its precision a `u8`.
pub proof fn lemma_view_bounds(x: FixedDecimal)
    ensures
        in_i64(x@.0),
        x@.1 < 256,
{
}

} // verus!
