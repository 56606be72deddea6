//! Calendar dates (proleptic Gregorian), as the journal format writes them.
//!
//! Parsing a date from text with a `strftime`-style format is done by
//! `chrono`; the library holds the result as plain year, month and day.

use vstd::prelude::*;
use chrono::Datelike;
use crate::text::{digits, lemma_digits, lemma_digits_len, pad_zeros, pow10, u64_digits, zero_pad};

verus! {

/// The earliest and latest years a `chrono::NaiveDate` can hold.
pub open spec fn min_year() -> int {
    -262143
}

pub open spec fn max_year() -> int {
    262142
}

pub open spec fn is_leap_year(y: int) -> bool {
    (y % 4 == 0 && y % 100 != 0) || y % 400 == 0
}

pub open spec fn days_in_month(y: int, m: int) -> int {
    if m == 2 {
        if is_leap_year(y) { 29 } else { 28 }
    } else if m == 4 || m == 6 || m == 9 || m == 11 {
        30
    } else {
        31
    }
}

/// An existing calendar day within the range of `chrono::NaiveDate`.
pub open spec fn valid_ymd(y: int, m: int, d: int) -> bool {
    &&& min_year() <= y <= max_year()
    &&& 1 <= m <= 12
    &&& 1 <= d <= days_in_month(y, m)
}

/// What `chrono::NaiveDate::parse_from_str(s, fmt)` yields: the date as
/// `(year, month, day)`, or the text of the parse error.
pub uninterp spec fn chrono_parse_date(s: Seq<char>, fmt: Seq<char>) -> Result<(i32, u32, u32), Seq<char>>;

/// Calls `chrono::NaiveDate::parse_from_str`. The result, and the error's
/// `Display` text, are named by `chrono_parse_date`; a returned date is a
/// valid calendar day, since `NaiveDate` holds no other.
#[verifier::external_body]
fn chrono_parse_from_str(s: &str, fmt: &str) -> (r: Result<(i32, u32, u32), String>)
    ensures
        match r {
            Ok(t) => chrono_parse_date(s@, fmt@) == Ok::<(i32, u32, u32), Seq<char>>(t)
                && valid_ymd(t.0 as int, t.1 as int, t.2 as int),
            Err(e) => chrono_parse_date(s@, fmt@) == Err::<(i32, u32, u32), Seq<char>>(e@),
        },
{
    match chrono::NaiveDate::parse_from_str(s, fmt) {
        Ok(d) => Ok((d.year(), d.month(), d.day())),
        Err(e) => Err(e.to_string()),
    }
}

/// Two decimal digits of `n < 100`.
pub open spec fn two_digits(n: nat) -> Seq<char> {
    zero_pad(digits(n), 2)
}

/// The `%Y-%m-%d` text `chrono` displays: a year in `0..=9999` as four digits,
/// any other with an explicit sign and at least four digits.
pub open spec fn date_str(y: int, m: nat, d: nat) -> Seq<char> {
    let year = if 0 <= y <= 9999 {
        zero_pad(digits(y as nat), 4)
    } else if y < 0 {
        seq!['-'] + zero_pad(digits((-y) as nat), 4)
    } else {
        seq!['+'] + zero_pad(digits(y as nat), 4)
    };
    year + seq!['-'] + two_digits(m) + seq!['-'] + two_digits(d)
}

/// A calendar date.
#[derive(Clone, Copy, Debug, Hash, PartialEq, Eq, Structural)]
pub struct Date {
    year: i32,
    month: u32,
    day: u32,
}

impl View for Date {
    type V = (int, int, int);

    closed spec fn view(&self) -> (int, int, int) {
        (self.year as int, self.month as int, self.day as int)
    }
}

impl Date {
    #[verifier::type_invariant]
    closed spec fn wf(self) -> bool {
        valid_ymd(self.year as int, self.month as int, self.day as int)
    }

    /// The date with this year, month and day, if that day exists
    /// (`from_ymd_opt(2015, 2, 29)` is `None`).
    pub fn from_ymd_opt(year: i32, month: u32, day: u32) -> (r: Option<Date>)
        ensures
            r is Some <==> valid_ymd(year as int, month as int, day as int),
            r matches Some(d) ==> d@ == (year as int, month as int, day as int),
    {
        if year < -262143 || year > 262142 || month < 1 || month > 12 || day < 1 {
            return None;
        }
        let leap = (year % 4 == 0 && year % 100 != 0) || year % 400 == 0;
        let dim: u32 = if month == 2 {
            if leap { 29 } else { 28 }
        } else if month == 4 || month == 6 || month == 9 || month == 11 {
            30
        } else {
            31
        };
        if day > dim {
            return None;
        }
        Some(Date { year, month, day })
    }

    /// Parses `s` with the `strftime`-style format `fmt` (e.g. `"%Y-%m-%d"`),
    /// as `chrono::NaiveDate::parse_from_str` does.
    pub fn parse_from_str(s: &str, fmt: &str) -> (r: Result<Date, String>)
        ensures
            match chrono_parse_date(s@, fmt@) {
                Ok(t) => r matches Ok(d) && d@ == (t.0 as int, t.1 as int, t.2 as int),
                Err(m) => r matches Err(e) && e@ == m,
            },
    {
        match chrono_parse_from_str(s, fmt) {
            Ok((y, m, d)) => Ok(Date { year: y, month: m, day: d }),
            Err(e) => Err(e),
        }
    }

    pub fn year(&self) -> (r: i32)
        ensures
            r as int == self@.0,
    {
        self.year
    }

    pub fn month(&self) -> (r: u32)
        ensures
            r as int == self@.1,
            1 <= r <= 12,
    {
        proof {
            use_type_invariant(self);
        }
        self.month
    }

    pub fn day(&self) -> (r: u32)
        ensures
            r as int == self@.2,
            1 <= r <= 31,
    {
        proof {
            use_type_invariant(self);
        }
        self.day
    }

    /// The `YYYY-MM-DD` text.
    pub fn to_string(&self) -> (r: String)
        ensures
            r@ == date_str(self@.0, self@.1 as nat, self@.2 as nat),
    {
        proof {
            use_type_invariant(self);
        }
        let mut out: Vec<char> = Vec::new();
        let y = self.year;
        if y < 0 {
            out.push('-');
        } else if y > 9999 {
            out.push('+');
        }
        let mag: u64 = if y < 0 { (-(y as i64)) as u64 } else { y as u64 };
        let yd = pad_zeros(&u64_digits(mag), 4);
        let mut s = crate::text::string_from(&out);
        crate::text::push_chars(&mut s, &yd);
        s.push('-');
        crate::text::push_chars(&mut s, &pad_zeros(&u64_digits(self.month as u64), 2));
        s.push('-');
        crate::text::push_chars(&mut s, &pad_zeros(&u64_digits(self.day as u64), 2));
        proof {
            let year = if 0 <= y <= 9999 {
                zero_pad(digits(y as nat), 4)
            } else if y < 0 {
                seq!['-'] + zero_pad(digits((-y) as nat), 4)
            } else {
                seq!['+'] + zero_pad(digits(y as nat), 4)
            };
            assert(out@ + yd@ =~= year);
        }
        s
    }
}

/// The text of a date holds no whitespace and is not empty.
pub proof fn lemma_date_str_no_ws(y: int, m: nat, d: nat)
    ensures
        crate::text::no_ws(date_str(y, m, d)),
        date_str(y, m, d).len() > 0,
{
    let n: nat = if y < 0 { (-y) as nat } else { y as nat };
    crate::text::lemma_zero_pad_digits_no_ws(n, 4);
    crate::text::lemma_zero_pad_digits_no_ws(m, 2);
    crate::text::lemma_zero_pad_digits_no_ws(d, 2);
    let yp = zero_pad(digits(n), 4);
    let year = if 0 <= y <= 9999 {
        zero_pad(digits(y as nat), 4)
    } else if y < 0 {
        seq!['-'] + zero_pad(digits((-y) as nat), 4)
    } else {
        seq!['+'] + zero_pad(digits(y as nat), 4)
    };
    if !(0 <= y <= 9999) {
        crate::text::lemma_no_ws_concat(if y < 0 { seq!['-'] } else { seq!['+'] }, yp);
    }
    crate::text::lemma_no_ws_concat(year, seq!['-']);
    crate::text::lemma_no_ws_concat(year + seq!['-'], two_digits(m));
    crate::text::lemma_no_ws_concat(year + seq!['-'] + two_digits(m), seq!['-']);
    crate::text::lemma_no_ws_concat(year + seq!['-'] + two_digits(m) + seq!['-'], two_digits(d));
}

/// `n` padded to `w` digits, for `n < 10^w`: exactly `w` ASCII digits.
proof fn lemma_padded_digits(n: nat, w: nat)
    requires
        w >= 1,
        n < crate::text::pow10(w),
    ensures
        zero_pad(digits(n), w).len() == w,
        forall|i: int| 0 <= i < w ==> crate::text::is_digit(#[trigger] zero_pad(digits(n), w)[i]),
{
    crate::text::lemma_digits(n);
    crate::text::lemma_digits_len(n, w);
    let z = zero_pad(digits(n), w);
    assert forall|i: int| 0 <= i < w implies crate::text::is_digit(#[trigger] z[i]) by {
        if digits(n).len() < w {
            let pad = Seq::new((w - digits(n).len()) as nat, |k: int| '0');
            if i >= pad.len() {
                assert(z[i] == digits(n)[i - pad.len()]);
            }
        }
    }
}

/// A date of years `0..=9999` prints as ten ASCII characters `YYYY-MM-DD`:
/// three `-`-separated pieces of four, two and two digits.
pub proof fn lemma_date_str_shape(y: int, m: nat, d: nat)
    requires
        0 <= y <= 9999,
        1 <= m <= 12,
        1 <= d <= 31,
    ensures
        date_str(y, m, d).len() == 10,
        forall|i: int| 0 <= i < 10 ==> (#[trigger] date_str(y, m, d)[i] as u32) < 0x80,
        !date_str(y, m, d).contains(';'),
        crate::text::split_on(date_str(y, m, d), '-') == seq![zero_pad(digits(y as nat), 4), two_digits(m), two_digits(d)],
        zero_pad(digits(y as nat), 4).len() == 4,
        two_digits(m).len() == 2,
        two_digits(d).len() == 2,
        forall|i: int| 0 <= i < 4 ==> (#[trigger] zero_pad(digits(y as nat), 4)[i] as u32) < 0x80,
        forall|i: int| 0 <= i < 2 ==> (#[trigger] two_digits(m)[i] as u32) < 0x80,
        forall|i: int| 0 <= i < 2 ==> (#[trigger] two_digits(d)[i] as u32) < 0x80,
{
    reveal_with_fuel(crate::text::pow10, 5);
    lemma_padded_digits(y as nat, 4);
    lemma_padded_digits(m, 2);
    lemma_padded_digits(d, 2);
    let ys = zero_pad(digits(y as nat), 4);
    let ms = two_digits(m);
    let dd = two_digits(d);
    let s = date_str(y, m, d);
    assert(s =~= ys + seq!['-'] + ms + seq!['-'] + dd);
    assert(!ys.contains('-')) by {
        if ys.contains('-') {
            let k = choose|k: int| 0 <= k < ys.len() && ys[k] == '-';
            assert(crate::text::is_digit(ys[k]));
        }
    }
    assert(!ms.contains('-')) by {
        if ms.contains('-') {
            let k = choose|k: int| 0 <= k < ms.len() && ms[k] == '-';
            assert(crate::text::is_digit(ms[k]));
        }
    }
    assert(!dd.contains('-')) by {
        if dd.contains('-') {
            let k = choose|k: int| 0 <= k < dd.len() && dd[k] == '-';
            assert(crate::text::is_digit(dd[k]));
        }
    }
    crate::text::lemma_split_on_free(dd, '-');
    crate::text::lemma_split_on_concat(ms, dd, '-');
    assert(ms.push('-') + dd =~= ms + seq!['-'] + dd);
    crate::text::lemma_split_on_concat(ys, ms.push('-') + dd, '-');
    assert(ys.push('-') + (ms.push('-') + dd) =~= s);
    assert(seq![ys] + (seq![ms] + seq![dd]) =~= seq![ys, ms, dd]);
    assert forall|i: int| 0 <= i < 10 implies (#[trigger] s[i] as u32) < 0x80 && s[i] != ';' by {
        if i < 4 {
            assert(s[i] == ys[i]);
            assert(crate::text::is_digit(ys[i]));
        } else if 4 < i < 7 {
            assert(s[i] == ms[i - 5]);
            assert(crate::text::is_digit(ms[i - 5]));
        } else if 7 < i {
            assert(s[i] == dd[i - 8]);
            assert(crate::text::is_digit(dd[i - 8]));
        }
    }
}

} // verus!
