//! Temperature scales and the linear conversions between them.
//!
//! A temperature is an exact rational value tagged with a unit. Conversions
//! follow the usual closed forms (`F = C*9/5 + 32`, `K = C + 273.15`, and
//! Fahrenheit to or from Kelvin composed through Celsius) and are computed
//! exactly on rationals, so the round trips below are exact identities.

use vstd::prelude::*;

use crate::rational::{frac_eq, Rat};
use crate::text::{digit_of, digit_val, is_digit, trim_spec, trim_str};

verus! {

/// Why a temperature line was rejected.
#[derive(Clone, Copy, Debug, PartialEq, Eq, Structural)]
pub enum ParseError {
    /// The leading numeric substring is not a decimal number the library
    /// can hold exactly.
    NumericFormat,
    /// The trailing unit substring is non-empty and not a recognized unit.
    UnknownUnit,
}

/// Most significant digits a numeric substring may carry: every accepted
/// value is held exactly, so the digit count is capped rather than rounded.
pub const MAX_DIGITS: u64 = 12;

/// Largest numerator magnitude / denominator a conversion accepts.
pub const VALUE_BOUND: i128 = 10_000_000_000_000;

/// Bound on the components of a conversion result: a conversion scales the
/// denominator by at most 900 and the numerator by at most `230_735` times
/// the input bound.
pub const CONV_BOUND: i128 = 3_000_000_000_000_000_000;

/// One of the three recognized temperature scales.
#[derive(Clone, Copy, Debug, PartialEq, Eq, Structural)]
pub enum TempUnit {
    Celsius,
    Fahrenheit,
    Kelvin,
}

/// An exact temperature: a rational value in the given scale.
#[derive(Clone, Copy, Debug, PartialEq, Eq, Structural)]
pub struct Temperature {
    pub value: Rat,
    pub unit: TempUnit,
}

/// The Celsius equivalent of `(n, d)` in `unit`, as a fraction.
pub open spec fn spec_to_celsius(n: int, d: int, unit: TempUnit) -> (int, int) {
    match unit {
        TempUnit::Celsius => (n, d),
        TempUnit::Fahrenheit => (5 * n - 160 * d, 9 * d),
        TempUnit::Kelvin => (100 * n - 27315 * d, 100 * d),
    }
}

/// The Fahrenheit equivalent of `(n, d)` in `unit`, as a fraction.
pub open spec fn spec_to_fahrenheit(n: int, d: int, unit: TempUnit) -> (int, int) {
    match unit {
        TempUnit::Celsius => (9 * n + 160 * d, 5 * d),
        TempUnit::Fahrenheit => (n, d),
        TempUnit::Kelvin => (900 * n - 229835 * d, 500 * d),
    }
}

/// The Kelvin equivalent of `(n, d)` in `unit`, as a fraction.
pub open spec fn spec_to_kelvin(n: int, d: int, unit: TempUnit) -> (int, int) {
    match unit {
        TempUnit::Celsius => (100 * n + 27315 * d, 100 * d),
        TempUnit::Fahrenheit => (500 * n + 229835 * d, 900 * d),
        TempUnit::Kelvin => (n, d),
    }
}

impl Temperature {
    /// The value is a well-formed rational small enough to convert.
    pub open spec fn wf(self) -> bool {
        self.value.bounded(VALUE_BOUND as int)
    }

    /// Builds a temperature from an exact rational value and a unit.
    pub fn new(value: Rat, unit: TempUnit) -> (t: Temperature)
        ensures
            t.value == value,
            t.unit == unit,
    {
        Temperature { value, unit }
    }

    /// This temperature expressed in degrees Celsius.
    pub fn to_celsius(&self) -> (r: Rat)
        requires
            self.wf(),
        ensures
            r.as_frac() == spec_to_celsius(self.value.num as int, self.value.den as int, self.unit),
            r.bounded(CONV_BOUND as int),
    {
        let v = self.value;
        match self.unit {
            TempUnit::Celsius => v,
            TempUnit::Fahrenheit => Rat { num: 5 * v.num - 160 * v.den, den: 9 * v.den },
            TempUnit::Kelvin => Rat { num: 100 * v.num - 27315 * v.den, den: 100 * v.den },
        }
    }

    /// This temperature expressed in degrees Fahrenheit.
    pub fn to_fahrenheit(&self) -> (r: Rat)
        requires
            self.wf(),
        ensures
            r.as_frac() == spec_to_fahrenheit(
                self.value.num as int,
                self.value.den as int,
                self.unit,
            ),
            r.bounded(CONV_BOUND as int),
    {
        let v = self.value;
        match self.unit {
            TempUnit::Celsius => Rat { num: 9 * v.num + 160 * v.den, den: 5 * v.den },
            TempUnit::Fahrenheit => v,
            TempUnit::Kelvin => Rat { num: 900 * v.num - 229835 * v.den, den: 500 * v.den },
        }
    }

    /// This temperature expressed in kelvins.
    pub fn to_kelvin(&self) -> (r: Rat)
        requires
            self.wf(),
        ensures
            r.as_frac() == spec_to_kelvin(self.value.num as int, self.value.den as int, self.unit),
            r.bounded(CONV_BOUND as int),
    {
        let v = self.value;
        match self.unit {
            TempUnit::Celsius => Rat { num: 100 * v.num + 27315 * v.den, den: 100 * v.den },
            TempUnit::Fahrenheit => Rat { num: 500 * v.num + 229835 * v.den, den: 900 * v.den },
            TempUnit::Kelvin => v,
        }
    }
}

/// Converting a temperature to its own scale is the identity.
pub proof fn lemma_same_unit_identity(n: int, d: int)
    requires
        d > 0,
    ensures
        spec_to_celsius(n, d, TempUnit::Celsius) == (n, d),
        spec_to_fahrenheit(n, d, TempUnit::Fahrenheit) == (n, d),
        spec_to_kelvin(n, d, TempUnit::Kelvin) == (n, d),
{
}

/// Round trip through Fahrenheit: a Celsius value converted to Fahrenheit
/// and back is exactly the original rational value.
pub proof fn lemma_celsius_fahrenheit_round_trip(n: int, d: int)
    requires
        d > 0,
    ensures
        ({
            let f = spec_to_fahrenheit(n, d, TempUnit::Celsius);
            frac_eq(spec_to_celsius(f.0, f.1, TempUnit::Fahrenheit), (n, d))
        }),
{
    let f = spec_to_fahrenheit(n, d, TempUnit::Celsius);
    let c = spec_to_celsius(f.0, f.1, TempUnit::Fahrenheit);
    assert(c.0 * d == n * c.1) by (nonlinear_arith)
        requires
            c.0 == 5 * (9 * n + 160 * d) - 160 * (5 * d),
            c.1 == 9 * (5 * d),
    ;
}

/// Round trip through Kelvin: a Celsius value converted to Kelvin and back
/// is exactly the original rational value.
pub proof fn lemma_celsius_kelvin_round_trip(n: int, d: int)
    requires
        d > 0,
    ensures
        ({
            let k = spec_to_kelvin(n, d, TempUnit::Celsius);
            frac_eq(spec_to_celsius(k.0, k.1, TempUnit::Kelvin), (n, d))
        }),
{
    let k = spec_to_kelvin(n, d, TempUnit::Celsius);
    let c = spec_to_celsius(k.0, k.1, TempUnit::Kelvin);
    assert(c.0 * d == n * c.1) by (nonlinear_arith)
        requires
            c.0 == 100 * (100 * n + 27315 * d) - 27315 * (100 * d),
            c.1 == 100 * (100 * d),
    ;
}

/// A character the numeric/unit splitter counts as numeric: an ASCII digit,
/// a decimal point, or a minus sign. The splitter keeps a minus sign on the
/// numeric side wherever it occurs; the numeral grammar then rejects one
/// anywhere but the front, so an input such as `12-3F` fails as a malformed
/// number rather than parsing ambiguously.
pub open spec fn is_num_char(c: char) -> bool {
    is_digit(c) || c == '.' || c == '-'
}

/// Where the splitter cuts: the index of the first character that is not
/// numeric, or the length when every character is.
pub open spec fn split_idx(s: Seq<char>) -> int
    decreases s.len(),
{
    if s.len() == 0 {
        0
    } else if !is_num_char(s[0]) {
        0
    } else {
        1 + split_idx(s.drop_first())
    }
}

/// The numeric substring without its optional leading minus sign.
pub open spec fn dec_body(s: Seq<char>) -> Seq<char> {
    if s.len() > 0 && s[0] == '-' {
        s.subrange(1, s.len() as int)
    } else {
        s
    }
}

/// Every character is an ASCII digit or a decimal point.
pub open spec fn body_chars_ok(s: Seq<char>) -> bool {
    forall|k: int| 0 <= k < s.len() ==> is_digit(#[trigger] s[k]) || s[k] == '.'
}

/// How many decimal points `s` holds.
pub open spec fn num_dots(s: Seq<char>) -> int
    decreases s.len(),
{
    if s.len() == 0 {
        0
    } else {
        num_dots(s.drop_last()) + if s.last() == '.' {
            1int
        } else {
            0int
        }
    }
}

/// How many ASCII digits `s` holds.
pub open spec fn digits_cnt(s: Seq<char>) -> int
    decreases s.len(),
{
    if s.len() == 0 {
        0
    } else {
        digits_cnt(s.drop_last()) + if is_digit(s.last()) {
            1int
        } else {
            0int
        }
    }
}

/// The digits of `s` read in base ten with the decimal point ignored.
pub open spec fn mag_of(s: Seq<char>) -> int
    decreases s.len(),
{
    if s.len() == 0 {
        0
    } else if is_digit(s.last()) {
        mag_of(s.drop_last()) * 10 + digit_val(s.last())
    } else {
        mag_of(s.drop_last())
    }
}

/// How many digits follow the decimal point (zero when there is none).
pub open spec fn frac_len(s: Seq<char>) -> int
    decreases s.len(),
{
    if s.len() == 0 {
        0
    } else if s.last() == '.' {
        0
    } else if num_dots(s.drop_last()) > 0 {
        frac_len(s.drop_last()) + if is_digit(s.last()) {
            1int
        } else {
            0int
        }
    } else {
        0
    }
}

/// Ten to the power `n` (one for `n <= 0`).
pub open spec fn pow10(n: int) -> int
    decreases n,
{
    if n <= 0 {
        1
    } else {
        10 * pow10(n - 1)
    }
}

/// A well-formed decimal numeral: an optional leading minus sign, then
/// digits with at most one decimal point among them and at least one digit.
pub open spec fn is_valid_decimal(s: Seq<char>) -> bool {
    let b = dec_body(s);
    body_chars_ok(b) && num_dots(b) <= 1 && digits_cnt(b) >= 1
}

/// The numerator a valid decimal numeral denotes: its digits with the sign
/// applied.
pub open spec fn dec_num(s: Seq<char>) -> int {
    if s.len() > 0 && s[0] == '-' {
        -mag_of(dec_body(s))
    } else {
        mag_of(dec_body(s))
    }
}

/// The denominator a valid decimal numeral denotes: ten to the number of
/// fractional digits.
pub open spec fn dec_den(s: Seq<char>) -> int {
    pow10(frac_len(dec_body(s)))
}

/// The unit a non-empty trimmed unit substring denotes, looked up
/// case-insensitively: `c`/`C` and the degree-Celsius sign for Celsius,
/// `f`/`F` and the degree-Fahrenheit sign for Fahrenheit, `k`/`K` and the
/// Kelvin sign (whose lowercase is `k`) for Kelvin.
pub open spec fn unit_token(u: Seq<char>) -> Option<TempUnit> {
    if u.len() == 1 {
        let c = u[0];
        if c == 'c' || c == 'C' || c == '\u{2103}' {
            Some(TempUnit::Celsius)
        } else if c == 'f' || c == 'F' || c == '\u{2109}' {
            Some(TempUnit::Fahrenheit)
        } else if c == 'k' || c == 'K' || c == '\u{212A}' {
            Some(TempUnit::Kelvin)
        } else {
            None
        }
    } else {
        None
    }
}

/// What parsing a temperature line yields. The line is trimmed and split at
/// the first non-numeric character; the left part must be a valid decimal
/// numeral of at most [`MAX_DIGITS`] digits, and the trimmed right part an
/// empty string (Celsius by default) or a recognized unit token.
pub open spec fn spec_parse_temperature(s: Seq<char>) -> Result<((int, int), TempUnit), ParseError> {
    let t = trim_spec(s);
    let i = split_idx(t);
    let numpart = t.subrange(0, i);
    let unitpart = trim_spec(t.subrange(i, t.len() as int));
    if !(is_valid_decimal(numpart) && digits_cnt(dec_body(numpart)) <= MAX_DIGITS) {
        Err(ParseError::NumericFormat)
    } else if unitpart.len() == 0 {
        Ok(((dec_num(numpart), dec_den(numpart)), TempUnit::Celsius))
    } else {
        match unit_token(unitpart) {
            Some(u) => Ok(((dec_num(numpart), dec_den(numpart)), u)),
            None => Err(ParseError::UnknownUnit),
        }
    }
}

/// Powers of ten are positive and grow with the exponent.
proof fn lemma_pow10_mono(a: int, b: int)
    requires
        a <= b,
    ensures
        1 <= pow10(a) <= pow10(b),
    decreases b,
{
    if b <= 0 {
        assert(pow10(a) == 1) by {
            assert(a <= 0);
        }
    } else if a == b {
        lemma_pow10_mono(a - 1, b - 1);
    } else {
        lemma_pow10_mono(a, b - 1);
    }
}

/// A string never holds a negative number of decimal points.
proof fn lemma_num_dots_nonneg(s: Seq<char>)
    ensures
        num_dots(s) >= 0,
    decreases s.len(),
{
    if s.len() > 0 {
        lemma_num_dots_nonneg(s.drop_last());
    }
}

/// Without a decimal point there are no fractional digits.
proof fn lemma_no_dot_no_frac(s: Seq<char>)
    requires
        num_dots(s) == 0,
    ensures
        frac_len(s) == 0,
    decreases s.len(),
{
    if s.len() > 0 {
        lemma_num_dots_nonneg(s.drop_last());
        lemma_no_dot_no_frac(s.drop_last());
    }
}

/// Appending a character keeps the body well-formed exactly when the
/// character itself is a digit or a decimal point.
proof fn lemma_body_chars_push(pre: Seq<char>, c: char)
    ensures
        body_chars_ok(pre.push(c)) <==> (body_chars_ok(pre) && (is_digit(c) || c == '.')),
{
    let pre2 = pre.push(c);
    if body_chars_ok(pre) && (is_digit(c) || c == '.') {
        assert forall|k: int| 0 <= k < pre2.len() implies is_digit(#[trigger] pre2[k])
            || pre2[k] == '.' by {
            if k < pre.len() {
                assert(is_digit(pre[k]) || pre[k] == '.');
            }
        }
    }
    if body_chars_ok(pre2) {
        assert(is_digit(pre2[pre.len() as int]) || pre2[pre.len() as int] == '.');
        assert forall|k: int| 0 <= k < pre.len() implies is_digit(#[trigger] pre[k])
            || pre[k] == '.' by {
            assert(is_digit(pre2[k]) || pre2[k] == '.');
        }
    }
}

/// If everything before `i` is numeric and position `i` is not, the
/// splitter cuts exactly at `i`.
proof fn lemma_split_idx_at(s: Seq<char>, i: int)
    requires
        0 <= i <= s.len(),
        forall|k: int| 0 <= k < i ==> is_num_char(#[trigger] s[k]),
        i < s.len() ==> !is_num_char(s[i]),
    ensures
        split_idx(s) == i,
    decreases i,
{
    if i == 0 {
    } else {
        let rest = s.drop_first();
        assert(rest =~= s.subrange(1, s.len() as int));
        lemma_split_idx_at(rest, i - 1);
    }
}

/// Decides [`is_num_char`].
fn is_num_char_exec(c: char) -> (r: bool)
    ensures
        r == is_num_char(c),
{
    digit_of(c).is_some() || c == '.' || c == '-'
}

/// Parses a decimal numeral exactly: the value `dec_num(s@) / dec_den(s@)`
/// on a valid numeral of at most [`MAX_DIGITS`] digits, `None` otherwise.
#[verifier::rlimit(50)]
fn parse_decimal(s: &str) -> (r: Option<Rat>)
    ensures
        match r {
            Some(v) => {
                &&& is_valid_decimal(s@) && digits_cnt(dec_body(s@)) <= MAX_DIGITS
                &&& v.num == dec_num(s@)
                &&& v.den == dec_den(s@)
                &&& v.bounded(pow10(MAX_DIGITS as int))
            },
            None => !(is_valid_decimal(s@) && digits_cnt(dec_body(s@)) <= MAX_DIGITS),
        },
{
    proof {
        reveal_with_fuel(pow10, 13);
        assert(pow10(MAX_DIGITS as int) == 1000000000000int);
    }
    let ghost sv = s@;
    let len = s.unicode_len();
    let mut start: usize = 0;
    let mut neg: bool = false;
    if len > 0 && s.get_char(0) == '-' {
        start = 1;
        neg = true;
    }
    let ghost body = dec_body(sv);
    proof {
        assert(body =~= sv.subrange(start as int, len as int));
    }
    let mut mag: i128 = 0;
    let mut digs: u64 = 0;
    let mut dots: u64 = 0;
    let mut fd: u64 = 0;
    let mut bad: bool = false;
    let mut j: usize = start;
    while j < len
        invariant
            start <= j <= len,
            len == sv.len(),
            sv == s@,
            body == dec_body(sv),
            body == sv.subrange(start as int, len as int),
            neg <==> (sv.len() > 0 && sv[0] == '-'),
            start == (if neg { 1int } else { 0int }),
            fd <= digs <= j - start,
            dots <= j - start,
            bad <==> !body_chars_ok(body.subrange(0, j - start)),
            dots == num_dots(body.subrange(0, j - start)),
            digs == digits_cnt(body.subrange(0, j - start)),
            digs <= MAX_DIGITS ==> mag == mag_of(body.subrange(0, j - start)) && 0 <= mag
                < pow10(digs as int),
            dots == 1 ==> fd == frac_len(body.subrange(0, j - start)),
            dots == 0 ==> fd == 0,
        decreases len - j,
    {
        let c = s.get_char(j);
        let ghost pre = body.subrange(0, j - start);
        let ghost pre2 = body.subrange(0, j + 1 - start);
        proof {
            assert(body[j - start] == sv[j as int]);
            assert(pre2 =~= pre.push(c));
            assert(pre2.drop_last() =~= pre);
            assert(pre2.last() == c);
            lemma_body_chars_push(pre, c);
            if digs <= MAX_DIGITS {
                lemma_pow10_mono(digs as int, MAX_DIGITS as int);
            }
            reveal_with_fuel(pow10, 14);
        }
        match digit_of(c) {
            Some(d) => {
                if dots == 1 {
                    fd = fd + 1;
                }
                if digs < MAX_DIGITS {
                    mag = mag * 10 + d as i128;
                }
                digs = digs + 1;
            },
            None => {
                if c == '.' {
                    dots = dots + 1;
                    if dots == 1 {
                        fd = 0;
                    }
                } else {
                    bad = true;
                }
            },
        }
        j = j + 1;
    }
    proof {
        assert(body.subrange(0, len - start) =~= body);
    }
    if bad || dots > 1 || digs == 0 || digs > MAX_DIGITS {
        return None;
    }
    let mut den: i128 = 1;
    let mut k: u64 = 0;
    proof {
        if dots == 0 {
            lemma_no_dot_no_frac(body);
        }
    }
    while k < fd
        invariant
            0 <= k <= fd,
            fd <= MAX_DIGITS,
            den == pow10(k as int),
        decreases fd - k,
    {
        proof {
            lemma_pow10_mono(k as int, MAX_DIGITS as int);
            reveal_with_fuel(pow10, 13);
        }
        den = den * 10;
        k = k + 1;
    }
    let num = if neg {
        -mag
    } else {
        mag
    };
    proof {
        lemma_pow10_mono(fd as int, MAX_DIGITS as int);
        lemma_pow10_mono(digs as int, MAX_DIGITS as int);
    }
    Some(Rat { num, den })
}

impl TempUnit {
    /// Resolves a trimmed unit substring to a scale, per [`unit_token`].
    pub fn from_str(s: &str) -> (r: Result<TempUnit, ()>)
        ensures
            r == match unit_token(s@) {
                Some(u) => Ok::<TempUnit, ()>(u),
                None => Err::<TempUnit, ()>(()),
            },
    {
        if s.unicode_len() != 1 {
            return Err(());
        }
        let c = s.get_char(0);
        if c == 'c' || c == 'C' || c == '\u{2103}' {
            Ok(TempUnit::Celsius)
        } else if c == 'f' || c == 'F' || c == '\u{2109}' {
            Ok(TempUnit::Fahrenheit)
        } else if c == 'k' || c == 'K' || c == '\u{212A}' {
            Ok(TempUnit::Kelvin)
        } else {
            Err(())
        }
    }
}

impl Temperature {
    /// Parses a line as a temperature, per [`spec_parse_temperature`]: an
    /// exact decimal value, then an optional unit suffix defaulting to
    /// Celsius.
    pub fn from_str(s: &str) -> (r: Result<Temperature, ParseError>)
        ensures
            match r {
                Ok(t) => {
                    &&& spec_parse_temperature(s@) == Ok::<((int, int), TempUnit), ParseError>(
                        ((t.value.num as int, t.value.den as int), t.unit),
                    )
                    &&& t.wf()
                },
                Err(e) => spec_parse_temperature(s@) == Err::<((int, int), TempUnit), ParseError>(
                    e,
                ),
            },
    {
        let t = trim_str(s);
        let len = t.unicode_len();
        let mut i: usize = 0;
        while i < len && is_num_char_exec(t.get_char(i))
            invariant
                0 <= i <= len,
                len == t@.len(),
                forall|k: int| 0 <= k < i ==> is_num_char(#[trigger] t@[k]),
            decreases len - i,
        {
            i = i + 1;
        }
        proof {
            lemma_split_idx_at(t@, i as int);
            reveal_with_fuel(pow10, 13);
        }
        let numpart = t.substring_char(0, i);
        let unitpart = trim_str(t.substring_char(i, len));
        let value = match parse_decimal(numpart) {
            Some(v) => v,
            None => {
                return Err(ParseError::NumericFormat);
            },
        };
        if unitpart.unicode_len() == 0 {
            Ok(Temperature { value, unit: TempUnit::Celsius })
        } else {
            match TempUnit::from_str(unitpart) {
                Ok(u) => Ok(Temperature { value, unit: u }),
                Err(()) => Err(ParseError::UnknownUnit),
            }
        }
    }
}

} // verus!
