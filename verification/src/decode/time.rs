//! Timestamps with nanosecond precision, and the parser for their decimal form.
use std::time::Duration;
use std::time::SystemTime;
use vstd::prelude::*;
use vstd::string::StringSliceAdditionalSpecFns;

verus! {

/// `std::time::SystemTime`, carried through as an opaque value.
#[verifier::external_type_specification]
#[verifier::external_body]
pub struct ExSystemTime(SystemTime);

/// `Duration::new`, for a fraction below one second, where it cannot overflow.
/// Nothing is claimed of the value.
#[verifier::external_body]
fn duration_of(secs: u64, nanos: u32) -> Duration
    requires
        nanos < 1_000_000_000,
{
    Duration::new(secs, nanos)
}

/// `SystemTime::checked_add` from `UNIX_EPOCH`. Whether the sum can be
/// represented depends on the platform, so nothing is claimed of the result.
#[verifier::external_body]
fn after_epoch(elapsed: Duration) -> Option<SystemTime> {
    std::time::UNIX_EPOCH.checked_add(elapsed)
}

/// Why a timestamp could not be parsed.
#[derive(Debug, PartialEq, Eq, Clone, Copy)]
pub enum ParseError {
    /// A byte that is neither a digit nor the decimal point where one was expected.
    InvalidChar(u8),
    /// The whole seconds do not fit in 64 bits.
    Overflow,
}

/// Seconds and nanoseconds since the Unix epoch.
#[derive(PartialEq, Debug, Clone, Copy)]
pub struct FileTime(u64, u32);

impl View for FileTime {
    type V = (u64, u32);

    closed spec fn view(&self) -> (u64, u32) {
        (self.0, self.1)
    }
}

impl FileTime {
    #[verifier::type_invariant]
    spec fn sub_second(self) -> bool {
        self.1 < 1_000_000_000
    }

    /// Whole seconds since the epoch.
    #[inline]
    pub fn secs(&self) -> (r: u64)
        ensures
            r == self@.0,
    {
        self.0
    }

    /// The fraction of the second, in nanoseconds.
    #[inline]
    pub fn subsec_nanos(&self) -> (r: u32)
        ensures
            r == self@.1,
            r < 1_000_000_000,
    {
        proof {
            use_type_invariant(self);
        }
        self.1
    }

    /// The start of the given second.
    #[inline]
    pub fn from_secs(secs: u64) -> (r: Self)
        ensures
            r@ == (secs, 0u32),
    {
        FileTime(secs, 0)
    }

    /// The same instant on the system clock, or `None` where the platform's
    /// clock cannot represent it.
    #[inline]
    pub fn into_system_time(self) -> Option<SystemTime> {
        proof {
            use_type_invariant(self);
        }
        after_epoch(duration_of(self.0, self.1))
    }
}

impl From<u64> for FileTime {
    #[inline]
    fn from(secs: u64) -> (r: Self)
        ensures
            r@ == (secs, 0u32),
    {
        Self::from_secs(secs)
    }
}

impl vstd::std_specs::convert::FromSpecImpl<u64> for FileTime {
    open spec fn obeys_from_spec() -> bool {
        true
    }

    closed spec fn from_spec(secs: u64) -> Self {
        FileTime(secs, 0)
    }
}

impl std::str::FromStr for FileTime {
    type Err = ParseError;

    fn from_str(s: &str) -> (r: Result<Self, ParseError>)
        ensures
            match r {
                Ok(t) => parse_spec(s.spec_bytes()) == Ok::<(u64, u32), ParseError>(t@),
                Err(e) => parse_spec(s.spec_bytes()) == Err::<(u64, u32), ParseError>(e),
            },
    {
        parse_from(s.as_bytes())
    }
}

/// The bytes that count as blank before a timestamp: the white space of Latin-1.
pub open spec fn is_space(b: u8) -> bool {
    (9 <= b <= 13) || b == 32 || b == 0x85 || b == 0xA0
}

/// ASCII decimal digits.
pub open spec fn is_digit(b: u8) -> bool {
    48 <= b <= 57
}

/// How many bytes at the front of `s` are blank.
pub open spec fn leading_spaces(s: Seq<u8>) -> nat
    decreases s.len(),
{
    if s.len() > 0 && is_space(s[0]) {
        1 + leading_spaces(s.drop_first())
    } else {
        0
    }
}

/// How many bytes at the front of `s` are digits.
pub open spec fn leading_digits(s: Seq<u8>) -> nat
    decreases s.len(),
{
    if s.len() > 0 && is_digit(s[0]) {
        1 + leading_digits(s.drop_first())
    } else {
        0
    }
}

/// The number that a run of decimal digits denotes, most significant digit first.
pub open spec fn decimal_value(s: Seq<u8>) -> nat
    decreases s.len(),
{
    if s.len() == 0 {
        0
    } else {
        10 * decimal_value(s.drop_last()) + (s.last() - 48) as nat
    }
}

/// The first nine digits of a fraction, with zeros appended where there are fewer.
pub open spec fn nine_digits(frac: Seq<u8>) -> Seq<u8> {
    if frac.len() >= 9 {
        frac.take(9)
    } else {
        frac + Seq::new((9 - frac.len()) as nat, |i: int| 48u8)
    }
}

/// The nanoseconds that a run of fractional digits denotes: later digits are cut off.
pub open spec fn nanos_value(frac: Seq<u8>) -> nat {
    decimal_value(nine_digits(frac))
}

/// What a timestamp denotes: blanks, digits, and optionally a point and more digits.
///
/// The seconds are the first run of digits (zero if it is empty) and must fit in
/// 64 bits. Anything but a point after them is an invalid byte, and so is
/// anything but the end after the fraction's digits.
pub open spec fn parse_spec(value: Seq<u8>) -> Result<(u64, u32), ParseError> {
    let number = value.skip(leading_spaces(value) as int);
    let whole = number.take(leading_digits(number) as int);
    let rest = number.skip(leading_digits(number) as int);
    if decimal_value(whole) > u64::MAX {
        Err(ParseError::Overflow)
    } else if rest.len() == 0 {
        Ok((decimal_value(whole) as u64, 0u32))
    } else if rest[0] != 46 {
        Err(ParseError::InvalidChar(rest[0]))
    } else {
        let frac = rest.skip(1);
        if leading_digits(frac) < frac.len() {
            Err(ParseError::InvalidChar(frac[leading_digits(frac) as int]))
        } else {
            Ok((decimal_value(whole) as u64, nanos_value(frac) as u32))
        }
    }
}

/// A run of digits extended by one more digit.
pub proof fn lemma_leading_digits_step(s: Seq<u8>, i: int)
    requires
        0 <= i < s.len(),
        forall|j: int| 0 <= j < i ==> is_digit(#[trigger] s[j]),
    ensures
        is_digit(s[i]) ==> leading_digits(s) >= i + 1,
        !is_digit(s[i]) ==> leading_digits(s) == i,
    decreases i,
{
    if i > 0 {
        let t = s.drop_first();
        assert forall|j: int| 0 <= j < i - 1 implies is_digit(#[trigger] t[j]) by {
            assert(t[j] == s[j + 1]);
        }
        lemma_leading_digits_step(t, i - 1);
    } else if is_digit(s[0]) {
        assert(leading_digits(s) == 1 + leading_digits(s.drop_first()));
    }
}

/// A sequence of digits only is its own leading run.
pub proof fn lemma_leading_digits_all(s: Seq<u8>)
    requires
        forall|j: int| 0 <= j < s.len() ==> is_digit(#[trigger] s[j]),
    ensures
        leading_digits(s) == s.len(),
    decreases s.len(),
{
    if s.len() > 0 {
        let t = s.drop_first();
        assert forall|j: int| 0 <= j < t.len() implies is_digit(#[trigger] t[j]) by {
            assert(t[j] == s[j + 1]);
        }
        lemma_leading_digits_all(t);
    }
}

/// A run of blanks extended by one more byte.
pub proof fn lemma_leading_spaces_step(s: Seq<u8>, i: int)
    requires
        0 <= i <= s.len(),
        forall|j: int| 0 <= j < i ==> is_space(#[trigger] s[j]),
    ensures
        i < s.len() && is_space(s[i]) ==> leading_spaces(s) >= i + 1,
        i == s.len() || !is_space(s[i]) ==> leading_spaces(s) == i,
    decreases i,
{
    if i > 0 {
        let t = s.drop_first();
        assert forall|j: int| 0 <= j < i - 1 implies is_space(#[trigger] t[j]) by {
            assert(t[j] == s[j + 1]);
        }
        lemma_leading_spaces_step(t, i - 1);
    } else if s.len() > 0 && is_space(s[0]) {
        assert(leading_spaces(s) == 1 + leading_spaces(s.drop_first()));
    }
}

/// A longer run of digits denotes no smaller a number.
pub proof fn lemma_decimal_value_grows(s: Seq<u8>, n: int)
    requires
        0 <= n <= s.len(),
        forall|j: int| 0 <= j < s.len() ==> is_digit(#[trigger] s[j]),
    ensures
        decimal_value(s.take(n)) <= decimal_value(s),
    decreases s.len() - n,
{
    if n < s.len() {
        let t = s.drop_last();
        assert(t.take(n) =~= s.take(n));
        assert(is_digit(s[s.len() - 1]));
        assert forall|j: int| 0 <= j < t.len() implies is_digit(#[trigger] t[j]) by {
            assert(t[j] == s[j]);
        }
        lemma_decimal_value_grows(t, n);
    } else {
        assert(s.take(n) =~= s);
    }
}

/// Reads a timestamp: blanks, the seconds in decimal, and optionally a point
/// and the fraction of a second.
pub fn parse_from(value: &[u8]) -> (r: Result<FileTime, ParseError>)
    ensures
        match r {
            Ok(t) => parse_spec(value@) == Ok::<(u64, u32), ParseError>(t@),
            Err(e) => parse_spec(value@) == Err::<(u64, u32), ParseError>(e),
        },
{
    let mut i: usize = 0;
    while i < value.len() && is_space_byte(value[i])
        invariant
            i <= value.len(),
            forall|j: int| 0 <= j < i ==> is_space(#[trigger] value@[j]),
        decreases value.len() - i,
    {
        i += 1;
    }
    proof {
        lemma_leading_spaces_step(value@, i as int);
    }
    let start = i;
    let ghost number = value@.skip(start as int);
    let mut u: u64 = 0;
    while i < value.len() && is_digit_byte(value[i])
        invariant
            start <= i <= value.len(),
            start == leading_spaces(value@),
            number == value@.skip(start as int),
            forall|j: int| 0 <= j < i - start ==> is_digit(#[trigger] number[j]),
            u == decimal_value(number.take(i - start)),
        decreases value.len() - i,
    {
        let digit: u64 = (value[i] - 48) as u64;
        proof {
            let k = i - start;
            assert(number[k] == value@[i as int]);
            assert(number.take(k + 1).drop_last() =~= number.take(k));
            assert(number.take(k + 1).last() == number[k]);
            lemma_leading_digits_step(number, k);
            lemma_leading_digits_bound(number);
            let whole = number.take(leading_digits(number) as int);
            assert(whole.take(k + 1) =~= number.take(k + 1));
            assert forall|j: int| 0 <= j < whole.len() implies is_digit(#[trigger] whole[j]) by {
                lemma_leading_digits_run(number, j);
            }
            lemma_decimal_value_grows(whole, k + 1);
            assert(decimal_value(number.take(k + 1)) == 10 * u + digit);
        }
        let shifted = match u.checked_mul(10) {
            Some(v) => v,
            None => {
                return Err(ParseError::Overflow);
            },
        };
        u = match shifted.checked_add(digit) {
            Some(v) => v,
            None => {
                return Err(ParseError::Overflow);
            },
        };
        i += 1;
    }
    let ghost whole_len = i - start;
    proof {
        if i < value.len() {
            assert(number[whole_len] == value@[i as int]);
            lemma_leading_digits_step(number, whole_len);
        } else {
            assert(number.len() == whole_len);
            lemma_leading_digits_all(number);
        }
        assert(number.skip(whole_len).len() == value.len() - i);
    }
    if i == value.len() {
        return Ok(FileTime(u, 0));
    }
    assert(number.skip(whole_len)[0] == value@[i as int]);
    if value[i] != 46 {
        return Err(ParseError::InvalidChar(value[i]));
    }
    i += 1;
    let frac_start = i;
    let ghost frac = number.skip(whole_len).skip(1);
    assert(frac =~= value@.skip(frac_start as int));
    let mut d: u32 = 0;
    let mut kept: u32 = 0;
    while i < value.len() && is_digit_byte(value[i])
        invariant
            frac_start <= i <= value.len(),
            frac == value@.skip(frac_start as int),
            forall|j: int| 0 <= j < i - frac_start ==> is_digit(#[trigger] frac[j]),
            kept <= 9,
            kept == if i - frac_start < 9 { i - frac_start } else { 9 },
            d == decimal_value(frac.take(kept as int)),
            d < pow10(kept as nat),
        decreases value.len() - i,
    {
        if kept < 9 {
            proof {
                let k = kept as int;
                assert(frac[k] == value@[i as int]);
                assert(frac.take(k + 1).drop_last() =~= frac.take(k));
                assert(frac.take(k + 1).last() == frac[k]);
                lemma_pow10(kept as nat);
            }
            d = d * 10 + (value[i] - 48) as u32;
            kept += 1;
        }
        i += 1;
    }
    proof {
        let m = i - frac_start;
        if i < value.len() {
            assert(frac[m] == value@[i as int]);
            lemma_leading_digits_step(frac, m);
        } else {
            assert(frac.len() == m);
            lemma_leading_digits_all(frac);
        }
    }
    if i != value.len() {
        return Err(ParseError::InvalidChar(value[i]));
    }
    let ghost digits = frac.take(kept as int);
    let ghost mut padded = digits;
    while kept < 9
        invariant
            kept <= 9,
            digits.len() <= kept,
            padded == digits + Seq::new((kept - digits.len()) as nat, |i: int| 48u8),
            d == decimal_value(padded),
            d < pow10(kept as nat),
        decreases 9 - kept,
    {
        proof {
            lemma_pow10(kept as nat);
            let next = digits + Seq::new((kept + 1 - digits.len()) as nat, |i: int| 48u8);
            assert(next.drop_last() =~= padded);
            assert(next.last() == 48u8);
            padded = next;
        }
        d = d * 10;
        kept += 1;
    }
    proof {
        lemma_pow10(9);
        assert(padded =~= nine_digits(frac)) by {
            if frac.len() >= 9 {
                assert(digits.len() == 9);
            } else {
                assert(digits =~= frac);
            }
        }
    }
    Ok(FileTime(u, d))
}

/// Ten to the power `n`.
pub open spec fn pow10(n: nat) -> nat
    decreases n,
{
    if n == 0 {
        1
    } else {
        10 * pow10((n - 1) as nat)
    }
}

/// The powers of ten up to the billion, which bounds the nanoseconds.
pub proof fn lemma_pow10(n: nat)
    requires
        n <= 9,
    ensures
        pow10(n + 1) == 10 * pow10(n),
        pow10(n) <= 1_000_000_000,
        n < 9 ==> pow10(n) <= 100_000_000,
        n == 9 ==> pow10(n) == 1_000_000_000,
{
    reveal_with_fuel(pow10, 11);
}

/// Every byte inside the leading run of digits is a digit.
pub proof fn lemma_leading_digits_run(s: Seq<u8>, j: int)
    requires
        0 <= j < leading_digits(s),
    ensures
        leading_digits(s) <= s.len(),
        is_digit(s[j]),
    decreases j,
{
    if j > 0 {
        lemma_leading_digits_run(s.drop_first(), j - 1);
        assert(s.drop_first()[j - 1] == s[j]);
    } else {
        lemma_leading_digits_bound(s.drop_first());
    }
}

/// The leading run of digits is no longer than the sequence.
pub proof fn lemma_leading_digits_bound(s: Seq<u8>)
    ensures
        leading_digits(s) <= s.len(),
    decreases s.len(),
{
    if s.len() > 0 && is_digit(s[0]) {
        lemma_leading_digits_bound(s.drop_first());
    }
}

fn is_space_byte(b: u8) -> (r: bool)
    ensures
        r == is_space(b),
{
    (9 <= b && b <= 13) || b == 32 || b == 0x85 || b == 0xA0
}

fn is_digit_byte(b: u8) -> (r: bool)
    ensures
        r == is_digit(b),
{
    48 <= b && b <= 57
}

} // verus!
