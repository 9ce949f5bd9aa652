//! The guessing-game engine: a bounded decimal parser, the three-way
//! comparison oracle, and the game's state machine.
//!
//! A guess is accepted when, after trimming whitespace, the line is a
//! non-empty string of ASCII digits whose value lies in `[min, max]`; no
//! sign, decimal point or surrounding text is permitted. The attempt
//! counter counts exactly the accepted guesses.

use vstd::prelude::*;

use crate::text::{
    all_digits, digit_of, digit_val, digits_val, is_digit, is_space, lemma_digits_val_nonneg,
    trim_spec, trim_start_spec, trim_str,
};

verus! {

/// Why a line of input was rejected.
#[derive(Clone, Copy, Debug, PartialEq, Eq, Structural)]
pub enum GuessError {
    /// Empty after trimming, or holding a character that is no ASCII digit.
    InvalidFormat,
    /// A digit string whose value lies outside `[min, max]`.
    OutOfRange,
}

/// How a guess relates to the secret.
#[derive(Clone, Copy, Debug, PartialEq, Eq, Structural)]
pub enum GuessOutcome {
    /// The guess is below the secret.
    Less,
    /// The guess equals the secret.
    Equal,
    /// The guess is above the secret.
    Greater,
}

/// What parsing a line as a bounded guess yields: the trimmed line must be
/// a non-empty digit string whose value lies in `[min, max]`.
pub open spec fn spec_parse_guess(s: Seq<char>, min: u64, max: u64) -> Result<u64, GuessError> {
    let t = trim_spec(s);
    if t.len() == 0 || !all_digits(t) {
        Err(GuessError::InvalidFormat)
    } else if digits_val(t) < min || digits_val(t) > max {
        Err(GuessError::OutOfRange)
    } else {
        Ok(digits_val(t) as u64)
    }
}

/// Parses a line as a guess bounded by `[min, max]`.
pub fn parse_guess(s: &str, min: u64, max: u64) -> (r: Result<u64, GuessError>)
    ensures
        r == spec_parse_guess(s@, min, max),
{
    let t = trim_str(s);
    let ghost tv = t@;
    let len = t.unicode_len();
    if len == 0 {
        return Err(GuessError::InvalidFormat);
    }
    let mut acc: u64 = 0;
    let mut too_big: bool = false;
    let mut i: usize = 0;
    while i < len
        invariant
            0 <= i <= len,
            len == tv.len(),
            tv == t@,
            tv == trim_spec(s@),
            all_digits(tv.subrange(0, i as int)),
            !too_big ==> acc == digits_val(tv.subrange(0, i as int)) && acc <= max,
            too_big ==> digits_val(tv.subrange(0, i as int)) > max,
        decreases len - i,
    {
        let c = t.get_char(i);
        let ghost prefix = tv.subrange(0, i as int);
        proof {
            assert(tv.subrange(0, i + 1) =~= prefix.push(tv[i as int]));
            assert(tv.subrange(0, i + 1).drop_last() =~= prefix);
        }
        match digit_of(c) {
            None => {
                proof {
                    assert(!is_digit(tv[i as int]));
                    assert(!all_digits(tv));
                }
                return Err(GuessError::InvalidFormat);
            },
            Some(d) => {
                proof {
                    lemma_digits_val_nonneg(prefix);
                }
                if !too_big {
                    let wide: u128 = (acc as u128) * 10 + (d as u128);
                    if wide > max as u128 {
                        too_big = true;
                    } else {
                        acc = wide as u64;
                    }
                }
            },
        }
        i = i + 1;
    }
    proof {
        assert(tv.subrange(0, len as int) =~= tv);
    }
    if too_big {
        Err(GuessError::OutOfRange)
    } else if acc < min {
        Err(GuessError::OutOfRange)
    } else {
        Ok(acc)
    }
}

/// The comparison oracle: exactly one of the three outcomes, `Less` iff the
/// guess is below the secret, `Greater` iff above, `Equal` iff they match.
pub fn compare(guess: u64, secret: u64) -> (r: GuessOutcome)
    ensures
        r == GuessOutcome::Equal <==> guess == secret,
        r == GuessOutcome::Less <==> guess < secret,
        r == GuessOutcome::Greater <==> guess > secret,
{
    if guess < secret {
        GuessOutcome::Less
    } else if guess > secret {
        GuessOutcome::Greater
    } else {
        GuessOutcome::Equal
    }
}

/// Feedback reported for one submitted line.
#[derive(Clone, Copy, Debug, PartialEq, Eq, Structural)]
pub enum Feedback {
    /// An accepted guess below the secret.
    TooSmall,
    /// An accepted guess above the secret.
    TooBig,
    /// The accepted guess equals the secret; the game is over.
    Win,
    /// The line was rejected; nothing changed.
    Rejected(GuessError),
}

/// One run of the guessing game: the fixed bounds and secret, the number of
/// accepted guesses so far, and whether the game has been won.
pub struct GameState {
    pub min: u64,
    pub max: u64,
    pub secret: u64,
    pub attempts: u64,
    pub won: bool,
}

impl GameState {
    /// The secret lies within the bounds.
    pub open spec fn wf(self) -> bool {
        self.min <= self.secret <= self.max
    }

    /// Starts a game with the given bounds and secret: no attempts yet.
    pub fn new(min: u64, max: u64, secret: u64) -> (g: GameState)
        requires
            min <= secret <= max,
        ensures
            g.wf(),
            g.min == min,
            g.max == max,
            g.secret == secret,
            g.attempts == 0,
            !g.won,
    {
        GameState { min, max, secret, attempts: 0, won: false }
    }

    /// Feeds one line of input to the game. A rejected line leaves the
    /// state unchanged; an accepted guess counts one attempt and wins
    /// exactly when it equals the secret.
    pub fn step(&mut self, line: &str) -> (fb: Feedback)
        requires
            old(self).wf(),
            !old(self).won,
            old(self).attempts < u64::MAX,
        ensures
            final(self).wf(),
            final(self).min == old(self).min,
            final(self).max == old(self).max,
            final(self).secret == old(self).secret,
            match spec_parse_guess(line@, old(self).min, old(self).max) {
                Err(e) => {
                    &&& fb == Feedback::Rejected(e)
                    &&& *final(self) == *old(self)
                },
                Ok(g) => {
                    &&& final(self).attempts == old(self).attempts + 1
                    &&& (final(self).won <==> g == old(self).secret)
                    &&& fb == if g < old(self).secret {
                        Feedback::TooSmall
                    } else if g > old(self).secret {
                        Feedback::TooBig
                    } else {
                        Feedback::Win
                    }
                },
            },
    {
        match parse_guess(line, self.min, self.max) {
            Err(e) => Feedback::Rejected(e),
            Ok(g) => {
                self.attempts = self.attempts + 1;
                match compare(g, self.secret) {
                    GuessOutcome::Less => Feedback::TooSmall,
                    GuessOutcome::Greater => Feedback::TooBig,
                    GuessOutcome::Equal => {
                        self.won = true;
                        Feedback::Win
                    },
                }
            },
        }
    }
}

/// The digit character for a value in `0 ..= 9`.
pub open spec fn digit_char(d: int) -> char
    recommends
        0 <= d <= 9,
{
    if d == 0 {
        '0'
    } else if d == 1 {
        '1'
    } else if d == 2 {
        '2'
    } else if d == 3 {
        '3'
    } else if d == 4 {
        '4'
    } else if d == 5 {
        '5'
    } else if d == 6 {
        '6'
    } else if d == 7 {
        '7'
    } else if d == 8 {
        '8'
    } else {
        '9'
    }
}

/// The decimal digit string of a non-negative integer, no sign and no
/// leading zeros.
pub open spec fn dec_str(n: int) -> Seq<char>
    recommends
        n >= 0,
    decreases n,
{
    if n <= 9 {
        seq![digit_char(n)]
    } else {
        dec_str(n / 10).push(digit_char(n % 10))
    }
}

/// The decimal string of `n` is a non-empty digit string denoting `n`.
proof fn lemma_dec_str_val(n: int)
    requires
        n >= 0,
    ensures
        dec_str(n).len() >= 1,
        all_digits(dec_str(n)),
        digits_val(dec_str(n)) == n,
    decreases n,
{
    if n <= 9 {
        let s = dec_str(n);
        assert(s =~= seq![digit_char(n)]);
        assert(s.drop_last() =~= Seq::<char>::empty());
        assert(s.last() == digit_char(n));
        assert(digit_val(digit_char(n)) == n);
        assert(digits_val(s) == digits_val(s.drop_last()) * 10 + digit_val(s.last()));
    } else {
        lemma_dec_str_val(n / 10);
        let s = dec_str(n / 10).push(digit_char(n % 10));
        assert(s.drop_last() =~= dec_str(n / 10));
        assert(s.last() == digit_char(n % 10));
        assert(digit_val(digit_char(n % 10)) == n % 10);
        assert(digits_val(s) == digits_val(dec_str(n / 10)) * 10 + digit_val(digit_char(n % 10)));
        assert forall|k: int| 0 <= k < s.len() implies is_digit(#[trigger] s[k]) by {
            if k < s.len() - 1 {
                assert(is_digit(dec_str(n / 10)[k]));
            }
        }
    }
}

/// A non-empty all-digit string is left alone by trimming.
proof fn lemma_trim_all_digits(s: Seq<char>)
    requires
        s.len() >= 1,
        all_digits(s),
    ensures
        trim_spec(s) == s,
{
    assert(is_digit(s[0]) && !is_space(s[0]));
    assert(trim_start_spec(s) == s);
    assert(is_digit(s[s.len() - 1]) && !is_space(s.last()));
}

/// Every in-range value is parsed back from its own decimal string: for
/// `min <= n <= max`, the digit string of `n` yields exactly `Ok(n)`.
pub proof fn lemma_parse_guess_round_trip(n: u64, min: u64, max: u64)
    requires
        min <= n <= max,
    ensures
        spec_parse_guess(dec_str(n as int), min, max) == Ok::<u64, GuessError>(n),
{
    lemma_dec_str_val(n as int);
    lemma_trim_all_digits(dec_str(n as int));
}

/// Any line that, after trimming, is empty or still holds a non-digit
/// character is rejected as invalid.
pub proof fn lemma_parse_guess_rejects_nondigit(s: Seq<char>, min: u64, max: u64)
    requires
        trim_spec(s).len() == 0 || exists|k: int|
            0 <= k < trim_spec(s).len() && !is_digit(#[trigger] trim_spec(s)[k]),
    ensures
        spec_parse_guess(s, min, max) == Err::<u64, GuessError>(GuessError::InvalidFormat),
{
}

/// The decimal string of a value below `min` or above `max` is rejected as
/// out of range.
pub proof fn lemma_parse_guess_out_of_range(n: u64, min: u64, max: u64)
    requires
        n < min || n > max,
    ensures
        spec_parse_guess(dec_str(n as int), min, max) == Err::<u64, GuessError>(
            GuessError::OutOfRange,
        ),
{
    lemma_dec_str_val(n as int);
    lemma_trim_all_digits(dec_str(n as int));
}

} // verus!
