//! The rules of a number-guessing game.

use vstd::prelude::*;
use rand::Rng;

verus! {

/// The lowest secret number.
pub const LOWEST: u32 = 1;

/// The highest secret number.
pub const HIGHEST: u32 = 100;

/// Calls `Rng::gen_range` of `rand` on the thread's generator with the
/// inclusive range from `low` to `high`. Trusted: the number returned lies
/// in that range. Nothing else is known of it: two calls may differ.
#[verifier::external_body]
fn random_between(low: u32, high: u32) -> (n: u32)
    requires
        low <= high,
    ensures
        low <= n <= high,
{
    rand::thread_rng().gen_range(low..=high)
}

/// `text` without the white space at its ends, as `str::trim` returns it.
pub uninterp spec fn trimmed(text: Seq<char>) -> Seq<char>;

/// Calls `str::trim`. Trusted: the result depends on the characters of
/// `text` alone; it is named `trimmed`.
#[verifier::external_body]
fn str_trim(text: &str) -> (inner: &str)
    ensures
        inner@ == trimmed(text@),
{
    text.trim()
}

/// `c` is one of the digits `0` to `9`.
pub open spec fn is_digit(c: char) -> bool {
    '0' <= c <= '9'
}

/// The number that the decimal digits in `digits` write.
pub open spec fn decimal_value(digits: Seq<char>) -> nat
    decreases digits.len(),
{
    if digits.len() == 0 {
        0
    } else {
        10 * decimal_value(digits.drop_last()) + (digits.last() as u32 - '0' as u32) as nat
    }
}

/// Every character of `text` is a decimal digit.
pub open spec fn all_digits(text: Seq<char>) -> bool {
    forall|i: int| 0 <= i < text.len() ==> is_digit(#[trigger] text[i])
}

/// `text` without the plus sign at its start, if it has one there.
pub open spec fn without_plus_sign(text: Seq<char>) -> Seq<char> {
    if text.len() > 0 && text[0] == '+' {
        text.skip(1)
    } else {
        text
    }
}

/// The number that `text` writes, if it writes one that fits: an optional
/// plus sign, then one or more decimal digits and nothing else.
pub open spec fn parsed_number(text: Seq<char>) -> Option<u32> {
    let digits = without_plus_sign(text);
    if digits.len() > 0 && all_digits(digits) && decimal_value(digits) <= u32::MAX {
        Some(decimal_value(digits) as u32)
    } else {
        None
    }
}

/// Calls `str::parse` for `u32`. Trusted: the text is read as
/// `parsed_number` says, and anything else is an error.
#[verifier::external_body]
fn str_parse_u32(text: &str) -> (number: Option<u32>)
    ensures
        number == parsed_number(text@),
{
    text.parse::<u32>().ok()
}

/// How a guess compares with the secret.
#[derive(Clone, Copy, Debug, PartialEq, Eq, Structural)]
pub enum Verdict {
    TooLow,
    TooHigh,
    Correct,
}

impl Verdict {
    /// What the player is told.
    pub fn message(&self) -> (text: &'static str)
        ensures
            *self is TooLow ==> text@ == "Your guess is too low"@,
            *self is TooHigh ==> text@ == "Your guess is too high"@,
            *self is Correct ==> text@ == "Your guess is correct! You win!"@,
    {
        match self {
            Verdict::TooLow => "Your guess is too low",
            Verdict::TooHigh => "Your guess is too high",
            Verdict::Correct => "Your guess is correct! You win!",
        }
    }

    /// Whether the game is over.
    pub fn wins(&self) -> (won: bool)
        ensures
            won == (*self is Correct),
    {
        match self {
            Verdict::Correct => true,
            _ => false,
        }
    }
}

/// What a line typed by the player amounts to.
#[derive(Clone, Copy, Debug, PartialEq, Eq, Structural)]
pub enum Turn {
    /// The line is no number: it is passed over in silence.
    Skipped,
    /// The line is this guess, which compares so with the secret.
    Guessed(u32, Verdict),
}

/// A secret number between `LOWEST` and `HIGHEST`, picked at random.
pub fn pick_secret() -> (secret: u32)
    ensures
        LOWEST <= secret <= HIGHEST,
{
    random_between(LOWEST, HIGHEST)
}

/// The hint given before the first guess.
pub fn hint(secret: u32) -> (text: &'static str)
    ensures
        secret < 50 ==> text@ == "Hint, go low"@,
        secret >= 50 ==> text@ == "Hint, go high"@,
{
    if secret < 50 {
        "Hint, go low"
    } else {
        "Hint, go high"
    }
}

/// How `guess` compares with `secret`.
pub open spec fn verdict_on(guess: u32, secret: u32) -> Verdict {
    if guess < secret {
        Verdict::TooLow
    } else if guess > secret {
        Verdict::TooHigh
    } else {
        Verdict::Correct
    }
}

/// What a line that writes `guess`, or no number at all, amounts to.
pub open spec fn turn_on(guess: Option<u32>, secret: u32) -> Turn {
    match guess {
        Some(n) => Turn::Guessed(n, verdict_on(n, secret)),
        None => Turn::Skipped,
    }
}

/// Compares `guess` with `secret`.
pub fn judge(guess: u32, secret: u32) -> (verdict: Verdict)
    ensures
        verdict == verdict_on(guess, secret),
{
    if guess < secret {
        Verdict::TooLow
    } else if guess > secret {
        Verdict::TooHigh
    } else {
        Verdict::Correct
    }
}

/// What the number `guess`, if the player's line was one, amounts to.
pub fn turn_for(guess: Option<u32>, secret: u32) -> (turn: Turn)
    ensures
        turn == turn_on(guess, secret),
{
    match guess {
        Some(n) => Turn::Guessed(n, judge(n, secret)),
        None => Turn::Skipped,
    }
}

/// The number that `text` writes, if it writes one.
pub fn parse_guess(text: &str) -> (guess: Option<u32>)
    ensures
        guess == parsed_number(text@),
{
    str_parse_u32(text)
}

/// The number that the player's `line` writes once the white space at its
/// ends is taken off, if it writes one.
pub fn read_guess(line: &str) -> (guess: Option<u32>)
    ensures
        guess == parsed_number(trimmed(line@)),
{
    parse_guess(str_trim(line))
}

/// One turn of the game: the player's `line` is read as a guess and
/// compared with `secret`.
pub fn play_turn(line: &str, secret: u32) -> (turn: Turn)
    ensures
        turn == turn_on(parsed_number(trimmed(line@)), secret),
{
    turn_for(read_guess(line), secret)
}

} // verus!
