use rust_scratch_pad::guessing::{
    hint, judge, parse_guess, pick_secret, play_turn, read_guess, turn_for, Turn, Verdict, HIGHEST,
    LOWEST,
};

#[test]
fn the_secret_lies_between_one_and_a_hundred() {
    assert_eq!(1, LOWEST);
    assert_eq!(100, HIGHEST);
    let mut seen_two = false;
    let first = pick_secret();
    for _ in 0..1000 {
        let secret = pick_secret();
        assert!(1 <= secret && secret <= 100, "secret {}", secret);
        if secret != first {
            seen_two = true;
        }
    }
    // a thousand draws that all agree would mean that nothing is drawn
    assert!(seen_two);
}

#[test]
fn the_hint_turns_at_fifty() {
    assert_eq!("Hint, go low", hint(1));
    assert_eq!("Hint, go low", hint(49));
    assert_eq!("Hint, go high", hint(50));
    assert_eq!("Hint, go high", hint(100));
}

#[test]
fn judge_compares_guess_and_secret() {
    assert_eq!(Verdict::TooLow, judge(41, 42));
    assert_eq!(Verdict::TooHigh, judge(43, 42));
    assert_eq!(Verdict::Correct, judge(42, 42));
    assert_eq!(Verdict::TooLow, judge(0, u32::MAX));
    assert_eq!(Verdict::TooHigh, judge(u32::MAX, 0));
}

#[test]
fn each_verdict_has_its_message() {
    assert_eq!("Your guess is too low", Verdict::TooLow.message());
    assert_eq!("Your guess is too high", Verdict::TooHigh.message());
    assert_eq!("Your guess is correct! You win!", Verdict::Correct.message());
    assert!(!Verdict::TooLow.wins());
    assert!(!Verdict::TooHigh.wins());
    assert!(Verdict::Correct.wins());
}

#[test]
fn a_line_is_read_without_the_space_around_it() {
    assert_eq!(Some(42), read_guess("42\n"));
    assert_eq!(Some(42), read_guess("  42 \r\n"));
    assert_eq!(Some(7), read_guess("\t+7"));
    assert_eq!(Some(0), read_guess("000"));
    assert_eq!(Some(u32::MAX), read_guess("4294967295"));
}

#[test]
fn a_number_is_digits_after_an_optional_plus_sign() {
    assert_eq!(Some(0), parse_guess("0"));
    assert_eq!(Some(42), parse_guess("42"));
    assert_eq!(Some(42), parse_guess("+42"));
    assert_eq!(Some(7), parse_guess("007"));
    assert_eq!(Some(4294967295), parse_guess("4294967295"));
    assert_eq!(Some(4294967295), parse_guess("+0004294967295"));
    assert_eq!(None, parse_guess("4294967296"));
    assert_eq!(None, parse_guess("99999999999999999999"));
    assert_eq!(None, parse_guess(""));
    assert_eq!(None, parse_guess("+"));
    assert_eq!(None, parse_guess("++1"));
    assert_eq!(None, parse_guess("-1"));
    assert_eq!(None, parse_guess("-0"));
    assert_eq!(None, parse_guess(" 1"));
    assert_eq!(None, parse_guess("1 "));
    assert_eq!(None, parse_guess("1+"));
    assert_eq!(None, parse_guess("0x10"));
    assert_eq!(None, parse_guess("1_000"));
    assert_eq!(None, parse_guess("\u{663}"));
}

#[test]
fn what_is_no_number_is_no_guess() {
    assert_eq!(None, read_guess(""));
    assert_eq!(None, read_guess("\n"));
    assert_eq!(None, read_guess("forty"));
    assert_eq!(None, read_guess("4 2"));
    assert_eq!(None, read_guess("-1"));
    assert_eq!(None, read_guess("+"));
    assert_eq!(None, read_guess("4.5"));
    assert_eq!(None, read_guess("4294967296"));
}

#[test]
fn a_turn_is_a_guess_or_nothing() {
    assert_eq!(Turn::Skipped, turn_for(None, 50));
    assert_eq!(Turn::Guessed(50, Verdict::Correct), turn_for(Some(50), 50));
    assert_eq!(Turn::Guessed(10, Verdict::TooLow), play_turn("10\n", 50));
    assert_eq!(Turn::Guessed(90, Verdict::TooHigh), play_turn(" 90\n", 50));
    assert_eq!(Turn::Guessed(50, Verdict::Correct), play_turn("50", 50));
    assert_eq!(Turn::Skipped, play_turn("fifty\n", 50));
}
