use learning_rust::guessing_game::input::{is_decimal_digit, is_space, parse_guess, MalformedInput};
use learning_rust::guessing_game::outcome::{compare, Comparison, Reply};
use learning_rust::guessing_game::secret::{draw_secret, is_valid_secret, SECRET_END, SECRET_MIN};
use learning_rust::guessing_game::session::{Phase, Session};

fn lines(texts: &[&str]) -> Vec<String> {
    texts.iter().map(|t| t.to_string()).collect()
}

fn compared(guess: u32, comparison: Comparison) -> Reply {
    Reply::Compared { guess, comparison }
}

#[test]
fn fixed_secret_fifty_line_by_line() {
    let mut session = Session::new(50);
    assert_eq!(session.secret(), 50);
    assert_eq!(session.phase(), Phase::AwaitingGuess);

    let reply = session.submit("abc");
    assert_eq!(reply, Reply::Invalid);
    assert_eq!(reply.message(), "Invalid value");
    assert!(!session.is_won());

    let reply = session.submit("10");
    assert_eq!(reply, compared(10, Comparison::Less));
    assert_eq!(reply.message(), "Too small!");
    assert!(!session.is_won());

    let reply = session.submit("90");
    assert_eq!(reply, compared(90, Comparison::Greater));
    assert_eq!(reply.message(), "Too big!");
    assert!(!session.is_won());

    let reply = session.submit("50");
    assert_eq!(reply, compared(50, Comparison::Equal));
    assert_eq!(reply.message(), "You win!");
    assert!(reply.is_win());
    assert!(session.is_won());
    assert_eq!(session.phase(), Phase::Won);
    assert_eq!(session.secret(), 50);
}

#[test]
fn fixed_secret_fifty_played_through() {
    let mut session = Session::new(50);
    let replies = session.play(&lines(&["abc", "10", "90", "50"]));
    assert_eq!(
        replies,
        vec![
            Reply::Invalid,
            compared(10, Comparison::Less),
            compared(90, Comparison::Greater),
            compared(50, Comparison::Equal),
        ]
    );
    let told: Vec<&str> = replies.iter().map(|r| r.message()).collect();
    assert_eq!(told, vec!["Invalid value", "Too small!", "Too big!", "You win!"]);
    assert!(session.is_won());
}

#[test]
fn secret_one_is_won_by_the_first_guess() {
    let mut session = Session::new(1);
    let reply = session.submit("1");
    assert_eq!(reply, compared(1, Comparison::Equal));
    assert!(session.is_won());

    let mut session = Session::new(1);
    let replies = session.play(&lines(&["1"]));
    assert_eq!(replies, vec![compared(1, Comparison::Equal)]);
    assert!(session.is_won());
}

#[test]
fn lines_behind_the_winning_one_are_not_read() {
    let mut session = Session::new(7);
    let replies = session.play(&lines(&["3", "7", "9", "junk", "7"]));
    assert_eq!(replies, vec![compared(3, Comparison::Less), compared(7, Comparison::Equal)]);
    assert!(session.is_won());
}

#[test]
fn a_won_game_reads_nothing() {
    let mut session = Session::new(7);
    session.submit("7");
    assert!(session.is_won());
    let replies = session.play(&lines(&["1", "7"]));
    assert!(replies.is_empty());
    assert!(session.is_won());
    assert_eq!(session.secret(), 7);
}

#[test]
fn a_game_without_the_secret_stays_open() {
    let mut session = Session::new(42);
    let replies = session.play(&lines(&["41", "", "43", "x"]));
    assert_eq!(
        replies,
        vec![
            compared(41, Comparison::Less),
            Reply::Invalid,
            compared(43, Comparison::Greater),
            Reply::Invalid,
        ]
    );
    assert!(!session.is_won());
    let replies = session.play(&[]);
    assert!(replies.is_empty());
    assert!(!session.is_won());
}

#[test]
fn every_pair_compares_one_way_and_wins_only_when_equal() {
    for secret in 1..=100u32 {
        for guess in 1..=100u32 {
            let comparison = compare(guess, secret);
            let holds = [
                comparison == Comparison::Less,
                comparison == Comparison::Greater,
                comparison == Comparison::Equal,
            ];
            assert_eq!(holds.iter().filter(|h| **h).count(), 1);
            assert_eq!(comparison == Comparison::Less, guess < secret);
            assert_eq!(comparison == Comparison::Greater, guess > secret);
            assert_eq!(comparison == Comparison::Equal, guess == secret);

            let mut session = Session::new(secret);
            let reply = session.submit(&guess.to_string());
            assert_eq!(reply, compared(guess, comparison));
            assert_eq!(session.is_won(), guess == secret);
            assert_eq!(reply.is_win(), guess == secret);
            assert_eq!(session.secret(), secret);
        }
    }
}

#[test]
fn compare_outside_the_secret_range() {
    assert_eq!(compare(0, 1), Comparison::Less);
    assert_eq!(compare(101, 100), Comparison::Greater);
    assert_eq!(compare(u32::MAX, 100), Comparison::Greater);
    assert_eq!(compare(u32::MAX, u32::MAX), Comparison::Equal);
    assert_eq!(compare(0, 0), Comparison::Equal);
    assert_eq!(compare(0, u32::MAX), Comparison::Less);
}

#[test]
fn lines_without_a_number_never_end_the_game() {
    for secret in [1u32, 12, 50, 100] {
        let mut session = Session::new(secret);
        for round in 0..3 {
            for text in ["abc", "", "12.5", "   ", "\n", "1e2", "0x10", "12 5", "-12", "twelve"] {
                let reply = session.submit(text);
                assert_eq!(reply, Reply::Invalid, "{:?} in round {}", text, round);
                assert_eq!(reply.message(), "Invalid value");
                assert!(!reply.is_win());
                assert!(!session.is_won());
                assert_eq!(session.phase(), Phase::AwaitingGuess);
                assert_eq!(session.secret(), secret);
            }
        }
        let reply = session.submit(&secret.to_string());
        assert!(reply.is_win());
        assert!(session.is_won());
    }
}

#[test]
fn invalid_lines_played_through_are_all_answered() {
    let mut session = Session::new(12);
    let input = lines(&["abc", "", "12.5"]);
    let replies = session.play(&input);
    assert_eq!(replies, vec![Reply::Invalid; 3]);
    assert!(!session.is_won());
    let again = session.play(&input);
    assert_eq!(again, replies);
    assert!(!session.is_won());
}

#[test]
fn smallest_and_largest_guess_are_compared_like_any_other() {
    let mut session = Session::new(50);
    assert_eq!(session.submit("1"), compared(1, Comparison::Less));
    assert_eq!(session.submit("49"), compared(49, Comparison::Less));
    assert_eq!(session.submit("51"), compared(51, Comparison::Greater));
    assert_eq!(session.submit("100"), compared(100, Comparison::Greater));
    assert!(!session.is_won());

    let mut lowest = Session::new(1);
    assert_eq!(lowest.submit("2"), compared(2, Comparison::Greater));
    assert_eq!(lowest.submit("0"), compared(0, Comparison::Less));
    assert_eq!(lowest.submit("100"), compared(100, Comparison::Greater));
    assert!(!lowest.is_won());
    assert_eq!(lowest.submit("1"), compared(1, Comparison::Equal));
    assert!(lowest.is_won());

    let mut highest = Session::new(100);
    assert_eq!(highest.submit("99"), compared(99, Comparison::Less));
    assert_eq!(highest.submit("101"), compared(101, Comparison::Greater));
    assert_eq!(highest.submit("1"), compared(1, Comparison::Less));
    assert!(!highest.is_won());
    assert_eq!(highest.submit("100"), compared(100, Comparison::Equal));
    assert!(highest.is_won());
}

#[test]
fn white_space_around_a_guess_is_ignored() {
    assert_eq!(parse_guess("  42  \n"), Ok(42));
    assert_eq!(parse_guess("42"), Ok(42));
    assert_eq!(parse_guess("  42  \n"), parse_guess("42"));
    assert_eq!(parse_guess("\t\r\n 7"), Ok(7));
    assert_eq!(parse_guess("7\u{b}\u{c}"), Ok(7));
    assert_eq!(parse_guess("\u{85}\u{a0}\u{1680}\u{2000}\u{200a}9\u{2028}\u{2029}\u{202f}\u{205f}\u{3000}"), Ok(9));

    for secret in [42u32, 43] {
        let mut padded = Session::new(secret);
        let mut bare = Session::new(secret);
        assert_eq!(padded.submit("  42  \n"), bare.submit("42"));
        assert_eq!(padded.is_won(), bare.is_won());
        assert_eq!(padded, bare);
    }
}

#[test]
fn parse_guess_reads_decimal_numbers() {
    assert_eq!(parse_guess("0"), Ok(0));
    assert_eq!(parse_guess("5"), Ok(5));
    assert_eq!(parse_guess("100"), Ok(100));
    assert_eq!(parse_guess("007"), Ok(7));
    assert_eq!(parse_guess("+7"), Ok(7));
    assert_eq!(parse_guess(" +0012 "), Ok(12));
    assert_eq!(parse_guess("1234567890"), Ok(1234567890));
    assert_eq!(parse_guess("4294967295"), Ok(u32::MAX));
    assert_eq!(parse_guess("0000000000000000004294967295"), Ok(u32::MAX));
}

#[test]
fn parse_guess_rejects_everything_else() {
    for text in [
        "",
        " ",
        "\n",
        "+",
        "-",
        "++1",
        "+-1",
        "-1",
        "-0",
        "1+",
        "abc",
        "12.5",
        "12a",
        "a12",
        "1 2",
        "1_000",
        "4294967296",
        "42949672950",
        "99999999999999999999999999",
        "\u{200b}42",
        "42\u{feff}",
        "\u{180e}42",
        "\u{ff11}\u{ff12}",
        "\u{661}",
        "+ 1",
        "1\u{0}",
    ] {
        assert_eq!(parse_guess(text), Err(MalformedInput), "{:?}", text);
    }
}

#[test]
fn parse_guess_agrees_with_the_standard_library() {
    let pieces = ["", " ", "\n", "\u{a0}", "+", "-", "0", "1", "9", "42", "429496729", "5", "6", "a", ".", "\u{3000}"];
    let mut texts: Vec<String> = Vec::new();
    for a in pieces {
        for b in pieces {
            for c in pieces {
                texts.push(format!("{}{}{}", a, b, c));
            }
        }
    }
    for n in [0u64, 1, 99, 100, 101, 4294967294, 4294967295, 4294967296, 4294967305, 18446744073709551615] {
        texts.push(n.to_string());
        texts.push(format!("  +{}\r\n", n));
    }
    for text in &texts {
        let expected: Option<u32> = text.trim().parse::<u32>().ok();
        assert_eq!(parse_guess(text).ok(), expected, "{:?}", text);
    }
}

#[test]
fn is_space_agrees_with_the_standard_library() {
    for code in 0..=0x10FFFFu32 {
        if let Some(c) = char::from_u32(code) {
            assert_eq!(is_space(c), c.is_whitespace(), "U+{:04X}", code);
        }
    }
}

#[test]
fn is_decimal_digit_agrees_with_the_standard_library() {
    for code in 0..=0x10FFFFu32 {
        if let Some(c) = char::from_u32(code) {
            assert_eq!(is_decimal_digit(c), c.is_ascii_digit(), "U+{:04X}", code);
        }
    }
    for c in ['0', '1', '5', '9'] {
        assert!(is_decimal_digit(c));
    }
    for c in ['/', ':', 'a', '+', '-', ' ', '\u{660}', '\u{ff10}'] {
        assert!(!is_decimal_digit(c));
    }
}

#[test]
fn is_space_on_named_characters() {
    for c in [' ', '\t', '\n', '\r', '\u{b}', '\u{c}', '\u{85}', '\u{a0}', '\u{3000}'] {
        assert!(is_space(c), "{:?}", c);
    }
    for c in ['0', 'a', '+', '\u{0}', '\u{8}', '\u{e}', '\u{1f}', '\u{200b}', '\u{180e}', '\u{feff}'] {
        assert!(!is_space(c), "{:?}", c);
    }
}

#[test]
fn secrets_are_drawn_from_one_to_a_hundred() {
    assert_eq!(SECRET_MIN, 1);
    assert_eq!(SECRET_END, 101);
    let mut seen = [false; 101];
    for _ in 0..5000 {
        let secret = draw_secret();
        assert!((1..=100).contains(&secret), "{}", secret);
        assert!(is_valid_secret(secret));
        seen[secret as usize] = true;
    }
    assert!(!seen[0]);
    assert!(seen.iter().filter(|s| **s).count() > 1);
}

#[test]
fn valid_secrets() {
    assert!(!is_valid_secret(0));
    assert!(is_valid_secret(1));
    assert!(is_valid_secret(50));
    assert!(is_valid_secret(100));
    assert!(!is_valid_secret(101));
    assert!(!is_valid_secret(u32::MAX));
}

#[test]
fn a_started_game_is_open_and_holds_a_valid_secret() {
    let mut different = false;
    let first = Session::start();
    for _ in 0..200 {
        let mut session = Session::start();
        assert_eq!(session.phase(), Phase::AwaitingGuess);
        assert!(!session.is_won());
        let secret = session.secret();
        assert!(is_valid_secret(secret));
        different = different || secret != first.secret();
        let reply = session.submit(&secret.to_string());
        assert_eq!(reply, compared(secret, Comparison::Equal));
        assert!(session.is_won());
    }
    assert!(different);
}

#[test]
fn a_cloned_game_goes_its_own_way() {
    let mut first = Session::new(33);
    first.submit("12");
    let mut second = first.clone();
    assert_eq!(second, first);
    assert_eq!(second.secret(), 33);
    assert_eq!(second.phase(), Phase::AwaitingGuess);
    second.submit("33");
    assert!(second.is_won());
    assert!(!first.is_won());
    let won = second.clone();
    assert!(won.is_won());
    assert_eq!(won.secret(), 33);
}

#[test]
fn messages_tell_the_outcomes_apart() {
    assert_eq!(Comparison::Less.message(), "Too small!");
    assert_eq!(Comparison::Greater.message(), "Too big!");
    assert_eq!(Comparison::Equal.message(), "You win!");
    assert_eq!(Reply::Invalid.message(), "Invalid value");
    assert_eq!(compared(3, Comparison::Less).message(), "Too small!");
    assert_eq!(compared(3, Comparison::Greater).message(), "Too big!");
    assert_eq!(compared(3, Comparison::Equal).message(), "You win!");
    assert!(compared(3, Comparison::Equal).is_win());
    assert!(!compared(3, Comparison::Less).is_win());
    assert!(!compared(3, Comparison::Greater).is_win());
    assert!(!Reply::Invalid.is_win());
}
