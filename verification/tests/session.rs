use guessing_game::reply::{compare_guess, Reply};
use guessing_game::session::{GuessingSession, RunError, TerminationReason};

#[test]
fn fixed_target_transcript() {
    let mut s = GuessingSession::with_target(42);
    let lines = vec!["10".to_string(), "99".to_string(), "42".to_string()];
    let mut outputs: Vec<Reply> = Vec::new();
    let r = s.run(&lines, &mut outputs);
    assert_eq!(r, Ok(TerminationReason::Won));
    assert_eq!(outputs, vec![Reply::Smaller, Reply::Greater, Reply::Right]);
    assert_eq!(s.attempt_count(), 3);
    assert_eq!(outputs[0].message(), "your guessed number is smaller");
    assert_eq!(outputs[1].message(), "your guessed number is greater");
    assert_eq!(outputs[2].message(), "you are right");
}

#[test]
fn malformed_line_does_not_count() {
    let mut s = GuessingSession::with_target(5);
    let lines = vec!["abc".to_string(), "5".to_string()];
    let mut outputs: Vec<Reply> = Vec::new();
    let r = s.run(&lines, &mut outputs);
    assert_eq!(r, Ok(TerminationReason::Won));
    assert_eq!(outputs, vec![Reply::Invalid, Reply::Right]);
    assert_eq!(outputs[0].message(), "please enter a valid number");
    assert_eq!(s.attempt_count(), 1);
}

#[test]
fn whitespace_guess_counts_like_plain() {
    let mut a = GuessingSession::with_target(5);
    let mut b = GuessingSession::with_target(5);
    assert_eq!(a.process_line("  5  \n"), b.process_line("5"));
    assert_eq!(a.attempt_count(), b.attempt_count());
}

#[test]
fn empty_input_is_fatal() {
    let mut s = GuessingSession::with_target(7);
    let lines: Vec<String> = Vec::new();
    let mut outputs: Vec<Reply> = Vec::new();
    let r = s.run(&lines, &mut outputs);
    assert_eq!(r, Err(RunError::InputExhausted));
    assert!(outputs.is_empty());
    assert_eq!(s.attempt_count(), 0);
}

#[test]
fn no_winning_line_exhausts_input() {
    let mut s = GuessingSession::with_target(50);
    let lines = vec!["49".to_string(), "51".to_string()];
    let mut outputs: Vec<Reply> = Vec::new();
    let r = s.run(&lines, &mut outputs);
    assert_eq!(r, Err(RunError::InputExhausted));
    assert_eq!(outputs, vec![Reply::Smaller, Reply::Greater]);
    assert_eq!(s.attempt_count(), 2);
}

#[test]
fn stops_at_first_winning_line() {
    let mut s = GuessingSession::with_target(8);
    let lines = vec!["8".to_string(), "9".to_string()];
    let mut outputs: Vec<Reply> = Vec::new();
    let r = s.run(&lines, &mut outputs);
    assert_eq!(r, Ok(TerminationReason::Won));
    assert_eq!(outputs, vec![Reply::Right]);
    assert_eq!(s.attempt_count(), 1);
}

#[test]
fn random_targets_stay_in_range() {
    for _ in 0..1000 {
        let s = GuessingSession::new();
        let t = s.target();
        assert!((1..=100).contains(&t));
        assert_eq!(s.attempt_count(), 0);
    }
}

#[test]
fn comparison_is_pure_and_antisymmetric() {
    assert_eq!(compare_guess(3, 9), Reply::Smaller);
    assert_eq!(compare_guess(9, 3), Reply::Greater);
    assert_eq!(compare_guess(9, 9), Reply::Right);
    assert_eq!(compare_guess(3, 9), compare_guess(3, 9));
    assert_eq!(compare_guess(i32::MIN, i32::MAX), Reply::Smaller);
    assert_eq!(compare_guess(i32::MAX, i32::MIN), Reply::Greater);
}
