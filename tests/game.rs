use std::collections::HashSet;
use std::ops::ControlFlow;
use guess_that_lang::game::{
    is_supported_language, key_of, reveal_order, provider_kind, GameError, ProviderKind, position_of, same_text, Answer, Game, Key,
    RevealAction, RevealScheduler, Resolution, RoundError, WaitOutcome, LANGUAGES,
};
use guess_that_lang::terminal::Terminal;
use syntect::highlighting::Theme;
use syntect::parsing::SyntaxSet;

fn game(points: u32) -> Game {
    let terminal = Terminal { syntaxes: SyntaxSet::load_defaults_newlines(), theme: Theme::default(), is_truecolor: true };
    Game { points, terminal }
}

fn answered(r: Result<Resolution, RoundError>) -> Answer {
    match r {
        Ok(Resolution::Answered(a)) => a,
        _ => panic!("expected an answer"),
    }
}

#[test]
fn options_are_four_distinct_with_the_correct_one() {
    for _ in 0..200 {
        let options = Game::get_options("Rust");
        assert_eq!(options.len(), 4);
        assert_eq!(options.iter().filter(|o| **o == "Rust").count(), 1);
        let distinct: HashSet<&str> = options.iter().copied().collect();
        assert_eq!(distinct.len(), 4);
        assert!(options.iter().all(|o| LANGUAGES.contains(o)));
    }
}

#[test]
fn options_for_a_language_outside_the_catalogue() {
    let options = Game::get_options("Brainfuck");
    assert_eq!(options.len(), 4);
    assert_eq!(options.iter().filter(|o| **o == "Brainfuck").count(), 1);
    let distinct: HashSet<&str> = options.iter().copied().collect();
    assert_eq!(distinct.len(), 4);
}

#[test]
fn options_are_shuffled() {
    let mut positions = HashSet::new();
    for _ in 0..400 {
        let options = Game::get_options("Go");
        positions.insert(options.iter().position(|o| *o == "Go").unwrap());
    }
    assert_eq!(positions.len(), 4);
}

#[test]
fn catalogue_lookup() {
    assert!(is_supported_language("Rust"));
    assert!(is_supported_language("C#"));
    assert!(!is_supported_language("rust"));
    assert!(!is_supported_language(""));
    assert!(same_text("C++", "C++"));
    assert!(!same_text("C++", "C"));
}

#[test]
fn keys_the_game_listens_to() {
    assert_eq!(key_of('1', false), Some(Key::Digit(1)));
    assert_eq!(key_of('4', true), Some(Key::Digit(4)));
    assert_eq!(key_of('5', false), None);
    assert_eq!(key_of('q', false), Some(Key::Quit));
    assert_eq!(key_of('c', true), Some(Key::Skip));
    assert_eq!(key_of('c', false), None);
    assert_eq!(key_of('x', false), None);
}

#[test]
fn points_start_at_100_and_drop_by_10_after_the_first_line() {
    let mut s = RevealScheduler::new(vec![0, 1, 2, 3], vec![false, true, false, false], 700);
    assert_eq!(s.available, 100);
    assert_eq!(s.next_action(), RevealAction::Wait { line: 0, millis: 700 });
    assert_eq!(s.finish_wait(WaitOutcome::Elapsed), Some(0));
    assert_eq!(s.available, 100);
    // The blank line 1 is passed over without a wait or a cost.
    assert_eq!(s.next_action(), RevealAction::Wait { line: 2, millis: 1500 });
    assert_eq!(s.finish_wait(WaitOutcome::Elapsed), Some(2));
    assert_eq!(s.available, 90);
    assert_eq!(s.next_action(), RevealAction::Wait { line: 3, millis: 1500 });
    assert_eq!(s.finish_wait(WaitOutcome::Elapsed), Some(3));
    assert_eq!(s.available, 80);
    assert_eq!(s.next_action(), RevealAction::Stop);
    assert_eq!(s.available, 80);
}

#[test]
fn points_go_below_zero_on_long_snippets() {
    let n = 13;
    let mut s = RevealScheduler::new((0..n).collect(), vec![false; n], 0);
    for _ in 0..n {
        if let RevealAction::Wait { .. } = s.next_action() {
            s.finish_wait(WaitOutcome::Elapsed);
        }
    }
    assert_eq!(s.revealed, 13);
    assert_eq!(s.available, -20);
}

#[test]
fn shuffled_order_pays_for_every_line_after_the_first() {
    let mut s = RevealScheduler::new(vec![2, 0, 1], vec![false, false, false], 10);
    assert_eq!(s.next_action(), RevealAction::Wait { line: 2, millis: 10 });
    assert_eq!(s.finish_wait(WaitOutcome::Elapsed), Some(2));
    assert_eq!(s.available, 100);
    assert_eq!(s.next_action(), RevealAction::Wait { line: 0, millis: 1500 });
    assert_eq!(s.finish_wait(WaitOutcome::Elapsed), Some(0));
    assert_eq!(s.available, 90);
}

#[test]
fn cancel_stops_the_reveal() {
    let mut s = RevealScheduler::new(vec![0, 1, 2], vec![false, false, false], 0);
    assert_eq!(s.next_action(), RevealAction::Wait { line: 0, millis: 0 });
    assert_eq!(s.finish_wait(WaitOutcome::Elapsed), Some(0));
    assert_eq!(s.next_action(), RevealAction::Wait { line: 1, millis: 1500 });
    assert_eq!(s.finish_wait(WaitOutcome::Cancelled), None);
    assert!(s.cancelled);
    assert_eq!(s.available, 100);
    assert_eq!(s.next_action(), RevealAction::Stop);
    assert_eq!(s.next_action(), RevealAction::Stop);
    assert_eq!(s.revealed, 1);
    assert_eq!(s.available, 100);
}

#[test]
fn correct_answer_on_first_line_earns_100() {
    let mut s = RevealScheduler::new(vec![0, 1], vec![false, false], 1500);
    assert!(matches!(s.next_action(), RevealAction::Wait { line: 0, .. }));
    s.finish_wait(WaitOutcome::Elapsed);
    assert!(matches!(s.next_action(), RevealAction::Wait { line: 1, .. }));
    s.finish_wait(WaitOutcome::Cancelled);

    let mut g = game(7);
    let options = vec!["Go", "Rust", "C", "Lua"];
    let a = answered(g.answer(Key::Digit(2), &options, "Rust", s.available));
    assert!(a.was_correct);
    assert_eq!(a.awarded, 100);
    assert_eq!(a.flow, ControlFlow::Continue(()));
    assert_eq!(g.points, 107);
}

#[test]
fn correct_answer_on_kth_line_earns_100_minus_10_per_extra_line() {
    for k in 1..=14u64 {
        let n = k as usize;
        let mut s = RevealScheduler::new((0..n).collect(), vec![false; n], 0);
        for _ in 0..n {
            s.next_action();
            s.finish_wait(WaitOutcome::Elapsed);
        }
        let mut g = game(0);
        let a = answered(g.answer(Key::Digit(1), &vec!["Rust", "Go", "C", "R"], "Rust", s.available));
        let expected = (100 - 10 * (k as i64 - 1)).max(0) as u32;
        assert_eq!(a.awarded, expected);
        assert_eq!(g.points, expected);
    }
}

#[test]
fn wrong_answer_ends_the_game() {
    let mut g = game(40);
    let options = vec!["Go", "Rust", "C", "Lua"];
    let a = answered(g.answer(Key::Digit(3), &options, "Rust", 70));
    assert!(!a.was_correct);
    assert_eq!(a.correct_index, 1);
    assert_eq!(a.awarded, 0);
    assert_eq!(a.flow, ControlFlow::Break(()));
    assert_eq!(g.points, 40);
}

#[test]
fn quitting_keeps_the_score() {
    let mut g = game(55);
    let options = vec!["Go", "Rust", "C", "Lua"];
    let r = g.answer(Key::Quit, &options, "Rust", 90).unwrap();
    assert!(matches!(r, Resolution::Left));
    assert_eq!(r.flow(), ControlFlow::Break(()));
    assert_eq!(g.points, 55);
    let r = g.answer(Key::Skip, &options, "Rust", 90).unwrap();
    assert_eq!(r.flow(), ControlFlow::Break(()));
    assert_eq!(g.points, 55);
}

#[test]
fn missing_correct_language_is_an_error() {
    let mut g = game(3);
    let r = g.answer(Key::Digit(1), &vec!["Go", "C", "R", "Lua"], "Rust", 100);
    assert!(matches!(r, Err(RoundError::CorrectLanguageMissing)));
    assert_eq!(g.points, 3);
}

#[test]
fn negative_pool_awards_nothing_and_total_saturates() {
    let terminal = game(0).terminal;
    let mut total = 5;
    let a = terminal.process_input(1, &vec!["Rust", "Go", "C", "R"], "Rust", -30, &mut total).unwrap();
    assert_eq!(a.awarded, 0);
    assert_eq!(total, 5);
    let mut total = u32::MAX - 10;
    let a = terminal.process_input(1, &vec!["Rust", "Go", "C", "R"], "Rust", 50, &mut total).unwrap();
    assert_eq!(a.awarded, 50);
    assert_eq!(total, u32::MAX);
}

#[test]
fn first_matching_position() {
    assert_eq!(position_of(&vec!["a", "b", "b"], "b"), Some(1));
    assert_eq!(position_of(&vec!["a"], "z"), None);
}

#[test]
fn high_score_at_the_end() {
    let g = game(120);
    assert_eq!(g.new_high_score(100), Some(120));
    assert!(g.beats_record(100));
    assert!(!g.beats_record(0));
    assert_eq!(g.new_high_score(0), Some(120));
    assert_eq!(g.new_high_score(120), None);
    assert!(!g.beats_record(120));
}

#[test]
fn provider_choice() {
    assert_eq!(provider_kind(None), Ok(ProviderKind::Repos));
    assert_eq!(provider_kind(Some("gists".to_string())), Ok(ProviderKind::Gists));
    assert_eq!(provider_kind(Some("repos".to_string())), Ok(ProviderKind::Repos));
    assert_eq!(provider_kind(Some("bitbucket".to_string())), Err(GameError::InvalidProvider));
}

#[test]
fn reveal_order_is_a_permutation() {
    assert_eq!(reveal_order(5, false), vec![0, 1, 2, 3, 4]);
    assert!(reveal_order(0, true).is_empty());
    let mut seen = HashSet::new();
    for _ in 0..200 {
        let mut order = reveal_order(6, true);
        seen.insert(order.clone());
        order.sort();
        assert_eq!(order, vec![0, 1, 2, 3, 4, 5]);
    }
    assert!(seen.len() > 1);
}
