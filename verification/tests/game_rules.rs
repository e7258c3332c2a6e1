use esp_guessing::game::GuessingGame;
use std::cmp::Ordering;

#[test]
fn guesses_are_counted_and_compared() {
    let mut g = GuessingGame::new(50);
    assert_eq!(g.guess(30), (Ordering::Less, 1));
    assert_eq!(g.guess(70), (Ordering::Greater, 2));
    assert_eq!(g.guess(50), (Ordering::Equal, 3));
}

#[test]
fn finished_game_is_frozen() {
    let mut g = GuessingGame::new(8);
    assert_eq!(g.guess(8), (Ordering::Equal, 1));
    assert_eq!(g.guess(1), (Ordering::Equal, 1));
    assert_eq!(g.guess(100), (Ordering::Equal, 1));
    assert_eq!(g.secret(), 8);
}

#[test]
fn count_stops_at_first_right_guess() {
    let mut g = GuessingGame::new(5);
    let plays = [1u32, 2, 5, 9, 5];
    let mut last = (Ordering::Less, 0);
    for p in plays.iter() {
        last = g.guess(*p);
    }
    assert_eq!(last, (Ordering::Equal, 3));
}

#[test]
fn guess_limit_is_reported() {
    let g = GuessingGame::new(1);
    assert!(g.can_take_guess());
}
