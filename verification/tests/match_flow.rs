use ccweb::match_flow::{match_clock, FrameStep, MatchState, RoundStep};
use ccweb::model::GameEvent;

fn play_until_ready(m: &mut MatchState) -> usize {
    let mut waited = 0;
    while m.start_frame() == FrameStep::Waiting {
        waited += 1;
    }
    waited
}

#[test]
fn new_match_counts_down_three_seconds() {
    let mut m = MatchState::new();
    assert_eq!(m.countdown(), 180);
    assert_eq!(m.p1_wins(), 0);
    assert_eq!(m.p2_wins(), 0);
    assert!(!m.game_over());
    assert_eq!(play_until_ready(&mut m), 180);
    assert_eq!(m.countdown(), 0);
    assert_eq!(m.start_frame(), FrameStep::Play);
}

#[test]
fn countdown_seconds_shown() {
    let mut m = MatchState::new();
    assert_eq!(m.countdown_seconds(), Some(4));
    for _ in 0..120 {
        m.start_frame();
    }
    assert_eq!(m.countdown(), 60);
    assert_eq!(m.countdown_seconds(), Some(2));
    m.start_frame();
    assert_eq!(m.countdown_seconds(), Some(1));
    for _ in 0..59 {
        m.start_frame();
    }
    assert_eq!(m.countdown_seconds(), None);
}

#[test]
fn loss_on_one_board_wins_for_the_other() {
    let mut m = MatchState::new();
    play_until_ready(&mut m);
    let none: Vec<GameEvent> = vec![GameEvent::PieceMoved];
    assert_eq!(m.finish_frame(&none, &none), RoundStep::Continue);
    assert!(!m.game_over());
    let lost = vec![GameEvent::PieceMoved, GameEvent::GameOver];
    assert_eq!(m.finish_frame(&lost, &none), RoundStep::Continue);
    assert_eq!(m.p1_wins(), 0);
    assert_eq!(m.p2_wins(), 1);
    assert!(m.game_over());
}

#[test]
fn both_boards_lost_in_one_frame() {
    let mut m = MatchState::new();
    play_until_ready(&mut m);
    let lost = vec![GameEvent::GameOver];
    m.finish_frame(&lost, &lost);
    assert_eq!(m.p1_wins(), 1);
    assert_eq!(m.p2_wins(), 1);
}

#[test]
fn pause_then_new_round() {
    let mut m = MatchState::new();
    play_until_ready(&mut m);
    let none: Vec<GameEvent> = vec![];
    let lost = vec![GameEvent::GameOver];
    m.finish_frame(&none, &lost);
    assert_eq!(m.p1_wins(), 1);
    for _ in 0..300 {
        assert_eq!(m.start_frame(), FrameStep::Play);
        // losses reported while the game is over count for nothing
        assert_eq!(m.finish_frame(&lost, &lost), RoundStep::Continue);
    }
    assert_eq!(m.start_frame(), FrameStep::Play);
    assert_eq!(m.finish_frame(&none, &none), RoundStep::NewRound);
    assert!(!m.game_over());
    assert_eq!(m.countdown(), 180);
    assert_eq!(m.p1_wins(), 1);
    assert_eq!(m.p2_wins(), 0);
    assert_eq!(play_until_ready(&mut m), 180);
}

#[test]
fn clock_minutes_and_seconds() {
    assert_eq!(match_clock(0), (0, 0));
    assert_eq!(match_clock(59), (0, 0));
    assert_eq!(match_clock(60), (0, 1));
    assert_eq!(match_clock(121 * 60 + 30), (2, 1));
    assert_eq!(match_clock(3600 * 60), (60, 0));
}
