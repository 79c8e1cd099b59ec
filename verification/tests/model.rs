use ccweb::model::{count_game_overs, Controller, GameEvent};

#[test]
fn counts_game_overs() {
    assert_eq!(count_game_overs(&vec![]), 0);
    assert_eq!(count_game_overs(&vec![GameEvent::PieceMoved, GameEvent::GameOver, GameEvent::Other, GameEvent::GameOver]), 2);
}

#[test]
fn released_controller() {
    let c = Controller::default();
    assert!(!(c.left || c.right || c.rotate_left || c.rotate_right || c.soft_drop || c.hard_drop || c.hold));
}
