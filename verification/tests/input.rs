use ccweb::input::{BotCommand, BotInput, KeyboardInput};
use ccweb::model::{Controller, FallingPiece, GameEvent, Piece, RotationState, TspinStatus};
use ccweb::options::{BotConfig, Options, PlayerConfig};

#[test]
fn default_binding() {
    let c = KeyboardInput::default_config();
    assert_eq!(c.left, "ArrowLeft");
    assert_eq!(c.right, "ArrowRight");
    assert_eq!(c.rotate_left, "KeyZ");
    assert_eq!(c.rotate_right, "ArrowUp");
    assert_eq!(c.hard_drop, "Space");
    assert_eq!(c.soft_drop, "ArrowDown");
    assert_eq!(c.hold, "KeyC");
}

#[test]
fn keys_press_and_release() {
    let mut k = KeyboardInput::new(KeyboardInput::default_config());
    assert_eq!(k.controller(), Controller::default());
    k.key_down("ArrowLeft".to_string());
    k.key_down("KeyC".to_string());
    k.key_down("ArrowLeft".to_string());
    k.key_down("KeyQ".to_string());
    let c = k.controller();
    assert!(c.left && c.hold);
    assert!(!c.right && !c.rotate_left && !c.rotate_right && !c.soft_drop && !c.hard_drop);
    assert!(k.is_held(&"KeyQ".to_string()));
    k.key_up(&"ArrowLeft".to_string());
    assert!(!k.is_held(&"ArrowLeft".to_string()));
    assert!(!k.controller().left);
    assert!(k.controller().hold);
    k.key_up(&"Space".to_string());
    assert!(k.controller().hold);
    assert_eq!(k.config().hold, "KeyC");
}

fn fp(x: i32) -> FallingPiece {
    FallingPiece { piece: Piece::L, rotation: RotationState::East, x, y: 3, tspin: TspinStatus::NoSpin }
}

#[test]
fn bot_commands_follow_events() {
    let mut b = BotInput::new(4);
    assert_eq!(b.speed_limit(), 4);
    assert_eq!(b.controller(), Controller::default());
    let events = vec![
        GameEvent::PieceMoved,
        GameEvent::PieceSpawned { new_in_queue: Piece::S },
        GameEvent::GarbageAdded(vec![1]),
        GameEvent::PieceSpawned { new_in_queue: Piece::I },
    ];
    assert_eq!(
        b.commands_for_events(&events),
        vec![
            BotCommand::AddNextPiece(Piece::S),
            BotCommand::RequestNextMove,
            BotCommand::ResetFromBoard,
            BotCommand::AddNextPiece(Piece::I),
            BotCommand::RequestNextMove,
        ]
    );
    b.start_move(fp(2));
    assert!(b.is_executing());
    assert_eq!(
        b.commands_for_events(&events),
        vec![BotCommand::AddNextPiece(Piece::S), BotCommand::ResetFromBoard, BotCommand::AddNextPiece(Piece::I)]
    );
}

#[test]
fn bot_move_landing() {
    let mut b = BotInput::new(0);
    b.start_move(fp(2));
    let mut held = Controller::default();
    held.left = true;
    b.set_controller(held);
    assert!(b.controller().left);
    assert!(!b.finish_move(fp(2)));
    assert!(!b.is_executing());
    b.start_move(fp(2));
    assert!(b.finish_move(fp(3)));
}

#[test]
fn default_options() {
    let o: Options<u8, u16, bool> = Options::default();
    assert!(!o.p1.is_bot);
    assert!(o.p2.is_bot);
    assert_eq!(o.p1.controls.left, "ArrowLeft");
    assert_eq!(o.p2.controls.hold, "KeyC");
    assert_eq!(o.p1.bot_config.speed_limit, 0);
    assert_eq!(o.p1.game, 0);
    assert_eq!(o.p2.game, 0);
    assert_eq!(o.p2.bot_config.evaluator, 0);
    assert!(!o.p1.bot_config.options && !o.p2.bot_config.options);
    let p: PlayerConfig<u8, u16, bool> = PlayerConfig::default();
    assert!(!p.is_bot);
    let b: BotConfig<u16, bool> = BotConfig::default();
    assert_eq!(b.speed_limit, 0);
}

#[test]
fn controller_follows_last_key_change() {
    let cfg = KeyboardInput::default_config();
    let mut k = KeyboardInput::new(KeyboardInput::default_config());
    let changes: Vec<(bool, &str)> = vec![
        (true, "ArrowLeft"),
        (true, "Space"),
        (false, "ArrowLeft"),
        (true, "KeyC"),
        (false, "ArrowRight"),
        (true, "ArrowLeft"),
        (false, "Space"),
        (true, "Space"),
        (false, "KeyC"),
    ];
    for (down, code) in &changes {
        if *down {
            k.key_down(code.to_string());
        } else {
            k.key_up(&code.to_string());
        }
    }
    let c = k.controller();
    assert!(c.left);
    assert!(c.hard_drop);
    assert!(!c.hold);
    assert!(!c.right);
    assert!(!c.rotate_left && !c.rotate_right && !c.soft_drop);
    assert_eq!(k.config().left, cfg.left);
}
