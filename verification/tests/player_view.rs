use ccweb::lines::ClearedLines;
use ccweb::model::{CellColor, FallingPiece, GameEvent, LockResult, Piece, RotationState, TspinStatus};
use ccweb::player_view::{canvas_extent, fade_frames, PlayerState, PlayerUiState, UiAction};

fn piece(x: i32, y: i32) -> FallingPiece {
    FallingPiece { piece: Piece::T, rotation: RotationState::North, x, y, tspin: TspinStatus::NoSpin }
}

fn lock(name: &str, clear: bool, hard: bool, rows: &[i32], combo: Option<u32>, b2b: bool, pc: bool) -> LockResult {
    let cleared_lines = ClearedLines::from_rows(rows);
    LockResult {
        kind_name: name.to_string(),
        is_clear: clear,
        is_hard: hard,
        cleared_lines,
        combo,
        b2b,
        perfect_clear: pc,
    }
}

#[test]
fn fresh_view_waits_for_a_piece() {
    let v: PlayerUiState<u8> = PlayerUiState::new();
    assert!(matches!(v.state(), PlayerState::SpawnDelay));
    assert_eq!(v.time(), 0);
    assert!(v.info().is_none());
    assert!(v.attack_caption().is_none());
    assert_eq!(v.combo_caption(), None);
    assert_eq!(v.line_clear_elapsed(), None);
}

#[test]
fn begin_update_advances_clock_and_keeps_last_report() {
    let mut v: PlayerUiState<u8> = PlayerUiState::new();
    v.begin_update(Some(5));
    assert_eq!(v.time(), 1);
    assert_eq!(*v.info(), Some(5));
    v.begin_update(None);
    assert_eq!(v.time(), 2);
    assert_eq!(*v.info(), Some(5));
    v.begin_update(Some(9));
    assert_eq!(*v.info(), Some(9));
}

#[test]
fn move_sound_waits_for_the_last_to_end() {
    let mut v: PlayerUiState<u8> = PlayerUiState::new();
    assert_eq!(v.handle_event(&GameEvent::PieceMoved, false), vec![UiAction::PlayMoveSound]);
    assert_eq!(v.handle_event(&GameEvent::PieceRotated, false), vec![]);
    assert_eq!(v.handle_event(&GameEvent::SoftDropped, true), vec![UiAction::PlayMoveSound]);
    assert_eq!(v.handle_event(&GameEvent::Other, true), vec![]);
}

#[test]
fn falling_and_game_over_states() {
    let mut v: PlayerUiState<u8> = PlayerUiState::new();
    v.handle_event(&GameEvent::PieceFalling(piece(4, 20), piece(4, 1)), false);
    match v.state() {
        PlayerState::Falling(p, g) => {
            assert_eq!(*p, piece(4, 20));
            assert_eq!(*g, piece(4, 1));
        }
        _ => panic!("expected a falling piece"),
    }
    assert_eq!(v.cell_color(CellColor::S), CellColor::S);
    v.handle_event(&GameEvent::GameOver, false);
    assert!(matches!(v.state(), PlayerState::GameOver));
    assert_eq!(v.cell_color(CellColor::S), CellColor::Unclearable);
    assert_eq!(v.cell_color(CellColor::Garbage), CellColor::Unclearable);
    assert_eq!(v.cell_color(CellColor::Empty), CellColor::Empty);
}

#[test]
fn garbage_columns_in_order() {
    let mut v: PlayerUiState<u8> = PlayerUiState::new();
    let acts = v.handle_event(&GameEvent::GarbageAdded(vec![3, 0, 9]), false);
    assert_eq!(acts, vec![UiAction::AddGarbage(3), UiAction::AddGarbage(0), UiAction::AddGarbage(9)]);
}

#[test]
fn plain_placement_locks_at_once() {
    let mut v: PlayerUiState<u8> = PlayerUiState::new();
    let ev = GameEvent::PiecePlaced { piece: piece(1, 0), locked: lock("", false, false, &[], None, false, false), hard_drop_distance: Some(18) };
    let acts = v.handle_event(&ev, false);
    assert_eq!(
        acts,
        vec![UiAction::RecordStatistics, UiAction::PlayHardDropSound, UiAction::LockPiece(piece(1, 0)), UiAction::AdvanceQueue]
    );
    assert!(matches!(v.state(), PlayerState::SpawnDelay));
    assert!(v.attack_caption().is_none());
}

#[test]
fn clearing_placement_delays_the_lock() {
    let mut v: PlayerUiState<u8> = PlayerUiState::new();
    for _ in 0..10 {
        v.begin_update(None);
    }
    let ev = GameEvent::PiecePlaced {
        piece: piece(5, 0),
        locked: lock("Tetris", true, true, &[0, 1, 2, 3], Some(0), false, false),
        hard_drop_distance: None,
    };
    let acts = v.handle_event(&ev, false);
    assert_eq!(acts, vec![UiAction::RecordStatistics, UiAction::PlayLineClearSound, UiAction::AdvanceQueue]);
    match v.state() {
        PlayerState::LineClearDelay { time, lines, piece: p } => {
            assert_eq!(*time, 10);
            assert_eq!(lines.rows(), vec![0, 1, 2, 3]);
            assert_eq!(*p, piece(5, 0));
        }
        _ => panic!("expected a line clear delay"),
    }
    for _ in 0..7 {
        v.begin_update(None);
    }
    assert_eq!(v.line_clear_elapsed(), Some(7));
    // a zero combo leaves no combo caption
    assert_eq!(v.combo_caption(), None);
    let (text, fade) = v.attack_caption().unwrap();
    assert_eq!(text, "Tetris");
    assert_eq!(fade, 0);
    assert_eq!(v.handle_event(&GameEvent::EndOfLineClearDelay, false), vec![UiAction::LockPiece(piece(5, 0))]);
    assert!(matches!(v.state(), PlayerState::SpawnDelay));
    assert_eq!(v.handle_event(&GameEvent::EndOfLineClearDelay, false), vec![]);
}

#[test]
fn attack_caption_texts() {
    let mut v: PlayerUiState<u8> = PlayerUiState::new();
    let b2b = GameEvent::PiecePlaced { piece: piece(0, 0), locked: lock("T-Spin Double", true, true, &[0, 1], Some(2), true, false), hard_drop_distance: None };
    v.handle_event(&b2b, false);
    assert_eq!(v.attack_caption().unwrap().0, "Back-To-Back T-Spin Double");
    assert_eq!(v.combo_caption(), Some((2, 0)));
    let pc = GameEvent::PiecePlaced { piece: piece(0, 0), locked: lock("Double", true, false, &[0, 1], Some(3), true, true), hard_drop_distance: None };
    v.handle_event(&pc, false);
    assert_eq!(v.attack_caption().unwrap().0, "Perfect Clear");
    let single = GameEvent::PiecePlaced { piece: piece(0, 0), locked: lock("Single", true, false, &[0], None, false, false), hard_drop_distance: None };
    v.handle_event(&single, false);
    // a plain single is no attack: the last caption stays
    assert_eq!(v.attack_caption().unwrap().0, "Perfect Clear");
    assert_eq!(v.combo_caption(), Some((3, 0)));
    for _ in 0..75 {
        v.begin_update(None);
    }
    assert_eq!(v.attack_caption().unwrap().1, 15);
    assert_eq!(v.combo_caption(), Some((3, 15)));
}

#[test]
fn reset_empties_the_view() {
    let mut v: PlayerUiState<u8> = PlayerUiState::new();
    v.begin_update(Some(1));
    v.handle_event(&GameEvent::GameOver, false);
    v.handle_event(&GameEvent::PieceMoved, false);
    v.reset();
    assert!(matches!(v.state(), PlayerState::SpawnDelay));
    assert_eq!(v.time(), 0);
    assert!(v.info().is_none());
    // the move sound started before the reset still plays
    assert_eq!(v.handle_event(&GameEvent::PieceMoved, false), vec![]);
}

#[test]
fn fade_after_hold_time() {
    assert_eq!(fade_frames(10, 10), 0);
    assert_eq!(fade_frames(10, 70), 0);
    assert_eq!(fade_frames(10, 71), 1);
    assert_eq!(fade_frames(0, 75), 15);
}

#[test]
fn canvas_extent_clamps_negative() {
    assert_eq!(canvas_extent(-5), 0);
    assert_eq!(canvas_extent(0), 0);
    assert_eq!(canvas_extent(640), 640);
}

#[test]
fn statistics_labels_with_and_without_report() {
    let mut v: PlayerUiState<u8> = PlayerUiState::new();
    let labels = v.statistics_labels();
    assert_eq!(labels.len(), 16);
    assert_eq!(labels[0], "Pieces");
    assert_eq!(labels[6], "Max Ren");
    assert_eq!(labels[15], "Perfect");
    v.begin_update(Some(1));
    let labels = v.statistics_labels();
    assert_eq!(&labels[16..], &["", "Depth", "Nodes", "O. Rank"]);
}

fn run_frame(v: &mut PlayerUiState<u8>, info: Option<u8>, events: &[GameEvent]) -> Vec<UiAction> {
    v.begin_update(info);
    let mut acts = Vec::new();
    for e in events {
        acts.extend(v.handle_event(e, false));
    }
    acts
}

fn frame_events() -> (Vec<GameEvent>, Vec<GameEvent>) {
    let es1 = vec![
        GameEvent::PieceMoved,
        GameEvent::PiecePlaced { piece: piece(2, 0), locked: lock("Double", true, false, &[0, 1], Some(1), false, false), hard_drop_distance: Some(3) },
    ];
    let es2 = vec![GameEvent::GarbageAdded(vec![4]), GameEvent::EndOfLineClearDelay, GameEvent::PieceRotated];
    (es1, es2)
}

#[test]
fn split_frame_hands_out_the_same_changes() {
    let (es1, es2) = frame_events();
    let mut whole: PlayerUiState<u8> = PlayerUiState::new();
    let mut all = es1.clone_events();
    all.extend(es2.clone_events());
    let acts = run_frame(&mut whole, Some(7), &all);
    let mut split: PlayerUiState<u8> = PlayerUiState::new();
    let mut acts2 = run_frame(&mut split, Some(7), &es1);
    acts2.extend(run_frame(&mut split, None, &es2));
    assert_eq!(acts, acts2);
    assert_eq!(*whole.info(), *split.info());
    assert_eq!(split.time(), whole.time() + 1);
    assert_eq!(whole.combo_caption().map(|c| c.0), split.combo_caption().map(|c| c.0));
}

trait CloneEvents {
    fn clone_events(&self) -> Vec<GameEvent>;
}

impl CloneEvents for Vec<GameEvent> {
    fn clone_events(&self) -> Vec<GameEvent> {
        self.iter()
            .map(|e| match e {
                GameEvent::PiecePlaced { piece, locked, hard_drop_distance } => GameEvent::PiecePlaced {
                    piece: *piece,
                    locked: LockResult {
                        kind_name: locked.kind_name.clone(),
                        is_clear: locked.is_clear,
                        is_hard: locked.is_hard,
                        cleared_lines: ClearedLines::from_rows(&locked.cleared_lines.rows()),
                        combo: locked.combo,
                        b2b: locked.b2b,
                        perfect_clear: locked.perfect_clear,
                    },
                    hard_drop_distance: *hard_drop_distance,
                },
                GameEvent::PieceSpawned { new_in_queue } => GameEvent::PieceSpawned { new_in_queue: *new_in_queue },
                GameEvent::PieceMoved => GameEvent::PieceMoved,
                GameEvent::PieceRotated => GameEvent::PieceRotated,
                GameEvent::SoftDropped => GameEvent::SoftDropped,
                GameEvent::PieceFalling(p, g) => GameEvent::PieceFalling(*p, *g),
                GameEvent::EndOfLineClearDelay => GameEvent::EndOfLineClearDelay,
                GameEvent::GameOver => GameEvent::GameOver,
                GameEvent::GarbageAdded(c) => GameEvent::GarbageAdded(c.clone()),
                GameEvent::Other => GameEvent::Other,
            })
            .collect()
    }
}

#[test]
fn split_frame_with_other_sound_readings_changes_the_board_alike() {
    let (es1, es2) = frame_events();
    let mut whole: PlayerUiState<u8> = PlayerUiState::new();
    let mut all = es1.clone_events();
    all.extend(es2.clone_events());
    whole.begin_update(Some(7));
    let mut acts = Vec::new();
    for e in &all {
        acts.extend(whole.handle_event(e, true));
    }
    let mut split: PlayerUiState<u8> = PlayerUiState::new();
    let mut acts2 = run_frame(&mut split, Some(7), &es1);
    acts2.extend(run_frame(&mut split, None, &es2));
    let board = |a: &Vec<UiAction>| a.iter().copied().filter(|x| *x != UiAction::PlayMoveSound).collect::<Vec<_>>();
    assert_eq!(board(&acts), board(&acts2));
    assert_eq!(split.time(), whole.time() + 1);
}
