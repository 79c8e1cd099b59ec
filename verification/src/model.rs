//! Plain-value models of the game data that the front end reads: pieces,
//! lock results, controller states and the events that a battle step
//! reports.

use vstd::prelude::*;
use crate::lines::{ClearedLines, cleared_rows};

verus! {

/// The seven tetromino kinds.
#[derive(Clone, Copy, Debug, PartialEq, Eq, Structural)]
pub enum Piece {
    I,
    O,
    T,
    L,
    J,
    S,
    Z,
}

/// The four orientations of a piece.
#[derive(Clone, Copy, Debug, PartialEq, Eq, Structural)]
pub enum RotationState {
    North,
    South,
    East,
    West,
}

/// Whether the last move of a piece was a (mini) T-spin.
#[derive(Clone, Copy, Debug, PartialEq, Eq, Structural)]
pub enum TspinStatus {
    NoSpin,
    Mini,
    Full,
}

/// A piece in play: its kind, orientation, position and spin status.
#[derive(Clone, Copy, Debug, PartialEq, Eq, Structural)]
pub struct FallingPiece {
    pub piece: Piece,
    pub rotation: RotationState,
    pub x: i32,
    pub y: i32,
    pub tspin: TspinStatus,
}

/// The colour of one board cell.
#[derive(Clone, Copy, Debug, PartialEq, Eq, Structural)]
pub enum CellColor {
    I,
    O,
    T,
    L,
    J,
    S,
    Z,
    Garbage,
    Unclearable,
    Empty,
}

/// Which buttons are held during one frame.
#[derive(Clone, Copy, Debug, PartialEq, Eq, Structural)]
pub struct Controller {
    pub left: bool,
    pub right: bool,
    pub rotate_right: bool,
    pub rotate_left: bool,
    pub soft_drop: bool,
    pub hard_drop: bool,
    pub hold: bool,
}

impl Controller {
    /// The controller with no button held.
    pub open spec fn spec_released() -> Controller {
        Controller {
            left: false,
            right: false,
            rotate_right: false,
            rotate_left: false,
            soft_drop: false,
            hard_drop: false,
            hold: false,
        }
    }
}

impl Default for Controller {
    /// No button held.
    fn default() -> (res: Controller)
        ensures
            res == Controller::spec_released(),
    {
        Controller {
            left: false,
            right: false,
            rotate_right: false,
            rotate_left: false,
            soft_drop: false,
            hard_drop: false,
            hold: false,
        }
    }
}

/// What locking a piece achieved.  `kind_name`, `is_clear` and `is_hard` are
/// the name of the placement kind and its two classifications, as the game
/// rules report them.
pub struct LockResult {
    pub kind_name: String,
    pub is_clear: bool,
    pub is_hard: bool,
    pub cleared_lines: ClearedLines,
    pub combo: Option<u32>,
    pub b2b: bool,
    pub perfect_clear: bool,
}

/// The plain value of a `LockResult`.
pub struct LockView {
    pub kind_name: Seq<char>,
    pub is_clear: bool,
    pub is_hard: bool,
    pub cleared_lines: Seq<i32>,
    pub combo: Option<u32>,
    pub b2b: bool,
    pub perfect_clear: bool,
}

impl View for LockResult {
    type V = LockView;

    open spec fn view(&self) -> LockView {
        LockView {
            kind_name: self.kind_name@,
            is_clear: self.is_clear,
            is_hard: self.is_hard,
            cleared_lines: cleared_rows(self.cleared_lines),
            combo: self.combo,
            b2b: self.b2b,
            perfect_clear: self.perfect_clear,
        }
    }
}

impl LockResult {
    /// A copy with the same value.
    pub fn duplicate(&self) -> (res: LockResult)
        ensures
            res@ == self@,
    {
        LockResult {
            kind_name: self.kind_name.clone(),
            is_clear: self.is_clear,
            is_hard: self.is_hard,
            cleared_lines: self.cleared_lines.duplicate(),
            combo: self.combo,
            b2b: self.b2b,
            perfect_clear: self.perfect_clear,
        }
    }
}

/// One event of a battle step, for one player's board.  `Other` stands for
/// the events that the front end does not act on (a hold, the start of a
/// spawn delay, a T-spin, touching the stack, sent garbage).
pub enum GameEvent {
    PiecePlaced { piece: FallingPiece, locked: LockResult, hard_drop_distance: Option<i32> },
    PieceSpawned { new_in_queue: Piece },
    PieceMoved,
    PieceRotated,
    SoftDropped,
    PieceFalling(FallingPiece, FallingPiece),
    EndOfLineClearDelay,
    GameOver,
    GarbageAdded(Vec<usize>),
    Other,
}

/// How many `GameOver` events a sequence of events holds.
pub open spec fn game_over_count(events: Seq<GameEvent>) -> nat
    decreases events.len(),
{
    if events.len() == 0 {
        0
    } else {
        game_over_count(events.drop_last()) + if events.last() is GameOver {
            1nat
        } else {
            0nat
        }
    }
}

/// The events of a sequence that are `GameOver` events.
pub open spec fn is_game_over(e: GameEvent) -> bool {
    e is GameOver
}

/// The count of game overs is the number of `GameOver` events among the
/// step's events: the length of the step's events kept to those that are
/// `GameOver`.
pub proof fn lemma_game_over_count_is_game_over_events(events: Seq<GameEvent>)
    ensures
        game_over_count(events) == events.filter(|e: GameEvent| is_game_over(e)).len(),
    decreases events.len(),
{
    reveal(Seq::filter);
    if events.len() > 0 {
        lemma_game_over_count_is_game_over_events(events.drop_last());
    }
}

/// A step without a `GameOver` event counts no game over; adding one
/// `GameOver` event counts one more, and adding any other event counts the
/// same.
pub proof fn lemma_game_over_count_steps(events: Seq<GameEvent>, e: GameEvent)
    ensures
        (forall|i: int| 0 <= i < events.len() ==> !(#[trigger] events[i] is GameOver)) ==> game_over_count(events)
            == 0,
        game_over_count(events.push(e)) == game_over_count(events) + if e is GameOver {
            1int
        } else {
            0int
        },
        game_over_count(events) <= events.len(),
    decreases events.len(),
{
    assert(events.push(e).drop_last() =~= events);
    if events.len() > 0 {
        lemma_game_over_count_steps(events.drop_last(), events.last());
        assert forall|i: int| 0 <= i < events.drop_last().len() implies events.drop_last()[i] == events[i] by {}
        if forall|i: int| 0 <= i < events.len() ==> !(#[trigger] events[i] is GameOver) {
            assert(!(events[events.len() - 1] is GameOver));
            assert(forall|i: int| 0 <= i < events.drop_last().len() ==> !(#[trigger] events.drop_last()[i] is GameOver)) by {
                assert forall|i: int| 0 <= i < events.drop_last().len() implies !(#[trigger] events.drop_last()[i] is GameOver) by {
                    assert(events.drop_last()[i] == events[i]);
                }
            }
            lemma_game_over_count_steps(events.drop_last(), events.last());
        }
    }
}

/// Counts the `GameOver` events of a step.
pub fn count_game_overs(events: &Vec<GameEvent>) -> (n: usize)
    ensures
        n == game_over_count(events@),
{
    let mut n: usize = 0;
    let mut i: usize = 0;
    while i < events.len()
        invariant
            i <= events.len(),
            n == game_over_count(events@.take(i as int)),
            n <= i,
        decreases events.len() - i,
    {
        assert(events@.take(i + 1).drop_last() =~= events@.take(i as int));
        if let GameEvent::GameOver = &events[i] {
            n = n + 1;
        }
        i = i + 1;
    }
    assert(events@.take(events@.len() as int) =~= events@);
    n
}

} // verus!
