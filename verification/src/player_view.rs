//! What one player's board view remembers between frames, and the decisions
//! it takes on each battle event: which sounds to play, which changes to
//! make to the displayed board, and which captions to show.

use vstd::prelude::*;
use crate::lines::{ClearedLines, cleared_rows};
use crate::model::{CellColor, FallingPiece, GameEvent, LockResult, LockView};

verus! {

/// Frames during which an attack or combo caption stays fully visible.
pub const CAPTION_HOLD_FRAMES: u32 = 60;

/// The phase of the displayed board.
pub enum PlayerState {
    /// A piece falls; the second piece is where it would land.
    Falling(FallingPiece, FallingPiece),
    /// Waiting for the next piece to spawn.
    SpawnDelay,
    /// Cleared rows are being animated; `piece` is locked onto the board
    /// when the delay ends.
    LineClearDelay { time: u32, lines: ClearedLines, piece: FallingPiece },
    /// The game on this board is lost.
    GameOver,
}

/// The plain value of a `PlayerState`.
pub enum PlayerStateView {
    Falling(FallingPiece, FallingPiece),
    SpawnDelay,
    LineClearDelay { time: u32, lines: Seq<i32>, piece: FallingPiece },
    GameOver,
}

impl View for PlayerState {
    type V = PlayerStateView;

    open spec fn view(&self) -> PlayerStateView {
        match self {
            PlayerState::Falling(p, g) => PlayerStateView::Falling(*p, *g),
            PlayerState::SpawnDelay => PlayerStateView::SpawnDelay,
            PlayerState::LineClearDelay { time, lines, piece } => PlayerStateView::LineClearDelay {
                time: *time,
                lines: cleared_rows(*lines),
                piece: *piece,
            },
            PlayerState::GameOver => PlayerStateView::GameOver,
        }
    }
}

/// A change to make outside the view, in the order given.
#[derive(Clone, Copy, Debug, PartialEq, Eq, Structural)]
pub enum UiAction {
    /// Play the move sound, and watch for its end.
    PlayMoveSound,
    /// Play the hard-drop sound.
    PlayHardDropSound,
    /// Play the line-clear sound.
    PlayLineClearSound,
    /// Count the lock of the event at hand in the statistics.
    RecordStatistics,
    /// Add a garbage row with its hole in this column to the board.
    AddGarbage(usize),
    /// Lock this piece onto the displayed board.
    LockPiece(FallingPiece),
    /// Take the next piece off the displayed queue.
    AdvanceQueue,
}

/// The memory of one player's board view.  `I` is the type of the bot's
/// thinking report that the view shows.
pub struct PlayerUiState<I> {
    state: PlayerState,
    last_attack_type: Option<(LockResult, u32)>,
    last_combo: Option<(u32, u32)>,
    info: Option<I>,
    time: u32,
    move_sound_playing: bool,
}

/// The plain value of a `PlayerUiState`.
pub struct PlayerUiView<I> {
    pub state: PlayerStateView,
    pub last_attack_type: Option<(LockView, u32)>,
    pub last_combo: Option<(u32, u32)>,
    pub info: Option<I>,
    pub time: u32,
    pub move_sound_playing: bool,
}

impl<I> View for PlayerUiState<I> {
    type V = PlayerUiView<I>;

    closed spec fn view(&self) -> PlayerUiView<I> {
        PlayerUiView {
            state: self.state@,
            last_attack_type: match self.last_attack_type {
                Some((l, t)) => Some((l@, t)),
                None => None,
            },
            last_combo: self.last_combo,
            info: self.info,
            time: self.time,
            move_sound_playing: self.move_sound_playing,
        }
    }
}

/// No remembered frame stamp lies in the future of the view's clock.
pub open spec fn stamps_in_past<I>(v: PlayerUiView<I>) -> bool {
    &&& (v.state matches PlayerStateView::LineClearDelay { time, .. } ==> time <= v.time)
    &&& (v.last_attack_type matches Some((_, t)) ==> t <= v.time)
    &&& (v.last_combo matches Some((_, t)) ==> t <= v.time)
}

/// Whether an event is one that plays the move sound.
pub open spec fn is_move_event(e: GameEvent) -> bool {
    ||| e is PieceMoved
    ||| e is PieceRotated
    ||| e is SoftDropped
}

/// Whether a move event may start the move sound: none has been started
/// yet, or the last one has ended.
pub open spec fn may_play_move_sound<I>(v: PlayerUiView<I>, last_sound_ended: bool) -> bool {
    !v.move_sound_playing || last_sound_ended
}

/// The changes that placing `piece` with lock result `l` calls for.
pub open spec fn placed_actions(piece: FallingPiece, l: LockView, hard_drop_distance: Option<i32>) -> Seq<UiAction> {
    seq![UiAction::RecordStatistics]
        + (if hard_drop_distance is Some { seq![UiAction::PlayHardDropSound] } else { Seq::empty() })
        + (if l.is_clear { seq![UiAction::PlayLineClearSound] } else { Seq::empty() })
        + (if l.cleared_lines.len() == 0 { seq![UiAction::LockPiece(piece)] } else { Seq::empty() })
        + seq![UiAction::AdvanceQueue]
}

/// The changes that an event calls for.
pub open spec fn event_actions<I>(v: PlayerUiView<I>, e: GameEvent, last_sound_ended: bool) -> Seq<UiAction> {
    match e {
        GameEvent::PieceMoved | GameEvent::PieceRotated | GameEvent::SoftDropped => {
            if may_play_move_sound(v, last_sound_ended) {
                seq![UiAction::PlayMoveSound]
            } else {
                Seq::empty()
            }
        },
        GameEvent::GarbageAdded(columns) => columns@.map_values(|c: usize| UiAction::AddGarbage(c)),
        GameEvent::PiecePlaced { piece, locked, hard_drop_distance } => placed_actions(
            piece,
            locked@,
            hard_drop_distance,
        ),
        GameEvent::EndOfLineClearDelay => match v.state {
            PlayerStateView::LineClearDelay { piece, .. } => seq![UiAction::LockPiece(piece)],
            _ => Seq::empty(),
        },
        _ => Seq::empty(),
    }
}

/// The view after placing `piece` with lock result `l`.
pub open spec fn placed_view<I>(v: PlayerUiView<I>, piece: FallingPiece, l: LockView) -> PlayerUiView<I> {
    PlayerUiView {
        state: if l.cleared_lines.len() == 0 {
            PlayerStateView::SpawnDelay
        } else {
            PlayerStateView::LineClearDelay { time: v.time, lines: l.cleared_lines, piece }
        },
        last_attack_type: if l.is_hard || l.perfect_clear {
            Some((l, v.time))
        } else {
            v.last_attack_type
        },
        last_combo: match l.combo {
            Some(c) => if c > 0 { Some((c, v.time)) } else { v.last_combo },
            None => v.last_combo,
        },
        ..v
    }
}

/// The view after an event.
pub open spec fn event_view<I>(v: PlayerUiView<I>, e: GameEvent, last_sound_ended: bool) -> PlayerUiView<I> {
    match e {
        GameEvent::PieceMoved | GameEvent::PieceRotated | GameEvent::SoftDropped => {
            if may_play_move_sound(v, last_sound_ended) {
                PlayerUiView { move_sound_playing: true, ..v }
            } else {
                v
            }
        },
        GameEvent::GameOver => PlayerUiView { state: PlayerStateView::GameOver, ..v },
        GameEvent::PieceFalling(piece, ghost) => PlayerUiView { state: PlayerStateView::Falling(piece, ghost), ..v },
        GameEvent::PiecePlaced { piece, locked, .. } => placed_view(v, piece, locked@),
        GameEvent::EndOfLineClearDelay => match v.state {
            PlayerStateView::LineClearDelay { .. } => PlayerUiView { state: PlayerStateView::SpawnDelay, ..v },
            _ => v,
        },
        _ => v,
    }
}

/// The view of a fresh board, with the move sound in the given state.
pub open spec fn fresh_view<I>(move_sound_playing: bool) -> PlayerUiView<I> {
    PlayerUiView {
        state: PlayerStateView::SpawnDelay,
        last_attack_type: None,
        last_combo: None,
        info: None,
        time: 0,
        move_sound_playing,
    }
}

/// Frames past the hold time since a caption was set at frame `then`.
pub open spec fn fade_frames_spec(then: u32, now: u32) -> int {
    if now - then > CAPTION_HOLD_FRAMES {
        now - then - CAPTION_HOLD_FRAMES
    } else {
        0
    }
}

/// The text of an attack caption.
pub open spec fn attack_text(l: LockView) -> Seq<char> {
    if l.perfect_clear {
        "Perfect Clear"@
    } else if l.b2b {
        "Back-To-Back "@ + l.kind_name
    } else {
        l.kind_name
    }
}

/// How a board cell is shown: a lost board shows every filled cell as
/// unclearable.
pub open spec fn shown_color(state: PlayerStateView, cell: CellColor) -> CellColor {
    if cell != CellColor::Empty && state is GameOver {
        CellColor::Unclearable
    } else {
        cell
    }
}

/// The labels of the statistics lines that are always shown.
pub open spec fn game_statistics_labels() -> Seq<Seq<char>> {
    seq![
        "Pieces"@, "PPS"@, "Lines"@, "Attack"@, "APM"@, "APP"@, "Max Ren"@, "Single"@, "Double"@,
        "Triple"@, "Tetris"@, "T-Spin 0"@, "T-Spin 1"@, "T-Spin 2"@, "T-Spin 3"@, "Perfect"@,
    ]
}

/// The labels of the lines about the bot's report, after a blank line.
pub open spec fn bot_statistics_labels() -> Seq<Seq<char>> {
    seq![""@, "Depth"@, "Nodes"@, "O. Rank"@]
}

/// Frames past the hold time since a caption was set at frame `then`, as
/// of frame `now`.
pub fn fade_frames(then: u32, now: u32) -> (res: u32)
    requires
        then <= now,
    ensures
        res == fade_frames_spec(then, now),
{
    (now - then).saturating_sub(CAPTION_HOLD_FRAMES)
}

impl<I> PlayerUiState<I> {
    #[verifier::type_invariant]
    closed spec fn inv(self) -> bool {
        stamps_in_past(self@)
    }

    /// A fresh view: waiting for a piece, no captions, no bot report, clock
    /// at zero, no move sound started.
    pub fn new() -> (res: PlayerUiState<I>)
        ensures
            res@ == fresh_view::<I>(false),
    {
        PlayerUiState {
            state: PlayerState::SpawnDelay,
            last_attack_type: None,
            last_combo: None,
            info: None,
            time: 0,
            move_sound_playing: false,
        }
    }

    /// Empties the view for a new round: waiting for a piece, no captions,
    /// no bot report, clock at zero.  Whether a move sound was started is
    /// kept.
    pub fn reset(&mut self)
        ensures
            final(self)@ == fresh_view::<I>(old(self)@.move_sound_playing),
    {
        *self = PlayerUiState {
            state: PlayerState::SpawnDelay,
            last_attack_type: None,
            last_combo: None,
            info: None,
            time: 0,
            move_sound_playing: self.move_sound_playing,
        };
    }

    /// Starts a frame: the clock advances by one, and a new bot report, if
    /// one came, replaces the last.
    pub fn begin_update(&mut self, info: Option<I>)
        requires
            old(self)@.time < u32::MAX,
        ensures
            final(self)@ == (PlayerUiView {
                time: (old(self)@.time + 1) as u32,
                info: if info is Some { info } else { old(self)@.info },
                ..old(self)@
            }),
    {
        proof {
            use_type_invariant(&*self);
        }
        if info.is_some() {
            self.info = info;
        }
        self.time = self.time + 1;
    }

    /// Takes in one battle event and returns the changes it calls for, in
    /// order.  `last_sound_ended` tells whether the last move sound started
    /// has ended (it is read only when one was started).
    pub fn handle_event(&mut self, event: &GameEvent, last_sound_ended: bool) -> (actions: Vec<UiAction>)
        ensures
            actions@ == event_actions(old(self)@, *event, last_sound_ended),
            final(self)@ == event_view(old(self)@, *event, last_sound_ended),
    {
        proof {
            use_type_invariant(&*self);
        }
        let mut actions: Vec<UiAction> = Vec::new();
        match event {
            GameEvent::PieceMoved | GameEvent::PieceRotated | GameEvent::SoftDropped => {
                if !self.move_sound_playing || last_sound_ended {
                    actions.push(UiAction::PlayMoveSound);
                    self.move_sound_playing = true;
                }
            },
            GameEvent::GameOver => {
                self.state = PlayerState::GameOver;
            },
            GameEvent::PieceFalling(piece, ghost) => {
                self.state = PlayerState::Falling(*piece, *ghost);
            },
            GameEvent::GarbageAdded(columns) => {
                let mut i: usize = 0;
                while i < columns.len()
                    invariant
                        i <= columns.len(),
                        actions@ == columns@.take(i as int).map_values(|c: usize| UiAction::AddGarbage(c)),
                    decreases columns.len() - i,
                {
                    actions.push(UiAction::AddGarbage(columns[i]));
                    i = i + 1;
                    assert(actions@ =~= columns@.take(i as int).map_values(|c: usize| UiAction::AddGarbage(c)));
                }
                assert(columns@.take(columns@.len() as int) =~= columns@);
            },
            GameEvent::PiecePlaced { piece, locked, hard_drop_distance } => {
                actions.push(UiAction::RecordStatistics);
                if hard_drop_distance.is_some() {
                    actions.push(UiAction::PlayHardDropSound);
                }
                if locked.is_clear {
                    actions.push(UiAction::PlayLineClearSound);
                }
                if locked.cleared_lines.is_empty() {
                    actions.push(UiAction::LockPiece(*piece));
                    self.state = PlayerState::SpawnDelay;
                } else {
                    self.state = PlayerState::LineClearDelay {
                        time: self.time,
                        lines: locked.cleared_lines.duplicate(),
                        piece: *piece,
                    };
                }
                if locked.is_hard || locked.perfect_clear {
                    self.last_attack_type = Some((locked.duplicate(), self.time));
                }
                if let Some(combo) = locked.combo {
                    if combo > 0 {
                        self.last_combo = Some((combo, self.time));
                    }
                }
                actions.push(UiAction::AdvanceQueue);
                assert(actions@ =~= placed_actions(*piece, locked@, *hard_drop_distance));
            },
            GameEvent::EndOfLineClearDelay => {
                if let PlayerState::LineClearDelay { piece, .. } = &self.state {
                    actions.push(UiAction::LockPiece(*piece));
                    self.state = PlayerState::SpawnDelay;
                }
            },
            _ => {},
        }
        actions
    }

    /// The phase of the displayed board.
    pub fn state(&self) -> (res: &PlayerState)
        ensures
            res@ == self@.state,
    {
        &self.state
    }

    /// The last bot report received.
    pub fn info(&self) -> (res: &Option<I>)
        ensures
            *res == self@.info,
    {
        &self.info
    }

    /// Frames since the view was made or reset.
    pub fn time(&self) -> (res: u32)
        ensures
            res == self@.time,
            stamps_in_past(self@),
    {
        proof {
            use_type_invariant(self);
        }
        self.time
    }

    /// The labels of the statistics lines, in order: the game's lines, and
    /// the bot's lines when a bot report has come.
    pub fn statistics_labels(&self) -> (res: Vec<&'static str>)
        ensures
            res@.map_values(|l: &'static str| l@) == game_statistics_labels() + if self@.info is Some {
                bot_statistics_labels()
            } else {
                Seq::empty()
            },
    {
        let mut res: Vec<&'static str> = vec![
            "Pieces", "PPS", "Lines", "Attack", "APM", "APP", "Max Ren", "Single", "Double",
            "Triple", "Tetris", "T-Spin 0", "T-Spin 1", "T-Spin 2", "T-Spin 3", "Perfect",
        ];
        if self.info.is_some() {
            res.push("");
            res.push("Depth");
            res.push("Nodes");
            res.push("O. Rank");
        }
        assert(res@.map_values(|l: &'static str| l@) =~= game_statistics_labels() + if self@.info is Some {
            bot_statistics_labels()
        } else {
            Seq::empty()
        });
        res
    }

    /// How a board cell is shown in the current phase.
    pub fn cell_color(&self, cell: CellColor) -> (res: CellColor)
        ensures
            res == shown_color(self@.state, cell),
    {
        if cell != CellColor::Empty {
            if let PlayerState::GameOver = self.state {
                return CellColor::Unclearable;
            }
        }
        cell
    }

    /// Frames since the current line clear delay began; none outside one.
    pub fn line_clear_elapsed(&self) -> (res: Option<u32>)
        ensures
            res == (match self@.state {
                PlayerStateView::LineClearDelay { time, .. } => Some((self@.time - time) as u32),
                _ => None::<u32>,
            }),
            res matches Some(e) ==> e <= self@.time,
            stamps_in_past(self@),
    {
        proof {
            use_type_invariant(self);
        }
        match &self.state {
            PlayerState::LineClearDelay { time, .. } => Some(self.time - *time),
            _ => None,
        }
    }

    /// The attack caption, if an attack was made: its text, and the frames
    /// past its hold time.
    pub fn attack_caption(&self) -> (res: Option<(String, u32)>)
        ensures
            match self@.last_attack_type {
                Some((l, t)) => res matches Some((text, fade)) && text@ == attack_text(l)
                    && fade == fade_frames_spec(t, self@.time),
                None => res is None,
            },
    {
        proof {
            use_type_invariant(self);
        }
        match &self.last_attack_type {
            Some((lock, time)) => {
                let text = if lock.perfect_clear {
                    String::from_str("Perfect Clear")
                } else if lock.b2b {
                    String::from_str("Back-To-Back ").concat(lock.kind_name.as_str())
                } else {
                    lock.kind_name.clone()
                };
                Some((text, fade_frames(*time, self.time)))
            },
            None => None,
        }
    }

    /// The combo caption, if a combo was made: the combo count, and the
    /// frames past its hold time.
    pub fn combo_caption(&self) -> (res: Option<(u32, u32)>)
        ensures
            res == (match self@.last_combo {
                Some((c, t)) => Some((c, fade_frames_spec(t, self@.time) as u32)),
                None => None::<(u32, u32)>,
            }),
    {
        proof {
            use_type_invariant(self);
        }
        match self.last_combo {
            Some((combo, time)) => Some((combo, fade_frames(time, self.time))),
            None => None,
        }
    }
}

/// The size a canvas takes from its laid-out size: negative sizes count as
/// zero.
pub fn canvas_extent(client: i32) -> (res: u32)
    ensures
        res == (if client < 0 { 0 } else { client as int }),
{
    if client < 0 {
        0
    } else {
        client as u32
    }
}

/// A piece whose lock clears rows is not locked onto the displayed board
/// when it is placed: the rows are animated first, and the piece is locked
/// exactly once, when the line clear delay ends.
pub proof fn lemma_cleared_rows_delay_the_lock<I>(
    v: PlayerUiView<I>,
    placed: GameEvent,
    first_ended: bool,
    second_ended: bool,
)
    requires
        placed matches GameEvent::PiecePlaced { locked, .. } && locked@.cleared_lines.len() > 0,
    ensures
        ({
            let piece = placed->piece;
            let after = event_view(v, placed, first_ended);
            &&& !event_actions(v, placed, first_ended).contains(UiAction::LockPiece(piece))
            &&& after.state == (PlayerStateView::LineClearDelay {
                time: v.time,
                lines: placed->locked@.cleared_lines,
                piece,
            })
            &&& event_actions(after, GameEvent::EndOfLineClearDelay, second_ended) == seq![UiAction::LockPiece(piece)]
            &&& event_view(after, GameEvent::EndOfLineClearDelay, second_ended).state == PlayerStateView::SpawnDelay
        }),
{
    let piece = placed->piece;
    let acts = event_actions(v, placed, first_ended);
    if acts.contains(UiAction::LockPiece(piece)) {
        let i = choose|i: int| 0 <= i < acts.len() && acts[i] == UiAction::LockPiece(piece);
        assert(acts[i] == UiAction::LockPiece(piece));
    }
}

/// A piece whose lock clears no row is locked onto the displayed board right
/// away, after the statistics and sounds and before the queue advances.
pub proof fn lemma_plain_lock_is_immediate<I>(v: PlayerUiView<I>, placed: GameEvent, ended: bool)
    requires
        placed matches GameEvent::PiecePlaced { locked, .. } && locked@.cleared_lines.len() == 0,
    ensures
        ({
            let acts = event_actions(v, placed, ended);
            &&& acts[acts.len() - 2] == UiAction::LockPiece(placed->piece)
            &&& event_view(v, placed, ended).state == PlayerStateView::SpawnDelay
        }),
{
}

/// Each placed piece is counted in the statistics once, first, and advances
/// the displayed queue once, last.
pub proof fn lemma_placement_counts_once(piece: FallingPiece, l: LockView, hard_drop_distance: Option<i32>)
    ensures
        ({
            let acts = placed_actions(piece, l, hard_drop_distance);
            &&& acts[0] == UiAction::RecordStatistics
            &&& acts.last() == UiAction::AdvanceQueue
            &&& forall|i: int| 0 < i < acts.len() ==> #[trigger] acts[i] != UiAction::RecordStatistics
            &&& forall|i: int| 0 <= i < acts.len() - 1 ==> #[trigger] acts[i] != UiAction::AdvanceQueue
        }),
{
    let acts = placed_actions(piece, l, hard_drop_distance);
    assert forall|i: int| 0 < i < acts.len() implies #[trigger] acts[i] != UiAction::RecordStatistics by {}
    assert forall|i: int| 0 <= i < acts.len() - 1 implies #[trigger] acts[i] != UiAction::AdvanceQueue by {}
}

/// The move sound is started only by a move, rotation or soft drop, and
/// never while the last move sound still plays.
pub proof fn lemma_move_sound_never_overlaps<I>(v: PlayerUiView<I>, e: GameEvent, last_sound_ended: bool)
    ensures
        event_actions(v, e, last_sound_ended).contains(UiAction::PlayMoveSound) ==> is_move_event(e)
            && may_play_move_sound(v, last_sound_ended),
        v.move_sound_playing && !last_sound_ended ==> !event_actions(v, e, last_sound_ended).contains(
            UiAction::PlayMoveSound,
        ),
{
    let acts = event_actions(v, e, last_sound_ended);
    if acts.contains(UiAction::PlayMoveSound) {
        let i = choose|i: int| 0 <= i < acts.len() && acts[i] == UiAction::PlayMoveSound;
        assert(acts[i] == UiAction::PlayMoveSound);
    }
}

/// Events never move a remembered frame stamp past the clock, nor change
/// the clock or the bot report.
pub proof fn lemma_events_keep_clock<I>(v: PlayerUiView<I>, e: GameEvent, last_sound_ended: bool)
    requires
        stamps_in_past(v),
    ensures
        stamps_in_past(event_view(v, e, last_sound_ended)),
        event_view(v, e, last_sound_ended).time == v.time,
        event_view(v, e, last_sound_ended).info == v.info,
{
}

/// The view and the changes, in order, after taking in `events` one by one
/// from `v`; `ended[k]` is what the move sound's end was seen as when event
/// `k` came.
pub open spec fn events_run<I>(v: PlayerUiView<I>, events: Seq<GameEvent>, ended: Seq<bool>) -> (
    PlayerUiView<I>,
    Seq<UiAction>,
)
    decreases events.len(),
{
    if events.len() == 0 {
        (v, Seq::empty())
    } else {
        let k = events.len() - 1;
        let (w, acts) = events_run(v, events.drop_last(), ended);
        (event_view(w, events[k], ended[k]), acts + event_actions(w, events[k], ended[k]))
    }
}

/// The view at the start of a frame that brought the bot report `info`.
pub open spec fn begun_view<I>(v: PlayerUiView<I>, info: Option<I>) -> PlayerUiView<I> {
    PlayerUiView { time: (v.time + 1) as u32, info: if info is Some { info } else { v.info }, ..v }
}

/// One whole frame: it is begun with `info`, then its events are taken in.
pub open spec fn frame_run<I>(v: PlayerUiView<I>, info: Option<I>, events: Seq<GameEvent>, ended: Seq<bool>) -> (
    PlayerUiView<I>,
    Seq<UiAction>,
)
{
    events_run(begun_view(v, info), events, ended)
}

/// Two phases that differ at most in the frame at which a line clear
/// delay began.
pub open spec fn same_phase_but_clock(a: PlayerStateView, b: PlayerStateView) -> bool {
    match a {
        PlayerStateView::LineClearDelay { lines, piece, .. } => b matches PlayerStateView::LineClearDelay {
            lines: l2,
            piece: p2,
            ..
        } && l2 == lines && p2 == piece,
        _ => a == b,
    }
}

/// Two views that differ at most in their clock and in the frames at which
/// their phase and captions were set.
pub open spec fn same_but_clock<I>(a: PlayerUiView<I>, b: PlayerUiView<I>) -> bool {
    &&& same_phase_but_clock(a.state, b.state)
    &&& (match a.last_attack_type {
        Some((l, _)) => b.last_attack_type matches Some((l2, _)) && l2 == l,
        None => b.last_attack_type is None,
    })
    &&& (match a.last_combo {
        Some((c, _)) => b.last_combo matches Some((c2, _)) && c2 == c,
        None => b.last_combo is None,
    })
    &&& a.info == b.info
    &&& a.move_sound_playing == b.move_sound_playing
}

/// Taking in events one after the other: a run over `es1` followed by `es2`
/// is the run over `es2` from where the run over `es1` ends, and its
/// changes are those of the first run followed by those of the second.
pub proof fn lemma_events_run_concat<I>(
    v: PlayerUiView<I>,
    es1: Seq<GameEvent>,
    es2: Seq<GameEvent>,
    e1: Seq<bool>,
    e2: Seq<bool>,
)
    requires
        e1.len() == es1.len(),
        e2.len() == es2.len(),
    ensures
        ({
            let (w, a) = events_run(v, es1, e1);
            let (x, b) = events_run(w, es2, e2);
            events_run(v, es1 + es2, e1 + e2) == (x, a + b)
        }),
    decreases es2.len(),
{
    let (w, a) = events_run(v, es1, e1);
    if es2.len() == 0 {
        assert(es1 + es2 =~= es1);
        lemma_events_run_prefix(v, es1, e1, e1 + e2);
        assert(a + Seq::<UiAction>::empty() =~= a);
    } else {
        lemma_events_run_concat(v, es1, es2.drop_last(), e1, e2.drop_last());
        lemma_events_run_prefix(w, es2.drop_last(), e2.drop_last(), e2);
        assert(e2.drop_last() =~= e2.take(es2.len() - 1));
        assert(e1 + e2.drop_last() =~= (e1 + e2).take(es1.len() + es2.len() - 1));
        lemma_events_run_prefix(v, es1 + es2.drop_last(), e1 + e2.drop_last(), e1 + e2);
        assert((es1 + es2).drop_last() =~= es1 + es2.drop_last());
        let k = es2.len() - 1;
        assert((es1 + es2)[es1.len() + k] == es2[k]);
        assert((e1 + e2)[es1.len() + k] == e2[k]);
        lemma_events_run_prefix(v, es1 + es2.drop_last(), e1 + e2, e1 + e2.take(k));
        lemma_events_run_prefix(w, es2.drop_last(), e2, e2.take(k));
        assert(e1 + e2.take(k) =~= (e1 + e2).take(es1.len() + k));
        let (y, b0) = events_run(w, es2.drop_last(), e2);
        assert(a + (b0 + event_actions(y, es2[k], e2[k])) =~= (a + b0) + event_actions(y, es2[k], e2[k]));
    }
}

/// A run depends only on the move sound readings of its own events.
proof fn lemma_events_run_prefix<I>(v: PlayerUiView<I>, es: Seq<GameEvent>, e: Seq<bool>, f: Seq<bool>)
    requires
        es.len() <= e.len(),
        es.len() <= f.len(),
        forall|k: int| 0 <= k < es.len() ==> #[trigger] e[k] == f[k],
    ensures
        events_run(v, es, e) == events_run(v, es, f),
    decreases es.len(),
{
    if es.len() > 0 {
        lemma_events_run_prefix(v, es.drop_last(), e, f);
        assert(e[es.len() - 1] == f[es.len() - 1]);
    }
}

/// Events take the same effect on two views that differ only in their
/// clocks: the same changes, views that again differ only in their clocks,
/// and the clocks untouched.
pub proof fn lemma_events_ignore_clock<I>(a: PlayerUiView<I>, b: PlayerUiView<I>, es: Seq<GameEvent>, e: Seq<bool>)
    requires
        same_but_clock(a, b),
    ensures
        events_run(a, es, e).1 == events_run(b, es, e).1,
        same_but_clock(events_run(a, es, e).0, events_run(b, es, e).0),
        events_run(a, es, e).0.time == a.time,
        events_run(b, es, e).0.time == b.time,
    decreases es.len(),
{
    if es.len() > 0 {
        lemma_events_ignore_clock(a, b, es.drop_last(), e);
    }
}

/// Splitting one frame's events over two frames changes nothing the frame
/// hands out: the same changes in the same order (so the same board and
/// statistics), the same bot report and move sound state, and the same
/// phase and captions but for the frame stamps; only the clock is one frame
/// further.
pub proof fn lemma_split_frame<I>(
    v: PlayerUiView<I>,
    info: Option<I>,
    es1: Seq<GameEvent>,
    es2: Seq<GameEvent>,
    e1: Seq<bool>,
    e2: Seq<bool>,
)
    requires
        e1.len() == es1.len(),
        e2.len() == es2.len(),
        v.time + 2 <= u32::MAX,
    ensures
        ({
            let (whole, acts) = frame_run(v, info, es1 + es2, e1 + e2);
            let (first, acts1) = frame_run(v, info, es1, e1);
            let (second, acts2) = frame_run(first, None, es2, e2);
            &&& acts == acts1 + acts2
            &&& same_but_clock(whole, second)
            &&& second.info == whole.info
            &&& second.time == whole.time + 1
        }),
{
    let b = begun_view(v, info);
    lemma_events_run_concat(b, es1, es2, e1, e2);
    let (first, acts1) = events_run(b, es1, e1);
    lemma_events_ignore_clock(b, b, es1, e1);
    assert(same_but_clock(first, begun_view(first, None)));
    lemma_events_ignore_clock(first, begun_view(first, None), es2, e2);
}

/// The changes other than starting the move sound, in order: the ones that
/// touch the board, the statistics and the other sounds.
pub open spec fn board_actions(acts: Seq<UiAction>) -> Seq<UiAction>
    decreases acts.len(),
{
    if acts.len() == 0 {
        Seq::empty()
    } else if acts.last() == UiAction::PlayMoveSound {
        board_actions(acts.drop_last())
    } else {
        board_actions(acts.drop_last()).push(acts.last())
    }
}

proof fn lemma_board_actions_concat(a: Seq<UiAction>, b: Seq<UiAction>)
    ensures
        board_actions(a + b) == board_actions(a) + board_actions(b),
    decreases b.len(),
{
    if b.len() == 0 {
        assert(a + b =~= a);
        assert(board_actions(a) + board_actions(b) =~= board_actions(a));
    } else {
        lemma_board_actions_concat(a, b.drop_last());
        assert((a + b).drop_last() =~= a + b.drop_last());
        assert((a + b).last() == b.last());
        if b.last() != UiAction::PlayMoveSound {
            assert(board_actions(a) + board_actions(b) =~= (board_actions(a) + board_actions(b.drop_last())).push(
                b.last(),
            ));
        }
    }
}

/// Two views that differ at most in their clock, the frames at which their
/// phase and captions were set, and whether a move sound was started.
pub open spec fn same_but_clock_and_sound<I>(a: PlayerUiView<I>, b: PlayerUiView<I>) -> bool {
    same_but_clock(a, PlayerUiView { move_sound_playing: a.move_sound_playing, ..b })
}

proof fn lemma_event_ignores_clock_and_sound<I>(
    a: PlayerUiView<I>,
    b: PlayerUiView<I>,
    e: GameEvent,
    ra: bool,
    rb: bool,
)
    requires
        same_but_clock_and_sound(a, b),
    ensures
        board_actions(event_actions(a, e, ra)) == board_actions(event_actions(b, e, rb)),
        same_but_clock_and_sound(event_view(a, e, ra), event_view(b, e, rb)),
        event_view(a, e, ra).time == a.time,
        event_view(b, e, rb).time == b.time,
{
    if is_move_event(e) {
        let s = seq![UiAction::PlayMoveSound];
        assert(s.drop_last() =~= Seq::<UiAction>::empty());
        assert(s.last() == UiAction::PlayMoveSound);
        assert(board_actions(Seq::<UiAction>::empty()) == Seq::<UiAction>::empty());
        assert(board_actions(s) == board_actions(s.drop_last()));
        assert(board_actions(s) == Seq::<UiAction>::empty());
    }
}

/// Events take the same effect on the board, whatever the move sound
/// readings, on two views that differ only in their clocks, frame stamps
/// and move sound state.
pub proof fn lemma_events_ignore_clock_and_sound<I>(
    a: PlayerUiView<I>,
    b: PlayerUiView<I>,
    es: Seq<GameEvent>,
    ra: Seq<bool>,
    rb: Seq<bool>,
)
    requires
        same_but_clock_and_sound(a, b),
    ensures
        board_actions(events_run(a, es, ra).1) == board_actions(events_run(b, es, rb).1),
        same_but_clock_and_sound(events_run(a, es, ra).0, events_run(b, es, rb).0),
        events_run(a, es, ra).0.time == a.time,
        events_run(b, es, rb).0.time == b.time,
    decreases es.len(),
{
    if es.len() > 0 {
        let k = es.len() - 1;
        lemma_events_ignore_clock_and_sound(a, b, es.drop_last(), ra, rb);
        let (wa, aa) = events_run(a, es.drop_last(), ra);
        let (wb, ab) = events_run(b, es.drop_last(), rb);
        lemma_event_ignores_clock_and_sound(wa, wb, es[k], ra[k], rb[k]);
        lemma_board_actions_concat(aa, event_actions(wa, es[k], ra[k]));
        lemma_board_actions_concat(ab, event_actions(wb, es[k], rb[k]));
    }
}

/// Splitting one frame's events over two frames, whatever the move sound
/// readings in either case, hands out the same changes to the board, the
/// statistics and the other sounds, in the same order, keeps the bot report
/// and the phase and captions (but for their frame stamps), and puts the
/// clock one frame further.
pub proof fn lemma_split_frame_any_readings<I>(
    v: PlayerUiView<I>,
    info: Option<I>,
    es1: Seq<GameEvent>,
    es2: Seq<GameEvent>,
    whole_readings: Seq<bool>,
    e1: Seq<bool>,
    e2: Seq<bool>,
)
    requires
        whole_readings.len() == es1.len() + es2.len(),
        e1.len() == es1.len(),
        e2.len() == es2.len(),
        v.time + 2 <= u32::MAX,
    ensures
        ({
            let (whole, acts) = frame_run(v, info, es1 + es2, whole_readings);
            let (first, acts1) = frame_run(v, info, es1, e1);
            let (second, acts2) = frame_run(first, None, es2, e2);
            &&& board_actions(acts) == board_actions(acts1 + acts2)
            &&& same_but_clock_and_sound(whole, second)
            &&& second.info == whole.info
            &&& second.time == whole.time + 1
        }),
{
    let b = begun_view(v, info);
    let w1 = whole_readings.take(es1.len() as int);
    let w2 = whole_readings.skip(es1.len() as int);
    assert(w1 + w2 =~= whole_readings);
    lemma_events_run_concat(b, es1, es2, w1, w2);
    let (mid, m1) = events_run(b, es1, w1);
    let (first, acts1) = events_run(b, es1, e1);
    lemma_events_ignore_clock_and_sound(b, b, es1, w1, e1);
    let nb = begun_view(first, None);
    assert(same_but_clock_and_sound(mid, nb));
    lemma_events_ignore_clock_and_sound(mid, nb, es2, w2, e2);
    let m2 = events_run(mid, es2, w2).1;
    let acts2 = events_run(nb, es2, e2).1;
    lemma_board_actions_concat(m1, m2);
    lemma_board_actions_concat(acts1, acts2);
}

/// Garbage arriving adds exactly one garbage row per column given, in the
/// order given, whatever the number of columns, and changes nothing else of
/// the view.
pub proof fn lemma_garbage_row_per_column<I>(v: PlayerUiView<I>, columns: Vec<usize>, last_sound_ended: bool)
    ensures
        event_actions(v, GameEvent::GarbageAdded(columns), last_sound_ended).len() == columns@.len(),
        forall|i: int|
            0 <= i < columns@.len() ==> #[trigger] event_actions(v, GameEvent::GarbageAdded(columns), last_sound_ended)[i]
                == UiAction::AddGarbage(columns@[i]),
        event_view(v, GameEvent::GarbageAdded(columns), last_sound_ended) == v,
{
}

/// A placement sets the attack caption to its lock, stamped with the
/// clock, exactly when the lock is hard or a perfect clear; any other lock,
/// however many rows it clears, leaves the caption that was there.
pub proof fn lemma_attack_caption_only_for_attacks<I>(
    v: PlayerUiView<I>,
    piece: FallingPiece,
    locked: LockResult,
    hard_drop_distance: Option<i32>,
    last_sound_ended: bool,
)
    ensures
        ({
            let after = event_view(
                v,
                GameEvent::PiecePlaced { piece, locked, hard_drop_distance },
                last_sound_ended,
            );
            &&& (locked.is_hard || locked.perfect_clear) ==> after.last_attack_type == Some((locked@, v.time))
            &&& !(locked.is_hard || locked.perfect_clear) ==> after.last_attack_type == v.last_attack_type
            &&& after.time == v.time
        }),
{
}

} // verus!
