//! The round control of a two-player match: the countdown before play, the
//! win counts, and the pause between the end of a game and the next round.

use vstd::prelude::*;
use crate::model::{GameEvent, game_over_count, count_game_overs, lemma_game_over_count_steps};

verus! {

/// Game frames per second.
pub const FRAMES_PER_SECOND: u32 = 60;

/// Seconds of countdown before a round starts.
pub const START_COUNTDOWN: u32 = 3;

/// Seconds between the end of a game and the next round.
pub const RESET_COUNTDOWN: u32 = 5;

/// Frames of countdown before a round starts.
pub open spec fn start_frames() -> u32 {
    (START_COUNTDOWN * FRAMES_PER_SECOND) as u32
}

/// Frames between the end of a game and the next round.
pub open spec fn reset_frames() -> u32 {
    (RESET_COUNTDOWN * FRAMES_PER_SECOND) as u32
}

/// The plain value of a `MatchState`.
pub struct MatchView {
    pub countdown: u32,
    pub p1_wins: u32,
    pub p2_wins: u32,
    pub game_over: bool,
    pub reset_countdown: u32,
}

/// What a frame does after the countdown is consulted.
#[derive(Clone, Copy, Debug, PartialEq, Eq, Structural)]
pub enum FrameStep {
    /// The countdown is still running: the battle does not advance.
    Waiting,
    /// The battle advances one step, and the inputs and boards follow it.
    Play,
}

/// What follows a played frame.
#[derive(Clone, Copy, Debug, PartialEq, Eq, Structural)]
pub enum RoundStep {
    /// The same battle goes on.
    Continue,
    /// A new round begins: the options are read again, a new battle and new
    /// players are made, and both player views are reset.
    NewRound,
}

/// Round control state of a match.
pub struct MatchState {
    countdown: u32,
    p1_wins: u32,
    p2_wins: u32,
    game_over: bool,
    reset_countdown: u32,
}

impl View for MatchState {
    type V = MatchView;

    closed spec fn view(&self) -> MatchView {
        MatchView {
            countdown: self.countdown,
            p1_wins: self.p1_wins,
            p2_wins: self.p2_wins,
            game_over: self.game_over,
            reset_countdown: self.reset_countdown,
        }
    }
}

/// The state of a new match.
pub open spec fn initial_match() -> MatchView {
    MatchView { countdown: start_frames(), p1_wins: 0, p2_wins: 0, game_over: false, reset_countdown: 0 }
}

/// What holds of every state a match reaches: no countdown runs while a
/// game is over, and the pause before the next round is only set while a
/// game is over.
pub open spec fn match_consistent(m: MatchView) -> bool {
    &&& m.countdown > 0 ==> !m.game_over
    &&& !m.game_over ==> m.reset_countdown == 0
}

/// The effect of consulting the countdown at the start of a frame.
pub open spec fn start_frame_result(m: MatchView) -> (MatchView, FrameStep) {
    if m.countdown > 0 {
        (MatchView { countdown: (m.countdown - 1) as u32, ..m }, FrameStep::Waiting)
    } else {
        (m, FrameStep::Play)
    }
}

/// Whether the win counts can absorb the game overs of a played frame.
pub open spec fn wins_fit(m: MatchView, p1_losses: nat, p2_losses: nat) -> bool {
    m.game_over || (m.p2_wins + p1_losses <= u32::MAX && m.p1_wins + p2_losses <= u32::MAX)
}

/// The effect of a played frame in which player one's board reported
/// `p1_losses` game overs and player two's `p2_losses`.
pub open spec fn finish_frame_result(m: MatchView, p1_losses: nat, p2_losses: nat) -> (MatchView, RoundStep) {
    if m.game_over {
        if m.reset_countdown > 0 {
            (MatchView { reset_countdown: (m.reset_countdown - 1) as u32, ..m }, RoundStep::Continue)
        } else {
            (MatchView { game_over: false, countdown: start_frames(), ..m }, RoundStep::NewRound)
        }
    } else {
        let over = p1_losses + p2_losses > 0;
        (
            MatchView {
                p2_wins: (m.p2_wins + p1_losses) as u32,
                p1_wins: (m.p1_wins + p2_losses) as u32,
                game_over: over,
                reset_countdown: if over { reset_frames() } else { m.reset_countdown },
                ..m
            },
            RoundStep::Continue,
        )
    }
}

impl MatchState {
    #[verifier::type_invariant]
    closed spec fn inv(self) -> bool {
        match_consistent(self@)
    }

    /// A new match: no wins yet, and the start countdown running.
    pub fn new() -> (res: MatchState)
        ensures
            res@ == initial_match(),
            match_consistent(res@),
    {
        MatchState {
            countdown: START_COUNTDOWN * FRAMES_PER_SECOND,
            p1_wins: 0,
            p2_wins: 0,
            game_over: false,
            reset_countdown: 0,
        }
    }

    /// Frames of countdown left before play.
    pub fn countdown(&self) -> (res: u32)
        ensures
            res == self@.countdown,
    {
        self.countdown
    }

    /// Games won by player one.
    pub fn p1_wins(&self) -> (res: u32)
        ensures
            res == self@.p1_wins,
    {
        self.p1_wins
    }

    /// Games won by player two.
    pub fn p2_wins(&self) -> (res: u32)
        ensures
            res == self@.p2_wins,
    {
        self.p2_wins
    }

    /// Whether the current game has ended.
    pub fn game_over(&self) -> (res: bool)
        ensures
            res == self@.game_over,
    {
        self.game_over
    }

    /// Consults the countdown at the start of a frame: while it runs it is
    /// decreased by one and the frame waits; once it is out the frame plays.
    pub fn start_frame(&mut self) -> (step: FrameStep)
        ensures
            (final(self)@, step) == start_frame_result(old(self)@),
            match_consistent(old(self)@),
            match_consistent(final(self)@),
    {
        proof {
            use_type_invariant(&*self);
        }
        if self.countdown > 0 {
            self.countdown = self.countdown - 1;
            FrameStep::Waiting
        } else {
            FrameStep::Play
        }
    }

    /// Decides what follows a played frame, from the events that the battle
    /// step reported for each board.  While a game is over the pause counts
    /// down, then a new round is started with the start countdown.  Otherwise
    /// each game over on one board wins a game for the other player, and any
    /// game over ends the game and starts the pause.
    pub fn finish_frame(&mut self, p1_events: &Vec<GameEvent>, p2_events: &Vec<GameEvent>) -> (step: RoundStep)
        requires
            old(self)@.countdown == 0,
            wins_fit(old(self)@, game_over_count(p1_events@), game_over_count(p2_events@)),
        ensures
            (final(self)@, step) == finish_frame_result(
                old(self)@,
                game_over_count(p1_events@),
                game_over_count(p2_events@),
            ),
            match_consistent(old(self)@),
            match_consistent(final(self)@),
    {
        proof {
            use_type_invariant(&*self);
        }
        if self.game_over {
            if self.reset_countdown > 0 {
                self.reset_countdown = self.reset_countdown - 1;
                RoundStep::Continue
            } else {
                *self = MatchState {
                    countdown: START_COUNTDOWN * FRAMES_PER_SECOND,
                    p1_wins: self.p1_wins,
                    p2_wins: self.p2_wins,
                    game_over: false,
                    reset_countdown: self.reset_countdown,
                };
                RoundStep::NewRound
            }
        } else {
            let p1_losses: usize = count_game_overs(p1_events);
            let p2_losses: usize = count_game_overs(p2_events);
            let over = p1_losses > 0 || p2_losses > 0;
            *self = MatchState {
                countdown: self.countdown,
                p1_wins: self.p1_wins + p2_losses as u32,
                p2_wins: self.p2_wins + p1_losses as u32,
                game_over: over,
                reset_countdown: if over { RESET_COUNTDOWN * FRAMES_PER_SECOND } else { self.reset_countdown },
            };
            RoundStep::Continue
        }
    }

    /// The number shown while the start countdown runs: the whole seconds
    /// left, counted from one; none once play has begun.
    pub fn countdown_seconds(&self) -> (res: Option<u32>)
        ensures
            res == (if self@.countdown > 0 {
                Some((self@.countdown / FRAMES_PER_SECOND + 1) as u32)
            } else {
                None::<u32>
            }),
    {
        if self.countdown > 0 {
            Some(self.countdown / FRAMES_PER_SECOND + 1)
        } else {
            None
        }
    }
}

/// The match clock for a battle that has run `frames` frames: whole minutes
/// and the seconds past them.
pub fn match_clock(frames: u32) -> (res: (u32, u32))
    ensures
        res.0 == frames / FRAMES_PER_SECOND / 60,
        res.1 == frames / FRAMES_PER_SECOND % 60,
{
    let elapsed_seconds: u32 = frames / FRAMES_PER_SECOND;
    (elapsed_seconds / 60, elapsed_seconds % 60)
}

/// The state after `n` frames that each consult the countdown.
pub open spec fn after_starts(m: MatchView, n: nat) -> MatchView
    decreases n,
{
    if n == 0 {
        m
    } else {
        start_frame_result(after_starts(m, (n - 1) as nat)).0
    }
}

/// The state after `n` played frames in which no board reported a game over.
pub open spec fn after_quiet_frames(m: MatchView, n: nat) -> MatchView
    decreases n,
{
    if n == 0 {
        m
    } else {
        finish_frame_result(after_quiet_frames(m, (n - 1) as nat), 0, 0).0
    }
}

/// A running countdown of `c` frames makes exactly the next `c` frames wait
/// and the one after them play, and it changes nothing but itself.
pub proof fn lemma_countdown_runs_out(m: MatchView)
    ensures
        forall|k: nat| k < m.countdown ==> #[trigger] start_frame_result(after_starts(m, k)).1 == FrameStep::Waiting,
        start_frame_result(after_starts(m, m.countdown as nat)).1 == FrameStep::Play,
        after_starts(m, m.countdown as nat) == (MatchView { countdown: 0, ..m }),
{
    assert forall|k: nat| k <= m.countdown implies #[trigger] after_starts(m, k) == (MatchView {
        countdown: (m.countdown - k) as u32,
        ..m
    }) by {
        lemma_after_starts(m, k);
    }
    assert(after_starts(m, m.countdown as nat) == (MatchView { countdown: 0, ..m }));
}

proof fn lemma_after_starts(m: MatchView, k: nat)
    requires
        k <= m.countdown,
    ensures
        after_starts(m, k) == (MatchView { countdown: (m.countdown - k) as u32, ..m }),
    decreases k,
{
    if k > 0 {
        lemma_after_starts(m, (k - 1) as nat);
    }
}

/// A new round waits exactly the start countdown, three seconds of frames,
/// before its battle is played.
pub proof fn lemma_new_round_waits(m: MatchView)
    requires
        m.countdown == start_frames(),
    ensures
        forall|k: nat| k < 180 ==> #[trigger] start_frame_result(after_starts(m, k)).1 == FrameStep::Waiting,
        start_frame_result(after_starts(m, 180)).1 == FrameStep::Play,
{
    lemma_countdown_runs_out(m);
}

/// Win counts never decrease, and a played frame adds to each player's wins
/// exactly the game overs that the other board reported, unless a game was
/// already over.
pub proof fn lemma_wins_follow_game_overs(m: MatchView, p1_losses: nat, p2_losses: nat)
    requires
        wins_fit(m, p1_losses, p2_losses),
    ensures
        finish_frame_result(m, p1_losses, p2_losses).0.p1_wins >= m.p1_wins,
        finish_frame_result(m, p1_losses, p2_losses).0.p2_wins >= m.p2_wins,
        !m.game_over ==> finish_frame_result(m, p1_losses, p2_losses).0.p1_wins == m.p1_wins + p2_losses,
        !m.game_over ==> finish_frame_result(m, p1_losses, p2_losses).0.p2_wins == m.p2_wins + p1_losses,
        m.game_over ==> finish_frame_result(m, p1_losses, p2_losses).0.p1_wins == m.p1_wins,
        m.game_over ==> finish_frame_result(m, p1_losses, p2_losses).0.p2_wins == m.p2_wins,
{
}

/// Once a game is over, what the boards report no longer matters.
pub proof fn lemma_game_over_ignores_events(m: MatchView, p1_losses: nat, p2_losses: nat)
    requires
        m.game_over,
    ensures
        finish_frame_result(m, p1_losses, p2_losses) == finish_frame_result(m, 0, 0),
{
}

/// A game over on either board ends the game and starts the pause before
/// the next round.
pub proof fn lemma_game_over_starts_pause(m: MatchView, p1_losses: nat, p2_losses: nat)
    requires
        !m.game_over,
        p1_losses + p2_losses > 0,
    ensures
        finish_frame_result(m, p1_losses, p2_losses).0.game_over,
        finish_frame_result(m, p1_losses, p2_losses).0.reset_countdown == reset_frames(),
        finish_frame_result(m, p1_losses, p2_losses).1 == RoundStep::Continue,
{
}

/// After a game ends with a pause of `r` frames, the next `r` played frames
/// go on with the same battle and the one after them starts a new round,
/// with the start countdown and the win counts kept.
pub proof fn lemma_pause_then_new_round(m: MatchView)
    requires
        m.game_over,
    ensures
        forall|k: nat| k < m.reset_countdown ==> #[trigger] finish_frame_result(after_quiet_frames(m, k), 0, 0).1
            == RoundStep::Continue,
        finish_frame_result(after_quiet_frames(m, m.reset_countdown as nat), 0, 0).1 == RoundStep::NewRound,
        finish_frame_result(after_quiet_frames(m, m.reset_countdown as nat), 0, 0).0 == (MatchView {
            countdown: start_frames(),
            game_over: false,
            reset_countdown: 0,
            ..m
        }),
{
    assert forall|k: nat| k <= m.reset_countdown implies #[trigger] after_quiet_frames(m, k) == (MatchView {
        reset_countdown: (m.reset_countdown - k) as u32,
        ..m
    }) by {
        lemma_after_quiet_frames(m, k);
    }
    assert(after_quiet_frames(m, m.reset_countdown as nat) == (MatchView { reset_countdown: 0, ..m }));
}

proof fn lemma_after_quiet_frames(m: MatchView, k: nat)
    requires
        m.game_over,
        k <= m.reset_countdown,
    ensures
        after_quiet_frames(m, k) == (MatchView { reset_countdown: (m.reset_countdown - k) as u32, ..m }),
    decreases k,
{
    if k > 0 {
        lemma_after_quiet_frames(m, (k - 1) as nat);
    }
}

/// A lost game is followed by exactly five seconds of played frames before
/// the next round starts.
pub proof fn lemma_loss_to_next_round(m: MatchView, p1_losses: nat, p2_losses: nat)
    requires
        !m.game_over,
        p1_losses + p2_losses > 0,
    ensures
        ({
            let ended = finish_frame_result(m, p1_losses, p2_losses).0;
            &&& forall|k: nat| k < 300 ==> #[trigger] finish_frame_result(after_quiet_frames(ended, k), 0, 0).1
                == RoundStep::Continue
            &&& finish_frame_result(after_quiet_frames(ended, 300), 0, 0).1 == RoundStep::NewRound
        }),
{
    lemma_pause_then_new_round(finish_frame_result(m, p1_losses, p2_losses).0);
}

/// Every state that the steps lead to from a consistent state is
/// consistent.
pub proof fn lemma_steps_keep_consistency(m: MatchView, p1_losses: nat, p2_losses: nat)
    requires
        match_consistent(m),
    ensures
        match_consistent(start_frame_result(m).0),
        m.countdown == 0 ==> match_consistent(finish_frame_result(m, p1_losses, p2_losses).0),
{
}

/// A played frame whose events hold no `GameOver` on either board changes
/// neither win count nor whether a game is over, and goes on with the same
/// battle while no game is over.
pub proof fn lemma_frame_without_game_over(m: MatchView, p1_events: Seq<GameEvent>, p2_events: Seq<GameEvent>)
    requires
        forall|i: int| 0 <= i < p1_events.len() ==> !(#[trigger] p1_events[i] is GameOver),
        forall|i: int| 0 <= i < p2_events.len() ==> !(#[trigger] p2_events[i] is GameOver),
        !m.game_over,
    ensures
        ({
            let (n, step) = finish_frame_result(m, game_over_count(p1_events), game_over_count(p2_events));
            &&& n.p1_wins == m.p1_wins
            &&& n.p2_wins == m.p2_wins
            &&& !n.game_over
            &&& step == RoundStep::Continue
        }),
{
    lemma_game_over_count_steps(p1_events, GameEvent::Other);
    lemma_game_over_count_steps(p2_events, GameEvent::Other);
}

/// A played frame in which exactly one board reports one `GameOver` gives
/// the other player exactly one win and ends the game.
pub proof fn lemma_single_loss_wins_once(m: MatchView, lost: Seq<GameEvent>, other: Seq<GameEvent>)
    requires
        !m.game_over,
        forall|i: int| 0 <= i < other.len() ==> !(#[trigger] other[i] is GameOver),
        exists|k: int|
            0 <= k < lost.len() && lost[k] is GameOver && forall|i: int|
                0 <= i < lost.len() && i != k ==> !(#[trigger] lost[i] is GameOver),
        m.p2_wins < u32::MAX,
    ensures
        ({
            let n = finish_frame_result(m, game_over_count(lost), game_over_count(other)).0;
            &&& n.p2_wins == m.p2_wins + 1
            &&& n.p1_wins == m.p1_wins
            &&& n.game_over
        }),
{
    lemma_game_over_count_steps(other, GameEvent::Other);
    let k = choose|k: int|
        0 <= k < lost.len() && lost[k] is GameOver && forall|i: int|
            0 <= i < lost.len() && i != k ==> !(#[trigger] lost[i] is GameOver);
    lemma_count_single(lost, k);
}

proof fn lemma_count_single(events: Seq<GameEvent>, k: int)
    requires
        0 <= k < events.len(),
        events[k] is GameOver,
        forall|i: int| 0 <= i < events.len() && i != k ==> !(#[trigger] events[i] is GameOver),
    ensures
        game_over_count(events) == 1,
    decreases events.len(),
{
    let init = events.drop_last();
    lemma_game_over_count_steps(init, events.last());
    assert(init.push(events.last()) =~= events);
    if k == events.len() - 1 {
        assert forall|i: int| 0 <= i < init.len() implies !(#[trigger] init[i] is GameOver) by {
            assert(init[i] == events[i]);
        }
        lemma_game_over_count_steps(init, GameEvent::Other);
    } else {
        assert(!(events[events.len() - 1] is GameOver));
        assert forall|i: int| 0 <= i < init.len() && i != k implies !(#[trigger] init[i] is GameOver) by {
            assert(init[i] == events[i]);
        }
        lemma_count_single(init, k);
    }
}

} // verus!
