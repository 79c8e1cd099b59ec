//! Where a player's controller state comes from: the keyboard, through a
//! configurable key binding, or the bot, which is told what the battle did
//! and whose planned moves are played out.

use vstd::prelude::*;
use crate::model::{Controller, FallingPiece, GameEvent, Piece};

verus! {

/// One value per button of the controller: a key code for each button in
/// a key binding.
#[derive(Clone, Debug)]
pub struct InputConfig<T: Clone> {
    pub left: T,
    pub right: T,
    pub rotate_right: T,
    pub rotate_left: T,
    pub soft_drop: T,
    pub hard_drop: T,
    pub hold: T,
}

/// The key codes held down, as a set.
pub open spec fn key_set(keys: Seq<String>) -> Set<Seq<char>> {
    Set::new(|code: Seq<char>| exists|i: int| 0 <= i < keys.len() && #[trigger] keys[i]@ == code)
}

/// No key code is held twice.
pub open spec fn distinct_keys(keys: Seq<String>) -> bool {
    forall|i: int, j: int| 0 <= i < j < keys.len() ==> #[trigger] keys[i]@ != #[trigger] keys[j]@
}

/// The controller state that a set of held keys gives under a binding.
pub open spec fn controller_for(config: InputConfig<String>, held: Set<Seq<char>>) -> Controller {
    Controller {
        left: held.contains(config.left@),
        right: held.contains(config.right@),
        rotate_right: held.contains(config.rotate_right@),
        rotate_left: held.contains(config.rotate_left@),
        soft_drop: held.contains(config.soft_drop@),
        hard_drop: held.contains(config.hard_drop@),
        hold: held.contains(config.hold@),
    }
}

/// A keyboard player: a key binding and the keys held down now.
pub struct KeyboardInput {
    config: InputConfig<String>,
    keys: Vec<String>,
}

impl KeyboardInput {
    #[verifier::type_invariant]
    closed spec fn inv(self) -> bool {
        distinct_keys(self.keys@)
    }

    /// The key binding.
    pub closed spec fn binding(&self) -> InputConfig<String> {
        self.config
    }

    /// The key codes held down now.
    pub closed spec fn held(&self) -> Set<Seq<char>> {
        key_set(self.keys@)
    }

    /// A keyboard player with the given binding and no key held.
    pub fn new(config: InputConfig<String>) -> (res: KeyboardInput)
        ensures
            res.binding() == config,
            res.held() == Set::<Seq<char>>::empty(),
    {
        let res = KeyboardInput { config, keys: Vec::new() };
        assert(res.held() =~= Set::<Seq<char>>::empty());
        res
    }

    /// The default binding: the arrow keys move, soft drop and rotate
    /// clockwise, Z rotates counter-clockwise, space hard drops and C holds.
    pub fn default_config() -> (res: InputConfig<String>)
        ensures
            res.left@ == "ArrowLeft"@,
            res.right@ == "ArrowRight"@,
            res.rotate_left@ == "KeyZ"@,
            res.rotate_right@ == "ArrowUp"@,
            res.hard_drop@ == "Space"@,
            res.soft_drop@ == "ArrowDown"@,
            res.hold@ == "KeyC"@,
    {
        InputConfig {
            left: "ArrowLeft".to_owned(),
            right: "ArrowRight".to_owned(),
            rotate_left: "KeyZ".to_owned(),
            rotate_right: "ArrowUp".to_owned(),
            hard_drop: "Space".to_owned(),
            soft_drop: "ArrowDown".to_owned(),
            hold: "KeyC".to_owned(),
        }
    }

    /// The key binding.
    pub fn config(&self) -> (res: &InputConfig<String>)
        ensures
            *res == self.binding(),
    {
        &self.config
    }

    /// The position of a held key code.
    fn find(&self, code: &String) -> (res: Option<usize>)
        ensures
            match res {
                Some(i) => i < self.keys@.len() && self.keys@[i as int]@ == code@,
                None => !self.held().contains(code@),
            },
    {
        let mut i: usize = 0;
        while i < self.keys.len()
            invariant
                i <= self.keys@.len(),
                forall|j: int| 0 <= j < i ==> #[trigger] self.keys@[j]@ != code@,
            decreases self.keys.len() - i,
        {
            if self.keys[i] == *code {
                return Some(i);
            }
            i = i + 1;
        }
        None
    }

    /// Whether a key code is held down.
    pub fn is_held(&self, code: &String) -> (res: bool)
        ensures
            res == self.held().contains(code@),
    {
        match self.find(code) {
            Some(i) => {
                assert(self.held().contains(code@));
                true
            },
            None => false,
        }
    }

    /// A key went down: its code is held.
    pub fn key_down(&mut self, code: String)
        ensures
            final(self).held() == old(self).held().insert(code@),
            final(self).binding() == old(self).binding(),
    {
        proof {
            use_type_invariant(&*self);
        }
        if self.find(&code).is_none() {
            let ghost before = self.keys@;
            let ghost c = code@;
            let mut keys = Vec::new();
            std::mem::swap(&mut keys, &mut self.keys);
            keys.push(code);
            assert(keys@ == before.push(keys@.last()));
            assert(distinct_keys(keys@)) by {
                assert forall|i: int, j: int| 0 <= i < j < keys@.len() implies keys@[i]@ != keys@[j]@ by {
                    if j == keys@.len() - 1 {
                        assert(before[i]@ != c);
                    } else {
                        assert(keys@[i] == before[i] && keys@[j] == before[j]);
                    }
                }
            }
            self.keys = keys;
            assert(key_set(self.keys@) =~= key_set(before).insert(c)) by {
                assert forall|x: Seq<char>| key_set(self.keys@).contains(x) implies key_set(before).insert(c).contains(x) by {
                    let i = choose|i: int| 0 <= i < self.keys@.len() && #[trigger] self.keys@[i]@ == x;
                    if i < before.len() {
                        assert(before[i]@ == x);
                    }
                }
                assert forall|x: Seq<char>| key_set(before).insert(c).contains(x) implies key_set(self.keys@).contains(x) by {
                    if x == c {
                        assert(self.keys@[before.len() as int]@ == x);
                    } else {
                        let i = choose|i: int| 0 <= i < before.len() && #[trigger] before[i]@ == x;
                        assert(self.keys@[i]@ == x);
                    }
                }
            }
        } else {
            assert(self.held().insert(code@) =~= self.held());
        }
    }

    /// A key went up: its code is no longer held.
    pub fn key_up(&mut self, code: &String)
        ensures
            final(self).held() == old(self).held().remove(code@),
            final(self).binding() == old(self).binding(),
    {
        proof {
            use_type_invariant(&*self);
        }
        match self.find(code) {
            Some(k) => {
                let ghost before = self.keys@;
                let ghost c = code@;
                let mut keys = Vec::new();
                std::mem::swap(&mut keys, &mut self.keys);
                keys.remove(k);
                assert(keys@ == before.remove(k as int));
                assert(distinct_keys(keys@)) by {
                    assert forall|i: int, j: int| 0 <= i < j < keys@.len() implies keys@[i]@ != keys@[j]@ by {
                        let bi: int = if i < k { i } else { i + 1 };
                        let bj: int = if j < k { j } else { j + 1 };
                        assert(keys@[i] == before[bi] && keys@[j] == before[bj]);
                        assert(before[bi]@ != before[bj]@);
                    }
                }
                self.keys = keys;
                assert(key_set(self.keys@) =~= key_set(before).remove(c)) by {
                    assert forall|x: Seq<char>| key_set(self.keys@).contains(x) implies key_set(before).remove(c).contains(x) by {
                        let i = choose|i: int| 0 <= i < self.keys@.len() && #[trigger] self.keys@[i]@ == x;
                        let bi: int = if i < k { i } else { i + 1 };
                        assert(before[bi]@ == x);
                        assert(bi != k);
                        assert(before[bi]@ != before[k as int]@);
                    }
                    assert forall|x: Seq<char>| key_set(before).remove(c).contains(x) implies key_set(self.keys@).contains(x) by {
                        let b = choose|b: int| 0 <= b < before.len() && #[trigger] before[b]@ == x;
                        assert(b != k);
                        let i: int = if b < k { b } else { b - 1 };
                        assert(self.keys@[i]@ == x);
                    }
                }
            },
            None => {
                assert(self.held().remove(code@) =~= self.held());
            },
        }
    }

    /// The controller state: each button is pressed when its key is held.
    pub fn controller(&self) -> (res: Controller)
        ensures
            res == controller_for(self.binding(), self.held()),
    {
        Controller {
            left: self.is_held(&self.config.left),
            right: self.is_held(&self.config.right),
            rotate_left: self.is_held(&self.config.rotate_left),
            rotate_right: self.is_held(&self.config.rotate_right),
            hard_drop: self.is_held(&self.config.hard_drop),
            soft_drop: self.is_held(&self.config.soft_drop),
            hold: self.is_held(&self.config.hold),
        }
    }
}

/// A request to the bot, made in response to the battle's events.
#[derive(Clone, Copy, Debug, PartialEq, Eq, Structural)]
pub enum BotCommand {
    /// Tell the bot of the piece that joined the queue.
    AddNextPiece(Piece),
    /// Ask the bot to start thinking about its next move.
    RequestNextMove,
    /// Give the bot the board as it now is, after garbage arrived.
    ResetFromBoard,
}

/// The requests that one event calls for, given whether a move is being
/// played out.
pub open spec fn event_commands(e: GameEvent, executing: bool) -> Seq<BotCommand> {
    match e {
        GameEvent::PieceSpawned { new_in_queue } => seq![BotCommand::AddNextPiece(new_in_queue)] + if executing {
            Seq::<BotCommand>::empty()
        } else {
            seq![BotCommand::RequestNextMove]
        },
        GameEvent::GarbageAdded(_) => seq![BotCommand::ResetFromBoard],
        _ => Seq::empty(),
    }
}

/// The requests that a sequence of events calls for, in order.
pub open spec fn events_commands(events: Seq<GameEvent>, executing: bool) -> Seq<BotCommand>
    decreases events.len(),
{
    if events.len() == 0 {
        Seq::empty()
    } else {
        events_commands(events.drop_last(), executing) + event_commands(events.last(), executing)
    }
}

/// A bot player: the move being played out, if any (by where the piece is
/// expected to land), the controller state that playing it out sets, and
/// the speed limit of the play-out.
pub struct BotInput {
    executing: Option<FallingPiece>,
    controller: Controller,
    speed_limit: u32,
}

/// The plain value of a `BotInput`.
pub struct BotView {
    pub executing: Option<FallingPiece>,
    pub controller: Controller,
    pub speed_limit: u32,
}

impl View for BotInput {
    type V = BotView;

    closed spec fn view(&self) -> BotView {
        BotView { executing: self.executing, controller: self.controller, speed_limit: self.speed_limit }
    }
}

impl BotInput {
    /// A bot player with no move under way and no button held.
    pub fn new(speed_limit: u32) -> (res: BotInput)
        ensures
            res@ == (BotView { executing: None, controller: Controller::spec_released(), speed_limit }),
    {
        BotInput { executing: None, controller: Controller::default(), speed_limit }
    }

    /// The controller state for this frame.
    pub fn controller(&self) -> (res: Controller)
        ensures
            res == self@.controller,
    {
        self.controller
    }

    /// The speed limit of the play-out.
    pub fn speed_limit(&self) -> (res: u32)
        ensures
            res == self@.speed_limit,
    {
        self.speed_limit
    }

    /// Whether a move is being played out.
    pub fn is_executing(&self) -> (res: bool)
        ensures
            res == self@.executing is Some,
    {
        self.executing.is_some()
    }

    /// The requests to make of the bot for the events of a battle step:
    /// each new queue piece is passed on, and a move is asked for when none
    /// is being played out; each garbage arrival resends the board.
    pub fn commands_for_events(&self, events: &Vec<GameEvent>) -> (res: Vec<BotCommand>)
        ensures
            res@ == events_commands(events@, self@.executing is Some),
    {
        let executing = self.executing.is_some();
        let mut res: Vec<BotCommand> = Vec::new();
        let mut i: usize = 0;
        while i < events.len()
            invariant
                i <= events.len(),
                executing == self@.executing is Some,
                res@ == events_commands(events@.take(i as int), executing),
            decreases events.len() - i,
        {
            assert(events@.take(i + 1).drop_last() =~= events@.take(i as int));
            match &events[i] {
                GameEvent::PieceSpawned { new_in_queue } => {
                    res.push(BotCommand::AddNextPiece(*new_in_queue));
                    if !executing {
                        res.push(BotCommand::RequestNextMove);
                    }
                },
                GameEvent::GarbageAdded(_) => {
                    res.push(BotCommand::ResetFromBoard);
                },
                _ => {},
            }
            i = i + 1;
            assert(res@ =~= events_commands(events@.take(i as int), executing));
        }
        assert(events@.take(events@.len() as int) =~= events@);
        res
    }

    /// The bot found a move: it is played out from now on, and the piece is
    /// expected to land at `expected`.
    pub fn start_move(&mut self, expected: FallingPiece)
        ensures
            final(self)@ == (BotView { executing: Some(expected), ..old(self)@ }),
    {
        self.executing = Some(expected);
    }

    /// Playing out the move set the controller state; only a move being
    /// played out sets it.
    pub fn set_controller(&mut self, controller: Controller)
        requires
            old(self)@.executing is Some,
        ensures
            final(self)@ == (BotView { controller, ..old(self)@ }),
    {
        self.controller = controller;
    }

    /// The move was played out and the piece landed at `landed`: no move is
    /// under way any more, and the result tells whether the landing differs
    /// from the expected one, in which case the bot must be given the board
    /// again.
    pub fn finish_move(&mut self, landed: FallingPiece) -> (resync: bool)
        requires
            old(self)@.executing is Some,
        ensures
            resync == (landed != old(self)@.executing->0),
            final(self)@ == (BotView { executing: None, ..old(self)@ }),
    {
        let expected = self.executing.unwrap();
        self.executing = None;
        landed != expected
    }
}

/// While a move is being played out, no next move is asked for; otherwise
/// one is asked for right after each new queue piece is passed on.
pub proof fn lemma_no_request_while_executing(events: Seq<GameEvent>)
    ensures
        !events_commands(events, true).contains(BotCommand::RequestNextMove),
    decreases events.len(),
{
    if events.len() > 0 {
        lemma_no_request_while_executing(events.drop_last());
        let before = events_commands(events.drop_last(), true);
        let last = event_commands(events.last(), true);
        let all = events_commands(events, true);
        if all.contains(BotCommand::RequestNextMove) {
            let i = choose|i: int| 0 <= i < all.len() && all[i] == BotCommand::RequestNextMove;
            if i < before.len() {
                assert(before[i] == all[i]);
            } else {
                assert(last[i - before.len()] == all[i]);
            }
        }
    }
}

/// Each new queue piece is passed on to the bot, in the order the pieces
/// came: the pieces named by the requests are those of the spawn events.
pub proof fn lemma_queue_pieces_passed_on(events: Seq<GameEvent>, executing: bool)
    ensures
        added_pieces(events_commands(events, executing)) == spawned_pieces(events),
    decreases events.len(),
{
    if events.len() > 0 {
        lemma_queue_pieces_passed_on(events.drop_last(), executing);
        lemma_added_pieces_concat(
            events_commands(events.drop_last(), executing),
            event_commands(events.last(), executing),
        );
        let e = events.last();
        if let GameEvent::PieceSpawned { new_in_queue } = e {
            let tail = seq![BotCommand::AddNextPiece(new_in_queue)];
            lemma_added_single(BotCommand::AddNextPiece(new_in_queue));
            if executing {
                assert(event_commands(e, executing) =~= tail);
            } else {
                lemma_added_pieces_concat(tail, seq![BotCommand::RequestNextMove]);
                lemma_added_single(BotCommand::RequestNextMove);
                assert(added_pieces(event_commands(e, executing)) =~= seq![new_in_queue]);
            }
        } else if let GameEvent::GarbageAdded(_) = e {
            lemma_added_single(BotCommand::ResetFromBoard);
            assert(added_pieces(event_commands(e, executing)) =~= Seq::<Piece>::empty());
        } else {
            assert(event_commands(e, executing) =~= Seq::<BotCommand>::empty());
        }
        assert(events_commands(events, executing) == events_commands(events.drop_last(), executing) + event_commands(e, executing));
    }
}

proof fn lemma_added_single(c: BotCommand)
    ensures
        added_pieces(seq![c]) == match c {
            BotCommand::AddNextPiece(p) => seq![p],
            _ => Seq::<Piece>::empty(),
        },
{
    assert(seq![c].drop_last() =~= Seq::<BotCommand>::empty());
    assert(added_pieces(Seq::<BotCommand>::empty()) == Seq::<Piece>::empty());
    assert(added_pieces(seq![c]) =~= match c {
        BotCommand::AddNextPiece(p) => seq![p],
        _ => Seq::<Piece>::empty(),
    });
}

/// Each garbage arrival, whatever its columns, asks exactly once for the
/// board to be resent: the step's `ResetFromBoard` requests are as many as
/// its `GarbageAdded` events.
pub proof fn lemma_reset_per_garbage_arrival(events: Seq<GameEvent>, executing: bool)
    ensures
        events_commands(events, executing).filter(|c: BotCommand| c == BotCommand::ResetFromBoard).len()
            == events.filter(|e: GameEvent| e is GarbageAdded).len(),
    decreases events.len(),
{
    let pc = |c: BotCommand| c == BotCommand::ResetFromBoard;
    let pe = |e: GameEvent| e is GarbageAdded;
    if events.len() == 0 {
        reveal(Seq::filter);
    } else {
        lemma_reset_per_garbage_arrival(events.drop_last(), executing);
        let before = events_commands(events.drop_last(), executing);
        let tail = event_commands(events.last(), executing);
        Seq::filter_distributes_over_add(before, tail, pc);
        reveal_with_fuel(Seq::filter, 3);
        assert(events.filter(pe).len() == events.drop_last().filter(pe).len() + if pe(events.last()) { 1int } else { 0int });
        assert(tail.filter(pc).len() == if events.last() is GarbageAdded { 1int } else { 0int }) by {
            match events.last() {
                GameEvent::PieceSpawned { new_in_queue } => {
                    if executing {
                        assert(tail.drop_last() =~= Seq::<BotCommand>::empty());
                    } else {
                        assert(tail.drop_last() =~= seq![BotCommand::AddNextPiece(new_in_queue)]);
                        assert(tail.drop_last().drop_last() =~= Seq::<BotCommand>::empty());
                    }
                },
                GameEvent::GarbageAdded(_) => {
                    assert(tail.drop_last() =~= Seq::<BotCommand>::empty());
                },
                _ => {},
            }
        }
    }
}

/// The pieces named by the `AddNextPiece` requests, in order.
pub open spec fn added_pieces(commands: Seq<BotCommand>) -> Seq<Piece>
    decreases commands.len(),
{
    if commands.len() == 0 {
        Seq::empty()
    } else {
        added_pieces(commands.drop_last()) + match commands.last() {
            BotCommand::AddNextPiece(p) => seq![p],
            _ => Seq::empty(),
        }
    }
}

/// The pieces that joined the queue, in order.
pub open spec fn spawned_pieces(events: Seq<GameEvent>) -> Seq<Piece>
    decreases events.len(),
{
    if events.len() == 0 {
        Seq::empty()
    } else {
        spawned_pieces(events.drop_last()) + match events.last() {
            GameEvent::PieceSpawned { new_in_queue } => seq![new_in_queue],
            _ => Seq::empty(),
        }
    }
}

proof fn lemma_added_pieces_concat(a: Seq<BotCommand>, b: Seq<BotCommand>)
    ensures
        added_pieces(a + b) == added_pieces(a) + added_pieces(b),
    decreases b.len(),
{
    if b.len() == 0 {
        assert(a + b =~= a);
        assert(added_pieces(a) + added_pieces(b) =~= added_pieces(a));
    } else {
        lemma_added_pieces_concat(a, b.drop_last());
        assert((a + b).drop_last() =~= a + b.drop_last());
        assert((a + b).last() == b.last());
        assert(added_pieces(a) + added_pieces(b) =~= added_pieces(a) + added_pieces(b.drop_last()) + match b.last() {
            BotCommand::AddNextPiece(p) => seq![p],
            _ => Seq::empty(),
        });
    }
}

/// The held keys after a sequence of key changes from `held`: `(true, c)`
/// is key `c` going down (`key_down`), `(false, c)` going up (`key_up`).
pub open spec fn held_after(held: Set<Seq<char>>, changes: Seq<(bool, Seq<char>)>) -> Set<Seq<char>>
    decreases changes.len(),
{
    if changes.len() == 0 {
        held
    } else {
        let h = held_after(held, changes.drop_last());
        let (down, code) = changes.last();
        if down {
            h.insert(code)
        } else {
            h.remove(code)
        }
    }
}

/// Whether some change concerns `code`.
pub open spec fn touched(changes: Seq<(bool, Seq<char>)>, code: Seq<char>) -> bool {
    exists|i: int| 0 <= i < changes.len() && #[trigger] changes[i].1 == code
}

/// Whether the last change that concerns `code` takes it down.
pub open spec fn last_change_down(changes: Seq<(bool, Seq<char>)>, code: Seq<char>) -> bool {
    exists|i: int|
        0 <= i < changes.len() && #[trigger] changes[i].1 == code && changes[i].0 && forall|j: int|
            i < j < changes.len() ==> #[trigger] changes[j].1 != code
}

/// After a sequence of key changes, a key is held exactly when the last
/// change that concerns it took it down, or, when none concerns it, when it
/// was held before.
pub proof fn lemma_held_after_changes(held: Set<Seq<char>>, changes: Seq<(bool, Seq<char>)>, code: Seq<char>)
    ensures
        held_after(held, changes).contains(code) == (last_change_down(changes, code) || (!touched(changes, code)
            && held.contains(code))),
    decreases changes.len(),
{
    if changes.len() > 0 {
        let init = changes.drop_last();
        let n = changes.len() - 1;
        lemma_held_after_changes(held, init, code);
        let (down, c) = changes.last();
        if c == code {
            assert(changes[n].1 == code);
            if down {
                assert(last_change_down(changes, code));
            } else {
                assert(!last_change_down(changes, code)) by {
                    if last_change_down(changes, code) {
                        let i = choose|i: int|
                            0 <= i < changes.len() && #[trigger] changes[i].1 == code && changes[i].0 && forall|j: int|
                                i < j < changes.len() ==> #[trigger] changes[j].1 != code;
                        if i < n {
                            assert(changes[n].1 != code);
                        }
                    }
                }
            }
            assert(touched(changes, code));
        } else {
            assert(last_change_down(changes, code) == last_change_down(init, code)) by {
                if last_change_down(changes, code) {
                    let i = choose|i: int|
                        0 <= i < changes.len() && #[trigger] changes[i].1 == code && changes[i].0 && forall|j: int|
                            i < j < changes.len() ==> #[trigger] changes[j].1 != code;
                    assert(i < n);
                    assert(init[i].1 == code);
                    assert forall|j: int| i < j < init.len() implies #[trigger] init[j].1 != code by {
                        assert(changes[j].1 != code);
                    }
                }
                if last_change_down(init, code) {
                    let i = choose|i: int|
                        0 <= i < init.len() && #[trigger] init[i].1 == code && init[i].0 && forall|j: int|
                            i < j < init.len() ==> #[trigger] init[j].1 != code;
                    assert(changes[i].1 == code);
                    assert forall|j: int| i < j < changes.len() implies #[trigger] changes[j].1 != code by {
                        if j < n {
                            assert(init[j].1 != code);
                        }
                    }
                }
            }
            assert(touched(changes, code) == touched(init, code)) by {
                if touched(changes, code) {
                    let i = choose|i: int| 0 <= i < changes.len() && #[trigger] changes[i].1 == code;
                    assert(init[i].1 == code);
                }
                if touched(init, code) {
                    let i = choose|i: int| 0 <= i < init.len() && #[trigger] init[i].1 == code;
                    assert(changes[i].1 == code);
                }
            }
        }
    }
}

/// From a keyboard player with no key held, after any sequence of key
/// changes each button is pressed exactly when the last change of its bound
/// key took that key down.
pub proof fn lemma_controller_after_changes(config: InputConfig<String>, changes: Seq<(bool, Seq<char>)>)
    ensures
        ({
            let c = controller_for(config, held_after(Set::empty(), changes));
            &&& c.left == last_change_down(changes, config.left@)
            &&& c.right == last_change_down(changes, config.right@)
            &&& c.rotate_left == last_change_down(changes, config.rotate_left@)
            &&& c.rotate_right == last_change_down(changes, config.rotate_right@)
            &&& c.soft_drop == last_change_down(changes, config.soft_drop@)
            &&& c.hard_drop == last_change_down(changes, config.hard_drop@)
            &&& c.hold == last_change_down(changes, config.hold@)
        }),
{
    lemma_held_after_changes(Set::empty(), changes, config.left@);
    lemma_held_after_changes(Set::empty(), changes, config.right@);
    lemma_held_after_changes(Set::empty(), changes, config.rotate_left@);
    lemma_held_after_changes(Set::empty(), changes, config.rotate_right@);
    lemma_held_after_changes(Set::empty(), changes, config.soft_drop@);
    lemma_held_after_changes(Set::empty(), changes, config.hard_drop@);
    lemma_held_after_changes(Set::empty(), changes, config.hold@);
}

/// Pressing a key that was not held and releasing it leaves the held keys
/// as they were.
pub proof fn lemma_press_then_release(held: Set<Seq<char>>, code: Seq<char>)
    requires
        !held.contains(code),
    ensures
        held.insert(code).remove(code) == held,
{
    assert(held.insert(code).remove(code) =~= held);
}

/// Pressing a key twice holds it as pressing it once does.
pub proof fn lemma_press_twice(held: Set<Seq<char>>, code: Seq<char>)
    ensures
        held.insert(code).insert(code) == held.insert(code),
{
    assert(held.insert(code).insert(code) =~= held.insert(code));
}

/// A key that is held presses exactly the buttons bound to it, and only
/// keys bound to a button press one.
pub proof fn lemma_controller_follows_binding(config: InputConfig<String>, held: Set<Seq<char>>, code: Seq<char>)
    ensures
        controller_for(config, held.insert(code)).left == (held.contains(config.left@) || config.left@ == code),
        controller_for(config, held.insert(code)).hold == (held.contains(config.hold@) || config.hold@ == code),
        controller_for(config, Set::empty()) == Controller::spec_released(),
{
}

} // verus!
