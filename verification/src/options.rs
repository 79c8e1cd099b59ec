//! The settings of the two players: their key bindings, the game rules for
//! their boards, whether the bot plays, and the bot's settings.  The game
//! rules `G`, the bot's evaluator `E` and its search options `O` are taken
//! as they are.

use vstd::prelude::*;
use crate::input::{InputConfig, KeyboardInput};

verus! {

/// Whether a binding is the default one.
pub open spec fn is_default_binding(c: InputConfig<String>) -> bool {
    &&& c.left@ == "ArrowLeft"@
    &&& c.right@ == "ArrowRight"@
    &&& c.rotate_left@ == "KeyZ"@
    &&& c.rotate_right@ == "ArrowUp"@
    &&& c.hard_drop@ == "Space"@
    &&& c.soft_drop@ == "ArrowDown"@
    &&& c.hold@ == "KeyC"@
}

/// The bot's settings; a speed limit of 0 lets it play at full speed.
pub struct BotConfig<E, O> {
    pub evaluator: E,
    pub options: O,
    pub speed_limit: u32,
}

impl<E: Default, O: Default> Default for BotConfig<E, O> {
    /// Default evaluator and options, and no speed limit.
    fn default() -> (res: BotConfig<E, O>)
        ensures
            call_ensures(E::default, (), res.evaluator),
            call_ensures(O::default, (), res.options),
            res.speed_limit == 0,
    {
        BotConfig { evaluator: E::default(), options: O::default(), speed_limit: 0 }
    }
}

/// One player's settings.
pub struct PlayerConfig<G, E, O> {
    pub controls: InputConfig<String>,
    pub game: G,
    pub bot_config: BotConfig<E, O>,
    pub is_bot: bool,
}

impl<G: Default, E: Default, O: Default> Default for PlayerConfig<G, E, O> {
    /// A human player with the default binding, default rules and default
    /// bot settings.
    fn default() -> (res: PlayerConfig<G, E, O>)
        ensures
            is_default_binding(res.controls),
            call_ensures(G::default, (), res.game),
            call_ensures(E::default, (), res.bot_config.evaluator),
            call_ensures(O::default, (), res.bot_config.options),
            res.bot_config.speed_limit == 0,
            !res.is_bot,
    {
        PlayerConfig {
            controls: KeyboardInput::default_config(),
            game: G::default(),
            bot_config: BotConfig::default(),
            is_bot: false,
        }
    }
}

/// The settings of both players.
pub struct Options<G, E, O> {
    pub p1: PlayerConfig<G, E, O>,
    pub p2: PlayerConfig<G, E, O>,
}

impl<G: Default, E: Default, O: Default> Default for Options<G, E, O> {
    /// Player one is human and player two is the bot, both otherwise with
    /// default settings.
    fn default() -> (res: Options<G, E, O>)
        ensures
            is_default_binding(res.p1.controls),
            is_default_binding(res.p2.controls),
            call_ensures(G::default, (), res.p1.game),
            call_ensures(G::default, (), res.p2.game),
            call_ensures(E::default, (), res.p1.bot_config.evaluator),
            call_ensures(E::default, (), res.p2.bot_config.evaluator),
            call_ensures(O::default, (), res.p1.bot_config.options),
            call_ensures(O::default, (), res.p2.bot_config.options),
            res.p1.bot_config.speed_limit == 0,
            res.p2.bot_config.speed_limit == 0,
            !res.p1.is_bot,
            res.p2.is_bot,
    {
        let mut p2: PlayerConfig<G, E, O> = PlayerConfig::default();
        p2.is_bot = true;
        Options { p1: PlayerConfig::default(), p2 }
    }
}

} // verus!
