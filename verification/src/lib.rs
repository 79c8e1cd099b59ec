//! Game-flow logic of a two-player falling-block battle front end.

pub mod lines;
pub mod model;
pub mod match_flow;
pub mod player_view;
pub mod plan;
pub mod input;
pub mod options;
