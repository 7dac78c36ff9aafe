//! In-memory application state: the games mirror the window shell
//! renders, the transient dialog flags, and the update messages the
//! trackers post.
//!
//! The shell drains all pending updates before each frame and patches
//! the mirror through `apply_update`; after every mutating user
//! operation the mirror is reassigned from a fresh load.

use vstd::prelude::*;
use crate::storage::{Game, set_hours_in};

verus! {

/// The application state the window shell persists between runs: the
/// games mirror and the transient dialog flags.
pub struct PersistedState {
    pub games: Vec<Game>,
    pub show_add_game_window: bool,
    pub new_game_name: String,
    pub editing_name: Option<u32>,
    pub show_sessions_window: Option<u32>,
    pub show_confirm_delete_window: Option<u32>,
}

/// One tracker notification: a game and its new total play time as a
/// display string.
pub struct GameUpdate {
    pub game_id: u32,
    pub hours: String,
}

impl PersistedState {
    /// A fresh state over a games snapshot, all transient flags
    /// cleared.
    pub fn new(games: Vec<Game>) -> (s: PersistedState)
        ensures
            s.games == games,
            s.show_add_game_window == false,
            s.new_game_name@ == Seq::<char>::empty(),
            s.editing_name == None::<u32>,
            s.show_sessions_window == None::<u32>,
            s.show_confirm_delete_window == None::<u32>,
    {
        PersistedState {
            games,
            show_add_game_window: false,
            new_game_name: String::new(),
            editing_name: None,
            show_sessions_window: None,
            show_confirm_delete_window: None,
        }
    }
}

/// Applies one tracker notification to the games mirror: the first
/// game carrying the update's id has its hours overwritten; an
/// unknown id is ignored.  Nothing else changes.
pub fn apply_update(state: &mut PersistedState, update: GameUpdate)
    ensures
        final(state).games@ == set_hours_in(old(state).games@, update.game_id, update.hours),
        final(state).show_add_game_window == old(state).show_add_game_window,
        final(state).new_game_name == old(state).new_game_name,
        final(state).editing_name == old(state).editing_name,
        final(state).show_sessions_window == old(state).show_sessions_window,
        final(state).show_confirm_delete_window == old(state).show_confirm_delete_window,
{
    let GameUpdate { game_id, hours } = update;
    crate::storage::set_game_hours(&mut state.games, game_id, hours);
}

} // verus!
