//! User operations on the games collection: add, delete and rename.
//!
//! Each operation runs a whole load/save cycle against the store, as
//! every mutation of the persisted documents does, and keeps the
//! application state's games mirror in step where the interface
//! expects it.

use vstd::prelude::*;
use crate::duration::{format_duration, format_spec};
use crate::names::{default_game_name, default_name};
use crate::state::PersistedState;
use crate::storage::{
    find_game, has_game, lemma_find_game, load_games, max_id, remove_game, remove_sessions,
    rename_in, save_games, Game, Store,
};

verus! {

/// The greatest stored id, zero when there are no games.
fn max_game_id(games: &Vec<Game>) -> (r: u32)
    ensures
        r == max_id(games@),
{
    let mut r: u32 = 0;
    let mut i: usize = 0;
    proof {
        assert(games@.take(0) =~= Seq::<Game>::empty());
    }
    while i < games.len()
        invariant
            i <= games@.len(),
            r == max_id(games@.take(i as int)),
        decreases games@.len() - i,
    {
        proof {
            assert(games@.take(i + 1).drop_last() =~= games@.take(i as int));
            assert(games@.take(i + 1).last() == games@[i as int]);
        }
        if games[i].id > r {
            r = games[i].id;
        }
        i += 1;
    }
    proof {
        assert(games@.take(games@.len() as int) =~= games@);
    }
    r
}

/// Adds a game chosen by path: assigns the next id (one past the
/// greatest stored id, or one for an empty collection), names it
/// from the entered name or the path's file stem, stores it with
/// zero hours, then refreshes the state's games mirror, closes the
/// add dialog and clears the entered name.
pub fn add_new_game(store: &mut Store, state: &mut PersistedState, file_path: String)
    requires
        max_id(old(store).games@) < u32::MAX,
    ensures
        final(store).games@.len() == old(store).games@.len() + 1,
        final(store).games@.take(old(store).games@.len() as int) == old(store).games@,
        final(store).games@.last().id == max_id(old(store).games@) + 1,
        final(store).games@.last().name@ == default_game_name(
            old(state).new_game_name@,
            file_path@,
        ),
        final(store).games@.last().path == file_path,
        final(store).games@.last().hours@ == format_spec(0),
        final(store).sessions == old(store).sessions,
        final(state).games@ == final(store).games@,
        final(state).show_add_game_window == false,
        final(state).new_game_name@ == Seq::<char>::empty(),
        final(state).editing_name == old(state).editing_name,
        final(state).show_sessions_window == old(state).show_sessions_window,
        final(state).show_confirm_delete_window == old(state).show_confirm_delete_window,
{
    let mut games = load_games(store);
    let name = default_name(state.new_game_name.as_str(), file_path.as_str());
    let id = max_game_id(&games) + 1;
    let new_game = Game { id, name, path: file_path, hours: format_duration(0) };
    games.push(new_game);
    save_games(store, &games);
    state.games = load_games(store);
    state.show_add_game_window = false;
    state.new_game_name = String::new();
    proof {
        assert(final(store).games@.take(old(store).games@.len() as int) =~= old(store).games@);
    }
}

/// Removes a game and all of its sessions, refreshes the state's
/// games mirror and closes the confirmation dialog.
pub fn delete_game_and_sessions(store: &mut Store, state: &mut PersistedState, game_id: u32)
    ensures
        final(store).games@ == remove_game(old(store).games@, game_id),
        final(store).sessions@ == remove_sessions(old(store).sessions@, game_id),
        final(state).games@ == final(store).games@,
        final(state).show_confirm_delete_window == None::<u32>,
        final(state).show_add_game_window == old(state).show_add_game_window,
        final(state).new_game_name == old(state).new_game_name,
        final(state).editing_name == old(state).editing_name,
        final(state).show_sessions_window == old(state).show_sessions_window,
{
    let games = load_games(store);
    let mut kept: Vec<Game> = Vec::new();
    let mut i: usize = 0;
    while i < games.len()
        invariant
            i <= games@.len(),
            kept@ == remove_game(games@.take(i as int), game_id),
        decreases games@.len() - i,
    {
        let g = &games[i];
        proof {
            assert(games@.take(i + 1) =~= games@.take(i as int).push(games@[i as int]));
            Seq::lemma_filter_push(games@.take(i as int), games@[i as int], |g: Game| g.id != game_id);
        }
        if g.id != game_id {
            kept.push(crate::storage::clone_game(g));
        }
        i += 1;
    }
    proof {
        assert(games@.take(games@.len() as int) =~= games@);
    }
    save_games(store, &kept);
    let _ = crate::storage::delete_sessions_for_game(store, game_id);
    state.games = kept;
    state.show_confirm_delete_window = None;
}

/// Renames the first game carrying the id and stores the change; a
/// store without the id is left unchanged.  Sessions and the state
/// are untouched: the interface has already edited its mirror in
/// place.
pub fn rename_game(store: &mut Store, game_id: u32, new_name: String)
    ensures
        final(store).games@ == rename_in(old(store).games@, game_id, new_name),
        final(store).sessions == old(store).sessions,
{
    let mut i: usize = 0;
    while i < store.games.len()
        invariant
            i <= store.games@.len(),
            store == old(store),
            forall|k: int| 0 <= k < i ==> #[trigger] store.games@[k].id != game_id,
        decreases store.games@.len() - i,
    {
        if store.games[i].id == game_id {
            proof {
                assert(store.games@[i as int].id == game_id);
                assert(has_game(store.games@, game_id));
                lemma_find_game(store.games@, game_id);
                assert(find_game(store.games@, game_id) == i);
            }
            let g = &store.games[i];
            let ng = Game {
                id: g.id,
                name: new_name,
                path: g.path.clone(),
                hours: g.hours.clone(),
            };
            store.games[i] = ng;
            return;
        }
        i += 1;
    }
    proof {
        assert(!has_game(store.games@, game_id));
        lemma_find_game(store.games@, game_id);
    }
}

} // verus!
