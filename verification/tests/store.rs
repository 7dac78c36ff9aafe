use vn_time_tracker::crud::{add_new_game, delete_game_and_sessions, rename_game};
use vn_time_tracker::state::PersistedState;
use vn_time_tracker::storage::{
    delete_sessions_for_game, load_games, load_sessions, save_games, save_session, Game, Session,
    Store,
};

fn game(id: u32, name: &str, path: &str, hours: &str) -> Game {
    Game { id, name: name.to_string(), path: path.to_string(), hours: hours.to_string() }
}

fn session(game_id: u32, date: &str, duration: &str) -> Session {
    Session { game_id, date: date.to_string(), duration: duration.to_string() }
}

#[test]
fn add_and_list() {
    let mut store = Store::new();
    let mut state = PersistedState::new(Vec::new());
    state.new_game_name = "Clannad".to_string();
    add_new_game(&mut store, &mut state, "/games/clannad.exe".to_string());
    assert_eq!(store.games.len(), 1);
    assert_eq!(store.games[0].id, 1);
    assert_eq!(store.games[0].name, "Clannad");
    assert_eq!(store.games[0].path, "/games/clannad.exe");
    assert_eq!(store.games[0].hours, "0h 0m 0s");
    assert_eq!(state.games.len(), 1);
    assert_eq!(state.games[0].id, 1);
    assert!(!state.show_add_game_window);
    assert_eq!(state.new_game_name, "");
}

#[test]
fn add_trims_entered_name() {
    let mut store = Store::new();
    let mut state = PersistedState::new(Vec::new());
    state.new_game_name = "  Air  ".to_string();
    add_new_game(&mut store, &mut state, "/g/air.exe".to_string());
    assert_eq!(store.games[0].name, "Air");
}

#[test]
fn default_name_fallback() {
    let mut store = Store::new();
    let mut state = PersistedState::new(Vec::new());
    add_new_game(&mut store, &mut state, "/g/Steins_Gate.exe".to_string());
    assert_eq!(store.games[0].name, "Steins_Gate");
}

#[test]
fn default_name_backslash_path() {
    let mut store = Store::new();
    let mut state = PersistedState::new(Vec::new());
    add_new_game(&mut store, &mut state, "C:\\games\\Ever17.exe".to_string());
    assert_eq!(store.games[0].name, "Ever17");
}

#[test]
fn default_name_keeps_inner_dots() {
    let mut store = Store::new();
    let mut state = PersistedState::new(Vec::new());
    add_new_game(&mut store, &mut state, "/g/a.b.c".to_string());
    assert_eq!(store.games[0].name, "a.b");
}

#[test]
fn default_name_leading_dot_kept() {
    let mut store = Store::new();
    let mut state = PersistedState::new(Vec::new());
    add_new_game(&mut store, &mut state, "/g/.hidden".to_string());
    assert_eq!(store.games[0].name, ".hidden");
}

#[test]
fn unicode_space_name_falls_back_to_stem() {
    let mut store = Store::new();
    let mut state = PersistedState::new(Vec::new());
    state.new_game_name = "\u{a0}".to_string();
    add_new_game(&mut store, &mut state, "/g/Steins_Gate.exe".to_string());
    assert_eq!(store.games[0].name, "Steins_Gate");
}

#[test]
fn add_trims_ideographic_spaces() {
    let mut store = Store::new();
    let mut state = PersistedState::new(Vec::new());
    state.new_game_name = "\u{3000}Air\u{3000}".to_string();
    add_new_game(&mut store, &mut state, "/g/air.exe".to_string());
    assert_eq!(store.games[0].name, "Air");
}

#[test]
fn default_name_skips_trailing_separators() {
    let mut store = Store::new();
    let mut state = PersistedState::new(Vec::new());
    add_new_game(&mut store, &mut state, "/games/foo/".to_string());
    assert_eq!(store.games[0].name, "foo");
    add_new_game(&mut store, &mut state, "C:\\g\\Ever17\\".to_string());
    assert_eq!(store.games[1].name, "Ever17");
}

#[test]
fn ids_are_monotonic() {
    let mut store = Store::new();
    let mut state = PersistedState::new(Vec::new());
    add_new_game(&mut store, &mut state, "/g/one.exe".to_string());
    add_new_game(&mut store, &mut state, "/g/two.exe".to_string());
    add_new_game(&mut store, &mut state, "/g/three.exe".to_string());
    let ids: Vec<u32> = store.games.iter().map(|g| g.id).collect();
    assert_eq!(ids, vec![1, 2, 3]);
}

#[test]
fn next_id_is_max_plus_one() {
    let mut store = Store::new();
    let games = vec![game(7, "A", "/a", "0h 0m 0s"), game(3, "B", "/b", "0h 0m 0s")];
    save_games(&mut store, &games);
    let mut state = PersistedState::new(load_games(&store));
    add_new_game(&mut store, &mut state, "/g/new.exe".to_string());
    assert_eq!(store.games[2].id, 8);
}

#[test]
fn load_games_returns_copy() {
    let mut store = Store::new();
    let games = vec![game(1, "A", "/a", "1h 0m 0s")];
    save_games(&mut store, &games);
    let loaded = load_games(&store);
    assert_eq!(loaded.len(), 1);
    assert_eq!(loaded[0].id, 1);
    assert_eq!(loaded[0].name, "A");
    assert_eq!(loaded[0].hours, "1h 0m 0s");
}

#[test]
fn sessions_filtered_in_order() {
    let mut store = Store::new();
    save_session(&mut store, &session(1, "2024-01-01 10:00:00", "0h 1m 0s"));
    save_session(&mut store, &session(2, "2024-01-01 11:00:00", "0h 2m 0s"));
    save_session(&mut store, &session(1, "2024-01-02 10:00:00", "0h 3m 0s"));
    save_session(&mut store, &session(1, "2024-01-03 10:00:00", "0h 4m 0s"));
    let of_one = load_sessions(&store, 1);
    assert_eq!(of_one.len(), 3);
    assert_eq!(of_one[0].duration, "0h 1m 0s");
    assert_eq!(of_one[1].duration, "0h 3m 0s");
    assert_eq!(of_one[2].duration, "0h 4m 0s");
    let of_two = load_sessions(&store, 2);
    assert_eq!(of_two.len(), 1);
    assert_eq!(of_two[0].duration, "0h 2m 0s");
    assert_eq!(load_sessions(&store, 9).len(), 0);
}

#[test]
fn delete_sessions_reports_removal() {
    let mut store = Store::new();
    save_session(&mut store, &session(1, "2024-01-01 10:00:00", "0h 1m 0s"));
    save_session(&mut store, &session(2, "2024-01-01 11:00:00", "0h 2m 0s"));
    assert!(delete_sessions_for_game(&mut store, 1));
    assert!(!delete_sessions_for_game(&mut store, 1));
    assert_eq!(store.sessions.len(), 1);
    assert_eq!(store.sessions[0].game_id, 2);
}

#[test]
fn cascade_delete() {
    let mut store = Store::new();
    let games = vec![game(1, "A", "/a", "0h 0m 0s"), game(2, "B", "/b", "0h 0m 0s")];
    save_games(&mut store, &games);
    for gid in [1u32, 1, 2, 1] {
        save_session(&mut store, &session(gid, "2024-01-01 10:00:00", "0h 1m 0s"));
    }
    let mut state = PersistedState::new(load_games(&store));
    state.show_confirm_delete_window = Some(1);
    delete_game_and_sessions(&mut store, &mut state, 1);
    assert_eq!(store.games.len(), 1);
    assert_eq!(store.games[0].id, 2);
    assert_eq!(store.sessions.len(), 1);
    assert_eq!(store.sessions[0].game_id, 2);
    assert_eq!(load_sessions(&store, 1).len(), 0);
    assert_eq!(state.games.len(), 1);
    assert_eq!(state.games[0].id, 2);
    assert_eq!(state.show_confirm_delete_window, None);
}

#[test]
fn rename_persists() {
    let mut store = Store::new();
    let games = vec![
        game(1, "One", "/1", "0h 0m 0s"),
        game(2, "Two", "/2", "0h 0m 0s"),
        game(3, "A", "/3", "2h 0m 0s"),
    ];
    save_games(&mut store, &games);
    rename_game(&mut store, 3, "B".to_string());
    let loaded = load_games(&store);
    assert_eq!(loaded[2].name, "B");
    assert_eq!(loaded[2].id, 3);
    assert_eq!(loaded[2].path, "/3");
    assert_eq!(loaded[2].hours, "2h 0m 0s");
    assert_eq!(loaded[0].name, "One");
    assert_eq!(loaded[1].name, "Two");
}

#[test]
fn rename_unknown_id_is_noop() {
    let mut store = Store::new();
    let games = vec![game(1, "One", "/1", "0h 0m 0s")];
    save_games(&mut store, &games);
    rename_game(&mut store, 9, "X".to_string());
    assert_eq!(store.games.len(), 1);
    assert_eq!(store.games[0].name, "One");
}
