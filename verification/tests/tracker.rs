use vn_time_tracker::state::{apply_update, GameUpdate, PersistedState};
use vn_time_tracker::storage::{load_games, load_sessions, save_games, Game, Store};
use vn_time_tracker::tracker::{tracker_commit, tracker_commit_at};

fn game(id: u32, name: &str, path: &str, hours: &str) -> Game {
    Game { id, name: name.to_string(), path: path.to_string(), hours: hours.to_string() }
}

#[test]
fn track_session_adds_to_total() {
    let mut store = Store::new();
    save_games(&mut store, &vec![game(1, "A", "/a", "1h 0m 0s")]);
    let r = tracker_commit_at(&mut store, 1, 65, "2024-01-02 03:04:05".to_string());
    let update = r.expect("a stored game yields an update");
    assert_eq!(update.game_id, 1);
    assert_eq!(update.hours, "1h 1m 5s");
    assert_eq!(store.games[0].hours, "1h 1m 5s");
    assert_eq!(store.sessions.len(), 1);
    assert_eq!(store.sessions[0].game_id, 1);
    assert_eq!(store.sessions[0].date, "2024-01-02 03:04:05");
    assert_eq!(store.sessions[0].duration, "0h 1m 5s");
}

#[test]
fn fresh_total_equals_elapsed() {
    let mut store = Store::new();
    save_games(&mut store, &vec![game(1, "A", "/a", "0h 0m 0s")]);
    let r = tracker_commit_at(&mut store, 1, 65, "2024-01-02 03:04:05".to_string());
    assert_eq!(r.expect("update").hours, "0h 1m 5s");
    assert_eq!(store.games[0].hours, "0h 1m 5s");
    let sessions = load_sessions(&store, 1);
    assert_eq!(sessions.len(), 1);
    assert_eq!(sessions[0].duration, "0h 1m 5s");
}

#[test]
fn missing_game_is_noop() {
    let mut store = Store::new();
    save_games(&mut store, &vec![game(1, "A", "/a", "1h 0m 0s")]);
    let r = tracker_commit_at(&mut store, 9, 65, "2024-01-02 03:04:05".to_string());
    assert!(r.is_none());
    assert_eq!(store.games[0].hours, "1h 0m 0s");
    assert_eq!(store.sessions.len(), 0);
}

#[test]
fn commit_only_touches_matching_game() {
    let mut store = Store::new();
    save_games(
        &mut store,
        &vec![game(1, "A", "/a", "0h 0m 0s"), game(2, "B", "/b", "2h 0m 0s")],
    );
    tracker_commit_at(&mut store, 2, 30, "2024-01-02 03:04:05".to_string());
    assert_eq!(store.games[0].hours, "0h 0m 0s");
    assert_eq!(store.games[1].hours, "2h 0m 30s");
}

#[test]
fn total_saturates_at_max() {
    let mut store = Store::new();
    save_games(&mut store, &vec![game(1, "A", "/a", "18446744073709551615s")]);
    tracker_commit_at(&mut store, 1, 1, "2024-01-02 03:04:05".to_string());
    assert_eq!(store.games[0].hours, "5124095576030431h 0m 15s");
}

#[test]
fn commit_with_clock_date() {
    let mut store = Store::new();
    save_games(&mut store, &vec![game(1, "A", "/a", "0h 0m 0s")]);
    let r = tracker_commit(&mut store, 1, 5);
    assert_eq!(r.expect("update").hours, "0h 0m 5s");
    assert_eq!(store.games[0].hours, "0h 0m 5s");
    assert_eq!(store.sessions.len(), 1);
    assert_eq!(store.sessions[0].date.len(), 19);
}

#[test]
fn apply_update_overwrites_hours() {
    let games = vec![game(1, "A", "/a", "0h 0m 0s"), game(2, "B", "/b", "1h 0m 0s")];
    let mut state = PersistedState::new(games);
    apply_update(&mut state, GameUpdate { game_id: 2, hours: "9h 9m 9s".to_string() });
    assert_eq!(state.games[0].hours, "0h 0m 0s");
    assert_eq!(state.games[1].hours, "9h 9m 9s");
}

#[test]
fn apply_update_unknown_id_ignored() {
    let games = vec![game(1, "A", "/a", "0h 0m 0s")];
    let mut state = PersistedState::new(games);
    apply_update(&mut state, GameUpdate { game_id: 7, hours: "9h 9m 9s".to_string() });
    assert_eq!(state.games.len(), 1);
    assert_eq!(state.games[0].hours, "0h 0m 0s");
}

#[test]
fn loaded_games_reflect_commit() {
    let mut store = Store::new();
    save_games(&mut store, &vec![game(1, "A", "/a", "0h 0m 0s")]);
    tracker_commit_at(&mut store, 1, 3661, "2024-01-02 03:04:05".to_string());
    let loaded = load_games(&store);
    assert_eq!(loaded[0].hours, "1h 1m 1s");
}
