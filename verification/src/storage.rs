//! Persistence store: the games and sessions collections.
//!
//! A `Store` is the in-memory image of the two persisted JSON
//! documents.  Both documents live under whole-document replace
//! semantics: an operation reads or rewrites a collection as a whole,
//! never a part of it, so the store models each document as one
//! ordered sequence of records.  The surrounding application reads
//! the files into a `Store`, runs the operations below, and writes
//! the collections back out.

use vstd::prelude::*;

verus! {

broadcast use vstd::seq_lib::group_filter_ensures;

/// A registered game: identity, display name, executable path, and
/// the accumulated play time as a display string in the canonical
/// `"Xh Ym Zs"` form.
pub struct Game {
    pub id: u32,
    pub name: String,
    pub path: String,
    pub hours: String,
}

/// One recorded play session: the owning game, the wall-clock date at
/// session end, and the elapsed time as a display string.
pub struct Session {
    pub game_id: u32,
    pub date: String,
    pub duration: String,
}

/// The in-memory image of the two persisted collections.
pub struct Store {
    pub games: Vec<Game>,
    pub sessions: Vec<Session>,
}

/// There is a game with the given id.
pub open spec fn has_game(games: Seq<Game>, id: u32) -> bool {
    exists|i: int| 0 <= i < games.len() && #[trigger] games[i].id == id
}

/// There is a session belonging to the given game.
pub open spec fn has_session(sessions: Seq<Session>, game_id: u32) -> bool {
    exists|i: int| 0 <= i < sessions.len() && #[trigger] sessions[i].game_id == game_id
}

/// The sessions of one game, keeping stored order.
pub open spec fn sessions_of(sessions: Seq<Session>, game_id: u32) -> Seq<Session> {
    sessions.filter(|s: Session| s.game_id == game_id)
}

/// The sessions collection with every session of one game removed.
pub open spec fn remove_sessions(sessions: Seq<Session>, game_id: u32) -> Seq<Session> {
    sessions.filter(|s: Session| s.game_id != game_id)
}

/// The games collection with every game of one id removed.
pub open spec fn remove_game(games: Seq<Game>, id: u32) -> Seq<Game> {
    games.filter(|g: Game| g.id != id)
}

/// The greatest id among the games, zero when there are none.
pub open spec fn max_id(games: Seq<Game>) -> u32
    decreases games.len(),
{
    if games.len() == 0 {
        0
    } else {
        let rest = max_id(games.drop_last());
        if games.last().id > rest {
            games.last().id
        } else {
            rest
        }
    }
}

/// Index of the first game with the given id, or `-1` when there is
/// none.
pub open spec fn find_game(games: Seq<Game>, id: u32) -> int
    decreases games.len(),
{
    if games.len() == 0 {
        -1
    } else if games.first().id == id {
        0
    } else {
        let rest = find_game(games.drop_first(), id);
        if rest == -1 {
            -1
        } else {
            rest + 1
        }
    }
}

/// The games collection with the first game of the given id renamed,
/// unchanged when the id is absent.
pub open spec fn rename_in(games: Seq<Game>, id: u32, new_name: String) -> Seq<Game> {
    let j = find_game(games, id);
    if j == -1 {
        games
    } else {
        games.update(
            j,
            Game { id: games[j].id, name: new_name, path: games[j].path, hours: games[j].hours },
        )
    }
}

/// The games collection with the first game of the given id given new
/// hours, unchanged when the id is absent.
pub open spec fn set_hours_in(games: Seq<Game>, id: u32, new_hours: String) -> Seq<Game> {
    let j = find_game(games, id);
    if j == -1 {
        games
    } else {
        games.update(
            j,
            Game { id: games[j].id, name: games[j].name, path: games[j].path, hours: new_hours },
        )
    }
}

/// `find_game` names the first index holding the id, and `-1` exactly
/// when the id is absent.
pub proof fn lemma_find_game(games: Seq<Game>, id: u32)
    ensures
        (find_game(games, id) == -1) <==> !has_game(games, id),
        has_game(games, id) ==> 0 <= find_game(games, id) < games.len(),
        has_game(games, id) ==> games[find_game(games, id)].id == id,
        has_game(games, id) ==> (forall|k: int|
            0 <= k < find_game(games, id) ==> #[trigger] games[k].id != id),
    decreases games.len(),
{
    if games.len() == 0 {
    } else if games.first().id == id {
        assert(games[0].id == id);
    } else {
        let rest = games.drop_first();
        lemma_find_game(rest, id);
        assert(forall|i: int| 0 <= i < rest.len() ==> rest[i] == games[i + 1]);
        if has_game(games, id) {
            let w = choose|i: int| 0 <= i < games.len() && #[trigger] games[i].id == id;
            assert(w != 0);
            assert(rest[w - 1].id == id);
            assert(has_game(rest, id));
            let j = find_game(rest, id);
            assert(games[j + 1].id == id);
            assert forall|k: int| 1 <= k < j + 1 implies #[trigger] games[k].id != id by {
                assert(rest[k - 1] == games[k]);
                assert(rest[k - 1].id != id);
            }
        } else {
            assert(forall|i: int| 0 <= i < rest.len() ==> #[trigger] rest[i].id != id);
        }
    }
}

impl Store {
    /// A store with no games and no sessions.
    pub fn new() -> (s: Store)
        ensures
            s.games@ == Seq::<Game>::empty(),
            s.sessions@ == Seq::<Session>::empty(),
    {
        let s = Store { games: Vec::new(), sessions: Vec::new() };
        proof {
            assert(s.games@ =~= Seq::<Game>::empty());
            assert(s.sessions@ =~= Seq::<Session>::empty());
        }
        s
    }
}

/// Copy of a game record.
pub fn clone_game(g: &Game) -> (r: Game)
    ensures
        r == *g,
{
    Game { id: g.id, name: g.name.clone(), path: g.path.clone(), hours: g.hours.clone() }
}

/// Copy of a session record.
pub fn clone_session(s: &Session) -> (r: Session)
    ensures
        r == *s,
{
    Session { game_id: s.game_id, date: s.date.clone(), duration: s.duration.clone() }
}

/// Copy of a games collection.
fn clone_games(v: &Vec<Game>) -> (r: Vec<Game>)
    ensures
        r@ == v@,
{
    let mut r: Vec<Game> = Vec::new();
    let mut i: usize = 0;
    while i < v.len()
        invariant
            i <= v@.len(),
            r@ == v@.take(i as int),
        decreases v@.len() - i,
    {
        r.push(clone_game(&v[i]));
        proof {
            assert(v@.take(i + 1) =~= v@.take(i as int).push(v@[i as int]));
        }
        i += 1;
    }
    proof {
        assert(v@.take(v@.len() as int) =~= v@);
    }
    r
}

/// Loads all games: the games collection as currently stored.
pub fn load_games(store: &Store) -> (r: Vec<Game>)
    ensures
        r@ == store.games@,
{
    clone_games(&store.games)
}

/// Saves all games: replaces the games collection as a whole, leaving
/// the sessions collection untouched.
pub fn save_games(store: &mut Store, games: &Vec<Game>)
    ensures
        final(store).games@ == games@,
        final(store).sessions == old(store).sessions,
{
    store.games = clone_games(games);
}

/// Loads all sessions of one game, keeping stored order.
pub fn load_sessions(store: &Store, game_id: u32) -> (r: Vec<Session>)
    ensures
        r@ == sessions_of(store.sessions@, game_id),
{
    let mut r: Vec<Session> = Vec::new();
    let mut i: usize = 0;
    let v = &store.sessions;
    while i < v.len()
        invariant
            i <= v@.len(),
            r@ == sessions_of(v@.take(i as int), game_id),
        decreases v@.len() - i,
    {
        let s = &v[i];
        proof {
            assert(v@.take(i + 1) =~= v@.take(i as int).push(v@[i as int]));
            Seq::lemma_filter_push(v@.take(i as int), v@[i as int], |s: Session| s.game_id == game_id);
        }
        if s.game_id == game_id {
            r.push(clone_session(s));
        }
        i += 1;
    }
    proof {
        assert(v@.take(v@.len() as int) =~= v@);
    }
    r
}

/// Appends one session to the sessions collection, leaving the games
/// collection untouched.
pub fn save_session(store: &mut Store, session: &Session)
    ensures
        final(store).sessions@ == old(store).sessions@.push(*session),
        final(store).games == old(store).games,
{
    let s = clone_session(session);
    store.sessions.push(s);
}

/// A filtered sequence keeps its length exactly when every element
/// satisfies the predicate.
proof fn lemma_filter_len_is_len<A>(s: Seq<A>, pred: spec_fn(A) -> bool)
    ensures
        (s.filter(pred).len() == s.len()) <==> (forall|i: int|
            0 <= i < s.len() ==> pred(#[trigger] s[i])),
    decreases s.len(),
{
    reveal(Seq::filter);
    if s.len() == 0 {
    } else {
        let rest = s.drop_last();
        lemma_filter_len_is_len(rest, pred);
        rest.lemma_filter_len(pred);
        assert(forall|i: int| 0 <= i < rest.len() ==> rest[i] == s[i]);
        assert(s.last() == s[s.len() - 1]);
    }
}

/// Deletes all sessions of one game, reporting whether any session
/// was removed; the games collection is untouched.
pub fn delete_sessions_for_game(store: &mut Store, game_id: u32) -> (removed: bool)
    ensures
        final(store).sessions@ == remove_sessions(old(store).sessions@, game_id),
        final(store).games == old(store).games,
        removed == has_session(old(store).sessions@, game_id),
{
    let mut kept: Vec<Session> = Vec::new();
    let mut i: usize = 0;
    let n = store.sessions.len();
    while i < n
        invariant
            i <= n,
            store == old(store),
            n == store.sessions@.len(),
            kept@ == remove_sessions(store.sessions@.take(i as int), game_id),
        decreases n - i,
    {
        let v = &store.sessions;
        let s = &v[i];
        proof {
            assert(v@.take(i + 1) =~= v@.take(i as int).push(v@[i as int]));
            Seq::lemma_filter_push(v@.take(i as int), v@[i as int], |s: Session| s.game_id != game_id);
        }
        if s.game_id != game_id {
            kept.push(clone_session(s));
        }
        i += 1;
    }
    proof {
        assert(store.sessions@.take(n as int) =~= store.sessions@);
    }
    let removed = kept.len() != store.sessions.len();
    proof {
        lemma_filter_len_is_len(store.sessions@, |s: Session| s.game_id != game_id);
    }
    store.sessions = kept;
    removed
}

/// Overwrites the hours of the first game carrying the given id; a
/// collection without the id is left unchanged.
pub fn set_game_hours(games: &mut Vec<Game>, id: u32, new_hours: String)
    ensures
        final(games)@ == set_hours_in(old(games)@, id, new_hours),
{
    let mut i: usize = 0;
    while i < games.len()
        invariant
            i <= games@.len(),
            games@ == old(games)@,
            forall|k: int| 0 <= k < i ==> #[trigger] games@[k].id != id,
        decreases games@.len() - i,
    {
        if games[i].id == id {
            proof {
                assert(games@[i as int].id == id);
                assert(has_game(games@, id));
                lemma_find_game(games@, id);
                assert(find_game(games@, id) == i);
            }
            let g = &games[i];
            let ng = Game {
                id: g.id,
                name: g.name.clone(),
                path: g.path.clone(),
                hours: new_hours,
            };
            games[i] = ng;
            return;
        }
        i += 1;
    }
    proof {
        assert(!has_game(games@, id));
        lemma_find_game(games@, id);
    }
}

/// Session-appendability law: appending one session extends a game's
/// session list by exactly that session when it belongs to the game,
/// and leaves the list unchanged otherwise; so a game's session list
/// is always the subsequence of saved sessions carrying its id, in
/// insertion order.
pub proof fn lemma_session_append(sessions: Seq<Session>, s: Session, game_id: u32)
    ensures
        s.game_id == game_id ==> sessions_of(sessions.push(s), game_id) == sessions_of(
            sessions,
            game_id,
        ).push(s),
        s.game_id != game_id ==> sessions_of(sessions.push(s), game_id) == sessions_of(
            sessions,
            game_id,
        ),
{
    Seq::lemma_filter_push(sessions, s, |x: Session| x.game_id == game_id);
}

/// Cascade-delete law: after a game and its sessions are removed, no
/// game carries the id and the game's session list is empty.
pub proof fn lemma_cascade_delete(games: Seq<Game>, sessions: Seq<Session>, id: u32)
    ensures
        !has_game(remove_game(games, id), id),
        sessions_of(remove_sessions(sessions, id), id) == Seq::<Session>::empty(),
{
    let kept_games = remove_game(games, id);
    assert forall|i: int| 0 <= i < kept_games.len() implies #[trigger] kept_games[i].id != id by {
        games.lemma_filter_pred(|g: Game| g.id != id, i);
    }
    let kept = remove_sessions(sessions, id);
    assert forall|i: int| 0 <= i < kept.len() implies #[trigger] kept[i].game_id != id by {
        sessions.lemma_filter_pred(|s: Session| s.game_id != id, i);
    }
    kept.lemma_all_neg_filter_empty(|s: Session| s.game_id == id);
    assert(sessions_of(kept, id) =~= Seq::<Session>::empty());
}

/// Id-monotonicity law: when the games hold the ids `1 .. n` in
/// order, the greatest id is `n`, so the next assigned id is `n + 1`
/// and successive additions to an initially empty store produce the
/// ids `1, 2, 3, ...` in order.
pub proof fn lemma_id_monotonic(games: Seq<Game>)
    requires
        forall|i: int| 0 <= i < games.len() ==> #[trigger] games[i].id == i + 1,
    ensures
        max_id(games) == games.len(),
    decreases games.len(),
{
    if games.len() == 0 {
    } else {
        let rest = games.drop_last();
        assert(forall|i: int| 0 <= i < rest.len() ==> rest[i] == games[i]);
        lemma_id_monotonic(rest);
        assert(games.last().id == games.len());
    }
}

/// Id-monotonicity law, one step: adding a game carrying the next id
/// to a collection holding the ids `1 .. n` in order yields the ids
/// `1 .. n + 1` in order.
pub proof fn lemma_ids_stay_contiguous(games: Seq<Game>, g: Game)
    requires
        forall|i: int| 0 <= i < games.len() ==> #[trigger] games[i].id == i + 1,
        g.id == max_id(games) + 1,
    ensures
        forall|i: int|
            0 <= i < games.push(g).len() ==> #[trigger] games.push(g)[i].id == i + 1,
{
    lemma_id_monotonic(games);
}

} // verus!
