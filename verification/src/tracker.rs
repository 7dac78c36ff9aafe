//! Session tracker commit: reconciling one finished play session
//! into the store.
//!
//! The surrounding application runs the child process on a worker
//! thread and measures its wall-clock lifetime; once the process has
//! exited it hands the elapsed seconds to the commit step below.  The
//! commit updates the game's stored total, appends a session record,
//! and yields the notification message for the interface, in that
//! order; a game deleted while it ran yields no change and no
//! message.

use vstd::prelude::*;
use crate::duration::{format_duration, format_spec, parse_duration, parse_spec};
use crate::state::GameUpdate;
use crate::storage::{
    find_game, has_game, lemma_find_game, save_session, set_game_hours, Session, Store,
};

verus! {

/// The new stored total: the parsed stored hours plus the elapsed
/// seconds, saturated at `u64::MAX`.
pub open spec fn total_after(hours: Seq<char>, elapsed: u64) -> u64 {
    if parse_spec(hours) + elapsed > u64::MAX {
        u64::MAX
    } else {
        (parse_spec(hours) + elapsed) as u64
    }
}

/// Relies on chrono's `Local::now`: the current local wall-clock
/// time rendered as `"YYYY-MM-DD HH:MM:SS"`.  Nothing is promised of
/// the result; callers state what holds of every date.
#[verifier::external_body]
fn local_now_string() -> String {
    chrono::Local::now().format("%Y-%m-%d %H:%M:%S").to_string()
}

/// The commit step at a given wall-clock date.
///
/// When the game is still stored, its hours become the formatted new
/// total, one session record carrying the date and the formatted
/// elapsed time is appended, and the update message for the
/// interface is returned; when the game is gone, nothing changes and
/// no message is returned.
pub fn tracker_commit_at(store: &mut Store, game_id: u32, elapsed: u64, date: String) -> (r:
    Option<GameUpdate>)
    ensures
        !has_game(old(store).games@, game_id) ==> *final(store) == *old(store) && r
            == None::<GameUpdate>,
        has_game(old(store).games@, game_id) ==> {
            let j = find_game(old(store).games@, game_id);
            let total = total_after(old(store).games@[j].hours@, elapsed);
            &&& final(store).games@.len() == old(store).games@.len()
            &&& (forall|k: int|
                0 <= k < old(store).games@.len() && k != j ==> final(store).games@[k] == old(
                    store,
                ).games@[k])
            &&& final(store).games@[j].id == old(store).games@[j].id
            &&& final(store).games@[j].name == old(store).games@[j].name
            &&& final(store).games@[j].path == old(store).games@[j].path
            &&& final(store).games@[j].hours@ == format_spec(total as nat)
            &&& final(store).sessions@.len() == old(store).sessions@.len() + 1
            &&& final(store).sessions@.take(old(store).sessions@.len() as int) == old(
                store,
            ).sessions@
            &&& final(store).sessions@.last().game_id == game_id
            &&& final(store).sessions@.last().date == date
            &&& final(store).sessions@.last().duration@ == format_spec(elapsed as nat)
            &&& r matches Some(u) && u.game_id == game_id && u.hours@ == format_spec(
                total as nat,
            )
        },
{
    let n = store.games.len();
    let mut i: usize = 0;
    while i < n
        invariant
            i <= n,
            n == store.games@.len(),
            store == old(store),
            forall|k: int| 0 <= k < i ==> #[trigger] store.games@[k].id != game_id,
        decreases n - i,
    {
        if store.games[i].id == game_id {
            proof {
                assert(store.games@[i as int].id == game_id);
                assert(has_game(store.games@, game_id));
                lemma_find_game(store.games@, game_id);
                assert(find_game(store.games@, game_id) == i);
            }
            let stored = parse_duration(store.games[i].hours.as_str());
            let total: u64 = if stored > u64::MAX - elapsed {
                u64::MAX
            } else {
                stored + elapsed
            };
            proof {
                assert(total == total_after(store.games@[i as int].hours@, elapsed));
            }
            let new_hours = format_duration(total);
            set_game_hours(&mut store.games, game_id, new_hours);
            let session = Session {
                game_id,
                date,
                duration: format_duration(elapsed),
            };
            save_session(store, &session);
            return Some(GameUpdate { game_id, hours: format_duration(total) });
        }
        i += 1;
    }
    proof {
        assert(!has_game(store.games@, game_id));
    }
    None
}

/// The commit step: as `tracker_commit_at`, the session's date taken
/// from the local wall clock.
pub fn tracker_commit(store: &mut Store, game_id: u32, elapsed: u64) -> (r: Option<GameUpdate>)
    ensures
        !has_game(old(store).games@, game_id) ==> *final(store) == *old(store) && r
            == None::<GameUpdate>,
        has_game(old(store).games@, game_id) ==> {
            let j = find_game(old(store).games@, game_id);
            let total = total_after(old(store).games@[j].hours@, elapsed);
            &&& final(store).games@.len() == old(store).games@.len()
            &&& (forall|k: int|
                0 <= k < old(store).games@.len() && k != j ==> final(store).games@[k] == old(
                    store,
                ).games@[k])
            &&& final(store).games@[j].id == old(store).games@[j].id
            &&& final(store).games@[j].name == old(store).games@[j].name
            &&& final(store).games@[j].path == old(store).games@[j].path
            &&& final(store).games@[j].hours@ == format_spec(total as nat)
            &&& final(store).sessions@.len() == old(store).sessions@.len() + 1
            &&& final(store).sessions@.take(old(store).sessions@.len() as int) == old(
                store,
            ).sessions@
            &&& final(store).sessions@.last().game_id == game_id
            &&& final(store).sessions@.last().duration@ == format_spec(elapsed as nat)
            &&& r matches Some(u) && u.game_id == game_id && u.hours@ == format_spec(
                total as nat,
            )
        },
{
    let date = local_now_string();
    tracker_commit_at(store, game_id, elapsed, date)
}

/// Happy-path totals law: a stored total that parses to zero seconds
/// becomes exactly the elapsed time of the first committed session,
/// so after one session on a fresh game the stored hours and the
/// session's duration are both the formatted elapsed time.
pub proof fn lemma_total_from_zero(hours: Seq<char>, elapsed: u64)
    requires
        parse_spec(hours) == 0,
    ensures
        total_after(hours, elapsed) == elapsed,
{
}

} // verus!
