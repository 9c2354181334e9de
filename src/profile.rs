use vstd::prelude::*;
use crate::ambient::now_seconds;
use crate::error::{found, StoreError};
use crate::keyed::KeyedTable;

verus! {

/// A stored taste profile and the time (seconds since the Unix epoch) of its
/// last save.
pub struct ProfileRow {
    pub profile: serde_json::Value,
    pub updated_at: i64,
}

/// The profiles after `profile` is saved for session `s` at `now`: the row
/// is replaced whole, its time of last save advanced; no other row changes.
pub open spec fn profile_saved(
    m: Map<Seq<char>, ProfileRow>,
    s: Seq<char>,
    profile: serde_json::Value,
    now: i64,
) -> Map<Seq<char>, ProfileRow> {
    m.insert(s, ProfileRow { profile, updated_at: now })
}

/// What a read of the profile of session `s` yields.
pub open spec fn profile_read(m: Map<Seq<char>, ProfileRow>, s: Seq<char>) -> Option<
    serde_json::Value,
> {
    if m.contains_key(s) {
        Some(m[s].profile)
    } else {
        None
    }
}

/// One taste-profile document per session, last write wins.
pub struct ProfileStore {
    table: KeyedTable<ProfileRow>,
}

impl View for ProfileStore {
    type V = Map<Seq<char>, ProfileRow>;

    closed spec fn view(&self) -> Map<Seq<char>, ProfileRow> {
        self.table@
    }
}

impl ProfileStore {
    pub closed spec fn wf(&self) -> bool {
        self.table.wf()
    }

    /// A store with no profiles.
    pub fn new() -> (r: Self)
        ensures
            r.wf(),
            r@ == Map::<Seq<char>, ProfileRow>::empty(),
    {
        ProfileStore { table: KeyedTable::new() }
    }

    /// The profile saved for `session_id`; `NotFound` when there is none.
    pub fn get(&self, session_id: &String) -> (r: Result<serde_json::Value, StoreError>)
        requires
            self.wf(),
        ensures
            r == found(profile_read(self@, session_id@)),
    {
        match self.table.get(session_id) {
            Some(row) => Ok(row.profile.clone()),
            None => Err(StoreError::NotFound),
        }
    }

    /// Replaces the whole profile of `session_id` with `profile` at time
    /// `now`, creating the row on first write. The document is never read
    /// or merged.
    pub fn save(&mut self, session_id: String, profile: serde_json::Value, now: i64)
        requires
            old(self).wf(),
        ensures
            final(self).wf(),
            final(self)@ == profile_saved(old(self)@, session_id@, profile, now),
    {
        self.table.upsert(session_id, ProfileRow { profile, updated_at: now });
    }

    /// Saves the profile of `session_id` at the current time.
    pub fn save_now(&mut self, session_id: String, profile: serde_json::Value)
        requires
            old(self).wf(),
        ensures
            final(self).wf(),
            exists|now: i64|
                final(self)@ == #[trigger] profile_saved(old(self)@, session_id@, profile, now),
    {
        let now = now_seconds();
        self.save(session_id, profile, now);
    }
}

/// Last write wins: after saving `d1` and then `d2` for one session, at any
/// times, a read of that session yields `d2`, with nothing of `d1` merged in.
pub proof fn lemma_profile_last_write_wins(
    m: Map<Seq<char>, ProfileRow>,
    s: Seq<char>,
    d1: serde_json::Value,
    t1: i64,
    d2: serde_json::Value,
    t2: i64,
)
    ensures
        profile_read(profile_saved(profile_saved(m, s, d1, t1), s, d2, t2), s) == Some(d2),
{
}

/// Saving the same profile twice reads back as saving it once does, for
/// every session.
pub proof fn lemma_profile_save_idempotent(
    m: Map<Seq<char>, ProfileRow>,
    s: Seq<char>,
    d: serde_json::Value,
    t1: i64,
    t2: i64,
)
    ensures
        forall|s2: Seq<char>|
            profile_read(profile_saved(profile_saved(m, s, d, t1), s, d, t2), s2) == profile_read(
                profile_saved(m, s, d, t1),
                s2,
            ),
{
}

} // verus!
