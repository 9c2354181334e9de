use vstd::prelude::*;
use crate::ambient::now_seconds;
use crate::error::{found, StoreError};
use crate::keyed::KeyedTable;

verus! {

/// A stored cart pointer and the time (seconds since the Unix epoch) of its
/// last save.
pub struct CartRow {
    pub cart_id: String,
    pub updated_at: i64,
}

/// The cart sessions after session `s` is pointed at `cart_id` at `now`: the
/// row is replaced whole; no other row changes.
pub open spec fn cart_saved(m: Map<Seq<char>, CartRow>, s: Seq<char>, cart_id: String, now: i64) -> Map<
    Seq<char>,
    CartRow,
> {
    m.insert(s, CartRow { cart_id, updated_at: now })
}

/// What a read of the cart pointer of session `s` yields.
pub open spec fn cart_read(m: Map<Seq<char>, CartRow>, s: Seq<char>) -> Option<String> {
    if m.contains_key(s) {
        Some(m[s].cart_id)
    } else {
        None
    }
}

/// One external cart id per session, last write wins.
pub struct CartSessionStore {
    table: KeyedTable<CartRow>,
}

impl View for CartSessionStore {
    type V = Map<Seq<char>, CartRow>;

    closed spec fn view(&self) -> Map<Seq<char>, CartRow> {
        self.table@
    }
}

impl CartSessionStore {
    pub closed spec fn wf(&self) -> bool {
        self.table.wf()
    }

    /// A store with no cart sessions.
    pub fn new() -> (r: Self)
        ensures
            r.wf(),
            r@ == Map::<Seq<char>, CartRow>::empty(),
    {
        CartSessionStore { table: KeyedTable::new() }
    }

    /// The cart id recorded for `session_id`; `NotFound` when there is none.
    pub fn get(&self, session_id: &String) -> (r: Result<String, StoreError>)
        requires
            self.wf(),
        ensures
            r == found(cart_read(self@, session_id@)),
    {
        match self.table.get(session_id) {
            Some(row) => Ok(row.cart_id.clone()),
            None => Err(StoreError::NotFound),
        }
    }

    /// Points `session_id` at `cart_id` at time `now`, replacing any earlier
    /// pointer.
    pub fn save(&mut self, session_id: String, cart_id: String, now: i64)
        requires
            old(self).wf(),
        ensures
            final(self).wf(),
            final(self)@ == cart_saved(old(self)@, session_id@, cart_id, now),
    {
        self.table.upsert(session_id, CartRow { cart_id, updated_at: now });
    }

    /// Points `session_id` at `cart_id` at the current time.
    pub fn save_now(&mut self, session_id: String, cart_id: String)
        requires
            old(self).wf(),
        ensures
            final(self).wf(),
            exists|now: i64| final(self)@ == #[trigger] cart_saved(old(self)@, session_id@, cart_id, now),
    {
        let now = now_seconds();
        self.save(session_id, cart_id, now);
    }
}

/// Last write wins: after pointing a session at `c1` and then at `c2`, a
/// read of that session yields `c2`.
pub proof fn lemma_cart_last_write_wins(
    m: Map<Seq<char>, CartRow>,
    s: Seq<char>,
    c1: String,
    t1: i64,
    c2: String,
    t2: i64,
)
    ensures
        cart_read(cart_saved(cart_saved(m, s, c1, t1), s, c2, t2), s) == Some(c2),
{
}

/// Saving the same cart pointer twice reads back as saving it once does,
/// for every session.
pub proof fn lemma_cart_save_idempotent(
    m: Map<Seq<char>, CartRow>,
    s: Seq<char>,
    c: String,
    t1: i64,
    t2: i64,
)
    ensures
        forall|s2: Seq<char>|
            cart_read(cart_saved(cart_saved(m, s, c, t1), s, c, t2), s2) == cart_read(
                cart_saved(m, s, c, t1),
                s2,
            ),
{
}

} // verus!
