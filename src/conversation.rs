use vstd::prelude::*;
use crate::ambient::{fresh_id, now_seconds};
use crate::error::StoreError;
use crate::keyed::KeyedTable;
use crate::wishlist::copy_text;

verus! {

/// The metadata row of a conversation.
pub struct Conversation {
    pub id: String,
    pub session_id: String,
    pub title: String,
    /// Seconds since the Unix epoch of the last write to the conversation.
    pub updated_at: i64,
    pub category: Option<String>,
    pub icon: Option<String>,
}

impl Conversation {
    /// A field-for-field copy.
    pub fn duplicate(&self) -> (r: Self)
        ensures
            r == *self,
    {
        Conversation {
            id: self.id.clone(),
            session_id: self.session_id.clone(),
            title: self.title.clone(),
            updated_at: self.updated_at,
            category: copy_text(&self.category),
            icon: copy_text(&self.icon),
        }
    }
}

/// What a read of one conversation returns: its title and its messages.
pub struct ConversationContent {
    pub title: String,
    pub messages: Vec<serde_json::Value>,
}

/// The model of a [`ConversationStore`]: the metadata rows, most recently
/// updated first, and the message record of each conversation that has
/// one.
pub struct ConversationState {
    pub rows: Seq<Conversation>,
    pub messages: Map<Seq<char>, Seq<serde_json::Value>>,
}

/// The title a conversation is created with when none is given.
pub open spec fn default_title() -> Seq<char> {
    "New Chat"@
}

/// The title that a create with `title` gives.
pub open spec fn title_or_default(title: Option<String>) -> Seq<char> {
    match title {
        Some(t) => t@,
        None => default_title(),
    }
}

/// Whether some row has the id `id`.
pub open spec fn id_taken(rows: Seq<Conversation>, id: Seq<char>) -> bool {
    exists|i: int| 0 <= i < rows.len() && (#[trigger] rows[i]).id@ == id
}

/// No two rows share an id.
pub open spec fn ids_unique(rows: Seq<Conversation>) -> bool {
    forall|i: int, j: int|
        0 <= i < rows.len() && 0 <= j < rows.len() && i != j ==> (#[trigger] rows[i]).id@ != (
        #[trigger] rows[j]).id@
}

/// The messages of conversation `id`; a missing record reads as none.
pub open spec fn messages_or_empty(
    messages: Map<Seq<char>, Seq<serde_json::Value>>,
    id: Seq<char>,
) -> Seq<serde_json::Value> {
    if messages.contains_key(id) {
        messages[id]
    } else {
        Seq::empty()
    }
}

/// What a read of conversation `id` yields: its title and messages, or
/// `None` when no row has that id.
pub open spec fn conversation_read(st: ConversationState, id: Seq<char>) -> Option<
    (Seq<char>, Seq<serde_json::Value>),
> {
    if id_taken(st.rows, id) {
        let i = choose|i: int| 0 <= i < st.rows.len() && (#[trigger] st.rows[i]).id@ == id;
        Some((st.rows[i].title@, messages_or_empty(st.messages, id)))
    } else {
        None
    }
}

/// The conversations of session `s`, in the order of `rows`.
pub open spec fn conversations_of(rows: Seq<Conversation>, s: Seq<char>) -> Seq<Conversation>
    decreases rows.len(),
{
    if rows.len() == 0 {
        Seq::empty()
    } else {
        let rest = conversations_of(rows.drop_last(), s);
        if rows.last().session_id@ == s {
            rest.push(rows.last())
        } else {
            rest
        }
    }
}

/// Rows whose times of last write do not increase from front to back.
pub open spec fn newest_first(rows: Seq<Conversation>) -> bool {
    forall|i: int, j: int|
        0 <= i < j < rows.len() ==> (#[trigger] rows[i]).updated_at >= (#[trigger] rows[j]).updated_at
}

/// `p` is where a row written at `t` goes among `rows`: after every row
/// written later than `t`, before every other.
pub open spec fn insert_point(rows: Seq<Conversation>, p: int, t: i64) -> bool {
    &&& 0 <= p <= rows.len()
    &&& forall|j: int| 0 <= j < p ==> (#[trigger] rows[j]).updated_at > t
    &&& forall|j: int| p <= j < rows.len() ==> (#[trigger] rows[j]).updated_at <= t
}

/// Every message record belongs to a conversation row.
pub open spec fn records_belong(
    rows: Seq<Conversation>,
    messages: Map<Seq<char>, Seq<serde_json::Value>>,
) -> bool {
    forall|k: Seq<char>| #[trigger] messages.contains_key(k) ==> id_taken(rows, k)
}

/// How a create relates the state before it, after it and its result. A
/// taken id is a storage failure that changes nothing. Otherwise the new row
/// (the given title or the default, no category or icon, written at `now`)
/// takes its place by time of last write, and its message record is set to
/// the empty sequence.
pub open spec fn conversation_create_post(
    old: ConversationState,
    new: ConversationState,
    r: Result<Conversation, StoreError>,
    session_id: Seq<char>,
    title: Option<String>,
    id: Seq<char>,
    now: i64,
) -> bool {
    if id_taken(old.rows, id) {
        r == Err::<Conversation, StoreError>(StoreError::StorageFailure) && new == old
    } else {
        match r {
            Ok(c) => {
                &&& c.id@ == id
                &&& c.session_id@ == session_id
                &&& c.title@ == title_or_default(title)
                &&& c.updated_at == now
                &&& c.category is None
                &&& c.icon is None
                &&& exists|p: int|
                    #[trigger] insert_point(old.rows, p, now) && new.rows == old.rows.insert(p, c)
                &&& new.messages == old.messages.insert(id, Seq::empty())
            },
            Err(_) => false,
        }
    }
}

/// A row after an update at `now`: the title replaced when one is given,
/// the time of the last write advanced in any case.
pub open spec fn touched(c: Conversation, title: Option<String>, now: i64) -> Conversation {
    Conversation {
        id: c.id,
        session_id: c.session_id,
        title: match title {
            Some(t) => t,
            None => c.title,
        },
        updated_at: now,
        category: c.category,
        icon: c.icon,
    }
}

/// How an update of conversation `id` relates the state before and after it.
/// When the conversation exists, its row is touched and moves to its place
/// by time of last write, and given messages replace its whole message
/// record (creating it if needed). An unknown id changes nothing.
pub open spec fn conversation_update_post(
    old: ConversationState,
    new: ConversationState,
    id: Seq<char>,
    title: Option<String>,
    messages: Option<Seq<serde_json::Value>>,
    now: i64,
) -> bool {
    &&& id_taken(old.rows, id) ==> exists|i: int, p: int|
        0 <= i < old.rows.len() && (#[trigger] old.rows[i]).id@ == id && #[trigger] insert_point(
            old.rows.remove(i),
            p,
            now,
        ) && new.rows == old.rows.remove(i).insert(p, touched(old.rows[i], title, now))
    &&& id_taken(old.rows, id) ==> new.messages == match messages {
        Some(m) => old.messages.insert(id, m),
        None => old.messages,
    }
    &&& !id_taken(old.rows, id) ==> new == old
}

/// The content of an optional message list.
pub open spec fn documents_of(messages: Option<Vec<serde_json::Value>>) -> Option<
    Seq<serde_json::Value>,
> {
    match messages {
        Some(m) => Some(m@),
        None => None,
    }
}

proof fn lemma_insert_keeps_order(rows: Seq<Conversation>, p: int, c: Conversation)
    requires
        newest_first(rows),
        insert_point(rows, p, c.updated_at),
    ensures
        newest_first(rows.insert(p, c)),
{
    let n = rows.insert(p, c);
    assert forall|i: int, j: int| 0 <= i < j < n.len() implies (#[trigger] n[i]).updated_at >= (
    #[trigger] n[j]).updated_at by {
        let oi = if i < p { i } else { i - 1 };
        let oj = if j < p { j } else { j - 1 };
        if i != p {
            assert(n[i] == rows[oi]);
        }
        if j != p {
            assert(n[j] == rows[oj]);
        }
    }
}

proof fn lemma_remove_keeps_order(rows: Seq<Conversation>, i: int)
    requires
        0 <= i < rows.len(),
        newest_first(rows),
        ids_unique(rows),
    ensures
        newest_first(rows.remove(i)),
        ids_unique(rows.remove(i)),
        forall|k: int|
            0 <= k < rows.len() && k != i ==> #[trigger] rows[k] == rows.remove(i)[if k < i {
                k
            } else {
                k - 1
            }],
        forall|k: int|
            0 <= k < rows.remove(i).len() ==> #[trigger] rows.remove(i)[k] == rows[if k < i {
                k
            } else {
                k + 1
            }],
{
    let n = rows.remove(i);
    assert forall|a: int, b: int| 0 <= a < b < n.len() implies (#[trigger] n[a]).updated_at >= (
    #[trigger] n[b]).updated_at by {
        let oa = if a < i { a } else { a + 1 };
        let ob = if b < i { b } else { b + 1 };
        assert(n[a] == rows[oa] && n[b] == rows[ob]);
    }
    assert forall|a: int, b: int|
        0 <= a < n.len() && 0 <= b < n.len() && a != b implies (#[trigger] n[a]).id@ != (
        #[trigger] n[b]).id@ by {
        let oa = if a < i { a } else { a + 1 };
        let ob = if b < i { b } else { b + 1 };
        assert(n[a] == rows[oa] && n[b] == rows[ob]);
    }
}

/// Conversations with their message records, one record per conversation.
pub struct ConversationStore {
    rows: Vec<Conversation>,
    messages: KeyedTable<Vec<serde_json::Value>>,
}

impl View for ConversationStore {
    type V = ConversationState;

    closed spec fn view(&self) -> ConversationState {
        ConversationState {
            rows: self.rows@,
            messages: self.messages@.map_values(|v: Vec<serde_json::Value>| v@),
        }
    }
}

fn copy_documents(v: &Vec<serde_json::Value>) -> (r: Vec<serde_json::Value>)
    ensures
        r@ == v@,
{
    let mut out: Vec<serde_json::Value> = Vec::new();
    let mut i: usize = 0;
    while i < v.len()
        invariant
            i <= v@.len(),
            out@ == v@.take(i as int),
        decreases v@.len() - i,
    {
        out.push(v[i].clone());
        assert(v@.take(i + 1) =~= v@.take(i as int).push(v@[i as int]));
        i = i + 1;
    }
    assert(v@.take(i as int) =~= v@);
    out
}

impl ConversationStore {
    pub closed spec fn wf(&self) -> bool {
        &&& ids_unique(self.rows@)
        &&& newest_first(self.rows@)
        &&& self.messages.wf()
        &&& records_belong(self@.rows, self@.messages)
    }

    /// What a well-formed store guarantees of its model: conversation ids
    /// are unique, rows are most recently updated first, and every message
    /// record belongs to a conversation.
    pub proof fn lemma_wf(&self)
        requires
            self.wf(),
        ensures
            ids_unique(self@.rows),
            newest_first(self@.rows),
            records_belong(self@.rows, self@.messages),
    {
    }

    /// A store with no conversations.
    pub fn new() -> (r: Self)
        ensures
            r.wf(),
            r@.rows == Seq::<Conversation>::empty(),
            r@.messages == Map::<Seq<char>, Seq<serde_json::Value>>::empty(),
    {
        let r = ConversationStore { rows: Vec::new(), messages: KeyedTable::new() };
        assert(r@.messages =~= Map::<Seq<char>, Seq<serde_json::Value>>::empty());
        r
    }

    fn position(&self, id: &String) -> (r: Option<usize>)
        ensures
            match r {
                Some(i) => i < self@.rows.len() && self@.rows[i as int].id@ == id@,
                None => !id_taken(self@.rows, id@),
            },
    {
        let mut i: usize = 0;
        while i < self.rows.len()
            invariant
                i <= self.rows@.len(),
                forall|j: int| 0 <= j < i ==> (#[trigger] self.rows@[j]).id@ != id@,
            decreases self.rows@.len() - i,
        {
            if self.rows[i].id == *id {
                return Some(i);
            }
            i = i + 1;
        }
        None
    }

    fn place_for(&self, t: i64) -> (p: usize)
        requires
            newest_first(self@.rows),
        ensures
            insert_point(self@.rows, p as int, t),
    {
        let mut i: usize = 0;
        while i < self.rows.len() && self.rows[i].updated_at > t
            invariant
                i <= self.rows@.len(),
                forall|j: int| 0 <= j < i ==> (#[trigger] self.rows@[j]).updated_at > t,
            decreases self.rows@.len() - i,
        {
            i = i + 1;
        }
        assert forall|j: int| i <= j < self.rows@.len() implies (
        #[trigger] self.rows@[j]).updated_at <= t by {
            assert(self.rows@[i as int].updated_at <= t);
        }
        i
    }

    proof fn lemma_unique_index(&self, i: int, id: Seq<char>)
        requires
            self.wf(),
            0 <= i < self@.rows.len(),
            self@.rows[i].id@ == id,
        ensures
            id_taken(self@.rows, id),
            (choose|j: int| 0 <= j < self@.rows.len() && (#[trigger] self@.rows[j]).id@ == id) == i,
    {
        assert(self@.rows[i].id@ == id);
    }

    /// The conversations of `session_id`, most recently updated first.
    pub fn list(&self, session_id: &String) -> (r: Vec<Conversation>)
        requires
            self.wf(),
        ensures
            r@ == conversations_of(self@.rows, session_id@),
            newest_first(r@),
    {
        let mut out: Vec<Conversation> = Vec::new();
        let mut i: usize = 0;
        while i < self.rows.len()
            invariant
                i <= self.rows@.len(),
                out@ == conversations_of(self.rows@.take(i as int), session_id@),
            decreases self.rows@.len() - i,
        {
            assert(self.rows@.take(i + 1).drop_last() =~= self.rows@.take(i as int));
            if self.rows[i].session_id == *session_id {
                out.push(self.rows[i].duplicate());
            }
            i = i + 1;
        }
        assert(self.rows@.take(i as int) =~= self.rows@);
        proof {
            lemma_list_keeps_order(self@.rows, session_id@);
        }
        out
    }
    /// The title and messages of conversation `id`; `NotFound` when there is
    /// no such conversation. A conversation without a message record has no
    /// messages.
    pub fn get(&self, id: &String) -> (r: Result<ConversationContent, StoreError>)
        requires
            self.wf(),
        ensures
            match r {
                Ok(c) => conversation_read(self@, id@) == Some((c.title@, c.messages@)),
                Err(e) => e == StoreError::NotFound && conversation_read(self@, id@) == None::<
                    (Seq<char>, Seq<serde_json::Value>),
                >,
            },
    {
        match self.position(id) {
            Some(i) => {
                proof {
                    self.lemma_unique_index(i as int, id@);
                }
                let messages = match self.messages.get(id) {
                    Some(m) => copy_documents(m),
                    None => Vec::new(),
                };
                Ok(ConversationContent { title: self.rows[i].title.clone(), messages })
            },
            None => Err(StoreError::NotFound),
        }
    }

    /// Starts conversation `id` for `session_id` at time `now`, titled
    /// `title` or "New Chat", with an empty message record. Both are written
    /// by this one call, so no reader sees the conversation without its
    /// record. Fails with a storage failure, changing nothing, when the id is
    /// taken.
    /// Starts conversation `id` for `session_id` at time `now`, titled
    /// `title` or "New Chat", with an empty message record. Both are written
    /// by this one call, so no reader sees the conversation without its
    /// record. Fails with a storage failure, changing nothing, when the id is
    /// taken.
    pub fn create(&mut self, session_id: String, title: Option<String>, id: String, now: i64) -> (r:
        Result<Conversation, StoreError>)
        requires
            old(self).wf(),
        ensures
            final(self).wf(),
            conversation_create_post(old(self)@, final(self)@, r, session_id@, title, id@, now),
            r is Ok ==> conversation_read(final(self)@, id@) == Some(
                (title_or_default(title), Seq::<serde_json::Value>::empty()),
            ),
    {
        if self.position(&id).is_some() {
            return Err(StoreError::StorageFailure);
        }
        let ghost title_in = title;
        let t = match title {
            Some(t) => t,
            None => <String as vstd::string::StringExecFns>::from_str("New Chat"),
        };
        proof {
            reveal_strlit("New Chat");
        }
        let c = Conversation {
            id: id.clone(),
            session_id,
            title: t,
            updated_at: now,
            category: None,
            icon: None,
        };
        let ret = c.duplicate();
        let ghost old_rows = self.rows@;
        let ghost old_view = self@;
        let p = self.place_for(now);
        self.rows.insert(p, c);
        assert(self.rows@ == old_rows.insert(p as int, c));
        proof {
            lemma_insert_keeps_order(old_rows, p as int, c);
        }
        assert forall|i: int, j: int|
            0 <= i < self.rows@.len() && 0 <= j < self.rows@.len() && i != j implies (
            #[trigger] self.rows@[i]).id@ != (#[trigger] self.rows@[j]).id@ by {
            if i != p {
                assert(self.rows@[i] == old_rows[if i < p { i } else { i - 1 }]);
            }
            if j != p {
                assert(self.rows@[j] == old_rows[if j < p { j } else { j - 1 }]);
            }
        }
        let empty: Vec<serde_json::Value> = Vec::new();
        let ghost k = id@;
        self.messages.upsert(id, empty);
        assert(self@.messages =~= old_view.messages.insert(k, Seq::empty()));
        assert forall|k2: Seq<char>| #[trigger] self@.messages.contains_key(k2) implies id_taken(
            self@.rows,
            k2,
        ) by {
            if k2 == k {
                assert(self@.rows[p as int].id@ == k);
            } else {
                assert(id_taken(old_rows, k2));
                let j = choose|j: int| 0 <= j < old_rows.len() && (#[trigger] old_rows[j]).id@ == k2;
                let nj = if j < p { j } else { j + 1 };
                assert(self@.rows[nj] == old_rows[j]);
            }
        }
        assert(insert_point(old_view.rows, p as int, now));
        proof {
            lemma_create_then_get(old_view, self@, Ok(ret), session_id@, title_in, k, now);
        }
        Ok(ret)
    }

    pub fn create_now(&mut self, session_id: String, title: Option<String>) -> (r: Result<
        Conversation,
        StoreError,
    >)
        requires
            old(self).wf(),
        ensures
            final(self).wf(),
            exists|id: String, now: i64|
                #[trigger] conversation_create_post(
                    old(self)@,
                    final(self)@,
                    r,
                    session_id@,
                    title,
                    id@,
                    now,
                ),
    {
        let id = fresh_id();
        let now = now_seconds();
        let ghost g = id;
        let r = self.create(session_id, title, id, now);
        assert(conversation_create_post(old(self)@, self@, r, session_id@, title, g@, now));
        r
    }

    /// Updates conversation `id` at time `now`: a given title replaces the
    /// old one, given messages replace the whole message record, and the
    /// row's time of last write is advanced whatever was given.
    /// Updates conversation `id` at time `now`: a given title replaces the
    /// old one, given messages replace the whole message record, and the
    /// row's time of last write is advanced whatever was given, moving the
    /// row to its place among the others. An unknown id changes nothing, so
    /// no message record is left without its conversation.
    pub fn update(
        &mut self,
        id: &String,
        title: Option<String>,
        messages: Option<Vec<serde_json::Value>>,
        now: i64,
    )
        requires
            old(self).wf(),
        ensures
            final(self).wf(),
            conversation_update_post(
                old(self)@,
                final(self)@,
                id@,
                title,
                documents_of(messages),
                now,
            ),
    {
        let ghost old_view = self@;
        match self.position(id) {
            Some(i) => {
                let ghost old_rows = self.rows@;
                let mut row = self.rows.remove(i);
                proof {
                    lemma_remove_keeps_order(old_rows, i as int);
                }
                let ghost mid = self.rows@;
                match title {
                    Some(t) => {
                        row.title = t;
                    },
                    None => {},
                }
                row.updated_at = now;
                let p = self.place_for(now);
                self.rows.insert(p, row);
                let ghost trow = touched(old_rows[i as int], title, now);
                assert(row == trow);
                assert(self.rows@ == mid.insert(p as int, trow));
                proof {
                    lemma_insert_keeps_order(mid, p as int, trow);
                }
                assert forall|a: int, b: int|
                    0 <= a < self.rows@.len() && 0 <= b < self.rows@.len() && a != b implies (
                    #[trigger] self.rows@[a]).id@ != (#[trigger] self.rows@[b]).id@ by {
                    let oa = if a == p {
                        i as int
                    } else {
                        let m = if a < p { a } else { a - 1 };
                        if m < i { m } else { m + 1 }
                    };
                    let ob = if b == p {
                        i as int
                    } else {
                        let m = if b < p { b } else { b - 1 };
                        if m < i { m } else { m + 1 }
                    };
                    if a != p {
                        assert(self.rows@[a] == mid[if a < p { a } else { a - 1 }]);
                    }
                    if b != p {
                        assert(self.rows@[b] == mid[if b < p { b } else { b - 1 }]);
                    }
                    assert(self.rows@[a].id@ == old_rows[oa].id@);
                    assert(self.rows@[b].id@ == old_rows[ob].id@);
                }
                match messages {
                    Some(m) => {
                        let ghost mv = m@;
                        self.messages.upsert(id.clone(), m);
                        assert(self@.messages =~= old_view.messages.insert(id@, mv));
                    },
                    None => {},
                }
                assert forall|k2: Seq<char>| #[trigger]
                    self@.messages.contains_key(k2) implies id_taken(self@.rows, k2) by {
                    if k2 == id@ {
                        assert(self@.rows[p as int].id@ == id@);
                    } else {
                        assert(old_view.messages.contains_key(k2));
                        let j = choose|j: int|
                            0 <= j < old_rows.len() && (#[trigger] old_rows[j]).id@ == k2;
                        assert(j != i);
                        let m = if j < i { j } else { j - 1 };
                        assert(mid[m] == old_rows[j]);
                        let nj = if m < p { m } else { m + 1 };
                        assert(self@.rows[nj] == mid[m]);
                    }
                }
                assert(insert_point(old_view.rows.remove(i as int), p as int, now));
            },
            None => {},
        }
    }

    pub fn update_now(
        &mut self,
        id: &String,
        title: Option<String>,
        messages: Option<Vec<serde_json::Value>>,
    )
        requires
            old(self).wf(),
        ensures
            final(self).wf(),
            exists|now: i64|
                #[trigger] conversation_update_post(
                    old(self)@,
                    final(self)@,
                    id@,
                    title,
                    documents_of(messages),
                    now,
                ),
    {
        let now = now_seconds();
        self.update(id, title, messages, now);
    }

    /// Deletes conversation `id` together with its message record, so that
    /// no record outlives its conversation. An unknown id is a no-op on the
    /// rows.
    /// Deletes conversation `id` together with its message record, so that
    /// no record outlives its conversation. An unknown id changes nothing.
    pub fn delete(&mut self, id: &String)
        requires
            old(self).wf(),
        ensures
            final(self).wf(),
            id_taken(old(self)@.rows, id@) ==> exists|i: int|
                0 <= i < old(self)@.rows.len() && (#[trigger] old(self)@.rows[i]).id@ == id@
                    && final(self)@.rows == old(self)@.rows.remove(i),
            !id_taken(old(self)@.rows, id@) ==> final(self)@ == old(self)@,
            final(self)@.messages == old(self)@.messages.remove(id@),
            !id_taken(final(self)@.rows, id@),
    {
        let ghost old_view = self@;
        match self.position(id) {
            Some(i) => {
                let ghost old_rows = self.rows@;
                self.rows.remove(i);
                proof {
                    lemma_remove_keeps_order(old_rows, i as int);
                }
                self.messages.remove(id);
                assert(self@.messages =~= old_view.messages.remove(id@));
                assert forall|j: int| 0 <= j < self.rows@.len() implies (
                #[trigger] self.rows@[j]).id@ != id@ by {
                    let oj = if j < i { j } else { j + 1 };
                    assert(self.rows@[j] == old_rows[oj]);
                }
                assert forall|k2: Seq<char>| #[trigger]
                    self@.messages.contains_key(k2) implies id_taken(self@.rows, k2) by {
                    assert(old_view.messages.contains_key(k2));
                    let j = choose|j: int|
                        0 <= j < old_rows.len() && (#[trigger] old_rows[j]).id@ == k2;
                    assert(j != i);
                    let m = if j < i { j } else { j - 1 };
                    assert(self.rows@[m] == old_rows[j]);
                }
            },
            None => {
                assert(!old_view.messages.contains_key(id@));
                assert(old_view.messages.remove(id@) =~= old_view.messages);
            },
        }
    }
}

/// A conversation reads back at once after its creation, with its messages
/// empty and its title the given one, or "New Chat" when none was given.
pub proof fn lemma_create_then_get(
    old: ConversationState,
    new: ConversationState,
    r: Result<Conversation, StoreError>,
    session_id: Seq<char>,
    title: Option<String>,
    id: Seq<char>,
    now: i64,
)
    requires
        conversation_create_post(old, new, r, session_id, title, id, now),
        r is Ok,
    ensures
        conversation_read(new, id) == Some((title_or_default(title), Seq::<serde_json::Value>::empty())),
        title is None ==> conversation_read(new, id) == Some(
            (default_title(), Seq::<serde_json::Value>::empty()),
        ),
{
    let c = r->Ok_0;
    let p = choose|p: int| #[trigger] insert_point(old.rows, p, now) && new.rows == old.rows.insert(p, c);
    assert(new.rows[p] == c);
    assert(id_taken(new.rows, id));
    let i = choose|i: int| 0 <= i < new.rows.len() && (#[trigger] new.rows[i]).id@ == id;
    if i != p {
        let oi = if i < p { i } else { i - 1 };
        assert(new.rows[i] == old.rows[oi]);
        assert(id_taken(old.rows, id));
    }
}

proof fn lemma_listed_rows_come_from(rows: Seq<Conversation>, s: Seq<char>)
    ensures
        forall|k: int|
            0 <= k < conversations_of(rows, s).len() ==> exists|i: int|
                0 <= i < rows.len() && rows[i] == #[trigger] conversations_of(rows, s)[k],
    decreases rows.len(),
{
    if rows.len() > 0 {
        let init = rows.drop_last();
        lemma_listed_rows_come_from(init, s);
        let out = conversations_of(rows, s);
        assert forall|k: int| 0 <= k < out.len() implies exists|i: int|
            0 <= i < rows.len() && rows[i] == #[trigger] out[k] by {
            if k < conversations_of(init, s).len() {
                let i = choose|i: int|
                    0 <= i < init.len() && init[i] == #[trigger] conversations_of(init, s)[k];
                assert(rows[i] == out[k]);
            } else {
                assert(rows[rows.len() - 1] == out[k]);
            }
        }
    }
}

/// A session's list is most recently updated first whenever the rows are.
pub proof fn lemma_list_keeps_order(rows: Seq<Conversation>, s: Seq<char>)
    requires
        newest_first(rows),
    ensures
        newest_first(conversations_of(rows, s)),
    decreases rows.len(),
{
    if rows.len() > 0 {
        let init = rows.drop_last();
        assert(newest_first(init)) by {
            assert forall|i: int, j: int| 0 <= i < j < init.len() implies (#[trigger] init[i]).updated_at
                >= (#[trigger] init[j]).updated_at by {
                assert(init[i] == rows[i] && init[j] == rows[j]);
            }
        }
        lemma_list_keeps_order(init, s);
        lemma_listed_rows_come_from(init, s);
        let prev = conversations_of(init, s);
        let out = conversations_of(rows, s);
        if rows.last().session_id@ == s {
            assert forall|a: int, b: int| 0 <= a < b < out.len() implies (#[trigger] out[a]).updated_at
                >= (#[trigger] out[b]).updated_at by {
                if b == out.len() - 1 {
                    let i = choose|i: int| 0 <= i < init.len() && init[i] == #[trigger] prev[a];
                    assert(rows[i] == out[a]);
                    assert(out[b] == rows[rows.len() - 1]);
                } else {
                    assert(out[a] == prev[a] && out[b] == prev[b]);
                }
            }
        }
    }
}

} // verus!
