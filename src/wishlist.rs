use vstd::prelude::*;
use crate::ambient::{fresh_id, now_seconds};
use crate::error::StoreError;

verus! {

/// A product that a session has put on its wishlist.
pub struct WishlistItem {
    pub id: String,
    pub session_id: String,
    pub product_handle: String,
    pub product_title: Option<String>,
    pub product_image: Option<String>,
    pub product_price: Option<String>,
    /// Seconds since the Unix epoch at which the item was added.
    pub created_at: i64,
}

pub(crate) fn copy_text(o: &Option<String>) -> (r: Option<String>)
    ensures
        r == *o,
{
    match o {
        Some(t) => Some(t.clone()),
        None => None,
    }
}

impl WishlistItem {
    /// A field-for-field copy.
    pub fn duplicate(&self) -> (r: Self)
        ensures
            r == *self,
    {
        WishlistItem {
            id: self.id.clone(),
            session_id: self.session_id.clone(),
            product_handle: self.product_handle.clone(),
            product_title: copy_text(&self.product_title),
            product_image: copy_text(&self.product_image),
            product_price: copy_text(&self.product_price),
            created_at: self.created_at,
        }
    }
}

/// The item that an add with these arguments would create.
pub open spec fn item_of(
    session_id: String,
    product_handle: String,
    product_title: Option<String>,
    product_image: Option<String>,
    product_price: Option<String>,
    id: String,
    now: i64,
) -> WishlistItem {
    WishlistItem {
        id,
        session_id,
        product_handle,
        product_title,
        product_image,
        product_price,
        created_at: now,
    }
}

/// Whether some item pairs session `s` with product `p`.
pub open spec fn pair_present(items: Seq<WishlistItem>, s: Seq<char>, p: Seq<char>) -> bool {
    exists|i: int|
        0 <= i < items.len() && (#[trigger] items[i]).session_id@ == s && items[i].product_handle@
            == p
}

/// Whether some item has the id `id`.
pub open spec fn id_present(items: Seq<WishlistItem>, id: Seq<char>) -> bool {
    exists|i: int| 0 <= i < items.len() && (#[trigger] items[i]).id@ == id
}

/// No two items share an id, nor a (session, product) pair.
pub open spec fn items_wf(items: Seq<WishlistItem>) -> bool {
    forall|i: int, j: int|
        0 <= i < items.len() && 0 <= j < items.len() && i != j ==> (#[trigger] items[i]).id@
            != (#[trigger] items[j]).id@ && !(items[i].session_id@ == items[j].session_id@
            && items[i].product_handle@ == items[j].product_handle@)
}

/// The items of session `s`, in the order of `items`.
pub open spec fn session_items(items: Seq<WishlistItem>, s: Seq<char>) -> Seq<WishlistItem>
    decreases items.len(),
{
    if items.len() == 0 {
        Seq::empty()
    } else {
        let rest = session_items(items.drop_last(), s);
        if items.last().session_id@ == s {
            rest.push(items.last())
        } else {
            rest
        }
    }
}

/// How many of `items` are for product `p`.
pub open spec fn handle_count(items: Seq<WishlistItem>, p: Seq<char>) -> nat
    decreases items.len(),
{
    if items.len() == 0 {
        0
    } else {
        handle_count(items.drop_last(), p) + if items.last().product_handle@ == p {
            1nat
        } else {
            0nat
        }
    }
}

/// Items whose times of addition do not increase from front to back.
pub open spec fn newest_first(items: Seq<WishlistItem>) -> bool {
    forall|i: int, j: int|
        0 <= i < j < items.len() ==> (#[trigger] items[i]).created_at >= (
        #[trigger] items[j]).created_at
}

/// `p` is where an item added at `t` goes among `items`: after every item
/// added later than `t`, before every other.
pub open spec fn insert_point(items: Seq<WishlistItem>, p: int, t: i64) -> bool {
    &&& 0 <= p <= items.len()
    &&& forall|j: int| 0 <= j < p ==> (#[trigger] items[j]).created_at > t
    &&& forall|j: int| p <= j < items.len() ==> (#[trigger] items[j]).created_at <= t
}

/// How an add of `item` relates the wishlist before it (`old`), after it
/// (`new`) and its result `r`. A pair that is already present is a silent
/// no-op that still succeeds; a clash of ids is a storage failure; otherwise
/// the item takes its place by time of addition, newest first.
pub open spec fn wishlist_add_post(
    old: Seq<WishlistItem>,
    new: Seq<WishlistItem>,
    r: Result<String, StoreError>,
    item: WishlistItem,
) -> bool {
    if pair_present(old, item.session_id@, item.product_handle@) {
        r == Ok::<String, StoreError>(item.id) && new == old
    } else if id_present(old, item.id@) {
        r == Err::<String, StoreError>(StoreError::StorageFailure) && new == old
    } else {
        &&& r == Ok::<String, StoreError>(item.id)
        &&& exists|p: int|
            #[trigger] insert_point(old, p, item.created_at) && new == old.insert(p, item)
    }
}

/// Each session's wishlist, newest first, unique per (session, product).
pub struct WishlistStore {
    items: Vec<WishlistItem>,
}

impl View for WishlistStore {
    type V = Seq<WishlistItem>;

    closed spec fn view(&self) -> Seq<WishlistItem> {
        self.items@
    }
}

impl WishlistStore {
    pub open spec fn wf(&self) -> bool {
        items_wf(self@) && newest_first(self@)
    }

    /// An empty wishlist store.
    pub fn new() -> (r: Self)
        ensures
            r.wf(),
            r@ == Seq::<WishlistItem>::empty(),
    {
        WishlistStore { items: Vec::new() }
    }

    fn has_pair(&self, s: &String, p: &String) -> (r: bool)
        ensures
            r == pair_present(self@, s@, p@),
    {
        let mut i: usize = 0;
        while i < self.items.len()
            invariant
                i <= self.items@.len(),
                forall|j: int|
                    0 <= j < i ==> !((#[trigger] self.items@[j]).session_id@ == s@
                        && self.items@[j].product_handle@ == p@),
            decreases self.items@.len() - i,
        {
            if self.items[i].session_id == *s && self.items[i].product_handle == *p {
                assert(self.items@[i as int].session_id@ == s@);
                return true;
            }
            i = i + 1;
        }
        false
    }

    fn position_of(&self, id: &String) -> (r: Option<usize>)
        ensures
            match r {
                Some(i) => i < self@.len() && self@[i as int].id@ == id@,
                None => !id_present(self@, id@),
            },
    {
        let mut i: usize = 0;
        while i < self.items.len()
            invariant
                i <= self.items@.len(),
                forall|j: int| 0 <= j < i ==> (#[trigger] self.items@[j]).id@ != id@,
            decreases self.items@.len() - i,
        {
            if self.items[i].id == *id {
                return Some(i);
            }
            i = i + 1;
        }
        None
    }

    fn place_for(&self, t: i64) -> (p: usize)
        requires
            newest_first(self@),
        ensures
            insert_point(self@, p as int, t),
    {
        let mut i: usize = 0;
        while i < self.items.len() && self.items[i].created_at > t
            invariant
                i <= self.items@.len(),
                forall|j: int| 0 <= j < i ==> (#[trigger] self.items@[j]).created_at > t,
            decreases self.items@.len() - i,
        {
            i = i + 1;
        }
        assert forall|j: int| i <= j < self.items@.len() implies (
        #[trigger] self.items@[j]).created_at <= t by {
            assert(self.items@[i as int].created_at <= t);
        }
        i
    }

    /// Adds a product to the wishlist of `session_id` under the item id `id`
    /// at time `now`. A product already on that wishlist is left as it is
    /// and the call still succeeds with `id`.
    pub fn add(
        &mut self,
        session_id: String,
        product_handle: String,
        product_title: Option<String>,
        product_image: Option<String>,
        product_price: Option<String>,
        id: String,
        now: i64,
    ) -> (r: Result<String, StoreError>)
        requires
            old(self).wf(),
        ensures
            final(self).wf(),
            wishlist_add_post(
                old(self)@,
                final(self)@,
                r,
                item_of(
                    session_id,
                    product_handle,
                    product_title,
                    product_image,
                    product_price,
                    id,
                    now,
                ),
            ),
    {
        if self.has_pair(&session_id, &product_handle) {
            return Ok(id);
        }
        if self.position_of(&id).is_some() {
            return Err(StoreError::StorageFailure);
        }
        let ret = id.clone();
        let item = WishlistItem {
            id,
            session_id,
            product_handle,
            product_title,
            product_image,
            product_price,
            created_at: now,
        };
        let ghost old_items = self.items@;
        let p = self.place_for(now);
        self.items.insert(p, item);
        assert(self.items@ == old_items.insert(p as int, item));
        proof {
            lemma_insert_fresh(old_items, p as int, item);
        }
        assert(insert_point(old_items, p as int, item.created_at));
        Ok(ret)
    }

    /// Adds a product under a fresh random id at the current time.
    pub fn add_now(
        &mut self,
        session_id: String,
        product_handle: String,
        product_title: Option<String>,
        product_image: Option<String>,
        product_price: Option<String>,
    ) -> (r: Result<String, StoreError>)
        requires
            old(self).wf(),
        ensures
            final(self).wf(),
            exists|id: String, now: i64|
                wishlist_add_post(
                    old(self)@,
                    final(self)@,
                    r,
                    #[trigger] item_of(
                        session_id,
                        product_handle,
                        product_title,
                        product_image,
                        product_price,
                        id,
                        now,
                    ),
                ),
    {
        let id = fresh_id();
        let now = now_seconds();
        self.add(session_id, product_handle, product_title, product_image, product_price, id, now)
    }

    /// The items of `session_id`, newest first.
    pub fn list(&self, session_id: &String) -> (r: Vec<WishlistItem>)
        requires
            self.wf(),
        ensures
            r@ == session_items(self@, session_id@),
            newest_first(r@),
    {
        let mut out: Vec<WishlistItem> = Vec::new();
        let mut i: usize = 0;
        while i < self.items.len()
            invariant
                i <= self.items@.len(),
                out@ == session_items(self.items@.take(i as int), session_id@),
            decreases self.items@.len() - i,
        {
            assert(self.items@.take(i + 1).drop_last() =~= self.items@.take(i as int));
            if self.items[i].session_id == *session_id {
                out.push(self.items[i].duplicate());
            }
            i = i + 1;
        }
        assert(self.items@.take(i as int) =~= self.items@);
        proof {
            lemma_list_keeps_order(self@, session_id@);
        }
        out
    }

    /// Deletes the item with id `id`, whichever session it belongs to: the
    /// session is not part of the delete predicate. An unknown id is a no-op.
    pub fn remove(&mut self, id: &String)
        requires
            old(self).wf(),
        ensures
            final(self).wf(),
            id_present(old(self)@, id@) ==> exists|i: int|
                0 <= i < old(self)@.len() && old(self)@[i].id@ == id@ && final(self)@ == old(
                    self,
                )@.remove(i),
            !id_present(old(self)@, id@) ==> final(self)@ == old(self)@,
    {
        match self.position_of(id) {
            Some(i) => {
                let ghost old_items = self.items@;
                self.items.remove(i);
                assert forall|a: int, b: int|
                    0 <= a < self.items@.len() && 0 <= b < self.items@.len() && a != b implies (
                    #[trigger] self.items@[a]).id@ != (#[trigger] self.items@[b]).id@ && !(
                    self.items@[a].session_id@ == self.items@[b].session_id@
                        && self.items@[a].product_handle@ == self.items@[b].product_handle@) by {
                    let oa = if a < i { a } else { a + 1 };
                    let ob = if b < i { b } else { b + 1 };
                    assert(self.items@[a] == old_items[oa]);
                    assert(self.items@[b] == old_items[ob]);
                }
                assert forall|a: int, b: int| 0 <= a < b < self.items@.len() implies (
                #[trigger] self.items@[a]).created_at >= (#[trigger] self.items@[b]).created_at by {
                    let oa = if a < i { a } else { a + 1 };
                    let ob = if b < i { b } else { b + 1 };
                    assert(self.items@[a] == old_items[oa]);
                    assert(self.items@[b] == old_items[ob]);
                }
            },
            None => {},
        }
    }
}

} // verus!

verus! {

/// How many of `items` pair session `s` with product `p`.
pub open spec fn pair_count(items: Seq<WishlistItem>, s: Seq<char>, p: Seq<char>) -> nat
    decreases items.len(),
{
    if items.len() == 0 {
        0
    } else {
        pair_count(items.drop_last(), s, p) + if items.last().session_id@ == s
            && items.last().product_handle@ == p {
            1nat
        } else {
            0nat
        }
    }
}

proof fn lemma_session_count(items: Seq<WishlistItem>, s: Seq<char>, p: Seq<char>)
    ensures
        handle_count(session_items(items, s), p) == pair_count(items, s, p),
    decreases items.len(),
{
    if items.len() > 0 {
        lemma_session_count(items.drop_last(), s, p);
        let rest = session_items(items.drop_last(), s);
        if items.last().session_id@ == s {
            assert(rest.push(items.last()).drop_last() =~= rest);
        }
    }
}

proof fn lemma_pair_count(items: Seq<WishlistItem>, s: Seq<char>, p: Seq<char>)
    requires
        items_wf(items),
    ensures
        pair_count(items, s, p) == if pair_present(items, s, p) {
            1nat
        } else {
            0nat
        },
    decreases items.len(),
{
    if items.len() > 0 {
        let init = items.drop_last();
        assert(items_wf(init)) by {
            assert forall|i: int, j: int|
                0 <= i < init.len() && 0 <= j < init.len() && i != j implies (#[trigger] init[i]).id@
                != (#[trigger] init[j]).id@ && !(init[i].session_id@ == init[j].session_id@
                && init[i].product_handle@ == init[j].product_handle@) by {
                assert(init[i] == items[i] && init[j] == items[j]);
            }
        }
        lemma_pair_count(init, s, p);
        let last = items.len() - 1;
        if items.last().session_id@ == s && items.last().product_handle@ == p {
            assert(pair_present(items, s, p)) by {
                assert(items[last].session_id@ == s);
            }
            if pair_present(init, s, p) {
                let i = choose|i: int|
                    0 <= i < init.len() && (#[trigger] init[i]).session_id@ == s
                        && init[i].product_handle@ == p;
                assert(items[i] == init[i]);
                assert(items[last] == items.last());
            }
        } else {
            if pair_present(items, s, p) {
                let i = choose|i: int|
                    0 <= i < items.len() && (#[trigger] items[i]).session_id@ == s
                        && items[i].product_handle@ == p;
                assert(i != last);
                assert(init[i] == items[i]);
            }
            if pair_present(init, s, p) {
                let i = choose|i: int|
                    0 <= i < init.len() && (#[trigger] init[i]).session_id@ == s
                        && init[i].product_handle@ == p;
                assert(items[i] == init[i]);
            }
        }
    }
}

/// Adding the same product to a session's wishlist twice: when the first add
/// succeeds, the second one succeeds too, and the session's list then holds
/// exactly one item for that product.
pub proof fn lemma_add_twice_single_item(
    items: Seq<WishlistItem>,
    mid: Seq<WishlistItem>,
    fin: Seq<WishlistItem>,
    first: WishlistItem,
    second: WishlistItem,
    r1: Result<String, StoreError>,
    r2: Result<String, StoreError>,
)
    requires
        items_wf(items),
        second.session_id@ == first.session_id@,
        second.product_handle@ == first.product_handle@,
        wishlist_add_post(items, mid, r1, first),
        r1 is Ok,
        wishlist_add_post(mid, fin, r2, second),
    ensures
        r2 is Ok,
        fin == mid,
        handle_count(session_items(fin, first.session_id@), first.product_handle@) == 1,
{
    let s = first.session_id@;
    let p = first.product_handle@;
    if !pair_present(items, s, p) {
        let q = choose|q: int|
            #[trigger] insert_point(items, q, first.created_at) && mid == items.insert(q, first);
        assert(mid[q] == first);
        lemma_insert_keeps_unique(items, q, first);
        assert(pair_present(mid, s, p));
    }
    lemma_session_count(fin, s, p);
    lemma_pair_count(fin, s, p);
}

proof fn lemma_insert_keeps_unique(items: Seq<WishlistItem>, p: int, item: WishlistItem)
    requires
        items_wf(items),
        0 <= p <= items.len(),
        !pair_present(items, item.session_id@, item.product_handle@),
        !id_present(items, item.id@),
    ensures
        items_wf(items.insert(p, item)),
{
    let n = items.insert(p, item);
    assert forall|i: int, j: int|
        0 <= i < n.len() && 0 <= j < n.len() && i != j implies (#[trigger] n[i]).id@ != (
        #[trigger] n[j]).id@ && !(n[i].session_id@ == n[j].session_id@ && n[i].product_handle@
        == n[j].product_handle@) by {
        if i != p {
            assert(n[i] == items[if i < p { i } else { i - 1 }]);
        }
        if j != p {
            assert(n[j] == items[if j < p { j } else { j - 1 }]);
        }
    }
}

proof fn lemma_insert_fresh(items: Seq<WishlistItem>, p: int, item: WishlistItem)
    requires
        items_wf(items),
        newest_first(items),
        insert_point(items, p, item.created_at),
        !pair_present(items, item.session_id@, item.product_handle@),
        !id_present(items, item.id@),
    ensures
        items_wf(items.insert(p, item)),
        newest_first(items.insert(p, item)),
{
    lemma_insert_keeps_unique(items, p, item);
    let n = items.insert(p, item);
    assert forall|i: int, j: int| 0 <= i < j < n.len() implies (#[trigger] n[i]).created_at >= (
    #[trigger] n[j]).created_at by {
        if i != p {
            assert(n[i] == items[if i < p { i } else { i - 1 }]);
        }
        if j != p {
            assert(n[j] == items[if j < p { j } else { j - 1 }]);
        }
    }
}

proof fn lemma_listed_items_come_from(items: Seq<WishlistItem>, s: Seq<char>)
    ensures
        forall|k: int|
            0 <= k < session_items(items, s).len() ==> exists|i: int|
                0 <= i < items.len() && items[i] == #[trigger] session_items(items, s)[k],
    decreases items.len(),
{
    if items.len() > 0 {
        let init = items.drop_last();
        lemma_listed_items_come_from(init, s);
        let out = session_items(items, s);
        assert forall|k: int| 0 <= k < out.len() implies exists|i: int|
            0 <= i < items.len() && items[i] == #[trigger] out[k] by {
            if k < session_items(init, s).len() {
                let i = choose|i: int|
                    0 <= i < init.len() && init[i] == #[trigger] session_items(init, s)[k];
                assert(items[i] == out[k]);
            } else {
                assert(items[items.len() - 1] == out[k]);
            }
        }
    }
}

/// A session's list is newest first whenever the whole wishlist is.
pub proof fn lemma_list_keeps_order(items: Seq<WishlistItem>, s: Seq<char>)
    requires
        newest_first(items),
    ensures
        newest_first(session_items(items, s)),
    decreases items.len(),
{
    if items.len() > 0 {
        let init = items.drop_last();
        assert(newest_first(init)) by {
            assert forall|i: int, j: int| 0 <= i < j < init.len() implies (
            #[trigger] init[i]).created_at >= (#[trigger] init[j]).created_at by {
                assert(init[i] == items[i] && init[j] == items[j]);
            }
        }
        lemma_list_keeps_order(init, s);
        lemma_listed_items_come_from(init, s);
        let prev = session_items(init, s);
        let out = session_items(items, s);
        if items.last().session_id@ == s {
            assert forall|a: int, b: int| 0 <= a < b < out.len() implies (
            #[trigger] out[a]).created_at >= (#[trigger] out[b]).created_at by {
                if b == out.len() - 1 {
                    let i = choose|i: int| 0 <= i < init.len() && init[i] == #[trigger] prev[a];
                    assert(items[i] == out[a]);
                    assert(out[b] == items[items.len() - 1]);
                } else {
                    assert(out[a] == prev[a] && out[b] == prev[b]);
                }
            }
        }
    }
}

} // verus!
