//! The store itself: the id counter and the ordered map composed under
//! the identity and existence invariants, with the four CRUD operations
//! over them. Each operation is committed to the backing regions before
//! it returns; `new` builds over fresh in-process memory, while `open`
//! resumes whatever state the process's default regions hold.
//!
//! Every operation takes the current time as a plain value, so the
//! caller injects the clock; the store itself is deterministic.

use vstd::prelude::*;
use crate::book::{Book, BookPayload, BookView, Error, spec_new_book, spec_updated_book};
use crate::codec::{
    spec_encode_book, spec_payload_len, encode_book, decode_book, lemma_encode_book_len,
    MAX_ENCODED_SIZE,
};
use crate::stable::{
    StableStore, stable_entries, stable_counter, stable_init, stable_init_host,
    stable_counter_get, stable_counter_set, stable_get, stable_insert, stable_remove,
};
use crate::text;

verus! {

/// The record store: the id counter and the map from id to encoded
/// record bytes, with the decoded records and the minted ids carried
/// alongside as its mathematical state.
pub struct BookStore {
    stable: StableStore,
    books: Ghost<Map<u64, BookView>>,
    minted: Ghost<Seq<u64>>,
}

impl View for BookStore {
    type V = Map<u64, BookView>;

    /// The records the store currently holds, by id.
    closed spec fn view(&self) -> Map<u64, BookView> {
        self.books@
    }
}

impl BookStore {
    /// The id counter's value: the number of ids minted so far, each
    /// minted id being at most this value.
    pub closed spec fn counter(self) -> u64 {
        stable_counter(self.stable)
    }

    /// Every id minted so far, in creation order.
    pub closed spec fn minted_ids(self) -> Seq<u64> {
        self.minted@
    }

    /// Well-formedness: the byte map holds exactly the encodings of the
    /// records, keyed by their own ids, every held id was minted and
    /// never exceeds the counter, every entry fits the size bound, and
    /// the minted ids are exactly 1 up to the counter, in order.
    pub closed spec fn wf(self) -> bool {
        &&& forall|k: u64|
            #[trigger] stable_entries(self.stable).contains_key(k) ==> self.books@.contains_key(k)
        &&& forall|k: u64|
            #[trigger] self.books@.contains_key(k) ==> {
                &&& stable_entries(self.stable).contains_key(k)
                &&& stable_entries(self.stable)[k] == spec_encode_book(self.books@[k])
                &&& self.books@[k].id == k
                &&& 1 <= k <= stable_counter(self.stable)
                &&& spec_encode_book(self.books@[k]).len() <= MAX_ENCODED_SIZE
            }
        &&& self.minted@.len() == stable_counter(self.stable)
        &&& forall|i: int| 0 <= i < self.minted@.len() ==> #[trigger] self.minted@[i] == i + 1
    }

    /// A fresh, empty store with its counter at zero.
    pub fn new() -> (s: Self)
        ensures
            s.wf(),
            s@ == Map::<u64, BookView>::empty(),
            s.counter() == 0,
            s.minted_ids() == Seq::<u64>::empty(),
    {
        let stable = stable_init();
        let s = BookStore {
            stable,
            books: Ghost(Map::empty()),
            minted: Ghost(Seq::empty()),
        };
        proof {
            assert(s@ =~= Map::<u64, BookView>::empty());
        }
        s
    }

    /// Opens the store over the process's default backing regions,
    /// resuming whatever state they hold: fresh memory yields the empty
    /// store, and regions a prior process life committed yield that
    /// store again, well-formed. To be called once per process: the
    /// regions are process-wide singletons.
    pub fn open() -> (s: Self)
        ensures
            s.wf(),
    {
        let stable = stable_init_host();
        let counter = stable_counter_get(&stable);
        let ghost books = Map::<u64, BookView>::new(
            |k: u64| stable_entries(stable).contains_key(k),
            |k: u64|
                choose|v: BookView|
                    stable_entries(stable)[k] == spec_encode_book(v) && v.id == k
                        && spec_encode_book(v).len() <= MAX_ENCODED_SIZE,
        );
        let ghost minted = Seq::<u64>::new(counter as nat, |i: int| (i + 1) as u64);
        let s = BookStore { stable, books: Ghost(books), minted: Ghost(minted) };
        proof {
            assert forall|k: u64| #[trigger] s.books@.contains_key(k) implies {
                &&& stable_entries(s.stable).contains_key(k)
                &&& stable_entries(s.stable)[k] == spec_encode_book(s.books@[k])
                &&& s.books@[k].id == k
                &&& 1 <= k <= stable_counter(s.stable)
                &&& spec_encode_book(s.books@[k]).len() <= MAX_ENCODED_SIZE
            } by {
                let v = choose|v: BookView|
                    stable_entries(s.stable)[k] == spec_encode_book(v) && v.id == k
                        && spec_encode_book(v).len() <= MAX_ENCODED_SIZE;
                assert(s.books@[k] == v);
            }
        }
        s
    }

    /// The current value of the id counter.
    pub fn current_counter(&self) -> (r: u64)
        ensures
            r == self.counter(),
    {
        stable_counter_get(&self.stable)
    }

    /// Point lookup: a copy of the stored record, or absence.
    pub fn _get_book(&self, id: &u64) -> (r: Option<Book>)
        requires
            self.wf(),
        ensures
            match r {
                Some(b) => self@.contains_key(*id) && b@ == self@[*id],
                None => !self@.contains_key(*id),
            },
    {
        match stable_get(&self.stable, *id) {
            Some(bytes) => {
                proof {
                    assert(bytes@ == spec_encode_book(self.books@[*id]));
                }
                match decode_book(bytes.as_slice()) {
                    Some(b) => Some(b),
                    None => {
                        proof {
                            assert(false);
                        }
                        None
                    },
                }
            },
            None => None,
        }
    }

    /// Read: the stored record under the id, or `NotFound` naming the id.
    /// Fails exactly when the id has no current record.
    pub fn get_book(&self, id: u64) -> (r: Result<Book, Error>)
        requires
            self.wf(),
        ensures
            match r {
                Ok(b) => self@.contains_key(id) && b@ == self@[id],
                Err(e) => !self@.contains_key(id) && (e matches Error::NotFound { msg }
                    && msg@ == text::spec_get_msg(id)),
            },
    {
        match self._get_book(&id) {
            Some(book) => Ok(book),
            None => Err(Error::NotFound { msg: text::get_msg(id) }),
        }
    }

    /// Stores a record under its id, replacing any previous record
    /// there: the shared write half of create and update.
    pub fn do_insert(&mut self, book: &Book)
        requires
            old(self).wf(),
            1 <= book.id <= old(self).counter(),
            spec_encode_book(book@).len() <= MAX_ENCODED_SIZE,
        ensures
            final(self).wf(),
            final(self)@ == old(self)@.insert(book.id, book@),
            final(self).counter() == old(self).counter(),
            final(self).minted_ids() == old(self).minted_ids(),
    {
        let bytes = match encode_book(book) {
            Some(b) => b,
            None => vstd::pervasive::unreached(),
        };
        stable_insert(&mut self.stable, book.id, bytes);
        proof {
            self.books@ = self.books@.insert(book.id, book@);
        }
    }

    /// Create: mints the next id, stamps the creation time `now`, stores
    /// the record, and returns it. Always succeeds; the returned id was
    /// never minted before.
    pub fn add_book(&mut self, payload: BookPayload, now: u64) -> (r: Option<Book>)
        requires
            old(self).wf(),
            old(self).counter() < u64::MAX,
            spec_payload_len(payload@) <= MAX_ENCODED_SIZE,
        ensures
            final(self).wf(),
            r matches Some(b) && b@ == spec_new_book((old(self).counter() + 1) as u64, payload@, now),
            final(self)@ == old(self)@.insert(
                (old(self).counter() + 1) as u64,
                spec_new_book((old(self).counter() + 1) as u64, payload@, now),
            ),
            !old(self)@.contains_key((old(self).counter() + 1) as u64),
            final(self).counter() == old(self).counter() + 1,
            final(self).minted_ids() == old(self).minted_ids().push(
                (old(self).counter() + 1) as u64,
            ),
            forall|i: int|
                0 <= i < old(self).minted_ids().len() ==> #[trigger] old(self).minted_ids()[i]
                    != (old(self).counter() + 1) as u64,
    {
        let current = stable_counter_get(&self.stable);
        let id = current + 1;
        stable_counter_set(&mut self.stable, id);
        proof {
            self.minted@ = self.minted@.push(id);
        }
        let book = Book {
            id,
            title: payload.title,
            author: payload.author,
            summary: payload.summary,
            store_name: payload.store_name,
            created_at: now,
            updated_at: None,
        };
        proof {
            lemma_encode_book_len(book@);
        }
        self.do_insert(&book);
        Some(book)
    }

    /// Update: overwrites the four caller-supplied text fields from the
    /// payload, stamps the update time `now`, re-stores the record, and
    /// returns it; the id and the creation time stay. Fails exactly when
    /// the id has no current record, with `NotFound` naming the id; the
    /// size budget binds the caller only where a record is written.
    pub fn update_book(&mut self, id: u64, payload: BookPayload, now: u64) -> (r: Result<
        Book,
        Error,
    >)
        requires
            old(self).wf(),
            old(self)@.contains_key(id) ==> spec_payload_len(payload@) <= MAX_ENCODED_SIZE,
        ensures
            final(self).wf(),
            final(self).counter() == old(self).counter(),
            final(self).minted_ids() == old(self).minted_ids(),
            match r {
                Ok(b) => old(self)@.contains_key(id) && b@ == spec_updated_book(
                    old(self)@[id],
                    payload@,
                    now,
                ) && final(self)@ == old(self)@.insert(id, b@),
                Err(e) => !old(self)@.contains_key(id) && final(self)@ == old(self)@ && (
                e matches Error::NotFound { msg } && msg@ == text::spec_update_msg(id)),
            },
    {
        match self._get_book(&id) {
            Some(book) => {
                let updated = Book {
                    id: book.id,
                    title: payload.title,
                    author: payload.author,
                    summary: payload.summary,
                    store_name: payload.store_name,
                    created_at: book.created_at,
                    updated_at: Some(now),
                };
                proof {
                    lemma_encode_book_len(updated@);
                    assert(updated@ =~= spec_updated_book(old(self)@[id], payload@, now));
                }
                self.do_insert(&updated);
                Ok(updated)
            },
            None => Err(Error::NotFound { msg: text::update_msg(id) }),
        }
    }

    /// Delete: removes and returns the record under the id. Fails
    /// exactly when the id has no current record, with `NotFound` naming
    /// the id, and then changes nothing.
    pub fn delete_book(&mut self, id: u64) -> (r: Result<Book, Error>)
        requires
            old(self).wf(),
        ensures
            final(self).wf(),
            final(self).counter() == old(self).counter(),
            final(self).minted_ids() == old(self).minted_ids(),
            match r {
                Ok(b) => old(self)@.contains_key(id) && b@ == old(self)@[id] && final(self)@
                    == old(self)@.remove(id),
                Err(e) => !old(self)@.contains_key(id) && final(self)@ == old(self)@ && (
                e matches Error::NotFound { msg } && msg@ == text::spec_delete_msg(id)),
            },
    {
        match stable_remove(&mut self.stable, id) {
            Some(bytes) => {
                proof {
                    assert(bytes@ == spec_encode_book(old(self).books@[id]));
                    self.books@ = self.books@.remove(id);
                }
                match decode_book(bytes.as_slice()) {
                    Some(b) => Ok(b),
                    None => vstd::pervasive::unreached(),
                }
            },
            None => Err(Error::NotFound { msg: text::delete_msg(id) }),
        }
    }
}

/// Uniqueness of creation: the ids minted over a store's lifetime are
/// pairwise distinct, so no create ever returns an id a prior create
/// returned, and a deleted id is never reused.
pub proof fn lemma_minted_ids_distinct(s: BookStore)
    requires
        s.wf(),
    ensures
        forall|i: int, j: int|
            0 <= i < j < s.minted_ids().len() ==> s.minted_ids()[i] != s.minted_ids()[j],
{
}

/// Sequential creates: the ids minted over a store's lifetime are
/// exactly 1, 2, ... up to the counter, in creation order.
pub proof fn lemma_sequential_ids(s: BookStore)
    requires
        s.wf(),
    ensures
        s.minted_ids().len() == s.counter(),
        forall|i: int| 0 <= i < s.minted_ids().len() ==> #[trigger] s.minted_ids()[i] == i + 1,
{
}

/// Freshness: the store never holds a record beyond its counter, so the
/// id the next create will mint is absent.
pub proof fn lemma_next_id_fresh(s: BookStore)
    requires
        s.wf(),
        s.counter() < u64::MAX,
    ensures
        !s@.contains_key((s.counter() + 1) as u64),
{
}

/// Keyed by identity: every stored record carries the id it is stored
/// under, so a read or update under an id returns a record bearing that
/// very id.
pub proof fn lemma_ids_keyed(s: BookStore)
    requires
        s.wf(),
    ensures
        forall|k: u64| #[trigger] s@.contains_key(k) ==> s@[k].id == k,
{
}

/// Read after create: a map that just received a record under its id
/// holds it there, so a read right after a create returns the created
/// record.
pub proof fn lemma_read_after_create(books: Map<u64, BookView>, b: BookView)
    ensures
        books.insert(b.id, b).contains_key(b.id),
        books.insert(b.id, b)[b.id] == b,
{
}

} // verus!
