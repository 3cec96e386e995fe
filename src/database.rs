//! The store that the services read and write: the account, profile, book, cart
//! and order tables, and the token store.
use vstd::prelude::*;
use crate::book::Book;
use crate::cart::{carts_wf, CartRecord};
use crate::history::TransactionHistory;
use crate::redis::Redis;
use crate::user::{profiles_wf, users_wf, Profile, UserRecord};

verus! {

/// Whether a book with id `id` is in the catalog.
pub open spec fn has_book(books: Seq<Book>, id: i32) -> bool {
    exists|i: int| 0 <= i < books.len() && #[trigger] books[i].id == Some(id)
}

/// The position of the book with id `id`.
pub open spec fn book_index(books: Seq<Book>, id: i32) -> int {
    choose|i: int| 0 <= i < books.len() && #[trigger] books[i].id == Some(id)
}

/// Whether a book with title `t` is in the catalog.
pub open spec fn title_taken(books: Seq<Book>, t: Seq<char>) -> bool {
    exists|i: int| 0 <= i < books.len() && #[trigger] books[i].title@ == t
}

/// Whether a book with isbn `n` is in the catalog.
pub open spec fn isbn_taken(books: Seq<Book>, n: Seq<char>) -> bool {
    exists|i: int| 0 <= i < books.len() && #[trigger] books[i].isbn@ == n
}

/// The catalog: each book has an id below `next_id`; ids, titles and isbns are distinct.
pub open spec fn books_wf(books: Seq<Book>, next_id: i32) -> bool {
    &&& forall|i: int|
        0 <= i < books.len() ==> (#[trigger] books[i].id) is Some && 0 < books[i].id->0 < next_id
    &&& forall|i: int, j: int|
        0 <= i < books.len() && 0 <= j < books.len() && i != j
            ==> #[trigger] books[i].id != #[trigger] books[j].id
    &&& forall|i: int, j: int|
        0 <= i < books.len() && 0 <= j < books.len() && i != j
            ==> #[trigger] books[i].title@ != #[trigger] books[j].title@
    &&& forall|i: int, j: int|
        0 <= i < books.len() && 0 <= j < books.len() && i != j
            ==> #[trigger] books[i].isbn@ != #[trigger] books[j].isbn@
}

/// `new` hands out the same next ids as `old`.
pub open spec fn counters_kept(old: Database, new: Database) -> bool {
    &&& new.next_user_id == old.next_user_id
    &&& new.next_book_id == old.next_book_id
    &&& new.next_cart_id == old.next_cart_id
    &&& new.next_history_id == old.next_history_id
}

/// The whole store.
pub struct Database {
    pub users: Vec<UserRecord>,
    pub profiles: Vec<Profile>,
    pub books: Vec<Book>,
    pub carts: Vec<CartRecord>,
    pub histories: Vec<TransactionHistory>,
    pub redis: Redis,
    pub next_user_id: i32,
    pub next_book_id: i32,
    pub next_cart_id: i32,
    pub next_history_id: u64,
}

impl Database {
    /// The invariants of every table.
    pub open spec fn wf(&self) -> bool {
        &&& self.next_user_id >= 1
        &&& self.next_book_id >= 1
        &&& self.next_cart_id >= 1
        &&& users_wf(self.users@, self.next_user_id)
        &&& profiles_wf(self.profiles@, self.next_user_id)
        &&& books_wf(self.books@, self.next_book_id)
        &&& carts_wf(self.carts@, self.books@, self.next_cart_id)
        &&& self.redis.wf()
    }

    /// An empty store.
    pub fn new() -> (r: Database)
        ensures
            r.wf(),
            r.users@.len() == 0,
            r.profiles@.len() == 0,
            r.books@.len() == 0,
            r.carts@.len() == 0,
            r.histories@.len() == 0,
            forall|k: Seq<char>| #[trigger] r.redis.stored(k) is None,
            r.next_user_id == 1,
            r.next_book_id == 1,
            r.next_cart_id == 1,
            r.next_history_id == 1,
    {
        Database {
            users: Vec::new(),
            profiles: Vec::new(),
            books: Vec::new(),
            carts: Vec::new(),
            histories: Vec::new(),
            redis: Redis::new(),
            next_user_id: 1,
            next_book_id: 1,
            next_cart_id: 1,
            next_history_id: 1,
        }
    }

    /// The position of the book with id `id`, if it is in the catalog.
    pub fn find_book(&self, id: i32) -> (r: Option<usize>)
        requires
            books_wf(self.books@, self.next_book_id),
        ensures
            match r {
                Some(i) => has_book(self.books@, id) && i as int == book_index(self.books@, id),
                None => !has_book(self.books@, id),
            },
    {
        let mut i: usize = 0;
        while i < self.books.len()
            invariant
                books_wf(self.books@, self.next_book_id),
                i <= self.books@.len(),
                forall|j: int| 0 <= j < i ==> #[trigger] self.books@[j].id != Some(id),
            decreases self.books@.len() - i,
        {
            if self.books[i].id == Some(id) {
                proof {
                    assert(self.books@[i as int].id == Some(id));
                    assert(has_book(self.books@, id));
                    let k = book_index(self.books@, id);
                    assert(self.books@[k].id == Some(id));
                }
                return Some(i);
            }
            i = i + 1;
        }
        None
    }
}

} // verus!
