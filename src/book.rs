//! The catalog: books, their creation rules and the title/author search.
use vstd::prelude::*;
use crate::cart::{carts_wf, lines_wf, CartRecord};
use crate::database::{book_index, has_book, isbn_taken, title_taken, Database};
use crate::error::ServiceError;
use crate::text::{lower_of, matches_folded, matches_folded_spec, to_lowercase};

verus! {

/// A catalog entry; `price` is in minor currency units.
pub struct Book {
    pub id: Option<i32>,
    pub title: String,
    pub author: String,
    pub price: i32,
    pub description: String,
    pub image_src: Option<String>,
    pub published_date: String,
    pub isbn: String,
}

/// A copy of an optional string.
pub fn copy_opt_string(s: &Option<String>) -> (r: Option<String>)
    ensures
        r == *s,
{
    match s {
        Some(v) => Some(v.clone()),
        None => None,
    }
}

/// Whether a book with this title and author is found by `query`: the lowercased
/// query matches the lowercased title or the lowercased author.
pub open spec fn book_matches(query: Seq<char>, title: Seq<char>, author: Seq<char>) -> bool {
    matches_folded_spec(lower_of(query), lower_of(title))
        || matches_folded_spec(lower_of(query), lower_of(author))
}

impl Book {
    /// Every required field is present and non-empty (the price needs no check).
    pub open spec fn is_complete(&self) -> bool {
        &&& self.title@.len() > 0
        &&& self.author@.len() > 0
        &&& self.description@.len() > 0
        &&& self.image_src is Some
        &&& self.published_date@.len() > 0
        &&& self.isbn@.len() > 0
    }

    /// A field-by-field copy.
    pub fn duplicate(&self) -> (r: Book)
        ensures
            r == *self,
    {
        Book {
            id: self.id,
            title: self.title.clone(),
            author: self.author.clone(),
            price: self.price,
            description: self.description.clone(),
            image_src: copy_opt_string(&self.image_src),
            published_date: self.published_date.clone(),
            isbn: self.isbn.clone(),
        }
    }

    /// Whether every required field is present and non-empty.
    pub fn has_required_fields(&self) -> (r: bool)
        ensures
            r == self.is_complete(),
    {
        let image_ok = match &self.image_src {
            Some(_) => true,
            None => false,
        };
        !self.title.as_str().is_empty() && !self.author.as_str().is_empty()
            && !self.description.as_str().is_empty() && image_ok
            && !self.published_date.as_str().is_empty() && !self.isbn.as_str().is_empty()
    }

    /// Whether the search `query` finds this book.
    pub fn matches_query(&self, query: &str) -> (r: bool)
        ensures
            r == book_matches(query@, self.title@, self.author@),
    {
        let q = to_lowercase(query);
        let t = to_lowercase(self.title.as_str());
        if matches_folded(q.as_str(), t.as_str()) {
            return true;
        }
        let a = to_lowercase(self.author.as_str());
        matches_folded(q.as_str(), a.as_str())
    }
}

/// Adding a book to the catalog keeps every book that was there, at the same place.
pub proof fn lemma_catalog_grows(carts: Seq<CartRecord>, books: Seq<Book>, b: Book, next_id: i32)
    requires
        carts_wf(carts, books, next_id),
    ensures
        carts_wf(carts, books.push(b), next_id),
        forall|id: i32| has_book(books, id) ==> #[trigger] has_book(books.push(b), id),
{
    let nb = books.push(b);
    assert forall|id: i32| has_book(books, id) implies #[trigger] has_book(nb, id) by {
        let k = book_index(books, id);
        assert(nb[k].id == Some(id));
    }
    assert forall|c: int| 0 <= c < carts.len() implies lines_wf(#[trigger] carts[c].lines@, nb) by {
        let ls = carts[c].lines@;
        assert(lines_wf(ls, books));
        assert forall|i: int| 0 <= i < ls.len() implies has_book(nb, #[trigger] ls[i].book_id) by {
            assert(has_book(books, ls[i].book_id));
        }
    }
}

/// The books that `query` finds, in catalog order.
pub open spec fn search_results(books: Seq<Book>, query: Seq<char>) -> Seq<Book> {
    books.filter(|b: Book| book_matches(query, b.title@, b.author@))
}

impl Book {
    /// Adds `book` to the catalog under a fresh id, which it returns. Refused with
    /// `Validation` when a required field is empty, and with `Conflict` when the
    /// title or the isbn is already in the catalog.
    pub fn create(db: &mut Database, book: Book) -> (r: Result<i32, ServiceError>)
        requires
            old(db).wf(),
        ensures
            r matches Err(e) ==> (e == ServiceError::Validation || e == ServiceError::Conflict || e == ServiceError::Exhausted),
            final(db).wf(),
            r == Err::<i32, ServiceError>(ServiceError::Validation) <==> !book.is_complete(),
            r == Err::<i32, ServiceError>(ServiceError::Conflict) <==> book.is_complete()
                && (title_taken(old(db).books@, book.title@) || isbn_taken(old(db).books@, book.isbn@)),
            r == Err::<i32, ServiceError>(ServiceError::Exhausted) <==> book.is_complete()
                && !title_taken(old(db).books@, book.title@) && !isbn_taken(old(db).books@, book.isbn@)
                && old(db).next_book_id == i32::MAX,
            r is Err ==> *final(db) == *old(db),
            r matches Ok(id) ==> {
                &&& id == old(db).next_book_id
                &&& final(db).books@ == old(db).books@.push(Book {
                    id: Some(id),
                    title: book.title,
                    author: book.author,
                    price: book.price,
                    description: book.description,
                    image_src: book.image_src,
                    published_date: book.published_date,
                    isbn: book.isbn,
                })
                &&& final(db).next_book_id == id + 1
                &&& has_book(final(db).books@, id)
                &&& final(db).users == old(db).users
                &&& final(db).profiles == old(db).profiles
                &&& final(db).carts == old(db).carts
                &&& final(db).histories == old(db).histories
                &&& final(db).redis == old(db).redis
                &&& final(db).next_user_id == old(db).next_user_id
                &&& final(db).next_cart_id == old(db).next_cart_id
                &&& final(db).next_history_id == old(db).next_history_id
            },
    {
        if !book.has_required_fields() {
            return Err(ServiceError::Validation);
        }
        let mut i: usize = 0;
        while i < db.books.len()
            invariant
                db.wf(),
                *db == *old(db),
                book.is_complete(),
                i <= db.books@.len(),
                forall|j: int| 0 <= j < i ==> (#[trigger] db.books@[j]).title@ != book.title@
                    && db.books@[j].isbn@ != book.isbn@,
            decreases db.books@.len() - i,
        {
            if db.books[i].title == book.title || db.books[i].isbn == book.isbn {
                proof {
                    let b = db.books@[i as int];
                    if b.title@ == book.title@ {
                        assert(title_taken(db.books@, book.title@));
                    } else {
                        assert(isbn_taken(db.books@, book.isbn@));
                    }
                }
                return Err(ServiceError::Conflict);
            }
            i = i + 1;
        }
        proof {
            assert forall|j: int| 0 <= j < db.books@.len() implies #[trigger] db.books@[j].title@ != book.title@ by {
                assert(db.books@[j].title@ != book.title@);
            }
            assert forall|j: int| 0 <= j < db.books@.len() implies #[trigger] db.books@[j].isbn@ != book.isbn@ by {
                assert(db.books@[j].isbn@ != book.isbn@);
            }
        }
        if db.next_book_id == i32::MAX {
            return Err(ServiceError::Exhausted);
        }
        let id = db.next_book_id;
        let ghost before = db.books@;
        let Book { id: _, title, author, price, description, image_src, published_date, isbn } = book;
        let nb = Book { id: Some(id), title, author, price, description, image_src, published_date, isbn };
        proof {
            lemma_catalog_grows(db.carts@, before, nb, db.next_cart_id);
        }
        db.books.push(nb);
        db.next_book_id = id + 1;
        proof {
            let bs = db.books@;
            let n = before.len() as int;
            assert(bs[n].id == Some(id));
            assert forall|a: int, b: int|
                0 <= a < bs.len() && 0 <= b < bs.len() && a != b implies #[trigger] bs[a].id != #[trigger] bs[b].id by {
                if a < n {
                    assert(bs[a] == before[a]);
                }
                if b < n {
                    assert(bs[b] == before[b]);
                }
            }
            assert forall|a: int, b: int|
                0 <= a < bs.len() && 0 <= b < bs.len() && a != b implies #[trigger] bs[a].title@ != #[trigger] bs[b].title@ by {
                if a < n {
                    assert(bs[a] == before[a]);
                }
                if b < n {
                    assert(bs[b] == before[b]);
                }
            }
            assert forall|a: int, b: int|
                0 <= a < bs.len() && 0 <= b < bs.len() && a != b implies #[trigger] bs[a].isbn@ != #[trigger] bs[b].isbn@ by {
                if a < n {
                    assert(bs[a] == before[a]);
                }
                if b < n {
                    assert(bs[b] == before[b]);
                }
            }
            assert forall|a: int| 0 <= a < bs.len() implies (#[trigger] bs[a].id) is Some && 0 < bs[a].id->0 < db.next_book_id by {
                if a < n {
                    assert(bs[a] == before[a]);
                }
            }
        }
        Ok(id)
    }

    /// Every book of the catalog, in catalog order.
    pub fn get_all(db: &Database) -> (r: Vec<Book>)
        ensures
            r@ == db.books@,
    {
        let mut out: Vec<Book> = Vec::new();
        let mut i: usize = 0;
        while i < db.books.len()
            invariant
                i <= db.books@.len(),
                out@ == db.books@.subrange(0, i as int),
            decreases db.books@.len() - i,
        {
            out.push(db.books[i].duplicate());
            proof {
                assert(out@ =~= db.books@.subrange(0, i + 1));
            }
            i = i + 1;
        }
        proof {
            assert(out@ =~= db.books@);
        }
        out
    }

    /// The book with id `book_id`.
    pub fn get_by_id(db: &Database, book_id: i32) -> (r: Result<Book, ServiceError>)
        requires
            db.wf(),
        ensures
            r is Err <==> !has_book(db.books@, book_id),
            r is Err ==> r == Err::<Book, ServiceError>(ServiceError::NotFound),
            r matches Ok(b) ==> b == db.books@[book_index(db.books@, book_id)],
    {
        match db.find_book(book_id) {
            Some(i) => Ok(db.books[i].duplicate()),
            None => Err(ServiceError::NotFound),
        }
    }

    /// The books whose title or author the search `query` finds, in catalog order.
    pub fn filter_by(db: &Database, query: &str) -> (r: Vec<Book>)
        ensures
            r@ == search_results(db.books@, query@),
    {
        let mut out: Vec<Book> = Vec::new();
        let mut i: usize = 0;
        while i < db.books.len()
            invariant
                i <= db.books@.len(),
                out@ == search_results(db.books@.subrange(0, i as int), query@),
            decreases db.books@.len() - i,
        {
            proof {
                reveal(Seq::filter);
                assert(db.books@.subrange(0, i + 1).drop_last() =~= db.books@.subrange(0, i as int));
            }
            if db.books[i].matches_query(query) {
                out.push(db.books[i].duplicate());
            }
            proof {
                assert(out@ =~= search_results(db.books@.subrange(0, i + 1), query@));
            }
            i = i + 1;
        }
        proof {
            assert(db.books@.subrange(0, db.books@.len() as int) =~= db.books@);
        }
        out
    }
}

} // verus!
