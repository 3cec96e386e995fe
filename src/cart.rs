//! Carts: one per user, holding at most one line per book, each with a
//! quantity of at least one.
use vstd::prelude::*;
use crate::book::Book;
use crate::database::{book_index, has_book, Database};
use crate::error::ServiceError;
use crate::user::has_user;

verus! {

/// One line of a stored cart.
#[derive(Debug, Clone, Copy, PartialEq, Eq, Structural)]
pub struct CartLine {
    pub book_id: i32,
    pub quantity: u32,
}

/// A stored cart.
pub struct CartRecord {
    pub id: i32,
    pub user_id: i32,
    pub lines: Vec<CartLine>,
}

/// A cart as it is shown: each line joined with its book.
pub struct Cart {
    pub id: Option<i32>,
    pub user_id: i32,
    pub books: Vec<CartBook>,
}

/// One line of a shown cart.
pub struct CartBook {
    pub id: Option<i32>,
    pub title: String,
    pub author: String,
    pub price: i32,
    pub isbn: String,
    pub quantity: u32,
}

/// Whether `lines` holds a line for book `bid`.
pub open spec fn has_line(lines: Seq<CartLine>, bid: i32) -> bool {
    exists|i: int| 0 <= i < lines.len() && #[trigger] lines[i].book_id == bid
}

/// The position of the line for book `bid`.
pub open spec fn line_index(lines: Seq<CartLine>, bid: i32) -> int {
    choose|i: int| 0 <= i < lines.len() && #[trigger] lines[i].book_id == bid
}

/// How many copies of book `bid` the lines hold (zero without a line).
pub open spec fn quantity_of(lines: Seq<CartLine>, bid: i32) -> int {
    if has_line(lines, bid) {
        lines[line_index(lines, bid)].quantity as int
    } else {
        0
    }
}

/// The lines of a well-formed cart: one line per book, each quantity at least
/// one, each book in the catalog.
pub open spec fn lines_wf(lines: Seq<CartLine>, books: Seq<Book>) -> bool {
    &&& forall|i: int, j: int|
        0 <= i < lines.len() && 0 <= j < lines.len() && i != j
            ==> #[trigger] lines[i].book_id != #[trigger] lines[j].book_id
    &&& forall|i: int| 0 <= i < lines.len() ==> #[trigger] lines[i].quantity >= 1
    &&& forall|i: int| 0 <= i < lines.len() ==> has_book(books, #[trigger] lines[i].book_id)
}

/// The lines after one more copy of book `bid`: its quantity goes up by one, or
/// a line with quantity one is appended.
pub open spec fn add_one(lines: Seq<CartLine>, bid: i32) -> Seq<CartLine> {
    if has_line(lines, bid) {
        let i = line_index(lines, bid);
        lines.update(i, CartLine { book_id: bid, quantity: (lines[i].quantity + 1) as u32 })
    } else {
        lines.push(CartLine { book_id: bid, quantity: 1 })
    }
}

/// The lines after one copy of book `bid` less: its quantity goes down by one,
/// and a line at one is removed.
pub open spec fn take_one(lines: Seq<CartLine>, bid: i32) -> Seq<CartLine> {
    if has_line(lines, bid) {
        let i = line_index(lines, bid);
        if lines[i].quantity > 1 {
            lines.update(i, CartLine { book_id: bid, quantity: (lines[i].quantity - 1) as u32 })
        } else {
            lines.remove(i)
        }
    } else {
        lines
    }
}

/// The lines with the line for book `bid` removed, whatever its quantity.
pub open spec fn drop_line(lines: Seq<CartLine>, bid: i32) -> Seq<CartLine> {
    if has_line(lines, bid) {
        lines.remove(line_index(lines, bid))
    } else {
        lines
    }
}

/// Whether user `uid` has a cart.
pub open spec fn has_cart(carts: Seq<CartRecord>, uid: i32) -> bool {
    exists|i: int| 0 <= i < carts.len() && #[trigger] carts[i].user_id == uid
}

/// The position of the cart of user `uid`.
pub open spec fn cart_index(carts: Seq<CartRecord>, uid: i32) -> int {
    choose|i: int| 0 <= i < carts.len() && #[trigger] carts[i].user_id == uid
}

/// The stored carts: ids below `next_id` and distinct, at most one per user,
/// and well-formed lines.
pub open spec fn carts_wf(carts: Seq<CartRecord>, books: Seq<Book>, next_id: i32) -> bool {
    &&& forall|i: int| 0 <= i < carts.len() ==> 0 < #[trigger] carts[i].id < next_id
    &&& forall|i: int, j: int|
        0 <= i < carts.len() && 0 <= j < carts.len() && i != j
            ==> #[trigger] carts[i].id != #[trigger] carts[j].id
    &&& forall|i: int, j: int|
        0 <= i < carts.len() && 0 <= j < carts.len() && i != j
            ==> #[trigger] carts[i].user_id != #[trigger] carts[j].user_id
    &&& forall|i: int| 0 <= i < carts.len() ==> lines_wf(#[trigger] carts[i].lines@, books)
}

/// `new` is `old` with the lines of the cart at `ci` replaced by `lines`.
pub open spec fn lines_replaced(old: Seq<CartRecord>, new: Seq<CartRecord>, ci: int, lines: Seq<CartLine>) -> bool {
    &&& new.len() == old.len()
    &&& 0 <= ci < old.len()
    &&& new[ci].id == old[ci].id
    &&& new[ci].user_id == old[ci].user_id
    &&& new[ci].lines@ == lines
    &&& forall|c: int| 0 <= c < old.len() && c != ci ==> #[trigger] new[c] == old[c]
}

/// A cart line as it is shown, from its book.
pub open spec fn cart_book_of(books: Seq<Book>, line: CartLine) -> CartBook {
    let b = books[book_index(books, line.book_id)];
    CartBook { id: b.id, title: b.title, author: b.author, price: b.price, isbn: b.isbn, quantity: line.quantity }
}

/// The sum of price times quantity over the shown lines.
pub open spec fn total_of(items: Seq<CartBook>) -> int
    decreases items.len(),
{
    if items.len() == 0 {
        0
    } else {
        total_of(items.drop_last()) + items.last().price as int * items.last().quantity as int
    }
}

/// The position of the line for book `bid`, if there is one.
pub fn find_line(lines: &Vec<CartLine>, bid: i32) -> (r: Option<usize>)
    requires
        forall|i: int, j: int|
            0 <= i < lines@.len() && 0 <= j < lines@.len() && i != j
                ==> #[trigger] lines@[i].book_id != #[trigger] lines@[j].book_id,
    ensures
        match r {
            Some(i) => has_line(lines@, bid) && i as int == line_index(lines@, bid),
            None => !has_line(lines@, bid),
        },
{
    let mut i: usize = 0;
    while i < lines.len()
        invariant
            forall|a: int, b: int|
                0 <= a < lines@.len() && 0 <= b < lines@.len() && a != b
                    ==> #[trigger] lines@[a].book_id != #[trigger] lines@[b].book_id,
            i <= lines@.len(),
            forall|j: int| 0 <= j < i ==> #[trigger] lines@[j].book_id != bid,
        decreases lines@.len() - i,
    {
        if lines[i].book_id == bid {
            proof {
                assert(lines@[i as int].book_id == bid);
                assert(has_line(lines@, bid));
                let k = line_index(lines@, bid);
                assert(lines@[k].book_id == bid);
            }
            return Some(i);
        }
        i = i + 1;
    }
    None
}

/// The position of the cart of user `uid`, if there is one.
pub fn find_cart(carts: &Vec<CartRecord>, uid: i32) -> (r: Option<usize>)
    requires
        forall|i: int, j: int|
            0 <= i < carts@.len() && 0 <= j < carts@.len() && i != j
                ==> #[trigger] carts@[i].user_id != #[trigger] carts@[j].user_id,
    ensures
        match r {
            Some(i) => has_cart(carts@, uid) && i as int == cart_index(carts@, uid),
            None => !has_cart(carts@, uid),
        },
{
    let mut i: usize = 0;
    while i < carts.len()
        invariant
            forall|a: int, b: int|
                0 <= a < carts@.len() && 0 <= b < carts@.len() && a != b
                    ==> #[trigger] carts@[a].user_id != #[trigger] carts@[b].user_id,
            i <= carts@.len(),
            forall|j: int| 0 <= j < i ==> #[trigger] carts@[j].user_id != uid,
        decreases carts@.len() - i,
    {
        if carts[i].user_id == uid {
            proof {
                assert(carts@[i as int].user_id == uid);
                assert(has_cart(carts@, uid));
                let k = cart_index(carts@, uid);
                assert(carts@[k].user_id == uid);
            }
            return Some(i);
        }
        i = i + 1;
    }
    None
}

/// One more copy keeps the lines well-formed.
pub proof fn lemma_add_one_wf(lines: Seq<CartLine>, books: Seq<Book>, bid: i32)
    requires
        lines_wf(lines, books),
        has_book(books, bid),
        quantity_of(lines, bid) < u32::MAX,
    ensures
        lines_wf(add_one(lines, bid), books),
        quantity_of(add_one(lines, bid), bid) == quantity_of(lines, bid) + 1,
        forall|b: i32| b != bid ==> #[trigger] quantity_of(add_one(lines, bid), b) == quantity_of(lines, b),
{
    let n = add_one(lines, bid);
    if has_line(lines, bid) {
        let i = line_index(lines, bid);
        assert(lines[i].book_id == bid);
        assert(n[i].book_id == bid);
        assert(has_line(n, bid));
        let k = line_index(n, bid);
        assert(n[k].book_id == bid);
        assert(k == i);
        assert forall|b: i32| b != bid implies #[trigger] quantity_of(n, b) == quantity_of(lines, b) by {
            if has_line(lines, b) {
                let j = line_index(lines, b);
                assert(n[j].book_id == b);
            }
            if has_line(n, b) {
                let j = line_index(n, b);
                assert(lines[j].book_id == b);
            }
        }
    } else {
        let i = lines.len() as int;
        assert(n[i].book_id == bid);
        assert(has_line(n, bid));
        let k = line_index(n, bid);
        assert(n[k].book_id == bid);
        assert forall|b: i32| b != bid implies #[trigger] quantity_of(n, b) == quantity_of(lines, b) by {
            if has_line(lines, b) {
                let j = line_index(lines, b);
                assert(n[j].book_id == b);
            }
            if has_line(n, b) {
                let j = line_index(n, b);
                assert(lines[j].book_id == b);
            }
        }
    }
}

/// One copy less keeps the lines well-formed.
pub proof fn lemma_take_one_wf(lines: Seq<CartLine>, books: Seq<Book>, bid: i32)
    requires
        lines_wf(lines, books),
    ensures
        lines_wf(take_one(lines, bid), books),
        quantity_of(take_one(lines, bid), bid) == if quantity_of(lines, bid) > 0 {
            quantity_of(lines, bid) - 1
        } else {
            0
        },
        forall|b: i32| b != bid ==> #[trigger] quantity_of(take_one(lines, bid), b) == quantity_of(lines, b),
{
    let n = take_one(lines, bid);
    if has_line(lines, bid) {
        let i = line_index(lines, bid);
        assert(lines[i].book_id == bid);
        if lines[i].quantity > 1 {
            assert(n[i].book_id == bid);
            assert(has_line(n, bid));
            let k = line_index(n, bid);
            assert(n[k].book_id == bid);
            assert(k == i);
        } else {
            if has_line(n, bid) {
                let k = line_index(n, bid);
                if k < i {
                    assert(lines[k].book_id == bid);
                } else {
                    assert(lines[k + 1].book_id == bid);
                }
            }
        }
        assert forall|b: i32| b != bid implies #[trigger] quantity_of(n, b) == quantity_of(lines, b) by {
            if lines[i].quantity > 1 {
                if has_line(lines, b) {
                    let j = line_index(lines, b);
                    assert(n[j].book_id == b);
                }
                if has_line(n, b) {
                    let j = line_index(n, b);
                    assert(lines[j].book_id == b);
                }
            } else {
                if has_line(lines, b) {
                    let j = line_index(lines, b);
                    if j < i {
                        assert(n[j].book_id == b);
                    } else {
                        assert(n[j - 1].book_id == b);
                    }
                }
                if has_line(n, b) {
                    let j = line_index(n, b);
                    if j < i {
                        assert(lines[j].book_id == b);
                    } else {
                        assert(lines[j + 1].book_id == b);
                    }
                }
            }
        }
    }
}

/// Removing a line keeps the lines well-formed, and leaves no line for that book.
pub proof fn lemma_drop_line_wf(lines: Seq<CartLine>, books: Seq<Book>, bid: i32)
    requires
        lines_wf(lines, books),
    ensures
        lines_wf(drop_line(lines, bid), books),
        !has_line(drop_line(lines, bid), bid),
        forall|b: i32| b != bid ==> #[trigger] quantity_of(drop_line(lines, bid), b) == quantity_of(lines, b),
{
    let n = drop_line(lines, bid);
    if has_line(lines, bid) {
        let i = line_index(lines, bid);
        assert(lines[i].book_id == bid);
        if has_line(n, bid) {
            let k = line_index(n, bid);
            if k < i {
                assert(lines[k].book_id == bid);
            } else {
                assert(lines[k + 1].book_id == bid);
            }
        }
        assert forall|b: i32| b != bid implies #[trigger] quantity_of(n, b) == quantity_of(lines, b) by {
            if has_line(lines, b) {
                let j = line_index(lines, b);
                if j < i {
                    assert(n[j].book_id == b);
                } else {
                    assert(n[j - 1].book_id == b);
                }
            }
            if has_line(n, b) {
                let j = line_index(n, b);
                if j < i {
                    assert(lines[j].book_id == b);
                } else {
                    assert(lines[j + 1].book_id == b);
                }
            }
        }
    }
}

/// Replacing the lines of one cart by well-formed lines keeps the carts well-formed.
pub proof fn lemma_lines_replaced_wf(
    old: Seq<CartRecord>,
    new: Seq<CartRecord>,
    ci: int,
    lines: Seq<CartLine>,
    books: Seq<Book>,
    next_id: i32,
)
    requires
        carts_wf(old, books, next_id),
        lines_replaced(old, new, ci, lines),
        lines_wf(lines, books),
    ensures
        carts_wf(new, books, next_id),
        forall|u: i32| #[trigger] has_cart(new, u) == has_cart(old, u),
        forall|u: i32| has_cart(old, u) ==> #[trigger] cart_index(new, u) == cart_index(old, u),
{
    assert forall|i: int| 0 <= i < new.len() implies 0 < #[trigger] new[i].id < next_id by {
        if i != ci {
            assert(new[i] == old[i]);
        }
    }
    assert forall|i: int, j: int|
        0 <= i < new.len() && 0 <= j < new.len() && i != j implies #[trigger] new[i].id != #[trigger] new[j].id by {
        if i != ci {
            assert(new[i] == old[i]);
        }
        if j != ci {
            assert(new[j] == old[j]);
        }
    }
    assert forall|i: int, j: int|
        0 <= i < new.len() && 0 <= j < new.len() && i != j implies #[trigger] new[i].user_id != #[trigger] new[j].user_id by {
        if i != ci {
            assert(new[i] == old[i]);
        }
        if j != ci {
            assert(new[j] == old[j]);
        }
    }
    assert forall|i: int| 0 <= i < new.len() implies lines_wf(#[trigger] new[i].lines@, books) by {
        if i != ci {
            assert(new[i] == old[i]);
        }
    }
    assert forall|u: i32| #[trigger] has_cart(new, u) == has_cart(old, u) by {
        if has_cart(old, u) {
            let k = cart_index(old, u);
            if k != ci {
                assert(new[k] == old[k]);
            }
            assert(new[k].user_id == u);
        }
        if has_cart(new, u) {
            let k = cart_index(new, u);
            if k != ci {
                assert(new[k] == old[k]);
            }
            assert(old[k].user_id == u);
        }
    }
    assert forall|u: i32| has_cart(old, u) implies #[trigger] cart_index(new, u) == cart_index(old, u) by {
        let k = cart_index(old, u);
        if k != ci {
            assert(new[k] == old[k]);
        }
        assert(new[k].user_id == u);
        let k2 = cart_index(new, u);
        if k2 != ci {
            assert(new[k2] == old[k2]);
        }
        assert(old[k2].user_id == u);
    }
}

/// The lines of user `uid`'s cart.
pub open spec fn cart_lines(db: Database, uid: i32) -> Seq<CartLine> {
    db.carts@[cart_index(db.carts@, uid)].lines@
}

/// What one successful `increment_book_quantity(uid, bid)` does: `new` is a
/// well-formed store where `uid`'s cart holds one more copy of `bid` and as many
/// of every other book.
pub open spec fn added_one(old: Database, new: Database, uid: i32, bid: i32) -> bool {
    &&& new.wf()
    &&& has_cart(new.carts@, uid)
    &&& quantity_of(cart_lines(new, uid), bid) == quantity_of(cart_lines(old, uid), bid) + 1
    &&& forall|b: i32| b != bid ==> #[trigger] quantity_of(cart_lines(new, uid), b) == quantity_of(cart_lines(old, uid), b)
}

/// What one successful `decrease_book_quantity(uid, bid)` does: `new` is a
/// well-formed store where `uid`'s cart holds one copy of `bid` less and as many
/// of every other book.
pub open spec fn took_one(old: Database, new: Database, uid: i32, bid: i32) -> bool {
    &&& new.wf()
    &&& has_cart(new.carts@, uid)
    &&& quantity_of(cart_lines(new, uid), bid) == quantity_of(cart_lines(old, uid), bid) - 1
    &&& forall|b: i32| b != bid ==> #[trigger] quantity_of(cart_lines(new, uid), b) == quantity_of(cart_lines(old, uid), b)
}

/// `new` differs from `old` at most in the carts table.
pub open spec fn only_carts_changed(old: Database, new: Database) -> bool {
    &&& new.users == old.users
    &&& new.profiles == old.profiles
    &&& new.books == old.books
    &&& new.histories == old.histories
    &&& new.redis == old.redis
    &&& new.next_user_id == old.next_user_id
    &&& new.next_book_id == old.next_book_id
    &&& new.next_cart_id == old.next_cart_id
    &&& new.next_history_id == old.next_history_id
}

impl Database {
    /// Replaces the lines of the cart at `ci`.
    pub(crate) fn replace_lines(&mut self, ci: usize, lines: Vec<CartLine>)
        requires
            old(self).wf(),
            ci < old(self).carts@.len(),
            lines_wf(lines@, old(self).books@),
        ensures
            final(self).wf(),
            lines_replaced(old(self).carts@, final(self).carts@, ci as int, lines@),
            only_carts_changed(*old(self), *final(self)),
            forall|u: i32| #[trigger] has_cart(final(self).carts@, u) == has_cart(old(self).carts@, u),
            forall|u: i32| has_cart(old(self).carts@, u) ==> #[trigger] cart_index(final(self).carts@, u) == cart_index(old(self).carts@, u),
    {
        let ghost before = self.carts@;
        let rec = self.carts.remove(ci);
        let CartRecord { id, user_id, lines: _ } = rec;
        self.carts.insert(ci, CartRecord { id, user_id, lines });
        proof {
            assert forall|c: int| 0 <= c < before.len() && c != ci implies #[trigger] self.carts@[c] == before[c] by {}
            lemma_lines_replaced_wf(before, self.carts@, ci as int, lines@, self.books@, self.next_cart_id);
        }
    }
}

/// A copy of a cart's lines.
fn copy_lines(lines: &Vec<CartLine>) -> (r: Vec<CartLine>)
    ensures
        r@ == lines@,
{
    let mut out: Vec<CartLine> = Vec::new();
    let mut i: usize = 0;
    while i < lines.len()
        invariant
            i <= lines@.len(),
            out@ == lines@.subrange(0, i as int),
        decreases lines@.len() - i,
    {
        out.push(lines[i]);
        proof {
            assert(out@ =~= lines@.subrange(0, i + 1));
        }
        i = i + 1;
    }
    proof {
        assert(out@ =~= lines@);
    }
    out
}

/// The shown form of cart lines: each line joined with its book.
pub open spec fn cart_books_of(books: Seq<Book>, lines: Seq<CartLine>) -> Seq<CartBook> {
    lines.map_values(|l: CartLine| cart_book_of(books, l))
}

impl CartBook {
    /// A field-by-field copy.
    pub fn duplicate(&self) -> (r: CartBook)
        ensures
            r == *self,
    {
        CartBook {
            id: self.id,
            title: self.title.clone(),
            author: self.author.clone(),
            price: self.price,
            isbn: self.isbn.clone(),
            quantity: self.quantity,
        }
    }
}

impl Cart {
    /// Opens an empty cart for user `user_id`.
    pub fn create(db: &mut Database, user_id: i32) -> (r: Result<(), ServiceError>)
        requires
            old(db).wf(),
        ensures
            r matches Err(e) ==> (e == ServiceError::NotFound || e == ServiceError::Conflict || e == ServiceError::Exhausted),
            final(db).wf(),
            r == Err::<(), ServiceError>(ServiceError::NotFound) <==> !has_user(old(db).users@, user_id),
            r == Err::<(), ServiceError>(ServiceError::Conflict) <==> has_user(old(db).users@, user_id)
                && has_cart(old(db).carts@, user_id),
            r == Err::<(), ServiceError>(ServiceError::Exhausted) <==> has_user(old(db).users@, user_id)
                && !has_cart(old(db).carts@, user_id) && old(db).next_cart_id == i32::MAX,
            r is Err ==> *final(db) == *old(db),
            r is Ok ==> {
                &&& final(db).carts@.len() == old(db).carts@.len() + 1
                &&& forall|c: int| 0 <= c < old(db).carts@.len() ==> #[trigger] final(db).carts@[c] == old(db).carts@[c]
                &&& final(db).carts@.last().id == old(db).next_cart_id
                &&& final(db).carts@.last().user_id == user_id
                &&& final(db).carts@.last().lines@.len() == 0
                &&& has_cart(final(db).carts@, user_id)
                &&& cart_lines(*final(db), user_id).len() == 0
                &&& final(db).next_cart_id == old(db).next_cart_id + 1
                &&& final(db).users == old(db).users
                &&& final(db).profiles == old(db).profiles
                &&& final(db).books == old(db).books
                &&& final(db).histories == old(db).histories
                &&& final(db).redis == old(db).redis
                &&& final(db).next_user_id == old(db).next_user_id
                &&& final(db).next_book_id == old(db).next_book_id
                &&& final(db).next_history_id == old(db).next_history_id
            },
    {
        if db.find_user(user_id).is_none() {
            return Err(ServiceError::NotFound);
        }
        if find_cart(&db.carts, user_id).is_some() {
            return Err(ServiceError::Conflict);
        }
        if db.next_cart_id == i32::MAX {
            return Err(ServiceError::Exhausted);
        }
        let ghost before = db.carts@;
        let id = db.next_cart_id;
        db.carts.push(CartRecord { id, user_id, lines: Vec::new() });
        db.next_cart_id = id + 1;
        proof {
            let n = before.len() as int;
            let c = db.carts@;
            assert(c[n].user_id == user_id);
            assert(has_cart(c, user_id));
            let k = cart_index(c, user_id);
            if k != n {
                assert(before[k].user_id == user_id);
            }
            assert forall|i: int, j: int|
                0 <= i < c.len() && 0 <= j < c.len() && i != j implies #[trigger] c[i].user_id != #[trigger] c[j].user_id by {
                if i == n && j < n {
                    assert(before[j].user_id == c[j].user_id);
                }
                if j == n && i < n {
                    assert(before[i].user_id == c[i].user_id);
                }
            }
            assert forall|i: int| 0 <= i < c.len() implies lines_wf(#[trigger] c[i].lines@, db.books@) by {
                if i < n {
                    assert(c[i] == before[i]);
                }
            }
        }
        Ok(())
    }

    /// The cart of user `user_id`, each line joined with its book.
    pub fn get_cart(db: &Database, user_id: i32) -> (r: Result<Cart, ServiceError>)
        requires
            db.wf(),
        ensures
            r is Err <==> !has_cart(db.carts@, user_id),
            r is Err ==> r == Err::<Cart, ServiceError>(ServiceError::NotFound),
            r matches Ok(c) ==> {
                &&& c.id == Some(db.carts@[cart_index(db.carts@, user_id)].id)
                &&& c.user_id == user_id
                &&& c.books@ == cart_books_of(db.books@, cart_lines(*db, user_id))
            },
    {
        let ci = match find_cart(&db.carts, user_id) {
            Some(ci) => ci,
            None => return Err(ServiceError::NotFound),
        };
        let lines = &db.carts[ci].lines;
        let ghost want = cart_books_of(db.books@, lines@);
        proof {
            assert(lines_wf(db.carts@[ci as int].lines@, db.books@));
        }
        let mut books: Vec<CartBook> = Vec::new();
        let mut i: usize = 0;
        while i < lines.len()
            invariant
                db.wf(),
                ci < db.carts@.len(),
                lines@ == db.carts@[ci as int].lines@,
                lines_wf(lines@, db.books@),
                want == cart_books_of(db.books@, lines@),
                i <= lines@.len(),
                books@ == want.subrange(0, i as int),
            decreases lines@.len() - i,
        {
            let line = lines[i];
            proof {
                assert(has_book(db.books@, lines@[i as int].book_id));
            }
            let bi = match db.find_book(line.book_id) {
                Some(bi) => bi,
                None => {
                    proof {
                        assert(false);
                    }
                    return Err(ServiceError::NotFound);
                },
            };
            let b = &db.books[bi];
            books.push(CartBook {
                id: b.id,
                title: b.title.clone(),
                author: b.author.clone(),
                price: b.price,
                isbn: b.isbn.clone(),
                quantity: line.quantity,
            });
            proof {
                assert(books@ =~= want.subrange(0, i + 1));
            }
            i = i + 1;
        }
        proof {
            assert(books@ =~= want);
        }
        Ok(Cart { id: Some(db.carts[ci].id), user_id, books })
    }

    /// Puts one more copy of book `book_id` in the cart of user `user_id`: the
    /// line's quantity goes up by one, or a line with quantity one is added.
    pub fn increment_book_quantity(db: &mut Database, user_id: i32, book_id: i32) -> (r: Result<(), ServiceError>)
        requires
            old(db).wf(),
        ensures
            r is Ok ==> added_one(*old(db), *final(db), user_id, book_id),
            r matches Err(e) ==> (e == ServiceError::NotFound || e == ServiceError::Exhausted),
            final(db).wf(),
            r == Err::<(), ServiceError>(ServiceError::NotFound) <==> !has_cart(old(db).carts@, user_id)
                || !has_book(old(db).books@, book_id),
            r == Err::<(), ServiceError>(ServiceError::Exhausted) <==> has_cart(old(db).carts@, user_id)
                && has_book(old(db).books@, book_id)
                && quantity_of(cart_lines(*old(db), user_id), book_id) == u32::MAX,
            r is Err ==> *final(db) == *old(db),
            r is Ok ==> {
                &&& only_carts_changed(*old(db), *final(db))
                &&& lines_replaced(old(db).carts@, final(db).carts@, cart_index(old(db).carts@, user_id),
                    add_one(cart_lines(*old(db), user_id), book_id))
                &&& has_cart(final(db).carts@, user_id)
                &&& cart_lines(*final(db), user_id) == add_one(cart_lines(*old(db), user_id), book_id)
                &&& quantity_of(cart_lines(*final(db), user_id), book_id) == quantity_of(cart_lines(*old(db), user_id), book_id) + 1
                &&& forall|b: i32| b != book_id ==> #[trigger] quantity_of(cart_lines(*final(db), user_id), b)
                    == quantity_of(cart_lines(*old(db), user_id), b)
            },
    {
        let ci = match find_cart(&db.carts, user_id) {
            Some(ci) => ci,
            None => return Err(ServiceError::NotFound),
        };
        if db.find_book(book_id).is_none() {
            return Err(ServiceError::NotFound);
        }
        proof {
            assert(lines_wf(db.carts@[ci as int].lines@, db.books@));
        }
        let mut lines = copy_lines(&db.carts[ci].lines);
        let ghost old_lines = lines@;
        match find_line(&lines, book_id) {
            Some(li) => {
                let q = lines[li].quantity;
                if q == u32::MAX {
                    return Err(ServiceError::Exhausted);
                }
                lines.set(li, CartLine { book_id, quantity: q + 1 });
            },
            None => {
                lines.push(CartLine { book_id, quantity: 1 });
            },
        }
        proof {
            assert(lines@ =~= add_one(old_lines, book_id));
            lemma_add_one_wf(old_lines, db.books@, book_id);
        }
        db.replace_lines(ci, lines);
        Ok(())
    }

    /// Takes one copy of book `book_id` out of the cart of user `user_id`: the
    /// line's quantity goes down by one, and a line at one is removed.
    pub fn decrease_book_quantity(db: &mut Database, user_id: i32, book_id: i32) -> (r: Result<(), ServiceError>)
        requires
            old(db).wf(),
        ensures
            r is Ok ==> took_one(*old(db), *final(db), user_id, book_id),
            final(db).wf(),
            r is Err <==> !has_cart(old(db).carts@, user_id)
                || !has_line(cart_lines(*old(db), user_id), book_id),
            r is Err ==> r == Err::<(), ServiceError>(ServiceError::NotFound) && *final(db) == *old(db),
            r is Ok ==> {
                &&& only_carts_changed(*old(db), *final(db))
                &&& lines_replaced(old(db).carts@, final(db).carts@, cart_index(old(db).carts@, user_id),
                    take_one(cart_lines(*old(db), user_id), book_id))
                &&& has_cart(final(db).carts@, user_id)
                &&& cart_lines(*final(db), user_id) == take_one(cart_lines(*old(db), user_id), book_id)
                &&& quantity_of(cart_lines(*final(db), user_id), book_id) == quantity_of(cart_lines(*old(db), user_id), book_id) - 1
                &&& forall|b: i32| b != book_id ==> #[trigger] quantity_of(cart_lines(*final(db), user_id), b)
                    == quantity_of(cart_lines(*old(db), user_id), b)
            },
    {
        let ci = match find_cart(&db.carts, user_id) {
            Some(ci) => ci,
            None => return Err(ServiceError::NotFound),
        };
        proof {
            assert(lines_wf(db.carts@[ci as int].lines@, db.books@));
        }
        let mut lines = copy_lines(&db.carts[ci].lines);
        let ghost old_lines = lines@;
        let li = match find_line(&lines, book_id) {
            Some(li) => li,
            None => return Err(ServiceError::NotFound),
        };
        let q = lines[li].quantity;
        if q > 1 {
            lines.set(li, CartLine { book_id, quantity: q - 1 });
        } else {
            lines.remove(li);
        }
        proof {
            assert(lines@ =~= take_one(old_lines, book_id));
            lemma_take_one_wf(old_lines, db.books@, book_id);
        }
        db.replace_lines(ci, lines);
        Ok(())
    }

    /// Removes the line of book `book_id` from the cart of user `user_id`,
    /// whatever its quantity.
    pub fn remove_book_from_cart(db: &mut Database, user_id: i32, book_id: i32) -> (r: Result<(), ServiceError>)
        requires
            old(db).wf(),
        ensures
            final(db).wf(),
            r is Err <==> !has_cart(old(db).carts@, user_id)
                || !has_line(cart_lines(*old(db), user_id), book_id),
            r is Err ==> r == Err::<(), ServiceError>(ServiceError::NotFound) && *final(db) == *old(db),
            r is Ok ==> {
                &&& only_carts_changed(*old(db), *final(db))
                &&& lines_replaced(old(db).carts@, final(db).carts@, cart_index(old(db).carts@, user_id),
                    drop_line(cart_lines(*old(db), user_id), book_id))
                &&& has_cart(final(db).carts@, user_id)
                &&& cart_lines(*final(db), user_id) == drop_line(cart_lines(*old(db), user_id), book_id)
                &&& !has_line(cart_lines(*final(db), user_id), book_id)
                &&& forall|b: i32| b != book_id ==> #[trigger] quantity_of(cart_lines(*final(db), user_id), b)
                    == quantity_of(cart_lines(*old(db), user_id), b)
            },
    {
        let ci = match find_cart(&db.carts, user_id) {
            Some(ci) => ci,
            None => return Err(ServiceError::NotFound),
        };
        proof {
            assert(lines_wf(db.carts@[ci as int].lines@, db.books@));
        }
        let mut lines = copy_lines(&db.carts[ci].lines);
        let ghost old_lines = lines@;
        let li = match find_line(&lines, book_id) {
            Some(li) => li,
            None => return Err(ServiceError::NotFound),
        };
        lines.remove(li);
        proof {
            assert(lines@ =~= drop_line(old_lines, book_id));
            lemma_drop_line_wf(old_lines, db.books@, book_id);
        }
        db.replace_lines(ci, lines);
        Ok(())
    }

    /// Deletes the cart of user `user_id` with its lines; without a cart nothing changes.
    pub fn delete_cart(db: &mut Database, user_id: i32) -> (r: Result<(), ServiceError>)
        requires
            old(db).wf(),
        ensures
            final(db).wf(),
            r is Ok,
            !has_cart(final(db).carts@, user_id),
            has_cart(old(db).carts@, user_id) ==> final(db).carts@ == old(db).carts@.remove(cart_index(old(db).carts@, user_id)),
            !has_cart(old(db).carts@, user_id) ==> *final(db) == *old(db),
            only_carts_changed(*old(db), *final(db)),
    {
        match find_cart(&db.carts, user_id) {
            Some(ci) => {
                let ghost before = db.carts@;
                let _ = db.carts.remove(ci);
                proof {
                    let c = db.carts@;
                    assert forall|i: int| 0 <= i < c.len() implies lines_wf(#[trigger] c[i].lines@, db.books@) by {
                        let oi = if i < ci { i } else { i + 1 };
                        assert(c[i] == before[oi]);
                        assert(lines_wf(before[oi].lines@, db.books@));
                    }
                    assert forall|i: int| 0 <= i < c.len() implies 0 < #[trigger] c[i].id < db.next_cart_id by {
                        if i < ci {
                            assert(c[i] == before[i]);
                        } else {
                            assert(c[i] == before[i + 1]);
                        }
                    }
                    assert forall|i: int, j: int|
                        0 <= i < c.len() && 0 <= j < c.len() && i != j implies #[trigger] c[i].id != #[trigger] c[j].id by {
                        let oi = if i < ci { i } else { i + 1 };
                        let oj = if j < ci { j } else { j + 1 };
                        assert(c[i] == before[oi]);
                        assert(c[j] == before[oj]);
                    }
                    assert forall|i: int, j: int|
                        0 <= i < c.len() && 0 <= j < c.len() && i != j implies #[trigger] c[i].user_id != #[trigger] c[j].user_id by {
                        let oi = if i < ci { i } else { i + 1 };
                        let oj = if j < ci { j } else { j + 1 };
                        assert(c[i] == before[oi]);
                        assert(c[j] == before[oj]);
                    }
                    if has_cart(c, user_id) {
                        let k = cart_index(c, user_id);
                        let ok = if k < ci { k } else { k + 1 };
                        assert(c[k] == before[ok]);
                        assert(before[ci as int].user_id == user_id);
                    }
                }
                Ok(())
            },
            None => Ok(()),
        }
    }

    /// The sum over the lines of price times quantity.
    pub fn total_price(&self) -> (r: i128)
        ensures
            r as int == total_of(self.books@),
    {
        let mut acc: i128 = 0;
        let mut i: usize = 0;
        let n = self.books.len();
        while i < n
            invariant
                n == self.books@.len(),
                i <= n,
                acc as int == total_of(self.books@.subrange(0, i as int)),
                -(i as int) * 0x8000_0000_0000_0000 <= acc as int <= (i as int) * 0x8000_0000_0000_0000,
            decreases n - i,
        {
            let p = self.books[i].price;
            let q = self.books[i].quantity;
            proof {
                let pi = p as int;
                let qi = q as int;
                assert(-0x8000_0000 <= pi <= 0x7fff_ffff);
                assert(0 <= qi <= 0xffff_ffff);
                assert(-0x8000_0000_0000_0000 <= pi * qi <= 0x8000_0000_0000_0000) by (nonlinear_arith)
                    requires
                        -0x8000_0000 <= pi <= 0x7fff_ffff,
                        0 <= qi <= 0xffff_ffff,
                ;
                assert((i as int) < 0x1_0000_0000_0000_0000);
                assert((i as int + 1) * 0x8000_0000_0000_0000 <= 0x1_0000_0000_0000_0000 * 0x8000_0000_0000_0000);
                assert(self.books@.subrange(0, i + 1).drop_last() =~= self.books@.subrange(0, i as int));
                assert((p as i128) as int == pi);
                assert((q as i128) as int == qi);
            }
            let term: i128 = (p as i128) * (q as i128);
            acc = acc + term;
            i = i + 1;
        }
        proof {
            assert(self.books@.subrange(0, n as int) =~= self.books@);
        }
        acc
    }
}

} // verus!
