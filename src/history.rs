//! Orders: the immutable record that checkout makes of a cart.
use vstd::prelude::*;
use crate::book::Book;
use crate::cart::{cart_books_of, cart_index, cart_lines, find_cart, has_cart, lines_replaced, lines_wf, total_of, Cart, CartLine};
use crate::database::{book_index, has_book, Database};
use crate::error::ServiceError;

verus! {

/// Where an order stands.
#[derive(Debug, Clone, Copy, PartialEq, Eq, Structural)]
pub enum TransactionHistoryStatus {
    InProgress,
    Shipping,
    Delivered,
}

/// One line of an order: the book as it was at checkout, and the quantity.
pub struct TransactionBooks {
    pub id: i32,
    pub title: String,
    pub author: String,
    pub price: i32,
    pub description: String,
    pub image_src: Option<String>,
    pub published_date: String,
    pub isbn: String,
    pub quantity: u32,
}

/// An order. `price` is the total; `purchase_date` is a day number.
pub struct TransactionHistory {
    pub id: u64,
    pub user_id: i32,
    pub status: TransactionHistoryStatus,
    pub books: Vec<TransactionBooks>,
    pub price: i128,
    pub purchase_date: i32,
}

/// The mathematical value of an order.
pub struct HistoryView {
    pub id: u64,
    pub user_id: i32,
    pub status: TransactionHistoryStatus,
    pub books: Seq<TransactionBooks>,
    pub price: int,
    pub purchase_date: i32,
}

impl View for TransactionHistory {
    type V = HistoryView;

    open spec fn view(&self) -> HistoryView {
        HistoryView {
            id: self.id,
            user_id: self.user_id,
            status: self.status,
            books: self.books@,
            price: self.price as int,
            purchase_date: self.purchase_date,
        }
    }
}

/// The status that a name stands for; an unknown name stands for `InProgress`.
pub open spec fn status_of(name: Seq<char>) -> TransactionHistoryStatus {
    if name == "Delivered"@ {
        TransactionHistoryStatus::Delivered
    } else if name == "Shipping"@ {
        TransactionHistoryStatus::Shipping
    } else {
        TransactionHistoryStatus::InProgress
    }
}

impl TransactionHistoryStatus {
    /// The status named `name`; an unknown name gives `InProgress`.
    pub fn from_name(name: &str) -> (r: TransactionHistoryStatus)
        ensures
            r == status_of(name@),
    {
        let n = name.to_owned();
        if n == "Delivered".to_owned() {
            TransactionHistoryStatus::Delivered
        } else if n == "Shipping".to_owned() {
            TransactionHistoryStatus::Shipping
        } else {
            TransactionHistoryStatus::InProgress
        }
    }
}

/// The order line that checkout records for a cart line: the book's fields as
/// they are at that moment, and the line's quantity.
pub open spec fn snapshot_of(books: Seq<Book>, line: CartLine) -> TransactionBooks {
    let b = books[book_index(books, line.book_id)];
    TransactionBooks {
        id: line.book_id,
        title: b.title,
        author: b.author,
        price: b.price,
        description: b.description,
        image_src: b.image_src,
        published_date: b.published_date,
        isbn: b.isbn,
        quantity: line.quantity,
    }
}

/// The order lines recorded for cart lines, in the same order.
pub open spec fn snapshots_of(books: Seq<Book>, lines: Seq<CartLine>) -> Seq<TransactionBooks> {
    lines.map_values(|l: CartLine| snapshot_of(books, l))
}

/// The order that checkout makes from the cart of `uid` in `db`.
pub open spec fn order_of(db: Database, uid: i32, status: Seq<char>, purchase_date: i32) -> HistoryView {
    HistoryView {
        id: db.next_history_id,
        user_id: uid,
        status: status_of(status),
        books: snapshots_of(db.books@, cart_lines(db, uid)),
        price: total_of(cart_books_of(db.books@, cart_lines(db, uid))),
        purchase_date,
    }
}

/// The values of the stored orders.
pub open spec fn histories_view(hs: Seq<TransactionHistory>) -> Seq<HistoryView> {
    hs.map_values(|h: TransactionHistory| h@)
}

/// The orders of `uid`, in the order they were made.
pub open spec fn orders_of(hs: Seq<HistoryView>, uid: i32) -> Seq<HistoryView> {
    hs.filter(|h: HistoryView| h.user_id == uid)
}

/// Whether the orders are sorted by purchase date, latest first.
pub open spec fn newest_first(hs: Seq<HistoryView>) -> bool {
    forall|a: int, b: int| 0 <= a < b < hs.len() ==> #[trigger] hs[a].purchase_date >= #[trigger] hs[b].purchase_date
}

impl TransactionBooks {
    /// A field-by-field copy.
    pub fn duplicate(&self) -> (r: TransactionBooks)
        ensures
            r == *self,
    {
        TransactionBooks {
            id: self.id,
            title: self.title.clone(),
            author: self.author.clone(),
            price: self.price,
            description: self.description.clone(),
            image_src: crate::book::copy_opt_string(&self.image_src),
            published_date: self.published_date.clone(),
            isbn: self.isbn.clone(),
            quantity: self.quantity,
        }
    }
}

impl TransactionHistory {
    /// A copy with the same value.
    pub fn duplicate(&self) -> (r: TransactionHistory)
        ensures
            r@ == self@,
    {
        let mut books: Vec<TransactionBooks> = Vec::new();
        let mut i: usize = 0;
        while i < self.books.len()
            invariant
                i <= self.books@.len(),
                books@ == self.books@.subrange(0, i as int),
            decreases self.books@.len() - i,
        {
            books.push(self.books[i].duplicate());
            proof {
                assert(books@ =~= self.books@.subrange(0, i + 1));
            }
            i = i + 1;
        }
        proof {
            assert(books@ =~= self.books@);
        }
        TransactionHistory {
            id: self.id,
            user_id: self.user_id,
            status: self.status,
            books,
            price: self.price,
            purchase_date: self.purchase_date,
        }
    }

    /// Checkout: turns the cart of `user_id` into an order with status `status`
    /// dated `purchase_date`, and empties the cart. The order's lines copy the
    /// books as they are now, and its price is the cart's total. On an error
    /// nothing is written.
    pub fn create(db: &mut Database, user_id: i32, status: &str, purchase_date: i32) -> (r: Result<TransactionHistory, ServiceError>)
        requires
            old(db).wf(),
        ensures
            r matches Err(e) ==> (e == ServiceError::NotFound || e == ServiceError::EmptyCart || e == ServiceError::Exhausted),
            final(db).wf(),
            r == Err::<TransactionHistory, ServiceError>(ServiceError::NotFound) <==> !has_cart(old(db).carts@, user_id),
            r == Err::<TransactionHistory, ServiceError>(ServiceError::EmptyCart) <==> has_cart(old(db).carts@, user_id)
                && cart_lines(*old(db), user_id).len() == 0,
            r == Err::<TransactionHistory, ServiceError>(ServiceError::Exhausted) <==> has_cart(old(db).carts@, user_id)
                && cart_lines(*old(db), user_id).len() > 0 && old(db).next_history_id == u64::MAX,
            r is Err ==> *final(db) == *old(db),
            r matches Ok(h) ==> {
                &&& h@ == order_of(*old(db), user_id, status@, purchase_date)
                &&& histories_view(final(db).histories@) == histories_view(old(db).histories@).push(h@)
                &&& final(db).next_history_id == old(db).next_history_id + 1
                &&& lines_replaced(old(db).carts@, final(db).carts@, cart_index(old(db).carts@, user_id), Seq::empty())
                &&& has_cart(final(db).carts@, user_id)
                &&& cart_lines(*final(db), user_id).len() == 0
                &&& final(db).users == old(db).users
                &&& final(db).profiles == old(db).profiles
                &&& final(db).books == old(db).books
                &&& final(db).redis == old(db).redis
                &&& final(db).next_user_id == old(db).next_user_id
                &&& final(db).next_book_id == old(db).next_book_id
                &&& final(db).next_cart_id == old(db).next_cart_id
            },
    {
        let ci = match find_cart(&db.carts, user_id) {
            Some(ci) => ci,
            None => return Err(ServiceError::NotFound),
        };
        if db.carts[ci].lines.len() == 0 {
            return Err(ServiceError::EmptyCart);
        }
        if db.next_history_id == u64::MAX {
            return Err(ServiceError::Exhausted);
        }
        let cart = match Cart::get_cart(db, user_id) {
            Ok(c) => c,
            Err(e) => return Err(e),
        };
        let price = cart.total_price();
        let lines = &db.carts[ci].lines;
        let ghost want = snapshots_of(db.books@, lines@);
        proof {
            assert(lines_wf(db.carts@[ci as int].lines@, db.books@));
        }
        let mut books: Vec<TransactionBooks> = Vec::new();
        let mut i: usize = 0;
        while i < lines.len()
            invariant
                db.wf(),
                ci < db.carts@.len(),
                lines@ == db.carts@[ci as int].lines@,
                lines_wf(lines@, db.books@),
                want == snapshots_of(db.books@, lines@),
                i <= lines@.len(),
                books@ == want.subrange(0, i as int),
            decreases lines@.len() - i,
        {
            let line = lines[i];
            proof {
                assert(has_book(db.books@, lines@[i as int].book_id));
            }
            let bi = match db.find_book(line.book_id) {
                Some(bi) => bi,
                None => {
                    proof {
                        assert(false);
                    }
                    return Err(ServiceError::NotFound);
                },
            };
            let b = &db.books[bi];
            books.push(TransactionBooks {
                id: line.book_id,
                title: b.title.clone(),
                author: b.author.clone(),
                price: b.price,
                description: b.description.clone(),
                image_src: crate::book::copy_opt_string(&b.image_src),
                published_date: b.published_date.clone(),
                isbn: b.isbn.clone(),
                quantity: line.quantity,
            });
            proof {
                assert(books@ =~= want.subrange(0, i + 1));
            }
            i = i + 1;
        }
        proof {
            assert(books@ =~= want);
        }
        let ghost before = *db;
        let record = TransactionHistory {
            id: db.next_history_id,
            user_id,
            status: TransactionHistoryStatus::from_name(status),
            books,
            price,
            purchase_date,
        };
        let result = record.duplicate();
        db.histories.push(record);
        db.next_history_id = db.next_history_id + 1;
        proof {
            assert(histories_view(db.histories@) =~= histories_view(before.histories@).push(result@));
            assert(lines_wf(Seq::<CartLine>::empty(), db.books@));
        }
        db.replace_lines(ci, Vec::new());
        Ok(result)
    }

    /// The orders of user `user_id`, each with its lines, sorted by purchase
    /// date with the latest first.
    pub fn get_all(db: &Database, user_id: i32) -> (r: Vec<TransactionHistory>)
        ensures
            newest_first(histories_view(r@)),
            histories_view(r@).to_multiset() == orders_of(histories_view(db.histories@), user_id).to_multiset(),
    {
        let ghost hv = histories_view(db.histories@);
        let mut out: Vec<TransactionHistory> = Vec::new();
        let mut i: usize = 0;
        proof {
            reveal(Seq::filter);
            assert(histories_view(out@) =~= Seq::<HistoryView>::empty());
            assert(orders_of(hv.subrange(0, 0), user_id) =~= Seq::<HistoryView>::empty());
        }
        while i < db.histories.len()
            invariant
                hv == histories_view(db.histories@),
                i <= db.histories@.len(),
                newest_first(histories_view(out@)),
                histories_view(out@).to_multiset() == orders_of(hv.subrange(0, i as int), user_id).to_multiset(),
            decreases db.histories@.len() - i,
        {
            proof {
                reveal(Seq::filter);
                assert(hv.subrange(0, i + 1).drop_last() =~= hv.subrange(0, i as int));
                assert(hv.subrange(0, i + 1).last() == db.histories@[i as int]@);
            }
            if db.histories[i].user_id == user_id {
                let h = db.histories[i].duplicate();
                let date = h.purchase_date;
                let mut p: usize = 0;
                while p < out.len() && out[p].purchase_date > date
                    invariant
                        p <= out@.len(),
                        forall|q: int| 0 <= q < p ==> #[trigger] out@[q].purchase_date > date,
                    decreases out@.len() - p,
                {
                    p = p + 1;
                }
                let ghost prev = histories_view(out@);
                out.insert(p, h);
                proof {
                    let now_v = histories_view(out@);
                    assert(now_v =~= prev.insert(p as int, h@));
                    assert forall|a: int, b: int| 0 <= a < b < now_v.len() implies
                        #[trigger] now_v[a].purchase_date >= #[trigger] now_v[b].purchase_date by {
                        if p < prev.len() {
                            assert(prev[p as int].purchase_date <= date);
                        }
                        if a < p && b == p {
                            assert(prev[a].purchase_date > date);
                        } else if a < p && b > p {
                            assert(prev[a].purchase_date > date);
                            assert(now_v[b] == prev[b - 1]);
                        } else if a == p && b > p {
                            assert(now_v[b] == prev[b - 1]);
                            assert(prev[p as int].purchase_date >= prev[b - 1].purchase_date || b - 1 == p);
                        } else if a > p {
                            assert(now_v[a] == prev[a - 1]);
                            assert(now_v[b] == prev[b - 1]);
                        }
                    }
                    let before_o = orders_of(hv.subrange(0, i as int), user_id);
                    assert(orders_of(hv.subrange(0, i + 1), user_id) =~= before_o.push(h@));
                    vstd::seq_lib::to_multiset_insert(prev, p as int, h@);
                    vstd::seq_lib::to_multiset_build(before_o, h@);
                }
            } else {
                proof {
                    assert(orders_of(hv.subrange(0, i + 1), user_id) =~= orders_of(hv.subrange(0, i as int), user_id));
                }
            }
            i = i + 1;
        }
        proof {
            assert(hv.subrange(0, db.histories@.len() as int) =~= hv);
        }
        out
    }
}

} // verus!
