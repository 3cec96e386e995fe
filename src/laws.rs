//! Laws of the cart, checkout and token operations, stated over the spec
//! functions that the operations' contracts use.
use vstd::prelude::*;
use crate::book::Book;
use crate::cart::{
    add_one, added_one, cart_index, cart_lines, has_cart, has_line, lemma_add_one_wf, lemma_take_one_wf,
    line_index, lines_wf, quantity_of, take_one, took_one, CartLine,
};
use crate::database::{has_book, Database};
use crate::history::{histories_view, order_of, orders_of, HistoryView};
use crate::redis::Redis;

verus! {

/// The lines after `n` copies of book `bid` are added one at a time.
pub open spec fn add_n(lines: Seq<CartLine>, bid: i32, n: nat) -> Seq<CartLine>
    decreases n,
{
    if n == 0 {
        lines
    } else {
        add_one(add_n(lines, bid, (n - 1) as nat), bid)
    }
}

/// The lines after `n` copies of book `bid` are taken out one at a time.
pub open spec fn take_n(lines: Seq<CartLine>, bid: i32, n: nat) -> Seq<CartLine>
    decreases n,
{
    if n == 0 {
        lines
    } else {
        take_one(take_n(lines, bid, (n - 1) as nat), bid)
    }
}

/// In a well-formed store no two carts belong to the same user.
pub proof fn lemma_one_cart_per_user(db: Database, i: int, j: int)
    requires
        db.wf(),
        0 <= i < db.carts@.len(),
        0 <= j < db.carts@.len(),
        db.carts@[i].user_id == db.carts@[j].user_id,
    ensures
        i == j,
{
}

/// In a well-formed store a cart holds at most one line per book, and every
/// line it holds has a quantity of at least one.
pub proof fn lemma_one_line_per_book(db: Database, user_id: i32, i: int, j: int)
    requires
        db.wf(),
        has_cart(db.carts@, user_id),
        0 <= i < cart_lines(db, user_id).len(),
        0 <= j < cart_lines(db, user_id).len(),
        cart_lines(db, user_id)[i].book_id == cart_lines(db, user_id)[j].book_id,
    ensures
        i == j,
        cart_lines(db, user_id)[i].quantity >= 1,
{
    let c = cart_index(db.carts@, user_id);
    assert(db.carts@[c].user_id == user_id);
    assert(lines_wf(db.carts@[c].lines@, db.books@));
}

/// Adding book `bid` `n` times to lines without it leaves exactly one line for
/// it, with quantity `n`, and every other book as it was.
pub proof fn lemma_add_n_times(lines: Seq<CartLine>, books: Seq<Book>, bid: i32, n: nat)
    requires
        lines_wf(lines, books),
        has_book(books, bid),
        !has_line(lines, bid),
        n <= u32::MAX,
    ensures
        lines_wf(add_n(lines, bid, n), books),
        quantity_of(add_n(lines, bid, n), bid) == n,
        n > 0 ==> has_line(add_n(lines, bid, n), bid),
        forall|b: i32| b != bid ==> #[trigger] quantity_of(add_n(lines, bid, n), b) == quantity_of(lines, b),
    decreases n,
{
    if n > 0 {
        let m = (n - 1) as nat;
        lemma_add_n_times(lines, books, bid, m);
        let prev = add_n(lines, bid, m);
        lemma_add_one_wf(prev, books, bid);
        let next = add_n(lines, bid, n);
        assert(next == add_one(prev, bid));
        if !has_line(next, bid) {
            assert(quantity_of(next, bid) == 0);
        }
    }
}

/// Taking book `bid` out as many times as it was added leaves no line for it,
/// and every other book as it was.
pub proof fn lemma_add_then_take_n_times(lines: Seq<CartLine>, books: Seq<Book>, bid: i32, n: nat)
    requires
        lines_wf(lines, books),
        has_book(books, bid),
        !has_line(lines, bid),
        n <= u32::MAX,
    ensures
        lines_wf(take_n(add_n(lines, bid, n), bid, n), books),
        !has_line(take_n(add_n(lines, bid, n), bid, n), bid),
        forall|b: i32| b != bid ==> #[trigger] quantity_of(take_n(add_n(lines, bid, n), bid, n), b) == quantity_of(lines, b),
{
    lemma_add_n_times(lines, books, bid, n);
    let full = add_n(lines, bid, n);
    lemma_take_k_times(full, books, bid, n, n);
    let res = take_n(full, bid, n);
    if has_line(res, bid) {
        let i = crate::cart::line_index(res, bid);
        assert(res[i].book_id == bid);
        assert(res[i].quantity >= 1);
    }
}

/// Taking book `bid` out `k` times from lines that hold `q >= k` copies leaves
/// `q - k` copies, and every other book as it was.
pub proof fn lemma_take_k_times(lines: Seq<CartLine>, books: Seq<Book>, bid: i32, q: nat, k: nat)
    requires
        lines_wf(lines, books),
        quantity_of(lines, bid) == q,
        k <= q,
    ensures
        lines_wf(take_n(lines, bid, k), books),
        quantity_of(take_n(lines, bid, k), bid) == q - k,
        forall|b: i32| b != bid ==> #[trigger] quantity_of(take_n(lines, bid, k), b) == quantity_of(lines, b),
    decreases k,
{
    if k > 0 {
        let m = (k - 1) as nat;
        lemma_take_k_times(lines, books, bid, q, m);
        let prev = take_n(lines, bid, m);
        lemma_take_one_wf(prev, books, bid);
        assert(take_n(lines, bid, k) == take_one(prev, bid));
    }
}

/// In a well-formed store, a user's cart holds a line for a book exactly when
/// it holds at least one copy of it.
pub proof fn lemma_line_iff_copies(db: Database, user_id: i32, bid: i32)
    requires
        db.wf(),
        has_cart(db.carts@, user_id),
    ensures
        has_line(cart_lines(db, user_id), bid) <==> quantity_of(cart_lines(db, user_id), bid) > 0,
{
    let c = cart_index(db.carts@, user_id);
    assert(db.carts@[c].user_id == user_id);
    let ls = db.carts@[c].lines@;
    assert(lines_wf(ls, db.books@));
    if has_line(ls, bid) {
        assert(ls[line_index(ls, bid)].quantity >= 1);
    }
}

/// Calls of `increment_book_quantity(user_id, bid)` that all succeed, starting
/// from a cart without `bid`: after `n` of them the cart holds exactly one line
/// for `bid`, with quantity `n`, and every other book as before. `states[i]` is
/// the store before call `i`.
pub proof fn lemma_n_increments(states: Seq<Database>, user_id: i32, bid: i32)
    requires
        states.len() >= 1,
        states[0].wf(),
        has_cart(states[0].carts@, user_id),
        !has_line(cart_lines(states[0], user_id), bid),
        forall|i: int| 0 <= i < states.len() - 1 ==> added_one(#[trigger] states[i], states[i + 1], user_id, bid),
    ensures
        states.last().wf(),
        has_cart(states.last().carts@, user_id),
        quantity_of(cart_lines(states.last(), user_id), bid) == states.len() - 1,
        states.len() > 1 ==> has_line(cart_lines(states.last(), user_id), bid),
        forall|b: i32| b != bid ==> #[trigger] quantity_of(cart_lines(states.last(), user_id), b)
            == quantity_of(cart_lines(states[0], user_id), b),
    decreases states.len(),
{
    if states.len() == 1 {
        lemma_line_iff_copies(states[0], user_id, bid);
    } else {
        let prev = states.drop_last();
        assert forall|i: int| 0 <= i < prev.len() - 1 implies added_one(#[trigger] prev[i], prev[i + 1], user_id, bid) by {
            assert(prev[i] == states[i] && prev[i + 1] == states[i + 1]);
        }
        lemma_n_increments(prev, user_id, bid);
        let k = states.len() - 2;
        assert(prev.last() == states[k]);
        assert(added_one(states[k], states[k + 1], user_id, bid));
        lemma_line_iff_copies(states.last(), user_id, bid);
    }
}

/// The quantities along `n` successful increments of `bid` followed by `n`
/// successful decrements, at step `j`.
proof fn lemma_up_then_down_at(states: Seq<Database>, user_id: i32, bid: i32, n: int, j: int)
    requires
        n >= 0,
        states.len() == 2 * n + 1,
        0 <= j <= 2 * n,
        states[0].wf(),
        has_cart(states[0].carts@, user_id),
        !has_line(cart_lines(states[0], user_id), bid),
        forall|i: int| 0 <= i < n ==> added_one(#[trigger] states[i], states[i + 1], user_id, bid),
        forall|i: int| n <= i < 2 * n ==> took_one(#[trigger] states[i], states[i + 1], user_id, bid),
    ensures
        states[j].wf(),
        has_cart(states[j].carts@, user_id),
        quantity_of(cart_lines(states[j], user_id), bid) == if j <= n { j } else { 2 * n - j },
        forall|b: i32| b != bid ==> #[trigger] quantity_of(cart_lines(states[j], user_id), b)
            == quantity_of(cart_lines(states[0], user_id), b),
    decreases j,
{
    if j == 0 {
        lemma_line_iff_copies(states[0], user_id, bid);
    } else {
        lemma_up_then_down_at(states, user_id, bid, n, j - 1);
        if j - 1 < n {
            assert(added_one(states[j - 1], states[j], user_id, bid));
        } else {
            assert(took_one(states[j - 1], states[j], user_id, bid));
        }
    }
}

/// `n` successful increments of `bid` on a cart without it, then `n`
/// decrements: each decrement finds a line for `bid` (so it succeeds), and
/// afterwards the cart has no line for `bid` and every other book as before.
/// `states[i]` is the store before call `i`.
pub proof fn lemma_n_increments_then_n_decrements(states: Seq<Database>, user_id: i32, bid: i32, n: int)
    requires
        n >= 0,
        states.len() == 2 * n + 1,
        states[0].wf(),
        has_cart(states[0].carts@, user_id),
        !has_line(cart_lines(states[0], user_id), bid),
        forall|i: int| 0 <= i < n ==> added_one(#[trigger] states[i], states[i + 1], user_id, bid),
        forall|i: int| n <= i < 2 * n ==> took_one(#[trigger] states[i], states[i + 1], user_id, bid),
    ensures
        forall|i: int| n <= i < 2 * n ==> has_line(cart_lines(#[trigger] states[i], user_id), bid),
        !has_line(cart_lines(states[2 * n], user_id), bid),
        forall|b: i32| b != bid ==> #[trigger] quantity_of(cart_lines(states[2 * n], user_id), b)
            == quantity_of(cart_lines(states[0], user_id), b),
{
    assert forall|i: int| n <= i < 2 * n implies has_line(cart_lines(#[trigger] states[i], user_id), bid) by {
        lemma_up_then_down_at(states, user_id, bid, n, i);
        lemma_line_iff_copies(states[i], user_id, bid);
    }
    lemma_up_then_down_at(states, user_id, bid, n, 2 * n);
    lemma_line_iff_copies(states[2 * n], user_id, bid);
}

/// Checkout records a copy of the books: once an order is written, the orders
/// of that user hold exactly the snapshot taken at checkout for as long as the
/// order table is left alone, whatever happens to the catalog.
pub proof fn lemma_snapshot_isolation(
    before: Database,
    after: Database,
    later: Database,
    user_id: i32,
    status: Seq<char>,
    purchase_date: i32,
    h: HistoryView,
)
    requires
        h == order_of(before, user_id, status, purchase_date),
        histories_view(after.histories@) == histories_view(before.histories@).push(h),
        later.histories@ == after.histories@,
    ensures
        orders_of(histories_view(later.histories@), user_id).contains(order_of(before, user_id, status, purchase_date)),
{
    reveal(Seq::filter);
    let hv = histories_view(later.histories@);
    let prior = histories_view(before.histories@);
    assert(hv == prior.push(h));
    assert(hv.drop_last() =~= prior);
    let o = orders_of(hv, user_id);
    assert(o == orders_of(prior, user_id).push(h));
    assert(o[o.len() - 1] == h);
}

/// A token serves once: after it has been consumed, consuming it again finds nothing.
pub proof fn lemma_token_single_use(
    s0: Redis,
    s1: Redis,
    s2: Redis,
    token: Seq<char>,
    first_now: u64,
    second_now: u64,
    first: Option<u32>,
    second: Option<u32>,
)
    requires
        s0.wf(),
        Redis::consumed(s0, s1, token, first_now, first),
        Redis::consumed(s1, s2, token, second_now, second),
    ensures
        second is None,
{
}

} // verus!
