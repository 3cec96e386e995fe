use bookstore::book::Book;
use bookstore::cart::Cart;
use bookstore::database::Database;
use bookstore::error::ServiceError;
use bookstore::history::{TransactionHistory, TransactionHistoryStatus};
use bookstore::user::{User, UserGroup};

fn user(email: &str, username: &str, password: &str) -> User {
    User {
        id: None,
        email: Some(email.to_string()),
        username: Some(username.to_string()),
        password: Some(password.to_string()),
        group: UserGroup::Unassigned,
    }
}

fn book(title: &str, isbn: &str, price: i32) -> Book {
    Book {
        id: None,
        title: title.to_string(),
        author: "Frank Herbert".to_string(),
        price,
        description: "A desert planet".to_string(),
        image_src: Some("dune.png".to_string()),
        published_date: "1965-08-01".to_string(),
        isbn: isbn.to_string(),
    }
}

fn store_with_alice() -> (Database, i32) {
    let mut db = Database::new();
    let u = User::new(&mut db, user("a@x.com", "alice", "pw123")).unwrap();
    let id = u.id.unwrap();
    (db, id)
}

#[test]
fn register_then_same_email_conflicts() {
    let mut db = Database::new();
    let first = User::new(&mut db, user("a@x.com", "alice", "pw123"));
    assert!(first.is_ok());
    let u = first.unwrap();
    assert_eq!(u.id, Some(1));
    assert_eq!(u.group, UserGroup::User);
    assert_eq!(u.email.as_deref(), Some("a@x.com"));
    let second = User::new(&mut db, user("a@x.com", "alice2", "pw123"));
    assert_eq!(second.err(), Some(ServiceError::Conflict));
    assert_eq!(db.users.len(), 1);
}

#[test]
fn register_same_username_conflicts() {
    let mut db = Database::new();
    User::new(&mut db, user("a@x.com", "alice", "pw123")).unwrap();
    let second = User::new(&mut db, user("b@x.com", "alice", "pw"));
    assert_eq!(second.err(), Some(ServiceError::Conflict));
}

#[test]
fn register_missing_field_is_validation_error() {
    let mut db = Database::new();
    let mut u = user("a@x.com", "alice", "pw123");
    u.password = None;
    assert_eq!(User::new(&mut db, u).err(), Some(ServiceError::Validation));
    let empty = user("", "alice", "pw123");
    assert_eq!(User::new(&mut db, empty).err(), Some(ServiceError::Validation));
    assert!(db.users.is_empty());
}

#[test]
fn register_stores_hash_and_empty_profile() {
    let (db, id) = store_with_alice();
    assert!(bookstore::password::verify_password("pw123", &db.users[0].password));
    assert_ne!(db.users[0].password, "pw123");
    let info = User::get_info(&db, id).unwrap();
    assert_eq!(info.username, "alice");
    assert_eq!(info.email, "a@x.com");
    assert_eq!(info.first_name, "");
}

#[test]
fn login_with_password_outcomes() {
    let (db, id) = store_with_alice();
    let ok = User::login_with_password(&db, user("", "alice", "pw123")).unwrap();
    assert_eq!(ok.id, Some(id));
    let wrong = User::login_with_password(&db, user("", "alice", "nope"));
    assert_eq!(wrong.err(), Some(ServiceError::InvalidCredentials));
    let unknown = User::login_with_password(&db, user("", "bob", "pw123"));
    assert_eq!(unknown.err(), Some(ServiceError::NotFound));
    let mut missing = user("", "alice", "pw123");
    missing.password = None;
    assert_eq!(User::login_with_password(&db, missing).err(), Some(ServiceError::Validation));
}

#[test]
fn create_book_then_same_isbn_conflicts() {
    let mut db = Database::new();
    let id = Book::create(&mut db, book("Dune", "123", 500));
    assert_eq!(id, Ok(1));
    let again = Book::create(&mut db, book("Dune Messiah", "123", 600));
    assert_eq!(again, Err(ServiceError::Conflict));
    let same_title = Book::create(&mut db, book("Dune", "456", 600));
    assert_eq!(same_title, Err(ServiceError::Conflict));
    assert_eq!(db.books.len(), 1);
}

#[test]
fn create_book_missing_image_is_validation_error() {
    let mut db = Database::new();
    let mut b = book("Dune", "123", 500);
    b.image_src = None;
    assert_eq!(Book::create(&mut db, b), Err(ServiceError::Validation));
    let mut b2 = book("Dune", "123", 500);
    b2.isbn = String::new();
    assert_eq!(Book::create(&mut db, b2), Err(ServiceError::Validation));
}

#[test]
fn get_book_by_id_and_all() {
    let mut db = Database::new();
    Book::create(&mut db, book("Dune", "123", 500)).unwrap();
    Book::create(&mut db, book("Emma", "456", 300)).unwrap();
    let b = Book::get_by_id(&db, 2).unwrap();
    assert_eq!(b.title, "Emma");
    assert_eq!(b.id, Some(2));
    assert_eq!(Book::get_by_id(&db, 9).err(), Some(ServiceError::NotFound));
    let all = Book::get_all(&db);
    assert_eq!(all.len(), 2);
    assert_eq!(all[0].title, "Dune");
}

#[test]
fn search_matches_with_and_without_spaces() {
    let mut db = Database::new();
    let mut hobbit = book("The Hobbit", "1", 100);
    hobbit.author = "J. R. R. Tolkien".to_string();
    Book::create(&mut db, hobbit).unwrap();
    Book::create(&mut db, book("Dune", "2", 100)).unwrap();
    let a = Book::filter_by(&db, "the hobbit");
    assert_eq!(a.len(), 1);
    assert_eq!(a[0].title, "The Hobbit");
    let b = Book::filter_by(&db, "thehobbit");
    assert_eq!(b.len(), 1);
    let c = Book::filter_by(&db, "TOLKIEN");
    assert_eq!(c.len(), 1);
    let d = Book::filter_by(&db, "herbert");
    assert_eq!(d.len(), 1);
    assert_eq!(d[0].title, "Dune");
    assert_eq!(Book::filter_by(&db, "zzz").len(), 0);
    assert_eq!(Book::filter_by(&db, "").len(), 2);
}

#[test]
fn second_cart_for_user_conflicts() {
    let (mut db, id) = store_with_alice();
    assert_eq!(Cart::create(&mut db, id), Ok(()));
    assert_eq!(Cart::create(&mut db, id), Err(ServiceError::Conflict));
    assert_eq!(db.carts.len(), 1);
    assert_eq!(Cart::create(&mut db, 77), Err(ServiceError::NotFound));
}

#[test]
fn get_cart_without_cart_is_not_found() {
    let (db, id) = store_with_alice();
    assert_eq!(Cart::get_cart(&db, id).err(), Some(ServiceError::NotFound));
}

#[test]
fn add_line_twice_gives_one_line_of_two() {
    let (mut db, id) = store_with_alice();
    let dune = Book::create(&mut db, book("Dune", "123", 500)).unwrap();
    Cart::create(&mut db, id).unwrap();
    Cart::increment_book_quantity(&mut db, id, dune).unwrap();
    Cart::increment_book_quantity(&mut db, id, dune).unwrap();
    let cart = Cart::get_cart(&db, id).unwrap();
    assert_eq!(cart.books.len(), 1);
    assert_eq!(cart.books[0].quantity, 2);
    assert_eq!(cart.books[0].title, "Dune");
    assert_eq!(cart.total_price(), 2 * 500);
}

#[test]
fn distinct_books_get_distinct_lines() {
    let (mut db, id) = store_with_alice();
    let a = Book::create(&mut db, book("Dune", "1", 500)).unwrap();
    let b = Book::create(&mut db, book("Emma", "2", 250)).unwrap();
    Cart::create(&mut db, id).unwrap();
    for _ in 0..3 {
        Cart::increment_book_quantity(&mut db, id, a).unwrap();
        Cart::increment_book_quantity(&mut db, id, b).unwrap();
    }
    let cart = Cart::get_cart(&db, id).unwrap();
    assert_eq!(cart.books.len(), 2);
    assert_ne!(cart.books[0].id, cart.books[1].id);
    assert_eq!(cart.total_price(), 3 * 500 + 3 * 250);
}

#[test]
fn add_line_n_times_gives_quantity_n() {
    let (mut db, id) = store_with_alice();
    let dune = Book::create(&mut db, book("Dune", "123", 500)).unwrap();
    Cart::create(&mut db, id).unwrap();
    for _ in 0..7 {
        Cart::increment_book_quantity(&mut db, id, dune).unwrap();
    }
    let cart = Cart::get_cart(&db, id).unwrap();
    assert_eq!(cart.books.len(), 1);
    assert_eq!(cart.books[0].quantity, 7);
}

#[test]
fn add_then_decrement_n_times_leaves_no_line() {
    let (mut db, id) = store_with_alice();
    let dune = Book::create(&mut db, book("Dune", "123", 500)).unwrap();
    let emma = Book::create(&mut db, book("Emma", "456", 100)).unwrap();
    Cart::create(&mut db, id).unwrap();
    Cart::increment_book_quantity(&mut db, id, emma).unwrap();
    for _ in 0..4 {
        Cart::increment_book_quantity(&mut db, id, dune).unwrap();
    }
    for _ in 0..4 {
        Cart::decrease_book_quantity(&mut db, id, dune).unwrap();
    }
    let cart = Cart::get_cart(&db, id).unwrap();
    assert_eq!(cart.books.len(), 1);
    assert_eq!(cart.books[0].id, Some(emma));
    assert_eq!(cart.books[0].quantity, 1);
    assert_eq!(Cart::decrease_book_quantity(&mut db, id, dune), Err(ServiceError::NotFound));
}

#[test]
fn add_line_errors() {
    let (mut db, id) = store_with_alice();
    let dune = Book::create(&mut db, book("Dune", "123", 500)).unwrap();
    assert_eq!(Cart::increment_book_quantity(&mut db, id, dune), Err(ServiceError::NotFound));
    Cart::create(&mut db, id).unwrap();
    assert_eq!(Cart::increment_book_quantity(&mut db, id, 99), Err(ServiceError::NotFound));
}

#[test]
fn remove_line_outright() {
    let (mut db, id) = store_with_alice();
    let dune = Book::create(&mut db, book("Dune", "123", 500)).unwrap();
    Cart::create(&mut db, id).unwrap();
    for _ in 0..3 {
        Cart::increment_book_quantity(&mut db, id, dune).unwrap();
    }
    assert_eq!(Cart::remove_book_from_cart(&mut db, id, dune), Ok(()));
    assert!(Cart::get_cart(&db, id).unwrap().books.is_empty());
    assert_eq!(Cart::remove_book_from_cart(&mut db, id, dune), Err(ServiceError::NotFound));
}

#[test]
fn delete_cart_is_idempotent() {
    let (mut db, id) = store_with_alice();
    Cart::create(&mut db, id).unwrap();
    assert_eq!(Cart::delete_cart(&mut db, id), Ok(()));
    assert!(db.carts.is_empty());
    assert_eq!(Cart::delete_cart(&mut db, id), Ok(()));
    assert_eq!(Cart::create(&mut db, id), Ok(()));
}

#[test]
fn checkout_empty_cart_fails_without_history() {
    let (mut db, id) = store_with_alice();
    Cart::create(&mut db, id).unwrap();
    let r = TransactionHistory::create(&mut db, id, "InProgress", 739000);
    assert_eq!(r.err(), Some(ServiceError::EmptyCart));
    assert!(db.histories.is_empty());
    assert!(TransactionHistory::get_all(&db, id).is_empty());
}

#[test]
fn checkout_without_cart_is_not_found() {
    let (mut db, id) = store_with_alice();
    let r = TransactionHistory::create(&mut db, id, "InProgress", 739000);
    assert_eq!(r.err(), Some(ServiceError::NotFound));
    assert!(db.histories.is_empty());
}

#[test]
fn checkout_one_line_two_copies() {
    let (mut db, id) = store_with_alice();
    let dune = Book::create(&mut db, book("Dune", "123", 500)).unwrap();
    Cart::create(&mut db, id).unwrap();
    Cart::increment_book_quantity(&mut db, id, dune).unwrap();
    Cart::increment_book_quantity(&mut db, id, dune).unwrap();
    let h = TransactionHistory::create(&mut db, id, "InProgress", 739000).unwrap();
    assert_eq!(h.price, 1000);
    assert_eq!(h.user_id, id);
    assert_eq!(h.status, TransactionHistoryStatus::InProgress);
    assert_eq!(h.purchase_date, 739000);
    assert_eq!(h.books.len(), 1);
    assert_eq!(h.books[0].quantity, 2);
    assert_eq!(h.books[0].isbn, "123");
    let cart = Cart::get_cart(&db, id).unwrap();
    assert_eq!(cart.books.len(), 0);
    assert_eq!(db.histories.len(), 1);
}

#[test]
fn checkout_writes_order_and_clears_cart_together() {
    let (mut db, id) = store_with_alice();
    let dune = Book::create(&mut db, book("Dune", "123", 500)).unwrap();
    Cart::create(&mut db, id).unwrap();
    Cart::increment_book_quantity(&mut db, id, dune).unwrap();
    let h = TransactionHistory::create(&mut db, id, "Shipping", 1).unwrap();
    assert_eq!(h.status, TransactionHistoryStatus::Shipping);
    assert_eq!(db.histories.len(), 1);
    assert!(Cart::get_cart(&db, id).unwrap().books.is_empty());
    let again = TransactionHistory::create(&mut db, id, "Shipping", 2);
    assert_eq!(again.err(), Some(ServiceError::EmptyCart));
    assert_eq!(db.histories.len(), 1);
}

#[test]
fn order_keeps_book_snapshot_after_catalog_change() {
    let (mut db, id) = store_with_alice();
    let dune = Book::create(&mut db, book("Dune", "123", 500)).unwrap();
    Cart::create(&mut db, id).unwrap();
    Cart::increment_book_quantity(&mut db, id, dune).unwrap();
    TransactionHistory::create(&mut db, id, "InProgress", 5).unwrap();
    db.books[0].price = 9999;
    db.books[0].title = "Renamed".to_string();
    db.books[0].isbn = "999".to_string();
    let orders = TransactionHistory::get_all(&db, id);
    assert_eq!(orders.len(), 1);
    assert_eq!(orders[0].books[0].price, 500);
    assert_eq!(orders[0].books[0].title, "Dune");
    assert_eq!(orders[0].books[0].isbn, "123");
    assert_eq!(orders[0].price, 500);
}

#[test]
fn history_is_newest_first_and_per_user() {
    let (mut db, id) = store_with_alice();
    let bob = User::new(&mut db, user("b@x.com", "bob", "pw")).unwrap().id.unwrap();
    let dune = Book::create(&mut db, book("Dune", "123", 500)).unwrap();
    Cart::create(&mut db, id).unwrap();
    Cart::create(&mut db, bob).unwrap();
    Cart::increment_book_quantity(&mut db, id, dune).unwrap();
    TransactionHistory::create(&mut db, id, "InProgress", 1).unwrap();
    Cart::increment_book_quantity(&mut db, bob, dune).unwrap();
    TransactionHistory::create(&mut db, bob, "InProgress", 2).unwrap();
    Cart::increment_book_quantity(&mut db, id, dune).unwrap();
    Cart::increment_book_quantity(&mut db, id, dune).unwrap();
    TransactionHistory::create(&mut db, id, "Delivered", 3).unwrap();
    let orders = TransactionHistory::get_all(&db, id);
    assert_eq!(orders.len(), 2);
    assert_eq!(orders[0].purchase_date, 3);
    assert_eq!(orders[0].price, 1000);
    assert_eq!(orders[0].status, TransactionHistoryStatus::Delivered);
    assert_eq!(orders[1].purchase_date, 1);
    assert_eq!(TransactionHistory::get_all(&db, bob).len(), 1);
}

#[test]
fn history_sorted_by_purchase_date() {
    let (mut db, id) = store_with_alice();
    let dune = Book::create(&mut db, book("Dune", "123", 500)).unwrap();
    Cart::create(&mut db, id).unwrap();
    for date in [5, 2, 9, 5] {
        Cart::increment_book_quantity(&mut db, id, dune).unwrap();
        TransactionHistory::create(&mut db, id, "InProgress", date).unwrap();
    }
    let dates: Vec<i32> = TransactionHistory::get_all(&db, id).iter().map(|h| h.purchase_date).collect();
    assert_eq!(dates, vec![9, 5, 5, 2]);
    let ids: Vec<u64> = TransactionHistory::get_all(&db, id).iter().map(|h| h.id).collect();
    assert_eq!(ids, vec![3, 4, 1, 2]);
}

#[test]
fn status_names() {
    assert_eq!(TransactionHistoryStatus::from_name("Delivered"), TransactionHistoryStatus::Delivered);
    assert_eq!(TransactionHistoryStatus::from_name("Shipping"), TransactionHistoryStatus::Shipping);
    assert_eq!(TransactionHistoryStatus::from_name("InProgress"), TransactionHistoryStatus::InProgress);
    assert_eq!(TransactionHistoryStatus::from_name("lost"), TransactionHistoryStatus::InProgress);
}

#[test]
fn group_names() {
    assert_eq!(UserGroup::from_name("Admin"), UserGroup::Admin);
    assert_eq!(UserGroup::from_name("User"), UserGroup::User);
    assert_eq!(UserGroup::from_name("root"), UserGroup::User);
}
