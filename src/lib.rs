//! A bookstore backend: accounts, a catalog of books, per-user carts and the
//! checkout that turns a cart into an order record, over an in-memory store.
pub mod book;
pub mod cart;
pub mod database;
pub mod email;
pub mod error;
pub mod history;
pub mod laws;
pub mod password;
pub mod redis;
pub mod text;
pub mod token;
pub mod user;
