use bookstore::database::Database;
use bookstore::email::Email;
use bookstore::error::ServiceError;
use bookstore::password::{hash_password, hash_password_with_salt, salt_from_draws, verify_password};
use bookstore::redis::Redis;
use bookstore::text::{matches_folded, remove_whitespace, string_to_fixed_array};
use bookstore::token::{code_from_draws, reset_token_from_draws, token_from_draws, Token};
use bookstore::user::{
    ChangeBillingInformationJson, ChangeEmailJson, ChangePersonalInformationJson, ChangeUsernameJson, User,
    UserGroup,
};

fn register(db: &mut Database, email: &str, username: &str, password: &str) -> i32 {
    User::new(
        db,
        User {
            id: None,
            email: Some(email.to_string()),
            username: Some(username.to_string()),
            password: Some(password.to_string()),
            group: UserGroup::Unassigned,
        },
    )
    .unwrap()
    .id
    .unwrap()
}

fn sign_in(db: &Database, username: &str, password: &str) -> Result<User, ServiceError> {
    User::login_with_password(
        db,
        User {
            id: None,
            email: None,
            username: Some(username.to_string()),
            password: Some(password.to_string()),
            group: UserGroup::Unassigned,
        },
    )
}

#[test]
fn stored_hash_layout() {
    let salt: Vec<u8> = (0u8..16).collect();
    let h = hash_password_with_salt("pw123", &salt);
    assert_eq!(h.len(), 161);
    assert_eq!(&h[..33], "000102030405060708090a0b0c0d0e0f$");
    assert!(h[33..].chars().all(|c| c.is_ascii_hexdigit() && !c.is_ascii_uppercase()));
    assert_eq!(h, hash_password_with_salt("pw123", &salt));
    assert_ne!(h, hash_password_with_salt("pw124", &salt));
    let other: Vec<u8> = vec![0xff; 16];
    let h2 = hash_password_with_salt("pw123", &other);
    assert!(h2.starts_with("ffffffffffffffffffffffffffffffff$"));
    assert_ne!(h[33..], h2[33..]);
}

#[test]
fn hash_uses_fresh_salt() {
    let a = hash_password("pw123");
    let b = hash_password("pw123");
    assert_eq!(a.len(), 161);
    assert_ne!(a, b);
    assert!(verify_password("pw123", &a));
    assert!(verify_password("pw123", &b));
}

#[test]
fn verify_password_checks_hash() {
    let salt: Vec<u8> = vec![7; 16];
    let h = hash_password_with_salt("pw123", &salt);
    assert!(verify_password("pw123", &h));
    assert!(!verify_password("pw124", &h));
    assert!(!verify_password("pw123", "pw123"));
    assert!(!verify_password("pw123", ""));
    let mut tampered = h.clone();
    tampered.replace_range(0..1, "z");
    assert!(!verify_password("pw123", &tampered));
}

#[test]
fn reset_token_shape() {
    let t = Token::generate_reset_token();
    assert_eq!(t.chars().count(), 32);
    assert!(t.chars().all(|c| c.is_ascii_alphanumeric()));
}

#[test]
fn reset_token_from_given_draws() {
    let draws: Vec<usize> = (0..32).map(|k| (k * 7) % 62).collect();
    let t = reset_token_from_draws(&draws);
    let alphabet: Vec<char> = "ABCDEFGHIJKLMNOPQRSTUVWXYZabcdefghijklmnopqrstuvwxyz0123456789".chars().collect();
    let expected: String = draws.iter().map(|d| alphabet[*d]).collect();
    assert_eq!(t, expected);
    assert!(t.starts_with("AHOVcjqx"));
    assert_eq!(reset_token_from_draws(&vec![61; 32]), "9".repeat(32));
}

#[test]
fn code_from_given_draws() {
    assert_eq!(code_from_draws(&vec![0, 4, 9, 1, 0, 7]), "049107");
    assert_eq!(code_from_draws(&vec![9; 6]), "999999");
}

#[test]
fn token_from_other_alphabet() {
    assert_eq!(token_from_draws("xyz", &vec![2, 0, 1, 1]), "zxyy");
    assert_eq!(token_from_draws("xyz", &vec![]), "");
}

#[test]
fn salt_from_given_draws() {
    assert_eq!(salt_from_draws(&vec![0, 255, 16, 7]), vec![0u8, 255, 16, 7]);
}

#[test]
fn six_digit_code_shape() {
    let c = Token::generate_six_digit_number();
    assert_eq!(c.chars().count(), 6);
    assert!(c.chars().all(|c| c.is_ascii_digit()));
}

#[test]
fn token_store_lookup_and_expiry() {
    let mut r = Redis::new();
    assert_eq!(r.get_user_id_by_token("abc", 0), -1);
    r.set_token_to_user(42, "abc", 100);
    assert_eq!(r.get_user_id_by_token("abc", 100), 42);
    assert_eq!(r.get_user_id_by_token("abc", 129), 42);
    assert_eq!(r.get_user_id_by_token("abc", 130), -1);
    assert_eq!(r.get_user_id_by_token("abd", 100), -1);
    r.set_token_to_user(7, "abc", 200);
    assert_eq!(r.get_user_id_by_token("abc", 200), 7);
    assert_eq!(r.entries.len(), 1);
}

#[test]
fn storing_a_token_drops_expired_ones() {
    let mut r = Redis::new();
    r.set_token_to_user(1, "old", 0);
    r.set_token_with_ttl(2, "long", 0, 3600);
    assert_eq!(r.entries.len(), 2);
    r.set_token_to_user(3, "new", 100);
    assert_eq!(r.entries.len(), 2);
    assert_eq!(r.get_user_id_by_token("long", 100), 2);
    assert_eq!(r.get_user_id_by_token("new", 100), 3);
    r.purge_expired(5000);
    assert!(r.entries.is_empty());
}

#[test]
fn token_consumed_twice_second_fails() {
    let mut r = Redis::new();
    r.set_token_with_ttl(5, "tok", 10, 3600);
    assert_eq!(r.consume_token("tok", 20), Some(5));
    assert_eq!(r.consume_token("tok", 21), None);
    assert_eq!(r.get_user_id_by_token("tok", 22), -1);
}

#[test]
fn reset_password_token_single_use() {
    let mut db = Database::new();
    register(&mut db, "a@x.com", "alice", "pw123");
    let token = User::forgot_password(&mut db, "a@x.com", 1000).unwrap();
    assert_eq!(token.chars().count(), 32);
    assert_eq!(User::reset_password(&mut db, &token, "newpw", 1500), Ok(()));
    assert!(sign_in(&db, "alice", "newpw").is_ok());
    assert_eq!(sign_in(&db, "alice", "pw123").err(), Some(ServiceError::InvalidCredentials));
    assert_eq!(
        User::reset_password(&mut db, &token, "other", 1600),
        Err(ServiceError::InvalidToken)
    );
    assert!(sign_in(&db, "alice", "newpw").is_ok());
}

#[test]
fn reset_password_expired_token() {
    let mut db = Database::new();
    register(&mut db, "a@x.com", "alice", "pw123");
    let token = User::forgot_password(&mut db, "a@x.com", 1000).unwrap();
    assert_eq!(
        User::reset_password(&mut db, &token, "newpw", 1000 + 3600),
        Err(ServiceError::InvalidToken)
    );
    assert_eq!(User::forgot_password(&mut db, "z@x.com", 1000).err(), Some(ServiceError::NotFound));
}

#[test]
fn email_code_sign_in_single_use() {
    let mut db = Database::new();
    let id = register(&mut db, "a@x.com", "alice", "pw123");
    let code = User::send_authentication_code(&mut db, "a@x.com", 50).unwrap();
    assert_eq!(code.chars().count(), 6);
    let u = User::login_with_email(&mut db, &code, 60).unwrap();
    assert_eq!(u.id, Some(id));
    assert_eq!(User::login_with_email(&mut db, &code, 61).err(), Some(ServiceError::InvalidToken));
    let late = User::send_authentication_code(&mut db, "a@x.com", 100).unwrap();
    assert_eq!(User::login_with_email(&mut db, &late, 130).err(), Some(ServiceError::InvalidToken));
}

#[test]
fn change_password_requires_old_password() {
    let mut db = Database::new();
    let id = register(&mut db, "a@x.com", "alice", "pw123");
    assert_eq!(User::change_password(&mut db, id, "bad", "x"), Err(ServiceError::InvalidCredentials));
    assert_eq!(User::change_password(&mut db, 99, "pw123", "x"), Err(ServiceError::NotFound));
    assert_eq!(User::change_password(&mut db, id, "pw123", "x"), Ok(()));
    assert!(sign_in(&db, "alice", "x").is_ok());
}

#[test]
fn change_email_rules() {
    let mut db = Database::new();
    let id = register(&mut db, "a@x.com", "alice", "pw123");
    register(&mut db, "b@x.com", "bob", "pw");
    let taken = ChangeEmailJson { new_email: "b@x.com".to_string(), password: "pw123".to_string() };
    assert_eq!(User::change_email(&mut db, id, taken), Err(ServiceError::Conflict));
    let bad = ChangeEmailJson { new_email: "c@x.com".to_string(), password: "nope".to_string() };
    assert_eq!(User::change_email(&mut db, id, bad), Err(ServiceError::InvalidCredentials));
    let ok = ChangeEmailJson { new_email: "c@x.com".to_string(), password: "pw123".to_string() };
    assert_eq!(User::change_email(&mut db, id, ok), Ok(()));
    assert_eq!(User::get_info(&db, id).unwrap().email, "c@x.com");
}

#[test]
fn change_username_rules() {
    let mut db = Database::new();
    let id = register(&mut db, "a@x.com", "alice", "pw123");
    register(&mut db, "b@x.com", "bob", "pw");
    let taken = ChangeUsernameJson { new_username: "bob".to_string() };
    assert_eq!(User::change_username(&mut db, id, taken).err(), Some(ServiceError::Conflict));
    let ok = ChangeUsernameJson { new_username: "ally".to_string() };
    assert_eq!(User::change_username(&mut db, id, ok).unwrap(), "Username successfully changed!");
    assert!(sign_in(&db, "ally", "pw123").is_ok());
    let missing = ChangeUsernameJson { new_username: "zed".to_string() };
    assert_eq!(User::change_username(&mut db, 99, missing).err(), Some(ServiceError::NotFound));
}

#[test]
fn profile_changes() {
    let mut db = Database::new();
    let id = register(&mut db, "a@x.com", "alice", "pw123");
    let personal = ChangePersonalInformationJson {
        first_name: "Alice".to_string(),
        last_name: "Liddell".to_string(),
        phone_number: "123".to_string(),
    };
    assert_eq!(User::change_personal_info(&mut db, id, personal), Ok(()));
    let billing = ChangeBillingInformationJson {
        billing_address: "1 Main St".to_string(),
        city: "Oxford".to_string(),
        state_province: None,
        postal_code: "OX1".to_string(),
    };
    assert_eq!(User::change_billing_info(&mut db, id, billing), Ok(()));
    let info = User::get_info(&db, id).unwrap();
    assert_eq!(info.first_name, "Alice");
    assert_eq!(info.city, "Oxford");
    assert_eq!(info.state_province, "");
    assert_eq!(info.phone_number, "123");
    let nobody = ChangePersonalInformationJson {
        first_name: String::new(),
        last_name: String::new(),
        phone_number: String::new(),
    };
    assert_eq!(User::change_personal_info(&mut db, 99, nobody), Err(ServiceError::NotFound));
}

#[test]
fn admin_flag_and_deletion() {
    let mut db = Database::new();
    let id = register(&mut db, "a@x.com", "alice", "pw123");
    assert_eq!(User::is_admin(&db, id), Ok(false));
    db.users[0].group = UserGroup::Admin;
    assert_eq!(User::is_admin(&db, id), Ok(true));
    assert_eq!(User::is_admin(&db, 42), Err(ServiceError::NotFound));
    bookstore::cart::Cart::create(&mut db, id).unwrap();
    assert!(User::is_user_exists(&db, id));
    assert_eq!(User::delete_account(&mut db, id), Ok(()));
    assert!(!User::is_user_exists(&db, id));
    assert!(db.profiles.is_empty());
    assert!(db.carts.is_empty());
    assert_eq!(User::get_info(&db, id).err(), Some(ServiceError::NotFound));
    assert_eq!(User::delete_account(&mut db, id), Ok(()));
}

#[test]
fn whitespace_removal() {
    assert_eq!(remove_whitespace(" the\thobbit \n"), "thehobbit");
    assert_eq!(remove_whitespace(""), "");
    assert_eq!(remove_whitespace("a\u{3000}b\u{a0}c"), "abc");
}

#[test]
fn folded_matching() {
    assert!(matches_folded("hobbit", "the hobbit"));
    assert!(matches_folded("thehobbit", "the hobbit"));
    assert!(matches_folded("the  hob bit", "the hobbit"));
    assert!(!matches_folded("hobbits", "the hobbit"));
    assert!(matches_folded("", "anything"));
}

#[test]
fn fixed_array_from_string() {
    let a = string_to_fixed_array("abc").unwrap();
    assert_eq!(&a[..3], b"abc");
    assert!(a[3..].iter().all(|b| *b == 0));
    let full = "x".repeat(32);
    assert_eq!(string_to_fixed_array(&full).unwrap(), [b'x'; 32]);
    assert!(string_to_fixed_array(&"x".repeat(33)).is_err());
}

#[test]
fn email_texts() {
    assert_eq!(Email::authentication_code_body("123456"), "Your sign-in code: 123456");
    assert_eq!(
        Email::password_reset_body("abc"),
        "Your password reset code: abc\nOr follow https://library-basement.vercel.app/reset-password?token=abc"
    );
    assert_eq!(Email::password_reset_subject(), "Password reset request");
}

#[test]
fn error_messages() {
    assert_eq!(ServiceError::EmptyCart.message(), "the cart is empty");
    assert_eq!(ServiceError::Conflict.message(), "already exists");
}
