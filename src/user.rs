//! Accounts: registration, sign-in, profile and credential changes.
use vstd::prelude::*;
use crate::database::{counters_kept, Database};
use crate::cart::{cart_index, has_cart};
use crate::error::ServiceError;
use crate::password::{hash_password, password_matches, verify_password};
use crate::redis::{expiry, Redis, EMAIL_CODE_TTL, RESET_TOKEN_TTL};
use crate::token::{Token, CODE_ALPHABET, CODE_LEN, RESET_TOKEN_ALPHABET, RESET_TOKEN_LEN};

verus! {

/// The role of an account.
#[derive(Debug, Clone, Copy, PartialEq, Eq, Structural)]
pub enum UserGroup {
    User,
    Admin,
    Unassigned,
}

/// An account as callers hand it in and get it back.
pub struct User {
    pub id: Option<i32>,
    pub email: Option<String>,
    pub username: Option<String>,
    pub password: Option<String>,
    pub group: UserGroup,
}

/// A stored account; `password` holds the password's hash.
pub struct UserRecord {
    pub id: i32,
    pub email: String,
    pub username: String,
    pub password: String,
    pub group: UserGroup,
}

/// A stored profile: contact and billing fields of one account.
pub struct Profile {
    pub user_id: i32,
    pub first_name: String,
    pub last_name: String,
    pub phone_number: String,
    pub billing_address: String,
    pub city: String,
    pub state_province: String,
    pub postal_code: String,
}

/// A profile joined with the account's username and email.
pub struct UserInfo {
    pub first_name: String,
    pub last_name: String,
    pub phone_number: String,
    pub billing_address: String,
    pub city: String,
    pub state_province: String,
    pub postal_code: String,
    pub username: String,
    pub email: String,
}

/// A request to change the email, confirmed by the password.
pub struct ChangeEmailJson {
    pub new_email: String,
    pub password: String,
}

/// A request to change the username.
pub struct ChangeUsernameJson {
    pub new_username: String,
}

/// A request to change the personal fields of a profile.
pub struct ChangePersonalInformationJson {
    pub first_name: String,
    pub last_name: String,
    pub phone_number: String,
}

/// A request to change the billing fields of a profile.
pub struct ChangeBillingInformationJson {
    pub billing_address: String,
    pub city: String,
    pub state_province: Option<String>,
    pub postal_code: String,
}

/// Whether a stored account has id `id`.
pub open spec fn has_user(users: Seq<UserRecord>, id: i32) -> bool {
    exists|i: int| 0 <= i < users.len() && #[trigger] users[i].id == id
}

/// The position of account `id`.
pub open spec fn user_index(users: Seq<UserRecord>, id: i32) -> int {
    choose|i: int| 0 <= i < users.len() && #[trigger] users[i].id == id
}

/// Whether a stored account has email `e`.
pub open spec fn email_taken(users: Seq<UserRecord>, e: Seq<char>) -> bool {
    exists|i: int| 0 <= i < users.len() && #[trigger] users[i].email@ == e
}

/// Whether a stored account has username `n`.
pub open spec fn username_taken(users: Seq<UserRecord>, n: Seq<char>) -> bool {
    exists|i: int| 0 <= i < users.len() && #[trigger] users[i].username@ == n
}

/// The position of the account with username `n`.
pub open spec fn username_index(users: Seq<UserRecord>, n: Seq<char>) -> int {
    choose|i: int| 0 <= i < users.len() && #[trigger] users[i].username@ == n
}

/// The position of the account with email `e`.
pub open spec fn email_index(users: Seq<UserRecord>, e: Seq<char>) -> int {
    choose|i: int| 0 <= i < users.len() && #[trigger] users[i].email@ == e
}

/// The stored accounts: ids below `next_id`, and ids, emails and usernames distinct.
pub open spec fn users_wf(users: Seq<UserRecord>, next_id: i32) -> bool {
    &&& forall|i: int| 0 <= i < users.len() ==> 0 < #[trigger] users[i].id < next_id
    &&& forall|i: int, j: int|
        0 <= i < users.len() && 0 <= j < users.len() && i != j
            ==> #[trigger] users[i].id != #[trigger] users[j].id
    &&& forall|i: int, j: int|
        0 <= i < users.len() && 0 <= j < users.len() && i != j
            ==> #[trigger] users[i].email@ != #[trigger] users[j].email@
    &&& forall|i: int, j: int|
        0 <= i < users.len() && 0 <= j < users.len() && i != j
            ==> #[trigger] users[i].username@ != #[trigger] users[j].username@
}

/// Whether account `id` has a profile.
pub open spec fn has_profile(profiles: Seq<Profile>, id: i32) -> bool {
    exists|i: int| 0 <= i < profiles.len() && #[trigger] profiles[i].user_id == id
}

/// The position of the profile of account `id`.
pub open spec fn profile_index(profiles: Seq<Profile>, id: i32) -> int {
    choose|i: int| 0 <= i < profiles.len() && #[trigger] profiles[i].user_id == id
}

/// At most one profile per account, each for an id already handed out.
pub open spec fn profiles_wf(profiles: Seq<Profile>, next_id: i32) -> bool {
    &&& forall|i: int, j: int|
        0 <= i < profiles.len() && 0 <= j < profiles.len() && i != j
            ==> #[trigger] profiles[i].user_id != #[trigger] profiles[j].user_id
    &&& forall|i: int| 0 <= i < profiles.len() ==> #[trigger] profiles[i].user_id < next_id
}

/// The role that a name stands for: `Admin` for "Admin", `User` for anything else.
pub open spec fn group_of(name: Seq<char>) -> UserGroup {
    if name == "Admin"@ {
        UserGroup::Admin
    } else {
        UserGroup::User
    }
}

impl UserGroup {
    /// The role named `name`; an unknown name gives `User`.
    pub fn from_name(name: &str) -> (r: UserGroup)
        ensures
            r == group_of(name@),
    {
        if name.to_owned() == "Admin".to_owned() {
            UserGroup::Admin
        } else {
            UserGroup::User
        }
    }
}

/// Whether an optional field is present and non-empty.
pub open spec fn filled(f: Option<String>) -> bool {
    f matches Some(s) && s@.len() > 0
}

fn is_filled(f: &Option<String>) -> (r: bool)
    ensures
        r == filled(*f),
{
    match f {
        Some(s) => !s.as_str().is_empty(),
        None => false,
    }
}

/// An account as it is handed back to callers.
pub open spec fn user_of(rec: UserRecord) -> User {
    User {
        id: Some(rec.id),
        email: Some(rec.email),
        username: Some(rec.username),
        password: Some(rec.password),
        group: rec.group,
    }
}

/// `new` differs from `old` at most in the account at `k`, which keeps its id.
pub open spec fn user_replaced(old: Seq<UserRecord>, new: Seq<UserRecord>, k: int) -> bool {
    &&& new.len() == old.len()
    &&& 0 <= k < old.len()
    &&& new[k].id == old[k].id
    &&& forall|i: int| 0 <= i < old.len() && i != k ==> #[trigger] new[i] == old[i]
}

impl UserRecord {
    fn to_user(&self) -> (r: User)
        ensures
            r == user_of(*self),
    {
        User {
            id: Some(self.id),
            email: Some(self.email.clone()),
            username: Some(self.username.clone()),
            password: Some(self.password.clone()),
            group: self.group,
        }
    }
}

impl Database {
    /// The position of account `id`, if it exists.
    pub fn find_user(&self, id: i32) -> (r: Option<usize>)
        requires
            users_wf(self.users@, self.next_user_id),
        ensures
            match r {
                Some(i) => has_user(self.users@, id) && i as int == user_index(self.users@, id),
                None => !has_user(self.users@, id),
            },
    {
        let mut i: usize = 0;
        while i < self.users.len()
            invariant
                users_wf(self.users@, self.next_user_id),
                i <= self.users@.len(),
                forall|j: int| 0 <= j < i ==> #[trigger] self.users@[j].id != id,
            decreases self.users@.len() - i,
        {
            if self.users[i].id == id {
                proof {
                    assert(self.users@[i as int].id == id);
                    assert(has_user(self.users@, id));
                    let k = user_index(self.users@, id);
                    assert(self.users@[k].id == id);
                }
                return Some(i);
            }
            i = i + 1;
        }
        None
    }

    /// The position of the account with username `name`, if there is one.
    pub fn find_username(&self, name: &String) -> (r: Option<usize>)
        requires
            users_wf(self.users@, self.next_user_id),
        ensures
            match r {
                Some(i) => username_taken(self.users@, name@) && i as int == username_index(self.users@, name@),
                None => !username_taken(self.users@, name@),
            },
    {
        let mut i: usize = 0;
        while i < self.users.len()
            invariant
                users_wf(self.users@, self.next_user_id),
                i <= self.users@.len(),
                forall|j: int| 0 <= j < i ==> #[trigger] self.users@[j].username@ != name@,
            decreases self.users@.len() - i,
        {
            if self.users[i].username == *name {
                proof {
                    assert(self.users@[i as int].username@ == name@);
                    assert(username_taken(self.users@, name@));
                    let k = username_index(self.users@, name@);
                    assert(self.users@[k].username@ == name@);
                }
                return Some(i);
            }
            i = i + 1;
        }
        None
    }

    /// The position of the account with email `email`, if there is one.
    pub fn find_email(&self, email: &String) -> (r: Option<usize>)
        requires
            users_wf(self.users@, self.next_user_id),
        ensures
            match r {
                Some(i) => email_taken(self.users@, email@) && i as int == email_index(self.users@, email@),
                None => !email_taken(self.users@, email@),
            },
    {
        let mut i: usize = 0;
        while i < self.users.len()
            invariant
                users_wf(self.users@, self.next_user_id),
                i <= self.users@.len(),
                forall|j: int| 0 <= j < i ==> #[trigger] self.users@[j].email@ != email@,
            decreases self.users@.len() - i,
        {
            if self.users[i].email == *email {
                proof {
                    assert(self.users@[i as int].email@ == email@);
                    assert(email_taken(self.users@, email@));
                    let k = email_index(self.users@, email@);
                    assert(self.users@[k].email@ == email@);
                }
                return Some(i);
            }
            i = i + 1;
        }
        None
    }

    /// The position of the profile of account `id`, if there is one.
    pub fn find_profile(&self, id: i32) -> (r: Option<usize>)
        requires
            profiles_wf(self.profiles@, self.next_user_id),
        ensures
            match r {
                Some(i) => has_profile(self.profiles@, id) && i as int == profile_index(self.profiles@, id),
                None => !has_profile(self.profiles@, id),
            },
    {
        let mut i: usize = 0;
        while i < self.profiles.len()
            invariant
                profiles_wf(self.profiles@, self.next_user_id),
                i <= self.profiles@.len(),
                forall|j: int| 0 <= j < i ==> #[trigger] self.profiles@[j].user_id != id,
            decreases self.profiles@.len() - i,
        {
            if self.profiles[i].user_id == id {
                proof {
                    assert(self.profiles@[i as int].user_id == id);
                    assert(has_profile(self.profiles@, id));
                    let k = profile_index(self.profiles@, id);
                    assert(self.profiles@[k].user_id == id);
                }
                return Some(i);
            }
            i = i + 1;
        }
        None
    }

    /// Puts `rec` in place of the account at `k`.
    fn replace_user(&mut self, k: usize, rec: UserRecord)
        requires
            old(self).wf(),
            k < old(self).users@.len(),
            users_wf(old(self).users@.update(k as int, rec), old(self).next_user_id),
        ensures
            final(self).wf(),
            final(self).users@ == old(self).users@.update(k as int, rec),
            final(self).profiles == old(self).profiles,
            final(self).books == old(self).books,
            final(self).carts == old(self).carts,
            final(self).histories == old(self).histories,
            final(self).redis == old(self).redis,
            counters_kept(*old(self), *final(self)),
    {
        self.users.set(k, rec);
    }

    /// Puts `rec` in place of the profile at `k`.
    fn replace_profile(&mut self, k: usize, rec: Profile)
        requires
            old(self).wf(),
            k < old(self).profiles@.len(),
            rec.user_id == old(self).profiles@[k as int].user_id,
        ensures
            final(self).wf(),
            final(self).profiles@ == old(self).profiles@.update(k as int, rec),
            final(self).users == old(self).users,
            final(self).books == old(self).books,
            final(self).carts == old(self).carts,
            final(self).histories == old(self).histories,
            final(self).redis == old(self).redis,
            counters_kept(*old(self), *final(self)),
    {
        let ghost before = self.profiles@;
        self.profiles.set(k, rec);
        proof {
            let p = self.profiles@;
            assert forall|i: int, j: int|
                0 <= i < p.len() && 0 <= j < p.len() && i != j implies #[trigger] p[i].user_id != #[trigger] p[j].user_id by {
                assert(p[i].user_id == before[i].user_id);
                assert(p[j].user_id == before[j].user_id);
            }
            assert forall|i: int| 0 <= i < p.len() implies #[trigger] p[i].user_id < self.next_user_id by {
                assert(p[i].user_id == before[i].user_id);
            }
        }
    }
}

/// Whether `p` is the profile of account `id` with every field empty.
pub open spec fn is_empty_profile(p: Profile, id: i32) -> bool {
    &&& p.user_id == id
    &&& p.first_name@.len() == 0
    &&& p.last_name@.len() == 0
    &&& p.phone_number@.len() == 0
    &&& p.billing_address@.len() == 0
    &&& p.city@.len() == 0
    &&& p.state_province@.len() == 0
    &&& p.postal_code@.len() == 0
}

/// An empty profile for account `id`.
fn empty_profile(id: i32) -> (r: Profile)
    ensures
        is_empty_profile(r, id),
{
    Profile {
        user_id: id,
        first_name: String::new(),
        last_name: String::new(),
        phone_number: String::new(),
        billing_address: String::new(),
        city: String::new(),
        state_province: String::new(),
        postal_code: String::new(),
    }
}

/// `new` is `old` with the account `user_id` updated to store the hash of `password`.
pub open spec fn password_set(old: Database, new: Database, user_id: i32, password: Seq<char>) -> bool {
    &&& has_user(old.users@, user_id)
    &&& user_replaced(old.users@, new.users@, user_index(old.users@, user_id))
    &&& password_matches(password, new.users@[user_index(old.users@, user_id)].password@)
    &&& new.users@[user_index(old.users@, user_id)].email == old.users@[user_index(old.users@, user_id)].email
    &&& new.users@[user_index(old.users@, user_id)].username == old.users@[user_index(old.users@, user_id)].username
    &&& new.users@[user_index(old.users@, user_id)].group == old.users@[user_index(old.users@, user_id)].group
    &&& new.profiles == old.profiles
    &&& new.books == old.books
    &&& new.carts == old.carts
    &&& new.histories == old.histories
    &&& counters_kept(old, new)
}

impl User {
    /// Registers an account with role `User` and an empty profile. Refused with
    /// `Validation` when the email, username or password is missing or empty, and
    /// with `Conflict` when the email or the username is taken.
    pub fn new(db: &mut Database, user: User) -> (r: Result<User, ServiceError>)
        requires
            old(db).wf(),
        ensures
            r matches Err(e) ==> (e == ServiceError::Validation || e == ServiceError::Conflict || e == ServiceError::Exhausted),
            final(db).wf(),
            r == Err::<User, ServiceError>(ServiceError::Validation) <==> !filled(user.email)
                || !filled(user.username) || !filled(user.password),
            r == Err::<User, ServiceError>(ServiceError::Conflict) <==> filled(user.email) && filled(user.username)
                && filled(user.password) && (email_taken(old(db).users@, user.email->0@)
                || username_taken(old(db).users@, user.username->0@)),
            r == Err::<User, ServiceError>(ServiceError::Exhausted) <==> filled(user.email) && filled(user.username)
                && filled(user.password) && !email_taken(old(db).users@, user.email->0@)
                && !username_taken(old(db).users@, user.username->0@) && old(db).next_user_id == i32::MAX,
            r is Err ==> *final(db) == *old(db),
            r matches Ok(u) ==> {
                let id = old(db).next_user_id;
                let n = old(db).users@.len() as int;
                &&& u.id == Some(id)
                &&& u.email == user.email
                &&& u.username == user.username
                &&& u.password matches Some(h) && password_matches(user.password->0@, h@)
                &&& u.group == UserGroup::User
                &&& final(db).users@.len() == n + 1
                &&& forall|i: int| 0 <= i < n ==> #[trigger] final(db).users@[i] == old(db).users@[i]
                &&& user_of(final(db).users@[n]) == u
                &&& has_user(final(db).users@, id)
                &&& has_profile(final(db).profiles@, id)
                &&& final(db).profiles@.len() == old(db).profiles@.len() + 1
                &&& forall|i: int| 0 <= i < old(db).profiles@.len() ==> #[trigger] final(db).profiles@[i] == old(db).profiles@[i]
                &&& is_empty_profile(final(db).profiles@.last(), id)
                &&& final(db).next_user_id == id + 1
                &&& final(db).next_book_id == old(db).next_book_id
                &&& final(db).next_cart_id == old(db).next_cart_id
                &&& final(db).next_history_id == old(db).next_history_id
                &&& final(db).books == old(db).books
                &&& final(db).carts == old(db).carts
                &&& final(db).histories == old(db).histories
                &&& final(db).redis == old(db).redis
            },
    {
        if !is_filled(&user.email) || !is_filled(&user.username) || !is_filled(&user.password) {
            return Err(ServiceError::Validation);
        }
        let User { id: _, email, username, password, group: _ } = user;
        let email = email.unwrap();
        let username = username.unwrap();
        let password = password.unwrap();
        if db.find_email(&email).is_some() || db.find_username(&username).is_some() {
            return Err(ServiceError::Conflict);
        }
        if db.next_user_id == i32::MAX {
            return Err(ServiceError::Exhausted);
        }
        let id = db.next_user_id;
        let hashed = hash_password(password.as_str());
        let rec = UserRecord { id, email, username, password: hashed, group: UserGroup::User };
        let out = rec.to_user();
        let ghost before = *db;
        db.users.push(rec);
        db.next_user_id = id + 1;
        let ghost mid = db.profiles@;
        db.profiles.push(empty_profile(id));
        proof {
            let us = db.users@;
            let n = before.users@.len() as int;
            assert forall|i: int| 0 <= i < n implies #[trigger] us[i] == before.users@[i] by {}
            assert(us[n].id == id);
            assert(has_user(us, id));
            assert forall|a: int, b: int| 0 <= a < us.len() && 0 <= b < us.len() && a != b implies
                #[trigger] us[a].id != #[trigger] us[b].id by {
                if a == n { assert(us[b] == before.users@[b]); }
                if b == n { assert(us[a] == before.users@[a]); }
            }
            assert forall|a: int, b: int| 0 <= a < us.len() && 0 <= b < us.len() && a != b implies
                #[trigger] us[a].email@ != #[trigger] us[b].email@ by {
                if a == n { assert(us[b] == before.users@[b]); }
                if b == n { assert(us[a] == before.users@[a]); }
            }
            assert forall|a: int, b: int| 0 <= a < us.len() && 0 <= b < us.len() && a != b implies
                #[trigger] us[a].username@ != #[trigger] us[b].username@ by {
                if a == n { assert(us[b] == before.users@[b]); }
                if b == n { assert(us[a] == before.users@[a]); }
            }
            assert forall|a: int| 0 <= a < us.len() implies 0 < #[trigger] us[a].id < db.next_user_id by {
                if a < n { assert(us[a] == before.users@[a]); }
            }
            let ps = db.profiles@;
            let m = mid.len() as int;
            assert(ps[m].user_id == id);
            assert(has_profile(ps, id));
            assert forall|a: int, b: int| 0 <= a < ps.len() && 0 <= b < ps.len() && a != b implies
                #[trigger] ps[a].user_id != #[trigger] ps[b].user_id by {
                if a == m && b < m {
                    assert(ps[b] == mid[b]);
                    assert(mid[b].user_id < id);
                }
                if b == m && a < m {
                    assert(ps[a] == mid[a]);
                    assert(mid[a].user_id < id);
                }
            }
            assert forall|a: int| 0 <= a < ps.len() implies #[trigger] ps[a].user_id < db.next_user_id by {
                if a < m {
                    assert(ps[a] == mid[a]);
                }
            }
        }
        Ok(out)
    }

    /// Signs in with a username and a password. `Validation` when either is
    /// missing, `NotFound` for an unknown username, `InvalidCredentials` when the
    /// password does not match the stored hash.
    pub fn login_with_password(db: &Database, user: User) -> (r: Result<User, ServiceError>)
        requires
            db.wf(),
        ensures
            r matches Err(e) ==> (e == ServiceError::Validation || e == ServiceError::NotFound || e == ServiceError::InvalidCredentials),
            r == Err::<User, ServiceError>(ServiceError::Validation) <==> user.username is None || user.password is None,
            r == Err::<User, ServiceError>(ServiceError::NotFound) <==> user.username is Some && user.password is Some
                && !username_taken(db.users@, user.username->0@),
            r == Err::<User, ServiceError>(ServiceError::InvalidCredentials) <==> user.username is Some
                && user.password is Some && username_taken(db.users@, user.username->0@)
                && !password_matches(user.password->0@, db.users@[username_index(db.users@, user.username->0@)].password@),
            r matches Ok(u) ==> u == user_of(db.users@[username_index(db.users@, user.username->0@)]),
    {
        let username = match &user.username {
            Some(n) => n,
            None => return Err(ServiceError::Validation),
        };
        let password = match &user.password {
            Some(p) => p,
            None => return Err(ServiceError::Validation),
        };
        let k = match db.find_username(username) {
            Some(k) => k,
            None => return Err(ServiceError::NotFound),
        };
        if verify_password(password.as_str(), db.users[k].password.as_str()) {
            Ok(db.users[k].to_user())
        } else {
            Err(ServiceError::InvalidCredentials)
        }
    }

    /// Signs in with an emailed code, which is used up by the attempt.
    /// `InvalidToken` when the code is unknown or expired at `now`, `NotFound`
    /// when its account is gone.
    pub fn login_with_email(db: &mut Database, code: &str, now: u64) -> (r: Result<User, ServiceError>)
        requires
            old(db).wf(),
        ensures
            r matches Err(e) ==> (e == ServiceError::InvalidToken || e == ServiceError::NotFound),
            final(db).wf(),
            Redis::removed(old(db).redis, final(db).redis, code@),
            final(db).users == old(db).users,
            final(db).profiles == old(db).profiles,
            final(db).books == old(db).books,
            final(db).carts == old(db).carts,
            final(db).histories == old(db).histories,
            counters_kept(*old(db), *final(db)),
            r == Err::<User, ServiceError>(ServiceError::InvalidToken) <==> old(db).redis.lookup(code@, now) is None,
            r == Err::<User, ServiceError>(ServiceError::NotFound) <==> (old(db).redis.lookup(code@, now) matches Some(u)
                && !has_user(old(db).users@, u as i32)),
            r matches Ok(u) ==> (old(db).redis.lookup(code@, now) matches Some(id)
                && u == user_of(old(db).users@[user_index(old(db).users@, id as i32)])),
    {
        let id = match db.redis.consume_token(code, now) {
            Some(id) => id,
            None => return Err(ServiceError::InvalidToken),
        };
        proof {
            let k = old(db).redis.key_index(code@);
            assert(old(db).redis.entries@[k].user_id <= i32::MAX);
        }
        match db.find_user(id as i32) {
            Some(k) => Ok(db.users[k].to_user()),
            None => Err(ServiceError::NotFound),
        }
    }

    /// Issues a six-digit sign-in code for the account with email `email`, valid
    /// from `now` for the code lifetime, and returns it for delivery.
    /// `NotFound` when no account has that email.
    pub fn send_authentication_code(db: &mut Database, email: &str, now: u64) -> (r: Result<String, ServiceError>)
        requires
            old(db).wf(),
        ensures
            final(db).wf(),
            r is Err <==> !email_taken(old(db).users@, email@),
            r is Err ==> r == Err::<String, ServiceError>(ServiceError::NotFound) && *final(db) == *old(db),
            r matches Ok(code) ==> {
                let id = old(db).users@[email_index(old(db).users@, email@)].id;
                &&& code@.len() == CODE_LEN
                &&& forall|i: int| 0 <= i < CODE_LEN ==> CODE_ALPHABET@.contains(#[trigger] code@[i])
                &&& final(db).redis.stored(code@) == Some((id as u32, expiry(now, EMAIL_CODE_TTL)))
                &&& forall|k: Seq<char>| k != code@ ==> #[trigger] final(db).redis.stored(k) == old(db).redis.stored_after_purge(k, now)
                &&& final(db).users == old(db).users
                &&& final(db).profiles == old(db).profiles
                &&& final(db).books == old(db).books
                &&& final(db).carts == old(db).carts
                &&& final(db).histories == old(db).histories
                &&& counters_kept(*old(db), *final(db))
            },
    {
        let e = email.to_owned();
        let k = match db.find_email(&e) {
            Some(k) => k,
            None => return Err(ServiceError::NotFound),
        };
        let id = db.users[k].id;
        let code = Token::generate_six_digit_number();
        db.redis.set_token_to_user(id as u32, code.as_str(), now);
        Ok(code)
    }

    /// Issues a password-reset token for the account with email `email`, valid
    /// from `now` for the reset lifetime, and returns it for delivery.
    /// `NotFound` when no account has that email.
    pub fn forgot_password(db: &mut Database, email: &str, now: u64) -> (r: Result<String, ServiceError>)
        requires
            old(db).wf(),
        ensures
            final(db).wf(),
            r is Err <==> !email_taken(old(db).users@, email@),
            r is Err ==> r == Err::<String, ServiceError>(ServiceError::NotFound) && *final(db) == *old(db),
            r matches Ok(token) ==> {
                let id = old(db).users@[email_index(old(db).users@, email@)].id;
                &&& token@.len() == RESET_TOKEN_LEN
                &&& forall|i: int| 0 <= i < RESET_TOKEN_LEN ==> RESET_TOKEN_ALPHABET@.contains(#[trigger] token@[i])
                &&& final(db).redis.stored(token@) == Some((id as u32, expiry(now, RESET_TOKEN_TTL)))
                &&& forall|k: Seq<char>| k != token@ ==> #[trigger] final(db).redis.stored(k) == old(db).redis.stored_after_purge(k, now)
                &&& final(db).users == old(db).users
                &&& final(db).profiles == old(db).profiles
                &&& final(db).books == old(db).books
                &&& final(db).carts == old(db).carts
                &&& final(db).histories == old(db).histories
                &&& counters_kept(*old(db), *final(db))
            },
    {
        let e = email.to_owned();
        let k = match db.find_email(&e) {
            Some(k) => k,
            None => return Err(ServiceError::NotFound),
        };
        let id = db.users[k].id;
        let token = Token::generate_reset_token();
        db.redis.set_token_with_ttl(id as u32, token.as_str(), now, RESET_TOKEN_TTL);
        Ok(token)
    }

    /// Stores the hash of `password` for the account at `k`.
    fn store_password(db: &mut Database, k: usize, password: &str)
        requires
            old(db).wf(),
            k < old(db).users@.len(),
        ensures
            final(db).wf(),
            password_set(*old(db), *final(db), old(db).users@[k as int].id, password@),
            final(db).redis == old(db).redis,
            counters_kept(*old(db), *final(db)),
    {
        let hashed = hash_password(password);
        let old_rec = &db.users[k];
        let rec = UserRecord {
            id: old_rec.id,
            email: old_rec.email.clone(),
            username: old_rec.username.clone(),
            password: hashed,
            group: old_rec.group,
        };
        proof {
            lemma_password_change_wf(db.users@, db.next_user_id, k as int, rec);
            let id = db.users@[k as int].id;
            assert(has_user(db.users@, id));
            let j = user_index(db.users@, id);
            assert(db.users@[j].id == id);
        }
        db.replace_user(k, rec);
    }

    /// Sets a new password with a reset token, which is used up by the attempt.
    /// `InvalidToken` when the token is unknown or expired at `now`, `NotFound`
    /// when its account is gone.
    pub fn reset_password(db: &mut Database, reset_token: &str, new_password: &str, now: u64) -> (r: Result<(), ServiceError>)
        requires
            old(db).wf(),
        ensures
            r matches Err(e) ==> (e == ServiceError::InvalidToken || e == ServiceError::NotFound),
            final(db).wf(),
            Redis::removed(old(db).redis, final(db).redis, reset_token@),
            r == Err::<(), ServiceError>(ServiceError::InvalidToken) <==> old(db).redis.lookup(reset_token@, now) is None,
            r == Err::<(), ServiceError>(ServiceError::NotFound) <==> (old(db).redis.lookup(reset_token@, now) matches Some(u)
                && !has_user(old(db).users@, u as i32)),
            r is Err ==> final(db).users == old(db).users,
            r is Ok ==> (old(db).redis.lookup(reset_token@, now) matches Some(u)
                && password_set(*old(db), *final(db), u as i32, new_password@)),
            final(db).profiles == old(db).profiles,
            final(db).books == old(db).books,
            final(db).carts == old(db).carts,
            final(db).histories == old(db).histories,
            counters_kept(*old(db), *final(db)),
    {
        let id = match db.redis.consume_token(reset_token, now) {
            Some(id) => id,
            None => return Err(ServiceError::InvalidToken),
        };
        proof {
            let k = old(db).redis.key_index(reset_token@);
            assert(old(db).redis.entries@[k].user_id <= i32::MAX);
        }
        match db.find_user(id as i32) {
            Some(k) => {
                User::store_password(db, k, new_password);
                Ok(())
            },
            None => Err(ServiceError::NotFound),
        }
    }

    /// Changes the password of account `user_id` after checking the old one.
    /// `NotFound` for an unknown account, `InvalidCredentials` when the old
    /// password does not match.
    pub fn change_password(db: &mut Database, user_id: i32, old_password: &str, new_password: &str) -> (r: Result<(), ServiceError>)
        requires
            old(db).wf(),
        ensures
            r matches Err(e) ==> (e == ServiceError::NotFound || e == ServiceError::InvalidCredentials),
            final(db).wf(),
            r == Err::<(), ServiceError>(ServiceError::NotFound) <==> !has_user(old(db).users@, user_id),
            r == Err::<(), ServiceError>(ServiceError::InvalidCredentials) <==> has_user(old(db).users@, user_id)
                && !password_matches(old_password@, old(db).users@[user_index(old(db).users@, user_id)].password@),
            r is Err ==> *final(db) == *old(db),
            r is Ok ==> password_set(*old(db), *final(db), user_id, new_password@) && final(db).redis == old(db).redis,
    {
        let k = match db.find_user(user_id) {
            Some(k) => k,
            None => return Err(ServiceError::NotFound),
        };
        if !verify_password(old_password, db.users[k].password.as_str()) {
            return Err(ServiceError::InvalidCredentials);
        }
        User::store_password(db, k, new_password);
        Ok(())
    }

    /// Changes the email of account `id`, confirmed by its password. `Conflict`
    /// when the new email is taken, `NotFound` for an unknown account,
    /// `InvalidCredentials` when the password does not match.
    pub fn change_email(db: &mut Database, id: i32, data: ChangeEmailJson) -> (r: Result<(), ServiceError>)
        requires
            old(db).wf(),
        ensures
            r matches Err(e) ==> (e == ServiceError::Conflict || e == ServiceError::NotFound || e == ServiceError::InvalidCredentials),
            final(db).wf(),
            r == Err::<(), ServiceError>(ServiceError::Conflict) <==> email_taken(old(db).users@, data.new_email@),
            r == Err::<(), ServiceError>(ServiceError::NotFound) <==> !email_taken(old(db).users@, data.new_email@)
                && !has_user(old(db).users@, id),
            r == Err::<(), ServiceError>(ServiceError::InvalidCredentials) <==> !email_taken(old(db).users@, data.new_email@)
                && has_user(old(db).users@, id)
                && !password_matches(data.password@, old(db).users@[user_index(old(db).users@, id)].password@),
            r is Err ==> *final(db) == *old(db),
            r is Ok ==> {
                let k = user_index(old(db).users@, id);
                &&& user_replaced(old(db).users@, final(db).users@, k)
                &&& final(db).users@[k].email == data.new_email
                &&& final(db).users@[k].username == old(db).users@[k].username
                &&& final(db).users@[k].password == old(db).users@[k].password
                &&& final(db).users@[k].group == old(db).users@[k].group
                &&& final(db).profiles == old(db).profiles
                &&& final(db).books == old(db).books
                &&& final(db).carts == old(db).carts
                &&& final(db).histories == old(db).histories
                &&& final(db).redis == old(db).redis
                &&& counters_kept(*old(db), *final(db))
            },
    {
        if db.find_email(&data.new_email).is_some() {
            return Err(ServiceError::Conflict);
        }
        let k = match db.find_user(id) {
            Some(k) => k,
            None => return Err(ServiceError::NotFound),
        };
        if !verify_password(data.password.as_str(), db.users[k].password.as_str()) {
            return Err(ServiceError::InvalidCredentials);
        }
        let old_rec = &db.users[k];
        let rec = UserRecord {
            id: old_rec.id,
            email: data.new_email,
            username: old_rec.username.clone(),
            password: old_rec.password.clone(),
            group: old_rec.group,
        };
        proof {
            let us = db.users@;
            let n = us.update(k as int, rec);
            assert forall|a: int, b: int| 0 <= a < n.len() && 0 <= b < n.len() && a != b implies
                #[trigger] n[a].email@ != #[trigger] n[b].email@ by {
                if a == k {
                    assert(n[b] == us[b]);
                    assert(us[b].email@ != rec.email@);
                }
                if b == k {
                    assert(n[a] == us[a]);
                    assert(us[a].email@ != rec.email@);
                }
            }
            assert forall|a: int, b: int| 0 <= a < n.len() && 0 <= b < n.len() && a != b implies
                #[trigger] n[a].id != #[trigger] n[b].id by {
                assert(n[a].id == us[a].id && n[b].id == us[b].id);
            }
            assert forall|a: int, b: int| 0 <= a < n.len() && 0 <= b < n.len() && a != b implies
                #[trigger] n[a].username@ != #[trigger] n[b].username@ by {
                assert(n[a].username@ == us[a].username@ && n[b].username@ == us[b].username@);
            }
            assert forall|a: int| 0 <= a < n.len() implies 0 < #[trigger] n[a].id < db.next_user_id by {
                assert(n[a].id == us[a].id);
            }
        }
        db.replace_user(k, rec);
        Ok(())
    }

    /// Changes the username of account `id`. `Conflict` when the new username
    /// is taken, `NotFound` for an unknown account.
    pub fn change_username(db: &mut Database, id: i32, data: ChangeUsernameJson) -> (r: Result<String, ServiceError>)
        requires
            old(db).wf(),
        ensures
            r matches Err(e) ==> (e == ServiceError::Conflict || e == ServiceError::NotFound),
            final(db).wf(),
            r == Err::<String, ServiceError>(ServiceError::Conflict) <==> username_taken(old(db).users@, data.new_username@),
            r == Err::<String, ServiceError>(ServiceError::NotFound) <==> !username_taken(old(db).users@, data.new_username@)
                && !has_user(old(db).users@, id),
            r is Err ==> *final(db) == *old(db),
            r matches Ok(m) ==> m@ == "Username successfully changed!"@,
            r is Ok ==> {
                let k = user_index(old(db).users@, id);
                &&& user_replaced(old(db).users@, final(db).users@, k)
                &&& final(db).users@[k].username == data.new_username
                &&& final(db).users@[k].email == old(db).users@[k].email
                &&& final(db).users@[k].password == old(db).users@[k].password
                &&& final(db).users@[k].group == old(db).users@[k].group
                &&& final(db).profiles == old(db).profiles
                &&& final(db).books == old(db).books
                &&& final(db).carts == old(db).carts
                &&& final(db).histories == old(db).histories
                &&& final(db).redis == old(db).redis
                &&& counters_kept(*old(db), *final(db))
            },
    {
        if db.find_username(&data.new_username).is_some() {
            return Err(ServiceError::Conflict);
        }
        let k = match db.find_user(id) {
            Some(k) => k,
            None => return Err(ServiceError::NotFound),
        };
        let old_rec = &db.users[k];
        let rec = UserRecord {
            id: old_rec.id,
            email: old_rec.email.clone(),
            username: data.new_username,
            password: old_rec.password.clone(),
            group: old_rec.group,
        };
        proof {
            let us = db.users@;
            let n = us.update(k as int, rec);
            assert forall|a: int, b: int| 0 <= a < n.len() && 0 <= b < n.len() && a != b implies
                #[trigger] n[a].username@ != #[trigger] n[b].username@ by {
                if a == k {
                    assert(n[b] == us[b]);
                    assert(us[b].username@ != rec.username@);
                }
                if b == k {
                    assert(n[a] == us[a]);
                    assert(us[a].username@ != rec.username@);
                }
            }
            assert forall|a: int, b: int| 0 <= a < n.len() && 0 <= b < n.len() && a != b implies
                #[trigger] n[a].id != #[trigger] n[b].id by {
                assert(n[a].id == us[a].id && n[b].id == us[b].id);
            }
            assert forall|a: int, b: int| 0 <= a < n.len() && 0 <= b < n.len() && a != b implies
                #[trigger] n[a].email@ != #[trigger] n[b].email@ by {
                assert(n[a].email@ == us[a].email@ && n[b].email@ == us[b].email@);
            }
            assert forall|a: int| 0 <= a < n.len() implies 0 < #[trigger] n[a].id < db.next_user_id by {
                assert(n[a].id == us[a].id);
            }
        }
        db.replace_user(k, rec);
        Ok("Username successfully changed!".to_owned())
    }

    /// Sets the personal fields of the profile of account `id`. `NotFound` when
    /// there is no such profile.
    pub fn change_personal_info(db: &mut Database, id: i32, data: ChangePersonalInformationJson) -> (r: Result<(), ServiceError>)
        requires
            old(db).wf(),
        ensures
            final(db).wf(),
            r is Err <==> !has_profile(old(db).profiles@, id),
            r is Err ==> r == Err::<(), ServiceError>(ServiceError::NotFound) && *final(db) == *old(db),
            r is Ok ==> {
                let k = profile_index(old(db).profiles@, id);
                let p = old(db).profiles@[k];
                &&& final(db).profiles@ == old(db).profiles@.update(k, Profile {
                    first_name: data.first_name,
                    last_name: data.last_name,
                    phone_number: data.phone_number,
                    ..p
                })
                &&& final(db).users == old(db).users
                &&& final(db).books == old(db).books
                &&& final(db).carts == old(db).carts
                &&& final(db).histories == old(db).histories
                &&& final(db).redis == old(db).redis
                &&& counters_kept(*old(db), *final(db))
            },
    {
        let k = match db.find_profile(id) {
            Some(k) => k,
            None => return Err(ServiceError::NotFound),
        };
        let p = &db.profiles[k];
        let rec = Profile {
            user_id: p.user_id,
            first_name: data.first_name,
            last_name: data.last_name,
            phone_number: data.phone_number,
            billing_address: p.billing_address.clone(),
            city: p.city.clone(),
            state_province: p.state_province.clone(),
            postal_code: p.postal_code.clone(),
        };
        db.replace_profile(k, rec);
        Ok(())
    }

    /// Sets the billing fields of the profile of account `id`; an absent state
    /// or province is stored as empty. `NotFound` when there is no such profile.
    pub fn change_billing_info(db: &mut Database, id: i32, data: ChangeBillingInformationJson) -> (r: Result<(), ServiceError>)
        requires
            old(db).wf(),
        ensures
            final(db).wf(),
            r is Err <==> !has_profile(old(db).profiles@, id),
            r is Err ==> r == Err::<(), ServiceError>(ServiceError::NotFound) && *final(db) == *old(db),
            r is Ok ==> {
                let k = profile_index(old(db).profiles@, id);
                let p = old(db).profiles@[k];
                let q = final(db).profiles@[k];
                &&& final(db).profiles@.len() == old(db).profiles@.len()
                &&& forall|i: int| 0 <= i < old(db).profiles@.len() && i != k ==> #[trigger] final(db).profiles@[i] == old(db).profiles@[i]
                &&& q.user_id == p.user_id
                &&& q.first_name == p.first_name
                &&& q.last_name == p.last_name
                &&& q.phone_number == p.phone_number
                &&& q.billing_address == data.billing_address
                &&& q.city == data.city
                &&& q.state_province@ == match data.state_province {
                    Some(s) => s@,
                    None => Seq::<char>::empty(),
                }
                &&& q.postal_code == data.postal_code
                &&& final(db).users == old(db).users
                &&& final(db).books == old(db).books
                &&& final(db).carts == old(db).carts
                &&& final(db).histories == old(db).histories
                &&& final(db).redis == old(db).redis
                &&& counters_kept(*old(db), *final(db))
            },
    {
        let k = match db.find_profile(id) {
            Some(k) => k,
            None => return Err(ServiceError::NotFound),
        };
        let p = &db.profiles[k];
        let state = match data.state_province {
            Some(s) => s,
            None => String::new(),
        };
        let rec = Profile {
            user_id: p.user_id,
            first_name: p.first_name.clone(),
            last_name: p.last_name.clone(),
            phone_number: p.phone_number.clone(),
            billing_address: data.billing_address,
            city: data.city,
            state_province: state,
            postal_code: data.postal_code,
        };
        db.replace_profile(k, rec);
        Ok(())
    }

    /// Deletes account `id` with its profile and its cart; an absent account
    /// changes nothing.
    pub fn delete_account(db: &mut Database, id: i32) -> (r: Result<(), ServiceError>)
        requires
            old(db).wf(),
        ensures
            final(db).wf(),
            r is Ok,
            !has_user(final(db).users@, id),
            !has_profile(final(db).profiles@, id),
            !has_cart(final(db).carts@, id),
            final(db).users@ == if has_user(old(db).users@, id) {
                old(db).users@.remove(user_index(old(db).users@, id))
            } else {
                old(db).users@
            },
            final(db).profiles@ == if has_profile(old(db).profiles@, id) {
                old(db).profiles@.remove(profile_index(old(db).profiles@, id))
            } else {
                old(db).profiles@
            },
            final(db).carts@ == if has_cart(old(db).carts@, id) {
                old(db).carts@.remove(cart_index(old(db).carts@, id))
            } else {
                old(db).carts@
            },
            final(db).books == old(db).books,
            final(db).histories == old(db).histories,
            final(db).redis == old(db).redis,
            counters_kept(*old(db), *final(db)),
    {
        if let Some(k) = db.find_user(id) {
            let ghost before = db.users@;
            let _ = db.users.remove(k);
            proof {
                let us = db.users@;
                assert forall|a: int| 0 <= a < us.len() implies #[trigger] us[a] == before[if a < k { a } else { a + 1 }] by {}
                assert forall|a: int, b: int| 0 <= a < us.len() && 0 <= b < us.len() && a != b implies
                    #[trigger] us[a].id != #[trigger] us[b].id by {
                    assert(us[a] == before[if a < k { a } else { a + 1 }]);
                    assert(us[b] == before[if b < k { b } else { b + 1 }]);
                }
                assert forall|a: int, b: int| 0 <= a < us.len() && 0 <= b < us.len() && a != b implies
                    #[trigger] us[a].email@ != #[trigger] us[b].email@ by {
                    assert(us[a] == before[if a < k { a } else { a + 1 }]);
                    assert(us[b] == before[if b < k { b } else { b + 1 }]);
                }
                assert forall|a: int, b: int| 0 <= a < us.len() && 0 <= b < us.len() && a != b implies
                    #[trigger] us[a].username@ != #[trigger] us[b].username@ by {
                    assert(us[a] == before[if a < k { a } else { a + 1 }]);
                    assert(us[b] == before[if b < k { b } else { b + 1 }]);
                }
                assert forall|a: int| 0 <= a < us.len() implies 0 < #[trigger] us[a].id < db.next_user_id by {
                    assert(us[a] == before[if a < k { a } else { a + 1 }]);
                }
                if has_user(us, id) {
                    let j = user_index(us, id);
                    assert(us[j] == before[if j < k { j } else { j + 1 }]);
                    assert(before[k as int].id == id);
                }
            }
        }
        if let Some(k) = db.find_profile(id) {
            let ghost before = db.profiles@;
            let _ = db.profiles.remove(k);
            proof {
                let ps = db.profiles@;
                assert forall|a: int, b: int| 0 <= a < ps.len() && 0 <= b < ps.len() && a != b implies
                    #[trigger] ps[a].user_id != #[trigger] ps[b].user_id by {
                    assert(ps[a] == before[if a < k { a } else { a + 1 }]);
                    assert(ps[b] == before[if b < k { b } else { b + 1 }]);
                }
                assert forall|a: int| 0 <= a < ps.len() implies #[trigger] ps[a].user_id < db.next_user_id by {
                    assert(ps[a] == before[if a < k { a } else { a + 1 }]);
                }
                if has_profile(ps, id) {
                    let j = profile_index(ps, id);
                    assert(ps[j] == before[if j < k { j } else { j + 1 }]);
                    assert(before[k as int].user_id == id);
                }
            }
        }
        let _ = crate::cart::Cart::delete_cart(db, id);
        Ok(())
    }

    /// Whether account `id` has the `Admin` role. `NotFound` for an unknown account.
    pub fn is_admin(db: &Database, id: i32) -> (r: Result<bool, ServiceError>)
        requires
            db.wf(),
        ensures
            r is Err <==> !has_user(db.users@, id),
            r is Err ==> r == Err::<bool, ServiceError>(ServiceError::NotFound),
            r matches Ok(b) ==> b == (db.users@[user_index(db.users@, id)].group == UserGroup::Admin),
    {
        match db.find_user(id) {
            Some(k) => Ok(db.users[k].group == UserGroup::Admin),
            None => Err(ServiceError::NotFound),
        }
    }

    /// Whether account `user_id` exists.
    pub fn is_user_exists(db: &Database, user_id: i32) -> (r: bool)
        requires
            db.wf(),
        ensures
            r == has_user(db.users@, user_id),
    {
        db.find_user(user_id).is_some()
    }

    /// The profile of account `user_id` with its username and email.
    /// `NotFound` when the account or its profile is absent.
    pub fn get_info(db: &Database, user_id: i32) -> (r: Result<UserInfo, ServiceError>)
        requires
            db.wf(),
        ensures
            r is Err <==> !has_user(db.users@, user_id) || !has_profile(db.profiles@, user_id),
            r is Err ==> r == Err::<UserInfo, ServiceError>(ServiceError::NotFound),
            r matches Ok(info) ==> {
                let u = db.users@[user_index(db.users@, user_id)];
                let p = db.profiles@[profile_index(db.profiles@, user_id)];
                &&& info.first_name == p.first_name
                &&& info.last_name == p.last_name
                &&& info.phone_number == p.phone_number
                &&& info.billing_address == p.billing_address
                &&& info.city == p.city
                &&& info.state_province == p.state_province
                &&& info.postal_code == p.postal_code
                &&& info.username == u.username
                &&& info.email == u.email
            },
    {
        let k = match db.find_user(user_id) {
            Some(k) => k,
            None => return Err(ServiceError::NotFound),
        };
        let j = match db.find_profile(user_id) {
            Some(j) => j,
            None => return Err(ServiceError::NotFound),
        };
        let p = &db.profiles[j];
        let u = &db.users[k];
        Ok(UserInfo {
            first_name: p.first_name.clone(),
            last_name: p.last_name.clone(),
            phone_number: p.phone_number.clone(),
            billing_address: p.billing_address.clone(),
            city: p.city.clone(),
            state_province: p.state_province.clone(),
            postal_code: p.postal_code.clone(),
            username: u.username.clone(),
            email: u.email.clone(),
        })
    }
}

/// Changing only the password of an account keeps the accounts well-formed.
proof fn lemma_password_change_wf(users: Seq<UserRecord>, next_id: i32, k: int, rec: UserRecord)
    requires
        users_wf(users, next_id),
        0 <= k < users.len(),
        rec.id == users[k].id,
        rec.email@ == users[k].email@,
        rec.username@ == users[k].username@,
    ensures
        users_wf(users.update(k, rec), next_id),
{
    let n = users.update(k, rec);
    assert forall|i: int| 0 <= i < n.len() implies #[trigger] n[i].id == users[i].id && n[i].email@ == users[i].email@
        && n[i].username@ == users[i].username@ by {}
    assert forall|i: int, j: int| 0 <= i < n.len() && 0 <= j < n.len() && i != j implies #[trigger] n[i].id != #[trigger] n[j].id by {
        assert(n[i].id == users[i].id && n[j].id == users[j].id);
    }
    assert forall|i: int, j: int|
        0 <= i < n.len() && 0 <= j < n.len() && i != j implies #[trigger] n[i].email@ != #[trigger] n[j].email@ by {
        assert(n[i].email@ == users[i].email@ && n[j].email@ == users[j].email@);
    }
    assert forall|i: int, j: int|
        0 <= i < n.len() && 0 <= j < n.len() && i != j implies #[trigger] n[i].username@ != #[trigger] n[j].username@ by {
        assert(n[i].username@ == users[i].username@ && n[j].username@ == users[j].username@);
    }
}

} // verus!
