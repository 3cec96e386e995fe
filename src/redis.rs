//! The ephemeral key-value store for one-time tokens: each token maps to a user
//! and an expiry instant (seconds); a lookup after expiry finds nothing.
use vstd::prelude::*;

verus! {

/// How long an email sign-in code stays valid, in seconds.
pub const EMAIL_CODE_TTL: u64 = 30;

/// How long a password-reset token stays valid, in seconds.
pub const RESET_TOKEN_TTL: u64 = 3600;

/// One stored token.
pub struct TokenEntry {
    pub token: String,
    pub user_id: u32,
    pub expires_at: u64,
}

/// The token store.
pub struct Redis {
    pub entries: Vec<TokenEntry>,
}

/// The expiry instant of a token stored at `now` for `ttl` seconds (saturating).
pub open spec fn expiry(now: u64, ttl: u64) -> u64 {
    if now as int + ttl as int > u64::MAX as int {
        u64::MAX
    } else {
        (now + ttl) as u64
    }
}

impl Redis {
    /// Tokens are keys: no two entries share one, and every user id fits an `i32`.
    pub open spec fn wf(&self) -> bool {
        &&& forall|i: int, j: int|
            0 <= i < self.entries@.len() && 0 <= j < self.entries@.len() && i != j
                ==> #[trigger] self.entries@[i].token@ != #[trigger] self.entries@[j].token@
        &&& forall|i: int|
            0 <= i < self.entries@.len() ==> #[trigger] self.entries@[i].user_id <= i32::MAX
    }

    /// Whether token `t` is stored, expired or not.
    pub open spec fn has_key(&self, t: Seq<char>) -> bool {
        exists|i: int| 0 <= i < self.entries@.len() && #[trigger] self.entries@[i].token@ == t
    }

    /// The position of token `t`.
    pub open spec fn key_index(&self, t: Seq<char>) -> int {
        choose|i: int| 0 <= i < self.entries@.len() && #[trigger] self.entries@[i].token@ == t
    }

    /// The user that `t` stands for at instant `now`, if it is stored and not expired.
    pub open spec fn lookup(&self, t: Seq<char>, now: u64) -> Option<u32> {
        if self.has_key(t) && now < self.entries@[self.key_index(t)].expires_at {
            Some(self.entries@[self.key_index(t)].user_id)
        } else {
            None
        }
    }

    /// What is stored under `t`, expired or not: its user and its expiry.
    pub open spec fn stored(&self, t: Seq<char>) -> Option<(u32, u64)> {
        if self.has_key(t) {
            Some((self.entries@[self.key_index(t)].user_id, self.entries@[self.key_index(t)].expires_at))
        } else {
            None
        }
    }

    /// `new` is `old` with `t` taken out and every other key kept as it was.
    pub open spec fn removed(old: Redis, new: Redis, t: Seq<char>) -> bool {
        &&& new.wf()
        &&& new.stored(t) is None
        &&& forall|k: Seq<char>| k != t ==> #[trigger] new.stored(k) == old.stored(k)
    }

    /// What a consumption of `t` at `now` does: it returns what `t` stood for and
    /// takes it out of the store.
    pub open spec fn consumed(old: Redis, new: Redis, t: Seq<char>, now: u64, r: Option<u32>) -> bool {
        &&& r == old.lookup(t, now)
        &&& Redis::removed(old, new, t)
    }

    /// An empty store.
    pub fn new() -> (r: Redis)
        ensures
            r.wf(),
            forall|k: Seq<char>| #[trigger] r.stored(k) is None,
    {
        Redis { entries: Vec::new() }
    }

    /// The position of token `t`, if it is stored.
    fn find(&self, t: &String) -> (r: Option<usize>)
        requires
            self.wf(),
        ensures
            match r {
                Some(i) => i < self.entries@.len() && self.has_key(t@) && i == self.key_index(t@),
                None => !self.has_key(t@),
            },
    {
        let mut i: usize = 0;
        while i < self.entries.len()
            invariant
                self.wf(),
                i <= self.entries@.len(),
                forall|j: int| 0 <= j < i ==> #[trigger] self.entries@[j].token@ != t@,
            decreases self.entries@.len() - i,
        {
            if self.entries[i].token == *t {
                proof {
                    let k = self.key_index(t@);
                    assert(self.entries@[i as int].token@ == t@);
                    assert(self.has_key(t@));
                    assert(self.entries@[k].token@ == t@);
                    assert(k == i as int);
                }
                return Some(i);
            }
            i = i + 1;
        }
        None
    }

    /// What is stored under `t` once the entries expired at `now` are dropped.
    pub open spec fn stored_after_purge(&self, t: Seq<char>, now: u64) -> Option<(u32, u64)> {
        match self.stored(t) {
            Some((u, e)) => if now < e { Some((u, e)) } else { None },
            None => None,
        }
    }

    /// Drops every entry that has expired at `now`.
    pub fn purge_expired(&mut self, now: u64)
        requires
            old(self).wf(),
        ensures
            final(self).wf(),
            forall|k: Seq<char>| #[trigger] final(self).stored(k) == old(self).stored_after_purge(k, now),
    {
        let ghost before = *self;
        let ghost es = self.entries@;
        let mut kept: Vec<TokenEntry> = Vec::new();
        let ghost mut src: Seq<int> = Seq::empty();
        let mut i: usize = 0;
        while i < self.entries.len()
            invariant
                *self == before,
                es == self.entries@,
                before.wf(),
                i <= es.len(),
                src.len() == kept@.len(),
                forall|j: int| 0 <= j < src.len() ==> 0 <= #[trigger] src[j] < i,
                forall|j: int| 0 <= j < src.len() ==> kept@[j] == es[#[trigger] src[j]],
                forall|j: int| 0 <= j < src.len() ==> now < es[#[trigger] src[j]].expires_at,
                forall|a: int, b: int| 0 <= a < b < src.len() ==> #[trigger] src[a] < #[trigger] src[b],
                forall|m: int| 0 <= m < i && now < #[trigger] es[m].expires_at ==> exists|j: int| 0 <= j < src.len() && src[j] == m,
            decreases es.len() - i,
        {
            let ghost src0 = src;
            let e = &self.entries[i];
            if now < e.expires_at {
                kept.push(TokenEntry { token: e.token.clone(), user_id: e.user_id, expires_at: e.expires_at });
                proof {
                    let n = src.len() as int;
                    src = src.push(i as int);
                    assert(src[n] == i as int);
                    assert(kept@[n] == es[i as int]);
                }
            }
            proof {
                assert forall|m: int| 0 <= m < i + 1 && now < #[trigger] es[m].expires_at implies exists|j: int| 0 <= j < src.len() && src[j] == m by {
                    if m == i {
                        let n = (src.len() - 1) as int;
                        assert(src[n] == m);
                    } else {
                        let j0 = choose|j: int| 0 <= j < src0.len() && src0[j] == m;
                        assert(src[j0] == m);
                    }
                }
            }
            i = i + 1;
        }
        self.entries = kept;
        proof {
            let ks = self.entries@;
            assert forall|a: int, b: int| 0 <= a < ks.len() && 0 <= b < ks.len() && a != b implies
                #[trigger] ks[a].token@ != #[trigger] ks[b].token@ by {
                assert(ks[a] == es[src[a]]);
                assert(ks[b] == es[src[b]]);
                if a < b {
                    assert(src[a] < src[b]);
                } else {
                    assert(src[b] < src[a]);
                }
            }
            assert forall|a: int| 0 <= a < ks.len() implies #[trigger] ks[a].user_id <= i32::MAX by {
                assert(ks[a] == es[src[a]]);
            }
            assert forall|k: Seq<char>| #[trigger] self.stored(k) == before.stored_after_purge(k, now) by {
                if self.has_key(k) {
                    let j = self.key_index(k);
                    assert(ks[j] == es[src[j]]);
                    assert(es[src[j]].token@ == k);
                    assert(before.has_key(k));
                    let m = before.key_index(k);
                    assert(es[m].token@ == k);
                    assert(m == src[j]);
                }
                if before.has_key(k) {
                    let m = before.key_index(k);
                    assert(es[m].token@ == k);
                    if now < es[m].expires_at {
                        let j = choose|j: int| 0 <= j < src.len() && src[j] == m;
                        assert(ks[j] == es[m]);
                        assert(ks[j].token@ == k);
                        assert(self.has_key(k));
                    } else if self.has_key(k) {
                        let j = self.key_index(k);
                        assert(ks[j] == es[src[j]]);
                        assert(es[src[j]].token@ == k);
                        assert(src[j] == m);
                    }
                }
            }
        }
    }

    /// Stores `token` for `user_id` for `ttl` seconds from `now`, replacing what
    /// the token stood for before; entries expired at `now` are dropped on the way.
    pub fn set_token_with_ttl(&mut self, user_id: u32, token: &str, now: u64, ttl: u64)
        requires
            old(self).wf(),
            user_id <= i32::MAX,
        ensures
            final(self).wf(),
            final(self).stored(token@) == Some((user_id, expiry(now, ttl))),
            forall|k: Seq<char>| k != token@ ==> #[trigger] final(self).stored(k) == old(self).stored_after_purge(k, now),
    {
        self.purge_expired(now);
        let t = token.to_owned();
        let expires_at: u64 = if now > u64::MAX - ttl { u64::MAX } else { now + ttl };
        let found = self.find(&t);
        let ghost before = *self;
        match found {
            Some(i) => {
                self.entries.set(i, TokenEntry { token: t, user_id, expires_at });
                proof {
                    assert(self.entries@[i as int].token@ == token@);
                    assert forall|k: Seq<char>| k != token@ implies #[trigger] self.stored(k) == before.stored(k) by {
                        if before.has_key(k) {
                            let j = before.key_index(k);
                            assert(self.entries@[j].token@ == k);
                        }
                        if self.has_key(k) {
                            let j = self.key_index(k);
                            assert(before.entries@[j].token@ == k);
                        }
                    }
                }
            },
            None => {
                self.entries.push(TokenEntry { token: t, user_id, expires_at });
                proof {
                    let n = before.entries@.len() as int;
                    assert(self.entries@[n].token@ == token@);
                    assert forall|k: Seq<char>| k != token@ implies #[trigger] self.stored(k) == before.stored(k) by {
                        if before.has_key(k) {
                            let j = before.key_index(k);
                            assert(self.entries@[j].token@ == k);
                        }
                        if self.has_key(k) {
                            let j = self.key_index(k);
                            assert(before.entries@[j].token@ == k);
                        }
                    }
                }
            },
        }
    }

    /// Stores `token` for `user_id`, valid for the sign-in code lifetime; entries
    /// expired at `now` are dropped on the way.
    pub fn set_token_to_user(&mut self, user_id: u32, token: &str, now: u64)
        requires
            old(self).wf(),
            user_id <= i32::MAX,
        ensures
            final(self).wf(),
            final(self).stored(token@) == Some((user_id, expiry(now, EMAIL_CODE_TTL))),
            forall|k: Seq<char>| k != token@ ==> #[trigger] final(self).stored(k) == old(self).stored_after_purge(k, now),
    {
        self.set_token_with_ttl(user_id, token, now, EMAIL_CODE_TTL);
    }

    /// The user id that `token` stands for at `now`, or -1 where it is absent or expired.
    pub fn get_user_id_by_token(&self, token: &str, now: u64) -> (r: i32)
        requires
            self.wf(),
        ensures
            r == match self.lookup(token@, now) {
                Some(u) => u as i32,
                None => -1i32,
            },
    {
        let t = token.to_owned();
        match self.find(&t) {
            Some(i) => {
                if now < self.entries[i].expires_at {
                    self.entries[i].user_id as i32
                } else {
                    -1
                }
            },
            None => -1,
        }
    }

    /// Takes `token` out of the store and returns the user it stood for at `now`:
    /// a fetch and a delete in one step, so that a token serves once.
    pub fn consume_token(&mut self, token: &str, now: u64) -> (r: Option<u32>)
        requires
            old(self).wf(),
        ensures
            Redis::consumed(*old(self), *final(self), token@, now, r),
    {
        let t = token.to_owned();
        let ghost before = *self;
        match self.find(&t) {
            Some(i) => {
                let e = self.entries.remove(i);
                proof {
                    assert forall|k: Seq<char>| k != token@ implies #[trigger] self.stored(k) == before.stored(k) by {
                        if before.has_key(k) {
                            let j = before.key_index(k);
                            if j < i {
                                assert(self.entries@[j].token@ == k);
                            } else {
                                assert(self.entries@[j - 1].token@ == k);
                            }
                        }
                        if self.has_key(k) {
                            let j = self.key_index(k);
                            if j < i {
                                assert(before.entries@[j].token@ == k);
                            } else {
                                assert(before.entries@[j + 1].token@ == k);
                            }
                        }
                    }
                    if self.has_key(token@) {
                        let j = self.key_index(token@);
                        if j < i {
                            assert(before.entries@[j].token@ == token@);
                        } else {
                            assert(before.entries@[j + 1].token@ == token@);
                        }
                    }
                }
                if now < e.expires_at {
                    Some(e.user_id)
                } else {
                    None
                }
            },
            None => None,
        }
    }
}

} // verus!
