//! Password storage: a salted PBKDF2-HMAC-SHA512 key, kept as
//! `<salt in hex>$<derived key in hex>`.
use vstd::prelude::*;
use vstd::string::StrSliceExecFns;
use vstd::string::StringExecFns;
use crate::token::random_draws;

verus! {

/// The number of PBKDF2 rounds used for stored passwords.
pub const PASSWORD_ROUNDS: u32 = 100_000;

/// The length of a password salt, in bytes.
pub const SALT_LEN: usize = 16;

/// The length of a derived key, in bytes.
pub const KEY_LEN: usize = 64;

/// The PBKDF2-HMAC-SHA512 key of `len` bytes derived from the UTF-8 encoding of
/// `password` with `salt` and `rounds` rounds.
pub uninterp spec fn pbkdf2_sha512_of(password: Seq<char>, salt: Seq<u8>, rounds: u32, len: nat) -> Seq<u8>;

/// The lowercase hexadecimal digit for a value below sixteen.
pub open spec fn hex_digit(n: int) -> char {
    if n < 10 {
        (n + 48) as char
    } else {
        (n + 87) as char
    }
}

/// Each byte written as two lowercase hexadecimal digits, high nibble first.
pub open spec fn hex_of(b: Seq<u8>) -> Seq<char>
    decreases b.len(),
{
    if b.len() == 0 {
        Seq::empty()
    } else {
        hex_of(b.drop_last()) + seq![hex_digit(b.last() as int / 16), hex_digit(b.last() as int % 16)]
    }
}

/// The stored form of `password` under `salt`.
pub open spec fn stored_hash_of(password: Seq<char>, salt: Seq<u8>) -> Seq<char> {
    hex_of(salt) + seq!['$'] + hex_of(pbkdf2_sha512_of(password, salt, PASSWORD_ROUNDS, KEY_LEN as nat))
}

/// Whether `stored` is the stored form of `password` under some salt.
pub open spec fn password_matches(password: Seq<char>, stored: Seq<char>) -> bool {
    exists|salt: Seq<u8>| salt.len() == SALT_LEN && stored == #[trigger] stored_hash_of(password, salt)
}

/// The hexadecimal form has two digits per byte.
pub proof fn lemma_hex_len(b: Seq<u8>)
    ensures
        hex_of(b).len() == 2 * b.len(),
    decreases b.len(),
{
    if b.len() > 0 {
        lemma_hex_len(b.drop_last());
    }
}

proof fn lemma_hex_digit_injective(x: int, y: int)
    requires
        0 <= x < 16,
        0 <= y < 16,
        hex_digit(x) == hex_digit(y),
    ensures
        x == y,
{
    assert(hex_digit(x) as u32 == if x < 10 { x + 48 } else { x + 87 });
    assert(hex_digit(y) as u32 == if y < 10 { y + 48 } else { y + 87 });
}

/// Distinct byte strings have distinct hexadecimal forms.
pub proof fn lemma_hex_injective(a: Seq<u8>, b: Seq<u8>)
    requires
        hex_of(a) == hex_of(b),
    ensures
        a == b,
    decreases a.len(),
{
    lemma_hex_len(a);
    lemma_hex_len(b);
    if a.len() > 0 {
        let ha = hex_of(a);
        let n = ha.len() as int;
        let x = a.last() as int;
        let y = b.last() as int;
        lemma_hex_len(a.drop_last());
        lemma_hex_len(b.drop_last());
        assert(ha[n - 2] == hex_digit(x / 16));
        assert(hex_of(b)[n - 2] == hex_digit(y / 16));
        assert(ha[n - 1] == hex_digit(x % 16));
        assert(hex_of(b)[n - 1] == hex_digit(y % 16));
        lemma_hex_digit_injective(x / 16, y / 16);
        lemma_hex_digit_injective(x % 16, y % 16);
        assert(hex_of(a.drop_last()) =~= ha.subrange(0, n - 2));
        assert(hex_of(b.drop_last()) =~= hex_of(b).subrange(0, n - 2));
        lemma_hex_injective(a.drop_last(), b.drop_last());
        assert(a =~= a.drop_last().push(a.last()));
        assert(b =~= b.drop_last().push(b.last()));
    } else {
        assert(a =~= b);
    }
}

/// Relies on pbkdf2::pbkdf2_hmac with sha2::Sha512: it fills `key` with a derived
/// key of the same length, which depends on the password bytes, the salt, the
/// round count and that length alone.
#[verifier::external_body]
fn pbkdf2_sha512(password: &str, salt: &Vec<u8>, rounds: u32, key: &mut Vec<u8>)
    ensures
        final(key)@ == pbkdf2_sha512_of(password@, salt@, rounds, old(key)@.len()),
{
    pbkdf2::pbkdf2_hmac::<sha2::Sha512>(password.as_bytes(), salt, rounds, key);
}

/// Relies on hex::encode: two lowercase hexadecimal digits per byte, in order.
#[verifier::external_body]
fn hex_encode(b: &Vec<u8>) -> (r: String)
    ensures
        r@ == hex_of(b@),
{
    hex::encode(b)
}

/// Relies on hex::decode: the bytes whose hexadecimal form is `s`, where there
/// are such bytes; it gives one byte per two digits (it also reads uppercase
/// digits, which this library never writes).
#[verifier::external_body]
fn hex_decode(s: &str) -> (r: Option<Vec<u8>>)
    ensures
        r is None ==> forall|b: Seq<u8>| #[trigger] hex_of(b) != s@,
        r matches Some(v) ==> 2 * v@.len() == s@.len(),
        r matches Some(v) ==> forall|b: Seq<u8>| #[trigger] hex_of(b) == s@ ==> b == v@,
{
    hex::decode(s).ok()
}

/// The bytes whose `i`-th is `draws[i]`.
pub open spec fn salt_of_draws(draws: Seq<usize>) -> Seq<u8> {
    Seq::new(draws.len(), |i: int| draws[i] as u8)
}

/// The salt whose `i`-th byte is `draws[i]`.
pub fn salt_from_draws(draws: &Vec<usize>) -> (r: Vec<u8>)
    requires
        forall|i: int| 0 <= i < draws@.len() ==> #[trigger] draws@[i] < 256,
    ensures
        r@ == salt_of_draws(draws@),
{
    let mut salt: Vec<u8> = Vec::new();
    let mut k: usize = 0;
    while k < draws.len()
        invariant
            forall|i: int| 0 <= i < draws@.len() ==> #[trigger] draws@[i] < 256,
            k <= draws@.len(),
            salt@ == Seq::new(k as nat, |i: int| draws@[i] as u8),
        decreases draws@.len() - k,
    {
        salt.push(draws[k] as u8);
        proof {
            assert(salt@ =~= Seq::new((k + 1) as nat, |i: int| draws@[i] as u8));
        }
        k = k + 1;
    }
    salt
}

/// A fresh random salt: the salt that `salt_from_draws` builds from `SALT_LEN`
/// random draws below 256.
pub fn generate_salt() -> (r: Vec<u8>)
    ensures
        r@.len() == SALT_LEN,
        exists|d: Seq<usize>| d.len() == SALT_LEN && (forall|i: int| 0 <= i < d.len() ==> #[trigger] d[i] < 256)
            && r@ == #[trigger] salt_of_draws(d),
{
    let draws = random_draws(256, SALT_LEN);
    let salt = salt_from_draws(&draws);
    proof {
        assert(salt@ == salt_of_draws(draws@));
    }
    salt
}

/// The stored form of `password` under `salt`.
pub fn hash_password_with_salt(password: &str, salt: &Vec<u8>) -> (r: String)
    ensures
        r@ == stored_hash_of(password@, salt@),
{
    let mut key: Vec<u8> = vec![0u8; KEY_LEN];
    pbkdf2_sha512(password, salt, PASSWORD_ROUNDS, &mut key);
    let mut out = hex_encode(salt);
    out.append("$");
    let key_hex = hex_encode(&key);
    out.append(key_hex.as_str());
    proof {
        reveal_strlit("$");
        assert(out@ =~= stored_hash_of(password@, salt@));
    }
    out
}

/// Hashes a password under a fresh random salt into the form kept in the user table.
pub fn hash_password(password: &str) -> (r: String)
    ensures
        password_matches(password@, r@),
{
    let salt = generate_salt();
    hash_password_with_salt(password, &salt)
}

/// Whether `hashed_password` is the stored form of `password` under some salt.
pub fn verify_password(password: &str, hashed_password: &str) -> (r: bool)
    ensures
        r == password_matches(password@, hashed_password@),
{
    let n = hashed_password.unicode_len();
    if n < 2 * SALT_LEN {
        proof {
            assert forall|salt: Seq<u8>| salt.len() == SALT_LEN implies hashed_password@ != #[trigger] stored_hash_of(password@, salt) by {
                lemma_hex_len(salt);
            }
        }
        return false;
    }
    let salt_hex = hashed_password.substring_char(0, 2 * SALT_LEN);
    let salt = match hex_decode(salt_hex) {
        Some(s) => s,
        None => {
            proof {
                assert forall|salt: Seq<u8>| salt.len() == SALT_LEN implies hashed_password@ != #[trigger] stored_hash_of(password@, salt) by {
                    lemma_hex_len(salt);
                    if hashed_password@ == stored_hash_of(password@, salt) {
                        assert(hashed_password@.subrange(0, 32) =~= hex_of(salt));
                    }
                }
            }
            return false;
        },
    };
    let computed = hash_password_with_salt(password, &salt);
    let expected = hashed_password.to_owned();
    let same = computed == expected;
    proof {
        if same {
            lemma_hex_len(salt@);
            assert(hashed_password@ == stored_hash_of(password@, salt@));
            assert(salt@.len() == SALT_LEN);
        } else {
            assert forall|s2: Seq<u8>| s2.len() == SALT_LEN implies hashed_password@ != #[trigger] stored_hash_of(password@, s2) by {
                lemma_hex_len(s2);
                if hashed_password@ == stored_hash_of(password@, s2) {
                    assert(hashed_password@.subrange(0, 32) =~= hex_of(s2));
                    assert(s2 == salt@);
                }
            }
        }
    }
    same
}

} // verus!
