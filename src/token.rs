//! Random one-time tokens: password-reset tokens and six-digit sign-in codes.
use vstd::prelude::*;
use vstd::string::StrSliceExecFns;
use vstd::string::StringExecFns;
use crate::redis::expiry;

verus! {

/// The characters a password-reset token is drawn from.
pub const RESET_TOKEN_ALPHABET: &'static str = "ABCDEFGHIJKLMNOPQRSTUVWXYZabcdefghijklmnopqrstuvwxyz0123456789";

/// The characters a sign-in code is drawn from.
pub const CODE_ALPHABET: &'static str = "0123456789";

/// The length of a password-reset token.
pub const RESET_TOKEN_LEN: usize = 32;

/// The length of a sign-in code.
pub const CODE_LEN: usize = 6;

/// How long a bearer session token stays valid, in seconds.
pub const SESSION_TTL: u64 = 3600;

/// The expiry instant (seconds) of a session token issued at `issued_at`.
pub fn session_expiry(issued_at: u64) -> (r: u64)
    ensures
        r == expiry(issued_at, SESSION_TTL),
{
    if issued_at > u64::MAX - SESSION_TTL {
        u64::MAX
    } else {
        issued_at + SESSION_TTL
    }
}

/// Relies on rand::thread_rng and rand::Rng::gen_range: a value drawn from `0..bound`
/// (the range must not be empty).
#[verifier::external_body]
pub(crate) fn random_below(bound: usize) -> (r: usize)
    requires
        bound > 0,
    ensures
        r < bound,
{
    rand::Rng::gen_range(&mut rand::thread_rng(), 0..bound)
}

/// The string whose `i`-th character is `alphabet[draws[i]]`.
pub open spec fn string_of_draws(alphabet: Seq<char>, draws: Seq<usize>) -> Seq<char> {
    Seq::new(draws.len(), |i: int| alphabet[draws[i] as int])
}

/// The string that the draws pick out of `alphabet`: its `i`-th character is
/// `alphabet[draws[i]]`.
pub fn token_from_draws(alphabet: &str, draws: &Vec<usize>) -> (r: String)
    requires
        forall|i: int| 0 <= i < draws@.len() ==> #[trigger] draws@[i] < alphabet@.len(),
    ensures
        r@ == string_of_draws(alphabet@, draws@),
{
    let n = alphabet.unicode_len();
    let mut out = String::new();
    let mut k: usize = 0;
    while k < draws.len()
        invariant
            n == alphabet@.len(),
            forall|i: int| 0 <= i < draws@.len() ==> #[trigger] draws@[i] < alphabet@.len(),
            k <= draws@.len(),
            out@ == string_of_draws(alphabet@, draws@.subrange(0, k as int)),
        decreases draws@.len() - k,
    {
        let idx = draws[k];
        let piece = alphabet.substring_char(idx, idx + 1);
        out.append(piece);
        proof {
            assert(out@ =~= string_of_draws(alphabet@, draws@.subrange(0, k + 1)));
        }
        k = k + 1;
    }
    proof {
        assert(draws@.subrange(0, draws@.len() as int) =~= draws@);
    }
    out
}

/// `len` values drawn at random from `0..bound`.
pub(crate) fn random_draws(bound: usize, len: usize) -> (r: Vec<usize>)
    requires
        bound > 0,
    ensures
        r@.len() == len,
        forall|i: int| 0 <= i < len ==> #[trigger] r@[i] < bound,
{
    let mut draws: Vec<usize> = Vec::new();
    let mut k: usize = 0;
    while k < len
        invariant
            bound > 0,
            k <= len,
            draws@.len() == k,
            forall|i: int| 0 <= i < k ==> #[trigger] draws@[i] < bound,
        decreases len - k,
    {
        draws.push(random_below(bound));
        k = k + 1;
    }
    draws
}

/// A password-reset token from 32 draws below 62, each picking a character of
/// `RESET_TOKEN_ALPHABET`.
pub fn reset_token_from_draws(draws: &Vec<usize>) -> (r: String)
    requires
        draws@.len() == RESET_TOKEN_LEN,
        forall|i: int| 0 <= i < draws@.len() ==> #[trigger] draws@[i] < 62,
    ensures
        r@ == string_of_draws(RESET_TOKEN_ALPHABET@, draws@),
        r@.len() == RESET_TOKEN_LEN,
{
    proof {
        reveal_strlit("ABCDEFGHIJKLMNOPQRSTUVWXYZabcdefghijklmnopqrstuvwxyz0123456789");
    }
    token_from_draws(RESET_TOKEN_ALPHABET, draws)
}

/// A sign-in code from six draws below ten, each picking a decimal digit.
pub fn code_from_draws(draws: &Vec<usize>) -> (r: String)
    requires
        draws@.len() == CODE_LEN,
        forall|i: int| 0 <= i < draws@.len() ==> #[trigger] draws@[i] < 10,
    ensures
        r@ == string_of_draws(CODE_ALPHABET@, draws@),
        r@.len() == CODE_LEN,
{
    proof {
        reveal_strlit("0123456789");
    }
    token_from_draws(CODE_ALPHABET, draws)
}

/// Generates tokens and codes.
pub struct Token;

impl Token {
    /// A random password-reset token of 32 ASCII letters and digits: the token
    /// that `reset_token_from_draws` builds from 32 random draws below 62.
    pub fn generate_reset_token() -> (r: String)
        ensures
            r@.len() == RESET_TOKEN_LEN,
            forall|i: int| 0 <= i < RESET_TOKEN_LEN ==> RESET_TOKEN_ALPHABET@.contains(#[trigger] r@[i]),
            exists|d: Seq<usize>| d.len() == RESET_TOKEN_LEN && (forall|i: int| 0 <= i < d.len() ==> #[trigger] d[i] < 62)
                && r@ == #[trigger] string_of_draws(RESET_TOKEN_ALPHABET@, d),
    {
        let draws = random_draws(62, RESET_TOKEN_LEN);
        let r = reset_token_from_draws(&draws);
        proof {
            reveal_strlit("ABCDEFGHIJKLMNOPQRSTUVWXYZabcdefghijklmnopqrstuvwxyz0123456789");
            assert forall|i: int| 0 <= i < RESET_TOKEN_LEN implies RESET_TOKEN_ALPHABET@.contains(#[trigger] r@[i]) by {
                assert(r@[i] == RESET_TOKEN_ALPHABET@[draws@[i] as int]);
            }
        }
        r
    }

    /// A random sign-in code of six decimal digits: the code that
    /// `code_from_draws` builds from six random draws below ten.
    pub fn generate_six_digit_number() -> (r: String)
        ensures
            r@.len() == CODE_LEN,
            forall|i: int| 0 <= i < CODE_LEN ==> CODE_ALPHABET@.contains(#[trigger] r@[i]),
            exists|d: Seq<usize>| d.len() == CODE_LEN && (forall|i: int| 0 <= i < d.len() ==> #[trigger] d[i] < 10)
                && r@ == #[trigger] string_of_draws(CODE_ALPHABET@, d),
    {
        let draws = random_draws(10, CODE_LEN);
        let r = code_from_draws(&draws);
        proof {
            reveal_strlit("0123456789");
            assert forall|i: int| 0 <= i < CODE_LEN implies CODE_ALPHABET@.contains(#[trigger] r@[i]) by {
                assert(r@[i] == CODE_ALPHABET@[draws@[i] as int]);
            }
        }
        r
    }
}

} // verus!
