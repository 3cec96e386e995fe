//! The text of the emails that carry tokens and codes; sending them is left to
//! the caller.
use vstd::prelude::*;
use vstd::string::StringExecFns;

verus! {

/// The sender address of every message.
pub const SENDER: &'static str = "noreply@library-basement.com";

/// The page where a reset token is entered.
pub const RESET_PAGE: &'static str = "https://library-basement.vercel.app/reset-password?token=";

/// The messages this service sends.
pub struct Email;

impl Email {
    /// The subject of a password-reset message.
    pub fn password_reset_subject() -> (r: &'static str)
        ensures
            r@ == "Password reset request"@,
    {
        "Password reset request"
    }

    /// The body of a password-reset message: the token, then a link that carries it.
    pub fn password_reset_body(reset_token: &str) -> (r: String)
        ensures
            r@ == "Your password reset code: "@ + reset_token@ + "\nOr follow "@ + RESET_PAGE@ + reset_token@,
    {
        let mut body = String::from_str("Your password reset code: ");
        body.append(reset_token);
        body.append("\nOr follow ");
        body.append(RESET_PAGE);
        body.append(reset_token);
        body
    }

    /// The subject of a sign-in code message.
    pub fn authentication_code_subject() -> (r: &'static str)
        ensures
            r@ == "Email sign-in code"@,
    {
        "Email sign-in code"
    }

    /// The body of a sign-in code message.
    pub fn authentication_code_body(code: &str) -> (r: String)
        ensures
            r@ == "Your sign-in code: "@ + code@,
    {
        let mut body = String::from_str("Your sign-in code: ");
        body.append(code);
        body
    }
}

} // verus!
