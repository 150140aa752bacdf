//! Sign-in forms and the claims that a session token carries.

use vstd::prelude::*;

verus! {

/// How long a token stays valid: one day, in seconds.
pub const TOKEN_LIFETIME_SECS: usize = 86400;

/// The claims of a session token.
pub struct Claims {
    pub sub: usize,
    pub name: String,
    pub iat: usize,
    pub exp: usize,
}

impl Claims {
    /// Claims for user `user_id` named `name`, issued at `issued_at`
    /// (seconds since the Unix epoch) and expiring one day later.
    pub fn new(user_id: usize, name: String, issued_at: usize) -> (r: Claims)
        requires
            issued_at + TOKEN_LIFETIME_SECS <= usize::MAX,
        ensures
            r.sub == user_id,
            r.name@ == name@,
            r.iat == issued_at,
            r.exp == issued_at + TOKEN_LIFETIME_SECS,
    {
        Claims { sub: user_id, name, iat: issued_at, exp: issued_at + TOKEN_LIFETIME_SECS }
    }
}

/// The sign-in form.
pub struct SignInFormData {
    pub email: String,
    pub password: String,
}

/// The form that updates a user's profile.
pub struct UserFormData {
    pub user: String,
    pub name: String,
    pub icon: String,
}

} // verus!
