use vstd::prelude::*;

verus! {

/// How a user signs in.
#[derive(Debug, Clone, Copy, PartialEq, Eq, Structural)]
pub enum AuthMethod {
    Google,
    Email,
}

/// The kind of a session token.
#[derive(Debug, Clone, Copy, PartialEq, Eq, Structural)]
pub enum TokenType {
    Access,
    Refresh,
}

/// The claims a session token carries.
#[derive(Debug, Clone)]
pub struct Claims {
    /// The user's id.
    pub sub: String,
    /// Expiry, in seconds since the epoch.
    pub exp: i64,
    /// Issue time, in seconds since the epoch.
    pub iat: i64,
    pub token_type: TokenType,
}

/// Issues and checks session tokens with one secret and two lifetimes.
#[derive(Debug, Clone)]
pub struct JwtManager {
    pub secret: String,
    pub access_token_expiry: i64,
    pub refresh_token_expiry: i64,
}

/// A request to exchange a refresh token.
#[derive(Debug, Clone)]
pub struct RefreshTokenRequest {
    pub refresh_token: String,
}

/// A sign-up request.
#[derive(Debug, Clone)]
pub struct CreateUserRequest {
    pub email: String,
    pub password: String,
    pub full_name: Option<String>,
}

/// A sign-in request.
#[derive(Debug, Clone)]
pub struct LoginRequest {
    pub email: String,
    pub password: String,
}

pub uninterp spec fn lowercase_of(s: Seq<char>) -> Seq<char>;

/// Relies on str::to_lowercase: the result depends on the characters alone,
/// and an empty string stays empty.
#[verifier::external_body]
fn lowercase(s: &str) -> (r: String)
    ensures
        r@ == lowercase_of(s@),
        s@.len() == 0 ==> r@.len() == 0,
{
    s.to_lowercase()
}

/// The method a stored, already lower-cased name stands for: "google" is
/// Google, anything else is e-mail.
pub open spec fn auth_method_of(lowered: Seq<char>) -> AuthMethod {
    if lowered == "google"@ {
        AuthMethod::Google
    } else {
        AuthMethod::Email
    }
}

impl AuthMethod {
    /// Reads a lower-cased stored name.
    pub fn from_lowercase(lowered: &str) -> (r: AuthMethod)
        ensures
            r == auth_method_of(lowered@),
    {
        let a: String = lowered.to_owned();
        let g: String = "google".to_owned();
        if a == g {
            AuthMethod::Google
        } else {
            AuthMethod::Email
        }
    }

    /// Reads a stored name in any case.
    pub fn from_str(s: &str) -> (r: AuthMethod)
        ensures
            r == auth_method_of(lowercase_of(s@)),
    {
        let lowered = lowercase(s);
        AuthMethod::from_lowercase(lowered.as_str())
    }

    /// The stored name.
    pub fn as_str(&self) -> (r: &'static str)
        ensures
            *self == AuthMethod::Google ==> r@ == "google"@,
            *self == AuthMethod::Email ==> r@ == "email"@,
    {
        match self {
            AuthMethod::Google => "google",
            AuthMethod::Email => "email",
        }
    }
}

impl JwtManager {
    pub fn new(secret: String, access_token_expiry: i64, refresh_token_expiry: i64) -> (r: Self)
        ensures
            r.secret == secret,
            r.access_token_expiry == access_token_expiry,
            r.refresh_token_expiry == refresh_token_expiry,
    {
        JwtManager { secret, access_token_expiry, refresh_token_expiry }
    }
}

} // verus!
