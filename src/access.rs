//! Decisions of the REST layer: reading the bearer token, who may do what,
//! checking a login, the session's expiry, and pagination.
use vstd::prelude::*;
use crate::model::{Claims, CreateUser, DatabaseError, NewUser, PaginationParams, UserWithPassword};

verus! {

broadcast use vstd::string::group_string_axioms;

/// Why a request is refused.
#[derive(Clone, Copy, Debug, PartialEq, Eq, Structural)]
pub enum ApiError {
    /// No valid session, wrong credentials, or not an administrator.
    Unauthorized,
    /// The request contradicts itself (an administrator deleting their own
    /// account).
    BadRequest,
    /// The store or a library call failed.
    Internal,
}

/// Seconds in a session's lifetime: seven days.
pub const SESSION_SECONDS: usize = 604800;

/// Rows on one page of a listing.
pub const PAGE_SIZE: i64 = 50;

/// The text an `Authorization` header starts with before the token.
pub open spec fn bearer_prefix() -> Seq<char> {
    seq!['B', 'e', 'a', 'r', 'e', 'r', ' ']
}

/// The token of an `Authorization` header: what follows `"Bearer "`, when
/// the header starts with it.
pub open spec fn bearer_of(header: Seq<char>) -> Option<Seq<char>> {
    if header.len() >= 7 && header.take(7) == bearer_prefix() {
        Some(header.skip(7))
    } else {
        None
    }
}

/// The token of an `Authorization` header of the form `"Bearer <token>"`.
pub fn bearer_token(header: &str) -> (r: Option<&str>)
    ensures
        match r {
            Some(t) => bearer_of(header@) == Some(t@),
            None => bearer_of(header@) is None,
        },
{
    proof {
        reveal_strlit("Bearer ");
    }
    let n = header.unicode_len();
    if n < 7 {
        return None;
    }
    let prefix = String::from_str(header.substring_char(0, 7));
    let expected = String::from_str("Bearer ");
    assert(header@.subrange(0, 7) =~= header@.take(7));
    assert(expected@ =~= bearer_prefix());
    if prefix == expected {
        assert(header@.subrange(7, n as int) =~= header@.skip(7));
        Some(header.substring_char(7, n))
    } else {
        None
    }
}

/// Lets only administrators through.
pub fn require_admin(claims: &Claims) -> (r: Result<(), ApiError>)
    ensures
        r is Ok <==> claims.is_admin,
        r is Err ==> r == Err::<(), ApiError>(ApiError::Unauthorized),
{
    if claims.is_admin {
        Ok(())
    } else {
        Err(ApiError::Unauthorized)
    }
}

/// Whether the session `claims` may delete the user whose id reads `target`:
/// only an administrator may, and not their own account.
pub fn check_user_deletion(claims: &Claims, target: &str) -> (r: Result<(), ApiError>)
    ensures
        !claims.is_admin ==> r == Err::<(), ApiError>(ApiError::Unauthorized),
        claims.is_admin && claims.sub@ == target@ ==> r == Err::<(), ApiError>(
            ApiError::BadRequest,
        ),
        claims.is_admin && claims.sub@ != target@ ==> r is Ok,
{
    if !claims.is_admin {
        return Err(ApiError::Unauthorized);
    }
    if claims.sub == String::from_str(target) {
        Err(ApiError::BadRequest)
    } else {
        Ok(())
    }
}

/// What `bcrypt::verify` says of `password` against the stored `hash`:
/// whether it matches, or nothing when the hash cannot be read.
pub uninterp spec fn bcrypt_verdict(password: Seq<char>, hash: Seq<char>) -> Option<bool>;

/// Relies on `bcrypt::verify`: it rehashes `password` with the cost and salt
/// written in `hash` and compares, so its answer depends on the two texts
/// alone; an unreadable hash is an error.
#[verifier::external_body]
fn verify_password(password: &str, hash: &str) -> (r: Option<bool>)
    ensures
        r == bcrypt_verdict(password@, hash@),
{
    bcrypt::verify(password, hash).ok()
}

/// The login verdict once the password was checked: the account when the
/// check said it matches, `Unauthorized` when it did not, `Internal` when
/// the stored hash could not be read.
pub fn login_verdict(
    account: UserWithPassword,
    verdict: Option<bool>,
) -> (r: Result<UserWithPassword, ApiError>)
    ensures
        verdict == Some(true) ==> r == Ok::<UserWithPassword, ApiError>(account),
        verdict == Some(false) ==> r == Err::<UserWithPassword, ApiError>(ApiError::Unauthorized),
        verdict is None ==> r == Err::<UserWithPassword, ApiError>(ApiError::Internal),
{
    match verdict {
        Some(true) => Ok(account),
        Some(false) => Err(ApiError::Unauthorized),
        None => Err(ApiError::Internal),
    }
}

/// Checks a login: no account under the email is `Unauthorized`; otherwise
/// the password is checked against the stored hash (see [`login_verdict`]).
pub fn check_login(account: Option<UserWithPassword>, password: &str) -> (r: Result<
    UserWithPassword,
    ApiError,
>)
    ensures
        account is None ==> r == Err::<UserWithPassword, ApiError>(ApiError::Unauthorized),
        account matches Some(a) ==> {
            let v = bcrypt_verdict(password@, a.password_hash@);
            &&& v == Some(true) ==> r == Ok::<UserWithPassword, ApiError>(a)
            &&& v == Some(false) ==> r == Err::<UserWithPassword, ApiError>(ApiError::Unauthorized)
            &&& v is None ==> r == Err::<UserWithPassword, ApiError>(ApiError::Internal)
        },
{
    match account {
        None => Err(ApiError::Unauthorized),
        Some(a) => {
            let verdict = verify_password(password, a.password_hash.as_str());
            login_verdict(a, verdict)
        },
    }
}

/// Work factor of stored password hashes.
pub const PASSWORD_COST: u32 = 12;

/// Relies on `bcrypt::hash`: a hash of `password` under a fresh random salt,
/// so nothing is stated of its text; it fails when `cost` is outside 4 to 31
/// (and when the system gives no randomness).
#[verifier::external_body]
fn hash_password(password: &str, cost: u32) -> (r: Option<String>)
    ensures
        !(4 <= cost && cost <= 31) ==> r is None,
{
    bcrypt::hash(password, cost).ok()
}

/// The account to store for a new user: the request's fields, with the
/// password replaced by its hash; `Internal` when hashing failed.
pub fn new_user_record(body: CreateUser) -> (r: Result<NewUser, ApiError>)
    ensures
        r matches Ok(u) ==> u.name == body.name && u.last_name == body.last_name && u.email
            == body.email && u.is_admin == body.is_admin,
        r is Err ==> r == Err::<NewUser, ApiError>(ApiError::Internal),
{
    match hash_password(body.password.as_str(), PASSWORD_COST) {
        Some(password_hash) => Ok(
            NewUser {
                name: body.name,
                last_name: body.last_name,
                email: body.email,
                password_hash,
                is_admin: body.is_admin,
            },
        ),
        None => Err(ApiError::Internal),
    }
}

/// The claims of a session opened at `now` (seconds since the Unix epoch) by
/// the user whose id reads `sub`: it expires seven days later.
pub fn session_claims(sub: String, account: &UserWithPassword, now: usize) -> (r: Claims)
    requires
        now + SESSION_SECONDS <= usize::MAX,
    ensures
        r.sub == sub,
        r.email@ == account.email@,
        r.is_admin == account.is_admin,
        r.exp == now + SESSION_SECONDS,
{
    Claims { sub, email: account.email.clone(), is_admin: account.is_admin, exp: now + SESSION_SECONDS }
}

impl PaginationParams {
    /// The page asked for, the first one when none is given.
    pub fn page_number(&self) -> (r: i64)
        ensures
            r == match self.page {
                Some(p) => p,
                None => 1,
            },
    {
        match self.page {
            Some(p) => p,
            None => 1,
        }
    }
}

/// Rows to pass over before page `page` (pages count from 1).
pub fn page_offset(page: i64, page_size: i64) -> (r: i64)
    requires
        page > i64::MIN,
        i64::MIN <= (page - 1) * page_size <= i64::MAX,
    ensures
        r == (page - 1) * page_size,
{
    (page - 1) * page_size
}

/// Number of pages that `total_count` rows fill, `page_size` to a page: the
/// quotient rounded up.
pub fn total_pages(total_count: i64, page_size: i64) -> (r: i64)
    requires
        total_count >= 0,
        page_size > 0,
        total_count + page_size - 1 <= i64::MAX,
    ensures
        r as int == (total_count + page_size - 1) as int / page_size as int,
        r * page_size >= total_count,
        (r - 1) * page_size < total_count || r == 0,
{
    let r = (total_count + (page_size - 1)) / page_size;
    proof {
        let t = total_count as int;
        let s = page_size as int;
        assert(r * s >= t && ((r - 1) * s < t || r == 0)) by (nonlinear_arith)
            requires
                r == (t + s - 1) / s,
                t >= 0,
                s > 0,
        ;
    }
    r
}

impl DatabaseError {
    /// What went wrong, in words.
    pub fn message(&self) -> (r: &'static str)
        ensures
            *self == DatabaseError::ConnectionFailed ==> r@ == "Failed to connect to database."@,
            *self == DatabaseError::MigrationFailed ==> r@ == "Failed to migrate."@,
    {
        match self {
            DatabaseError::ConnectionFailed => "Failed to connect to database.",
            DatabaseError::MigrationFailed => "Failed to migrate.",
        }
    }
}

} // verus!
