use emlak::access::{
    bearer_token, check_login, check_user_deletion, login_verdict, page_offset, require_admin,
    session_claims, total_pages, ApiError, PAGE_SIZE, SESSION_SECONDS,
};
use emlak::model::{Claims, DatabaseError, PaginationParams, UserWithPassword};

fn claims(sub: &str, is_admin: bool) -> Claims {
    Claims { sub: sub.to_string(), email: "a@b.c".to_string(), is_admin, exp: 0 }
}

fn account(hash: &str) -> UserWithPassword {
    UserWithPassword { id: 7, email: "a@b.c".to_string(), password_hash: hash.to_string(), is_admin: true }
}

#[test]
fn bearer_token_follows_prefix() {
    assert_eq!(bearer_token("Bearer abc.def"), Some("abc.def"));
    assert_eq!(bearer_token("Bearer "), Some(""));
    assert_eq!(bearer_token("bearer abc"), None);
    assert_eq!(bearer_token("Basic abc"), None);
    assert_eq!(bearer_token("Bear"), None);
}

#[test]
fn only_admins_pass() {
    assert_eq!(require_admin(&claims("u1", true)), Ok(()));
    assert_eq!(require_admin(&claims("u1", false)), Err(ApiError::Unauthorized));
}

#[test]
fn admins_cannot_delete_themselves() {
    assert_eq!(check_user_deletion(&claims("u1", false), "u2"), Err(ApiError::Unauthorized));
    assert_eq!(check_user_deletion(&claims("u1", true), "u1"), Err(ApiError::BadRequest));
    assert_eq!(check_user_deletion(&claims("u1", true), "u2"), Ok(()));
}

#[test]
fn login_checks_password_hash() {
    let hash = bcrypt::hash("s3cret", 4).unwrap();
    let ok = check_login(Some(account(&hash)), "s3cret").unwrap();
    assert_eq!(ok.id, 7);
    assert_eq!(check_login(Some(account(&hash)), "wrong").err(), Some(ApiError::Unauthorized));
    assert_eq!(check_login(None, "s3cret").err(), Some(ApiError::Unauthorized));
    assert_eq!(check_login(Some(account("not a hash")), "s3cret").err(), Some(ApiError::Internal));
}

#[test]
fn login_verdict_maps_each_answer() {
    assert_eq!(login_verdict(account("h"), Some(true)).unwrap().email, "a@b.c");
    assert_eq!(login_verdict(account("h"), Some(false)).err(), Some(ApiError::Unauthorized));
    assert_eq!(login_verdict(account("h"), None).err(), Some(ApiError::Internal));
}

#[test]
fn session_lasts_seven_days() {
    let c = session_claims("u1".to_string(), &account("h"), 1_700_000_000);
    assert_eq!(c.exp, 1_700_604_800);
    assert_eq!(SESSION_SECONDS, 7 * 24 * 60 * 60);
    assert_eq!(c.sub, "u1");
    assert_eq!(c.email, "a@b.c");
    assert!(c.is_admin);
}

#[test]
fn pages_default_to_first() {
    assert_eq!(PaginationParams { page: None }.page_number(), 1);
    assert_eq!(PaginationParams { page: Some(3) }.page_number(), 3);
    assert_eq!(page_offset(1, PAGE_SIZE), 0);
    assert_eq!(page_offset(3, PAGE_SIZE), 100);
}

#[test]
fn total_pages_rounds_up() {
    assert_eq!(total_pages(0, 50), 0);
    assert_eq!(total_pages(1, 50), 1);
    assert_eq!(total_pages(50, 50), 1);
    assert_eq!(total_pages(51, 50), 2);
    assert_eq!(total_pages(i64::MAX - 49, 50), (i64::MAX - 49) / 50 + 1);
}

#[test]
fn database_errors_have_messages() {
    assert_eq!(DatabaseError::ConnectionFailed.message(), "Failed to connect to database.");
    assert_eq!(DatabaseError::MigrationFailed.message(), "Failed to migrate.");
}

#[test]
fn new_user_keeps_fields_and_hashes_password() {
    let body = emlak::model::CreateUser {
        name: "Ayşe".to_string(),
        last_name: "Kaya".to_string(),
        email: "ayse@example.com".to_string(),
        password: "s3cret".to_string(),
        is_admin: false,
    };
    let user = emlak::access::new_user_record(body).unwrap();
    assert_eq!(user.name, "Ayşe");
    assert_eq!(user.last_name, "Kaya");
    assert_eq!(user.email, "ayse@example.com");
    assert!(!user.is_admin);
    assert_ne!(user.password_hash, "s3cret");
    assert!(bcrypt::verify("s3cret", &user.password_hash).unwrap());
}
