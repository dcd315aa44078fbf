//! Records of the store and of the REST interface.
//!
//! Identifiers of stored records are 128-bit values (the store's UUIDs);
//! timestamps are microseconds since the Unix epoch, UTC. Areas are
//! arbitrary-precision decimals, carried as they come.
use vstd::prelude::*;
use bigdecimal::BigDecimal;

verus! {

#[verifier::external_type_specification]
#[verifier::external_body]
pub struct ExBigDecimal(BigDecimal);

/// Facade orientation of a unit.
#[derive(Clone, Copy, Debug, PartialEq, Eq, Structural)]
pub enum Cephe {
    KB,
    KD,
    GB,
    GD,
    KbKd,
    KdKb,
}

/// A property as the import hands it to the store: its canonical key
/// (`daire_no`) and every attribute.
pub struct CreateProperty {
    pub daire_no: String,
    pub blok: String,
    pub kat: String,
    pub kapi_no: i32,
    pub daire_tipi: String,
    pub oda_sayisi: String,
    pub brut_m2: BigDecimal,
    pub net_m2: BigDecimal,
    pub balkon_m2: Option<BigDecimal>,
    pub cephe: Option<Cephe>,
    pub kiraci_var_mi: bool,
    pub sahip_id: Option<u128>,
}

/// A stored property. `kiraci_var_mi` says whether a tenant lives there and
/// `sahip_id` is the owning customer, if any.
pub struct Property {
    pub id: u128,
    pub daire_no: String,
    pub blok: String,
    pub kat: String,
    pub kapi_no: i32,
    pub daire_tipi: String,
    pub oda_sayisi: String,
    pub brut_m2: BigDecimal,
    pub net_m2: BigDecimal,
    pub balkon_m2: Option<BigDecimal>,
    pub cephe: Option<Cephe>,
    pub kiraci_var_mi: bool,
    pub sahip_id: Option<u128>,
}

/// A stored customer: a full name, optional contact details, when they were
/// last contacted and the consultant assigned to them.
pub struct Customer {
    pub id: u128,
    pub ad_soyad: String,
    pub gsm: Option<String>,
    pub telefon: Option<String>,
    pub email: Option<String>,
    pub acil_kisi: Option<String>,
    pub uyruk: Option<String>,
    pub en_son_gorusuldu: Option<i64>,
    pub danisan_id: Option<u128>,
}

/// A customer to be stored.
pub struct CreateCustomer {
    pub ad_soyad: String,
    pub gsm: Option<String>,
    pub telefon: Option<String>,
    pub email: Option<String>,
    pub acil_kisi: Option<String>,
    pub uyruk: Option<String>,
    pub en_son_gorusuldu: Option<i64>,
    pub danisan_id: Option<u128>,
}

/// A staff account to be created.
pub struct CreateUser {
    pub name: String,
    pub last_name: String,
    pub email: String,
    pub password: String,
    pub is_admin: bool,
}

/// A staff account as it is stored: the password only as its hash.
pub struct NewUser {
    pub name: String,
    pub last_name: String,
    pub email: String,
    pub password_hash: String,
    pub is_admin: bool,
}

/// A staff account as the login reads it.
pub struct UserWithPassword {
    pub id: u128,
    pub email: String,
    pub password_hash: String,
    pub is_admin: bool,
}

/// Credentials sent to the login endpoint.
pub struct LoginRequest {
    pub email: String,
    pub password: String,
}

/// The signed token handed back on a successful login.
pub struct LoginResponse {
    pub token: String,
}

/// What a session token asserts: the user's id (`sub`), email, whether they
/// are an administrator, and the expiry as seconds since the Unix epoch.
pub struct Claims {
    pub sub: String,
    pub email: String,
    pub is_admin: bool,
    pub exp: usize,
}

/// The page asked for by a listing request; the first page when absent.
pub struct PaginationParams {
    pub page: Option<i64>,
}

/// Why the store could not be opened.
#[derive(Clone, Copy, Debug, PartialEq, Eq, Structural)]
pub enum DatabaseError {
    ConnectionFailed,
    MigrationFailed,
}

} // verus!
