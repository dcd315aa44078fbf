//! The two spreadsheet imports.
//!
//! Property import: each row becomes a property record keyed by its block
//! label and door number, upserted into the store. Customer import: each row
//! names a unit by a raw identifier; when the unit exists, its owner is stored
//! and linked and its tenant flag set. Rows are independent: a failed store
//! call is counted or passed over, never fatal to the batch.
//!
//! A customer row is carried out as a short protocol: [`next_step`] says which
//! store call comes next, given what the previous one answered, so a driver
//! can run it against any store.
use vstd::prelude::*;
use crate::cell::{
    cell_decimal, cell_i32, cell_text, cell_text_or_empty, decimal_at, decimal_zero, i32_at,
    text_at, text_or_empty, Cell,
};
use crate::key::{block_label, normalize, normalized, property_key, property_key_of, strip_dashes};
use crate::model::{CreateCustomer, CreateProperty, Property};
use crate::text::{nat_text, u64_text};
use crate::store::{contact_customer, find_key, stored_customer, upserted, with_owner, with_tenant_flag, Store};

verus! {

/// Column of the unit identifier.
pub const IDENTIFIER_COLUMN: usize = 0;

/// Columns of a property row.
pub const BLOCK_COLUMN: usize = 1;
pub const FLOOR_COLUMN: usize = 2;
pub const DOOR_COLUMN: usize = 3;
pub const ROOMS_COLUMN: usize = 4;
pub const UNIT_TYPE_COLUMN: usize = 5;
pub const GROSS_AREA_COLUMN: usize = 6;
pub const NET_AREA_COLUMN: usize = 7;
pub const BALCONY_AREA_COLUMN: usize = 8;

/// Columns of a customer row.
pub const OWNER_NAME_COLUMN: usize = 7;
pub const MOBILE_COLUMN: usize = 8;
pub const LANDLINE_COLUMN: usize = 9;
pub const EMAIL_COLUMN: usize = 10;
pub const EMERGENCY_CONTACT_COLUMN: usize = 11;
pub const NATIONALITY_COLUMN: usize = 12;
pub const TENANT_NAME_COLUMN: usize = 13;

/// The key a property row is stored under, when it has a block label and a
/// door number.
pub open spec fn property_row_key(row: Seq<Cell>) -> Option<Seq<char>> {
    match (text_at(row, 1), i32_at(row, 3)) {
        (Some(block), Some(door)) => Some(property_key_of(block, door)),
        _ => None,
    }
}

/// Whether `p` is the record that property row `row` describes: key, block
/// label without trailing dashes, floor, door, rooms and type from their
/// columns, the balcony area exactly when its column holds a decimal, no
/// facade, no tenant and no owner.
pub open spec fn describes(row: Seq<Cell>, p: CreateProperty) -> bool {
    &&& property_row_key(row) == Some(p.daire_no@)
    &&& p.blok@ == strip_dashes(text_at(row, 1)->0)
    &&& Some(p.kapi_no) == i32_at(row, 3)
    &&& p.kat@ == text_or_empty(row, 2)
    &&& p.oda_sayisi@ == text_or_empty(row, 4)
    &&& p.daire_tipi@ == text_or_empty(row, 5)
    &&& p.balkon_m2.is_some() == decimal_at(row, 8)
    &&& p.cephe is None
    &&& !p.kiraci_var_mi
    &&& p.sahip_id is None
}

/// The property that a property-import row describes, or nothing when the
/// row has no block label or no door number that reads as an `i32`.
///
/// The key is the block label followed by the door number; the stored block
/// label drops trailing dashes. Floor, rooms and type default to empty text,
/// gross and net area to zero; the balcony area stays absent when its cell
/// holds no decimal.
pub fn property_from_cells(row: &Vec<Cell>) -> (r: Option<CreateProperty>)
    ensures
        r is Some <==> property_row_key(row@) is Some,
        r matches Some(p) ==> describes(row@, p),
{
    let block = match cell_text(row, BLOCK_COLUMN) {
        Some(b) => b,
        None => return None,
    };
    let door = match cell_i32(row, DOOR_COLUMN) {
        Some(d) => d,
        None => return None,
    };
    let brut_m2 = match cell_decimal(row, GROSS_AREA_COLUMN) {
        Some(d) => d,
        None => decimal_zero(),
    };
    let net_m2 = match cell_decimal(row, NET_AREA_COLUMN) {
        Some(d) => d,
        None => decimal_zero(),
    };
    Some(
        CreateProperty {
            daire_no: property_key(block.as_str(), door),
            blok: block_label(block.as_str()),
            kat: cell_text_or_empty(row, FLOOR_COLUMN),
            kapi_no: door,
            daire_tipi: cell_text_or_empty(row, UNIT_TYPE_COLUMN),
            oda_sayisi: cell_text_or_empty(row, ROOMS_COLUMN),
            brut_m2,
            net_m2,
            balkon_m2: cell_decimal(row, BALCONY_AREA_COLUMN),
            cephe: None,
            kiraci_var_mi: false,
            sahip_id: None,
        },
    )
}

/// What a customer-import row asks for: the canonical key of its unit, the
/// owner to store and link (when an owner name is given) and whether a tenant
/// is named.
pub struct CustomerRow {
    pub daire_no: String,
    pub owner: Option<CreateCustomer>,
    pub has_tenant: bool,
}

/// Whether `r` is what customer-import row `row` asks for.
pub open spec fn customer_row_of(row: Seq<Cell>, r: CustomerRow) -> bool {
    &&& text_at(row, 0) is Some
    &&& r.daire_no@ == normalized(text_at(row, 0)->0)
    &&& (r.owner is Some <==> text_at(row, 7) is Some)
    &&& (r.owner matches Some(c) ==> contact_customer(
        c,
        text_or_empty(row, 7),
        text_or_empty(row, 8),
        text_or_empty(row, 9),
        text_or_empty(row, 10),
        text_or_empty(row, 11),
        text_or_empty(row, 12),
    ))
    &&& r.has_tenant == (text_at(row, 13) is Some)
}

/// What a customer-import row asks for, or nothing when its identifier is
/// blank (such a row is passed over and not counted).
///
/// The identifier is normalized to the unit's canonical key. An owner is asked
/// for when the owner name is not blank, with the contact columns beside it,
/// blank ones absent. A tenant counts when the tenant name is not blank.
pub fn customer_row_from_cells(row: &Vec<Cell>) -> (r: Option<CustomerRow>)
    ensures
        r is None <==> text_at(row@, 0) is None,
        r matches Some(c) ==> customer_row_of(row@, c),
{
    let identifier = match cell_text(row, IDENTIFIER_COLUMN) {
        Some(t) => t,
        None => return None,
    };
    let daire_no = normalize(identifier.as_str());
    let owner = match cell_text(row, OWNER_NAME_COLUMN) {
        Some(name) => Some(
            CreateCustomer::from_contact(
                name.as_str(),
                cell_text_or_empty(row, MOBILE_COLUMN).as_str(),
                cell_text_or_empty(row, LANDLINE_COLUMN).as_str(),
                cell_text_or_empty(row, EMAIL_COLUMN).as_str(),
                cell_text_or_empty(row, EMERGENCY_CONTACT_COLUMN).as_str(),
                cell_text_or_empty(row, NATIONALITY_COLUMN).as_str(),
            ),
        ),
        None => None,
    };
    let has_tenant = cell_text(row, TENANT_NAME_COLUMN).is_some();
    Some(CustomerRow { daire_no, owner, has_tenant })
}

/// How a customer-import row ended: its unit was found and the row carried
/// out, or the unit was not found (or could not be looked up) and the row was
/// skipped.
#[derive(Clone, Copy, Debug, PartialEq, Eq, Structural)]
pub enum RowOutcome {
    Processed,
    Skipped,
}

/// The store call a customer-import row needs next, or its end.
#[derive(Clone, Copy, Debug, PartialEq, Eq, Structural)]
pub enum RowStep {
    /// Look the unit up by the row's key.
    FindProperty,
    /// Store the row's owner; the unit is `property`.
    CreateOwner { property: u128 },
    /// Make `customer` the owner of `property`.
    LinkOwner { property: u128, customer: u128 },
    /// Set the tenant flag of `property`.
    FlagTenant { property: u128 },
    /// Nothing more to do.
    Finished(RowOutcome),
}

/// What the store answered to the last call.
#[derive(Clone, Copy, Debug, PartialEq, Eq, Structural)]
pub enum StoreReply {
    /// The lookup found the unit with this id.
    Found(u128),
    /// The lookup found no unit.
    Missing,
    /// The owner was stored under this id.
    Created(u128),
    /// The update went through.
    Done,
    /// The call failed.
    Failed,
}

/// After the owner step: flag the tenant when one is named, else finish.
pub open spec fn tenant_or_finish(has_tenant: bool, property: u128) -> RowStep {
    if has_tenant {
        RowStep::FlagTenant { property }
    } else {
        RowStep::Finished(RowOutcome::Processed)
    }
}

/// The step after `step` was answered with `reply`, for a row that names an
/// owner (`has_owner`) and a tenant (`has_tenant`) or not.
///
/// A unit that is missing or cannot be looked up skips the row. A found unit
/// goes on to the owner, if one is named, then to the tenant flag, if a tenant
/// is named. Linking needs the stored owner's id, so a failed owner creation
/// goes straight on to the tenant step; a failed link or flag update is
/// passed over. A found unit always ends as processed. A reply that does not
/// answer the step is taken as a failure.
pub open spec fn after_reply(has_owner: bool, has_tenant: bool, step: RowStep, reply: StoreReply) -> RowStep {
    match step {
        RowStep::FindProperty => match reply {
            StoreReply::Found(p) => if has_owner {
                RowStep::CreateOwner { property: p }
            } else {
                tenant_or_finish(has_tenant, p)
            },
            _ => RowStep::Finished(RowOutcome::Skipped),
        },
        RowStep::CreateOwner { property } => match reply {
            StoreReply::Created(c) => RowStep::LinkOwner { property, customer: c },
            _ => tenant_or_finish(has_tenant, property),
        },
        RowStep::LinkOwner { property, .. } => tenant_or_finish(has_tenant, property),
        RowStep::FlagTenant { .. } => RowStep::Finished(RowOutcome::Processed),
        RowStep::Finished(o) => RowStep::Finished(o),
    }
}

/// The step after `step` was answered with `reply`, for `row`: see
/// [`after_reply`]. A row starts at [`RowStep::FindProperty`] and is done at
/// [`RowStep::Finished`].
pub fn next_step(row: &CustomerRow, step: RowStep, reply: StoreReply) -> (r: RowStep)
    ensures
        r == after_reply(row.owner is Some, row.has_tenant, step, reply),
{
    let after_owner = |property: u128| -> (s: RowStep)
        ensures
            s == tenant_or_finish(row.has_tenant, property),
        {
            if row.has_tenant {
                RowStep::FlagTenant { property }
            } else {
                RowStep::Finished(RowOutcome::Processed)
            }
        };
    match step {
        RowStep::FindProperty => match reply {
            StoreReply::Found(p) => if row.owner.is_some() {
                RowStep::CreateOwner { property: p }
            } else {
                after_owner(p)
            },
            _ => RowStep::Finished(RowOutcome::Skipped),
        },
        RowStep::CreateOwner { property } => match reply {
            StoreReply::Created(c) => RowStep::LinkOwner { property, customer: c },
            _ => after_owner(property),
        },
        RowStep::LinkOwner { property, .. } => after_owner(property),
        RowStep::FlagTenant { .. } => RowStep::Finished(RowOutcome::Processed),
        RowStep::Finished(o) => RowStep::Finished(o),
    }
}

/// A row whose unit is not found (missing, or the lookup failed) ends at once
/// as skipped: no owner is created and nothing is updated. Counted over a
/// sheet, such a row adds exactly one to the skipped count and none to the
/// processed count.
pub proof fn lemma_unknown_unit_skips(
    has_owner: bool,
    has_tenant: bool,
    rows: Seq<Vec<Cell>>,
    props: Seq<Property>,
    n: int,
)
    requires
        2 <= n <= rows.len(),
        text_at(rows[n - 1]@, 0) is Some,
        !key_known(props, normalized(text_at(rows[n - 1]@, 0)->0)),
    ensures
        after_reply(has_owner, has_tenant, RowStep::FindProperty, StoreReply::Missing)
            == RowStep::Finished(RowOutcome::Skipped),
        after_reply(has_owner, has_tenant, RowStep::FindProperty, StoreReply::Failed)
            == RowStep::Finished(RowOutcome::Skipped),
        customer_counts(rows, props, n).0 == customer_counts(rows, props, n - 1).0,
        customer_counts(rows, props, n).1 == customer_counts(rows, props, n - 1).1 + 1,
{
}

/// The owner and tenant steps do not depend on each other: when creating the
/// owner or linking it fails, a named tenant is still flagged, and the row
/// still ends as processed even when the flag update fails too.
pub proof fn lemma_owner_failure_keeps_tenant(has_owner: bool, property: u128, customer: u128)
    ensures
        after_reply(has_owner, true, (RowStep::CreateOwner { property }), StoreReply::Failed)
            == (RowStep::FlagTenant { property }),
        after_reply(has_owner, true, (RowStep::LinkOwner { property, customer }), StoreReply::Failed)
            == (RowStep::FlagTenant { property }),
        after_reply(has_owner, true, (RowStep::FlagTenant { property }), StoreReply::Failed)
            == RowStep::Finished(RowOutcome::Processed),
{
}

/// Whether some property is stored under `key`.
pub open spec fn key_known(props: Seq<Property>, key: Seq<char>) -> bool {
    exists|i: int| 0 <= i < props.len() && (#[trigger] props[i]).daire_no@ == key
}

/// The property table after a found row at `pid`: owned by the new customer
/// (id `next_customer`) when the row names an owner, then flagged when it
/// names a tenant.
pub open spec fn row_properties(props: Seq<Property>, row: CustomerRow, pid: u128, next_customer: u128) -> Seq<Property> {
    let owned = if row.owner is Some {
        with_owner(props, pid, next_customer)
    } else {
        props
    };
    if row.has_tenant {
        with_tenant_flag(owned, pid, true)
    } else {
        owned
    }
}

/// Counts of a customer import.
pub struct CustomerImportSummary {
    pub processed: usize,
    pub skipped: usize,
}

impl CustomerImportSummary {
    /// Nothing counted yet.
    pub fn new() -> (r: CustomerImportSummary)
        ensures
            r.processed == 0,
            r.skipped == 0,
    {
        CustomerImportSummary { processed: 0, skipped: 0 }
    }

    /// The one-line report of the import: `"<processed> kayıt işlendi,
    /// <skipped> atlandı."`.
    pub fn message(&self) -> (r: String)
        ensures
            r@ == nat_text(self.processed as nat) + " kayıt işlendi, "@ + nat_text(
                self.skipped as nat,
            ) + " atlandı."@,
    {
        let mut r = u64_text(self.processed as u64);
        r.append(" kayıt işlendi, ");
        r.append(u64_text(self.skipped as u64).as_str());
        r.append(" atlandı.");
        r
    }

    /// Counts one row's outcome.
    pub fn record(&mut self, outcome: RowOutcome)
        requires
            old(self).processed < usize::MAX,
            old(self).skipped < usize::MAX,
        ensures
            outcome == RowOutcome::Processed ==> final(self).processed == old(self).processed + 1
                && final(self).skipped == old(self).skipped,
            outcome == RowOutcome::Skipped ==> final(self).skipped == old(self).skipped + 1
                && final(self).processed == old(self).processed,
    {
        match outcome {
            RowOutcome::Processed => self.processed = self.processed + 1,
            RowOutcome::Skipped => self.skipped = self.skipped + 1,
        }
    }
}

/// Counts of a property import.
pub struct PropertyImportSummary {
    pub created: usize,
    pub updated: usize,
    pub errors: usize,
}

impl PropertyImportSummary {
    /// Nothing counted yet.
    pub fn new() -> (r: PropertyImportSummary)
        ensures
            r.created == 0,
            r.updated == 0,
            r.errors == 0,
    {
        PropertyImportSummary { created: 0, updated: 0, errors: 0 }
    }

    /// The one-line report of the import: `"<created> oluşturuldu,
    /// <updated> güncellendi, <errors> hata"`.
    pub fn message(&self) -> (r: String)
        ensures
            r@ == nat_text(self.created as nat) + " oluşturuldu, "@ + nat_text(
                self.updated as nat,
            ) + " güncellendi, "@ + nat_text(self.errors as nat) + " hata"@,
    {
        let mut r = u64_text(self.created as u64);
        r.append(" oluşturuldu, ");
        r.append(u64_text(self.updated as u64).as_str());
        r.append(" güncellendi, ");
        r.append(u64_text(self.errors as u64).as_str());
        r.append(" hata");
        r
    }

    /// Counts one upsert: `Some(true)` when it created the property,
    /// `Some(false)` when it updated one, `None` when it failed.
    pub fn record(&mut self, upsert: Option<bool>)
        requires
            old(self).created < usize::MAX,
            old(self).updated < usize::MAX,
            old(self).errors < usize::MAX,
        ensures
            final(self).created == old(self).created + if upsert == Some(true) {
                1int
            } else {
                0int
            },
            final(self).updated == old(self).updated + if upsert == Some(false) {
                1int
            } else {
                0int
            },
            final(self).errors == old(self).errors + if upsert is None {
                1int
            } else {
                0int
            },
    {
        match upsert {
            Some(true) => self.created = self.created + 1,
            Some(false) => self.updated = self.updated + 1,
            None => self.errors = self.errors + 1,
        }
    }
}

/// Counts of a customer import over `rows[..n]`, header excluded: rows whose
/// unit is stored are processed, rows whose unit is not are skipped, rows
/// with a blank identifier are not counted.
pub open spec fn customer_counts(rows: Seq<Vec<Cell>>, props: Seq<Property>, n: int) -> (nat, nat)
    decreases n,
{
    if n <= 1 {
        (0, 0)
    } else {
        let (p, s) = customer_counts(rows, props, n - 1);
        match text_at(rows[n - 1]@, 0) {
            None => (p, s),
            Some(t) => if key_known(props, normalized(t)) {
                (p + 1, s)
            } else {
                (p, s + 1)
            },
        }
    }
}

/// Owners a customer import stores over `rows[..n]`, header excluded: one
/// for each row whose unit is stored and whose owner name is not blank.
pub open spec fn owners_stored(rows: Seq<Vec<Cell>>, props: Seq<Property>, n: int) -> nat
    decreases n,
{
    if n <= 1 {
        0
    } else {
        let before = owners_stored(rows, props, n - 1);
        match text_at(rows[n - 1]@, 0) {
            Some(t) => if key_known(props, normalized(t)) && text_at(rows[n - 1]@, 7) is Some {
                before + 1
            } else {
                before
            },
            None => before,
        }
    }
}

/// Whether `key` is stored in `props` or is the key of one of `rows[..n]`.
pub open spec fn key_seen(props: Seq<Property>, rows: Seq<Vec<Cell>>, n: int, key: Seq<char>) -> bool {
    key_known(props, key) || exists|j: int|
        0 <= j < n && #[trigger] property_row_key(rows[j]@) == Some(key)
}

/// Counts of a property import over `rows[..n]`: created (the key was new),
/// updated (the key was stored or came earlier).
pub open spec fn property_counts(rows: Seq<Vec<Cell>>, props: Seq<Property>, n: int) -> (nat, nat)
    decreases n,
{
    if n <= 0 {
        (0, 0)
    } else {
        let (c, u) = property_counts(rows, props, n - 1);
        match property_row_key(rows[n - 1]@) {
            None => (c, u),
            Some(k) => if key_seen(props, rows, n - 1, k) {
                (c, u + 1)
            } else {
                (c + 1, u)
            },
        }
    }
}

/// Two property tables with the same keys at the same places.
pub open spec fn same_keys(a: Seq<Property>, b: Seq<Property>) -> bool {
    a.len() == b.len() && forall|i: int| 0 <= i < a.len() ==> (#[trigger] a[i]).daire_no == b[i].daire_no
}

proof fn lemma_same_keys_known(a: Seq<Property>, b: Seq<Property>, key: Seq<char>)
    requires
        same_keys(a, b),
    ensures
        key_known(a, key) == key_known(b, key),
{
    if key_known(a, key) {
        let i = choose|i: int| 0 <= i < a.len() && (#[trigger] a[i]).daire_no@ == key;
        assert(b[i].daire_no@ == key);
    }
    if key_known(b, key) {
        let i = choose|i: int| 0 <= i < b.len() && (#[trigger] b[i]).daire_no@ == key;
        assert(a[i].daire_no == b[i].daire_no);
    }
}

proof fn lemma_row_keeps_keys(props: Seq<Property>, row: CustomerRow, pid: u128, next_customer: u128)
    ensures
        same_keys(props, row_properties(props, row, pid, next_customer)),
{
    let owned = if row.owner is Some {
        with_owner(props, pid, next_customer)
    } else {
        props
    };
    assert(same_keys(props, owned));
    assert(same_keys(owned, row_properties(props, row, pid, next_customer)));
}

proof fn lemma_upserted_keys(props: Seq<Property>, p: CreateProperty, key: Seq<char>)
    ensures
        key_known(upserted(props, p), key) == (key_known(props, key) || key == p.daire_no@),
{
    let after = upserted(props, p);
    match find_key(props, p.daire_no@) {
        Some(i) => {
            assert(same_keys(props, after));
            lemma_same_keys_known(props, after, key);
            assert(props[i].daire_no@ == p.daire_no@);
        },
        None => {
            assert(after[props.len() as int].daire_no@ == p.daire_no@);
            if key_known(props, key) {
                let i = choose|i: int| 0 <= i < props.len() && (#[trigger] props[i]).daire_no@ == key;
                assert(after[i] == props[i]);
            }
            if key_known(after, key) && key != p.daire_no@ {
                let i = choose|i: int| 0 <= i < after.len() && (#[trigger] after[i]).daire_no@ == key;
                assert(i < props.len());
                assert(after[i] == props[i]);
            }
        },
    }
}

impl Store {
    /// Carries out one customer-import row against this store.
    ///
    /// When no property is stored under the row's key the row is skipped and
    /// nothing changes. Otherwise the row's owner, if any, is stored as a new
    /// customer and made the property's owner, the tenant flag is set when the
    /// row names a tenant, and the row is processed.
    pub fn import_customer_row(&mut self, row: &CustomerRow) -> (outcome: RowOutcome)
        requires
            old(self).wf(),
        ensures
            final(self).wf(),
            !key_known(old(self).properties(), row.daire_no@) ==> outcome == RowOutcome::Skipped
                && final(self).properties() == old(self).properties() && final(self).customers()
                == old(self).customers(),
            key_known(old(self).properties(), row.daire_no@) ==> outcome == RowOutcome::Processed
                && final(self).properties() == row_properties(
                old(self).properties(),
                *row,
                find_key(old(self).properties(), row.daire_no@)->0 as u128,
                old(self).customers().len() as u128,
            ) && final(self).customers() == match row.owner {
                Some(c) => old(self).customers().push(
                    stored_customer(old(self).customers().len() as u128, c),
                ),
                None => old(self).customers(),
            },
    {
        let ghost props0 = self.properties();
        let ghost custs0 = self.customers();
        let reply = match self.get_property_by_daire_no(row.daire_no.as_str()) {
            Some(p) => StoreReply::Found(p.id),
            None => StoreReply::Missing,
        };
        let mut step = next_step(row, RowStep::FindProperty, reply);
        let ghost pid = find_key(props0, row.daire_no@)->0 as u128;
        let ghost next_customer = custs0.len() as u128;
        let ghost owned = if row.owner is Some {
            with_owner(props0, pid, next_customer)
        } else {
            props0
        };
        match step {
            RowStep::CreateOwner { .. } => {
                match &row.owner {
                    Some(c) => {
                        let id = self.create_customer(c.copied());
                        step = next_step(row, step, StoreReply::Created(id));
                    },
                    None => {
                        step = next_step(row, step, StoreReply::Failed);
                    },
                }
            },
            _ => {},
        }
        match step {
            RowStep::LinkOwner { property, customer } => {
                self.set_property_owner(property, customer);
                step = next_step(row, step, StoreReply::Done);
            },
            _ => {},
        }
        assert(key_known(props0, row.daire_no@) ==> self.properties() == owned);
        match step {
            RowStep::FlagTenant { property } => {
                self.set_kiraci_var_mi(property, true);
                step = next_step(row, step, StoreReply::Done);
            },
            _ => {},
        }
        match step {
            RowStep::Finished(o) => o,
            _ => RowOutcome::Processed,
        }
    }

    /// Runs a customer import over a sheet's rows. The first row is a header
    /// and is passed over, as is any row whose identifier is blank; every
    /// other row is carried out on its own (see
    /// [`Store::import_customer_row`]) and counted as processed or skipped.
    /// Keys are never changed by the import.
    pub fn import_customers(&mut self, rows: &Vec<Vec<Cell>>) -> (summary: CustomerImportSummary)
        requires
            old(self).wf(),
        ensures
            final(self).wf(),
            same_keys(old(self).properties(), final(self).properties()),
            final(self).customers().len() == old(self).customers().len() + owners_stored(
                rows@,
                old(self).properties(),
                rows@.len() as int,
            ),
            summary.processed == customer_counts(rows@, old(self).properties(), rows@.len() as int).0,
            summary.skipped == customer_counts(rows@, old(self).properties(), rows@.len() as int).1,
    {
        let ghost props0 = self.properties();
        let ghost customers0 = self.customers().len();
        let mut summary = CustomerImportSummary::new();
        let mut i: usize = 1;
        if rows.len() == 0 {
            return summary;
        }
        while i < rows.len()
            invariant
                1 <= i <= rows@.len(),
                self.wf(),
                same_keys(props0, self.properties()),
                self.customers().len() == customers0 + owners_stored(rows@, props0, i as int),
                summary.processed == customer_counts(rows@, props0, i as int).0,
                summary.skipped == customer_counts(rows@, props0, i as int).1,
                summary.processed + summary.skipped <= i,
            decreases rows@.len() - i,
        {
            match customer_row_from_cells(&rows[i]) {
                Some(row) => {
                    let ghost before = self.properties();
                    proof {
                        lemma_same_keys_known(props0, before, row.daire_no@);
                        lemma_row_keeps_keys(
                            before,
                            row,
                            find_key(before, row.daire_no@)->0 as u128,
                            self.customers().len() as u128,
                        );
                    }
                    let outcome = self.import_customer_row(&row);
                    summary.record(outcome);
                },
                None => {},
            }
            i = i + 1;
        }
        summary
    }

    /// Runs a property import over a sheet's rows (there is no header). A row
    /// without a block label or a door number is passed over; every other row
    /// is upserted under its key and counted as created (its key was new) or
    /// updated.
    pub fn import_properties(&mut self, rows: &Vec<Vec<Cell>>) -> (summary: PropertyImportSummary)
        requires
            old(self).wf(),
        ensures
            final(self).wf(),
            summary.created == property_counts(rows@, old(self).properties(), rows@.len() as int).0,
            summary.updated == property_counts(rows@, old(self).properties(), rows@.len() as int).1,
            summary.errors == 0,
            forall|key: Seq<char>|
                key_known(final(self).properties(), key) == key_seen(
                    old(self).properties(),
                    rows@,
                    rows@.len() as int,
                    key,
                ),
    {
        let ghost props0 = self.properties();
        let mut summary = PropertyImportSummary::new();
        let mut i: usize = 0;
        while i < rows.len()
            invariant
                i <= rows@.len(),
                self.wf(),
                forall|key: Seq<char>|
                    key_known(self.properties(), key) == key_seen(props0, rows@, i as int, key),
                summary.created == property_counts(rows@, props0, i as int).0,
                summary.updated == property_counts(rows@, props0, i as int).1,
                summary.errors == 0,
                summary.created + summary.updated <= i,
            decreases rows@.len() - i,
        {
            let ghost before = self.properties();
            match property_from_cells(&rows[i]) {
                Some(p) => {
                    let ghost k = p.daire_no@;
                    let created = self.upsert_property(p);
                    proof {
                        assert forall|key: Seq<char>|
                            key_known(self.properties(), key) == key_seen(
                                props0,
                                rows@,
                                i + 1,
                                key,
                            ) by {
                            lemma_upserted_keys(before, p, key);
                            if key == k {
                                assert(property_row_key(rows@[i as int]@) == Some(key));
                            }
                            if exists|j: int|
                                0 <= j < i + 1 && #[trigger] property_row_key(rows@[j]@) == Some(
                                    key,
                                ) {
                                let j = choose|j: int|
                                    0 <= j < i + 1 && #[trigger] property_row_key(rows@[j]@)
                                        == Some(key);
                                if j < i {
                                    assert(key_seen(props0, rows@, i as int, key));
                                }
                            }
                        }
                        assert(key_known(before, k) == key_seen(props0, rows@, i as int, k));
                    }
                    summary.record(Some(created));
                },
                None => {
                    proof {
                        assert forall|key: Seq<char>|
                            key_known(self.properties(), key) == key_seen(
                                props0,
                                rows@,
                                i + 1,
                                key,
                            ) by {
                            if exists|j: int|
                                0 <= j < i + 1 && #[trigger] property_row_key(rows@[j]@) == Some(
                                    key,
                                ) {
                                let j = choose|j: int|
                                    0 <= j < i + 1 && #[trigger] property_row_key(rows@[j]@)
                                        == Some(key);
                                assert(j < i);
                                assert(key_seen(props0, rows@, i as int, key));
                            }
                        }
                    }
                },
            }
            i = i + 1;
        }
        summary
    }
}

} // verus!
