//! An in-memory store of properties and customers.
//!
//! It answers the operations the import needs exactly as the relational store
//! does: lookup by canonical key, conflict-aware upsert, customer creation,
//! and the owner and tenant updates. A record's id is its position in its
//! table.
use vstd::prelude::*;
use crate::cell::{non_blank, opt_view};
use crate::model::{CreateCustomer, CreateProperty, Customer, Property};

verus! {

/// Index of the property whose key is `key`, if there is one.
pub open spec fn find_key(props: Seq<Property>, key: Seq<char>) -> Option<int> {
    if exists|i: int| 0 <= i < props.len() && (#[trigger] props[i]).daire_no@ == key {
        Some(choose|i: int| 0 <= i < props.len() && (#[trigger] props[i]).daire_no@ == key)
    } else {
        None
    }
}

/// A stored property after an upsert that hit it: every mutable attribute
/// comes from the incoming record; the id, the key and the owner stay.
pub open spec fn overwritten(old: Property, p: CreateProperty) -> Property {
    Property {
        id: old.id,
        daire_no: old.daire_no,
        blok: p.blok,
        kat: p.kat,
        kapi_no: p.kapi_no,
        daire_tipi: p.daire_tipi,
        oda_sayisi: p.oda_sayisi,
        brut_m2: p.brut_m2,
        net_m2: p.net_m2,
        balkon_m2: p.balkon_m2,
        cephe: p.cephe,
        kiraci_var_mi: p.kiraci_var_mi,
        sahip_id: old.sahip_id,
    }
}

/// A property newly stored from an incoming record, under id `id` and with no
/// owner.
pub open spec fn fresh_property(id: u128, p: CreateProperty) -> Property {
    Property {
        id,
        daire_no: p.daire_no,
        blok: p.blok,
        kat: p.kat,
        kapi_no: p.kapi_no,
        daire_tipi: p.daire_tipi,
        oda_sayisi: p.oda_sayisi,
        brut_m2: p.brut_m2,
        net_m2: p.net_m2,
        balkon_m2: p.balkon_m2,
        cephe: p.cephe,
        kiraci_var_mi: p.kiraci_var_mi,
        sahip_id: None,
    }
}

/// The property table after upserting `p`: the record with its key is
/// overwritten, or a new one is appended when there is none.
pub open spec fn upserted(props: Seq<Property>, p: CreateProperty) -> Seq<Property> {
    match find_key(props, p.daire_no@) {
        Some(i) => props.update(i, overwritten(props[i], p)),
        None => props.push(fresh_property(props.len() as u128, p)),
    }
}

/// A customer stored from `c` under id `id`.
pub open spec fn stored_customer(id: u128, c: CreateCustomer) -> Customer {
    Customer {
        id,
        ad_soyad: c.ad_soyad,
        gsm: c.gsm,
        telefon: c.telefon,
        email: c.email,
        acil_kisi: c.acil_kisi,
        uyruk: c.uyruk,
        en_son_gorusuldu: c.en_son_gorusuldu,
        danisan_id: c.danisan_id,
    }
}

/// The customer that an import row asks for: the name, each contact field
/// when it is not blank, no contact date and no consultant.
pub open spec fn contact_customer(
    c: CreateCustomer,
    name: Seq<char>,
    gsm: Seq<char>,
    telefon: Seq<char>,
    email: Seq<char>,
    acil_kisi: Seq<char>,
    uyruk: Seq<char>,
) -> bool {
    &&& c.ad_soyad@ == name
    &&& opt_view(c.gsm) == non_blank(gsm)
    &&& opt_view(c.telefon) == non_blank(telefon)
    &&& opt_view(c.email) == non_blank(email)
    &&& opt_view(c.acil_kisi) == non_blank(acil_kisi)
    &&& opt_view(c.uyruk) == non_blank(uyruk)
    &&& c.en_son_gorusuldu is None
    &&& c.danisan_id is None
}

/// Whether `c` is the record stored under id `id` for an import row: the
/// name, each contact field when it is not blank, no contact date and no
/// consultant.
pub open spec fn is_contact_record(
    c: Customer,
    id: u128,
    name: Seq<char>,
    gsm: Seq<char>,
    telefon: Seq<char>,
    email: Seq<char>,
    acil_kisi: Seq<char>,
    uyruk: Seq<char>,
) -> bool {
    &&& c.id == id
    &&& c.ad_soyad@ == name
    &&& opt_view(c.gsm) == non_blank(gsm)
    &&& opt_view(c.telefon) == non_blank(telefon)
    &&& opt_view(c.email) == non_blank(email)
    &&& opt_view(c.acil_kisi) == non_blank(acil_kisi)
    &&& opt_view(c.uyruk) == non_blank(uyruk)
    &&& c.en_son_gorusuldu is None
    &&& c.danisan_id is None
}

/// The property table after property `id` gets `owner` as its owner, or
/// unchanged when there is no such property.
pub open spec fn with_owner(props: Seq<Property>, id: u128, owner: u128) -> Seq<Property> {
    if (id as int) < props.len() {
        props.update(id as int, Property { sahip_id: Some(owner), ..props[id as int] })
    } else {
        props
    }
}

/// The property table after the tenant flag of property `id` is set to
/// `present`, or unchanged when there is no such property.
pub open spec fn with_tenant_flag(props: Seq<Property>, id: u128, present: bool) -> Seq<Property> {
    if (id as int) < props.len() {
        props.update(id as int, Property { kiraci_var_mi: present, ..props[id as int] })
    } else {
        props
    }
}

/// Upserting a key that is not stored creates a property; upserting the same
/// key again updates that property in place: every mutable attribute takes
/// the second record's value while the id, the key and the owner (whatever
/// it was set to in between) stay, and no property is added.
pub proof fn lemma_upsert_creates_then_updates(
    props: Seq<Property>,
    first: CreateProperty,
    between: Seq<Property>,
    second: CreateProperty,
)
    requires
        find_key(props, first.daire_no@) is None,
        second.daire_no@ == first.daire_no@,
        between.len() == upserted(props, first).len(),
        forall|i: int| 0 <= i < between.len() ==> (#[trigger] between[i]).daire_no == upserted(
            props,
            first,
        )[i].daire_no,
    ensures
        upserted(props, first).len() == props.len() + 1,
        upserted(props, first)[props.len() as int] == fresh_property(props.len() as u128, first),
        find_key(between, second.daire_no@) == Some(props.len() as int),
        upserted(between, second).len() == between.len(),
        upserted(between, second)[props.len() as int] == overwritten(between[props.len() as int], second),
        upserted(between, second)[props.len() as int].sahip_id == between[props.len() as int].sahip_id,
        upserted(between, second)[props.len() as int].id == between[props.len() as int].id,
        upserted(between, second)[props.len() as int].kat == second.kat,
        upserted(between, second)[props.len() as int].brut_m2 == second.brut_m2,
        upserted(between, second)[props.len() as int].kiraci_var_mi == second.kiraci_var_mi,
{
    let s1 = upserted(props, first);
    let n = props.len() as int;
    assert(s1[n].daire_no@ == first.daire_no@);
    assert(between[n].daire_no@ == second.daire_no@);
    assert forall|i: int| 0 <= i < between.len() && i != n implies (#[trigger] between[i]).daire_no@
        != second.daire_no@ by {
        assert(between[i].daire_no == s1[i].daire_no);
        assert(s1[i] == props[i]);
    }
    let k = choose|i: int| 0 <= i < between.len() && (#[trigger] between[i]).daire_no@
        == second.daire_no@;
    assert(k == n);
}

/// Two stores of customers under the same name, with different contact
/// details, give two customers with distinct ids, each with its own details:
/// the name alone never merges them.
pub proof fn lemma_same_name_two_customers(custs: Seq<Customer>, a: CreateCustomer, b: CreateCustomer)
    requires
        a.ad_soyad@ == b.ad_soyad@,
        custs.len() + 2 <= u128::MAX,
    ensures
        ({
            let n = custs.len() as int;
            let first = custs.push(stored_customer(n as u128, a));
            let both = first.push(stored_customer((n + 1) as u128, b));
            &&& both.len() == n + 2
            &&& both[n] == stored_customer(n as u128, a)
            &&& both[n + 1] == stored_customer((n + 1) as u128, b)
            &&& both[n].id != both[n + 1].id
            &&& both[n].ad_soyad@ == both[n + 1].ad_soyad@
        }),
{
    let n = custs.len() as int;
    let first = custs.push(stored_customer(n as u128, a));
    let both = first.push(stored_customer((n + 1) as u128, b));
    assert(both[n] == first[n]);
}

fn copy_text(o: &Option<String>) -> (r: Option<String>)
    ensures
        r == *o,
{
    match o {
        Some(s) => Some(s.clone()),
        None => None,
    }
}

impl CreateCustomer {
    /// The customer that an import row asks for: the owner's name, and each
    /// contact field when it is not blank (blank ones are stored as absent).
    pub fn from_contact(
        ad_soyad: &str,
        gsm: &str,
        telefon: &str,
        email: &str,
        acil_kisi: &str,
        uyruk: &str,
    ) -> (r: CreateCustomer)
        ensures
            contact_customer(r, ad_soyad@, gsm@, telefon@, email@, acil_kisi@, uyruk@),
    {
        CreateCustomer {
            ad_soyad: String::from_str(ad_soyad),
            gsm: crate::cell::blank_to_absent(gsm),
            telefon: crate::cell::blank_to_absent(telefon),
            email: crate::cell::blank_to_absent(email),
            acil_kisi: crate::cell::blank_to_absent(acil_kisi),
            uyruk: crate::cell::blank_to_absent(uyruk),
            en_son_gorusuldu: None,
            danisan_id: None,
        }
    }

    /// A field-by-field copy.
    pub fn copied(&self) -> (r: CreateCustomer)
        ensures
            r == *self,
    {
        CreateCustomer {
            ad_soyad: self.ad_soyad.clone(),
            gsm: copy_text(&self.gsm),
            telefon: copy_text(&self.telefon),
            email: copy_text(&self.email),
            acil_kisi: copy_text(&self.acil_kisi),
            uyruk: copy_text(&self.uyruk),
            en_son_gorusuldu: self.en_son_gorusuldu,
            danisan_id: self.danisan_id,
        }
    }
}

/// Properties and customers held in memory.
pub struct Store {
    properties: Vec<Property>,
    customers: Vec<Customer>,
}

impl Store {
    /// The property table, in order of creation.
    pub closed spec fn properties(&self) -> Seq<Property> {
        self.properties@
    }

    /// The customer table, in order of creation.
    pub closed spec fn customers(&self) -> Seq<Customer> {
        self.customers@
    }

    /// Each record's id is its position, and no two properties share a key.
    pub closed spec fn wf(&self) -> bool {
        &&& forall|i: int| 0 <= i < self.properties@.len() ==> (#[trigger] self.properties@[i]).id
            == i
        &&& forall|i: int| 0 <= i < self.customers@.len() ==> (#[trigger] self.customers@[i]).id
            == i
        &&& forall|i: int, j: int|
            0 <= i < self.properties@.len() && 0 <= j < self.properties@.len() && i != j ==> (
            #[trigger] self.properties@[i]).daire_no@ != (#[trigger] self.properties@[j]).daire_no@
    }

    /// An empty store.
    pub fn new() -> (r: Store)
        ensures
            r.wf(),
            r.properties() == Seq::<Property>::empty(),
            r.customers() == Seq::<Customer>::empty(),
    {
        Store { properties: Vec::new(), customers: Vec::new() }
    }

    /// Position of the property whose key is `key`.
    fn position_of(&self, key: &str) -> (r: Option<usize>)
        requires
            self.wf(),
        ensures
            r matches Some(i) ==> find_key(self.properties(), key@) == Some(i as int),
            r is None ==> find_key(self.properties(), key@) is None,
    {
        let wanted = String::from_str(key);
        let mut i: usize = 0;
        while i < self.properties.len()
            invariant
                self.wf(),
                wanted@ == key@,
                i <= self.properties@.len(),
                forall|j: int| 0 <= j < i ==> (#[trigger] self.properties@[j]).daire_no@ != key@,
            decreases self.properties@.len() - i,
        {
            if self.properties[i].daire_no == wanted {
                proof {
                    let props = self.properties@;
                    assert(props[i as int].daire_no@ == key@);
                    let k = choose|k: int| 0 <= k < props.len() && (#[trigger] props[k]).daire_no@
                        == key@;
                    assert(k == i);
                }
                return Some(i);
            }
            i = i + 1;
        }
        None
    }

    /// The property stored under the canonical key `key`, if any.
    pub fn get_property_by_daire_no(&self, key: &str) -> (r: Option<&Property>)
        requires
            self.wf(),
        ensures
            r is None <==> find_key(self.properties(), key@) is None,
            r matches Some(p) ==> find_key(self.properties(), key@) == Some(p.id as int) && *p
                == self.properties()[p.id as int],
    {
        match self.position_of(key) {
            Some(i) => Some(&self.properties[i]),
            None => None,
        }
    }

    /// Inserts `prop` under its key, or overwrites the property stored under
    /// it. On a hit every mutable attribute takes the incoming value while the
    /// id, the key and the owner stay. Returns whether a new property was
    /// created.
    pub fn upsert_property(&mut self, prop: CreateProperty) -> (created: bool)
        requires
            old(self).wf(),
        ensures
            final(self).wf(),
            created == (find_key(old(self).properties(), prop.daire_no@) is None),
            final(self).properties() == upserted(old(self).properties(), prop),
            final(self).customers() == old(self).customers(),
    {
        let ghost before = self.properties@;
        match self.position_of(prop.daire_no.as_str()) {
            Some(i) => {
                let id = self.properties[i].id;
                let daire_no = self.properties[i].daire_no.clone();
                let sahip_id = self.properties[i].sahip_id;
                let record = Property {
                    id,
                    daire_no,
                    blok: prop.blok,
                    kat: prop.kat,
                    kapi_no: prop.kapi_no,
                    daire_tipi: prop.daire_tipi,
                    oda_sayisi: prop.oda_sayisi,
                    brut_m2: prop.brut_m2,
                    net_m2: prop.net_m2,
                    balkon_m2: prop.balkon_m2,
                    cephe: prop.cephe,
                    kiraci_var_mi: prop.kiraci_var_mi,
                    sahip_id,
                };
                self.properties[i] = record;
                proof {
                    let after = self.properties@;
                    assert(after == before.update(i as int, overwritten(before[i as int], prop)));
                    assert forall|a: int, b: int|
                        0 <= a < after.len() && 0 <= b < after.len() && a != b implies (
                        #[trigger] after[a]).daire_no@ != (#[trigger] after[b]).daire_no@ by {
                        assert(before[a].daire_no@ != before[b].daire_no@);
                    }
                    assert forall|a: int| 0 <= a < after.len() implies (#[trigger] after[a]).id
                        == a by {
                        assert(before[a].id == a);
                    }
                }
                false
            },
            None => {
                let id = self.properties.len() as u128;
                let record = Property {
                    id,
                    daire_no: prop.daire_no,
                    blok: prop.blok,
                    kat: prop.kat,
                    kapi_no: prop.kapi_no,
                    daire_tipi: prop.daire_tipi,
                    oda_sayisi: prop.oda_sayisi,
                    brut_m2: prop.brut_m2,
                    net_m2: prop.net_m2,
                    balkon_m2: prop.balkon_m2,
                    cephe: prop.cephe,
                    kiraci_var_mi: prop.kiraci_var_mi,
                    sahip_id: None,
                };
                self.properties.push(record);
                proof {
                    let after = self.properties@;
                    assert(after == before.push(fresh_property(before.len() as u128, prop)));
                    assert forall|a: int, b: int|
                        0 <= a < after.len() && 0 <= b < after.len() && a != b implies (
                        #[trigger] after[a]).daire_no@ != (#[trigger] after[b]).daire_no@ by {
                        if a < before.len() && b < before.len() {
                            assert(before[a].daire_no@ != before[b].daire_no@);
                        } else if a < before.len() {
                            assert(after[a] == before[a]);
                        } else {
                            assert(after[b] == before[b]);
                        }
                    }
                    assert forall|a: int| 0 <= a < after.len() implies (#[trigger] after[a]).id
                        == a by {
                        if a < before.len() {
                            assert(after[a] == before[a]);
                        }
                    }
                }
                true
            },
        }
    }

    /// Stores `body` as a new customer and returns its id.
    pub fn create_customer(&mut self, body: CreateCustomer) -> (id: u128)
        requires
            old(self).wf(),
        ensures
            final(self).wf(),
            id as int == old(self).customers().len(),
            final(self).customers() == old(self).customers().push(stored_customer(id, body)),
            final(self).properties() == old(self).properties(),
    {
        let id = self.customers.len() as u128;
        let record = Customer {
            id,
            ad_soyad: body.ad_soyad,
            gsm: body.gsm,
            telefon: body.telefon,
            email: body.email,
            acil_kisi: body.acil_kisi,
            uyruk: body.uyruk,
            en_son_gorusuldu: body.en_son_gorusuldu,
            danisan_id: body.danisan_id,
        };
        let ghost before = self.customers@;
        self.customers.push(record);
        proof {
            let after = self.customers@;
            assert forall|a: int| 0 <= a < after.len() implies (#[trigger] after[a]).id == a by {
                if a < before.len() {
                    assert(after[a] == before[a]);
                }
            }
        }
        id
    }

    /// Stores the customer that an import row names and returns its id. Each
    /// call stores a new record, so two rows with the same owner name give two
    /// customers. Blank contact fields are stored as absent.
    pub fn get_or_create_customer(
        &mut self,
        ad_soyad: &str,
        gsm: &str,
        telefon: &str,
        email: &str,
        acil_kisi: &str,
        uyruk: &str,
    ) -> (id: u128)
        requires
            old(self).wf(),
        ensures
            final(self).wf(),
            id as int == old(self).customers().len(),
            final(self).customers().len() == old(self).customers().len() + 1,
            final(self).customers().drop_last() == old(self).customers(),
            is_contact_record(
                final(self).customers().last(),
                id,
                ad_soyad@,
                gsm@,
                telefon@,
                email@,
                acil_kisi@,
                uyruk@,
            ),
            final(self).properties() == old(self).properties(),
    {
        let body = CreateCustomer::from_contact(ad_soyad, gsm, telefon, email, acil_kisi, uyruk);
        let id = self.create_customer(body);
        proof {
            assert(self.customers().drop_last() =~= old(self).customers());
        }
        id
    }

    /// Makes customer `customer_id` the owner of property `property_id`; no
    /// change when there is no such property.
    pub fn set_property_owner(&mut self, property_id: u128, customer_id: u128)
        requires
            old(self).wf(),
        ensures
            final(self).wf(),
            final(self).properties() == with_owner(old(self).properties(), property_id, customer_id),
            final(self).customers() == old(self).customers(),
    {
        if property_id < self.properties.len() as u128 {
            let i = property_id as usize;
            let ghost before = self.properties@;
            self.properties[i].sahip_id = Some(customer_id);
            proof {
                let after = self.properties@;
                assert(after =~= with_owner(before, property_id, customer_id));
                assert forall|a: int, b: int|
                    0 <= a < after.len() && 0 <= b < after.len() && a != b implies (
                    #[trigger] after[a]).daire_no@ != (#[trigger] after[b]).daire_no@ by {
                    assert(before[a].daire_no@ != before[b].daire_no@);
                }
                assert forall|a: int| 0 <= a < after.len() implies (#[trigger] after[a]).id == a by {
                    assert(before[a].id == a);
                }
            }
        }
    }

    /// Sets the tenant flag of property `property_id` to `kiraci_var_mi`; no
    /// change when there is no such property.
    pub fn set_kiraci_var_mi(&mut self, property_id: u128, kiraci_var_mi: bool)
        requires
            old(self).wf(),
        ensures
            final(self).wf(),
            final(self).properties() == with_tenant_flag(
                old(self).properties(),
                property_id,
                kiraci_var_mi,
            ),
            final(self).customers() == old(self).customers(),
    {
        if property_id < self.properties.len() as u128 {
            let i = property_id as usize;
            let ghost before = self.properties@;
            self.properties[i].kiraci_var_mi = kiraci_var_mi;
            proof {
                let after = self.properties@;
                assert(after =~= with_tenant_flag(before, property_id, kiraci_var_mi));
                assert forall|a: int, b: int|
                    0 <= a < after.len() && 0 <= b < after.len() && a != b implies (
                    #[trigger] after[a]).daire_no@ != (#[trigger] after[b]).daire_no@ by {
                    assert(before[a].daire_no@ != before[b].daire_no@);
                }
                assert forall|a: int| 0 <= a < after.len() implies (#[trigger] after[a]).id == a by {
                    assert(before[a].id == a);
                }
            }
        }
    }

    /// Number of stored properties.
    pub fn property_count(&self) -> (r: usize)
        ensures
            r == self.properties().len(),
    {
        self.properties.len()
    }

    /// Number of stored customers.
    pub fn customer_count(&self) -> (r: usize)
        ensures
            r == self.customers().len(),
    {
        self.customers.len()
    }

    /// The customer with id `id`, if any.
    pub fn customer(&self, id: u128) -> (r: Option<&Customer>)
        requires
            self.wf(),
        ensures
            r is None <==> id as int >= self.customers().len(),
            r matches Some(c) ==> *c == self.customers()[id as int],
    {
        if id < self.customers.len() as u128 {
            Some(&self.customers[id as usize])
        } else {
            None
        }
    }
}

} // verus!
