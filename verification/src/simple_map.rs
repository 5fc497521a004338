//! A keyed store of single `u32` entries per account, together with the
//! product registry built on the same storage substrate.
//!
//! As in the ledger, every operation validates first and writes only after
//! all checks pass; a failed operation leaves the state untouched and
//! emits nothing.

use vstd::prelude::*;

use crate::assoc::{
    bytes_eq, bytes_view, clone_byte_list, clone_bytes, kv_append, kv_contains, kv_find, kv_index,
    kv_remove, kv_set, kv_unique, lemma_kv_append_unique, lemma_kv_index, lemma_kv_index_at,
    lemma_kv_index_push, lemma_kv_remove_unique, lemma_kv_set_unique, lemma_kv_unique_push,
};
use crate::catalog::{
    new_product_record, props_view, Product, ProductBuilder, ProductBuilderView, ProductProperty,
    ProductPropertyView, ProductView, PRODUCT_ID_MAX_LENGTH, PRODUCT_MAX_PROPS,
    PRODUCT_PROP_NAME_MAX_LENGTH, PRODUCT_PROP_VALUE_MAX_LENGTH,
};

verus! {

/// Everything that can go wrong in a store operation. The first violated
/// precondition, in the operation's fixed order of checks, is the one
/// reported.
#[derive(Clone, Copy, PartialEq, Eq, Structural, Debug)]
pub enum Error {
    /// The account has no entry stored.
    NoValueStored,
    /// The entry cannot be incremented without overflowing.
    MaxValueReached,
    /// The product identifier is empty.
    ProductIdMissing,
    /// The product identifier is too long.
    ProductIdTooLong,
    /// A product is already registered under this identifier.
    ProductIdExists,
    /// The property list is too long.
    ProductTooManyProps,
    /// A property name is too long.
    ProductInvalidPropName,
    /// A property value is too long.
    ProductInvalidPropValue,
}

/// A domain event deposited by a successful operation.
#[derive(Clone, PartialEq, Eq, Debug)]
pub enum RawEvent {
    /// An account stored an entry: (account, entry).
    EntrySet(u64, u32),
    /// An account read an entry, leaving it stored: (reader, entry).
    EntryGot(u64, u32),
    /// An account read an entry, removing it: (account, entry).
    EntryTaken(u64, u32),
    /// An account incremented its entry: (account, old entry, new entry).
    EntryIncreased(u64, u32, u32),
    /// A product was registered: (caller, product id, owner).
    ProductRegistered(u64, Vec<u8>, u64),
}

/// Mathematical image of a [`RawEvent`].
pub enum RawEventView {
    EntrySet(u64, u32),
    EntryGot(u64, u32),
    EntryTaken(u64, u32),
    EntryIncreased(u64, u32, u32),
    ProductRegistered(u64, Seq<u8>, u64),
}

impl View for RawEvent {
    type V = RawEventView;

    open spec fn view(&self) -> RawEventView {
        match self {
            RawEvent::EntrySet(a, v) => RawEventView::EntrySet(*a, *v),
            RawEvent::EntryGot(a, v) => RawEventView::EntryGot(*a, *v),
            RawEvent::EntryTaken(a, v) => RawEventView::EntryTaken(*a, *v),
            RawEvent::EntryIncreased(a, v, w) => RawEventView::EntryIncreased(*a, *v, *w),
            RawEvent::ProductRegistered(who, id, owner) => RawEventView::ProductRegistered(
                *who,
                id@,
                *owner,
            ),
        }
    }
}

/// Mathematical image of the whole store.
#[verifier::ext_equal]
pub struct SimpleMapView {
    /// One `u32` entry per account.
    pub entries: Seq<(u64, u32)>,
    /// Product records keyed by product id.
    pub products: Seq<(Seq<u8>, ProductView)>,
    /// Organization to the product ids it registered, in order.
    pub products_of_org: Seq<(u64, Seq<Seq<u8>>)>,
    /// Product id to the account that owns it.
    pub owner_of: Seq<(Seq<u8>, u64)>,
    /// Domain events deposited so far, oldest first.
    pub emitted: Seq<RawEventView>,
}

impl SimpleMapView {
    /// Structural invariant: every map has unique keys, a product entry's
    /// key is the record's own id, and every owned id is a registered one.
    pub open spec fn well_formed(self) -> bool {
        &&& kv_unique(self.entries)
        &&& kv_unique(self.products)
        &&& (forall|i: int|
            0 <= i < self.products.len() ==> (#[trigger] self.products[i].1).id
                == self.products[i].0)
        &&& kv_unique(self.products_of_org)
        &&& kv_unique(self.owner_of)
        &&& (forall|i: int|
            0 <= i < self.owner_of.len() ==> kv_contains(
                self.products,
                (#[trigger] self.owner_of[i]).0,
            ))
    }
}

/// The store's state. Constructed empty, then mutated only through the
/// operations below.
pub struct SimpleMap {
    entries: Vec<(u64, u32)>,
    products: Vec<Product>,
    products_of_org: Vec<(u64, Vec<Vec<u8>>)>,
    owner_of: Vec<(Vec<u8>, u64)>,
    events: Vec<RawEvent>,
}

impl View for SimpleMap {
    type V = SimpleMapView;

    closed spec fn view(&self) -> SimpleMapView {
        SimpleMapView {
            entries: self.entries@,
            products: self.products@.map_values(|p: Product| (p@.id, p@)),
            products_of_org: self.products_of_org@.map_values(
                |e: (u64, Vec<Vec<u8>>)| (e.0, bytes_view(e.1@)),
            ),
            owner_of: self.owner_of@.map_values(|e: (Vec<u8>, u64)| (e.0@, e.1)),
            emitted: self.events@.map_values(|ev: RawEvent| ev@),
        }
    }
}

/// Outcome of product identifier validation: emptiness is reported before
/// excessive length.
pub open spec fn product_id_result(id: Seq<u8>) -> Result<(), Error> {
    if id.len() == 0 {
        Err(Error::ProductIdMissing)
    } else if id.len() > PRODUCT_ID_MAX_LENGTH {
        Err(Error::ProductIdTooLong)
    } else {
        Ok(())
    }
}

/// Outcome of checking the properties one by one, name before value, first
/// offender reported.
pub open spec fn prop_entries_result(ps: Seq<ProductPropertyView>) -> Result<(), Error>
    decreases ps.len(),
{
    if ps.len() == 0 {
        Ok(())
    } else if ps[0].name.len() > PRODUCT_PROP_NAME_MAX_LENGTH {
        Err(Error::ProductInvalidPropName)
    } else if ps[0].value.len() > PRODUCT_PROP_VALUE_MAX_LENGTH {
        Err(Error::ProductInvalidPropValue)
    } else {
        prop_entries_result(ps.drop_first())
    }
}

/// Outcome of property-list validation: an absent list is fine, an
/// over-long list is reported before its entries are examined.
pub open spec fn product_props_result(props: Option<Seq<ProductPropertyView>>) -> Result<
    (),
    Error,
> {
    match props {
        None => Ok(()),
        Some(ps) => if ps.len() > PRODUCT_MAX_PROPS {
            Err(Error::ProductTooManyProps)
        } else {
            prop_entries_result(ps)
        },
    }
}

/// Outcome of `register_product`: the identifier is validated first, the
/// properties second, and the registry is consulted last.
pub open spec fn register_product_result(
    s: SimpleMapView,
    id: Seq<u8>,
    props: Option<Seq<ProductPropertyView>>,
) -> Result<(), Error> {
    if product_id_result(id) is Err {
        product_id_result(id)
    } else if product_props_result(props) is Err {
        product_props_result(props)
    } else if kv_contains(s.products, id) {
        Err(Error::ProductIdExists)
    } else {
        Ok(())
    }
}

/// State after a successful `register_product`: the record is added to the
/// registry, its id to the owner's index and to the ownership map, and
/// `ProductRegistered` is emitted.
pub open spec fn register_product_state(
    s: SimpleMapView,
    who: u64,
    id: Seq<u8>,
    owner: u64,
    props: Option<Seq<ProductPropertyView>>,
    now: u64,
) -> SimpleMapView {
    SimpleMapView {
        products: s.products.push((id, new_product_record(id, owner, props, now))),
        products_of_org: kv_append(s.products_of_org, owner, id),
        owner_of: s.owner_of.push((id, owner)),
        emitted: s.emitted.push(RawEventView::ProductRegistered(who, id, owner)),
        ..s
    }
}

impl SimpleMap {
    /// Checks that `id` is an admissible product identifier: non-empty and
    /// at most [`PRODUCT_ID_MAX_LENGTH`] bytes.
    pub fn validate_product_id(id: &Vec<u8>) -> (r: Result<(), Error>)
        ensures
            r == product_id_result(id@),
    {
        if id.len() == 0 {
            return Err(Error::ProductIdMissing);
        }
        if id.len() > PRODUCT_ID_MAX_LENGTH {
            return Err(Error::ProductIdTooLong);
        }
        Ok(())
    }

    /// Checks the property list: at most [`PRODUCT_MAX_PROPS`] entries,
    /// each with its name and value within bounds.
    pub fn validate_product_props(props: &Option<Vec<ProductProperty>>) -> (r: Result<(), Error>)
        ensures
            r == product_props_result(match props {
                Some(ps) => Some(ps@.map_values(|p: ProductProperty| p@)),
                None => None,
            }),
    {
        let ps = match props {
            None => {
                return Ok(());
            },
            Some(ps) => ps,
        };
        if ps.len() > PRODUCT_MAX_PROPS {
            return Err(Error::ProductTooManyProps);
        }
        let ghost psv = ps@.map_values(|p: ProductProperty| p@);
        proof {
            assert(psv.skip(0) =~= psv);
        }
        let mut i: usize = 0;
        while i < ps.len()
            invariant
                i <= ps.len(),
                ps@.len() <= PRODUCT_MAX_PROPS,
                props matches Some(given) && given@ == ps@,
                psv == ps@.map_values(|p: ProductProperty| p@),
                prop_entries_result(psv) == prop_entries_result(psv.skip(i as int)),
            decreases ps.len() - i,
        {
            proof {
                assert(psv.skip(i as int)[0] == psv[i as int]);
            }
            if ps[i].name().len() > PRODUCT_PROP_NAME_MAX_LENGTH {
                return Err(Error::ProductInvalidPropName);
            }
            if ps[i].value().len() > PRODUCT_PROP_VALUE_MAX_LENGTH {
                return Err(Error::ProductInvalidPropValue);
            }
            proof {
                assert(psv.skip(i as int).drop_first() =~= psv.skip(i as int + 1));
            }
            i += 1;
        }
        proof {
            assert(psv.skip(ps@.len() as int) =~= Seq::<ProductPropertyView>::empty());
        }
        Ok(())
    }

    /// Position of the product registered under `id`, as `kv_index` sees
    /// it.
    fn find_product_position(&self, id: &Vec<u8>) -> (r: Option<usize>)
        ensures
            match r {
                Some(i) => kv_index(self@.products, id@) == i as int && i < self.products.len(),
                None => kv_index(self@.products, id@) < 0,
            },
    {
        let mut i: usize = 0;
        while i < self.products.len()
            invariant
                i <= self.products.len(),
                forall|j: int| 0 <= j < i ==> (#[trigger] self@.products[j]).0 != id@,
            decreases self.products.len() - i,
        {
            if bytes_eq(self.products[i].id(), id) {
                proof {
                    lemma_kv_index_at(self@.products, id@, i as int);
                }
                return Some(i);
            }
            i += 1;
        }
        proof {
            lemma_kv_index(self@.products, id@);
        }
        None
    }

    /// Checks that no product is registered under `id` yet.
    pub fn validate_new_product(&self, id: &Vec<u8>) -> (r: Result<(), Error>)
        ensures
            r == (if kv_contains(self@.products, id@) {
                Err::<(), Error>(Error::ProductIdExists)
            } else {
                Ok::<(), Error>(())
            }),
    {
        match self.find_product_position(id) {
            Some(_) => Err(Error::ProductIdExists),
            None => Ok(()),
        }
    }

    /// A builder for a fresh product record.
    fn new_product() -> (r: ProductBuilder)
        ensures
            r@ == (ProductBuilderView {
                id: Seq::<u8>::empty(),
                owner: 0u64,
                props: None,
                registered: 0u64,
            }),
    {
        ProductBuilder::default()
    }

    /// Appends `id` to the list of products registered by `owner`,
    /// creating the entry when the organization has none yet. Nothing else
    /// changes.
    fn append_product_of_org(&mut self, owner: u64, id: Vec<u8>)
        ensures
            final(self)@ == (SimpleMapView {
                products_of_org: kv_append(old(self)@.products_of_org, owner, id@),
                ..old(self)@
            }),
    {
        let mut i: usize = 0;
        while i < self.products_of_org.len()
            invariant
                self == old(self),
                i <= self.products_of_org.len(),
                forall|j: int| 0 <= j < i ==> (#[trigger] self@.products_of_org[j]).0 != owner,
            decreases self.products_of_org.len() - i,
        {
            if self.products_of_org[i].0 == owner {
                proof {
                    lemma_kv_index_at(self@.products_of_org, owner, i as int);
                }
                let mut entry = self.products_of_org.remove(i);
                entry.1.push(id);
                self.products_of_org.insert(i, entry);
                proof {
                    let v0 = old(self)@.products_of_org;
                    let target = v0.update(i as int, (owner, v0[i as int].1.push(id@)));
                    let cur = self@.products_of_org;
                    assert forall|j: int| 0 <= j < target.len() implies cur[j] == target[j] by {
                        if j == i {
                            assert(cur[j].0 == owner);
                            assert(cur[j].1 =~= v0[i as int].1.push(id@));
                        } else {
                            assert(cur[j] == v0[j]);
                        }
                    }
                    assert(cur =~= target);
                    assert(self@ =~= (SimpleMapView {
                        products_of_org: kv_append(v0, owner, id@),
                        ..old(self)@
                    }));
                }
                return;
            }
            i += 1;
        }
        proof {
            lemma_kv_index(self@.products_of_org, owner);
        }
        let mut fresh: Vec<Vec<u8>> = Vec::new();
        fresh.push(id);
        self.products_of_org.push((owner, fresh));
        proof {
            let v0 = old(self)@.products_of_org;
            let target = v0.push((owner, seq![id@]));
            let cur = self@.products_of_org;
            assert forall|j: int| 0 <= j < target.len() implies cur[j] == target[j] by {
                if j == v0.len() {
                    assert(cur[j].0 == owner);
                    assert(cur[j].1 =~= seq![id@]);
                } else {
                    assert(cur[j] == v0[j]);
                }
            }
            assert(cur =~= target);
            assert(self@ =~= (SimpleMapView {
                products_of_org: kv_append(v0, owner, id@),
                ..old(self)@
            }));
        }
    }

    /// Registers a new product supplied by `owner` under `id`, at time
    /// `now`.
    ///
    /// The identifier must be admissible, the properties within bounds,
    /// and the id free, checked in that order; the first failure is
    /// reported and the state is left untouched. On success the record is
    /// stored, the owner's index and the ownership map gain the id, and
    /// `ProductRegistered` is emitted.
    pub fn register_product(
        &mut self,
        who: u64,
        id: Vec<u8>,
        owner: u64,
        props: Option<Vec<ProductProperty>>,
        now: u64,
    ) -> (r: Result<(), Error>)
        requires
            old(self)@.well_formed(),
        ensures
            final(self)@.well_formed(),
            r == register_product_result(old(self)@, id@, props_view(props)),
            r is Ok ==> final(self)@ == register_product_state(
                old(self)@,
                who,
                id@,
                owner,
                props_view(props),
                now,
            ),
            r is Err ==> final(self)@ == old(self)@,
    {
        let ghost s0 = self@;
        let ghost idv = id@;
        let ghost propsv = props_view(props);
        if let Err(e) = SimpleMap::validate_product_id(&id) {
            return Err(e);
        }
        if let Err(e) = SimpleMap::validate_product_props(&props) {
            return Err(e);
        }
        if let Err(e) = self.validate_new_product(&id) {
            return Err(e);
        }
        let org_id = clone_bytes(&id);
        let owner_id = clone_bytes(&id);
        let ev_id = clone_bytes(&id);
        let product = SimpleMap::new_product()
            .identified_by(id)
            .owned_by(owner)
            .registered_on(now)
            .with_props(props)
            .build();
        proof {
            lemma_kv_index(s0.products, idv);
            lemma_kv_unique_push(s0.products, (idv, product@));
        }
        self.products.push(product);
        proof {
            assert(self@.products =~= s0.products.push((idv, new_product_record(
                idv,
                owner,
                propsv,
                now,
            ))));
        }
        self.append_product_of_org(owner, org_id);
        proof {
            assert(kv_index(self@.owner_of, idv) < 0) by {
                lemma_kv_index(self@.owner_of, idv);
                if kv_index(self@.owner_of, idv) >= 0 {
                    assert(kv_contains(s0.products, idv));
                }
            }
            lemma_kv_unique_push(self@.owner_of, (idv, owner));
        }
        self.owner_of.push((owner_id, owner));
        self.events.push(RawEvent::ProductRegistered(who, ev_id, owner));
        proof {
            lemma_kv_append_unique(s0.products_of_org, owner, idv);
            assert(self@.owner_of =~= s0.owner_of.push((idv, owner)));
            assert(self@ =~= register_product_state(s0, who, idv, owner, propsv, now));
            let s2 = self@;
            assert forall|i: int| 0 <= i < s2.owner_of.len() implies kv_contains(
                s2.products,
                (#[trigger] s2.owner_of[i]).0,
            ) by {
                let k = s2.owner_of[i].0;
                if i < s0.owner_of.len() {
                    assert(kv_contains(s0.products, k));
                    lemma_kv_index_push(s0.products, k, (idv, new_product_record(
                        idv,
                        owner,
                        propsv,
                        now,
                    )));
                } else {
                    lemma_kv_index_push(s0.products, idv, (idv, new_product_record(
                        idv,
                        owner,
                        propsv,
                        now,
                    )));
                }
            }
        }
        Ok(())
    }

    /// The product registered under `id`, if any.
    pub fn product_by_id(&self, id: &Vec<u8>) -> (r: Option<&Product>)
        ensures
            match r {
                Some(p) => kv_find(self@.products, id@) == Some(p@),
                None => kv_find(self@.products, id@) is None,
            },
    {
        match self.find_product_position(id) {
            Some(i) => Some(&self.products[i]),
            None => None,
        }
    }

    /// The ids of the products registered by `org`, in order; empty when
    /// the organization registered none.
    pub fn products_of_org(&self, org: u64) -> (r: Vec<Vec<u8>>)
        ensures
            bytes_view(r@) == match kv_find(self@.products_of_org, org) {
                Some(ids) => ids,
                None => Seq::<Seq<u8>>::empty(),
            },
    {
        let mut i: usize = 0;
        while i < self.products_of_org.len()
            invariant
                i <= self.products_of_org.len(),
                forall|j: int| 0 <= j < i ==> (#[trigger] self@.products_of_org[j]).0 != org,
            decreases self.products_of_org.len() - i,
        {
            if self.products_of_org[i].0 == org {
                proof {
                    lemma_kv_index_at(self@.products_of_org, org, i as int);
                }
                return clone_byte_list(&self.products_of_org[i].1);
            }
            i += 1;
        }
        proof {
            lemma_kv_index(self@.products_of_org, org);
        }
        let r: Vec<Vec<u8>> = Vec::new();
        proof {
            assert(bytes_view(r@) =~= Seq::<Seq<u8>>::empty());
        }
        r
    }

    /// The account that owns the product registered under `id`, if any.
    pub fn owner_of(&self, id: &Vec<u8>) -> (r: Option<u64>)
        ensures
            r == kv_find(self@.owner_of, id@),
    {
        let mut i: usize = 0;
        while i < self.owner_of.len()
            invariant
                i <= self.owner_of.len(),
                forall|j: int| 0 <= j < i ==> (#[trigger] self@.owner_of[j]).0 != id@,
            decreases self.owner_of.len() - i,
        {
            if bytes_eq(&self.owner_of[i].0, id) {
                proof {
                    lemma_kv_index_at(self@.owner_of, id@, i as int);
                }
                return Some(self.owner_of[i].1);
            }
            i += 1;
        }
        proof {
            lemma_kv_index(self@.owner_of, id@);
        }
        None
    }

    /// A fresh, empty store.
    pub fn new() -> (r: Self)
        ensures
            r@.well_formed(),
            r@ == (SimpleMapView {
                entries: Seq::<(u64, u32)>::empty(),
                products: Seq::<(Seq<u8>, ProductView)>::empty(),
                products_of_org: Seq::<(u64, Seq<Seq<u8>>)>::empty(),
                owner_of: Seq::<(Seq<u8>, u64)>::empty(),
                emitted: Seq::<RawEventView>::empty(),
            }),
    {
        let r = SimpleMap {
            entries: Vec::new(),
            products: Vec::new(),
            products_of_org: Vec::new(),
            owner_of: Vec::new(),
            events: Vec::new(),
        };
        proof {
            assert(r@ =~= (SimpleMapView {
                entries: Seq::<(u64, u32)>::empty(),
                products: Seq::<(Seq<u8>, ProductView)>::empty(),
                products_of_org: Seq::<(u64, Seq<Seq<u8>>)>::empty(),
                owner_of: Seq::<(Seq<u8>, u64)>::empty(),
                emitted: Seq::<RawEventView>::empty(),
            }));
        }
        r
    }

    /// The domain events deposited so far, oldest first.
    pub fn events(&self) -> (r: &Vec<RawEvent>)
        ensures
            self@.emitted == r@.map_values(|ev: RawEvent| ev@),
    {
        &self.events
    }

    /// Position of the entry stored for `account`, as `kv_index` sees it.
    fn find_entry_position(&self, account: u64) -> (r: Option<usize>)
        ensures
            match r {
                Some(i) => kv_index(self@.entries, account) == i as int && i < self.entries.len(),
                None => kv_index(self@.entries, account) < 0,
            },
    {
        let mut i: usize = 0;
        while i < self.entries.len()
            invariant
                i <= self.entries.len(),
                forall|j: int| 0 <= j < i ==> (#[trigger] self@.entries[j]).0 != account,
            decreases self.entries.len() - i,
        {
            if self.entries[i].0 == account {
                proof {
                    lemma_kv_index_at(self@.entries, account, i as int);
                }
                return Some(i);
            }
            i += 1;
        }
        proof {
            lemma_kv_index(self@.entries, account);
        }
        None
    }

    /// The entry stored for `account`, or zero when none is.
    pub fn simple_map(&self, account: u64) -> (r: u32)
        ensures
            r == match kv_find(self@.entries, account) {
                Some(v) => v,
                None => 0u32,
            },
    {
        match self.find_entry_position(account) {
            Some(i) => self.entries[i].1,
            None => 0,
        }
    }

    /// Stores `entry` for `user`, replacing any entry already stored, and
    /// emits `EntrySet`. Never fails.
    pub fn set_single_entry(&mut self, user: u64, entry: u32) -> (r: Result<(), Error>)
        requires
            old(self)@.well_formed(),
        ensures
            final(self)@.well_formed(),
            r is Ok,
            final(self)@ == (SimpleMapView {
                entries: kv_set(old(self)@.entries, user, entry),
                emitted: old(self)@.emitted.push(RawEventView::EntrySet(user, entry)),
                ..old(self)@
            }),
    {
        proof {
            lemma_kv_set_unique(self@.entries, user, entry);
        }
        match self.find_entry_position(user) {
            Some(i) => {
                self.entries.remove(i);
                self.entries.insert(i, (user, entry));
                proof {
                    assert(self@.entries =~= kv_set(old(self)@.entries, user, entry));
                }
            },
            None => {
                self.entries.push((user, entry));
            },
        }
        self.events.push(RawEvent::EntrySet(user, entry));
        proof {
            assert(self@ =~= (SimpleMapView {
                entries: kv_set(old(self)@.entries, user, entry),
                emitted: old(self)@.emitted.push(RawEventView::EntrySet(user, entry)),
                ..old(self)@
            }));
        }
        Ok(())
    }

    /// Reads the entry stored for `account` and emits it as `EntryGot` on
    /// behalf of `getter`, leaving it stored. Fails with `NoValueStored`
    /// when the account has none.
    pub fn get_single_entry(&mut self, getter: u64, account: u64) -> (r: Result<(), Error>)
        requires
            old(self)@.well_formed(),
        ensures
            final(self)@.well_formed(),
            r == (if kv_contains(old(self)@.entries, account) {
                Ok::<(), Error>(())
            } else {
                Err::<(), Error>(Error::NoValueStored)
            }),
            r is Ok ==> final(self)@ == (SimpleMapView {
                emitted: old(self)@.emitted.push(
                    RawEventView::EntryGot(getter, kv_find(old(self)@.entries, account).unwrap()),
                ),
                ..old(self)@
            }),
            r is Err ==> final(self)@ == old(self)@,
    {
        let i = match self.find_entry_position(account) {
            None => {
                return Err(Error::NoValueStored);
            },
            Some(i) => i,
        };
        let entry = self.entries[i].1;
        self.events.push(RawEvent::EntryGot(getter, entry));
        proof {
            assert(self@ =~= (SimpleMapView {
                emitted: old(self)@.emitted.push(
                    RawEventView::EntryGot(getter, kv_find(old(self)@.entries, account).unwrap()),
                ),
                ..old(self)@
            }));
        }
        Ok(())
    }

    /// Reads and removes the entry stored for `user`, emitting it as
    /// `EntryTaken`. Fails with `NoValueStored` when the account has none.
    pub fn take_single_entry(&mut self, user: u64) -> (r: Result<(), Error>)
        requires
            old(self)@.well_formed(),
        ensures
            final(self)@.well_formed(),
            r == (if kv_contains(old(self)@.entries, user) {
                Ok::<(), Error>(())
            } else {
                Err::<(), Error>(Error::NoValueStored)
            }),
            r is Ok ==> final(self)@ == (SimpleMapView {
                entries: kv_remove(old(self)@.entries, user),
                emitted: old(self)@.emitted.push(
                    RawEventView::EntryTaken(user, kv_find(old(self)@.entries, user).unwrap()),
                ),
                ..old(self)@
            }),
            r is Err ==> final(self)@ == old(self)@,
    {
        let i = match self.find_entry_position(user) {
            None => {
                return Err(Error::NoValueStored);
            },
            Some(i) => i,
        };
        proof {
            lemma_kv_remove_unique(self@.entries, user);
        }
        let removed = self.entries.remove(i);
        self.events.push(RawEvent::EntryTaken(user, removed.1));
        proof {
            assert(self@ =~= (SimpleMapView {
                entries: kv_remove(old(self)@.entries, user),
                emitted: old(self)@.emitted.push(
                    RawEventView::EntryTaken(user, kv_find(old(self)@.entries, user).unwrap()),
                ),
                ..old(self)@
            }));
        }
        Ok(())
    }

    /// Adds `add_this_val` to the entry stored for `user` and emits
    /// `EntryIncreased` with the old and new values. Fails with
    /// `NoValueStored` when the account has none, and with
    /// `MaxValueReached` when the sum would overflow.
    pub fn increase_single_entry(&mut self, user: u64, add_this_val: u32) -> (r: Result<(), Error>)
        requires
            old(self)@.well_formed(),
        ensures
            final(self)@.well_formed(),
            r == (if !kv_contains(old(self)@.entries, user) {
                Err::<(), Error>(Error::NoValueStored)
            } else if kv_find(old(self)@.entries, user).unwrap() + add_this_val > u32::MAX {
                Err::<(), Error>(Error::MaxValueReached)
            } else {
                Ok::<(), Error>(())
            }),
            r is Ok ==> final(self)@ == (SimpleMapView {
                entries: kv_set(
                    old(self)@.entries,
                    user,
                    (kv_find(old(self)@.entries, user).unwrap() + add_this_val) as u32,
                ),
                emitted: old(self)@.emitted.push(
                    RawEventView::EntryIncreased(
                        user,
                        kv_find(old(self)@.entries, user).unwrap(),
                        (kv_find(old(self)@.entries, user).unwrap() + add_this_val) as u32,
                    ),
                ),
                ..old(self)@
            }),
            r is Err ==> final(self)@ == old(self)@,
    {
        let i = match self.find_entry_position(user) {
            None => {
                return Err(Error::NoValueStored);
            },
            Some(i) => i,
        };
        let original_value = self.entries[i].1;
        let new_value = match original_value.checked_add(add_this_val) {
            None => {
                return Err(Error::MaxValueReached);
            },
            Some(v) => v,
        };
        proof {
            lemma_kv_set_unique(self@.entries, user, new_value);
        }
        self.entries.remove(i);
        self.entries.insert(i, (user, new_value));
        self.events.push(RawEvent::EntryIncreased(user, original_value, new_value));
        proof {
            assert(self@.entries =~= kv_set(old(self)@.entries, user, new_value));
            assert(self@ =~= (SimpleMapView {
                entries: kv_set(old(self)@.entries, user, new_value),
                emitted: old(self)@.emitted.push(
                    RawEventView::EntryIncreased(user, original_value, new_value),
                ),
                ..old(self)@
            }));
        }
        Ok(())
    }
}

} // verus!
