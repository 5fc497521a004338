//! Product master data: trade items registered once by their supplier and
//! referenced from shipments by identifier.

use vstd::prelude::*;

use crate::assoc::bytes_view;

verus! {

/// Longest admissible product identifier, in bytes.
pub const PRODUCT_ID_MAX_LENGTH: usize = 14;

/// Longest admissible product property name, in bytes.
pub const PRODUCT_PROP_NAME_MAX_LENGTH: usize = 10;

/// Longest admissible product property value, in bytes.
pub const PRODUCT_PROP_VALUE_MAX_LENGTH: usize = 20;

/// Largest number of properties one product may carry.
pub const PRODUCT_MAX_PROPS: usize = 3;

/// A name–value pair describing a product, such as a description or an SKU.
#[derive(Clone, PartialEq, Eq, Debug)]
pub struct ProductProperty {
    name: Vec<u8>,
    value: Vec<u8>,
}

/// Mathematical image of a [`ProductProperty`].
#[verifier::ext_equal]
pub struct ProductPropertyView {
    pub name: Seq<u8>,
    pub value: Seq<u8>,
}

impl View for ProductProperty {
    type V = ProductPropertyView;

    closed spec fn view(&self) -> ProductPropertyView {
        ProductPropertyView { name: self.name@, value: self.value@ }
    }
}

impl ProductProperty {
    /// A property holding copies of `name` and `value`.
    pub fn new(name: &[u8], value: &[u8]) -> (r: Self)
        ensures
            r@ == (ProductPropertyView { name: name@, value: value@ }),
    {
        let r = ProductProperty {
            name: vstd::slice::slice_to_vec(name),
            value: vstd::slice::slice_to_vec(value),
        };
        proof {
            assert(r@ =~= (ProductPropertyView { name: name@, value: value@ }));
        }
        r
    }

    /// The property's name.
    pub fn name(&self) -> (r: &[u8])
        ensures
            r@ == self@.name,
    {
        self.name.as_slice()
    }

    /// The property's value.
    pub fn value(&self) -> (r: &[u8])
        ensures
            r@ == self@.value,
    {
        self.value.as_slice()
    }
}

impl Product {
    /// The product's identifier.
    pub fn id(&self) -> (r: &Vec<u8>)
        ensures
            r@ == self@.id,
    {
        &self.id
    }
}

/// Master data about a trade item: its identifier, the account of its
/// supplier, optional descriptive properties, and the registration time.
/// Records are immutable once registered.
#[derive(Clone, PartialEq, Eq, Debug)]
pub struct Product {
    pub(crate) id: Vec<u8>,
    pub(crate) owner: u64,
    pub(crate) props: Option<Vec<ProductProperty>>,
    pub(crate) registered: u64,
}

/// Mathematical image of a [`Product`].
#[verifier::ext_equal]
pub struct ProductView {
    pub id: Seq<u8>,
    pub owner: u64,
    pub props: Option<Seq<ProductPropertyView>>,
    pub registered: u64,
}

impl View for Product {
    type V = ProductView;

    closed spec fn view(&self) -> ProductView {
        ProductView {
            id: self.id@,
            owner: self.owner,
            props: props_view(self.props),
            registered: self.registered,
        }
    }
}

/// The view of an optional property list.
pub open spec fn props_view(props: Option<Vec<ProductProperty>>) -> Option<
    Seq<ProductPropertyView>,
> {
    match props {
        Some(ps) => Some(ps@.map_values(|p: ProductProperty| p@)),
        None => None,
    }
}

/// A product record with every field fixed.
pub open spec fn new_product_record(
    id: Seq<u8>,
    owner: u64,
    props: Option<Seq<ProductPropertyView>>,
    registered: u64,
) -> ProductView {
    ProductView { id, owner, props, registered }
}

/// Mathematical image of a [`ProductBuilder`].
#[verifier::ext_equal]
pub struct ProductBuilderView {
    pub id: Seq<u8>,
    pub owner: u64,
    pub props: Option<Seq<ProductPropertyView>>,
    pub registered: u64,
}

/// Step-by-step construction of a [`Product`], so no record is ever
/// observable half-initialized.
pub struct ProductBuilder {
    id: Vec<u8>,
    owner: u64,
    props: Option<Vec<ProductProperty>>,
    registered: u64,
}

impl View for ProductBuilder {
    type V = ProductBuilderView;

    closed spec fn view(&self) -> ProductBuilderView {
        ProductBuilderView {
            id: self.id@,
            owner: self.owner,
            props: props_view(self.props),
            registered: self.registered,
        }
    }
}

impl Default for ProductBuilder {
    /// A builder with an empty identifier, the zero owner, no properties,
    /// and the zero time.
    fn default() -> (r: Self)
        ensures
            r@ == (ProductBuilderView {
                id: Seq::<u8>::empty(),
                owner: 0u64,
                props: None,
                registered: 0u64,
            }),
    {
        let r = ProductBuilder { id: Vec::new(), owner: 0, props: None, registered: 0 };
        proof {
            assert(r@ =~= (ProductBuilderView {
                id: Seq::<u8>::empty(),
                owner: 0u64,
                props: None,
                registered: 0u64,
            }));
        }
        r
    }
}

impl ProductBuilder {
    /// Sets the product identifier.
    pub fn identified_by(self, id: Vec<u8>) -> (r: Self)
        ensures
            r@ == (ProductBuilderView { id: id@, ..self@ }),
    {
        let mut s = self;
        s.id = id;
        s
    }

    /// Sets the owning account.
    pub fn owned_by(self, owner: u64) -> (r: Self)
        ensures
            r@ == (ProductBuilderView { owner, ..self@ }),
    {
        let mut s = self;
        s.owner = owner;
        s
    }

    /// Sets the property list.
    pub fn with_props(self, props: Option<Vec<ProductProperty>>) -> (r: Self)
        ensures
            r@ == (ProductBuilderView { props: props_view(props), ..self@ }),
    {
        let mut s = self;
        s.props = props;
        s
    }

    /// Sets the registration time.
    pub fn registered_on(self, registered: u64) -> (r: Self)
        ensures
            r@ == (ProductBuilderView { registered, ..self@ }),
    {
        let mut s = self;
        s.registered = registered;
        s
    }

    /// Assembles the record.
    pub fn build(self) -> (r: Product)
        ensures
            r@ == new_product_record(self@.id, self@.owner, self@.props, self@.registered),
    {
        let r = Product {
            id: self.id,
            owner: self.owner,
            props: self.props,
            registered: self.registered,
        };
        proof {
            assert(r@ =~= new_product_record(self@.id, self@.owner, self@.props, self@.registered));
        }
        r
    }
}

} // verus!
