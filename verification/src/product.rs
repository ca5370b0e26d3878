//! The records of the catalog.

use vstd::prelude::*;

verus! {

/// One tariff product: its catalog code, the name it is shown under, and the
/// company that owns it.
#[derive(Debug, PartialEq)]
pub struct Product {
    pub code: String,
    pub display_name: String,
    pub brand: String,
}

/// What a [`Product`] holds, as plain text.
pub struct ProductView {
    pub code: Seq<char>,
    pub display_name: Seq<char>,
    pub brand: Seq<char>,
}

impl View for Product {
    type V = ProductView;

    open spec fn view(&self) -> ProductView {
        ProductView { code: self.code@, display_name: self.display_name@, brand: self.brand@ }
    }
}

impl Clone for Product {
    fn clone(&self) -> (copy: Self)
        ensures
            copy == *self,
    {
        Product {
            code: self.code.clone(),
            display_name: self.display_name.clone(),
            brand: self.brand.clone(),
        }
    }
}

/// The catalog: the products in the order in which the API lists them.
#[derive(Debug, PartialEq)]
pub struct Products {
    pub results: Vec<Product>,
}

impl View for Products {
    type V = Seq<ProductView>;

    open spec fn view(&self) -> Seq<ProductView> {
        self.results@.map_values(|product: Product| product@)
    }
}

} // verus!
