//! A typed reading of an energy-tariff product catalog: the catalog is
//! decoded from the JSON text that the products API returns, and the one
//! product of which a predicate holds is selected from it.
//!
//! - [`json`]: JSON values, and the reading of JSON text by `serde_json`.
//! - [`decode`]: from a JSON value to the catalog.
//! - [`select`]: from the catalog to the one product.
//! - [`product`], [`error`]: the records and the errors.
//! - [`text`]: comparing texts.
//!
//! Every function is verified with Verus, but for two in [`json`] that are
//! taken on trust: the call of `serde_json::from_str`, and the function that
//! tells the variants of a `serde_json::Value` apart.

pub mod decode;
pub mod error;
pub mod json;
pub mod product;
pub mod select;
pub mod text;

pub use crate::decode::{catalog_from_json, decode_catalog, decode_product, product_from_json};
pub use crate::error::{DecodeError, SelectError};
pub use crate::json::{Json, JsonView};
pub use crate::product::{Product, ProductView, Products};
pub use crate::select::{get_product_from_string, is_agile_octopus, select_from, select_product};
