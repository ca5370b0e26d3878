//! From JSON to the catalog.
//!
//! A catalog is a JSON object whose member `results` is an array of products.
//! A product is a JSON object that holds `code`, `display_name` and `brand`
//! as strings. Whatever else an object holds is passed over.

use crate::error::DecodeError;
use crate::json::{json_of_text, last_with_key, Json, JsonView};
use crate::product::{Product, ProductView, Products};
use vstd::prelude::*;

verus! {

/// The key under which a catalog holds its products.
pub const RESULTS: &'static str = "results";

/// The key of a product's code.
pub const CODE: &'static str = "code";

/// The key of a product's display name.
pub const DISPLAY_NAME: &'static str = "display_name";

/// The key of a product's brand.
pub const BRAND: &'static str = "brand";

/// The product that `entry` denotes, if it denotes one.
pub open spec fn product_of(entry: JsonView) -> Option<ProductView> {
    match (entry.text_member(CODE@), entry.text_member(DISPLAY_NAME@), entry.text_member(BRAND@)) {
        (Some(code), Some(display_name), Some(brand)) => Some(
            ProductView { code, display_name, brand },
        ),
        _ => None,
    }
}

/// `index` is the place of the first of `entries` that denotes no product.
pub open spec fn is_first_bad_entry(entries: Seq<JsonView>, index: int) -> bool {
    &&& 0 <= index < entries.len()
    &&& product_of(entries[index]) is None
    &&& forall|j: int| 0 <= j < index ==> (#[trigger] product_of(entries[j])) is Some
}

/// The place of the first of `entries` that denotes no product.
pub open spec fn first_bad_entry(entries: Seq<JsonView>) -> int {
    choose|index: int| is_first_bad_entry(entries, index)
}

/// The catalog that `json` denotes, or why it denotes none.
pub open spec fn catalog_of(json: JsonView) -> Result<Seq<ProductView>, DecodeError> {
    match json.member(RESULTS@) {
        Some(JsonView::Array(entries)) => {
            if forall|i: int| 0 <= i < entries.len() ==> (#[trigger] product_of(entries[i])) is Some {
                Ok(Seq::new(entries.len(), |i: int| product_of(entries[i]).unwrap()))
            } else {
                Err(DecodeError::BadEntry { index: first_bad_entry(entries) as usize })
            }
        },
        _ => Err(DecodeError::MissingResults),
    }
}

/// The product that `text` denotes, or why it denotes none.
pub open spec fn product_of_text(text: Seq<char>) -> Result<ProductView, DecodeError> {
    match json_of_text(text) {
        None => Err(DecodeError::Syntax),
        Some(json) => match product_of(json) {
            None => Err(DecodeError::NotAProduct),
            Some(product) => Ok(product),
        },
    }
}

/// The catalog that `text` denotes, or why it denotes none.
pub open spec fn catalog_of_text(text: Seq<char>) -> Result<Seq<ProductView>, DecodeError> {
    match json_of_text(text) {
        None => Err(DecodeError::Syntax),
        Some(json) => catalog_of(json),
    }
}

/// Whether `entry` is an object that holds the three fields of a product as
/// strings.
pub open spec fn is_product(entry: JsonView) -> bool {
    &&& entry.text_member(CODE@) is Some
    &&& entry.text_member(DISPLAY_NAME@) is Some
    &&& entry.text_member(BRAND@) is Some
}

/// Whether `json` is an object whose member `results` is an array of products.
pub open spec fn is_catalog(json: JsonView) -> bool {
    &&& json.member(RESULTS@) matches Some(JsonView::Array(entries))
    &&& forall|i: int| 0 <= i < entries.len() ==> is_product(#[trigger] entries[i])
}

/// Reads a product out of a JSON value.
pub fn product_from_json(entry: &Json) -> (decoded: Option<Product>)
    ensures
        match decoded {
            Some(product) => product_of(entry@) == Some(product@),
            None => product_of(entry@) is None,
        },
{
    let code = match entry.text_member(CODE) {
        Some(text) => text.clone(),
        None => { return None; },
    };
    let display_name = match entry.text_member(DISPLAY_NAME) {
        Some(text) => text.clone(),
        None => { return None; },
    };
    let brand = match entry.text_member(BRAND) {
        Some(text) => text.clone(),
        None => { return None; },
    };
    Some(Product { code, display_name, brand })
}

/// Reads a catalog out of a JSON value.
pub fn catalog_from_json(json: &Json) -> (decoded: Result<Products, DecodeError>)
    ensures
        match decoded {
            Ok(catalog) => catalog_of(json@) == Ok::<Seq<ProductView>, DecodeError>(catalog@),
            Err(error) => catalog_of(json@) == Err::<Seq<ProductView>, DecodeError>(error),
        },
{
    match json.member(RESULTS) {
        Some(Json::Array(entries)) => {
            let ghost denoted = json@.member(RESULTS@)->Some_0->Array_0;
            let mut results: Vec<Product> = Vec::new();
            let mut i: usize = 0;
            while i < entries.len()
                invariant
                    i <= entries.len(),
                    json@.member(RESULTS@) == Some(JsonView::Array(denoted)),
                    denoted.len() == entries.len(),
                    forall|k: int| 0 <= k < denoted.len() ==> denoted[k] == entries@[k]@,
                    results.len() == i,
                    forall|k: int|
                        0 <= k < i ==> (#[trigger] product_of(denoted[k])) == Some(results@[k]@),
                decreases entries.len() - i,
            {
                match product_from_json(&entries[i]) {
                    Some(product) => {
                        results.push(product);
                    },
                    None => {
                        proof {
                            lemma_first_bad_entry_is_unique(denoted, i as int);
                        }
                        return Err(DecodeError::BadEntry { index: i });
                    },
                }
                i += 1;
            }
            let catalog = Products { results };
            assert(catalog@ =~= Seq::new(
                denoted.len(),
                |i: int| product_of(denoted[i]).unwrap(),
            ));
            Ok(catalog)
        },
        _ => Err(DecodeError::MissingResults),
    }
}

/// Reads a product out of a JSON text.
pub fn decode_product(text: &str) -> (decoded: Result<Product, DecodeError>)
    ensures
        match decoded {
            Ok(product) => product_of_text(text@) == Ok::<ProductView, DecodeError>(product@),
            Err(error) => product_of_text(text@) == Err::<ProductView, DecodeError>(error),
        },
{
    let json = Json::parse(text)?;
    match product_from_json(&json) {
        Some(product) => Ok(product),
        None => Err(DecodeError::NotAProduct),
    }
}

/// Reads a catalog out of a JSON text.
pub fn decode_catalog(text: &str) -> (decoded: Result<Products, DecodeError>)
    ensures
        match decoded {
            Ok(catalog) => catalog_of_text(text@) == Ok::<Seq<ProductView>, DecodeError>(catalog@),
            Err(error) => catalog_of_text(text@) == Err::<Seq<ProductView>, DecodeError>(error),
        },
{
    let json = Json::parse(text)?;
    catalog_from_json(&json)
}

/// A text that denotes a catalog of `entries.len()` products decodes into as
/// many records, in the order of the entries, each with the three texts of its
/// entry.
pub proof fn lemma_decode_round_trip(
    text: Seq<char>,
    json: JsonView,
    entries: Seq<JsonView>,
    products: Seq<ProductView>,
)
    requires
        json_of_text(text) == Some(json),
        json.member(RESULTS@) == Some(JsonView::Array(entries)),
        products.len() == entries.len(),
        forall|i: int|
            #![trigger entries[i]]
            0 <= i < entries.len() ==> {
                &&& entries[i].text_member(CODE@) == Some(products[i].code)
                &&& entries[i].text_member(DISPLAY_NAME@) == Some(products[i].display_name)
                &&& entries[i].text_member(BRAND@) == Some(products[i].brand)
            },
    ensures
        catalog_of_text(text) == Ok::<Seq<ProductView>, DecodeError>(products),
{
    assert forall|i: int| 0 <= i < entries.len() implies (#[trigger] product_of(entries[i]))
        == Some(products[i]) by {
        let entry = entries[i];
        assert(entry.text_member(CODE@) == Some(products[i].code));
    }
    assert(Seq::new(entries.len(), |i: int| product_of(entries[i]).unwrap()) =~= products);
}

/// A member under another key does not change what is found under `wanted`,
/// wherever among the members it stands.
pub proof fn lemma_other_member_is_passed_over(
    members: Seq<(Seq<char>, JsonView)>,
    place: int,
    key: Seq<char>,
    value: JsonView,
    wanted: Seq<char>,
)
    requires
        0 <= place <= members.len(),
        key != wanted,
    ensures
        last_with_key(members.insert(place, (key, value)), wanted) == last_with_key(
            members,
            wanted,
        ),
    decreases members.len() - place,
{
    let longer = members.insert(place, (key, value));
    if place == members.len() {
        assert(longer.drop_last() == members);
    } else {
        assert(longer.last() == members.last());
        assert(longer.drop_last() == members.drop_last().insert(place, (key, value)));
        if members.last().0 != wanted {
            lemma_other_member_is_passed_over(members.drop_last(), place, key, value, wanted);
        }
    }
}

/// A field that is none of the three does not change the product that an
/// object denotes.
pub proof fn lemma_unknown_field_is_ignored(
    members: Seq<(Seq<char>, JsonView)>,
    place: int,
    key: Seq<char>,
    value: JsonView,
)
    requires
        0 <= place <= members.len(),
        key != CODE@,
        key != DISPLAY_NAME@,
        key != BRAND@,
    ensures
        product_of(JsonView::Object(members.insert(place, (key, value)))) == product_of(
            JsonView::Object(members),
        ),
{
    lemma_other_member_is_passed_over(members, place, key, value, CODE@);
    lemma_other_member_is_passed_over(members, place, key, value, DISPLAY_NAME@);
    lemma_other_member_is_passed_over(members, place, key, value, BRAND@);
}

/// Decoding succeeds on the texts that denote a catalog, and on no others.
pub proof fn lemma_decode_succeeds_on_catalogs_only(text: Seq<char>)
    ensures
        catalog_of_text(text) is Ok <==> json_of_text(text) is Some && is_catalog(
            json_of_text(text).unwrap(),
        ),
{
    if let Some(json) = json_of_text(text) {
        if let Some(JsonView::Array(entries)) = json.member(RESULTS@) {
            assert forall|i: int| 0 <= i < entries.len() implies (is_product(entries[i]) <==> (
            #[trigger] product_of(entries[i])) is Some) by {}
            if catalog_of_text(text) is Ok {
                assert forall|i: int| 0 <= i < entries.len() implies is_product(
                    #[trigger] entries[i],
                ) by {
                    assert(product_of(entries[i]) is Some);
                }
            }
        }
    }
}

/// Each kind of malformed input has its own error: a text that is not JSON, a
/// value without an array `results`, and an array with an entry that is no
/// product, of which the first is named.
pub proof fn lemma_decode_fails_on_malformed_input(text: Seq<char>)
    ensures
        match json_of_text(text) {
            None => catalog_of_text(text) == Err::<Seq<ProductView>, DecodeError>(
                DecodeError::Syntax,
            ),
            Some(json) => match json.member(RESULTS@) {
                Some(JsonView::Array(entries)) => is_catalog(json) || {
                    let first = first_bad_entry(entries);
                    &&& is_first_bad_entry(entries, first)
                    &&& !is_product(entries[first])
                    &&& catalog_of_text(text) == Err::<Seq<ProductView>, DecodeError>(
                        DecodeError::BadEntry { index: first as usize },
                    )
                },
                _ => catalog_of_text(text) == Err::<Seq<ProductView>, DecodeError>(
                    DecodeError::MissingResults,
                ),
            },
        },
{
    if let Some(json) = json_of_text(text) {
        if let Some(JsonView::Array(entries)) = json.member(RESULTS@) {
            if !is_catalog(json) {
                let bad = choose|i: int| 0 <= i < entries.len() && !is_product(#[trigger] entries[i]);
                assert(product_of(entries[bad]) is None);
                lemma_first_bad_entry_exists(entries, bad);
            }
        }
    }
}

/// There is one first bad entry at most.
pub proof fn lemma_first_bad_entry_is_unique(entries: Seq<JsonView>, index: int)
    requires
        is_first_bad_entry(entries, index),
    ensures
        first_bad_entry(entries) == index,
{
    let chosen = first_bad_entry(entries);
    assert(is_first_bad_entry(entries, chosen));
    if chosen < index {
        assert(product_of(entries[chosen]) is Some);
    }
    if index < chosen {
        assert(product_of(entries[index]) is Some);
    }
}

/// Where some entry denotes no product, there is a first one.
proof fn lemma_first_bad_entry_exists(entries: Seq<JsonView>, bad: int)
    requires
        0 <= bad < entries.len(),
        product_of(entries[bad]) is None,
    ensures
        is_first_bad_entry(entries, first_bad_entry(entries)),
    decreases bad,
{
    if forall|j: int| 0 <= j < bad ==> (#[trigger] product_of(entries[j])) is Some {
        assert(is_first_bad_entry(entries, bad));
    } else {
        let earlier = choose|j: int| 0 <= j < bad && !((#[trigger] product_of(entries[j])) is Some);
        lemma_first_bad_entry_exists(entries, earlier);
    }
}

} // verus!
