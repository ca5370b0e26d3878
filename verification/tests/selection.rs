use octopus_catalog::{
    decode_catalog, get_product_from_string, is_agile_octopus, select_from, select_product,
    DecodeError, Product, Products, SelectError,
};

/// A listing as the products API returns it, cut down to five products.
const SAMPLE_PRODUCTS: &str = r#"{
    "count": 5,
    "next": null,
    "previous": null,
    "results": [
        {
            "code": "AGILE-FLEX-22-11-25",
            "direction": "IMPORT",
            "full_name": "Agile Octopus November 2022 v1",
            "display_name": "Agile Octopus",
            "description": "With Agile Octopus, you get access to half-hourly energy prices, tied to wholesale prices and updated daily.  The unit rate is capped at 100p/kWh (including VAT).",
            "is_variable": true,
            "is_green": true,
            "is_tracker": false,
            "is_prepay": false,
            "is_business": false,
            "is_restricted": false,
            "term": null,
            "available_from": "2022-11-25T00:00:00Z",
            "available_to": null,
            "links": [
                {
                    "href": "https://api.octopus.energy/v1/products/AGILE-FLEX-22-11-25/",
                    "method": "GET",
                    "rel": "self"
                }
            ],
            "brand": "OCTOPUS_ENERGY"
        },
        {
            "code": "AGILE-OUTGOING-19-05-13",
            "direction": "EXPORT",
            "full_name": "Agile Outgoing Octopus May 2019",
            "display_name": "Agile Outgoing Octopus",
            "description": "Outgoing Octopus Agile rate pays you for all your exported energy based on the day-ahead wholesale rate.",
            "is_variable": true,
            "is_green": true,
            "is_tracker": false,
            "is_prepay": false,
            "is_business": false,
            "is_restricted": false,
            "term": 12,
            "available_from": "2018-01-01T00:00:00Z",
            "available_to": null,
            "links": [
                {
                    "href": "https://api.octopus.energy/v1/products/AGILE-OUTGOING-19-05-13/",
                    "method": "GET",
                    "rel": "self"
                }
            ],
            "brand": "OCTOPUS_ENERGY"
        },
        {
            "code": "GO-VAR-22-10-14",
            "direction": "IMPORT",
            "full_name": "Octopus Go October 2022 v1",
            "display_name": "Octopus Go",
            "description": "The smart EV tariff with super cheap electricity between 00:30 - 04:30 every night",
            "is_variable": true,
            "is_green": true,
            "is_tracker": false,
            "is_prepay": false,
            "is_business": false,
            "is_restricted": false,
            "term": null,
            "available_from": "2022-10-14T00:00:00+01:00",
            "available_to": null,
            "links": [],
            "brand": "OCTOPUS_ENERGY"
        },
        {
            "code": "VAR-22-11-01",
            "direction": "IMPORT",
            "full_name": "Flexible Octopus",
            "display_name": "Flexible Octopus",
            "description": "Flexible Octopus is our standard variable tariff.",
            "is_variable": true,
            "is_green": false,
            "is_tracker": false,
            "is_prepay": false,
            "is_business": false,
            "is_restricted": false,
            "term": null,
            "available_from": "2022-11-01T00:00:00Z",
            "available_to": null,
            "links": [],
            "brand": "OCTOPUS_ENERGY"
        },
        {
            "code": "AFFECT-AGILE-22-11-25",
            "direction": "IMPORT",
            "full_name": "Agile November 2022 v1",
            "display_name": "Agile Octopus",
            "description": "",
            "is_variable": true,
            "is_green": true,
            "is_tracker": false,
            "is_prepay": false,
            "is_business": false,
            "is_restricted": true,
            "term": null,
            "available_from": "2022-11-25T00:00:00Z",
            "available_to": null,
            "links": [],
            "brand": "AFFECT_ENERGY"
        }
    ]
}"#;

const TWO_PRODUCTS: &str = r#"{"results": [
     {"code":"AGILE-FLEX-22-11-25","display_name":"Agile Octopus","brand":"OCTOPUS_ENERGY"},
     {"code":"OTHER-1","display_name":"Other Product","brand":"OCTOPUS_ENERGY"}
   ]}"#;

fn product(code: &str, display_name: &str, brand: &str) -> Product {
    Product {
        code: code.to_string(),
        display_name: display_name.to_string(),
        brand: brand.to_string(),
    }
}

fn agile(code: &str) -> Product {
    product(code, "Agile Octopus", "OCTOPUS_ENERGY")
}

fn catalog(results: Vec<Product>) -> Products {
    Products { results }
}

#[test]
fn deserialize_products() {
    let data = SAMPLE_PRODUCTS.to_string();
    let p: Products = decode_catalog(data.as_str()).unwrap();
    let mut product_example = Products { results: Vec::new() };
    product_example.results.push(Product {
        code: "AGILE-FLEX-22-11-25".to_string(),
        display_name: "Agile Octopus".to_string(),
        brand: "OCTOPUS_ENERGY".to_string(),
    });
    assert!(p.results.iter().any(|x| x.clone() == product_example.results[0]));
    let our_product: Vec<Product> = p
        .results
        .iter()
        .filter(|x| x.brand == "OCTOPUS_ENERGY" && x.display_name == "Agile Octopus")
        .map(|x| x.to_owned())
        .collect();
    assert_eq!(our_product.len(), 1);
}

#[test]
fn test_get_product_from_string() {
    let data = SAMPLE_PRODUCTS.to_string();
    let product = get_product_from_string(data);
    assert_eq!(
        product,
        Ok(Product {
            code: "AGILE-FLEX-22-11-25".to_string(),
            display_name: "Agile Octopus".to_string(),
            brand: "OCTOPUS_ENERGY".to_string()
        })
    );
}

#[test]
fn sample_products_decode_in_order() {
    let decoded = decode_catalog(SAMPLE_PRODUCTS).unwrap();
    let codes: Vec<&str> = decoded.results.iter().map(|p| p.code.as_str()).collect();
    assert_eq!(
        codes,
        vec![
            "AGILE-FLEX-22-11-25",
            "AGILE-OUTGOING-19-05-13",
            "GO-VAR-22-10-14",
            "VAR-22-11-01",
            "AFFECT-AGILE-22-11-25",
        ]
    );
    assert_eq!(decoded.results[4], product("AFFECT-AGILE-22-11-25", "Agile Octopus", "AFFECT_ENERGY"));
}

#[test]
fn the_agile_product_is_selected_from_two() {
    assert_eq!(
        get_product_from_string(TWO_PRODUCTS.to_string()),
        Ok(product("AGILE-FLEX-22-11-25", "Agile Octopus", "OCTOPUS_ENERGY"))
    );
    assert_eq!(
        select_product(TWO_PRODUCTS, is_agile_octopus),
        Ok(product("AGILE-FLEX-22-11-25", "Agile Octopus", "OCTOPUS_ENERGY"))
    );
}

#[test]
fn one_match_is_selected_wherever_it_stands() {
    for place in 0..4 {
        let mut results = vec![
            product("A", "Octopus Go", "OCTOPUS_ENERGY"),
            product("B", "Agile Octopus", "AFFECT_ENERGY"),
            product("C", "Flexible Octopus", "OCTOPUS_ENERGY"),
        ];
        results.insert(place, agile("AGILE"));
        assert_eq!(select_from(&catalog(results), is_agile_octopus), Ok(agile("AGILE")));
    }
}

#[test]
fn the_only_product_is_selected() {
    assert_eq!(select_from(&catalog(vec![agile("ONLY")]), is_agile_octopus), Ok(agile("ONLY")));
}

#[test]
fn no_match_is_an_error_that_says_zero() {
    assert_eq!(
        get_product_from_string(r#"{"results": []}"#.to_string()),
        Err(SelectError::NotExactlyOne { found: 0 })
    );
    assert_eq!(
        get_product_from_string(
            r#"{"results": [
                {"code": "A", "display_name": "Octopus Go", "brand": "OCTOPUS_ENERGY"},
                {"code": "B", "display_name": "Agile Octopus", "brand": "AFFECT_ENERGY"}
            ]}"#
            .to_string()
        ),
        Err(SelectError::NotExactlyOne { found: 0 })
    );
    assert_eq!(
        select_from(&catalog(vec![]), is_agile_octopus),
        Err(SelectError::NotExactlyOne { found: 0 })
    );
}

#[test]
fn two_matches_are_an_error_that_says_two() {
    assert_eq!(
        get_product_from_string(
            r#"{"results": [
                {"code": "A", "display_name": "Agile Octopus", "brand": "OCTOPUS_ENERGY"},
                {"code": "B", "display_name": "Octopus Go", "brand": "OCTOPUS_ENERGY"},
                {"code": "C", "display_name": "Agile Octopus", "brand": "OCTOPUS_ENERGY"}
            ]}"#
            .to_string()
        ),
        Err(SelectError::NotExactlyOne { found: 2 })
    );
}

#[test]
fn more_matches_are_counted() {
    let results = vec![
        agile("A"),
        agile("B"),
        product("C", "Octopus Go", "OCTOPUS_ENERGY"),
        agile("D"),
        agile("A"),
    ];
    assert_eq!(
        select_from(&catalog(results), is_agile_octopus),
        Err(SelectError::NotExactlyOne { found: 4 })
    );
}

#[test]
fn selection_takes_any_predicate() {
    let listing = catalog(vec![
        product("A", "Octopus Go", "OCTOPUS_ENERGY"),
        product("B", "Agile Octopus", "AFFECT_ENERGY"),
        product("C", "Flexible Octopus", "OCTOPUS_ENERGY"),
    ]);
    assert_eq!(
        select_from(&listing, |p: &Product| p.brand == "AFFECT_ENERGY"),
        Ok(product("B", "Agile Octopus", "AFFECT_ENERGY"))
    );
    assert_eq!(
        select_from(&listing, |p: &Product| p.brand == "OCTOPUS_ENERGY"),
        Err(SelectError::NotExactlyOne { found: 2 })
    );
    assert_eq!(
        select_from(&listing, |_: &Product| true),
        Err(SelectError::NotExactlyOne { found: 3 })
    );
    assert_eq!(
        select_from(&listing, |_: &Product| false),
        Err(SelectError::NotExactlyOne { found: 0 })
    );
    assert_eq!(
        select_product(SAMPLE_PRODUCTS, |p: &Product| p.code.starts_with("GO-")),
        Ok(product("GO-VAR-22-10-14", "Octopus Go", "OCTOPUS_ENERGY"))
    );
}

#[test]
fn selection_asks_about_every_product_in_order() {
    let listing = catalog(vec![agile("A"), agile("B"), agile("C")]);
    let asked = std::cell::RefCell::new(Vec::new());
    let result = select_from(&listing, |p: &Product| {
        asked.borrow_mut().push(p.code.clone());
        p.code == "B"
    });
    assert_eq!(result, Ok(agile("B")));
    assert_eq!(asked.into_inner(), vec!["A".to_string(), "B".to_string(), "C".to_string()]);
}

#[test]
fn selection_of_products_that_are_alike_counts_each() {
    let listing = catalog(vec![agile("SAME"), agile("SAME")]);
    assert_eq!(
        select_from(&listing, is_agile_octopus),
        Err(SelectError::NotExactlyOne { found: 2 })
    );
}

#[test]
fn selection_leaves_the_catalog_as_it_was() {
    let listing = catalog(vec![agile("A"), product("B", "Octopus Go", "OCTOPUS_ENERGY")]);
    let picked = select_from(&listing, is_agile_octopus).unwrap();
    assert_eq!(picked, listing.results[0]);
    assert_eq!(listing, catalog(vec![agile("A"), product("B", "Octopus Go", "OCTOPUS_ENERGY")]));
}

#[test]
fn a_text_that_does_not_decode_is_a_decode_error() {
    assert_eq!(
        get_product_from_string("Hello, world!".to_string()),
        Err(SelectError::Decode(DecodeError::Syntax))
    );
    assert_eq!(
        get_product_from_string(r#"{"detail": "Not found."}"#.to_string()),
        Err(SelectError::Decode(DecodeError::MissingResults))
    );
    assert_eq!(
        get_product_from_string(
            r#"{"results": [
                {"code": "A", "display_name": "Agile Octopus", "brand": "OCTOPUS_ENERGY"},
                {"code": "B", "display_name": "Agile Octopus"}
            ]}"#
            .to_string()
        ),
        Err(SelectError::Decode(DecodeError::BadEntry { index: 1 }))
    );
    assert_eq!(
        select_product("[", |_: &Product| true),
        Err(SelectError::Decode(DecodeError::Syntax))
    );
}

#[test]
fn a_bad_entry_fails_even_where_one_product_matches() {
    assert_eq!(
        get_product_from_string(
            r#"{"results": [
                {"code": "A", "display_name": "Agile Octopus", "brand": "OCTOPUS_ENERGY"},
                {"code": "B"}
            ]}"#
            .to_string()
        ),
        Err(SelectError::Decode(DecodeError::BadEntry { index: 1 }))
    );
}

#[test]
fn is_agile_octopus_wants_brand_and_display_name() {
    assert!(is_agile_octopus(&product("X", "Agile Octopus", "OCTOPUS_ENERGY")));
    assert!(is_agile_octopus(&product("", "Agile Octopus", "OCTOPUS_ENERGY")));
    assert!(!is_agile_octopus(&product("X", "Agile Octopus", "AFFECT_ENERGY")));
    assert!(!is_agile_octopus(&product("X", "Agile Outgoing Octopus", "OCTOPUS_ENERGY")));
    assert!(!is_agile_octopus(&product("X", "agile octopus", "OCTOPUS_ENERGY")));
    assert!(!is_agile_octopus(&product("X", "Agile Octopus", "octopus_energy")));
    assert!(!is_agile_octopus(&product("X", "Agile Octopus ", "OCTOPUS_ENERGY")));
    assert!(!is_agile_octopus(&product("X", "OCTOPUS_ENERGY", "Agile Octopus")));
    assert!(!is_agile_octopus(&product("Agile Octopus", "", "")));
}
