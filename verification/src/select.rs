//! Selecting the one product of which a predicate holds.
//!
//! The predicate is asked about every product of the catalog, in catalog
//! order. The products of which it holds must be one exactly: that one is the
//! result. Any other number is an error, which carries the number.
//!
//! A predicate is any function value. What it answers is known to the
//! verifier through its own contract only, so the contracts here speak of
//! `flags`: one answer for each product, each an answer that the predicate
//! can give. Where the predicate computes a function of the product's
//! contents, [`lemma_select_by_function`] turns this into a statement about
//! that function, and [`get_product_from_string`] states it so from the
//! start.

use crate::decode::{catalog_of_text, decode_catalog};
use crate::error::SelectError;
use crate::product::{Product, ProductView, Products};
use crate::text::same_text;
use vstd::prelude::*;

verus! {

/// The brand of the product that [`get_product_from_string`] looks for.
pub const AGILE_BRAND: &'static str = "OCTOPUS_ENERGY";

/// The display name of the product that [`get_product_from_string`] looks for.
pub const AGILE_DISPLAY_NAME: &'static str = "Agile Octopus";

/// Those of `items` whose flag is set, in the order of `items`.
pub open spec fn kept<T>(items: Seq<T>, flags: Seq<bool>) -> Seq<T>
    recommends
        flags.len() == items.len(),
    decreases items.len(),
{
    if items.len() == 0 || flags.len() == 0 {
        Seq::empty()
    } else if flags.last() {
        kept(items.drop_last(), flags.drop_last()).push(items.last())
    } else {
        kept(items.drop_last(), flags.drop_last())
    }
}

/// The one of `matches`, or the error that says how many there are.
pub open spec fn exactly_one<T>(matches: Seq<T>) -> Result<T, SelectError> {
    if matches.len() == 1 {
        Ok(matches[0])
    } else {
        Err(SelectError::NotExactlyOne { found: matches.len() as usize })
    }
}

/// The places at which `flags` is set.
pub open spec fn flagged_places(flags: Seq<bool>) -> Set<int> {
    Set::new(|i: int| 0 <= i < flags.len() && flags[i])
}

/// `flags` holds, for each of `catalog`, an answer that `predicate` can give
/// when it is asked about that product.
pub open spec fn verdicts<F: Fn(&Product) -> bool>(
    predicate: F,
    catalog: Seq<Product>,
    flags: Seq<bool>,
) -> bool {
    &&& flags.len() == catalog.len()
    &&& forall|i: int|
        0 <= i < catalog.len() ==> call_ensures(predicate, (&catalog[i],), #[trigger] flags[i])
}

/// What selection by `holds` returns: the one of `items` of which `holds` is
/// true, or the error that says of how many it is true.
pub open spec fn select_by<T>(items: Seq<T>, holds: spec_fn(T) -> bool) -> Result<T, SelectError> {
    exactly_one(items.filter(holds))
}

/// The places of `items` at which `holds` is true.
pub open spec fn matching_places<T>(items: Seq<T>, holds: spec_fn(T) -> bool) -> Set<int> {
    Set::new(|i: int| 0 <= i < items.len() && holds(items[i]))
}

/// Whether `product` is the Agile Octopus tariff of Octopus Energy.
pub open spec fn agile_octopus(product: ProductView) -> bool {
    product.brand == AGILE_BRAND@ && product.display_name == AGILE_DISPLAY_NAME@
}

/// What a selection returns, with the product as plain text.
pub open spec fn selected_view(selected: Result<Product, SelectError>) -> Result<
    ProductView,
    SelectError,
> {
    match selected {
        Ok(product) => Ok(product@),
        Err(error) => Err(error),
    }
}

/// Whether `product` is the Agile Octopus tariff of Octopus Energy.
pub fn is_agile_octopus(product: &Product) -> (holds: bool)
    ensures
        holds == agile_octopus(product@),
{
    same_text(product.brand.as_str(), AGILE_BRAND) && same_text(
        product.display_name.as_str(),
        AGILE_DISPLAY_NAME,
    )
}

/// Asks `predicate` about every product of `catalog` and returns the one of
/// which it holds.
///
/// The products that count are those about which `predicate` has answered
/// yes. Where that is one product, a copy of it is returned. Where it is none
/// or several, the error says how many.
pub fn select_from<F: Fn(&Product) -> bool>(catalog: &Products, predicate: F) -> (selected: Result<
    Product,
    SelectError,
>)
    requires
        forall|i: int|
            0 <= i < catalog.results.len() ==> call_requires(predicate, (&catalog.results[i],)),
    ensures
        exists|flags: Seq<bool>|
            {
                &&& #[trigger] verdicts(predicate, catalog.results@, flags)
                &&& selected == exactly_one(kept(catalog.results@, flags))
            },
{
    let ghost mut flags: Seq<bool> = Seq::empty();
    let mut found: usize = 0;
    let mut first: usize = 0;
    let mut i: usize = 0;
    while i < catalog.results.len()
        invariant
            i <= catalog.results.len(),
            forall|k: int|
                0 <= k < catalog.results.len() ==> call_requires(
                    predicate,
                    (&catalog.results[k],),
                ),
            verdicts(predicate, catalog.results@.take(i as int), flags),
            found == kept(catalog.results@.take(i as int), flags).len(),
            found <= i,
            found > 0 ==> first < i && kept(catalog.results@.take(i as int), flags)[0]
                == catalog.results[first as int],
        decreases catalog.results.len() - i,
    {
        let holds = predicate(&catalog.results[i]);
        proof {
            let seen = catalog.results@.take(i as int);
            lemma_kept_step(seen, flags, catalog.results[i as int], holds);
            assert(catalog.results@.take(i + 1) == seen.push(catalog.results[i as int]));
            flags = flags.push(holds);
        }
        if holds {
            if found == 0 {
                first = i;
            }
            found += 1;
        }
        i += 1;
    }
    assert(catalog.results@.take(i as int) == catalog.results@);
    if found == 1 {
        Ok(catalog.results[first].clone())
    } else {
        Err(SelectError::NotExactlyOne { found })
    }
}

/// Decodes the catalog that `raw` denotes and selects from it the one product
/// of which `predicate` holds.
///
/// A text that denotes no catalog gives the decoder's error, and `predicate`
/// is not asked. Otherwise the result is that of [`select_from`] on the
/// decoded catalog.
pub fn select_product<F: Fn(&Product) -> bool>(raw: &str, predicate: F) -> (selected: Result<
    Product,
    SelectError,
>)
    requires
        forall|product: Product| call_requires(predicate, (&product,)),
    ensures
        match catalog_of_text(raw@) {
            Err(error) => selected == Err::<Product, SelectError>(SelectError::Decode(error)),
            Ok(denoted) => exists|catalog: Products, flags: Seq<bool>|
                {
                    &&& catalog@ == denoted
                    &&& #[trigger] verdicts(predicate, catalog.results@, flags)
                    &&& selected == exactly_one(kept(catalog.results@, flags))
                },
        },
{
    match decode_catalog(raw) {
        Err(error) => Err(SelectError::Decode(error)),
        Ok(catalog) => select_from(&catalog, predicate),
    }
}

/// Decodes the catalog that `all_products` denotes and selects from it the
/// Agile Octopus tariff of Octopus Energy: the one product whose brand is
/// [`AGILE_BRAND`] and whose display name is [`AGILE_DISPLAY_NAME`].
pub fn get_product_from_string(all_products: String) -> (selected: Result<Product, SelectError>)
    ensures
        match catalog_of_text(all_products@) {
            Err(error) => selected == Err::<Product, SelectError>(SelectError::Decode(error)),
            Ok(catalog) => selected_view(selected) == select_by(
                catalog,
                |product: ProductView| agile_octopus(product),
            ),
        },
{
    match decode_catalog(all_products.as_str()) {
        Err(error) => Err(SelectError::Decode(error)),
        Ok(catalog) => {
            let selected = select_from(&catalog, is_agile_octopus);
            proof {
                let flags = choose|flags: Seq<bool>|
                    {
                        &&& #[trigger] verdicts(is_agile_octopus, catalog.results@, flags)
                        &&& selected == exactly_one(kept(catalog.results@, flags))
                    };
                lemma_select_by_function(
                    is_agile_octopus,
                    |product: ProductView| agile_octopus(product),
                    catalog,
                    flags,
                );
            }
            selected
        },
    }
}

/// Keeping one more item, or passing it over.
proof fn lemma_kept_step<T>(items: Seq<T>, flags: Seq<bool>, item: T, flag: bool)
    requires
        flags.len() == items.len(),
    ensures
        kept(items.push(item), flags.push(flag)) == if flag {
            kept(items, flags).push(item)
        } else {
            kept(items, flags)
        },
{
    assert(items.push(item).drop_last() == items);
    assert(flags.push(flag).drop_last() == flags);
}

/// As many items are kept as there are flags set.
pub proof fn lemma_kept_counts_flags<T>(items: Seq<T>, flags: Seq<bool>)
    requires
        flags.len() == items.len(),
    ensures
        flagged_places(flags).finite(),
        kept(items, flags).len() == flagged_places(flags).len(),
        kept(items, flags).len() <= items.len(),
    decreases items.len(),
{
    if items.len() == 0 {
        assert(flagged_places(flags) =~= Set::empty());
    } else {
        let rest = flags.drop_last();
        lemma_kept_counts_flags(items.drop_last(), rest);
        if flags.last() {
            assert(flagged_places(flags) =~= flagged_places(rest).insert(flags.len() - 1));
        } else {
            assert(flagged_places(flags) =~= flagged_places(rest));
        }
    }
}

/// Where the predicate has answered yes about one product only, that product
/// is selected.
pub proof fn lemma_one_flag_is_selected<T>(items: Seq<T>, flags: Seq<bool>, place: int)
    requires
        flags.len() == items.len(),
        0 <= place < items.len(),
        flags[place],
        forall|j: int| 0 <= j < flags.len() && j != place ==> !flags[j],
    ensures
        exactly_one(kept(items, flags)) == Ok::<T, SelectError>(items[place]),
    decreases items.len(),
{
    let fewer = items.drop_last();
    let rest = flags.drop_last();
    if place == items.len() - 1 {
        lemma_kept_counts_flags(fewer, rest);
        assert(flagged_places(rest) =~= Set::empty());
    } else {
        assert(!flags[flags.len() - 1]);
        lemma_one_flag_is_selected(fewer, rest, place);
    }
}

/// Where the predicate has answered yes about no product, the error says that
/// none was found.
pub proof fn lemma_no_flag_finds_none<T>(items: Seq<T>, flags: Seq<bool>)
    requires
        flags.len() == items.len(),
        forall|j: int| 0 <= j < flags.len() ==> !flags[j],
    ensures
        exactly_one(kept(items, flags)) == Err::<T, SelectError>(
            SelectError::NotExactlyOne { found: 0 },
        ),
{
    lemma_kept_counts_flags(items, flags);
    assert(flagged_places(flags) =~= Set::empty());
}

/// Where the predicate has answered yes about two products or more, the error
/// says about how many.
pub proof fn lemma_many_flags_are_counted<T>(
    items: Seq<T>,
    flags: Seq<bool>,
    first: int,
    second: int,
)
    requires
        flags.len() == items.len(),
        items.len() <= usize::MAX,
        0 <= first < second < items.len(),
        flags[first],
        flags[second],
    ensures
        flagged_places(flags).len() >= 2,
        exactly_one(kept(items, flags)) == Err::<T, SelectError>(
            SelectError::NotExactlyOne { found: flagged_places(flags).len() as usize },
        ),
{
    lemma_kept_counts_flags(items, flags);
    let two = set![first, second];
    assert(two.subset_of(flagged_places(flags)));
    vstd::set_lib::lemma_len_subset(two, flagged_places(flags));
    assert(two.len() == 2) by {
        assert(set![first].insert(second) =~= two);
    }
}

/// Where each flag says whether `holds` is true of its item, the items kept
/// are those that `filter` keeps.
pub proof fn lemma_kept_is_filter<T>(items: Seq<T>, flags: Seq<bool>, holds: spec_fn(T) -> bool)
    requires
        flags.len() == items.len(),
        forall|i: int| 0 <= i < items.len() ==> flags[i] == holds(#[trigger] items[i]),
    ensures
        kept(items, flags) == items.filter(holds),
    decreases items.len(),
{
    reveal(Seq::filter);
    if items.len() > 0 {
        lemma_kept_is_filter(items.drop_last(), flags.drop_last(), holds);
        assert(flags.last() == holds(items[items.len() - 1]));
    }
}

/// Keeping by flags and then mapping is mapping and then keeping by the same
/// flags.
proof fn lemma_kept_of_images<T, U>(
    items: Seq<T>,
    images: Seq<U>,
    flags: Seq<bool>,
    image: spec_fn(T) -> U,
)
    requires
        flags.len() == items.len(),
        images.len() == items.len(),
        forall|i: int| 0 <= i < items.len() ==> #[trigger] images[i] == image(items[i]),
    ensures
        kept(images, flags).len() == kept(items, flags).len(),
        forall|k: int|
            0 <= k < kept(items, flags).len() ==> #[trigger] kept(images, flags)[k] == image(
                kept(items, flags)[k],
            ),
    decreases items.len(),
{
    if items.len() > 0 {
        lemma_kept_of_images(items.drop_last(), images.drop_last(), flags.drop_last(), image);
        assert(images.last() == image(items.last()));
    }
}

/// Where `predicate` answers as the function `holds` of a product's contents
/// says, selection by it is selection by `holds`: the one product that
/// `filter` keeps, or the number of those it keeps.
pub proof fn lemma_select_by_function<F: Fn(&Product) -> bool>(
    predicate: F,
    holds: spec_fn(ProductView) -> bool,
    catalog: Products,
    flags: Seq<bool>,
)
    requires
        forall|product: Product, answer: bool|
            call_ensures(predicate, (&product,), answer) ==> answer == holds(product@),
        verdicts(predicate, catalog.results@, flags),
    ensures
        selected_view(exactly_one(kept(catalog.results@, flags))) == select_by(catalog@, holds),
{
    let products = catalog.results@;
    assert forall|i: int| 0 <= i < products.len() implies flags[i] == holds(
        #[trigger] catalog@[i],
    ) by {
        assert(call_ensures(predicate, (&products[i],), flags[i]));
    }
    lemma_kept_is_filter(catalog@, flags, holds);
    lemma_kept_of_images(products, catalog@, flags, |product: Product| product@);
}

/// `filter` keeps as many items as there are places at which the predicate
/// holds.
pub proof fn lemma_filter_counts_places<T>(items: Seq<T>, holds: spec_fn(T) -> bool)
    ensures
        matching_places(items, holds).finite(),
        items.filter(holds).len() == matching_places(items, holds).len(),
    decreases items.len(),
{
    reveal(Seq::filter);
    if items.len() == 0 {
        assert(matching_places(items, holds) =~= Set::empty());
    } else {
        let rest = items.drop_last();
        lemma_filter_counts_places(rest, holds);
        if holds(items.last()) {
            assert(matching_places(items, holds) =~= matching_places(rest, holds).insert(
                items.len() - 1,
            ));
        } else {
            assert(matching_places(items, holds) =~= matching_places(rest, holds));
        }
    }
}

/// Selection succeeds where the predicate holds at one place exactly. Where it
/// fails, the error carries the number of places at which the predicate holds.
pub proof fn lemma_selection_counts_places<T>(items: Seq<T>, holds: spec_fn(T) -> bool)
    requires
        items.len() <= usize::MAX,
    ensures
        matching_places(items, holds).finite(),
        select_by(items, holds) is Ok <==> matching_places(items, holds).len() == 1,
        select_by(items, holds) is Err ==> select_by(items, holds) == Err::<T, SelectError>(
            SelectError::NotExactlyOne { found: matching_places(items, holds).len() as usize },
        ),
        matching_places(items, holds).len() <= items.len(),
{
    lemma_filter_counts_places(items, holds);
    items.lemma_filter_len(holds);
}

/// Where the predicate holds of one product only, that product is selected.
pub proof fn lemma_one_match_is_selected<T>(items: Seq<T>, holds: spec_fn(T) -> bool, place: int)
    requires
        0 <= place < items.len(),
        holds(items[place]),
        forall|j: int| 0 <= j < items.len() && j != place ==> !holds(#[trigger] items[j]),
    ensures
        select_by(items, holds) == Ok::<T, SelectError>(items[place]),
    decreases items.len(),
{
    reveal(Seq::filter);
    let rest = items.drop_last();
    if place == items.len() - 1 {
        assert forall|j: int| 0 <= j < rest.len() implies !holds(#[trigger] rest[j]) by {
            assert(rest[j] == items[j]);
        }
        lemma_no_match_finds_none(rest, holds);
    } else {
        assert(rest[place] == items[place]);
        assert forall|j: int| 0 <= j < rest.len() && j != place implies !holds(
            #[trigger] rest[j],
        ) by {
            assert(rest[j] == items[j]);
        }
        lemma_one_match_is_selected(rest, holds, place);
        assert(!holds(items[items.len() - 1]));
    }
}

/// Where the predicate holds of no product, the error says that none was
/// found.
pub proof fn lemma_no_match_finds_none<T>(items: Seq<T>, holds: spec_fn(T) -> bool)
    requires
        forall|j: int| 0 <= j < items.len() ==> !holds(#[trigger] items[j]),
    ensures
        items.filter(holds).len() == 0,
        select_by(items, holds) == Err::<T, SelectError>(SelectError::NotExactlyOne { found: 0 }),
    decreases items.len(),
{
    reveal(Seq::filter);
    if items.len() > 0 {
        let rest = items.drop_last();
        assert forall|j: int| 0 <= j < rest.len() implies !holds(#[trigger] rest[j]) by {
            assert(rest[j] == items[j]);
        }
        lemma_no_match_finds_none(rest, holds);
        assert(!holds(items[items.len() - 1]));
    }
}

/// Where the predicate holds of two products or more, the error says of how
/// many it holds.
pub proof fn lemma_many_matches_are_counted<T>(
    items: Seq<T>,
    holds: spec_fn(T) -> bool,
    first: int,
    second: int,
)
    requires
        items.len() <= usize::MAX,
        0 <= first < second < items.len(),
        holds(items[first]),
        holds(items[second]),
    ensures
        matching_places(items, holds).len() >= 2,
        select_by(items, holds) == Err::<T, SelectError>(
            SelectError::NotExactlyOne { found: matching_places(items, holds).len() as usize },
        ),
{
    lemma_selection_counts_places(items, holds);
    let two = set![first, second];
    assert(two.subset_of(matching_places(items, holds)));
    vstd::set_lib::lemma_len_subset(two, matching_places(items, holds));
    assert(two.len() == 2) by {
        assert(set![first].insert(second) =~= two);
    }
}

} // verus!
