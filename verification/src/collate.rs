//! Locale-aware ordering of titles, delegated to the ICU collator.

use vstd::prelude::*;

verus! {

/// The order (-1, 0 or 1) that the root-locale ICU collator gives two texts, with or without
/// numeric ordering of digit sequences.
pub uninterp spec fn collation_order(numeric: bool, a: Seq<char>, b: Seq<char>) -> int;

/// Compares two texts with the root-locale ICU collator.
///
/// Trusted: builds an `icu_collator::Collator` from compiled data (`Collator::try_new`, which for
/// the default locale always finds its baked data) with `CollatorPreferences::numeric_ordering`
/// set from `numeric`, calls `CollatorBorrowed::compare` and maps `Less`/`Equal`/`Greater` to
/// -1/0/1. The contract names the result and states that swapping the arguments reverses it:
/// `compare_impl` walks the collation elements of both texts level by level and returns the first
/// difference found, treating the two sides alike. Nothing else about the order is stated.
#[verifier::external_body]
pub(crate) fn collator_compare(a: &str, b: &str, numeric: bool) -> (r: i8)
    ensures
        r == collation_order(numeric, a@, b@),
        collation_order(numeric, b@, a@) == -r,
        -1 <= r <= 1,
{
    let mut prefs = icu_collator::CollatorPreferences::default();
    prefs.numeric_ordering = Some(if numeric {
        icu_collator::preferences::CollationNumericOrdering::True
    } else {
        icu_collator::preferences::CollationNumericOrdering::False
    });
    let options = icu_collator::options::CollatorOptions::default();
    let collator = icu_collator::Collator::try_new(prefs, options).expect("baked collation data");
    match collator.compare(a, b) {
        core::cmp::Ordering::Less => -1,
        core::cmp::Ordering::Equal => 0,
        core::cmp::Ordering::Greater => 1,
    }
}

} // verus!
