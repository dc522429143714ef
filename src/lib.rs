//! Stack-usage reports built from per-function stack-size metadata.
//!
//! The library holds the report model ([`Report`], [`Function`]), the
//! builder that turns extracted symbol records into a report, the stable
//! orderings and filters over it, the name-keyed comparison between two
//! reports, and the shortening of demangled names for display.

pub mod location;
pub mod names;
pub mod order;
pub mod report;

pub use location::{decimal, digit_char, location_text, source_location};
pub use names::{compress_name, compressed, demangled, plain_identifier, regex_replaced};
pub use order::{
    before, distinct_addresses, key, lemma_address_order_restored,
    lemma_sort_keeps_distinct, lemma_sort_keeps_occurrences, lemma_stable_sort_unique, occurrences, ordered, precedes,
    stable_sort_of, with_key,
};
pub use report::{
    begins_with, built_all, built_from, distinct_symbols, check_usage, delta_against, first_named, has_name,
    has_stack_info, name_begins_with, prefix_view, shown, Delta, Function, Mode, Report,
    ReportError, Sort, Symbol,
};
