//! Derived-state pipeline for browsing a list of country records: sorting,
//! filtering, pagination and the store that keeps them consistent.

mod cca3;
mod countries;
mod details;
mod filtering;
mod filters;
mod pagination;
mod sorting;
mod store;
mod text;

pub use cca3::{CCA3, InvalidCCA3};
pub use countries::{
    validate_record, validate_records, Country, CountryOverview, NEGATIVE_ZERO_BITS, POSITIVE_INFINITY_BITS, Currency, Flags, Name, NeighbouringCountry,
    RawCountryOverview, ValidationError,
};
pub use details::{neighbour_codes, neighbour_query};
pub use filtering::{
    all_queries_match, filter_data, lemma_filter_idempotent,
    lemma_filter_narrowing, query_matches, region_listed,
};
pub use filters::{FilterQuery, Region, SortBy, Status, StatusFlags};
pub use pagination::{
    clamp_page, lemma_pages_partition, page_bounds, paginate, total_pages, PAGE_SIZE,
};
pub use sorting::{compare_text, key_less_or_equal, sort_data};
pub use store::{remove_region, CountryStore, StoreView};
pub use text::{contains_text, text_equals};
