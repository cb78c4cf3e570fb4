use vstd::prelude::*;

use crate::countries::CountryOverview;
use crate::filters::{FilterQuery, Region, StatusFlags};
use crate::text::{contains_text, is_substring, lower_of, lowercase};

verus! {

/// The lower-cased `needle` occurs in the lower-cased common name, region name
/// or sub-region of `c`.
pub open spec fn text_matches(c: CountryOverview, needle: Seq<char>) -> bool {
    let n = lower_of(needle);
    is_substring(n, lower_of(c.name.common@)) || is_substring(n, lower_of(c.region.name_spec()))
        || is_substring(n, lower_of(c.sub_region@))
}

/// `regions` is empty or holds the region of `c`.
pub open spec fn region_matches(c: CountryOverview, regions: Seq<Region>) -> bool {
    regions.len() == 0 || regions.contains(c.region)
}

/// `c` has every status that `flags` requires.
pub open spec fn status_matches(c: CountryOverview, flags: StatusFlags) -> bool {
    (!flags.independent || c.independent) && (!flags.un_member || c.un_member)
}

/// `c` satisfies the query `q`.
pub open spec fn matches_query(c: CountryOverview, q: FilterQuery) -> bool {
    match q {
        FilterQuery::Text(needle) => text_matches(c, needle@),
        FilterQuery::Region(regions) => region_matches(c, regions@),
        FilterQuery::Status(flags) => status_matches(c, flags),
    }
}

/// `c` satisfies every query of `qs`.
pub open spec fn matches_all(c: CountryOverview, qs: Seq<FilterQuery>) -> bool {
    forall|j: int| 0 <= j < qs.len() ==> matches_query(c, #[trigger] qs[j])
}

/// The records of `cs` that satisfy every query of `qs`, in their order in `cs`.
pub open spec fn filter_spec(cs: Seq<CountryOverview>, qs: Seq<FilterQuery>) -> Seq<CountryOverview>
    decreases cs.len(),
{
    if cs.len() == 0 {
        cs
    } else {
        let rest = filter_spec(cs.drop_last(), qs);
        if matches_all(cs.last(), qs) {
            rest.push(cs.last())
        } else {
            rest
        }
    }
}

/// Whether the region `region` is one of `regions`.
pub fn region_listed(regions: &Vec<Region>, region: Region) -> (r: bool)
    ensures
        r == regions@.contains(region),
{
    let mut i: usize = 0;
    while i < regions.len()
        invariant
            i <= regions@.len(),
            forall|k: int| 0 <= k < i ==> regions@[k] != region,
        decreases regions@.len() - i,
    {
        if regions[i] == region {
            return true;
        }
        i = i + 1;
    }
    false
}

/// Whether `c` satisfies the query `q`.
pub fn query_matches(c: &CountryOverview, q: &FilterQuery) -> (r: bool)
    ensures
        r == matches_query(*c, *q),
{
    match q {
        FilterQuery::Text(needle) => {
            let n = lowercase(needle.as_str());
            contains_text(lowercase(c.name.common.as_str()).as_str(), n.as_str())
                || contains_text(lowercase(c.region.name()).as_str(), n.as_str())
                || contains_text(lowercase(c.sub_region.as_str()).as_str(), n.as_str())
        },
        FilterQuery::Region(regions) => regions.len() == 0 || region_listed(regions, c.region),
        FilterQuery::Status(flags) => (!flags.independent || c.independent) && (!flags.un_member
            || c.un_member),
    }
}

/// Whether `c` satisfies every query of `queries`.
pub fn all_queries_match(c: &CountryOverview, queries: &[FilterQuery]) -> (r: bool)
    ensures
        r == matches_all(*c, queries@),
{
    let mut j: usize = 0;
    while j < queries.len()
        invariant
            j <= queries@.len(),
            forall|k: int| 0 <= k < j ==> matches_query(*c, #[trigger] queries@[k]),
        decreases queries@.len() - j,
    {
        if !query_matches(c, &queries[j]) {
            return false;
        }
        j = j + 1;
    }
    true
}

/// The records that satisfy every query, in their input order.
pub fn filter_data(countries: &[CountryOverview], queries: &[FilterQuery]) -> (r: Vec<
    CountryOverview,
>)
    ensures
        r@ == filter_spec(countries@, queries@),
{
    let mut out: Vec<CountryOverview> = Vec::new();
    let mut i: usize = 0;
    proof {
        assert(countries@.subrange(0, 0) =~= Seq::<CountryOverview>::empty());
    }
    while i < countries.len()
        invariant
            i <= countries@.len(),
            out@ == filter_spec(countries@.subrange(0, i as int), queries@),
        decreases countries@.len() - i,
    {
        proof {
            assert(countries@.subrange(0, i + 1).drop_last() =~= countries@.subrange(0, i as int));
        }
        if all_queries_match(&countries[i], queries) {
            out.push(countries[i].clone());
        }
        i = i + 1;
    }
    proof {
        assert(countries@.subrange(0, i as int) =~= countries@);
    }
    out
}

/// Filtering twice with the same queries gives what filtering once gives.
pub proof fn lemma_filter_idempotent(cs: Seq<CountryOverview>, qs: Seq<FilterQuery>)
    ensures
        filter_spec(filter_spec(cs, qs), qs) == filter_spec(cs, qs),
    decreases cs.len(),
{
    if cs.len() > 0 {
        let rest = filter_spec(cs.drop_last(), qs);
        lemma_filter_idempotent(cs.drop_last(), qs);
        if matches_all(cs.last(), qs) {
            let f = rest.push(cs.last());
            assert(f.drop_last() =~= rest);
        }
    }
}

/// Adding one more query never lets more records through.
pub proof fn lemma_filter_narrowing(cs: Seq<CountryOverview>, qs: Seq<FilterQuery>, q: FilterQuery)
    ensures
        filter_spec(cs, qs.push(q)).len() <= filter_spec(cs, qs).len(),
    decreases cs.len(),
{
    if cs.len() > 0 {
        lemma_filter_narrowing(cs.drop_last(), qs, q);
        let x = cs.last();
        if matches_all(x, qs.push(q)) {
            assert forall|j: int| 0 <= j < qs.len() implies matches_query(x, #[trigger] qs[j]) by {
                assert(qs.push(q)[j] == qs[j]);
            }
        }
    }
}

} // verus!
