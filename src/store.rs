use vstd::prelude::*;

use crate::countries::{
    all_areas_valid, invalid_only, is_area_bits, validate_records, valid_only, validated_from, warning_for,
    CountryOverview, RawCountryOverview, ValidationError,
};
use crate::filtering::{filter_data, filter_spec, region_listed};
use crate::filters::{FilterQuery, Region, SortBy, Status, StatusFlags};
use crate::pagination::{
    clamp_page, clamped_page, page_count, page_end, page_start, paginate, total_pages, PAGE_SIZE,
};
use crate::sorting::{is_stable_sort, sort_data};

verus! {

/// `regions` without the region `r`, in order.
pub open spec fn without_region(regions: Seq<Region>, r: Region) -> Seq<Region>
    decreases regions.len(),
{
    if regions.len() == 0 {
        regions
    } else {
        let rest = without_region(regions.drop_last(), r);
        if regions.last() == r {
            rest
        } else {
            rest.push(regions.last())
        }
    }
}

/// `qs` is the query list for the search text `text`, the selected regions
/// `regions` and the required statuses `flags`, in that order.
pub open spec fn describes(
    qs: Seq<FilterQuery>,
    text: Seq<char>,
    regions: Seq<Region>,
    flags: StatusFlags,
) -> bool {
    &&& qs.len() == 3
    &&& (qs[0] matches FilterQuery::Text(s) && s@ == text)
    &&& (qs[1] matches FilterQuery::Region(v) && v@ == regions)
    &&& qs[2] == FilterQuery::Status(flags)
}

/// The derived state that a reader sees: the records on the current page,
/// how many records match, the number of pages and the current page.
#[derive(Debug)]
pub struct StoreView {
    pub visible: Vec<CountryOverview>,
    pub match_count: usize,
    pub total_pages: usize,
    pub current_page: usize,
}

/// Holds the received records and the query state, and keeps the sorted,
/// filtered and paged views of them consistent with every change.
pub struct CountryStore {
    raw: Vec<CountryOverview>,
    search_text: String,
    sort_key: SortBy,
    selected_regions: Vec<Region>,
    status: StatusFlags,
    queries: Vec<FilterQuery>,
    sorted: Vec<CountryOverview>,
    filtered: Vec<CountryOverview>,
    current_page: usize,
}

fn copy_records(s: &[CountryOverview]) -> (r: Vec<CountryOverview>)
    ensures
        r@ == s@,
{
    let mut out: Vec<CountryOverview> = Vec::new();
    let mut i: usize = 0;
    while i < s.len()
        invariant
            i <= s@.len(),
            out@ == s@.subrange(0, i as int),
        decreases s@.len() - i,
    {
        out.push(s[i].clone());
        proof {
            assert(s@.subrange(0, i + 1) =~= s@.subrange(0, i as int).push(s@[i as int]));
        }
        i = i + 1;
    }
    proof {
        assert(s@.subrange(0, i as int) =~= s@);
    }
    out
}

fn copy_regions(s: &Vec<Region>) -> (r: Vec<Region>)
    ensures
        r@ == s@,
{
    let mut out: Vec<Region> = Vec::new();
    let mut i: usize = 0;
    while i < s.len()
        invariant
            i <= s@.len(),
            out@ == s@.subrange(0, i as int),
        decreases s@.len() - i,
    {
        out.push(s[i]);
        proof {
            assert(s@.subrange(0, i + 1) =~= s@.subrange(0, i as int).push(s@[i as int]));
        }
        i = i + 1;
    }
    proof {
        assert(s@.subrange(0, i as int) =~= s@);
    }
    out
}

/// `regions` without the region `r`, in order.
pub fn remove_region(regions: &Vec<Region>, r: Region) -> (out: Vec<Region>)
    ensures
        out@ == without_region(regions@, r),
{
    let mut out: Vec<Region> = Vec::new();
    let mut i: usize = 0;
    while i < regions.len()
        invariant
            i <= regions@.len(),
            out@ == without_region(regions@.subrange(0, i as int), r),
        decreases regions@.len() - i,
    {
        proof {
            assert(regions@.subrange(0, i + 1).drop_last() =~= regions@.subrange(0, i as int));
        }
        if regions[i] != r {
            out.push(regions[i]);
        }
        i = i + 1;
    }
    proof {
        assert(regions@.subrange(0, i as int) =~= regions@);
    }
    out
}

impl CountryStore {
    /// The records as last received.
    pub closed spec fn raw_records(&self) -> Seq<CountryOverview> {
        self.raw@
    }

    /// The received records in the order of the sort key.
    pub closed spec fn sorted_records(&self) -> Seq<CountryOverview> {
        self.sorted@
    }

    /// The sorted records that satisfy every query.
    pub closed spec fn filtered_records(&self) -> Seq<CountryOverview> {
        self.filtered@
    }

    pub closed spec fn search_text(&self) -> Seq<char> {
        self.search_text@
    }

    pub closed spec fn sort_key(&self) -> SortBy {
        self.sort_key
    }

    pub closed spec fn selected_regions(&self) -> Seq<Region> {
        self.selected_regions@
    }

    pub closed spec fn status_flags(&self) -> StatusFlags {
        self.status
    }

    /// The query list that the filtered records satisfy.
    pub closed spec fn queries(&self) -> Seq<FilterQuery> {
        self.queries@
    }

    pub closed spec fn current_page(&self) -> nat {
        self.current_page as nat
    }

    /// The number of pages of the filtered records.
    pub open spec fn page_total(&self) -> nat {
        page_count(self.filtered_records().len(), PAGE_SIZE as nat)
    }

    /// Every derived value agrees with the received records and the query
    /// state, the current page is one of the pages (or 0 when there are
    /// none), and every received record carries a valid area.
    pub open spec fn consistent(&self) -> bool {
        &&& is_stable_sort(self.raw_records(), self.sorted_records(), self.sort_key())
        &&& describes(
            self.queries(),
            self.search_text(),
            self.selected_regions(),
            self.status_flags(),
        )
        &&& self.filtered_records() == filter_spec(self.sorted_records(), self.queries())
        &&& self.current_page() == clamped_page(self.current_page(), self.page_total())
        &&& self.selected_regions().no_duplicates()
        &&& all_areas_valid(self.raw_records())
    }

    /// The query fields and the received records are those of `other`.
    pub open spec fn same_query_state(&self, other: &CountryStore) -> bool {
        &&& self.raw_records() == other.raw_records()
        &&& self.search_text() == other.search_text()
        &&& self.sort_key() == other.sort_key()
        &&& self.selected_regions() == other.selected_regions()
        &&& self.status_flags() == other.status_flags()
    }

    fn build_queries(&mut self)
        ensures
            final(self).raw == old(self).raw,
            final(self).search_text == old(self).search_text,
            final(self).sort_key == old(self).sort_key,
            final(self).selected_regions == old(self).selected_regions,
            final(self).status == old(self).status,
            final(self).sorted == old(self).sorted,
            final(self).filtered == old(self).filtered,
            final(self).current_page == old(self).current_page,
            describes(
                final(self).queries@,
                final(self).search_text@,
                final(self).selected_regions@,
                final(self).status,
            ),
    {
        let q = vec![
            FilterQuery::Text(self.search_text.clone()),
            FilterQuery::Region(copy_regions(&self.selected_regions)),
            FilterQuery::Status(self.status),
        ];
        self.queries = q;
    }

    fn refilter(&mut self)
        ensures
            final(self).raw == old(self).raw,
            final(self).search_text == old(self).search_text,
            final(self).sort_key == old(self).sort_key,
            final(self).selected_regions == old(self).selected_regions,
            final(self).status == old(self).status,
            final(self).queries == old(self).queries,
            final(self).sorted == old(self).sorted,
            final(self).filtered@ == filter_spec(old(self).sorted@, old(self).queries@),
            final(self).current_page == 0,
    {
        self.filtered = filter_data(self.sorted.as_slice(), self.queries.as_slice());
        self.current_page = 0;
    }

    fn resort(&mut self)
        requires
            all_areas_valid(old(self).raw@),
        ensures
            final(self).raw == old(self).raw,
            final(self).search_text == old(self).search_text,
            final(self).sort_key == old(self).sort_key,
            final(self).selected_regions == old(self).selected_regions,
            final(self).status == old(self).status,
            final(self).queries == old(self).queries,
            final(self).filtered == old(self).filtered,
            final(self).current_page == old(self).current_page,
            is_stable_sort(old(self).raw@, final(self).sorted@, old(self).sort_key),
    {
        let records = copy_records(self.raw.as_slice());
        self.sorted = sort_data(records, &self.sort_key);
    }

    /// An empty store: no records, empty search text, ordering by population,
    /// no region selected, no status required, first page.
    pub fn new() -> (r: CountryStore)
        ensures
            r.consistent(),
            r.raw_records().len() == 0,
            r.filtered_records().len() == 0,
            r.search_text().len() == 0,
            r.sort_key() == SortBy::Population,
            r.selected_regions().len() == 0,
            r.status_flags() == StatusFlags::none_spec(),
            r.current_page() == 0,
    {
        let mut s = CountryStore {
            raw: Vec::new(),
            search_text: String::new(),
            sort_key: SortBy::Population,
            selected_regions: Vec::new(),
            status: StatusFlags::none(),
            queries: Vec::new(),
            sorted: Vec::new(),
            filtered: Vec::new(),
            current_page: 0,
        };
        s.build_queries();
        s.resort();
        s.refilter();
        proof {
            reveal_with_fuel(filter_spec, 1);
        }
        s
    }

    /// Replaces the received records; the derived state is recomputed and the
    /// first page is shown.
    pub fn ingest(&mut self, records: Vec<CountryOverview>)
        requires
            old(self).consistent(),
            all_areas_valid(records@),
        ensures
            final(self).consistent(),
            final(self).raw_records() == records@,
            final(self).search_text() == old(self).search_text(),
            final(self).sort_key() == old(self).sort_key(),
            final(self).selected_regions() == old(self).selected_regions(),
            final(self).status_flags() == old(self).status_flags(),
            final(self).current_page() == 0,
    {
        self.raw = records;
        self.resort();
        self.refilter();
    }

    /// Checks the received records and replaces the working collection with
    /// the valid ones, in order; one warning is returned for each record left
    /// out. The derived state is recomputed and the first page is shown.
    pub fn ingest_received(&mut self, received: Vec<RawCountryOverview>) -> (warnings: Vec<
        ValidationError,
    >)
        requires
            old(self).consistent(),
        ensures
            final(self).consistent(),
            final(self).raw_records().len() == valid_only(received@).len(),
            forall|k: int|
                0 <= k < final(self).raw_records().len() ==> validated_from(
                    #[trigger] valid_only(received@)[k],
                    final(self).raw_records()[k],
                ),
            warnings@.len() == invalid_only(received@).len(),
            forall|k: int|
                0 <= k < warnings@.len() ==> warnings@[k] == warning_for(
                    #[trigger] invalid_only(received@)[k],
                ),
            final(self).search_text() == old(self).search_text(),
            final(self).sort_key() == old(self).sort_key(),
            final(self).selected_regions() == old(self).selected_regions(),
            final(self).status_flags() == old(self).status_flags(),
            final(self).current_page() == 0,
    {
        let ghost input = received@;
        let (records, warnings) = validate_records(received);
        proof {
            assert forall|i: int| 0 <= i < records@.len() implies is_area_bits(
                #[trigger] records@[i].area_bits,
            ) by {
                assert(validated_from(valid_only(input)[i], records@[i]));
            }
        }
        self.ingest(records);
        warnings
    }

    /// Sets the search text; the records are filtered again and the first
    /// page is shown.
    pub fn set_search_text(&mut self, text: String)
        requires
            old(self).consistent(),
        ensures
            final(self).consistent(),
            final(self).search_text() == text@,
            final(self).raw_records() == old(self).raw_records(),
            final(self).sort_key() == old(self).sort_key(),
            final(self).selected_regions() == old(self).selected_regions(),
            final(self).status_flags() == old(self).status_flags(),
            final(self).sorted_records() == old(self).sorted_records(),
            final(self).current_page() == 0,
    {
        self.search_text = text;
        self.build_queries();
        self.refilter();
    }

    /// Sets the sort key; the records are sorted and filtered again and the
    /// first page is shown.
    pub fn set_sort_key(&mut self, key: SortBy)
        requires
            old(self).consistent(),
        ensures
            final(self).consistent(),
            final(self).sort_key() == key,
            final(self).raw_records() == old(self).raw_records(),
            final(self).search_text() == old(self).search_text(),
            final(self).selected_regions() == old(self).selected_regions(),
            final(self).status_flags() == old(self).status_flags(),
            final(self).current_page() == 0,
    {
        self.sort_key = key;
        self.resort();
        self.refilter();
    }

    /// Selects `region` if it was not selected and deselects it otherwise; the
    /// records are filtered again and the first page is shown.
    pub fn toggle_region(&mut self, region: Region)
        requires
            old(self).consistent(),
        ensures
            final(self).consistent(),
            final(self).selected_regions() == if old(self).selected_regions().contains(region) {
                without_region(old(self).selected_regions(), region)
            } else {
                old(self).selected_regions().push(region)
            },
            forall|g: Region|
                #[trigger] final(self).selected_regions().contains(g) <==> if g == region {
                    !old(self).selected_regions().contains(region)
                } else {
                    old(self).selected_regions().contains(g)
                },
            final(self).raw_records() == old(self).raw_records(),
            final(self).search_text() == old(self).search_text(),
            final(self).sort_key() == old(self).sort_key(),
            final(self).status_flags() == old(self).status_flags(),
            final(self).sorted_records() == old(self).sorted_records(),
            final(self).current_page() == 0,
    {
        let ghost before = self.selected_regions@;
        if region_listed(&self.selected_regions, region) {
            self.selected_regions = remove_region(&self.selected_regions, region);
            proof {
                lemma_without_region(before, region);
            }
        } else {
            self.selected_regions.push(region);
            proof {
                assert forall|g: Region| #[trigger] before.push(region).contains(g) <==> (before.contains(g) || g == region) by {
                    if before.push(region).contains(g) {
                        let i = choose|i: int| 0 <= i < before.len() + 1 && before.push(region)[i] == g;
                        if i < before.len() {
                            assert(before[i] == g);
                        }
                    }
                    if before.contains(g) {
                        let i = choose|i: int| 0 <= i < before.len() && before[i] == g;
                        assert(before.push(region)[i] == g);
                    }
                    if g == region {
                        assert(before.push(region)[before.len() as int] == g);
                    }
                }
                assert forall|i: int, j: int|
                    0 <= i < j < before.len() + 1 implies before.push(region)[i] != before.push(
                    region,
                )[j] by {
                    if j == before.len() {
                        assert(before.contains(before[i]));
                    }
                }
            }
        }
        self.build_queries();
        self.refilter();
    }

    /// Sets whether the status `flag` is required; the records are filtered
    /// again and the first page is shown.
    pub fn set_status_flag(&mut self, flag: Status, value: bool)
        requires
            old(self).consistent(),
        ensures
            final(self).consistent(),
            final(self).status_flags().get_spec(flag) == value,
            forall|t: Status|
                t != flag ==> final(self).status_flags().get_spec(t) == old(
                    self,
                ).status_flags().get_spec(t),
            final(self).raw_records() == old(self).raw_records(),
            final(self).search_text() == old(self).search_text(),
            final(self).sort_key() == old(self).sort_key(),
            final(self).selected_regions() == old(self).selected_regions(),
            final(self).sorted_records() == old(self).sorted_records(),
            final(self).current_page() == 0,
    {
        self.status = self.status.with(flag, value);
        self.build_queries();
        self.refilter();
    }

    /// Moves to page `page`, brought into the range of pages; the query state
    /// and the records stay as they are.
    pub fn go_to_page(&mut self, page: usize)
        requires
            old(self).consistent(),
        ensures
            final(self).consistent(),
            final(self).same_query_state(old(self)),
            final(self).sorted_records() == old(self).sorted_records(),
            final(self).filtered_records() == old(self).filtered_records(),
            final(self).current_page() == clamped_page(page as nat, old(self).page_total()),
    {
        let total = total_pages(self.filtered.len(), PAGE_SIZE);
        self.current_page = clamp_page(page, total);
    }

    /// The records on the current page, the number of matching records, the
    /// number of pages and the current page.
    pub fn view(&self) -> (r: StoreView)
        requires
            self.consistent(),
        ensures
            r.visible@ == self.filtered_records().subrange(
                page_start(self.current_page(), PAGE_SIZE as nat, self.filtered_records().len())
                    as int,
                page_end(self.current_page(), PAGE_SIZE as nat, self.filtered_records().len())
                    as int,
            ),
            r.match_count == self.filtered_records().len(),
            r.total_pages == self.page_total(),
            r.current_page == self.current_page(),
    {
        let total = total_pages(self.filtered.len(), PAGE_SIZE);
        let visible = paginate(self.filtered.as_slice(), PAGE_SIZE, self.current_page);
        StoreView {
            visible,
            match_count: self.filtered.len(),
            total_pages: total,
            current_page: self.current_page,
        }
    }
}

proof fn lemma_without_region(regions: Seq<Region>, r: Region)
    requires
        regions.no_duplicates(),
    ensures
        without_region(regions, r).no_duplicates(),
        forall|x: Region| #[trigger] without_region(regions, r).contains(x) <==> (regions.contains(x) && x != r),
    decreases regions.len(),
{
    if regions.len() > 0 {
        let init = regions.drop_last();
        assert(init.no_duplicates());
        lemma_without_region(init, r);
        let w = without_region(init, r);
        assert forall|x: Region| regions.contains(x) <==> (init.contains(x) || x == regions.last()) by {
            if regions.contains(x) {
                let i = choose|i: int| 0 <= i < regions.len() && regions[i] == x;
                if i < regions.len() - 1 {
                    assert(init[i] == x);
                }
            }
            if init.contains(x) {
                let i = choose|i: int| 0 <= i < init.len() && init[i] == x;
                assert(regions[i] == x);
            }
            if x == regions.last() {
                assert(regions[regions.len() - 1] == x);
            }
        }
        if regions.last() != r {
            assert(!init.contains(regions.last())) by {
                if init.contains(regions.last()) {
                    let i = choose|i: int| 0 <= i < init.len() && init[i] == regions.last();
                    assert(regions[i] == regions[regions.len() - 1]);
                }
            }
            assert forall|x: Region| w.push(regions.last()).contains(x) <==> (w.contains(x) || x == regions.last()) by {
                if w.push(regions.last()).contains(x) {
                    let i = choose|i: int| 0 <= i < w.len() + 1 && w.push(regions.last())[i] == x;
                    if i < w.len() {
                        assert(w[i] == x);
                    }
                }
                if w.contains(x) {
                    let i = choose|i: int| 0 <= i < w.len() && w[i] == x;
                    assert(w.push(regions.last())[i] == x);
                }
                if x == regions.last() {
                    assert(w.push(regions.last())[w.len() as int] == x);
                }
            }
            assert forall|i: int, j: int|
                0 <= i < j < w.len() + 1 implies w.push(regions.last())[i] != w.push(regions.last())[j] by {
                if j == w.len() {
                    assert(w.contains(w[i]));
                }
            }
        }
        assert forall|x: Region| #[trigger] without_region(regions, r).contains(x) <==> (regions.contains(x) && x != r) by {
            assert(w.contains(x) <==> (init.contains(x) && x != r));
        }
    }
}

} // verus!
