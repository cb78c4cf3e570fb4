use world_ranks::{
    filter_data, sort_data, CountryOverview, CountryStore, FilterQuery, Flags, Name, Region,
    SortBy, Status, StatusFlags, CCA3,
};

fn country(
    name: &str,
    code: &str,
    region: Region,
    sub_region: &str,
    population: u32,
    area: f32,
    independent: bool,
    un_member: bool,
) -> CountryOverview {
    CountryOverview {
        name: Name { common: name.to_string(), official: format!("Republic of {}", name) },
        cca3: CCA3::from_str(code).unwrap(),
        independent,
        un_member,
        region,
        sub_region: sub_region.to_string(),
        area_bits: area.to_bits(),
        population,
        flags: Flags {
            png: format!("https://flags.example/{}.png", code),
            svg: format!("https://flags.example/{}.svg", code),
            alt: None,
        },
    }
}

fn sample() -> Vec<CountryOverview> {
    vec![
        country("France", "FRA", Region::Europe, "Western Europe", 67_000_000, 551_695.0, true, true),
        country("Japan", "JPN", Region::Asia, "Eastern Asia", 125_000_000, 377_930.0, true, true),
        country("Kosovo", "UNK", Region::Europe, "Southeast Europe", 1_800_000, 10_908.0, true, false),
        country("Greenland", "GRL", Region::Americas, "North America", 56_000, 2_166_086.0, false, false),
        country("Chile", "CHL", Region::Americas, "South America", 19_000_000, 756_102.0, true, true),
    ]
}

fn names(cs: &[CountryOverview]) -> Vec<String> {
    cs.iter().map(|c| c.name.common.clone()).collect()
}

fn all_queries(text: &str, regions: Vec<Region>, flags: StatusFlags) -> Vec<FilterQuery> {
    vec![
        FilterQuery::Text(text.to_string()),
        FilterQuery::Region(regions),
        FilterQuery::Status(flags),
    ]
}

#[test]
fn sort_by_population_ascending() {
    let sorted = sort_data(sample(), &SortBy::Population);
    assert_eq!(names(&sorted), vec!["Greenland", "Kosovo", "Chile", "France", "Japan"]);
}

#[test]
fn sort_by_area_ascending() {
    let sorted = sort_data(sample(), &SortBy::Area);
    assert_eq!(names(&sorted), vec!["Kosovo", "Japan", "France", "Chile", "Greenland"]);
}

#[test]
fn sort_by_name_is_case_sensitive_code_order() {
    let cs = vec![
        country("alpha", "AAA", Region::Asia, "x", 1, 1.0, true, true),
        country("Zulu", "ZZZ", Region::Asia, "x", 2, 2.0, true, true),
        country("Beta", "BBB", Region::Asia, "x", 3, 3.0, true, true),
        country("Bet", "BBC", Region::Asia, "x", 4, 4.0, true, true),
    ];
    let sorted = sort_data(cs, &SortBy::Name);
    assert_eq!(names(&sorted), vec!["Bet", "Beta", "Zulu", "alpha"]);
}

#[test]
fn sort_keeps_input_order_of_equal_keys() {
    let cs = vec![
        country("C", "CCC", Region::Asia, "x", 5, 2.0, true, true),
        country("A", "AAA", Region::Asia, "x", 5, 1.0, true, true),
        country("B", "BBB", Region::Asia, "x", 1, 2.0, true, true),
        country("A", "AAB", Region::Asia, "y", 3, 2.0, true, true),
    ];
    let by_pop = sort_data(cs.clone(), &SortBy::Population);
    assert_eq!(names(&by_pop), vec!["B", "A", "C", "A"]);
    let by_area = sort_data(cs.clone(), &SortBy::Area);
    let codes: Vec<String> = by_area.iter().map(|c| c.cca3.to_string()).collect();
    assert_eq!(codes, vec!["AAA", "CCC", "BBB", "AAB"]);
    let by_name = sort_data(cs, &SortBy::Name);
    let codes: Vec<String> = by_name.iter().map(|c| c.cca3.to_string()).collect();
    assert_eq!(codes, vec!["AAA", "AAB", "BBB", "CCC"]);
}

#[test]
fn sort_of_empty_collection_is_empty() {
    assert!(sort_data(Vec::new(), &SortBy::Name).is_empty());
}

#[test]
fn text_query_ignores_case_and_checks_three_fields() {
    let cs = sample();
    let by_name = filter_data(&cs, &[FilterQuery::Text("FRANCE".to_string())]);
    assert_eq!(names(&by_name), vec!["France"]);
    let by_region = filter_data(&cs, &[FilterQuery::Text("americas".to_string())]);
    assert_eq!(names(&by_region), vec!["Greenland", "Chile"]);
    let by_sub_region = filter_data(&cs, &[FilterQuery::Text("EASTERN".to_string())]);
    assert_eq!(names(&by_sub_region), vec!["Japan"]);
    let none = filter_data(&cs, &[FilterQuery::Text("atlantis".to_string())]);
    assert!(none.is_empty());
}

#[test]
fn empty_region_set_and_no_flags_admit_everything() {
    let cs = sample();
    let all = filter_data(&cs, &all_queries("", vec![], StatusFlags::none()));
    assert_eq!(names(&all), names(&cs));
}

#[test]
fn region_query_keeps_selected_regions_in_order() {
    let cs = sample();
    let r = filter_data(&cs, &[FilterQuery::Region(vec![Region::Americas, Region::Asia])]);
    assert_eq!(names(&r), vec!["Japan", "Greenland", "Chile"]);
}

#[test]
fn status_flags_exclude_non_independent_record() {
    let cs = vec![
        country("Greenland", "GRL", Region::Americas, "North America", 56_000, 2_166_086.0, false, true),
        country("Chile", "CHL", Region::Americas, "South America", 19_000_000, 756_102.0, true, false),
    ];
    let flags = StatusFlags { independent: true, un_member: false };
    let r = filter_data(&cs, &all_queries("", vec![], flags));
    assert_eq!(names(&r), vec!["Chile"]);
    let un = StatusFlags { independent: false, un_member: true };
    let r = filter_data(&cs, &all_queries("", vec![], un));
    assert_eq!(names(&r), vec!["Greenland"]);
}

#[test]
fn filtering_twice_equals_filtering_once() {
    let cs = sample();
    let qs = all_queries("e", vec![Region::Europe, Region::Americas], StatusFlags::none());
    let once = filter_data(&cs, &qs);
    let twice = filter_data(&once, &qs);
    assert_eq!(once, twice);
    assert_eq!(names(&once), vec!["France", "Kosovo", "Greenland", "Chile"]);
}

#[test]
fn one_more_query_never_widens() {
    let cs = sample();
    let mut qs = vec![FilterQuery::Text("a".to_string())];
    let before = filter_data(&cs, &qs).len();
    qs.push(FilterQuery::Status(StatusFlags { independent: false, un_member: true }));
    let after = filter_data(&cs, &qs).len();
    assert_eq!(before, 5);
    assert_eq!(after, 3);
}

fn sixteen_records() -> Vec<CountryOverview> {
    let mut v = Vec::new();
    for i in 0..16u32 {
        let region = if i % 2 == 0 { Region::Europe } else { Region::Asia };
        let code = format!("A{}", (b'A' + i as u8) as char);
        let code = format!("{}X", code);
        v.push(country(&format!("C{}", i), &code, region, "x", 1000 - i * 10, 1.0, true, true));
    }
    v
}

#[test]
fn europe_selection_on_sixteen_records() {
    let mut store = CountryStore::new();
    store.ingest(sixteen_records());
    store.set_sort_key(SortBy::Population);
    store.toggle_region(Region::Europe);
    let view = store.view();
    assert_eq!(view.match_count, 8);
    assert_eq!(view.total_pages, 1);
    assert_eq!(view.current_page, 0);
    assert_eq!(view.visible.len(), 8);
    assert!(view.visible.iter().all(|c| c.region == Region::Europe));
    assert!(view.visible.windows(2).all(|w| w[0].population <= w[1].population));
}

#[test]
fn toggling_a_region_twice_deselects_it() {
    let mut store = CountryStore::new();
    store.ingest(sixteen_records());
    store.toggle_region(Region::Asia);
    assert_eq!(store.view().match_count, 8);
    store.toggle_region(Region::Asia);
    assert_eq!(store.view().match_count, 16);
}

fn many_records(n: u32) -> Vec<CountryOverview> {
    let mut v = Vec::new();
    for i in 0..n {
        let code = format!(
            "{}{}{}",
            (b'A' + (i / 26 % 26) as u8) as char,
            (b'A' + (i % 26) as u8) as char,
            'Q'
        );
        let region = if i < 20 { Region::Africa } else { Region::Oceania };
        v.push(country(&format!("Land{}", i), &code, region, "Sub", i, i as f32, true, true));
    }
    v
}

#[test]
fn search_change_resets_page_and_page_change_keeps_queries() {
    let mut store = CountryStore::new();
    store.ingest(many_records(40));
    store.go_to_page(2);
    assert_eq!(store.view().current_page, 2);
    store.set_search_text("Land1".to_string());
    let v = store.view();
    assert_eq!(v.current_page, 0);
    assert_eq!(v.match_count, 11);
    store.go_to_page(1);
    let v = store.view();
    assert_eq!(v.current_page, 0);
    store.set_search_text(String::new());
    store.go_to_page(1);
    let v = store.view();
    assert_eq!(v.current_page, 1);
    assert_eq!(v.match_count, 40);
    assert_eq!(v.visible.len(), 15);
    assert_eq!(v.visible[0].name.common, "Land15");
}

#[test]
fn go_to_page_is_clamped() {
    let mut store = CountryStore::new();
    store.ingest(many_records(40));
    store.go_to_page(99);
    let v = store.view();
    assert_eq!(v.total_pages, 3);
    assert_eq!(v.current_page, 2);
    assert_eq!(v.visible.len(), 10);
    assert_eq!(v.visible[0].name.common, "Land30");
}

#[test]
fn status_flag_change_resets_page() {
    let mut store = CountryStore::new();
    store.ingest(many_records(40));
    store.go_to_page(1);
    store.set_status_flag(Status::Independent, true);
    let v = store.view();
    assert_eq!(v.current_page, 0);
    assert_eq!(v.match_count, 40);
}

#[test]
fn empty_store_has_no_pages() {
    let store = CountryStore::new();
    let v = store.view();
    assert_eq!(v.match_count, 0);
    assert_eq!(v.total_pages, 0);
    assert_eq!(v.current_page, 0);
    assert!(v.visible.is_empty());
}

#[test]
fn no_match_is_a_valid_state() {
    let mut store = CountryStore::new();
    store.ingest(sample());
    store.set_search_text("zzzz".to_string());
    let v = store.view();
    assert_eq!(v.match_count, 0);
    assert_eq!(v.total_pages, 0);
    store.go_to_page(3);
    assert_eq!(store.view().current_page, 0);
}
