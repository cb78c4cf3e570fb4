use world_ranks::{
    clamp_page, compare_text, contains_text, neighbour_codes, neighbour_query, page_bounds,
    paginate, total_pages, validate_record, validate_records, CountryOverview, Flags, Name,
    sort_data, Country, CountryStore, RawCountryOverview, Region, SortBy, Status, ValidationError, CCA3,
    PAGE_SIZE,
};

#[test]
fn code_from_lowercase_fails_and_from_uppercase_round_trips() {
    assert!(CCA3::from_str("us").is_err());
    let c = CCA3::from_str("USA").unwrap();
    assert_eq!(c.as_str(), "USA");
    assert_eq!(c.to_string(), "USA");
}

#[test]
fn code_rejects_wrong_lengths_and_characters() {
    assert!(CCA3::from_str("").is_err());
    assert!(CCA3::from_str("US").is_err());
    assert!(CCA3::from_str("USAA").is_err());
    assert!(CCA3::from_str("U1A").is_err());
    assert!(CCA3::from_str("ÄBC").is_err());
    assert!("DEU".parse::<CCA3>().is_ok());
}

#[test]
fn region_and_sort_names_parse_exactly() {
    assert_eq!(Region::from_name("Europe"), Some(Region::Europe));
    assert_eq!(Region::from_name("europe"), None);
    assert_eq!(Region::from_name("Atlantis"), None);
    assert_eq!(Region::Antarctic.name(), "Antarctic");
    assert_eq!(Region::all().len(), 6);
    assert_eq!(SortBy::from_name("Area"), Some(SortBy::Area));
    assert_eq!(SortBy::from_name("Size"), None);
    assert_eq!(SortBy::Population.name(), "Population");
    assert_eq!(Status::UN.label(), "Member of the United Nations");
}

#[test]
fn page_count_edges() {
    assert_eq!(total_pages(0, PAGE_SIZE), 0);
    assert_eq!(total_pages(1, PAGE_SIZE), 1);
    assert_eq!(total_pages(15, PAGE_SIZE), 1);
    assert_eq!(total_pages(16, PAGE_SIZE), 2);
    assert_eq!(total_pages(30, PAGE_SIZE), 2);
    assert_eq!(total_pages(31, PAGE_SIZE), 3);
    assert_eq!(total_pages(usize::MAX, 1), usize::MAX);
}

#[test]
fn pages_partition_the_records() {
    for n in 0..50usize {
        for size in 1..7usize {
            let total = total_pages(n, size);
            let mut next = 0;
            for p in 0..total {
                let (start, end) = page_bounds(n, size, p);
                assert_eq!(start, next);
                assert!(end > start && end - start <= size);
                next = end;
            }
            assert_eq!(next, n);
        }
    }
}

#[test]
fn clamp_keeps_page_in_range() {
    assert_eq!(clamp_page(5, 0), 0);
    assert_eq!(clamp_page(5, 3), 2);
    assert_eq!(clamp_page(1, 3), 1);
}

fn raw(region: &str, code: &str) -> RawCountryOverview {
    RawCountryOverview {
        name: Name { common: "Peru".to_string(), official: "Republic of Peru".to_string() },
        cca3: code.to_string(),
        independent: true,
        un_member: true,
        region: region.to_string(),
        sub_region: "South America".to_string(),
        area_bits: 1_285_216.0f32.to_bits(),
        population: 33_000_000,
        flags: Flags { png: "p".to_string(), svg: "s".to_string(), alt: Some("red".to_string()) },
    }
}

#[test]
fn validation_reports_offending_values() {
    let ok: CountryOverview = validate_record(raw("Americas", "PER")).unwrap();
    assert_eq!(ok.region, Region::Americas);
    assert_eq!(ok.cca3.as_str(), "PER");
    assert_eq!(
        validate_record(raw("Mars", "PER")),
        Err(ValidationError::InvalidRegion("Mars".to_string()))
    );
    assert_eq!(
        validate_record(raw("Americas", "pe")),
        Err(ValidationError::InvalidCountryCode("pe".to_string()))
    );
}

#[test]
fn validation_of_a_batch_continues_past_bad_records() {
    let (kept, warnings) =
        validate_records(vec![raw("Americas", "PER"), raw("Nowhere", "XXX"), raw("Asia", "IND")]);
    assert_eq!(kept.len(), 2);
    assert_eq!(kept[1].cca3.as_str(), "IND");
    assert_eq!(warnings, vec![ValidationError::InvalidRegion("Nowhere".to_string())]);
}

#[test]
fn text_helpers() {
    assert!(contains_text("Western Europe", "Europe"));
    assert!(contains_text("abc", ""));
    assert!(!contains_text("abc", "abcd"));
    assert!(!contains_text("Europe", "europe"));
    assert_eq!(compare_text("abc", "abd"), -1);
    assert_eq!(compare_text("abc", "ab"), 1);
    assert_eq!(compare_text("Zulu", "alpha"), -1);
    assert_eq!(compare_text("same", "same"), 0);
}

#[test]
fn neighbour_lookup_text() {
    let codes = vec![CCA3::from_str("FRA").unwrap(), CCA3::from_str("DEU").unwrap()];
    assert_eq!(neighbour_codes(&codes), "FRA,DEU");
    assert_eq!(neighbour_query(&Some(codes)), Some("FRA,DEU".to_string()));
    assert_eq!(neighbour_query(&Some(vec![])), None);
    assert_eq!(neighbour_query(&None), None);
}

#[test]
fn paginate_returns_the_page_slice() {
    let items: Vec<CountryOverview> = (0..4u32)
        .map(|i| {
            validate_record(RawCountryOverview { population: i, ..raw("Asia", "ABC") }).unwrap()
        })
        .collect();
    let page = paginate(&items, 3, 1);
    assert_eq!(page.len(), 1);
    assert_eq!(page[0].population, 3);
}

#[test]
fn negative_zero_area_is_kept_as_zero() {
    let r = raw("Asia", "ABC");
    let r = RawCountryOverview { area_bits: (-0.0f32).to_bits(), ..r };
    let c = validate_record(r).unwrap();
    assert_eq!(c.area_bits, 0);
}

#[test]
fn negative_and_nan_areas_are_rejected() {
    let neg = RawCountryOverview { area_bits: (-1.5f32).to_bits(), ..raw("Asia", "ABC") };
    assert_eq!(
        validate_record(neg),
        Err(ValidationError::InvalidArea((-1.5f32).to_bits()))
    );
    let nan = RawCountryOverview { area_bits: f32::NAN.to_bits(), ..raw("Asia", "ABC") };
    assert_eq!(validate_record(nan), Err(ValidationError::InvalidArea(f32::NAN.to_bits())));
    let inf = RawCountryOverview { area_bits: f32::INFINITY.to_bits(), ..raw("Asia", "ABC") };
    assert!(validate_record(inf).is_ok());
}

#[test]
fn zero_areas_tie_and_sort_before_positive_ones() {
    let areas = [1.0f32, -0.0, 0.0, 0.5];
    let raws: Vec<RawCountryOverview> = areas
        .iter()
        .enumerate()
        .map(|(i, a)| RawCountryOverview {
            area_bits: a.to_bits(),
            population: i as u32,
            ..raw("Asia", "ABC")
        })
        .collect();
    let (kept, warnings) = validate_records(raws);
    assert!(warnings.is_empty());
    let sorted = sort_data(kept, &SortBy::Area);
    let order: Vec<u32> = sorted.iter().map(|c| c.population).collect();
    assert_eq!(order, vec![1, 2, 3, 0]);
}

#[test]
fn store_ingests_received_records_with_warnings() {
    let mut store = CountryStore::new();
    let warnings = store.ingest_received(vec![
        raw("Americas", "PER"),
        RawCountryOverview { area_bits: (-2.0f32).to_bits(), ..raw("Asia", "IND") },
        raw("Moon", "XXX"),
    ]);
    assert_eq!(
        warnings,
        vec![
            ValidationError::InvalidArea((-2.0f32).to_bits()),
            ValidationError::InvalidRegion("Moon".to_string()),
        ]
    );
    let v = store.view();
    assert_eq!(v.match_count, 1);
    assert_eq!(v.visible[0].cca3.as_str(), "PER");
}

#[test]
fn code_text_parses_back_to_the_code() {
    let c = CCA3::from_str("NZL").unwrap();
    assert_eq!(CCA3::from_str(c.as_str()), Ok(c));
}

#[test]
fn country_borders_give_the_neighbour_lookup() {
    let mut languages = std::collections::HashMap::new();
    languages.insert("spa".to_string(), "Spanish".to_string());
    let country = Country {
        name: Name { common: "Peru".to_string(), official: "Republic of Peru".to_string() },
        currencies: None,
        capital: Some(vec!["Lima".to_string()]),
        region: "Americas".to_string(),
        sub_region: Some("South America".to_string()),
        languages: Some(languages),
        borders: Some(vec![CCA3::from_str("BOL").unwrap(), CCA3::from_str("BRA").unwrap()]),
        area_bits: 1_285_216.0f32.to_bits(),
        population: 33_000_000,
        flags: Flags { png: "p".to_string(), svg: "s".to_string(), alt: None },
    };
    assert_eq!(neighbour_query(&country.borders), Some("BOL,BRA".to_string()));
}
