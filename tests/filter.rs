use wikidata_werkzeug::collections::IdSet;
use wikidata_werkzeug::error::FilterError;
use wikidata_werkzeug::filter::{
    attributes_from_items, parse_attribute_filters, ClaimFilter, ClaimMap, EntityFilter,
};

fn set(items: &[&str]) -> IdSet {
    IdSet::from_vec(items.iter().map(|s| s.to_string()).collect())
}

fn config(languages: Option<IdSet>, subvariants: bool) -> EntityFilter {
    EntityFilter {
        claim_filter: None,
        subject_filter: None,
        property_filter: None,
        language_filter: languages,
        language_include_subvariants: subvariants,
        entity_type: "item".to_string(),
        keep_attributes: None,
        omit_attributes: None,
    }
}

#[test]
fn test_has_property_filter() {
    let filter = ClaimFilter::HasProperty("P31".to_string());

    let mut claims = ClaimMap::new();
    claims.insert("P31".to_string(), set(&["Q5"]));

    assert!(filter.matches(&claims));

    let empty_claims = ClaimMap::new();
    assert!(!filter.matches(&empty_claims));
}

#[test]
fn test_property_value_filter() {
    let filter = ClaimFilter::PropertyValue("P31".to_string(), set(&["Q5", "Q6256"]));

    let mut claims = ClaimMap::new();
    claims.insert("P31".to_string(), set(&["Q5"]));
    assert!(filter.matches(&claims));

    claims.insert("P31".to_string(), set(&["Q6256"]));
    assert!(filter.matches(&claims));

    claims.insert("P31".to_string(), set(&["Q123"]));
    assert!(!filter.matches(&claims));
}

#[test]
fn test_and_filter() {
    let filter = ClaimFilter::And(vec![
        ClaimFilter::HasProperty("P31".to_string()),
        ClaimFilter::HasProperty("P18".to_string()),
    ]);

    let mut claims = ClaimMap::new();
    claims.insert("P31".to_string(), set(&["Q5"]));
    assert!(!filter.matches(&claims));

    claims.insert("P18".to_string(), IdSet::new());
    assert!(filter.matches(&claims));
}

#[test]
fn test_or_filter() {
    let filter = ClaimFilter::Or(vec![
        ClaimFilter::PropertyValue("P31".to_string(), set(&["Q5"])),
        ClaimFilter::PropertyValue("P31".to_string(), set(&["Q6256"])),
    ]);

    let mut claims = ClaimMap::new();
    claims.insert("P31".to_string(), set(&["Q5"]));
    assert!(filter.matches(&claims));

    claims.insert("P31".to_string(), set(&["Q6256"]));
    assert!(filter.matches(&claims));

    claims.insert("P31".to_string(), set(&["Q123"]));
    assert!(!filter.matches(&claims));
}

#[test]
fn test_not_filter() {
    let filter = ClaimFilter::Not(Box::new(ClaimFilter::PropertyValue(
        "P31".to_string(),
        set(&["Q5"]),
    )));

    let mut claims = ClaimMap::new();
    claims.insert("P31".to_string(), set(&["Q5"]));
    assert!(!filter.matches(&claims));

    claims.insert("P31".to_string(), set(&["Q6256"]));
    assert!(filter.matches(&claims));
}

#[test]
fn test_language_filter_exact_match() {
    let filter = config(Some(set(&["de", "en"])), false);

    assert!(filter.matches_language("de"));
    assert!(filter.matches_language("en"));

    assert!(!filter.matches_language("de-ch"));
    assert!(!filter.matches_language("de-at"));
    assert!(!filter.matches_language("en-gb"));
    assert!(!filter.matches_language("en-us"));

    assert!(!filter.matches_language("fr"));
    assert!(!filter.matches_language("es"));
}

#[test]
fn test_language_filter_with_subvariants() {
    let filter = config(Some(set(&["de", "en"])), true);

    assert!(filter.matches_language("de"));
    assert!(filter.matches_language("en"));

    assert!(filter.matches_language("de-ch"));
    assert!(filter.matches_language("de-at"));
    assert!(filter.matches_language("en-gb"));
    assert!(filter.matches_language("en-us"));

    assert!(!filter.matches_language("fr"));
    assert!(!filter.matches_language("fr-ca"));
    assert!(!filter.matches_language("es"));
}

#[test]
fn test_language_filter_none() {
    let filter = config(None, true);

    assert!(filter.matches_language("de"));
    assert!(filter.matches_language("en"));
    assert!(filter.matches_language("fr"));
    assert!(filter.matches_language("de-ch"));
}

#[test]
fn test_parse_attribute_filters_valid() {
    let (keep, omit) = parse_attribute_filters(Some("id,labels,descriptions"), None).unwrap();
    assert!(keep.is_some());
    assert!(omit.is_none());
    let keep_set = keep.unwrap();
    assert!(keep_set.contains("id"));
    assert!(keep_set.contains("labels"));
    assert!(keep_set.contains("descriptions"));
}

#[test]
fn test_parse_attribute_filters_invalid() {
    let result = parse_attribute_filters(Some("id,invalid_attr"), None);
    assert!(result.is_err());
}

#[test]
fn test_parse_attribute_filters_both_error() {
    let result = parse_attribute_filters(Some("id"), Some("claims"));
    assert!(result.is_err());
}

#[test]
fn attribute_lists_are_trimmed_lowercased_and_checked() {
    let (keep, omit) = parse_attribute_filters(None, Some(" Claims , SITELINKS,,")).unwrap();
    assert!(keep.is_none());
    let omit = omit.unwrap();
    assert_eq!(omit.len(), 2);
    assert!(omit.contains("claims"));
    assert!(omit.contains("sitelinks"));
    match parse_attribute_filters(Some("id,bogus"), None) {
        Err(FilterError::Parse(m)) => assert!(m.contains("'bogus'")),
        _ => panic!("expected a parse error"),
    }
    match parse_attribute_filters(Some("id"), Some("claims")) {
        Err(e) => assert_eq!(
            e.to_string(),
            "Parse error: Cannot use both --keep and --omit at the same time"
        ),
        _ => panic!("expected an error"),
    }
}

#[test]
fn property_value_matches_any_listed_value() {
    let filter = ClaimFilter::PropertyValue("P31".to_string(), set(&["Q5", "Q6256"]));
    let mut both = ClaimMap::new();
    both.insert("P31".to_string(), set(&["Q1", "Q6256"]));
    assert!(filter.matches(&both));
    let mut other = ClaimMap::new();
    other.insert("P31".to_string(), set(&["Q100"]));
    assert!(!filter.matches(&other));
    let mut lacking = ClaimMap::new();
    lacking.insert("P279".to_string(), set(&["Q5"]));
    assert!(!filter.matches(&lacking));
}

#[test]
fn negation_flips_each_verdict() {
    let inner = ClaimFilter::And(vec![
        ClaimFilter::HasProperty("P31".to_string()),
        ClaimFilter::HasProperty("P18".to_string()),
    ]);
    let mut claims = ClaimMap::new();
    claims.insert("P31".to_string(), set(&["Q5"]));
    let before = inner.matches(&claims);
    let negated = ClaimFilter::Not(Box::new(inner));
    assert_eq!(negated.matches(&claims), !before);
}

#[test]
fn subvariant_label_kept_only_with_subvariants() {
    assert!(config(Some(set(&["de"])), true).matches_language("de-ch"));
    assert!(!config(Some(set(&["de"])), false).matches_language("de-ch"));
}

#[test]
fn entity_selection_combines_subject_type_and_claims() {
    let mut cfg = config(None, true);
    cfg.claim_filter = Some(ClaimFilter::HasProperty("P31".to_string()));
    cfg.subject_filter = Some(set(&["Q1", "Q2"]));
    let mut claims = ClaimMap::new();
    claims.insert("P31".to_string(), IdSet::new());
    assert!(cfg.matches("Q1", &claims, Some("item")));
    assert!(cfg.matches("Q1", &claims, None));
    assert!(!cfg.matches("Q3", &claims, Some("item")));
    assert!(!cfg.matches("Q1", &claims, Some("property")));
    assert!(!cfg.matches("Q1", &ClaimMap::new(), Some("item")));
    cfg.entity_type = "both".to_string();
    assert!(cfg.matches("Q1", &claims, Some("property")));
}

#[test]
fn keep_or_omit_decides_each_attribute() {
    let mut cfg = config(None, true);
    assert!(cfg.should_include_attribute("claims"));
    cfg.omit_attributes = Some(set(&["claims"]));
    assert!(!cfg.should_include_attribute("claims"));
    assert!(cfg.should_include_attribute("id"));
    cfg.keep_attributes = Some(set(&["id"]));
    assert!(cfg.should_include_attribute("id"));
    assert!(!cfg.should_include_attribute("labels"));
}

#[test]
fn attribute_items_are_checked_as_given() {
    let items = vec!["id".to_string(), String::new(), "claims".to_string(), "id".to_string()];
    let set = attributes_from_items(&items).unwrap();
    assert_eq!(set.len(), 2);
    assert!(set.contains("claims"));
    assert!(attributes_from_items(&vec!["ID".to_string()]).is_err());
    assert!(attributes_from_items(&Vec::new()).unwrap().is_empty());
}
