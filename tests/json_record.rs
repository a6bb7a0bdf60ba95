use wikidata_werkzeug::collections::IdSet;
use wikidata_werkzeug::filter::{ClaimFilter, EntityFilter};
use wikidata_werkzeug::json_record::{
    extract_json_claims, AttributeAction, JsonRecordFacts, SnakValue,
};

fn set(items: &[&str]) -> IdSet {
    IdSet::from_vec(items.iter().map(|s| s.to_string()).collect())
}

fn config() -> EntityFilter {
    EntityFilter {
        claim_filter: None,
        subject_filter: None,
        property_filter: None,
        language_filter: None,
        language_include_subvariants: true,
        entity_type: "item".to_string(),
        keep_attributes: None,
        omit_attributes: None,
    }
}

#[test]
fn test_keep_attributes() {
    let mut filter = config();
    filter.keep_attributes = Some(set(&["id", "labels"]));
    assert_eq!(filter.attribute_action("id"), AttributeAction::Keep);
    assert_eq!(filter.attribute_action("labels"), AttributeAction::Keep);
    assert_eq!(filter.attribute_action("type"), AttributeAction::Drop);
    assert_eq!(filter.attribute_action("descriptions"), AttributeAction::Drop);
    assert_eq!(filter.attribute_action("claims"), AttributeAction::Drop);
}

#[test]
fn test_omit_attributes() {
    let mut filter = config();
    filter.omit_attributes = Some(set(&["claims", "sitelinks"]));
    assert_eq!(filter.attribute_action("id"), AttributeAction::Keep);
    assert_eq!(filter.attribute_action("type"), AttributeAction::Keep);
    assert_eq!(filter.attribute_action("labels"), AttributeAction::Keep);
    assert_eq!(filter.attribute_action("claims"), AttributeAction::Drop);
    assert_eq!(filter.attribute_action("sitelinks"), AttributeAction::Drop);
}

#[test]
fn language_and_property_lists_narrow_maps() {
    let mut filter = config();
    filter.language_filter = Some(set(&["de"]));
    filter.property_filter = Some(set(&["P31"]));
    assert_eq!(filter.attribute_action("aliases"), AttributeAction::KeepLanguages);
    assert_eq!(filter.attribute_action("claims"), AttributeAction::KeepProperties);
    assert_eq!(filter.attribute_action("sitelinks"), AttributeAction::Keep);
}

#[test]
fn numeric_ids_become_prefixed_ids() {
    let claims = vec![
        (
            "P31".to_string(),
            vec![
                SnakValue::NumericId(5, "item".to_string()),
                SnakValue::NumericId(1040, "property".to_string()),
                SnakValue::EntityId("Q6256".to_string()),
                SnakValue::Other,
            ],
        ),
        ("P18".to_string(), vec![SnakValue::Other]),
    ];
    let map = extract_json_claims(&claims);
    let p31 = map.get("P31").unwrap();
    assert_eq!(p31.len(), 3);
    assert!(p31.contains("Q5"));
    assert!(p31.contains("P1040"));
    assert!(p31.contains("Q6256"));
    assert!(map.get("P18").unwrap().is_empty());
}

#[test]
fn structured_records_are_matched_like_triples() {
    let mut filter = config();
    filter.claim_filter = Some(ClaimFilter::PropertyValue("P31".to_string(), set(&["Q5"])));
    let human = JsonRecordFacts {
        id: "Q42".to_string(),
        entity_type: "item".to_string(),
        claims: vec![("P31".to_string(), vec![SnakValue::NumericId(5, "item".to_string())])],
    };
    assert!(filter.matches_json(&human));
    let property = JsonRecordFacts { entity_type: "property".to_string(), ..human };
    assert!(!filter.matches_json(&property));
}
