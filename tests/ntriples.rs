use wikidata_werkzeug::ntriples::NTriple;

#[test]
fn test_parse_entity_triple() {
    let line = r#"<http://www.wikidata.org/entity/Q31> <http://www.wikidata.org/prop/direct/P31> <http://www.wikidata.org/entity/Q6256> ."#;
    let triple = NTriple::parse(line).unwrap();

    assert!(triple.subject.contains("Q31"));
    assert!(triple.predicate.contains("P31"));
    assert!(triple.object.contains("Q6256"));
}

#[test]
fn test_parse_literal_triple() {
    let line = r#"<http://www.wikidata.org/entity/Q31> <http://www.wikidata.org/prop/direct/P1082> "+11825551"^^<http://www.w3.org/2001/XMLSchema#decimal> ."#;
    let triple = NTriple::parse(line).unwrap();

    assert!(triple.subject.contains("Q31"));
    assert!(triple.object.contains("11825551"));
}

#[test]
fn test_extract_entity_id() {
    assert_eq!(
        NTriple::extract_entity_id("<http://www.wikidata.org/entity/Q31>"),
        Some("Q31".to_string())
    );
    assert_eq!(
        NTriple::extract_entity_id("<http://www.wikidata.org/entity/Q6256>"),
        Some("Q6256".to_string())
    );
}

#[test]
fn test_extract_property_id() {
    assert_eq!(
        NTriple::extract_property_id("<http://www.wikidata.org/prop/direct/P31>"),
        Some("P31".to_string())
    );
}

#[test]
fn parse_gives_exact_terms() {
    let line = "  <http://www.wikidata.org/entity/Q31> <http://www.wikidata.org/prop/direct/P31> <http://www.wikidata.org/entity/Q6256> .  ";
    let t = NTriple::parse(line).unwrap();
    assert_eq!(t.subject, "<http://www.wikidata.org/entity/Q31>");
    assert_eq!(t.predicate, "<http://www.wikidata.org/prop/direct/P31>");
    assert_eq!(t.object, "<http://www.wikidata.org/entity/Q6256>");
    assert_eq!(t.raw, line.trim());
    assert_eq!(t.subject_entity_id(), Some("Q31".to_string()));
    assert_eq!(t.predicate_property_id(), Some("P31".to_string()));
    assert_eq!(t.object_entity_id(), Some("Q6256".to_string()));
    assert!(!t.is_type_triple());
    assert_eq!(t.entity_type(), None);
}

#[test]
fn parse_literal_with_language() {
    let line = r#"<http://www.wikidata.org/entity/Q183> <http://www.w3.org/2000/01/rdf-schema#label> "Federal Republic"@en ."#;
    let t = NTriple::parse(line).unwrap();
    assert_eq!(t.object, "\"Federal Republic\"@en");
}

#[test]
fn parse_rejects_blank_comment_and_short_lines() {
    assert!(NTriple::parse("").is_none());
    assert!(NTriple::parse("   ").is_none());
    assert!(NTriple::parse("# a comment").is_none());
    assert!(NTriple::parse("<a> <b> .").is_none());
}

#[test]
fn type_triples() {
    let line = "<http://www.wikidata.org/entity/P31> <http://www.w3.org/1999/02/22-rdf-syntax-ns#type> <http://wikiba.se/ontology#Property> .";
    let t = NTriple::parse(line).unwrap();
    assert!(t.is_type_triple());
    assert_eq!(t.entity_type(), Some("property".to_string()));
    assert_eq!(
        NTriple::extract_property_id("<http://www.wikidata.org/prop/direct-normalized/P227>"),
        Some("P227".to_string())
    );
    assert_eq!(NTriple::extract_entity_id("<http://example.org/Q1>"), None);
}
