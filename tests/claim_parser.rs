use wikidata_werkzeug::claim_parser::parse_claim_filter;
use wikidata_werkzeug::error::FilterError;
use wikidata_werkzeug::filter::ClaimFilter;

#[test]
fn test_parse_simple_property() {
    let filter = parse_claim_filter("P31").unwrap();
    match filter {
        ClaimFilter::HasProperty(p) => assert_eq!(p, "P31"),
        _ => panic!("Expected HasProperty"),
    }
}

#[test]
fn test_parse_property_with_value() {
    let filter = parse_claim_filter("P31:Q5").unwrap();
    match filter {
        ClaimFilter::PropertyValue(p, v) => {
            assert_eq!(p, "P31");
            assert!(v.contains("Q5"));
        }
        _ => panic!("Expected PropertyValue"),
    }
}

#[test]
fn test_parse_property_with_multiple_values() {
    let filter = parse_claim_filter("P31:Q5,Q6256").unwrap();
    match filter {
        ClaimFilter::PropertyValue(p, v) => {
            assert_eq!(p, "P31");
            assert!(v.contains("Q5"));
            assert!(v.contains("Q6256"));
        }
        _ => panic!("Expected PropertyValue"),
    }
}

#[test]
fn test_parse_and_expression() {
    let filter = parse_claim_filter("P31:Q5&P18").unwrap();
    match filter {
        ClaimFilter::And(filters) => {
            assert_eq!(filters.len(), 2);
        }
        _ => panic!("Expected And"),
    }
}

#[test]
fn test_parse_or_expression() {
    let filter = parse_claim_filter("P31:Q5|P31:Q6256").unwrap();
    match filter {
        ClaimFilter::Or(filters) => {
            assert_eq!(filters.len(), 2);
        }
        _ => panic!("Expected Or"),
    }
}

#[test]
fn test_parse_not_expression() {
    let filter = parse_claim_filter("~P31:Q5").unwrap();
    match filter {
        ClaimFilter::Not(inner) => match *inner {
            ClaimFilter::PropertyValue(p, _) => assert_eq!(p, "P31"),
            _ => panic!("Expected PropertyValue inside Not"),
        },
        _ => panic!("Expected Not"),
    }
}

#[test]
fn test_parse_complex_expression() {
    let filter = parse_claim_filter("P31:Q5&P18|P279").unwrap();
    match filter {
        ClaimFilter::Or(_) => {}
        _ => panic!("Expected Or at top level"),
    }
}

#[test]
fn test_invalid_property() {
    assert!(parse_claim_filter("Q31").is_err());
    assert!(parse_claim_filter("31").is_err());
}

fn has(f: &ClaimFilter, name: &str) -> bool {
    matches!(f, ClaimFilter::HasProperty(p) if p == name)
}

#[test]
fn and_binds_tighter_than_or() {
    match parse_claim_filter("P18&P279|P625").unwrap() {
        ClaimFilter::Or(ops) => {
            assert_eq!(ops.len(), 2);
            match &ops[0] {
                ClaimFilter::And(inner) => {
                    assert_eq!(inner.len(), 2);
                    assert!(has(&inner[0], "P18"));
                    assert!(has(&inner[1], "P279"));
                }
                _ => panic!("expected And first"),
            }
            assert!(has(&ops[1], "P625"));
        }
        _ => panic!("expected Or"),
    }
    match parse_claim_filter("P18|P279&P625").unwrap() {
        ClaimFilter::Or(ops) => {
            assert_eq!(ops.len(), 2);
            assert!(has(&ops[0], "P18"));
            match &ops[1] {
                ClaimFilter::And(inner) => {
                    assert!(has(&inner[0], "P279"));
                    assert!(has(&inner[1], "P625"));
                }
                _ => panic!("expected And second"),
            }
        }
        _ => panic!("expected Or"),
    }
}

#[test]
fn parentheses_group_operands() {
    match parse_claim_filter("P18&(P279|P625)").unwrap() {
        ClaimFilter::And(ops) => {
            assert_eq!(ops.len(), 2);
            assert!(has(&ops[0], "P18"));
            assert!(matches!(&ops[1], ClaimFilter::Or(inner) if inner.len() == 2));
        }
        _ => panic!("expected And"),
    }
}

#[test]
fn negation_of_group_and_spaces() {
    match parse_claim_filter("  ~(P18 | P279) & P625 ").unwrap() {
        ClaimFilter::And(ops) => {
            assert!(matches!(&ops[0], ClaimFilter::Not(inner) if matches!(**inner, ClaimFilter::Or(_))));
            assert!(has(&ops[1], "P625"));
        }
        _ => panic!("expected And"),
    }
}

#[test]
fn configuration_errors() {
    let msg = |r: Result<ClaimFilter, FilterError>| match r {
        Err(FilterError::InvalidClaim(m)) => m,
        _ => panic!("expected an invalid claim error"),
    };
    assert_eq!(msg(parse_claim_filter("P31:")), "No values specified for property P31");
    assert_eq!(msg(parse_claim_filter("P31: , ")), "No values specified for property P31");
    assert_eq!(msg(parse_claim_filter("P31:X5")), "Invalid entity ID: X5");
    assert_eq!(msg(parse_claim_filter("Px:Q5")), "Invalid property ID: Px");
    assert_eq!(msg(parse_claim_filter("P18&")), "Empty claim filter");
    assert_eq!(msg(parse_claim_filter("")), "Empty claim filter");
    assert_eq!(msg(parse_claim_filter("P18| |P279")), "Empty claim filter");
    assert_eq!(msg(parse_claim_filter("()")), "Empty claim filter");
    assert_eq!(msg(parse_claim_filter("P18||P279")), "Empty claim filter");
    assert!(parse_claim_filter("P31:Q5,L7-2,P910").is_ok());
}

#[test]
fn values_are_trimmed_and_deduplicated() {
    match parse_claim_filter("P31: Q5 ,Q5,, Q6").unwrap() {
        ClaimFilter::PropertyValue(p, v) => {
            assert_eq!(p, "P31");
            assert_eq!(v.len(), 2);
            assert!(v.contains("Q5"));
            assert!(v.contains("Q6"));
        }
        _ => panic!("expected PropertyValue"),
    }
}

#[test]
fn ids_need_digits() {
    assert!(parse_claim_filter("P").is_err());
    assert!(parse_claim_filter("P31:Q").is_err());
    assert!(parse_claim_filter("P31:Q-").is_err());
    assert!(parse_claim_filter("P31:L-7").is_err());
    assert!(parse_claim_filter("P31:L7-1").is_ok());
    assert!(parse_claim_filter("P0").is_ok());
}
