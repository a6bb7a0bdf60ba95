use rayon::iter::{IntoParallelRefIterator, ParallelIterator};
use wikidata_werkzeug::claim_parser::parse_claim_filter;
use wikidata_werkzeug::collections::{IdSet, StrMap};
use wikidata_werkzeug::filter::{ClaimMap, EntityFilter};
use wikidata_werkzeug::lexer::{
    boundary_id_of, direct_property_of, entity_kind_of, language_tag_given, object_entity_of,
    subject_id_of, tagged_literal_of,
};
use wikidata_werkzeug::pipeline::{batch_verdicts, render_records, select, BatchPipeline, Progress};
use wikidata_werkzeug::rdf::{extract_language_tag, EntityAssembler, OutputFormat, RdfEntity};
use wikidata_werkzeug::structured::{reference_kind, StructuredRecord};

fn chars(s: &str) -> Vec<char> {
    s.chars().collect()
}

fn set(items: &[&str]) -> IdSet {
    IdSet::from_vec(items.iter().map(|s| s.to_string()).collect())
}

fn open_config() -> EntityFilter {
    EntityFilter {
        claim_filter: None,
        subject_filter: None,
        property_filter: None,
        language_filter: None,
        language_include_subvariants: true,
        entity_type: "both".to_string(),
        keep_attributes: None,
        omit_attributes: None,
    }
}

fn create_test_entity() -> RdfEntity {
    let mut e = RdfEntity::new("Q183".to_string());
    e.claims.insert("P31".to_string(), set(&["Q6256", "Q3624078"]));
    e.claims.insert("P17".to_string(), set(&["Q183"]));
    e.entity_type = Some("item".to_string());
    e.labels.insert("de".to_string(), "Deutschland".to_string());
    e.labels.insert("en".to_string(), "Germany".to_string());
    e.descriptions.insert("de".to_string(), "Staat in Mitteleuropa".to_string());
    e.descriptions.insert("en".to_string(), "country in Central Europe".to_string());
    e.aliases.insert(
        "de".to_string(),
        vec!["Bundesrepublik Deutschland".to_string(), "BRD".to_string()],
    );
    e.aliases.insert("en".to_string(), vec!["Federal Republic of Germany".to_string()]);
    e
}

fn lookup<'a, V>(entries: &'a [(String, V)], key: &str) -> Option<&'a V> {
    entries.iter().find(|(k, _)| k == key).map(|(_, v)| v)
}

const ED1: &str = "<https://www.wikidata.org/wiki/Special:EntityData/Q1> <http://schema.org/about> <http://www.wikidata.org/entity/Q1> .";
const Q1_P31: &str = "<http://www.wikidata.org/entity/Q1> <http://www.wikidata.org/prop/direct/P31> <http://www.wikidata.org/entity/Q5> .";
const Q1_LABEL: &str = "<http://www.wikidata.org/entity/Q1> <http://www.w3.org/2000/01/rdf-schema#label> \"Douglas\"@en .";
const Q1_TYPE: &str = "<http://www.wikidata.org/entity/Q1> <http://www.w3.org/1999/02/22-rdf-syntax-ns#type> <http://wikiba.se/ontology#Item> .";
const ED2: &str = "<https://www.wikidata.org/wiki/Special:EntityData/Q2> <http://schema.org/about> <http://www.wikidata.org/entity/Q2> .";
const Q2_P31: &str = "<http://www.wikidata.org/entity/Q2> <http://www.wikidata.org/prop/direct/P31> <http://www.wikidata.org/entity/Q6256> .";
const Q2_LABEL: &str = "<http://www.wikidata.org/entity/Q2> <http://www.w3.org/2000/01/rdf-schema#label> \"Erde\"@de-ch .";
const HEADER: &str = "<http://wikiba.se/ontology#Dump> <http://schema.org/dateModified> \"2024\" .";

fn drive(lines: &[&str], cfg: &EntityFilter, skip: u64, max: u64, batch_size: usize) -> String {
    let mut p = BatchPipeline::new(skip, max, batch_size);
    let mut out = String::new();
    for line in lines {
        match p.push_line(cfg, line.to_string()) {
            Progress::Continue => {}
            Progress::Stop => break,
            Progress::Full(batch) => {
                let flags = batch_verdicts(cfg, &batch);
                let kept = select(batch, &flags);
                out.push_str(&p.render_ntriples(&kept).0);
            }
        }
    }
    let rest = p.finish();
    let flags = batch_verdicts(cfg, &rest);
    let kept = select(rest, &flags);
    out.push_str(&p.render_ntriples(&kept).0);
    out
}

#[test]
fn test_output_format_enum() {
    assert_eq!(OutputFormat::NTriples, OutputFormat::NTriples);
    assert_eq!(OutputFormat::Json, OutputFormat::Json);
    assert_ne!(OutputFormat::NTriples, OutputFormat::Json);
}

#[test]
fn test_extract_language_tag() {
    assert_eq!(extract_language_tag(r#""Germany"@en ."#), Some("en".to_string()));
    assert_eq!(extract_language_tag(r#""Deutschland"@de ."#), Some("de".to_string()));
    assert_eq!(extract_language_tag(r#""Schweiz"@de-ch ."#), Some("de-ch".to_string()));
    assert_eq!(extract_language_tag(r#"<http://example.org/thing> ."#), None);
}

#[test]
fn test_rdf_regexes_label() {
    let label_line = r#"<http://www.wikidata.org/entity/Q183> <http://www.w3.org/2000/01/rdf-schema#label> "Germany"@en ."#;
    let non_label_line = r#"<http://www.wikidata.org/entity/Q183> <http://www.wikidata.org/prop/direct/P31> <http://www.wikidata.org/entity/Q6256> ."#;
    let cfg = open_config();
    let mut assembler = EntityAssembler::new();
    assembler.push_line(&cfg, label_line.to_string());
    assembler.push_line(&cfg, non_label_line.to_string());
    let r = assembler.finish().unwrap();
    assert_eq!(r.labels.len(), 1);
    assert_eq!(r.labels.get("en"), Some(&"Germany".to_string()));
    assert!(r.descriptions.is_empty());
    assert!(r.aliases.is_empty());
    assert!(r.claims.get("P31").unwrap().contains("Q6256"));
    assert_eq!(tagged_literal_of(&chars(label_line)), Some(("Germany".to_string(), "en".to_string())));
    assert_eq!(tagged_literal_of(&chars(non_label_line)), None);
    assert_eq!(direct_property_of(&chars(non_label_line)), Some("P31".to_string()));
    assert_eq!(object_entity_of(&chars(non_label_line)), Some("Q6256".to_string()));
    assert_eq!(subject_id_of(&chars(non_label_line)), Some("Q183".to_string()));
}

#[test]
fn test_rdf_regexes_lang_literal() {
    let line = r#"<http://www.wikidata.org/entity/Q183> <http://www.w3.org/2000/01/rdf-schema#label> "Deutschland"@de ."#;
    let caps = tagged_literal_of(&chars(line));
    assert!(caps.is_some());
    let (text, tag) = caps.unwrap();
    assert_eq!(text, "Deutschland");
    assert_eq!(tag, "de");
}

#[test]
fn lexer_recognises_the_line_shapes() {
    assert_eq!(boundary_id_of(&chars(ED1)), Some("Q1".to_string()));
    assert_eq!(boundary_id_of(&chars(Q1_P31)), None);
    assert_eq!(subject_id_of(&chars(ED1)), None);
    assert_eq!(entity_kind_of(&chars(Q1_TYPE)), Some("item".to_string()));
    let normalized = "<http://www.wikidata.org/entity/Q1> <http://www.wikidata.org/prop/direct-normalized/P227> \"x\" .";
    assert_eq!(direct_property_of(&chars(normalized)), Some("P227".to_string()));
    assert_eq!(object_entity_of(&chars(normalized)), None);
    let quoted = "<http://www.wikidata.org/entity/Q1> <http://schema.org/description> \"say \"hi\" now\"@en-gb  .  ";
    assert_eq!(
        tagged_literal_of(&chars(quoted)),
        Some(("say \"hi\" now".to_string(), "en-gb".to_string()))
    );
}

#[test]
fn test_rdf_entity_to_json_basic() {
    let json = StructuredRecord::from_entity(&open_config(), &create_test_entity());
    assert_eq!(json.id, Some("Q183".to_string()));
    assert_eq!(json.entity_type, Some("item".to_string()));
}

#[test]
fn test_rdf_entity_to_json_labels() {
    let json = StructuredRecord::from_entity(&open_config(), &create_test_entity());
    assert_eq!(lookup(&json.labels, "de").unwrap(), "Deutschland");
    assert_eq!(lookup(&json.labels, "en").unwrap(), "Germany");
}

#[test]
fn test_rdf_entity_to_json_descriptions() {
    let json = StructuredRecord::from_entity(&open_config(), &create_test_entity());
    assert_eq!(lookup(&json.descriptions, "de").unwrap(), "Staat in Mitteleuropa");
}

#[test]
fn test_rdf_entity_to_json_aliases() {
    let json = StructuredRecord::from_entity(&open_config(), &create_test_entity());
    let de = lookup(&json.aliases, "de").unwrap();
    assert_eq!(de.len(), 2);
    assert!(de.contains(&"Bundesrepublik Deutschland".to_string()));
    assert!(de.contains(&"BRD".to_string()));
}

#[test]
fn test_rdf_entity_to_json_claims() {
    let json = StructuredRecord::from_entity(&open_config(), &create_test_entity());
    let p31 = lookup(&json.claims, "P31").unwrap();
    assert_eq!(p31.len(), 2);
    assert_eq!(p31[0], ("item".to_string(), "Q6256".to_string()));
    assert_eq!(p31[1], ("item".to_string(), "Q3624078".to_string()));
}

#[test]
fn test_rdf_entity_to_json_empty_claims_skipped() {
    let mut entity = create_test_entity();
    entity.claims.insert("P123".to_string(), IdSet::new());
    let json = StructuredRecord::from_entity(&open_config(), &entity);
    assert!(lookup(&json.claims, "P123").is_none());
    assert!(lookup(&json.claims, "P31").is_some());
}

#[test]
fn test_rdf_entity_to_json_no_labels() {
    let mut entity = create_test_entity();
    entity.labels = StrMap::new();
    let json = StructuredRecord::from_entity(&open_config(), &entity);
    assert!(json.labels.is_empty());
}

#[test]
fn test_rdf_entity_to_json_property_type() {
    let mut entity = create_test_entity();
    entity.id = "P31".to_string();
    entity.entity_type = Some("property".to_string());
    entity.claims = ClaimMap::new();
    entity.claims.insert("P1628".to_string(), set(&["P279"]));
    let json = StructuredRecord::from_entity(&open_config(), &entity);
    assert_eq!(json.id, Some("P31".to_string()));
    assert_eq!(json.entity_type, Some("property".to_string()));
    let p1628 = lookup(&json.claims, "P1628").unwrap();
    assert_eq!(p1628[0].0, "property");
    assert_eq!(reference_kind("Q5"), "item");
}

#[test]
fn structured_output_follows_keep_omit_and_properties() {
    let mut cfg = open_config();
    cfg.keep_attributes = Some(set(&["id", "claims"]));
    cfg.property_filter = Some(set(&["P17"]));
    let json = StructuredRecord::from_entity(&cfg, &create_test_entity());
    assert_eq!(json.id, Some("Q183".to_string()));
    assert_eq!(json.entity_type, None);
    assert!(json.labels.is_empty());
    assert_eq!(json.claims.len(), 1);
    assert_eq!(json.claims[0].0, "P17");
    let mut cfg = open_config();
    cfg.omit_attributes = Some(set(&["id"]));
    let json = StructuredRecord::from_entity(&cfg, &RdfEntity::new("Q9".to_string()));
    assert_eq!(json.id, None);
    assert_eq!(json.entity_type, Some("item".to_string()));
}

#[test]
fn assembler_yields_one_record_per_id_run() {
    let cfg = open_config();
    let mut assembler = EntityAssembler::new();
    let mut out = Vec::new();
    for line in [HEADER, "", "# c", ED1, Q1_P31, Q1_LABEL, Q1_TYPE, ED2, Q2_P31, Q2_LABEL] {
        if let Some(r) = assembler.push_line(&cfg, line.to_string()) {
            out.push(r);
        }
    }
    if let Some(r) = assembler.finish() {
        out.push(r);
    }
    assert_eq!(out.len(), 2);
    assert_eq!(out[0].id, "Q1");
    assert_eq!(out[0].metadata, vec![ED1.to_string()]);
    assert_eq!(out[0].triples, vec![Q1_P31.to_string(), Q1_LABEL.to_string(), Q1_TYPE.to_string()]);
    assert_eq!(out[0].entity_type, Some("item".to_string()));
    assert!(out[0].claims.get("P31").unwrap().contains("Q5"));
    assert_eq!(out[0].labels.get("en"), Some(&"Douglas".to_string()));
    assert_eq!(out[1].id, "Q2");
    assert_eq!(out[1].triples, vec![Q2_P31.to_string(), Q2_LABEL.to_string()]);
    assert_eq!(assembler.header_lines(), &vec![HEADER.to_string()]);
}

#[test]
fn literal_claims_are_kept_for_matching() {
    let cfg = open_config();
    let mut assembler = EntityAssembler::new();
    let lit = "<http://www.wikidata.org/entity/Q1> <http://www.wikidata.org/prop/direct/P1082> \"+5\"^^<http://www.w3.org/2001/XMLSchema#decimal> .";
    assembler.push_line(&cfg, ED1.to_string());
    assembler.push_line(&cfg, lit.to_string());
    let r = assembler.finish().unwrap();
    assert!(r.claims.contains_key("P1082"));
    assert!(r.claims.get("P1082").unwrap().is_empty());
}

#[test]
fn property_and_language_lists_limit_retained_lines() {
    let mut cfg = open_config();
    cfg.property_filter = Some(set(&["P279"]));
    cfg.language_filter = Some(set(&["de"]));
    let mut assembler = EntityAssembler::new();
    for line in [ED2, Q2_P31, Q2_LABEL, Q1_TYPE.replace("Q1>", "Q2>").as_str()] {
        assembler.push_line(&cfg, line.to_string());
    }
    let r = assembler.finish().unwrap();
    assert_eq!(r.triples.len(), 2);
    assert_eq!(r.triples[0], Q2_LABEL);
    assert!(r.triples[1].contains("rdf-syntax-ns#type"));
    assert!(r.claims.contains_key("P31"));
    assert_eq!(r.labels.get("de-ch"), Some(&"Erde".to_string()));
    cfg.language_include_subvariants = false;
    let mut assembler = EntityAssembler::new();
    assembler.push_line(&cfg, ED2.to_string());
    assembler.push_line(&cfg, Q2_LABEL.to_string());
    let r = assembler.finish().unwrap();
    assert!(r.triples.is_empty());
    assert!(r.labels.is_empty());
}

#[test]
fn end_to_end_claim_filter_selects_first_record() {
    let mut cfg = open_config();
    cfg.claim_filter = Some(parse_claim_filter("P31:Q5").unwrap());
    let input = [HEADER, ED1, Q1_P31, Q1_LABEL, ED2, Q2_P31, Q2_LABEL];
    let out = drive(&input, &cfg, 0, 0, 1);
    let expected = format!("{}\n{}\n{}\n{}\n", HEADER, ED1, Q1_P31, Q1_LABEL);
    assert_eq!(out, expected);
}

#[test]
fn resume_waits_for_the_next_boundary() {
    let cfg = open_config();
    let input = [ED1, Q1_P31, Q1_LABEL, Q1_TYPE, ED2, Q2_P31];
    let out = drive(&input, &cfg, 2, 0, 10);
    assert_eq!(out, format!("{}\n{}\n", ED2, Q2_P31));
    let out = drive(&input, &cfg, 4, 0, 10);
    assert_eq!(out, format!("{}\n{}\n", ED2, Q2_P31));
    let out = drive(&input, &cfg, 5, 0, 10);
    assert_eq!(out, "");
}

#[test]
fn line_limit_stops_after_max_lines() {
    let cfg = open_config();
    let input = [ED1, Q1_P31, Q1_LABEL, ED2, Q2_P31];
    let out = drive(&input, &cfg, 0, 2, 10);
    assert_eq!(out, format!("{}\n{}\n", ED1, Q1_P31));
}

#[test]
fn worker_count_does_not_change_output() {
    let mut cfg = open_config();
    cfg.claim_filter = Some(parse_claim_filter("P31:Q5|~P31").unwrap());
    let mut input: Vec<String> = Vec::new();
    for i in 0..40 {
        input.push(format!("<https://www.wikidata.org/wiki/Special:EntityData/Q{}> <http://schema.org/about> <http://www.wikidata.org/entity/Q{}> .", i, i));
        let v = if i % 3 == 0 { 5 } else { 7 };
        input.push(format!("<http://www.wikidata.org/entity/Q{}> <http://www.wikidata.org/prop/direct/P31> <http://www.wikidata.org/entity/Q{}> .", i, v));
    }
    let run = |workers: usize| -> String {
        let pool = rayon::ThreadPoolBuilder::new().num_threads(workers).build().unwrap();
        let mut p = BatchPipeline::new(0, 0, 7);
        let mut out = String::new();
        let mut emit = |p: &mut BatchPipeline, batch: Vec<RdfEntity>| {
            let flags: Vec<bool> = pool.install(|| {
                batch
                    .par_iter()
                    .map(|e| cfg.matches(&e.id, &e.claims, e.entity_type.as_deref()))
                    .collect()
            });
            let kept = select(batch, &flags);
            out.push_str(&p.render_ntriples(&kept).0);
        };
        for line in &input {
            if let Progress::Full(b) = p.push_line(&cfg, line.clone()) {
                emit(&mut p, b);
            }
        }
        let rest = p.finish();
        emit(&mut p, rest);
        out
    };
    let one = run(1);
    assert_eq!(one, run(8));
    assert_eq!(one.lines().count(), 28);
}

#[test]
fn rendering_writes_metadata_then_facts() {
    let mut e = RdfEntity::new("Q1".to_string());
    e.metadata.push("m".to_string());
    e.triples.push("t1".to_string());
    e.triples.push("t2".to_string());
    assert_eq!(render_records(&vec![e]), ("m\nt1\nt2\n".to_string(), 3));
}

#[test]
fn resume_never_starts_inside_a_run() {
    let cfg = open_config();
    let ed1_second = "<https://www.wikidata.org/wiki/Special:EntityData/Q1> <http://schema.org/version> \"7\" .";
    let input = [ED1, ed1_second, Q1_P31, ED2, Q2_P31];
    let out = drive(&input, &cfg, 1, 0, 10);
    assert_eq!(out, format!("{}\n{}\n", ED2, Q2_P31));
    let out = drive(&input, &cfg, 0, 0, 10);
    assert_eq!(out, format!("{}\n{}\n{}\n{}\n{}\n", ED1, ed1_second, Q1_P31, ED2, Q2_P31));
}

#[test]
fn rendering_counts_header_and_record_lines() {
    let cfg = open_config();
    let mut p = BatchPipeline::new(0, 0, 10);
    for line in [HEADER, ED1, Q1_P31, Q1_LABEL] {
        p.push_line(&cfg, line.to_string());
    }
    let rest = p.finish();
    let (text, lines) = p.render_ntriples(&rest);
    assert_eq!(lines, 4);
    assert_eq!(text.lines().count(), 4);
    let (_, again) = p.render_ntriples(&Vec::new());
    assert_eq!(again, 0);
}

#[test]
fn language_tag_uses_the_given_verdicts() {
    let line = chars("\"x\"@de-ch .");
    let all: Vec<bool> = line.iter().map(|_| true).collect();
    assert_eq!(language_tag_given(&line, &all), Some("de-ch".to_string()));
    let none: Vec<bool> = line.iter().map(|_| false).collect();
    assert_eq!(language_tag_given(&line, &none), None);
}
