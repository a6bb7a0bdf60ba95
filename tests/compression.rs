use wikidata_werkzeug::compression::{
    compression_from_lowered, detect_format_from_path, determine_compression, format_from_lowered,
};

#[test]
fn test_determine_compression_from_arg() {
    assert_eq!(determine_compression("lz4", None), "lz4");
    assert_eq!(determine_compression("gzip", None), "gzip");
    assert_eq!(determine_compression("lz4", Some("output.nt")), "lz4");
    assert_eq!(determine_compression("gzip", Some("output.nt.lz4")), "gzip");
}

#[test]
fn test_determine_compression_from_extension() {
    assert_eq!(determine_compression("none", Some("output.nt.lz4")), "lz4");
    assert_eq!(determine_compression("none", Some("output.nt.gz")), "gzip");
    assert_eq!(determine_compression("none", Some("output.json.lz4")), "lz4");
    assert_eq!(determine_compression("none", Some("output.json.gz")), "gzip");
    assert_eq!(determine_compression("none", Some("output.nt.LZ4")), "lz4");
    assert_eq!(determine_compression("none", Some("output.nt.GZ")), "gzip");
}

#[test]
fn test_determine_compression_none() {
    assert_eq!(determine_compression("none", None), "none");
    assert_eq!(determine_compression("none", Some("output.nt")), "none");
    assert_eq!(determine_compression("none", Some("output.json")), "none");
}

#[test]
fn test_detect_format_with_lz4_extension() {
    assert_eq!(detect_format_from_path("data.nt.lz4"), "rdf");
    assert_eq!(detect_format_from_path("data.json.lz4"), "json");
    assert_eq!(detect_format_from_path("data.ndjson.lz4"), "json");
    assert_eq!(detect_format_from_path("truthy.lz4"), "rdf");
}

#[test]
fn test_detect_format_with_multiple_extensions() {
    assert_eq!(detect_format_from_path("data.nt.bz2"), "rdf");
    assert_eq!(detect_format_from_path("data.nt.gz"), "rdf");
    assert_eq!(detect_format_from_path("data.json.bz2"), "json");
    assert_eq!(detect_format_from_path("data.json.gz"), "json");
}

#[test]
fn format_detection_ignores_case() {
    assert_eq!(detect_format_from_path("DATA.JSON.GZ"), "json");
    assert_eq!(detect_format_from_path("Latest-Truthy.json"), "rdf");
    assert_eq!(detect_format_from_path("dump.xml"), "rdf");
}

#[test]
fn lowered_helpers_take_the_name_as_given() {
    assert_eq!(format_from_lowered("data.json"), "json");
    assert_eq!(format_from_lowered("DATA.JSON"), "rdf");
    assert_eq!(compression_from_lowered("none", Some("out.lz4")), "lz4");
    assert_eq!(compression_from_lowered("none", Some("out.LZ4")), "none");
    assert_eq!(compression_from_lowered("bzip2", Some("out.gz")), "bzip2");
}
