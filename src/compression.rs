use vstd::prelude::*;

use crate::text::{
    chars_of, contains, contains_chars, ends_with, ends_with_chars, lower_of, lowercase, str_eq,
    string_of,
};

verus! {

/// A file name without one compression extension: `.bz2`, `.gz` or `.lz4`.
pub open spec fn without_compression(p: Seq<char>) -> Seq<char> {
    if ends_with(p, ".bz2"@) {
        p.take(p.len() - ".bz2"@.len())
    } else if ends_with(p, ".gz"@) {
        p.take(p.len() - ".gz"@.len())
    } else if ends_with(p, ".lz4"@) {
        p.take(p.len() - ".lz4"@.len())
    } else {
        p
    }
}

/// The input format that a lowercase file name suggests: `json` for `.json` and `.ndjson`
/// (not naming a truthy dump), else `rdf`.
pub open spec fn format_of(lowered: Seq<char>) -> Seq<char> {
    let b = without_compression(lowered);
    if ends_with(b, ".nt"@) || contains(b, "truthy"@) {
        "rdf"@
    } else if ends_with(b, ".json"@) || ends_with(b, ".ndjson"@) {
        "json"@
    } else {
        "rdf"@
    }
}

/// The input format that a lowercase file name suggests.
pub fn format_from_lowered(lowered: &str) -> (r: String)
    ensures
        r@ == format_of(lowered@),
{
    let v = chars_of(lowered);
    let bz2 = chars_of(".bz2");
    let gz = chars_of(".gz");
    let lz4 = chars_of(".lz4");
    let end = if ends_with_chars(&v, &bz2) {
        v.len() - bz2.len()
    } else if ends_with_chars(&v, &gz) {
        v.len() - gz.len()
    } else if ends_with_chars(&v, &lz4) {
        v.len() - lz4.len()
    } else {
        v.len()
    };
    let b = string_of(&v, 0, end);
    let bv = chars_of(b.as_str());
    proof {
        assert(v@.subrange(0, end as int) =~= without_compression(lowered@));
    }
    let nt = chars_of(".nt");
    let truthy = chars_of("truthy");
    let json = chars_of(".json");
    let ndjson = chars_of(".ndjson");
    if ends_with_chars(&bv, &nt) || contains_chars(&bv, &truthy) {
        String::from_str("rdf")
    } else if ends_with_chars(&bv, &json) || ends_with_chars(&bv, &ndjson) {
        String::from_str("json")
    } else {
        String::from_str("rdf")
    }
}

/// The input format that a file name suggests, whatever its case.
pub fn detect_format_from_path(path: &str) -> (r: String)
    ensures
        r@ == format_of(lower_of(path@)),
{
    let lowered = lowercase(path);
    format_from_lowered(lowered.as_str())
}

/// The output compression: the one asked for unless that is `none`, else the one that
/// the lowercase output file name ends with (`.lz4`: `lz4`, `.gz`: `gzip`), else `none`.
pub open spec fn compression_of(arg: Seq<char>, lowered: Option<Seq<char>>) -> Seq<char> {
    if arg != "none"@ {
        arg
    } else {
        match lowered {
            Some(p) => if ends_with(p, ".lz4"@) {
                "lz4"@
            } else if ends_with(p, ".gz"@) {
                "gzip"@
            } else {
                "none"@
            },
            None => "none"@,
        }
    }
}

/// The output compression, from the option and the lowercase output file name.
pub fn compression_from_lowered(compress_arg: &str, lowered: Option<&str>) -> (r: String)
    ensures
        r@ == compression_of(
            compress_arg@,
            match lowered {
                Some(p) => Some(p@),
                None => None,
            },
        ),
{
    if !str_eq(compress_arg, "none") {
        return String::from_str(compress_arg);
    }
    if let Some(p) = lowered {
        let v = chars_of(p);
        let lz4 = chars_of(".lz4");
        let gz = chars_of(".gz");
        if ends_with_chars(&v, &lz4) {
            return String::from_str("lz4");
        } else if ends_with_chars(&v, &gz) {
            return String::from_str("gzip");
        }
    }
    String::from_str("none")
}

/// The output compression, from the option and the output file name, whatever its case.
pub fn determine_compression(compress_arg: &str, output_path: Option<&str>) -> (r: String)
    ensures
        r@ == compression_of(
            compress_arg@,
            match output_path {
                Some(p) => Some(lower_of(p@)),
                None => None,
            },
        ),
{
    match output_path {
        Some(p) => {
            let lowered = lowercase(p);
            compression_from_lowered(compress_arg, Some(lowered.as_str()))
        },
        None => compression_from_lowered(compress_arg, None),
    }
}

} // verus!
