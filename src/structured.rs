use vstd::prelude::*;

use crate::collections::{views, IdSet, StrMap};
use crate::filter::EntityFilter;
use crate::rdf::RdfEntity;

verus! {

/// A record projected for structured output: each attribute that survives, with its
/// entries in the order in which the record gathered them. An empty list stands for an
/// attribute that is left out.
#[derive(Debug)]
pub struct StructuredRecord {
    pub id: Option<String>,
    pub entity_type: Option<String>,
    /// `(language, text)` pairs.
    pub labels: Vec<(String, String)>,
    /// `(language, text)` pairs.
    pub descriptions: Vec<(String, String)>,
    /// `(language, texts)` pairs.
    pub aliases: Vec<(String, Vec<String>)>,
    /// `(property, references)` pairs; each reference is `(entity kind, id)`.
    pub claims: Vec<(String, Vec<(String, String)>)>,
}

/// The kind of entity an id refers to: `property` for a `P` id, else `item`.
pub open spec fn kind_of(id: Seq<char>) -> Seq<char> {
    if id.len() > 0 && id[0] == 'P' {
        "property"@
    } else {
        "item"@
    }
}

/// The kind of entity an id refers to.
pub fn reference_kind(id: &str) -> (r: String)
    ensures
        r@ == kind_of(id@),
{
    let v = crate::text::chars_of(id);
    if v.len() > 0 && v[0] == 'P' {
        String::from_str("property")
    } else {
        String::from_str("item")
    }
}

/// The views of language entries.
pub open spec fn text_entries(e: Seq<(String, String)>) -> Seq<(Seq<char>, Seq<char>)> {
    e.map_values(|x: (String, String)| (x.0@, x.1@))
}

/// The views of alias entries.
pub open spec fn alias_entries(e: Seq<(String, Vec<String>)>) -> Seq<(Seq<char>, Seq<Seq<char>>)> {
    e.map_values(|x: (String, Vec<String>)| (x.0@, views(x.1@)))
}

/// The views of references.
pub open spec fn reference_views(e: Seq<(String, String)>) -> Seq<(Seq<char>, Seq<char>)> {
    e.map_values(|x: (String, String)| (x.0@, x.1@))
}

/// The views of claim entries.
pub open spec fn claim_views(e: Seq<(String, Vec<(String, String)>)>) -> Seq<
    (Seq<char>, Seq<(Seq<char>, Seq<char>)>),
> {
    e.map_values(|x: (String, Vec<(String, String)>)| (x.0@, reference_views(x.1@)))
}

/// Whether the property allow-list lets claims under `p` through.
pub open spec fn property_allowed(cfg: &EntityFilter, p: Seq<char>) -> bool {
    match cfg.property_filter {
        Some(props) => props@.contains(p),
        None => true,
    }
}

/// The references of a claim, each with its kind.
pub open spec fn references(ids: Seq<Seq<char>>) -> Seq<(Seq<char>, Seq<char>)> {
    ids.map_values(|id: Seq<char>| (kind_of(id), id))
}

/// The claims that structured output can show: those with at least one referenced entity
/// and under an allowed property.
pub open spec fn shown_claims(cfg: &EntityFilter, e: Seq<(String, IdSet)>) -> Seq<
    (Seq<char>, Seq<(Seq<char>, Seq<char>)>),
>
    decreases e.len(),
{
    if e.len() == 0 {
        Seq::empty()
    } else {
        let rest = shown_claims(cfg, e.drop_last());
        let x = e.last();
        if x.1.elems().len() > 0 && property_allowed(cfg, x.0@) {
            rest.push((x.0@, references(x.1.elems())))
        } else {
            rest
        }
    }
}

/// Copies a list of strings.
fn copy_strings(v: &Vec<String>) -> (r: Vec<String>)
    ensures
        views(r@) == views(v@),
{
    let mut out: Vec<String> = Vec::new();
    let mut i: usize = 0;
    while i < v.len()
        invariant
            i <= v.len(),
            views(out@) == views(v@.take(i as int)),
        decreases v.len() - i,
    {
        out.push(v[i].clone());
        proof {
            assert(views(v@.take(i + 1)) =~= views(v@.take(i as int)).push(v@[i as int]@));
            assert(views(out@) =~= views(v@.take(i + 1)));
        }
        i = i + 1;
    }
    proof {
        assert(v@.take(v.len() as int) =~= v@);
    }
    out
}

/// The entries of a language map.
fn text_list(m: &StrMap<String>) -> (r: Vec<(String, String)>)
    ensures
        text_entries(r@) == text_entries(m.entries()),
{
    let mut out: Vec<(String, String)> = Vec::new();
    let mut i: usize = 0;
    while i < m.len()
        invariant
            i <= m.entries().len(),
            text_entries(out@) == text_entries(m.entries().take(i as int)),
        decreases m.entries().len() - i,
    {
        let k = m.key_at(i).clone();
        let v = m.value_at(i).clone();
        out.push((k, v));
        proof {
            assert(text_entries(m.entries().take(i + 1)) =~= text_entries(m.entries().take(i as int)).push(
                (m.entries()[i as int].0@, m.entries()[i as int].1@),
            ));
            assert(text_entries(out@) =~= text_entries(m.entries().take(i + 1)));
        }
        i = i + 1;
    }
    proof {
        assert(m.entries().take(m.entries().len() as int) =~= m.entries());
    }
    out
}

/// The entries of an alias map.
fn alias_list(m: &StrMap<Vec<String>>) -> (r: Vec<(String, Vec<String>)>)
    ensures
        alias_entries(r@) == alias_entries(m.entries()),
{
    let mut out: Vec<(String, Vec<String>)> = Vec::new();
    let mut i: usize = 0;
    while i < m.len()
        invariant
            i <= m.entries().len(),
            alias_entries(out@) == alias_entries(m.entries().take(i as int)),
        decreases m.entries().len() - i,
    {
        let k = m.key_at(i).clone();
        let v = copy_strings(m.value_at(i));
        out.push((k, v));
        proof {
            assert(alias_entries(m.entries().take(i + 1)) =~= alias_entries(m.entries().take(i as int)).push(
                (m.entries()[i as int].0@, views(m.entries()[i as int].1@)),
            ));
            assert(alias_entries(out@) =~= alias_entries(m.entries().take(i + 1)));
        }
        i = i + 1;
    }
    proof {
        assert(m.entries().take(m.entries().len() as int) =~= m.entries());
    }
    out
}

/// The references of a claim, each with its kind.
fn reference_list(s: &IdSet) -> (r: Vec<(String, String)>)
    ensures
        reference_views(r@) == references(s.elems()),
{
    let mut out: Vec<(String, String)> = Vec::new();
    let mut i: usize = 0;
    while i < s.len()
        invariant
            i <= s.elems().len(),
            reference_views(out@) == references(s.elems().take(i as int)),
        decreases s.elems().len() - i,
    {
        let id = s.get(i);
        let kind = reference_kind(id.as_str());
        out.push((kind, id.clone()));
        proof {
            assert(references(s.elems().take(i + 1)) =~= references(s.elems().take(i as int)).push(
                (kind_of(s.elems()[i as int]), s.elems()[i as int]),
            ));
            assert(reference_views(out@) =~= references(s.elems().take(i + 1)));
        }
        i = i + 1;
    }
    proof {
        assert(s.elems().take(s.elems().len() as int) =~= s.elems());
    }
    out
}

/// The claims that structured output shows.
fn claim_list(cfg: &EntityFilter, m: &StrMap<IdSet>) -> (r: Vec<(String, Vec<(String, String)>)>)
    ensures
        claim_views(r@) == shown_claims(cfg, m.entries()),
{
    let mut out: Vec<(String, Vec<(String, String)>)> = Vec::new();
    let mut i: usize = 0;
    while i < m.len()
        invariant
            i <= m.entries().len(),
            claim_views(out@) == shown_claims(cfg, m.entries().take(i as int)),
        decreases m.entries().len() - i,
    {
        let key = m.key_at(i);
        let set = m.value_at(i);
        proof {
            assert(m.entries().take(i + 1).drop_last() =~= m.entries().take(i as int));
            assert(m.entries().take(i + 1).last() == m.entries()[i as int]);
        }
        let allowed = match &cfg.property_filter {
            Some(props) => props.contains(key.as_str()),
            None => true,
        };
        if set.len() > 0 && allowed {
            let refs = reference_list(set);
            let ghost before = out@;
            out.push((key.clone(), refs));
            proof {
                assert(claim_views(out@) =~= claim_views(before).push(
                    (key@, references(set.elems())),
                ));
            }
        }
        i = i + 1;
    }
    proof {
        assert(m.entries().take(m.entries().len() as int) =~= m.entries());
    }
    out
}

impl StructuredRecord {
    /// The structured form of a record under the configuration: the attributes that the
    /// keep or omit selection lets through, empty maps and literal-only claims left out,
    /// claims restricted to the property allow-list, and `item` as the default type.
    pub fn from_entity(cfg: &EntityFilter, e: &RdfEntity) -> (r: Self)
        ensures
            r.id == if cfg.includes("id"@) {
                Some(e.id)
            } else {
                None::<String>
            },
            match r.entity_type {
                Some(t) => cfg.includes("type"@) && t@ == match e.entity_type {
                    Some(k) => k@,
                    None => "item"@,
                },
                None => !cfg.includes("type"@),
            },
            text_entries(r.labels@) == if cfg.includes("labels"@) {
                text_entries(e.labels.entries())
            } else {
                Seq::empty()
            },
            text_entries(r.descriptions@) == if cfg.includes("descriptions"@) {
                text_entries(e.descriptions.entries())
            } else {
                Seq::empty()
            },
            alias_entries(r.aliases@) == if cfg.includes("aliases"@) {
                alias_entries(e.aliases.entries())
            } else {
                Seq::empty()
            },
            claim_views(r.claims@) == if cfg.includes("claims"@) {
                shown_claims(cfg, e.claims.entries())
            } else {
                Seq::empty()
            },
    {
        let id = if cfg.should_include_attribute("id") {
            Some(e.id.clone())
        } else {
            None
        };
        let entity_type = if cfg.should_include_attribute("type") {
            match &e.entity_type {
                Some(t) => Some(t.clone()),
                None => Some(String::from_str("item")),
            }
        } else {
            None
        };
        let labels = if cfg.should_include_attribute("labels") {
            text_list(&e.labels)
        } else {
            Vec::new()
        };
        let descriptions = if cfg.should_include_attribute("descriptions") {
            text_list(&e.descriptions)
        } else {
            Vec::new()
        };
        let aliases = if cfg.should_include_attribute("aliases") {
            alias_list(&e.aliases)
        } else {
            Vec::new()
        };
        let claims = if cfg.should_include_attribute("claims") {
            claim_list(cfg, &e.claims)
        } else {
            Vec::new()
        };
        proof {
            assert(text_entries(Seq::<(String, String)>::empty()) =~= Seq::empty());
            assert(alias_entries(Seq::<(String, Vec<String>)>::empty()) =~= Seq::empty());
            assert(claim_views(Seq::<(String, Vec<(String, String)>)>::empty()) =~= Seq::empty());
        }
        StructuredRecord { id, entity_type, labels, descriptions, aliases, claims }
    }
}

} // verus!
