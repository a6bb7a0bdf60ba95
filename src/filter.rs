use vstd::prelude::*;

use crate::collections::{views, IdSet, StrMap};
use crate::error::FilterError;
use crate::text::{
    chars_of, lower_of, lowercase, position_from, split_on, split_str, str_eq, string_of,
    trim, trim_str, first_of, lemma_first_of_bounds,
};

verus! {

/// The claims of a record: each property id with the ids it refers to.
pub type ClaimMap = StrMap<IdSet>;

/// The claims of a record as a map from property to the set of referenced ids.
pub open spec fn claim_sets(c: &ClaimMap) -> Map<Seq<char>, Set<Seq<char>>> {
    c@.map_values(|s: IdSet| s@)
}

/// A boolean condition on the claims of a record.
#[derive(Debug)]
pub enum ClaimFilter {
    /// The property is present.
    HasProperty(String),
    /// The property is present and refers to one of the ids.
    PropertyValue(String, IdSet),
    /// Every operand holds.
    And(Vec<ClaimFilter>),
    /// Some operand holds.
    Or(Vec<ClaimFilter>),
    /// The operand does not hold.
    Not(Box<ClaimFilter>),
}

impl ClaimFilter {
    /// Whether the condition holds of the claims `c`.
    pub open spec fn holds(self, c: Map<Seq<char>, Set<Seq<char>>>) -> bool
        decreases self,
    {
        match self {
            ClaimFilter::HasProperty(p) => c.contains_key(p@),
            ClaimFilter::PropertyValue(p, vs) => c.contains_key(p@) && exists|v: Seq<char>|
                vs@.contains(v) && c[p@].contains(v),
            ClaimFilter::And(fs) => forall|i: int|
                0 <= i < fs.len() ==> (#[trigger] fs@[i]).holds(c),
            ClaimFilter::Or(fs) => exists|i: int|
                0 <= i < fs.len() && (#[trigger] fs@[i]).holds(c),
            ClaimFilter::Not(f) => !f.holds(c),
        }
    }

    /// Whether the condition holds of `claims`.
    #[verifier::loop_isolation(false)]
    pub fn matches(&self, claims: &ClaimMap) -> (r: bool)
        ensures
            r == self.holds(claim_sets(claims)),
        decreases self,
    {
        match self {
            ClaimFilter::HasProperty(p) => claims.contains_key(p.as_str()),
            ClaimFilter::PropertyValue(p, values) => match claims.get(p.as_str()) {
                Some(found) => values.intersects(found),
                None => false,
            },
            ClaimFilter::And(fs) => {
                let mut i: usize = 0;
                while i < fs.len()
                    invariant
                        i <= fs.len(),
                        forall|j: int| 0 <= j < i ==> (#[trigger] fs@[j]).holds(claim_sets(claims)),
                    decreases fs.len() - i,
                {
                    proof {
                        assert(decreases_to!(*self => fs[i as int]));
                    }
                    if !fs[i].matches(claims) {
                        proof {
                            assert(!fs@[i as int].holds(claim_sets(claims)));
                        }
                        return false;
                    }
                    i = i + 1;
                }
                true
            },
            ClaimFilter::Or(fs) => {
                let mut i: usize = 0;
                while i < fs.len()
                    invariant
                        i <= fs.len(),
                        forall|j: int| 0 <= j < i ==> !(#[trigger] fs@[j]).holds(claim_sets(claims)),
                    decreases fs.len() - i,
                {
                    proof {
                        assert(decreases_to!(*self => fs[i as int]));
                    }
                    if fs[i].matches(claims) {
                        proof {
                            assert(fs@[i as int].holds(claim_sets(claims)));
                        }
                        return true;
                    }
                    i = i + 1;
                }
                false
            },
            ClaimFilter::Not(f) => !f.matches(claims),
        }
    }
}

/// A negated condition holds exactly when the condition does not.
pub proof fn lemma_not_negates(x: ClaimFilter, c: Map<Seq<char>, Set<Seq<char>>>)
    ensures
        ClaimFilter::Not(Box::new(x)).holds(c) == !x.holds(c),
{
}


/// Whether `a` names one of the top-level attributes of a structured record.
pub open spec fn is_attribute(a: Seq<char>) -> bool {
    a == "id"@ || a == "type"@ || a == "labels"@ || a == "descriptions"@ || a == "aliases"@
        || a == "claims"@ || a == "sitelinks"@
}

/// Whether `a` names one of the top-level attributes of a structured record.
pub fn is_valid_attribute(a: &str) -> (r: bool)
    ensures
        r == is_attribute(a@),
{
    str_eq(a, "id") || str_eq(a, "type") || str_eq(a, "labels") || str_eq(a, "descriptions")
        || str_eq(a, "aliases") || str_eq(a, "claims") || str_eq(a, "sitelinks")
}

/// The attribute names listed in `s`: its comma-separated items, trimmed and lowercased.
pub open spec fn attribute_items(s: Seq<char>) -> Seq<Seq<char>> {
    split_on(s, ',').map_values(|p: Seq<char>| lower_of(trim(p)))
}

/// Whether every non-empty item names an attribute.
pub open spec fn items_valid(items: Seq<Seq<char>>) -> bool {
    forall|i: int| 0 <= i < items.len() && (#[trigger] items[i]).len() > 0 ==> is_attribute(items[i])
}

/// The set of the non-empty items.
pub open spec fn item_set(items: Seq<Seq<char>>) -> Set<Seq<char>> {
    items.to_set().filter(|a: Seq<char>| a.len() > 0)
}

/// Whether every non-empty listed item names an attribute.
pub open spec fn attributes_valid(s: Seq<char>) -> bool {
    items_valid(attribute_items(s))
}

/// The set of the non-empty listed items.
pub open spec fn attribute_set(s: Seq<char>) -> Set<Seq<char>> {
    item_set(attribute_items(s))
}

/// Checks already trimmed and lowercased attribute items: the set of the non-empty ones,
/// or a `Parse` error naming the first that is no attribute.
pub fn attributes_from_items(items: &Vec<String>) -> (r: Result<IdSet, FilterError>)
    ensures
        match r {
            Ok(set) => items_valid(views(items@)) && set@ == item_set(views(items@)),
            Err(e) => !items_valid(views(items@)) && e is Parse,
        },
{
    let ghost its = views(items@);
    let mut set = IdSet::new();
    let mut i: usize = 0;
    proof {
        assert(its.take(0).to_set().filter(|a: Seq<char>| a.len() > 0) =~= Set::<Seq<char>>::empty());
    }
    while i < items.len()
        invariant
            i <= items.len(),
            its == views(items@),
            forall|j: int| 0 <= j < i && (#[trigger] its[j]).len() > 0 ==> is_attribute(its[j]),
            set@ == its.take(i as int).to_set().filter(|a: Seq<char>| a.len() > 0),
        decreases items.len() - i,
    {
        let a = items[i].clone();
        proof {
            assert(its[i as int] == a@);
            its.take(i as int).lemma_push_to_set_commute(a@);
            assert(its.take(i + 1) =~= its.take(i as int).push(a@));
        }
        if !a.as_str().is_empty() {
            if !is_valid_attribute(a.as_str()) {
                let mut msg = String::from_str("Invalid attribute '");
                msg.append(a.as_str());
                msg.append("'. Valid attributes: id, type, labels, descriptions, aliases, claims, sitelinks");
                return Err(FilterError::Parse(msg));
            }
            set.insert(a);
            proof {
                assert(set@ =~= its.take(i + 1).to_set().filter(|a: Seq<char>| a.len() > 0));
            }
        } else {
            proof {
                assert(its.take(i as int).to_set().filter(|a: Seq<char>| a.len() > 0) =~= its.take(
                    i + 1,
                ).to_set().filter(|a: Seq<char>| a.len() > 0));
            }
        }
        i = i + 1;
    }
    proof {
        assert(its.take(i as int) =~= its);
    }
    Ok(set)
}

/// Parses one comma-separated attribute list.
fn parse_attribute_list(s: &str) -> (r: Result<IdSet, FilterError>)
    ensures
        match r {
            Ok(set) => attributes_valid(s@) && set@ == attribute_set(s@),
            Err(e) => !attributes_valid(s@) && e is Parse,
        },
{
    let pieces = split_str(s, ',');
    let mut items: Vec<String> = Vec::new();
    let mut i: usize = 0;
    while i < pieces.len()
        invariant
            i <= pieces.len(),
            views(pieces@) == split_on(s@, ','),
            views(items@) == attribute_items(s@).take(i as int),
        decreases pieces.len() - i,
    {
        let t = trim_str(pieces[i].as_str());
        let a = lowercase(t.as_str());
        proof {
            assert(views(pieces@)[i as int] == pieces@[i as int]@);
            assert(attribute_items(s@).take(i + 1) =~= attribute_items(s@).take(i as int).push(a@));
            assert(views(items@.push(a)) =~= views(items@).push(a@));
        }
        items.push(a);
        i = i + 1;
    }
    proof {
        assert(attribute_items(s@).take(i as int) =~= attribute_items(s@));
    }
    attributes_from_items(&items)
}

/// Reads the attribute selections: a keep list, an omit list, or neither.
pub fn parse_attribute_filters(keep: Option<&str>, omit: Option<&str>) -> (r: Result<
    (Option<IdSet>, Option<IdSet>),
    FilterError,
>)
    ensures
        keep is Some && omit is Some ==> r is Err && r->Err_0 is Parse,
        !(keep is Some && omit is Some) ==> match r {
            Ok((k, o)) => (keep is Some ==> attributes_valid(keep->0@) && k is Some
                && k->0@ == attribute_set(keep->0@)) && (keep is None ==> k is None) && (
            omit is Some ==> attributes_valid(omit->0@) && o is Some && o->0@ == attribute_set(
                omit->0@,
            )) && (omit is None ==> o is None),
            Err(e) => e is Parse && ((keep is Some && !attributes_valid(keep->0@)) || (omit is Some
                && !attributes_valid(omit->0@))),
        },
{
    if keep.is_some() && omit.is_some() {
        return Err(
            FilterError::Parse(
                String::from_str("Cannot use both --keep and --omit at the same time"),
            ),
        );
    }
    let k = match keep {
        Some(s) => match parse_attribute_list(s) {
            Ok(set) => Some(set),
            Err(e) => return Err(e),
        },
        None => None,
    };
    let o = match omit {
        Some(s) => match parse_attribute_list(s) {
            Ok(set) => Some(set),
            Err(e) => return Err(e),
        },
        None => None,
    };
    Ok((k, o))
}

/// The primary subtag of a language tag: the part before its first hyphen.
pub open spec fn primary_subtag(tag: Seq<char>) -> Seq<char> {
    tag.take(first_of(tag, '-') as int)
}

/// The configuration of a run: which records are selected and what of them is kept.
#[derive(Debug)]
pub struct EntityFilter {
    pub claim_filter: Option<ClaimFilter>,
    pub subject_filter: Option<IdSet>,
    pub property_filter: Option<IdSet>,
    pub language_filter: Option<IdSet>,
    pub language_include_subvariants: bool,
    pub entity_type: String,
    /// Attributes to keep (if set, only these are kept).
    pub keep_attributes: Option<IdSet>,
    /// Attributes to omit (if set, these are removed).
    pub omit_attributes: Option<IdSet>,
}

impl EntityFilter {
    /// Whether a language tag passes the language allow-list.
    pub open spec fn language_ok(&self, tag: Seq<char>) -> bool {
        match self.language_filter {
            None => true,
            Some(langs) => langs@.contains(tag) || (self.language_include_subvariants
                && langs@.contains(primary_subtag(tag))),
        }
    }

    /// Whether a record with this id, claims and type tag is selected.
    pub open spec fn selects(
        &self,
        id: Seq<char>,
        claims: Map<Seq<char>, Set<Seq<char>>>,
        etype: Option<Seq<char>>,
    ) -> bool {
        &&& match self.subject_filter {
            None => true,
            Some(subjects) => subjects@.contains(id),
        }
        &&& (self.entity_type@ == "both"@ || etype is None || etype->0 == self.entity_type@)
        &&& match self.claim_filter {
            None => true,
            Some(f) => f.holds(claims),
        }
    }

    /// Whether the top-level attribute `attr` survives into structured output.
    pub open spec fn includes(&self, attr: Seq<char>) -> bool {
        match self.keep_attributes {
            Some(keep) => keep@.contains(attr),
            None => match self.omit_attributes {
                Some(omit) => !omit@.contains(attr),
                None => true,
            },
        }
    }

    /// Whether a language tag passes the language allow-list.
    pub fn matches_language(&self, lang_tag: &str) -> (r: bool)
        ensures
            r == self.language_ok(lang_tag@),
    {
        match &self.language_filter {
            None => true,
            Some(langs) => {
                if langs.contains(lang_tag) {
                    return true;
                }
                if !self.language_include_subvariants {
                    return false;
                }
                let v = chars_of(lang_tag);
                let end = position_from(&v, '-', 0);
                proof {
                    assert(v@.skip(0) =~= v@);
                    lemma_first_of_bounds(v@, '-');
                }
                let base = string_of(&v, 0, end);
                proof {
                    assert(base@ =~= primary_subtag(lang_tag@));
                }
                langs.contains(base.as_str())
            },
        }
    }

    /// Whether a record with this id, claims and type tag is selected.
    pub fn matches(&self, entity_id: &str, claims: &ClaimMap, entity_type: Option<&str>) -> (r:
        bool)
        ensures
            r == self.selects(
                entity_id@,
                claim_sets(claims),
                match entity_type {
                    Some(t) => Some(t@),
                    None => None,
                },
            ),
    {
        if let Some(subjects) = &self.subject_filter {
            if !subjects.contains(entity_id) {
                return false;
            }
        }
        if !str_eq(self.entity_type.as_str(), "both") {
            if let Some(etype) = entity_type {
                if !str_eq(etype, self.entity_type.as_str()) {
                    return false;
                }
            }
        }
        if let Some(f) = &self.claim_filter {
            if !f.matches(claims) {
                return false;
            }
        }
        true
    }

    /// Whether the top-level attribute `attr` survives into structured output.
    pub fn should_include_attribute(&self, attr: &str) -> (r: bool)
        ensures
            r == self.includes(attr@),
    {
        if let Some(keep) = &self.keep_attributes {
            keep.contains(attr)
        } else if let Some(omit) = &self.omit_attributes {
            !omit.contains(attr)
        } else {
            true
        }
    }
}

/// A language tag that the allow-list lacks, but whose primary subtag it lists, passes
/// exactly when subvariants are included.
pub proof fn lemma_subvariant_tags(cfg: &EntityFilter, tag: Seq<char>)
    requires
        cfg.language_filter is Some,
        !cfg.language_filter->0@.contains(tag),
        cfg.language_filter->0@.contains(primary_subtag(tag)),
    ensures
        cfg.language_ok(tag) == cfg.language_include_subvariants,
{
}

} // verus!
