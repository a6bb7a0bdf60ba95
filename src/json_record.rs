use vstd::prelude::*;

use crate::collections::{views, IdSet, StrMap};
use crate::filter::{claim_sets, ClaimMap, EntityFilter};
use crate::text::str_eq;

verus! {

/// The value of one statement of a structured record, as far as filtering reads it.
#[derive(Debug)]
pub enum SnakValue {
    /// A reference given by its id.
    EntityId(String),
    /// A reference given by its number and its entity type (`item` when absent).
    NumericId(u64, String),
    /// Any other value.
    Other,
}

/// What filtering reads of a structured record: its id (empty when absent), its type
/// (`item` when absent), and the statement values under each property.
#[derive(Debug)]
pub struct JsonRecordFacts {
    pub id: String,
    pub entity_type: String,
    pub claims: Vec<(String, Vec<SnakValue>)>,
}

/// The decimal digits of `n`.
pub open spec fn decimal(n: nat) -> Seq<char>
    decreases n,
{
    if n < 10 {
        seq![digit_char(n)]
    } else {
        decimal(n / 10).push(digit_char(n % 10))
    }
}

/// The digit for `d` below ten.
pub open spec fn digit_char(d: nat) -> char {
    if d == 0 {
        '0'
    } else if d == 1 {
        '1'
    } else if d == 2 {
        '2'
    } else if d == 3 {
        '3'
    } else if d == 4 {
        '4'
    } else if d == 5 {
        '5'
    } else if d == 6 {
        '6'
    } else if d == 7 {
        '7'
    } else if d == 8 {
        '8'
    } else {
        '9'
    }
}

fn digit(d: u64) -> (r: char)
    requires
        d < 10,
    ensures
        r == digit_char(d as nat),
{
    if d == 0 {
        '0'
    } else if d == 1 {
        '1'
    } else if d == 2 {
        '2'
    } else if d == 3 {
        '3'
    } else if d == 4 {
        '4'
    } else if d == 5 {
        '5'
    } else if d == 6 {
        '6'
    } else if d == 7 {
        '7'
    } else if d == 8 {
        '8'
    } else {
        '9'
    }
}

/// Appends the decimal digits of `n` to `out`.
fn push_decimal(out: &mut String, n: u64)
    ensures
        final(out)@ == old(out)@ + decimal(n as nat),
    decreases n,
{
    if n < 10 {
        out.push(digit(n));
        proof {
            assert(old(out)@.push(digit_char(n as nat)) =~= old(out)@ + seq![digit_char(n as nat)]);
        }
    } else {
        push_decimal(out, n / 10);
        out.push(digit(n % 10));
        proof {
            assert(decimal(n as nat) == decimal((n / 10) as nat).push(digit_char((n % 10) as nat)));
            assert(old(out)@ + decimal((n / 10) as nat) + seq![digit_char((n % 10) as nat)] =~= old(
                out,
            )@ + decimal(n as nat));
        }
    }
}

/// The id that a statement value refers to, if any: the id itself, or the number with
/// `P` for a property and `Q` otherwise.
pub open spec fn referenced_id(v: SnakValue) -> Option<Seq<char>> {
    match v {
        SnakValue::EntityId(id) => Some(id@),
        SnakValue::NumericId(n, kind) => Some(
            (if kind@ == "property"@ {
                seq!['P']
            } else {
                seq!['Q']
            }) + decimal(n as nat),
        ),
        SnakValue::Other => None,
    }
}

/// The ids that the statement values refer to.
pub open spec fn referenced_ids(vs: Seq<SnakValue>) -> Set<Seq<char>>
    decreases vs.len(),
{
    if vs.len() == 0 {
        Set::empty()
    } else {
        match referenced_id(vs.last()) {
            Some(id) => referenced_ids(vs.drop_last()).insert(id),
            None => referenced_ids(vs.drop_last()),
        }
    }
}

/// The claims of a structured record: each property with the ids it refers to.
pub open spec fn json_claims(c: Seq<(String, Vec<SnakValue>)>) -> Map<Seq<char>, Set<Seq<char>>>
    decreases c.len(),
{
    if c.len() == 0 {
        Map::empty()
    } else {
        json_claims(c.drop_last()).insert(c.last().0@, referenced_ids(c.last().1@))
    }
}

/// The id that a statement value refers to, if any.
fn reference_of(v: &SnakValue) -> (r: Option<String>)
    ensures
        match r {
            Some(s) => referenced_id(*v) == Some(s@),
            None => referenced_id(*v) is None,
        },
{
    match v {
        SnakValue::EntityId(id) => Some(id.clone()),
        SnakValue::NumericId(n, kind) => {
            let mut s = if str_eq(kind.as_str(), "property") {
                String::from_str("P")
            } else {
                String::from_str("Q")
            };
            proof {
                reveal_strlit("P");
                reveal_strlit("Q");
            }
            push_decimal(&mut s, *n);
            Some(s)
        },
        SnakValue::Other => None,
    }
}

/// The claims of a structured record, for matching.
pub fn extract_json_claims(claims: &Vec<(String, Vec<SnakValue>)>) -> (r: ClaimMap)
    ensures
        claim_sets(&r) == json_claims(claims@),
{
    let mut out: ClaimMap = StrMap::new();
    let mut i: usize = 0;
    proof {
        assert(claim_sets(&out) =~= json_claims(claims@.take(0)));
    }
    while i < claims.len()
        invariant
            i <= claims.len(),
            claim_sets(&out) == json_claims(claims@.take(i as int)),
        decreases claims.len() - i,
    {
        let values = &claims[i].1;
        let mut set = IdSet::new();
        let mut k: usize = 0;
        proof {
            assert(values@.take(0) =~= Seq::<SnakValue>::empty());
            assert(set@ =~= referenced_ids(values@.take(0)));
        }
        while k < values.len()
            invariant
                k <= values.len(),
                set@ == referenced_ids(values@.take(k as int)),
            decreases values.len() - k,
        {
            proof {
                assert(values@.take(k + 1).drop_last() =~= values@.take(k as int));
                assert(values@.take(k + 1).last() == values@[k as int]);
            }
            match reference_of(&values[k]) {
                Some(id) => {
                    set.insert(id);
                },
                None => {},
            }
            k = k + 1;
        }
        proof {
            assert(values@.take(values.len() as int) =~= values@);
            assert(claims@.take(i + 1).drop_last() =~= claims@.take(i as int));
            assert(claims@.take(i + 1).last() == claims@[i as int]);
        }
        out.insert(claims[i].0.clone(), set);
        proof {
            assert(claim_sets(&out) =~= json_claims(claims@.take(i + 1)));
        }
        i = i + 1;
    }
    proof {
        assert(claims@.take(claims.len() as int) =~= claims@);
    }
    out
}

/// What structured output does with one top-level attribute of a structured record.
#[derive(Clone, Copy, PartialEq, Eq, Debug, Structural)]
pub enum AttributeAction {
    /// Leave the attribute out.
    Drop,
    /// Keep the attribute as it is.
    Keep,
    /// Keep the entries whose language passes the language allow-list.
    KeepLanguages,
    /// Keep the entries whose property passes the property allow-list.
    KeepProperties,
}

impl EntityFilter {
    /// What happens to the top-level attribute `key` of a structured record.
    pub open spec fn action_for(&self, key: Seq<char>) -> AttributeAction {
        if !self.includes(key) {
            AttributeAction::Drop
        } else if self.language_filter is Some && (key == "labels"@ || key == "descriptions"@
            || key == "aliases"@) {
            AttributeAction::KeepLanguages
        } else if self.property_filter is Some && key == "claims"@ {
            AttributeAction::KeepProperties
        } else {
            AttributeAction::Keep
        }
    }

    /// What happens to the top-level attribute `key` of a structured record.
    pub fn attribute_action(&self, key: &str) -> (r: AttributeAction)
        ensures
            r == self.action_for(key@),
    {
        if !self.should_include_attribute(key) {
            AttributeAction::Drop
        } else if self.language_filter.is_some() && (str_eq(key, "labels") || str_eq(
            key,
            "descriptions",
        ) || str_eq(key, "aliases")) {
            AttributeAction::KeepLanguages
        } else if self.property_filter.is_some() && str_eq(key, "claims") {
            AttributeAction::KeepProperties
        } else {
            AttributeAction::Keep
        }
    }

    /// Whether a structured record is selected.
    pub fn matches_json(&self, facts: &JsonRecordFacts) -> (r: bool)
        ensures
            r == self.selects(facts.id@, json_claims(facts.claims@), Some(facts.entity_type@)),
    {
        let claims = extract_json_claims(&facts.claims);
        self.matches(facts.id.as_str(), &claims, Some(facts.entity_type.as_str()))
    }
}

} // verus!
