use vstd::prelude::*;

use crate::collections::{views, IdSet};
use crate::error::FilterError;
use crate::filter::ClaimFilter;
use crate::text::{
    chars_of, first_of, lemma_first_of_bounds, lemma_trim_len, position_from, split_on,
    split_str, string_of, trim, trim_bounds, trim_str,
};

verus! {

/// The nesting depth after `s`: opening minus closing parentheses.
pub open spec fn depth(s: Seq<char>) -> int
    decreases s.len(),
{
    if s.len() == 0 {
        0
    } else {
        depth(s.drop_last()) + if s.last() == '(' {
            1int
        } else if s.last() == ')' {
            -1int
        } else {
            0int
        }
    }
}

/// The raw pieces of `s` between the occurrences of `d` at nesting depth zero.
pub open spec fn pieces(s: Seq<char>, d: char) -> Seq<Seq<char>>
    decreases s.len(),
{
    if s.len() == 0 {
        seq![Seq::<char>::empty()]
    } else {
        let pre = s.drop_last();
        let ps = pieces(pre, d);
        if s.last() == d && depth(pre) == 0 {
            ps.push(Seq::<char>::empty())
        } else if ps.len() == 0 {
            seq![seq![s.last()]]
        } else {
            ps.update(ps.len() - 1, ps.last().push(s.last()))
        }
    }
}

/// Each piece, trimmed.
pub open spec fn trim_each(ps: Seq<Seq<char>>) -> Seq<Seq<char>>
    decreases ps.len(),
{
    if ps.len() == 0 {
        Seq::<Seq<char>>::empty()
    } else {
        trim_each(ps.drop_last()).push(trim(ps.last()))
    }
}

/// The operands of `s` around the operator `d`, where `d` stands outside parentheses.
pub open spec fn split_top(s: Seq<char>, d: char) -> Seq<Seq<char>> {
    trim_each(pieces(s, d))
}

proof fn lemma_pieces_len(s: Seq<char>, d: char)
    ensures
        pieces(s, d).len() >= 1,
        forall|j: int| 0 <= j < pieces(s, d).len() ==> (#[trigger] pieces(s, d)[j]).len() <= s.len(),
    decreases s.len(),
{
    if s.len() > 0 {
        lemma_pieces_len(s.drop_last(), d);
    }
}

proof fn lemma_trim_each_len(ps: Seq<Seq<char>>, n: int)
    requires
        forall|j: int| 0 <= j < ps.len() ==> (#[trigger] ps[j]).len() <= n,
    ensures
        forall|j: int| 0 <= j < trim_each(ps).len() ==> (#[trigger] trim_each(ps)[j]).len() <= n,
    decreases ps.len(),
{
    if ps.len() > 0 {
        assert forall|j: int| 0 <= j < ps.drop_last().len() implies (
        #[trigger] ps.drop_last()[j]).len() <= n by {
            assert(ps.drop_last()[j] == ps[j]);
        }
        lemma_trim_each_len(ps.drop_last(), n);
        lemma_trim_len(ps.last());
        assert(ps.last() == ps[ps.len() - 1]);
        let k = trim_each(ps.drop_last());
        assert forall|j: int| 0 <= j < trim_each(ps).len() implies (#[trigger] trim_each(ps)[j]).len()
            <= n by {
            if j < k.len() {
                assert(trim_each(ps)[j] == k[j]);
            }
        }
    }
}

/// No operand is longer than the expression it comes from.
pub proof fn lemma_split_top_len(s: Seq<char>, d: char)
    ensures
        forall|j: int|
            0 <= j < split_top(s, d).len() ==> (#[trigger] split_top(s, d)[j]).len() <= s.len(),
{
    lemma_pieces_len(s, d);
    lemma_trim_each_len(pieces(s, d), s.len() as int);
}

/// Whether `id` is a property id: `P` followed by one or more ASCII digits.
pub open spec fn is_property_id(id: Seq<char>) -> bool {
    id.len() >= 2 && id[0] == 'P' && forall|i: int| 1 <= i < id.len() ==> '0' <= #[trigger] id[i] <= '9'
}

/// Whether `id` is an entity id: `Q`, `P` or `L`, then an ASCII digit, then ASCII digits
/// and hyphens.
pub open spec fn is_entity_id(id: Seq<char>) -> bool {
    id.len() >= 2 && (id[0] == 'Q' || id[0] == 'P' || id[0] == 'L') && '0' <= id[1] <= '9' && forall|i: int|
        1 <= i < id.len() ==> ('0' <= #[trigger] id[i] <= '9' || id[i] == '-')
}

/// The value items after the colon of a property clause, trimmed.
pub open spec fn value_items(s: Seq<char>) -> Seq<Seq<char>> {
    split_on(s, ',').map_values(|p: Seq<char>| trim(p))
}

/// The set of the non-empty value items.
pub open spec fn value_set(s: Seq<char>) -> Set<Seq<char>> {
    value_items(s).to_set().filter(|v: Seq<char>| v.len() > 0)
}

/// Whether `s` is a well-formed property clause.
pub open spec fn property_ok(s: Seq<char>) -> bool {
    let u = trim(s);
    let c = first_of(u, ':');
    if u.len() == 0 {
        false
    } else if c < u.len() {
        let vals = u.skip(c + 1 as int);
        is_property_id(trim(u.take(c as int))) && value_set(vals) != Set::<Seq<char>>::empty() && forall|v: Seq<char>|
            #[trigger] value_set(vals).contains(v) ==> is_entity_id(v)
    } else {
        is_property_id(u)
    }
}

/// Whether `f` is what the property clause `s` reads as.
pub open spec fn reads_property(s: Seq<char>, f: ClaimFilter) -> bool {
    let u = trim(s);
    let c = first_of(u, ':');
    property_ok(s) && if c < u.len() {
        f is PropertyValue && f->PropertyValue_0@ == trim(u.take(c as int))
            && f->PropertyValue_1@ == value_set(u.skip(c + 1 as int))
    } else {
        f is HasProperty && f->HasProperty_0@ == u
    }
}

/// Whether `f` is what the disjunction `s` reads as.
pub open spec fn reads_or(s: Seq<char>, f: ClaimFilter) -> bool
    decreases s.len(), 2nat,
{
    let parts = split_top(s, '|');
    proof {
        lemma_split_top_len(s, '|');
    }
    if parts.len() == 1 {
        reads_and(parts[0], f)
    } else {
        parts.len() > 1 && f is Or && f->Or_0.len() == parts.len() && forall|i: int|
            0 <= i < parts.len() ==> reads_and(#[trigger] parts[i], f->Or_0@[i])
    }
}

/// Whether `f` is what the conjunction `s` reads as.
pub open spec fn reads_and(s: Seq<char>, f: ClaimFilter) -> bool
    decreases s.len(), 1nat,
{
    let parts = split_top(s, '&');
    proof {
        lemma_split_top_len(s, '&');
    }
    if parts.len() == 1 {
        reads_atom(parts[0], f)
    } else {
        parts.len() > 1 && f is And && f->And_0.len() == parts.len() && forall|i: int|
            0 <= i < parts.len() ==> reads_atom(#[trigger] parts[i], f->And_0@[i])
    }
}

/// Whether `f` is what the operand `s` reads as.
pub open spec fn reads_atom(s: Seq<char>, f: ClaimFilter) -> bool
    decreases s.len(), 0nat,
{
    let t = trim(s);
    proof {
        lemma_trim_len(s);
    }
    if t.len() > 0 && t[0] == '~' {
        f is Not && reads_atom(t.drop_first(), *f->Not_0)
    } else if t.len() >= 2 && t[0] == '(' && t.last() == ')' {
        reads_or(t.subrange(1, t.len() - 1), f)
    } else {
        reads_property(t, f)
    }
}

/// Whether the disjunction `s` is rejected.
pub open spec fn rejects_or(s: Seq<char>) -> bool
    decreases s.len(), 2nat,
{
    let parts = split_top(s, '|');
    proof {
        lemma_split_top_len(s, '|');
    }
    parts.len() == 0 || exists|i: int| 0 <= i < parts.len() && rejects_and(#[trigger] parts[i])
}

/// Whether the conjunction `s` is rejected.
pub open spec fn rejects_and(s: Seq<char>) -> bool
    decreases s.len(), 1nat,
{
    let parts = split_top(s, '&');
    proof {
        lemma_split_top_len(s, '&');
    }
    parts.len() == 0 || exists|i: int| 0 <= i < parts.len() && rejects_atom(#[trigger] parts[i])
}

/// Whether the operand `s` is rejected.
pub open spec fn rejects_atom(s: Seq<char>) -> bool
    decreases s.len(), 0nat,
{
    let t = trim(s);
    proof {
        lemma_trim_len(s);
    }
    if t.len() > 0 && t[0] == '~' {
        rejects_atom(t.drop_first())
    } else if t.len() >= 2 && t[0] == '(' && t.last() == ')' {
        rejects_or(t.subrange(1, t.len() - 1))
    } else {
        !property_ok(t)
    }
}


/// An `InvalidClaim` error whose message is `head` followed by `tail`.
fn claim_error(head: &str, tail: &str) -> (r: FilterError)
    ensures
        r is InvalidClaim,
        r->InvalidClaim_0@ == head@ + tail@,
{
    let mut m = String::from_str(head);
    m.append(tail);
    FilterError::InvalidClaim(m)
}

/// Splits `input` at the occurrences of `delimiter` outside parentheses and trims the
/// pieces.
fn split_top_level(input: &str, delimiter: char) -> (r: Vec<String>)
    requires
        delimiter != '(' && delimiter != ')',
    ensures
        views(r@) == split_top(input@, delimiter),
{
    let v = chars_of(input);
    let ghost d = delimiter;
    let mut parts: Vec<String> = Vec::new();
    let mut start: usize = 0;
    let mut opens: usize = 0;
    let mut closes: usize = 0;
    let mut i: usize = 0;
    proof {
        assert(v@.take(0) =~= Seq::<char>::empty());
        assert(v@.subrange(0, 0) =~= Seq::<char>::empty());
        assert(trim_each(pieces(v@.take(0), d).drop_last()) =~= Seq::<Seq<char>>::empty());
    }
    while i < v.len()
        invariant
            v@ == input@,
            d == delimiter,
            d != '(' && d != ')',
            start <= i <= v.len(),
            opens <= i,
            closes <= i,
            opens - closes == depth(v@.take(i as int)),
            pieces(v@.take(i as int), d).len() >= 1,
            views(parts@) == trim_each(pieces(v@.take(i as int), d).drop_last()),
            v@.subrange(start as int, i as int) == pieces(v@.take(i as int), d).last(),
        decreases v.len() - i,
    {
        let c = v[i];
        let ghost t = v@.take(i as int);
        let ghost t2 = v@.take(i + 1);
        let ghost ps = pieces(t, d);
        proof {
            assert(t2.drop_last() =~= t);
            assert(t2.last() == c);
        }
        if c == '(' {
            opens = opens + 1;
            proof {
                assert(v@.subrange(start as int, i + 1) =~= ps.last().push(c));
                assert(pieces(t2, d).drop_last() =~= ps.drop_last());
            }
        } else if c == ')' {
            closes = closes + 1;
            proof {
                assert(v@.subrange(start as int, i + 1) =~= ps.last().push(c));
                assert(pieces(t2, d).drop_last() =~= ps.drop_last());
            }
        } else if c == delimiter && opens == closes {
            proof {
                assert(ps =~= ps.drop_last().push(ps.last()));
                assert(pieces(t2, d).drop_last() =~= ps);
            }
            let (a, b) = trim_bounds(&v, start, i);
            let piece = string_of(&v, a, b);
            proof {
                assert(views(parts@.push(piece)) =~= views(parts@).push(piece@));
            }
            parts.push(piece);
            start = i + 1;
            proof {
                assert(v@.subrange(start as int, i + 1) =~= Seq::<char>::empty());
            }
        } else {
            proof {
                assert(v@.subrange(start as int, i + 1) =~= ps.last().push(c));
                assert(pieces(t2, d).drop_last() =~= ps.drop_last());
            }
        }
        i = i + 1;
    }
    let ghost ps = pieces(v@, d);
    proof {
        assert(v@.take(v.len() as int) =~= v@);
        assert(ps =~= ps.drop_last().push(ps.last()));
    }
    let (a, b) = trim_bounds(&v, start, v.len());
    let piece = string_of(&v, a, b);
    proof {
        assert(views(parts@.push(piece)) =~= views(parts@).push(piece@));
    }
    parts.push(piece);
    parts
}

/// Whether `id` is a property id.
fn is_valid_property_id(id: &str) -> (r: bool)
    ensures
        r == is_property_id(id@),
{
    let v = chars_of(id);
    if v.len() < 2 || v[0] != 'P' {
        return false;
    }
    let mut i: usize = 1;
    while i < v.len()
        invariant
            1 <= i <= v.len(),
            v@ == id@,
            forall|j: int| 1 <= j < i ==> '0' <= #[trigger] v@[j] <= '9',
        decreases v.len() - i,
    {
        if !('0' <= v[i] && v[i] <= '9') {
            return false;
        }
        i = i + 1;
    }
    true
}

/// Whether `id` is an entity id.
fn is_valid_entity_id(id: &str) -> (r: bool)
    ensures
        r == is_entity_id(id@),
{
    let v = chars_of(id);
    if v.len() < 2 || !(v[0] == 'Q' || v[0] == 'P' || v[0] == 'L') || !('0' <= v[1] && v[1] <= '9') {
        return false;
    }
    let mut i: usize = 1;
    while i < v.len()
        invariant
            1 <= i <= v.len(),
            v@ == id@,
            forall|j: int| 1 <= j < i ==> ('0' <= #[trigger] v@[j] <= '9' || v@[j] == '-'),
        decreases v.len() - i,
    {
        if !(('0' <= v[i] && v[i] <= '9') || v[i] == '-') {
            return false;
        }
        i = i + 1;
    }
    true
}

/// Parses a property clause: `P31`, or `P31:Q5,Q6256`.
#[verifier::loop_isolation(false)]
fn parse_property_filter(input: &str) -> (r: Result<ClaimFilter, FilterError>)
    ensures
        match r {
            Ok(f) => reads_property(input@, f),
            Err(e) => !property_ok(input@) && e is InvalidClaim,
        },
{
    let u = trim_str(input);
    let v = chars_of(u.as_str());
    if v.len() == 0 {
        return Err(FilterError::InvalidClaim(String::from_str("Empty claim filter")));
    }
    let c = position_from(&v, ':', 0);
    proof {
        assert(v@.skip(0) =~= v@);
        lemma_first_of_bounds(v@, ':');
    }
    if c < v.len() {
        let (a, b) = trim_bounds(&v, 0, c);
        let property = string_of(&v, a, b);
        proof {
            assert(v@.subrange(0, c as int) =~= v@.take(c as int));
        }
        if !is_valid_property_id(property.as_str()) {
            return Err(claim_error("Invalid property ID: ", property.as_str()));
        }
        let rest = string_of(&v, c + 1, v.len());
        let ghost vals = v@.skip(c + 1);
        proof {
            assert(rest@ =~= vals);
        }
        let items = split_str(rest.as_str(), ',');
        let ghost vi = value_items(vals);
        let mut values = IdSet::new();
        let mut i: usize = 0;
        proof {
            assert(vi.take(0).to_set().filter(|x: Seq<char>| x.len() > 0) =~= Set::<
                Seq<char>,
            >::empty());
        }
        while i < items.len()
            invariant
                i <= items.len(),
                views(items@) == split_on(vals, ','),
                vi == value_items(vals),
                vi.len() == items.len(),
                values@ == vi.take(i as int).to_set().filter(|x: Seq<char>| x.len() > 0),
                forall|x: Seq<char>| #[trigger] values@.contains(x) ==> is_entity_id(x),
            decreases items.len() - i,
        {
            let t = trim_str(items[i].as_str());
            proof {
                assert(views(items@)[i as int] == items@[i as int]@);
                assert(t@ == vi[i as int]);
                vi.take(i as int).lemma_push_to_set_commute(t@);
                assert(vi.take(i + 1) =~= vi.take(i as int).push(t@));
            }
            if !t.as_str().is_empty() {
                if !is_valid_entity_id(t.as_str()) {
                    proof {
                        assert(vi.to_set().contains(t@)) by {
                            assert(vi[i as int] == t@);
                        }
                        assert(value_set(vals).contains(t@));
                        assert(trim(input@) == v@);
                        assert(first_of(v@, ':') == c);
                        assert(v@.skip(first_of(v@, ':') + 1 as int) == vals);
                        assert(!property_ok(input@));
                    }
                    return Err(claim_error("Invalid entity ID: ", t.as_str()));
                }
                values.insert(t);
                proof {
                    assert(values@ =~= vi.take(i + 1).to_set().filter(|x: Seq<char>| x.len() > 0));
                }
            } else {
                proof {
                    assert(vi.take(i as int).to_set().filter(|x: Seq<char>| x.len() > 0) =~= vi.take(
                        i + 1,
                    ).to_set().filter(|x: Seq<char>| x.len() > 0));
                }
            }
            i = i + 1;
        }
        proof {
            assert(vi.take(i as int) =~= vi);
        }
        if values.is_empty() {
            return Err(claim_error("No values specified for property ", property.as_str()));
        }
        Ok(ClaimFilter::PropertyValue(property, values))
    } else {
        if !is_valid_property_id(u.as_str()) {
            return Err(claim_error("Invalid property ID: ", u.as_str()));
        }
        Ok(ClaimFilter::HasProperty(u))
    }
}


/// Parses a disjunction: operands joined by `|`.
fn parse_or_expression(input: &str) -> (r: Result<ClaimFilter, FilterError>)
    ensures
        match r {
            Ok(f) => reads_or(input@, f) && !rejects_or(input@),
            Err(e) => rejects_or(input@) && e is InvalidClaim,
        },
    decreases input@.len(), 2nat,
{
    let parts = split_top_level(input, '|');
    proof {
        lemma_split_top_len(input@, '|');
        assert(views(parts@).len() == parts@.len());
    }
    if parts.len() == 0 {
        return Err(FilterError::InvalidClaim(String::from_str("Empty claim filter")));
    }
    if parts.len() == 1 {
        proof {
            assert(views(parts@)[0] == parts@[0]@);
        }
        return parse_and_expression(parts[0].as_str());
    }
    let mut filters: Vec<ClaimFilter> = Vec::new();
    let mut i: usize = 0;
    while i < parts.len()
        invariant
            i <= parts.len(),
            views(parts@) == split_top(input@, '|'),
            parts.len() > 1,
            filters.len() == i,
            forall|j: int| 0 <= j < split_top(input@, '|').len() ==> (#[trigger] split_top(input@, '|')[j]).len() <= input@.len(),
            forall|j: int|
                0 <= j < i ==> reads_and(#[trigger] split_top(input@, '|')[j], filters@[j])
                    && !rejects_and(split_top(input@, '|')[j]),
        decreases parts.len() - i,
    {
        proof {
            assert(views(parts@)[i as int] == parts@[i as int]@);
        }
        match parse_and_expression(parts[i].as_str()) {
            Ok(f) => filters.push(f),
            Err(e) => return Err(e),
        }
        i = i + 1;
    }
    let r = ClaimFilter::Or(filters);
    proof {
        let ps = split_top(input@, '|');
        assert forall|j: int| 0 <= j < ps.len() implies reads_and(#[trigger] ps[j], r->Or_0@[j]) by {
        }
        assert(!rejects_or(input@));
    }
    Ok(r)
}

/// Parses a conjunction: operands joined by `&`.
fn parse_and_expression(input: &str) -> (r: Result<ClaimFilter, FilterError>)
    ensures
        match r {
            Ok(f) => reads_and(input@, f) && !rejects_and(input@),
            Err(e) => rejects_and(input@) && e is InvalidClaim,
        },
    decreases input@.len(), 1nat,
{
    let parts = split_top_level(input, '&');
    proof {
        lemma_split_top_len(input@, '&');
        assert(views(parts@).len() == parts@.len());
    }
    if parts.len() == 0 {
        return Err(FilterError::InvalidClaim(String::from_str("Empty claim filter")));
    }
    if parts.len() == 1 {
        proof {
            assert(views(parts@)[0] == parts@[0]@);
        }
        return parse_atomic(parts[0].as_str());
    }
    let mut filters: Vec<ClaimFilter> = Vec::new();
    let mut i: usize = 0;
    while i < parts.len()
        invariant
            i <= parts.len(),
            views(parts@) == split_top(input@, '&'),
            parts.len() > 1,
            filters.len() == i,
            forall|j: int| 0 <= j < split_top(input@, '&').len() ==> (#[trigger] split_top(input@, '&')[j]).len() <= input@.len(),
            forall|j: int|
                0 <= j < i ==> reads_atom(#[trigger] split_top(input@, '&')[j], filters@[j])
                    && !rejects_atom(split_top(input@, '&')[j]),
        decreases parts.len() - i,
    {
        proof {
            assert(views(parts@)[i as int] == parts@[i as int]@);
        }
        match parse_atomic(parts[i].as_str()) {
            Ok(f) => filters.push(f),
            Err(e) => return Err(e),
        }
        i = i + 1;
    }
    let r = ClaimFilter::And(filters);
    proof {
        let ps = split_top(input@, '&');
        assert forall|j: int| 0 <= j < ps.len() implies reads_atom(#[trigger] ps[j], r->And_0@[j]) by {
        }
        assert(!rejects_and(input@));
    }
    Ok(r)
}

/// Parses one operand: a negation, a parenthesised disjunction, or a property clause.
fn parse_atomic(input: &str) -> (r: Result<ClaimFilter, FilterError>)
    ensures
        match r {
            Ok(f) => reads_atom(input@, f) && !rejects_atom(input@),
            Err(e) => rejects_atom(input@) && e is InvalidClaim,
        },
    decreases input@.len(), 0nat,
{
    let t = trim_str(input);
    let v = chars_of(t.as_str());
    proof {
        lemma_trim_len(input@);
    }
    if v.len() > 0 && v[0] == '~' {
        let inner = string_of(&v, 1, v.len());
        proof {
            assert(inner@ =~= v@.drop_first());
        }
        match parse_atomic(inner.as_str()) {
            Ok(f) => Ok(ClaimFilter::Not(Box::new(f))),
            Err(e) => Err(e),
        }
    } else if v.len() >= 2 && v[0] == '(' && v[v.len() - 1] == ')' {
        let inner = string_of(&v, 1, v.len() - 1);
        parse_or_expression(inner.as_str())
    } else {
        parse_property_filter(t.as_str())
    }
}

/// Parses a claim filter expression such as `P31:Q5,Q6256&P18|~P279:Q5`.
///
/// `&` binds tighter than `|`, `~` negates one operand, and parentheses group.
pub fn parse_claim_filter(input: &str) -> (r: Result<ClaimFilter, FilterError>)
    ensures
        match r {
            Ok(f) => reads_or(trim(input@), f) && !rejects_or(trim(input@)),
            Err(e) => rejects_or(trim(input@)) && e is InvalidClaim,
        },
{
    let t = trim_str(input);
    parse_or_expression(t.as_str())
}

} // verus!
