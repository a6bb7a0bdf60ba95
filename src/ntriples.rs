use vstd::prelude::*;

use crate::text::{
    chars_of, contains, contains_chars, ends_with, string_of, trim, trim_bounds,
};

verus! {

broadcast use vstd::string::group_string_axioms;

/// The text after the last `/` of `s` (all of `s` when it has none).
pub open spec fn last_segment(s: Seq<char>) -> Seq<char>
    decreases s.len(),
{
    if s.len() == 0 {
        s
    } else if s.last() == '/' {
        Seq::empty()
    } else {
        last_segment(s.drop_last()).push(s.last())
    }
}

/// `s` without the characters `c` at its end.
pub open spec fn strip_end(s: Seq<char>, c: char) -> Seq<char>
    decreases s.len(),
{
    if s.len() > 0 && s.last() == c {
        strip_end(s.drop_last(), c)
    } else {
        s
    }
}

/// The id at the end of a locator: its last segment without closing `>`.
pub open spec fn locator_id(s: Seq<char>) -> Seq<char> {
    strip_end(last_segment(s), '>')
}

/// The position just after the last `/` of `v`, or zero.
fn last_segment_start(v: &Vec<char>) -> (r: usize)
    ensures
        r <= v.len(),
        v@.skip(r as int) == last_segment(v@),
{
    let mut i = v.len();
    proof {
        assert(v@.take(v.len() as int) =~= v@);
        assert(v@.skip(v.len() as int) =~= Seq::<char>::empty());
        assert(last_segment(v@) + Seq::<char>::empty() =~= last_segment(v@));
    }
    while i > 0 && v[i - 1] != '/'
        invariant
            i <= v.len(),
            last_segment(v@) == last_segment(v@.take(i as int)) + v@.skip(i as int),
        decreases i,
    {
        proof {
            let t = v@.take(i as int);
            assert(t.drop_last() =~= v@.take(i - 1));
            assert(t.last() == v@[i - 1]);
            assert(last_segment(t) == last_segment(v@.take(i - 1)).push(v@[i - 1]));
            assert(last_segment(v@.take(i - 1)).push(v@[i - 1]) + v@.skip(i as int) =~= last_segment(
                v@.take(i - 1),
            ) + v@.skip(i - 1));
        }
        i = i - 1;
    }
    proof {
        if i > 0 {
            let t = v@.take(i as int);
            assert(t.last() == v@[i - 1]);
            assert(last_segment(t) == Seq::<char>::empty());
        } else {
            assert(v@.take(0) =~= Seq::<char>::empty());
        }
        assert(Seq::<char>::empty() + v@.skip(i as int) =~= v@.skip(i as int));
    }
    i
}

/// The id at the end of the locator `v`.
fn locator_id_of(v: &Vec<char>) -> (r: String)
    ensures
        r@ == locator_id(v@),
{
    let a = last_segment_start(v);
    let mut b = v.len();
    proof {
        assert(v@.subrange(a as int, b as int) =~= v@.skip(a as int));
    }
    while b > a && v[b - 1] == '>'
        invariant
            a <= b <= v.len(),
            locator_id(v@) == strip_end(v@.subrange(a as int, b as int), '>'),
        decreases b,
    {
        proof {
            assert(v@.subrange(a as int, b as int).drop_last() =~= v@.subrange(a as int, b - 1));
        }
        b = b - 1;
    }
    string_of(v, a, b)
}

/// An N-Triples line cut into its terms.
#[derive(Clone, Debug)]
pub struct NTriple {
    pub subject: String,
    pub predicate: String,
    pub object: String,
    pub raw: String,
}

/// The id of an entity locator, if `s` is one.
pub open spec fn entity_locator_id(s: Seq<char>) -> Option<Seq<char>> {
    if contains(s, "wikidata.org/entity/"@) {
        Some(locator_id(s))
    } else {
        None
    }
}

/// The id of a direct-relation property locator, if `s` is one.
pub open spec fn property_locator_id(s: Seq<char>) -> Option<Seq<char>> {
    if contains(s, "wikidata.org/prop/direct/"@) || contains(s, "wikidata.org/prop/direct-normalized/"@) {
        Some(locator_id(s))
    } else {
        None
    }
}

/// The entity kind that a type-assertion triple names, in lowercase.
pub open spec fn triple_kind(predicate: Seq<char>, object: Seq<char>) -> Option<Seq<char>> {
    if !contains(predicate, "rdf-syntax-ns#type"@) {
        None
    } else if contains(object, "wikiba.se/ontology#Item"@) {
        Some("item"@)
    } else if contains(object, "wikiba.se/ontology#Property"@) {
        Some("property"@)
    } else {
        None
    }
}

/// The view of an optional string.
pub open spec fn opt_str(o: Option<String>) -> Option<Seq<char>> {
    match o {
        Some(s) => Some(s@),
        None => None,
    }
}

impl NTriple {
    /// The entity id of a locator such as `<http://www.wikidata.org/entity/Q31>`.
    pub fn extract_entity_id(uri: &str) -> (r: Option<String>)
        ensures
            opt_str(r) == entity_locator_id(uri@),
    {
        let v = chars_of(uri);
        let mark = chars_of("wikidata.org/entity/");
        if contains_chars(&v, &mark) {
            Some(locator_id_of(&v))
        } else {
            None
        }
    }

    /// The property id of a locator such as `<http://www.wikidata.org/prop/direct/P31>`.
    pub fn extract_property_id(uri: &str) -> (r: Option<String>)
        ensures
            opt_str(r) == property_locator_id(uri@),
    {
        let v = chars_of(uri);
        let direct = chars_of("wikidata.org/prop/direct/");
        let normalized = chars_of("wikidata.org/prop/direct-normalized/");
        if contains_chars(&v, &direct) || contains_chars(&v, &normalized) {
            Some(locator_id_of(&v))
        } else {
            None
        }
    }

    /// The subject's entity id, if the subject is an entity locator.
    pub fn subject_entity_id(&self) -> (r: Option<String>)
        ensures
            opt_str(r) == entity_locator_id(self.subject@),
    {
        Self::extract_entity_id(self.subject.as_str())
    }

    /// The predicate's property id, if the predicate is a direct-relation locator.
    pub fn predicate_property_id(&self) -> (r: Option<String>)
        ensures
            opt_str(r) == property_locator_id(self.predicate@),
    {
        Self::extract_property_id(self.predicate.as_str())
    }

    /// The object's entity id, if the object is an entity locator.
    pub fn object_entity_id(&self) -> (r: Option<String>)
        ensures
            opt_str(r) == entity_locator_id(self.object@),
    {
        Self::extract_entity_id(self.object.as_str())
    }

    /// Whether the triple asserts the type of its subject.
    pub fn is_type_triple(&self) -> (r: bool)
        ensures
            r == contains(self.predicate@, "rdf-syntax-ns#type"@),
    {
        let v = chars_of(self.predicate.as_str());
        let mark = chars_of("rdf-syntax-ns#type");
        contains_chars(&v, &mark)
    }

    /// The entity kind that a type-assertion triple names.
    pub fn entity_type(&self) -> (r: Option<String>)
        ensures
            opt_str(r) == triple_kind(self.predicate@, self.object@),
    {
        if self.is_type_triple() {
            let v = chars_of(self.object.as_str());
            let item = chars_of("wikiba.se/ontology#Item");
            let property = chars_of("wikiba.se/ontology#Property");
            if contains_chars(&v, &item) {
                Some(String::from_str("item"))
            } else if contains_chars(&v, &property) {
                Some(String::from_str("property"))
            } else {
                None
            }
        } else {
            None
        }
    }
}


/// The state of the term scanner of an N-Triples line.
pub struct ScanState {
    /// The terms found so far.
    pub parts: Seq<Seq<char>>,
    /// Where the current term starts.
    pub start: int,
    pub in_uri: bool,
    pub in_literal: bool,
    /// Whether the previous character was a backslash.
    pub escape: bool,
}

/// The scanner before the first character.
pub open spec fn scan_start() -> ScanState {
    ScanState { parts: Seq::empty(), start: 0, in_uri: false, in_literal: false, escape: false }
}

/// What the character at `i` does to the scanner: `<...>` closes a term, a quote opens
/// or closes a literal, and a blank outside both ends a term (a lone `.` is no term).
pub open spec fn scan_step(s: Seq<char>, st: ScanState, i: int) -> ScanState {
    let ch = s[i];
    if st.escape {
        ScanState { escape: false, ..st }
    } else if ch == '\\' {
        ScanState { escape: true, ..st }
    } else if ch == '<' && !st.in_literal {
        ScanState { in_uri: true, ..st }
    } else if ch == '>' && !st.in_literal && st.in_uri {
        if st.start < i + 1 {
            ScanState {
                in_uri: false,
                parts: st.parts.push(s.subrange(st.start, i + 1)),
                start: i + 1,
                ..st
            }
        } else {
            ScanState { in_uri: false, ..st }
        }
    } else if ch == '"' && !st.in_uri {
        if !st.in_literal {
            ScanState {
                in_literal: true,
                start: if st.start < i {
                    i
                } else {
                    st.start
                },
                ..st
            }
        } else {
            ScanState { in_literal: false, ..st }
        }
    } else if (ch == ' ' || ch == '\t') && !st.in_uri && !st.in_literal {
        ScanState {
            parts: if st.start < i && trim(s.subrange(st.start, i)).len() > 0 && trim(
                s.subrange(st.start, i),
            ) != seq!['.'] {
                st.parts.push(trim(s.subrange(st.start, i)))
            } else {
                st.parts
            },
            start: i + 1,
            ..st
        }
    } else {
        st
    }
}

/// The scanner after the first `n` characters of `s`.
pub open spec fn scan(s: Seq<char>, n: int) -> ScanState
    decreases n,
{
    if n <= 0 {
        scan_start()
    } else {
        scan_step(s, scan(s, n - 1), n - 1)
    }
}

/// The terms of a line: those the scanner found, then what is left after the last one,
/// without trailing dots.
pub open spec fn terms(s: Seq<char>) -> Seq<Seq<char>> {
    let st = scan(s, s.len() as int);
    if st.start < s.len() && trim(strip_end(trim(s.skip(st.start)), '.')).len() > 0 {
        st.parts.push(trim(strip_end(trim(s.skip(st.start)), '.')))
    } else {
        st.parts
    }
}

/// The terms joined by single spaces.
pub open spec fn join_spaced(ps: Seq<Seq<char>>) -> Seq<char>
    decreases ps.len(),
{
    if ps.len() == 0 {
        Seq::empty()
    } else if ps.len() == 1 {
        ps[0]
    } else {
        join_spaced(ps.drop_last()) + seq![' '] + ps.last()
    }
}

/// `s` without the ` .` pairs at its end.
pub open spec fn strip_spaced_dots(s: Seq<char>) -> Seq<char>
    decreases s.len(),
{
    if s.len() >= 2 && ends_with(s, seq![' ', '.']) {
        strip_spaced_dots(s.take(s.len() - 2))
    } else {
        s
    }
}

/// The object of a line: its terms from the third on, joined, without the final dot.
pub open spec fn object_text(ps: Seq<Seq<char>>) -> Seq<char> {
    trim(strip_end(strip_spaced_dots(join_spaced(ps.skip(2))), '.'))
}

/// The triple that a line holds, as (subject, predicate, object, raw line), if any.
pub open spec fn triple_of(line: Seq<char>) -> Option<(Seq<char>, Seq<char>, Seq<char>, Seq<char>)> {
    let l = trim(line);
    if l.len() == 0 || l[0] == '#' || terms(l).len() < 3 {
        None
    } else {
        Some((terms(l)[0], terms(l)[1], object_text(terms(l)), l))
    }
}

/// The trimmed text of `v[lo..hi]`.
fn trimmed(v: &Vec<char>, lo: usize, hi: usize) -> (r: String)
    requires
        lo <= hi <= v.len(),
    ensures
        r@ == trim(v@.subrange(lo as int, hi as int)),
{
    let (a, b) = trim_bounds(v, lo, hi);
    string_of(v, a, b)
}

/// `v[lo..hi]` without trailing `c`; hands back the new end.
fn strip_end_at(v: &Vec<char>, lo: usize, hi: usize, c: char) -> (r: usize)
    requires
        lo <= hi <= v.len(),
    ensures
        lo <= r <= hi,
        v@.subrange(lo as int, r as int) == strip_end(v@.subrange(lo as int, hi as int), c),
{
    let mut b = hi;
    while b > lo && v[b - 1] == c
        invariant
            lo <= b <= hi <= v.len(),
            strip_end(v@.subrange(lo as int, hi as int), c) == strip_end(
                v@.subrange(lo as int, b as int),
                c,
            ),
        decreases b,
    {
        proof {
            assert(v@.subrange(lo as int, b as int).drop_last() =~= v@.subrange(lo as int, b - 1));
        }
        b = b - 1;
    }
    b
}

/// The terms of the trimmed line `v`.
fn terms_of(v: &Vec<char>) -> (r: Vec<String>)
    ensures
        crate::collections::views(r@) == terms(v@),
{
    let mut parts: Vec<String> = Vec::new();
    let mut start: usize = 0;
    let mut in_uri = false;
    let mut in_literal = false;
    let mut escape = false;
    let mut i: usize = 0;
    while i < v.len()
        invariant
            i <= v.len(),
            start <= i,
            ({
                let st = scan(v@, i as int);
                &&& crate::collections::views(parts@) == st.parts
                &&& start == st.start
                &&& in_uri == st.in_uri
                &&& in_literal == st.in_literal
                &&& escape == st.escape
            }),
        decreases v.len() - i,
    {
        let ch = v[i];
        let ghost before = parts@;
        if escape {
            escape = false;
        } else if ch == '\\' {
            escape = true;
        } else if ch == '<' && !in_literal {
            in_uri = true;
        } else if ch == '>' && !in_literal && in_uri {
            in_uri = false;
            let piece = string_of(v, start, i + 1);
            parts.push(piece);
            start = i + 1;
            proof {
                assert(crate::collections::views(parts@) =~= crate::collections::views(before).push(
                    piece@,
                ));
            }
        } else if ch == '"' && !in_uri {
            if !in_literal {
                in_literal = true;
                if start < i {
                    start = i;
                }
            } else {
                in_literal = false;
            }
        } else if (ch == ' ' || ch == '\t') && !in_uri && !in_literal {
            if start < i {
                let piece = trimmed(v, start, i);
                let pv = chars_of(piece.as_str());
                if pv.len() > 0 && !(pv.len() == 1 && pv[0] == '.') {
                    parts.push(piece);
                    proof {
                        assert(crate::collections::views(parts@) =~= crate::collections::views(
                            before,
                        ).push(piece@));
                    }
                } else {
                    proof {
                        if pv.len() == 1 {
                            assert(pv@ =~= seq!['.']);
                        }
                    }
                }
            }
            start = i + 1;
        }
        i = i + 1;
    }
    if start < v.len() {
        let (a, b) = trim_bounds(v, start, v.len());
        let e = strip_end_at(v, a, b, '.');
        let piece = trimmed(v, a, e);
        proof {
            assert(v@.subrange(start as int, v.len() as int) =~= v@.skip(start as int));
        }
        if !piece.as_str().is_empty() {
            let ghost before = parts@;
            parts.push(piece);
            proof {
                assert(crate::collections::views(parts@) =~= crate::collections::views(before).push(
                    piece@,
                ));
            }
        }
    }
    parts
}


impl NTriple {
    /// Cuts an N-Triples line into subject, predicate and object; `None` for a blank line,
    /// a comment, or a line with fewer than three terms.
    pub fn parse(line: &str) -> (r: Option<NTriple>)
        ensures
            match r {
                Some(t) => triple_of(line@) == Some((t.subject@, t.predicate@, t.object@, t.raw@)),
                None => triple_of(line@) is None,
            },
    {
        let l = crate::text::trim_str(line);
        let v = chars_of(l.as_str());
        if v.len() == 0 || v[0] == '#' {
            return None;
        }
        let parts = terms_of(&v);
        let ghost ps = crate::collections::views(parts@);
        if parts.len() < 3 {
            return None;
        }
        let mut joined = parts[2].clone();
        let mut i: usize = 3;
        proof {
            assert(ps.subrange(2, 3) =~= seq![ps[2]]);
        }
        while i < parts.len()
            invariant
                3 <= i <= parts.len(),
                ps == crate::collections::views(parts@),
                joined@ == join_spaced(ps.subrange(2, i as int)),
            decreases parts.len() - i,
        {
            joined.push(' ');
            joined.append(parts[i].as_str());
            proof {
                let t = ps.subrange(2, i + 1);
                assert(t.drop_last() =~= ps.subrange(2, i as int));
                assert(t.last() == parts@[i as int]@);
                assert(joined@ =~= join_spaced(t));
            }
            i = i + 1;
        }
        proof {
            assert(ps.subrange(2, parts.len() as int) =~= ps.skip(2));
        }
        let jv = chars_of(joined.as_str());
        let mut e = jv.len();
        proof {
            assert(jv@.subrange(0, e as int) =~= jv@);
        }
        while e >= 2 && jv[e - 2] == ' ' && jv[e - 1] == '.'
            invariant
                e <= jv.len(),
                strip_spaced_dots(jv@) == strip_spaced_dots(jv@.subrange(0, e as int)),
            decreases e,
        {
            proof {
                let t = jv@.subrange(0, e as int);
                assert(t.subrange(t.len() - 2, t.len() as int) =~= seq![' ', '.']);
                assert(t.take(t.len() - 2) =~= jv@.subrange(0, e - 2));
            }
            e = e - 2;
        }
        proof {
            let t = jv@.subrange(0, e as int);
            if t.len() >= 2 && ends_with(t, seq![' ', '.']) {
                assert(t.subrange(t.len() - 2, t.len() as int)[0] == jv@[e - 2]);
                assert(t.subrange(t.len() - 2, t.len() as int)[1] == jv@[e - 1]);
            }
        }
        let e2 = strip_end_at(&jv, 0, e, '.');
        let object = trimmed(&jv, 0, e2);
        Some(NTriple { subject: parts[0].clone(), predicate: parts[1].clone(), object, raw: l })
    }
}

} // verus!
