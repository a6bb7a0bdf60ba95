use vstd::prelude::*;

use crate::text::{
    chars_of, is_whitespace, is_ws, matches_at, occurs_at, skip_ws,
    starts_with, starts_with_chars, string_of, trim_start,
};

verus! {

broadcast use vstd::string::group_string_axioms;

/// Locator that opens the metadata line of an entity: a record boundary.
pub open spec fn entity_data_prefix() -> Seq<char> {
    "<https://www.wikidata.org/wiki/Special:EntityData/"@
}

/// Locator of an entity.
pub open spec fn entity_prefix() -> Seq<char> {
    "<http://www.wikidata.org/entity/"@
}

/// Locator of a direct-relation property.
pub open spec fn direct_prefix() -> Seq<char> {
    "<http://www.wikidata.org/prop/direct/"@
}

/// Locator of a normalized direct-relation property.
pub open spec fn normalized_prefix() -> Seq<char> {
    "<http://www.wikidata.org/prop/direct-normalized/"@
}

/// Locator of the item kind.
pub open spec fn item_locator() -> Seq<char> {
    "<http://wikiba.se/ontology#Item>"@
}

/// Locator of the property kind.
pub open spec fn property_locator() -> Seq<char> {
    "<http://wikiba.se/ontology#Property>"@
}

/// Predicate of a label fact.
pub open spec fn label_predicate() -> Seq<char> {
    "<http://www.w3.org/2000/01/rdf-schema#label>"@
}

/// Predicate of a description fact.
pub open spec fn description_predicate() -> Seq<char> {
    "<http://schema.org/description>"@
}

/// Predicate of an alias fact.
pub open spec fn alias_predicate() -> Seq<char> {
    "<http://www.w3.org/2004/02/skos/core#altLabel>"@
}

/// Mark of a type-assertion fact.
pub open spec fn type_mark() -> Seq<char> {
    "rdf-syntax-ns#type"@
}

/// Mark of a dump header line.
pub open spec fn dump_mark() -> Seq<char> {
    "wikiba.se/ontology#Dump"@
}

/// Whether `c` is an ASCII digit.
pub open spec fn is_digit(c: char) -> bool {
    '0' <= c && c <= '9'
}

/// The number of consecutive ASCII digits in `s` from position `j`.
pub open spec fn digit_run(s: Seq<char>, j: int) -> nat
    decreases s.len() - j,
{
    if 0 <= j < s.len() && is_digit(s[j]) {
        1 + digit_run(s, j + 1)
    } else {
        0
    }
}

/// The id `letter digits` that starts at `j` and is closed by `>`.
pub open spec fn id_after(s: Seq<char>, j: int, letter: char) -> Option<Seq<char>> {
    let k = digit_run(s, j + 1);
    if 0 <= j < s.len() && s[j] == letter && k >= 1 && j + 1 + k < s.len() && s[j + 1 + k] == '>' {
        Some(s.subrange(j, j + 1 + k))
    } else {
        None
    }
}

/// The id of a line that starts with `prefix` followed by `letter digits>`.
pub open spec fn anchored_id(s: Seq<char>, prefix: Seq<char>, letter: char) -> Option<Seq<char>> {
    if starts_with(s, prefix) {
        id_after(s, prefix.len() as int, letter)
    } else {
        None
    }
}

/// The entity id of a boundary marker line.
pub open spec fn boundary_id(s: Seq<char>) -> Option<Seq<char>> {
    anchored_id(s, entity_data_prefix(), 'Q')
}

/// The entity id of a fact line's subject.
pub open spec fn subject_id(s: Seq<char>) -> Option<Seq<char>> {
    anchored_id(s, entity_prefix(), 'Q')
}

/// The property of a direct-relation locator at position `i`.
pub open spec fn property_at(s: Seq<char>, i: int) -> Option<Seq<char>> {
    if occurs_at(s, i, direct_prefix()) {
        id_after(s, i + direct_prefix().len(), 'P')
    } else if occurs_at(s, i, normalized_prefix()) {
        id_after(s, i + normalized_prefix().len(), 'P')
    } else {
        None
    }
}

/// The property of the leftmost direct-relation locator at or after `i`.
pub open spec fn property_from(s: Seq<char>, i: int) -> Option<Seq<char>>
    decreases s.len() + 1 - i,
{
    if i < 0 || i > s.len() {
        None
    } else {
        match property_at(s, i) {
            Some(p) => Some(p),
            None => property_from(s, i + 1),
        }
    }
}

/// The property of a direct-relation fact.
pub open spec fn direct_property(s: Seq<char>) -> Option<Seq<char>> {
    property_from(s, 0)
}

/// The entity at position `i` when it is the last term of the line, before the final dot.
pub open spec fn object_at(s: Seq<char>, i: int) -> Option<Seq<char>> {
    if occurs_at(s, i, entity_prefix()) {
        match id_after(s, i + entity_prefix().len(), 'Q') {
            Some(id) => if trim_start(s.skip(i + entity_prefix().len() + id.len() + 1)) == seq!['.'] {
                Some(id)
            } else {
                None
            },
            None => None,
        }
    } else {
        None
    }
}

/// The leftmost object entity at or after `i`.
pub open spec fn object_from(s: Seq<char>, i: int) -> Option<Seq<char>>
    decreases s.len() + 1 - i,
{
    if i < 0 || i > s.len() {
        None
    } else {
        match object_at(s, i) {
            Some(p) => Some(p),
            None => object_from(s, i + 1),
        }
    }
}

/// The entity a fact refers to, when its object is an entity locator.
pub open spec fn object_entity(s: Seq<char>) -> Option<Seq<char>> {
    object_from(s, 0)
}

/// The entity kind named at position `i`.
pub open spec fn kind_at(s: Seq<char>, i: int) -> Option<Seq<char>> {
    if occurs_at(s, i, item_locator()) {
        Some("item"@)
    } else if occurs_at(s, i, property_locator()) {
        Some("property"@)
    } else {
        None
    }
}

/// The leftmost entity kind named at or after `i`.
pub open spec fn kind_from(s: Seq<char>, i: int) -> Option<Seq<char>>
    decreases s.len() + 1 - i,
{
    if i < 0 || i > s.len() {
        None
    } else {
        match kind_at(s, i) {
            Some(p) => Some(p),
            None => kind_from(s, i + 1),
        }
    }
}

/// The entity kind a line names, in lowercase.
pub open spec fn entity_kind(s: Seq<char>) -> Option<Seq<char>> {
    kind_from(s, 0)
}


/// The end of the run of ASCII digits in `v` that starts at `j`.
fn digit_end(v: &Vec<char>, j: usize) -> (r: usize)
    requires
        j <= v.len(),
    ensures
        r == j + digit_run(v@, j as int),
        r <= v.len(),
{
    let mut m = j;
    while m < v.len() && '0' <= v[m] && v[m] <= '9'
        invariant
            j <= m <= v.len(),
            digit_run(v@, j as int) == (m - j) + digit_run(v@, m as int),
        decreases v.len() - m,
    {
        proof {
            assert(digit_run(v@, m as int) == 1 + digit_run(v@, m + 1));
        }
        m = m + 1;
    }
    m
}

/// Where the id `letter digits>` that starts at `j` ends (before the `>`), if there is one.
fn id_end(v: &Vec<char>, j: usize, letter: char) -> (r: Option<usize>)
    ensures
        match r {
            Some(e) => j < e <= v.len() && id_after(v@, j as int, letter) == Some(
                v@.subrange(j as int, e as int),
            ),
            None => id_after(v@, j as int, letter) is None,
        },
{
    if j >= v.len() || v[j] != letter {
        return None;
    }
    let e = digit_end(v, j + 1);
    if e > j + 1 && e < v.len() && v[e] == '>' {
        Some(e)
    } else {
        None
    }
}

/// The id of a line that starts with `prefix` followed by `letter digits>`.
fn anchored_id_of(v: &Vec<char>, prefix: &Vec<char>, letter: char) -> (r: Option<String>)
    ensures
        match r {
            Some(id) => anchored_id(v@, prefix@, letter) == Some(id@),
            None => anchored_id(v@, prefix@, letter) is None,
        },
{
    if !starts_with_chars(v, prefix) {
        return None;
    }
    match id_end(v, prefix.len(), letter) {
        Some(e) => Some(string_of(v, prefix.len(), e)),
        None => None,
    }
}

/// The entity id of a boundary marker line.
pub fn boundary_id_of(v: &Vec<char>) -> (r: Option<String>)
    ensures
        match r {
            Some(id) => boundary_id(v@) == Some(id@),
            None => boundary_id(v@) is None,
        },
{
    let prefix = chars_of("<https://www.wikidata.org/wiki/Special:EntityData/");
    anchored_id_of(v, &prefix, 'Q')
}

/// The entity id of a fact line's subject.
pub fn subject_id_of(v: &Vec<char>) -> (r: Option<String>)
    ensures
        match r {
            Some(id) => subject_id(v@) == Some(id@),
            None => subject_id(v@) is None,
        },
{
    let prefix = chars_of("<http://www.wikidata.org/entity/");
    anchored_id_of(v, &prefix, 'Q')
}

/// The property of a direct-relation fact.
pub fn direct_property_of(v: &Vec<char>) -> (r: Option<String>)
    ensures
        match r {
            Some(p) => direct_property(v@) == Some(p@),
            None => direct_property(v@) is None,
        },
{
    let direct = chars_of("<http://www.wikidata.org/prop/direct/");
    let normalized = chars_of("<http://www.wikidata.org/prop/direct-normalized/");
    let mut i: usize = 0;
    while i < v.len()
        invariant
            i <= v.len(),
            direct@ == direct_prefix(),
            normalized@ == normalized_prefix(),
            property_from(v@, 0) == property_from(v@, i as int),
        decreases v.len() - i,
    {
        if matches_at(v, i, &direct) {
            match id_end(v, i + direct.len(), 'P') {
                Some(e) => return Some(string_of(v, i + direct.len(), e)),
                None => {},
            }
        } else if matches_at(v, i, &normalized) {
            match id_end(v, i + normalized.len(), 'P') {
                Some(e) => return Some(string_of(v, i + normalized.len(), e)),
                None => {},
            }
        }
        i = i + 1;
    }
    proof {
        assert(property_at(v@, v.len() as int) is None);
        assert(property_from(v@, v.len() + 1) is None);
    }
    None
}

/// The entity a fact refers to, when its object is an entity locator.
pub fn object_entity_of(v: &Vec<char>) -> (r: Option<String>)
    ensures
        match r {
            Some(p) => object_entity(v@) == Some(p@),
            None => object_entity(v@) is None,
        },
{
    let prefix = chars_of("<http://www.wikidata.org/entity/");
    let mut i: usize = 0;
    while i < v.len()
        invariant
            i <= v.len(),
            prefix@ == entity_prefix(),
            object_from(v@, 0) == object_from(v@, i as int),
        decreases v.len() - i,
    {
        if matches_at(v, i, &prefix) {
            match id_end(v, i + prefix.len(), 'Q') {
                Some(e) => {
                    let k = skip_ws(v, e + 1);
                    proof {
                        assert(v@.subrange((i + prefix.len()) as int, e as int).len() == e - i
                            - prefix.len());
                        assert(i + entity_prefix().len() + (e - i - prefix.len()) + 1 == e + 1);
                    }
                    if k < v.len() && v[k] == '.' && k + 1 == v.len() {
                        proof {
                            assert(v@.skip(k as int) =~= seq!['.']);
                        }
                        return Some(string_of(v, i + prefix.len(), e));
                    }
                    proof {
                        if v@.skip(k as int) =~= seq!['.'] {
                            assert(v@.skip(k as int).len() == 1);
                            assert(k + 1 == v.len());
                            assert(v@.skip(k as int)[0] == v@[k as int]);
                        }
                    }
                },
                None => {},
            }
        }
        i = i + 1;
    }
    proof {
        assert(object_at(v@, v.len() as int) is None);
        assert(object_from(v@, v.len() + 1) is None);
    }
    None
}

/// The entity kind a line names, in lowercase.
pub fn entity_kind_of(v: &Vec<char>) -> (r: Option<String>)
    ensures
        match r {
            Some(k) => entity_kind(v@) == Some(k@),
            None => entity_kind(v@) is None,
        },
{
    let item = chars_of("<http://wikiba.se/ontology#Item>");
    let property = chars_of("<http://wikiba.se/ontology#Property>");
    let mut i: usize = 0;
    while i < v.len()
        invariant
            i <= v.len(),
            item@ == item_locator(),
            property@ == property_locator(),
            kind_from(v@, 0) == kind_from(v@, i as int),
        decreases v.len() - i,
    {
        if matches_at(v, i, &item) {
            return Some(String::from_str("item"));
        } else if matches_at(v, i, &property) {
            return Some(String::from_str("property"));
        }
        i = i + 1;
    }
    proof {
        reveal_strlit("<http://wikiba.se/ontology#Item>");
        reveal_strlit("<http://wikiba.se/ontology#Property>");
        assert(kind_at(v@, v.len() as int) is None);
        assert(kind_from(v@, v.len() + 1) is None);
    }
    None
}


/// Whether `c` may stand in the language tag of a literal: an ASCII letter, digit or hyphen.
pub open spec fn is_tag_char(c: char) -> bool {
    ('a' <= c && c <= 'z') || ('A' <= c && c <= 'Z') || is_digit(c) || c == '-'
}

/// The number of consecutive whitespace characters in `s` from position `j`.
pub open spec fn ws_run(s: Seq<char>, j: int) -> nat
    decreases s.len() - j,
{
    if 0 <= j < s.len() && is_ws(s[j]) {
        1 + ws_run(s, j + 1)
    } else {
        0
    }
}

/// The number of consecutive tag characters in `s` from position `j`.
pub open spec fn tag_run(s: Seq<char>, j: int) -> nat
    decreases s.len() - j,
{
    if 0 <= j < s.len() && is_tag_char(s[j]) {
        1 + tag_run(s, j + 1)
    } else {
        0
    }
}

/// The language tag that ends a line from position `j`: whitespace, `@`, the tag,
/// whitespace, a dot, and whitespace up to the end.
pub open spec fn tag_tail(s: Seq<char>, j: int) -> Option<Seq<char>> {
    let a = j + ws_run(s, j);
    let b = a + 1 + tag_run(s, a + 1);
    let c = b + ws_run(s, b);
    let e = c + 1 + ws_run(s, c + 1);
    if 0 <= j && a < s.len() && s[a] == '@' && b > a + 1 && c < s.len() && s[c] == '.' && e
        == s.len() {
        Some(s.subrange(a + 1, b))
    } else {
        None
    }
}

/// Whether no line feed stands in `s[a..b]`.
pub open spec fn no_line_feed(s: Seq<char>, a: int, b: int) -> bool {
    forall|k: int| a <= k < b ==> #[trigger] s[k] != '\n'
}

/// The last quote in `s(i..=j]` that closes a literal opened at `i`: it stands on the
/// same line and is followed by a language tag.
pub open spec fn closing_quote(s: Seq<char>, i: int, j: int) -> Option<int>
    decreases j - i,
{
    if j <= i {
        None
    } else if s[j] == '"' && tag_tail(s, j + 1) is Some && no_line_feed(s, i + 1, j) {
        Some(j)
    } else {
        closing_quote(s, i, j - 1)
    }
}

/// The leftmost language-tagged literal at or after `i`: its text and its tag.
pub open spec fn literal_from(s: Seq<char>, i: int) -> Option<(Seq<char>, Seq<char>)>
    decreases s.len() - i,
{
    if i < 0 || i >= s.len() {
        None
    } else if s[i] == '"' && closing_quote(s, i, s.len() - 1) is Some {
        let j = closing_quote(s, i, s.len() - 1)->0;
        Some((s.subrange(i + 1, j), tag_tail(s, j + 1)->0))
    } else {
        literal_from(s, i + 1)
    }
}

/// The language-tagged literal that ends a line: `"text"@tag .`.
pub open spec fn tagged_literal(s: Seq<char>) -> Option<(Seq<char>, Seq<char>)> {
    literal_from(s, 0)
}

/// The end of the run of whitespace in `v` that starts at `j`.
fn ws_end(v: &Vec<char>, j: usize) -> (r: usize)
    requires
        j <= v.len(),
    ensures
        r == j + ws_run(v@, j as int),
        r <= v.len(),
{
    let mut m = j;
    while m < v.len() && is_whitespace(v[m])
        invariant
            j <= m <= v.len(),
            ws_run(v@, j as int) == (m - j) + ws_run(v@, m as int),
        decreases v.len() - m,
    {
        proof {
            assert(ws_run(v@, m as int) == 1 + ws_run(v@, m + 1));
        }
        m = m + 1;
    }
    m
}

/// The end of the run of tag characters in `v` that starts at `j`.
fn tag_end(v: &Vec<char>, j: usize) -> (r: usize)
    requires
        j <= v.len(),
    ensures
        r == j + tag_run(v@, j as int),
        r <= v.len(),
{
    let mut m = j;
    while m < v.len() && (('a' <= v[m] && v[m] <= 'z') || ('A' <= v[m] && v[m] <= 'Z') || ('0'
        <= v[m] && v[m] <= '9') || v[m] == '-')
        invariant
            j <= m <= v.len(),
            tag_run(v@, j as int) == (m - j) + tag_run(v@, m as int),
        decreases v.len() - m,
    {
        proof {
            assert(tag_run(v@, m as int) == 1 + tag_run(v@, m + 1));
        }
        m = m + 1;
    }
    m
}

/// The bounds of the language tag that ends `v` from position `j`, if there is one.
fn tag_tail_at(v: &Vec<char>, j: usize) -> (r: Option<(usize, usize)>)
    requires
        j <= v.len(),
    ensures
        match r {
            Some((x, y)) => x <= y <= v.len() && tag_tail(v@, j as int) == Some(
                v@.subrange(x as int, y as int),
            ),
            None => tag_tail(v@, j as int) is None,
        },
{
    let a = ws_end(v, j);
    if a >= v.len() || v[a] != '@' {
        return None;
    }
    let b = tag_end(v, a + 1);
    if b <= a + 1 {
        return None;
    }
    let c = ws_end(v, b);
    if c >= v.len() || v[c] != '.' {
        return None;
    }
    let e = ws_end(v, c + 1);
    if e != v.len() {
        return None;
    }
    Some((a + 1, b))
}

/// The closing quote for an opening quote at `i`, with the bounds of the tag after it.
fn closing_quote_of(v: &Vec<char>, i: usize) -> (r: Option<(usize, usize, usize)>)
    requires
        i < v.len(),
    ensures
        match r {
            Some((q, x, y)) => closing_quote(v@, i as int, v.len() - 1) == Some(q as int) && i < q
                < v.len() && x <= y <= v.len() && tag_tail(v@, q + 1) == Some(
                v@.subrange(x as int, y as int),
            ),
            None => closing_quote(v@, i as int, v.len() - 1) is None,
        },
{
    let f = crate::text::position_from(v, '\n', i + 1);
    proof {
        crate::text::lemma_first_of_bounds(v@.skip(i + 1), '\n');
        assert forall|k: int| i + 1 <= k < f implies #[trigger] v@[k] != '\n' by {
            assert(v@[k] == v@.skip(i + 1)[k - i - 1]);
        }
        if f < v.len() {
            assert(v@[f as int] == v@.skip(i + 1)[f - i - 1]);
        }
    }
    let mut j: usize = v.len() - 1;
    while j > i
        invariant
            i < v.len(),
            i <= j < v.len(),
            i + 1 <= f <= v.len(),
            forall|k: int| i + 1 <= k < f ==> #[trigger] v@[k] != '\n',
            f < v.len() ==> v@[f as int] == '\n',
            closing_quote(v@, i as int, v.len() - 1) == closing_quote(v@, i as int, j as int),
        decreases j,
    {
        if v[j] == '"' && j <= f {
            match tag_tail_at(v, j + 1) {
                Some((x, y)) => {
                    proof {
                        assert(no_line_feed(v@, i + 1, j as int));
                    }
                    return Some((j, x, y));
                },
                None => {},
            }
        }
        proof {
            if v@[j as int] == '"' && j > f {
                assert(!no_line_feed(v@, i + 1, j as int)) by {
                    assert(v@[f as int] == '\n');
                }
            }
        }
        j = j - 1;
    }
    None
}

/// The language-tagged literal that ends a line: its text and its tag.
pub fn tagged_literal_of(v: &Vec<char>) -> (r: Option<(String, String)>)
    ensures
        match r {
            Some((text, tag)) => tagged_literal(v@) == Some((text@, tag@)),
            None => tagged_literal(v@) is None,
        },
{
    let mut i: usize = 0;
    while i < v.len()
        invariant
            i <= v.len(),
            literal_from(v@, 0) == literal_from(v@, i as int),
        decreases v.len() - i,
    {
        if v[i] == '"' {
            match closing_quote_of(v, i) {
                Some((q, x, y)) => {
                    let text = string_of(v, i + 1, q);
                    let tag = string_of(v, x, y);
                    return Some((text, tag));
                },
                None => {},
            }
        }
        i = i + 1;
    }
    None
}


/// Whether `c` is alphanumeric, as `char::is_alphanumeric` decides.
pub uninterp spec fn alnum(c: char) -> bool;

/// Relies on `char::is_alphanumeric`: whether `c` has the Unicode `Alphabetic` or
/// `Numeric` property, a function of `c` alone.
#[verifier::external_body]
fn is_alphanumeric(c: char) -> (r: bool)
    ensures
        r == alnum(c),
{
    c.is_alphanumeric()
}

/// The position of the last `@` in `s`, if any.
pub open spec fn last_at_sign(s: Seq<char>) -> Option<int>
    decreases s.len(),
{
    if s.len() == 0 {
        None
    } else if s.last() == '@' {
        Some(s.len() - 1)
    } else {
        last_at_sign(s.drop_last())
    }
}

/// The number of characters from `j` before whitespace, a dot, or the end.
pub open spec fn word_run(s: Seq<char>, j: int) -> nat
    decreases s.len() - j,
{
    if 0 <= j < s.len() && !is_ws(s[j]) && s[j] != '.' {
        1 + word_run(s, j + 1)
    } else {
        0
    }
}

/// The language tag of a line, given for each character whether it is alphanumeric: the
/// word after its last `@`, when that word is non-empty and made of alphanumeric
/// characters and hyphens.
pub open spec fn tag_given(s: Seq<char>, ok: Seq<bool>) -> Option<Seq<char>> {
    match last_at_sign(s) {
        None => None,
        Some(a) => {
            let n = word_run(s, a + 1);
            if n >= 1 && forall|k: int| a + 1 <= k < a + 1 + n ==> #[trigger] ok[k] || s[k] == '-' {
                Some(s.subrange(a + 1, a + 1 + n))
            } else {
                None
            }
        },
    }
}

/// Whether each character of `s` is alphanumeric.
pub open spec fn alnum_flags(s: Seq<char>) -> Seq<bool> {
    s.map_values(|c: char| alnum(c))
}

/// The language tag of a line: the word after its last `@`, when that word is
/// non-empty and made of alphanumeric characters and hyphens.
pub open spec fn language_tag(s: Seq<char>) -> Option<Seq<char>> {
    tag_given(s, alnum_flags(s))
}

/// The language tag of a line.
pub fn language_tag_of(v: &Vec<char>) -> (r: Option<String>)
    ensures
        match r {
            Some(t) => language_tag(v@) == Some(t@),
            None => language_tag(v@) is None,
        },
{
    let mut ok: Vec<bool> = Vec::new();
    let mut i: usize = 0;
    while i < v.len()
        invariant
            i <= v.len(),
            ok@ == alnum_flags(v@.take(i as int)),
        decreases v.len() - i,
    {
        ok.push(is_alphanumeric(v[i]));
        proof {
            assert(ok@ =~= alnum_flags(v@.take(i + 1)));
        }
        i = i + 1;
    }
    proof {
        assert(v@.take(v.len() as int) =~= v@);
    }
    language_tag_given(v, &ok)
}

/// The language tag of a line, given for each character whether it is alphanumeric.
#[verifier::loop_isolation(false)]
pub fn language_tag_given(v: &Vec<char>, ok: &Vec<bool>) -> (r: Option<String>)
    requires
        ok.len() == v.len(),
    ensures
        match r {
            Some(t) => tag_given(v@, ok@) == Some(t@),
            None => tag_given(v@, ok@) is None,
        },
{
    let mut i: usize = v.len();
    proof {
        assert(v@.take(v.len() as int) =~= v@);
    }
    while i > 0 && v[i - 1] != '@'
        invariant
            i <= v.len(),
            last_at_sign(v@) == last_at_sign(v@.take(i as int)),
        decreases i,
    {
        proof {
            assert(v@.take(i as int).drop_last() =~= v@.take(i - 1));
        }
        i = i - 1;
    }
    proof {
        assert(v@.take(v.len() as int) =~= v@);
    }
    if i == 0 {
        return None;
    }
    let a = i - 1;
    proof {
        assert(v@.take(i as int).last() == v@[a as int]);
        assert(last_at_sign(v@) == Some(a as int));
    }
    let mut m = i;
    while m < v.len() && !is_whitespace(v[m]) && v[m] != '.'
        invariant
            i <= m <= v.len(),
            word_run(v@, i as int) == (m - i) + word_run(v@, m as int),
        decreases v.len() - m,
    {
        proof {
            assert(word_run(v@, m as int) == 1 + word_run(v@, m + 1));
        }
        m = m + 1;
    }
    proof {
        assert(word_run(v@, i as int) == m - i);
    }
    if m == i {
        return None;
    }
    let mut k = i;
    while k < m
        invariant
            i <= k <= m <= v.len(),
            forall|j: int| i <= j < k ==> #[trigger] ok@[j] || v@[j] == '-',
        decreases m - k,
    {
        if !(ok[k] || v[k] == '-') {
            proof {
                assert(!(ok@[k as int] || v@[k as int] == '-'));
            }
            return None;
        }
        k = k + 1;
    }
    Some(string_of(v, i, m))
}


/// The entity a line belongs to: the id of a boundary marker, or of a fact's subject.
pub open spec fn line_id(s: Seq<char>) -> Option<Seq<char>> {
    match boundary_id(s) {
        Some(id) => Some(id),
        None => subject_id(s),
    }
}

/// The entity a line belongs to.
pub fn line_id_of(v: &Vec<char>) -> (r: Option<String>)
    ensures
        match r {
            Some(id) => line_id(v@) == Some(id@),
            None => line_id(v@) is None,
        },
{
    match boundary_id_of(v) {
        Some(id) => Some(id),
        None => subject_id_of(v),
    }
}

} // verus!
