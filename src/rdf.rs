use vstd::prelude::*;

use crate::collections::{views, IdSet, StrMap};
use crate::filter::{claim_sets, ClaimMap, EntityFilter};
use crate::lexer::{
    alias_predicate, boundary_id, boundary_id_of, description_predicate, direct_property,
    direct_property_of, dump_mark, entity_kind, entity_kind_of, label_predicate, language_tag,
    language_tag_of, object_entity, object_entity_of, subject_id, subject_id_of, tagged_literal,
    tagged_literal_of, type_mark,
};
use crate::text::{chars_of, contains, contains_chars};

verus! {

/// The two output shapes.
#[derive(Clone, Copy, PartialEq, Eq, Debug, Structural)]
pub enum OutputFormat {
    /// The retained fact lines, as they came.
    NTriples,
    /// One structured object per record.
    Json,
}

/// What a record is, as plain mathematical values.
pub struct RecordView {
    pub id: Seq<char>,
    pub metadata: Seq<Seq<char>>,
    pub triples: Seq<Seq<char>>,
    pub claims: Map<Seq<char>, Set<Seq<char>>>,
    pub entity_type: Option<Seq<char>>,
    pub labels: Map<Seq<char>, Seq<char>>,
    pub descriptions: Map<Seq<char>, Seq<char>>,
    pub aliases: Map<Seq<char>, Seq<Seq<char>>>,
}

/// The texts of a language map.
pub open spec fn text_map(m: &StrMap<String>) -> Map<Seq<char>, Seq<char>> {
    m@.map_values(|s: String| s@)
}

/// The texts of an alias map.
pub open spec fn alias_map(m: &StrMap<Vec<String>>) -> Map<Seq<char>, Seq<Seq<char>>> {
    m@.map_values(|v: Vec<String>| views(v@))
}

/// One entity: its facts as they came and what was read from them.
#[derive(Debug)]
pub struct RdfEntity {
    pub id: String,
    /// The boundary marker lines of the entity.
    pub metadata: Vec<String>,
    /// The retained fact lines of the entity.
    pub triples: Vec<String>,
    pub claims: ClaimMap,
    pub entity_type: Option<String>,
    /// Labels by language code.
    pub labels: StrMap<String>,
    /// Descriptions by language code.
    pub descriptions: StrMap<String>,
    /// Aliases by language code, several per language.
    pub aliases: StrMap<Vec<String>>,
}

impl View for RdfEntity {
    type V = RecordView;

    open spec fn view(&self) -> RecordView {
        RecordView {
            id: self.id@,
            metadata: views(self.metadata@),
            triples: views(self.triples@),
            claims: claim_sets(&self.claims),
            entity_type: match self.entity_type {
                Some(t) => Some(t@),
                None => None,
            },
            labels: text_map(&self.labels),
            descriptions: text_map(&self.descriptions),
            aliases: alias_map(&self.aliases),
        }
    }
}

/// A record with an id and nothing else.
pub open spec fn empty_record(id: Seq<char>) -> RecordView {
    RecordView {
        id,
        metadata: Seq::empty(),
        triples: Seq::empty(),
        claims: Map::empty(),
        entity_type: None,
        labels: Map::empty(),
        descriptions: Map::empty(),
        aliases: Map::empty(),
    }
}

impl RdfEntity {
    /// A record with an id and nothing else.
    pub fn new(id: String) -> (r: Self)
        ensures
            r@ == empty_record(id@),
    {
        let r = RdfEntity {
            id,
            metadata: Vec::new(),
            triples: Vec::new(),
            claims: StrMap::new(),
            entity_type: None,
            labels: StrMap::new(),
            descriptions: StrMap::new(),
            aliases: StrMap::new(),
        };
        proof {
            assert(views(r.metadata@) =~= Seq::<Seq<char>>::empty());
            assert(views(r.triples@) =~= Seq::<Seq<char>>::empty());
            assert(claim_sets(&r.claims) =~= Map::<Seq<char>, Set<Seq<char>>>::empty());
            assert(text_map(&r.labels) =~= Map::<Seq<char>, Seq<char>>::empty());
            assert(text_map(&r.descriptions) =~= Map::<Seq<char>, Seq<char>>::empty());
            assert(alias_map(&r.aliases) =~= Map::<Seq<char>, Seq<Seq<char>>>::empty());
        }
        r
    }
}

/// The language tag of a line, if it carries one.
pub fn extract_language_tag(line: &str) -> (r: Option<String>)
    ensures
        match r {
            Some(t) => language_tag(line@) == Some(t@),
            None => language_tag(line@) is None,
        },
{
    let v = chars_of(line);
    language_tag_of(&v)
}

/// The claims after a fact that refers to `q` under `p`.
pub open spec fn add_reference(
    c: Map<Seq<char>, Set<Seq<char>>>,
    p: Seq<char>,
    q: Seq<char>,
) -> Map<Seq<char>, Set<Seq<char>>> {
    c.insert(
        p,
        if c.contains_key(p) {
            c[p]
        } else {
            Set::empty()
        }.insert(q),
    )
}

/// The claims after a fact under `p` whose value is a literal.
pub open spec fn add_literal(c: Map<Seq<char>, Set<Seq<char>>>, p: Seq<char>) -> Map<
    Seq<char>,
    Set<Seq<char>>,
> {
    if c.contains_key(p) {
        c
    } else {
        c.insert(p, Set::empty())
    }
}

/// The aliases after one more alias `v` in language `t`.
pub open spec fn add_alias(
    a: Map<Seq<char>, Seq<Seq<char>>>,
    t: Seq<char>,
    v: Seq<char>,
) -> Map<Seq<char>, Seq<Seq<char>>> {
    a.insert(
        t,
        if a.contains_key(t) {
            a[t]
        } else {
            Seq::empty()
        }.push(v),
    )
}

/// What a label, description or alias fact adds to a record.
pub open spec fn absorb_text(cfg: &EntityFilter, r: RecordView, line: Seq<char>) -> RecordView {
    match tagged_literal(line) {
        Some((v, t)) => if !cfg.language_ok(t) {
            r
        } else if contains(line, label_predicate()) {
            RecordView { labels: r.labels.insert(t, v), ..r }
        } else if contains(line, description_predicate()) {
            RecordView { descriptions: r.descriptions.insert(t, v), ..r }
        } else if contains(line, alias_predicate()) {
            RecordView { aliases: add_alias(r.aliases, t, v), ..r }
        } else {
            r
        },
        None => r,
    }
}

/// What a direct-relation fact adds to the claims of a record.
pub open spec fn absorb_claim(r: RecordView, line: Seq<char>) -> RecordView {
    match direct_property(line) {
        Some(p) => match object_entity(line) {
            Some(q) => RecordView { claims: add_reference(r.claims, p, q), ..r },
            None => RecordView { claims: add_literal(r.claims, p), ..r },
        },
        None => r,
    }
}

/// What a type-assertion fact sets.
pub open spec fn absorb_type(r: RecordView, line: Seq<char>) -> RecordView {
    if contains(line, type_mark()) && entity_kind(line) is Some {
        RecordView { entity_type: entity_kind(line), ..r }
    } else {
        r
    }
}

/// Whether a fact line is kept for pass-through output: it survives the property
/// allow-list (type assertions always do) and the language allow-list.
pub open spec fn retained(cfg: &EntityFilter, line: Seq<char>) -> bool {
    let dropped_by_property = match cfg.property_filter {
        Some(props) => match direct_property(line) {
            Some(p) => !props@.contains(p) && !contains(line, type_mark()),
            None => false,
        },
        None => false,
    };
    let dropped_by_language = match cfg.language_filter {
        Some(_) => match language_tag(line) {
            Some(t) => !cfg.language_ok(t),
            None => false,
        },
        None => false,
    };
    !dropped_by_property && !dropped_by_language
}

/// A record after one more fact line.
pub open spec fn absorb_fact(cfg: &EntityFilter, r: RecordView, line: Seq<char>) -> RecordView {
    let r1 = absorb_type(absorb_claim(absorb_text(cfg, r, line), line), line);
    if retained(cfg, line) {
        RecordView { triples: r1.triples.push(line), ..r1 }
    } else {
        r1
    }
}


/// Records that the record refers to `q` under `p`.
fn add_claim_value(claims: &mut ClaimMap, p: String, q: String)
    ensures
        claim_sets(final(claims)) == add_reference(claim_sets(old(claims)), p@, q@),
{
    match claims.find(p.as_str()) {
        Some(i) => {
            let mut set = claims.replace_at(i, IdSet::new());
            set.insert(q);
            claims.replace_at(i, set);
        },
        None => {
            let mut set = IdSet::new();
            set.insert(q);
            proof {
                assert(set@ =~= Set::<Seq<char>>::empty().insert(q@));
            }
            claims.insert(p, set);
        },
    }
    proof {
        assert(claim_sets(claims) =~= add_reference(claim_sets(old(claims)), p@, q@));
    }
}

/// Records that the record has a literal-valued claim under `p`.
fn add_claim_key(claims: &mut ClaimMap, p: String)
    ensures
        claim_sets(final(claims)) == add_literal(claim_sets(old(claims)), p@),
{
    if !claims.contains_key(p.as_str()) {
        let set = IdSet::new();
        proof {
            assert(set@ =~= Set::<Seq<char>>::empty());
        }
        claims.insert(p, set);
        proof {
            assert(claim_sets(claims) =~= add_literal(claim_sets(old(claims)), p@));
        }
    }
}

/// Adds the alias `v` in language `t`.
fn push_alias(aliases: &mut StrMap<Vec<String>>, t: String, v: String)
    ensures
        alias_map(final(aliases)) == add_alias(alias_map(old(aliases)), t@, v@),
{
    match aliases.find(t.as_str()) {
        Some(i) => {
            let mut list = aliases.replace_at(i, Vec::new());
            let ghost before = list@;
            list.push(v);
            proof {
                assert(views(list@) =~= views(before).push(v@));
            }
            aliases.replace_at(i, list);
        },
        None => {
            let mut list: Vec<String> = Vec::new();
            list.push(v);
            proof {
                assert(views(list@) =~= Seq::<Seq<char>>::empty().push(v@));
            }
            aliases.insert(t, list);
        },
    }
    proof {
        assert(alias_map(aliases) =~= add_alias(alias_map(old(aliases)), t@, v@));
    }
}

/// Whether a fact line is kept for pass-through output.
fn is_retained(cfg: &EntityFilter, v: &Vec<char>, is_type: bool) -> (r: bool)
    requires
        is_type == contains(v@, type_mark()),
    ensures
        r == retained(cfg, v@),
{
    if let Some(props) = &cfg.property_filter {
        if let Some(p) = direct_property_of(v) {
            if !props.contains(p.as_str()) && !is_type {
                return false;
            }
        }
    }
    if cfg.language_filter.is_some() {
        if let Some(t) = language_tag_of(v) {
            if !cfg.matches_language(t.as_str()) {
                return false;
            }
        }
    }
    true
}

/// Adds one fact line, whose characters are `v`, to the open record.
fn absorb_fact_line(cfg: &EntityFilter, rec: &mut RdfEntity, v: &Vec<char>, line: String)
    requires
        v@ == line@,
    ensures
        final(rec)@ == absorb_fact(cfg, old(rec)@, line@),
{
    let ghost r0 = rec@;
    if let Some((text, tag)) = tagged_literal_of(v) {
        if cfg.matches_language(tag.as_str()) {
            let label = chars_of("<http://www.w3.org/2000/01/rdf-schema#label>");
            let description = chars_of("<http://schema.org/description>");
            let alias = chars_of("<http://www.w3.org/2004/02/skos/core#altLabel>");
            if contains_chars(v, &label) {
                rec.labels.insert(tag, text);
            } else if contains_chars(v, &description) {
                rec.descriptions.insert(tag, text);
            } else if contains_chars(v, &alias) {
                push_alias(&mut rec.aliases, tag, text);
            }
        }
    }
    proof {
        let t = absorb_text(cfg, r0, line@);
        assert(rec@.id =~= t.id);
        assert(rec@.metadata =~= t.metadata);
        assert(rec@.triples =~= t.triples);
        assert(rec@.claims =~= t.claims);
        assert(rec@.entity_type =~= t.entity_type);
        assert(rec@.labels =~= t.labels);
        assert(rec@.descriptions =~= t.descriptions);
        assert(rec@.aliases =~= t.aliases);
        assert(rec@ == t);
    }
    let ghost r1 = rec@;
    if let Some(p) = direct_property_of(v) {
        match object_entity_of(v) {
            Some(q) => add_claim_value(&mut rec.claims, p, q),
            None => add_claim_key(&mut rec.claims, p),
        }
    }
    proof {
        let c = absorb_claim(r1, line@);
        assert(rec@.id =~= c.id);
        assert(rec@.metadata =~= c.metadata);
        assert(rec@.triples =~= c.triples);
        assert(rec@.claims =~= c.claims);
        assert(rec@.entity_type =~= c.entity_type);
        assert(rec@.labels =~= c.labels);
        assert(rec@.descriptions =~= c.descriptions);
        assert(rec@.aliases =~= c.aliases);
        assert(rec@ == c);
    }
    let ghost r2 = rec@;
    let type_mark_chars = chars_of("rdf-syntax-ns#type");
    let is_type = contains_chars(v, &type_mark_chars);
    if is_type {
        if let Some(k) = entity_kind_of(v) {
            rec.entity_type = Some(k);
        }
    }
    proof {
        let y = absorb_type(r2, line@);
        assert(rec@.id =~= y.id);
        assert(rec@.metadata =~= y.metadata);
        assert(rec@.triples =~= y.triples);
        assert(rec@.claims =~= y.claims);
        assert(rec@.entity_type =~= y.entity_type);
        assert(rec@.labels =~= y.labels);
        assert(rec@.descriptions =~= y.descriptions);
        assert(rec@.aliases =~= y.aliases);
        assert(rec@ == y);
    }
    let ghost r3 = rec@;
    if is_retained(cfg, v, is_type) {
        rec.triples.push(line);
        proof {
            assert(views(rec.triples@) =~= r3.triples.push(line@));
            assert(rec@ =~= RecordView { triples: r3.triples.push(line@), ..r3 });
        }
    }
}


/// The view of an optional record.
pub open spec fn opt_view(o: Option<RdfEntity>) -> Option<RecordView> {
    match o {
        Some(r) => Some(r@),
        None => None,
    }
}

/// The state of the assembler: the open record, and the header lines seen so far.
pub struct AssemblerView {
    pub open: Option<RecordView>,
    pub header: Seq<Seq<char>>,
}

/// The record that a line of entity `id` goes to, and the record it seals, if any.
pub open spec fn reopen(open: Option<RecordView>, id: Seq<char>) -> (RecordView, Option<RecordView>) {
    match open {
        Some(r) => if r.id == id {
            (r, None)
        } else {
            (empty_record(id), Some(r))
        },
        None => (empty_record(id), None),
    }
}

/// What one input line does to the assembler, and the record it seals, if any.
pub open spec fn step(cfg: &EntityFilter, st: AssemblerView, line: Seq<char>) -> (
    AssemblerView,
    Option<RecordView>,
) {
    if line.len() == 0 || line[0] == '#' {
        (st, None)
    } else if contains(line, dump_mark()) {
        (AssemblerView { header: st.header.push(line), ..st }, None)
    } else {
        match boundary_id(line) {
            Some(id) => {
                let (r, sealed) = reopen(st.open, id);
                (
                    AssemblerView {
                        open: Some(RecordView { metadata: r.metadata.push(line), ..r }),
                        ..st
                    },
                    sealed,
                )
            },
            None => match subject_id(line) {
                Some(id) => {
                    let (r, sealed) = reopen(st.open, id);
                    (AssemblerView { open: Some(absorb_fact(cfg, r, line)), ..st }, sealed)
                },
                None => (st, None),
            },
        }
    }
}

/// Rebuilds entity records from an ordered stream of N-Triples lines.
///
/// It holds one open record; a line of another entity seals it.
pub struct EntityAssembler {
    current: Option<RdfEntity>,
    header_lines: Vec<String>,
}

impl View for EntityAssembler {
    type V = AssemblerView;

    open spec fn view(&self) -> AssemblerView {
        AssemblerView { open: opt_view(self.current()), header: views(self.header()) }
    }
}

impl EntityAssembler {
    /// The open record.
    pub closed spec fn current(&self) -> Option<RdfEntity> {
        self.current
    }

    /// The header lines seen so far.
    pub closed spec fn header(&self) -> Seq<String> {
        self.header_lines@
    }

    /// An assembler with no open record.
    pub fn new() -> (r: Self)
        ensures
            r@.open is None,
            r@.header == Seq::<Seq<char>>::empty(),
    {
        let r = EntityAssembler { current: None, header_lines: Vec::new() };
        proof {
            assert(views(r.header_lines@) =~= Seq::<Seq<char>>::empty());
        }
        r
    }

    /// The header lines seen so far.
    pub fn header_lines(&self) -> (r: &Vec<String>)
        ensures
            views(r@) == self@.header,
    {
        &self.header_lines
    }

    /// Makes the open record the one of entity `id`; hands back the record this seals.
    fn reopen(&mut self, id: String) -> (sealed: Option<RdfEntity>)
        ensures
            final(self)@.open == Some(reopen(old(self)@.open, id@).0),
            opt_view(sealed) == reopen(old(self)@.open, id@).1,
            final(self)@.header == old(self)@.header,
    {
        let same = match &self.current {
            Some(r) => r.id == id,
            None => false,
        };
        if same {
            None
        } else {
            let mut prev = Some(RdfEntity::new(id));
            std::mem::swap(&mut prev, &mut self.current);
            prev
        }
    }

    /// Takes one input line; hands back the record that it seals, if any.
    pub fn push_line(&mut self, cfg: &EntityFilter, line: String) -> (r: Option<RdfEntity>)
        ensures
            (final(self)@, opt_view(r)) == step(cfg, old(self)@, line@),
    {
        let v = chars_of(line.as_str());
        if v.len() == 0 || v[0] == '#' {
            return None;
        }
        let dump = chars_of("wikiba.se/ontology#Dump");
        if contains_chars(&v, &dump) {
            self.header_lines.push(line);
            proof {
                assert(views(self.header_lines@) =~= old(self)@.header.push(line@));
            }
            return None;
        }
        match boundary_id_of(&v) {
            Some(id) => {
                let sealed = self.reopen(id);
                match &mut self.current {
                    Some(r) => {
                        let ghost before = r.metadata@;
                        r.metadata.push(line);
                        proof {
                            assert(views(r.metadata@) =~= views(before).push(line@));
                        }
                    },
                    None => {},
                }
                sealed
            },
            None => match subject_id_of(&v) {
                Some(id) => {
                    let sealed = self.reopen(id);
                    match &mut self.current {
                        Some(r) => absorb_fact_line(cfg, r, &v, line),
                        None => {},
                    }
                    sealed
                },
                None => None,
            },
        }
    }

    /// Seals the open record at the end of the input and hands it back.
    pub fn finish(&mut self) -> (r: Option<RdfEntity>)
        ensures
            opt_view(r) == old(self)@.open,
            final(self)@.open is None,
            final(self)@.header == old(self)@.header,
    {
        let mut prev: Option<RdfEntity> = None;
        std::mem::swap(&mut prev, &mut self.current);
        prev
    }
}


/// The assembler state before any input.
pub open spec fn initial() -> AssemblerView {
    AssemblerView { open: None, header: Seq::empty() }
}

/// The state after `lines`, and the records sealed on the way, in order.
pub open spec fn run(cfg: &EntityFilter, st: AssemblerView, lines: Seq<Seq<char>>) -> (
    AssemblerView,
    Seq<RecordView>,
)
    decreases lines.len(),
{
    if lines.len() == 0 {
        (st, Seq::empty())
    } else {
        let (s1, out) = run(cfg, st, lines.drop_last());
        let (s2, sealed) = step(cfg, s1, lines.last());
        (
            s2,
            match sealed {
                Some(r) => out.push(r),
                None => out,
            },
        )
    }
}

/// All records of a whole input: those sealed on the way, then the one the end seals.
pub open spec fn assemble(cfg: &EntityFilter, lines: Seq<Seq<char>>) -> Seq<RecordView> {
    let (st, out) = run(cfg, initial(), lines);
    match st.open {
        Some(r) => out.push(r),
        None => out,
    }
}

/// Whether `l` is an input line that is neither blank, a comment nor a header line.
pub open spec fn is_content(l: Seq<char>) -> bool {
    l.len() > 0 && l[0] != '#' && !contains(l, dump_mark())
}

/// Whether `lines` is the boundary marker of entity `id` followed by facts about it.
pub open spec fn is_group(lines: Seq<Seq<char>>, id: Seq<char>) -> bool {
    &&& lines.len() >= 1
    &&& is_content(lines[0]) && boundary_id(lines[0]) == Some(id)
    &&& forall|i: int|
        1 <= i < lines.len() ==> is_content(#[trigger] lines[i]) && boundary_id(lines[i]) is None
            && subject_id(lines[i]) == Some(id)
}

proof fn lemma_group_prefix(cfg: &EntityFilter, st: AssemblerView, la: Seq<Seq<char>>, a: Seq<char>, k: int)
    requires
        is_group(la, a),
        1 <= k <= la.len(),
        cfg.property_filter is None,
        cfg.language_filter is None,
        match st.open {
            Some(r) => r.id != a,
            None => true,
        },
    ensures
        ({
            let (s, out) = run(cfg, st, la.take(k));
            &&& s.header == st.header
            &&& out == match st.open {
                Some(r) => seq![r],
                None => Seq::<RecordView>::empty(),
            }
            &&& s.open is Some
            &&& s.open->0.id == a
            &&& s.open->0.metadata == seq![la[0]]
            &&& s.open->0.triples == la.subrange(1, k)
        }),
    decreases k,
{
    if k == 1 {
        assert(la.take(1).drop_last() =~= Seq::<Seq<char>>::empty());
        assert(la.take(1).last() == la[0]);
        assert(run(cfg, st, la.take(1).drop_last()) == (st, Seq::<RecordView>::empty()));
        assert(reopen(st.open, a).0 == empty_record(a));
        assert(step(cfg, st, la[0]).0.open->0.triples == Seq::<Seq<char>>::empty());
        assert(Seq::<Seq<char>>::empty().push(la[0]) =~= seq![la[0]]);
        assert(la.subrange(1, 1) =~= Seq::<Seq<char>>::empty());
        assert(Seq::<RecordView>::empty().push(st.open->0) =~= seq![st.open->0]);
    } else {
        lemma_group_prefix(cfg, st, la, a, k - 1);
        assert(la.take(k).drop_last() =~= la.take(k - 1));
        assert(la.take(k).last() == la[k - 1]);
        let l = la[k - 1];
        assert(is_content(l) && boundary_id(l) is None && subject_id(l) == Some(a));
        assert(retained(cfg, l));
        assert(la.subrange(1, k - 1).push(l) =~= la.subrange(1, k));
        let prev = run(cfg, st, la.take(k - 1)).0;
        let r = prev.open->0;
        assert(reopen(prev.open, a) == (r, None::<RecordView>));
        let t1 = absorb_text(cfg, r, l);
        assert(t1.triples == r.triples && t1.metadata == r.metadata && t1.id == r.id);
        let t2 = absorb_claim(t1, l);
        assert(t2.triples == r.triples && t2.metadata == r.metadata && t2.id == r.id);
        let t3 = absorb_type(t2, l);
        assert(t3.triples == r.triples && t3.metadata == r.metadata && t3.id == r.id);
        assert(absorb_fact(cfg, r, l).triples == r.triples.push(l));
        assert(step(cfg, prev, l).0.open == Some(absorb_fact(cfg, r, l)));
    }
}

/// Two consecutive groups of lines, each a boundary marker followed by facts about its
/// entity, assemble into exactly two records, each holding exactly its own lines in
/// the order in which they came.
pub proof fn lemma_two_groups(
    cfg: &EntityFilter,
    a: Seq<char>,
    b: Seq<char>,
    la: Seq<Seq<char>>,
    lb: Seq<Seq<char>>,
)
    requires
        a != b,
        is_group(la, a),
        is_group(lb, b),
        cfg.property_filter is None,
        cfg.language_filter is None,
    ensures
        assemble(cfg, la + lb).len() == 2,
        assemble(cfg, la + lb)[0].id == a,
        assemble(cfg, la + lb)[0].metadata == seq![la[0]],
        assemble(cfg, la + lb)[0].triples == la.drop_first(),
        assemble(cfg, la + lb)[1].id == b,
        assemble(cfg, la + lb)[1].metadata == seq![lb[0]],
        assemble(cfg, la + lb)[1].triples == lb.drop_first(),
{
    lemma_group_prefix(cfg, initial(), la, a, la.len() as int);
    assert(la.take(la.len() as int) =~= la);
    let st1 = run(cfg, initial(), la).0;
    lemma_group_prefix(cfg, st1, lb, b, lb.len() as int);
    assert(lb.take(lb.len() as int) =~= lb);
    lemma_run_append(cfg, initial(), la, lb);
    assert(la.subrange(1, la.len() as int) =~= la.drop_first());
    assert(lb.subrange(1, lb.len() as int) =~= lb.drop_first());
}

/// Running over two inputs one after the other is running over their concatenation.
pub proof fn lemma_run_append(
    cfg: &EntityFilter,
    st: AssemblerView,
    x: Seq<Seq<char>>,
    y: Seq<Seq<char>>,
)
    ensures
        run(cfg, st, x + y).0 == run(cfg, run(cfg, st, x).0, y).0,
        run(cfg, st, x + y).1 == run(cfg, st, x).1 + run(cfg, run(cfg, st, x).0, y).1,
    decreases y.len(),
{
    if y.len() == 0 {
        assert(x + y =~= x);
        assert(run(cfg, st, x).1 + Seq::<RecordView>::empty() =~= run(cfg, st, x).1);
    } else {
        lemma_run_append(cfg, st, x, y.drop_last());
        assert((x + y).drop_last() =~= x + y.drop_last());
        assert((x + y).last() == y.last());
        let mid = run(cfg, st, x);
        let r1 = run(cfg, mid.0, y.drop_last());
        let (s2, sealed) = step(cfg, r1.0, y.last());
        match sealed {
            Some(r) => {
                assert(mid.1 + r1.1.push(r) =~= (mid.1 + r1.1).push(r));
            },
            None => {},
        }
    }
}

} // verus!
