use vstd::prelude::*;

use crate::collections::views;
use crate::filter::EntityFilter;
use crate::lexer::{boundary_id, boundary_id_of, line_id, line_id_of};
use crate::rdf::{step, AssemblerView, EntityAssembler, RdfEntity, RecordView};
use crate::text::chars_of;

verus! {

/// What becomes of one input line before assembly.
#[derive(Clone, Copy, PartialEq, Eq, Debug, Structural)]
pub enum LineVerdict {
    /// The line is discarded.
    Skip,
    /// The line goes to the assembler.
    Process,
    /// The line limit is reached: the input ends here.
    Stop,
}

/// The state of the skip/resume and line-limit rules.
pub struct WindowView {
    /// Lines still to discard at the start.
    pub skip_left: int,
    /// Whether lines are discarded until a boundary marker opens a new entity.
    pub waiting: bool,
    /// The entity of the last discarded line that belongs to one.
    pub last_id: Option<Seq<char>>,
    /// Whether a line limit applies.
    pub limited: bool,
    /// Lines that may still go to the assembler under the limit.
    pub max_left: int,
}

/// The window before any input, for `skip` lines to discard and at most `max` lines to
/// assemble (zero: no limit).
pub open spec fn window_start(skip: u64, max: u64) -> WindowView {
    WindowView {
        skip_left: skip as int,
        waiting: skip > 0,
        last_id: None,
        limited: max > 0,
        max_left: max as int,
    }
}

/// The entity of the last discarded line after discarding `line`.
pub open spec fn remembered(last: Option<Seq<char>>, line: Seq<char>) -> Option<Seq<char>> {
    match line_id(line) {
        Some(id) => Some(id),
        None => last,
    }
}

/// Whether `line` is a boundary marker of an entity other than `last`.
pub open spec fn opens_new(last: Option<Seq<char>>, line: Seq<char>) -> bool {
    boundary_id(line) is Some && boundary_id(line) != last
}

/// What one line does to the window, and what becomes of the line: after the skipped
/// lines, lines are discarded until a boundary marker of a new entity.
pub open spec fn window_step(g: WindowView, line: Seq<char>) -> (WindowView, LineVerdict) {
    if g.skip_left > 0 {
        (
            WindowView { skip_left: g.skip_left - 1, last_id: remembered(g.last_id, line), ..g },
            LineVerdict::Skip,
        )
    } else if g.waiting && !opens_new(g.last_id, line) {
        (WindowView { last_id: remembered(g.last_id, line), ..g }, LineVerdict::Skip)
    } else if g.limited && g.max_left <= 0 {
        (WindowView { waiting: false, ..g }, LineVerdict::Stop)
    } else {
        (
            WindowView {
                waiting: false,
                max_left: if g.limited {
                    g.max_left - 1
                } else {
                    g.max_left
                },
                ..g
            },
            LineVerdict::Process,
        )
    }
}

/// The skip/resume and line-limit rules.
pub struct LineWindow {
    skip_left: u64,
    waiting: bool,
    last_id: Option<String>,
    limited: bool,
    max_left: u64,
}

impl View for LineWindow {
    type V = WindowView;

    closed spec fn view(&self) -> WindowView {
        WindowView {
            skip_left: self.skip_left as int,
            waiting: self.waiting,
            last_id: match self.last_id {
                Some(id) => Some(id@),
                None => None,
            },
            limited: self.limited,
            max_left: self.max_left as int,
        }
    }
}

impl LineWindow {
    /// A window that discards `skip_lines` lines, then waits for a boundary marker, then lets
    /// at most `max_lines` lines through (zero: no limit).
    pub fn new(skip_lines: u64, max_lines: u64) -> (r: Self)
        ensures
            r@ == window_start(skip_lines, max_lines),
    {
        LineWindow {
            skip_left: skip_lines,
            waiting: skip_lines > 0,
            last_id: None,
            limited: max_lines > 0,
            max_left: max_lines,
        }
    }

    /// A window that discards `skip_lines` lines and then lets at most `max_lines` lines
    /// through (zero: no limit), for input where every line is a whole record.
    pub fn without_boundary(skip_lines: u64, max_lines: u64) -> (r: Self)
        ensures
            r@ == (WindowView { waiting: false, ..window_start(skip_lines, max_lines) }),
    {
        LineWindow {
            skip_left: skip_lines,
            waiting: false,
            last_id: None,
            limited: max_lines > 0,
            max_left: max_lines,
        }
    }

    /// Notes the entity of a discarded line.
    fn remember(&mut self, v: &Vec<char>)
        ensures
            final(self)@ == (WindowView { last_id: remembered(old(self)@.last_id, v@), ..old(self)@ }),
    {
        match line_id_of(v) {
            Some(id) => self.last_id = Some(id),
            None => {},
        }
    }

    /// Decides what becomes of one line, whose characters are `v`.
    pub fn classify(&mut self, v: &Vec<char>) -> (r: LineVerdict)
        ensures
            (final(self)@, r) == window_step(old(self)@, v@),
    {
        if self.skip_left > 0 {
            self.skip_left = self.skip_left - 1;
            self.remember(v);
            return LineVerdict::Skip;
        }
        if self.waiting {
            let opens = match boundary_id_of(v) {
                Some(id) => match &self.last_id {
                    Some(last) => !(id == *last),
                    None => true,
                },
                None => false,
            };
            if !opens {
                self.remember(v);
                return LineVerdict::Skip;
            }
        }
        self.waiting = false;
        if self.limited {
            if self.max_left == 0 {
                return LineVerdict::Stop;
            }
            self.max_left = self.max_left - 1;
        }
        LineVerdict::Process
    }
}

/// The entity of the last line before position `k` that belongs to one.
pub open spec fn last_id_before(lines: Seq<Seq<char>>, k: int) -> Option<Seq<char>>
    decreases k,
{
    if k <= 0 {
        None
    } else {
        remembered(last_id_before(lines, k - 1), lines[k - 1])
    }
}

/// Whether the line at `k` starts the run of an entity: it is a boundary marker of an
/// entity other than that of the last line before it that belongs to one.
pub open spec fn starts_run(lines: Seq<Seq<char>>, k: int) -> bool {
    opens_new(last_id_before(lines, k), lines[k])
}

/// The position of the first line of `lines` at or after `i` that starts a run, or the
/// length.
pub open spec fn next_boundary(lines: Seq<Seq<char>>, i: int) -> int
    decreases lines.len() - i,
{
    if i >= lines.len() {
        lines.len() as int
    } else if starts_run(lines, i) {
        i
    } else {
        next_boundary(lines, i + 1)
    }
}

/// Where assembly starts: at the first line when nothing is skipped, else at the first
/// line after the skipped ones that starts the run of an entity.
pub open spec fn resume_point(lines: Seq<Seq<char>>, skip: u64) -> int {
    if skip == 0 {
        0
    } else {
        next_boundary(lines, skip as int)
    }
}

/// The lines of an input that reach the assembler: from the resume point on, at most
/// `max` of them (zero: no limit).
pub open spec fn admitted(lines: Seq<Seq<char>>, skip: u64, max: u64) -> Seq<Seq<char>> {
    let j = resume_point(lines, skip);
    if max > 0 && lines.len() - j > max {
        lines.subrange(j, j + max)
    } else {
        lines.subrange(j, lines.len() as int)
    }
}

/// The window after `lines`, the lines it let through, and whether it has stopped.
pub open spec fn window_run(w: WindowView, lines: Seq<Seq<char>>) -> (WindowView, Seq<Seq<char>>, bool)
    decreases lines.len(),
{
    if lines.len() == 0 {
        (w, Seq::empty(), false)
    } else {
        let (w1, out, stopped) = window_run(w, lines.drop_last());
        if stopped {
            (w1, out, true)
        } else {
            let (w2, verdict) = window_step(w1, lines.last());
            match verdict {
                LineVerdict::Skip => (w2, out, false),
                LineVerdict::Stop => (w2, out, true),
                LineVerdict::Process => (w2, out.push(lines.last()), false),
            }
        }
    }
}

proof fn lemma_next_boundary(lines: Seq<Seq<char>>, i: int)
    requires
        0 <= i,
    ensures
        i <= next_boundary(lines, i) || (i > lines.len() && next_boundary(lines, i) == lines.len()),
        next_boundary(lines, i) <= lines.len(),
        next_boundary(lines, i) < lines.len() ==> starts_run(lines, next_boundary(lines, i)),
        forall|k: int| i <= k < next_boundary(lines, i) ==> !starts_run(lines, k),
    decreases lines.len() - i,
{
    if i < lines.len() && !starts_run(lines, i) {
        lemma_next_boundary(lines, i + 1);
    }
}

/// What the window has done after the first `n` lines.
spec fn window_after(lines: Seq<Seq<char>>, skip: u64, max: u64, n: int) -> bool {
    let (w, out, stopped) = window_run(window_start(skip, max), lines.take(n));
    let j = resume_point(lines, skip);
    if n <= skip {
        w.skip_left == skip - n && w.waiting == (skip > 0) && w.limited == (max > 0) && w.max_left
            == max && out.len() == 0 && !stopped && w.last_id == last_id_before(lines, n)
    } else if n <= j {
        w.skip_left == 0 && w.waiting && w.limited == (max > 0) && w.max_left == max && out.len()
            == 0 && !stopped && w.last_id == last_id_before(lines, n)
    } else if max > 0 {
        w.skip_left == 0 && !w.waiting && w.limited && (if n - j <= max {
            out == lines.subrange(j, n) && w.max_left == max - (n - j) && !stopped
        } else {
            out == lines.subrange(j, j + max) && stopped
        })
    } else {
        w.skip_left == 0 && !w.waiting && !w.limited && out == lines.subrange(j, n) && !stopped
    }
}

proof fn lemma_window_after(lines: Seq<Seq<char>>, skip: u64, max: u64, n: int)
    requires
        0 <= n <= lines.len(),
    ensures
        window_after(lines, skip, max, n),
    decreases n,
{
    lemma_next_boundary(lines, skip as int);
    let j = resume_point(lines, skip);
    if n == 0 {
        assert(lines.take(0) =~= Seq::<Seq<char>>::empty());
    } else {
        lemma_window_after(lines, skip, max, n - 1);
        let p = lines.take(n);
        assert(p.drop_last() =~= lines.take(n - 1));
        assert(p.last() == lines[n - 1]);
        let l = lines[n - 1];
        let (w1, out, stopped) = window_run(window_start(skip, max), lines.take(n - 1));
        assert(last_id_before(lines, n) == remembered(last_id_before(lines, n - 1), l));
        if skip > 0 && skip <= n - 1 && n - 1 < j {
            assert(!starts_run(lines, n - 1));
        }
        if skip > 0 && n - 1 == j && skip <= j {
            assert(starts_run(lines, j));
        }
        if n - 1 > j && n - 1 > skip {
            if max > 0 && n - 1 - j <= max {
                assert(out.push(l) =~= lines.subrange(j, n));
            } else if max == 0 {
                assert(out.push(l) =~= lines.subrange(j, n));
            }
        } else if n - 1 == j && n - 1 >= skip {
            assert(Seq::<Seq<char>>::empty().push(l) =~= lines.subrange(j, n));
            assert(out =~= Seq::<Seq<char>>::empty());
        }
    }
}

/// The window lets through exactly the admitted lines of its input: after the skipped
/// lines it waits for a boundary marker and then hands on at most the limit of lines.
pub proof fn lemma_window_admits(lines: Seq<Seq<char>>, skip: u64, max: u64)
    ensures
        window_run(window_start(skip, max), lines).1 == admitted(lines, skip, max),
{
    lemma_window_after(lines, skip, max, lines.len() as int);
    lemma_next_boundary(lines, skip as int);
    assert(lines.take(lines.len() as int) =~= lines);
    let j = resume_point(lines, skip);
    if lines.len() as int <= skip as int || lines.len() <= j {
        assert(lines.subrange(j, lines.len() as int) =~= Seq::<Seq<char>>::empty());
    }
}

/// With lines skipped, the first line that reaches the assembler is the first line at or
/// after the skip count that starts the run of an entity: a boundary marker whose entity
/// differs from that of the last line before it that belongs to one. The lines from it on
/// follow without a gap, so no record is begun in the middle of its run.
pub proof fn lemma_resume_at_boundary(lines: Seq<Seq<char>>, skip: u64, max: u64)
    requires
        skip > 0,
    ensures
        ({
            let out = window_run(window_start(skip, max), lines).1;
            out.len() > 0 ==> {
                let j = next_boundary(lines, skip as int);
                &&& skip <= j < lines.len()
                &&& boundary_id(lines[j]) is Some
                &&& boundary_id(lines[j]) != last_id_before(lines, j)
                &&& forall|k: int| skip <= k < j ==> !starts_run(lines, k)
                &&& out == lines.subrange(j, j + out.len())
            }
        }),
{
    lemma_window_admits(lines, skip, max);
    lemma_next_boundary(lines, skip as int);
}

/// The records of `recs` whose flag is set, in their order.
pub open spec fn chosen(recs: Seq<RecordView>, flags: Seq<bool>) -> Seq<RecordView>
    decreases recs.len(),
{
    if recs.len() == 0 || flags.len() == 0 {
        Seq::empty()
    } else if flags.last() {
        chosen(recs.drop_last(), flags.drop_last()).push(recs.last())
    } else {
        chosen(recs.drop_last(), flags.drop_last())
    }
}

/// The views of a sequence of records.
pub open spec fn record_views(v: Seq<RdfEntity>) -> Seq<RecordView> {
    v.map_values(|r: RdfEntity| r@)
}

/// Whether the configuration selects the record.
pub open spec fn selected(cfg: &EntityFilter, r: RecordView) -> bool {
    cfg.selects(r.id, r.claims, r.entity_type)
}

/// The verdict of the configuration on each record.
pub open spec fn verdicts(cfg: &EntityFilter, recs: Seq<RecordView>) -> Seq<bool> {
    recs.map_values(|r: RecordView| selected(cfg, r))
}

/// Keeps the records whose verdict is `true`, in their order.
pub fn select(batch: Vec<RdfEntity>, flags: &Vec<bool>) -> (r: Vec<RdfEntity>)
    requires
        flags.len() == batch.len(),
    ensures
        record_views(r@) == chosen(record_views(batch@), flags@),
{
    let ghost orig = batch@;
    let n = batch.len();
    let mut batch = batch;
    let mut out: Vec<RdfEntity> = Vec::new();
    let mut i: usize = 0;
    proof {
        assert(orig.skip(0) =~= orig);
        assert(record_views(orig.take(0)) =~= Seq::<RecordView>::empty());
    }
    while i < n
        invariant
            i <= n == flags.len() == orig.len(),
            batch@ == orig.skip(i as int),
            record_views(out@) == chosen(record_views(orig.take(i as int)), flags@.take(i as int)),
        decreases n - i,
    {
        let r = batch.remove(0);
        proof {
            assert(r == orig[i as int]);
            assert(batch@ =~= orig.skip(i + 1));
            let a = record_views(orig.take(i + 1));
            let f = flags@.take(i + 1);
            assert(a.drop_last() =~= record_views(orig.take(i as int)));
            assert(f.drop_last() =~= flags@.take(i as int));
            assert(a.last() == r@);
            assert(f.last() == flags@[i as int]);
        }
        if flags[i] {
            let ghost before = out@;
            out.push(r);
            proof {
                assert(record_views(out@) =~= record_views(before).push(r@));
            }
        }
        i = i + 1;
    }
    proof {
        assert(orig.take(n as int) =~= orig);
        assert(flags@.take(n as int) =~= flags@);
    }
    out
}


/// The verdict of the configuration on each record of the batch, one after the other.
pub fn batch_verdicts(cfg: &EntityFilter, batch: &Vec<RdfEntity>) -> (r: Vec<bool>)
    ensures
        r@ == verdicts(cfg, record_views(batch@)),
{
    let mut out: Vec<bool> = Vec::new();
    let mut i: usize = 0;
    while i < batch.len()
        invariant
            i <= batch.len(),
            out@ == verdicts(cfg, record_views(batch@.take(i as int))),
        decreases batch.len() - i,
    {
        let e = &batch[i];
        let t = match &e.entity_type {
            Some(t) => Some(t.as_str()),
            None => None,
        };
        let ok = cfg.matches(e.id.as_str(), &e.claims, t);
        let ghost before = out@;
        out.push(ok);
        proof {
            assert(record_views(batch@.take(i + 1)) =~= record_views(batch@.take(i as int)).push(
                batch@[i as int]@,
            ));
            assert(out@ =~= verdicts(cfg, record_views(batch@.take(i + 1))));
        }
        i = i + 1;
    }
    proof {
        assert(batch@.take(batch.len() as int) =~= batch@);
    }
    out
}

proof fn lemma_chosen_append(x: Seq<RecordView>, fx: Seq<bool>, y: Seq<RecordView>, fy: Seq<bool>)
    requires
        x.len() == fx.len(),
        y.len() == fy.len(),
    ensures
        chosen(x + y, fx + fy) == chosen(x, fx) + chosen(y, fy),
    decreases y.len(),
{
    if y.len() == 0 {
        assert(x + y =~= x);
        assert(fx + fy =~= fx);
        assert(chosen(x, fx) + chosen(y, fy) =~= chosen(x, fx));
    } else {
        lemma_chosen_append(x, fx, y.drop_last(), fy.drop_last());
        assert((x + y).drop_last() =~= x + y.drop_last());
        assert((fx + fy).drop_last() =~= fx + fy.drop_last());
        if fy.last() {
            assert((chosen(x, fx) + chosen(y.drop_last(), fy.drop_last())).push(y.last()) =~= chosen(
                x,
                fx,
            ) + chosen(y.drop_last(), fy.drop_last()).push(y.last()));
        }
    }
}

/// Splitting a batch in two parts, filtering each on its own and joining the results in
/// order gives what filtering the whole batch gives.
pub proof fn lemma_split_batch(cfg: &EntityFilter, x: Seq<RecordView>, y: Seq<RecordView>)
    ensures
        verdicts(cfg, x + y) == verdicts(cfg, x) + verdicts(cfg, y),
        chosen(x + y, verdicts(cfg, x + y)) == chosen(x, verdicts(cfg, x)) + chosen(
            y,
            verdicts(cfg, y),
        ),
{
    assert(verdicts(cfg, x + y) =~= verdicts(cfg, x) + verdicts(cfg, y));
    lemma_chosen_append(x, verdicts(cfg, x), y, verdicts(cfg, y));
}

/// However a batch is cut into consecutive parts for the workers, filtering each part on
/// its own and joining the results in order gives what filtering the whole batch on one
/// worker gives.
pub proof fn lemma_workers_agree(cfg: &EntityFilter, parts: Seq<Seq<RecordView>>)
    ensures
        chosen(parts.flatten(), verdicts(cfg, parts.flatten())) == parts.map_values(
            |p: Seq<RecordView>| chosen(p, verdicts(cfg, p)),
        ).flatten(),
    decreases parts.len(),
{
    if parts.len() == 0 {
        assert(parts.flatten() =~= Seq::<RecordView>::empty());
        assert(chosen(parts.flatten(), verdicts(cfg, parts.flatten())) =~= Seq::<RecordView>::empty());
        assert(parts.map_values(|p: Seq<RecordView>| chosen(p, verdicts(cfg, p))).flatten() =~= Seq::<
            RecordView,
        >::empty());
    } else {
        lemma_workers_agree(cfg, parts.drop_first());
        lemma_split_batch(cfg, parts[0], parts.drop_first().flatten());
        assert(parts.flatten() == parts[0] + parts.drop_first().flatten());
        let m = parts.map_values(|p: Seq<RecordView>| chosen(p, verdicts(cfg, p)));
        assert(m.drop_first() =~= parts.drop_first().map_values(
            |p: Seq<RecordView>| chosen(p, verdicts(cfg, p)),
        ));
        assert(m.flatten() == m[0] + m.drop_first().flatten());
    }
}

/// The lines, each followed by a line feed.
pub open spec fn joined(lines: Seq<Seq<char>>) -> Seq<char>
    decreases lines.len(),
{
    if lines.len() == 0 {
        Seq::empty()
    } else {
        joined(lines.drop_last()) + lines.last() + seq!['\n']
    }
}

/// The pass-through text of records: the metadata and retained fact lines of each.
pub open spec fn records_text(recs: Seq<RecordView>) -> Seq<char>
    decreases recs.len(),
{
    if recs.len() == 0 {
        Seq::empty()
    } else {
        records_text(recs.drop_last()) + joined(recs.last().metadata) + joined(recs.last().triples)
    }
}

/// Appends each line and a line feed to `out`.
fn append_lines(out: &mut String, lines: &Vec<String>)
    ensures
        final(out)@ == old(out)@ + joined(views(lines@)),
{
    let mut i: usize = 0;
    proof {
        assert(views(lines@.take(0)) =~= Seq::<Seq<char>>::empty());
        assert(out@ + joined(Seq::<Seq<char>>::empty()) =~= out@);
    }
    while i < lines.len()
        invariant
            i <= lines.len(),
            out@ == old(out)@ + joined(views(lines@.take(i as int))),
        decreases lines.len() - i,
    {
        out.append(lines[i].as_str());
        out.push('\n');
        proof {
            let t = views(lines@.take(i + 1));
            assert(t.drop_last() =~= views(lines@.take(i as int)));
            assert(t.last() == lines@[i as int]@);
            assert(out@ =~= old(out)@ + joined(t));
        }
        i = i + 1;
    }
    proof {
        assert(lines@.take(lines.len() as int) =~= lines@);
    }
}

/// The pass-through text of the records.
/// The number of lines that records contribute to pass-through output.
pub open spec fn total_lines(recs: Seq<RecordView>) -> nat
    decreases recs.len(),
{
    if recs.len() == 0 {
        0
    } else {
        total_lines(recs.drop_last()) + recs.last().metadata.len() + recs.last().triples.len()
    }
}

/// `n`, or the largest `u64` when `n` is larger.
pub open spec fn capped(n: int) -> int {
    if n > u64::MAX {
        u64::MAX as int
    } else {
        n
    }
}

/// The pass-through text of the records, and the number of lines in it (counted up to
/// the largest `u64`).
pub fn render_records(recs: &Vec<RdfEntity>) -> (r: (String, u64))
    ensures
        r.0@ == records_text(record_views(recs@)),
        r.1 == capped(total_lines(record_views(recs@)) as int),
{
    let mut out = String::new();
    let mut count: u64 = 0;
    let mut i: usize = 0;
    proof {
        assert(record_views(recs@.take(0)) =~= Seq::<RecordView>::empty());
    }
    while i < recs.len()
        invariant
            i <= recs.len(),
            out@ == records_text(record_views(recs@.take(i as int))),
            count == capped(total_lines(record_views(recs@.take(i as int))) as int),
        decreases recs.len() - i,
    {
        append_lines(&mut out, &recs[i].metadata);
        append_lines(&mut out, &recs[i].triples);
        let m = recs[i].metadata.len() as u64;
        let f = recs[i].triples.len() as u64;
        let ghost before = total_lines(record_views(recs@.take(i as int))) as int;
        count = count.saturating_add(m).saturating_add(f);
        proof {
            let t = record_views(recs@.take(i + 1));
            assert(t.drop_last() =~= record_views(recs@.take(i as int)));
            assert(t.last() == recs@[i as int]@);
            assert(out@ =~= records_text(t));
            assert(t.last().metadata.len() == m);
            assert(t.last().triples.len() == f);
            assert(total_lines(t) == before + m + f);
        }
        i = i + 1;
    }
    proof {
        assert(recs@.take(recs.len() as int) =~= recs@);
    }
    (out, count)
}


/// What the pipeline asks of its driver after one line.
#[derive(Debug)]
pub enum Progress {
    /// Hand over the next line.
    Continue,
    /// The line limit is reached: stop reading and finish.
    Stop,
    /// A batch is full: filter it, write the survivors, then hand over the next line.
    Full(Vec<RdfEntity>),
}

/// The state of the batch pipeline.
pub struct PipelineView {
    pub window: WindowView,
    pub assembler: AssemblerView,
    pub batch: Seq<RecordView>,
    pub batch_size: nat,
    pub header_written: bool,
}

/// What one input line does to the pipeline: its new state, the batch it hands out if
/// one is full, and whether the input ends here.
pub open spec fn pipeline_step(cfg: &EntityFilter, p: PipelineView, line: Seq<char>) -> (
    PipelineView,
    Option<Seq<RecordView>>,
    bool,
) {
    let (g, verdict) = window_step(p.window, line);
    match verdict {
        LineVerdict::Skip => (PipelineView { window: g, ..p }, None, false),
        LineVerdict::Stop => (PipelineView { window: g, ..p }, None, true),
        LineVerdict::Process => {
            let (a, sealed) = step(cfg, p.assembler, line);
            match sealed {
                Some(r) => if p.batch.len() + 1 >= p.batch_size {
                    (
                        PipelineView { window: g, assembler: a, batch: Seq::empty(), ..p },
                        Some(p.batch.push(r)),
                        false,
                    )
                } else {
                    (PipelineView { window: g, assembler: a, batch: p.batch.push(r), ..p }, None, false)
                },
                None => (PipelineView { window: g, assembler: a, ..p }, None, false),
            }
        },
    }
}

/// Drives lines through the skip/resume rules and the assembler, and groups the sealed
/// records into batches of a bounded size.
pub struct BatchPipeline {
    window: LineWindow,
    assembler: EntityAssembler,
    batch: Vec<RdfEntity>,
    batch_size: usize,
    header_written: bool,
}

impl View for BatchPipeline {
    type V = PipelineView;

    closed spec fn view(&self) -> PipelineView {
        PipelineView {
            window: self.window@,
            assembler: self.assembler@,
            batch: record_views(self.batch@),
            batch_size: self.batch_size as nat,
            header_written: self.header_written,
        }
    }
}

impl BatchPipeline {
    /// A pipeline that discards `skip_lines` lines (then waits for a boundary marker),
    /// assembles at most `max_lines` lines (zero: no limit), and hands out batches of
    /// `batch_size` records.
    pub fn new(skip_lines: u64, max_lines: u64, batch_size: usize) -> (r: Self)
        ensures
            r@.window == window_start(skip_lines, max_lines),
            r@.assembler.open is None,
            r@.assembler.header == Seq::<Seq<char>>::empty(),
            r@.batch == Seq::<RecordView>::empty(),
            r@.batch_size == batch_size,
            !r@.header_written,
    {
        let r = BatchPipeline {
            window: LineWindow::new(skip_lines, max_lines),
            assembler: EntityAssembler::new(),
            batch: Vec::new(),
            batch_size,
            header_written: false,
        };
        proof {
            assert(record_views(r.batch@) =~= Seq::<RecordView>::empty());
        }
        r
    }

    /// Takes one input line.
    pub fn push_line(&mut self, cfg: &EntityFilter, line: String) -> (r: Progress)
        ensures
            ({
                let (p, full, stop) = pipeline_step(cfg, old(self)@, line@);
                &&& final(self)@ == p
                &&& stop <==> r is Stop
                &&& match full {
                    Some(b) => r is Full && record_views(r->Full_0@) == b,
                    None => !(r is Full),
                }
            }),
    {
        let v = chars_of(line.as_str());
        match self.window.classify(&v) {
            LineVerdict::Skip => Progress::Continue,
            LineVerdict::Stop => Progress::Stop,
            LineVerdict::Process => {
                match self.assembler.push_line(cfg, line) {
                    Some(rec) => {
                        let ghost before = self.batch@;
                        self.batch.push(rec);
                        proof {
                            assert(record_views(self.batch@) =~= record_views(before).push(rec@));
                        }
                        if self.batch.len() >= self.batch_size {
                            let mut full: Vec<RdfEntity> = Vec::new();
                            std::mem::swap(&mut full, &mut self.batch);
                            proof {
                                assert(record_views(self.batch@) =~= Seq::<RecordView>::empty());
                            }
                            Progress::Full(full)
                        } else {
                            Progress::Continue
                        }
                    },
                    None => Progress::Continue,
                }
            },
        }
    }

    /// Seals the open record at the end of the input and hands out the last batch.
    pub fn finish(&mut self) -> (r: Vec<RdfEntity>)
        ensures
            record_views(r@) == match old(self)@.assembler.open {
                Some(rec) => old(self)@.batch.push(rec),
                None => old(self)@.batch,
            },
            final(self)@.batch == Seq::<RecordView>::empty(),
            final(self)@.assembler.open is None,
            final(self)@.assembler.header == old(self)@.assembler.header,
            final(self)@.header_written == old(self)@.header_written,
    {
        let mut out: Vec<RdfEntity> = Vec::new();
        std::mem::swap(&mut out, &mut self.batch);
        match self.assembler.finish() {
            Some(rec) => {
                let ghost before = out@;
                out.push(rec);
                proof {
                    assert(record_views(out@) =~= record_views(before).push(rec@));
                }
            },
            None => {},
        }
        proof {
            assert(record_views(self.batch@) =~= Seq::<RecordView>::empty());
        }
        out
    }

    /// The pass-through text of the selected records of one batch, preceded by the header
    /// lines the first time that a batch has survivors; and the number of lines in it
    /// (counted up to the largest `u64`).
    pub fn render_ntriples(&mut self, selected: &Vec<RdfEntity>) -> (r: (String, u64))
        ensures
            r.0@ == if !old(self)@.header_written && selected.len() > 0 {
                joined(old(self)@.assembler.header)
            } else {
                Seq::empty()
            } + records_text(record_views(selected@)),
            r.1 == capped(
                if !old(self)@.header_written && selected.len() > 0 {
                    old(self)@.assembler.header.len() as int
                } else {
                    0
                } + total_lines(record_views(selected@)),
            ),
            final(self)@.header_written == (old(self)@.header_written || selected.len() > 0),
            final(self)@.window == old(self)@.window,
            final(self)@.assembler == old(self)@.assembler,
            final(self)@.batch == old(self)@.batch,
            final(self)@.batch_size == old(self)@.batch_size,
    {
        let mut out = String::new();
        let mut header_count: u64 = 0;
        if !self.header_written && selected.len() > 0 {
            append_lines(&mut out, self.assembler.header_lines());
            header_count = self.assembler.header_lines().len() as u64;
            self.header_written = true;
        }
        let (body, body_count) = render_records(selected);
        out.append(body.as_str());
        (out, header_count.saturating_add(body_count))
    }
}

} // verus!
