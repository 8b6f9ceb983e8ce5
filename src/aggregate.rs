use vstd::prelude::*;
use crate::path::{SourcePath, PathView, starts_with, in_build_output, join_part, tests_name, tests_chars};
use crate::classify::{
    LineType,
    FuncDesc,
    AttrValue,
    DebugEntry,
    desc_of,
    subprogram_descs,
    entry_pairs,
    demangled,
    entry_type,
    get_entry_points,
    entry_types,
    type_at,
    contains,
    test_module_marker,
    harness_main_marker,
};
use crate::resolve::{
    TracerData,
    TraceView,
    Row,
    RowView,
    trace_views,
    row_views,
    resolve_rows,
    unique_keys,
    has_loc,
    resolution_inv,
    find_location,
    get_addresses_from_program,
    lemma_rows_inv,
    resolved_from,
    minimal_in,
    row_accepted,
    at_loc,
    all_unhit,
};

verus! {

/// The line-number program of a compilation unit: none named by the unit, one
/// that could not be instantiated (the unit then contributes no rows), or its
/// rows in order.
pub enum LineProgram {
    Absent,
    Unreadable,
    Rows(Vec<Row>),
}

/// What one compilation unit contributes: the entries below its root in
/// depth-first order, and its line-number program.
pub struct Unit {
    pub entries: Vec<DebugEntry>,
    pub program: LineProgram,
}

/// What static analysis knows of one source file: the lines that must be
/// covered and the lines that are structurally ignorable.
pub struct FileAnalysis {
    pub path: SourcePath,
    pub cover: Vec<u64>,
    pub ignore: Vec<u64>,
}

/// Options of a run. `excluded` holds the paths that the caller's exclusion
/// predicate rejected; a path is excluded where it starts with one of them.
pub struct Config {
    pub verbose: bool,
    pub ignore_tests: bool,
    pub excluded: Vec<SourcePath>,
}

/// One traced line for a report: always one instruction long, with no hits yet.
pub struct Trace {
    pub path: SourcePath,
    pub line: u64,
    pub address: Option<u64>,
    pub length: u64,
    pub stats: u64,
}

pub open spec fn unit_entries(entries: Seq<DebugEntry>) -> Seq<(u64, LineType)> {
    entry_pairs(subprogram_descs(entries))
}

/// The working map after every unit's rows.
pub open spec fn resolve_units(units: Seq<Unit>, project: PathView) -> Seq<TraceView>
    decreases units.len(),
{
    if units.len() == 0 {
        Seq::empty()
    } else {
        let m = resolve_units(units.drop_last(), project);
        match units.last().program {
            LineProgram::Rows(rows) => resolve_rows(
                m,
                row_views(rows@),
                unit_entries(units.last().entries@),
                project,
            ),
            _ => m,
        }
    }
}

/// Every unit's rows, in order.
pub open spec fn unit_rows(units: Seq<Unit>) -> Seq<RowView>
    decreases units.len(),
{
    if units.len() == 0 {
        Seq::empty()
    } else {
        match units.last().program {
            LineProgram::Rows(rows) => unit_rows(units.drop_last()) + row_views(rows@),
            _ => unit_rows(units.drop_last()),
        }
    }
}

pub open spec fn excluded_by(excluded: Seq<SourcePath>, p: PathView) -> bool {
    exists|i: int| 0 <= i < excluded.len() && starts_with(p, (#[trigger] excluded[i])@)
}

/// Static analysis marks `line` of `p` as ignorable.
pub open spec fn ignored_by(analysis: Seq<FileAnalysis>, p: PathView, line: u64) -> bool {
    exists|i: int|
        0 <= i < analysis.len() && (#[trigger] analysis[i]).path@ == p && analysis[i].ignore@.contains(
            line,
        )
}

/// A resolved entry that survives the filters.
pub open spec fn kept(
    e: TraceView,
    project: PathView,
    cfg: Config,
    analysis: Seq<FileAnalysis>,
) -> bool {
    &&& e.trace_type != LineType::TestMain
    &&& !(cfg.ignore_tests && starts_with(e.path, join_part(project, tests_name())))
    &&& !excluded_by(cfg.excluded@, e.path)
    &&& !ignored_by(analysis, e.path, e.line)
}

/// `line` of file `a` must be covered.
pub open spec fn must_cover(
    a: FileAnalysis,
    cfg: Config,
    analysis: Seq<FileAnalysis>,
    line: u64,
) -> bool {
    &&& !excluded_by(cfg.excluded@, a.path@)
    &&& a.cover@.contains(line)
    &&& !ignored_by(analysis, a.path@, line)
}

/// An entry added for a coverable line that no instruction maps to.
pub open spec fn unused_entry(
    e: TraceView,
    working: Seq<TraceView>,
    project: PathView,
    cfg: Config,
    analysis: Seq<FileAnalysis>,
) -> bool {
    &&& e.address is None
    &&& e.trace_type == LineType::UnusedGeneric
    &&& e.hits == 0
    &&& exists|a: int|
        0 <= a < analysis.len() && (#[trigger] analysis[a]).path@ == e.path && must_cover(analysis[a], cfg, analysis,
            e.line,
        )
    &&& forall|j: int|
        0 <= j < working.len() && kept(#[trigger] working[j], project, cfg, analysis) ==> !(
        working[j].path == e.path && working[j].line == e.line)
}

/// `r` is the aggregation of working map `working`: the kept entries, and one
/// unused entry for each line that must be covered and has none.
pub open spec fn aggregated(
    working: Seq<TraceView>,
    r: Seq<TraceView>,
    project: PathView,
    cfg: Config,
    analysis: Seq<FileAnalysis>,
) -> bool {
    &&& unique_keys(r)
    &&& forall|j: int|
        0 <= j < working.len() && kept(#[trigger] working[j], project, cfg, analysis) ==> r.contains(
            working[j],
        )
    &&& forall|i: int|
        0 <= i < r.len() ==> (exists|j: int|
            0 <= j < working.len() && #[trigger] working[j] == r[i] && kept(
                working[j],
                project,
                cfg,
                analysis,
            )) || unused_entry(#[trigger] r[i], working, project, cfg, analysis)
    &&& forall|a: int, l: int|
        0 <= a < analysis.len() && 0 <= l < analysis[a].cover@.len() && must_cover(#[trigger] analysis[a], cfg, analysis,
            #[trigger] analysis[a].cover@[l],
        ) ==> has_loc(r, analysis[a].path@, analysis[a].cover@[l])
}

/// `e` is one of the first `n` entries of `w`, and is kept.
pub open spec fn kept_among(
    w: Seq<TraceView>,
    n: int,
    e: TraceView,
    project: PathView,
    cfg: Config,
    analysis: Seq<FileAnalysis>,
) -> bool {
    exists|j: int| 0 <= j < n && #[trigger] w[j] == e && kept(w[j], project, cfg, analysis)
}

pub fn contains_u64(v: &Vec<u64>, x: u64) -> (r: bool)
    ensures
        r == v@.contains(x),
{
    let mut i: usize = 0;
    while i < v.len()
        invariant
            i <= v@.len(),
            forall|k: int| 0 <= k < i ==> v@[k] != x,
        decreases v@.len() - i,
    {
        if v[i] == x {
            assert(v@[i as int] == x);
            return true;
        }
        i = i + 1;
    }
    false
}

pub fn is_excluded(excluded: &Vec<SourcePath>, p: &SourcePath) -> (r: bool)
    ensures
        r == excluded_by(excluded@, p@),
{
    let mut i: usize = 0;
    while i < excluded.len()
        invariant
            i <= excluded@.len(),
            forall|k: int| 0 <= k < i ==> !starts_with(p@, (#[trigger] excluded@[k])@),
        decreases excluded@.len() - i,
    {
        if p.starts_with(&excluded[i]) {
            return true;
        }
        i = i + 1;
    }
    false
}

pub fn is_ignored(analysis: &Vec<FileAnalysis>, p: &SourcePath, line: u64) -> (r: bool)
    ensures
        r == ignored_by(analysis@, p@, line),
{
    let mut i: usize = 0;
    while i < analysis.len()
        invariant
            i <= analysis@.len(),
            forall|k: int|
                0 <= k < i ==> !((#[trigger] analysis@[k]).path@ == p@ && analysis@[k].ignore@.contains(
                    line,
                )),
        decreases analysis@.len() - i,
    {
        if analysis[i].path.same_as(p) && contains_u64(&analysis[i].ignore, line) {
            return true;
        }
        i = i + 1;
    }
    false
}

impl TracerData {
    pub fn clone_trace(&self) -> (r: TracerData)
        ensures
            r@ == self@,
    {
        TracerData {
            path: self.path.clone_path(),
            line: self.line,
            address: self.address,
            trace_type: self.trace_type,
            hits: self.hits,
        }
    }
}

fn keeps(e: &TracerData, project: &SourcePath, cfg: &Config, analysis: &Vec<FileAnalysis>) -> (r:
    bool)
    ensures
        r == kept(e@, project@, *cfg, analysis@),
{
    if e.trace_type == LineType::TestMain {
        return false;
    }
    if cfg.ignore_tests {
        let tests = project.join_part(tests_chars());
        if e.path.starts_with(&tests) {
            return false;
        }
    }
    !is_excluded(&cfg.excluded, &e.path) && !is_ignored(analysis, &e.path, e.line)
}

/// Applies the filters to the working map, then adds an unused entry for each
/// line that must be covered and has no entry yet.
pub fn aggregate(
    working: &Vec<TracerData>,
    project: &SourcePath,
    cfg: &Config,
    analysis: &Vec<FileAnalysis>,
) -> (r: Vec<TracerData>)
    requires
        unique_keys(trace_views(working@)),
    ensures
        aggregated(trace_views(working@), trace_views(r@), project@, *cfg, analysis@),
{
    let ghost w = trace_views(working@);
    let mut r: Vec<TracerData> = Vec::new();
    let mut i: usize = 0;
    while i < working.len()
        invariant
            i <= working@.len(),
            w == trace_views(working@),
            unique_keys(w),
            unique_keys(trace_views(r@)),
            forall|j: int|
                0 <= j < i && kept(#[trigger] w[j], project@, *cfg, analysis@) ==> trace_views(
                    r@,
                ).contains(w[j]),
            forall|x: int|
                0 <= x < r@.len() ==> kept_among(
                    w,
                    i as int,
                    #[trigger] trace_views(r@)[x],
                    project@,
                    *cfg,
                    analysis@,
                ),
        decreases working@.len() - i,
    {
        if keeps(&working[i], project, cfg, analysis) {
            let e = working[i].clone_trace();
            let ghost before = trace_views(r@);
            r.push(e);
            assert(trace_views(r@) =~= before.push(w[i as int]));
            assert forall|x: int, y: int|
                0 <= x < trace_views(r@).len() && 0 <= y < trace_views(r@).len() && x != y implies !((
            #[trigger] trace_views(r@)[x]).path == (#[trigger] trace_views(r@)[y]).path
                && trace_views(r@)[x].line == trace_views(r@)[y].line) by {
                if x < before.len() && y < before.len() {
                    assert(trace_views(r@)[x] == before[x]);
                    assert(trace_views(r@)[y] == before[y]);
                } else if x < before.len() {
                    let j = choose|j: int|
                        0 <= j < i && #[trigger] w[j] == before[x] && kept(w[j], project@, *cfg, analysis@);
                    assert(trace_views(r@)[x] == w[j]);
                } else if y < before.len() {
                    let j = choose|j: int|
                        0 <= j < i && #[trigger] w[j] == before[y] && kept(w[j], project@, *cfg, analysis@);
                    assert(trace_views(r@)[y] == w[j]);
                }
            }
            assert forall|j: int|
                0 <= j < i + 1 && kept(#[trigger] w[j], project@, *cfg, analysis@) implies trace_views(
                r@,
            ).contains(w[j]) by {
                if j < i {
                    let x = choose|x: int| 0 <= x < before.len() && before[x] == w[j];
                    assert(trace_views(r@)[x] == w[j]);
                } else {
                    assert(trace_views(r@)[before.len() as int] == w[j]);
                }
            }
            assert forall|x: int| 0 <= x < r@.len() implies kept_among(
                w,
                i + 1,
                #[trigger] trace_views(r@)[x],
                project@,
                *cfg,
                analysis@,
            ) by {
                if x < before.len() {
                    assert(trace_views(r@)[x] == before[x]);
                } else {
                    assert(w[i as int] == trace_views(r@)[x]);
                }
            }
        }
        i = i + 1;
    }
    assert forall|x: int| 0 <= x < r@.len() implies (exists|j: int|
        0 <= j < w.len() && #[trigger] w[j] == trace_views(r@)[x] && kept(
            w[j],
            project@,
            *cfg,
            analysis@,
        )) || unused_entry(#[trigger] trace_views(r@)[x], w, project@, *cfg, analysis@) by {
        assert(kept_among(w, w.len() as int, trace_views(r@)[x], project@, *cfg, analysis@));
    }
    let mut a: usize = 0;
    while a < analysis.len()
        invariant
            a <= analysis@.len(),
            w == trace_views(working@),
            unique_keys(trace_views(r@)),
            forall|j: int|
                0 <= j < w.len() && kept(#[trigger] w[j], project@, *cfg, analysis@) ==> trace_views(
                    r@,
                ).contains(w[j]),
            forall|x: int|
                0 <= x < r@.len() ==> (exists|j: int|
                    0 <= j < w.len() && #[trigger] w[j] == trace_views(r@)[x] && kept(
                        w[j],
                        project@,
                        *cfg,
                        analysis@,
                    )) || unused_entry(#[trigger] trace_views(r@)[x], w, project@, *cfg, analysis@),
            forall|b: int, l: int|
                0 <= b < a && 0 <= l < analysis@[b].cover@.len() && must_cover(#[trigger] analysis@[b], *cfg, analysis@,
                    #[trigger] analysis@[b].cover@[l],
                ) ==> has_loc(trace_views(r@), analysis@[b].path@, analysis@[b].cover@[l]),
        decreases analysis@.len() - a,
    {
        let fa = &analysis[a];
        let skip = is_excluded(&cfg.excluded, &fa.path);
        let mut l: usize = 0;
        while l < fa.cover.len()
            invariant
                a < analysis@.len(),
                *fa == analysis@[a as int],
                skip == excluded_by(cfg.excluded@, fa.path@),
                l <= fa.cover@.len(),
                w == trace_views(working@),
                unique_keys(trace_views(r@)),
                forall|j: int|
                    0 <= j < w.len() && kept(#[trigger] w[j], project@, *cfg, analysis@)
                        ==> trace_views(r@).contains(w[j]),
                forall|x: int|
                    0 <= x < r@.len() ==> (exists|j: int|
                        0 <= j < w.len() && #[trigger] w[j] == trace_views(r@)[x] && kept(
                            w[j],
                            project@,
                            *cfg,
                            analysis@,
                        )) || unused_entry(#[trigger] trace_views(r@)[x], w, project@, *cfg, analysis@),
                forall|b: int, k: int|
                    ((0 <= b < a && 0 <= k < analysis@[b].cover@.len()) || (b == a && 0 <= k < l))
                        && must_cover(#[trigger] analysis@[b], *cfg, analysis@, #[trigger] analysis@[b].cover@[k])
                        ==> has_loc(trace_views(r@), analysis@[b].path@, analysis@[b].cover@[k]),
            decreases fa.cover@.len() - l,
        {
            let line = fa.cover[l];
            assert(fa.cover@[l as int] == line);
            if !skip && !is_ignored(analysis, &fa.path, line) {
                match find_location(&r, &fa.path, line) {
                    Some(x) => {
                        assert(trace_views(r@)[x as int] == r@[x as int]@);
                        assert(has_loc(trace_views(r@), fa.path@, line));
                    },
                    None => {
                        let e = TracerData {
                            path: fa.path.clone_path(),
                            line,
                            address: None,
                            trace_type: LineType::UnusedGeneric,
                            hits: 0,
                        };
                        let ghost before = trace_views(r@);
                        r.push(e);
                        assert(trace_views(r@) =~= before.push(e@));
                        assert(must_cover(analysis@[a as int], *cfg, analysis@, line));
                        assert(fa.cover@.contains(line)) by {
                            assert(fa.cover@[l as int] == line);
                        }
                        assert forall|j: int|
                            0 <= j < w.len() && kept(#[trigger] w[j], project@, *cfg, analysis@)
                                implies !(w[j].path == e@.path && w[j].line == e@.line) by {
                            let x = choose|x: int| 0 <= x < before.len() && before[x] == w[j];
                        }
                        assert(unused_entry(e@, w, project@, *cfg, analysis@));
                        assert forall|x: int, y: int|
                            0 <= x < trace_views(r@).len() && 0 <= y < trace_views(r@).len() && x
                                != y implies !((#[trigger] trace_views(r@)[x]).path == (
                        #[trigger] trace_views(r@)[y]).path && trace_views(r@)[x].line
                            == trace_views(r@)[y].line) by {
                            if x < before.len() {
                                assert(trace_views(r@)[x] == before[x]);
                            }
                            if y < before.len() {
                                assert(trace_views(r@)[y] == before[y]);
                            }
                        }
                        assert forall|j: int|
                            0 <= j < w.len() && kept(#[trigger] w[j], project@, *cfg, analysis@)
                                implies trace_views(r@).contains(w[j]) by {
                            let x = choose|x: int| 0 <= x < before.len() && before[x] == w[j];
                            assert(trace_views(r@)[x] == w[j]);
                        }
                        assert forall|x: int| 0 <= x < r@.len() implies (exists|j: int|
                            0 <= j < w.len() && #[trigger] w[j] == trace_views(r@)[x] && kept(
                                w[j],
                                project@,
                                *cfg,
                                analysis@,
                            )) || unused_entry(#[trigger] trace_views(r@)[x], w, project@, *cfg, analysis@) by {
                            if x < before.len() {
                                assert(trace_views(r@)[x] == before[x]);
                            }
                        }
                        assert forall|b: int, k: int|
                            ((0 <= b < a && 0 <= k < analysis@[b].cover@.len()) || (b == a && 0 <= k
                                < l + 1)) && must_cover(#[trigger] analysis@[b], *cfg, analysis@,
                                #[trigger] analysis@[b].cover@[k],
                            ) implies has_loc(
                            trace_views(r@),
                            analysis@[b].path@,
                            analysis@[b].cover@[k],
                        ) by {
                            if b == a && k == l {
                                assert(trace_views(r@)[before.len() as int] == e@);
                            } else {
                                let x = choose|x: int|
                                    0 <= x < before.len() && (#[trigger] before[x]).path
                                        == analysis@[b].path@ && before[x].line
                                        == analysis@[b].cover@[k];
                                assert(trace_views(r@)[x] == before[x]);
                            }
                        }
                    },
                }
            }
            assert(fa.cover@[l as int] == line);
            l = l + 1;
        }
        a = a + 1;
    }
    r
}

pub struct TraceRecView {
    pub path: PathView,
    pub line: u64,
    pub address: Option<u64>,
    pub length: u64,
    pub stats: u64,
}

impl View for Trace {
    type V = TraceRecView;

    open spec fn view(&self) -> TraceRecView {
        TraceRecView {
            path: self.path@,
            line: self.line,
            address: self.address,
            length: self.length,
            stats: self.stats,
        }
    }
}

/// The report record of each entry.
pub open spec fn trace_records(v: Seq<TraceView>) -> Seq<TraceRecView> {
    v.map_values(
        |e: TraceView|
            TraceRecView { path: e.path, line: e.line, address: e.address, length: 1, stats: 0 },
    )
}

/// The traceable lines of a binary whose compilation units are `units`: every
/// line of `project` that some instruction maps to, at its lowest address, and
/// every line that static analysis says must be covered. A unit without a
/// readable line-number program contributes no rows.
pub fn get_line_addresses(
    units: &Vec<Unit>,
    project: &SourcePath,
    cfg: &Config,
    analysis: &Vec<FileAnalysis>,
) -> (r: Vec<TracerData>)
    ensures
        aggregated(resolve_units(units@, project@), trace_views(r@), project@, *cfg, analysis@),
{
    let mut working: Vec<TracerData> = Vec::new();
    let mut i: usize = 0;
    assert(trace_views(working@) =~= Seq::<TraceView>::empty());
    assert(units@.subrange(0, 0) =~= Seq::<Unit>::empty());
    while i < units.len()
        invariant
            i <= units@.len(),
            unique_keys(trace_views(working@)),
            trace_views(working@) == resolve_units(units@.subrange(0, i as int), project@),
        decreases units@.len() - i,
    {
        let u = &units[i];
        let descs = get_entry_points(&u.entries);
        let entries = entry_types(&descs);
        assert(units@.subrange(0, i + 1).drop_last() == units@.subrange(0, i as int));
        assert(units@.subrange(0, i + 1).last() == units@[i as int]);
        match &u.program {
            LineProgram::Rows(rows) => {
                get_addresses_from_program(rows, &entries, project, &mut working);
            },
            _ => {},
        }
        i = i + 1;
    }
    assert(units@.subrange(0, units@.len() as int) == units@);
    aggregate(&working, project, cfg, analysis)
}

/// The traceable lines as a flat collection, for instrumentation.
pub fn generate_tracer_data(
    units: &Vec<Unit>,
    project: &SourcePath,
    cfg: &Config,
    analysis: &Vec<FileAnalysis>,
) -> (r: Vec<TracerData>)
    ensures
        aggregated(resolve_units(units@, project@), trace_views(r@), project@, *cfg, analysis@),
{
    get_line_addresses(units, project, cfg, analysis)
}

/// The traceable lines as report records, one per line, each one instruction
/// long and with a zero hit count.
pub fn generate_tracemap(
    units: &Vec<Unit>,
    project: &SourcePath,
    cfg: &Config,
    analysis: &Vec<FileAnalysis>,
) -> (r: Vec<Trace>)
    ensures
        exists|v: Seq<TraceView>|
            aggregated(resolve_units(units@, project@), v, project@, *cfg, analysis@)
                && r@.map_values(|x: Trace| x@) == #[trigger] trace_records(v),
{
    let v = get_line_addresses(units, project, cfg, analysis);
    let mut t: Vec<Trace> = Vec::new();
    let mut i: usize = 0;
    while i < v.len()
        invariant
            i <= v@.len(),
            t@.map_values(|x: Trace| x@) == trace_records(trace_views(v@).subrange(0, i as int)),
        decreases v@.len() - i,
    {
        let rec = Trace {
            path: v[i].path.clone_path(),
            line: v[i].line,
            address: v[i].address,
            length: 1,
            stats: 0,
        };
        let ghost before = t@;
        t.push(rec);
        assert(t@.map_values(|x: Trace| x@) =~= before.map_values(|x: Trace| x@).push(rec@));
        assert(trace_records(trace_views(v@).subrange(0, i + 1)) =~= trace_records(
            trace_views(v@).subrange(0, i as int),
        ).push(rec@));
        i = i + 1;
    }
    assert(trace_views(v@).subrange(0, v@.len() as int) == trace_views(v@));
    t
}

proof fn lemma_units_inv(units: Seq<Unit>, project: PathView)
    ensures
        resolution_inv(resolve_units(units, project), unit_rows(units), project),
    decreases units.len(),
{
    if units.len() > 0 {
        lemma_units_inv(units.drop_last(), project);
        match units.last().program {
            LineProgram::Rows(rows) => {
                lemma_rows_inv(
                    resolve_units(units.drop_last(), project),
                    unit_rows(units.drop_last()),
                    row_views(rows@),
                    unit_entries(units.last().entries@),
                    project,
                );
            },
            _ => {},
        }
    }
}

/// Each line that the line-number programs map to carries the lowest address
/// among the accepted rows at that line, and that address is one of theirs.
pub proof fn lemma_minimal_address(units: Seq<Unit>, project: PathView)
    ensures
        resolved_from(resolve_units(units, project), unit_rows(units), project),
        minimal_in(resolve_units(units, project), unit_rows(units), project),
{
    lemma_units_inv(units, project);
}

/// Every line that the line-number programs map to lies under the project and
/// outside its build output, and comes from an accepted row at that line.
pub proof fn lemma_containment(units: Seq<Unit>, project: PathView)
    ensures
        forall|i: int|
            0 <= i < resolve_units(units, project).len() ==> {
                let e = #[trigger] resolve_units(units, project)[i];
                &&& starts_with(e.path, project)
                &&& !in_build_output(e.path, project)
                &&& exists|k: int|
                    0 <= k < unit_rows(units).len() && row_accepted(
                        #[trigger] unit_rows(units)[k],
                        project,
                    ) && at_loc(unit_rows(units)[k], e.path, e.line)
            },
{
    lemma_units_inv(units, project);
}

/// Every entry of the result that has an address carries the lowest address
/// among the accepted rows at its line, and that address is one of theirs.
pub proof fn lemma_result_minimal(
    units: Seq<Unit>,
    project: PathView,
    cfg: Config,
    analysis: Seq<FileAnalysis>,
    r: Seq<TraceView>,
)
    requires
        aggregated(resolve_units(units, project), r, project, cfg, analysis),
    ensures
        forall|i: int|
            0 <= i < r.len() && (#[trigger] r[i]).address is Some ==> exists|k: int|
                0 <= k < unit_rows(units).len() && row_accepted(
                    #[trigger] unit_rows(units)[k],
                    project,
                ) && at_loc(unit_rows(units)[k], r[i].path, r[i].line) && r[i].address == Some(
                    unit_rows(units)[k].address,
                ),
        forall|i: int, k: int|
            0 <= i < r.len() && 0 <= k < unit_rows(units).len() && row_accepted(
                #[trigger] unit_rows(units)[k],
                project,
            ) && at_loc(unit_rows(units)[k], (#[trigger] r[i]).path, r[i].line) && r[i].address is Some
                ==> r[i].address->Some_0 <= unit_rows(units)[k].address,
{
    lemma_units_inv(units, project);
    let w = resolve_units(units, project);
    let rows = unit_rows(units);
    assert forall|i: int, k: int|
        0 <= i < r.len() && 0 <= k < rows.len() && row_accepted(#[trigger] rows[k], project)
            && at_loc(rows[k], (#[trigger] r[i]).path, r[i].line) && r[i].address is Some implies r[i].address->Some_0
        <= rows[k].address by {
        if !unused_entry(r[i], w, project, cfg, analysis) {
            let j = choose|j: int|
                0 <= j < w.len() && #[trigger] w[j] == r[i] && kept(w[j], project, cfg, analysis);
        }
    }
    assert forall|i: int| 0 <= i < r.len() && (#[trigger] r[i]).address is Some implies exists|k: int|
        0 <= k < rows.len() && row_accepted(#[trigger] rows[k], project) && at_loc(
            rows[k],
            r[i].path,
            r[i].line,
        ) && r[i].address == Some(rows[k].address) by {
        let j = choose|j: int|
            0 <= j < w.len() && #[trigger] w[j] == r[i] && kept(w[j], project, cfg, analysis);
    }
}

/// Every line that static analysis says must be covered, in a file that is not
/// excluded and at a line that is not ignorable, has an entry with no hits: one
/// with an address, or an unused one without.
pub proof fn lemma_union_complete(
    units: Seq<Unit>,
    project: PathView,
    cfg: Config,
    analysis: Seq<FileAnalysis>,
    r: Seq<TraceView>,
    a: int,
    l: int,
)
    requires
        aggregated(resolve_units(units, project), r, project, cfg, analysis),
        0 <= a < analysis.len(),
        0 <= l < analysis[a].cover@.len(),
        !excluded_by(cfg.excluded@, analysis[a].path@),
        !ignored_by(analysis, analysis[a].path@, analysis[a].cover@[l]),
    ensures
        exists|i: int|
            0 <= i < r.len() && (#[trigger] r[i]).path == analysis[a].path@ && r[i].line
                == analysis[a].cover@[l] && r[i].hits == 0 && (r[i].address is Some
                || r[i].trace_type == LineType::UnusedGeneric),
{
    lemma_units_inv(units, project);
    let w = resolve_units(units, project);
    let line = analysis[a].cover@[l];
    assert(analysis[a].cover@.contains(line));
    assert(must_cover(analysis[a], cfg, analysis, line));
    let i = choose|i: int| 0 <= i < r.len() && (#[trigger] r[i]).path == analysis[a].path@ && r[i].line == line;
    if !unused_entry(r[i], w, project, cfg, analysis) {
        let j = choose|j: int|
            0 <= j < w.len() && #[trigger] w[j] == r[i] && kept(w[j], project, cfg, analysis);
        assert(all_unhit(w));
        assert(w[j].hits == 0);
        let k = choose|k: int|
            0 <= k < unit_rows(units).len() && row_accepted(#[trigger] unit_rows(units)[k], project)
                && at_loc(unit_rows(units)[k], w[j].path, w[j].line) && w[j].address == Some(
                unit_rows(units)[k].address,
            );
    }
}

proof fn lemma_type_at_first(entries: Seq<(u64, LineType)>, i: int, addr: u64)
    requires
        0 <= i < entries.len(),
        entries[i].0 == addr,
        forall|j: int| 0 <= j < i ==> (#[trigger] entries[j]).0 != addr,
    ensures
        type_at(entries, addr) == entries[i].1,
    decreases i,
{
    if i > 0 {
        let rest = entries.drop_first();
        assert forall|j: int| 0 <= j < i - 1 implies (#[trigger] rest[j]).0 != addr by {
            assert(rest[j] == entries[j + 1]);
        }
        lemma_type_at_first(rest, i - 1, addr);
    }
}

/// A row at the start address of a unit's function `i`, where no earlier
/// function starts there, is classified by that function.
pub proof fn lemma_entry_classification(descs: Seq<FuncDesc>, i: int)
    requires
        0 <= i < descs.len(),
        forall|j: int| 0 <= j < i ==> (#[trigger] descs[j]).low != descs[i].low,
    ensures
        type_at(entry_pairs(descs), descs[i].low) == entry_type(descs[i]),
{
    let entries = entry_pairs(descs);
    assert forall|j: int| 0 <= j < i implies (#[trigger] entries[j]).0 != descs[i].low by {
        assert(entries[j].0 == descs[j].low);
    }
    lemma_type_at_first(entries, i, descs[i].low);
}

/// A function whose demangled name goes through a `tests` module contributes a
/// test entry at its start address; one that is the harness's generated main,
/// and not in a `tests` module, contributes a test main.
pub proof fn lemma_test_classification(s: DebugEntry)
    ensures
        s.linkage_name matches Some(AttrValue::StrRef(n)) && contains(
            demangled(n@),
            test_module_marker(),
        ) ==> entry_type(desc_of(s)) == LineType::TestEntry(desc_of(s).high),
        s.linkage_name matches Some(AttrValue::StrRef(n)) && !contains(
            demangled(n@),
            test_module_marker(),
        ) && contains(demangled(n@), harness_main_marker()) ==> entry_type(desc_of(s))
            == LineType::TestMain,
{
}

/// No aggregated entry is a test main, and none lies in an excluded path,
/// whether it came from the line-number programs or from static analysis.
pub proof fn lemma_aggregated_exclusions(
    working: Seq<TraceView>,
    r: Seq<TraceView>,
    project: PathView,
    cfg: Config,
    analysis: Seq<FileAnalysis>,
)
    requires
        aggregated(working, r, project, cfg, analysis),
    ensures
        forall|i: int|
            0 <= i < r.len() ==> (#[trigger] r[i]).trace_type != LineType::TestMain
                && !excluded_by(cfg.excluded@, r[i].path),
{
    assert forall|i: int| 0 <= i < r.len() implies (#[trigger] r[i]).trace_type
        != LineType::TestMain && !excluded_by(cfg.excluded@, r[i].path) by {
        if !unused_entry(r[i], working, project, cfg, analysis) {
            let j = choose|j: int|
                0 <= j < working.len() && #[trigger] working[j] == r[i] && kept(
                    working[j],
                    project,
                    cfg,
                    analysis,
                );
        } else {
            let a = choose|a: int|
                0 <= a < analysis.len() && (#[trigger] analysis[a]).path@ == r[i].path
                    && must_cover(analysis[a], cfg, analysis, r[i].line);
        }
    }
}

} // verus!
