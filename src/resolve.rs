use vstd::prelude::*;
use std::cmp::Ordering;
use crate::path::{SourcePath, PathView, path_cmp, in_build_output, starts_with, join, is_build_output};
use crate::classify::{LineType, type_at, trace_type_at};

verus! {

/// One traceable source line.
pub struct TracerData {
    pub path: SourcePath,
    pub line: u64,
    pub address: Option<u64>,
    pub trace_type: LineType,
    pub hits: u64,
}

pub struct TraceView {
    pub path: PathView,
    pub line: u64,
    pub address: Option<u64>,
    pub trace_type: LineType,
    pub hits: u64,
}

impl View for TracerData {
    type V = TraceView;

    open spec fn view(&self) -> TraceView {
        TraceView {
            path: self.path@,
            line: self.line,
            address: self.address,
            trace_type: self.trace_type,
            hits: self.hits,
        }
    }
}

pub open spec fn trace_views(v: Seq<TracerData>) -> Seq<TraceView> {
    v.map_values(|t: TracerData| t@)
}

/// One row of a line-number program, with its file entry resolved: the
/// directory (canonicalised where that was possible), the file name, the line
/// where the row has one, the instruction address, and whether the directory
/// and file name together name an existing regular file.
pub struct Row {
    pub dir: SourcePath,
    pub file: SourcePath,
    pub line: Option<u64>,
    pub address: u64,
    pub is_file: bool,
}

pub struct RowView {
    pub dir: PathView,
    pub file: PathView,
    pub line: Option<u64>,
    pub address: u64,
    pub is_file: bool,
}

impl View for Row {
    type V = RowView;

    open spec fn view(&self) -> RowView {
        RowView {
            dir: self.dir@,
            file: self.file@,
            line: self.line,
            address: self.address,
            is_file: self.is_file,
        }
    }
}

pub open spec fn row_views(v: Seq<Row>) -> Seq<RowView> {
    v.map_values(|r: Row| r@)
}

/// A row that is traced: its path, directory and file name joined, is inside
/// the project and outside build output, it has a line, and it names an
/// existing file.
pub open spec fn row_accepted(r: RowView, project: PathView) -> bool {
    &&& !in_build_output(join(r.dir, r.file), project)
    &&& starts_with(join(r.dir, r.file), project)
    &&& r.line is Some
    &&& r.is_file
}

/// The row resolves to `(path, line)`.
pub open spec fn at_loc(r: RowView, path: PathView, line: u64) -> bool {
    join(r.dir, r.file) == path && r.line == Some(line)
}

pub open spec fn has_loc(m: Seq<TraceView>, path: PathView, line: u64) -> bool {
    exists|i: int| 0 <= i < m.len() && (#[trigger] m[i]).path == path && m[i].line == line
}

/// No two entries share a location.
pub open spec fn unique_keys(m: Seq<TraceView>) -> bool {
    forall|i: int, j: int|
        0 <= i < m.len() && 0 <= j < m.len() && i != j ==> !((#[trigger] m[i]).path == (
        #[trigger] m[j]).path && m[i].line == m[j].line)
}

pub open spec fn min_u64(a: u64, b: u64) -> u64 {
    if a <= b {
        a
    } else {
        b
    }
}

/// Records `address` at `(path, line)`: an existing entry keeps all but its
/// address, which becomes the smaller of the two where it had one; otherwise a
/// fresh entry is appended.
pub open spec fn upsert(
    m: Seq<TraceView>,
    path: PathView,
    line: u64,
    address: u64,
    ty: LineType,
) -> Seq<TraceView> {
    if has_loc(m, path, line) {
        let i = choose|i: int| 0 <= i < m.len() && (#[trigger] m[i]).path == path && m[i].line == line;
        match m[i].address {
            Some(a) => m.update(i, TraceView { address: Some(min_u64(a, address)), ..m[i] }),
            None => m,
        }
    } else {
        m.push(TraceView { path, line, address: Some(address), trace_type: ty, hits: 0 })
    }
}

/// The working map after one row.
pub open spec fn step(
    m: Seq<TraceView>,
    r: RowView,
    entries: Seq<(u64, LineType)>,
    project: PathView,
) -> Seq<TraceView> {
    if row_accepted(r, project) {
        upsert(m, join(r.dir, r.file), r.line->Some_0, r.address, type_at(entries, r.address))
    } else {
        m
    }
}

/// The working map after `rows`, in order.
pub open spec fn resolve_rows(
    m: Seq<TraceView>,
    rows: Seq<RowView>,
    entries: Seq<(u64, LineType)>,
    project: PathView,
) -> Seq<TraceView>
    decreases rows.len(),
{
    if rows.len() == 0 {
        m
    } else {
        step(resolve_rows(m, rows.drop_last(), entries, project), rows.last(), entries, project)
    }
}

impl TracerData {
    fn with_address(&self, address: Option<u64>) -> (r: TracerData)
        ensures
            r@ == (TraceView { address, ..self@ }),
    {
        TracerData {
            path: self.path.clone_path(),
            line: self.line,
            address,
            trace_type: self.trace_type,
            hits: self.hits,
        }
    }
}

/// Index of the entry at `(path, line)`, if any.
pub fn find_location(m: &Vec<TracerData>, path: &SourcePath, line: u64) -> (r: Option<usize>)
    ensures
        match r {
            Some(i) => i < m@.len() && m@[i as int]@.path == path@ && m@[i as int].line == line,
            None => !has_loc(trace_views(m@), path@, line),
        },
{
    let mut i: usize = 0;
    while i < m.len()
        invariant
            i <= m@.len(),
            forall|k: int|
                0 <= k < i ==> !((#[trigger] trace_views(m@)[k]).path == path@ && trace_views(
                    m@,
                )[k].line == line),
        decreases m@.len() - i,
    {
        if m[i].line == line && m[i].path.same_as(path) {
            return Some(i);
        }
        i = i + 1;
    }
    None
}

/// Adds one row to the working map.
pub fn add_row(
    result: &mut Vec<TracerData>,
    entries: &Vec<(u64, LineType)>,
    project: &SourcePath,
    row: &Row,
)
    requires
        unique_keys(trace_views(old(result)@)),
    ensures
        trace_views(final(result)@) == step(trace_views(old(result)@), row@, entries@, project@),
        unique_keys(trace_views(final(result)@)),
{
    let ghost m = trace_views(result@);
    let path = row.dir.join(&row.file);
    if is_build_output(&path, project) || !path.starts_with(project) || !row.is_file {
        return;
    }
    let line = match row.line {
        Some(l) => l,
        None => return,
    };
    match find_location(result, &path, line) {
        Some(i) => {
            assert(m[i as int].path == path@ && m[i as int].line == line);
            let ghost j = choose|j: int|
                0 <= j < m.len() && (#[trigger] m[j]).path == path@ && m[j].line == line;
            assert(j == i);
            match result[i].address {
                Some(a) => {
                    let lowest = if row.address < a {
                        row.address
                    } else {
                        a
                    };
                    let e = result[i].with_address(Some(lowest));
                    result.set(i, e);
                    assert(trace_views(result@) =~= m.update(
                        i as int,
                        TraceView { address: Some(min_u64(a, row.address)), ..m[i as int] },
                    ));
                },
                None => {},
            }
        },
        None => {
            let desc = trace_type_at(entries, row.address);
            let e = TracerData { path, line, address: Some(row.address), trace_type: desc, hits: 0 };
            result.push(e);
            assert(trace_views(result@) =~= m.push(e@));
        },
    }
}

/// Replays the rows of one line-number program into the working map.
pub fn get_addresses_from_program(
    rows: &Vec<Row>,
    entries: &Vec<(u64, LineType)>,
    project: &SourcePath,
    result: &mut Vec<TracerData>,
)
    requires
        unique_keys(trace_views(old(result)@)),
    ensures
        trace_views(final(result)@) == resolve_rows(
            trace_views(old(result)@),
            row_views(rows@),
            entries@,
            project@,
        ),
        unique_keys(trace_views(final(result)@)),
{
    let ghost start = trace_views(result@);
    let mut i: usize = 0;
    while i < rows.len()
        invariant
            i <= rows@.len(),
            unique_keys(trace_views(result@)),
            trace_views(result@) == resolve_rows(
                start,
                row_views(rows@).subrange(0, i as int),
                entries@,
                project@,
            ),
        decreases rows@.len() - i,
    {
        add_row(result, entries, project, &rows[i]);
        assert(row_views(rows@).subrange(0, i + 1).drop_last() == row_views(rows@).subrange(
            0,
            i as int,
        ));
        i = i + 1;
    }
    assert(row_views(rows@).subrange(0, rows@.len() as int) == row_views(rows@));
}


/// The order of traced lines: by path, then by line.
pub open spec fn location_cmp(a: TraceView, b: TraceView) -> Ordering {
    if a.path == b.path && a.line == b.line {
        Ordering::Equal
    } else if a.path == b.path {
        if a.line > b.line {
            Ordering::Greater
        } else {
            Ordering::Less
        }
    } else {
        path_cmp(a.path, b.path)
    }
}

impl PartialEq for TracerData {
    /// Two traced lines are the same where their locations are.
    fn eq(&self, other: &TracerData) -> (r: bool)
        ensures
            r == (self@.path == other@.path && self.line == other.line),
    {
        self.line == other.line && self.path.same_as(&other.path)
    }
}

impl vstd::std_specs::cmp::PartialEqSpecImpl for TracerData {
    open spec fn obeys_eq_spec() -> bool {
        true
    }

    open spec fn eq_spec(&self, other: &TracerData) -> bool {
        self@.path == other@.path && self.line == other.line
    }
}

impl TracerData {
    /// Orders traced lines by location alone.
    pub fn cmp(&self, other: &TracerData) -> (r: Ordering)
        ensures
            r == location_cmp(self@, other@),
    {
        if self == other {
            Ordering::Equal
        } else if self.path.same_as(&other.path) {
            if self.line > other.line {
                Ordering::Greater
            } else {
                Ordering::Less
            }
        } else {
            self.path.compare(&other.path)
        }
    }
}

/// Every entry comes from an accepted row at its location, with that row's address.
pub open spec fn resolved_from(m: Seq<TraceView>, rows: Seq<RowView>, project: PathView) -> bool {
    forall|i: int|
        0 <= i < m.len() ==> exists|k: int|
            0 <= k < rows.len() && row_accepted(#[trigger] rows[k], project) && at_loc(
                rows[k],
                (#[trigger] m[i]).path,
                m[i].line,
            ) && m[i].address == Some(rows[k].address)
}

/// No accepted row at an entry's location has a lower address than the entry.
pub open spec fn minimal_in(m: Seq<TraceView>, rows: Seq<RowView>, project: PathView) -> bool {
    forall|i: int, k: int|
        0 <= i < m.len() && 0 <= k < rows.len() && row_accepted(#[trigger] rows[k], project)
            && at_loc(rows[k], (#[trigger] m[i]).path, m[i].line) ==> m[i].address is Some
            && m[i].address->Some_0 <= rows[k].address
}

/// Every accepted row has an entry at its location.
pub open spec fn covers_rows(m: Seq<TraceView>, rows: Seq<RowView>, project: PathView) -> bool {
    forall|k: int|
        0 <= k < rows.len() && row_accepted(#[trigger] rows[k], project) ==> has_loc(
            m,
            join(rows[k].dir, rows[k].file),
            rows[k].line->Some_0,
        )
}

/// No entry has been hit.
pub open spec fn all_unhit(m: Seq<TraceView>) -> bool {
    forall|i: int| 0 <= i < m.len() ==> (#[trigger] m[i]).hits == 0
}

pub open spec fn resolution_inv(m: Seq<TraceView>, rows: Seq<RowView>, project: PathView) -> bool {
    &&& all_unhit(m)
    &&& unique_keys(m)
    &&& resolved_from(m, rows, project)
    &&& minimal_in(m, rows, project)
    &&& covers_rows(m, rows, project)
}

proof fn lemma_step_inv(
    m: Seq<TraceView>,
    done: Seq<RowView>,
    r: RowView,
    entries: Seq<(u64, LineType)>,
    project: PathView,
)
    requires
        resolution_inv(m, done, project),
    ensures
        resolution_inv(step(m, r, entries, project), done.push(r), project),
{
    let all = done.push(r);
    let n = done.len() as int;
    let m2 = step(m, r, entries, project);
    assert forall|k: int| 0 <= k < n implies all[k] == done[k] by {}
    assert(all[n] == r);
    if !row_accepted(r, project) {
        assert forall|i: int| 0 <= i < m2.len() implies exists|k: int|
            0 <= k < all.len() && row_accepted(#[trigger] all[k], project) && at_loc(
                all[k],
                (#[trigger] m2[i]).path,
                m2[i].line,
            ) && m2[i].address == Some(all[k].address) by {
            let k = choose|k: int|
                0 <= k < done.len() && row_accepted(#[trigger] done[k], project) && at_loc(
                    done[k],
                    m[i].path,
                    m[i].line,
                ) && m[i].address == Some(done[k].address);
            assert(all[k] == done[k]);
        }
        assert forall|k: int| 0 <= k < all.len() && row_accepted(#[trigger] all[k], project)
            implies has_loc(m2, join(all[k].dir, all[k].file), all[k].line->Some_0) by {
            assert(all[k] == done[k]);
        }
        assert forall|i: int, k: int|
            0 <= i < m2.len() && 0 <= k < all.len() && row_accepted(#[trigger] all[k], project)
                && at_loc(all[k], (#[trigger] m2[i]).path, m2[i].line) implies m2[i].address is Some
            && m2[i].address->Some_0 <= all[k].address by {
            assert(all[k] == done[k]);
        }
        return;
    }
    let path = join(r.dir, r.file);
    let line = r.line->Some_0;
    if has_loc(m, path, line) {
        let j = choose|j: int| 0 <= j < m.len() && (#[trigger] m[j]).path == path && m[j].line == line;
        let k0 = choose|k: int|
            0 <= k < done.len() && row_accepted(#[trigger] done[k], project) && at_loc(
                done[k],
                m[j].path,
                m[j].line,
            ) && m[j].address == Some(done[k].address);
        let a = m[j].address->Some_0;
        assert(m2 == m.update(j, TraceView { address: Some(min_u64(a, r.address)), ..m[j] }));
        assert forall|i: int| 0 <= i < m2.len() implies exists|k: int|
            0 <= k < all.len() && row_accepted(#[trigger] all[k], project) && at_loc(
                all[k],
                (#[trigger] m2[i]).path,
                m2[i].line,
            ) && m2[i].address == Some(all[k].address) by {
            if i == j {
                if a <= r.address {
                    assert(all[k0] == done[k0]);
                } else {
                    assert(at_loc(all[n], m2[i].path, m2[i].line));
                }
            } else {
                let k = choose|k: int|
                    0 <= k < done.len() && row_accepted(#[trigger] done[k], project) && at_loc(
                        done[k],
                        m[i].path,
                        m[i].line,
                    ) && m[i].address == Some(done[k].address);
                assert(all[k] == done[k]);
            }
        }
        assert forall|i: int, k: int|
            0 <= i < m2.len() && 0 <= k < all.len() && row_accepted(#[trigger] all[k], project)
                && at_loc(all[k], (#[trigger] m2[i]).path, m2[i].line) implies m2[i].address is Some
            && m2[i].address->Some_0 <= all[k].address by {
            if k < n {
                assert(all[k] == done[k]);
                assert(m[i].address is Some && m[i].address->Some_0 <= done[k].address);
            } else if i != j {
                assert(m[i].path == path && m[i].line == line);
            }
        }
        assert forall|k: int| 0 <= k < all.len() && row_accepted(#[trigger] all[k], project)
            implies has_loc(m2, join(all[k].dir, all[k].file), all[k].line->Some_0) by {
            if k < n {
                assert(all[k] == done[k]);
                let i = choose|i: int|
                    0 <= i < m.len() && (#[trigger] m[i]).path == join(done[k].dir, done[k].file)
                        && m[i].line == done[k].line->Some_0;
                assert(m2[i].path == m[i].path && m2[i].line == m[i].line);
            } else {
                assert(m2[j].path == path && m2[j].line == line);
            }
        }
        assert forall|x: int, y: int|
            0 <= x < m2.len() && 0 <= y < m2.len() && x != y implies !((#[trigger] m2[x]).path == (
            #[trigger] m2[y]).path && m2[x].line == m2[y].line) by {
            assert(m2[x].path == m[x].path && m2[x].line == m[x].line);
            assert(m2[y].path == m[y].path && m2[y].line == m[y].line);
        }
    } else {
        let e = TraceView {
            path,
            line,
            address: Some(r.address),
            trace_type: type_at(entries, r.address),
            hits: 0,
        };
        assert(m2 == m.push(e));
        assert forall|i: int| 0 <= i < m2.len() implies exists|k: int|
            0 <= k < all.len() && row_accepted(#[trigger] all[k], project) && at_loc(
                all[k],
                (#[trigger] m2[i]).path,
                m2[i].line,
            ) && m2[i].address == Some(all[k].address) by {
            if i == m.len() {
                assert(at_loc(all[n], m2[i].path, m2[i].line));
            } else {
                assert(m2[i] == m[i]);
                let k = choose|k: int|
                    0 <= k < done.len() && row_accepted(#[trigger] done[k], project) && at_loc(
                        done[k],
                        m[i].path,
                        m[i].line,
                    ) && m[i].address == Some(done[k].address);
                assert(all[k] == done[k]);
            }
        }
        assert forall|i: int, k: int|
            0 <= i < m2.len() && 0 <= k < all.len() && row_accepted(#[trigger] all[k], project)
                && at_loc(all[k], (#[trigger] m2[i]).path, m2[i].line) implies m2[i].address is Some
            && m2[i].address->Some_0 <= all[k].address by {
            if i == m.len() {
                if k < n {
                    assert(all[k] == done[k]);
                    assert(has_loc(m, join(done[k].dir, done[k].file), done[k].line->Some_0));
                }
            } else {
                assert(m2[i] == m[i]);
                if k < n {
                    assert(all[k] == done[k]);
                } else {
                    assert(m[i].path == path && m[i].line == line);
                }
            }
        }
        assert forall|k: int| 0 <= k < all.len() && row_accepted(#[trigger] all[k], project)
            implies has_loc(m2, join(all[k].dir, all[k].file), all[k].line->Some_0) by {
            if k < n {
                assert(all[k] == done[k]);
                let i = choose|i: int|
                    0 <= i < m.len() && (#[trigger] m[i]).path == join(done[k].dir, done[k].file)
                        && m[i].line == done[k].line->Some_0;
                assert(m2[i] == m[i]);
            } else {
                assert(m2[m.len() as int] == e);
            }
        }
        assert forall|x: int, y: int|
            0 <= x < m2.len() && 0 <= y < m2.len() && x != y implies !((#[trigger] m2[x]).path == (
            #[trigger] m2[y]).path && m2[x].line == m2[y].line) by {
            if x < m.len() {
                assert(m2[x] == m[x]);
            }
            if y < m.len() {
                assert(m2[y] == m[y]);
            }
        }
    }
}

pub proof fn lemma_rows_inv(
    m: Seq<TraceView>,
    done: Seq<RowView>,
    rows: Seq<RowView>,
    entries: Seq<(u64, LineType)>,
    project: PathView,
)
    requires
        resolution_inv(m, done, project),
    ensures
        resolution_inv(resolve_rows(m, rows, entries, project), done + rows, project),
    decreases rows.len(),
{
    if rows.len() == 0 {
        assert(done + rows == done);
    } else {
        lemma_rows_inv(m, done, rows.drop_last(), entries, project);
        lemma_step_inv(
            resolve_rows(m, rows.drop_last(), entries, project),
            done + rows.drop_last(),
            rows.last(),
            entries,
            project,
        );
        assert((done + rows.drop_last()).push(rows.last()) == done + rows);
    }
}

} // verus!
