use vstd::prelude::*;
use std::cmp::Ordering;

verus! {

/// A filesystem path held as its components: whether it starts at the root,
/// and the names of its normal components in order.
pub struct SourcePath {
    pub absolute: bool,
    pub parts: Vec<Vec<char>>,
}

/// The mathematical value of a `SourcePath`.
pub struct PathView {
    pub absolute: bool,
    pub parts: Seq<Seq<char>>,
}

pub open spec fn parts_view(parts: Seq<Vec<char>>) -> Seq<Seq<char>> {
    parts.map_values(|v: Vec<char>| v@)
}

impl View for SourcePath {
    type V = PathView;

    open spec fn view(&self) -> PathView {
        PathView { absolute: self.absolute, parts: parts_view(self.parts@) }
    }
}

/// `p` begins with every component of `q`, and both are rooted alike.
pub open spec fn starts_with(p: PathView, q: PathView) -> bool {
    &&& p.absolute == q.absolute
    &&& q.parts.len() <= p.parts.len()
    &&& p.parts.subrange(0, q.parts.len() as int) == q.parts
}

/// `base` with one more normal component.
pub open spec fn join_part(base: PathView, part: Seq<char>) -> PathView {
    PathView { absolute: base.absolute, parts: base.parts.push(part) }
}

/// Pushing `file` onto `dir`: an absolute `file` replaces `dir`.
pub open spec fn join(dir: PathView, file: PathView) -> PathView {
    if file.absolute {
        file
    } else {
        PathView { absolute: dir.absolute, parts: dir.parts + file.parts }
    }
}

pub open spec fn target_name() -> Seq<char> {
    seq!['t', 'a', 'r', 'g', 'e', 't']
}

pub open spec fn tests_name() -> Seq<char> {
    seq!['t', 'e', 's', 't', 's']
}

/// A directory that holds build output: a relative path whose first component
/// is `target`, or an absolute one under `<project>/target`.
pub open spec fn in_build_output(dir: PathView, project: PathView) -> bool {
    if !dir.absolute {
        dir.parts.len() > 0 && dir.parts[0] == target_name()
    } else {
        starts_with(dir, join_part(project, target_name()))
    }
}

pub fn chars_eq(a: &Vec<char>, b: &Vec<char>) -> (r: bool)
    ensures
        r == (a@ == b@),
{
    if a.len() != b.len() {
        return false;
    }
    let mut i: usize = 0;
    while i < a.len()
        invariant
            a@.len() == b@.len(),
            i <= a@.len(),
            a@.subrange(0, i as int) == b@.subrange(0, i as int),
        decreases a@.len() - i,
    {
        if a[i] != b[i] {
            assert(a@[i as int] != b@[i as int]);
            return false;
        }
        assert(a@.subrange(0, i + 1) == a@.subrange(0, i as int).push(a@[i as int]));
        assert(b@.subrange(0, i + 1) == b@.subrange(0, i as int).push(b@[i as int]));
        i = i + 1;
    }
    assert(a@ == a@.subrange(0, a@.len() as int));
    assert(b@ == b@.subrange(0, b@.len() as int));
    true
}

pub fn clone_chars(a: &Vec<char>) -> (r: Vec<char>)
    ensures
        r@ == a@,
{
    let mut r: Vec<char> = Vec::new();
    let mut i: usize = 0;
    while i < a.len()
        invariant
            i <= a@.len(),
            r@ == a@.subrange(0, i as int),
        decreases a@.len() - i,
    {
        r.push(a[i]);
        i = i + 1;
    }
    assert(a@ == a@.subrange(0, a@.len() as int));
    r
}

/// `p` and `q` have equal first `n` components.
fn parts_prefix_eq(p: &Vec<Vec<char>>, q: &Vec<Vec<char>>, n: usize) -> (r: bool)
    requires
        n <= p@.len(),
        n <= q@.len(),
    ensures
        r == (parts_view(p@).subrange(0, n as int) == parts_view(q@).subrange(0, n as int)),
{
    let mut i: usize = 0;
    while i < n
        invariant
            n <= p@.len(),
            n <= q@.len(),
            i <= n,
            parts_view(p@).subrange(0, i as int) == parts_view(q@).subrange(0, i as int),
        decreases n - i,
    {
        if !chars_eq(&p[i], &q[i]) {
            assert(parts_view(p@).subrange(0, n as int)[i as int] != parts_view(q@).subrange(
                0,
                n as int,
            )[i as int]);
            return false;
        }
        assert(parts_view(p@).subrange(0, i + 1) == parts_view(p@).subrange(0, i as int).push(
            p@[i as int]@,
        ));
        assert(parts_view(q@).subrange(0, i + 1) == parts_view(q@).subrange(0, i as int).push(
            q@[i as int]@,
        ));
        i = i + 1;
    }
    true
}

impl SourcePath {
    pub fn new(absolute: bool, parts: Vec<Vec<char>>) -> (r: SourcePath)
        ensures
            r.absolute == absolute,
            r.parts@ == parts@,
    {
        SourcePath { absolute, parts }
    }

    pub fn same_as(&self, other: &SourcePath) -> (r: bool)
        ensures
            r == (self@ == other@),
    {
        if self.absolute != other.absolute || self.parts.len() != other.parts.len() {
            if self.parts.len() != other.parts.len() {
                assert(self@.parts.len() != other@.parts.len());
            }
            return false;
        }
        let r = parts_prefix_eq(&self.parts, &other.parts, self.parts.len());
        assert(parts_view(self.parts@) == parts_view(self.parts@).subrange(
            0,
            self.parts@.len() as int,
        ));
        assert(parts_view(other.parts@) == parts_view(other.parts@).subrange(
            0,
            other.parts@.len() as int,
        ));
        r
    }

    /// Component-wise prefix test, as `Path::starts_with` does it.
    pub fn starts_with(&self, prefix: &SourcePath) -> (r: bool)
        ensures
            r == starts_with(self@, prefix@),
    {
        if self.absolute != prefix.absolute || prefix.parts.len() > self.parts.len() {
            return false;
        }
        let r = parts_prefix_eq(&self.parts, &prefix.parts, prefix.parts.len());
        assert(parts_view(prefix.parts@) == parts_view(prefix.parts@).subrange(
            0,
            prefix.parts@.len() as int,
        ));
        r
    }

    pub fn clone_path(&self) -> (r: SourcePath)
        ensures
            r@ == self@,
    {
        let mut parts: Vec<Vec<char>> = Vec::new();
        let mut i: usize = 0;
        while i < self.parts.len()
            invariant
                i <= self.parts@.len(),
                parts_view(parts@) == parts_view(self.parts@).subrange(0, i as int),
            decreases self.parts@.len() - i,
        {
            let c = clone_chars(&self.parts[i]);
            parts.push(c);
            assert(parts_view(self.parts@).subrange(0, i + 1) == parts_view(self.parts@).subrange(
                0,
                i as int,
            ).push(self.parts@[i as int]@));
            i = i + 1;
        }
        assert(parts_view(self.parts@) == parts_view(self.parts@).subrange(
            0,
            self.parts@.len() as int,
        ));
        SourcePath { absolute: self.absolute, parts }
    }

    /// This path with one more normal component.
    pub fn join_part(&self, part: Vec<char>) -> (r: SourcePath)
        ensures
            r@ == join_part(self@, part@),
    {
        let mut r = self.clone_path();
        r.parts.push(part);
        assert(parts_view(r.parts@) == parts_view(self.parts@).push(part@));
        r
    }

    /// `file` pushed onto this directory: an absolute `file` replaces it.
    pub fn join(&self, file: &SourcePath) -> (r: SourcePath)
        ensures
            r@ == join(self@, file@),
    {
        if file.absolute {
            return file.clone_path();
        }
        let mut r = self.clone_path();
        let mut i: usize = 0;
        while i < file.parts.len()
            invariant
                i <= file.parts@.len(),
                r.absolute == self.absolute,
                parts_view(r.parts@) == parts_view(self.parts@) + parts_view(file.parts@).subrange(
                    0,
                    i as int,
                ),
            decreases file.parts@.len() - i,
        {
            let c = clone_chars(&file.parts[i]);
            let ghost before = r.parts@;
            r.parts.push(c);
            assert(parts_view(r.parts@) == parts_view(before).push(c@));
            assert(parts_view(file.parts@).subrange(0, i + 1) == parts_view(file.parts@).subrange(
                0,
                i as int,
            ).push(file.parts@[i as int]@));
            i = i + 1;
        }
        assert(parts_view(file.parts@) == parts_view(file.parts@).subrange(
            0,
            file.parts@.len() as int,
        ));
        r
    }
}

pub fn target_chars() -> (r: Vec<char>)
    ensures
        r@ == target_name(),
{
    let r = vec!['t', 'a', 'r', 'g', 'e', 't'];
    assert(r@ == target_name());
    r
}

pub fn tests_chars() -> (r: Vec<char>)
    ensures
        r@ == tests_name(),
{
    let r = vec!['t', 'e', 's', 't', 's'];
    assert(r@ == tests_name());
    r
}

/// Whether `dir` lies in build output of `project`.
pub fn is_build_output(dir: &SourcePath, project: &SourcePath) -> (r: bool)
    ensures
        r == in_build_output(dir@, project@),
{
    if !dir.absolute {
        if dir.parts.len() == 0 {
            return false;
        }
        let t = target_chars();
        chars_eq(&dir.parts[0], &t)
    } else {
        let t = project.join_part(target_chars());
        dir.starts_with(&t)
    }
}

/// Lexicographic order of two names, character by character.
pub open spec fn chars_cmp(a: Seq<char>, b: Seq<char>) -> Ordering
    decreases a.len(),
{
    if a.len() == 0 {
        if b.len() == 0 {
            Ordering::Equal
        } else {
            Ordering::Less
        }
    } else if b.len() == 0 {
        Ordering::Greater
    } else if a[0] != b[0] {
        if a[0] < b[0] {
            Ordering::Less
        } else {
            Ordering::Greater
        }
    } else {
        chars_cmp(a.drop_first(), b.drop_first())
    }
}

/// Lexicographic order of two component lists.
pub open spec fn parts_cmp(a: Seq<Seq<char>>, b: Seq<Seq<char>>) -> Ordering
    decreases a.len(),
{
    if a.len() == 0 {
        if b.len() == 0 {
            Ordering::Equal
        } else {
            Ordering::Less
        }
    } else if b.len() == 0 {
        Ordering::Greater
    } else if chars_cmp(a[0], b[0]) != Ordering::Equal {
        chars_cmp(a[0], b[0])
    } else {
        parts_cmp(a.drop_first(), b.drop_first())
    }
}

/// The order of paths by their components, where the root comes before any
/// normal component.
pub open spec fn path_cmp(p: PathView, q: PathView) -> Ordering {
    if p.absolute == q.absolute {
        parts_cmp(p.parts, q.parts)
    } else if p.absolute {
        if q.parts.len() == 0 {
            Ordering::Greater
        } else {
            Ordering::Less
        }
    } else {
        if p.parts.len() == 0 {
            Ordering::Less
        } else {
            Ordering::Greater
        }
    }
}

pub fn compare_chars(a: &Vec<char>, b: &Vec<char>) -> (r: Ordering)
    ensures
        r == chars_cmp(a@, b@),
{
    let mut i: usize = 0;
    assert(a@.subrange(0, a@.len() as int) == a@);
    assert(b@.subrange(0, b@.len() as int) == b@);
    while i < a.len() && i < b.len()
        invariant
            i <= a@.len(),
            i <= b@.len(),
            chars_cmp(a@, b@) == chars_cmp(
                a@.subrange(i as int, a@.len() as int),
                b@.subrange(i as int, b@.len() as int),
            ),
        decreases a@.len() - i,
    {
        let ghost ra = a@.subrange(i as int, a@.len() as int);
        let ghost rb = b@.subrange(i as int, b@.len() as int);
        assert(ra.drop_first() == a@.subrange(i + 1, a@.len() as int));
        assert(rb.drop_first() == b@.subrange(i + 1, b@.len() as int));
        assert(ra[0] == a@[i as int] && rb[0] == b@[i as int]);
        if a[i] < b[i] {
            return Ordering::Less;
        }
        if a[i] > b[i] {
            return Ordering::Greater;
        }
        i = i + 1;
    }
    if i < b.len() {
        Ordering::Less
    } else if i < a.len() {
        Ordering::Greater
    } else {
        Ordering::Equal
    }
}

impl SourcePath {
    /// Orders paths as `path_cmp` does.
    pub fn compare(&self, other: &SourcePath) -> (r: Ordering)
        ensures
            r == path_cmp(self@, other@),
    {
        if self.absolute != other.absolute {
            if self.absolute {
                return if other.parts.len() == 0 {
                    Ordering::Greater
                } else {
                    Ordering::Less
                };
            } else {
                return if self.parts.len() == 0 {
                    Ordering::Less
                } else {
                    Ordering::Greater
                };
            }
        }
        let ghost a = parts_view(self.parts@);
        let ghost b = parts_view(other.parts@);
        let mut i: usize = 0;
        assert(path_cmp(self@, other@) == parts_cmp(a, b));
        assert(a.subrange(0, a.len() as int) == a);
        assert(b.subrange(0, b.len() as int) == b);
        while i < self.parts.len() && i < other.parts.len()
            invariant
                self.absolute == other.absolute,
                path_cmp(self@, other@) == parts_cmp(a, b),
                a == parts_view(self.parts@),
                b == parts_view(other.parts@),
                i <= a.len(),
                i <= b.len(),
                parts_cmp(a, b) == parts_cmp(
                    a.subrange(i as int, a.len() as int),
                    b.subrange(i as int, b.len() as int),
                ),
            decreases a.len() - i,
        {
            let ghost ra = a.subrange(i as int, a.len() as int);
            let ghost rb = b.subrange(i as int, b.len() as int);
            assert(ra.drop_first() == a.subrange(i + 1, a.len() as int));
            assert(rb.drop_first() == b.subrange(i + 1, b.len() as int));
            assert(ra[0] == self.parts@[i as int]@ && rb[0] == other.parts@[i as int]@);
            let c = compare_chars(&self.parts[i], &other.parts[i]);
            assert(ra.len() > 0 && rb.len() > 0);
            match c {
                Ordering::Equal => {},
                _ => {
                    assert(c == parts_cmp(ra, rb));
                    return c;
                },
            }
            i = i + 1;
        }
        if i < other.parts.len() {
            Ordering::Less
        } else if i < self.parts.len() {
            Ordering::Greater
        } else {
            Ordering::Equal
        }
    }
}

} // verus!
