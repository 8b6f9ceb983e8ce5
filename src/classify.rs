use vstd::prelude::*;

verus! {

/// What a function is, judged by its demangled name.
#[derive(Clone, Copy, Debug, PartialEq, Eq, Structural)]
pub enum FunctionType {
    Generated,
    Test,
    Standard,
}

/// How a traced line is classified.
#[derive(Clone, Copy, Debug, PartialEq, Eq, PartialOrd, Structural)]
pub enum LineType {
    /// Generated test main. Shouldn't be traced.
    TestMain,
    /// Entry of function known to be a test
    TestEntry(u64),
    /// Entry of function. May or may not be test
    FunctionEntry(u64),
    /// Standard statement
    Statement,
    /// Condition
    Condition,
    /// Unknown type
    Unknown,
    /// Unused meta-code
    UnusedGeneric,
}

/// A function's start address, the offset of its end, and its kind.
#[derive(Clone, Copy, Debug, PartialEq, Eq, Structural)]
pub struct FuncDesc {
    pub low: u64,
    pub high: u64,
    pub kind: FunctionType,
}

/// An attribute value of a debugging information entry, in the forms that
/// classification reads: a target address, unsigned data, or a string read
/// from the string section (empty where it could not be read).
pub enum AttrValue {
    Addr(u64),
    Udata(u64),
    StrRef(String),
    Other,
}

/// A debugging information entry below a unit's root: its tag and the
/// attributes that classification reads, where present.
pub struct DebugEntry {
    pub tag: u16,
    pub low_pc: Option<AttrValue>,
    pub high_pc: Option<AttrValue>,
    pub linkage_name: Option<AttrValue>,
}

/// The DWARF tag of a subprogram entry.
pub const DW_TAG_SUBPROGRAM: u16 = 0x2e;

/// The human-readable form of a mangled symbol name.
pub uninterp spec fn demangled(name: Seq<char>) -> Seq<char>;

/// Relies on rustc_demangle::demangle and its `Display`: the readable name is
/// a function of the mangled one.
#[verifier::external_body]
fn demangle_name(name: &String) -> (r: Vec<char>)
    ensures
        r@ == demangled(name@),
{
    rustc_demangle::demangle(name).to_string().chars().collect()
}

/// `pat` occurs in `s` as a contiguous run.
pub open spec fn contains(s: Seq<char>, pat: Seq<char>) -> bool {
    exists|i: int|
        0 <= i && i + pat.len() <= s.len() && #[trigger] s.subrange(i, i + pat.len()) == pat
}

pub open spec fn test_module_marker() -> Seq<char> {
    seq!['t', 'e', 's', 't', 's', ':', ':']
}

pub open spec fn harness_main_marker() -> Seq<char> {
    seq!['_', '_', 't', 'e', 's', 't', ':', ':', 'm', 'a', 'i', 'n']
}

/// The kind of a function with demangled name `name`.
pub open spec fn kind_of(name: Seq<char>) -> FunctionType {
    if contains(name, test_module_marker()) {
        FunctionType::Test
    } else if contains(name, harness_main_marker()) {
        FunctionType::Generated
    } else {
        FunctionType::Standard
    }
}

/// The classification a function contributes at its entry address.
pub open spec fn entry_type(d: FuncDesc) -> LineType {
    match d.kind {
        FunctionType::Test => LineType::TestEntry(d.high),
        FunctionType::Standard => LineType::FunctionEntry(d.high),
        FunctionType::Generated => LineType::TestMain,
    }
}

/// The classification of `addr`: that of the first entry at exactly that
/// address, else `Unknown`.
pub open spec fn type_at(entries: Seq<(u64, LineType)>, addr: u64) -> LineType
    decreases entries.len(),
{
    if entries.len() == 0 {
        LineType::Unknown
    } else if entries[0].0 == addr {
        entries[0].1
    } else {
        type_at(entries.drop_first(), addr)
    }
}

fn matches_at(s: &Vec<char>, pat: &Vec<char>, at: usize) -> (r: bool)
    requires
        at + pat@.len() <= s@.len(),
    ensures
        r == (s@.subrange(at as int, at + pat@.len()) == pat@),
{
    let n = s.len();
    let mut j: usize = 0;
    while j < pat.len()
        invariant
            n == s@.len(),
            at + pat@.len() <= s@.len(),
            j <= pat@.len(),
            s@.subrange(at as int, at + j) == pat@.subrange(0, j as int),
        decreases pat@.len() - j,
    {
        if s[at + j] != pat[j] {
            assert(s@.subrange(at as int, at + pat@.len())[j as int] != pat@[j as int]);
            return false;
        }
        assert(s@.subrange(at as int, at + j + 1) == s@.subrange(at as int, at + j).push(
            s@[at + j],
        ));
        assert(pat@.subrange(0, j + 1) == pat@.subrange(0, j as int).push(pat@[j as int]));
        j = j + 1;
    }
    assert(pat@ == pat@.subrange(0, pat@.len() as int));
    true
}

/// Whether `pat` occurs in `s`.
pub fn contains_chars(s: &Vec<char>, pat: &Vec<char>) -> (r: bool)
    ensures
        r == contains(s@, pat@),
{
    if pat.len() > s.len() {
        return false;
    }
    if pat.len() == 0 {
        assert(s@.subrange(0int, 0int + pat@.len()) == pat@);
        return true;
    }
    let n = s.len();
    let last = n - pat.len();
    let mut i: usize = 0;
    while i <= last
        invariant
            n == s@.len(),
            last + pat@.len() == s@.len(),
            pat@.len() > 0,
            i <= last + 1,
            forall|k: int| 0 <= k < i ==> #[trigger] s@.subrange(k, k + pat@.len()) != pat@,
        decreases last + 1 - i,
    {
        if matches_at(s, pat, i) {
            return true;
        }
        i = i + 1;
    }
    false
}

/// The kind of a function with demangled name `name`: a test where the name
/// goes through a `tests` module, the harness's generated main, or otherwise
/// standard.
pub fn classify_name(name: &Vec<char>) -> (r: FunctionType)
    ensures
        r == kind_of(name@),
{
    let tests = vec!['t', 'e', 's', 't', 's', ':', ':'];
    assert(tests@ == test_module_marker());
    let main = vec!['_', '_', 't', 'e', 's', 't', ':', ':', 'm', 'a', 'i', 'n'];
    assert(main@ == harness_main_marker());
    if contains_chars(name, &tests) {
        FunctionType::Test
    } else if contains_chars(name, &main) {
        FunctionType::Generated
    } else {
        FunctionType::Standard
    }
}

/// The kind of a function with linkage (mangled) name `linkage`.
pub fn classify_linkage_name(linkage: &String) -> (r: FunctionType)
    ensures
        r == kind_of(demangled(linkage@)),
{
    let name = demangle_name(linkage);
    classify_name(&name)
}

/// The descriptor of an entry: an address or offset that is absent or of
/// another form reads as 0, and a function without a linkage name in the
/// string section is standard.
pub open spec fn desc_of(e: DebugEntry) -> FuncDesc {
    FuncDesc {
        low: match e.low_pc {
            Some(AttrValue::Addr(x)) => x,
            _ => 0,
        },
        high: match e.high_pc {
            Some(AttrValue::Udata(x)) => x,
            _ => 0,
        },
        kind: match e.linkage_name {
            Some(AttrValue::StrRef(n)) => kind_of(demangled(n@)),
            _ => FunctionType::Standard,
        },
    }
}

/// The descriptors of the subprogram entries among `entries`, in order.
pub open spec fn subprogram_descs(entries: Seq<DebugEntry>) -> Seq<FuncDesc>
    decreases entries.len(),
{
    if entries.len() == 0 {
        Seq::empty()
    } else if entries.last().tag == DW_TAG_SUBPROGRAM {
        subprogram_descs(entries.drop_last()).push(desc_of(entries.last()))
    } else {
        subprogram_descs(entries.drop_last())
    }
}

/// Each descriptor's start address with the classification it contributes.
pub open spec fn entry_pairs(descs: Seq<FuncDesc>) -> Seq<(u64, LineType)> {
    descs.map_values(|d: FuncDesc| (d.low, entry_type(d)))
}

/// The descriptor of one subprogram entry.
pub fn generate_func_desc(e: &DebugEntry) -> (r: FuncDesc)
    ensures
        r == desc_of(*e),
{
    let low = match &e.low_pc {
        Some(AttrValue::Addr(x)) => *x,
        _ => 0u64,
    };
    let high = match &e.high_pc {
        Some(AttrValue::Udata(x)) => *x,
        _ => 0u64,
    };
    let kind = match &e.linkage_name {
        Some(AttrValue::StrRef(n)) => classify_linkage_name(n),
        _ => FunctionType::Standard,
    };
    FuncDesc { low, high, kind }
}

/// Finds all function entry points, in order. This identifies definite tests,
/// but may be prone to false negatives.
pub fn get_entry_points(entries: &Vec<DebugEntry>) -> (r: Vec<FuncDesc>)
    ensures
        r@ == subprogram_descs(entries@),
{
    let mut r: Vec<FuncDesc> = Vec::new();
    let mut i: usize = 0;
    assert(entries@.subrange(0, 0) =~= Seq::<DebugEntry>::empty());
    while i < entries.len()
        invariant
            i <= entries@.len(),
            r@ == subprogram_descs(entries@.subrange(0, i as int)),
        decreases entries@.len() - i,
    {
        assert(entries@.subrange(0, i + 1).drop_last() == entries@.subrange(0, i as int));
        assert(entries@.subrange(0, i + 1).last() == entries@[i as int]);
        if entries[i].tag == DW_TAG_SUBPROGRAM {
            let d = generate_func_desc(&entries[i]);
            r.push(d);
        }
        i = i + 1;
    }
    assert(entries@.subrange(0, entries@.len() as int) == entries@);
    r
}

/// Each descriptor projected to its entry address and the classification it
/// contributes there.
pub fn entry_types(descs: &Vec<FuncDesc>) -> (r: Vec<(u64, LineType)>)
    ensures
        r@ == entry_pairs(descs@),
{
    let mut r: Vec<(u64, LineType)> = Vec::new();
    let mut i: usize = 0;
    while i < descs.len()
        invariant
            i <= descs@.len(),
            r@.len() == i,
            forall|k: int|
                0 <= k < i ==> #[trigger] r@[k] == (descs@[k].low, entry_type(descs@[k])),
        decreases descs@.len() - i,
    {
        let d = descs[i];
        let t = match d.kind {
            FunctionType::Test => LineType::TestEntry(d.high),
            FunctionType::Standard => LineType::FunctionEntry(d.high),
            FunctionType::Generated => LineType::TestMain,
        };
        r.push((d.low, t));
        i = i + 1;
    }
    assert(r@ =~= entry_pairs(descs@));
    r
}

/// The classification of the instruction at `addr`.
pub fn trace_type_at(entries: &Vec<(u64, LineType)>, addr: u64) -> (r: LineType)
    ensures
        r == type_at(entries@, addr),
{
    let mut i: usize = 0;
    assert(entries@.subrange(0, entries@.len() as int) == entries@);
    while i < entries.len()
        invariant
            i <= entries@.len(),
            type_at(entries@, addr) == type_at(entries@.subrange(i as int, entries@.len() as int), addr),
        decreases entries@.len() - i,
    {
        let ghost rest = entries@.subrange(i as int, entries@.len() as int);
        assert(rest.drop_first() == entries@.subrange(i + 1, entries@.len() as int));
        if entries[i].0 == addr {
            return entries[i].1;
        }
        i = i + 1;
    }
    LineType::Unknown
}

} // verus!
