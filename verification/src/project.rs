//! Which files of a project hold Nova source or tests, and which functions
//! of a program are tests.
use vstd::prelude::*;
use crate::infer::ast::{Program, Statement};
use crate::syntax::lexer::chars_of;

verus! {

/// Whether `s` begins with `p`.
pub open spec fn has_prefix(s: Seq<char>, p: Seq<char>) -> bool {
    p.len() <= s.len() && s.subrange(0, p.len() as int) == p
}

/// Whether `s` ends with `p`.
pub open spec fn has_suffix(s: Seq<char>, p: Seq<char>) -> bool {
    p.len() <= s.len() && s.subrange(s.len() - p.len(), s.len() as int) == p
}

/// Whether `p` occurs in `s`.
pub open spec fn has_infix(s: Seq<char>, p: Seq<char>) -> bool {
    exists|i: int| 0 <= i && i + p.len() <= s.len() && #[trigger] s.subrange(i, i + p.len()) == p
}

/// Whether `p` occurs in `cs` at `i`.
fn occurs_at(cs: &Vec<char>, p: &Vec<char>, i: usize) -> (r: bool)
    requires
        i + p@.len() <= cs@.len(),
    ensures
        r == (cs@.subrange(i as int, i + p@.len()) == p@),
{
    let n = cs.len();
    let mut k: usize = 0;
    while k < p.len()
        invariant
            n == cs@.len(),
            k <= p@.len(),
            i + p@.len() <= cs@.len(),
            forall|j: int| 0 <= j < k ==> cs@[i + j] == p@[j],
        decreases p@.len() - k,
    {
        if cs[i + k] != p[k] {
            assert(cs@.subrange(i as int, i + p@.len())[k as int] != p@[k as int]);
            return false;
        }
        k = k + 1;
    }
    assert(cs@.subrange(i as int, i + p@.len()) =~= p@);
    true
}

/// Whether `s` begins with `p`.
pub fn starts_with(s: &str, p: &str) -> (r: bool)
    ensures
        r == has_prefix(s@, p@),
{
    let cs = chars_of(s);
    let ps = chars_of(p);
    if ps.len() > cs.len() {
        return false;
    }
    occurs_at(&cs, &ps, 0)
}

/// Whether `s` ends with `p`.
pub fn ends_with(s: &str, p: &str) -> (r: bool)
    ensures
        r == has_suffix(s@, p@),
{
    let cs = chars_of(s);
    let ps = chars_of(p);
    if ps.len() > cs.len() {
        return false;
    }
    occurs_at(&cs, &ps, cs.len() - ps.len())
}

/// Whether `p` occurs in `s`.
pub fn contains(s: &str, p: &str) -> (r: bool)
    ensures
        r == has_infix(s@, p@),
{
    let cs = chars_of(s);
    let ps = chars_of(p);
    if ps.len() > cs.len() {
        assert(!has_infix(s@, p@));
        return false;
    }
    if ps.len() == 0 {
        assert(s@.subrange(0int, 0int + p@.len()) =~= p@);
        return true;
    }
    let n = cs.len();
    let last = n - ps.len();
    let mut i: usize = 0;
    while i <= last
        invariant
            cs@ == s@,
            ps@ == p@,
            last == cs@.len() - ps@.len(),
            ps@.len() > 0,
            cs@.len() <= usize::MAX,
            i <= last + 1,
            forall|j: int| 0 <= j < i ==> #[trigger] s@.subrange(j, j + p@.len()) != p@,
        decreases last + 1 - i,
    {
        if occurs_at(&cs, &ps, i) {
            return true;
        }
        i = i + 1;
    }
    false
}

/// Whether `a` and `b` are the same text.
fn same_text(a: &str, b: &str) -> (r: bool)
    ensures
        r == (a@ == b@),
{
    String::from_str(a) == String::from_str(b)
}

/// Whether a file extension marks Nova source: `nova` or `nv`.
pub fn is_source_extension(ext: &str) -> (r: bool)
    ensures
        r == (ext@ == "nova"@ || ext@ == "nv"@),
{
    same_text(ext, "nova") || same_text(ext, "nv")
}

/// Whether a directory entry is passed over when documentation is collected:
/// hidden entries, `target` and `generated`.
pub fn is_skipped_entry(name: &str) -> (r: bool)
    ensures
        r == (has_prefix(name@, "."@) || name@ == "target"@ || name@ == "generated"@),
{
    starts_with(name, ".") || same_text(name, "target") || same_text(name, "generated")
}

/// Whether a source file is a test file by its name alone: its stem begins
/// with `test_` or ends with `_test`, or it lies in a directory named
/// `tests`.
pub fn is_test_file_name(stem: &str, parent: &str) -> (r: bool)
    ensures
        r == (has_prefix(stem@, "test_"@) || has_suffix(stem@, "_test"@) || parent@ == "tests"@),
{
    starts_with(stem, "test_") || ends_with(stem, "_test") || same_text(parent, "tests")
}

/// Whether source text defines a test function.
pub fn defines_tests(content: &str) -> (r: bool)
    ensures
        r == has_infix(content@, "fn test_"@),
{
    contains(content, "fn test_")
}

/// Whether a function of this name is a test to run under the filter.
pub open spec fn selected_test(name: Seq<char>, filter: Option<String>) -> bool {
    has_prefix(name, "test_"@) && match filter {
        Some(f) => has_infix(name, f@),
        None => true,
    }
}

/// The names of the test functions among `sts`, in order.
pub open spec fn test_names_m(sts: Seq<Statement>, filter: Option<String>) -> Seq<Seq<char>>
    decreases sts.len(),
{
    if sts.len() == 0 {
        Seq::empty()
    } else {
        let rest = test_names_m(sts.drop_last(), filter);
        match sts.last() {
            Statement::FunctionDef { name, .. } => if selected_test(name@, filter) {
                rest.push(name@)
            } else {
                rest
            },
            _ => rest,
        }
    }
}

/// The texts of strings.
pub open spec fn strings_view(v: Seq<String>) -> Seq<Seq<char>> {
    Seq::new(v.len(), |i: int| v[i]@)
}

/// The test functions of a program: the top-level functions whose name
/// begins with `test_` and, under a filter, contains it.
pub fn test_function_names(program: &Program, filter: &Option<String>) -> (r: Vec<String>)
    ensures
        strings_view(r@) == test_names_m(program.statements@, *filter),
{
    let sts = &program.statements;
    let mut r: Vec<String> = Vec::new();
    let mut i: usize = 0;
    assert(sts@.take(0) =~= Seq::<Statement>::empty());
    assert(strings_view(r@) =~= Seq::<Seq<char>>::empty());
    while i < sts.len()
        invariant
            i <= sts@.len(),
            strings_view(r@) == test_names_m(sts@.take(i as int), *filter),
        decreases sts@.len() - i,
    {
        assert(sts@.take(i + 1).drop_last() =~= sts@.take(i as int));
        match &sts[i] {
            Statement::FunctionDef { name, .. } => {
                let wanted = starts_with(name.as_str(), "test_") && match filter {
                    Some(f) => contains(name.as_str(), f.as_str()),
                    None => true,
                };
                if wanted {
                    let ghost before = r@;
                    r.push(name.clone());
                    assert(strings_view(r@) =~= strings_view(before).push(name@));
                }
            },
            _ => {},
        }
        i = i + 1;
    }
    assert(sts@.take(sts@.len() as int) =~= sts@);
    r
}

/// Whether a watched change calls for running the program again: the file
/// was modified or created, the change concerns the program or another Nova
/// source file, and at least 100 ms passed since the last run.
pub fn should_rerun(is_change: bool, relevant: bool, millis_since_last_run: u128) -> (r: bool)
    ensures
        r == (is_change && relevant && millis_since_last_run >= 100),
{
    is_change && relevant && millis_since_last_run >= 100
}

} // verus!
