//! The report model and its operations.

use vstd::prelude::*;

use crate::names::{demangle_name, demangled};
use crate::order::{
    before, distinct_addresses, lemma_insert_sorted, lemma_sort_keeps_distinct, precedes,
    stable_sort_of,
};

verus! {

/// Source of the stack-size metadata.
#[derive(Clone, Copy, Debug, PartialEq, Eq, Structural)]
pub enum Mode {
    /// A linked executable.
    Elf,
    /// A relocatable object file.
    Object,
}

/// Ordering keys for a report.
#[derive(Clone, Copy, Debug, PartialEq, Eq, Structural)]
pub enum Sort {
    /// By code size, largest first.
    Text,
    /// By stack frame size, largest first.
    Stack,
    /// By address, lowest first.
    Address,
}

/// One function of a report.
#[derive(Clone, Debug, Default, PartialEq, Eq)]
pub struct Function {
    /// Link address.
    pub addr: u64,
    /// Demangled display name; the identity used when comparing reports.
    pub name: String,
    /// Code size in bytes.
    pub text: u64,
    /// Stack frame size in bytes; 0 when the frame size was not reported.
    pub stack: u64,
    /// `file:line` of the definition, empty when unresolved.
    pub source: String,
}

/// A stack-use report: the functions in their current order.
#[derive(Clone, Debug, PartialEq, Eq)]
pub struct Report {
    pub functions: Vec<Function>,
}

impl Function {
    /// A field-for-field copy.
    pub fn duplicate(&self) -> (r: Function)
        ensures
            r == *self,
    {
        Function {
            addr: self.addr,
            name: self.name.clone(),
            text: self.text,
            stack: self.stack,
            source: self.source.clone(),
        }
    }
}

impl Report {
    /// Reorders the functions by `sort`, keeping the relative order of
    /// functions whose keys are equal.
    pub fn sort(&mut self, sort: Sort)
        ensures
            stable_sort_of(old(self).functions@, final(self).functions@, sort),
            distinct_addresses(old(self).functions@) ==> distinct_addresses(final(self).functions@),
    {
        let mut rest: Vec<Function> = Vec::new();
        std::mem::swap(&mut rest, &mut self.functions);
        let ghost orig = rest@;
        let mut out: Vec<Function> = Vec::new();
        let ghost mut done: nat = 0;
        proof {
            assert(orig.take(0) =~= Seq::<Function>::empty());
        }
        while rest.len() > 0
            invariant
                done <= orig.len(),
                rest@ =~= orig.skip(done as int),
                stable_sort_of(orig.take(done as int), out@, sort),
            decreases rest.len(),
        {
            let x = rest.remove(0);
            let mut p: usize = 0;
            while p < out.len() && !precedes(&x, &out[p], sort)
                invariant
                    p <= out.len(),
                    forall|j: int| 0 <= j < p ==> !(#[trigger] before(x, out@[j], sort)),
                decreases out.len() - p,
            {
                p = p + 1;
            }
            proof {
                assert(x == orig[done as int]);
                assert(orig.take((done + 1) as int) =~= orig.take(done as int).push(x));
                lemma_insert_sorted(orig.take(done as int), out@, x, p as int, sort);
            }
            out.insert(p, x);
            proof {
                done = done + 1;
                assert(rest@ =~= orig.skip(done as int));
            }
        }
        proof {
            assert(orig.take(done as int) =~= orig);
            if distinct_addresses(orig) {
                lemma_sort_keeps_distinct(orig, out@, sort);
            }
        }
        self.functions = out;
    }
}

} // verus!

verus! {

/// Failures of the analysis.
#[derive(Clone, Copy, Debug, PartialEq, Eq, Structural)]
pub enum ReportError {
    /// The binary could not be read or parsed.
    Ingest,
    /// The analysis mode is not implemented.
    UnsupportedMode,
    /// A stored report is malformed.
    Format,
    /// Writing a report and comparing against one were both asked for.
    Usage,
    /// No function carries stack-size information.
    EmptyResult,
}

/// Change of a function's sizes against a baseline report.
#[derive(Clone, Copy, Debug, PartialEq, Eq, Structural)]
pub struct Delta {
    pub text: i128,
    pub stack: i128,
}

/// `i` is the first position in `v` of a function named `name`.
pub open spec fn first_named(v: Seq<Function>, name: Seq<char>, i: int) -> bool {
    &&& 0 <= i < v.len()
    &&& v[i].name@ == name
    &&& forall|j: int| 0 <= j < i ==> (#[trigger] v[j]).name@ != name
}

/// Some function of `v` is named `name`.
pub open spec fn has_name(v: Seq<Function>, name: Seq<char>) -> bool {
    exists|j: int| 0 <= j < v.len() && (#[trigger] v[j]).name@ == name
}

/// What the comparison reports for `cur` against `base`.
pub open spec fn delta_against(cur: Function, base: Seq<Function>, d: Option<Delta>) -> bool {
    match d {
        None => !has_name(base, cur.name@),
        Some(d) => exists|j: int|
            first_named(base, cur.name@, j) && d.text == cur.text - base[j].text && d.stack
                == cur.stack - base[j].stack,
    }
}

impl Report {
    /// Position of the first function named `name`.
    pub fn find_index(&self, name: &str) -> (r: Option<usize>)
        ensures
            match r {
                Some(i) => first_named(self.functions@, name@, i as int),
                None => !has_name(self.functions@, name@),
            },
    {
        let target = name.to_owned();
        let mut i: usize = 0;
        while i < self.functions.len()
            invariant
                i <= self.functions.len(),
                target@ == name@,
                forall|j: int| 0 <= j < i ==> (#[trigger] self.functions@[j]).name@ != name@,
            decreases self.functions.len() - i,
        {
            if self.functions[i].name == target {
                return Some(i);
            }
            i = i + 1;
        }
        None
    }

    /// The first function named `name`.
    pub fn find(&self, name: &str) -> (r: Option<&Function>)
        ensures
            match r {
                Some(f) => exists|i: int|
                    first_named(self.functions@, name@, i) && *f == self.functions@[i],
                None => !has_name(self.functions@, name@),
            },
    {
        match self.find_index(name) {
            Some(i) => Some(&self.functions[i]),
            None => None,
        }
    }

    /// For each function, in order, its change in code and stack size against
    /// the first function of `baseline` with the same name; `None` where
    /// `baseline` has no function of that name.
    pub fn diff(&self, baseline: &Report) -> (r: Vec<Option<Delta>>)
        ensures
            r@.len() == self.functions@.len(),
            forall|i: int|
                0 <= i < r@.len() ==> delta_against(
                    self.functions@[i],
                    baseline.functions@,
                    #[trigger] r@[i],
                ),
    {
        let mut r: Vec<Option<Delta>> = Vec::new();
        let mut i: usize = 0;
        while i < self.functions.len()
            invariant
                i <= self.functions.len(),
                r@.len() == i,
                forall|j: int|
                    0 <= j < i ==> delta_against(
                        self.functions@[j],
                        baseline.functions@,
                        #[trigger] r@[j],
                    ),
            decreases self.functions.len() - i,
        {
            let f = &self.functions[i];
            let d = match baseline.find_index(f.name.as_str()) {
                Some(j) => {
                    let b = &baseline.functions[j];
                    Some(Delta {
                        text: f.text as i128 - b.text as i128,
                        stack: f.stack as i128 - b.stack as i128,
                    })
                },
                None => None,
            };
            r.push(d);
            i = i + 1;
        }
        r
    }
}

} // verus!

verus! {

/// One defined function as the stack-size extraction delivers it.
#[derive(Clone, Debug, PartialEq, Eq)]
pub struct Symbol {
    /// Link address.
    pub addr: u64,
    /// Raw (mangled) names at this address; the first one names the function.
    pub names: Vec<String>,
    /// Code size in bytes.
    pub size: u64,
    /// Stack frame size in bytes, where the compiler reported one.
    pub stack: Option<u64>,
    /// `file:line` of the definition, where it could be resolved.
    pub source: Option<String>,
}

/// `f` is the report entry for `s`.
pub open spec fn built_from(f: Function, s: Symbol) -> bool {
    &&& s.names@.len() > 0
    &&& f.addr == s.addr
    &&& f.name@ == demangled(s.names@[0]@)
    &&& f.text == s.size
    &&& f.stack == match s.stack {
        Some(n) => n,
        None => 0,
    }
    &&& f.source@ == match s.source {
        Some(t) => t@,
        None => Seq::<char>::empty(),
    }
}

/// `b` holds the report entry for each symbol of `defined`, in its order.
pub open spec fn built_all(b: Seq<Function>, defined: Seq<Symbol>) -> bool {
    &&& b.len() == defined.len()
    &&& forall|i: int| 0 <= i < b.len() ==> built_from(#[trigger] b[i], defined[i])
}

/// No two symbols share an address.
pub open spec fn distinct_symbols(v: Seq<Symbol>) -> bool {
    forall|i: int, j: int| 0 <= i < j < v.len() ==> (#[trigger] v[i]).addr != (#[trigger] v[j]).addr
}

/// Some function carries stack-size information.
pub open spec fn has_stack_info(v: Seq<Function>) -> bool {
    exists|i: int| 0 <= i < v.len() && (#[trigger] v[i]).stack > 0
}

/// `p` begins `s`.
pub open spec fn begins_with(s: Seq<char>, p: Seq<char>) -> bool {
    p.len() <= s.len() && s.subrange(0, p.len() as int) == p
}

/// `f` is shown under a stack-size floor of `min_stack` and a name prefix.
pub open spec fn shown(f: Function, min_stack: u64, prefix: Option<Seq<char>>) -> bool {
    &&& f.stack >= min_stack
    &&& match prefix {
        Some(p) => begins_with(f.name@, p),
        None => true,
    }
}

/// The text of an optional prefix.
pub open spec fn prefix_view(prefix: Option<&str>) -> Option<Seq<char>> {
    match prefix {
        Some(p) => Some(p@),
        None => None,
    }
}

/// Writing a report and comparing against one exclude each other.
pub fn check_usage(write: bool, compare: bool) -> (r: Result<(), ReportError>)
    ensures
        r == (if write && compare {
            Err(ReportError::Usage)
        } else {
            Ok(())
        }),
{
    if write && compare {
        Err(ReportError::Usage)
    } else {
        Ok(())
    }
}

/// Whether `name` begins with `prefix`.
pub fn name_begins_with(name: &str, prefix: &str) -> (r: bool)
    ensures
        r == begins_with(name@, prefix@),
{
    let n = name.unicode_len();
    let m = prefix.unicode_len();
    if m > n {
        return false;
    }
    let mut i: usize = 0;
    while i < m
        invariant
            m <= n,
            n == name@.len(),
            m == prefix@.len(),
            i <= m,
            forall|j: int| 0 <= j < i ==> name@[j] == prefix@[j],
        decreases m - i,
    {
        if name.get_char(i) != prefix.get_char(i) {
            assert(name@.subrange(0, m as int)[i as int] != prefix@[i as int]);
            return false;
        }
        i = i + 1;
    }
    assert(name@.subrange(0, m as int) =~= prefix@);
    true
}

impl Report {
    /// Builds a report from the defined functions of a binary: each function
    /// is named by its first raw name, demangled; an unreported stack size
    /// counts as 0 and an unresolved source as empty text; the functions
    /// are ordered by ascending address.
    pub fn parse(mode: Mode, defined: &Vec<Symbol>) -> (r: Result<Report, ReportError>)
        requires
            forall|i: int| 0 <= i < defined@.len() ==> (#[trigger] defined@[i]).names@.len() > 0,
        ensures
            mode == Mode::Object ==> r == Err::<Report, ReportError>(ReportError::UnsupportedMode),
            mode == Mode::Elf ==> match r {
                Ok(rep) => (exists|b: Seq<Function>|
                    #[trigger] built_all(b, defined@) && stable_sort_of(b, rep.functions@, Sort::Address))
                    && (distinct_symbols(defined@) ==> distinct_addresses(rep.functions@)),
                Err(_) => false,
            },
    {
        match mode {
            Mode::Object => {
                return Err(ReportError::UnsupportedMode);
            },
            Mode::Elf => {},
        }
        let mut functions: Vec<Function> = Vec::new();
        let mut i: usize = 0;
        while i < defined.len()
            invariant
                i <= defined@.len(),
                functions@.len() == i,
                forall|j: int| 0 <= j < defined@.len() ==> (#[trigger] defined@[j]).names@.len() > 0,
                forall|j: int| 0 <= j < i ==> built_from(#[trigger] functions@[j], defined@[j]),
            decreases defined.len() - i,
        {
            let s = &defined[i];
            let name = demangle_name(s.names[0].as_str());
            let stack = match s.stack {
                Some(n) => n,
                None => 0,
            };
            let source = match &s.source {
                Some(t) => t.clone(),
                None => String::new(),
            };
            functions.push(Function { addr: s.addr, name, text: s.size, stack, source });
            i = i + 1;
        }
        let ghost built = functions@;
        proof {
            if distinct_symbols(defined@) {
                assert forall|i: int, j: int| 0 <= i < j < built.len() implies (#[trigger] built[i]).addr
                    != (#[trigger] built[j]).addr by {
                    assert(defined@[i].addr != defined@[j].addr);
                }
            }
        }
        let mut report = Report { functions };
        report.sort(Sort::Address);
        assert(built_all(built, defined@));
        assert(stable_sort_of(built, report.functions@, Sort::Address));
        Ok(report)
    }

    /// Fails with [`ReportError::EmptyResult`] exactly when no function
    /// carries stack-size information; otherwise gives, in report order, the
    /// functions whose stack size is at least `min_stack` and, where a prefix
    /// is given, whose name begins with it.
    pub fn select(&self, min_stack: u64, prefix: Option<&str>) -> (r: Result<Vec<Function>, ReportError>)
        ensures
            match r {
                Ok(rows) => has_stack_info(self.functions@) && rows@ == self.functions@.filter(
                    |f: Function| shown(f, min_stack, prefix_view(prefix)),
                ),
                Err(e) => !has_stack_info(self.functions@) && e == ReportError::EmptyResult,
            },
    {
        let ghost pre = prefix_view(prefix);
        let ghost pred = |f: Function| shown(f, min_stack, pre);
        let mut rows: Vec<Function> = Vec::new();
        let mut any = false;
        let mut i: usize = 0;
        proof {
            reveal(Seq::filter);
            assert(self.functions@.take(0) =~= Seq::<Function>::empty());
        }
        while i < self.functions.len()
            invariant
                i <= self.functions@.len(),
                pre == prefix_view(prefix),
                pred == (|f: Function| shown(f, min_stack, pre)),
                rows@ == self.functions@.take(i as int).filter(pred),
                any == exists|j: int| 0 <= j < i && (#[trigger] self.functions@[j]).stack > 0,
            decreases self.functions.len() - i,
        {
            let f = &self.functions[i];
            if f.stack > 0 {
                any = true;
            }
            let keep = f.stack >= min_stack && match prefix {
                Some(p) => name_begins_with(f.name.as_str(), p),
                None => true,
            };
            proof {
                reveal(Seq::filter);
                assert(self.functions@.take(i + 1).drop_last() =~= self.functions@.take(i as int));
                assert(keep == pred(*f));
            }
            if keep {
                rows.push(f.duplicate());
            }
            i = i + 1;
        }
        proof {
            assert(self.functions@.take(i as int) =~= self.functions@);
        }
        if !any {
            return Err(ReportError::EmptyResult);
        }
        Ok(rows)
    }
}

} // verus!
