//! Test-matrix scheduling: the matrix is the Cartesian product of the
//! fixtures a directory holds with the modes a compiler declares, for
//! each configured (directory, compiler) pair; inclusion and exclusion
//! patterns over unit identifiers are applied before a unit is built, so
//! a filtered-out unit never consumes compiler resources.

use vstd::prelude::*;

use crate::summary::Summary;
use crate::words::copy_bytes;

verus! {

/// A pattern occurs in an identifier as a contiguous byte subsequence.
pub open spec fn is_substring(hay: Seq<u8>, needle: Seq<u8>) -> bool {
    exists|i: int|
        0 <= i && i + needle.len() <= hay.len() && #[trigger] hay.subrange(i, i + needle.len())
            == needle
}

/// Tests whether the needle matches the hay at one offset.
fn matches_at(hay: &Vec<u8>, needle: &Vec<u8>, at: usize) -> (r: bool)
    requires
        at + needle@.len() <= hay@.len(),
    ensures
        r == (hay@.subrange(at as int, at + needle@.len()) == needle@),
{
    let ghost sub = hay@.subrange(at as int, at + needle@.len());
    let hay_len = hay.len();
    let mut j: usize = 0;
    while j < needle.len()
        invariant
            j <= needle@.len(),
            at + needle@.len() <= hay@.len(),
            hay@.len() <= hay_len,
            sub == hay@.subrange(at as int, at + needle@.len()),
            forall|m: int| 0 <= m < j ==> hay@[at + m] == needle@[m],
        decreases needle.len() - j,
    {
        if hay[at + j] != needle[j] {
            assert(sub[j as int] == hay@[at + j]);
            assert(sub != needle@);
            return false;
        }
        j = j + 1;
    }
    assert(sub =~= needle@);
    true
}

/// Tests whether a pattern occurs anywhere in an identifier.
pub fn contains_pattern(hay: &Vec<u8>, needle: &Vec<u8>) -> (r: bool)
    ensures
        r == is_substring(hay@, needle@),
{
    if needle.len() > hay.len() {
        assert(!is_substring(hay@, needle@));
        return false;
    }
    if needle.len() == 0 {
        proof {
            assert(hay@.subrange(0, 0 + needle@.len() as int) =~= needle@);
        }
        return true;
    }
    let bound = hay.len() - needle.len();
    assert(bound < usize::MAX);
    let mut i: usize = 0;
    while i <= bound
        invariant
            needle@.len() <= hay@.len(),
            bound == hay@.len() - needle@.len(),
            bound < usize::MAX,
            i <= bound + 1,
            forall|m: int|
                0 <= m < i ==> #[trigger] hay@.subrange(m, m + needle@.len()) != needle@,
        decreases bound + 1 - i,
    {
        if matches_at(hay, needle, i) {
            assert(is_substring(hay@, needle@));
            return true;
        }
        i = i + 1;
    }
    assert(forall|m: int|
        0 <= m && m + needle@.len() <= hay@.len() ==> #[trigger] hay@.subrange(m, m + needle@.len())
            != needle@);
    false
}

/// Some allow pattern matches the identifier, or there are none.
pub open spec fn allowed_spec(allow: Seq<Vec<u8>>, ident: Seq<u8>) -> bool {
    allow.len() == 0 || exists|i: int|
        0 <= i < allow.len() && #[trigger] is_substring(ident, allow[i]@)
}

/// Some deny pattern matches the identifier.
pub open spec fn denied_spec(deny: Seq<Vec<u8>>, ident: Seq<u8>) -> bool {
    exists|i: int| 0 <= i < deny.len() && #[trigger] is_substring(ident, deny[i]@)
}

/// The filter set of a run: allow and deny patterns over unit
/// identifiers, loaded once before scheduling and read-only afterwards.
pub struct Filters {
    /// Patterns at least one of which must match, unless empty.
    pub allow: Vec<Vec<u8>>,
    /// Patterns none of which may match.
    pub deny: Vec<Vec<u8>>,
}

impl Filters {
    /// A unit identifier is enabled when some allow pattern matches it
    /// (or none are configured) and no deny pattern matches it.
    pub open spec fn enabled_spec(self, ident: Seq<u8>) -> bool {
        allowed_spec(self.allow@, ident) && !denied_spec(self.deny@, ident)
    }

    /// Builds a filter set.
    pub fn new(allow: Vec<Vec<u8>>, deny: Vec<Vec<u8>>) -> (r: Self)
        ensures
            r.allow == allow,
            r.deny == deny,
    {
        Filters { allow, deny }
    }

    /// Decides whether a unit identifier passes the filters.
    pub fn enabled(&self, ident: &Vec<u8>) -> (r: bool)
        ensures
            r == self.enabled_spec(ident@),
    {
        let mut allowed: bool = self.allow.len() == 0;
        let mut i: usize = 0;
        while i < self.allow.len()
            invariant
                i <= self.allow@.len(),
                allowed == (self.allow@.len() == 0 || exists|m: int|
                    0 <= m < i && #[trigger] is_substring(ident@, self.allow@[m]@)),
            decreases self.allow.len() - i,
        {
            if contains_pattern(ident, &self.allow[i]) {
                allowed = true;
            }
            i = i + 1;
        }
        if !allowed {
            return false;
        }
        let mut j: usize = 0;
        while j < self.deny.len()
            invariant
                j <= self.deny@.len(),
                forall|m: int| 0 <= m < j ==> !(#[trigger] is_substring(ident@, self.deny@[m]@)),
            decreases self.deny.len() - j,
        {
            if contains_pattern(ident, &self.deny[j]) {
                return false;
            }
            j = j + 1;
        }
        true
    }
}

/// The closed set of compiler backends a unit can name. The scheduler
/// treats the backend as an opaque tag used for matrix expansion and
/// reporting.
#[derive(Clone, Copy, Debug, PartialEq, Eq, Structural)]
pub enum CompilerKind {
    /// The Solidity front-end.
    Solidity,
    /// The Vyper front-end.
    Vyper,
    /// The Yul front-end.
    Yul,
    /// The LLVM-IR front-end.
    Llvm,
    /// The native VM-assembly front-end.
    EraVM,
}

/// One unit of the test matrix: a (fixture, compiler, mode) triple,
/// immutable once built and consumed exactly once.
pub struct TestUnit {
    /// The fixture's identifier.
    pub ident: Vec<u8>,
    /// The compiler backend the unit runs under.
    pub compiler: CompilerKind,
    /// The compiler-specific mode tag.
    pub mode: Vec<u8>,
}

/// The views of a unit list.
pub open spec fn unit_views(s: Seq<TestUnit>) -> Seq<(Seq<u8>, CompilerKind, Seq<u8>)> {
    s.map_values(|u: TestUnit| (u.ident@, u.compiler, u.mode@))
}

/// The units one fixture expands to: the fixture paired with every mode
/// the compiler declares, in mode order.
pub open spec fn fixture_units(
    ident: Seq<u8>,
    compiler: CompilerKind,
    modes: Seq<Vec<u8>>,
) -> Seq<(Seq<u8>, CompilerKind, Seq<u8>)> {
    modes.map_values(|m: Vec<u8>| (ident, compiler, m@))
}

/// The units one directory expands to: each enabled fixture paired with
/// every declared mode, fixtures in discovery order; a filtered-out
/// fixture contributes nothing.
pub open spec fn expand_views(
    idents: Seq<Vec<u8>>,
    compiler: CompilerKind,
    modes: Seq<Vec<u8>>,
    filters: Filters,
) -> Seq<(Seq<u8>, CompilerKind, Seq<u8>)>
    decreases idents.len(),
{
    if idents.len() == 0 {
        Seq::empty()
    } else {
        let rest = expand_views(idents.drop_first(), compiler, modes, filters);
        if filters.enabled_spec(idents[0]@) {
            fixture_units(idents[0]@, compiler, modes) + rest
        } else {
            rest
        }
    }
}

/// One configured fixture directory: the discovered fixture identifiers,
/// the compiler that consumes them, and the modes that compiler
/// declares.
pub struct DirectoryListing {
    /// The discovered fixture identifiers.
    pub idents: Vec<Vec<u8>>,
    /// The compiler for this directory.
    pub compiler: CompilerKind,
    /// The modes the compiler declares for itself.
    pub modes: Vec<Vec<u8>>,
}

/// The whole matrix: every directory's expansion, in configuration
/// order.
pub open spec fn plan_views(listings: Seq<DirectoryListing>, filters: Filters) -> Seq<
    (Seq<u8>, CompilerKind, Seq<u8>),
>
    decreases listings.len(),
{
    if listings.len() == 0 {
        Seq::empty()
    } else {
        expand_views(listings[0].idents@, listings[0].compiler, listings[0].modes@, filters)
            + plan_views(listings.drop_first(), filters)
    }
}

/// The compiler-tester: the run's filter set and its summary. The
/// summary is the one aggregate concurrent workers write; the filters
/// are read-only for the entire run.
pub struct CompilerTester {
    /// The shared summary.
    pub summary: Summary,
    /// The filter set.
    pub filters: Filters,
}

impl CompilerTester {
    /// A shortcut constructor.
    pub fn new(summary: Summary, filters: Filters) -> (r: Self)
        ensures
            r.summary == summary,
            r.filters == filters,
    {
        CompilerTester { summary, filters }
    }

    /// Expands one directory into matrix units: the Cartesian product of
    /// its enabled fixtures with the compiler's modes.
    pub fn directory(&self, idents: &Vec<Vec<u8>>, compiler: CompilerKind, modes: &Vec<Vec<u8>>) -> (units: Vec<TestUnit>)
        ensures
            unit_views(units@) == expand_views(idents@, compiler, modes@, self.filters),
    {
        let mut units: Vec<TestUnit> = Vec::new();
        let mut i: usize = 0;
        proof {
            assert(idents@.skip(0) =~= idents@);
            assert(unit_views(units@) =~= Seq::<(Seq<u8>, CompilerKind, Seq<u8>)>::empty());
            assert(unit_views(units@) + expand_views(idents@.skip(0), compiler, modes@, self.filters)
                =~= expand_views(idents@, compiler, modes@, self.filters));
        }
        while i < idents.len()
            invariant
                i <= idents@.len(),
                expand_views(idents@, compiler, modes@, self.filters) == unit_views(units@)
                    + expand_views(idents@.skip(i as int), compiler, modes@, self.filters),
            decreases idents.len() - i,
        {
            let ghost tail = idents@.skip(i as int);
            proof {
                assert(tail[0] == idents@[i as int]);
                assert(tail.drop_first() =~= idents@.skip(i as int + 1));
            }
            if self.filters.enabled(&idents[i]) {
                let ghost u0 = unit_views(units@);
                let ghost fixture = fixture_units(idents@[i as int]@, compiler, modes@);
                let mut j: usize = 0;
                while j < modes.len()
                    invariant
                        j <= modes@.len(),
                        i < idents@.len(),
                        fixture == fixture_units(idents@[i as int]@, compiler, modes@),
                        unit_views(units@) =~= u0 + fixture.take(j as int),
                    decreases modes.len() - j,
                {
                    let unit = TestUnit {
                        ident: copy_bytes(&idents[i]),
                        compiler,
                        mode: copy_bytes(&modes[j]),
                    };
                    proof {
                        assert(unit_views(units@.push(unit)) =~= unit_views(units@).push(
                            (unit.ident@, unit.compiler, unit.mode@),
                        ));
                        assert(fixture[j as int] == (idents@[i as int]@, compiler, modes@[
                            j as int]@));
                    }
                    units.push(unit);
                    proof {
                        assert(fixture.take(j as int + 1) =~= fixture.take(j as int).push(
                            fixture[j as int],
                        ));
                        assert(unit_views(units@) =~= u0 + fixture.take(j as int + 1));
                    }
                    j = j + 1;
                }
                proof {
                    assert(fixture.take(modes@.len() as int) =~= fixture);
                    assert(expand_views(tail, compiler, modes@, self.filters) == fixture
                        + expand_views(idents@.skip(i as int + 1), compiler, modes@, self.filters));
                    assert((u0 + fixture) + expand_views(
                        idents@.skip(i as int + 1),
                        compiler,
                        modes@,
                        self.filters,
                    ) =~= u0 + (fixture + expand_views(
                        idents@.skip(i as int + 1),
                        compiler,
                        modes@,
                        self.filters,
                    )));
                }
            } else {
                assert(expand_views(tail, compiler, modes@, self.filters) == expand_views(
                    idents@.skip(i as int + 1),
                    compiler,
                    modes@,
                    self.filters,
                ));
            }
            i = i + 1;
        }
        proof {
            assert(idents@.skip(i as int) =~= Seq::<Vec<u8>>::empty());
            assert(unit_views(units@) =~= unit_views(units@) + expand_views(
                idents@.skip(i as int),
                compiler,
                modes@,
                self.filters,
            ));
        }
        units
    }

    /// Expands the whole test matrix across every configured directory.
    pub fn plan(&self, listings: &Vec<DirectoryListing>) -> (units: Vec<TestUnit>)
        ensures
            unit_views(units@) == plan_views(listings@, self.filters),
    {
        let mut units: Vec<TestUnit> = Vec::new();
        let mut i: usize = 0;
        proof {
            assert(listings@.skip(0) =~= listings@);
            assert(unit_views(units@) =~= Seq::<(Seq<u8>, CompilerKind, Seq<u8>)>::empty());
            assert(unit_views(units@) + plan_views(listings@.skip(0), self.filters) =~= plan_views(
                listings@,
                self.filters,
            ));
        }
        while i < listings.len()
            invariant
                i <= listings@.len(),
                plan_views(listings@, self.filters) == unit_views(units@) + plan_views(
                    listings@.skip(i as int),
                    self.filters,
                ),
            decreases listings.len() - i,
        {
            let ghost tail = listings@.skip(i as int);
            proof {
                assert(tail[0] == listings@[i as int]);
                assert(tail.drop_first() =~= listings@.skip(i as int + 1));
            }
            let ghost u0 = unit_views(units@);
            let ghost expansion = expand_views(
                listings@[i as int].idents@,
                listings@[i as int].compiler,
                listings@[i as int].modes@,
                self.filters,
            );
            let mut more = self.directory(
                &listings[i].idents,
                listings[i].compiler,
                &listings[i].modes,
            );
            let ghost more0 = more@;
            units.append(&mut more);
            proof {
                assert(unit_views(units@) =~= u0 + unit_views(more0));
                assert(plan_views(tail, self.filters) == expansion + plan_views(
                    listings@.skip(i as int + 1),
                    self.filters,
                ));
                assert((u0 + expansion) + plan_views(listings@.skip(i as int + 1), self.filters)
                    =~= u0 + (expansion + plan_views(listings@.skip(i as int + 1), self.filters)));
            }
            i = i + 1;
        }
        proof {
            assert(listings@.skip(i as int) =~= Seq::<DirectoryListing>::empty());
            assert(unit_views(units@) =~= unit_views(units@) + plan_views(
                listings@.skip(i as int),
                self.filters,
            ));
        }
        units
    }
}

} // verus!
