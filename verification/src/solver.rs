//! The boundary solver: decides whether the configured stack would collide
//! with the merged data region, computes the aligned split address a
//! corrective linker pass must use, and validates each relinked layout,
//! shrinking the split when the linker's own padding pushed a section past
//! the memory limit.

use vstd::prelude::*;

use crate::errors::{ConfigIssue, Error};
use crate::layout::{
    layout_wf, sec_views, sec_wf, sorted_by_addr, spec_allocatable, spec_stack_top, Layout, Section,
    SectionV, SymbolV,
};
use crate::merge::{merge_region, region_wf, spec_merge, MergedRegion, RegionV, SpecMerge};

verus! {

/// Alignment every split address must satisfy, required by the target's stack.
pub const STACK_ALIGN: u64 = 8;

/// Upper bound on corrective linker passes; the solver gives up rather than
/// loop without bound on unanticipated linker behavior.
pub const MAX_PASSES: u32 = 64;

/// `x` rounded down to the nearest multiple of the stack alignment.
pub open spec fn spec_align_down(x: int) -> int {
    x - (x % (STACK_ALIGN as int))
}

/// Rounding down to the stack alignment yields an aligned value no larger
/// than the argument, and at most one alignment unit below it.
pub proof fn lemma_align_down(x: int)
    requires
        0 <= x,
    ensures
        spec_align_down(x) % (STACK_ALIGN as int) == 0,
        0 <= spec_align_down(x) <= x,
        x - spec_align_down(x) < STACK_ALIGN,
{
    vstd::arithmetic::div_mod::lemma_fundamental_div_mod(x, STACK_ALIGN as int);
    vstd::arithmetic::div_mod::lemma_mod_bound(x, STACK_ALIGN as int);
    vstd::arithmetic::div_mod::lemma_mod_multiples_basic(
        x / (STACK_ALIGN as int),
        STACK_ALIGN as int,
    );
}

/// The stack cannot run into the data region: the configured stack top does
/// not reach past the merged region's end.
pub open spec fn no_collision(region: RegionV, stack_top: u64) -> bool {
    stack_top <= region.start + region.size
}

/// What one run of the tool still has to do after the first linker pass.
#[derive(Debug)]
pub enum Plan {
    /// The first-pass layout is already safe; no second linker pass happens.
    Accept,
    /// The stack would collide with the data region: relink at the solver's
    /// candidate split address, then hand the new layout back to the solver.
    Relink(Solver),
}

/// What the solver asks for after seeing a relinked layout.
#[derive(Debug)]
pub enum Step {
    /// The layout satisfies the boundary invariant; the run is finished.
    Done,
    /// Alignment padding pushed a merged section past the memory limit:
    /// relink once more, with both override symbols set to this address.
    Relink(u64),
}

/// The solver's state between linker passes.
#[derive(Debug)]
pub struct Solver {
    /// The region merged out of the first-pass layout; fixed for the run.
    pub region: MergedRegion,
    /// The stack top of the first pass: the upper limit of usable memory.
    pub stack_top: u64,
    /// The split address the pending relink uses.
    pub candidate: u64,
    /// Corrective passes already validated.
    pub passes: u32,
}

impl Solver {
    /// The solver's invariant: the candidate split is aligned and leaves room
    /// for the whole region below the stack top.
    pub open spec fn wf(&self) -> bool {
        &&& region_wf(self.region@)
        &&& (self.candidate as int) % (STACK_ALIGN as int) == 0
        &&& self.candidate + self.region@.size <= self.stack_top
        &&& self.passes <= MAX_PASSES
    }

    /// The split address the pending relink pass must use.
    pub fn candidate(&self) -> (r: u64)
        ensures
            r == self.candidate,
    {
        self.candidate
    }
}

/// Decide from the merged region and the configured stack top whether a
/// corrective pass is needed, and with which initial split address.
pub fn plan_from(region: MergedRegion, stack_top: u64) -> (r: Plan)
    requires
        region_wf(region@),
    ensures
        (r is Accept <==> no_collision(region@, stack_top)),
        r matches Plan::Relink(s) ==> {
            &&& s.region@ == region@
            &&& s.stack_top == stack_top
            &&& s.passes == 0
            &&& s.candidate == spec_align_down(stack_top - region@.size)
            &&& (s.candidate as int) % (STACK_ALIGN as int) == 0
            &&& s.candidate + region@.size <= stack_top
            &&& s.wf()
        },
{
    if stack_top <= region.start + region.size {
        Plan::Accept
    } else {
        let raw = stack_top - region.size;
        proof {
            lemma_align_down(raw as int);
        }
        let rem = raw % STACK_ALIGN;
        let candidate = if rem != 0 {
            raw - rem
        } else {
            raw
        };
        Plan::Relink(Solver { region, stack_top, candidate, passes: 0 })
    }
}

/// Index of the first section bearing the given name, if any.
pub open spec fn spec_find_named(s: Seq<SectionV>, n: Seq<char>) -> Option<int>
    decreases s.len(),
{
    if s.len() == 0 {
        None
    } else if s[0].name == Some(n) {
        Some(0)
    } else {
        match spec_find_named(s.drop_first(), n) {
            Some(i) => Some(i + 1),
            None => None,
        }
    }
}

/// The first found index points inside the list, at the named section.
pub proof fn lemma_find_named_props(s: Seq<SectionV>, n: Seq<char>)
    ensures
        spec_find_named(s, n) matches Some(i) ==> 0 <= i < s.len() && s[i].name == Some(n),
    decreases s.len(),
{
    if s.len() > 0 && s[0].name != Some(n) {
        lemma_find_named_props(s.drop_first(), n);
    }
}

/// The verdict over one relinked layout.
pub ghost enum SpecVerdict {
    /// Every merged section sits inside `[candidate, stack_top]`.
    Satisfied,
    /// Some merged section's end exceeds the stack top by `excess` bytes;
    /// recoverable by shrinking the candidate.
    Overflowing { excess: int },
    /// A merged section vanished or starts below the candidate: the merge
    /// arithmetic no longer describes the binary.
    Fatal,
}

/// Check each accepted name, in order, against the relinked sections: the
/// first missing or too-low section is fatal, the first section ending past
/// the stack top asks for another pass, and a clean sweep is satisfaction.
pub open spec fn spec_validate(
    names: Seq<Seq<char>>,
    secs: Seq<SectionV>,
    candidate: u64,
    stack_top: u64,
) -> SpecVerdict
    decreases names.len(),
{
    if names.len() == 0 {
        SpecVerdict::Satisfied
    } else {
        match spec_find_named(secs, names[0]) {
            None => SpecVerdict::Fatal,
            Some(i) => {
                let s = secs[i];
                if s.addr < candidate {
                    SpecVerdict::Fatal
                } else if s.addr + s.size > stack_top {
                    SpecVerdict::Overflowing { excess: s.addr + s.size - stack_top }
                } else {
                    spec_validate(names.drop_first(), secs, candidate, stack_top)
                }
            },
        }
    }
}

/// How one run resolves for a first-pass layout whose allocatable sections,
/// arranged in ascending address order, are `s`: which error ends it, or
/// whether the layout is accepted as it stands or a corrective pass starts.
pub open spec fn plan_resolution(
    s: Seq<SectionV>,
    syms: Seq<SymbolV>,
    r: Result<Plan, Error>,
) -> bool {
    match spec_merge(s) {
        SpecMerge::NoAnchor => r matches Err(e) && e == Error::Config(
            ConfigIssue::SectionsNotFound,
        ),
        SpecMerge::Unnamed => r matches Err(e) && e == Error::Decode,
        SpecMerge::Merged(reg) => match spec_stack_top(syms) {
            None => r matches Err(e) && e == Error::Config(ConfigIssue::StackSymbolNotFound),
            Some(top) => {
                &&& ((r matches Ok(p) && p is Accept) <==> no_collision(reg, top))
                &&& (!no_collision(reg, top) ==> (r matches Ok(p) && (p matches Plan::Relink(sv) && {
                    &&& sv.region@ == reg
                    &&& sv.stack_top == top
                    &&& sv.passes == 0
                    &&& sv.candidate == spec_align_down(top - reg.size)
                    &&& sv.wf()
                })))
            },
        },
    }
}

/// First-pass decision for a decoded layout: merge the allocatable sections
/// around the `.bss`/`.data` anchor, read the configured stack top, and
/// decide whether the layout stands or a corrective linker pass must run.
/// When the stack top does not reach past the merged region, the plan is
/// `Accept` and the tool performs no further linker pass.
pub fn plan(layout: &Layout) -> (r: Result<Plan, Error>)
    requires
        layout_wf(layout@),
    ensures
        exists|s: Seq<SectionV>|
            {
                &&& #[trigger] sorted_by_addr(s)
                &&& s.to_multiset() == spec_allocatable(layout@.sections).to_multiset()
                &&& plan_resolution(s, layout@.symbols, r)
            },
{
    let secs = layout.allocatable_sorted();
    let ghost w = sec_views(secs@);
    let region = match merge_region(&secs) {
        Ok(region) => region,
        Err(e) => {
            proof {
                assert(plan_resolution(w, layout@.symbols, Err::<Plan, Error>(e)));
            }
            return Err(e);
        },
    };
    let top = match layout.stack_top() {
        Ok(top) => top,
        Err(e) => {
            proof {
                assert(plan_resolution(w, layout@.symbols, Err::<Plan, Error>(e)));
            }
            return Err(e);
        },
    };
    let p = plan_from(region, top);
    proof {
        assert(plan_resolution(w, layout@.symbols, Ok::<Plan, Error>(p)));
    }
    Ok(p)
}

/// Law: running the solver over an already corrected binary detects no
/// further overlap, so it terminates after its single decoding pass.  A
/// corrected binary is one whose recorded stack top is the split address the
/// relink used, and whose merged data region starts at or above that split:
/// for such a region no collision exists, and `plan_from` answers `Accept`.
pub proof fn lemma_rerun_accepts(region: RegionV, stack_top: u64)
    requires
        region_wf(region),
        stack_top <= region.start,
    ensures
        no_collision(region, stack_top),
{
}

/// Every accepted name still has a section in the relinked layout, and that
/// section lies within `[lo, hi]`.
pub open spec fn all_names_within(
    names: Seq<Seq<char>>,
    secs: Seq<SectionV>,
    lo: u64,
    hi: u64,
) -> bool {
    forall|k: int|
        0 <= k < names.len() ==> (spec_find_named(secs, #[trigger] names[k]) matches Some(i)
            && lo <= secs[i].addr && secs[i].addr + secs[i].size <= hi)
}

/// Law: round trip of the accepted names.  The solver pronounces a relinked
/// layout satisfied exactly when every section name accepted into the merged
/// region is still present and its section lies between the split address and
/// the original stack top; in particular a vanished or misplaced section can
/// never reach `Done`, and the run then ends in the fatal inconsistency.
pub proof fn lemma_round_trip(
    names: Seq<Seq<char>>,
    secs: Seq<SectionV>,
    candidate: u64,
    stack_top: u64,
)
    ensures
        spec_validate(names, secs, candidate, stack_top) is Satisfied <==> all_names_within(
            names,
            secs,
            candidate,
            stack_top,
        ),
    decreases names.len(),
{
    if names.len() > 0 {
        match spec_find_named(secs, names[0]) {
            None => {
                assert(!all_names_within(names, secs, candidate, stack_top)) by {
                    if all_names_within(names, secs, candidate, stack_top) {
                        assert(spec_find_named(secs, names[0]) matches Some(i) && candidate
                            <= secs[i].addr && secs[i].addr + secs[i].size <= stack_top);
                    }
                }
            },
            Some(i) => {
                if secs[i].addr < candidate || secs[i].addr + secs[i].size > stack_top {
                    assert(!all_names_within(names, secs, candidate, stack_top)) by {
                        if all_names_within(names, secs, candidate, stack_top) {
                            assert(spec_find_named(secs, names[0]) matches Some(j) && candidate
                                <= secs[j].addr && secs[j].addr + secs[j].size <= stack_top);
                        }
                    }
                } else {
                    lemma_round_trip(names.drop_first(), secs, candidate, stack_top);
                    if spec_validate(names, secs, candidate, stack_top) is Satisfied {
                        assert forall|k: int| 0 <= k < names.len() implies (spec_find_named(
                            secs,
                            #[trigger] names[k],
                        ) matches Some(j) && candidate <= secs[j].addr && secs[j].addr
                            + secs[j].size <= stack_top) by {
                            if k > 0 {
                                assert(names[k] == names.drop_first()[k - 1]);
                            }
                        }
                    }
                    if all_names_within(names, secs, candidate, stack_top) {
                        assert forall|k: int| 0 <= k < names.drop_first().len() implies (
                        spec_find_named(secs, #[trigger] names.drop_first()[k]) matches Some(j)
                            && candidate <= secs[j].addr && secs[j].addr + secs[j].size
                            <= stack_top) by {
                            assert(names.drop_first()[k] == names[k + 1]);
                        }
                        assert(all_names_within(names.drop_first(), secs, candidate, stack_top));
                    }
                }
            },
        }
    }
}

/// Index of the first section bearing the given name, if any.
fn find_named(sections: &Vec<Section>, name: &String) -> (r: Option<usize>)
    ensures
        r matches Some(i) ==> spec_find_named(sec_views(sections@), name@) == Some(i as int),
        r is None <==> spec_find_named(sec_views(sections@), name@) is None,
{
    let ghost v = sec_views(sections@);
    let n = sections.len();
    let mut i: usize = 0;
    proof {
        assert(v.skip(0) =~= v);
    }
    while i < n
        invariant
            0 <= i <= n,
            n == sections.len(),
            v == sec_views(sections@),
            match spec_find_named(v.skip(i as int), name@) {
                Some(k) => spec_find_named(v, name@) == Some(k + i),
                None => spec_find_named(v, name@) is None,
            },
        decreases n - i,
    {
        proof {
            assert(v.skip(i as int)[0] == v[i as int]);
            assert(v[i as int] == sections@[i as int]@);
        }
        let found = match &sections[i].name {
            Some(nm) => nm.eq(name),
            None => false,
        };
        if found {
            return Some(i);
        }
        proof {
            assert(v.skip(i as int).drop_first() =~= v.skip(i + 1));
        }
        i = i + 1;
    }
    proof {
        assert(v.skip(n as int) =~= Seq::<SectionV>::empty());
    }
    None
}

impl Solver {
    /// Validate the layout a corrective linker pass produced.  `Done` means
    /// every merged section sits inside `[candidate, stack_top]`; `Relink`
    /// carries a strictly smaller aligned candidate for the next pass; the
    /// error reports an unrecoverable inconsistency (a merged section gone or
    /// below the split, or the pass bound spent).
    pub fn on_relinked(&mut self, layout: &Layout) -> (r: Result<Step, Error>)
        requires
            old(self).wf(),
            layout_wf(layout@),
        ensures
            final(self).wf(),
            final(self).region@ == old(self).region@,
            final(self).stack_top == old(self).stack_top,
            ({
                let v = spec_validate(
                    old(self).region@.names,
                    layout@.sections,
                    old(self).candidate,
                    old(self).stack_top,
                );
                match r {
                    Ok(Step::Done) => v is Satisfied && *final(self) == *old(self),
                    Ok(Step::Relink(c)) => {
                        &&& v matches SpecVerdict::Overflowing { excess }
                        &&& old(self).passes + 1 < MAX_PASSES
                        &&& c == spec_align_down(
                            if excess >= old(self).candidate {
                                0int
                            } else {
                                old(self).candidate - excess
                            },
                        )
                        &&& c <= old(self).candidate
                        &&& final(self).candidate == c
                        &&& final(self).passes == old(self).passes + 1
                    },
                    Err(e) => {
                        &&& e == Error::FatalInconsistency
                        &&& (v is Fatal || (v is Overflowing && old(self).passes + 1 >= MAX_PASSES))
                        &&& *final(self) == *old(self)
                    },
                }
            }),
    {
        let ghost names = self.region@.names;
        let ghost secs = layout@.sections;
        let ghost cand0 = self.candidate;
        let ghost top0 = self.stack_top;
        let n = self.region.names.len();
        let mut i: usize = 0;
        proof {
            assert(names.skip(0) =~= names);
        }
        while i < n
            invariant
                0 <= i <= n,
                n == self.region.names.len(),
                *self == *old(self),
                self.wf(),
                layout_wf(layout@),
                names == self.region@.names,
                secs == layout@.sections,
                cand0 == self.candidate,
                top0 == self.stack_top,
                spec_validate(names, secs, cand0, top0) == spec_validate(
                    names.skip(i as int),
                    secs,
                    cand0,
                    top0,
                ),
            decreases n - i,
        {
            proof {
                assert(names.skip(i as int)[0] == names[i as int]);
                assert(names[i as int] == self.region.names.deep_view()[i as int]);
                assert(self.region.names.deep_view()[i as int] == self.region.names@[i as int]@);
            }
            let nm = &self.region.names[i];
            match find_named(&layout.sections, nm) {
                None => {
                    proof {
                        assert(spec_validate(names.skip(i as int), secs, cand0, top0) is Fatal);
                    }
                    return Err(Error::FatalInconsistency);
                },
                Some(si) => {
                    proof {
                        lemma_find_named_props(secs, nm@);
                        assert(sec_wf(secs[si as int]));
                    }
                    let s = &layout.sections[si];
                    proof {
                        assert(secs[si as int] == layout.sections@[si as int]@);
                    }
                    if s.addr < self.candidate {
                        proof {
                            assert(spec_validate(names.skip(i as int), secs, cand0, top0) is Fatal);
                        }
                        return Err(Error::FatalInconsistency);
                    }
                    let end = s.addr + s.size;
                    if end > self.stack_top {
                        let ghost verdict = spec_validate(names.skip(i as int), secs, cand0, top0);
                        proof {
                            assert(verdict matches SpecVerdict::Overflowing { excess } && excess
                                == end - top0);
                        }
                        if self.passes + 1 < MAX_PASSES {
                            let excess = end - self.stack_top;
                            let raw = if excess >= self.candidate {
                                0
                            } else {
                                self.candidate - excess
                            };
                            proof {
                                lemma_align_down(raw as int);
                            }
                            let rem = raw % STACK_ALIGN;
                            let c = if rem != 0 {
                                raw - rem
                            } else {
                                raw
                            };
                            self.candidate = c;
                            self.passes = self.passes + 1;
                            return Ok(Step::Relink(c));
                        } else {
                            return Err(Error::FatalInconsistency);
                        }
                    }
                    proof {
                        assert(names.skip(i as int).drop_first() =~= names.skip(i + 1));
                    }
                },
            }
            i = i + 1;
        }
        proof {
            assert(names.skip(n as int) =~= Seq::<Seq<char>>::empty());
        }
        Ok(Step::Done)
    }
}

} // verus!

