//! The contiguous region merger: starting from the `.bss` or `.data` anchor
//! section, the statically-allocated data region is extended in both address
//! directions while the neighboring section is within one alignment unit of
//! the region, and the names of all absorbed sections are recorded.

use vstd::prelude::*;

use crate::errors::{ConfigIssue, Error};
use crate::layout::{all_wf, sec_views, sec_wf, sorted_by_addr, Section, SectionV};

verus! {

/// A section that can anchor the statically-allocated data region.
pub open spec fn is_anchor(s: SectionV) -> bool {
    s.name == Some(".bss"@) || s.name == Some(".data"@)
}

/// Index of the first anchor section, if any.
pub open spec fn spec_anchor_index(s: Seq<SectionV>) -> Option<int>
    decreases s.len(),
{
    if s.len() == 0 {
        None
    } else if is_anchor(s[0]) {
        Some(0)
    } else {
        match spec_anchor_index(s.drop_first()) {
            Some(i) => Some(i + 1),
            None => None,
        }
    }
}

/// The largest alignment requirement among the given sections.
pub open spec fn spec_max_align(s: Seq<SectionV>) -> u64
    decreases s.len(),
{
    if s.len() == 0 {
        1u64
    } else if s.len() == 1 {
        s[0].align
    } else {
        let rest = spec_max_align(s.drop_last());
        if s.last().align >= rest {
            s.last().align
        } else {
            rest
        }
    }
}

/// The merged data region: start address, accumulated size of the absorbed
/// sections, and their names in the order they were absorbed.
pub ghost struct RegionV {
    pub start: int,
    pub size: int,
    pub names: Seq<Seq<char>>,
}

/// A region a `u64` machine can hold, with at least its anchor recorded.
pub open spec fn region_wf(r: RegionV) -> bool {
    &&& 0 <= r.start
    &&& 0 <= r.size
    &&& r.start + r.size <= u64::MAX
    &&& r.names.len() > 0
}

/// Extend the region toward lower addresses: the predecessor at `i - 1` joins
/// while the gap between its end and the region start is at most `ma`; the
/// walk stops at the first predecessor that is not contiguous.  `None` means
/// a section that had to join has no name.
pub open spec fn spec_grow_back(s: Seq<SectionV>, i: int, r: RegionV, ma: u64) -> Option<RegionV>
    decreases i,
{
    if i <= 0 {
        Some(r)
    } else {
        let p = s[i - 1];
        if p.addr + p.size <= r.start && r.start - (p.addr + p.size) <= ma {
            match p.name {
                Some(n) => spec_grow_back(
                    s,
                    i - 1,
                    RegionV { start: p.addr as int, size: r.size + p.size, names: r.names.push(n) },
                    ma,
                ),
                None => None,
            }
        } else {
            Some(r)
        }
    }
}

/// Extend the region toward higher addresses, symmetrically, starting at `i`.
pub open spec fn spec_grow_fwd(s: Seq<SectionV>, i: int, r: RegionV, ma: u64) -> Option<RegionV>
    decreases s.len() - i,
{
    if i < 0 || i >= s.len() {
        Some(r)
    } else {
        let q = s[i];
        if r.start + r.size <= q.addr && q.addr - (r.start + r.size) <= ma {
            match q.name {
                Some(n) => spec_grow_fwd(
                    s,
                    i + 1,
                    RegionV { start: r.start, size: r.size + q.size, names: r.names.push(n) },
                    ma,
                ),
                None => None,
            }
        } else {
            Some(r)
        }
    }
}

/// Everything the merger can answer for a sorted section list.
pub ghost enum SpecMerge {
    /// No `.bss` or `.data` section exists.
    NoAnchor,
    /// A section that had to join the region has no name.
    Unnamed,
    /// The merged region.
    Merged(RegionV),
}

/// The name of the anchor section.
pub open spec fn anchor_name(a: SectionV) -> Seq<char> {
    if a.name == Some(".bss"@) {
        ".bss"@
    } else {
        ".data"@
    }
}

/// The merger, whole: seed the region from the first anchor section, then
/// grow it backward and forward under the global maximum alignment.
pub open spec fn spec_merge(s: Seq<SectionV>) -> SpecMerge {
    match spec_anchor_index(s) {
        None => SpecMerge::NoAnchor,
        Some(i) => {
            let a = s[i];
            let ma = spec_max_align(s);
            let seed = RegionV {
                start: a.addr as int,
                size: a.size as int,
                names: seq![anchor_name(a)],
            };
            match spec_grow_back(s, i, seed, ma) {
                None => SpecMerge::Unnamed,
                Some(r1) => match spec_grow_fwd(s, i + 1, r1, ma) {
                    None => SpecMerge::Unnamed,
                    Some(r2) => SpecMerge::Merged(r2),
                },
            }
        },
    }
}

/// The maximal contiguous block of allocatable sections around the anchor,
/// standing for all statically-allocated memory.
#[derive(Debug, Clone)]
pub struct MergedRegion {
    /// Lowest address of the region.
    pub start: u64,
    /// Accumulated size in bytes of the absorbed sections.
    pub size: u64,
    /// Names of the absorbed sections, the anchor first.
    pub names: Vec<String>,
}

impl View for MergedRegion {
    type V = RegionV;

    open spec fn view(&self) -> RegionV {
        RegionV { start: self.start as int, size: self.size as int, names: self.names.deep_view() }
    }
}

/// Index of the first `.bss` or `.data` section.
fn find_anchor(sections: &Vec<Section>) -> (r: Option<usize>)
    ensures
        r matches Some(i) ==> spec_anchor_index(sec_views(sections@)) == Some(i as int),
        r is None <==> spec_anchor_index(sec_views(sections@)) is None,
{
    let bss: String = ".bss".to_owned();
    let data: String = ".data".to_owned();
    let ghost v = sec_views(sections@);
    let n = sections.len();
    let mut i: usize = 0;
    proof {
        assert(v.skip(0) =~= v);
    }
    while i < n
        invariant
            0 <= i <= n,
            n == sections.len(),
            v == sec_views(sections@),
            bss@ == ".bss"@,
            data@ == ".data"@,
            match spec_anchor_index(v.skip(i as int)) {
                Some(k) => spec_anchor_index(v) == Some(k + i),
                None => spec_anchor_index(v) is None,
            },
        decreases n - i,
    {
        proof {
            assert(v.skip(i as int)[0] == v[i as int]);
            assert(v[i as int] == sections@[i as int]@);
        }
        let found = match &sections[i].name {
            Some(nm) => nm.eq(&bss) || nm.eq(&data),
            None => false,
        };
        if found {
            proof {
                assert(is_anchor(v.skip(i as int)[0]));
            }
            return Some(i);
        }
        proof {
            assert(!is_anchor(v.skip(i as int)[0]));
            assert(v.skip(i as int).drop_first() =~= v.skip(i + 1));
        }
        i = i + 1;
    }
    proof {
        assert(v.skip(n as int) =~= Seq::<SectionV>::empty());
    }
    None
}

/// The largest alignment requirement among the given sections.
fn max_align(sections: &Vec<Section>) -> (r: u64)
    requires
        sections@.len() > 0,
    ensures
        r == spec_max_align(sec_views(sections@)),
{
    let ghost v = sec_views(sections@);
    let n = sections.len();
    let mut ma: u64 = sections[0].align;
    let mut i: usize = 1;
    proof {
        assert(v.take(1)[0] == sections@[0]@);
        assert(v.take(1).len() == 1);
    }
    while i < n
        invariant
            1 <= i <= n,
            n == sections.len(),
            v == sec_views(sections@),
            ma == spec_max_align(v.take(i as int)),
        decreases n - i,
    {
        proof {
            assert(v.take(i + 1).drop_last() =~= v.take(i as int));
            assert(v.take(i + 1).last() == v[i as int]);
            assert(v[i as int] == sections@[i as int]@);
        }
        if sections[i].align >= ma {
            ma = sections[i].align;
        }
        i = i + 1;
    }
    proof {
        assert(v.take(n as int) =~= v);
    }
    ma
}

/// The first anchor index points inside the list, at an anchor section.
proof fn lemma_anchor_index_props(s: Seq<SectionV>)
    ensures
        spec_anchor_index(s) matches Some(i) ==> 0 <= i < s.len() && is_anchor(s[i]),
    decreases s.len(),
{
    if s.len() > 0 && !is_anchor(s[0]) {
        lemma_anchor_index_props(s.drop_first());
    }
}

/// Merge the contiguous sections around the first `.bss`/`.data` anchor of a
/// sorted section list into one region.  Fails with the configuration error
/// when no anchor section exists, and with the decode error when a section
/// that had to join the region has no name.
pub fn merge_region(sections: &Vec<Section>) -> (r: Result<MergedRegion, Error>)
    requires
        sorted_by_addr(sec_views(sections@)),
        all_wf(sec_views(sections@)),
    ensures
        ({
            let m = spec_merge(sec_views(sections@));
            match r {
                Ok(reg) => m == SpecMerge::Merged(reg@) && region_wf(reg@),
                Err(e) => match m {
                    SpecMerge::NoAnchor => e == Error::Config(ConfigIssue::SectionsNotFound),
                    SpecMerge::Unnamed => e == Error::Decode,
                    SpecMerge::Merged(_) => false,
                },
            }
        }),
{
    let ghost v = sec_views(sections@);
    let idx = match find_anchor(sections) {
        Some(i) => i,
        None => {
            return Err(Error::Config(ConfigIssue::SectionsNotFound));
        },
    };
    proof {
        lemma_anchor_index_props(v);
    }
    let ma = max_align(sections);
    let anchor = &sections[idx];
    let aname: String = match &anchor.name {
        Some(nm) => nm.clone(),
        None => {
            proof {
                assert(is_anchor(v[idx as int]));
                assert(v[idx as int] == sections@[idx as int]@);
                assert(false);
            }
            return Err(Error::Decode);
        },
    };
    proof {
        assert(v[idx as int] == sections@[idx as int]@);
        assert(aname@ == anchor_name(v[idx as int]));
    }
    let ghost seed = RegionV {
        start: anchor.addr as int,
        size: anchor.size as int,
        names: seq![anchor_name(v[idx as int])],
    };
    let mut names: Vec<String> = Vec::new();
    names.push(aname);
    let mut start: u64 = anchor.addr;
    let mut size: u64 = anchor.size;
    proof {
        assert(names.deep_view() =~= seed.names);
        assert(sec_wf(v[idx as int]));
    }
    let n = sections.len();
    let mut j: usize = idx;
    let mut stop = false;
    while j > 0 && !stop
        invariant
            0 <= j <= idx < n,
            n == sections.len(),
            v == sec_views(sections@),
            all_wf(v),
            spec_anchor_index(v) == Some(idx as int),
            ma == spec_max_align(v),
            seed == (RegionV {
                start: v[idx as int].addr as int,
                size: v[idx as int].size as int,
                names: seq![anchor_name(v[idx as int])],
            }),
            start + size <= u64::MAX,
            names.deep_view().len() >= 1,
            !stop ==> spec_grow_back(v, idx as int, seed, ma) == spec_grow_back(
                v,
                j as int,
                (RegionV { start: start as int, size: size as int, names: names.deep_view() }),
                ma,
            ),
            stop ==> spec_grow_back(v, idx as int, seed, ma) == Some(
                RegionV { start: start as int, size: size as int, names: names.deep_view() },
            ),
        decreases j + (if stop { 0int } else { 1int }),
    {
        let p = &sections[j - 1];
        proof {
            assert(v[j - 1] == sections@[j - 1]@);
            assert(sec_wf(v[j - 1]));
        }
        let p_end = p.addr + p.size;
        if p_end <= start && start - p_end <= ma {
            match &p.name {
                Some(nm) => {
                    let ghost names0 = names.deep_view();
                    names.push(nm.clone());
                    proof {
                        assert(names.deep_view() =~= names0.push(nm@));
                        assert(size + p.size <= u64::MAX);
                    }
                    start = p.addr;
                    size = size + p.size;
                    j = j - 1;
                },
                None => {
                    proof {
                        assert(spec_grow_back(v, idx as int, seed, ma) is None);
                        assert(spec_merge(v) == SpecMerge::Unnamed);
                    }
                    return Err(Error::Decode);
                },
            }
        } else {
            stop = true;
        }
    }
    let ghost r1 = RegionV { start: start as int, size: size as int, names: names.deep_view() };
    proof {
        assert(spec_grow_back(v, idx as int, seed, ma) == Some(r1));
    }
    let mut k: usize = idx + 1;
    let mut stop2 = false;
    while k < n && !stop2
        invariant
            idx + 1 <= k <= n,
            n == sections.len(),
            v == sec_views(sections@),
            all_wf(v),
            spec_anchor_index(v) == Some(idx as int),
            ma == spec_max_align(v),
            seed == (RegionV {
                start: v[idx as int].addr as int,
                size: v[idx as int].size as int,
                names: seq![anchor_name(v[idx as int])],
            }),
            spec_grow_back(v, idx as int, seed, ma) == Some(r1),
            start + size <= u64::MAX,
            names.deep_view().len() >= 1,
            !stop2 ==> spec_grow_fwd(v, idx + 1, r1, ma) == spec_grow_fwd(
                v,
                k as int,
                (RegionV { start: start as int, size: size as int, names: names.deep_view() }),
                ma,
            ),
            stop2 ==> spec_grow_fwd(v, idx + 1, r1, ma) == Some(
                RegionV { start: start as int, size: size as int, names: names.deep_view() },
            ),
        decreases (n - k) + (if stop2 { 0int } else { 1int }),
    {
        let q = &sections[k];
        proof {
            assert(v[k as int] == sections@[k as int]@);
            assert(sec_wf(v[k as int]));
        }
        let cur_end = start + size;
        if cur_end <= q.addr && q.addr - cur_end <= ma {
            match &q.name {
                Some(nm) => {
                    let ghost names0 = names.deep_view();
                    names.push(nm.clone());
                    proof {
                        assert(names.deep_view() =~= names0.push(nm@));
                        assert(size + q.size <= u64::MAX);
                    }
                    size = size + q.size;
                    k = k + 1;
                },
                None => {
                    proof {
                        assert(spec_grow_fwd(v, idx + 1, r1, ma) is None);
                        assert(spec_merge(v) == SpecMerge::Unnamed);
                    }
                    return Err(Error::Decode);
                },
            }
        } else {
            stop2 = true;
        }
    }
    let ghost r2 = RegionV { start: start as int, size: size as int, names: names.deep_view() };
    proof {
        assert(spec_grow_fwd(v, idx + 1, r1, ma) == Some(r2));
        assert(spec_merge(v) == SpecMerge::Merged(r2));
    }
    Ok(MergedRegion { start, size, names })
}

} // verus!
