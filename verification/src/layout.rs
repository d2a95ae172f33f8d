//! The decoded layout of a linked binary: its sections and its symbol table,
//! as plain values, together with the reader that turns the raw image into
//! the ordered list of allocatable sections the merger works on.

use vstd::prelude::*;

use crate::errors::{ConfigIssue, Error};

verus! {

/// Flag bit of a section that occupies target memory at run time.
pub const ALLOC_FLAG: u64 = 2;

/// One section header of the linked binary, as plain values.
#[derive(Debug, Clone)]
pub struct Section {
    /// The section's name, when the string table holds one for it.
    pub name: Option<String>,
    /// Load address.
    pub addr: u64,
    /// Size in bytes.
    pub size: u64,
    /// Required alignment.
    pub align: u64,
    /// Section flags; `ALLOC_FLAG` marks a section that occupies memory.
    pub flags: u64,
}

/// Mathematical model of a `Section`.
pub ghost struct SectionV {
    pub name: Option<Seq<char>>,
    pub addr: u64,
    pub size: u64,
    pub align: u64,
    pub flags: u64,
}

impl View for Section {
    type V = SectionV;

    open spec fn view(&self) -> SectionV {
        SectionV {
            name: match self.name {
                Some(n) => Some(n@),
                None => None,
            },
            addr: self.addr,
            size: self.size,
            align: self.align,
            flags: self.flags,
        }
    }
}

/// One symbol-table entry, as plain values.
#[derive(Debug, Clone)]
pub struct Symbol {
    /// The symbol's name, when the string table holds one for it.
    pub name: Option<String>,
    /// The symbol's value, an address.
    pub value: u64,
}

/// Mathematical model of a `Symbol`.
pub ghost struct SymbolV {
    pub name: Option<Seq<char>>,
    pub value: u64,
}

impl View for Symbol {
    type V = SymbolV;

    open spec fn view(&self) -> SymbolV {
        SymbolV {
            name: match self.name {
                Some(n) => Some(n@),
                None => None,
            },
            value: self.value,
        }
    }
}

impl Section {
    /// A copy of this section, equal to it field by field.
    pub fn duplicate(&self) -> (r: Section)
        ensures
            r@ == self@,
    {
        Section {
            name: match &self.name {
                Some(n) => Some(n.clone()),
                None => None,
            },
            addr: self.addr,
            size: self.size,
            align: self.align,
            flags: self.flags,
        }
    }
}

/// Everything the tool reads out of a linked binary.
#[derive(Debug, Clone)]
pub struct Layout {
    /// All section headers, in the order the binary lists them.
    pub sections: Vec<Section>,
    /// The full symbol table, in the order the binary lists it.
    pub symbols: Vec<Symbol>,
}

/// Mathematical model of a `Layout`.
pub ghost struct LayoutV {
    pub sections: Seq<SectionV>,
    pub symbols: Seq<SymbolV>,
}

/// The models of a list of sections.
pub open spec fn sec_views(s: Seq<Section>) -> Seq<SectionV> {
    s.map_values(|x: Section| x@)
}

/// The models of a list of symbols.
pub open spec fn sym_views(s: Seq<Symbol>) -> Seq<SymbolV> {
    s.map_values(|x: Symbol| x@)
}

impl View for Layout {
    type V = LayoutV;

    open spec fn view(&self) -> LayoutV {
        LayoutV { sections: sec_views(self.sections@), symbols: sym_views(self.symbols@) }
    }
}

/// A section whose address range does not wrap the address space; all of the
/// boundary arithmetic depends on `addr + size` being a real end address.
pub open spec fn sec_wf(s: SectionV) -> bool {
    s.addr + s.size <= u64::MAX
}

/// Every section of the layout is well formed.
pub open spec fn layout_wf(l: LayoutV) -> bool {
    forall|i: int| 0 <= i < l.sections.len() ==> sec_wf(#[trigger] l.sections[i])
}

/// A section that occupies target memory at run time.
pub open spec fn is_allocatable(s: SectionV) -> bool {
    s.flags & ALLOC_FLAG != 0
}

/// Every section of a list is well formed.
pub open spec fn all_wf(s: Seq<SectionV>) -> bool {
    forall|i: int| 0 <= i < s.len() ==> sec_wf(#[trigger] s[i])
}

/// The allocatable sections of a section list, in their given order.
pub open spec fn spec_allocatable(s: Seq<SectionV>) -> Seq<SectionV>
    decreases s.len(),
{
    if s.len() == 0 {
        Seq::empty()
    } else if is_allocatable(s.last()) {
        spec_allocatable(s.drop_last()).push(s.last())
    } else {
        spec_allocatable(s.drop_last())
    }
}

/// A section list in ascending address order.
pub open spec fn sorted_by_addr(s: Seq<SectionV>) -> bool {
    forall|i: int, j: int| 0 <= i < j < s.len() ==> s[i].addr <= s[j].addr
}

/// Filtering a well-formed list keeps it well formed.
proof fn lemma_allocatable_wf(s: Seq<SectionV>)
    requires
        all_wf(s),
    ensures
        all_wf(spec_allocatable(s)),
    decreases s.len(),
{
    if s.len() > 0 {
        assert(all_wf(s.drop_last()));
        lemma_allocatable_wf(s.drop_last());
    }
}

/// Well-formedness carries over any rearrangement of the same sections.
proof fn lemma_multiset_wf(s: Seq<SectionV>, t: Seq<SectionV>)
    requires
        s.to_multiset() == t.to_multiset(),
        all_wf(s),
    ensures
        all_wf(t),
{
    broadcast use vstd::seq_lib::group_to_multiset_ensures;

    assert forall|i: int| 0 <= i < t.len() implies sec_wf(#[trigger] t[i]) by {
        assert(t.contains(t[i]));
        assert(t.to_multiset().count(t[i]) > 0);
        assert(s.contains(t[i]));
    }
}

/// The name of the stack-top symbol the tool consults.
pub open spec fn stack_top_name() -> Seq<char> {
    "__stack_top__"@
}

/// The value of the first symbol named `__stack_top__`, if any.
pub open spec fn spec_stack_top(syms: Seq<SymbolV>) -> Option<u64>
    decreases syms.len(),
{
    if syms.len() == 0 {
        None
    } else if syms[0].name matches Some(n) && n == stack_top_name() {
        Some(syms[0].value)
    } else {
        spec_stack_top(syms.drop_first())
    }
}

/// What decoding an image of the binary format yields: the section list and
/// the symbol table, or nothing when the image is malformed.  The result is a
/// function of the bytes alone.
pub uninterp spec fn elf_layout(bytes: Seq<u8>) -> Option<LayoutV>;

/// Relies on `goblin::elf::Elf::parse` to decode the image, and on
/// `goblin::strtab::Strtab::get_at` to resolve each section's and symbol's
/// name; both compute from the bytes alone.  `None` stands for a parse error.
#[verifier::external_body]
fn decode_bytes(bytes: &[u8]) -> (r: Option<Layout>)
    ensures
        r matches Some(l) ==> elf_layout(bytes@) == Some(l@),
        r is None <==> elf_layout(bytes@) is None,
{
    let elf = match goblin::elf::Elf::parse(bytes) {
        Ok(elf) => elf,
        Err(_) => return None,
    };
    let sections = elf.section_headers.iter().map(|sh| Section {
        name: elf.shdr_strtab.get_at(sh.sh_name).map(|n| n.to_owned()),
        addr: sh.sh_addr, size: sh.sh_size, align: sh.sh_addralign, flags: sh.sh_flags,
    }).collect();
    let symbols = elf.syms.iter().map(|sym| Symbol {
        name: elf.strtab.get_at(sym.st_name).map(|n| n.to_owned()),
        value: sym.st_value,
    }).collect();
    Some(Layout { sections, symbols })
}

impl Layout {
    /// Decode a linked binary image.  Besides images the parser refuses, this
    /// rejects any image with a section whose address range would wrap the
    /// address space.
    pub fn decode(bytes: &[u8]) -> (r: Result<Layout, Error>)
        ensures
            r matches Ok(l) ==> elf_layout(bytes@) == Some(l@) && layout_wf(l@),
            r matches Err(e) ==> e == Error::Decode && (elf_layout(bytes@) matches Some(l)
                ==> !layout_wf(l)),
    {
        let layout = match decode_bytes(bytes) {
            Some(l) => l,
            None => return Err(Error::Decode),
        };
        let n = layout.sections.len();
        let mut i: usize = 0;
        while i < n
            invariant
                n == layout.sections.len(),
                0 <= i <= n,
                elf_layout(bytes@) == Some(layout@),
                forall|j: int| 0 <= j < i ==> sec_wf(#[trigger] layout@.sections[j]),
            decreases n - i,
        {
            let s = &layout.sections[i];
            if s.size > u64::MAX - s.addr {
                proof {
                    assert(layout@.sections[i as int] == layout.sections@[i as int]@);
                    assert(!sec_wf(layout@.sections[i as int]));
                    assert(!layout_wf(layout@));
                }
                return Err(Error::Decode);
            }
            i = i + 1;
        }
        Ok(layout)
    }

    /// The allocatable sections of this layout, in ascending address order.
    /// The result holds exactly the allocatable sections, each once.
    pub fn allocatable_sorted(&self) -> (r: Vec<Section>)
        requires
            layout_wf(self@),
        ensures
            sorted_by_addr(sec_views(r@)),
            sec_views(r@).to_multiset() == spec_allocatable(self@.sections).to_multiset(),
            all_wf(sec_views(r@)),
    {
        broadcast use vstd::seq_lib::group_to_multiset_ensures;

        let mut work: Vec<Section> = Vec::new();
        let n = self.sections.len();
        let mut i: usize = 0;
        while i < n
            invariant
                0 <= i <= n,
                n == self.sections.len(),
                sec_views(work@) == spec_allocatable(self@.sections.take(i as int)),
            decreases n - i,
        {
            let s = &self.sections[i];
            proof {
                assert(self@.sections.take(i + 1).drop_last() =~= self@.sections.take(i as int));
                assert(self@.sections.take(i + 1).last() == self@.sections[i as int]);
                assert(self@.sections[i as int] == self.sections@[i as int]@);
            }
            if s.flags & ALLOC_FLAG != 0 {
                let d = s.duplicate();
                work.push(d);
                proof {
                    assert(sec_views(work@) =~= spec_allocatable(self@.sections.take(i + 1)));
                }
            } else {
                proof {
                    assert(sec_views(work@) =~= spec_allocatable(self@.sections.take(i + 1)));
                }
            }
            i = i + 1;
        }
        proof {
            assert(self@.sections.take(n as int) =~= self@.sections);
        }
        let ghost m0 = spec_allocatable(self@.sections).to_multiset();
        let mut out: Vec<Section> = Vec::new();
        proof {
            assert(sec_views(out@) =~= Seq::<SectionV>::empty());
            assert(sec_views(out@).to_multiset().add(sec_views(work@).to_multiset()) =~= m0);
        }
        while work.len() > 0
            invariant
                sec_views(out@).to_multiset().add(sec_views(work@).to_multiset()) == m0,
                sorted_by_addr(sec_views(out@)),
                forall|p: int, q: int|
                    0 <= p < out@.len() && 0 <= q < work@.len() ==> #[trigger] out@[p]@.addr
                        <= #[trigger] work@[q]@.addr,
            decreases work.len(),
        {
            let mut mi: usize = 0;
            let mut j: usize = 1;
            while j < work.len()
                invariant
                    0 <= mi < work.len(),
                    mi < j <= work.len(),
                    forall|k: int| 0 <= k < j ==> work@[mi as int]@.addr <= #[trigger] work@[k]@.addr,
                decreases work.len() - j,
            {
                if work[j].addr < work[mi].addr {
                    mi = j;
                }
                j = j + 1;
            }
            let ghost v0 = sec_views(out@);
            let ghost w0 = sec_views(work@);
            let ghost m = w0[mi as int];
            let s = work.remove(mi);
            out.push(s);
            proof {
                broadcast use vstd::seq_lib::group_to_multiset_ensures;
                broadcast use vstd::multiset::group_multiset_axioms;

                assert(s@ == m);
                assert(sec_views(work@) =~= w0.remove(mi as int));
                assert(sec_views(out@) =~= v0.push(m));
                assert(w0.contains(m));
                assert(w0.to_multiset().count(m) > 0);
                assert(sec_views(out@).to_multiset() =~= v0.to_multiset().insert(m));
                assert(sec_views(work@).to_multiset() =~= w0.to_multiset().remove(m));
                assert(sec_views(out@).to_multiset().add(sec_views(work@).to_multiset()) =~= v0
                    .to_multiset()
                    .add(w0.to_multiset()));
                assert(forall|q: int| 0 <= q < w0.len() ==> m.addr <= #[trigger] w0[q].addr);
                assert(sorted_by_addr(sec_views(out@)));
            }
        }
        proof {
            broadcast use vstd::seq_lib::group_to_multiset_ensures;
            broadcast use vstd::multiset::group_multiset_axioms;

            assert(sec_views(work@) =~= Seq::<SectionV>::empty());
            assert(sec_views(out@).to_multiset().add(
                Seq::<SectionV>::empty().to_multiset(),
            ) =~= sec_views(out@).to_multiset());
            lemma_allocatable_wf(self@.sections);
            lemma_multiset_wf(spec_allocatable(self@.sections), sec_views(out@));
        }
        out
    }

    /// The configured top of the stack: the value of the first symbol named
    /// `__stack_top__` in the symbol table.
    pub fn stack_top(&self) -> (r: Result<u64, Error>)
        ensures
            r matches Ok(v) ==> spec_stack_top(self@.symbols) == Some(v),
            r is Err <==> spec_stack_top(self@.symbols) is None,
            r matches Err(e) ==> e == Error::Config(ConfigIssue::StackSymbolNotFound),
    {
        let key: String = "__stack_top__".to_owned();
        let n = self.symbols.len();
        let mut i: usize = 0;
        proof {
            assert(self@.symbols.skip(0) =~= self@.symbols);
        }
        while i < n
            invariant
                0 <= i <= n,
                n == self.symbols.len(),
                key@ == stack_top_name(),
                spec_stack_top(self@.symbols) == spec_stack_top(self@.symbols.skip(i as int)),
            decreases n - i,
        {
            let sym = &self.symbols[i];
            proof {
                assert(self@.symbols.skip(i as int).drop_first() =~= self@.symbols.skip(i + 1));
                assert(self@.symbols.skip(i as int)[0] == self@.symbols[i as int]);
                assert(self@.symbols[i as int] == self.symbols@[i as int]@);
            }
            match &sym.name {
                Some(nm) => {
                    if nm.eq(&key) {
                        return Ok(sym.value);
                    }
                },
                None => {},
            }
            i = i + 1;
        }
        proof {
            assert(self@.symbols.skip(n as int) =~= Seq::<SymbolV>::empty());
        }
        Err(Error::Config(ConfigIssue::StackSymbolNotFound))
    }
}

} // verus!
