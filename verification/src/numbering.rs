use vstd::prelude::*;
use crate::xml_dom::{Element, Node};
use crate::docx_model::{named, attr_of, child_attr_of, opt_u32, attr_u32, child_attr_u32};

verus! {

/// The numbering definitions of `word/numbering.xml`: `w:num` instances
/// (numId → abstractNumId) and the levels each `w:abstractNum` defines.
#[derive(Debug)]
pub struct NumberingCatalog {
    /// (numId, abstractNumId) in document order
    pub nums: Vec<(u32, u32)>,
    /// (abstractNumId, ilvl of each direct `w:lvl`) in document order
    pub abstracts: Vec<(u32, Vec<u32>)>,
}

/// `w:num` instances with a numeric numId and abstractNumId reference.
pub open spec fn nums_of(ns: Seq<Node>) -> Seq<(u32, u32)>
    decreases ns.len(),
{
    if ns.len() == 0 {
        seq![]
    } else {
        nums_of(ns.subrange(0, ns.len() - 1)) + match ns[ns.len() - 1] {
            Node::Element(e) => if named(e, "w:num") && opt_u32(attr_of(e, "w:numId")) is Some
                && opt_u32(child_attr_of(e, "w:abstractNumId", "w:val")) is Some {
                seq![(opt_u32(attr_of(e, "w:numId"))->0, opt_u32(child_attr_of(e, "w:abstractNumId", "w:val"))->0)]
            } else {
                seq![]
            },
            Node::Text(_) => seq![],
        }
    }
}

/// ilvl values of the direct `w:lvl` children.
pub open spec fn lvls_of(ns: Seq<Node>) -> Seq<u32>
    decreases ns.len(),
{
    if ns.len() == 0 {
        seq![]
    } else {
        lvls_of(ns.subrange(0, ns.len() - 1)) + match ns[ns.len() - 1] {
            Node::Element(e) => if named(e, "w:lvl") && opt_u32(attr_of(e, "w:ilvl")) is Some {
                seq![opt_u32(attr_of(e, "w:ilvl"))->0]
            } else {
                seq![]
            },
            Node::Text(_) => seq![],
        }
    }
}

/// `w:abstractNum` definitions with a numeric ID, with their levels.
pub open spec fn abstracts_of(ns: Seq<Node>) -> Seq<(u32, Seq<u32>)>
    decreases ns.len(),
{
    if ns.len() == 0 {
        seq![]
    } else {
        abstracts_of(ns.subrange(0, ns.len() - 1)) + match ns[ns.len() - 1] {
            Node::Element(e) => if named(e, "w:abstractNum") && opt_u32(attr_of(e, "w:abstractNumId")) is Some {
                seq![(opt_u32(attr_of(e, "w:abstractNumId"))->0, lvls_of(e.children@))]
            } else {
                seq![]
            },
            Node::Text(_) => seq![],
        }
    }
}

pub open spec fn abstracts_view(a: Seq<(u32, Vec<u32>)>) -> Seq<(u32, Seq<u32>)> {
    a.map_values(|x: (u32, Vec<u32>)| (x.0, x.1@))
}

fn parse_lvls(e: &Element) -> (r: Vec<u32>)
    ensures
        r@ == lvls_of(e.children@),
{
    let ns = &e.children;
    let mut out: Vec<u32> = Vec::new();
    let mut i: usize = 0;
    while i < ns.len()
        invariant
            i <= ns@.len(),
            out@ == lvls_of(ns@.subrange(0, i as int)),
        decreases ns@.len() - i,
    {
        assert(ns@.subrange(0, i + 1).subrange(0, i as int) =~= ns@.subrange(0, i as int));
        let ghost before = out@;
        match &ns[i] {
            Node::Element(c) => {
                if c.is("w:lvl") {
                    if let Some(l) = attr_u32(c, "w:ilvl") {
                        out.push(l);
                    }
                }
            },
            Node::Text(_) => {},
        }
        assert(out@ =~= lvls_of(ns@.subrange(0, i + 1)));
        i = i + 1;
    }
    assert(ns@.subrange(0, i as int) =~= ns@);
    out
}

/// Reads the numbering catalog of a parsed `word/numbering.xml`.
pub fn parse_numbering(root: &Element) -> (c: NumberingCatalog)
    ensures
        c.nums@ == nums_of(root.children@),
        abstracts_view(c.abstracts@) == abstracts_of(root.children@),
{
    let ns = &root.children;
    let mut nums: Vec<(u32, u32)> = Vec::new();
    let mut abstracts: Vec<(u32, Vec<u32>)> = Vec::new();
    let mut i: usize = 0;
    assert(abstracts_view(abstracts@) =~= seq![]);
    while i < ns.len()
        invariant
            i <= ns@.len(),
            nums@ == nums_of(ns@.subrange(0, i as int)),
            abstracts_view(abstracts@) == abstracts_of(ns@.subrange(0, i as int)),
        decreases ns@.len() - i,
    {
        assert(ns@.subrange(0, i + 1).subrange(0, i as int) =~= ns@.subrange(0, i as int));
        let ghost n0 = nums@;
        let ghost a0 = abstracts_view(abstracts@);
        match &ns[i] {
            Node::Element(c) => {
                if c.is("w:num") {
                    if let (Some(n), Some(a)) = (attr_u32(c, "w:numId"), child_attr_u32(c, "w:abstractNumId", "w:val")) {
                        nums.push((n, a));
                    }
                }
                if c.is("w:abstractNum") {
                    if let Some(a) = attr_u32(c, "w:abstractNumId") {
                        let l = parse_lvls(c);
                        let ghost lv = l@;
                        abstracts.push((a, l));
                        assert(abstracts_view(abstracts@) =~= a0 + seq![(a, lv)]);
                    }
                }
            },
            Node::Text(_) => {},
        }
        assert(nums@ =~= nums_of(ns@.subrange(0, i + 1)));
        assert(abstracts_view(abstracts@) =~= abstracts_of(ns@.subrange(0, i + 1)));
        i = i + 1;
    }
    assert(ns@.subrange(0, i as int) =~= ns@);
    NumberingCatalog { nums, abstracts }
}

/// The abstract definition the first instance `num_id` refers to.
pub open spec fn spec_abstract_of(nums: Seq<(u32, u32)>, num_id: u32) -> Option<u32>
    decreases nums.len(),
{
    if nums.len() == 0 {
        None
    } else if nums[0].0 == num_id {
        Some(nums[0].1)
    } else {
        spec_abstract_of(nums.subrange(1, nums.len() as int), num_id)
    }
}

/// The levels of the first abstract definition `abs`.
pub open spec fn spec_levels_of(abstracts: Seq<(u32, Seq<u32>)>, abs: u32) -> Option<Seq<u32>>
    decreases abstracts.len(),
{
    if abstracts.len() == 0 {
        None
    } else if abstracts[0].0 == abs {
        Some(abstracts[0].1)
    } else {
        spec_levels_of(abstracts.subrange(1, abstracts.len() as int), abs)
    }
}

impl NumberingCatalog {
    /// The abstractNumId that instance `num_id` refers to.
    pub fn abstract_of(&self, num_id: u32) -> (r: Option<u32>)
        ensures
            r == spec_abstract_of(self.nums@, num_id),
    {
        let mut i: usize = 0;
        assert(self.nums@.subrange(0, self.nums@.len() as int) =~= self.nums@);
        while i < self.nums.len()
            invariant
                i <= self.nums@.len(),
                spec_abstract_of(self.nums@, num_id) == spec_abstract_of(
                    self.nums@.subrange(i as int, self.nums@.len() as int),
                    num_id,
                ),
            decreases self.nums@.len() - i,
        {
            let ghost rest = self.nums@.subrange(i as int, self.nums@.len() as int);
            assert(rest.subrange(1, rest.len() as int) =~= self.nums@.subrange(i + 1, self.nums@.len() as int));
            if self.nums[i].0 == num_id {
                return Some(self.nums[i].1);
            }
            i = i + 1;
        }
        None
    }

    /// The levels the abstract definition `abs` defines.
    pub fn levels_of(&self, abs: u32) -> (r: Option<&Vec<u32>>)
        ensures
            match r {
                Some(v) => spec_levels_of(abstracts_view(self.abstracts@), abs) == Some(v@),
                None => spec_levels_of(abstracts_view(self.abstracts@), abs) is None,
            },
    {
        let ghost av = abstracts_view(self.abstracts@);
        let mut i: usize = 0;
        assert(av.subrange(0, av.len() as int) =~= av);
        while i < self.abstracts.len()
            invariant
                i <= self.abstracts@.len(),
                av == abstracts_view(self.abstracts@),
                spec_levels_of(av, abs) == spec_levels_of(av.subrange(i as int, av.len() as int), abs),
            decreases self.abstracts@.len() - i,
        {
            let ghost rest = av.subrange(i as int, av.len() as int);
            assert(rest.subrange(1, rest.len() as int) =~= av.subrange(i + 1, av.len() as int));
            if self.abstracts[i].0 == abs {
                return Some(&self.abstracts[i].1);
            }
            i = i + 1;
        }
        None
    }

    /// The levels instance `num_id` gets from its abstract definition (empty
    /// when the instance or the definition is unknown).
    pub fn ilvls_of_num(&self, num_id: u32) -> (r: Vec<u32>)
        ensures
            match spec_abstract_of(self.nums@, num_id) {
                Some(a) => match spec_levels_of(abstracts_view(self.abstracts@), a) {
                    Some(l) => r@ == l,
                    None => r@.len() == 0,
                },
                None => r@.len() == 0,
            },
    {
        match self.abstract_of(num_id) {
            Some(a) => match self.levels_of(a) {
                Some(l) => crate::numbering::copy_u32s(l),
                None => Vec::new(),
            },
            None => Vec::new(),
        }
    }

    /// Whether instance `num_id` has a definition for level `level`.
    #[verifier::loop_isolation(false)]
    pub fn has_lvl(&self, num_id: u32, level: u32) -> (r: bool)
        ensures
            r == (match spec_abstract_of(self.nums@, num_id) {
                Some(a) => match spec_levels_of(abstracts_view(self.abstracts@), a) {
                    Some(l) => l.contains(level),
                    None => false,
                },
                None => false,
            }),
    {
        let l = self.ilvls_of_num(num_id);
        let mut i: usize = 0;
        while i < l.len()
            invariant
                i <= l@.len(),
                forall|k: int| 0 <= k < i ==> l@[k] != level,
            decreases l@.len() - i,
        {
            if l[i] == level {
                assert(l@[i as int] == level);
                return true;
            }
            i = i + 1;
        }
        false
    }

    /// Every numId whose instance refers to abstract definition `abs`, in order.
    pub fn num_ids_of_abstract(&self, abs: u32) -> (r: Vec<u32>)
        ensures
            r@ == self.nums@.filter(|x: (u32, u32)| x.1 == abs).map_values(|x: (u32, u32)| x.0),
    {
        let mut out: Vec<u32> = Vec::new();
        let mut i: usize = 0;
        while i < self.nums.len()
            invariant
                i <= self.nums@.len(),
                out@ == self.nums@.subrange(0, i as int).filter(|x: (u32, u32)| x.1 == abs).map_values(
                    |x: (u32, u32)| x.0,
                ),
            decreases self.nums@.len() - i,
        {
            let ghost pre = self.nums@.subrange(0, i as int);
            let ghost pre1 = self.nums@.subrange(0, i + 1);
            assert(pre1.drop_last() =~= pre);
            reveal_with_fuel(Seq::filter, 1);
            if self.nums[i].1 == abs {
                out.push(self.nums[i].0);
            }
            assert(out@ =~= pre1.filter(|x: (u32, u32)| x.1 == abs).map_values(|x: (u32, u32)| x.0));
            i = i + 1;
        }
        assert(self.nums@.subrange(0, i as int) =~= self.nums@);
        out
    }
}

pub fn copy_u32s(v: &Vec<u32>) -> (r: Vec<u32>)
    ensures
        r@ == v@,
{
    let mut out: Vec<u32> = Vec::new();
    let mut i: usize = 0;
    while i < v.len()
        invariant
            i <= v@.len(),
            out@ == v@.subrange(0, i as int),
        decreases v@.len() - i,
    {
        out.push(v[i]);
        assert(out@ =~= v@.subrange(0, i + 1));
        i = i + 1;
    }
    assert(v@.subrange(0, i as int) =~= v@);
    out
}

} // verus!
