use vstd::prelude::*;
use vstd::string::StringSliceAdditionalSpecFns;
use crate::bytes_util::{bytes_eq, slice_vec, push_bytes, push_str, joined, lemma_joined_step};
use crate::xml_dom::{Element, Node};
use crate::docx_model::{ParaProps, RunProps, ParaPropsV, RunPropsV, ov, named, attr_of, child_attr_of,
    opt_u32, first_child, spec_para_props, spec_run_props, empty_ppr, empty_rpr, first_child_named,
    attr_vec, child_attr_vec, child_attr_u32, parse_para_props, parse_run_props};

verus! {

/// A style definition of `word/styles.xml`.
#[derive(Debug)]
pub struct Style {
    /// `w:styleId`
    pub id: Vec<u8>,
    /// `w:name` value (display name)
    pub name: Option<Vec<u8>>,
    /// `w:type` (paragraph / character / table / numbering)
    pub style_type: Option<Vec<u8>>,
    /// `w:basedOn` value (parent style ID)
    pub based_on: Option<Vec<u8>>,
    /// `w:pPr/w:outlineLvl` value
    pub outline_lvl: Option<u32>,
    pub ppr: ParaProps,
    pub rpr: RunProps,
}

/// The style definitions of a document with its document defaults.
#[derive(Debug)]
pub struct Stylesheet {
    pub styles: Vec<Style>,
    pub doc_default_para: ParaProps,
    pub doc_default_run: RunProps,
}

pub struct StyleV {
    pub id: Seq<u8>,
    pub name: Option<Seq<u8>>,
    pub style_type: Option<Seq<u8>>,
    pub based_on: Option<Seq<u8>>,
    pub outline_lvl: Option<u32>,
    pub ppr: ParaPropsV,
    pub rpr: RunPropsV,
}

impl View for Style {
    type V = StyleV;

    open spec fn view(&self) -> StyleV {
        StyleV {
            id: self.id@,
            name: ov(self.name),
            style_type: ov(self.style_type),
            based_on: ov(self.based_on),
            outline_lvl: self.outline_lvl,
            ppr: self.ppr@,
            rpr: self.rpr@,
        }
    }
}

pub open spec fn styles_view(ss: Seq<Style>) -> Seq<StyleV> {
    ss.map_values(|s: Style| s@)
}

/// The style a `w:style` element defines (given its `w:styleId`).
pub open spec fn spec_style(e: Element, id: Seq<u8>) -> StyleV {
    StyleV {
        id: id,
        name: child_attr_of(e, "w:name", "w:val"),
        style_type: attr_of(e, "w:type"),
        based_on: child_attr_of(e, "w:basedOn", "w:val"),
        outline_lvl: match first_child(e.children@, "w:pPr") {
            Some(p) => opt_u32(child_attr_of(p, "w:outlineLvl", "w:val")),
            None => None,
        },
        ppr: match first_child(e.children@, "w:pPr") {
            Some(p) => spec_para_props(p),
            None => empty_ppr(),
        },
        rpr: match first_child(e.children@, "w:rPr") {
            Some(r) => spec_run_props(r),
            None => empty_rpr(),
        },
    }
}

/// The styles the direct `w:style` children with a `w:styleId` define, in order.
pub open spec fn styles_of(ns: Seq<Node>) -> Seq<StyleV>
    decreases ns.len(),
{
    if ns.len() == 0 {
        seq![]
    } else {
        styles_of(ns.subrange(0, ns.len() - 1)) + match ns[ns.len() - 1] {
            Node::Element(e) => if named(e, "w:style") && attr_of(e, "w:styleId") is Some {
                seq![spec_style(e, attr_of(e, "w:styleId")->0)]
            } else {
                seq![]
            },
            Node::Text(_) => seq![],
        }
    }
}

/// The properties `w:docDefaults/w:pPrDefault/w:pPr` gives.
pub open spec fn spec_default_ppr(root: Element) -> ParaPropsV {
    match first_child(root.children@, "w:docDefaults") {
        Some(d) => match first_child(d.children@, "w:pPrDefault") {
            Some(pd) => match first_child(pd.children@, "w:pPr") {
                Some(p) => spec_para_props(p),
                None => empty_ppr(),
            },
            None => empty_ppr(),
        },
        None => empty_ppr(),
    }
}

/// The properties `w:docDefaults/w:rPrDefault/w:rPr` gives.
pub open spec fn spec_default_rpr(root: Element) -> RunPropsV {
    match first_child(root.children@, "w:docDefaults") {
        Some(d) => match first_child(d.children@, "w:rPrDefault") {
            Some(rd) => match first_child(rd.children@, "w:rPr") {
                Some(r) => spec_run_props(r),
                None => empty_rpr(),
            },
            None => empty_rpr(),
        },
        None => empty_rpr(),
    }
}

fn empty_para_props() -> (p: ParaProps)
    ensures
        p@ == empty_ppr(),
{
    ParaProps {
        style: None,
        numbering: None,
        alignment: None,
        spacing_line: None,
        line_rule: None,
        spacing_before: None,
        spacing_after: None,
        indent_first_line: None,
        indent_hanging: None,
        indent_left: None,
    }
}

fn empty_run_props() -> (p: RunProps)
    ensures
        p@ == empty_rpr(),
{
    RunProps {
        bold: None,
        italic: None,
        underline: None,
        strike: None,
        size_half_pt: None,
        color: None,
        highlight: None,
        font_east_asia: None,
        font_ascii: None,
    }
}

fn parse_style(e: &Element, id: Vec<u8>) -> (s: Style)
    ensures
        s@ == spec_style(*e, id@),
{
    let (outline_lvl, ppr) = match first_child_named(&e.children, "w:pPr") {
        Some(p) => (child_attr_u32(p, "w:outlineLvl", "w:val"), parse_para_props(p)),
        None => (None, empty_para_props()),
    };
    let rpr = match first_child_named(&e.children, "w:rPr") {
        Some(r) => parse_run_props(r),
        None => empty_run_props(),
    };
    Style {
        id,
        name: child_attr_vec(e, "w:name", "w:val"),
        style_type: attr_vec(e, "w:type"),
        based_on: child_attr_vec(e, "w:basedOn", "w:val"),
        outline_lvl,
        ppr,
        rpr,
    }
}

impl Stylesheet {
    /// A stylesheet without styles (a package without `word/styles.xml`).
    pub fn empty() -> (s: Stylesheet)
        ensures
            s.styles@.len() == 0,
            s.doc_default_para@ == empty_ppr(),
            s.doc_default_run@ == empty_rpr(),
    {
        Stylesheet { styles: Vec::new(), doc_default_para: empty_para_props(), doc_default_run: empty_run_props() }
    }
}

/// Reads the style definitions of a parsed `word/styles.xml`.
pub fn parse_styles(root: &Element) -> (s: Stylesheet)
    ensures
        styles_view(s.styles@) == styles_of(root.children@),
        s.doc_default_para@ == spec_default_ppr(*root),
        s.doc_default_run@ == spec_default_rpr(*root),
{
    let ns = &root.children;
    let mut styles: Vec<Style> = Vec::new();
    let mut i: usize = 0;
    assert(styles_view(styles@) =~= seq![]);
    while i < ns.len()
        invariant
            i <= ns@.len(),
            styles_view(styles@) == styles_of(ns@.subrange(0, i as int)),
        decreases ns@.len() - i,
    {
        assert(ns@.subrange(0, i + 1).subrange(0, i as int) =~= ns@.subrange(0, i as int));
        let ghost before = styles_view(styles@);
        match &ns[i] {
            Node::Element(e) => {
                if e.is("w:style") {
                    match attr_vec(e, "w:styleId") {
                        Some(id) => {
                            let st = parse_style(e, id);
                            styles.push(st);
                            assert(styles_view(styles@) =~= before + seq![st@]);
                        },
                        None => {
                            assert(styles_view(styles@) =~= before + seq![]);
                        },
                    }
                } else {
                    assert(styles_view(styles@) =~= before + seq![]);
                }
            },
            Node::Text(_) => {
                assert(styles_view(styles@) =~= before + seq![]);
            },
        }
        i = i + 1;
    }
    assert(ns@.subrange(0, i as int) =~= ns@);
    let mut dp = empty_para_props();
    let mut dr = empty_run_props();
    if let Some(d) = first_child_named(ns, "w:docDefaults") {
        if let Some(pd) = first_child_named(&d.children, "w:pPrDefault") {
            if let Some(p) = first_child_named(&pd.children, "w:pPr") {
                dp = parse_para_props(p);
            }
        }
        if let Some(rd) = first_child_named(&d.children, "w:rPrDefault") {
            if let Some(r) = first_child_named(&rd.children, "w:rPr") {
                dr = parse_run_props(r);
            }
        }
    }
    Stylesheet { styles, doc_default_para: dp, doc_default_run: dr }
}

// ---------------------------------------------------------------------------
// Lookups
// ---------------------------------------------------------------------------

/// Index of the first style with ID `id`, from `k` on.
pub open spec fn index_of_id(ss: Seq<StyleV>, id: Seq<u8>, k: int) -> Option<int>
    decreases ss.len() - k,
{
    if k < 0 || k >= ss.len() {
        None
    } else if ss[k].id == id {
        Some(k)
    } else {
        index_of_id(ss, id, k + 1)
    }
}

/// Index of the first style whose display name is `name`, from `k` on.
pub open spec fn index_of_name(ss: Seq<StyleV>, name: Seq<u8>, k: int) -> Option<int>
    decreases ss.len() - k,
{
    if k < 0 || k >= ss.len() {
        None
    } else if ss[k].name == Some(name) {
        Some(k)
    } else {
        index_of_name(ss, name, k + 1)
    }
}

/// Number of styles from `k` on whose display name is `name`.
pub open spec fn count_named(ss: Seq<StyleV>, name: Seq<u8>, k: int) -> nat
    decreases ss.len() - k,
{
    if k < 0 || k >= ss.len() {
        0
    } else {
        count_named(ss, name, k + 1) + if ss[k].name == Some(name) { 1nat } else { 0nat }
    }
}

/// No style from `k` on is displayed under `name` when none is counted.
pub proof fn lemma_count_named_zero(ss: Seq<StyleV>, name: Seq<u8>, k: int)
    requires
        0 <= k,
    ensures
        count_named(ss, name, k) == 0 <==> index_of_name(ss, name, k) is None,
        index_of_name(ss, name, k) matches Some(j) ==> k <= j < ss.len() && ss[j].name == Some(name),
    decreases ss.len() - k,
{
    if k < ss.len() {
        lemma_count_named_zero(ss, name, k + 1);
    }
}

proof fn lemma_index_of_id(ss: Seq<StyleV>, id: Seq<u8>, k: int)
    requires
        0 <= k,
    ensures
        index_of_id(ss, id, k) matches Some(j) ==> k <= j < ss.len() && ss[j].id == id,
    decreases ss.len() - k,
{
    if k < ss.len() && ss[k].id != id {
        lemma_index_of_id(ss, id, k + 1);
    }
}

proof fn lemma_index_of_name(ss: Seq<StyleV>, name: Seq<u8>, k: int)
    requires
        0 <= k,
    ensures
        index_of_name(ss, name, k) matches Some(j) ==> k <= j < ss.len() && ss[j].name == Some(name),
    decreases ss.len() - k,
{
    if k < ss.len() && ss[k].name != Some(name) {
        lemma_index_of_name(ss, name, k + 1);
    }
}

fn name_is(s: &Style, name: &[u8]) -> (r: bool)
    ensures
        r == (s@.name == Some(name@)),
{
    match &s.name {
        Some(n) => bytes_eq(n.as_slice(), name),
        None => false,
    }
}

/// The first of `ss[k..]` that is a table style with ID `style` or displayed as `style`.
pub open spec fn first_table_style(ss: Seq<StyleV>, style: Seq<u8>, k: int) -> Option<int>
    decreases ss.len() - k,
{
    if k < 0 || k >= ss.len() {
        None
    } else if ss[k].style_type == Some("table".spec_bytes()) && (ss[k].id == style || ss[k].name == Some(style)) {
        Some(k)
    } else {
        first_table_style(ss, style, k + 1)
    }
}

/// The display names of `ss[0..i]`, in order, unnamed styles left out.
pub open spec fn names_upto(ss: Seq<StyleV>, i: int) -> Seq<Seq<u8>>
    decreases i,
{
    if i <= 0 {
        seq![]
    } else {
        match ss[i - 1].name {
            Some(n) => names_upto(ss, i - 1).push(n),
            None => names_upto(ss, i - 1),
        }
    }
}

/// The display names of the first `max` named styles.
pub open spec fn first_names(ss: Seq<StyleV>, max: nat) -> Seq<Seq<u8>> {
    let all = names_upto(ss, ss.len() as int);
    if all.len() <= max {
        all
    } else {
        all.take(max as int)
    }
}

proof fn lemma_names_prefix(ss: Seq<StyleV>, i: int, j: int)
    requires
        0 <= i <= j,
    ensures
        names_upto(ss, i).len() <= names_upto(ss, j).len(),
        names_upto(ss, j).subrange(0, names_upto(ss, i).len() as int) == names_upto(ss, i),
    decreases j,
{
    if i < j {
        lemma_names_prefix(ss, i, j - 1);
        let a = names_upto(ss, i);
        let b = names_upto(ss, j - 1);
        assert(names_upto(ss, j).subrange(0, a.len() as int) =~= b.subrange(0, a.len() as int));
    } else {
        assert(names_upto(ss, j).subrange(0, names_upto(ss, i).len() as int) =~= names_upto(ss, i));
    }
}

impl Stylesheet {
    pub open spec fn view_styles(&self) -> Seq<StyleV> {
        styles_view(self.styles@)
    }

    /// Index of the first style with ID `id`.
    pub fn find_id(&self, id: &[u8]) -> (r: Option<usize>)
        ensures
            match r {
                Some(k) => index_of_id(self.view_styles(), id@, 0) == Some(k as int),
                None => index_of_id(self.view_styles(), id@, 0) is None,
            },
    {
        let mut i: usize = 0;
        while i < self.styles.len()
            invariant
                i <= self.styles@.len(),
                index_of_id(self.view_styles(), id@, 0) == index_of_id(self.view_styles(), id@, i as int),
            decreases self.styles@.len() - i,
        {
            if bytes_eq(self.styles[i].id.as_slice(), id) {
                return Some(i);
            }
            i = i + 1;
        }
        None
    }

    /// Index of the first style whose display name is `name`.
    pub fn find_name(&self, name: &[u8]) -> (r: Option<usize>)
        ensures
            match r {
                Some(k) => index_of_name(self.view_styles(), name@, 0) == Some(k as int),
                None => index_of_name(self.view_styles(), name@, 0) is None,
            },
    {
        let mut i: usize = 0;
        while i < self.styles.len()
            invariant
                i <= self.styles@.len(),
                index_of_name(self.view_styles(), name@, 0) == index_of_name(self.view_styles(), name@, i as int),
            decreases self.styles@.len() - i,
        {
            if name_is(&self.styles[i], name) {
                return Some(i);
            }
            i = i + 1;
        }
        None
    }

    /// The display name of the style with ID `id` (`None` without such a
    /// style or when it has no name).
    pub fn name_of(&self, id: &[u8]) -> (r: Option<&Vec<u8>>)
        ensures
            match index_of_id(self.view_styles(), id@, 0) {
                Some(j) => match self.view_styles()[j].name {
                    Some(n) => r matches Some(v) && v@ == n,
                    None => r is None,
                },
                None => r is None,
            },
    {
        proof {
            lemma_index_of_id(self.view_styles(), id@, 0);
        }
        match self.find_id(id) {
            Some(j) => {
                assert(self.view_styles()[j as int] == self.styles@[j as int]@);
                match &self.styles[j].name {
                Some(n) => Some(n),
                None => None,
            }},
            None => None,
        }
    }

    /// The style ID a reference names: the reference itself when it is a
    /// style ID, else the ID of the first style displayed under that name.
    pub fn id_of(&self, style: &[u8]) -> (r: Option<Vec<u8>>)
        ensures
            match index_of_id(self.view_styles(), style@, 0) {
                Some(_) => r matches Some(v) && v@ == style@,
                None => match index_of_name(self.view_styles(), style@, 0) {
                    Some(j) => r matches Some(v) && v@ == self.view_styles()[j].id,
                    None => r is None,
                },
            },
    {
        proof {
            lemma_index_of_id(self.view_styles(), style@, 0);
            lemma_index_of_name(self.view_styles(), style@, 0);
        }
        if self.find_id(style).is_some() {
            return Some(slice_vec(style, 0, style.len()));
        }
        match self.find_name(style) {
            Some(j) => {
                assert(self.view_styles()[j as int] == self.styles@[j as int]@);
                let id = &self.styles[j].id;
                Some(slice_vec(id.as_slice(), 0, id.len()))
            },
            None => None,
        }
    }

    /// The ID of the table style displayed as (or with ID) `style`.
    pub fn table_style_id(&self, style: &[u8]) -> (r: Option<Vec<u8>>)
        ensures
            r matches Some(v) ==> exists|j: int|
                0 <= j < self.view_styles().len() && self.view_styles()[j].id == v@
                    && self.view_styles()[j].style_type == Some("table".spec_bytes()) && (
                self.view_styles()[j].id == style@ || self.view_styles()[j].name == Some(style@)),
            match first_table_style(self.view_styles(), style@, 0) {
                Some(j) => r matches Some(v) && v@ == self.view_styles()[j].id,
                None => r is None,
            },
    {
        let mut i: usize = 0;
        while i < self.styles.len()
            invariant
                i <= self.styles@.len(),
                first_table_style(self.view_styles(), style@, i as int) == first_table_style(self.view_styles(), style@, 0),
            decreases self.styles@.len() - i,
        {
            assert(self.view_styles()[i as int] == self.styles@[i as int]@);
            let s = &self.styles[i];
            let is_table = match &s.style_type {
                Some(t) => crate::bytes_util::eq_str(t.as_slice(), "table"),
                None => false,
            };
            if is_table && (bytes_eq(s.id.as_slice(), style) || name_is(s, style)) {
                let r = slice_vec(s.id.as_slice(), 0, s.id.len());
                assert(self.view_styles()[i as int] == s@);
                return Some(r);
            }
            i = i + 1;
        }
        None
    }

    /// IDs of every style displayed under `name`, in document order.
    pub fn ids_named(&self, name: &[u8]) -> (r: Vec<Vec<u8>>)
        ensures
            r@.len() <= self.styles@.len(),
            forall|k: int| 0 <= k < r@.len() ==> exists|j: int|
                0 <= j < self.view_styles().len() && self.view_styles()[j].name == Some(name@)
                    && self.view_styles()[j].id == #[trigger] r@[k]@,
            (r@.len() == 0) == (index_of_name(self.view_styles(), name@, 0) is None),
            r@.len() > 0 ==> r@[0]@ == self.view_styles()[index_of_name(self.view_styles(), name@, 0)->0].id,
            r@.len() == count_named(self.view_styles(), name@, 0),
    {
        let mut out: Vec<Vec<u8>> = Vec::new();
        let mut i: usize = 0;
        while i < self.styles.len()
            invariant
                i <= self.styles@.len(),
                out@.len() <= i,
                out@.len() + count_named(self.view_styles(), name@, i as int) == count_named(self.view_styles(), name@, 0),
                forall|k: int| 0 <= k < out@.len() ==> exists|j: int|
                    0 <= j < self.view_styles().len() && self.view_styles()[j].name == Some(name@)
                        && self.view_styles()[j].id == #[trigger] out@[k]@,
                out@.len() == 0 ==> index_of_name(self.view_styles(), name@, 0) == index_of_name(
                    self.view_styles(),
                    name@,
                    i as int,
                ),
                out@.len() > 0 ==> index_of_name(self.view_styles(), name@, 0) is Some
                    && out@[0]@ == self.view_styles()[index_of_name(self.view_styles(), name@, 0)->0].id,
            decreases self.styles@.len() - i,
        {
            let s = &self.styles[i];
            assert(self.view_styles()[i as int] == s@);
            if name_is(s, name) {
                let ghost old_out = out@;
                out.push(slice_vec(s.id.as_slice(), 0, s.id.len()));
                proof {
                    assert forall|k: int| 0 <= k < out@.len() implies exists|j: int|
                        0 <= j < self.view_styles().len() && self.view_styles()[j].name == Some(name@)
                            && self.view_styles()[j].id == #[trigger] out@[k]@ by {
                        if k < old_out.len() {
                            assert(out@[k] == old_out[k]);
                        } else {
                            assert(self.view_styles()[i as int].id == out@[k]@);
                        }
                    }
                }
            }
            i = i + 1;
        }
        proof {
            if out@.len() == 0 {
                assert(index_of_name(self.view_styles(), name@, i as int) is None);
            }
        }
        out
    }

    /// Display names of the first `max` named styles, joined with `、`.
    pub(crate) fn display_names_joined(&self, max: usize) -> (r: Vec<u8>)
        ensures
            r@ == joined(first_names(self.view_styles(), max as nat), "、".spec_bytes()),
    {
        let ghost ss = self.view_styles();
        let mut out: Vec<u8> = Vec::new();
        let mut count: usize = 0;
        let mut i: usize = 0;
        while i < self.styles.len() && count < max
            invariant
                i <= self.styles@.len(),
                ss == self.view_styles(),
                count <= max,
                count == names_upto(ss, i as int).len(),
                out@ == joined(names_upto(ss, i as int), "、".spec_bytes()),
            decreases self.styles@.len() - i,
        {
            assert(ss[i as int] == self.styles@[i as int]@);
            if let Some(n) = &self.styles[i].name {
                let ghost ns = names_upto(ss, i + 1);
                proof {
                    assert(ns.subrange(0, count as int) =~= names_upto(ss, i as int));
                    lemma_joined_step(ns, "、".spec_bytes(), count as int);
                    assert(ns.subrange(0, count + 1) =~= ns);
                }
                if count > 0 {
                    push_str(&mut out, "、");
                }
                push_bytes(&mut out, n.as_slice());
                count = count + 1;
            }
            i = i + 1;
        }
        proof {
            let all = names_upto(ss, ss.len() as int);
            lemma_names_prefix(ss, i as int, ss.len() as int);
            if count == max && all.len() > max {
                assert(all.take(max as int) =~= names_upto(ss, i as int));
            } else if all.len() <= max {
                if i < ss.len() {
                    assert(count == max);
                    assert(all.len() == max);
                    assert(all =~= names_upto(ss, i as int));
                } else {
                    assert(all == names_upto(ss, i as int));
                }
            } else {
                assert(i == ss.len());
            }
        }
        out
    }
}


// ---------------------------------------------------------------------------
// Style chains and effective properties
// ---------------------------------------------------------------------------

/// The chain after `acc` (whose last index is `cur`): the `basedOn` parent
/// of `cur`, and so on, until a parent is unknown or already in the chain.
pub open spec fn chain_from(ss: Seq<StyleV>, cur: int, acc: Seq<usize>) -> Seq<usize>
    decreases ss.len() - acc.len(),
{
    if acc.len() >= ss.len() || cur < 0 || cur >= ss.len() {
        acc
    } else {
        match ss[cur].based_on {
            None => acc,
            Some(p) => match index_of_id(ss, p, 0) {
                None => acc,
                Some(j) => if acc.contains(j as usize) {
                    acc
                } else {
                    chain_from(ss, j, acc.push(j as usize))
                },
            },
        }
    }
}

/// The style chain of ID `id` (indices into `ss`): the style, its `basedOn`
/// parent, and so on; empty for an unknown ID.
pub open spec fn spec_chain(ss: Seq<StyleV>, id: Seq<u8>) -> Seq<usize> {
    match index_of_id(ss, id, 0) {
        None => seq![],
        Some(j) => chain_from(ss, j, seq![j as usize]),
    }
}

proof fn lemma_distinct_bound(s: Seq<usize>, n: nat, next: usize)
    requires
        forall|a: int, b: int| 0 <= a < b < s.len() ==> s[a] != s[b],
        forall|k: int| 0 <= k < s.len() ==> s[k] < n,
        next < n,
        !s.contains(next),
    ensures
        s.len() + 1 <= n,
{
    let t = s.push(next).map_values(|x: usize| x as int);
    assert(t.no_duplicates()) by {
        assert forall|i: int, j: int| 0 <= i < t.len() && 0 <= j < t.len() && i != j implies t[i] != t[j] by {
            if i < s.len() && j < s.len() {
                if i < j {
                    assert(s[i] != s[j]);
                } else {
                    assert(s[j] != s[i]);
                }
            } else if i < s.len() {
                assert(s.push(next)[i] == s[i]);
            } else if j < s.len() {
                assert(s.push(next)[j] == s[j]);
            }
        }
    }
    t.unique_seq_to_set();
    vstd::set_lib::lemma_int_range(0, n as int);
    assert(t.to_set().subset_of(vstd::set_lib::set_int_range(0, n as int))) by {
        assert forall|x: int| t.to_set().contains(x) implies vstd::set_lib::set_int_range(0, n as int).contains(x) by {
            let i = choose|i: int| 0 <= i < t.len() && t[i] == x;
            if i < s.len() {
                assert(s.push(next)[i] == s[i]);
            }
        }
    }
    vstd::set_lib::lemma_len_subset(t.to_set(), vstd::set_lib::set_int_range(0, n as int));
}

fn copy_opt(o: &Option<Vec<u8>>) -> (r: Option<Vec<u8>>)
    ensures
        ov(r) == ov(*o),
{
    match o {
        Some(v) => Some(slice_vec(v.as_slice(), 0, v.len())),
        None => None,
    }
}

/// The first outline level set along a chain.
pub open spec fn chain_outline(ss: Seq<StyleV>, c: Seq<usize>) -> Option<u32>
    decreases c.len(),
{
    if c.len() == 0 {
        None
    } else if ss[c[0] as int].outline_lvl is Some {
        ss[c[0] as int].outline_lvl
    } else {
        chain_outline(ss, c.subrange(1, c.len() as int))
    }
}

/// Some style of the chain of `id` defines numbering (`w:pPr/w:numPr`).
pub open spec fn spec_chain_numbered(ss: Seq<StyleV>, id: Seq<u8>) -> bool {
    exists|k: int| 0 <= k < spec_chain(ss, id).len() && (#[trigger] ss[spec_chain(ss, id)[k] as int]).ppr.numbering is Some
}

impl Stylesheet {
    /// Whether the style chain of `id` defines numbering; see [`spec_chain_numbered`].
    pub fn chain_defines_numbering(&self, id: &[u8]) -> (r: bool)
        ensures
            r == spec_chain_numbered(self.view_styles(), id@),
    {
        let chain = self.resolve_chain(id);
        let ghost ss = self.view_styles();
        let mut k: usize = 0;
        while k < chain.len()
            invariant
                k <= chain@.len(),
                chain@ == spec_chain(ss, id@),
                ss == self.view_styles(),
                ss.len() == self.styles@.len(),
                forall|j: int| 0 <= j < chain@.len() ==> (#[trigger] chain@[j]) < self.styles@.len(),
                forall|j: int| 0 <= j < k ==> (#[trigger] ss[chain@[j] as int]).ppr.numbering is None,
            decreases chain@.len() - k,
        {
            let j = chain[k];
            assert(ss[j as int] == self.styles@[j as int]@);
            if self.styles[j].ppr.numbering.is_some() {
                return true;
            }
            k = k + 1;
        }
        false
    }
}

impl Stylesheet {
    /// The style chain of ID `id`; see [`spec_chain`].
    pub fn resolve_chain(&self, id: &[u8]) -> (r: Vec<usize>)
        ensures
            r@ == spec_chain(self.view_styles(), id@),
            forall|k: int| 0 <= k < r@.len() ==> (#[trigger] r@[k]) < self.styles@.len(),
    {
        let ghost ss = self.view_styles();
        proof {
            lemma_index_of_id(ss, id@, 0);
        }
        let mut out: Vec<usize> = Vec::new();
        let mut cur = match self.find_id(id) {
            Some(j) => j,
            None => {
                return out;
            },
        };
        out.push(cur);
        loop
            invariant
                ss == self.view_styles(),
                ss.len() == self.styles@.len(),
                0 < out@.len() <= ss.len(),
                cur == out@[out@.len() - 1],
                cur < ss.len(),
                spec_chain(ss, id@) == chain_from(ss, cur as int, out@),
                forall|k: int| 0 <= k < out@.len() ==> (#[trigger] out@[k]) < ss.len(),
                forall|a: int, b: int| 0 <= a < b < out@.len() ==> out@[a] != out@[b],
            decreases ss.len() - out@.len(),
        {
            assert(ss[cur as int] == self.styles@[cur as int]@);
            if out.len() >= self.styles.len() {
                return out;
            }
            let next = match &self.styles[cur].based_on {
                Some(p) => {
                    proof {
                        lemma_index_of_id(ss, p@, 0);
                    }
                    match self.find_id(p.as_slice()) {
                        Some(j) => j,
                        None => {
                            return out;
                        },
                    }
                },
                None => {
                    return out;
                },
            };
            let mut seen = false;
            let mut k: usize = 0;
            while k < out.len()
                invariant
                    k <= out@.len(),
                    seen <==> exists|q: int| 0 <= q < k && out@[q] == next,
                decreases out@.len() - k,
            {
                if out[k] == next {
                    seen = true;
                }
                k = k + 1;
            }
            if seen {
                assert(out@.contains(next));
                return out;
            }
            proof {
                lemma_distinct_bound(out@, ss.len(), next);
            }
            out.push(next);
            cur = next;
        }
    }

    /// The outline level of the style with ID `id`: the first one set along
    /// its chain.
    pub fn outline_lvl_of(&self, id: &[u8]) -> (r: Option<u32>)
        ensures
            r == chain_outline(self.view_styles(), spec_chain(self.view_styles(), id@)),
    {
        let chain = self.resolve_chain(id);
        let mut i: usize = 0;
        assert(chain@.subrange(0, chain@.len() as int) =~= chain@);
        while i < chain.len()
            invariant
                i <= chain@.len(),
                chain@ == spec_chain(self.view_styles(), id@),
                forall|k: int| 0 <= k < chain@.len() ==> (#[trigger] chain@[k]) < self.styles@.len(),
                chain_outline(self.view_styles(), chain@) == chain_outline(self.view_styles(), chain@.subrange(i as int, chain@.len() as int)),
            decreases chain@.len() - i,
        {
            let j = chain[i];
            assert(self.view_styles()[j as int] == self.styles@[j as int]@);
            let ghost t = chain@.subrange(i as int, chain@.len() as int);
            assert(t[0] == j);
            if self.styles[j].outline_lvl.is_some() {
                return self.styles[j].outline_lvl;
            }
            assert(t.subrange(1, t.len() as int) =~= chain@.subrange(i + 1, chain@.len() as int));
            i = i + 1;
        }
        None
    }
}


/// `a` where set, else `b`.
pub open spec fn or_else<T>(a: Option<T>, b: Option<T>) -> Option<T> {
    if a is Some {
        a
    } else {
        b
    }
}

/// Paragraph properties `a` completed by `b` (the style reference stays `a`'s).
pub open spec fn para_under(a: ParaPropsV, b: ParaPropsV) -> ParaPropsV {
    ParaPropsV {
        style: a.style,
        numbering: or_else(a.numbering, b.numbering),
        alignment: or_else(a.alignment, b.alignment),
        spacing_line: or_else(a.spacing_line, b.spacing_line),
        line_rule: or_else(a.line_rule, b.line_rule),
        spacing_before: or_else(a.spacing_before, b.spacing_before),
        spacing_after: or_else(a.spacing_after, b.spacing_after),
        indent_first_line: or_else(a.indent_first_line, b.indent_first_line),
        indent_hanging: or_else(a.indent_hanging, b.indent_hanging),
        indent_left: or_else(a.indent_left, b.indent_left),
    }
}

/// Run properties `a` completed by `b`.
pub open spec fn run_under(a: RunPropsV, b: RunPropsV) -> RunPropsV {
    RunPropsV {
        bold: or_else(a.bold, b.bold),
        italic: or_else(a.italic, b.italic),
        underline: or_else(a.underline, b.underline),
        strike: or_else(a.strike, b.strike),
        size_half_pt: or_else(a.size_half_pt, b.size_half_pt),
        color: or_else(a.color, b.color),
        highlight: or_else(a.highlight, b.highlight),
        font_east_asia: or_else(a.font_east_asia, b.font_east_asia),
        font_ascii: or_else(a.font_ascii, b.font_ascii),
    }
}

/// Direct paragraph properties completed along a style chain, nearest style first.
pub open spec fn para_along(d: ParaPropsV, ss: Seq<StyleV>, c: Seq<usize>) -> ParaPropsV
    decreases c.len(),
{
    if c.len() == 0 {
        d
    } else {
        para_along(para_under(d, ss[c[0] as int].ppr), ss, c.subrange(1, c.len() as int))
    }
}

/// Direct run properties completed along a style chain, nearest style first.
pub open spec fn run_along(d: RunPropsV, ss: Seq<StyleV>, c: Seq<usize>) -> RunPropsV
    decreases c.len(),
{
    if c.len() == 0 {
        d
    } else {
        run_along(run_under(d, ss[c[0] as int].rpr), ss, c.subrange(1, c.len() as int))
    }
}

fn or_bytes(a: Option<Vec<u8>>, b: &Option<Vec<u8>>) -> (r: Option<Vec<u8>>)
    ensures
        ov(r) == or_else(ov(a), ov(*b)),
{
    match a {
        Some(v) => Some(v),
        None => copy_opt(b),
    }
}

fn para_under_exec(a: ParaProps, b: &ParaProps) -> (r: ParaProps)
    ensures
        r@ == para_under(a@, b@),
{
    ParaProps {
        style: a.style,
        numbering: if a.numbering.is_some() { a.numbering } else { b.numbering },
        alignment: or_bytes(a.alignment, &b.alignment),
        spacing_line: if a.spacing_line.is_some() { a.spacing_line } else { b.spacing_line },
        line_rule: or_bytes(a.line_rule, &b.line_rule),
        spacing_before: if a.spacing_before.is_some() { a.spacing_before } else { b.spacing_before },
        spacing_after: if a.spacing_after.is_some() { a.spacing_after } else { b.spacing_after },
        indent_first_line: if a.indent_first_line.is_some() { a.indent_first_line } else { b.indent_first_line },
        indent_hanging: if a.indent_hanging.is_some() { a.indent_hanging } else { b.indent_hanging },
        indent_left: if a.indent_left.is_some() { a.indent_left } else { b.indent_left },
    }
}

fn run_under_exec(a: RunProps, b: &RunProps) -> (r: RunProps)
    ensures
        r@ == run_under(a@, b@),
{
    RunProps {
        bold: if a.bold.is_some() { a.bold } else { b.bold },
        italic: if a.italic.is_some() { a.italic } else { b.italic },
        underline: if a.underline.is_some() { a.underline } else { b.underline },
        strike: if a.strike.is_some() { a.strike } else { b.strike },
        size_half_pt: if a.size_half_pt.is_some() { a.size_half_pt } else { b.size_half_pt },
        color: or_bytes(a.color, &b.color),
        highlight: or_bytes(a.highlight, &b.highlight),
        font_east_asia: or_bytes(a.font_east_asia, &b.font_east_asia),
        font_ascii: or_bytes(a.font_ascii, &b.font_ascii),
    }
}

fn copy_para(p: &ParaProps) -> (r: ParaProps)
    ensures
        r@ == p@,
{
    ParaProps {
        style: copy_opt(&p.style),
        numbering: p.numbering,
        alignment: copy_opt(&p.alignment),
        spacing_line: p.spacing_line,
        line_rule: copy_opt(&p.line_rule),
        spacing_before: p.spacing_before,
        spacing_after: p.spacing_after,
        indent_first_line: p.indent_first_line,
        indent_hanging: p.indent_hanging,
        indent_left: p.indent_left,
    }
}

fn copy_run(p: &RunProps) -> (r: RunProps)
    ensures
        r@ == p@,
{
    RunProps {
        bold: p.bold,
        italic: p.italic,
        underline: p.underline,
        strike: p.strike,
        size_half_pt: p.size_half_pt,
        color: copy_opt(&p.color),
        highlight: copy_opt(&p.highlight),
        font_east_asia: copy_opt(&p.font_east_asia),
        font_ascii: copy_opt(&p.font_ascii),
    }
}

impl Stylesheet {
    /// The effective paragraph properties of direct properties under a style
    /// chain: each property from the direct ones, else the nearest style that
    /// sets it, else the document default.
    pub fn effective_para(&self, direct: &ParaProps, chain: &Vec<usize>) -> (r: ParaProps)
        requires
            forall|k: int| 0 <= k < chain@.len() ==> (#[trigger] chain@[k]) < self.styles@.len(),
        ensures
            r@ == para_under(para_along(direct@, self.view_styles(), chain@), self.doc_default_para@),
    {
        let mut e = copy_para(direct);
        let mut i: usize = 0;
        assert(chain@.subrange(0, chain@.len() as int) =~= chain@);
        while i < chain.len()
            invariant
                i <= chain@.len(),
                forall|k: int| 0 <= k < chain@.len() ==> (#[trigger] chain@[k]) < self.styles@.len(),
                para_along(direct@, self.view_styles(), chain@) == para_along(e@, self.view_styles(), chain@.subrange(i as int, chain@.len() as int)),
            decreases chain@.len() - i,
        {
            let j = chain[i];
            assert(self.view_styles()[j as int] == self.styles@[j as int]@);
            let ghost t = chain@.subrange(i as int, chain@.len() as int);
            assert(t[0] == j);
            assert(t.subrange(1, t.len() as int) =~= chain@.subrange(i + 1, chain@.len() as int));
            e = para_under_exec(e, &self.styles[j].ppr);
            i = i + 1;
        }
        assert(chain@.subrange(i as int, chain@.len() as int) =~= seq![]);
        para_under_exec(e, &self.doc_default_para)
    }

    /// The effective run properties of direct properties under a style
    /// chain; see [`Stylesheet::effective_para`].
    pub fn effective_run(&self, direct: &RunProps, chain: &Vec<usize>) -> (r: RunProps)
        requires
            forall|k: int| 0 <= k < chain@.len() ==> (#[trigger] chain@[k]) < self.styles@.len(),
        ensures
            r@ == run_under(run_along(direct@, self.view_styles(), chain@), self.doc_default_run@),
    {
        let mut e = copy_run(direct);
        let mut i: usize = 0;
        assert(chain@.subrange(0, chain@.len() as int) =~= chain@);
        while i < chain.len()
            invariant
                i <= chain@.len(),
                forall|k: int| 0 <= k < chain@.len() ==> (#[trigger] chain@[k]) < self.styles@.len(),
                run_along(direct@, self.view_styles(), chain@) == run_along(e@, self.view_styles(), chain@.subrange(i as int, chain@.len() as int)),
            decreases chain@.len() - i,
        {
            let j = chain[i];
            assert(self.view_styles()[j as int] == self.styles@[j as int]@);
            let ghost t = chain@.subrange(i as int, chain@.len() as int);
            assert(t[0] == j);
            assert(t.subrange(1, t.len() as int) =~= chain@.subrange(i + 1, chain@.len() as int));
            e = run_under_exec(e, &self.styles[j].rpr);
            i = i + 1;
        }
        assert(chain@.subrange(i as int, chain@.len() as int) =~= seq![]);
        run_under_exec(e, &self.doc_default_run)
    }
}

} // verus!
