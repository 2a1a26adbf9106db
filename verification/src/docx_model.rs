use vstd::prelude::*;
use vstd::string::StringSliceAdditionalSpecFns;
use vstd::utf8::*;
use crate::bytes_util::{eq_str, parse_u32, spec_parse_u32, unsigned_body, push_bytes, slice_vec};
use crate::xml_dom::{Element, Node, spec_attr, spec_raw_text};

verus! {

// ---------------------------------------------------------------------------
// Model types
// ---------------------------------------------------------------------------

/// Revision mark of a run: inside `w:ins` or inside `w:del`.
#[derive(PartialEq, Eq, Structural, Clone, Copy, Debug)]
pub enum Revision {
    Inserted,
    Deleted,
}

/// A numbering reference (`w:numPr`): numId and level; numId 0 is modelled as none.
#[derive(PartialEq, Eq, Structural, Clone, Copy, Debug)]
pub struct NumRef {
    pub num_id: u32,
    pub ilvl: u32,
}

/// Direct paragraph properties (`w:pPr`).
#[derive(Debug)]
pub struct ParaProps {
    pub style: Option<Vec<u8>>,
    pub numbering: Option<NumRef>,
    pub alignment: Option<Vec<u8>>,
    pub spacing_line: Option<u32>,
    pub line_rule: Option<Vec<u8>>,
    pub spacing_before: Option<u32>,
    pub spacing_after: Option<u32>,
    pub indent_first_line: Option<u32>,
    pub indent_hanging: Option<u32>,
    pub indent_left: Option<u32>,
}

/// Direct run properties (`w:rPr`); `None` means inherited.
#[derive(Debug)]
pub struct RunProps {
    pub bold: Option<bool>,
    pub italic: Option<bool>,
    pub underline: Option<bool>,
    pub strike: Option<bool>,
    pub size_half_pt: Option<u32>,
    pub color: Option<Vec<u8>>,
    pub highlight: Option<Vec<u8>>,
    pub font_east_asia: Option<Vec<u8>>,
    pub font_ascii: Option<Vec<u8>>,
}

/// A run: its text (tabs and breaks inlined), properties and revision mark.
#[derive(Debug)]
pub struct Run {
    pub text: Vec<u8>,
    pub props: RunProps,
    pub revision: Option<Revision>,
}

#[derive(Debug)]
pub struct Paragraph {
    pub runs: Vec<Run>,
    pub props: ParaProps,
}

#[derive(Debug)]
pub struct TableCell {
    pub blocks: Vec<Block>,
    pub grid_span: Option<u32>,
    /// `restart` heads a vertical merge, `continue` is merged into the cell above.
    pub v_merge: Option<Vec<u8>>,
}

#[derive(Debug)]
pub struct TableRow {
    pub cells: Vec<TableCell>,
}

#[derive(Debug)]
pub struct Table {
    pub rows: Vec<TableRow>,
    /// `w:tblPr/w:tblStyle` value (a style ID).
    pub style_id: Option<Vec<u8>>,
}

#[derive(Debug)]
pub enum Block {
    Paragraph(Paragraph),
    Table(Table),
}

/// Section properties (`w:sectPr`); sizes in twips.
#[derive(Debug)]
pub struct SectionProps {
    pub page_w: Option<u32>,
    pub page_h: Option<u32>,
    pub orientation: Option<Vec<u8>>,
    pub margin_top: Option<u32>,
    pub margin_bottom: Option<u32>,
    pub margin_left: Option<u32>,
    pub margin_right: Option<u32>,
    /// (type, r:id) pairs.
    pub header_refs: Vec<(Vec<u8>, Vec<u8>)>,
    pub footer_refs: Vec<(Vec<u8>, Vec<u8>)>,
}

/// The body of a document and its sections in document order.
#[derive(Debug)]
pub struct DocxDocument {
    pub body: Vec<Block>,
    pub sections: Vec<SectionProps>,
}

// ---------------------------------------------------------------------------
// Mathematical views
// ---------------------------------------------------------------------------

pub open spec fn ov(o: Option<Vec<u8>>) -> Option<Seq<u8>> {
    match o {
        Some(v) => Some(v@),
        None => None,
    }
}

pub struct ParaPropsV {
    pub style: Option<Seq<u8>>,
    pub numbering: Option<NumRef>,
    pub alignment: Option<Seq<u8>>,
    pub spacing_line: Option<u32>,
    pub line_rule: Option<Seq<u8>>,
    pub spacing_before: Option<u32>,
    pub spacing_after: Option<u32>,
    pub indent_first_line: Option<u32>,
    pub indent_hanging: Option<u32>,
    pub indent_left: Option<u32>,
}

pub struct RunPropsV {
    pub bold: Option<bool>,
    pub italic: Option<bool>,
    pub underline: Option<bool>,
    pub strike: Option<bool>,
    pub size_half_pt: Option<u32>,
    pub color: Option<Seq<u8>>,
    pub highlight: Option<Seq<u8>>,
    pub font_east_asia: Option<Seq<u8>>,
    pub font_ascii: Option<Seq<u8>>,
}

pub struct RunV {
    pub text: Seq<u8>,
    pub props: RunPropsV,
    pub revision: Option<Revision>,
}

pub struct ParagraphV {
    pub runs: Seq<RunV>,
    pub props: ParaPropsV,
}

pub struct CellV {
    pub blocks: Seq<BlockV>,
    pub grid_span: Option<u32>,
    pub v_merge: Option<Seq<u8>>,
}

pub struct RowV {
    pub cells: Seq<CellV>,
}

pub struct TableV {
    pub rows: Seq<RowV>,
    pub style_id: Option<Seq<u8>>,
}

pub enum BlockV {
    Paragraph(ParagraphV),
    Table(TableV),
}

pub struct SectionV {
    pub page_w: Option<u32>,
    pub page_h: Option<u32>,
    pub orientation: Option<Seq<u8>>,
    pub margin_top: Option<u32>,
    pub margin_bottom: Option<u32>,
    pub margin_left: Option<u32>,
    pub margin_right: Option<u32>,
    pub header_refs: Seq<(Seq<u8>, Seq<u8>)>,
    pub footer_refs: Seq<(Seq<u8>, Seq<u8>)>,
}

pub struct DocV {
    pub body: Seq<BlockV>,
    pub sections: Seq<SectionV>,
}

impl View for ParaProps {
    type V = ParaPropsV;

    open spec fn view(&self) -> ParaPropsV {
        ParaPropsV {
            style: ov(self.style),
            numbering: self.numbering,
            alignment: ov(self.alignment),
            spacing_line: self.spacing_line,
            line_rule: ov(self.line_rule),
            spacing_before: self.spacing_before,
            spacing_after: self.spacing_after,
            indent_first_line: self.indent_first_line,
            indent_hanging: self.indent_hanging,
            indent_left: self.indent_left,
        }
    }
}

impl View for RunProps {
    type V = RunPropsV;

    open spec fn view(&self) -> RunPropsV {
        RunPropsV {
            bold: self.bold,
            italic: self.italic,
            underline: self.underline,
            strike: self.strike,
            size_half_pt: self.size_half_pt,
            color: ov(self.color),
            highlight: ov(self.highlight),
            font_east_asia: ov(self.font_east_asia),
            font_ascii: ov(self.font_ascii),
        }
    }
}

impl View for Run {
    type V = RunV;

    open spec fn view(&self) -> RunV {
        RunV { text: self.text@, props: self.props@, revision: self.revision }
    }
}

pub open spec fn runs_view(rs: Seq<Run>) -> Seq<RunV> {
    rs.map_values(|r: Run| r@)
}

impl View for Paragraph {
    type V = ParagraphV;

    open spec fn view(&self) -> ParagraphV {
        ParagraphV { runs: runs_view(self.runs@), props: self.props@ }
    }
}

pub open spec fn refs_view(rs: Seq<(Vec<u8>, Vec<u8>)>) -> Seq<(Seq<u8>, Seq<u8>)> {
    rs.map_values(|r: (Vec<u8>, Vec<u8>)| (r.0@, r.1@))
}

impl View for SectionProps {
    type V = SectionV;

    open spec fn view(&self) -> SectionV {
        SectionV {
            page_w: self.page_w,
            page_h: self.page_h,
            orientation: ov(self.orientation),
            margin_top: self.margin_top,
            margin_bottom: self.margin_bottom,
            margin_left: self.margin_left,
            margin_right: self.margin_right,
            header_refs: refs_view(self.header_refs@),
            footer_refs: refs_view(self.footer_refs@),
        }
    }
}

pub open spec fn sections_view(ss: Seq<SectionProps>) -> Seq<SectionV> {
    ss.map_values(|s: SectionProps| s@)
}

/// The view of a block.
pub open spec fn block_view(b: Block) -> BlockV
    decreases b,
{
    match b {
        Block::Paragraph(p) => BlockV::Paragraph(p@),
        Block::Table(t) => BlockV::Table(TableV { rows: rows_view(t.rows@), style_id: ov(t.style_id) }),
    }
}

pub open spec fn blocks_view(bs: Seq<Block>) -> Seq<BlockV>
    decreases bs,
{
    if bs.len() == 0 {
        seq![]
    } else {
        blocks_view(bs.subrange(0, bs.len() - 1)).push(block_view(bs[bs.len() - 1]))
    }
}

pub open spec fn rows_view(rs: Seq<TableRow>) -> Seq<RowV>
    decreases rs,
{
    if rs.len() == 0 {
        seq![]
    } else {
        rows_view(rs.subrange(0, rs.len() - 1)).push(RowV { cells: cells_view(rs[rs.len() - 1].cells@) })
    }
}

pub open spec fn cells_view(cs: Seq<TableCell>) -> Seq<CellV>
    decreases cs,
{
    if cs.len() == 0 {
        seq![]
    } else {
        let c = cs[cs.len() - 1];
        cells_view(cs.subrange(0, cs.len() - 1)).push(
            CellV { blocks: blocks_view(c.blocks@), grid_span: c.grid_span, v_merge: ov(c.v_merge) },
        )
    }
}

impl View for DocxDocument {
    type V = DocV;

    open spec fn view(&self) -> DocV {
        DocV { body: blocks_view(self.body@), sections: sections_view(self.sections@) }
    }
}


// ---------------------------------------------------------------------------
// What the model of an element is
// ---------------------------------------------------------------------------

pub open spec fn named(e: Element, n: &str) -> bool {
    e.name@ == n.spec_bytes()
}

pub open spec fn attr_of(e: Element, key: &str) -> Option<Seq<u8>> {
    spec_attr(e.attrs@, key.spec_bytes())
}

pub open spec fn opt_u32(o: Option<Seq<u8>>) -> Option<u32> {
    match o {
        Some(v) => spec_parse_u32(v),
        None => None,
    }
}

/// The first child element named `n`.
pub open spec fn first_child(ns: Seq<Node>, n: &str) -> Option<Element>
    decreases ns.len(),
{
    if ns.len() == 0 {
        None
    } else {
        match ns[0] {
            Node::Element(e) => if named(e, n) {
                Some(e)
            } else {
                first_child(ns.subrange(1, ns.len() as int), n)
            },
            Node::Text(_) => first_child(ns.subrange(1, ns.len() as int), n),
        }
    }
}

/// The value of attribute `key` of the first child element named `n`.
pub open spec fn child_attr_of(e: Element, n: &str, key: &str) -> Option<Seq<u8>> {
    match first_child(e.children@, n) {
        Some(c) => attr_of(c, key),
        None => None,
    }
}

/// On/off properties: no `w:val` or any other value is on; `false`, `0`, `none`, `off` are off.
pub open spec fn spec_on_off(e: Element) -> Option<bool> {
    match attr_of(e, "w:val") {
        Some(v) => if v == "false".spec_bytes() || v == "0".spec_bytes() || v == "none".spec_bytes()
            || v == "off".spec_bytes() {
            Some(false)
        } else {
            Some(true)
        },
        None => Some(true),
    }
}

pub open spec fn empty_rpr() -> RunPropsV {
    RunPropsV {
        bold: None,
        italic: None,
        underline: None,
        strike: None,
        size_half_pt: None,
        color: None,
        highlight: None,
        font_east_asia: None,
        font_ascii: None,
    }
}

/// The effect of one child of `w:rPr`; a later child overrides an earlier one.
pub open spec fn rpr_step(p: RunPropsV, n: Node) -> RunPropsV {
    match n {
        Node::Text(_) => p,
        Node::Element(e) => if named(e, "w:b") {
            RunPropsV { bold: spec_on_off(e), ..p }
        } else if named(e, "w:i") {
            RunPropsV { italic: spec_on_off(e), ..p }
        } else if named(e, "w:u") {
            RunPropsV { underline: spec_on_off(e), ..p }
        } else if named(e, "w:strike") {
            RunPropsV { strike: spec_on_off(e), ..p }
        } else if named(e, "w:sz") {
            match opt_u32(attr_of(e, "w:val")) {
                Some(v) => RunPropsV { size_half_pt: Some(v), ..p },
                None => p,
            }
        } else if named(e, "w:color") {
            RunPropsV { color: attr_of(e, "w:val"), ..p }
        } else if named(e, "w:highlight") {
            RunPropsV { highlight: attr_of(e, "w:val"), ..p }
        } else if named(e, "w:rFonts") {
            RunPropsV { font_east_asia: attr_of(e, "w:eastAsia"), font_ascii: attr_of(e, "w:ascii"), ..p }
        } else {
            p
        },
    }
}

pub open spec fn rpr_fold(ns: Seq<Node>) -> RunPropsV
    decreases ns.len(),
{
    if ns.len() == 0 {
        empty_rpr()
    } else {
        rpr_step(rpr_fold(ns.subrange(0, ns.len() - 1)), ns[ns.len() - 1])
    }
}

/// The run properties a `w:rPr` element gives.
pub open spec fn spec_run_props(e: Element) -> RunPropsV {
    rpr_fold(e.children@)
}

pub open spec fn empty_ppr() -> ParaPropsV {
    ParaPropsV {
        style: None,
        numbering: None,
        alignment: None,
        spacing_line: None,
        line_rule: None,
        spacing_before: None,
        spacing_after: None,
        indent_first_line: None,
        indent_hanging: None,
        indent_left: None,
    }
}

/// The numbering reference a `w:numPr` element gives (numId 0 gives none).
pub open spec fn num_ref_of(e: Element) -> Option<NumRef> {
    match opt_u32(child_attr_of(e, "w:numId", "w:val")) {
        Some(n) => if n != 0 {
            Some(
                NumRef {
                    num_id: n,
                    ilvl: match opt_u32(child_attr_of(e, "w:ilvl", "w:val")) {
                        Some(l) => l,
                        None => 0,
                    },
                },
            )
        } else {
            None
        },
        None => None,
    }
}

/// The effect of one child of `w:pPr`; a later child overrides an earlier one.
pub open spec fn ppr_step(p: ParaPropsV, n: Node) -> ParaPropsV {
    match n {
        Node::Text(_) => p,
        Node::Element(e) => if named(e, "w:pStyle") {
            ParaPropsV { style: attr_of(e, "w:val"), ..p }
        } else if named(e, "w:jc") {
            ParaPropsV { alignment: attr_of(e, "w:val"), ..p }
        } else if named(e, "w:spacing") {
            ParaPropsV {
                spacing_line: opt_u32(attr_of(e, "w:line")),
                line_rule: attr_of(e, "w:lineRule"),
                spacing_before: opt_u32(attr_of(e, "w:before")),
                spacing_after: opt_u32(attr_of(e, "w:after")),
                ..p
            }
        } else if named(e, "w:ind") {
            ParaPropsV {
                indent_first_line: opt_u32(attr_of(e, "w:firstLine")),
                indent_hanging: opt_u32(attr_of(e, "w:hanging")),
                indent_left: opt_u32(attr_of(e, "w:left")),
                ..p
            }
        } else if named(e, "w:numPr") {
            match num_ref_of(e) {
                Some(r) => ParaPropsV { numbering: Some(r), ..p },
                None => p,
            }
        } else {
            p
        },
    }
}

pub open spec fn ppr_fold(ns: Seq<Node>) -> ParaPropsV
    decreases ns.len(),
{
    if ns.len() == 0 {
        empty_ppr()
    } else {
        ppr_step(ppr_fold(ns.subrange(0, ns.len() - 1)), ns[ns.len() - 1])
    }
}

/// The paragraph properties a `w:pPr` element gives.
pub open spec fn spec_para_props(e: Element) -> ParaPropsV {
    ppr_fold(e.children@)
}

pub open spec fn empty_sect() -> SectionV {
    SectionV {
        page_w: None,
        page_h: None,
        orientation: None,
        margin_top: None,
        margin_bottom: None,
        margin_left: None,
        margin_right: None,
        header_refs: seq![],
        footer_refs: seq![],
    }
}

/// The effect of one child of `w:sectPr`.
pub open spec fn sect_step(s: SectionV, n: Node) -> SectionV {
    match n {
        Node::Text(_) => s,
        Node::Element(e) => if named(e, "w:pgSz") {
            SectionV {
                page_w: opt_u32(attr_of(e, "w:w")),
                page_h: opt_u32(attr_of(e, "w:h")),
                orientation: attr_of(e, "w:orient"),
                ..s
            }
        } else if named(e, "w:pgMar") {
            SectionV {
                margin_top: opt_u32(attr_of(e, "w:top")),
                margin_bottom: opt_u32(attr_of(e, "w:bottom")),
                margin_left: opt_u32(attr_of(e, "w:left")),
                margin_right: opt_u32(attr_of(e, "w:right")),
                ..s
            }
        } else if named(e, "w:headerReference") {
            match (attr_of(e, "w:type"), attr_of(e, "r:id")) {
                (Some(k), Some(r)) => SectionV { header_refs: s.header_refs.push((k, r)), ..s },
                _ => s,
            }
        } else if named(e, "w:footerReference") {
            match (attr_of(e, "w:type"), attr_of(e, "r:id")) {
                (Some(k), Some(r)) => SectionV { footer_refs: s.footer_refs.push((k, r)), ..s },
                _ => s,
            }
        } else {
            s
        },
    }
}

pub open spec fn sect_fold(ns: Seq<Node>) -> SectionV
    decreases ns.len(),
{
    if ns.len() == 0 {
        empty_sect()
    } else {
        sect_step(sect_fold(ns.subrange(0, ns.len() - 1)), ns[ns.len() - 1])
    }
}

/// The section properties a `w:sectPr` element gives.
pub open spec fn spec_sect(e: Element) -> SectionV {
    sect_fold(e.children@)
}

/// Text of the exotic subtrees below `ns` (drawings, text boxes): `w:t` and
/// `w:delText` decoded, tabs and breaks, a line break after each inner paragraph.
pub open spec fn flatten_list(ns: Seq<Node>) -> Seq<u8>
    decreases ns,
{
    if ns.len() == 0 {
        seq![]
    } else {
        flatten_list(ns.subrange(0, ns.len() - 1)) + match ns[ns.len() - 1] {
            Node::Element(c) => flatten_child(c),
            Node::Text(_) => seq![],
        }
    }
}

pub open spec fn flatten_child(c: Element) -> Seq<u8>
    decreases c,
{
    if named(c, "w:t") || named(c, "w:delText") {
        spec_decode(spec_raw_text(c.children@))
    } else if named(c, "w:tab") {
        seq![9u8]
    } else if named(c, "w:br") || named(c, "w:cr") {
        seq![10u8]
    } else if named(c, "w:p") {
        flatten_list(c.children@) + seq![10u8]
    } else {
        flatten_list(c.children@)
    }
}

pub open spec fn empty_run(rev: Option<Revision>) -> RunV {
    RunV { text: seq![], props: empty_rpr(), revision: rev }
}

/// The effect of one child of `w:r`.
pub open spec fn run_step(r: RunV, n: Node, rev: Option<Revision>) -> RunV {
    match n {
        Node::Text(_) => r,
        Node::Element(c) => if named(c, "w:rPr") {
            RunV { props: spec_run_props(c), ..r }
        } else if named(c, "w:t") {
            RunV { text: r.text + spec_decode(spec_raw_text(c.children@)), ..r }
        } else if named(c, "w:delText") && rev == Some(Revision::Deleted) {
            RunV { text: r.text + spec_decode(spec_raw_text(c.children@)), ..r }
        } else if named(c, "w:tab") {
            RunV { text: r.text.push(9u8), ..r }
        } else if named(c, "w:br") || named(c, "w:cr") {
            RunV { text: r.text.push(10u8), ..r }
        } else {
            RunV { text: r.text + flatten_list(c.children@), ..r }
        },
    }
}

pub open spec fn run_fold(ns: Seq<Node>, rev: Option<Revision>) -> RunV
    decreases ns.len(),
{
    if ns.len() == 0 {
        empty_run(rev)
    } else {
        run_step(run_fold(ns.subrange(0, ns.len() - 1), rev), ns[ns.len() - 1], rev)
    }
}

/// The run a `w:r` element gives under the revision mark `rev`.
pub open spec fn spec_run(e: Element, rev: Option<Revision>) -> RunV {
    run_fold(e.children@, rev)
}

/// Elements that carry no inline or block meaning.
pub open spec fn is_marker(e: Element) -> bool {
    named(e, "w:bookmarkStart") || named(e, "w:bookmarkEnd") || named(e, "w:proofErr")
}

/// The runs below an inline element: `w:ins`/`w:del` mark their runs, other
/// containers are transparent.
pub open spec fn collect_el(e: Element, rev: Option<Revision>) -> Seq<RunV>
    decreases e,
{
    if named(e, "w:r") {
        seq![spec_run(e, rev)]
    } else if named(e, "w:ins") {
        collect_list(e.children@, Some(Revision::Inserted))
    } else if named(e, "w:del") {
        collect_list(e.children@, Some(Revision::Deleted))
    } else if is_marker(e) {
        seq![]
    } else {
        collect_list(e.children@, rev)
    }
}

pub open spec fn collect_list(ns: Seq<Node>, rev: Option<Revision>) -> Seq<RunV>
    decreases ns,
{
    if ns.len() == 0 {
        seq![]
    } else {
        collect_list(ns.subrange(0, ns.len() - 1), rev) + match ns[ns.len() - 1] {
            Node::Element(c) => collect_el(c, rev),
            Node::Text(_) => seq![],
        }
    }
}

/// A paragraph under construction: properties, runs, sections met so far.
pub struct ParaAcc {
    pub props: ParaPropsV,
    pub runs: Seq<RunV>,
    pub sections: Seq<SectionV>,
}

pub open spec fn para_step(a: ParaAcc, n: Node) -> ParaAcc {
    match n {
        Node::Text(_) => a,
        Node::Element(c) => if named(c, "w:pPr") {
            ParaAcc {
                props: spec_para_props(c),
                runs: a.runs,
                sections: match first_child(c.children@, "w:sectPr") {
                    Some(s) => a.sections.push(spec_sect(s)),
                    None => a.sections,
                },
            }
        } else {
            ParaAcc { runs: a.runs + collect_el(c, None), ..a }
        },
    }
}

pub open spec fn para_fold(ns: Seq<Node>) -> ParaAcc
    decreases ns.len(),
{
    if ns.len() == 0 {
        ParaAcc { props: empty_ppr(), runs: seq![], sections: seq![] }
    } else {
        para_step(para_fold(ns.subrange(0, ns.len() - 1)), ns[ns.len() - 1])
    }
}

/// The paragraph a `w:p` element gives, with the sections it carries.
pub open spec fn spec_paragraph(e: Element) -> (ParagraphV, Seq<SectionV>) {
    let a = para_fold(e.children@);
    (ParagraphV { runs: a.runs, props: a.props }, a.sections)
}

/// Blocks and sections of a block-level node list: `w:p` and `w:tbl` are
/// blocks, `w:sectPr` a section, markers are skipped, other containers are transparent.
pub open spec fn walk_list(ns: Seq<Node>) -> (Seq<BlockV>, Seq<SectionV>)
    decreases ns,
{
    if ns.len() == 0 {
        (seq![], seq![])
    } else {
        let (b0, s0) = walk_list(ns.subrange(0, ns.len() - 1));
        match ns[ns.len() - 1] {
            Node::Text(_) => (b0, s0),
            Node::Element(c) => if named(c, "w:p") {
                (b0.push(BlockV::Paragraph(spec_paragraph(c).0)), s0 + spec_paragraph(c).1)
            } else if named(c, "w:tbl") {
                (b0.push(BlockV::Table(spec_table(c))), s0)
            } else if named(c, "w:sectPr") {
                (b0, s0.push(spec_sect(c)))
            } else if is_marker(c) {
                (b0, s0)
            } else {
                (b0 + walk_list(c.children@).0, s0 + walk_list(c.children@).1)
            },
        }
    }
}

/// The table a `w:tbl` element gives: its `w:tr` rows of `w:tc` cells.
pub open spec fn spec_table(e: Element) -> TableV
    decreases e,
{
    TableV {
        rows: rows_of(e.children@),
        style_id: match first_child(e.children@, "w:tblPr") {
            Some(p) => child_attr_of(p, "w:tblStyle", "w:val"),
            None => None,
        },
    }
}

pub open spec fn rows_of(ns: Seq<Node>) -> Seq<RowV>
    decreases ns,
{
    if ns.len() == 0 {
        seq![]
    } else {
        rows_of(ns.subrange(0, ns.len() - 1)) + match ns[ns.len() - 1] {
            Node::Element(c) => if named(c, "w:tr") {
                seq![RowV { cells: cells_of(c.children@) }]
            } else {
                seq![]
            },
            Node::Text(_) => seq![],
        }
    }
}

pub open spec fn cells_of(ns: Seq<Node>) -> Seq<CellV>
    decreases ns,
{
    if ns.len() == 0 {
        seq![]
    } else {
        cells_of(ns.subrange(0, ns.len() - 1)) + match ns[ns.len() - 1] {
            Node::Element(c) => if named(c, "w:tc") {
                seq![spec_cell(c)]
            } else {
                seq![]
            },
            Node::Text(_) => seq![],
        }
    }
}

/// `w:vMerge` without a value means `continue`.
pub open spec fn v_merge_of(tc_pr: Element) -> Option<Seq<u8>> {
    match first_child(tc_pr.children@, "w:vMerge") {
        Some(m) => match attr_of(m, "w:val") {
            Some(v) => Some(v),
            None => Some("continue".spec_bytes()),
        },
        None => None,
    }
}

/// The cell a `w:tc` element gives.
pub open spec fn spec_cell(e: Element) -> CellV
    decreases e,
{
    CellV {
        blocks: walk_list(e.children@).0,
        grid_span: match first_child(e.children@, "w:tcPr") {
            Some(p) => opt_u32(child_attr_of(p, "w:gridSpan", "w:val")),
            None => None,
        },
        v_merge: match first_child(e.children@, "w:tcPr") {
            Some(p) => v_merge_of(p),
            None => None,
        },
    }
}

/// The document model of a root element: the body of `w:document`, a lone
/// paragraph or table, or the blocks of any other container.
pub open spec fn spec_build(root: Element) -> DocV {
    if named(root, "w:document") {
        match first_child(root.children@, "w:body") {
            Some(b) => DocV { body: walk_list(b.children@).0, sections: walk_list(b.children@).1 },
            None => DocV { body: seq![], sections: seq![] },
        }
    } else if named(root, "w:p") {
        DocV {
            body: seq![BlockV::Paragraph(spec_paragraph(root).0)],
            sections: spec_paragraph(root).1,
        }
    } else if named(root, "w:tbl") {
        DocV { body: seq![BlockV::Table(spec_table(root))], sections: seq![] }
    } else {
        DocV { body: walk_list(root.children@).0, sections: walk_list(root.children@).1 }
    }
}

// ---------------------------------------------------------------------------
// What the text projection is
// ---------------------------------------------------------------------------

/// The visible text of runs: deleted runs left out.
pub open spec fn runs_text(rs: Seq<RunV>) -> Seq<u8>
    decreases rs.len(),
{
    if rs.len() == 0 {
        seq![]
    } else {
        runs_text(rs.subrange(0, rs.len() - 1)) + if rs[rs.len() - 1].revision == Some(
            Revision::Deleted,
        ) {
            seq![]
        } else {
            rs[rs.len() - 1].text
        }
    }
}

/// Text of blocks: each paragraph on a line, tables cell by cell, nothing between.
pub open spec fn blocks_text_of(bs: Seq<BlockV>) -> Seq<u8>
    decreases bs,
{
    if bs.len() == 0 {
        seq![]
    } else {
        blocks_text_of(bs.subrange(0, bs.len() - 1)) + block_text_of(bs[bs.len() - 1])
    }
}

pub open spec fn block_text_of(b: BlockV) -> Seq<u8>
    decreases b,
{
    match b {
        BlockV::Paragraph(p) => runs_text(p.runs).push(10u8),
        BlockV::Table(t) => rows_text_of(t.rows),
    }
}

pub open spec fn rows_text_of(rs: Seq<RowV>) -> Seq<u8>
    decreases rs,
{
    if rs.len() == 0 {
        seq![]
    } else {
        rows_text_of(rs.subrange(0, rs.len() - 1)) + cells_text_of(rs[rs.len() - 1].cells)
    }
}

pub open spec fn cells_text_of(cs: Seq<CellV>) -> Seq<u8>
    decreases cs,
{
    if cs.len() == 0 {
        seq![]
    } else {
        cells_text_of(cs.subrange(0, cs.len() - 1)) + blocks_text_of(cs[cs.len() - 1].blocks)
    }
}


// ---------------------------------------------------------------------------
// Building the model
// ---------------------------------------------------------------------------

/// The first child element of `ns` named `n`.
pub fn first_child_named<'a>(ns: &'a Vec<Node>, n: &str) -> (r: Option<&'a Element>)
    ensures
        match r {
            Some(e) => first_child(ns@, n) == Some(*e),
            None => first_child(ns@, n) is None,
        },
{
    let mut i: usize = 0;
    assert(ns@.subrange(0, ns@.len() as int) =~= ns@);
    while i < ns.len()
        invariant
            i <= ns@.len(),
            first_child(ns@, n) == first_child(ns@.subrange(i as int, ns@.len() as int), n),
        decreases ns@.len() - i,
    {
        let ghost rest = ns@.subrange(i as int, ns@.len() as int);
        assert(rest.subrange(1, rest.len() as int) =~= ns@.subrange(i + 1, ns@.len() as int));
        assert(rest[0] == ns@[i as int]);
        match &ns[i] {
            Node::Element(e) => {
                if e.is(n) {
                    return Some(e);
                }
            },
            Node::Text(_) => {},
        }
        i = i + 1;
    }
    None
}

/// A copy of the value of attribute `key`.
pub fn attr_vec(e: &Element, key: &str) -> (r: Option<Vec<u8>>)
    ensures
        ov(r) == attr_of(*e, key),
{
    match e.attr_str(key) {
        Some(v) => Some(slice_vec(v.as_slice(), 0, v.len())),
        None => None,
    }
}

/// The value of attribute `key` parsed as `u32`.
pub fn attr_u32(e: &Element, key: &str) -> (r: Option<u32>)
    ensures
        r == opt_u32(attr_of(*e, key)),
{
    match e.attr_str(key) {
        Some(v) => parse_u32(v.as_slice()),
        None => None,
    }
}

/// The value of attribute `key` of the first child element named `n`.
pub fn child_attr_vec(e: &Element, n: &str, key: &str) -> (r: Option<Vec<u8>>)
    ensures
        ov(r) == child_attr_of(*e, n, key),
{
    match first_child_named(&e.children, n) {
        Some(c) => attr_vec(c, key),
        None => None,
    }
}

pub fn child_attr_u32(e: &Element, n: &str, key: &str) -> (r: Option<u32>)
    ensures
        r == opt_u32(child_attr_of(*e, n, key)),
{
    match first_child_named(&e.children, n) {
        Some(c) => attr_u32(c, key),
        None => None,
    }
}

/// On/off property value of an element.
pub fn on_off(el: &Element) -> (r: Option<bool>)
    ensures
        r == spec_on_off(*el),
{
    match el.attr_str("w:val") {
        Some(v) => {
            let s = v.as_slice();
            if eq_str(s, "false") || eq_str(s, "0") || eq_str(s, "none") || eq_str(s, "off") {
                Some(false)
            } else {
                Some(true)
            }
        },
        None => Some(true),
    }
}

/// Parses a `w:rPr` element.
pub fn parse_run_props(r_pr: &Element) -> (p: RunProps)
    ensures
        p@ == spec_run_props(*r_pr),
{
    let mut p = RunProps {
        bold: None,
        italic: None,
        underline: None,
        strike: None,
        size_half_pt: None,
        color: None,
        highlight: None,
        font_east_asia: None,
        font_ascii: None,
    };
    let ns = &r_pr.children;
    let mut i: usize = 0;
    while i < ns.len()
        invariant
            i <= ns@.len(),
            p@ == rpr_fold(ns@.subrange(0, i as int)),
        decreases ns@.len() - i,
    {
        assert(ns@.subrange(0, i + 1).subrange(0, i as int) =~= ns@.subrange(0, i as int));
        match &ns[i] {
            Node::Element(c) => {
                if c.is("w:b") {
                    p.bold = on_off(c);
                } else if c.is("w:i") {
                    p.italic = on_off(c);
                } else if c.is("w:u") {
                    p.underline = on_off(c);
                } else if c.is("w:strike") {
                    p.strike = on_off(c);
                } else if c.is("w:sz") {
                    match attr_u32(c, "w:val") {
                        Some(v) => {
                            p.size_half_pt = Some(v);
                        },
                        None => {},
                    }
                } else if c.is("w:color") {
                    p.color = attr_vec(c, "w:val");
                } else if c.is("w:highlight") {
                    p.highlight = attr_vec(c, "w:val");
                } else if c.is("w:rFonts") {
                    p.font_east_asia = attr_vec(c, "w:eastAsia");
                    p.font_ascii = attr_vec(c, "w:ascii");
                }
            },
            Node::Text(_) => {},
        }
        i = i + 1;
    }
    assert(ns@.subrange(0, i as int) =~= ns@);
    p
}

/// Parses a `w:pPr` element.
pub fn parse_para_props(p_pr: &Element) -> (p: ParaProps)
    ensures
        p@ == spec_para_props(*p_pr),
{
    let mut p = ParaProps {
        style: None,
        numbering: None,
        alignment: None,
        spacing_line: None,
        line_rule: None,
        spacing_before: None,
        spacing_after: None,
        indent_first_line: None,
        indent_hanging: None,
        indent_left: None,
    };
    let ns = &p_pr.children;
    let mut i: usize = 0;
    while i < ns.len()
        invariant
            i <= ns@.len(),
            p@ == ppr_fold(ns@.subrange(0, i as int)),
        decreases ns@.len() - i,
    {
        assert(ns@.subrange(0, i + 1).subrange(0, i as int) =~= ns@.subrange(0, i as int));
        match &ns[i] {
            Node::Element(c) => {
                if c.is("w:pStyle") {
                    p.style = attr_vec(c, "w:val");
                } else if c.is("w:jc") {
                    p.alignment = attr_vec(c, "w:val");
                } else if c.is("w:spacing") {
                    p.spacing_line = attr_u32(c, "w:line");
                    p.line_rule = attr_vec(c, "w:lineRule");
                    p.spacing_before = attr_u32(c, "w:before");
                    p.spacing_after = attr_u32(c, "w:after");
                } else if c.is("w:ind") {
                    p.indent_first_line = attr_u32(c, "w:firstLine");
                    p.indent_hanging = attr_u32(c, "w:hanging");
                    p.indent_left = attr_u32(c, "w:left");
                } else if c.is("w:numPr") {
                    // numId 0 is the explicit "no numbering"
                    let num_id = child_attr_u32(c, "w:numId", "w:val");
                    let ilvl = child_attr_u32(c, "w:ilvl", "w:val");
                    if let Some(n) = num_id {
                        if n != 0 {
                            let l = match ilvl {
                                Some(l) => l,
                                None => 0,
                            };
                            p.numbering = Some(NumRef { num_id: n, ilvl: l });
                        }
                    }
                }
            },
            Node::Text(_) => {},
        }
        i = i + 1;
    }
    assert(ns@.subrange(0, i as int) =~= ns@);
    p
}

/// Parses a `w:sectPr` element.
pub fn parse_sect_pr(el: &Element) -> (s: SectionProps)
    ensures
        s@ == spec_sect(*el),
{
    let mut s = SectionProps {
        page_w: None,
        page_h: None,
        orientation: None,
        margin_top: None,
        margin_bottom: None,
        margin_left: None,
        margin_right: None,
        header_refs: Vec::new(),
        footer_refs: Vec::new(),
    };
    assert(s@.header_refs =~= seq![]);
    assert(s@.footer_refs =~= seq![]);
    let ns = &el.children;
    let mut i: usize = 0;
    while i < ns.len()
        invariant
            i <= ns@.len(),
            s@ == sect_fold(ns@.subrange(0, i as int)),
        decreases ns@.len() - i,
    {
        assert(ns@.subrange(0, i + 1).subrange(0, i as int) =~= ns@.subrange(0, i as int));
        let ghost before = s@;
        match &ns[i] {
            Node::Element(c) => {
                if c.is("w:pgSz") {
                    s.page_w = attr_u32(c, "w:w");
                    s.page_h = attr_u32(c, "w:h");
                    s.orientation = attr_vec(c, "w:orient");
                } else if c.is("w:pgMar") {
                    s.margin_top = attr_u32(c, "w:top");
                    s.margin_bottom = attr_u32(c, "w:bottom");
                    s.margin_left = attr_u32(c, "w:left");
                    s.margin_right = attr_u32(c, "w:right");
                } else if c.is("w:headerReference") {
                    if let (Some(k), Some(r)) = (attr_vec(c, "w:type"), attr_vec(c, "r:id")) {
                        let ghost kv = k@;
                        let ghost rv = r@;
                        s.header_refs.push((k, r));
                        assert(refs_view(s.header_refs@) =~= before.header_refs.push((kv, rv)));
                    }
                } else if c.is("w:footerReference") {
                    if let (Some(k), Some(r)) = (attr_vec(c, "w:type"), attr_vec(c, "r:id")) {
                        let ghost kv = k@;
                        let ghost rv = r@;
                        s.footer_refs.push((k, r));
                        assert(refs_view(s.footer_refs@) =~= before.footer_refs.push((kv, rv)));
                    }
                }
            },
            Node::Text(_) => {},
        }
        i = i + 1;
    }
    assert(ns@.subrange(0, i as int) =~= ns@);
    s
}

/// Text of exotic subtrees (drawings, text boxes) below `el`, appended to `text`.
pub fn flatten_exotic_inline(el: &Element, text: &mut Vec<u8>)
    ensures
        final(text)@ == old(text)@ + flatten_list(el.children@),
    decreases el,
{
    let ns = &el.children;
    let mut i: usize = 0;
    while i < ns.len()
        invariant
            i <= ns@.len(),
            ns == &el.children,
            text@ == old(text)@ + flatten_list(ns@.subrange(0, i as int)),
        decreases ns@.len() - i,
    {
        assert(ns@.subrange(0, i + 1).subrange(0, i as int) =~= ns@.subrange(0, i as int));
        let ghost before = text@;
        match &ns[i] {
            Node::Element(c) => {
                assert(decreases_to!(*el => *c)) by {
                    assert(decreases_to!(*el => el.children));
                    assert(decreases_to!(el.children => el.children@));
                    assert(decreases_to!(el.children@ => el.children@[i as int]));
                }
                if c.is("w:t") || c.is("w:delText") {
                    let raw = c.raw_text();
                    decode_entities_into(raw.as_slice(), text);
                } else if c.is("w:tab") {
                    text.push(9u8);
                } else if c.is("w:br") || c.is("w:cr") {
                    text.push(10u8);
                } else if c.is("w:p") {
                    flatten_exotic_inline(c, text);
                    text.push(10u8);
                } else {
                    flatten_exotic_inline(c, text);
                }
                assert(text@ =~= before + flatten_child(*c));
            },
            Node::Text(_) => {
                assert(text@ =~= before + seq![]);
            },
        }
        i = i + 1;
    }
    assert(ns@.subrange(0, i as int) =~= ns@);
}

/// Parses a `w:r` element under the revision mark `rev`.
pub fn parse_run(el: &Element, rev: Option<Revision>) -> (r: Run)
    ensures
        r@ == spec_run(*el, rev),
{
    let mut run = Run {
        text: Vec::new(),
        props: RunProps {
            bold: None,
            italic: None,
            underline: None,
            strike: None,
            size_half_pt: None,
            color: None,
            highlight: None,
            font_east_asia: None,
            font_ascii: None,
        },
        revision: rev,
    };
    assert(run@ =~= empty_run(rev));
    let ns = &el.children;
    let mut i: usize = 0;
    while i < ns.len()
        invariant
            i <= ns@.len(),
            run@ == run_fold(ns@.subrange(0, i as int), rev),
        decreases ns@.len() - i,
    {
        assert(ns@.subrange(0, i + 1).subrange(0, i as int) =~= ns@.subrange(0, i as int));
        match &ns[i] {
            Node::Element(c) => {
                if c.is("w:rPr") {
                    run.props = parse_run_props(c);
                } else if c.is("w:t") {
                    let raw = c.raw_text();
                    decode_entities_into(raw.as_slice(), &mut run.text);
                } else if c.is("w:delText") && rev == Some(Revision::Deleted) {
                    let raw = c.raw_text();
                    decode_entities_into(raw.as_slice(), &mut run.text);
                } else if c.is("w:tab") {
                    run.text.push(9u8);
                } else if c.is("w:br") || c.is("w:cr") {
                    run.text.push(10u8);
                } else {
                    flatten_exotic_inline(c, &mut run.text);
                }
            },
            Node::Text(_) => {},
        }
        i = i + 1;
    }
    assert(ns@.subrange(0, i as int) =~= ns@);
    run
}

proof fn lemma_runs_view_push(rs: Seq<Run>, r: Run)
    ensures
        runs_view(rs.push(r)) == runs_view(rs).push(r@),
{
    assert(runs_view(rs.push(r)) =~= runs_view(rs).push(r@));
}

/// Appends the runs below an inline element.
pub fn collect_runs(el: &Element, rev: Option<Revision>, runs: &mut Vec<Run>)
    ensures
        runs_view(final(runs)@) == runs_view(old(runs)@) + collect_el(*el, rev),
    decreases el,
{
    if el.is("w:r") {
        let r = parse_run(el, rev);
        proof {
            lemma_runs_view_push(runs@, r);
        }
        runs.push(r);
        assert(runs_view(runs@) =~= runs_view(old(runs)@) + seq![spec_run(*el, rev)]);
        return;
    }
    let sub = if el.is("w:ins") {
        Some(Revision::Inserted)
    } else if el.is("w:del") {
        Some(Revision::Deleted)
    } else {
        rev
    };
    if !el.is("w:ins") && !el.is("w:del") && (el.is("w:bookmarkStart") || el.is("w:bookmarkEnd")
        || el.is("w:proofErr")) {
        assert(runs_view(runs@) =~= runs_view(old(runs)@) + seq![]);
        return;
    }
    let ns = &el.children;
    let mut i: usize = 0;
    while i < ns.len()
        invariant
            i <= ns@.len(),
            ns == &el.children,
            runs_view(runs@) == runs_view(old(runs)@) + collect_list(ns@.subrange(0, i as int), sub),
        decreases ns@.len() - i,
    {
        assert(ns@.subrange(0, i + 1).subrange(0, i as int) =~= ns@.subrange(0, i as int));
        let ghost before = runs_view(runs@);
        match &ns[i] {
            Node::Element(c) => {
                assert(decreases_to!(*el => *c)) by {
                    assert(decreases_to!(*el => el.children));
                    assert(decreases_to!(el.children => el.children@));
                    assert(decreases_to!(el.children@ => el.children@[i as int]));
                }
                collect_runs(c, sub, runs);
                assert(runs_view(runs@) =~= before + collect_el(*c, sub));
            },
            Node::Text(_) => {
                assert(runs_view(runs@) =~= before + seq![]);
            },
        }
        assert(runs_view(runs@) =~= runs_view(old(runs)@) + collect_list(ns@.subrange(0, i + 1), sub));
        i = i + 1;
    }
    assert(ns@.subrange(0, i as int) =~= ns@);
}

proof fn lemma_sections_view_push(ss: Seq<SectionProps>, s: SectionProps)
    ensures
        sections_view(ss.push(s)) == sections_view(ss).push(s@),
{
    assert(sections_view(ss.push(s)) =~= sections_view(ss).push(s@));
}

/// Parses a `w:p` element; a section carried in its `w:pPr` is appended to `sections`.
pub fn parse_paragraph(el: &Element, sections: &mut Vec<SectionProps>) -> (p: Paragraph)
    ensures
        p@ == spec_paragraph(*el).0,
        sections_view(final(sections)@) == sections_view(old(sections)@) + spec_paragraph(*el).1,
{
    let mut runs: Vec<Run> = Vec::new();
    let mut props = ParaProps {
        style: None,
        numbering: None,
        alignment: None,
        spacing_line: None,
        line_rule: None,
        spacing_before: None,
        spacing_after: None,
        indent_first_line: None,
        indent_hanging: None,
        indent_left: None,
    };
    assert(runs_view(runs@) =~= seq![]);
    let ns = &el.children;
    let mut i: usize = 0;
    while i < ns.len()
        invariant
            i <= ns@.len(),
            props@ == para_fold(ns@.subrange(0, i as int)).props,
            runs_view(runs@) == para_fold(ns@.subrange(0, i as int)).runs,
            sections_view(sections@) == sections_view(old(sections)@) + para_fold(
                ns@.subrange(0, i as int),
            ).sections,
        decreases ns@.len() - i,
    {
        assert(ns@.subrange(0, i + 1).subrange(0, i as int) =~= ns@.subrange(0, i as int));
        let ghost before = sections_view(sections@);
        match &ns[i] {
            Node::Element(c) => {
                if c.is("w:pPr") {
                    props = parse_para_props(c);
                    // a paragraph that ends a section carries the section in its pPr
                    match first_child_named(&c.children, "w:sectPr") {
                        Some(s) => {
                            let sp = parse_sect_pr(s);
                            proof {
                                lemma_sections_view_push(sections@, sp);
                            }
                            sections.push(sp);
                        },
                        None => {},
                    }
                    assert(sections_view(sections@) =~= sections_view(old(sections)@) + para_fold(
                        ns@.subrange(0, i + 1),
                    ).sections);
                } else {
                    collect_runs(c, None, &mut runs);
                }
            },
            Node::Text(_) => {},
        }
        i = i + 1;
    }
    assert(ns@.subrange(0, i as int) =~= ns@);
    Paragraph { runs, props }
}


proof fn lemma_blocks_view_push(bs: Seq<Block>, b: Block)
    ensures
        blocks_view(bs.push(b)) == blocks_view(bs).push(block_view(b)),
{
    assert(bs.push(b).subrange(0, bs.len() as int) =~= bs);
}

proof fn lemma_rows_view_push(rs: Seq<TableRow>, r: TableRow)
    ensures
        rows_view(rs.push(r)) == rows_view(rs).push(RowV { cells: cells_view(r.cells@) }),
{
    assert(rs.push(r).subrange(0, rs.len() as int) =~= rs);
}

proof fn lemma_cells_view_push(cs: Seq<TableCell>, c: TableCell)
    ensures
        cells_view(cs.push(c)) == cells_view(cs).push(
            CellV { blocks: blocks_view(c.blocks@), grid_span: c.grid_span, v_merge: ov(c.v_merge) },
        ),
{
    assert(cs.push(c).subrange(0, cs.len() as int) =~= cs);
}

/// Walks a block-level node list: paragraphs and tables become blocks,
/// `w:sectPr` becomes a section, markers are skipped, other containers
/// (`w:sdt` and the like) are walked through.
pub fn walk_blocks(nodes: &Vec<Node>, out: &mut Vec<Block>, sections: &mut Vec<SectionProps>)
    ensures
        blocks_view(final(out)@) == blocks_view(old(out)@) + walk_list(nodes@).0,
        sections_view(final(sections)@) == sections_view(old(sections)@) + walk_list(nodes@).1,
    decreases nodes@,
{
    let mut i: usize = 0;
    while i < nodes.len()
        invariant
            i <= nodes@.len(),
            blocks_view(out@) == blocks_view(old(out)@) + walk_list(nodes@.subrange(0, i as int)).0,
            sections_view(sections@) == sections_view(old(sections)@) + walk_list(
                nodes@.subrange(0, i as int),
            ).1,
        decreases nodes@.len() - i,
    {
        assert(nodes@.subrange(0, i + 1).subrange(0, i as int) =~= nodes@.subrange(0, i as int));
        let ghost b0 = blocks_view(out@);
        let ghost s0 = sections_view(sections@);
        match &nodes[i] {
            Node::Element(el) => {
                assert(decreases_to!(nodes@ => el.children@)) by {
                    assert(decreases_to!(nodes@ => nodes@[i as int]));
                    assert(decreases_to!(nodes@[i as int] => *el));
                    assert(decreases_to!(*el => el.children));
                    assert(decreases_to!(el.children => el.children@));
                }
                if el.is("w:p") {
                    let p = parse_paragraph(el, sections);
                    let b = Block::Paragraph(p);
                    proof {
                        lemma_blocks_view_push(out@, b);
                    }
                    out.push(b);
                } else if el.is("w:tbl") {
                    let t = parse_table(el);
                    let b = Block::Table(t);
                    proof {
                        lemma_blocks_view_push(out@, b);
                    }
                    out.push(b);
                    assert(sections_view(sections@) =~= s0 + seq![]);
                } else if el.is("w:sectPr") {
                    let sp = parse_sect_pr(el);
                    proof {
                        lemma_sections_view_push(sections@, sp);
                    }
                    sections.push(sp);
                    assert(blocks_view(out@) =~= b0 + seq![]);
                } else if el.is("w:bookmarkStart") || el.is("w:bookmarkEnd") || el.is("w:proofErr") {
                    assert(blocks_view(out@) =~= b0 + seq![]);
                    assert(sections_view(sections@) =~= s0 + seq![]);
                } else {
                    walk_blocks(&el.children, out, sections);
                }
            },
            Node::Text(_) => {
                assert(blocks_view(out@) =~= b0 + seq![]);
                assert(sections_view(sections@) =~= s0 + seq![]);
            },
        }
        assert(blocks_view(out@) =~= blocks_view(old(out)@) + walk_list(nodes@.subrange(0, i + 1)).0);
        assert(sections_view(sections@) =~= sections_view(old(sections)@) + walk_list(
            nodes@.subrange(0, i + 1),
        ).1);
        i = i + 1;
    }
    assert(nodes@.subrange(0, i as int) =~= nodes@);
}

/// Parses a `w:tbl` element: rows `w:tr`, cells `w:tc`, table style.
pub fn parse_table(el: &Element) -> (t: Table)
    ensures
        block_view(Block::Table(t)) == BlockV::Table(spec_table(*el)),
    decreases el,
{
    let ns = &el.children;
    let mut rows: Vec<TableRow> = Vec::new();
    let mut i: usize = 0;
    assert(rows_view(rows@) =~= seq![]);
    while i < ns.len()
        invariant
            i <= ns@.len(),
            ns == &el.children,
            rows_view(rows@) == rows_of(ns@.subrange(0, i as int)),
        decreases ns@.len() - i,
    {
        assert(ns@.subrange(0, i + 1).subrange(0, i as int) =~= ns@.subrange(0, i as int));
        let ghost r0 = rows_view(rows@);
        match &ns[i] {
            Node::Element(tr) => {
                if tr.is("w:tr") {
                    assert(decreases_to!(*el => *tr)) by {
                        assert(decreases_to!(*el => el.children));
                        assert(decreases_to!(el.children => el.children@));
                        assert(decreases_to!(el.children@ => el.children@[i as int]));
                    }
                    let cells = parse_row_cells(tr);
                    let row = TableRow { cells };
                    proof {
                        lemma_rows_view_push(rows@, row);
                    }
                    rows.push(row);
                    assert(rows_view(rows@) =~= r0 + seq![RowV { cells: cells_of(tr.children@) }]);
                } else {
                    assert(rows_view(rows@) =~= r0 + seq![]);
                }
            },
            Node::Text(_) => {
                assert(rows_view(rows@) =~= r0 + seq![]);
            },
        }
        i = i + 1;
    }
    assert(ns@.subrange(0, i as int) =~= ns@);
    let style_id = match first_child_named(ns, "w:tblPr") {
        Some(p) => child_attr_vec(p, "w:tblStyle", "w:val"),
        None => None,
    };
    Table { rows, style_id }
}

proof fn lemma_cells_of_step(ns: Seq<Node>, i: int)
    requires
        0 <= i < ns.len(),
    ensures
        cells_of(ns.subrange(0, i + 1)) == cells_of(ns.subrange(0, i)) + match ns[i] {
            Node::Element(c) => if named(c, "w:tc") {
                seq![spec_cell(c)]
            } else {
                seq![]
            },
            Node::Text(_) => seq![],
        },
{
    assert(ns.subrange(0, i + 1).subrange(0, i) =~= ns.subrange(0, i));
}

/// Cells of a `w:tr` element.
fn parse_row_cells(tr: &Element) -> (cells: Vec<TableCell>)
    ensures
        cells_view(cells@) == cells_of(tr.children@),
    decreases tr,
{
    let ns = &tr.children;
    let mut cells: Vec<TableCell> = Vec::new();
    let mut i: usize = 0;
    assert(cells_view(cells@) =~= seq![]);
    while i < ns.len()
        invariant
            i <= ns@.len(),
            ns == &tr.children,
            cells_view(cells@) == cells_of(ns@.subrange(0, i as int)),
        decreases ns@.len() - i,
    {
        proof {
            lemma_cells_of_step(ns@, i as int);
        }
        let ghost c0 = cells_view(cells@);
        match &ns[i] {
            Node::Element(tc) => {
                if tc.is("w:tc") {
                    assert(decreases_to!(*tr => *tc)) by {
                        assert(decreases_to!(*tr => tr.children));
                        assert(decreases_to!(tr.children => tr.children@));
                        assert(decreases_to!(tr.children@ => tr.children@[i as int]));
                    }
                    let cell = parse_cell(tc);
                    proof {
                        lemma_cells_view_push(cells@, cell);
                    }
                    cells.push(cell);
                    assert(cells_view(cells@) =~= c0 + seq![spec_cell(*tc)]);
                } else {
                    assert(cells_view(cells@) =~= c0 + seq![]);
                }
            },
            Node::Text(_) => {
                assert(cells_view(cells@) =~= c0 + seq![]);
            },
        }
        i = i + 1;
    }
    assert(ns@.subrange(0, i as int) =~= ns@);
    cells
}

pub open spec fn cell_view(c: TableCell) -> CellV {
    CellV { blocks: blocks_view(c.blocks@), grid_span: c.grid_span, v_merge: ov(c.v_merge) }
}

/// Parses a `w:tc` element: its blocks, `w:gridSpan` and `w:vMerge`.
pub fn parse_cell(el: &Element) -> (c: TableCell)
    ensures
        cell_view(c) == spec_cell(*el),
    decreases el,
{
    let mut blocks: Vec<Block> = Vec::new();
    // a cell holds no section properties; the walk is shared with the body
    let mut dummy_sections: Vec<SectionProps> = Vec::new();
    assert(blocks_view(blocks@) =~= seq![]);
    assert(decreases_to!(*el => el.children@)) by {
        assert(decreases_to!(*el => el.children));
        assert(decreases_to!(el.children => el.children@));
    }
    walk_blocks(&el.children, &mut blocks, &mut dummy_sections);
    assert(blocks_view(blocks@) =~= walk_list(el.children@).0);
    let mut grid_span: Option<u32> = None;
    let mut v_merge: Option<Vec<u8>> = None;
    match first_child_named(&el.children, "w:tcPr") {
        Some(tc_pr) => {
            grid_span = child_attr_u32(tc_pr, "w:gridSpan", "w:val");
            // <w:vMerge/> without a value is `continue`
            v_merge = match first_child_named(&tc_pr.children, "w:vMerge") {
                Some(m) => match attr_vec(m, "w:val") {
                    Some(v) => Some(v),
                    None => Some(crate::bytes_util::str_bytes("continue")),
                },
                None => None,
            };
        },
        None => {},
    }
    TableCell { blocks, grid_span, v_merge }
}

/// Builds the document model of a root element: the body of `w:document`,
/// a lone `w:p` or `w:tbl`, or the blocks of any other container.
pub fn build_document(root: &Element) -> (doc: DocxDocument)
    ensures
        doc@ == spec_build(*root),
{
    let mut body: Vec<Block> = Vec::new();
    let mut sections: Vec<SectionProps> = Vec::new();
    assert(blocks_view(body@) =~= seq![]);
    assert(sections_view(sections@) =~= seq![]);
    if root.is("w:document") {
        if let Some(b) = first_child_named(&root.children, "w:body") {
            walk_blocks(&b.children, &mut body, &mut sections);
            assert(blocks_view(body@) =~= walk_list(b.children@).0);
            assert(sections_view(sections@) =~= walk_list(b.children@).1);
        }
    } else if root.is("w:p") {
        let p = parse_paragraph(root, &mut sections);
        let b = Block::Paragraph(p);
        proof {
            lemma_blocks_view_push(body@, b);
        }
        body.push(b);
        assert(blocks_view(body@) =~= seq![BlockV::Paragraph(spec_paragraph(*root).0)]);
        assert(sections_view(sections@) =~= spec_paragraph(*root).1);
    } else if root.is("w:tbl") {
        let t = parse_table(root);
        let b = Block::Table(t);
        proof {
            lemma_blocks_view_push(body@, b);
        }
        body.push(b);
        assert(blocks_view(body@) =~= seq![BlockV::Table(spec_table(*root))]);
    } else {
        walk_blocks(&root.children, &mut body, &mut sections);
        assert(blocks_view(body@) =~= walk_list(root.children@).0);
        assert(sections_view(sections@) =~= walk_list(root.children@).1);
    }
    DocxDocument { body, sections }
}

// ---------------------------------------------------------------------------
// Text projection
// ---------------------------------------------------------------------------

/// Appends the visible text of runs (deleted runs left out).
pub fn runs_text_into(runs: &Vec<Run>, out: &mut Vec<u8>)
    ensures
        final(out)@ == old(out)@ + runs_text(runs_view(runs@)),
{
    let mut i: usize = 0;
    while i < runs.len()
        invariant
            i <= runs@.len(),
            out@ == old(out)@ + runs_text(runs_view(runs@.subrange(0, i as int))),
        decreases runs@.len() - i,
    {
        let ghost o0 = out@;
        assert(runs_view(runs@.subrange(0, i + 1)).subrange(0, i as int) =~= runs_view(runs@.subrange(0, i as int)));
        if runs[i].revision != Some(Revision::Deleted) {
            push_bytes(out, runs[i].text.as_slice());
        }
        assert(out@ =~= old(out)@ + runs_text(runs_view(runs@.subrange(0, i + 1))));
        i = i + 1;
    }
    assert(runs@.subrange(0, i as int) =~= runs@);
}

pub proof fn lemma_blocks_view_prefix(bs: Seq<Block>, i: int)
    requires
        0 <= i < bs.len(),
    ensures
        blocks_view(bs.subrange(0, i + 1)) == blocks_view(bs.subrange(0, i)).push(block_view(bs[i])),
{
    let x = bs.subrange(0, i + 1);
    assert(x.subrange(0, x.len() - 1) =~= bs.subrange(0, i));
}

proof fn lemma_rows_view_prefix(rs: Seq<TableRow>, i: int)
    requires
        0 <= i < rs.len(),
    ensures
        rows_view(rs.subrange(0, i + 1)) == rows_view(rs.subrange(0, i)).push(
            RowV { cells: cells_view(rs[i].cells@) },
        ),
{
    let x = rs.subrange(0, i + 1);
    assert(x.subrange(0, x.len() - 1) =~= rs.subrange(0, i));
}

proof fn lemma_cells_view_prefix(cs: Seq<TableCell>, i: int)
    requires
        0 <= i < cs.len(),
    ensures
        cells_view(cs.subrange(0, i + 1)) == cells_view(cs.subrange(0, i)).push(cell_view(cs[i])),
{
    let x = cs.subrange(0, i + 1);
    assert(x.subrange(0, x.len() - 1) =~= cs.subrange(0, i));
}

proof fn lemma_blocks_text_push(v: Seq<BlockV>, b: BlockV)
    ensures
        blocks_text_of(v.push(b)) == blocks_text_of(v) + block_text_of(b),
{
    assert(v.push(b).subrange(0, v.len() as int) =~= v);
}

proof fn lemma_rows_text_push(v: Seq<RowV>, r: RowV)
    ensures
        rows_text_of(v.push(r)) == rows_text_of(v) + cells_text_of(r.cells),
{
    assert(v.push(r).subrange(0, v.len() as int) =~= v);
}

proof fn lemma_cells_text_push(v: Seq<CellV>, c: CellV)
    ensures
        cells_text_of(v.push(c)) == cells_text_of(v) + blocks_text_of(c.blocks),
{
    assert(v.push(c).subrange(0, v.len() as int) =~= v);
}

/// Each block's view is the view of the block at that index.
pub proof fn lemma_blocks_view_index(bs: Seq<Block>)
    ensures
        blocks_view(bs).len() == bs.len(),
        forall|i: int| 0 <= i < bs.len() ==> blocks_view(bs)[i] == block_view(#[trigger] bs[i]),
    decreases bs.len(),
{
    if bs.len() > 0 {
        lemma_blocks_view_index(bs.subrange(0, bs.len() - 1));
        assert forall|i: int| 0 <= i < bs.len() implies blocks_view(bs)[i] == block_view(#[trigger] bs[i]) by {
            if i < bs.len() - 1 {
                assert(bs.subrange(0, bs.len() - 1)[i] == bs[i]);
            }
        }
    }
}

pub proof fn lemma_rows_view_index(rs: Seq<TableRow>)
    ensures
        rows_view(rs).len() == rs.len(),
        forall|i: int| 0 <= i < rs.len() ==> rows_view(rs)[i] == (RowV { cells: cells_view(#[trigger] rs[i].cells@) }),
    decreases rs.len(),
{
    if rs.len() > 0 {
        lemma_rows_view_index(rs.subrange(0, rs.len() - 1));
        assert forall|i: int| 0 <= i < rs.len() implies rows_view(rs)[i] == (RowV { cells: cells_view(#[trigger] rs[i].cells@) }) by {
            if i < rs.len() - 1 {
                assert(rs.subrange(0, rs.len() - 1)[i] == rs[i]);
            }
        }
    }
}

pub proof fn lemma_cells_view_index(cs: Seq<TableCell>)
    ensures
        cells_view(cs).len() == cs.len(),
        forall|i: int| 0 <= i < cs.len() ==> cells_view(cs)[i] == cell_view(#[trigger] cs[i]),
    decreases cs.len(),
{
    if cs.len() > 0 {
        lemma_cells_view_index(cs.subrange(0, cs.len() - 1));
        assert forall|i: int| 0 <= i < cs.len() implies cells_view(cs)[i] == cell_view(#[trigger] cs[i]) by {
            if i < cs.len() - 1 {
                assert(cs.subrange(0, cs.len() - 1)[i] == cs[i]);
            }
        }
    }
}

/// Appends the text of blocks: each paragraph on a line (deleted runs left
/// out), tables cell by cell.
pub fn blocks_text(blocks: &[Block], out: &mut Vec<u8>)
    ensures
        final(out)@ == old(out)@ + blocks_text_of(blocks_view(blocks@)),
    decreases blocks@,
{
    let mut i: usize = 0;
    while i < blocks.len()
        invariant
            i <= blocks@.len(),
            out@ == old(out)@ + blocks_text_of(blocks_view(blocks@.subrange(0, i as int))),
        decreases blocks@.len() - i,
    {
        let ghost o0 = out@;
        proof {
            lemma_blocks_view_prefix(blocks@, i as int);
            lemma_blocks_text_push(blocks_view(blocks@.subrange(0, i as int)), block_view(blocks@[i as int]));
        }
        match &blocks[i] {
            Block::Paragraph(p) => {
                runs_text_into(&p.runs, out);
                out.push(10u8);
            },
            Block::Table(t) => {
                assert(decreases_to!(blocks@ => *t)) by {
                    assert(decreases_to!(blocks@ => blocks@[i as int]));
                }
                table_text_into(t, out);
            },
        }
        assert(out@ =~= old(out)@ + blocks_text_of(blocks_view(blocks@.subrange(0, i + 1))));
        i = i + 1;
    }
    assert(blocks@.subrange(0, i as int) =~= blocks@);
}

fn table_text_into(t: &Table, out: &mut Vec<u8>)
    ensures
        final(out)@ == old(out)@ + rows_text_of(rows_view(t.rows@)),
    decreases t,
{
    let mut r: usize = 0;
    while r < t.rows.len()
        invariant
            r <= t.rows@.len(),
            out@ == old(out)@ + rows_text_of(rows_view(t.rows@.subrange(0, r as int))),
        decreases t.rows@.len() - r,
    {
        proof {
            lemma_rows_view_prefix(t.rows@, r as int);
            lemma_rows_text_push(rows_view(t.rows@.subrange(0, r as int)), RowV { cells: cells_view(t.rows@[r as int].cells@) });
        }
        let row = &t.rows[r];
        let mut c: usize = 0;
        let ghost o_row = out@;
        while c < row.cells.len()
            invariant
                r < t.rows@.len(),
                row == &t.rows@[r as int],
                c <= row.cells@.len(),
                out@ == o_row + cells_text_of(cells_view(row.cells@.subrange(0, c as int))),
            decreases row.cells@.len() - c,
        {
            proof {
                lemma_cells_view_prefix(row.cells@, c as int);
                lemma_cells_text_push(cells_view(row.cells@.subrange(0, c as int)), cell_view(row.cells@[c as int]));
            }
            let cell = &row.cells[c];
            assert(decreases_to!(*t => cell.blocks@)) by {
                assert(decreases_to!(*t => t.rows));
                assert(decreases_to!(t.rows => t.rows@));
                assert(decreases_to!(t.rows@ => t.rows@[r as int]));
                assert(decreases_to!(t.rows@[r as int] => t.rows@[r as int].cells));
                assert(decreases_to!(t.rows@[r as int].cells => t.rows@[r as int].cells@));
                assert(decreases_to!(t.rows@[r as int].cells@ => t.rows@[r as int].cells@[c as int]));
                assert(decreases_to!(t.rows@[r as int].cells@[c as int] => t.rows@[r as int].cells@[c as int].blocks));
                assert(decreases_to!(t.rows@[r as int].cells@[c as int].blocks => t.rows@[r as int].cells@[c as int].blocks@));
            }
            blocks_text(cell.blocks.as_slice(), out);
            assert(out@ =~= o_row + cells_text_of(cells_view(row.cells@.subrange(0, c + 1))));
            c = c + 1;
        }
        assert(row.cells@.subrange(0, c as int) =~= row.cells@);
        assert(out@ =~= old(out)@ + rows_text_of(rows_view(t.rows@.subrange(0, r + 1))));
        r = r + 1;
    }
    assert(t.rows@.subrange(0, r as int) =~= t.rows@);
}

/// The text projection of a document (not normalized): one line per
/// paragraph, cell paragraphs included, deleted runs left out.
pub fn document_text(doc: &DocxDocument) -> (r: Vec<u8>)
    ensures
        r@ == blocks_text_of(doc@.body),
{
    let mut out: Vec<u8> = Vec::new();
    blocks_text(doc.body.as_slice(), &mut out);
    assert(out@ =~= blocks_text_of(doc@.body));
    out
}

// ---------------------------------------------------------------------------
// Entity decoding
// ---------------------------------------------------------------------------

/// Index of the first `;` at or after `i` (or `-1`).
pub open spec fn next_semi(s: Seq<u8>, i: int) -> int
    decreases s.len() - i,
{
    if i < 0 || i >= s.len() {
        -1
    } else if s[i] == 59 {
        i
    } else {
        next_semi(s, i + 1)
    }
}

/// An ASCII hexadecimal digit's value.
pub open spec fn hex_val(b: u8) -> Option<nat> {
    if 48 <= b <= 57 {
        Some((b - 48) as nat)
    } else if 97 <= b <= 102 {
        Some((b - 87) as nat)
    } else if 65 <= b <= 70 {
        Some((b - 55) as nat)
    } else {
        None
    }
}

/// An ASCII hexadecimal digit.
pub open spec fn is_hex(b: u8) -> bool {
    (48 <= b <= 57) || (97 <= b <= 102) || (65 <= b <= 70)
}

/// Value of the hexadecimal digits `s[0..k]`.
pub open spec fn hex_value(s: Seq<u8>, k: int) -> nat
    decreases k,
{
    if k <= 0 {
        0
    } else {
        hex_value(s, k - 1) * 16 + match hex_val(s[k - 1]) {
            Some(v) => v,
            None => 0,
        }
    }
}

/// What `u32::from_str_radix(s, 16)` gives: optional `+`, at least one hex digit, within `u32`.
pub open spec fn spec_parse_hex_u32(s: Seq<u8>) -> Option<u32> {
    let body = unsigned_body(s);
    if body.len() > 0 && (forall|i: int| 0 <= i < body.len() ==> #[trigger] is_hex(body[i]))
        && hex_value(body, body.len() as int) <= u32::MAX {
        Some(hex_value(body, body.len() as int) as u32)
    } else {
        None
    }
}

/// The scalar a numeric value stands for, when it is one (`char::from_u32`).
pub open spec fn as_scalar(v: Option<u32>) -> Option<u32> {
    match v {
        Some(c) => if is_scalar(c) { Some(c) } else { None },
        None => None,
    }
}

/// The character an entity name stands for: the five predefined names,
/// `#xH`/`#XH` hexadecimal and `#D` decimal references.
pub open spec fn spec_decode_entity(e: Seq<u8>) -> Option<u32> {
    if e == "amp".spec_bytes() {
        Some(38)
    } else if e == "lt".spec_bytes() {
        Some(60)
    } else if e == "gt".spec_bytes() {
        Some(62)
    } else if e == "quot".spec_bytes() {
        Some(34)
    } else if e == "apos".spec_bytes() {
        Some(39)
    } else if e.len() >= 2 && e[0] == 35 && (e[1] == 120 || e[1] == 88) {
        as_scalar(spec_parse_hex_u32(e.skip(2)))
    } else if e.len() >= 1 && e[0] == 35 {
        as_scalar(spec_parse_u32(e.skip(1)))
    } else {
        None
    }
}

/// `s[i..]` with entities decoded; an `&` that starts no known entity stays.
pub open spec fn decode_from(s: Seq<u8>, i: int) -> Seq<u8>
    decreases s.len() - i,
{
    if i < 0 || i >= s.len() {
        seq![]
    } else if s[i] == 38 {
        let j = next_semi(s, i + 1);
        if i < j < s.len() && spec_decode_entity(s.subrange(i + 1, j)) is Some {
            encode_scalar(spec_decode_entity(s.subrange(i + 1, j))->0) + decode_from(s, j + 1)
        } else {
            seq![38u8] + decode_from(s, i + 1)
        }
    } else {
        seq![s[i]] + decode_from(s, i + 1)
    }
}

/// `s` with entities decoded.
pub open spec fn spec_decode(s: Seq<u8>) -> Seq<u8> {
    decode_from(s, 0)
}

/// Appends the UTF-8 encoding of a scalar.
pub fn push_scalar(out: &mut Vec<u8>, scalar: u32)
    requires
        is_scalar(scalar),
    ensures
        final(out)@ == old(out)@ + encode_scalar(scalar),
{
    if scalar <= 0x7F {
        out.push((scalar & 0x7F) as u8);
    } else if scalar <= 0x7FF {
        out.push(0xC0 | ((scalar >> 6) & 0x1F) as u8);
        out.push(0x80 | (scalar & 0x3F) as u8);
    } else if scalar <= 0xFFFF {
        out.push(0xE0 | ((scalar >> 12) & 0x0F) as u8);
        out.push(0x80 | ((scalar >> 6) & 0x3F) as u8);
        out.push(0x80 | (scalar & 0x3F) as u8);
    } else {
        out.push(0xF0 | ((scalar >> 18) & 0x7) as u8);
        out.push(0x80 | ((scalar >> 12) & 0x3F) as u8);
        out.push(0x80 | ((scalar >> 6) & 0x3F) as u8);
        out.push(0x80 | (scalar & 0x3F) as u8);
    }
    assert(final(out)@ =~= old(out)@ + encode_scalar(scalar));
}

fn hex_digit(b: u8) -> (r: Option<u32>)
    ensures
        match hex_val(b) {
            Some(v) => r == Some(v as u32),
            None => r is None,
        },
{
    if 48 <= b && b <= 57 {
        Some((b - 48) as u32)
    } else if 97 <= b && b <= 102 {
        Some((b - 87) as u32)
    } else if 65 <= b && b <= 70 {
        Some((b - 55) as u32)
    } else {
        None
    }
}

proof fn lemma_hex_value_grows(s: Seq<u8>, a: int, b: int)
    requires
        0 <= a <= b <= s.len(),
    ensures
        hex_value(s, a) <= hex_value(s, b),
    decreases b - a,
{
    if a < b {
        lemma_hex_value_grows(s, a, b - 1);
    }
}

/// Parses hexadecimal digits the way `u32::from_str_radix(_, 16)` does.
pub fn parse_hex_u32(s: &[u8]) -> (r: Option<u32>)
    ensures
        r == spec_parse_hex_u32(s@),
{
    let start: usize = if s.len() > 0 && s[0] == 43u8 { 1 } else { 0 };
    let ghost body = if s@.len() > 0 && s@[0] == 43u8 { s@.drop_first() } else { s@ };
    assert(body =~= s@.subrange(start as int, s@.len() as int));
    if start == s.len() {
        return None;
    }
    let mut k: usize = start;
    let mut v: u64 = 0;
    while k < s.len()
        invariant
            start <= k <= s@.len(),
            body == s@.subrange(start as int, s@.len() as int),
            body == unsigned_body(s@),
            forall|i: int| 0 <= i < k - start ==> #[trigger] is_hex(body[i]),
            v == hex_value(body, k - start),
            v <= u32::MAX,
        decreases s@.len() - k,
    {
        let b = s[k];
        assert(body[k - start] == b);
        match hex_digit(b) {
            None => {
                assert(!is_hex(body[k - start]));
                return None;
            },
            Some(d) => {
                let nv = v * 16 + d as u64;
                assert(hex_value(body, k - start + 1) == hex_value(body, k - start) * 16 + d);
                if nv > 4294967295 {
                    proof {
                        lemma_hex_value_grows(body, k - start + 1, body.len() as int);
                    }
                    return None;
                }
                v = nv;
                k = k + 1;
            },
        }
    }
    Some(v as u32)
}

fn scalar_of(v: Option<u32>) -> (r: Option<u32>)
    ensures
        r == as_scalar(v),
{
    match v {
        Some(c) => {
            if c <= 0x10FFFF && !(0xD800 <= c && c <= 0xDFFF) {
                Some(c)
            } else {
                None
            }
        },
        None => None,
    }
}

/// The character an entity name (without `&` and `;`) stands for.
pub fn decode_entity(ent: &[u8]) -> (r: Option<u32>)
    ensures
        r == spec_decode_entity(ent@),
{
    if eq_str(ent, "amp") {
        Some(38)
    } else if eq_str(ent, "lt") {
        Some(60)
    } else if eq_str(ent, "gt") {
        Some(62)
    } else if eq_str(ent, "quot") {
        Some(34)
    } else if eq_str(ent, "apos") {
        Some(39)
    } else if ent.len() >= 2 && ent[0] == 35 && (ent[1] == 120 || ent[1] == 88) {
        assert(ent@.skip(2) =~= ent@.subrange(2, ent@.len() as int));
        scalar_of(parse_hex_u32(&ent[2..ent.len()]))
    } else if ent.len() >= 1 && ent[0] == 35 {
        assert(ent@.skip(1) =~= ent@.subrange(1, ent@.len() as int));
        scalar_of(parse_u32(&ent[1..ent.len()]))
    } else {
        None
    }
}

fn find_semi(s: &[u8], from: usize) -> (r: Option<usize>)
    requires
        from <= s@.len(),
    ensures
        match r {
            Some(j) => j as int == next_semi(s@, from as int),
            None => next_semi(s@, from as int) == -1,
        },
{
    let mut j = from;
    while j < s.len()
        invariant
            from <= j <= s@.len(),
            next_semi(s@, from as int) == next_semi(s@, j as int),
        decreases s@.len() - j,
    {
        if s[j] == 59 {
            return Some(j);
        }
        j = j + 1;
    }
    None
}

proof fn lemma_next_semi_range(s: Seq<u8>, i: int)
    requires
        0 <= i,
    ensures
        next_semi(s, i) == -1 || (i <= next_semi(s, i) < s.len()),
    decreases s.len() - i,
{
    if i < s.len() && s[i] != 59 {
        lemma_next_semi_range(s, i + 1);
    }
}

/// Appends `input` with its XML entities decoded (`&amp; &lt; &gt; &quot;
/// &apos;`, `&#D;`, `&#xH;`); an unknown entity is kept as it stands.
pub fn decode_entities_into(input: &[u8], out: &mut Vec<u8>)
    ensures
        final(out)@ == old(out)@ + spec_decode(input@),
{
    let mut i: usize = 0;
    while i < input.len()
        invariant
            i <= input@.len(),
            old(out)@ + decode_from(input@, 0) == out@ + decode_from(input@, i as int),
        decreases input@.len() - i,
    {
        if input[i] == 38 {
            proof {
                lemma_next_semi_range(input@, i + 1);
            }
            match find_semi(input, i + 1) {
                Some(j) => {
                    let ent = &input[i + 1..j];
                    match decode_entity(ent) {
                        Some(c) => {
                            let ghost before = out@;
                            push_scalar(out, c);
                            assert(before + decode_from(input@, i as int) == before + (encode_scalar(c) + decode_from(input@, j + 1)));
                            assert(out@ + decode_from(input@, j + 1) =~= before + (encode_scalar(c) + decode_from(input@, j + 1)));
                            i = j + 1;
                            continue;
                        },
                        None => {},
                    }
                },
                None => {},
            }
            let ghost before = out@;
            out.push(38u8);
            assert(out@ + decode_from(input@, i + 1) =~= before + (seq![38u8] + decode_from(input@, i + 1)));
            i = i + 1;
        } else {
            let ghost before = out@;
            out.push(input[i]);
            assert(out@ + decode_from(input@, i + 1) =~= before + (seq![input@[i as int]] + decode_from(input@, i + 1)));
            i = i + 1;
        }
    }
    assert(out@ =~= out@ + decode_from(input@, i as int));
}

} // verus!
