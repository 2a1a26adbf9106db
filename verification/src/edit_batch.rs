use vstd::prelude::*;
use vstd::string::StringSliceAdditionalSpecFns;
use crate::bytes_util::{push_bytes, push_str, str_bytes, slice_vec, contains, eq_str, push_usize, trim_end_to,
    starts_with};
use crate::error::{DocError, DocResult, ErrorKind, bytes_to_string};
use crate::docx_model::{Block, Table, TableRow, TableCell, DocxDocument, Run, Revision, blocks_text};
use crate::docx_edit::{AppliedOp, ParaFormat, CharFormat, MergeDirection, TableLevel, truncate, ppr_elements,
    tblpr_elements, trpr_elements, tcpr_elements, tcpr_protected, position_in, validate_fragment, rebuild_paragraph,
    build_inserted_paragraph, restyle_paragraph, reformat_ppr, reformat_runs, set_ppr_element};
use crate::table_edit::{validate_table_rows, build_table_xml, content_width_twips, set_cell_text,
    insert_table_row_after, set_cell_format_xml, set_table_element_xml, merge_cells_xml, split_cell_xml,
    delete_table_row_xml};
use crate::locate::{BlockSpan, locate_blocks};
use crate::styles::{Stylesheet, StyleV};
use crate::zip_io::zip_entry_of;

verus! {

// ---------------------------------------------------------------------------
// The operations of a batch
// ---------------------------------------------------------------------------

/// One edit of a batch; blocks are numbered from 1, as the document
/// projections number them. Each carries the beginning of the block's text
/// as the caller last saw it (`expect_prefix`); a batch whose prefixes do
/// not match is refused whole.
#[derive(Debug, Clone)]
pub enum EditOp {
    /// Replaces a paragraph's text, keeping its `w:pPr` and first run's `w:rPr`.
    ReplaceText { block: usize, expect_prefix: String, new_text: String },
    /// Inserts a paragraph after a block (with a style, or the anchor's
    /// formatting); several after one anchor come in order.
    InsertParagraphAfter { block: usize, expect_prefix: String, text: String, style: Option<String> },
    /// Deletes a block.
    DeleteBlock { block: usize, expect_prefix: String },
    /// Sets a paragraph's style (name or ID).
    SetStyle { block: usize, expect_prefix: String, style: String },
    /// Formats a paragraph and its runs; `summary` describes the format for the report.
    SetFormat {
        block: usize,
        expect_prefix: String,
        paragraph: Option<ParaFormat>,
        character: Option<CharFormat>,
        summary: String,
    },
    /// Sets (or, without markup, removes) one element of a paragraph's `w:pPr`.
    SetPprElement { block: usize, expect_prefix: String, element: String, xml: Option<String> },
    /// Inserts a table after a block.
    InsertTableAfter {
        block: usize,
        expect_prefix: String,
        rows: Vec<Vec<Vec<u8>>>,
        header: Option<bool>,
        table_style: Option<String>,
    },
    /// Replaces the text of a table cell.
    SetCellText { block: usize, expect_prefix: String, row: usize, cell: usize, text: String },
    /// Adds a row to a table, cloned from a template row.
    InsertTableRowAfter { block: usize, expect_prefix: String, after_row: Option<usize>, cells: Option<Vec<Vec<u8>>> },
    /// Formats a table cell's paragraphs and runs; `summary` describes the format.
    SetCellFormat {
        block: usize,
        expect_prefix: String,
        row: usize,
        cell: usize,
        paragraph: Option<ParaFormat>,
        character: Option<CharFormat>,
        style: Option<String>,
        summary: String,
    },
    /// Sets or removes one element of a table's, row's or cell's properties.
    SetTableElement {
        block: usize,
        expect_prefix: String,
        level: TableLevel,
        row: Option<usize>,
        cell: Option<usize>,
        element: String,
        xml: Option<String>,
    },
    /// Merges cells: a line (`direction`, `span`) or a rectangle (`end_row`, `end_cell`).
    MergeCells {
        block: usize,
        expect_prefix: String,
        direction: Option<MergeDirection>,
        row: usize,
        cell: usize,
        span: Option<usize>,
        end_row: Option<usize>,
        end_cell: Option<usize>,
    },
    /// Splits a merged cell.
    SplitCell { block: usize, expect_prefix: String, direction: MergeDirection, row: usize, cell: usize },
    /// Deletes one table row.
    DeleteTableRow { block: usize, expect_prefix: String, row: usize },
    /// Clears the body, keeping the blocks that carry section properties;
    /// `expect_blocks` is the block count the caller saw.
    ClearBody { expect_blocks: usize },
}

/// The block an operation addresses (none for clearing the body).
pub open spec fn op_block(op: EditOp) -> Option<usize> {
    match op {
        EditOp::ReplaceText { block, .. } => Some(block),
        EditOp::InsertParagraphAfter { block, .. } => Some(block),
        EditOp::DeleteBlock { block, .. } => Some(block),
        EditOp::SetStyle { block, .. } => Some(block),
        EditOp::SetFormat { block, .. } => Some(block),
        EditOp::SetPprElement { block, .. } => Some(block),
        EditOp::InsertTableAfter { block, .. } => Some(block),
        EditOp::SetCellText { block, .. } => Some(block),
        EditOp::InsertTableRowAfter { block, .. } => Some(block),
        EditOp::SetCellFormat { block, .. } => Some(block),
        EditOp::SetTableElement { block, .. } => Some(block),
        EditOp::MergeCells { block, .. } => Some(block),
        EditOp::SplitCell { block, .. } => Some(block),
        EditOp::DeleteTableRow { block, .. } => Some(block),
        EditOp::ClearBody { .. } => None,
    }
}

/// The block an operation addresses; see [`op_block`].
pub fn block_of(op: &EditOp) -> (r: Option<usize>)
    ensures
        r == op_block(*op),
{
    match op {
        EditOp::ReplaceText { block, .. } => Some(*block),
        EditOp::InsertParagraphAfter { block, .. } => Some(*block),
        EditOp::DeleteBlock { block, .. } => Some(*block),
        EditOp::SetStyle { block, .. } => Some(*block),
        EditOp::SetFormat { block, .. } => Some(*block),
        EditOp::SetPprElement { block, .. } => Some(*block),
        EditOp::InsertTableAfter { block, .. } => Some(*block),
        EditOp::SetCellText { block, .. } => Some(*block),
        EditOp::InsertTableRowAfter { block, .. } => Some(*block),
        EditOp::SetCellFormat { block, .. } => Some(*block),
        EditOp::SetTableElement { block, .. } => Some(*block),
        EditOp::MergeCells { block, .. } => Some(*block),
        EditOp::SplitCell { block, .. } => Some(*block),
        EditOp::DeleteTableRow { block, .. } => Some(*block),
        EditOp::ClearBody { .. } => None,
    }
}

/// The text prefix an operation expects its block to start with (empty for
/// clearing the body).
pub open spec fn op_expect_prefix(op: EditOp) -> Seq<char> {
    match op {
        EditOp::ReplaceText { expect_prefix, .. } => expect_prefix@,
        EditOp::InsertParagraphAfter { expect_prefix, .. } => expect_prefix@,
        EditOp::DeleteBlock { expect_prefix, .. } => expect_prefix@,
        EditOp::SetStyle { expect_prefix, .. } => expect_prefix@,
        EditOp::SetFormat { expect_prefix, .. } => expect_prefix@,
        EditOp::SetPprElement { expect_prefix, .. } => expect_prefix@,
        EditOp::InsertTableAfter { expect_prefix, .. } => expect_prefix@,
        EditOp::SetCellText { expect_prefix, .. } => expect_prefix@,
        EditOp::InsertTableRowAfter { expect_prefix, .. } => expect_prefix@,
        EditOp::SetCellFormat { expect_prefix, .. } => expect_prefix@,
        EditOp::SetTableElement { expect_prefix, .. } => expect_prefix@,
        EditOp::MergeCells { expect_prefix, .. } => expect_prefix@,
        EditOp::SplitCell { expect_prefix, .. } => expect_prefix@,
        EditOp::DeleteTableRow { expect_prefix, .. } => expect_prefix@,
        EditOp::ClearBody { .. } => ""@,
    }
}

fn expect_prefix_of(op: &EditOp) -> (r: &str)
    ensures
        r@ == op_expect_prefix(*op),
{
    match op {
        EditOp::ReplaceText { expect_prefix, .. } => expect_prefix.as_str(),
        EditOp::InsertParagraphAfter { expect_prefix, .. } => expect_prefix.as_str(),
        EditOp::DeleteBlock { expect_prefix, .. } => expect_prefix.as_str(),
        EditOp::SetStyle { expect_prefix, .. } => expect_prefix.as_str(),
        EditOp::SetFormat { expect_prefix, .. } => expect_prefix.as_str(),
        EditOp::SetPprElement { expect_prefix, .. } => expect_prefix.as_str(),
        EditOp::InsertTableAfter { expect_prefix, .. } => expect_prefix.as_str(),
        EditOp::SetCellText { expect_prefix, .. } => expect_prefix.as_str(),
        EditOp::InsertTableRowAfter { expect_prefix, .. } => expect_prefix.as_str(),
        EditOp::SetCellFormat { expect_prefix, .. } => expect_prefix.as_str(),
        EditOp::SetTableElement { expect_prefix, .. } => expect_prefix.as_str(),
        EditOp::MergeCells { expect_prefix, .. } => expect_prefix.as_str(),
        EditOp::SplitCell { expect_prefix, .. } => expect_prefix.as_str(),
        EditOp::DeleteTableRow { expect_prefix, .. } => expect_prefix.as_str(),
        EditOp::ClearBody { .. } => "",
    }
}

// ---------------------------------------------------------------------------
// Reading the model
// ---------------------------------------------------------------------------

fn runs_have_revision(runs: &Vec<Run>) -> (r: bool)
    ensures
        r == exists|i: int| 0 <= i < runs@.len() && (#[trigger] runs@[i]).revision is Some,
{
    let mut i: usize = 0;
    while i < runs.len()
        invariant
            i <= runs@.len(),
            forall|k: int| 0 <= k < i ==> (#[trigger] runs@[k]).revision is None,
        decreases runs@.len() - i,
    {
        if runs[i].revision.is_some() {
            return true;
        }
        i = i + 1;
    }
    false
}

/// The runs of a block marked inserted or deleted, nested tables included.
pub open spec fn revisions_in(b: Block) -> nat {
    crate::docx_inspect::rev_block(b, Revision::Inserted) + crate::docx_inspect::rev_block(b, Revision::Deleted)
}

proof fn lemma_rev_runs(rs: Seq<Run>, n: int)
    requires
        0 <= n <= rs.len(),
    ensures
        (crate::docx_inspect::rev_runs(rs, n, Revision::Inserted) + crate::docx_inspect::rev_runs(rs, n, Revision::Deleted) > 0)
            <==> exists|i: int| 0 <= i < n && (#[trigger] rs[i]).revision is Some,
    decreases n,
{
    if n > 0 {
        lemma_rev_runs(rs, n - 1);
        let ins = crate::docx_inspect::rev_runs(rs, n, Revision::Inserted);
        let del = crate::docx_inspect::rev_runs(rs, n, Revision::Deleted);
        let ins0 = crate::docx_inspect::rev_runs(rs, n - 1, Revision::Inserted);
        let del0 = crate::docx_inspect::rev_runs(rs, n - 1, Revision::Deleted);
        match rs[n - 1].revision {
            Some(Revision::Inserted) => {
                assert(ins == ins0 + 1);
                assert(rs[n - 1].revision is Some);
            },
            Some(Revision::Deleted) => {
                assert(del == del0 + 1);
                assert(rs[n - 1].revision is Some);
            },
            None => {
                assert(ins == ins0 && del == del0);
                if exists|i: int| 0 <= i < n && (#[trigger] rs[i]).revision is Some {
                    let i = choose|i: int| 0 <= i < n && (#[trigger] rs[i]).revision is Some;
                    assert(i < n - 1);
                }
                if exists|i: int| 0 <= i < n - 1 && (#[trigger] rs[i]).revision is Some {
                    let i = choose|i: int| 0 <= i < n - 1 && (#[trigger] rs[i]).revision is Some;
                    assert(0 <= i < n && rs[i].revision is Some);
                }
            },
        }
    }
}

proof fn lemma_rev_rows_mono(rs: Seq<TableRow>, a: int, b: int, k: Revision)
    requires
        0 <= a <= b <= rs.len(),
    ensures
        crate::docx_inspect::rev_rows(rs, a, k) <= crate::docx_inspect::rev_rows(rs, b, k),
    decreases b - a,
{
    if a < b {
        lemma_rev_rows_mono(rs, a, b - 1, k);
    }
}

proof fn lemma_rev_cells_mono(cs: Seq<TableCell>, a: int, b: int, k: Revision)
    requires
        0 <= a <= b <= cs.len(),
    ensures
        crate::docx_inspect::rev_cells(cs, a, k) <= crate::docx_inspect::rev_cells(cs, b, k),
    decreases b - a,
{
    if a < b {
        lemma_rev_cells_mono(cs, a, b - 1, k);
    }
}

proof fn lemma_rev_blocks_mono(bs: Seq<Block>, a: int, b: int, k: Revision)
    requires
        0 <= a <= b <= bs.len(),
    ensures
        crate::docx_inspect::rev_blocks(bs, a, k) <= crate::docx_inspect::rev_blocks(bs, b, k),
    decreases b - a,
{
    if a < b {
        lemma_rev_blocks_mono(bs, a, b - 1, k);
    }
}

/// Whether a block holds an inserted or deleted run (in a table: in any cell).
#[verifier::loop_isolation(false)]
fn has_revision(block: &Block) -> (r: bool)
    ensures
        r == (revisions_in(*block) > 0),
    decreases block,
{
    match block {
        Block::Paragraph(p) => {
            proof {
                lemma_rev_runs(p.runs@, p.runs@.len() as int);
            }
            runs_have_revision(&p.runs)
        },
        Block::Table(t) => {
            let mut i: usize = 0;
            while i < t.rows.len()
                invariant
                    i <= t.rows@.len(),
                    crate::docx_inspect::rev_rows(t.rows@, i as int, Revision::Inserted) == 0,
                    crate::docx_inspect::rev_rows(t.rows@, i as int, Revision::Deleted) == 0,
                decreases t.rows@.len() - i,
            {
                let row = &t.rows[i];
                let mut j: usize = 0;
                while j < row.cells.len()
                    invariant
                        i < t.rows@.len(),
                        j <= row.cells@.len(),
                        row == &t.rows@[i as int],
                        crate::docx_inspect::rev_rows(t.rows@, i as int, Revision::Inserted) == 0,
                        crate::docx_inspect::rev_rows(t.rows@, i as int, Revision::Deleted) == 0,
                        crate::docx_inspect::rev_cells(row.cells@, j as int, Revision::Inserted) == 0,
                        crate::docx_inspect::rev_cells(row.cells@, j as int, Revision::Deleted) == 0,
                    decreases row.cells@.len() - j,
                {
                    let c = &row.cells[j];
                    let mut k: usize = 0;
                    while k < c.blocks.len()
                        invariant
                            i < t.rows@.len(),
                            j < row.cells@.len(),
                            k <= c.blocks@.len(),
                            row == &t.rows@[i as int],
                            c == &row.cells@[j as int],
                            crate::docx_inspect::rev_rows(t.rows@, i as int, Revision::Inserted) == 0,
                            crate::docx_inspect::rev_rows(t.rows@, i as int, Revision::Deleted) == 0,
                            crate::docx_inspect::rev_cells(row.cells@, j as int, Revision::Inserted) == 0,
                            crate::docx_inspect::rev_cells(row.cells@, j as int, Revision::Deleted) == 0,
                            crate::docx_inspect::rev_blocks(c.blocks@, k as int, Revision::Inserted) == 0,
                            crate::docx_inspect::rev_blocks(c.blocks@, k as int, Revision::Deleted) == 0,
                        decreases c.blocks@.len() - k,
                    {
                        assert(decreases_to!(*block => c.blocks@[k as int])) by {
                            assert(decreases_to!(*block => *t));
                            assert(decreases_to!(*t => t.rows));
                            assert(decreases_to!(t.rows => t.rows@));
                            assert(decreases_to!(t.rows@ => t.rows@[i as int]));
                            assert(decreases_to!(t.rows@[i as int] => row.cells));
                            assert(decreases_to!(row.cells => row.cells@));
                            assert(decreases_to!(row.cells@ => row.cells@[j as int]));
                            assert(decreases_to!(row.cells@[j as int] => c.blocks));
                            assert(decreases_to!(c.blocks => c.blocks@));
                            assert(decreases_to!(c.blocks@ => c.blocks@[k as int]));
                        }
                        if has_revision(&c.blocks[k]) {
                            proof {
                                lemma_rev_blocks_mono(c.blocks@, k + 1, c.blocks@.len() as int, Revision::Inserted);
                                lemma_rev_blocks_mono(c.blocks@, k + 1, c.blocks@.len() as int, Revision::Deleted);
                                lemma_rev_cells_mono(row.cells@, j + 1, row.cells@.len() as int, Revision::Inserted);
                                lemma_rev_cells_mono(row.cells@, j + 1, row.cells@.len() as int, Revision::Deleted);
                                lemma_rev_rows_mono(t.rows@, i + 1, t.rows@.len() as int, Revision::Inserted);
                                lemma_rev_rows_mono(t.rows@, i + 1, t.rows@.len() as int, Revision::Deleted);
                            }
                            return true;
                        }
                        k = k + 1;
                    }
                    j = j + 1;
                }
                i = i + 1;
            }
            false
        },
    }
}

/// A cell holds a table.
fn cell_has_table(c: &TableCell) -> (r: bool)
    ensures
        r == exists|k: int| 0 <= k < c.blocks@.len() && (#[trigger] c.blocks@[k]) is Table,
{
    let mut k: usize = 0;
    while k < c.blocks.len()
        invariant
            k <= c.blocks@.len(),
            forall|j: int| 0 <= j < k ==> !((#[trigger] c.blocks@[j]) is Table),
        decreases c.blocks@.len() - k,
    {
        match &c.blocks[k] {
            Block::Table(_) => {
                return true;
            },
            _ => {},
        }
        k = k + 1;
    }
    false
}

fn is_vmerge(c: &TableCell, v: &str) -> (r: bool)
    ensures
        r == (c.v_merge matches Some(m) && m@ == v.spec_bytes()),
{
    match &c.v_merge {
        Some(m) => eq_str(m.as_slice(), v),
        None => false,
    }
}

/// The grid columns a cell covers.
pub open spec fn cell_span(c: TableCell) -> nat {
    match c.grid_span {
        Some(s) => s as nat,
        None => 1,
    }
}

/// The first grid column of cell `i` (0-based) of a row.
pub open spec fn grid_start(cs: Seq<TableCell>, i: int) -> nat
    decreases i,
{
    if i <= 0 {
        0
    } else {
        grid_start(cs, i - 1) + cell_span(cs[i - 1])
    }
}

/// The bound past which a grid column is not counted further.
pub open spec fn grid_bound() -> nat {
    0xffff_ffff_0000_0000
}

/// The grid columns `[start, end)` that cell `cell` (1-based) of a row covers.
#[verifier::rlimit(30)]
fn grid_range_of(row: &TableRow, cell: usize) -> (r: (u64, u64))
    ensures
        1 <= cell <= row.cells@.len() && grid_start(row.cells@, cell - 1) <= grid_bound() ==> r.0 == grid_start(
            row.cells@,
            cell - 1,
        ) && r.1 == grid_start(row.cells@, cell - 1) + cell_span(row.cells@[cell - 1]),
        !(1 <= cell <= row.cells@.len()) && (row.cells@.len() == 0 || grid_start(row.cells@, row.cells@.len() - 1)
            <= grid_bound()) ==> r.0 == grid_start(row.cells@, row.cells@.len() as int) && r.1 == r.0,
        !(1 <= cell <= row.cells@.len() && grid_start(row.cells@, cell - 1) <= grid_bound()) ==> r.0 == r.1,
{
    let mut start: u64 = 0;
    let mut i: usize = 0;
    while i < row.cells.len()
        invariant
            i <= row.cells@.len(),
            start == grid_start(row.cells@, i as int),
            forall|j: int| 0 <= j < i ==> grid_start(row.cells@, j) <= grid_bound(),
            1 <= cell <= row.cells@.len() ==> i < cell,
        decreases row.cells@.len() - i,
    {
        proof {
            lemma_grid_start_mono(row.cells@, i as int);
            lemma_grid_start_mono(row.cells@, row.cells@.len() - 1);
            if 1 <= cell {
                lemma_grid_start_mono(row.cells@, cell - 1);
            }
        }
        let span: u64 = match row.cells[i].grid_span {
            Some(s) => s as u64,
            None => 1,
        };
        if start > 0xffff_ffff_0000_0000u64 {
            return (start, start);
        }
        if i + 1 == cell {
            return (start, start + span);
        }
        start = start + span;
        i = i + 1;
    }
    proof {
        lemma_grid_start_mono(row.cells@, i as int);
    }
    (start, start)
}

/// Grid starts do not decrease, so one within the bound keeps all earlier ones within it.
proof fn lemma_grid_start_mono(cs: Seq<TableCell>, i: int)
    ensures
        forall|j: int| 0 <= j <= i ==> grid_start(cs, j) <= grid_start(cs, i),
    decreases i,
{
    if i > 0 {
        lemma_grid_start_mono(cs, i - 1);
    }
}

/// The cell of a row that covers exactly the grid columns `[g0, g1)`.
#[verifier::rlimit(40)]
fn cell_at_grid_range(row: &TableRow, g0: u64, g1: u64) -> (r: Option<usize>)
    ensures
        r matches Some(i) ==> i < row.cells@.len(),
        r matches Some(i) ==> grid_start(row.cells@, i as int) == g0 && grid_start(row.cells@, i as int) + cell_span(
            row.cells@[i as int],
        ) == g1 && forall|j: int| 0 <= j < i ==> !(grid_start(row.cells@, j) == g0 && grid_start(row.cells@, j)
            + cell_span(#[trigger] row.cells@[j]) == g1),
        r is None && (row.cells@.len() == 0 || grid_start(row.cells@, row.cells@.len() - 1) <= grid_bound())
            ==> forall|j: int| 0 <= j < row.cells@.len() ==> !(grid_start(row.cells@, j) == g0 && grid_start(
            row.cells@,
            j,
        ) + cell_span(#[trigger] row.cells@[j]) == g1),
{
    let mut start: u64 = 0;
    let mut i: usize = 0;
    while i < row.cells.len()
        invariant
            i <= row.cells@.len(),
            start == grid_start(row.cells@, i as int),
            forall|j: int| 0 <= j < i ==> !(grid_start(row.cells@, j) == g0 && grid_start(row.cells@, j)
                + cell_span(#[trigger] row.cells@[j]) == g1),
        decreases row.cells@.len() - i,
    {
        proof {
            lemma_grid_start_mono(row.cells@, row.cells@.len() - 1);
        }
        let span: u64 = match row.cells[i].grid_span {
            Some(s) => s as u64,
            None => 1,
        };
        if start > 0xffff_ffff_0000_0000u64 {
            return None;
        }
        if start == g0 && start + span == g1 {
            return Some(i);
        }
        start = start + span;
        i = i + 1;
    }
    None
}

/// `s` without its trailing line feeds.
pub open spec fn strip_newlines(s: Seq<u8>) -> Seq<u8>
    decreases s.len(),
{
    if s.len() > 0 && s.last() == 10u8 {
        strip_newlines(s.drop_last())
    } else {
        s
    }
}

/// The projected text of block `block` (1-based) without trailing line feeds.
pub open spec fn block_projection(body: Seq<Block>, block: int) -> Seq<u8> {
    strip_newlines(crate::docx_model::blocks_text_of(crate::docx_model::blocks_view(body.subrange(block - 1, block))))
}

/// The projected text of cell (`row`, `cell`) of table block `block` (all
/// 1-based), without trailing line feeds; empty where there is no such cell.
pub open spec fn cell_projection(body: Seq<Block>, block: int, row: int, cell: int) -> Seq<u8> {
    strip_newlines(
        match body[block - 1] {
            Block::Table(t) => if 1 <= row <= t.rows@.len() && 1 <= cell <= t.rows@[row - 1].cells@.len() {
                crate::docx_model::blocks_text_of(crate::docx_model::blocks_view(t.rows@[row - 1].cells@[cell - 1].blocks@))
            } else {
                seq![]
            },
            _ => seq![],
        },
    )
}

/// `s[0..k]` without trailing line feeds, as a position.
fn strip_newlines_len(s: &Vec<u8>) -> (k: usize)
    ensures
        k <= s@.len(),
        s@.subrange(0, k as int) == strip_newlines(s@),
{
    let n = s.len();
    let mut k = n;
    assert(s@.subrange(0, n as int) =~= s@);
    while k > 0 && s[k - 1] == 10
        invariant
            k <= n == s@.len(),
            strip_newlines(s@.subrange(0, k as int)) == strip_newlines(s@),
        decreases k,
    {
        assert(s@.subrange(0, k as int).drop_last() =~= s@.subrange(0, k - 1));
        k = k - 1;
    }
    k
}

/// The projected text of block `block` (1-based), first 60 characters.
fn projected_of(model: &DocxDocument, block: usize) -> (r: String)
    requires
        1 <= block <= model.body@.len(),
    ensures
        vstd::utf8::valid_utf8(block_projection(model.body@, block as int)) && crate::bytes_util::char_count(
            block_projection(model.body@, block as int),
        ) <= 60 ==> r@ == vstd::utf8::decode_utf8(block_projection(model.body@, block as int)),
{
    let mut s: Vec<u8> = Vec::new();
    blocks_text(&model.body.as_slice()[block - 1..block], &mut s);
    assert(s@ =~= crate::docx_model::blocks_text_of(crate::docx_model::blocks_view(model.body@.subrange(block - 1, block as int))));
    let k = strip_newlines_len(&s);
    let t = slice_vec(s.as_slice(), 0, k);
    truncate(t.as_slice(), 60)
}

/// The projected text of cell (`row`, `cell`) of table block `block`, first 60 characters.
fn cell_projected_of(model: &DocxDocument, block: usize, row: usize, cell: usize) -> (r: String)
    requires
        1 <= block <= model.body@.len(),
    ensures
        vstd::utf8::valid_utf8(cell_projection(model.body@, block as int, row as int, cell as int))
            && crate::bytes_util::char_count(cell_projection(model.body@, block as int, row as int, cell as int)) <= 60
            ==> r@ == vstd::utf8::decode_utf8(cell_projection(model.body@, block as int, row as int, cell as int)),
{
    let mut s: Vec<u8> = Vec::new();
    match &model.body[block - 1] {
        Block::Table(t) => {
            if row >= 1 && row <= t.rows.len() {
                let r = &t.rows[row - 1];
                if cell >= 1 && cell <= r.cells.len() {
                    blocks_text(r.cells[cell - 1].blocks.as_slice(), &mut s);
                }
            }
        },
        _ => {},
    }
    let k = strip_newlines_len(&s);
    let t = slice_vec(s.as_slice(), 0, k);
    truncate(t.as_slice(), 60)
}

// ---------------------------------------------------------------------------
// Checks on formats
// ---------------------------------------------------------------------------

/// An ASCII hex digit.
pub open spec fn is_hex(b: u8) -> bool {
    (48 <= b <= 57) || (65 <= b <= 70) || (97 <= b <= 102)
}

fn is_hex_digit(b: u8) -> (r: bool)
    ensures
        r == is_hex(b),
{
    (48 <= b && b <= 57) || (65 <= b && b <= 70) || (97 <= b && b <= 102)
}

/// The `w:jc` values a format edit accepts.
pub open spec fn known_align(a: Seq<u8>) -> bool {
    ||| a == "left".spec_bytes()
    ||| a == "center".spec_bytes()
    ||| a == "right".spec_bytes()
    ||| a == "both".spec_bytes()
    ||| a == "distribute".spec_bytes()
    ||| a == "start".spec_bytes()
    ||| a == "end".spec_bytes()
}

/// A format edit that [`validate_formats`] accepts: something to change (a
/// style counts), a known alignment, a first-line indent that is not
/// negative, a colour of six hex digits.
pub open spec fn formats_ok(para: Option<&ParaFormat>, ch: Option<&CharFormat>, style_present: bool) -> bool {
    let empty_para = match para {
        Some(p) => p.spec_is_empty(),
        None => true,
    };
    let empty_ch = match ch {
        Some(c) => c.spec_is_empty(),
        None => true,
    };
    &&& !(empty_para && empty_ch && !style_present)
    &&& match para {
        Some(p) => {
            &&& (p.align matches Some(a) ==> known_align(a@))
            &&& (p.indent_first_line_tw matches Some(v) ==> v >= 0)
        },
        None => true,
    }
    &&& match ch {
        Some(c) => (c.color matches Some(v) ==> (v@.len() == 6 && forall|i: int| 0 <= i < 6 ==> is_hex(#[trigger] v@[i]))),
        None => true,
    }
}

/// Checks the parts of a format edit that are not numbers in points (those
/// are checked, and converted, before the format is built): something to
/// change, a known alignment, a first-line indent that is not negative, a
/// colour of six hex digits.
pub fn validate_formats(para: Option<&ParaFormat>, ch: Option<&CharFormat>, style_present: bool, op_label: &str) -> (r: DocResult<()>)
    ensures
        r is Ok <==> formats_ok(para, ch, style_present),
        r matches Err(e) ==> e.kind == ErrorKind::Validation,
{
    let empty_para = match para {
        Some(p) => p.is_empty(),
        None => true,
    };
    let empty_ch = match ch {
        Some(c) => c.is_empty(),
        None => true,
    };
    if empty_para && empty_ch && !style_present {
        let mut m = str_bytes("空格式操作: ");
        push_str(&mut m, op_label);
        push_str(&mut m, " 未提供任何要修改的字段。paragraph（对齐/行距/段前后/缩进）与 character（粗斜/字号/颜色/字体）至少一项内有字段。");
        return Err(DocError::validation(m));
    }
    match para {
        Some(p) => {
            match &p.align {
                Some(v) => {
                    let a = v.as_slice();
                    if !(eq_str(a, "left") || eq_str(a, "center") || eq_str(a, "right") || eq_str(a, "both")
                        || eq_str(a, "distribute") || eq_str(a, "start") || eq_str(a, "end")) {
                        let mut m = str_bytes("对齐值无效: \"");
                        push_bytes(&mut m, a);
                        push_str(&mut m, "\"。可用 left/center/right/both(两端对齐)/distribute(分散对齐)/start/end。");
                        return Err(DocError::validation(m));
                    }
                },
                None => {},
            }
            match p.indent_first_line_tw {
                Some(v) => {
                    if v < 0 {
                        let mut m = str_bytes("缩进值无效: 首行缩进 first_line=");
                        crate::bytes_util::push_i64(&mut m, v as i64);
                        push_str(&mut m, "tw。应为非负 twips（1 字符 ≈ 240tw；悬挂缩进请在 Word 中或经样式设置）。");
                        return Err(DocError::validation(m));
                    }
                },
                None => {},
            }
        },
        None => {},
    }
    match ch {
        Some(c) => match &c.color {
            Some(v) => {
                let mut ok = v.len() == 6;
                let mut i: usize = 0;
                while i < v.len()
                    invariant
                        i <= v@.len(),
                        ok == (v@.len() == 6 && forall|k: int| 0 <= k < i ==> is_hex(#[trigger] v@[k])),
                    decreases v@.len() - i,
                {
                    if !is_hex_digit(v[i]) {
                        ok = false;
                    }
                    i = i + 1;
                }
                if !ok {
                    let mut m = str_bytes("颜色值无效: \"");
                    push_bytes(&mut m, v.as_slice());
                    push_str(&mut m, "\"。应为 6 位十六进制 RRGGBB（如 FF0000 红色）。");
                    return Err(DocError::validation(m));
                }
            },
            None => {},
        },
        None => {},
    }
    Ok(())
}

// ---------------------------------------------------------------------------
// Checking a batch before any change
// ---------------------------------------------------------------------------

fn vcontains(v: &Vec<usize>, x: usize) -> (r: bool)
    ensures
        r == v@.contains(x),
{
    let mut i: usize = 0;
    while i < v.len()
        invariant
            i <= v@.len(),
            forall|j: int| 0 <= j < i ==> v@[j] != x,
        decreases v@.len() - i,
    {
        if v[i] == x {
            return true;
        }
        i = i + 1;
    }
    false
}

fn verr(m: Vec<u8>) -> (r: DocResult<()>)
    ensures
        r matches Err(e) && e.kind == ErrorKind::Validation,
{
    Err(DocError::validation(m))
}

fn revision_error(block: usize, table: bool) -> (e: DocError)
    ensures
        e.kind == ErrorKind::Validation,
{
    let mut m = str_bytes("含修订标记: 块 ");
    push_usize(&mut m, block);
    if table {
        push_str(&mut m, "（表格）带插入/删除修订，默认不触碰修订内容。请先在 Word 中接受或拒绝修订后再编辑该表。");
    } else {
        push_str(&mut m, " 带插入/删除修订，默认不触碰修订内容。请先在 Word 中接受或拒绝修订后再编辑该块。");
    }
    DocError::validation(m)
}

fn ppr_change_error(block: usize, table: bool) -> (e: DocError)
    ensures
        e.kind == ErrorKind::Validation,
{
    let mut m = str_bytes("含修订标记: 块 ");
    push_usize(&mut m, block);
    if table {
        push_str(&mut m, "（表格）带段落属性修订（pPrChange），默认不触碰修订内容。请先在 Word 中接受或拒绝修订后再编辑该表。");
    } else {
        push_str(&mut m, " 带段落属性修订（pPrChange），默认不触碰修订内容。请先在 Word 中接受或拒绝修订后再编辑该块。");
    }
    DocError::validation(m)
}

fn unknown_style_error(name: &[u8], styles: &Stylesheet, hint: &str) -> (e: DocError)
    ensures
        e.kind == ErrorKind::Validation,
{
    let mut m = str_bytes("未知样式: \"");
    push_bytes(&mut m, name);
    push_str(&mut m, "\" 不在本文档样式表中。可用样式（前 20）: ");
    let names = styles.display_names_joined(20);
    push_bytes(&mut m, names.as_slice());
    push_str(&mut m, "。");
    push_str(&mut m, hint);
    DocError::validation(m)
}

fn not_table_error(block: usize, op_label: &str, hint: &str) -> (e: DocError)
    ensures
        e.kind == ErrorKind::Validation,
{
    let mut m = str_bytes("非表格块: 块 ");
    push_usize(&mut m, block);
    push_str(&mut m, " 是段落，");
    push_str(&mut m, op_label);
    push_str(&mut m, " 只作用于表格块。");
    push_str(&mut m, hint);
    DocError::validation(m)
}

/// Per table block of a batch: the cell count of each row, and for the rows
/// the batch adds, the row they clone.
pub struct TableState {
    pub block: usize,
    pub counts: Vec<usize>,
    pub tpls: Vec<Option<usize>>,
}

/// The index of the state of `block` in `ts`, made from table `t` when missing.
fn state_index(ts: &mut Vec<TableState>, block: usize, t: &Table) -> (r: usize)
    ensures
        r < final(ts)@.len(),
{
    let mut i: usize = 0;
    while i < ts.len()
        invariant
            i <= ts@.len(),
        decreases ts@.len() - i,
    {
        if ts[i].block == block {
            return i;
        }
        i = i + 1;
    }
    let mut counts: Vec<usize> = Vec::new();
    let mut tpls: Vec<Option<usize>> = Vec::new();
    let mut k: usize = 0;
    while k < t.rows.len()
        decreases t.rows@.len() - k,
    {
        counts.push(t.rows[k].cells.len());
        tpls.push(None);
        k = k + 1;
    }
    ts.push(TableState { block, counts, tpls });
    ts.len() - 1
}

/// Checks a cell target (shared by cell text, cell format and cell-level
/// property edits): a table block, a row and cell that exist (rows the batch
/// adds included), not a merged-away cell, no nested table, a paragraph to
/// take the format from, and no second edit of the same cell and target.
#[verifier::loop_isolation(false)]
fn precheck_cell_target(
    model: &DocxDocument,
    idx: usize,
    block: usize,
    row: usize,
    cell: usize,
    op_label: &str,
    target_key: &[u8],
    ts: &mut Vec<TableState>,
    used_cells: &mut Vec<(usize, usize, usize, Vec<u8>)>,
) -> (r: DocResult<()>)
    requires
        idx < model.body@.len(),
    ensures
        r matches Err(e) ==> e.kind == ErrorKind::Validation || e.kind == ErrorKind::Internal,
{
    let t = match &model.body[idx] {
        Block::Table(t) => t,
        _ => {
            return Err(not_table_error(block, op_label, "改段落文字用 replace_text；建表用 insert_table_after。"));
        },
    };
    let e = state_index(ts, block, t);
    let nrows = ts[e].counts.len();
    if row == 0 || row > nrows {
        let mut m = str_bytes("单元格越界: 块 ");
        push_usize(&mut m, block);
        push_str(&mut m, " 第 ");
        push_usize(&mut m, row);
        push_str(&mut m, " 行不存在（该表当前共 ");
        push_usize(&mut m, nrows);
        push_str(&mut m, " 行，1-based，含本批已增行）。网格视图用 inspect_docx projection=table 复核行列号。");
        return Err(DocError::validation(m));
    }
    let ncells = ts[e].counts[row - 1];
    if cell == 0 || cell > ncells {
        let mut m = str_bytes("单元格越界: 块 ");
        push_usize(&mut m, block);
        push_str(&mut m, " 第 ");
        push_usize(&mut m, row);
        push_str(&mut m, " 行第 ");
        push_usize(&mut m, cell);
        push_str(&mut m, " 格不存在（该行共 ");
        push_usize(&mut m, ncells);
        push_str(&mut m, " 格，1-based 按网格显示顺序数，跨列格占 1 个序号）。网格视图用 inspect_docx projection=table。");
        return Err(DocError::validation(m));
    }
    if row - 1 >= ts[e].tpls.len() {
        return Err(DocError::internal(str_bytes("批内表格状态不一致（内部 bug）")));
    }
    let virtual_row = ts[e].tpls[row - 1].is_some();
    let real_row = match ts[e].tpls[row - 1] {
        Some(x) => x,
        None => row,
    };
    if real_row == 0 || real_row > t.rows.len() || cell > t.rows[real_row - 1].cells.len() {
        return Err(DocError::internal(str_bytes("批内表格状态不一致（内部 bug）")));
    }
    let c = &t.rows[real_row - 1].cells[cell - 1];
    if is_vmerge(c, "continue") {
        let mut m = str_bytes("纵向合并续格: 块 ");
        push_usize(&mut m, block);
        push_str(&mut m, " 第 ");
        push_usize(&mut m, row);
        push_str(&mut m, " 行第 ");
        push_usize(&mut m, cell);
        push_str(&mut m, " 格是纵向合并的续格（显示「(续)」），其内容由上方合并头格统一持有。请对该列上方带「(合并头)」标记的格执行 ");
        push_str(&mut m, op_label);
        push_str(&mut m, "。");
        return Err(DocError::validation(m));
    }
    if cell_has_table(c) {
        let mut m = str_bytes("嵌套表: 块 ");
        push_usize(&mut m, block);
        push_str(&mut m, " 第 ");
        push_usize(&mut m, row);
        push_str(&mut m, " 行第 ");
        push_usize(&mut m, cell);
        push_str(&mut m, " 格内含表格，暂不支持嵌套表编辑。可用 delete_block 删整表后 insert_table_after 重建。");
        return Err(DocError::validation(m));
    }
    if !virtual_row && c.blocks.len() == 0 {
        let mut m = str_bytes("单元格结构异常: 块 ");
        push_usize(&mut m, block);
        push_str(&mut m, " 第 ");
        push_usize(&mut m, row);
        push_str(&mut m, " 行第 ");
        push_usize(&mut m, cell);
        push_str(&mut m, " 格无段落，套不了格式模板。请用 insert_table_row_after 重建该行。");
        return Err(DocError::validation(m));
    }
    let mut i: usize = 0;
    while i < used_cells.len()
        decreases used_cells@.len() - i,
    {
        let u = &used_cells[i];
        if u.0 == block && u.1 == row && u.2 == cell && crate::bytes_util::bytes_eq(u.3.as_slice(), target_key) {
            let mut m = str_bytes("同一格多操作: 块 ");
            push_usize(&mut m, block);
            push_str(&mut m, " 第 ");
            push_usize(&mut m, row);
            push_str(&mut m, " 行第 ");
            push_usize(&mut m, cell);
            push_str(&mut m, " 格");
            if target_key.len() > 0 {
                push_str(&mut m, "的 ");
                push_bytes(&mut m, target_key);
            }
            push_str(&mut m, "在本批中被多次引用。同格同目标每批限一条；同格多项表格属性用不同 element 的多条 set_table_element 组合（如 vAlign + tcBorders 一批）。");
            return Err(DocError::validation(m));
        }
        i = i + 1;
    }
    used_cells.push((block, row, cell, slice_vec(target_key, 0, target_key.len())));
    Ok(())
}

/// The row `row` (1-based) of a table, or the out-of-range refusal.
fn row_bounds(t: &Table, row: usize) -> (r: DocResult<usize>)
    ensures
        r matches Ok(i) ==> i < t.rows@.len() && i + 1 == row,
        r matches Err(e) ==> e.kind == ErrorKind::Validation,
{
    if row == 0 || row > t.rows.len() {
        let mut m = str_bytes("行号越界: row=");
        push_usize(&mut m, row);
        push_str(&mut m, " 不存在（该表共 ");
        push_usize(&mut m, t.rows.len());
        push_str(&mut m, " 行，1-based）。网格视图用 inspect_docx projection=table。");
        return Err(DocError::validation(m));
    }
    Ok(row - 1)
}

fn list_joined(list: &Vec<&'static str>) -> (r: Vec<u8>)
    ensures
        r@ == crate::bytes_util::joined(crate::bytes_util::str_views(list@), " ".spec_bytes()),
{
    let mut m: Vec<u8> = Vec::new();
    crate::bytes_util::push_joined_strs(&mut m, list, " ");
    assert(m@ =~= crate::bytes_util::joined(crate::bytes_util::str_views(list@), " ".spec_bytes()));
    m
}

/// Checks of a merge on the table model: the shapes of a line or a
/// rectangle, bounds, no merged or nested cells in the way, aligned grid
/// columns.
#[verifier::loop_isolation(false)]
fn precheck_merge(
    t: &Table,
    block: usize,
    direction: Option<MergeDirection>,
    row: usize,
    cell: usize,
    span: Option<usize>,
    end_row: Option<usize>,
    end_cell: Option<usize>,
) -> (r: DocResult<()>)
    ensures
        r matches Err(e) ==> e.kind == ErrorKind::Validation,
        r is Ok ==> (end_row matches Some(er) ==> (end_cell matches Some(ec) ==> (row <= er && cell <= ec
            && ec - cell < usize::MAX && er - row < usize::MAX))),
{
    let is_rect = end_row.is_some() || end_cell.is_some();
    if is_rect {
        if direction.is_some() || span.is_some() {
            return verr(str_bytes("参数冲突: 矩形合并（end_row+end_cell）不接受 direction/span。简单线并用 direction+span，矩形区用 end_row+end_cell，二选一。"));
        }
        let (er, ec) = match (end_row, end_cell) {
            (Some(er), Some(ec)) => (er, ec),
            _ => {
                return verr(str_bytes("参数缺失: 矩形合并须同时给 end_row 与 end_cell（区域右下角，与 (row,cell) 左上角配对）。"));
            },
        };
        if er < row || ec < cell || (er == row && ec == cell) || cell == 0 || row == 0 {
            let mut m = str_bytes("合并区域无效: (");
            push_usize(&mut m, row);
            push_str(&mut m, ",");
            push_usize(&mut m, cell);
            push_str(&mut m, ")..(");
            push_usize(&mut m, er);
            push_str(&mut m, ",");
            push_usize(&mut m, ec);
            push_str(&mut m, ") 不构成 ≥2 格的区域（end_row/end_cell 不得小于左上角，且区域至少 2 格）。网格视图用 inspect_docx projection=table。");
            return verr(m);
        }
        if er > t.rows.len() {
            let mut m = str_bytes("合并区域无效: end_row=");
            push_usize(&mut m, er);
            push_str(&mut m, " 越界（该表共 ");
            push_usize(&mut m, t.rows.len());
            push_str(&mut m, " 行，1-based）。");
            return verr(m);
        }
        let mut anchor: Option<(u64, u64)> = None;
        let count = er - row + 1;
        let mut kk: usize = 0;
        while kk < count
            invariant
                1 <= row <= er,
                count == er - row + 1,
                kk <= count,
                er <= t.rows@.len(),
                1 <= cell <= ec,
            decreases count - kk,
        {
            let r = row + kk;
            let rm = &t.rows[r - 1];
            if ec > rm.cells.len() {
                let mut m = str_bytes("合并区域无效: 第 ");
                push_usize(&mut m, r);
                push_str(&mut m, " 行共 ");
                push_usize(&mut m, rm.cells.len());
                push_str(&mut m, " 格，end_cell=");
                push_usize(&mut m, ec);
                push_str(&mut m, " 越界。网格视图用 inspect_docx projection=table。");
                return verr(m);
            }
            let mut w: u64 = 0;
            let mut k = cell - 1;
            while k < ec
                invariant
                    ec <= rm.cells@.len(),
                decreases ec - k,
            {
                let c = &rm.cells[k];
                if c.v_merge.is_some() {
                    let mut m = str_bytes("合并结构冲突: 第 ");
                    push_usize(&mut m, r);
                    push_str(&mut m, " 行区域内含纵向合并格（(合并头)/(续) 标记），向其扩展会破坏下方网格对齐。先 split_cell 拆纵并，或换不含合并格的区域。");
                    return verr(m);
                }
                if cell_has_table(c) {
                    let mut m = str_bytes("合并结构冲突: 第 ");
                    push_usize(&mut m, r);
                    push_str(&mut m, " 行区域内含嵌套表，暂不支持。");
                    return verr(m);
                }
                let gs: u64 = match c.grid_span {
                    Some(s) => s as u64,
                    None => 1,
                };
                if w < 0xffff_ffff_0000_0000u64 {
                    w = w + gs;
                }
                k = k + 1;
            }
            let (g0, _) = grid_range_of(rm, cell);
            match anchor {
                None => {
                    anchor = Some((g0, w));
                },
                Some((h0, hw)) => {
                    if !(h0 == g0 && hw == w) {
                        return verr(str_bytes("合并结构冲突: 各行区域边界的网格列不对齐（跨列格布局不同），无法合并成矩形。Word 同样拒绝这种合并。"));
                    }
                },
            }
            kk = kk + 1;
        }
        if ec - cell >= usize::MAX || er - row >= usize::MAX {
            return verr(str_bytes("合并区域无效: 区域过大。"));
        }
        return Ok(());
    }
    let dir = match direction {
        Some(d) => d,
        None => {
            if span.is_some() {
                return verr(str_bytes("参数冲突: span 须与 direction 同用（简单线并）。矩形区合并请改用 end_row+end_cell（不带 span）。"));
            }
            return verr(str_bytes("参数缺失: merge_cells 须给 direction（简单线并：horizontal/vertical + 可选 span）或 end_row+end_cell（矩形区域），二选一。"));
        },
    };
    let sp: usize = match span {
        Some(x) => x,
        None => 2,
    };
    if sp < 2 {
        let mut m = str_bytes("合并跨度无效: span=");
        push_usize(&mut m, sp);
        push_str(&mut m, "（≥2 才构成合并）。拆分已有合并用 split_cell。");
        return verr(m);
    }
    match dir {
        MergeDirection::Horizontal => {
            let ri = match row_bounds(t, row) {
                Ok(i) => i,
                Err(e) => return Err(e),
            };
            let rm = &t.rows[ri];
            if cell == 0 || cell - 1 >= rm.cells.len() || sp > rm.cells.len() - (cell - 1) {
                let mut m = str_bytes("合并跨度无效: 第 ");
                push_usize(&mut m, row);
                push_str(&mut m, " 行从格 ");
                push_usize(&mut m, cell);
                push_str(&mut m, " 起横并 ");
                push_usize(&mut m, sp);
                push_str(&mut m, " 格越界（该行共 ");
                push_usize(&mut m, rm.cells.len());
                push_str(&mut m, " 格，1-based，跨列格占 1 个序号）。网格视图用 inspect_docx projection=table。");
                return verr(m);
            }
            let mut k = cell - 1;
            while k < cell - 1 + sp
                decreases cell - 1 + sp - k,
            {
                let c = &rm.cells[k];
                if c.v_merge.is_some() {
                    return verr(str_bytes("合并结构冲突: 范围内含纵向合并格（(合并头)/(续) 标记），横并向其扩展会破坏下方网格对齐。先 split_cell 拆纵并，或换不含合并格的范围。"));
                }
                if cell_has_table(c) {
                    return verr(str_bytes("合并结构冲突: 范围内含嵌套表，暂不支持。"));
                }
                k = k + 1;
            }
        },
        MergeDirection::Vertical => {
            if row == 0 || row - 1 >= t.rows.len() || sp > t.rows.len() - (row - 1) {
                let mut m = str_bytes("合并跨度无效: 第 ");
                push_usize(&mut m, row);
                push_str(&mut m, " 行起纵并 ");
                push_usize(&mut m, sp);
                push_str(&mut m, " 行越界（该表共 ");
                push_usize(&mut m, t.rows.len());
                push_str(&mut m, " 行，1-based）。");
                return verr(m);
            }
            let head = &t.rows[row - 1];
            if cell == 0 || cell > head.cells.len() {
                let mut m = str_bytes("单元格越界: 块 ");
                push_usize(&mut m, block);
                push_str(&mut m, " 第 ");
                push_usize(&mut m, row);
                push_str(&mut m, " 行第 ");
                push_usize(&mut m, cell);
                push_str(&mut m, " 格不存在（该行共 ");
                push_usize(&mut m, head.cells.len());
                push_str(&mut m, " 格）。网格视图用 inspect_docx projection=table。");
                return verr(m);
            }
            if is_vmerge(&head.cells[cell - 1], "continue") {
                let mut m = str_bytes("纵向合并续格: 块 ");
                push_usize(&mut m, block);
                push_str(&mut m, " 第 ");
                push_usize(&mut m, row);
                push_str(&mut m, " 行第 ");
                push_usize(&mut m, cell);
                push_str(&mut m, " 格是续格（(续)），请对该列上方带「(合并头)」标记的格执行合并。");
                return verr(m);
            }
            if cell_has_table(&head.cells[cell - 1]) {
                return verr(str_bytes("合并结构冲突: 首格含嵌套表，暂不支持。"));
            }
            let (g0, g1) = grid_range_of(head, cell);
            let mut k2: usize = 1;
            while k2 < sp
                invariant
                    1 <= row,
                    1 <= k2 <= sp,
                    row - 1 + sp <= t.rows@.len(),
                decreases sp - k2,
            {
                let r2 = row + k2;
                match cell_at_grid_range(&t.rows[r2 - 1], g0, g1) {
                    None => {
                        let mut m = str_bytes("合并结构冲突: 第 ");
                        push_usize(&mut m, r2);
                        push_str(&mut m, " 行该列的格边界不对齐（跨列格布局不同），无法纵向合并。Word 同样拒绝这种合并。");
                        return verr(m);
                    },
                    Some(ci) => {
                        if cell_has_table(&t.rows[r2 - 1].cells[ci]) {
                            let mut m = str_bytes("合并结构冲突: 第 ");
                            push_usize(&mut m, r2);
                            push_str(&mut m, " 行该列含嵌套表，暂不支持。");
                            return verr(m);
                        }
                    },
                }
                k2 = k2 + 1;
            }
        },
    }
    Ok(())
}

/// Checks of a row deletion on the table model: a row that exists, not the
/// last one, and no merge head whose merge goes on below it.
#[verifier::loop_isolation(false)]
fn precheck_delete_row(t: &Table, block: usize, row: usize) -> (r: DocResult<()>)
    ensures
        r matches Err(e) ==> e.kind == ErrorKind::Validation,
{
    let ri = match row_bounds(t, row) {
        Ok(i) => i,
        Err(e) => return Err(e),
    };
    if t.rows.len() == 1 {
        return verr(str_bytes("空表保护: 该表仅剩此 1 行——删掉后成空表（非法结构）。要移除整个表请用 delete_block 删该表格块。"));
    }
    let rm = &t.rows[ri];
    let mut ci: usize = 0;
    while ci < rm.cells.len()
        decreases rm.cells@.len() - ci,
    {
        if is_vmerge(&rm.cells[ci], "restart") {
            let (g0, g1) = grid_range_of(rm, ci + 1);
            let mut orphan = false;
            let mut b = row;
            while b < t.rows.len()
                decreases t.rows@.len() - b,
            {
                let below = &t.rows[b];
                let mut bi: usize = 0;
                while bi < below.cells.len()
                    decreases below.cells@.len() - bi,
                {
                    if is_vmerge(&below.cells[bi], "continue") {
                        let (b0, b1) = grid_range_of(below, bi + 1);
                        if b0 < g1 && b1 > g0 {
                            orphan = true;
                        }
                    }
                    bi = bi + 1;
                }
                b = b + 1;
            }
            if orphan {
                let mut m = str_bytes("合并结构冲突: 块 ");
                push_usize(&mut m, block);
                push_str(&mut m, " 第 ");
                push_usize(&mut m, row);
                push_str(&mut m, " 行第 ");
                push_usize(&mut m, ci + 1);
                push_str(&mut m, " 格是纵向合并头（(合并头) 标记）且合并区延伸到下方行——删除该行会丢失合并格内容并孤儿化下方续格。请先 split_cell vertical 拆掉纵并链再删行，或改删合并区下方不含合并头的行。");
                return verr(m);
            }
        }
        ci = ci + 1;
    }
    Ok(())
}

/// The checks of one addressed operation on its block (index `idx`,
/// markup `block_xml`), after the bounds, lock and occupancy checks.
#[verifier::loop_isolation(false)]
fn precheck_op(
    op: &EditOp,
    idx: usize,
    block: usize,
    is_table: bool,
    block_xml: &[u8],
    model: &DocxDocument,
    styles: &Stylesheet,
    ts: &mut Vec<TableState>,
    used_cells: &mut Vec<(usize, usize, usize, Vec<u8>)>,
) -> (r: DocResult<()>)
    requires
        idx < model.body@.len(),
    ensures
        r matches Err(e) ==> e.kind == ErrorKind::Validation || e.kind == ErrorKind::Internal,
{
    match op {
        EditOp::DeleteBlock { .. } => {
            if has_revision(&model.body[idx]) {
                return Err(revision_error(block, false));
            }
            if contains(block_xml, "<w:sectPr".as_bytes()) {
                let mut m = str_bytes("节属性保护: 块 ");
                push_usize(&mut m, block);
                push_str(&mut m, " 含节属性（分节符载体），删除会破坏分节。请选择其他块操作。");
                return verr(m);
            }
        },
        EditOp::ReplaceText { .. } => {
            if has_revision(&model.body[idx]) {
                return Err(revision_error(block, false));
            }
        },
        EditOp::InsertParagraphAfter { style, .. } => {
            match style {
                Some(name) => {
                    if styles.id_of(name.as_str().as_bytes()).is_none() {
                        return Err(unknown_style_error(name.as_str().as_bytes(), styles,
                            "样式名来自 inspect_docx outline 的样式列；或省略 style 继承锚块格式。"));
                    }
                },
                None => {},
            }
        },
        EditOp::SetStyle { style, .. } => {
            if styles.id_of(style.as_str().as_bytes()).is_none() {
                return Err(unknown_style_error(style.as_str().as_bytes(), styles,
                    "样式名接受显示名或 ID，来自 inspect_docx outline 的样式列。"));
            }
            if has_revision(&model.body[idx]) {
                return Err(revision_error(block, false));
            }
            if contains(block_xml, "<w:pPrChange".as_bytes()) {
                return Err(ppr_change_error(block, false));
            }
        },
        EditOp::SetFormat { paragraph, character, .. } => {
            if has_revision(&model.body[idx]) {
                return Err(revision_error(block, false));
            }
            if contains(block_xml, "<w:pPrChange".as_bytes()) {
                return Err(ppr_change_error(block, false));
            }
            let pr = match paragraph {
                Some(p) => validate_formats(Some(p), match character {
                    Some(c) => Some(c),
                    None => None,
                }, false, "set_format"),
                None => validate_formats(None, match character {
                    Some(c) => Some(c),
                    None => None,
                }, false, "set_format"),
            };
            match pr {
                Err(e) => return Err(e),
                Ok(()) => {},
            }
        },
        EditOp::SetPprElement { element, xml, .. } => {
            if has_revision(&model.body[idx]) {
                return Err(revision_error(block, false));
            }
            if contains(block_xml, "<w:pPrChange".as_bytes()) {
                return Err(ppr_change_error(block, false));
            }
            let el = element.as_str().as_bytes();
            if eq_str(el, "sectPr") || eq_str(el, "pPrChange") {
                let mut m = str_bytes("受保护子元素: ");
                push_bytes(&mut m, el);
                push_str(&mut m, " 不开放通用元素操作（sectPr 是分节符载体，pPrChange 是修订记录）。修改分节结构不在支持范围；换段落样式请用 set_style。");
                return verr(m);
            }
            let list = ppr_elements();
            if position_in(&list, el).is_none() {
                let mut m = str_bytes("非法pPr子元素: \"");
                push_bytes(&mut m, el);
                push_str(&mut m, "\" 不在段落属性（pPr）法定子元素清单。合法元素（schema 序）: ");
                let j = list_joined(&list);
                push_bytes(&mut m, j.as_slice());
                push_str(&mut m, "。名称不带 w: 前缀；查现有元素原文用 inspect_docx projection=ppr。");
                return verr(m);
            }
            match xml {
                Some(x) => {
                    match validate_fragment(el, x.as_str().as_bytes(), "ppr") {
                        Err(e) => return Err(e),
                        Ok(()) => {},
                    }
                },
                None => {},
            }
        },
        EditOp::InsertTableAfter { rows, table_style, .. } => {
            match validate_table_rows(rows) {
                Err(e) => return Err(e),
                Ok(()) => {},
            }
            match table_style {
                Some(s) => {
                    let sb = s.as_str().as_bytes();
                    if styles.table_style_id(sb).is_none() {
                        if styles.id_of(sb).is_some() {
                            let mut m = str_bytes("类型不符: 样式 \"");
                            push_bytes(&mut m, sb);
                            push_str(&mut m, "\" 存在但不是表样式（w:type=table 的样式才能挂在表上）。表样式清单用 inspect_docx projection=styles 的 type 列筛选。");
                            return verr(m);
                        }
                        return Err(unknown_style_error(sb, styles,
                            "表样式清单用 inspect_docx projection=styles 的 type 列筛选；或省略 table_style 用默认全边框样式。"));
                    }
                },
                None => {},
            }
        },
        EditOp::SetCellText { row, cell, .. } => {
            if has_revision(&model.body[idx]) {
                return Err(revision_error(block, true));
            }
            let empty: Vec<u8> = Vec::new();
            return precheck_cell_target(model, idx, block, *row, *cell, "set_cell_text", empty.as_slice(), ts, used_cells);
        },
        EditOp::InsertTableRowAfter { after_row, cells, .. } => {
            let t = match &model.body[idx] {
                Block::Table(t) => t,
                _ => {
                    return Err(not_table_error(block, "insert_table_row_after", "建表用 insert_table_after。"));
                },
            };
            if has_revision(&model.body[idx]) {
                return Err(revision_error(block, true));
            }
            let e = state_index(ts, block, t);
            let nrows = ts[e].counts.len();
            let tpl_virtual = match after_row {
                Some(r) => *r,
                None => nrows,
            };
            if tpl_virtual == 0 || tpl_virtual > nrows {
                let mut m = str_bytes("行号越界: after_row=");
                push_usize(&mut m, tpl_virtual);
                push_str(&mut m, " 不存在（该表当前共 ");
                push_usize(&mut m, nrows);
                push_str(&mut m, " 行，1-based；缺省 = 末行后追加）。网格视图用 inspect_docx projection=table。");
                return verr(m);
            }
            if tpl_virtual - 1 >= ts[e].tpls.len() {
                return Err(DocError::internal(str_bytes("批内表格状态不一致（内部 bug）")));
            }
            let real_tpl = match ts[e].tpls[tpl_virtual - 1] {
                Some(x) => x,
                None => tpl_virtual,
            };
            if real_tpl == 0 || real_tpl > t.rows.len() {
                return Err(DocError::internal(str_bytes("批内表格状态不一致（内部 bug）")));
            }
            let tpl = &t.rows[real_tpl - 1];
            match cells {
                Some(cs) => {
                    if cs.len() != tpl.cells.len() {
                        let mut m = str_bytes("列数不符: cells 给了 ");
                        push_usize(&mut m, cs.len());
                        push_str(&mut m, " 格，模板行（第 ");
                        push_usize(&mut m, tpl_virtual);
                        push_str(&mut m, " 行）共 ");
                        push_usize(&mut m, tpl.cells.len());
                        push_str(&mut m, " 格（含跨列/合并格，各占 1 个序号）。请与网格视图对齐。");
                        return verr(m);
                    }
                },
                None => {},
            }
            let mut k: usize = 0;
            while k < tpl.cells.len()
                decreases tpl.cells@.len() - k,
            {
                if cell_has_table(&tpl.cells[k]) {
                    let mut m = str_bytes("嵌套表: 模板行（第 ");
                    push_usize(&mut m, tpl_virtual);
                    push_str(&mut m, " 行）内有格含表格，克隆会复制嵌套结构，暂不支持。请选无嵌套表的模板行。");
                    return verr(m);
                }
                k = k + 1;
            }
            let st = ts.remove(e);
            let TableState { block: sb, counts: mut c2, tpls: mut t2 } = st;
            c2.push(tpl.cells.len());
            t2.push(Some(real_tpl));
            ts.insert(e, TableState { block: sb, counts: c2, tpls: t2 });
        },
        EditOp::SetCellFormat { row, cell, paragraph, character, style, .. } => {
            if has_revision(&model.body[idx]) {
                return Err(revision_error(block, true));
            }
            if contains(block_xml, "<w:pPrChange".as_bytes()) {
                return Err(ppr_change_error(block, true));
            }
            match style {
                Some(name) => {
                    if styles.id_of(name.as_str().as_bytes()).is_none() {
                        return Err(unknown_style_error(name.as_str().as_bytes(), styles,
                            "样式名接受显示名或 ID，来自 inspect_docx outline 的样式列。"));
                    }
                },
                None => {},
            }
            let pr = match paragraph {
                Some(p) => validate_formats(Some(p), match character {
                    Some(c) => Some(c),
                    None => None,
                }, style.is_some(), "set_cell_format"),
                None => validate_formats(None, match character {
                    Some(c) => Some(c),
                    None => None,
                }, style.is_some(), "set_cell_format"),
            };
            match pr {
                Err(e) => return Err(e),
                Ok(()) => {},
            }
            let empty: Vec<u8> = Vec::new();
            return precheck_cell_target(model, idx, block, *row, *cell, "set_cell_format", empty.as_slice(), ts, used_cells);
        },
        EditOp::SetTableElement { level, row, cell, element, xml, .. } => {
            let t = match &model.body[idx] {
                Block::Table(t) => t,
                _ => {
                    return Err(not_table_error(block, "set_table_element", "表格属性编辑前请先用 inspect_docx projection=table 确认块号。"));
                },
            };
            if has_revision(&model.body[idx]) {
                return Err(revision_error(block, true));
            }
            let el = element.as_str().as_bytes();
            let (whitelist, container) = match level {
                TableLevel::Table => {
                    if row.is_some() || cell.is_some() {
                        return verr(str_bytes("参数校验失败: level=table 是表级属性，不接受 row/cell。行级/格级属性改用 level=row / level=cell。"));
                    }
                    (tblpr_elements(), "tblPr")
                },
                TableLevel::Row => {
                    let r = match row {
                        Some(r) => *r,
                        None => {
                            return verr(str_bytes("参数校验失败: level=row 需要 row（1-based 行号，与 projection=table 的 rN 同口径）。"));
                        },
                    };
                    if cell.is_some() {
                        return verr(str_bytes("参数校验失败: level=row 不接受 cell（格级属性用 level=cell + row + cell）。"));
                    }
                    let e = state_index(ts, block, t);
                    let nrows = ts[e].counts.len();
                    if r == 0 || r > nrows {
                        let mut m = str_bytes("行号越界: row=");
                        push_usize(&mut m, r);
                        push_str(&mut m, " 不存在（该表当前共 ");
                        push_usize(&mut m, nrows);
                        push_str(&mut m, " 行，1-based，含本批已增行）。网格视图用 inspect_docx projection=table。");
                        return verr(m);
                    }
                    (trpr_elements(), "trPr")
                },
                TableLevel::Cell => {
                    let (r, c) = match (row, cell) {
                        (Some(r), Some(c)) => (*r, *c),
                        _ => {
                            return verr(str_bytes("参数校验失败: level=cell 需要 row + cell（双 1-based，与 projection=table 的 rN / 格序同口径）。"));
                        },
                    };
                    match precheck_cell_target(model, idx, block, r, c, "set_table_element", el, ts, used_cells) {
                        Err(e) => return Err(e),
                        Ok(()) => {},
                    }
                    (tcpr_elements(), "tcPr")
                },
            };
            let prot = tcpr_protected();
            let is_cell = match level {
                TableLevel::Cell => true,
                _ => false,
            };
            if is_cell && position_in(&prot, el).is_some() {
                let mut m = str_bytes("受保护子元素: ");
                push_bytes(&mut m, el);
                push_str(&mut m, " 是单元格结构属性（与表格网格对齐耦合，硬改会产出Word 报损坏的文档）。合并/拆分单元格请用 merge_cells / split_cell。");
                return verr(m);
            }
            if position_in(&whitelist, el).is_none() {
                let mut m = str_bytes("非法子元素: \"");
                push_bytes(&mut m, el);
                push_str(&mut m, "\" 不在");
                push_str(&mut m, container);
                push_str(&mut m, "法定子元素清单。合法元素（schema 序）: ");
                let j = list_joined(&whitelist);
                push_bytes(&mut m, j.as_slice());
                push_str(&mut m, "。名称不带 w: 前缀；查现有元素原文用 inspect_docx projection=tblpr。");
                return verr(m);
            }
            match xml {
                Some(x) => {
                    match validate_fragment(el, x.as_str().as_bytes(), "tblpr") {
                        Err(e) => return Err(e),
                        Ok(()) => {},
                    }
                },
                None => {},
            }
        },
        EditOp::ClearBody { .. } => {},
        EditOp::MergeCells { direction, row, cell, span, end_row, end_cell, .. } => {
            let t = match &model.body[idx] {
                Block::Table(t) => t,
                _ => {
                    return Err(not_table_error(block, "merge_cells", ""));
                },
            };
            if has_revision(&model.body[idx]) {
                return Err(revision_error(block, true));
            }
            match precheck_merge(t, block, *direction, *row, *cell, *span, *end_row, *end_cell) {
                Err(e) => return Err(e),
                Ok(()) => {},
            }
        },
        EditOp::SplitCell { direction, row, cell, .. } => {
            let t = match &model.body[idx] {
                Block::Table(t) => t,
                _ => {
                    return Err(not_table_error(block, "split_cell", ""));
                },
            };
            if has_revision(&model.body[idx]) {
                return Err(revision_error(block, true));
            }
            let ri = match row_bounds(t, *row) {
                Ok(i) => i,
                Err(e) => return Err(e),
            };
            let rm = &t.rows[ri];
            if *cell == 0 || *cell > rm.cells.len() {
                let mut m = str_bytes("单元格越界: 块 ");
                push_usize(&mut m, block);
                push_str(&mut m, " 第 ");
                push_usize(&mut m, *row);
                push_str(&mut m, " 行第 ");
                push_usize(&mut m, *cell);
                push_str(&mut m, " 格不存在（该行共 ");
                push_usize(&mut m, rm.cells.len());
                push_str(&mut m, " 格）。网格视图用 inspect_docx projection=table。");
                return verr(m);
            }
            let c = &rm.cells[*cell - 1];
            match direction {
                MergeDirection::Vertical => {
                    if is_vmerge(c, "continue") {
                        let mut m = str_bytes("纵向合并续格: 块 ");
                        push_usize(&mut m, block);
                        push_str(&mut m, " 第 ");
                        push_usize(&mut m, *row);
                        push_str(&mut m, " 行第 ");
                        push_usize(&mut m, *cell);
                        push_str(&mut m, " 格是续格（(续)）。纵向拆分请对该列上方带「(合并头)」标记的格执行。");
                        return verr(m);
                    }
                    if !is_vmerge(c, "restart") {
                        let mut m = str_bytes("非合并格: 块 ");
                        push_usize(&mut m, block);
                        push_str(&mut m, " 第 ");
                        push_usize(&mut m, *row);
                        push_str(&mut m, " 行第 ");
                        push_usize(&mut m, *cell);
                        push_str(&mut m, " 格不是纵向合并头（无 (合并头) 标记），无可拆分的纵向合并。");
                        return verr(m);
                    }
                },
                MergeDirection::Horizontal => {
                    let gs = match c.grid_span {
                        Some(s) => s,
                        None => 1,
                    };
                    if gs < 2 {
                        let mut m = str_bytes("非合并格: 块 ");
                        push_usize(&mut m, block);
                        push_str(&mut m, " 第 ");
                        push_usize(&mut m, *row);
                        push_str(&mut m, " 行第 ");
                        push_usize(&mut m, *cell);
                        push_str(&mut m, " 格无横向跨列（无 (跨N列) 标记），无可拆分的横向合并。");
                        return verr(m);
                    }
                },
            }
        },
        EditOp::DeleteTableRow { row, .. } => {
            let t = match &model.body[idx] {
                Block::Table(t) => t,
                _ => {
                    return Err(not_table_error(block, "delete_table_row", "删段落块用 delete_block。"));
                },
            };
            if has_revision(&model.body[idx]) {
                return Err(revision_error(block, true));
            }
            match precheck_delete_row(t, block, *row) {
                Err(e) => return Err(e),
                Ok(()) => {},
            }
        },
    }
    let para_only = match op {
        EditOp::ReplaceText { .. } => true,
        EditOp::SetStyle { .. } => true,
        EditOp::SetFormat { .. } => true,
        EditOp::SetPprElement { .. } => true,
        _ => false,
    };
    if para_only && is_table {
        let mut m = str_bytes("表格块: 块 ");
        push_usize(&mut m, block);
        push_str(&mut m, " 是表格，该操作只支持段落。表格编辑请用：set_cell_text（改格文本）/ set_cell_format（格内文字格式）/ set_table_element（边框·底纹等表格属性）/ insert_table_row_after（增行）/ insert_table_after（建新表）/ merge_cells·split_cell（合并/拆分）；网格视图用 inspect_docx projection=table。");
        return verr(m);
    }
    Ok(())
}

// ---------------------------------------------------------------------------
// Applying a batch
// ---------------------------------------------------------------------------

/// An operation addresses a block within the document's numbering from 1
/// and within the lock `allowed` (clearing the body addresses none and is
/// refused under a lock).
pub open spec fn lock_ok(op: EditOp, allowed: Option<(usize, usize)>) -> bool {
    match op_block(op) {
        Some(b) => b >= 1 && match allowed {
            Some((lo, hi)) => lo <= b <= hi,
            None => true,
        },
        None => allowed is None,
    }
}

/// The changes a batch makes, before they are put together: per splice its
/// span of the input text and what replaces it; the summaries in input
/// order, each with the splice it belongs to.
pub struct Plan {
    pub pos: Vec<usize>,
    pub end: Vec<usize>,
    pub ins: Vec<Vec<u8>>,
    pub summaries: Vec<AppliedOp>,
    pub owners: Vec<usize>,
    pub table_idx: Vec<(usize, usize)>,
    pub insert_idx: Vec<(usize, usize)>,
}

/// The three lists of splices of a plan have one entry per splice.
pub open spec fn plan_wf(p: Plan) -> bool {
    p.pos@.len() == p.end@.len() && p.end@.len() == p.ins@.len()
}

/// `b` keeps the splice positions of `a` and adds splices within `reg` only.
pub open spec fn plan_grows(a: Plan, b: Plan, reg: (int, int)) -> bool {
    &&& plan_wf(b)
    &&& b.pos@.len() >= a.pos@.len()
    &&& forall|i: int| 0 <= i < a.pos@.len() ==> b.pos@[i] == a.pos@[i] && b.end@[i] == a.end@[i]
    &&& forall|i: int| a.pos@.len() <= i < b.pos@.len() ==> reg.0 <= b.pos@[i] && b.end@[i] <= reg.1
}

/// The bytes of `document.xml` an operation may rewrite: its block's span;
/// for an insertion, nothing: it goes in at the span's end and the anchor
/// stays as it is; for clearing the body, from the
/// first block to the last (at the end of the text when there is none).
/// An operation whose block does not exist has an empty region.
pub open spec fn op_region(op: EditOp, spans: Seq<BlockSpan>, len: int) -> (int, int) {
    match op_block(op) {
        Some(b) => if 1 <= b <= spans.len() {
            if op is InsertParagraphAfter || op is InsertTableAfter {
                (spans[b - 1].end as int, spans[b - 1].end as int)
            } else {
                (spans[b - 1].start as int, spans[b - 1].end as int)
            }
        } else {
            (1, 0)
        },
        None => if spans.len() > 0 {
            (spans[0].start as int, spans[spans.len() - 1].end as int)
        } else {
            (len, len)
        },
    }
}

/// The bytes from `p` to `e` lie in the region of `op`.
pub open spec fn in_region(op: EditOp, spans: Seq<BlockSpan>, len: int, p: int, e: int) -> bool {
    let reg = op_region(op, spans, len);
    reg.0 <= p && e <= reg.1
}

/// `xml` from `cursor` on, each edit `(p, e, ins)` in turn replacing the
/// bytes from `p` to `e` with `ins`.
pub open spec fn spliced(xml: Seq<u8>, edits: Seq<(int, int, Seq<u8>)>, cursor: int) -> Seq<u8>
    decreases edits.len(),
{
    if edits.len() == 0 {
        xml.subrange(cursor, xml.len() as int)
    } else {
        xml.subrange(cursor, edits[0].0) + edits[0].2 + spliced(xml, edits.drop_first(), edits[0].1)
    }
}

/// Edits in order of position, apart, within a text of `len` bytes.
pub open spec fn edits_ordered(edits: Seq<(int, int, Seq<u8>)>, len: int) -> bool {
    forall|k: int| 0 <= k < edits.len() ==> {
        &&& 0 <= (#[trigger] edits[k]).0 <= edits[k].1 <= len
        &&& k + 1 < edits.len() ==> edits[k].1 <= edits[k + 1].0
    }
}

/// `out` is `xml` with the given edits, each inside the region of an operation of `ops`.
pub open spec fn confined_by(
    xml: Seq<u8>,
    ops: Seq<EditOp>,
    spans: Seq<BlockSpan>,
    sheet: Seq<StyleV>,
    out: Seq<u8>,
    edits: Seq<(int, int, Seq<u8>)>,
) -> bool {
    &&& edits_ordered(edits, xml.len() as int)
    &&& out == spliced(xml, edits, 0)
    &&& forall|k: int| 0 <= k < edits.len() ==> covered(ops, ops.len() as int, spans, xml.len() as int, (#[trigger] edits[k]).0, edits[k].1)
    &&& effects_done(xml, ops, spans, sheet, edits)
}

/// Every deletion removes exactly its block's bytes, and every text
/// replacement puts the rebuilt paragraph in place of its block's bytes.
pub open spec fn effects_done(
    xml: Seq<u8>,
    ops: Seq<EditOp>,
    spans: Seq<BlockSpan>,
    sheet: Seq<StyleV>,
    edits: Seq<(int, int, Seq<u8>)>,
) -> bool {
    forall|q: int| 0 <= q < ops.len() ==> (op_effect(#[trigger] ops[q], xml, spans, sheet) matches Some(e) ==> edits.contains(e))
}

/// `out` differs from `xml` only inside the blocks that `ops` address (for
/// an insertion, at its anchor's end; for clearing the body, between the
/// first block and the last): everything else is copied as it stands. Each
/// deletion removes exactly its block, each text replacement puts its
/// block's paragraph rebuilt with the new text in the block's place, and
/// clearing the body keeps only the blocks holding section properties.
pub open spec fn confined_edit(xml: Seq<u8>, ops: Seq<EditOp>, sheet: Seq<StyleV>, out: Seq<u8>) -> bool {
    match crate::locate::spec_locate(xml) {
        Some(spans) => exists|edits: Seq<(int, int, Seq<u8>)>| #[trigger] confined_by(xml, ops, spans, sheet, out, edits),
        None => false,
    }
}

/// The value of the first entry of `v[k..]` keyed `block`.
pub open spec fn entry_from(v: Seq<(usize, usize)>, block: usize, k: int) -> Option<usize>
    decreases v.len() - k,
{
    if k < 0 || k >= v.len() {
        None
    } else if v[k].0 == block {
        Some(v[k].1)
    } else {
        entry_from(v, block, k + 1)
    }
}

fn find_entry(v: &Vec<(usize, usize)>, block: usize) -> (r: Option<usize>)
    ensures
        r == entry_from(v@, block, 0),
{
    let mut i: usize = 0;
    while i < v.len()
        invariant
            i <= v@.len(),
            entry_from(v@, block, i as int) == entry_from(v@, block, 0),
        decreases v@.len() - i,
    {
        if v[i].0 == block {
            return Some(v[i].1);
        }
        i = i + 1;
    }
    None
}

fn internal(m: &str) -> (e: DocError)
    ensures
        e.kind == ErrorKind::Internal,
{
    DocError::internal(str_bytes(m))
}

fn summary(op: &'static str, block: usize, before: String, after: String) -> (a: AppliedOp)
    ensures
        a.op == op,
        a.block == block,
        a.before@ == before@,
        a.after@ == after@,
        a.style is None,
        a.style_unchanged is None,
        a.target is None,
{
    AppliedOp { op, block, before, after, style: None, style_unchanged: None, target: None }
}

fn string_of(v: &[u8]) -> (r: String)
    ensures
        vstd::utf8::valid_utf8(v@) ==> r@ == vstd::utf8::decode_utf8(v@),
{
    bytes_to_string(v)
}

/// The shared splices a plan records are splices it holds.
pub open spec fn idx_ok(p: Plan) -> bool {
    &&& forall|j: int| 0 <= j < p.insert_idx@.len() ==> (#[trigger] p.insert_idx@[j]).1 < p.ins@.len()
    &&& forall|j: int| 0 <= j < p.table_idx@.len() ==> (#[trigger] p.table_idx@[j]).1 < p.ins@.len()
}

/// Splice `i` of a plan can still be rewritten by a later operation: it is
/// the shared splice of an anchor's insertions or of a table.
#[verifier::opaque]
pub open spec fn mutable(p: Plan, i: int) -> bool {
    ||| exists|j: int| 0 <= j < p.insert_idx@.len() && (#[trigger] p.insert_idx@[j]).1 == i
    ||| exists|j: int| 0 <= j < p.table_idx@.len() && (#[trigger] p.table_idx@[j]).1 == i
}

/// `b` keeps every splice of `a` that no later operation may rewrite.
pub open spec fn frozen_kept(a: Plan, b: Plan) -> bool {
    &&& b.ins@.len() >= a.ins@.len()
    &&& forall|i: int| #![trigger mutable(b, i)] 0 <= i < a.ins@.len() && !mutable(a, i) ==> !mutable(b, i)
    &&& forall|i: int| #![trigger b.ins@[i]] 0 <= i < a.ins@.len() && !mutable(a, i) ==> b.ins@[i] == a.ins@[i]
}


fn push_splice(plan: &mut Plan, pos: usize, end: usize, ins: Vec<u8>, s: AppliedOp)
    ensures
        final(plan).pos@ == old(plan).pos@.push(pos),
        final(plan).end@ == old(plan).end@.push(end),
        final(plan).ins@ == old(plan).ins@.push(ins),
        final(plan).insert_idx@ == old(plan).insert_idx@,
        final(plan).table_idx@ == old(plan).table_idx@,
        idx_ok(*old(plan)) ==> idx_ok(*final(plan)) && frozen_kept(*old(plan), *final(plan)) && !mutable(
            *final(plan),
            old(plan).ins@.len() as int,
        ),
        final(plan).ins@.len() == old(plan).ins@.len() + 1,
        final(plan).summaries@.len() == old(plan).summaries@.len() + 1,
{
    plan.pos.push(pos);
    plan.end.push(end);
    plan.ins.push(ins);
    plan.summaries.push(s);
    plan.owners.push(plan.pos.len() - 1);
    proof {
        reveal(mutable);
    }
}

/// The splice of a table block shared by the table edits of a batch, made
/// from the block's text at its first use.
proof fn lemma_entry_from(v: Seq<(usize, usize)>, block: usize, k: int)
    requires
        0 <= k,
    ensures
        entry_from(v, block, k) matches Some(i) ==> exists|j: int| k <= j < v.len() && (#[trigger] v[j]).1 == i,
    decreases v.len() - k,
{
    if k < v.len() {
        lemma_entry_from(v, block, k + 1);
    }
}

fn table_entry(plan: &mut Plan, block: usize, xml: &[u8], span: BlockSpan) -> (r: DocResult<usize>)
    requires
        span.start <= span.end <= xml@.len(),
    ensures
        r matches Ok(i) ==> i < final(plan).ins@.len(),
        r matches Ok(i) ==> mutable(*final(plan), i as int),
        plan_wf(*old(plan)) && idx_ok(*old(plan)) ==> idx_ok(*final(plan)) && frozen_kept(*old(plan), *final(plan)),
        final(plan).insert_idx@ == old(plan).insert_idx@,
        r matches Err(e) ==> e.kind == ErrorKind::Internal,
        plan_wf(*old(plan)) ==> plan_grows(*old(plan), *final(plan), (span.start as int, span.end as int)),
        final(plan).summaries@.len() == old(plan).summaries@.len(),
{
    proof {
        lemma_entry_from(plan.table_idx@, block, 0);
    }
    match find_entry(&plan.table_idx, block) {
        Some(i) => {
            if i < plan.ins.len() {
                proof {
                    reveal(mutable);
                }
                assert(mutable(*plan, i as int));
                Ok(i)
            } else {
                Err(internal("批内计划不一致（内部 bug）"))
            }
        },
        None => {
            plan.pos.push(span.start);
            plan.end.push(span.end);
            plan.ins.push(slice_vec(xml, span.start, span.end));
            let i = plan.ins.len() - 1;
            plan.table_idx.push((block, i));
            proof {
                reveal(mutable);
                        assert(plan.table_idx@[plan.table_idx@.len() - 1].1 == i);
            }
            Ok(i)
        },
    }
}

fn set_ins(plan: &mut Plan, i: usize, v: Vec<u8>, s: AppliedOp)
    requires
        i < old(plan).ins@.len(),
        mutable(*old(plan), i as int),
    ensures
        frozen_kept(*old(plan), *final(plan)),
        idx_ok(*old(plan)) ==> idx_ok(*final(plan)),
        final(plan).insert_idx@ == old(plan).insert_idx@,
        final(plan).table_idx@ == old(plan).table_idx@,
        final(plan).pos@ == old(plan).pos@,
        final(plan).end@ == old(plan).end@,
        final(plan).ins@.len() == old(plan).ins@.len(),
        final(plan).summaries@.len() == old(plan).summaries@.len() + 1,
{
    plan.ins.set(i, v);
    plan.summaries.push(s);
    plan.owners.push(i);
    proof {
        reveal(mutable);
    }
}

/// Adds the shared splice of an anchor's insertions.
fn push_insert_splice(plan: &mut Plan, pos: usize, ins: Vec<u8>, s: AppliedOp, block: usize)
    ensures
        final(plan).pos@ == old(plan).pos@.push(pos),
        final(plan).end@ == old(plan).end@.push(pos),
        final(plan).ins@.len() == old(plan).ins@.len() + 1,
        final(plan).summaries@.len() == old(plan).summaries@.len() + 1,
        final(plan).table_idx@ == old(plan).table_idx@,
        plan_wf(*old(plan)) && idx_ok(*old(plan)) ==> idx_ok(*final(plan)) && frozen_kept(*old(plan), *final(plan)),
{
    let ghost p0 = *plan;
    push_splice(plan, pos, pos, ins, s);
    let ghost p1 = *plan;
    let i = plan.pos.len() - 1;
    plan.insert_idx.push((block, i));
    proof {
        if idx_ok(p0) && plan_wf(p0) {
                reveal(mutable);
            assert forall|k: int| 0 <= k < p0.ins@.len() && !mutable(p0, k) implies !mutable(*plan, k) && #[trigger] plan.ins@[k]
                == p0.ins@[k] by {
                assert(!mutable(p1, k));
                assert forall|j: int| 0 <= j < plan.insert_idx@.len() implies (#[trigger] plan.insert_idx@[j]).1 != k by {
                    if j < p1.insert_idx@.len() {
                        assert(plan.insert_idx@[j] == p1.insert_idx@[j]);
                    }
                }
            }
        }
    }
}

fn trimmed_string(t: &[u8]) -> (r: String)
    ensures
        vstd::utf8::valid_utf8(t@) && crate::bytes_util::char_count(t@) <= 60 ==> r@ == vstd::utf8::decode_utf8(t@),
{
    truncate(t, 60)
}

/// The first `k` blocks that hold section properties, their texts in order.
pub open spec fn kept_sections(xml: Seq<u8>, spans: Seq<BlockSpan>, k: int) -> Seq<u8>
    decreases k,
{
    if k <= 0 {
        seq![]
    } else {
        let b = xml.subrange(spans[k - 1].start as int, spans[k - 1].end as int);
        kept_sections(xml, spans, k - 1) + if crate::bytes_util::occurs(b, "<w:sectPr".spec_bytes()) {
            b
        } else {
            seq![]
        }
    }
}

/// A paragraph with its paragraph properties and then its runs reformatted,
/// as far as each format is given.
pub open spec fn spec_reformat(b: Seq<u8>, paragraph: Option<ParaFormat>, character: Option<CharFormat>) -> Option<Seq<u8>> {
    let b1 = match paragraph {
        Some(pf) => crate::docx_edit::spec_reformat_ppr(b, pf),
        None => Some(b),
    };
    match b1 {
        Some(x) => match character {
            Some(cf) => crate::docx_edit::spec_reformat_runs(x, cf),
            None => Some(x),
        },
        None => None,
    }
}

/// The style ID a style reference names in a sheet: the reference itself
/// when it is an ID, else the ID of the first style displayed under it.
pub open spec fn spec_style_ref(sheet: Seq<StyleV>, style: Seq<u8>) -> Option<Seq<u8>> {
    match crate::styles::index_of_id(sheet, style, 0) {
        Some(_) => Some(style),
        None => match crate::styles::index_of_name(sheet, style, 0) {
            Some(j) => Some(sheet[j].id),
            None => None,
        },
    }
}

/// The splice a deletion, a text replacement, a style change, a format change,
/// a paragraph-property element change or clearing the body makes: the
/// block's span and nothing, the paragraph rebuilt with the new text, the
/// paragraph with its style set to the style the reference names, with its
/// formats applied, or with the element set or removed (unchanged when an
/// element to remove is absent); for
/// clearing, everything from the first block to the end of the last, in
/// place of which the blocks holding section properties stay, in order (an
/// empty body: nothing at the end of the text). Other operations: none.
pub open spec fn op_effect(op: EditOp, xml: Seq<u8>, spans: Seq<BlockSpan>, sheet: Seq<StyleV>) -> Option<(int, int, Seq<u8>)> {
    match op {
        EditOp::SetPprElement { block, element, xml: frag, .. } => if 1 <= block <= spans.len() {
            let sp = spans[block - 1];
            let fv = match frag {
                Some(f) => Some(vstd::utf8::encode_utf8(f@)),
                None => None,
            };
            match crate::docx_edit::spec_set_ppr_element(
                xml.subrange(sp.start as int, sp.end as int),
                vstd::utf8::encode_utf8(element@),
                fv,
            ) {
                Some((v, _)) => Some((sp.start as int, sp.end as int, v)),
                None => None,
            }
        } else {
            None
        },
        EditOp::SetFormat { block, paragraph, character, .. } => if 1 <= block <= spans.len() {
            let sp = spans[block - 1];
            match spec_reformat(xml.subrange(sp.start as int, sp.end as int), paragraph, character) {
                Some(v) => Some((sp.start as int, sp.end as int, v)),
                None => None,
            }
        } else {
            None
        },
        EditOp::SetStyle { block, style, .. } => if 1 <= block <= spans.len() {
            let sp = spans[block - 1];
            match spec_style_ref(sheet, vstd::utf8::encode_utf8(style@)) {
                Some(sid) => match crate::docx_edit::spec_restyle(xml.subrange(sp.start as int, sp.end as int), sid) {
                    Some(v) => Some((sp.start as int, sp.end as int, v)),
                    None => None,
                },
                None => None,
            }
        } else {
            None
        },
        EditOp::ClearBody { .. } => if spans.len() > 0 {
            Some((spans[0].start as int, spans[spans.len() - 1].end as int, kept_sections(xml, spans, spans.len() as int)))
        } else {
            Some((xml.len() as int, xml.len() as int, seq![]))
        },
        EditOp::DeleteBlock { block, .. } => if 1 <= block <= spans.len() {
            Some((spans[block - 1].start as int, spans[block - 1].end as int, seq![]))
        } else {
            None
        },
        EditOp::ReplaceText { block, new_text, .. } => if 1 <= block <= spans.len() {
            let sp = spans[block - 1];
            Some((sp.start as int, sp.end as int, crate::docx_edit::spec_rebuild_paragraph(
                xml.subrange(sp.start as int, sp.end as int),
                Some(vstd::utf8::encode_utf8(new_text@)),
            )))
        } else {
            None
        },
        _ => None,
    }
}

proof fn lemma_frozen_chain(a: Plan, b: Plan, c: Plan)
    requires
        frozen_kept(a, b),
        frozen_kept(b, c),
    ensures
        frozen_kept(a, c),
{
    assert forall|i: int| 0 <= i < a.ins@.len() && !mutable(a, i) implies #[trigger] c.ins@[i] == a.ins@[i] by {
        assert(b.ins@[i] == a.ins@[i]);
        assert(!mutable(b, i));
        assert(c.ins@[i] == b.ins@[i]);
    }
}

/// Plans one checked table operation on block `block`, whose span is `span`
/// and whose text is `bxml`.
#[verifier::loop_isolation(false)]
#[verifier::rlimit(60)]
#[verifier::spinoff_prover]
fn plan_table_op(
    plan: &mut Plan,
    op: &EditOp,
    xml: &[u8],
    span: BlockSpan,
    bxml: &[u8],
    block: usize,
    model: &DocxDocument,
    styles: &Stylesheet,
) -> (r: DocResult<()>)
    requires
        span.start <= span.end <= xml@.len(),
        bxml@ == xml@.subrange(span.start as int, span.end as int),
        1 <= block <= model.body@.len(),
        plan_wf(*old(plan)),
        idx_ok(*old(plan)),
    ensures
        r matches Err(e) ==> e.kind == ErrorKind::Internal,
        r is Ok ==> plan_grows(*old(plan), *final(plan), (span.start as int, span.end as int)),
        r is Ok ==> final(plan).summaries@.len() == old(plan).summaries@.len() + 1,
        r is Ok ==> idx_ok(*final(plan)) && frozen_kept(*old(plan), *final(plan)),
{
    let ghost p0 = *plan;
    match op {
        EditOp::SetCellText { row, cell, text, .. } => {
        let i = match table_entry(plan, block, xml, span) {
            Ok(i) => i,
            Err(e) => return Err(e),
        };
        let ghost p1 = *plan;
        let nx = match set_cell_text(plan.ins[i].as_slice(), *row, *cell, text.as_str().as_bytes()) {
            Some(x) => x,
            None => {
            let mut m = str_bytes("单元格手术失败: 块 ");
            push_usize(&mut m, block);
            push_str(&mut m, " 第 ");
            push_usize(&mut m, *row);
            push_str(&mut m, " 行第 ");
            push_usize(&mut m, *cell);
            push_str(&mut m, " 格 XML 形态异常（内部 bug，未写盘）");
            return Err(DocError::internal(m));
            },
        };
        let s = summary("set_cell_text", block, cell_projected_of(model, block, *row, *cell), trimmed_string(text.as_str().as_bytes()));
        set_ins(plan, i, nx, s);
        proof {
            lemma_frozen_chain(p0, p1, *plan);
        }
        },
    EditOp::InsertTableRowAfter { after_row, cells, .. } => {
        let i = match table_entry(plan, block, xml, span) {
            Ok(i) => i,
            Err(e) => return Err(e),
        };
        let ghost p1 = *plan;
        let res = match cells {
            Some(cs) => insert_table_row_after(plan.ins[i].as_slice(), *after_row, Some(cs)),
            None => insert_table_row_after(plan.ins[i].as_slice(), *after_row, None),
        };
        let nx = match res {
            Some(x) => x,
            None => {
            let mut m = str_bytes("表格增行失败: 块 ");
            push_usize(&mut m, block);
            push_str(&mut m, " XML 形态异常（内部 bug，未写盘）");
            return Err(DocError::internal(m));
            },
        };
        let filled = match cells {
            Some(cs) => cs.len(),
            None => 0,
        };
        let mut after = str_bytes("克隆第 ");
        match after_row {
            Some(r) => push_usize(&mut after, *r),
            None => push_str(&mut after, "末行"),
        }
        push_str(&mut after, " 行插入（");
        if filled > 0 {
            push_usize(&mut after, filled);
            push_str(&mut after, " 格已填");
        } else {
            push_str(&mut after, "空行");
        }
        push_str(&mut after, "）");
        let s = summary("insert_table_row_after", block, projected_of(model, block), string_of(after.as_slice()));
        set_ins(plan, i, nx, s);
        proof {
            lemma_frozen_chain(p0, p1, *plan);
        }
        },
    EditOp::SetCellFormat { row, cell, paragraph, character, style, summary: note, .. } => {
        let i = match table_entry(plan, block, xml, span) {
            Ok(i) => i,
            Err(e) => return Err(e),
        };
        let ghost p1 = *plan;
        let sid = match style {
            Some(name) => match styles.id_of(name.as_str().as_bytes()) {
            Some(x) => Some(x),
            None => return Err(internal("样式已在预检中校验（内部 bug）")),
            },
            None => None,
        };
        let pr: Option<&ParaFormat> = match paragraph {
            Some(p) => Some(p),
            None => None,
        };
        let cr: Option<&CharFormat> = match character {
            Some(c) => Some(c),
            None => None,
        };
        let res = match &sid {
            Some(id) => set_cell_format_xml(plan.ins[i].as_slice(), *row, *cell, pr, cr, Some(id.as_slice())),
            None => set_cell_format_xml(plan.ins[i].as_slice(), *row, *cell, pr, cr, None),
        };
        let nx = match res {
            Some(x) => x,
            None => {
            let mut m = str_bytes("格内格式手术失败: 块 ");
            push_usize(&mut m, block);
            push_str(&mut m, " 第 ");
            push_usize(&mut m, *row);
            push_str(&mut m, " 行第 ");
            push_usize(&mut m, *cell);
            push_str(&mut m, " 格 XML 形态异常（内部 bug，未写盘）");
            return Err(DocError::internal(m));
            },
        };
        let fmts = note.as_str().as_bytes();
        let mut after: Vec<u8> = Vec::new();
        match style {
            Some(name) => {
            push_str(&mut after, "样式=");
            push_str(&mut after, name.as_str());
            if !eq_str(fmts, "（无字段）") {
                push_str(&mut after, " ");
                push_bytes(&mut after, fmts);
            }
            },
            None => push_bytes(&mut after, fmts),
        }
        let s = AppliedOp {
            op: "set_cell_format",
            block,
            before: cell_projected_of(model, block, *row, *cell),
            after: trimmed_string(after.as_slice()),
            style: match &sid {
            Some(id) => Some(string_of(id.as_slice())),
            None => None,
            },
            style_unchanged: None,
            target: None,
        };
        set_ins(plan, i, nx, s);
        proof {
            lemma_frozen_chain(p0, p1, *plan);
        }
        },
    EditOp::SetTableElement { level, row, cell, element, xml: frag, .. } => {
        let i = match table_entry(plan, block, xml, span) {
            Ok(i) => i,
            Err(e) => return Err(e),
        };
        let ghost p1 = *plan;
        let el = element.as_str().as_bytes();
        let res = match frag {
            Some(f) => set_table_element_xml(plan.ins[i].as_slice(), *level, *row, *cell, el, Some(f.as_str().as_bytes())),
            None => set_table_element_xml(plan.ins[i].as_slice(), *level, *row, *cell, el, None),
        };
        let (nx, changed) = match res {
            Some(x) => x,
            None => {
            let mut m = str_bytes("表格属性手术失败: 块 ");
            push_usize(&mut m, block);
            push_str(&mut m, " XML 形态异常（内部 bug，未写盘）");
            return Err(DocError::internal(m));
            },
        };
        let mut where_at: Vec<u8> = Vec::new();
        match (level, row, cell) {
            (TableLevel::Table, _, _) => push_str(&mut where_at, "table"),
            (TableLevel::Row, Some(r), _) => {
            push_str(&mut where_at, "r");
            push_usize(&mut where_at, *r);
            },
            (TableLevel::Cell, Some(r), Some(c)) => {
            push_str(&mut where_at, "r");
            push_usize(&mut where_at, *r);
            push_str(&mut where_at, "c");
            push_usize(&mut where_at, *c);
            },
            _ => {},
        }
        let mut after: Vec<u8> = Vec::new();
        if changed {
            if frag.is_none() {
            push_str(&mut after, "removed ");
            } else {
            push_str(&mut after, "set ");
            }
            push_bytes(&mut after, where_at.as_slice());
            push_str(&mut after, ":");
            push_bytes(&mut after, el);
        } else {
            push_bytes(&mut after, el);
            push_str(&mut after, " 不存在（空转，文档未变）");
        }
        let s = summary("set_table_element", block, projected_of(model, block), string_of(after.as_slice()));
        set_ins(plan, i, nx, s);
        proof {
            lemma_frozen_chain(p0, p1, *plan);
        }
        },
    EditOp::MergeCells { direction, row, cell, span: mspan, end_row, end_cell, .. } => {
        let ok_rect = match (end_row, end_cell) {
            (Some(er), Some(ec)) => *row <= *er && *cell <= *ec && *ec - *cell < usize::MAX && *er - *row < usize::MAX,
            _ => true,
        };
        if !ok_rect {
            return Err(internal("合并区域已在预检中校验（内部 bug）"));
        }
        let (nx, sm) = match merge_cells_xml(bxml, *direction, *row, *cell, *mspan, *end_row, *end_cell) {
            Some(x) => x,
            None => {
            let mut m = str_bytes("合并手术失败: 块 ");
            push_usize(&mut m, block);
            push_str(&mut m, " XML 形态异常（内部 bug，未写盘）");
            return Err(DocError::internal(m));
            },
        };
        let s = summary("merge_cells", block, cell_projected_of(model, block, *row, *cell), string_of(sm.as_slice()));
        push_splice(plan, span.start, span.end, nx, s);
        },
    EditOp::SplitCell { direction, row, cell, .. } => {
        let (nx, sm) = match split_cell_xml(bxml, *direction, *row, *cell) {
            Some(x) => x,
            None => {
            let mut m = str_bytes("拆分手术失败: 块 ");
            push_usize(&mut m, block);
            push_str(&mut m, " XML 形态异常（内部 bug，未写盘）");
            return Err(DocError::internal(m));
            },
        };
        let s = summary("split_cell", block, cell_projected_of(model, block, *row, *cell), string_of(sm.as_slice()));
        push_splice(plan, span.start, span.end, nx, s);
        },
    EditOp::DeleteTableRow { row, .. } => {
        let (nx, sm) = match delete_table_row_xml(bxml, *row) {
            Some(x) => x,
            None => {
            let mut m = str_bytes("删行手术失败: 块 ");
            push_usize(&mut m, block);
            push_str(&mut m, " XML 形态异常（内部 bug，未写盘）");
            return Err(DocError::internal(m));
            },
        };
        let s = summary("delete_table_row", block, projected_of(model, block), string_of(sm.as_slice()));
        push_splice(plan, span.start, span.end, nx, s);
        },
        _ => {
            return Err(internal("非表格操作（内部 bug）"));
        },
    }
    Ok(())
}

/// A paragraph block reformatted: its paragraph properties, then its runs,
/// as far as each format is given.
fn reformat_block(
    bxml: &[u8],
    block: usize,
    paragraph: &Option<ParaFormat>,
    character: &Option<CharFormat>,
) -> (r: DocResult<Vec<u8>>)
    ensures
        r matches Ok(v) ==> spec_reformat(bxml@, *paragraph, *character) == Some(v@),
        r matches Err(e) ==> e.kind == ErrorKind::Internal,
{
    let mut nb = slice_vec(bxml, 0, bxml.len());
    assert(nb@ =~= bxml@);
    match paragraph {
        Some(pf) => {
            nb = match reformat_ppr(nb.as_slice(), pf) {
                Some(x) => x,
                None => {
                    let mut m = str_bytes("段落格式手术失败: 块 ");
                    push_usize(&mut m, block);
                    push_str(&mut m, " XML 形态异常（内部 bug，未写盘）");
                    return Err(DocError::internal(m));
                },
            };
        },
        None => {},
    }
    match character {
        Some(cf) => {
            nb = match reformat_runs(nb.as_slice(), cf) {
                Some(x) => x,
                None => {
                    let mut m = str_bytes("字符格式手术失败: 块 ");
                    push_usize(&mut m, block);
                    push_str(&mut m, " XML 形态异常（内部 bug，未写盘）");
                    return Err(DocError::internal(m));
                },
            };
        },
        None => {},
    }
    Ok(nb)
}

/// Plans one checked operation.
#[verifier::rlimit(90)]
#[verifier::spinoff_prover]
#[verifier::loop_isolation(false)]
fn plan_op(
    plan: &mut Plan,
    op: &EditOp,
    xml: &[u8],
    spans: &Vec<BlockSpan>,
    model: &DocxDocument,
    styles: &Stylesheet,
) -> (r: DocResult<()>)
    requires
        spans@.len() == model.body@.len(),
        forall|i: int| 0 <= i < spans@.len() ==> (#[trigger] spans@[i]).start <= spans@[i].end <= xml@.len(),
        plan_wf(*old(plan)),
        idx_ok(*old(plan)),
    ensures
        r matches Err(e) ==> e.kind == ErrorKind::Internal,
        r is Ok ==> plan_grows(*old(plan), *final(plan), op_region(*op, spans@, xml@.len() as int)),
        r is Ok ==> final(plan).summaries@.len() == old(plan).summaries@.len() + 1,
        r is Ok ==> idx_ok(*final(plan)) && frozen_kept(*old(plan), *final(plan)),
        r is Ok ==> (op_effect(*op, xml@, spans@, styles.view_styles()) matches Some(e) ==> {
            let k = old(plan).pos@.len() as int;
            &&& final(plan).pos@.len() == k + 1
            &&& (final(plan).pos@[k] as int, final(plan).end@[k] as int, final(plan).ins@[k]@) == e
            &&& !mutable(*final(plan), k)
        }),
{
    let block = match block_of(op) {
        Some(b) => b,
        None => 0,
    };
    let (span, bxml) = if block >= 1 && block <= spans.len() {
        let sp = spans[block - 1];
        (sp, slice_vec(xml, sp.start, sp.end))
    } else {
        match op {
            EditOp::ClearBody { .. } => {},
            _ => {
                return Err(internal("块号不一致（内部 bug）"));
            },
        }
        (BlockSpan { start: 0, end: 0, is_table: false }, Vec::new())
    };
    match op {
        EditOp::ReplaceText { new_text, .. } => {
            proof {
                crate::docx_edit::lemma_find_byte(bxml@, 62, 0);
            }
            if crate::docx_edit::find_byte_from(bxml.as_slice(), 62, 0).is_none() {
                return Err(internal("段落块 XML 形态异常（内部 bug，未写盘）"));
            }
            assert(bxml@ == xml@.subrange(span.start as int, span.end as int));
            let nb = rebuild_paragraph(xml, span, Some(new_text.as_str().as_bytes()));
            assert(nb@ == crate::docx_edit::spec_rebuild_paragraph(
                xml@.subrange(span.start as int, span.end as int),
                Some(vstd::utf8::encode_utf8(new_text@)),
            ));
            let s = summary("replace_text", block, projected_of(model, block), trimmed_string(new_text.as_str().as_bytes()));
            push_splice(plan, span.start, span.end, nb, s);
        },
        EditOp::InsertParagraphAfter { text, style, .. } => {
            let rev = has_revision(&model.body[block - 1]);
            let nb = match style {
                Some(st) => build_inserted_paragraph(xml, span, text.as_str().as_bytes(), Some(st.as_str().as_bytes()), styles, rev),
                None => build_inserted_paragraph(xml, span, text.as_str().as_bytes(), None, styles, rev),
            };
            let s = summary("insert_paragraph_after", block, projected_of(model, block), trimmed_string(text.as_str().as_bytes()));
            proof {
                lemma_entry_from(plan.insert_idx@, block, 0);
            }
            match find_entry(&plan.insert_idx, block) {
                Some(i) => {
                    if i >= plan.ins.len() {
                        return Err(internal("批内计划不一致（内部 bug）"));
                    }
                    proof {
                        reveal(mutable);
                    }
                    let mut cur = slice_vec(plan.ins[i].as_slice(), 0, plan.ins[i].len());
                    push_bytes(&mut cur, nb.as_slice());
                    set_ins(plan, i, cur, s);
                },
                None => {
                    push_insert_splice(plan, span.end, nb, s, block);
                },
            }
        },
        EditOp::DeleteBlock { .. } => {
            let s = summary("delete_block", block, projected_of(model, block), String::new());
            let empty: Vec<u8> = Vec::new();
            assert(empty@ =~= seq![]);
            push_splice(plan, span.start, span.end, empty, s);
        },
        EditOp::SetStyle { style, .. } => {
            let sid = match styles.id_of(style.as_str().as_bytes()) {
                Some(x) => x,
                None => return Err(internal("样式已在预检中校验（内部 bug）")),
            };
            let already = match &model.body[block - 1] {
                Block::Paragraph(p) => match &p.props.style {
                    Some(cur) => crate::bytes_util::bytes_eq(cur.as_slice(), sid.as_slice()),
                    None => false,
                },
                Block::Table(_) => false,
            };
            assert(bxml@ == xml@.subrange(span.start as int, span.end as int));
            let nb = match restyle_paragraph(bxml.as_slice(), sid.as_slice()) {
                Some(x) => x,
                None => {
                    let mut m = str_bytes("段落改样式失败: 块 ");
                    push_usize(&mut m, block);
                    push_str(&mut m, " XML 形态异常（内部 bug，未写盘）");
                    return Err(DocError::internal(m));
                },
            };
            let p = projected_of(model, block);
            let p2 = projected_of(model, block);
            let s = AppliedOp {
                op: "set_style",
                block,
                before: p,
                after: p2,
                style: Some(string_of(sid.as_slice())),
                style_unchanged: if already {
                    Some(true)
                } else {
                    None
                },
                target: None,
            };
            push_splice(plan, span.start, span.end, nb, s);
        },
        EditOp::SetFormat { paragraph, character, summary: note, .. } => {
            assert(bxml@ == xml@.subrange(span.start as int, span.end as int));
            let nb = match reformat_block(bxml.as_slice(), block, paragraph, character) {
                Ok(x) => x,
                Err(e) => return Err(e),
            };
            let s = summary("set_format", block, projected_of(model, block), trimmed_string(note.as_str().as_bytes()));
            push_splice(plan, span.start, span.end, nb, s);
        },
        EditOp::SetPprElement { element, xml: frag, .. } => {
            assert(bxml@ == xml@.subrange(span.start as int, span.end as int));
            let el = element.as_str().as_bytes();
            let res = match frag {
                Some(f) => set_ppr_element(bxml.as_slice(), el, Some(f.as_str().as_bytes())),
                None => set_ppr_element(bxml.as_slice(), el, None),
            };
            let (nb, changed) = match res {
                Some(x) => x,
                None => {
                    let mut m = str_bytes("pPr元素手术失败: 块 ");
                    push_usize(&mut m, block);
                    push_str(&mut m, " XML 形态异常（内部 bug，未写盘）");
                    return Err(DocError::internal(m));
                },
            };
            let mut after: Vec<u8> = Vec::new();
            if changed {
                if frag.is_none() {
                    push_str(&mut after, "removed ");
                } else {
                    push_str(&mut after, "set ");
                }
                push_bytes(&mut after, el);
            } else {
                push_bytes(&mut after, el);
                push_str(&mut after, " 不存在（空转，文档未变）");
            }
            if changed && frag.is_none() && eq_str(el, "numPr") {
                let numbered = match &model.body[block - 1] {
                    Block::Paragraph(p) => match &p.props.style {
                        Some(id) => styles.chain_defines_numbering(id.as_slice()),
                        None => false,
                    },
                    Block::Table(_) => false,
                };
                if numbered {
                    push_str(&mut after, "；警告：该段样式链仍定义编号，Word 将回退显示样式编号——需改样式定义才彻底去编号");
                }
            }
            let s = summary("set_ppr_element", block, projected_of(model, block), string_of(after.as_slice()));
            push_splice(plan, span.start, span.end, nb, s);
        },
        EditOp::InsertTableAfter { rows, header, table_style, .. } => {
            let sid = match table_style {
                Some(st) => styles.table_style_id(st.as_str().as_bytes()),
                None => None,
            };
            let h = match header {
                Some(x) => *x,
                None => true,
            };
            let width = content_width_twips(model);
            let nt = match &sid {
                Some(id) => build_table_xml(rows, h, Some(id.as_slice()), width),
                None => build_table_xml(rows, h, None, width),
            };
            let mut after: Vec<u8> = Vec::new();
            push_usize(&mut after, rows.len());
            push_str(&mut after, "行×");
            let cols = if rows.len() > 0 {
                rows[0].len()
            } else {
                0
            };
            push_usize(&mut after, cols);
            push_str(&mut after, "列 表");
            match table_style {
                Some(st) => {
                    push_str(&mut after, "（表样式 ");
                    push_str(&mut after, st.as_str());
                    push_str(&mut after, "）");
                },
                None => {},
            }
            let s = summary("insert_table_after", block, projected_of(model, block), string_of(after.as_slice()));
            push_splice(plan, span.end, span.end, nt, s);
        },
        EditOp::SetCellText { .. } | EditOp::InsertTableRowAfter { .. } | EditOp::SetCellFormat { .. }
        | EditOp::SetTableElement { .. } | EditOp::MergeCells { .. } | EditOp::SplitCell { .. }
        | EditOp::DeleteTableRow { .. } => {
            match plan_table_op(plan, op, xml, span, bxml.as_slice(), block, model, styles) {
                Err(e) => return Err(e),
                Ok(()) => {},
            }
        },
        EditOp::ClearBody { .. } => {
            let mut kept: Vec<u8> = Vec::new();
            let mut kept_n: usize = 0;
            let mut k: usize = 0;
            while k < spans.len()
                invariant
                    kept_n <= k <= spans@.len(),
                    forall|i: int| 0 <= i < spans@.len() ==> (#[trigger] spans@[i]).start <= spans@[i].end <= xml@.len(),
                    kept@ == kept_sections(xml@, spans@, k as int),
                decreases spans@.len() - k,
            {
                let b = slice_vec(xml, spans[k].start, spans[k].end);
                let ghost before = kept@;
                if contains(b.as_slice(), "<w:sectPr".as_bytes()) {
                    push_bytes(&mut kept, b.as_slice());
                    kept_n = kept_n + 1;
                }
                assert(kept@ =~= kept_sections(xml@, spans@, k + 1));
                k = k + 1;
            }
            let n = spans.len();
            let (pos, end) = if n > 0 {
                (spans[0].start, spans[n - 1].end)
            } else {
                (xml.len(), xml.len())
            };
            let mut before: Vec<u8> = Vec::new();
            push_usize(&mut before, n);
            push_str(&mut before, " 块");
            let mut after = str_bytes("清空（删 ");
            push_usize(&mut after, n - kept_n);
            push_str(&mut after, " 块，保留 ");
            push_usize(&mut after, kept_n);
            push_str(&mut after, " 个节属性块）");
            let s = summary("clear_body", 0, string_of(before.as_slice()), string_of(after.as_slice()));
            push_splice(plan, pos, end, kept, s);
        },
    }
    Ok(())
}

fn occupancy_error(m: &str, block: usize, tail: &str) -> (r: DocResult<()>)
    ensures
        r matches Err(e) && e.kind == ErrorKind::Validation,
{
    let mut v = str_bytes(m);
    push_usize(&mut v, block);
    push_str(&mut v, tail);
    verr(v)
}

/// The block an operation addresses exists among `n` blocks; clearing the
/// body expects exactly `n` blocks.
pub open spec fn block_in_range(op: EditOp, n: nat) -> bool {
    match op {
        EditOp::ClearBody { expect_blocks } => expect_blocks == n,
        _ => op_block(op) matches Some(b) && 1 <= b <= n,
    }
}

/// Checks every operation of a batch before anything is rewritten: the
/// block exists and lies in the lock, the expected text prefix matches, the
/// operations on one block go together, and each operation's own checks pass.
#[verifier::loop_isolation(false)]
fn precheck_batch(
    xml: &[u8],
    styles: &Stylesheet,
    ops: &Vec<EditOp>,
    allowed_blocks: Option<(usize, usize)>,
    spans: &Vec<BlockSpan>,
    model: &DocxDocument,
) -> (r: DocResult<()>)
    requires
        spans@.len() == model.body@.len(),
        forall|i: int| 0 <= i < spans@.len() ==> (#[trigger] spans@[i]).start <= spans@[i].end <= xml@.len(),
    ensures
        r is Ok ==> forall|i: int| 0 <= i < ops@.len() ==> lock_ok(#[trigger] ops@[i], allowed_blocks),
        r is Ok ==> forall|i: int| 0 <= i < ops@.len() && (#[trigger] ops@[i]) is ClearBody ==> ops@.len() == 1,
        r is Ok ==> forall|i: int| 0 <= i < ops@.len() ==> block_in_range(#[trigger] ops@[i], spans@.len()),
{
    let mut used_blocks: Vec<usize> = Vec::new();
    let mut table_modified: Vec<usize> = Vec::new();
    let mut used_cells: Vec<(usize, usize, usize, Vec<u8>)> = Vec::new();
    let mut insert_anchors: Vec<usize> = Vec::new();
    let mut table_structural: Vec<usize> = Vec::new();
    let mut ts: Vec<TableState> = Vec::new();
    let mut i: usize = 0;
    while i < ops.len()
        invariant
            i <= ops@.len(),
            spans@.len() == model.body@.len(),
            forall|j: int| 0 <= j < i ==> lock_ok(#[trigger] ops@[j], allowed_blocks),
            forall|j: int| 0 <= j < i && (#[trigger] ops@[j]) is ClearBody ==> ops@.len() == 1,
            forall|j: int| 0 <= j < i ==> block_in_range(#[trigger] ops@[j], spans@.len()),
        decreases ops@.len() - i,
    {
        let op = &ops[i];
        match op {
            EditOp::ClearBody { expect_blocks } => {
                if allowed_blocks.is_some() {
                    return Err(DocError::validation(str_bytes("区间外块: clear_body 清空全部正文，与 allowed_blocks 区间锁冲突。带锁批次只允许区间内的块级操作。如确需清空正文，请去掉 allowed_blocks 重发。")));
                }
                if ops.len() != 1 {
                    return Err(DocError::validation(str_bytes("同一批多操作: clear_body 须独占一批（清空后一切块号失效，与其他操作组合必然寻址错乱）。请拆批：先 clear_body，再重新 inspect_docx 寻址写入。")));
                }
                if *expect_blocks != model.body.len() {
                    let mut m = str_bytes("指纹不符: 文档当前共 ");
                    push_usize(&mut m, model.body.len());
                    push_str(&mut m, " 块，expect_blocks=");
                    push_usize(&mut m, *expect_blocks);
                    push_str(&mut m, "。文档可能已被其他编辑改动——请先用 inspect_docx outline 复核块数再重试。");
                    return Err(DocError::validation(m));
                }
                i = i + 1;
                continue;
            },
            _ => {},
        }
        let block = match block_of(op) {
            Some(b) => b,
            None => {
                return Err(internal("操作无块号（内部 bug）"));
            },
        };
        if block == 0 || block > spans.len() {
            let mut m = str_bytes("块号越界: 块 ");
            push_usize(&mut m, block);
            push_str(&mut m, " 不存在（全文共 ");
            push_usize(&mut m, spans.len());
            push_str(&mut m, " 块，块号 1-");
            push_usize(&mut m, spans.len());
            push_str(&mut m, "）。请先用 inspect_docx text 复核块号。");
            return Err(DocError::validation(m));
        }
        match allowed_blocks {
            Some((lo, hi)) => {
                if block < lo || block > hi {
                    let mut m = str_bytes("区间外块: 块 ");
                    push_usize(&mut m, block);
                    push_str(&mut m, " 不在允许编辑区间 ");
                    push_usize(&mut m, lo);
                    push_str(&mut m, "..=");
                    push_usize(&mut m, hi);
                    push_str(&mut m, "（本批带 allowed_blocks 范围锁，锁外块禁止改动）。为什么：范围锁由任务方设定，防止越界改动受保护内容。怎么办：复核任务范围只动区间内块；如任务确需改动锁外块，请与任务方确认后去掉 allowed_blocks 重发。");
                    return Err(DocError::validation(m));
                }
            },
            None => {},
        }
        let structural = match op {
            EditOp::MergeCells { .. } => true,
            EditOp::SplitCell { .. } => true,
            EditOp::DeleteTableRow { .. } => true,
            _ => false,
        };
        let table_modify = match op {
            EditOp::SetCellText { .. } => true,
            EditOp::InsertTableRowAfter { .. } => true,
            EditOp::SetCellFormat { .. } => true,
            EditOp::SetTableElement { .. } => true,
            _ => false,
        };
        let is_insert_para = match op {
            EditOp::InsertParagraphAfter { .. } => true,
            _ => false,
        };
        if structural {
            if vcontains(&used_blocks, block) || vcontains(&table_modified, block) {
                return match occupancy_error("同一块多操作: 块 ", block, " 已被其他操作引用。merge_cells / split_cell / delete_table_row 使行列地址重排，须独占该表——请拆批，结构改完再寻址。") {
                    Err(e) => Err(e),
                    Ok(()) => Err(internal("")),
                };
            }
            used_blocks.push(block);
            table_structural.push(block);
        } else if vcontains(&table_structural, block) {
            return match occupancy_error("同一块多操作: 块 ", block, " 已挂 merge_cells / split_cell / delete_table_row（结构重构独占）。请拆批：结构改完重新 inspect_docx projection=table 寻址。") {
                Err(e) => Err(e),
                Ok(()) => Err(internal("")),
            };
        } else if table_modify {
            if vcontains(&used_blocks, block) {
                return match occupancy_error("同一块多操作: 块 ", block, " 已被段落操作/锚操作引用，不能再挂表格操作。请拆批。") {
                    Err(e) => Err(e),
                    Ok(()) => Err(internal("")),
                };
            }
            if !vcontains(&table_modified, block) {
                table_modified.push(block);
            }
        } else if is_insert_para {
            if vcontains(&used_blocks, block) || vcontains(&table_modified, block) {
                return match occupancy_error("同一块多操作: 块 ", block, " 已被段落操作/锚操作/表格操作引用，不能再挂 insert_paragraph_after。请拆批。") {
                    Err(e) => Err(e),
                    Ok(()) => Err(internal("")),
                };
            }
            if !vcontains(&insert_anchors, block) {
                insert_anchors.push(block);
            }
        } else {
            if vcontains(&used_blocks, block) {
                return match occupancy_error("同一块多操作: 块 ", block, " 在本批中被多次引用。每块每批限一个操作（例外：同一锚块可挂多条 insert_paragraph_after 按序链式插入；表格块可挂多个 set_cell_text / set_cell_format / set_table_element / insert_table_row_after）；请拆成多批。") {
                    Err(e) => Err(e),
                    Ok(()) => Err(internal("")),
                };
            }
            if vcontains(&insert_anchors, block) {
                return match occupancy_error("同一块多操作: 块 ", block, " 已挂链式 insert_paragraph_after，不能再被其他段落操作/锚操作引用。请拆批。") {
                    Err(e) => Err(e),
                    Ok(()) => Err(internal("")),
                };
            }
            if vcontains(&table_modified, block) {
                return match occupancy_error("同一块多操作: 块 ", block, " 已挂表格操作，不能再被段落操作/锚操作引用。请拆批。") {
                    Err(e) => Err(e),
                    Ok(()) => Err(internal("")),
                };
            }
            used_blocks.push(block);
        }
        let idx = block - 1;
        let span = spans[idx];
        let bxml = slice_vec(xml, span.start, span.end);
        let expect = expect_prefix_of(op).as_bytes();
        let mut projected: Vec<u8> = Vec::new();
        blocks_text(&model.body.as_slice()[idx..idx + 1], &mut projected);
        let pn = projected.len();
        let mut pk = pn;
        while pk > 0 && projected[pk - 1] == 10
            invariant
                pk <= pn == projected@.len(),
            decreases pk,
        {
            pk = pk - 1;
        }
        let proj = slice_vec(projected.as_slice(), 0, pk);
        let en = trim_end_to(expect, 0, expect.len());
        let exp = slice_vec(expect, 0, en);
        if !starts_with(proj.as_slice(), exp.as_slice()) {
            let mut m = str_bytes("指纹不符: 块 ");
            push_usize(&mut m, block);
            push_str(&mut m, " 当前内容不以预期文本开头。期望前缀 \"");
            let a = truncate(expect, 40);
            push_str(&mut m, a.as_str());
            push_str(&mut m, "\"，实际开头 \"");
            let b = truncate(proj.as_slice(), 40);
            push_str(&mut m, b.as_str());
            push_str(&mut m, "\"。文档可能已被其他编辑改动——请先用 inspect_docx text 查看块 ");
            push_usize(&mut m, block);
            push_str(&mut m, " 当前内容再重试。");
            return Err(DocError::validation(m));
        }
        match precheck_op(op, idx, block, span.is_table, bxml.as_slice(), model, styles, &mut ts, &mut used_cells) {
            Err(e) => return Err(e),
            Ok(()) => {},
        }
        i = i + 1;
    }
    Ok(())
}

/// Some operation among the first `bound` of `ops` has the bytes from `p` to `e` in its region.
pub open spec fn covered(ops: Seq<EditOp>, bound: int, spans: Seq<BlockSpan>, len: int, p: int, e: int) -> bool {
    exists|q: int| 0 <= q < bound && #[trigger] in_region(ops[q], spans, len, p, e)
}

/// The splices of a checked batch, each within the region of an operation.
#[verifier::loop_isolation(false)]
fn build_plan(
    xml: &[u8],
    styles: &Stylesheet,
    ops: &Vec<EditOp>,
    spans: &Vec<BlockSpan>,
    model: &DocxDocument,
) -> (r: DocResult<Plan>)
    requires
        spans@.len() == model.body@.len(),
        forall|i: int| 0 <= i < spans@.len() ==> (#[trigger] spans@[i]).start <= spans@[i].end <= xml@.len(),
    ensures
        r matches Ok(plan) ==> plan.summaries@.len() == ops@.len(),
        r matches Ok(plan) ==> forall|q: int| 0 <= q < ops@.len() ==> (op_effect(#[trigger] ops@[q], xml@, spans@, styles.view_styles()) matches Some(e)
            ==> has_splice(plan, e)),
        r matches Ok(plan) ==> plan_wf(plan) && forall|k: int| 0 <= k < plan.pos@.len() ==> #[trigger] covered(
            ops@,
            ops@.len() as int,
            spans@,
            xml@.len() as int,
            plan.pos@[k] as int,
            plan.end@[k] as int,
        ),
        r matches Err(e) ==> e.kind == ErrorKind::Internal,
{
    let mut plan = Plan {
        pos: Vec::new(),
        end: Vec::new(),
        ins: Vec::new(),
        summaries: Vec::new(),
        owners: Vec::new(),
        table_idx: Vec::new(),
        insert_idx: Vec::new(),
    };
    let ghost len = xml@.len() as int;
    let mut j: usize = 0;
    while j < ops.len()
        invariant
            j <= ops@.len(),
            spans@.len() == model.body@.len(),
            forall|q: int| 0 <= q < spans@.len() ==> (#[trigger] spans@[q]).start <= spans@[q].end <= xml@.len(),
            plan_wf(plan),
            idx_ok(plan),
            plan.summaries@.len() == j,
            forall|q: int| 0 <= q < j ==> (op_effect(#[trigger] ops@[q], xml@, spans@, styles.view_styles()) matches Some(e) ==> has_splice(plan, e)),
            forall|k: int| 0 <= k < plan.pos@.len() ==> #[trigger] covered(
                ops@,
                j as int,
                spans@,
                len,
                plan.pos@[k] as int,
                plan.end@[k] as int,
            ),
        decreases ops@.len() - j,
    {
        let ghost p0 = plan;
        match plan_op(&mut plan, &ops[j], xml, spans, model, styles) {
            Err(e) => return Err(e),
            Ok(()) => {},
        }
        proof {
            assert forall|k: int| 0 <= k < plan.pos@.len() implies #[trigger] covered(
                ops@,
                j + 1,
                spans@,
                len,
                plan.pos@[k] as int,
                plan.end@[k] as int,
            ) by {
                if k < p0.pos@.len() {
                    assert(covered(ops@, j as int, spans@, len, p0.pos@[k] as int, p0.end@[k] as int));
                    let q = choose|q: int| 0 <= q < j && #[trigger] in_region(ops@[q], spans@, len, p0.pos@[k] as int, p0.end@[k] as int);
                    assert(in_region(ops@[q], spans@, len, plan.pos@[k] as int, plan.end@[k] as int));
                } else {
                    assert(in_region(ops@[j as int], spans@, len, plan.pos@[k] as int, plan.end@[k] as int));
                }
            }
            assert forall|q: int| 0 <= q < j + 1 implies (op_effect(#[trigger] ops@[q], xml@, spans@, styles.view_styles()) matches Some(e)
                ==> has_splice(plan, e)) by {
                if q < j {
                    if let Some(e) = op_effect(ops@[q], xml@, spans@, styles.view_styles()) {
                        let k = choose|k: int| 0 <= k < p0.pos@.len() && !mutable(p0, k) && (p0.pos@[k] as int, p0.end@[k] as int, p0.ins@[k]@) == e;
                                        assert(plan.ins@[k] == p0.ins@[k]);
                        assert(!mutable(plan, k) && (plan.pos@[k] as int, plan.end@[k] as int, plan.ins@[k]@) == e);
                    }
                } else {
                    if let Some(e) = op_effect(ops@[q], xml@, spans@, styles.view_styles()) {
                        let k = p0.pos@.len() as int;
                        assert(!mutable(plan, k) && (plan.pos@[k] as int, plan.end@[k] as int, plan.ins@[k]@) == e);
                    }
                }
            }
        }
        j = j + 1;
    }
    Ok(plan)
}

/// The plan holds a splice, no longer open to rewriting, that is `e`.
pub open spec fn has_splice(plan: Plan, e: (int, int, Seq<u8>)) -> bool {
    exists|k: int| 0 <= k < plan.pos@.len() && !mutable(plan, k) && (plan.pos@[k] as int, plan.end@[k] as int, plan.ins@[k]@) == e
}

/// The splices of a plan taken in `order`.
pub open spec fn plan_edits(plan: Plan, order: Seq<usize>) -> Seq<(int, int, Seq<u8>)> {
    Seq::new(
        order.len(),
        |k: int| (plan.pos@[order[k] as int] as int, plan.end@[order[k] as int] as int, plan.ins@[order[k] as int]@),
    )
}

/// The text with the splices of a plan made in order of position (stable
/// for equal positions), and that order; overlapping splices are an
/// internal error.
#[verifier::loop_isolation(false)]
#[verifier::rlimit(40)]
#[verifier::spinoff_prover]
fn assemble(xml: &[u8], plan: &Plan) -> (r: DocResult<(Vec<u8>, Vec<usize>)>)
    requires
        plan_wf(*plan),
    ensures
        r matches Ok(x) ==> {
            &&& forall|k: int| 0 <= k < x.1@.len() ==> (#[trigger] x.1@[k]) < plan.pos@.len()
            &&& forall|k: usize| 0 <= k < plan.pos@.len() ==> #[trigger] x.1@.contains(k)
            &&& edits_ordered(plan_edits(*plan, x.1@), xml@.len() as int)
            &&& x.0@ == spliced(xml@, plan_edits(*plan, x.1@), 0)
        },
        r matches Err(e) ==> e.kind == ErrorKind::Internal,
{
    let n = plan.pos.len();
    if plan.end.len() != n || plan.ins.len() != n {
        return Err(internal("批内计划不一致（内部 bug）"));
    }
    // splices in order of position (stable)
    let mut order: Vec<usize> = Vec::new();
    let mut a: usize = 0;
    while a < n
        invariant
            a <= n,
            n == plan.pos@.len(),
            n == plan.end@.len(),
            order@.len() == a,
            forall|q: int| 0 <= q < order@.len() ==> (#[trigger] order@[q]) < n,
            forall|k: usize| 0 <= k < a ==> #[trigger] order@.contains(k),
        decreases n - a,
    {
        let mut at: usize = 0;
        while at < order.len()
            invariant
                at <= order@.len(),
                forall|q: int| 0 <= q < order@.len() ==> (#[trigger] order@[q]) < n,
            decreases order@.len() - at,
        {
            let o = order[at];
            if plan.pos[o] > plan.pos[a] || (plan.pos[o] == plan.pos[a] && plan.end[o] > plan.end[a]) {
                break;
            }
            at = at + 1;
        }
        let ghost o0 = order@;
        order.insert(at, a);
        proof {
            assert(order@ == o0.insert(at as int, a));
            assert forall|k: usize| 0 <= k < a + 1 implies #[trigger] order@.contains(k) by {
                if k == a {
                    assert(order@[at as int] == a);
                } else {
                    assert(o0.contains(k));
                    let t = choose|t: int| 0 <= t < o0.len() && o0[t] == k;
                    if t < at {
                        assert(order@[t] == k);
                    } else {
                        assert(order@[t + 1] == k);
                    }
                }
            }
            assert forall|q: int| 0 <= q < order@.len() implies (#[trigger] order@[q]) < n by {
                if q < at {
                } else if q == at {
                } else {
                }
            }
        }
        a = a + 1;
    }
    let ghost edits = plan_edits(*plan, order@);
    let mut out: Vec<u8> = Vec::new();
    let mut cursor: usize = 0;
    let mut b: usize = 0;
    assert(edits.subrange(0, edits.len() as int) =~= edits);
    while b < order.len()
        invariant
            cursor <= xml@.len(),
            n == plan.pos@.len(),
            n == plan.end@.len(),
            n == plan.ins@.len(),
            forall|q: int| 0 <= q < order@.len() ==> (#[trigger] order@[q]) < n,
            edits == plan_edits(*plan, order@),
            b <= order@.len(),
            cursor as int == if b == 0 { 0 } else { edits[b - 1].1 },
            forall|k: int| 0 <= k < b ==> {
                &&& 0 <= (#[trigger] edits[k]).0 <= edits[k].1 <= xml@.len()
                &&& k + 1 < b ==> edits[k].1 <= edits[k + 1].0
            },
            out@ + spliced(xml@, edits.subrange(b as int, edits.len() as int), cursor as int) == spliced(xml@, edits, 0),
        decreases order@.len() - b,
    {
        let o = order[b];
        let p = plan.pos[o];
        let e = plan.end[o];
        if p < cursor || e < p || e > xml.len() {
            return Err(internal("splice 区间重叠（内部 bug）"));
        }
        let ghost rest = edits.subrange(b as int, edits.len() as int);
        let ghost out0 = out@;
        assert(rest[0] == edits[b as int]);
        assert(rest.drop_first() =~= edits.subrange(b + 1, edits.len() as int));
        let gap = slice_vec(xml, cursor, p);
        push_bytes(&mut out, gap.as_slice());
        push_bytes(&mut out, plan.ins[o].as_slice());
        assert(out@ =~= out0 + xml@.subrange(cursor as int, p as int) + plan.ins@[o as int]@);
        assert(spliced(xml@, rest, cursor as int) == xml@.subrange(cursor as int, p as int) + plan.ins@[o as int]@
            + spliced(xml@, edits.subrange(b + 1, edits.len() as int), e as int));
        assert(out@ + spliced(xml@, edits.subrange(b + 1, edits.len() as int), e as int) =~= out0 + spliced(xml@, rest, cursor as int));
        cursor = e;
        b = b + 1;
    }
    let ghost out0 = out@;
    let tail = slice_vec(xml, cursor, xml.len());
    push_bytes(&mut out, tail.as_slice());
    assert(edits.subrange(b as int, edits.len() as int) =~= Seq::<(int, int, Seq<u8>)>::empty());
    assert(out@ =~= spliced(xml@, edits, 0));
    Ok((out, order))
}

/// The edited text still parses and holds the expected number of blocks:
/// the old count plus insertions minus deletions, or after clearing the
/// body, the blocks that carry section properties.
#[verifier::loop_isolation(false)]
fn check_block_count(xml: &[u8], out: &[u8], ops: &Vec<EditOp>, spans: &Vec<BlockSpan>, model: &DocxDocument) -> (r: DocResult<()>)
    requires
        forall|i: int| 0 <= i < spans@.len() ==> (#[trigger] spans@[i]).start <= spans@[i].end <= xml@.len(),
{
    let dom2 = match crate::xml_dom::parse(out) {
        Ok(d) => d,
        Err(e) => return Err(e),
    };
    let model2 = crate::docx_model::build_document(&dom2);
    let mut inserted: usize = 0;
    let mut deleted: usize = 0;
    let mut clear = false;
    let mut c: usize = 0;
    while c < ops.len()
        invariant
            inserted <= c,
            deleted <= c,
            c <= ops@.len(),
        decreases ops@.len() - c,
    {
        match &ops[c] {
            EditOp::InsertParagraphAfter { .. } => {
                inserted = inserted + 1;
            },
            EditOp::InsertTableAfter { .. } => {
                inserted = inserted + 1;
            },
            EditOp::DeleteBlock { .. } => {
                deleted = deleted + 1;
            },
            EditOp::ClearBody { .. } => {
                clear = true;
            },
            _ => {},
        }
        c = c + 1;
    }
    let expect_blocks: usize = if clear {
        let mut kept: usize = 0;
        let mut q: usize = 0;
        while q < spans.len()
            invariant
                kept <= q <= spans@.len(),
            decreases spans@.len() - q,
        {
            let bq = slice_vec(xml, spans[q].start, spans[q].end);
            if contains(bq.as_slice(), "<w:sectPr".as_bytes()) {
                kept = kept + 1;
            }
            q = q + 1;
        }
        kept
    } else {
        let base = model.body.len();
        if inserted > usize::MAX - base || base + inserted < deleted {
            return Err(internal("手术后块数校验失败（内部 bug，未写盘）"));
        }
        base + inserted - deleted
    };
    if model2.body.len() != expect_blocks {
        let mut m = str_bytes("手术后块数校验失败: 期望 ");
        push_usize(&mut m, expect_blocks);
        push_str(&mut m, " 块，实际 ");
        push_usize(&mut m, model2.body.len());
        push_str(&mut m, " 块（内部 bug，未写盘）");
        return Err(DocError::internal(m));
    }
    Ok(())
}

/// The summaries of a plan, in the order its splices were made (the
/// summaries of one splice in the order they were written).
fn ordered_summaries(plan: &Plan, order: &Vec<usize>) -> (r: Vec<AppliedOp>)
    ensures
        r@.len() == plan.summaries@.len(),
{
    let n = plan.pos.len();
    let mut rank: Vec<usize> = Vec::new();
    let mut k: usize = 0;
    while k < n
        invariant
            k <= n,
            rank@.len() == k,
        decreases n - k,
    {
        rank.push(n);
        k = k + 1;
    }
    let mut d: usize = 0;
    while d < order.len()
        invariant
            rank@.len() == n,
        decreases order@.len() - d,
    {
        if order[d] < n {
            rank.set(order[d], d);
        }
        d = d + 1;
    }
    let mut applied: Vec<AppliedOp> = Vec::new();
    let mut keys: Vec<usize> = Vec::new();
    let mut s: usize = 0;
    while s < plan.summaries.len()
        invariant
            s <= plan.summaries@.len(),
            applied@.len() == s,
            keys@.len() == s,
            rank@.len() == n,
        decreases plan.summaries@.len() - s,
    {
        let key: usize = if s < plan.owners.len() && plan.owners[s] < n {
            rank[plan.owners[s]]
        } else {
            usize::MAX
        };
        let mut at: usize = 0;
        while at < keys.len() && keys[at] <= key
            invariant
                at <= keys@.len(),
            decreases keys@.len() - at,
        {
            at = at + 1;
        }
        applied.insert(at, plan.summaries[s].clone());
        keys.insert(at, key);
        s = s + 1;
    }
    applied
}

/// Applies a batch of edits to `document.xml` text: all or nothing. Every
/// operation is checked first (blocks that exist and lie in the lock
/// `allowed_blocks`, the expected text prefixes, revisions and section
/// properties left alone, one paragraph edit per block, table edits per
/// cell, structural table edits alone on their table, clearing the body
/// alone in its batch); only then are the blocks rewritten, each change
/// confined to its block's bytes (insertions at the anchor's end), the rest
/// of the text copied as it stands. The result must still parse and hold the
/// expected number of blocks. Returns the new text and one summary per
/// operation, in document order.
#[verifier::loop_isolation(false)]
pub fn apply_edits_locked(
    xml: &[u8],
    styles: &Stylesheet,
    ops: &Vec<EditOp>,
    allowed_blocks: Option<(usize, usize)>,
) -> (r: DocResult<(Vec<u8>, Vec<AppliedOp>)>)
    ensures
        ops@.len() == 0 ==> (r matches Err(e) && e.kind == ErrorKind::Validation),
        ops@.len() > 0 && !crate::xml_dom::spec_parses(xml@) ==> (r matches Err(e) && e.kind == ErrorKind::Internal),
        r is Ok ==> forall|i: int| 0 <= i < ops@.len() ==> lock_ok(#[trigger] ops@[i], allowed_blocks),
        r is Ok ==> forall|i: int| 0 <= i < ops@.len() && (#[trigger] ops@[i]) is ClearBody ==> ops@.len() == 1,
        r matches Ok(x) ==> confined_edit(xml@, ops@, styles.view_styles(), x.0@),
        r matches Ok(x) ==> x.1@.len() == ops@.len(),
        r is Ok ==> (crate::locate::spec_locate(xml@) matches Some(sp) && forall|i: int|
            0 <= i < ops@.len() ==> block_in_range(#[trigger] ops@[i], sp.len())),
{
    if ops.len() == 0 {
        return Err(DocError::validation(str_bytes("操作列表为空: edit_docx 至少需要一个操作。请提供 replace_text / insert_paragraph_after / delete_block / set_style / set_format 操作。")));
    }
    let dom = match crate::xml_dom::parse(xml) {
        Ok(d) => d,
        Err(e) => return Err(e),
    };
    let model = crate::docx_model::build_document(&dom);
    let spans = match locate_blocks(xml) {
        Ok(s) => s,
        Err(e) => return Err(e),
    };
    if spans.len() != model.body.len() {
        let mut m = str_bytes("定位器与模型编址不一致: 定位 ");
        push_usize(&mut m, spans.len());
        push_str(&mut m, " 块 / 模型 ");
        push_usize(&mut m, model.body.len());
        push_str(&mut m, " 块（内部 bug，请反馈）");
        return Err(DocError::internal(m));
    }
    let mut k: usize = 0;
    while k < spans.len()
        invariant
            k <= spans@.len(),
            forall|i: int| 0 <= i < k ==> (#[trigger] spans@[i]).start <= spans@[i].end <= xml@.len(),
        decreases spans@.len() - k,
    {
        if spans[k].start > spans[k].end || spans[k].end > xml.len() {
            return Err(internal("定位器区间越界（内部 bug）"));
        }
        k = k + 1;
    }
    match precheck_batch(xml, styles, ops, allowed_blocks, &spans, &model) {
        Err(e) => return Err(e),
        Ok(()) => {},
    }
    let plan = match build_plan(xml, styles, ops, &spans, &model) {
        Ok(p) => p,
        Err(e) => return Err(e),
    };
    let (out, order) = match assemble(xml, &plan) {
        Ok(x) => x,
        Err(e) => return Err(e),
    };
    match check_block_count(xml, out.as_slice(), ops, &spans, &model) {
        Err(e) => return Err(e),
        Ok(()) => {},
    }
    let applied = ordered_summaries(&plan, &order);
    proof {
        let len = xml@.len() as int;
        let edits = plan_edits(plan, order@);
        assert forall|k: int| 0 <= k < edits.len() implies covered(ops@, ops@.len() as int, spans@, len, (#[trigger] edits[k]).0, edits[k].1) by {
            let i = order@[k] as int;
            assert(covered(ops@, ops@.len() as int, spans@, len, plan.pos@[i] as int, plan.end@[i] as int));
        }
        assert forall|q: int| 0 <= q < ops@.len() implies (op_effect(#[trigger] ops@[q], xml@, spans@, styles.view_styles()) matches Some(e)
            ==> edits.contains(e)) by {
            if let Some(e) = op_effect(ops@[q], xml@, spans@, styles.view_styles()) {
                let k = choose|k: int| 0 <= k < plan.pos@.len() && !mutable(plan, k) && (plan.pos@[k] as int, plan.end@[k] as int, plan.ins@[k]@) == e;
                assert(order@.contains(k as usize));
                let j = choose|j: int| 0 <= j < order@.len() && order@[j] == k as usize;
                assert(edits[j] == e);
            }
        }
        assert(confined_by(xml@, ops@, spans@, styles.view_styles(), out@, edits));
    }
    Ok((out, applied))
}

/// [`apply_edits_locked`] without a lock.
pub fn apply_edits(xml: &[u8], styles: &Stylesheet, ops: &Vec<EditOp>) -> (r: DocResult<(Vec<u8>, Vec<AppliedOp>)>)
    ensures
        ops@.len() == 0 ==> (r matches Err(e) && e.kind == ErrorKind::Validation),
        ops@.len() > 0 && !crate::xml_dom::spec_parses(xml@) ==> (r matches Err(e) && e.kind == ErrorKind::Internal),
        r is Ok ==> forall|i: int| 0 <= i < ops@.len() ==> lock_ok(#[trigger] ops@[i], None),
        r matches Ok(x) ==> confined_edit(xml@, ops@, styles.view_styles(), x.0@),
        r matches Ok(x) ==> x.1@.len() == ops@.len(),
        r is Ok ==> (crate::locate::spec_locate(xml@) matches Some(sp) && forall|i: int|
            0 <= i < ops@.len() ==> block_in_range(#[trigger] ops@[i], sp.len())),
{
    apply_edits_locked(xml, styles, ops, None)
}

/// `doc` is the text `document.xml` held before, `new` the text it holds after.
pub open spec fn doc_texts(before: Seq<u8>, after: Seq<u8>, doc: Seq<u8>, new: Seq<u8>) -> bool {
    &&& zip_entry_of(before, "word/document.xml"@) matches Some(Some(c)) && crate::docx::part_text_ok(c, doc)
    &&& zip_entry_of(after, "word/document.xml"@) == Some(Some(new))
}

/// The package `after` is `before` with `document.xml` rewritten only inside
/// the blocks that `ops` address (styles named against the package's sheet).
pub open spec fn package_edit_confined(before: Seq<u8>, ops: Seq<EditOp>, after: Seq<u8>) -> bool {
    exists|doc: Seq<u8>, new: Seq<u8>, sheet: Seq<StyleV>|
        #![trigger doc_texts(before, after, doc, new), confined_edit(doc, ops, sheet, new)]
        doc_texts(before, after, doc, new) && confined_edit(doc, ops, sheet, new)
}

/// Applies a batch of edits to a `.docx` package: reads `document.xml` and
/// `styles.xml`, applies the batch, and writes `document.xml` back with every
/// other entry copied as it stands.
pub fn apply_edits_to_bytes_locked(
    bytes: &[u8],
    ops: &Vec<EditOp>,
    allowed_blocks: Option<(usize, usize)>,
) -> (r: DocResult<(Vec<u8>, Vec<AppliedOp>)>)
    ensures
        r is Ok ==> forall|i: int| 0 <= i < ops@.len() ==> lock_ok(#[trigger] ops@[i], allowed_blocks),
        r is Ok ==> ops@.len() > 0,
        r matches Ok(x) ==> forall|n: Seq<char>| n != "word/document.xml"@ ==> #[trigger] zip_entry_of(x.0@, n)
            == zip_entry_of(bytes@, n),
        r matches Ok(x) ==> package_edit_confined(bytes@, ops@, x.0@),
        r matches Ok(x) ==> x.1@.len() == ops@.len(),
{
    let xml = match crate::docx::read_document_xml(bytes) {
        Ok(x) => x,
        Err(e) => return Err(e),
    };
    let styles = match crate::docx::read_entry(bytes, "word/styles.xml") {
        Err(e) => return Err(e),
        Ok(Some(s)) => {
            let root = match crate::xml_dom::parse(s.as_slice()) {
                Ok(d) => d,
                Err(e) => return Err(e),
            };
            crate::styles::parse_styles(&root)
        },
        Ok(None) => Stylesheet::empty(),
    };
    let (new_xml, applied) = match apply_edits_locked(xml.as_slice(), &styles, ops, allowed_blocks) {
        Ok(x) => x,
        Err(e) => return Err(e),
    };
    let out = match crate::docx::repack_part(bytes, "word/document.xml", new_xml.as_slice()) {
        Ok(o) => o,
        Err(e) => return Err(e),
    };
    assert(doc_texts(bytes@, out@, xml@, new_xml@) && confined_edit(xml@, ops@, styles.view_styles(), new_xml@));
    Ok((out, applied))
}

/// [`apply_edits_to_bytes_locked`] without a lock.
pub fn apply_edits_to_bytes(bytes: &[u8], ops: &Vec<EditOp>) -> (r: DocResult<(Vec<u8>, Vec<AppliedOp>)>)
    ensures
        r is Ok ==> forall|i: int| 0 <= i < ops@.len() ==> lock_ok(#[trigger] ops@[i], None),
        r is Ok ==> ops@.len() > 0,
        r matches Ok(x) ==> forall|n: Seq<char>| n != "word/document.xml"@ ==> #[trigger] zip_entry_of(x.0@, n)
            == zip_entry_of(bytes@, n),
        r matches Ok(x) ==> package_edit_confined(bytes@, ops@, x.0@),
        r matches Ok(x) ==> x.1@.len() == ops@.len(),
{
    apply_edits_to_bytes_locked(bytes, ops, None)
}

} // verus!
