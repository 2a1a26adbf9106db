use vstd::prelude::*;
use vstd::string::StringSliceAdditionalSpecFns;
use crate::bytes_util::{push_bytes, push_str, str_bytes, slice_vec, contains, occurs, splice, splice_vec, spec_parse_u32, parse_u32, dec, push_usize};
use crate::docx_edit::{find_byte, find_byte_from, lemma_find_byte, element_span, find_element_span, attrs_from,
    tag_part, attrs_view, parse_attrs, key_index, spec_slice_ppr, slice_ppr, spec_slice_first_run_rpr,
    slice_first_run_rpr, line_paras_from, push_line_paras, spec_set_container_element, set_container_element_xml,
    spec_tcpr_elements, tcpr_elements, oview, MergeDirection, TableLevel, spec_tblpr_elements, tblpr_elements,
    spec_trpr_elements, trpr_elements, spec_cell_paragraphs, cell_paragraphs_xml, ParaFormat, CharFormat,
    spec_reformat_ppr, reformat_ppr, spec_restyle, restyle_paragraph, spec_reformat_runs, reformat_runs};
use crate::docx_model::{DocxDocument, SectionV, sections_view};
use crate::error::{DocError, DocResult, ErrorKind};
use crate::locate::{direct_children_spans, spec_direct_children, spans_ok};

verus! {

// ---------------------------------------------------------------------------
// Rows and cells of a table's markup
// ---------------------------------------------------------------------------

/// The `k`-th span (1-based).
pub open spec fn nth_span(sp: Seq<(usize, usize)>, k: int) -> Option<(usize, usize)> {
    if 1 <= k <= sp.len() {
        Some(sp[k - 1])
    } else {
        None
    }
}

/// The span of row `row` (1-based, direct `w:tr` children only).
pub open spec fn spec_row_span(b: Seq<u8>, row: int) -> Option<(usize, usize)> {
    nth_span(spec_direct_children(b, "tr".spec_bytes()), row)
}

/// The span of cell `cell` of a row (1-based, direct `w:tc` children only).
pub open spec fn spec_cell_span(r: Seq<u8>, cell: int) -> Option<(usize, usize)> {
    nth_span(spec_direct_children(r, "tc".spec_bytes()), cell)
}

fn nth_of(sp: &Vec<(usize, usize)>, k: usize) -> (r: Option<(usize, usize)>)
    ensures
        r == nth_span(sp@, k as int),
{
    if k == 0 || k > sp.len() {
        None
    } else {
        Some(sp[k - 1])
    }
}

/// The span of row `row` of a table; see [`spec_row_span`].
pub fn row_span_of(block_xml: &[u8], row: usize) -> (r: Option<(usize, usize)>)
    ensures
        r == spec_row_span(block_xml@, row as int),
        r matches Some((a, b)) ==> a < b <= block_xml@.len(),
{
    let rows = direct_children_spans(block_xml, "tr".as_bytes());
    nth_of(&rows, row)
}

/// The span of cell `cell` of a row; see [`spec_cell_span`].
pub fn cell_span_of(row_xml: &[u8], cell: usize) -> (r: Option<(usize, usize)>)
    ensures
        r == spec_cell_span(row_xml@, cell as int),
        r matches Some((a, b)) ==> a < b <= row_xml@.len(),
{
    let cells = direct_children_spans(row_xml, "tc".as_bytes());
    nth_of(&cells, cell)
}

// ---------------------------------------------------------------------------
// Grid span and vertical merge, read from markup
// ---------------------------------------------------------------------------

/// The value of the first `w:val` pair.
pub open spec fn val_of(a: Seq<(Seq<u8>, Seq<u8>)>) -> Option<Seq<u8>> {
    match key_index(a, "w:val".spec_bytes(), 0) {
        Some(i) => Some(a[i].1),
        None => None,
    }
}


/// The `w:val` attribute of the opening tag of `el`.
pub fn val_attr(el: &[u8]) -> (r: Option<Vec<u8>>)
    ensures
        match val_of(attrs_from(tag_part(el@))) {
            Some(v) => r matches Some(x) && x@ == v,
            None => r is None,
        },
{
    let attrs = parse_attrs(el);
    let ghost a = attrs_view(attrs@);
    let mut i: usize = 0;
    while i < attrs.len()
        invariant
            i <= attrs@.len(),
            a == attrs_view(attrs@),
            a == attrs_from(tag_part(el@)),
            key_index(a, "w:val".spec_bytes(), i as int) == key_index(a, "w:val".spec_bytes(), 0),
        decreases attrs@.len() - i,
    {
        assert(a[i as int] == (attrs@[i as int].0@, attrs@[i as int].1@));
        if crate::bytes_util::eq_str(attrs[i].0.as_slice(), "w:val") {
            assert(key_index(a, "w:val".spec_bytes(), i as int) == Some(i as int));
            let v = slice_vec(attrs[i].1.as_slice(), 0, attrs[i].1.len());
            assert(v@ =~= attrs@[i as int].1@);
            return Some(v);
        }
        i = i + 1;
    }
    None
}

/// The grid span of a cell's markup: the `w:val` of the `w:gridSpan` in its
/// `w:tcPr`, 1 when absent or not a number.
#[verifier::opaque]
pub open spec fn spec_grid_span(c: Seq<u8>) -> u32 {
    match element_span(c, "tcPr".spec_bytes()) {
        None => 1,
        Some((s, e)) => {
            let inner = c.subrange(s, e);
            match element_span(inner, "gridSpan".spec_bytes()) {
                None => 1,
                Some((gs, ge)) => match val_of(attrs_from(tag_part(inner.subrange(gs, ge)))) {
                    Some(v) => match spec_parse_u32(v) {
                        Some(n) => n,
                        None => 1,
                    },
                    None => 1,
                },
            }
        },
    }
}

/// The grid span of a cell, read from its markup; see [`spec_grid_span`].
pub fn xml_grid_span(cell_xml: &[u8]) -> (r: u32)
    ensures
        r == spec_grid_span(cell_xml@),
{
    reveal(spec_grid_span);
    let (s, e) = match find_element_span(cell_xml, "tcPr".as_bytes()) {
        Some(p) => p,
        None => return 1,
    };
    let inner = slice_vec(cell_xml, s, e);
    let (gs, ge) = match find_element_span(inner.as_slice(), "gridSpan".as_bytes()) {
        Some(p) => p,
        None => return 1,
    };
    let g = slice_vec(inner.as_slice(), gs, ge);
    match val_attr(g.as_slice()) {
        Some(v) => match parse_u32(v.as_slice()) {
            Some(n) => n,
            None => 1,
        },
        None => 1,
    }
}

/// The vertical merge mark of a cell's markup: the `w:val` of the
/// `w:vMerge` in its `w:tcPr`, `continue` for a bare `<w:vMerge/>`, none
/// without one.
#[verifier::opaque]
pub open spec fn spec_v_merge(c: Seq<u8>) -> Option<Seq<u8>> {
    match element_span(c, "tcPr".spec_bytes()) {
        None => None,
        Some((s, e)) => {
            let inner = c.subrange(s, e);
            match element_span(inner, "vMerge".spec_bytes()) {
                None => None,
                Some((vs, ve)) => Some(
                    match val_of(attrs_from(tag_part(inner.subrange(vs, ve)))) {
                        Some(v) => v,
                        None => "continue".spec_bytes(),
                    },
                ),
            }
        },
    }
}

/// The vertical merge mark of a cell; see [`spec_v_merge`].
pub fn xml_v_merge(cell_xml: &[u8]) -> (r: Option<Vec<u8>>)
    ensures
        match spec_v_merge(cell_xml@) {
            Some(v) => r matches Some(x) && x@ == v,
            None => r is None,
        },
{
    reveal(spec_v_merge);
    let (s, e) = match find_element_span(cell_xml, "tcPr".as_bytes()) {
        Some(p) => p,
        None => return None,
    };
    let inner = slice_vec(cell_xml, s, e);
    let (vs, ve) = match find_element_span(inner.as_slice(), "vMerge".as_bytes()) {
        Some(p) => p,
        None => return None,
    };
    let g = slice_vec(inner.as_slice(), vs, ve);
    match val_attr(g.as_slice()) {
        Some(v) => Some(v),
        None => Some(str_bytes("continue")),
    }
}

/// The first cell of `cs[i..]` that covers exactly the grid columns
/// `[g0, g1)`, the cells before it covering `start` columns.
pub open spec fn grid_match_from(r: Seq<u8>, cs: Seq<(usize, usize)>, g0: int, g1: int, i: int, start: int) -> Option<(usize, usize)>
    decreases cs.len() - i,
{
    if i < 0 || i >= cs.len() {
        None
    } else {
        let span = spec_grid_span(r.subrange(cs[i].0 as int, cs[i].1 as int)) as int;
        if start == g0 && start + span == g1 {
            Some(cs[i])
        } else {
            grid_match_from(r, cs, g0, g1, i + 1, start + span)
        }
    }
}

/// The cell of a row's markup that covers exactly the grid columns `[g0, g1)`.
pub open spec fn spec_cell_at_grid(r: Seq<u8>, g0: int, g1: int) -> Option<(usize, usize)> {
    grid_match_from(r, spec_direct_children(r, "tc".spec_bytes()), g0, g1, 0, 0)
}

proof fn lemma_grid_match_past(r: Seq<u8>, cs: Seq<(usize, usize)>, g0: int, g1: int, i: int, start: int)
    requires
        start > g0,
    ensures
        grid_match_from(r, cs, g0, g1, i, start) is None,
    decreases cs.len() - i,
{
    if 0 <= i < cs.len() {
        lemma_grid_match_past(r, cs, g0, g1, i + 1, start + spec_grid_span(r.subrange(cs[i].0 as int, cs[i].1 as int)) as int);
    }
}


/// The cell of a row covering exactly the grid columns `[g0, g1)`; see
/// [`spec_cell_at_grid`].
pub fn xml_cell_span_at_grid_range(row_xml: &[u8], g0: u32, g1: u32) -> (r: Option<(usize, usize)>)
    ensures
        r == spec_cell_at_grid(row_xml@, g0 as int, g1 as int),
        r matches Some((a, b)) ==> a < b <= row_xml@.len(),
{
    let cells = direct_children_spans(row_xml, "tc".as_bytes());
    let ghost cs = cells@;
    let mut start: u64 = 0;
    let mut i: usize = 0;
    while i < cells.len()
        invariant
            cs == cells@,
            i <= cs.len(),
            start <= g0,
            spans_ok(cs, row_xml@.len()),
            grid_match_from(row_xml@, cs, g0 as int, g1 as int, i as int, start as int)
                == spec_cell_at_grid(row_xml@, g0 as int, g1 as int),
        decreases cs.len() - i,
    {
        let (s, e) = cells[i];
        let c = slice_vec(row_xml, s, e);
        let span = xml_grid_span(c.as_slice()) as u64;
        if start == g0 as u64 && start + span == g1 as u64 {
            return Some((s, e));
        }
        start = start + span;
        i = i + 1;
        if start > g0 as u64 {
            proof {
                lemma_grid_match_past(row_xml@, cs, g0 as int, g1 as int, i as int, start as int);
            }
            return None;
        }
    }
    None
}

// ---------------------------------------------------------------------------
// Cell text
// ---------------------------------------------------------------------------

/// Where a cell's content ends: before its closing `</w:tc>` (or at 0).
pub open spec fn content_end(c: Seq<u8>) -> int {
    if c.len() >= "</w:tc>".spec_bytes().len() {
        c.len() - "</w:tc>".spec_bytes().len()
    } else {
        0
    }
}

/// A cell rewritten to hold `t`: its opening tag and `w:tcPr` kept, then one
/// paragraph per line with the first paragraph's `w:pPr` and first run's
/// `w:rPr` (an empty paragraph for empty text). `None` for a cell holding a
/// table, without a paragraph, or malformed.
#[verifier::opaque]
pub open spec fn spec_rebuild_cell(c: Seq<u8>, t: Seq<u8>) -> Option<Seq<u8>> {
    if occurs(c, "<w:tbl>".spec_bytes()) || occurs(c, "<w:tbl ".spec_bytes()) {
        None
    } else {
        match find_byte(c, 62, 0) {
            None => None,
            Some(g) => {
                let tcpr = element_span(c, "tcPr".spec_bytes());
                let from = match tcpr {
                    Some((_, e)) => e,
                    None => g + 1,
                };
                if from > content_end(c) {
                    None
                } else {
                    let content = c.subrange(from, content_end(c));
                    match element_span(content, "p".spec_bytes()) {
                        None => None,
                        Some((ps, pe)) => {
                            let p = content.subrange(ps, pe);
                            let ppr = spec_slice_ppr(p);
                            let paras = if t.len() == 0 {
                                "<w:p>".spec_bytes() + ppr + "</w:p>".spec_bytes()
                            } else {
                                line_paras_from(t, 0, ppr, spec_slice_first_run_rpr(p))
                            };
                            Some(c.subrange(0, g + 1) + match tcpr {
                                Some((s, e)) => c.subrange(s, e),
                                None => seq![],
                            } + paras + "</w:tc>".spec_bytes())
                        },
                    }
                }
            },
        }
    }
}

/// Rewrites a cell to hold `text`; see [`spec_rebuild_cell`].
pub fn rebuild_cell_content(cell_xml: &[u8], text: &[u8]) -> (r: Option<Vec<u8>>)
    ensures
        match spec_rebuild_cell(cell_xml@, text@) {
            Some(v) => r matches Some(x) && x@ == v,
            None => r is None,
        },
{
    reveal(spec_rebuild_cell);
    if contains(cell_xml, "<w:tbl>".as_bytes()) || contains(cell_xml, "<w:tbl ".as_bytes()) {
        return None;
    }
    let n = cell_xml.len();
    proof {
        lemma_find_byte(cell_xml@, 62, 0);
    }
    let g = match find_byte_from(cell_xml, 62, 0) {
        Some(g) => g,
        None => return None,
    };
    let tcpr = find_element_span(cell_xml, "tcPr".as_bytes());
    let from = match tcpr {
        Some((_, e)) => e,
        None => g + 1,
    };
    let close_len = "</w:tc>".as_bytes().len();
    let ce = if n >= close_len {
        n - close_len
    } else {
        0
    };
    if from > ce {
        return None;
    }
    let content = slice_vec(cell_xml, from, ce);
    let (ps, pe) = match find_element_span(content.as_slice(), "p".as_bytes()) {
        Some(p) => p,
        None => return None,
    };
    let p = slice_vec(content.as_slice(), ps, pe);
    let ppr = slice_ppr(p.as_slice());
    let mut out = slice_vec(cell_xml, 0, g + 1);
    match tcpr {
        Some((s, e)) => {
            let t = slice_vec(cell_xml, s, e);
            push_bytes(&mut out, t.as_slice());
        },
        None => {},
    }
    if text.len() == 0 {
        push_str(&mut out, "<w:p>");
        push_bytes(&mut out, ppr.as_slice());
        push_str(&mut out, "</w:p>");
    } else {
        let rpr = slice_first_run_rpr(p.as_slice());
        push_line_paras(&mut out, text, 0, ppr.as_slice(), rpr.as_slice());
    }
    push_str(&mut out, "</w:tc>");
    proof {
        let paras = if text@.len() == 0 {
            "<w:p>".spec_bytes() + ppr@ + "</w:p>".spec_bytes()
        } else {
            line_paras_from(text@, 0, ppr@, spec_slice_first_run_rpr(p@))
        };
        let tc = match tcpr {
            Some((s, e)) => cell_xml@.subrange(s as int, e as int),
            None => seq![],
        };
        assert(out@ =~= cell_xml@.subrange(0, g + 1) + tc + paras + "</w:tc>".spec_bytes());
    }
    Some(out)
}

/// A table with the text of cell (`row`, `cell`) replaced; see [`spec_rebuild_cell`].
pub open spec fn spec_set_cell_text(b: Seq<u8>, row: int, cell: int, t: Seq<u8>) -> Option<Seq<u8>> {
    match spec_row_span(b, row) {
        None => None,
        Some((rs, re)) => {
            let rx = b.subrange(rs as int, re as int);
            match spec_cell_span(rx, cell) {
                None => None,
                Some((cs, ce)) => match spec_rebuild_cell(rx.subrange(cs as int, ce as int), t) {
                    None => None,
                    Some(nc) => Some(splice(b, rs as int, re as int, splice(rx, cs as int, ce as int, nc))),
                },
            }
        },
    }
}

/// Replaces the text of cell (`row`, `cell`) (1-based, as the table
/// projection counts them); the rest of the table is kept byte for byte.
pub fn set_cell_text(block_xml: &[u8], row: usize, cell: usize, text: &[u8]) -> (r: Option<Vec<u8>>)
    ensures
        match spec_set_cell_text(block_xml@, row as int, cell as int, text@) {
            Some(v) => r matches Some(x) && x@ == v,
            None => r is None,
        },
{
    let (rs, re) = match row_span_of(block_xml, row) {
        Some(p) => p,
        None => return None,
    };
    let row_xml = slice_vec(block_xml, rs, re);
    let (cs, ce) = match cell_span_of(row_xml.as_slice(), cell) {
        Some(p) => p,
        None => return None,
    };
    let c = slice_vec(row_xml.as_slice(), cs, ce);
    let nc = match rebuild_cell_content(c.as_slice(), text) {
        Some(x) => x,
        None => return None,
    };
    let nr = splice_vec(row_xml.as_slice(), cs, ce, nc.as_slice());
    Some(splice_vec(block_xml, rs, re, nr.as_slice()))
}

// ---------------------------------------------------------------------------
// Rows
// ---------------------------------------------------------------------------

pub open spec fn texts_view(v: Option<&Vec<Vec<u8>>>) -> Option<Seq<Seq<u8>>> {
    match v {
        Some(t) => Some(t@.map_values(|x: Vec<u8>| x@)),
        None => None,
    }
}

/// The text for the `i`-th cell of a new row (empty past the given texts).
pub open spec fn text_for(cells: Option<Seq<Seq<u8>>>, i: int) -> Seq<u8> {
    match cells {
        Some(cs) => if 0 <= i < cs.len() {
            cs[i]
        } else {
            seq![]
        },
        None => seq![],
    }
}

/// The first `k` cells of the template row `tpl` (spans `tcs`), each
/// rewritten with its text; `None` if one cannot be.
pub open spec fn rebuilt_cells(tpl: Seq<u8>, tcs: Seq<(usize, usize)>, cells: Option<Seq<Seq<u8>>>, k: int) -> Option<Seq<u8>>
    decreases k,
{
    if k <= 0 {
        Some(seq![])
    } else {
        match rebuilt_cells(tpl, tcs, cells, k - 1) {
            None => None,
            Some(p) => match spec_rebuild_cell(tpl.subrange(tcs[k - 1].0 as int, tcs[k - 1].1 as int), text_for(cells, k - 1)) {
                None => None,
                Some(c) => Some(p + c),
            },
        }
    }
}

proof fn lemma_rebuilt_none(tpl: Seq<u8>, tcs: Seq<(usize, usize)>, cells: Option<Seq<Seq<u8>>>, k: int, n: int)
    requires
        0 <= k <= n,
        rebuilt_cells(tpl, tcs, cells, k) is None,
    ensures
        rebuilt_cells(tpl, tcs, cells, n) is None,
    decreases n - k,
{
    if k < n {
        lemma_rebuilt_none(tpl, tcs, cells, k + 1, n);
    }
}

/// A table with a row added after row `after_row` (default: the last): the
/// template row cloned with its properties and cell properties (grid spans
/// and merges kept), each cell holding the given text (empty by default).
pub open spec fn spec_insert_row_after(b: Seq<u8>, after_row: Option<usize>, cells: Option<Seq<Seq<u8>>>) -> Option<Seq<u8>> {
    let rows = spec_direct_children(b, "tr".spec_bytes());
    if rows.len() == 0 || after_row == Some(0usize) {
        None
    } else {
        let k: int = match after_row {
            Some(r) => r - 1,
            None => rows.len() - 1,
        };
        if k >= rows.len() {
            None
        } else {
            let tpl = b.subrange(rows[k].0 as int, rows[k].1 as int);
            let tcs = spec_direct_children(tpl, "tc".spec_bytes());
            if tcs.len() == 0 {
                None
            } else {
                match rebuilt_cells(tpl, tcs, cells, tcs.len() as int) {
                    None => None,
                    Some(body) => Some(splice(b, rows[k].1 as int, rows[k].1 as int,
                        tpl.subrange(0, tcs[0].0 as int) + body + "</w:tr>".spec_bytes())),
                }
            }
        }
    }
}

fn text_at(cells: Option<&Vec<Vec<u8>>>, i: usize) -> (r: Vec<u8>)
    ensures
        r@ == text_for(texts_view(cells), i as int),
{
    match cells {
        Some(v) => if i < v.len() {
            slice_vec(v[i].as_slice(), 0, v[i].len())
        } else {
            Vec::new()
        },
        None => Vec::new(),
    }
}

/// Adds a row after `after_row`; see [`spec_insert_row_after`].
pub fn insert_table_row_after(block_xml: &[u8], after_row: Option<usize>, cells: Option<&Vec<Vec<u8>>>) -> (r: Option<Vec<u8>>)
    ensures
        match spec_insert_row_after(block_xml@, after_row, texts_view(cells)) {
            Some(v) => r matches Some(x) && x@ == v,
            None => r is None,
        },
{
    let rows = direct_children_spans(block_xml, "tr".as_bytes());
    if rows.len() == 0 {
        return None;
    }
    let k = match after_row {
        Some(r) => {
            if r == 0 {
                return None;
            }
            r - 1
        },
        None => rows.len() - 1,
    };
    if k >= rows.len() {
        return None;
    }
    let (ts, te) = rows[k];
    let tpl = slice_vec(block_xml, ts, te);
    let tcs = direct_children_spans(tpl.as_slice(), "tc".as_bytes());
    if tcs.len() == 0 {
        return None;
    }
    let ghost cv = texts_view(cells);
    let mut body: Vec<u8> = Vec::new();
    let mut i: usize = 0;
    assert(rebuilt_cells(tpl@, tcs@, cv, 0) == Some(body@));
    while i < tcs.len()
        invariant
            i <= tcs@.len(),
            spans_ok(tcs@, tpl@.len()),
            cv == texts_view(cells),
            rows@ == spec_direct_children(block_xml@, "tr".spec_bytes()),
            rows@.len() > 0,
            after_row != Some(0usize),
            k < rows@.len(),
            k as int == match after_row {
                Some(r) => r - 1,
                None => rows@.len() - 1,
            },
            rows@[k as int] == (ts, te),
            tpl@ == block_xml@.subrange(ts as int, te as int),
            tcs@ == spec_direct_children(tpl@, "tc".spec_bytes()),
            tcs@.len() > 0,
            rebuilt_cells(tpl@, tcs@, cv, i as int) == Some(body@),
        decreases tcs@.len() - i,
    {
        let (cs, ce) = tcs[i];
        let c = slice_vec(tpl.as_slice(), cs, ce);
        let txt = text_at(cells, i);
        let ghost b0 = body@;
        match rebuild_cell_content(c.as_slice(), txt.as_slice()) {
            Some(nc) => {
                push_bytes(&mut body, nc.as_slice());
                assert(rebuilt_cells(tpl@, tcs@, cv, i + 1) == Some(b0 + nc@));
            },
            None => {
                assert(rebuilt_cells(tpl@, tcs@, cv, i + 1) is None);
                proof {
                    lemma_rebuilt_none(tpl@, tcs@, cv, i + 1, tcs@.len() as int);
                }
                return None;
            },
        }
        i = i + 1;
    }
    let mut new_row = slice_vec(tpl.as_slice(), 0, tcs[0].0);
    push_bytes(&mut new_row, body.as_slice());
    push_str(&mut new_row, "</w:tr>");
    Some(splice_vec(block_xml, te, te, new_row.as_slice()))
}

/// Removes row `row` (1-based, direct rows only), with a summary naming the
/// row and the rows left.
pub open spec fn spec_delete_row(t: Seq<u8>, row: int) -> Option<(Seq<u8>, Seq<u8>)> {
    let rows = spec_direct_children(t, "tr".spec_bytes());
    match nth_span(rows, row) {
        None => None,
        Some((rs, re)) => Some((splice(t, rs as int, re as int, seq![]), "删第 ".spec_bytes() + dec(row as nat)
            + " 行（剩 ".spec_bytes() + dec((rows.len() - 1) as nat) + " 行）".spec_bytes())),
    }
}

/// Deletes row `row` of a table; see [`spec_delete_row`].
pub fn delete_table_row_xml(table_xml: &[u8], row: usize) -> (r: Option<(Vec<u8>, Vec<u8>)>)
    ensures
        match spec_delete_row(table_xml@, row as int) {
            Some((t, m)) => r matches Some((x, y)) && x@ == t && y@ == m,
            None => r is None,
        },
{
    let rows = direct_children_spans(table_xml, "tr".as_bytes());
    let (rs, re) = match nth_of(&rows, row) {
        Some(p) => p,
        None => return None,
    };
    let empty: Vec<u8> = Vec::new();
    let out = splice_vec(table_xml, rs, re, empty.as_slice());
    assert(empty@ =~= seq![]);
    let mut m = str_bytes("删第 ");
    push_usize(&mut m, row);
    push_str(&mut m, " 行（剩 ");
    push_usize(&mut m, rows.len() - 1);
    push_str(&mut m, " 行）");
    Some((out, m))
}

// ---------------------------------------------------------------------------
// Merging and splitting cells
// ---------------------------------------------------------------------------

/// The grid columns covered by cells `cs[a..k]`.
pub open spec fn grid_sum(r: Seq<u8>, cs: Seq<(usize, usize)>, a: int, k: int) -> int
    decreases k - a,
{
    if k <= a {
        0
    } else {
        grid_sum(r, cs, a, k - 1) + spec_grid_span(r.subrange(cs[k - 1].0 as int, cs[k - 1].1 as int)) as int
    }
}

pub proof fn lemma_grid_sum_nonneg(r: Seq<u8>, cs: Seq<(usize, usize)>, a: int, k: int)
    ensures
        grid_sum(r, cs, a, k) >= 0,
    decreases k - a,
{
    if k > a {
        lemma_grid_sum_nonneg(r, cs, a, k - 1);
    }
}

/// The content of a cell: after its `w:tcPr` (or opening tag), before `</w:tc>`.
#[verifier::opaque]
pub open spec fn cell_content(c: Seq<u8>) -> Option<Seq<u8>> {
    match find_byte(c, 62, 0) {
        None => None,
        Some(g) => {
            let from = match element_span(c, "tcPr".spec_bytes()) {
                Some((_, e)) => e,
                None => g + 1,
            };
            if from > content_end(c) {
                None
            } else {
                Some(c.subrange(from, content_end(c)))
            }
        },
    }
}

fn cell_content_of(c: &[u8]) -> (r: Option<Vec<u8>>)
    ensures
        match cell_content(c@) {
            Some(v) => r matches Some(x) && x@ == v,
            None => r is None,
        },
{
    reveal(cell_content);
    let n = c.len();
    proof {
        lemma_find_byte(c@, 62, 0);
    }
    let g = match find_byte_from(c, 62, 0) {
        Some(g) => g,
        None => return None,
    };
    let from = match find_element_span(c, "tcPr".as_bytes()) {
        Some((_, e)) => e,
        None => g + 1,
    };
    let close_len = "</w:tc>".as_bytes().len();
    let ce = if n >= close_len {
        n - close_len
    } else {
        0
    };
    if from > ce {
        return None;
    }
    Some(slice_vec(c, from, ce))
}

/// The contents of cells `cs[a..k]`, in order.
pub open spec fn contents_concat(r: Seq<u8>, cs: Seq<(usize, usize)>, a: int, k: int) -> Option<Seq<u8>>
    decreases k - a,
{
    if k <= a {
        Some(seq![])
    } else {
        match contents_concat(r, cs, a, k - 1) {
            None => None,
            Some(p) => match cell_content(r.subrange(cs[k - 1].0 as int, cs[k - 1].1 as int)) {
                None => None,
                Some(c) => Some(p + c),
            },
        }
    }
}

proof fn lemma_contents_none(r: Seq<u8>, cs: Seq<(usize, usize)>, a: int, k: int, n: int)
    requires
        a <= k <= n,
        contents_concat(r, cs, a, k) is None,
    ensures
        contents_concat(r, cs, a, n) is None,
    decreases n - k,
{
    if k < n {
        lemma_contents_none(r, cs, a, k + 1, n);
    }
}

/// `<w:gridSpan w:val="n"/>`.
pub open spec fn grid_span_tag(n: nat) -> Seq<u8> {
    "<w:gridSpan w:val=\"".spec_bytes() + dec(n) + "\"/>".spec_bytes()
}

/// Cells `cell..cell+span-1` of row `row` merged into one: the first keeps
/// its opening tag and gets `w:gridSpan` = the columns they cover, then the
/// contents of all of them in order; the others go. Also the column count.
#[verifier::opaque]
pub open spec fn spec_merge_h(b: Seq<u8>, row: int, cell: int, span: int) -> Option<(Seq<u8>, u32)> {
    match spec_row_span(b, row) {
        None => None,
        Some((rs, re)) => {
            let rx = b.subrange(rs as int, re as int);
            let cs = spec_direct_children(rx, "tc".spec_bytes());
            if cell < 1 || span < 1 || cell - 1 + span - 1 >= cs.len() {
                None
            } else {
                let first = cell - 1;
                let last = cell - 1 + span - 1;
                let sum = grid_sum(rx, cs, first, last + 1);
                if sum > u32::MAX {
                    None
                } else {
                    let head = rx.subrange(cs[first].0 as int, cs[first].1 as int);
                    match spec_set_container_element(head, "tcPr".spec_bytes(), "gridSpan".spec_bytes(),
                        Some(grid_span_tag(sum as nat)), spec_tcpr_elements()) {
                        None => None,
                        Some((nh, _)) => match contents_concat(rx, cs, first, last + 1) {
                            None => None,
                            Some(content) => match find_byte(head, 62, 0) {
                                None => None,
                                Some(g) => match element_span(nh, "tcPr".spec_bytes()) {
                                    None => None,
                                    Some((ts, te)) => {
                                        let merged = head.subrange(0, g + 1) + nh.subrange(ts, te) + content
                                            + "</w:tc>".spec_bytes();
                                        Some((splice(b, rs as int, re as int, splice(rx, cs[first].0 as int,
                                            cs[last].1 as int, merged)), sum as u32))
                                    },
                                },
                            },
                        },
                    }
                }
            }
        },
    }
}

/// Merges cells `cell..cell+span-1` of row `row` into one; see [`spec_merge_h`].
#[verifier::loop_isolation(false)]
pub fn merge_horizontal_xml(block_xml: &[u8], row: usize, cell: usize, span: usize) -> (r: Option<(Vec<u8>, u32)>)
    ensures
        match spec_merge_h(block_xml@, row as int, cell as int, span as int) {
            Some((v, n)) => r matches Some((x, m)) && x@ == v && m == n,
            None => r is None,
        },
{
    reveal(spec_merge_h);
    let (rs, re) = match row_span_of(block_xml, row) {
        Some(p) => p,
        None => return None,
    };
    let rx = slice_vec(block_xml, rs, re);
    let cells = direct_children_spans(rx.as_slice(), "tc".as_bytes());
    let ghost cs = cells@;
    if cell < 1 || span < 1 || span - 1 >= cells.len() || cell - 1 >= cells.len() - (span - 1) {
        return None;
    }
    let first = cell - 1;
    let last = first + (span - 1);
    let mut sum: u64 = 0;
    let mut i = first;
    while i <= last
        invariant
            first <= i <= last + 1,
            last < cs.len(),
            cs == cells@,
            spans_ok(cs, rx@.len()),
            sum as int == grid_sum(rx@, cs, first as int, i as int),
            sum <= u32::MAX,
        decreases last + 1 - i,
    {
        let (s, e) = cells[i];
        let c = slice_vec(rx.as_slice(), s, e);
        let g = xml_grid_span(c.as_slice()) as u64;
        if sum + g > u32::MAX as u64 {
            proof {
                lemma_grid_sum_grows(rx@, cs, first as int, i + 1, last + 1);
            }
            return None;
        }
        sum = sum + g;
        i = i + 1;
    }
    let sum32 = sum as u32;
    let (hs, he) = cells[first];
    let head = slice_vec(rx.as_slice(), hs, he);
    let mut tag = str_bytes("<w:gridSpan w:val=\"");
    crate::bytes_util::push_u64(&mut tag, sum);
    push_str(&mut tag, "\"/>");
    let tcpr = tcpr_elements();
    let (nh, _) = match set_container_element_xml(head.as_slice(), "tcPr".as_bytes(), "gridSpan".as_bytes(),
        Some(tag.as_slice()), &tcpr) {
        Some(p) => p,
        None => return None,
    };
    let mut content: Vec<u8> = Vec::new();
    let mut j = first;
    while j <= last
        invariant
            first <= j <= last + 1,
            last < cs.len(),
            cs == cells@,
            spans_ok(cs, rx@.len()),
            contents_concat(rx@, cs, first as int, j as int) == Some(content@),
        decreases last + 1 - j,
    {
        let (s, e) = cells[j];
        let c = slice_vec(rx.as_slice(), s, e);
        match cell_content_of(c.as_slice()) {
            Some(x) => {
                let ghost c0 = content@;
                push_bytes(&mut content, x.as_slice());
                assert(contents_concat(rx@, cs, first as int, j + 1) == Some(c0 + x@));
            },
            None => {
                assert(contents_concat(rx@, cs, first as int, j + 1) is None);
                proof {
                    lemma_contents_none(rx@, cs, first as int, j + 1, last + 1);
                }
                return None;
            },
        }
        j = j + 1;
    }
    proof {
        lemma_find_byte(head@, 62, 0);
    }
    let g = match find_byte_from(head.as_slice(), 62, 0) {
        Some(g) => g,
        None => return None,
    };
    let (ts, te) = match find_element_span(nh.as_slice(), "tcPr".as_bytes()) {
        Some(p) => p,
        None => return None,
    };
    let mut merged = slice_vec(head.as_slice(), 0, g + 1);
    let t = slice_vec(nh.as_slice(), ts, te);
    push_bytes(&mut merged, t.as_slice());
    push_bytes(&mut merged, content.as_slice());
    push_str(&mut merged, "</w:tc>");
    let (_, le) = cells[last];
    assert(cs[first as int].0 <= cs[last as int].1) by {
        if first < last {
            assert(cs[first as int].1 <= cs[last as int].0);
        }
    }
    let nr = splice_vec(rx.as_slice(), hs, le, merged.as_slice());
    assert(grid_span_tag(sum as nat) == tag@);
    Some((splice_vec(block_xml, rs, re, nr.as_slice()), sum32))
}

proof fn lemma_grid_sum_grows(r: Seq<u8>, cs: Seq<(usize, usize)>, a: int, k: int, n: int)
    requires
        a <= k <= n,
    ensures
        grid_sum(r, cs, a, k) <= grid_sum(r, cs, a, n),
    decreases n - k,
{
    if k < n {
        lemma_grid_sum_grows(r, cs, a, k, n - 1);
    }
}

/// `<w:vMerge w:val="restart"/>` for the head of a vertical merge, `<w:vMerge/>` below it.
pub open spec fn vmerge_tag(head: bool) -> Seq<u8> {
    if head {
        "<w:vMerge w:val=\"restart\"/>".spec_bytes()
    } else {
        "<w:vMerge/>".spec_bytes()
    }
}

/// Rows `row+i..row+span-1` marked for a vertical merge over the grid
/// columns `[g0, g1)`: the markup from `cursor` on, after `acc`.
pub open spec fn vfix_from(b: Seq<u8>, rows: Seq<(usize, usize)>, row: int, g0: int, g1: int, span: int, i: int,
    cursor: int, acc: Seq<u8>) -> Option<Seq<u8>>
    decreases span - i,
{
    if i >= span {
        Some(acc + b.subrange(cursor, b.len() as int))
    } else {
        match nth_span(rows, row + i) {
            None => None,
            Some((rs, re)) => {
                let rx = b.subrange(rs as int, re as int);
                match spec_cell_at_grid(rx, g0, g1) {
                    None => None,
                    Some((cs, ce)) => match spec_set_container_element(rx.subrange(cs as int, ce as int),
                        "tcPr".spec_bytes(), "vMerge".spec_bytes(), Some(vmerge_tag(i == 0)), spec_tcpr_elements()) {
                        None => None,
                        Some((nc, _)) => vfix_from(b, rows, row, g0, g1, span, i + 1, re as int,
                            acc + b.subrange(cursor, rs as int) + splice(rx, cs as int, ce as int, nc)),
                    },
                }
            },
        }
    }
}

/// Cell `cell` of row `row` and the cells covering the same grid columns
/// in the `span - 1` rows below merged vertically: the first marked
/// `restart`, the others `continue`; contents stay.
#[verifier::opaque]
pub open spec fn spec_merge_v(b: Seq<u8>, row: int, cell: int, span: int) -> Option<Seq<u8>> {
    let rows = spec_direct_children(b, "tr".spec_bytes());
    match nth_span(rows, row) {
        None => None,
        Some((hrs, hre)) => {
            let hx = b.subrange(hrs as int, hre as int);
            let hc = spec_direct_children(hx, "tc".spec_bytes());
            if cell < 1 || cell > hc.len() {
                None
            } else {
                let g0 = grid_sum(hx, hc, 0, cell - 1);
                let g1 = g0 + spec_grid_span(hx.subrange(hc[cell - 1].0 as int, hc[cell - 1].1 as int)) as int;
                if g1 > u32::MAX {
                    None
                } else {
                    vfix_from(b, rows, row, g0, g1, span, 0, 0, seq![])
                }
            }
        },
    }
}

proof fn lemma_vfix_none(b: Seq<u8>, rows: Seq<(usize, usize)>, row: int, g0: int, g1: int, span: int, i: int,
    cursor: int, acc: Seq<u8>)
    requires
        0 <= i < span,
        nth_span(rows, row + i) is None,
    ensures
        vfix_from(b, rows, row, g0, g1, span, i, cursor, acc) is None,
{
}

/// The grid columns before cell `k` (0-based) of a row, and through it.
fn grid_before(rx: &[u8], cells: &Vec<(usize, usize)>, k: usize) -> (r: Option<(u32, u32)>)
    requires
        k < cells@.len(),
        spans_ok(cells@, rx@.len()),
    ensures
        ({
            let g0 = grid_sum(rx@, cells@, 0, k as int);
            let g1 = g0 + spec_grid_span(rx@.subrange(cells@[k as int].0 as int, cells@[k as int].1 as int)) as int;
            match r {
                Some((a, b)) => a as int == g0 && b as int == g1,
                None => g1 > u32::MAX,
            }
        }),
{
    let mut g: u64 = 0;
    let mut i: usize = 0;
    while i < k
        invariant
            i <= k < cells@.len(),
            spans_ok(cells@, rx@.len()),
            g as int == grid_sum(rx@, cells@, 0, i as int),
            g <= u32::MAX,
        decreases k - i,
    {
        let (s, e) = cells[i];
        let c = slice_vec(rx, s, e);
        let span = xml_grid_span(c.as_slice()) as u64;
        if g + span > u32::MAX as u64 {
            proof {
                lemma_grid_sum_grows(rx@, cells@, 0, i + 1, k as int);
                lemma_grid_sum_nonneg(rx@, cells@, 0, k as int);
            }
            return None;
        }
        g = g + span;
        i = i + 1;
    }
    let (s, e) = cells[k];
    let c = slice_vec(rx, s, e);
    let span = xml_grid_span(c.as_slice()) as u64;
    if g + span > u32::MAX as u64 {
        return None;
    }
    Some((g as u32, (g + span) as u32))
}

/// Merges cell (`row`, `cell`) with the `span - 1` cells below it; see [`spec_merge_v`].
#[verifier::loop_isolation(false)]
pub fn merge_vertical_xml(block_xml: &[u8], row: usize, cell: usize, span: usize) -> (r: Option<Vec<u8>>)
    ensures
        match spec_merge_v(block_xml@, row as int, cell as int, span as int) {
            Some(v) => r matches Some(x) && x@ == v,
            None => r is None,
        },
{
    reveal(spec_merge_v);
    let rows = direct_children_spans(block_xml, "tr".as_bytes());
    let (hrs, hre) = match nth_of(&rows, row) {
        Some(p) => p,
        None => return None,
    };
    let hx = slice_vec(block_xml, hrs, hre);
    let hc = direct_children_spans(hx.as_slice(), "tc".as_bytes());
    if cell < 1 || cell > hc.len() {
        return None;
    }
    let (g0, g1) = match grid_before(hx.as_slice(), &hc, cell - 1) {
        Some(p) => p,
        None => return None,
    };
    let tcpr = tcpr_elements();
    let mut out: Vec<u8> = Vec::new();
    let mut cursor: usize = 0;
    let mut i: usize = 0;
    let ghost rv = rows@;
    while i < span
        invariant
            rv == rows@,
            rv == spec_direct_children(block_xml@, "tr".spec_bytes()),
            spans_ok(rv, block_xml@.len()),
            1 <= row <= rv.len(),
            i <= span,
            tcpr@ == spec_tcpr_elements(),
            cursor <= block_xml@.len(),
            i > 0 ==> row - 1 + i <= rv.len() && cursor as int == rv[row - 1 + i - 1].1 as int,
            i == 0 ==> cursor == 0,
            vfix_from(block_xml@, rv, row as int, g0 as int, g1 as int, span as int, i as int, cursor as int, out@)
                == vfix_from(block_xml@, rv, row as int, g0 as int, g1 as int, span as int, 0, 0, seq![]),
        decreases span - i,
    {
        if i >= rows.len() - (row - 1) {
            proof {
                lemma_vfix_none(block_xml@, rv, row as int, g0 as int, g1 as int, span as int, i as int, cursor as int, out@);
            }
            return None;
        }
        let k = row - 1 + i;
        let (rs2, re2) = rows[k];
        assert(cursor <= rs2) by {
            if i > 0 {
                assert(rv[k - 1].1 <= rv[k as int].0);
            }
        }
        let rx = slice_vec(block_xml, rs2, re2);
        let (cs2, ce2) = match xml_cell_span_at_grid_range(rx.as_slice(), g0, g1) {
            Some(p) => p,
            None => return None,
        };
        let c = slice_vec(rx.as_slice(), cs2, ce2);
        let frag = if i == 0 {
            str_bytes("<w:vMerge w:val=\"restart\"/>")
        } else {
            str_bytes("<w:vMerge/>")
        };
        let (nc, _) = match set_container_element_xml(c.as_slice(), "tcPr".as_bytes(), "vMerge".as_bytes(),
            Some(frag.as_slice()), &tcpr) {
            Some(p) => p,
            None => return None,
        };
        let between = slice_vec(block_xml, cursor, rs2);
        push_bytes(&mut out, between.as_slice());
        let nr = splice_vec(rx.as_slice(), cs2, ce2, nc.as_slice());
        push_bytes(&mut out, nr.as_slice());
        cursor = re2;
        i = i + 1;
    }
    let tail = slice_vec(block_xml, cursor, block_xml.len());
    push_bytes(&mut out, tail.as_slice());
    Some(out)
}

/// Rows `r`, `r - 1`, …, `row` each with cells `cell..cell+width-1` merged.
pub open spec fn hfold(b: Seq<u8>, row: int, r: int, cell: int, width: int) -> Option<Seq<u8>>
    decreases r - row + 1,
{
    if r < row {
        Some(b)
    } else {
        match spec_merge_h(b, r, cell, width) {
            None => None,
            Some((nb, _)) => hfold(nb, row, r - 1, cell, width),
        }
    }
}

pub open spec fn msg_rect(row: nat, cell: nat, er: nat, ec: nat, width: nat, rows_n: nat) -> Seq<u8> {
    "r".spec_bytes() + dec(row) + "c".spec_bytes() + dec(cell) + "..r".spec_bytes() + dec(er) + "c".spec_bytes()
        + dec(ec) + " 矩形合并（".spec_bytes() + dec(width) + " 格宽 × ".spec_bytes() + dec(rows_n) + " 行）".spec_bytes()
}

pub open spec fn msg_merge_h(row: nat, cell: nat, s: nat, sum: nat) -> Seq<u8> {
    "r".spec_bytes() + dec(row) + " c".spec_bytes() + dec(cell) + " 起横并 ".spec_bytes() + dec(s) + " 格（跨 ".spec_bytes()
        + dec(sum) + " 列，内容已按序拼接）".spec_bytes()
}

pub open spec fn msg_merge_v(row: nat, cell: nat, s: nat) -> Seq<u8> {
    "r".spec_bytes() + dec(row) + "c".spec_bytes() + dec(cell) + " 起纵并 ".spec_bytes() + dec(s)
        + " 行（内容保留，split_cell 即恢复）".spec_bytes()
}

/// The rectangle from (`row`, `cell`) to (`er`, `ec`) merged, and its
/// summary: each row merged across (bottom row first), then the merged
/// column down.
#[verifier::opaque]
pub open spec fn spec_merge_rect(b: Seq<u8>, row: usize, cell: usize, er: usize, ec: usize) -> Option<(Seq<u8>, Seq<u8>)> {
    let width = ec - cell + 1;
    let rows_n = er - row + 1;
    let o1 = if ec > cell {
        hfold(b, row as int, er as int, cell as int, width)
    } else {
        Some(b)
    };
    match o1 {
        None => None,
        Some(o) => {
            let o2 = if er > row {
                spec_merge_v(o, row as int, cell as int, rows_n)
            } else {
                Some(o)
            };
            match o2 {
                None => None,
                Some(o) => Some((o, msg_rect(row as nat, cell as nat, er as nat, ec as nat, width as nat, rows_n as nat))),
            }
        },
    }
}

/// A line of `span` cells (default 2) from (`row`, `cell`) merged across or
/// down, and its summary.
#[verifier::opaque]
pub open spec fn spec_merge_line(b: Seq<u8>, dir: Option<MergeDirection>, row: usize, cell: usize, span: Option<usize>) -> Option<(Seq<u8>, Seq<u8>)> {
    match dir {
        None => None,
        Some(d) => {
            let s: usize = match span {
                Some(x) => x,
                None => 2,
            };
            match d {
                MergeDirection::Horizontal => match spec_merge_h(b, row as int, cell as int, s as int) {
                    None => None,
                    Some((o, sum)) => Some((o, msg_merge_h(row as nat, cell as nat, s as nat, sum as nat))),
                },
                MergeDirection::Vertical => match spec_merge_v(b, row as int, cell as int, s as int) {
                    None => None,
                    Some(o) => Some((o, msg_merge_v(row as nat, cell as nat, s as nat))),
                },
            }
        },
    }
}

/// A merge of cells, and its summary: the rectangle up to (`end_row`,
/// `end_cell`) where both are given, else a line.
pub open spec fn spec_merge_cells(b: Seq<u8>, dir: Option<MergeDirection>, row: usize, cell: usize, span: Option<usize>,
    end_row: Option<usize>, end_cell: Option<usize>) -> Option<(Seq<u8>, Seq<u8>)> {
    match (end_row, end_cell) {
        (Some(er), Some(ec)) => spec_merge_rect(b, row, cell, er, ec),
        _ => spec_merge_line(b, dir, row, cell, span),
    }
}

#[verifier::loop_isolation(false)]
fn merge_rect_xml(block_xml: &[u8], row: usize, cell: usize, er: usize, ec: usize) -> (r: Option<(Vec<u8>, Vec<u8>)>)
    requires
        row <= er,
        cell <= ec,
        ec - cell < usize::MAX,
        er - row < usize::MAX,
    ensures
        match spec_merge_rect(block_xml@, row, cell, er, ec) {
            Some((v, m)) => r matches Some((x, y)) && x@ == v && y@ == m,
            None => r is None,
        },
{
    reveal(spec_merge_rect);
    let width = ec - cell + 1;
    let rows_n = er - row + 1;
    let mut out = slice_vec(block_xml, 0, block_xml.len());
    assert(out@ =~= block_xml@);
    if ec > cell {
        let mut hi: usize = er - row + 1;
        while hi > 0
            invariant
                hi <= er - row + 1,
                width == ec - cell + 1,
                hfold(out@, row as int, row + hi - 1, cell as int, width as int)
                    == hfold(block_xml@, row as int, er as int, cell as int, width as int),
            decreases hi,
        {
            let r = row + (hi - 1);
            match merge_horizontal_xml(out.as_slice(), r, cell, width) {
                Some((next, _)) => {
                    out = next;
                },
                None => return None,
            }
            hi = hi - 1;
        }
    }
    if er > row {
        out = match merge_vertical_xml(out.as_slice(), row, cell, rows_n) {
            Some(o) => o,
            None => return None,
        };
    }
    let mut m = str_bytes("r");
    push_usize(&mut m, row);
    push_str(&mut m, "c");
    push_usize(&mut m, cell);
    push_str(&mut m, "..r");
    push_usize(&mut m, er);
    push_str(&mut m, "c");
    push_usize(&mut m, ec);
    push_str(&mut m, " 矩形合并（");
    push_usize(&mut m, width);
    push_str(&mut m, " 格宽 × ");
    push_usize(&mut m, rows_n);
    push_str(&mut m, " 行）");
    Some((out, m))
}

fn merge_line_xml(block_xml: &[u8], direction: Option<MergeDirection>, row: usize, cell: usize, span: Option<usize>) -> (r: Option<(Vec<u8>, Vec<u8>)>)
    ensures
        match spec_merge_line(block_xml@, direction, row, cell, span) {
            Some((v, m)) => r matches Some((x, y)) && x@ == v && y@ == m,
            None => r is None,
        },
{
    reveal(spec_merge_line);
    let d = match direction {
        Some(d) => d,
        None => return None,
    };
    let s: usize = match span {
        Some(x) => x,
        None => 2,
    };
    match d {
        MergeDirection::Horizontal => match merge_horizontal_xml(block_xml, row, cell, s) {
            None => None,
            Some((o, sum)) => {
                let mut m = str_bytes("r");
                push_usize(&mut m, row);
                push_str(&mut m, " c");
                push_usize(&mut m, cell);
                push_str(&mut m, " 起横并 ");
                push_usize(&mut m, s);
                push_str(&mut m, " 格（跨 ");
                crate::bytes_util::push_u64(&mut m, sum as u64);
                push_str(&mut m, " 列，内容已按序拼接）");
                Some((o, m))
            },
        },
        MergeDirection::Vertical => match merge_vertical_xml(block_xml, row, cell, s) {
            None => None,
            Some(o) => {
                let mut m = str_bytes("r");
                push_usize(&mut m, row);
                push_str(&mut m, "c");
                push_usize(&mut m, cell);
                push_str(&mut m, " 起纵并 ");
                push_usize(&mut m, s);
                push_str(&mut m, " 行（内容保留，split_cell 即恢复）");
                Some((o, m))
            },
        },
    }
}

/// Merges cells; see [`spec_merge_cells`].
pub fn merge_cells_xml(
    block_xml: &[u8],
    direction: Option<MergeDirection>,
    row: usize,
    cell: usize,
    span: Option<usize>,
    end_row: Option<usize>,
    end_cell: Option<usize>,
) -> (r: Option<(Vec<u8>, Vec<u8>)>)
    requires
        end_row matches Some(er) ==> (end_cell matches Some(ec) ==> (row <= er && cell <= ec && ec - cell < usize::MAX
            && er - row < usize::MAX)),
    ensures
        match spec_merge_cells(block_xml@, direction, row, cell, span, end_row, end_cell) {
            Some((v, m)) => r matches Some((x, y)) && x@ == v && y@ == m,
            None => r is None,
        },
{
    match (end_row, end_cell) {
        (Some(er), Some(ec)) => merge_rect_xml(block_xml, row, cell, er, ec),
        _ => merge_line_xml(block_xml, direction, row, cell, span),
    }
}

/// The cells of a vertical merge chain, from row `row + i` down: the head
/// (which must be marked `restart`), then each `continue` cell covering the
/// grid columns `[g0, g1)`, up to the first row that breaks the chain.
pub open spec fn chain_from(b: Seq<u8>, rows: Seq<(usize, usize)>, row: int, g0: int, g1: int, i: int,
    acc: Seq<(usize, usize, usize, usize)>) -> Option<Seq<(usize, usize, usize, usize)>>
    decreases rows.len() - (row - 1) - i,
{
    if i < 0 || row < 1 || row - 1 + i >= rows.len() {
        Some(acc)
    } else {
        let (rs, re) = rows[row - 1 + i];
        let rx = b.subrange(rs as int, re as int);
        match spec_cell_at_grid(rx, g0, g1) {
            None => Some(acc),
            Some((cs, ce)) => {
                let vm = spec_v_merge(rx.subrange(cs as int, ce as int));
                if i == 0 {
                    if vm != Some("restart".spec_bytes()) {
                        None
                    } else {
                        chain_from(b, rows, row, g0, g1, i + 1, acc.push((rs, re, cs, ce)))
                    }
                } else if vm == Some("continue".spec_bytes()) {
                    chain_from(b, rows, row, g0, g1, i + 1, acc.push((rs, re, cs, ce)))
                } else {
                    Some(acc)
                }
            },
        }
    }
}

/// The markup with the `w:vMerge` of each chain cell `chain[k..]` cut.
pub open spec fn unmerge_from(b: Seq<u8>, chain: Seq<(usize, usize, usize, usize)>, k: int, cursor: int, acc: Seq<u8>) -> Option<Seq<u8>>
    decreases chain.len() - k,
{
    if k < 0 || k >= chain.len() {
        Some(acc + b.subrange(cursor, b.len() as int))
    } else {
        let (rs, re, cs, ce) = chain[k];
        let rx = b.subrange(rs as int, re as int);
        match spec_set_container_element(rx.subrange(cs as int, ce as int), "tcPr".spec_bytes(), "vMerge".spec_bytes(),
            None, spec_tcpr_elements()) {
            None => None,
            Some((nc, _)) => unmerge_from(b, chain, k + 1, re as int, acc + b.subrange(cursor, rs as int) + splice(rx,
                cs as int, ce as int, nc)),
        }
    }
}

/// `u` repeated `k` times.
pub open spec fn repeat(u: Seq<u8>, k: nat) -> Seq<u8>
    decreases k,
{
    if k == 0 {
        seq![]
    } else {
        repeat(u, (k - 1) as nat) + u
    }
}

/// A vertical split of cell (`row`, `cell`) and its summary: the merge
/// chain headed there loses its `w:vMerge` marks, each cell showing its own
/// content again.
#[verifier::opaque]
pub open spec fn spec_split_v(b: Seq<u8>, row: usize, cell: usize) -> Option<(Seq<u8>, Seq<u8>)> {
    let rows = spec_direct_children(b, "tr".spec_bytes());
    match nth_span(rows, row as int) {
        None => None,
        Some((hrs, hre)) => {
            let hx = b.subrange(hrs as int, hre as int);
            let hc = spec_direct_children(hx, "tc".spec_bytes());
            if cell < 1 || cell > hc.len() {
                None
            } else {
                let g0 = grid_sum(hx, hc, 0, cell - 1);
                let g1 = g0 + spec_grid_span(hx.subrange(hc[cell - 1].0 as int, hc[cell - 1].1 as int)) as int;
                if g1 > u32::MAX {
                    None
                } else {
                    match chain_from(b, rows, row as int, g0, g1, 0, seq![]) {
                        None => None,
                        Some(chain) => match unmerge_from(b, chain, 0, 0, seq![]) {
                            None => None,
                            Some(o) => Some((o, "r".spec_bytes() + dec(row as nat) + "c".spec_bytes() + dec(cell as nat)
                                + " 纵并链拆分，".spec_bytes() + dec(chain.len()) + " 格恢复独立显示".spec_bytes())),
                        },
                    }
                }
            }
        },
    }
}

/// A horizontal split of cell (`row`, `cell`) and its summary: a cell
/// spanning `n` columns loses its `w:gridSpan` and is followed by `n - 1`
/// cells with the same opening tag and properties and one empty paragraph
/// (the first paragraph's `w:pPr`).
#[verifier::opaque]
pub open spec fn spec_split_h(b: Seq<u8>, row: usize, cell: usize) -> Option<(Seq<u8>, Seq<u8>)> {
    match spec_row_span(b, row as int) {
        None => None,
        Some((rs, re)) => {
            let rx = b.subrange(rs as int, re as int);
            match spec_cell_span(rx, cell as int) {
                None => None,
                Some((cs, ce)) => {
                    let cx = rx.subrange(cs as int, ce as int);
                    let n = spec_grid_span(cx);
                    if n < 2 {
                        None
                    } else {
                        match spec_set_container_element(cx, "tcPr".spec_bytes(), "gridSpan".spec_bytes(), None,
                            spec_tcpr_elements()) {
                            None => None,
                            Some((ns, _)) => match find_byte(cx, 62, 0) {
                                None => None,
                                Some(g) => {
                                    let tl = element_span(ns, "tcPr".spec_bytes());
                                    let from = match tl {
                                        Some((_, e)) => e,
                                        None => g + 1,
                                    };
                                    if from > content_end(ns) {
                                        None
                                    } else {
                                        let content = ns.subrange(from, content_end(ns));
                                        match element_span(content, "p".spec_bytes()) {
                                            None => None,
                                            Some((ps, pe)) => {
                                                let ppr = spec_slice_ppr(content.subrange(ps, pe));
                                                let unit = cx.subrange(0, g + 1) + match tl {
                                                    Some((ts, te)) => ns.subrange(ts, te),
                                                    None => seq![],
                                                } + "<w:p>".spec_bytes() + ppr + "</w:p>".spec_bytes()
                                                    + "</w:tc>".spec_bytes();
                                                Some((splice(b, rs as int, re as int, splice(rx, cs as int, ce as int,
                                                    ns + repeat(unit, (n - 1) as nat))), "r".spec_bytes() + dec(row as nat)
                                                    + "c".spec_bytes() + dec(cell as nat) + " 横并拆回 ".spec_bytes()
                                                    + dec(n as nat) + " 格（内容留首格）".spec_bytes()))
                                            },
                                        }
                                    }
                                },
                            },
                        }
                    }
                },
            }
        },
    }
}

/// A split of cell (`row`, `cell`) down or across, and its summary.
pub open spec fn spec_split_cell(b: Seq<u8>, dir: MergeDirection, row: usize, cell: usize) -> Option<(Seq<u8>, Seq<u8>)> {
    match dir {
        MergeDirection::Vertical => spec_split_v(b, row, cell),
        MergeDirection::Horizontal => spec_split_h(b, row, cell),
    }
}

/// Splits the vertical merge chain headed at (`row`, `cell`); see [`spec_split_v`].
#[verifier::loop_isolation(false)]
fn split_vertical_xml(block_xml: &[u8], row: usize, cell: usize) -> (r: Option<(Vec<u8>, Vec<u8>)>)
    ensures
        match spec_split_v(block_xml@, row, cell) {
            Some((v, m)) => r matches Some((x, y)) && x@ == v && y@ == m,
            None => r is None,
        },
{
    reveal(spec_split_v);
    let tcpr = tcpr_elements();
    let rows = direct_children_spans(block_xml, "tr".as_bytes());
    let ghost rv = rows@;
    let (hrs, hre) = match nth_of(&rows, row) {
        Some(p) => p,
        None => return None,
    };
    let hx = slice_vec(block_xml, hrs, hre);
    let hc = direct_children_spans(hx.as_slice(), "tc".as_bytes());
    if cell < 1 || cell > hc.len() {
        return None;
    }
    let (g0, g1) = match grid_before(hx.as_slice(), &hc, cell - 1) {
        Some(p) => p,
        None => return None,
    };
    let mut chain: Vec<(usize, usize, usize, usize)> = Vec::new();
    let mut i: usize = 0;
    let n_iter = rows.len() - (row - 1);
    loop
        invariant
            i <= n_iter,
            chain_from(block_xml@, rv, row as int, g0 as int, g1 as int, i as int, chain@)
                == chain_from(block_xml@, rv, row as int, g0 as int, g1 as int, 0, seq![]),
            forall|j: int| 0 <= j < chain@.len() ==> {
                let (a, b, c, d) = #[trigger] chain@[j];
                a < b <= block_xml@.len() && c < d <= b - a
            },
            forall|j: int, l: int| 0 <= j < l < chain@.len() ==> (#[trigger] chain@[j]).1 <= (#[trigger] chain@[l]).0,
            chain@.len() > 0 ==> chain@.last().1 <= rv[row - 1 + i - 1].1,
            chain@.len() <= i,
        decreases n_iter - i,
    {
        if i >= n_iter {
            break;
        }
        let k = row - 1 + i;
        let (rs2, re2) = rows[k];
        let rx = slice_vec(block_xml, rs2, re2);
        let (cs2, ce2) = match xml_cell_span_at_grid_range(rx.as_slice(), g0, g1) {
            Some(p) => p,
            None => break,
        };
        let cxml = slice_vec(rx.as_slice(), cs2, ce2);
        let vm = xml_v_merge(cxml.as_slice());
        let is_restart = match &vm {
            Some(v) => crate::bytes_util::eq_str(v.as_slice(), "restart"),
            None => false,
        };
        let is_continue = match &vm {
            Some(v) => crate::bytes_util::eq_str(v.as_slice(), "continue"),
            None => false,
        };
        proof {
            if chain@.len() > 0 {
                assert(rv[k - 1].1 <= rv[k as int].0);
            }
        }
        if i == 0 {
            if !is_restart {
                return None;
            }
            chain.push((rs2, re2, cs2, ce2));
        } else {
            if is_continue {
                chain.push((rs2, re2, cs2, ce2));
            } else {
                break;
            }
        }
        i = i + 1;
    }
    let count = chain.len();
    let mut out: Vec<u8> = Vec::new();
    let mut cursor: usize = 0;
    let mut j: usize = 0;
    let ghost ch = chain@;
    while j < chain.len()
        invariant
            ch == chain@,
            j <= ch.len(),
            cursor <= block_xml@.len(),
            j > 0 ==> cursor == ch[j - 1].1,
            j == 0 ==> cursor == 0,
            unmerge_from(block_xml@, ch, j as int, cursor as int, out@) == unmerge_from(block_xml@, ch, 0, 0, seq![]),
        decreases ch.len() - j,
    {
        let (rs2, re2, cs2, ce2) = chain[j];
        assert(cursor <= rs2) by {
            if j > 0 {
                assert(ch[j - 1].1 <= ch[j as int].0);
            }
        }
        let rx = slice_vec(block_xml, rs2, re2);
        let c = slice_vec(rx.as_slice(), cs2, ce2);
        let (nc, _) = match set_container_element_xml(c.as_slice(), "tcPr".as_bytes(), "vMerge".as_bytes(), None, &tcpr) {
            Some(p) => p,
            None => return None,
        };
        let between = slice_vec(block_xml, cursor, rs2);
        push_bytes(&mut out, between.as_slice());
        let nr = splice_vec(rx.as_slice(), cs2, ce2, nc.as_slice());
        push_bytes(&mut out, nr.as_slice());
        cursor = re2;
        j = j + 1;
    }
    let tail = slice_vec(block_xml, cursor, block_xml.len());
    push_bytes(&mut out, tail.as_slice());
    let mut m = str_bytes("r");
    push_usize(&mut m, row);
    push_str(&mut m, "c");
    push_usize(&mut m, cell);
    push_str(&mut m, " 纵并链拆分，");
    push_usize(&mut m, count);
    push_str(&mut m, " 格恢复独立显示");
    Some((out, m))
}

/// Splits a cell spanning several columns; see [`spec_split_h`].
fn split_horizontal_xml(block_xml: &[u8], row: usize, cell: usize) -> (r: Option<(Vec<u8>, Vec<u8>)>)
    ensures
        match spec_split_h(block_xml@, row, cell) {
            Some((v, m)) => r matches Some((x, y)) && x@ == v && y@ == m,
            None => r is None,
        },
{
    reveal(spec_split_h);
    let tcpr = tcpr_elements();
    let (rs, re) = match row_span_of(block_xml, row) {
        Some(p) => p,
        None => return None,
    };
    let rx = slice_vec(block_xml, rs, re);
    let (cs, ce) = match cell_span_of(rx.as_slice(), cell) {
        Some(p) => p,
        None => return None,
    };
    let cx = slice_vec(rx.as_slice(), cs, ce);
    let n = xml_grid_span(cx.as_slice());
    if n < 2 {
        return None;
    }
    let (ns, _) = match set_container_element_xml(cx.as_slice(), "tcPr".as_bytes(), "gridSpan".as_bytes(), None, &tcpr) {
        Some(p) => p,
        None => return None,
    };
    proof {
        lemma_find_byte(cx@, 62, 0);
    }
    let g = match find_byte_from(cx.as_slice(), 62, 0) {
        Some(g) => g,
        None => return None,
    };
    let tl = find_element_span(ns.as_slice(), "tcPr".as_bytes());
    let from = match tl {
        Some((_, e)) => e,
        None => g + 1,
    };
    let nl = ns.len();
    let close_len = "</w:tc>".as_bytes().len();
    let cend = if nl >= close_len {
        nl - close_len
    } else {
        0
    };
    if from > cend {
        return None;
    }
    let content = slice_vec(ns.as_slice(), from, cend);
    let (ps, pe) = match find_element_span(content.as_slice(), "p".as_bytes()) {
        Some(p) => p,
        None => return None,
    };
    let p = slice_vec(content.as_slice(), ps, pe);
    let ppr = slice_ppr(p.as_slice());
    let mut unit = slice_vec(cx.as_slice(), 0, g + 1);
    match tl {
        Some((ts, te)) => {
            let t = slice_vec(ns.as_slice(), ts, te);
            push_bytes(&mut unit, t.as_slice());
        },
        None => {},
    }
    push_str(&mut unit, "<w:p>");
    push_bytes(&mut unit, ppr.as_slice());
    push_str(&mut unit, "</w:p>");
    push_str(&mut unit, "</w:tc>");
    let mut cellrun = slice_vec(ns.as_slice(), 0, ns.len());
    assert(cellrun@ =~= ns@);
    let mut k: u32 = 0;
    while k < n - 1
        invariant
            k <= n - 1,
            cellrun@ == ns@ + repeat(unit@, k as nat),
        decreases n - 1 - k,
    {
        push_bytes(&mut cellrun, unit.as_slice());
        k = k + 1;
    }
    let nr = splice_vec(rx.as_slice(), cs, ce, cellrun.as_slice());
    let out = splice_vec(block_xml, rs, re, nr.as_slice());
    let mut m = str_bytes("r");
    push_usize(&mut m, row);
    push_str(&mut m, "c");
    push_usize(&mut m, cell);
    push_str(&mut m, " 横并拆回 ");
    crate::bytes_util::push_u64(&mut m, n as u64);
    push_str(&mut m, " 格（内容留首格）");
    proof {
        let tcv = match tl {
            Some((ts, te)) => ns@.subrange(ts as int, te as int),
            None => seq![],
        };
        assert(unit@ =~= cx@.subrange(0, g + 1) + tcv + "<w:p>".spec_bytes() + ppr@ + "</w:p>".spec_bytes()
            + "</w:tc>".spec_bytes());
    }
    Some((out, m))
}

/// Splits cell (`row`, `cell`); see [`spec_split_cell`].
pub fn split_cell_xml(block_xml: &[u8], direction: MergeDirection, row: usize, cell: usize) -> (r: Option<(Vec<u8>, Vec<u8>)>)
    ensures
        match spec_split_cell(block_xml@, direction, row, cell) {
            Some((v, m)) => r matches Some((x, y)) && x@ == v && y@ == m,
            None => r is None,
        },
{
    match direction {
        MergeDirection::Vertical => split_vertical_xml(block_xml, row, cell),
        MergeDirection::Horizontal => split_horizontal_xml(block_xml, row, cell),
    }
}

// ---------------------------------------------------------------------------
// Table, row and cell properties
// ---------------------------------------------------------------------------

/// An edit of element `el` of the table's `w:tblPr`, row `row`'s `w:trPr`
/// or cell (`row`, `cell`)'s `w:tcPr`; see [`spec_set_container_element`].
pub open spec fn spec_set_table_element(b: Seq<u8>, level: TableLevel, row: Option<usize>, cell: Option<usize>,
    el: Seq<u8>, frag: Option<Seq<u8>>) -> Option<(Seq<u8>, bool)> {
    match level {
        TableLevel::Table => spec_set_container_element(b, "tblPr".spec_bytes(), el, frag, spec_tblpr_elements()),
        TableLevel::Row => match row {
            None => None,
            Some(r) => match spec_row_span(b, r as int) {
                None => None,
                Some((rs, re)) => match spec_set_container_element(b.subrange(rs as int, re as int), "trPr".spec_bytes(),
                    el, frag, spec_trpr_elements()) {
                    None => None,
                    Some((nr, ch)) => Some((splice(b, rs as int, re as int, nr), ch)),
                },
            },
        },
        TableLevel::Cell => match (row, cell) {
            (Some(r), Some(c)) => match spec_row_span(b, r as int) {
                None => None,
                Some((rs, re)) => {
                    let rx = b.subrange(rs as int, re as int);
                    match spec_cell_span(rx, c as int) {
                        None => None,
                        Some((cs, ce)) => match spec_set_container_element(rx.subrange(cs as int, ce as int),
                            "tcPr".spec_bytes(), el, frag, spec_tcpr_elements()) {
                            None => None,
                            Some((nc, ch)) => Some((splice(b, rs as int, re as int, splice(rx, cs as int, ce as int, nc)), ch)),
                        },
                    }
                },
            },
            _ => None,
        },
    }
}

/// Edits a table, row or cell property element; see [`spec_set_table_element`].
pub fn set_table_element_xml(
    block_xml: &[u8],
    level: TableLevel,
    row: Option<usize>,
    cell: Option<usize>,
    element: &[u8],
    frag: Option<&[u8]>,
) -> (r: Option<(Vec<u8>, bool)>)
    ensures
        match spec_set_table_element(block_xml@, level, row, cell, element@, oview(frag)) {
            Some((v, ch)) => r matches Some((x, c2)) && x@ == v && c2 == ch,
            None => r is None,
        },
{
    match level {
        TableLevel::Table => {
            let wl = tblpr_elements();
            set_container_element_xml(block_xml, "tblPr".as_bytes(), element, frag, &wl)
        },
        TableLevel::Row => {
            let r = match row {
                Some(r) => r,
                None => return None,
            };
            let (rs, re) = match row_span_of(block_xml, r) {
                Some(p) => p,
                None => return None,
            };
            let rx = slice_vec(block_xml, rs, re);
            let wl = trpr_elements();
            match set_container_element_xml(rx.as_slice(), "trPr".as_bytes(), element, frag, &wl) {
                None => None,
                Some((nr, ch)) => Some((splice_vec(block_xml, rs, re, nr.as_slice()), ch)),
            }
        },
        TableLevel::Cell => {
            let (r, c) = match (row, cell) {
                (Some(r), Some(c)) => (r, c),
                _ => return None,
            };
            let (rs, re) = match row_span_of(block_xml, r) {
                Some(p) => p,
                None => return None,
            };
            let rx = slice_vec(block_xml, rs, re);
            let (cs, ce) = match cell_span_of(rx.as_slice(), c) {
                Some(p) => p,
                None => return None,
            };
            let cx = slice_vec(rx.as_slice(), cs, ce);
            let wl = tcpr_elements();
            match set_container_element_xml(cx.as_slice(), "tcPr".as_bytes(), element, frag, &wl) {
                None => None,
                Some((nc, ch)) => {
                    let nr = splice_vec(rx.as_slice(), cs, ce, nc.as_slice());
                    Some((splice_vec(block_xml, rs, re, nr.as_slice()), ch))
                },
            }
        },
    }
}

// ---------------------------------------------------------------------------
// New tables
// ---------------------------------------------------------------------------

/// The most rows a new table may have.
pub const TABLE_MAX_ROWS: usize = 200;

/// The most columns a new table may have.
pub const TABLE_MAX_COLS: usize = 30;

pub open spec fn rows_view(rows: Seq<Vec<Vec<u8>>>) -> Seq<Seq<Seq<u8>>> {
    rows.map_values(|r: Vec<Vec<u8>>| r@.map_values(|c: Vec<u8>| c@))
}

/// A table's text matrix is usable: 1 to 200 rows, every row with the
/// first row's 1 to 30 cells.
pub open spec fn table_rows_ok(rows: Seq<Seq<Seq<u8>>>) -> bool {
    &&& 1 <= rows.len() <= TABLE_MAX_ROWS
    &&& 1 <= rows[0].len() <= TABLE_MAX_COLS
    &&& forall|i: int| 0 <= i < rows.len() ==> (#[trigger] rows[i]).len() == rows[0].len()
}

/// Checks a table's text matrix; see [`table_rows_ok`].
pub fn validate_table_rows(rows: &Vec<Vec<Vec<u8>>>) -> (r: DocResult<()>)
    ensures
        r is Ok <==> table_rows_ok(rows_view(rows@)),
        r matches Err(e) ==> e.kind == ErrorKind::Validation,
{
    proof {
        assert(rows_view(rows@).len() == rows@.len());
    }
    if rows.len() == 0 {
        return Err(DocError::validation(str_bytes("表格数据无效: rows 为空，至少一行（首行默认表头）")));
    }
    if rows.len() > TABLE_MAX_ROWS {
        let mut m = str_bytes("表格数据无效: 行数 ");
        push_usize(&mut m, rows.len());
        push_str(&mut m, " 超上限 200——先建前 200 行，余下 insert_table_row_after 分批增补");
        return Err(DocError::validation(m));
    }
    let cols = rows[0].len();
    assert(rows_view(rows@)[0].len() == cols);
    if cols == 0 || cols > TABLE_MAX_COLS {
        let mut m = str_bytes("表格数据无效: 列数 ");
        push_usize(&mut m, cols);
        push_str(&mut m, " 越界（每行须 1..=30 格）");
        return Err(DocError::validation(m));
    }
    let mut i: usize = 0;
    while i < rows.len()
        invariant
            i <= rows@.len(),
            cols == rows@[0]@.len(),
            forall|j: int| 0 <= j < i ==> (#[trigger] rows_view(rows@)[j]).len() == cols,
        decreases rows@.len() - i,
    {
        assert(rows_view(rows@)[i as int].len() == rows@[i as int]@.len());
        if rows[i].len() != cols {
            let mut m = str_bytes("表格数据无效: 第 ");
            push_usize(&mut m, i + 1);
            push_str(&mut m, " 行 ");
            push_usize(&mut m, rows[i].len());
            push_str(&mut m, " 格与首行 ");
            push_usize(&mut m, cols);
            push_str(&mut m, " 格不一致——rows 须矩形矩阵（格内多段用 \\n 表达，勿多造行）");
            return Err(DocError::validation(m));
        }
        i = i + 1;
    }
    Ok(())
}

/// The last `Some` of a property over the sections, else `dflt`.
pub open spec fn last_page_w(ss: Seq<SectionV>) -> Option<u32>
    decreases ss.len(),
{
    if ss.len() == 0 {
        None
    } else if ss.last().page_w is Some {
        ss.last().page_w
    } else {
        last_page_w(ss.drop_last())
    }
}

pub open spec fn last_margin_left(ss: Seq<SectionV>) -> u32
    decreases ss.len(),
{
    if ss.len() == 0 {
        1440
    } else {
        match ss.last().margin_left {
            Some(m) => m,
            None => last_margin_left(ss.drop_last()),
        }
    }
}

pub open spec fn last_margin_right(ss: Seq<SectionV>) -> u32
    decreases ss.len(),
{
    if ss.len() == 0 {
        1440
    } else {
        match ss.last().margin_right {
            Some(m) => m,
            None => last_margin_right(ss.drop_last()),
        }
    }
}

pub open spec fn sat_sub(a: int, b: int) -> int {
    if a >= b {
        a - b
    } else {
        0
    }
}

/// The width of the text area: page width (default 12240) less the left
/// and right margins (default 1440 each), as the last section that gives
/// each one says; 9026 when that leaves under 2000.
pub open spec fn spec_content_width(ss: Seq<SectionV>) -> u32 {
    let pw: int = match last_page_w(ss) {
        Some(w) => w as int,
        None => 12240,
    };
    let w = sat_sub(sat_sub(pw, last_margin_left(ss) as int), last_margin_right(ss) as int);
    if w < 2000 {
        9026
    } else {
        w as u32
    }
}

/// The width of the text area in twips; see [`spec_content_width`].
pub fn content_width_twips(model: &DocxDocument) -> (r: u32)
    ensures
        r == spec_content_width(sections_view(model.sections@)),
{
    let ghost ss = sections_view(model.sections@);
    let mut page_w: Option<u32> = None;
    let mut margin_l: u32 = 1440;
    let mut margin_r: u32 = 1440;
    let mut i: usize = 0;
    while i < model.sections.len()
        invariant
            i <= model.sections@.len(),
            ss == sections_view(model.sections@),
            page_w == last_page_w(ss.subrange(0, i as int)),
            margin_l == last_margin_left(ss.subrange(0, i as int)),
            margin_r == last_margin_right(ss.subrange(0, i as int)),
        decreases model.sections@.len() - i,
    {
        assert(ss.subrange(0, i + 1).drop_last() =~= ss.subrange(0, i as int));
        assert(ss.subrange(0, i + 1).last() == model.sections@[i as int]@);
        let s = &model.sections[i];
        match s.page_w {
            Some(w) => {
                page_w = Some(w);
            },
            None => {},
        }
        match s.margin_left {
            Some(m) => {
                margin_l = m;
            },
            None => {},
        }
        match s.margin_right {
            Some(m) => {
                margin_r = m;
            },
            None => {},
        }
        i = i + 1;
    }
    assert(ss.subrange(0, i as int) =~= ss);
    let pw: u32 = match page_w {
        Some(w) => w,
        None => 12240,
    };
    let w = pw.saturating_sub(margin_l).saturating_sub(margin_r);
    if w < 2000 {
        9026
    } else {
        w
    }
}

/// The paragraphs of each cell text of a table row, each in a `w:tc` of
/// width `col_w`.
pub open spec fn cells_xml(cells: Seq<Seq<u8>>, header: bool, col_w: u32) -> Seq<u8>
    decreases cells.len(),
{
    if cells.len() == 0 {
        seq![]
    } else {
        cells_xml(cells.drop_last(), header, col_w) + "<w:tc><w:tcPr><w:tcW w:w=\"".spec_bytes() + dec(col_w as nat)
            + "\" w:type=\"dxa\"/></w:tcPr>".spec_bytes() + spec_cell_paragraphs(cells.last(), header)
            + "</w:tc>".spec_bytes()
    }
}

/// The rows of a new table; the first is the header row when `header`.
pub open spec fn rows_xml(rows: Seq<Seq<Seq<u8>>>, header: bool, col_w: u32) -> Seq<u8>
    decreases rows.len(),
{
    if rows.len() == 0 {
        seq![]
    } else {
        let h = header && rows.len() == 1;
        rows_xml(rows.drop_last(), header, col_w) + "<w:tr>".spec_bytes() + (if h {
            "<w:trPr><w:tblHeader/></w:trPr>".spec_bytes()
        } else {
            seq![]
        }) + cells_xml(rows.last(), h, col_w) + "</w:tr>".spec_bytes()
    }
}

/// The column count of a new table (the first row's, at least 1).
pub open spec fn table_cols(rows: Seq<Seq<Seq<u8>>>) -> int {
    let c = if rows.len() > 0 {
        rows[0].len() as int
    } else {
        1
    };
    if c < 1 {
        1
    } else {
        c
    }
}

/// The width of each column: the text width shared evenly, at least 200.
pub open spec fn table_col_w(rows: Seq<Seq<Seq<u8>>>, width: u32) -> u32 {
    let w = width as int / table_cols(rows);
    if w < 200 {
        200
    } else {
        w as u32
    }
}

/// The borders of a new table: single lines all round and inside.
pub open spec fn table_borders() -> Seq<u8> {
    "<w:top w:val=\"single\" w:sz=\"4\" w:space=\"0\" w:color=\"auto\"/><w:left w:val=\"single\" w:sz=\"4\" w:space=\"0\" w:color=\"auto\"/><w:bottom w:val=\"single\" w:sz=\"4\" w:space=\"0\" w:color=\"auto\"/><w:right w:val=\"single\" w:sz=\"4\" w:space=\"0\" w:color=\"auto\"/><w:insideH w:val=\"single\" w:sz=\"4\" w:space=\"0\" w:color=\"auto\"/><w:insideV w:val=\"single\" w:sz=\"4\" w:space=\"0\" w:color=\"auto\"/>".spec_bytes()
}

/// The head of a new table: its properties (the style `style_id` when
/// given, full width, all borders) and a grid of `cols` columns of `col_w`.
pub open spec fn table_head(style_id: Option<Seq<u8>>, col_w: u32, cols: nat) -> Seq<u8> {
    "<w:tbl><w:tblPr>".spec_bytes() + match style_id {
        Some(sid) => "<w:tblStyle w:val=\"".spec_bytes() + sid + "\"/>".spec_bytes(),
        None => seq![],
    } + "<w:tblW w:w=\"5000\" w:type=\"pct\"/><w:tblBorders>".spec_bytes() + table_borders()
        + "</w:tblBorders></w:tblPr><w:tblGrid>".spec_bytes() + repeat("<w:gridCol w:w=\"".spec_bytes() + dec(col_w as nat)
        + "\"/>".spec_bytes(), cols) + "</w:tblGrid>".spec_bytes()
}

/// A new table: the head, then the rows (the first one the header when
/// `header`), columns of even width.
pub open spec fn spec_build_table(rows: Seq<Seq<Seq<u8>>>, header: bool, style_id: Option<Seq<u8>>, width: u32) -> Seq<u8> {
    table_head(style_id, table_col_w(rows, width), table_cols(rows) as nat) + rows_xml(rows, header, table_col_w(rows, width))
        + "</w:tbl>".spec_bytes()
}

fn table_head_of(style_id: Option<&[u8]>, col_w: u32, cols: usize) -> (r: Vec<u8>)
    ensures
        r@ == table_head(oview(style_id), col_w, cols as nat),
{
    let mut s = str_bytes("<w:tbl><w:tblPr>");
    match style_id {
        Some(sid) => {
            push_str(&mut s, "<w:tblStyle w:val=\"");
            push_bytes(&mut s, sid);
            push_str(&mut s, "\"/>");
        },
        None => {},
    }
    push_str(&mut s, "<w:tblW w:w=\"5000\" w:type=\"pct\"/><w:tblBorders>");
    push_str(&mut s, "<w:top w:val=\"single\" w:sz=\"4\" w:space=\"0\" w:color=\"auto\"/><w:left w:val=\"single\" w:sz=\"4\" w:space=\"0\" w:color=\"auto\"/><w:bottom w:val=\"single\" w:sz=\"4\" w:space=\"0\" w:color=\"auto\"/><w:right w:val=\"single\" w:sz=\"4\" w:space=\"0\" w:color=\"auto\"/><w:insideH w:val=\"single\" w:sz=\"4\" w:space=\"0\" w:color=\"auto\"/><w:insideV w:val=\"single\" w:sz=\"4\" w:space=\"0\" w:color=\"auto\"/>");
    push_str(&mut s, "</w:tblBorders></w:tblPr><w:tblGrid>");
    let mut gc = str_bytes("<w:gridCol w:w=\"");
    crate::bytes_util::push_u64(&mut gc, col_w as u64);
    push_str(&mut gc, "\"/>");
    let ghost head = s@;
    let mut k: usize = 0;
    while k < cols
        invariant
            k <= cols,
            s@ == head + repeat(gc@, k as nat),
        decreases cols - k,
    {
        push_bytes(&mut s, gc.as_slice());
        k = k + 1;
    }
    push_str(&mut s, "</w:tblGrid>");
    s
}

fn push_cells(out: &mut Vec<u8>, cells: &Vec<Vec<u8>>, header: bool, col_w: u32)
    ensures
        final(out)@ == old(out)@ + cells_xml(cells@.map_values(|c: Vec<u8>| c@), header, col_w),
{
    let ghost o0 = out@;
    let ghost cv = cells@.map_values(|c: Vec<u8>| c@);
    let mut i: usize = 0;
    while i < cells.len()
        invariant
            i <= cells@.len(),
            o0 == old(out)@,
            cv == cells@.map_values(|c: Vec<u8>| c@),
            out@ == o0 + cells_xml(cv.subrange(0, i as int), header, col_w),
        decreases cells@.len() - i,
    {
        assert(cv.subrange(0, i + 1).drop_last() =~= cv.subrange(0, i as int));
        assert(cv.subrange(0, i + 1).last() == cells@[i as int]@);
        push_str(out, "<w:tc><w:tcPr><w:tcW w:w=\"");
        crate::bytes_util::push_u64(out, col_w as u64);
        push_str(out, "\" w:type=\"dxa\"/></w:tcPr>");
        let ps = cell_paragraphs_xml(cells[i].as_slice(), header);
        push_bytes(out, ps.as_slice());
        push_str(out, "</w:tc>");
        i = i + 1;
    }
    assert(cv.subrange(0, i as int) =~= cv);
}

/// Builds a new table; see [`spec_build_table`].
pub fn build_table_xml(rows: &Vec<Vec<Vec<u8>>>, header: bool, style_id: Option<&[u8]>, width_tw: u32) -> (r: Vec<u8>)
    ensures
        r@ == spec_build_table(rows_view(rows@), header, oview(style_id), width_tw),
{
    let ghost rv = rows_view(rows@);
    let c0: usize = if rows.len() > 0 {
        rows[0].len()
    } else {
        1
    };
    let cols: usize = if c0 < 1 {
        1
    } else {
        c0
    };
    assert(cols as int == table_cols(rv));
    let cw: u64 = (width_tw as u64) / (cols as u64);
    let col_w: u32 = if cw < 200 {
        200
    } else {
        cw as u32
    };
    assert(col_w == table_col_w(rv, width_tw));
    let mut s = table_head_of(style_id, col_w, cols);
    let ghost head2 = s@;
    let mut i: usize = 0;
    while i < rows.len()
        invariant
            i <= rows@.len(),
            rv == rows_view(rows@),
            s@ == head2 + rows_xml(rv.subrange(0, i as int), header, col_w),
        decreases rows@.len() - i,
    {
        assert(rv.subrange(0, i + 1).drop_last() =~= rv.subrange(0, i as int));
        assert(rv.subrange(0, i + 1).last() == rows@[i as int]@.map_values(|c: Vec<u8>| c@));
        let h = header && i == 0;
        push_str(&mut s, "<w:tr>");
        if h {
            push_str(&mut s, "<w:trPr><w:tblHeader/></w:trPr>");
        }
        push_cells(&mut s, &rows[i], h, col_w);
        push_str(&mut s, "</w:tr>");
        proof {
            let hr = if h {
                "<w:trPr><w:tblHeader/></w:trPr>".spec_bytes()
            } else {
                seq![]
            };
            assert(s@ =~= head2 + rows_xml(rv.subrange(0, i as int), header, col_w) + "<w:tr>".spec_bytes() + hr
                + cells_xml(rv.subrange(0, i + 1).last(), h, col_w) + "</w:tr>".spec_bytes());
        }
        i = i + 1;
    }
    assert(rv.subrange(0, i as int) =~= rv);
    push_str(&mut s, "</w:tbl>");
    s
}

// ---------------------------------------------------------------------------
// Cell formatting
// ---------------------------------------------------------------------------

/// The paragraphs at `spans[..k]` of `out` formatted, last first.
pub open spec fn reformat_fold(out: Seq<u8>, spans: Seq<(usize, usize)>, k: int, p: ParaFormat) -> Option<Seq<u8>>
    decreases k,
{
    if k <= 0 || k > spans.len() {
        Some(out)
    } else {
        match spec_reformat_ppr(out.subrange(spans[k - 1].0 as int, spans[k - 1].1 as int), p) {
            None => None,
            Some(np) => reformat_fold(splice(out, spans[k - 1].0 as int, spans[k - 1].1 as int, np), spans, k - 1, p),
        }
    }
}

/// The paragraphs at `spans[..k]` of `out` given style `id`, last first.
pub open spec fn restyle_fold(out: Seq<u8>, spans: Seq<(usize, usize)>, k: int, id: Seq<u8>) -> Option<Seq<u8>>
    decreases k,
{
    if k <= 0 || k > spans.len() {
        Some(out)
    } else {
        match spec_restyle(out.subrange(spans[k - 1].0 as int, spans[k - 1].1 as int), id) {
            None => None,
            Some(np) => restyle_fold(splice(out, spans[k - 1].0 as int, spans[k - 1].1 as int, np), spans, k - 1, id),
        }
    }
}

/// A cell formatted: the paragraph format on each of its paragraphs, then
/// the style on each, then the character format on every run. `None` for a
/// cell holding a table or, when a paragraph format or style is given, one
/// without paragraphs.
pub open spec fn spec_cell_format(cx: Seq<u8>, p: Option<ParaFormat>, c: Option<CharFormat>, sid: Option<Seq<u8>>) -> Option<Seq<u8>> {
    if occurs(cx, "<w:tbl>".spec_bytes()) || occurs(cx, "<w:tbl ".spec_bytes()) {
        None
    } else {
        let o1 = match p {
            None => Some(cx),
            Some(pf) => {
                let ps = spec_direct_children(cx, "p".spec_bytes());
                if ps.len() == 0 {
                    None
                } else {
                    reformat_fold(cx, ps, ps.len() as int, pf)
                }
            },
        };
        match o1 {
            None => None,
            Some(o) => {
                let o2 = match sid {
                    None => Some(o),
                    Some(id) => {
                        let ps = spec_direct_children(o, "p".spec_bytes());
                        if ps.len() == 0 {
                            None
                        } else {
                            restyle_fold(o, ps, ps.len() as int, id)
                        }
                    },
                };
                match o2 {
                    None => None,
                    Some(o) => match c {
                        None => Some(o),
                        Some(cf) => spec_reformat_runs(o, cf),
                    },
                }
            },
        }
    }
}

/// A table with cell (`row`, `cell`) formatted; see [`spec_cell_format`].
pub open spec fn spec_set_cell_format(b: Seq<u8>, row: int, cell: int, p: Option<ParaFormat>, c: Option<CharFormat>,
    sid: Option<Seq<u8>>) -> Option<Seq<u8>> {
    match spec_row_span(b, row) {
        None => None,
        Some((rs, re)) => {
            let rx = b.subrange(rs as int, re as int);
            match spec_cell_span(rx, cell) {
                None => None,
                Some((cs, ce)) => match spec_cell_format(rx.subrange(cs as int, ce as int), p, c, sid) {
                    None => None,
                    Some(nc) => Some(splice(b, rs as int, re as int, splice(rx, cs as int, ce as int, nc))),
                },
            }
        },
    }
}

pub open spec fn pview(p: Option<&ParaFormat>) -> Option<ParaFormat> {
    match p {
        Some(x) => Some(*x),
        None => None,
    }
}

pub open spec fn cview(c: Option<&CharFormat>) -> Option<CharFormat> {
    match c {
        Some(x) => Some(*x),
        None => None,
    }
}

#[verifier::loop_isolation(false)]
fn cell_format(cx: &[u8], paragraph: Option<&ParaFormat>, character: Option<&CharFormat>, style_id: Option<&[u8]>) -> (r: Option<Vec<u8>>)
    ensures
        match spec_cell_format(cx@, pview(paragraph), cview(character), oview(style_id)) {
            Some(v) => r matches Some(x) && x@ == v,
            None => r is None,
        },
{
    if contains(cx, "<w:tbl>".as_bytes()) || contains(cx, "<w:tbl ".as_bytes()) {
        return None;
    }
    let mut out = slice_vec(cx, 0, cx.len());
    assert(out@ =~= cx@);
    match paragraph {
        None => {},
        Some(pf) => {
            let ps = direct_children_spans(out.as_slice(), "p".as_bytes());
            if ps.len() == 0 {
                return None;
            }
            let ghost o0 = out@;
            let mut k = ps.len();
            while k > 0
                invariant
                    k <= ps@.len(),
                    ps@ == spec_direct_children(o0, "p".spec_bytes()),
                    spans_ok(ps@, o0.len()),
                    k > 0 ==> ps@[k - 1].1 <= out@.len(),
                    reformat_fold(out@, ps@, k as int, *pf) == reformat_fold(o0, ps@, ps@.len() as int, *pf),
                decreases k,
            {
                let (a, b) = ps[k - 1];
                let seg = slice_vec(out.as_slice(), a, b);
                let np = match reformat_ppr(seg.as_slice(), pf) {
                    Some(x) => x,
                    None => return None,
                };
                out = splice_vec(out.as_slice(), a, b, np.as_slice());
                assert(k > 1 ==> ps@[k - 2].1 <= ps@[k - 1].0);
                k = k - 1;
            }
        },
    }
    match style_id {
        None => {},
        Some(id) => {
            let ps = direct_children_spans(out.as_slice(), "p".as_bytes());
            if ps.len() == 0 {
                return None;
            }
            let ghost o0 = out@;
            let mut k = ps.len();
            while k > 0
                invariant
                    k <= ps@.len(),
                    ps@ == spec_direct_children(o0, "p".spec_bytes()),
                    spans_ok(ps@, o0.len()),
                    k > 0 ==> ps@[k - 1].1 <= out@.len(),
                    restyle_fold(out@, ps@, k as int, id@) == restyle_fold(o0, ps@, ps@.len() as int, id@),
                decreases k,
            {
                let (a, b) = ps[k - 1];
                let seg = slice_vec(out.as_slice(), a, b);
                let np = match restyle_paragraph(seg.as_slice(), id) {
                    Some(x) => x,
                    None => return None,
                };
                out = splice_vec(out.as_slice(), a, b, np.as_slice());
                assert(k > 1 ==> ps@[k - 2].1 <= ps@[k - 1].0);
                k = k - 1;
            }
        },
    }
    match character {
        None => Some(out),
        Some(cf) => reformat_runs(out.as_slice(), cf),
    }
}

/// Formats cell (`row`, `cell`) of a table; see [`spec_set_cell_format`].
pub fn set_cell_format_xml(
    block_xml: &[u8],
    row: usize,
    cell: usize,
    paragraph: Option<&ParaFormat>,
    character: Option<&CharFormat>,
    style_id: Option<&[u8]>,
) -> (r: Option<Vec<u8>>)
    ensures
        match spec_set_cell_format(block_xml@, row as int, cell as int, pview(paragraph), cview(character), oview(style_id)) {
            Some(v) => r matches Some(x) && x@ == v,
            None => r is None,
        },
{
    let (rs, re) = match row_span_of(block_xml, row) {
        Some(p) => p,
        None => return None,
    };
    let rx = slice_vec(block_xml, rs, re);
    let (cs, ce) = match cell_span_of(rx.as_slice(), cell) {
        Some(p) => p,
        None => return None,
    };
    let cx = slice_vec(rx.as_slice(), cs, ce);
    let nc = match cell_format(cx.as_slice(), paragraph, character, style_id) {
        Some(x) => x,
        None => return None,
    };
    let nr = splice_vec(rx.as_slice(), cs, ce, nc.as_slice());
    Some(splice_vec(block_xml, rs, re, nr.as_slice()))
}

} // verus!
