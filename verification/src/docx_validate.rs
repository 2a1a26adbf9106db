use vstd::prelude::*;
use vstd::utf8::*;
use vstd::string::StringSliceAdditionalSpecFns;
use crate::bytes_util::{push_bytes, push_str, push_usize, str_bytes, bytes_eq, contains, starts_with,
    occurs, has_at, truncate_chars, char_count, count_chars, eq_str};
use crate::error::{DocError, DocResult, ErrorKind, bytes_to_string};
use crate::docx_model::{Block, BlockV, RowV, CellV, Table, TableCell, blocks_view, block_view, lemma_blocks_view_index, rows_view, cells_view, cell_view, blocks_text, blocks_text_of, block_text_of, runs_text_into};
use crate::styles::{Stylesheet, StyleV, index_of_id};
use crate::docx;
use crate::xml_dom;
use crate::docx_model;
use crate::styles;

verus! {

/// Upper bound on the assertions of one batch.
pub const MAX_ASSERTS: usize = 50;

/// Characters kept of a text in a failure detail.
pub const CLIP: usize = 60;

/// One assertion on a document.
#[derive(Debug)]
pub enum AssertSpec {
    /// The document has `equals` blocks.
    BlockCount { equals: usize },
    /// Block `block` (1-based) is a table of the given shape; each part is optional.
    /// Columns count as the largest sum of `gridSpan` over a row; the style
    /// matches by display name or by ID.
    TableShape { block: usize, rows: Option<usize>, cols: Option<usize>, style: Option<String> },
    /// The full text of paragraph block `block`; exactly one matcher is given.
    BlockText { block: usize, equals: Option<String>, contains: Option<String>, starts_with: Option<String> },
    /// The display name of the style of paragraph block `block` (`(无样式)` without one).
    BlockStyle { block: usize, equals: String },
    /// The full text of cell (`row`, `cell`) of table block `block`, its
    /// paragraphs joined by line breaks; exactly one matcher is given.
    CellText {
        block: usize,
        row: usize,
        cell: usize,
        equals: Option<String>,
        contains: Option<String>,
        starts_with: Option<String>,
    },
    /// The number of paragraphs of a cell (nested tables not counted).
    CellParagraphCount { block: usize, row: usize, cell: usize, equals: usize },
}

/// Why an assertion failed.
#[derive(Clone, Copy, PartialEq, Eq, Structural, Debug)]
pub enum FailCause {
    /// The block number is 0 or past the last block.
    BlockOutOfRange,
    /// The block is a paragraph where a table was asserted.
    NotTable,
    /// The block is a table where a paragraph was asserted.
    NotParagraph,
    RowsMismatch,
    ColsMismatch,
    StyleMismatch,
    TextMismatch,
    /// No matcher was given.
    NoMatcher,
    RowOutOfRange,
    CellOutOfRange,
    /// The cell continues a vertical merge; its content is in the head cell.
    ContinuationCell,
    CountMismatch,
}

/// The kinds of assertions.
#[derive(Clone, Copy, PartialEq, Eq, Structural, Debug)]
pub enum AssertKind {
    BlockCount,
    TableShape,
    BlockText,
    BlockStyle,
    CellText,
    CellParagraphCount,
}

/// The snake_case name of a kind.
pub open spec fn kind_name(k: AssertKind) -> &'static str {
    match k {
        AssertKind::BlockCount => "block_count",
        AssertKind::TableShape => "table_shape",
        AssertKind::BlockText => "block_text",
        AssertKind::BlockStyle => "block_style",
        AssertKind::CellText => "cell_text",
        AssertKind::CellParagraphCount => "cell_paragraph_count",
    }
}

impl AssertKind {
    /// The snake_case name of the kind.
    pub fn as_str(self) -> (r: &'static str)
        ensures
            r == kind_name(self),
    {
        match self {
            AssertKind::BlockCount => "block_count",
            AssertKind::TableShape => "table_shape",
            AssertKind::BlockText => "block_text",
            AssertKind::BlockStyle => "block_style",
            AssertKind::CellText => "cell_text",
            AssertKind::CellParagraphCount => "cell_paragraph_count",
        }
    }
}

/// One failed assertion.
#[derive(Debug)]
pub struct AssertFailure {
    /// Kind of the assertion (`block_count`, `table_shape`, ...).
    pub kind: &'static str,
    /// Where: `全文`, `块N` or `块N rRcC`.
    pub target: String,
    /// Expected against actual.
    pub detail: String,
    /// Why it failed.
    pub cause: FailCause,
}

/// Outcome of a batch of assertions.
#[derive(Debug)]
pub struct ValidateReport {
    pub passed: bool,
    pub total: usize,
    pub failed: usize,
    /// The failed assertions in order.
    pub failures: Vec<AssertFailure>,
    /// Kinds of the passed assertions in order of first appearance, with a
    /// count after `×` when a kind passed more than once.
    pub passed_kinds: Vec<String>,
}

// ---------------------------------------------------------------------------
// Spec
// ---------------------------------------------------------------------------

/// UTF-8 bytes of a string.
pub open spec fn sb(s: String) -> Seq<u8> {
    encode_utf8(s@)
}

pub open spec fn osb(s: Option<String>) -> Option<Seq<u8>> {
    match s {
        Some(v) => Some(sb(v)),
        None => None,
    }
}

/// Number of matchers given.
pub open spec fn matchers(e: Option<String>, c: Option<String>, s: Option<String>) -> nat {
    (if e is Some { 1nat } else { 0nat }) + (if c is Some { 1nat } else { 0nat }) + (if s is Some { 1nat } else { 0nat })
}

/// An assertion that is structurally sound: a text assertion names exactly one matcher.
pub open spec fn well_formed(a: AssertSpec) -> bool {
    match a {
        AssertSpec::BlockText { equals, contains, starts_with, .. } => matchers(equals, contains, starts_with) == 1,
        AssertSpec::CellText { equals, contains, starts_with, .. } => matchers(equals, contains, starts_with) == 1,
        _ => true,
    }
}

/// A batch that `check_asserts` accepts.
pub open spec fn batch_ok(asserts: Seq<AssertSpec>) -> bool {
    &&& asserts.len() > 0
    &&& asserts.len() <= MAX_ASSERTS
    &&& forall|i: int| 0 <= i < asserts.len() ==> well_formed(#[trigger] asserts[i])
}

/// The kind of an assertion.
pub open spec fn kind_of(a: AssertSpec) -> AssertKind {
    match a {
        AssertSpec::BlockCount { .. } => AssertKind::BlockCount,
        AssertSpec::TableShape { .. } => AssertKind::TableShape,
        AssertSpec::BlockText { .. } => AssertKind::BlockText,
        AssertSpec::BlockStyle { .. } => AssertKind::BlockStyle,
        AssertSpec::CellText { .. } => AssertKind::CellText,
        AssertSpec::CellParagraphCount { .. } => AssertKind::CellParagraphCount,
    }
}

/// `s` without its trailing line breaks.
pub open spec fn strip_nl(s: Seq<u8>) -> Seq<u8>
    decreases s.len(),
{
    if s.len() > 0 && s[s.len() - 1] == 10 {
        strip_nl(s.subrange(0, s.len() - 1))
    } else {
        s
    }
}

/// Whether `actual` meets the first matcher given (none given fails).
pub open spec fn text_matches(e: Option<Seq<u8>>, c: Option<Seq<u8>>, s: Option<Seq<u8>>, actual: Seq<u8>) -> bool {
    match e {
        Some(w) => actual == w,
        None => match c {
            Some(w) => occurs(actual, w),
            None => match s {
                Some(w) => has_at(actual, 0, w),
                None => false,
            },
        },
    }
}

/// Sum of the grid spans of a row (a missing span counts 1).
pub open spec fn row_span_sum(cs: Seq<CellV>) -> int
    decreases cs.len(),
{
    if cs.len() == 0 {
        0
    } else {
        row_span_sum(cs.subrange(0, cs.len() - 1)) + match cs[cs.len() - 1].grid_span {
            Some(g) => g as int,
            None => 1,
        }
    }
}

/// Largest row span sum of a table (0 without rows).
pub open spec fn grid_cols_of(rs: Seq<RowV>) -> int
    decreases rs.len(),
{
    if rs.len() == 0 {
        0
    } else {
        let m = grid_cols_of(rs.subrange(0, rs.len() - 1));
        let r = row_span_sum(rs[rs.len() - 1].cells);
        if r > m { r } else { m }
    }
}

/// Display name of a style ID: its name, the ID itself when the style is unknown or nameless.
pub open spec fn display_of(ss: Seq<StyleV>, id: Seq<u8>) -> Seq<u8> {
    match index_of_id(ss, id, 0) {
        Some(j) => match ss[j].name {
            Some(n) => n,
            None => id,
        },
        None => id,
    }
}

proof fn lemma_first_id(ss: Seq<StyleV>, j: int, k: int)
    requires
        0 <= k <= j < ss.len(),
        forall|i: int| 0 <= i < j ==> ss[i].id != ss[j].id,
    ensures
        index_of_id(ss, ss[j].id, k) == Some(j),
    decreases j - k,
{
    if k < j {
        lemma_first_id(ss, j, k + 1);
    }
}

/// Law: a style assertion on a paragraph compares the name the style is
/// displayed under, not its ID. When the paragraph's style ID belongs to a
/// style of the sheet (the first with that ID) that has a name, the
/// assertion holds exactly when it gives that name.
pub proof fn law_block_style_compares_display_name(
    block: usize,
    equals: String,
    body: Seq<BlockV>,
    ss: Seq<StyleV>,
    j: int,
)
    requires
        1 <= block <= body.len(),
        0 <= j < ss.len(),
        body[block - 1] matches BlockV::Paragraph(p) && p.props.style == Some(ss[j].id),
        forall|i: int| 0 <= i < j ==> ss[i].id != ss[j].id,
        ss[j].name is Some,
    ensures
        spec_eval(AssertSpec::BlockStyle { block, equals }, body, ss) is Ok <==> sb(equals) == ss[j].name->0,
{
    lemma_first_id(ss, j, 0);
}

/// Law: a table's style asserted alone matches either the table's style ID
/// or the name its style (the first with that ID) is displayed under.
pub proof fn law_table_style_matches_id_or_name(
    block: usize,
    style: String,
    body: Seq<BlockV>,
    ss: Seq<StyleV>,
    j: int,
)
    requires
        1 <= block <= body.len(),
        0 <= j < ss.len(),
        body[block - 1] matches BlockV::Table(t) && t.style_id == Some(ss[j].id),
        forall|i: int| 0 <= i < j ==> ss[i].id != ss[j].id,
        ss[j].name is Some,
    ensures
        spec_eval(AssertSpec::TableShape { block, rows: None, cols: None, style: Some(style) }, body, ss) is Ok <==> (sb(style)
            == ss[j].id || sb(style) == ss[j].name->0),
{
    lemma_first_id(ss, j, 0);
}

/// Law: a style assertion on a paragraph without a style holds exactly
/// when it gives `(无样式)`; on a paragraph whose style ID no style of the
/// sheet has, exactly when it gives the ID.
pub proof fn law_block_style_without_named_style(block: usize, equals: String, body: Seq<BlockV>, ss: Seq<StyleV>)
    requires
        1 <= block <= body.len(),
        body[block - 1] is Paragraph,
    ensures
        body[block - 1]->Paragraph_0.props.style is None ==> (spec_eval(AssertSpec::BlockStyle { block, equals }, body, ss) is Ok
            <==> sb(equals) == "(无样式)".spec_bytes()),
        ({
            let st = body[block - 1]->Paragraph_0.props.style;
            st is Some && (forall|i: int| 0 <= i < ss.len() ==> ss[i].id != st->0) ==> (spec_eval(
                AssertSpec::BlockStyle { block, equals },
                body,
                ss,
            ) is Ok <==> sb(equals) == st->0)
        }),
{
    if let Some(id) = body[block - 1]->Paragraph_0.props.style {
        if forall|i: int| 0 <= i < ss.len() ==> ss[i].id != id {
            lemma_no_id(ss, id, 0);
        }
    }
}

proof fn lemma_no_id(ss: Seq<StyleV>, id: Seq<u8>, k: int)
    requires
        0 <= k,
        forall|i: int| 0 <= i < ss.len() ==> ss[i].id != id,
    ensures
        index_of_id(ss, id, k) is None,
    decreases ss.len() - k,
{
    if k < ss.len() {
        lemma_no_id(ss, id, k + 1);
    }
}

/// The cell an address points to, or why none does.
pub open spec fn cell_at(body: Seq<BlockV>, block: usize, row: usize, cell: usize) -> Result<CellV, FailCause> {
    if block == 0 || block > body.len() {
        Err(FailCause::BlockOutOfRange)
    } else {
        match body[block - 1] {
            BlockV::Paragraph(_) => Err(FailCause::NotTable),
            BlockV::Table(t) => if row == 0 || row > t.rows.len() {
                Err(FailCause::RowOutOfRange)
            } else if cell == 0 || cell > t.rows[row - 1].cells.len() {
                Err(FailCause::CellOutOfRange)
            } else if t.rows[row - 1].cells[cell - 1].v_merge == Some("continue".spec_bytes()) {
                Err(FailCause::ContinuationCell)
            } else {
                Ok(t.rows[row - 1].cells[cell - 1])
            },
        }
    }
}

/// Number of paragraph blocks.
pub open spec fn paragraph_count(bs: Seq<BlockV>) -> nat
    decreases bs.len(),
{
    if bs.len() == 0 {
        0
    } else {
        paragraph_count(bs.subrange(0, bs.len() - 1)) + if bs[bs.len() - 1] is Paragraph { 1nat } else { 0nat }
    }
}

/// Outcome of one assertion against a document body: `Ok(())` when it
/// holds, else why not.
pub open spec fn spec_eval(a: AssertSpec, body: Seq<BlockV>, ss: Seq<StyleV>) -> Result<(), FailCause> {
    match a {
        AssertSpec::BlockCount { equals } => if equals == body.len() {
            Ok(())
        } else {
            Err(FailCause::CountMismatch)
        },
        AssertSpec::TableShape { block, rows, cols, style } => if block == 0 || block > body.len() {
            Err(FailCause::BlockOutOfRange)
        } else {
            match body[block - 1] {
                BlockV::Paragraph(_) => Err(FailCause::NotTable),
                BlockV::Table(t) => if rows is Some && rows->0 != t.rows.len() {
                    Err(FailCause::RowsMismatch)
                } else if cols is Some && cols->0 != grid_cols_of(t.rows) {
                    Err(FailCause::ColsMismatch)
                } else if style is Some && !(match t.style_id {
                    Some(id) => id == sb(style->0) || display_of(ss, id) == sb(style->0),
                    None => "无样式".spec_bytes() == sb(style->0),
                }) {
                    Err(FailCause::StyleMismatch)
                } else {
                    Ok(())
                },
            }
        },
        AssertSpec::BlockText { block, equals, contains, starts_with } => if block == 0 || block > body.len() {
            Err(FailCause::BlockOutOfRange)
        } else {
            match body[block - 1] {
                BlockV::Table(_) => Err(FailCause::NotParagraph),
                BlockV::Paragraph(_) => if equals is None && contains is None && starts_with is None {
                    Err(FailCause::NoMatcher)
                } else if text_matches(osb(equals), osb(contains), osb(starts_with), strip_nl(block_text_of(body[block - 1]))) {
                    Ok(())
                } else {
                    Err(FailCause::TextMismatch)
                },
            }
        },
        AssertSpec::BlockStyle { block, equals } => if block == 0 || block > body.len() {
            Err(FailCause::BlockOutOfRange)
        } else {
            match body[block - 1] {
                BlockV::Table(_) => Err(FailCause::NotParagraph),
                BlockV::Paragraph(p) => if (match p.props.style {
                    Some(id) => display_of(ss, id),
                    None => "(无样式)".spec_bytes(),
                }) == sb(equals) {
                    Ok(())
                } else {
                    Err(FailCause::StyleMismatch)
                },
            }
        },
        AssertSpec::CellText { block, row, cell, equals, contains, starts_with } => match cell_at(body, block, row, cell) {
            Err(c) => Err(c),
            Ok(c) => if equals is None && contains is None && starts_with is None {
                Err(FailCause::NoMatcher)
            } else if text_matches(osb(equals), osb(contains), osb(starts_with), strip_nl(blocks_text_of(c.blocks))) {
                Ok(())
            } else {
                Err(FailCause::TextMismatch)
            },
        },
        AssertSpec::CellParagraphCount { block, row, cell, equals } => match cell_at(body, block, row, cell) {
            Err(c) => Err(c),
            Ok(c) => if equals == paragraph_count(c.blocks) {
                Ok(())
            } else {
                Err(FailCause::CountMismatch)
            },
        },
    }
}

/// The failures of a batch, in order: (kind, cause).
pub open spec fn failures_of(asserts: Seq<AssertSpec>, body: Seq<BlockV>, ss: Seq<StyleV>) -> Seq<(AssertKind, FailCause)>
    decreases asserts.len(),
{
    if asserts.len() == 0 {
        seq![]
    } else {
        let a = asserts[asserts.len() - 1];
        failures_of(asserts.subrange(0, asserts.len() - 1), body, ss) + match spec_eval(a, body, ss) {
            Err(c) => seq![(kind_of(a), c)],
            Ok(_) => seq![],
        }
    }
}

/// Kinds of passed assertions, first appearance first, with their counts.
pub open spec fn kinds_summary(asserts: Seq<AssertSpec>, body: Seq<BlockV>, ss: Seq<StyleV>) -> Seq<(AssertKind, nat)>
    decreases asserts.len(),
{
    if asserts.len() == 0 {
        seq![]
    } else {
        let a = asserts[asserts.len() - 1];
        let prev = kinds_summary(asserts.subrange(0, asserts.len() - 1), body, ss);
        if spec_eval(a, body, ss) is Ok {
            bump_kind(prev, kind_of(a))
        } else {
            prev
        }
    }
}

/// Counts one more of `k`: its entry grows, or a new entry with count 1 is appended.
pub open spec fn bump_kind(s: Seq<(AssertKind, nat)>, k: AssertKind) -> Seq<(AssertKind, nat)> {
    if exists|j: int| 0 <= j < s.len() && s[j].0 == k {
        let j = choose|j: int| 0 <= j < s.len() && s[j].0 == k;
        s.update(j, (k, s[j].1 + 1))
    } else {
        s.push((k, 1))
    }
}

/// How a summary entry is written: the kind, then `×N` when N > 1.
pub open spec fn kind_entry(k: AssertKind, n: nat) -> Seq<u8> {
    if n <= 1 {
        kind_name(k).spec_bytes()
    } else {
        kind_name(k).spec_bytes() + "×".spec_bytes() + crate::bytes_util::dec(n)
    }
}

/// The kinds of a summary are pairwise distinct.
pub open spec fn distinct_kinds(s: Seq<(AssertKind, nat)>) -> bool {
    forall|i: int, j: int| 0 <= i < j < s.len() ==> s[i].0 != s[j].0
}

/// The sum of the counts of a summary.
pub open spec fn summary_total(s: Seq<(AssertKind, nat)>) -> nat
    decreases s.len(),
{
    if s.len() == 0 {
        0
    } else {
        summary_total(s.drop_last()) + s.last().1
    }
}

proof fn lemma_total_bumped(s: Seq<(AssertKind, nat)>, j: int, k: AssertKind)
    requires
        0 <= j < s.len(),
    ensures
        summary_total(s.update(j, (k, s[j].1 + 1))) == summary_total(s) + 1,
    decreases s.len(),
{
    let u = s.update(j, (k, s[j].1 + 1));
    if j == s.len() - 1 {
        assert(u.drop_last() =~= s.drop_last());
    } else {
        assert(u.drop_last() =~= s.drop_last().update(j, (k, s[j].1 + 1)));
        lemma_total_bumped(s.drop_last(), j, k);
    }
}

proof fn lemma_total_bump(s: Seq<(AssertKind, nat)>, k: AssertKind)
    ensures
        summary_total(bump_kind(s, k)) == summary_total(s) + 1,
{
    if exists|j: int| 0 <= j < s.len() && s[j].0 == k {
        assert forall|j: int| 0 <= j < s.len() implies summary_total(#[trigger] s.update(j, (k, s[j].1 + 1))) == summary_total(s)
            + 1 by {
            lemma_total_bumped(s, j, k);
        }
    } else {
        let pushed = s.push((k, 1nat));
        assert(pushed.drop_last() =~= s);
        assert(bump_kind(s, k) == pushed);
    }
}

/// Law: the counts of the passed-kinds summary add up to the number of
/// assertions that passed, that is, all of them but the failures.
pub proof fn law_passed_kinds_add_up(asserts: Seq<AssertSpec>, body: Seq<BlockV>, ss: Seq<StyleV>)
    ensures
        summary_total(kinds_summary(asserts, body, ss)) + failures_of(asserts, body, ss).len() == asserts.len(),
    decreases asserts.len(),
{
    if asserts.len() > 0 {
        let a = asserts[asserts.len() - 1];
        let rest = asserts.subrange(0, asserts.len() - 1);
        law_passed_kinds_add_up(rest, body, ss);
        let prev = kinds_summary(rest, body, ss);
        assert(rest =~= asserts.subrange(0, asserts.len() - 1));
        if spec_eval(a, body, ss) is Ok {
            let k = kind_of(a);
            assert(kinds_summary(asserts, body, ss) == bump_kind(prev, k));
            assert(failures_of(asserts, body, ss) =~= failures_of(rest, body, ss));
            lemma_total_bump(prev, k);
            assert(failures_of(asserts, body, ss).len() == failures_of(rest, body, ss).len());
        } else {
            assert(kinds_summary(asserts, body, ss) == prev);
            assert(failures_of(asserts, body, ss).len() == failures_of(rest, body, ss).len() + 1);
        }
    }
}


// ---------------------------------------------------------------------------
// Structural pre-check
// ---------------------------------------------------------------------------

fn matcher_count(e: &Option<String>, c: &Option<String>, s: &Option<String>) -> (r: usize)
    ensures
        r == matchers(*e, *c, *s),
{
    let mut n: usize = 0;
    if e.is_some() {
        n = n + 1;
    }
    if c.is_some() {
        n = n + 1;
    }
    if s.is_some() {
        n = n + 1;
    }
    n
}

/// Checks a batch before any document is read: not empty, at most
/// [`MAX_ASSERTS`], and each text assertion with exactly one matcher.
pub fn check_asserts(asserts: &[AssertSpec]) -> (r: DocResult<()>)
    ensures
        r is Ok <==> batch_ok(asserts@),
        r matches Err(e) ==> e.kind == ErrorKind::Validation,
{
    if asserts.len() == 0 {
        return Err(DocError::validation(str_bytes(
            "断言无效: 断言列表为空。validate_docx 至少一条断言——先 inspect_docx projection=outline 拿结构，再写验收关键点（形状/首尾格/样式）。",
        )));
    }
    if asserts.len() > MAX_ASSERTS {
        let mut m = str_bytes("断言数超限: ");
        push_usize(&mut m, asserts.len());
        push_str(&mut m, " 条（上限 ");
        push_usize(&mut m, MAX_ASSERTS);
        push_str(&mut m, "）。验收是关键点抽查不是全量对账；确需更多请拆多批跑。");
        return Err(DocError::validation(m));
    }
    let mut i: usize = 0;
    while i < asserts.len()
        invariant
            i <= asserts@.len(),
            forall|k: int| 0 <= k < i ==> well_formed(#[trigger] asserts@[k]),
        decreases asserts@.len() - i,
    {
        let (given, block, cell_addr) = match &asserts[i] {
            AssertSpec::BlockText { block, equals, contains, starts_with } => (
                matcher_count(equals, contains, starts_with),
                *block,
                None,
            ),
            AssertSpec::CellText { block, row, cell, equals, contains, starts_with } => (
                matcher_count(equals, contains, starts_with),
                *block,
                Some((*row, *cell)),
            ),
            _ => (1, 0, None),
        };
        if given != 1 {
            let mut m = str_bytes("断言无效: 块");
            push_usize(&mut m, block);
            if let Some((row, cell)) = cell_addr {
                push_str(&mut m, " r");
                push_usize(&mut m, row);
                push_str(&mut m, "c");
                push_usize(&mut m, cell);
            }
            push_str(&mut m, " 的 equals / contains / starts_with 须恰选一个（给了 ");
            push_usize(&mut m, given);
            push_str(&mut m, " 个）。全文比对用 equals，局部用 contains，前缀用 starts_with。");
            assert(!well_formed(asserts@[i as int]));
            return Err(DocError::validation(m));
        }
        i = i + 1;
    }
    Ok(())
}

// ---------------------------------------------------------------------------
// Helpers
// ---------------------------------------------------------------------------

/// Largest sum of grid spans over the rows of a table.
pub fn grid_cols(t: &Table) -> (r: u128)
    ensures
        r == grid_cols_of(rows_view(t.rows@)),
{
    let mut best: u128 = 0;
    let mut i: usize = 0;
    while i < t.rows.len()
        invariant
            i <= t.rows@.len(),
            best == grid_cols_of(rows_view(t.rows@.subrange(0, i as int))),
            0 <= best <= 0xFFFF_FFFF_FFFF_FFFF * 0x1_0000_0000,
        decreases t.rows@.len() - i,
    {
        let ghost rv = rows_view(t.rows@.subrange(0, i + 1));
        assert(t.rows@.subrange(0, i + 1).subrange(0, i as int) =~= t.rows@.subrange(0, i as int));
        let row = &t.rows[i];
        let mut sum: u128 = 0;
        let mut j: usize = 0;
        while j < row.cells.len()
            invariant
                j <= row.cells@.len(),
                sum == row_span_sum(cells_view(row.cells@.subrange(0, j as int))),
                0 <= sum <= j * 0x1_0000_0000,
                j <= 0xFFFF_FFFF_FFFF_FFFF,
            decreases row.cells@.len() - j,
        {
            let ghost cv = cells_view(row.cells@.subrange(0, j + 1));
            assert(row.cells@.subrange(0, j + 1).subrange(0, j as int) =~= row.cells@.subrange(0, j as int));
            let g: u128 = match row.cells[j].grid_span {
                Some(g) => g as u128,
                None => 1,
            };
            assert(cv.subrange(0, cv.len() - 1) =~= cells_view(row.cells@.subrange(0, j as int)));
            sum = sum + g;
            j = j + 1;
        }
        assert(row.cells@.subrange(0, j as int) =~= row.cells@);
        assert(rv.subrange(0, rv.len() - 1) =~= rows_view(t.rows@.subrange(0, i as int)));
        if sum > best {
            best = sum;
        }
        i = i + 1;
    }
    assert(t.rows@.subrange(0, i as int) =~= t.rows@);
    best
}

/// Length of `s` without its trailing line breaks.
fn strip_nl_len(s: &[u8]) -> (r: usize)
    ensures
        r <= s@.len(),
        s@.subrange(0, r as int) == strip_nl(s@),
{
    let mut k = s.len();
    assert(s@.subrange(0, k as int) =~= s@);
    while k > 0 && s[k - 1] == 10
        invariant
            k <= s@.len(),
            strip_nl(s@.subrange(0, k as int)) == strip_nl(s@),
        decreases k,
    {
        assert(s@.subrange(0, k as int).subrange(0, k - 1) =~= s@.subrange(0, k - 1));
        k = k - 1;
    }
    k
}

/// At most [`CLIP`] characters of `s`, `…` appended when cut.
pub fn clip(s: &[u8]) -> (r: Vec<u8>)
    ensures
        char_count(s@) <= CLIP ==> r@ == s@,
{
    if count_chars(s) <= CLIP {
        crate::bytes_util::slice_vec(s, 0, s.len())
    } else {
        let mut cut = truncate_chars(s, CLIP);
        push_str(&mut cut, "…");
        cut
    }
}

/// Whether `actual` meets the first matcher given; a failure detail when not.
pub fn eval_text_match(
    equals: &Option<String>,
    contains_: &Option<String>,
    starts_with_: &Option<String>,
    actual: &[u8],
) -> (r: Option<Vec<u8>>)
    ensures
        r is None == text_matches(osb(*equals), osb(*contains_), osb(*starts_with_), actual@),
{
    if let Some(want) = equals {
        let w = want.as_str().as_bytes();
        if bytes_eq(actual, w) {
            None
        } else {
            let mut m = str_bytes("期望等于「");
            push_bytes(&mut m, clip(w).as_slice());
            push_str(&mut m, "」，实际「");
            push_bytes(&mut m, clip(actual).as_slice());
            push_str(&mut m, "」");
            Some(m)
        }
    } else if let Some(want) = contains_ {
        let w = want.as_str().as_bytes();
        if contains(actual, w) {
            None
        } else {
            let mut m = str_bytes("期望包含「");
            push_bytes(&mut m, clip(w).as_slice());
            push_str(&mut m, "」，实际「");
            push_bytes(&mut m, clip(actual).as_slice());
            push_str(&mut m, "」");
            Some(m)
        }
    } else if let Some(want) = starts_with_ {
        let w = want.as_str().as_bytes();
        if starts_with(actual, w) {
            None
        } else {
            let mut m = str_bytes("期望以「");
            push_bytes(&mut m, clip(w).as_slice());
            push_str(&mut m, "」开头，实际「");
            push_bytes(&mut m, clip(actual).as_slice());
            push_str(&mut m, "」");
            Some(m)
        }
    } else {
        Some(str_bytes("未给出比对模式（equals/contains/starts_with 三选一）"))
    }
}

/// Where a block assertion points: `块N`.
pub open spec fn block_target(block: usize) -> Seq<u8> {
    "块".spec_bytes() + crate::bytes_util::dec(block as nat)
}

/// Where a cell assertion points: `块N rRcC`.
pub open spec fn cell_target(block: usize, row: usize, cell: usize) -> Seq<u8> {
    "块".spec_bytes() + crate::bytes_util::dec(block as nat) + " r".spec_bytes() + crate::bytes_util::dec(row as nat)
        + "c".spec_bytes() + crate::bytes_util::dec(cell as nat)
}

/// Where a failed assertion points, given why it failed: the whole text, its
/// block, or its cell (its block when the block itself is missing or no table).
pub open spec fn spec_target(a: AssertSpec, c: FailCause) -> Seq<u8> {
    match a {
        AssertSpec::BlockCount { .. } => "全文".spec_bytes(),
        AssertSpec::TableShape { block, .. } => block_target(block),
        AssertSpec::BlockText { block, .. } => block_target(block),
        AssertSpec::BlockStyle { block, .. } => block_target(block),
        AssertSpec::CellText { block, row, cell, .. } => if c is BlockOutOfRange || c is NotTable {
            block_target(block)
        } else {
            cell_target(block, row, cell)
        },
        AssertSpec::CellParagraphCount { block, row, cell, .. } => if c is BlockOutOfRange || c is NotTable {
            block_target(block)
        } else {
            cell_target(block, row, cell)
        },
    }
}

proof fn lemma_dec_valid(n: nat)
    ensures
        valid_utf8(crate::bytes_util::dec(n)),
    decreases n,
{
    let d = crate::bytes_util::dec(n);
    if n < 10 {
        let c = ((n + 48) as u8) as char;
        is_ascii_chars_encode_utf8(seq![c]);
        encode_utf8_valid_utf8(seq![c]);
        assert(encode_utf8(seq![c]) =~= d);
    } else {
        lemma_dec_valid(n / 10);
        let c = ((n % 10 + 48) as u8) as char;
        is_ascii_chars_encode_utf8(seq![c]);
        encode_utf8_valid_utf8(seq![c]);
        assert(encode_utf8(seq![c]) =~= seq![(n % 10 + 48) as u8]);
        valid_utf8_concat(crate::bytes_util::dec(n / 10), seq![(n % 10 + 48) as u8]);
        assert(d =~= crate::bytes_util::dec(n / 10) + seq![(n % 10 + 48) as u8]);
    }
}

proof fn lemma_str_valid(s: &str)
    ensures
        valid_utf8(s.spec_bytes()),
{
    encode_utf8_valid_utf8(s@);
}

fn target_block(block: usize) -> (r: Vec<u8>)
    ensures
        r@ == "块".spec_bytes() + crate::bytes_util::dec(block as nat),
        r@ == block_target(block),
        valid_utf8(r@),
{
    proof {
        lemma_str_valid("块");
        lemma_dec_valid(block as nat);
        valid_utf8_concat("块".spec_bytes(), crate::bytes_util::dec(block as nat));
    }
    let mut t = str_bytes("块");
    push_usize(&mut t, block);
    t
}

fn target_cell(block: usize, row: usize, cell: usize) -> (r: Vec<u8>)
    ensures
        r@ == cell_target(block, row, cell),
        valid_utf8(r@),
        r@ == "块".spec_bytes() + crate::bytes_util::dec(block as nat) + " r".spec_bytes() + crate::bytes_util::dec(
            row as nat,
        ) + "c".spec_bytes() + crate::bytes_util::dec(cell as nat),
{
    let mut t = target_block(block);
    push_str(&mut t, " r");
    push_usize(&mut t, row);
    push_str(&mut t, "c");
    push_usize(&mut t, cell);
    assert(t@ =~= "块".spec_bytes() + crate::bytes_util::dec(block as nat) + " r".spec_bytes() + crate::bytes_util::dec(
        row as nat,
    ) + "c".spec_bytes() + crate::bytes_util::dec(cell as nat));
    proof {
        let a = "块".spec_bytes() + crate::bytes_util::dec(block as nat);
        lemma_str_valid(" r");
        lemma_str_valid("c");
        lemma_dec_valid(row as nat);
        lemma_dec_valid(cell as nat);
        valid_utf8_concat(a, " r".spec_bytes());
        valid_utf8_concat(a + " r".spec_bytes(), crate::bytes_util::dec(row as nat));
        valid_utf8_concat(a + " r".spec_bytes() + crate::bytes_util::dec(row as nat), "c".spec_bytes());
        valid_utf8_concat(a + " r".spec_bytes() + crate::bytes_util::dec(row as nat) + "c".spec_bytes(), crate::bytes_util::dec(cell as nat));
    }
    t
}

fn failure(kind: AssertKind, target: Vec<u8>, detail: Vec<u8>, cause: FailCause) -> (f: AssertFailure)
    ensures
        f.kind == kind_name(kind),
        f.cause == cause,
        valid_utf8(target@) ==> f.target@ == decode_utf8(target@),
{
    AssertFailure {
        kind: kind.as_str(),
        target: bytes_to_string(target.as_slice()),
        detail: bytes_to_string(detail.as_slice()),
        cause,
    }
}

/// The block an address (1-based) points to; a failure when out of range.
fn block_or_fail<'a>(body: &'a [Block], block: usize, kind: AssertKind) -> (r: Result<&'a Block, AssertFailure>)
    ensures
        match r {
            Ok(b) => 1 <= block <= body@.len() && *b == body@[block - 1],
            Err(f) => (block == 0 || block > body@.len()) && f.cause == FailCause::BlockOutOfRange && f.kind
                == kind_name(kind) && f.target@ == decode_utf8(block_target(block)),
        },
{
    if block == 0 || block > body.len() {
        let mut d = str_bytes("块号超出范围（文档共 ");
        push_usize(&mut d, body.len());
        push_str(&mut d, " 块）——先 inspect_docx 确认最新块号");
        Err(failure(kind, target_block(block), d, FailCause::BlockOutOfRange))
    } else {
        Ok(&body[block - 1])
    }
}

/// The cell an address points to; a failure when out of range or merged.
fn cell_or_fail<'a>(
    body: &'a [Block],
    block: usize,
    row: usize,
    cell: usize,
    kind: AssertKind,
) -> (r: Result<&'a TableCell, AssertFailure>)
    ensures
        match cell_at(blocks_view(body@), block, row, cell) {
            Ok(c) => r matches Ok(x) && cell_view(*x) == c,
            Err(cause) => r matches Err(f) && f.cause == cause && f.kind == kind_name(kind) && f.target@ == decode_utf8(
                if cause is BlockOutOfRange || cause is NotTable {
                    block_target(block)
                } else {
                    cell_target(block, row, cell)
                },
            ),
        },
{
    proof {
        lemma_blocks_view_index(body@);
    }
    let b = block_or_fail(body, block, kind)?;
    let t = match b {
        Block::Table(t) => t,
        Block::Paragraph(_) => {
            return Err(failure(kind, target_block(block), str_bytes("是段落不是表格，格级断言只作用于表格块。段落用 block_text"), FailCause::NotTable));
        },
    };
    proof {
        crate::docx_model::lemma_rows_view_index(t.rows@);
    }
    if row == 0 || row > t.rows.len() {
        let mut d = str_bytes("行号超出范围（表共 ");
        push_usize(&mut d, t.rows.len());
        push_str(&mut d, " 行）——地址与 projection=table 的 rN 同口径");
        return Err(failure(kind, target_cell(block, row, cell), d, FailCause::RowOutOfRange));
    }
    let r = &t.rows[row - 1];
    proof {
        crate::docx_model::lemma_cells_view_index(r.cells@);
    }
    if cell == 0 || cell > r.cells.len() {
        let mut d = str_bytes("格号超出范围（r");
        push_usize(&mut d, row);
        push_str(&mut d, " 共 ");
        push_usize(&mut d, r.cells.len());
        push_str(&mut d, " 格）——地址与 projection=table 的 cN 同口径");
        return Err(failure(kind, target_cell(block, row, cell), d, FailCause::CellOutOfRange));
    }
    let c = &r.cells[cell - 1];
    let cont = match &c.v_merge {
        Some(v) => eq_str(v.as_slice(), "continue"),
        None => false,
    };
    if cont {
        return Err(failure(kind, target_cell(block, row, cell), str_bytes("是纵向合并续格，内容在合并头格——断言头格地址（projection=table 里标 (合并头) 的格）"), FailCause::ContinuationCell));
    }
    Ok(c)
}


/// Number of paragraph blocks among `blocks` (nested tables not counted).
pub fn count_paragraphs(blocks: &[Block]) -> (r: usize)
    ensures
        r == paragraph_count(blocks_view(blocks@)),
{
    let mut n: usize = 0;
    let mut i: usize = 0;
    while i < blocks.len()
        invariant
            i <= blocks@.len(),
            n <= i,
            n == paragraph_count(blocks_view(blocks@.subrange(0, i as int))),
        decreases blocks@.len() - i,
    {
        proof {
            crate::docx_model::lemma_blocks_view_prefix(blocks@, i as int);
            let v = blocks_view(blocks@.subrange(0, i + 1));
            assert(v.subrange(0, v.len() - 1) =~= blocks_view(blocks@.subrange(0, i as int)));
        }
        if let Block::Paragraph(_) = &blocks[i] {
            n = n + 1;
        }
        i = i + 1;
    }
    assert(blocks@.subrange(0, i as int) =~= blocks@);
    n
}

/// The display name of a style ID for a failure detail.
fn display_name(stylesheet: &Stylesheet, id: &Vec<u8>) -> (r: Vec<u8>)
    ensures
        r@ == display_of(stylesheet.view_styles(), id@),
{
    match stylesheet.name_of(id.as_slice()) {
        Some(n) => crate::bytes_util::slice_vec(n.as_slice(), 0, n.len()),
        None => crate::bytes_util::slice_vec(id.as_slice(), 0, id.len()),
    }
}

/// The text of a block list with its trailing line breaks cut.
fn stripped_text(blocks: &[Block]) -> (r: Vec<u8>)
    ensures
        r@ == strip_nl(blocks_text_of(blocks_view(blocks@))),
{
    let mut text: Vec<u8> = Vec::new();
    blocks_text(blocks, &mut text);
    assert(text@ =~= blocks_text_of(blocks_view(blocks@)));
    let k = strip_nl_len(text.as_slice());
    crate::bytes_util::slice_vec(text.as_slice(), 0, k)
}

/// Evaluates one assertion: the kind when it holds, else the failure.
pub fn eval_assert(a: &AssertSpec, body: &[Block], stylesheet: &Stylesheet) -> (r: Result<AssertKind, AssertFailure>)
    ensures
        match spec_eval(*a, blocks_view(body@), stylesheet.view_styles()) {
            Ok(_) => r matches Ok(k) && k == kind_of(*a),
            Err(c) => r matches Err(f) && f.cause == c && f.kind == kind_name(kind_of(*a)) && f.target@ == decode_utf8(
                spec_target(*a, c),
            ),
        },
{
    proof {
        lemma_blocks_view_index(body@);
    }
    let total = body.len();
    match a {
        AssertSpec::BlockCount { equals } => {
            if *equals == total {
                Ok(AssertKind::BlockCount)
            } else {
                let mut d = str_bytes("期望 ");
                push_usize(&mut d, *equals);
                push_str(&mut d, " 块，实际 ");
                push_usize(&mut d, total);
                push_str(&mut d, " 块");
                proof {
                    lemma_str_valid("全文");
                }
                Err(failure(AssertKind::BlockCount, str_bytes("全文"), d, FailCause::CountMismatch))
            }
        },
        AssertSpec::TableShape { block, rows, cols, style } => {
            let kind = AssertKind::TableShape;
            let b = block_or_fail(body, *block, kind)?;
            let t = match b {
                Block::Table(t) => t,
                Block::Paragraph(_) => {
                    return Err(failure(kind, target_block(*block), str_bytes("是段落不是表格。先 inspect_docx projection=outline 确认块类型"), FailCause::NotTable));
                },
            };
            proof {
                crate::docx_model::lemma_rows_view_index(t.rows@);
            }
            if let Some(want) = rows {
                if *want != t.rows.len() {
                    let mut d = str_bytes("期望 ");
                    push_usize(&mut d, *want);
                    push_str(&mut d, " 行，实际 ");
                    push_usize(&mut d, t.rows.len());
                    push_str(&mut d, " 行");
                    return Err(failure(kind, target_block(*block), d, FailCause::RowsMismatch));
                }
            }
            if let Some(want) = cols {
                let actual = grid_cols(t);
                if (*want as u128) != actual {
                    let mut d = str_bytes("期望 ");
                    push_usize(&mut d, *want);
                    push_str(&mut d, " 列，实际 ");
                    push_u128(&mut d, actual);
                    push_str(&mut d, " 列（口径 = 任一行 gridSpan 求和最大值）");
                    return Err(failure(kind, target_block(*block), d, FailCause::ColsMismatch));
                }
            }
            if let Some(want) = style {
                let w = want.as_str().as_bytes();
                let (ok, actual) = match &t.style_id {
                    Some(id) => {
                        let shown = display_name(stylesheet, id);
                        (bytes_eq(id.as_slice(), w) || bytes_eq(shown.as_slice(), w), shown)
                    },
                    None => (eq_str(w, "无样式"), str_bytes("无样式")),
                };
                if !ok {
                    let mut d = str_bytes("期望表样式「");
                    push_bytes(&mut d, w);
                    push_str(&mut d, "」，实际「");
                    push_bytes(&mut d, actual.as_slice());
                    push_str(&mut d, "」");
                    return Err(failure(kind, target_block(*block), d, FailCause::StyleMismatch));
                }
            }
            Ok(kind)
        },
        AssertSpec::BlockText { block, equals, contains: c, starts_with: s } => {
            let kind = AssertKind::BlockText;
            let b = block_or_fail(body, *block, kind)?;
            let p = match b {
                Block::Paragraph(p) => p,
                Block::Table(_) => {
                    return Err(failure(kind, target_block(*block), str_bytes("是表格块，block_text 只断言段落。表格内容用 cell_text，形状用 table_shape"), FailCause::NotParagraph));
                },
            };
            let mut text: Vec<u8> = Vec::new();
            runs_text_into(&p.runs, &mut text);
            text.push(10u8);
            assert(text@ =~= block_text_of(block_view(*b)));
            let k = strip_nl_len(text.as_slice());
            let actual = crate::bytes_util::slice_vec(text.as_slice(), 0, k);
            match eval_text_match(equals, c, s, actual.as_slice()) {
                Some(d) => {
                    let cause = if equals.is_none() && c.is_none() && s.is_none() {
                        FailCause::NoMatcher
                    } else {
                        FailCause::TextMismatch
                    };
                    Err(failure(kind, target_block(*block), d, cause))
                },
                None => Ok(kind),
            }
        },
        AssertSpec::BlockStyle { block, equals } => {
            let kind = AssertKind::BlockStyle;
            let b = block_or_fail(body, *block, kind)?;
            let p = match b {
                Block::Paragraph(p) => p,
                Block::Table(_) => {
                    return Err(failure(kind, target_block(*block), str_bytes("是表格块，block_style 只断言段落样式。表样式用 table_shape 的 style 参数"), FailCause::NotParagraph));
                },
            };
            let actual = match &p.props.style {
                Some(id) => display_name(stylesheet, id),
                None => str_bytes("(无样式)"),
            };
            let w = equals.as_str().as_bytes();
            if bytes_eq(actual.as_slice(), w) {
                Ok(kind)
            } else {
                let mut d = str_bytes("期望样式「");
                push_bytes(&mut d, w);
                push_str(&mut d, "」，实际「");
                push_bytes(&mut d, actual.as_slice());
                push_str(&mut d, "」");
                Err(failure(kind, target_block(*block), d, FailCause::StyleMismatch))
            }
        },
        AssertSpec::CellText { block, row, cell, equals, contains: c, starts_with: s } => {
            let kind = AssertKind::CellText;
            let cr = cell_or_fail(body, *block, *row, *cell, kind)?;
            let actual = stripped_text(cr.blocks.as_slice());
            match eval_text_match(equals, c, s, actual.as_slice()) {
                Some(d) => {
                    let cause = if equals.is_none() && c.is_none() && s.is_none() {
                        FailCause::NoMatcher
                    } else {
                        FailCause::TextMismatch
                    };
                    Err(failure(kind, target_cell(*block, *row, *cell), d, cause))
                },
                None => Ok(kind),
            }
        },
        AssertSpec::CellParagraphCount { block, row, cell, equals } => {
            let kind = AssertKind::CellParagraphCount;
            let cr = cell_or_fail(body, *block, *row, *cell, kind)?;
            let actual = count_paragraphs(cr.blocks.as_slice());
            if *equals == actual {
                Ok(kind)
            } else {
                let mut d = str_bytes("期望 ");
                push_usize(&mut d, *equals);
                push_str(&mut d, " 段，实际 ");
                push_usize(&mut d, actual);
                push_str(&mut d, " 段（嵌套表块不计段）");
                Err(failure(kind, target_cell(*block, *row, *cell), d, FailCause::CountMismatch))
            }
        },
    }
}

/// Appends the decimal digits of a `u128`.
fn push_u128(out: &mut Vec<u8>, n: u128)
    ensures
        final(out)@ == old(out)@ + crate::bytes_util::dec(n as nat),
    decreases n,
{
    if n < 10 {
        out.push((n + 48) as u8);
        assert(final(out)@ =~= old(out)@ + crate::bytes_util::dec(n as nat));
    } else {
        push_u128(out, n / 10);
        out.push((n % 10 + 48) as u8);
        assert(final(out)@ =~= old(out)@ + crate::bytes_util::dec(n as nat));
    }
}


/// Bytes below 128 are valid UTF-8.
pub proof fn lemma_ascii_valid_utf8(s: Seq<u8>)
    requires
        forall|i: int| 0 <= i < s.len() ==> s[i] < 128,
    ensures
        valid_utf8(s),
    decreases s.len(),
{
    if s.len() > 0 {
        let b = s[0];
        assert((b & 0x7F) as u32 == b as u32) by (bit_vector)
            requires
                b < 128,
        ;
        assert(valid_first_scalar(s));
        lemma_ascii_valid_utf8(pop_first_scalar(s));
    }
}

proof fn lemma_dec_ascii(n: nat)
    ensures
        forall|i: int| 0 <= i < crate::bytes_util::dec(n).len() ==> crate::bytes_util::dec(n)[i] < 128,
    decreases n,
{
    if n >= 10 {
        lemma_dec_ascii(n / 10);
        let d = crate::bytes_util::dec(n / 10);
        assert(crate::bytes_util::dec(n) == d.push((n % 10 + 48) as u8));
        assert forall|i: int| 0 <= i < crate::bytes_util::dec(n).len() implies crate::bytes_util::dec(n)[i] < 128 by {
            if i < d.len() {
                assert(d[i] < 128);
            }
        }
    }
}

/// A summary entry is valid UTF-8.
pub proof fn lemma_kind_entry_utf8(k: AssertKind, n: nat)
    ensures
        valid_utf8(kind_entry(k, n)),
{
    broadcast use encode_utf8_valid_utf8, valid_utf8_concat;
    let a = kind_name(k).spec_bytes();
    let x = "×".spec_bytes();
    assert(valid_utf8(a));
    if n > 1 {
        lemma_dec_ascii(n);
        lemma_ascii_valid_utf8(crate::bytes_util::dec(n));
        assert(valid_utf8(x));
        assert(valid_utf8(a + x));
        assert(valid_utf8(a + x + crate::bytes_util::dec(n)));
    }
}

/// What a report says of a batch: counts, the failures in order with kind
/// and cause, and the summary of passed kinds.
pub open spec fn report_ok(r: ValidateReport, asserts: Seq<AssertSpec>, body: Seq<BlockV>, ss: Seq<StyleV>) -> bool {
    let fo = failures_of(asserts, body, ss);
    let ks = kinds_summary(asserts, body, ss);
    &&& r.total == asserts.len()
    &&& r.failed == fo.len()
    &&& r.passed == (fo.len() == 0)
    &&& r.failures@.len() == fo.len()
    &&& forall|i: int| 0 <= i < fo.len() ==> (#[trigger] r.failures@[i]).kind == kind_name(fo[i].0)
        && r.failures@[i].cause == fo[i].1
    &&& r.passed_kinds@.len() == ks.len()
    &&& forall|i: int| 0 <= i < ks.len() ==> (#[trigger] r.passed_kinds@[i])@ == decode_utf8(kind_entry(ks[i].0, ks[i].1))
}

/// The summary after one more pass of `k` keeps its kinds distinct and its
/// counts bounded.
proof fn lemma_bump(s: Seq<(AssertKind, nat)>, k: AssertKind, bound: nat)
    requires
        distinct_kinds(s),
        forall|j: int| 0 <= j < s.len() ==> (#[trigger] s[j]).1 <= bound,
    ensures
        distinct_kinds(bump_kind(s, k)),
        forall|j: int| 0 <= j < bump_kind(s, k).len() ==> (#[trigger] bump_kind(s, k)[j]).1 <= bound + 1,
        bump_kind(s, k).len() <= s.len() + 1,
{
}

/// Runs a batch against a document body; every assertion is evaluated.
pub fn validate_body(body: &[Block], stylesheet: &Stylesheet, asserts: &[AssertSpec]) -> (r: ValidateReport)
    ensures
        report_ok(r, asserts@, blocks_view(body@), stylesheet.view_styles()),
{
    let ghost bv = blocks_view(body@);
    let ghost ss = stylesheet.view_styles();
    let mut failures: Vec<AssertFailure> = Vec::new();
    let mut summary: Vec<(AssertKind, usize)> = Vec::new();
    let mut i: usize = 0;
    while i < asserts.len()
        invariant
            i <= asserts@.len(),
            bv == blocks_view(body@),
            ss == stylesheet.view_styles(),
            failures@.len() == failures_of(asserts@.subrange(0, i as int), bv, ss).len(),
            forall|j: int| 0 <= j < failures@.len() ==> (#[trigger] failures@[j]).kind == kind_name(
                failures_of(asserts@.subrange(0, i as int), bv, ss)[j].0,
            ) && failures@[j].cause == failures_of(asserts@.subrange(0, i as int), bv, ss)[j].1,
            summary@.len() == kinds_summary(asserts@.subrange(0, i as int), bv, ss).len(),
            forall|j: int| 0 <= j < summary@.len() ==> (#[trigger] summary@[j]).0 == kinds_summary(
                asserts@.subrange(0, i as int), bv, ss)[j].0 && summary@[j].1 == kinds_summary(
                asserts@.subrange(0, i as int), bv, ss)[j].1,
            distinct_kinds(kinds_summary(asserts@.subrange(0, i as int), bv, ss)),
            forall|j: int| 0 <= j < summary@.len() ==> (#[trigger] summary@[j]).1 <= i,
        decreases asserts@.len() - i,
    {
        let ghost pre = asserts@.subrange(0, i as int);
        let ghost nxt = asserts@.subrange(0, i + 1);
        assert(nxt.subrange(0, nxt.len() - 1) =~= pre);
        let ghost ks = kinds_summary(pre, bv, ss);
        let ghost fo = failures_of(pre, bv, ss);
        match eval_assert(&asserts[i], body, stylesheet) {
            Ok(k) => {
                let mut j: usize = 0;
                while j < summary.len() && summary[j].0 != k
                    invariant
                        j <= summary@.len(),
                        forall|q: int| 0 <= q < j ==> (#[trigger] summary@[q]).0 != k,
                    decreases summary@.len() - j,
                {
                    j = j + 1;
                }
                let found = j < summary.len();
                proof {
                    assert forall|q: int| 0 <= q < ks.len() implies (#[trigger] ks[q]).1 <= i by {
                        assert(summary@[q].1 <= i);
                    }
                    lemma_bump(ks, k, i as nat);
                }
                if found {
                    let n = summary[j].1;
                    proof {
                        assert(ks[j as int].0 == k);
                        let w = choose|w: int| 0 <= w < ks.len() && ks[w].0 == k;
                        assert(w == j);
                    }
                    summary.set(j, (k, n + 1));
                } else {
                    proof {
                        assert forall|w: int| 0 <= w < ks.len() implies ks[w].0 != k by {
                            assert(summary@[w].0 == ks[w].0);
                        }
                    }
                    summary.push((k, 1));
                }
                assert(failures_of(nxt, bv, ss) =~= fo);
            },
            Err(f) => {
                failures.push(f);
                assert(failures_of(nxt, bv, ss) =~= fo.push((kind_of(asserts@[i as int]), f.cause)));
            },
        }
        i = i + 1;
    }
    assert(asserts@.subrange(0, i as int) =~= asserts@);
    let ghost ks = kinds_summary(asserts@, bv, ss);
    let mut passed_kinds: Vec<String> = Vec::new();
    let mut j: usize = 0;
    while j < summary.len()
        invariant
            j <= summary@.len(),
            summary@.len() == ks.len(),
            forall|q: int| 0 <= q < summary@.len() ==> (#[trigger] summary@[q]).0 == ks[q].0 && summary@[q].1 == ks[q].1,
            passed_kinds@.len() == j,
            forall|q: int| 0 <= q < j ==> (#[trigger] passed_kinds@[q])@ == decode_utf8(kind_entry(ks[q].0, ks[q].1)),
        decreases summary@.len() - j,
    {
        let (k, n) = summary[j];
        let mut e = str_bytes(k.as_str());
        if n > 1 {
            push_str(&mut e, "×");
            push_usize(&mut e, n);
        }
        proof {
            lemma_kind_entry_utf8(k, n as nat);
            assert(e@ =~= kind_entry(ks[j as int].0, ks[j as int].1));
        }
        passed_kinds.push(bytes_to_string(e.as_slice()));
        j = j + 1;
    }
    let failed = failures.len();
    ValidateReport { passed: failed == 0, total: asserts.len(), failed, failures, passed_kinds }
}

/// The stylesheet of an optional `word/styles.xml`: a missing part, or one
/// that does not parse, gives the empty stylesheet.
pub fn stylesheet_of(styles_xml: &Option<Vec<u8>>) -> (s: Stylesheet)
    ensures
        styles_xml is None ==> s.styles@.len() == 0,
{
    match styles_xml {
        Some(xml) => match xml_dom::parse(xml.as_slice()) {
            Ok(dom) => styles::parse_styles(&dom),
            Err(_) => Stylesheet::empty(),
        },
        None => Stylesheet::empty(),
    }
}

/// Runs a batch of assertions on a docx package. A batch that
/// [`check_asserts`] refuses is a validation error before the package is
/// read; a package without a readable `word/document.xml` is an internal error.
pub fn validate_document(bytes: &[u8], asserts: &[AssertSpec]) -> (r: DocResult<ValidateReport>)
    ensures
        !batch_ok(asserts@) <==> (r matches Err(e) && e.kind == ErrorKind::Validation),
        batch_ok(asserts@) && !(crate::zip_io::zip_entry_of(bytes@, "word/document.xml"@) matches Some(Some(_)))
            ==> (r matches Err(e) && e.kind == ErrorKind::Internal),
        r matches Ok(rep) ==> rep.total == asserts@.len() && rep.failures@.len() == rep.failed
            && rep.passed == (rep.failed == 0),
        crate::zip_io::zip_entry_of(bytes@, "word/document.xml"@) matches Some(Some(c)) && valid_utf8(c)
            && xml_dom::spec_parses(c) && batch_ok(asserts@) && crate::zip_io::zip_entry_of(bytes@, "word/styles.xml"@)
            is Some ==> r is Ok,
        match crate::zip_io::zip_entry_of(bytes@, "word/document.xml"@) {
            Some(Some(c)) => valid_utf8(c) && !xml_dom::spec_parses(c) && batch_ok(asserts@) ==> (r matches Err(e)
                && e.kind == ErrorKind::Internal),
            _ => true,
        },
{
    check_asserts(asserts)?;
    let doc_xml = docx::read_document_xml(bytes)?;
    let dom = xml_dom::parse(doc_xml.as_slice())?;
    let model = docx_model::build_document(&dom);
    let styles_xml = docx::read_entry(bytes, "word/styles.xml")?;
    let stylesheet = stylesheet_of(&styles_xml);
    Ok(validate_body(model.body.as_slice(), &stylesheet, asserts))
}

} // verus!
