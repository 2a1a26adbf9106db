use vstd::prelude::*;
use vstd::string::StringSliceAdditionalSpecFns;
use crate::bytes_util::{at_boundary, push_bytes, push_str, str_bytes, slice_vec, push_usize, push_u64, dec, trim, trimmed, is_blank, char_count, chars_in, prefix_chars_len, bytes_eq, eq_str, ends_with};
use crate::error::{DocError, DocResult, ErrorKind, bytes_to_string};
use crate::docx_model::{Block, Paragraph, Table, TableRow, TableCell, Run, RunProps, ParaProps, Revision, DocxDocument,
    runs_text, runs_view, runs_text_into, blocks_text, build_document};
use crate::styles::Stylesheet;
use crate::docx;
use crate::xml_dom;
use crate::styles;

verus! {

/// What an inspection shows.
#[derive(Debug, Clone, Copy, PartialEq, Eq, Structural)]
pub enum InspectProjection {
    /// One line per block (style, level, text excerpt).
    Outline,
    /// The effective formatting of paragraphs and runs.
    Format,
    /// The text with block numbers.
    Text,
    /// Headers and footers, section by section (no block range).
    HeadersFooters,
}

/// How many blocks a projection shows by default.
pub open spec fn spec_default_span(p: InspectProjection) -> usize {
    match p {
        InspectProjection::Outline => 400,
        InspectProjection::Format => 50,
        InspectProjection::Text => 100,
        InspectProjection::HeadersFooters => 1,
    }
}

/// The name of a projection.
pub open spec fn projection_name(p: InspectProjection) -> &'static str {
    match p {
        InspectProjection::Outline => "outline",
        InspectProjection::Format => "format",
        InspectProjection::Text => "text",
        InspectProjection::HeadersFooters => "headers_footers",
    }
}

impl InspectProjection {
    /// How many blocks the projection shows by default (short outline
    /// lines allow many, long format lines few).
    pub fn default_span(self) -> (r: usize)
        ensures
            r == spec_default_span(self),
    {
        match self {
            InspectProjection::Outline => 400,
            InspectProjection::Format => 50,
            InspectProjection::Text => 100,
            InspectProjection::HeadersFooters => 1,
        }
    }

    pub fn as_str(self) -> (r: &'static str)
        ensures
            r == projection_name(self),
    {
        match self {
            InspectProjection::Outline => "outline",
            InspectProjection::Format => "format",
            InspectProjection::Text => "text",
            InspectProjection::HeadersFooters => "headers_footers",
        }
    }
}

/// An inspection request.
#[derive(Debug)]
pub struct InspectRequest {
    pub projection: InspectProjection,
    /// First block (1-based, included); `None` is 1.
    pub start: Option<usize>,
    /// Last block (1-based, included); `None` is `start + span - 1`.
    pub end: Option<usize>,
}

/// An inspection report.
#[derive(Debug)]
pub struct InspectReport {
    pub total_blocks: usize,
    /// The blocks shown (1-based, both ends included).
    pub range: (usize, usize),
    /// Blocks follow the range.
    pub has_more: bool,
    /// The projection, after a summary header.
    pub content: String,
}

/// The block range of a request on a document of `total` blocks: a start
/// out of `1..=total` or an end before the start is refused; the end is cut
/// to `total`; without an end the projection's default span applies.
pub open spec fn spec_range(total: usize, p: InspectProjection, start: Option<usize>, end: Option<usize>) -> Option<(usize, usize, bool)> {
    let s: int = match start {
        Some(s) => s as int,
        None => 1,
    };
    if start is Some && (s < 1 || s > total) {
        None
    } else if end matches Some(e) && e < s {
        None
    } else {
        let e: int = match end {
            Some(e) => if e > total { total as int } else { e as int },
            None => if s + spec_default_span(p) - 1 > total { total as int } else { s + spec_default_span(p) - 1 },
        };
        Some((s as usize, e as usize, e < total))
    }
}

/// Resolves the block range of a request; see [`spec_range`].
pub fn resolve_range(total: usize, req: &InspectRequest) -> (r: DocResult<(usize, usize, bool)>)
    ensures
        match spec_range(total, req.projection, req.start, req.end) {
            Some(x) => r == Ok::<(usize, usize, bool), DocError>(x),
            None => r matches Err(e) && e.kind == ErrorKind::Validation,
        },
{
    let span = req.projection.default_span();
    let start = match req.start {
        Some(s) => {
            if s < 1 || s > total {
                let mut m = str_bytes("块号越界：start=");
                push_usize(&mut m, s);
                push_str(&mut m, "，文档共 ");
                push_usize(&mut m, total);
                push_str(&mut m, " 块（块号 1..=");
                push_usize(&mut m, total);
                push_str(&mut m, "，1-based）。请先看 outline 投影确认目标块号。");
                return Err(DocError::validation(m));
            }
            s
        },
        None => 1,
    };
    let end = match req.end {
        Some(e) => {
            if e < start {
                let mut m = str_bytes("区间无效：end=");
                push_usize(&mut m, e);
                push_str(&mut m, " < start=");
                push_usize(&mut m, start);
                push_str(&mut m, "。区间是 1-based 含端点，如 start=5 end=12 表示第 5..12 块。");
                return Err(DocError::validation(m));
            }
            if e > total {
                total
            } else {
                e
            }
        },
        None => {
            if start > total || span - 1 > total - start {
                total
            } else {
                start + (span - 1)
            }
        },
    };
    Ok((start, end, end < total))
}

// ---------------------------------------------------------------------------
// Formatting helpers
// ---------------------------------------------------------------------------

/// The visible text of a paragraph (deleted runs left out).
pub fn para_text(p: &Paragraph) -> (r: Vec<u8>)
    ensures
        r@ == runs_text(runs_view(p.runs@)),
{
    let mut out: Vec<u8> = Vec::new();
    runs_text_into(&p.runs, &mut out);
    assert(out@ =~= runs_text(runs_view(p.runs@)));
    out
}

/// Line feeds and tabs written as spaces.
pub open spec fn flat(s: Seq<u8>) -> Seq<u8> {
    s.map_values(|b: u8| if b == 10 || b == 9 { 32u8 } else { b })
}

/// Character boundaries with the same number of characters before them are the same.
proof fn lemma_boundary_unique(s: Seq<u8>, a: int, b: int)
    requires
        0 <= a <= s.len(),
        0 <= b <= s.len(),
        at_boundary(s, a),
        at_boundary(s, b),
        chars_in(s, a) == chars_in(s, b),
    ensures
        a == b,
{
    if a < b {
        crate::bytes_util::lemma_chars_in_mono(s, a + 1, b);
    } else if b < a {
        crate::bytes_util::lemma_chars_in_mono(s, b + 1, a);
    }
}

/// Where the first `n` characters of `s` end (all of `s` if it is shorter).
pub open spec fn char_cut(s: Seq<u8>, n: nat) -> int {
    choose|k: int| 0 <= k <= s.len() && at_boundary(s, k) && chars_in(s, k) == if char_count(s) <= n {
        char_count(s)
    } else {
        n
    }
}

/// The excerpt [`summarize`] gives.
pub open spec fn spec_summary(s: Seq<u8>, max: nat) -> Seq<u8> {
    let t = trimmed(s);
    if char_count(t) <= max {
        flat(t)
    } else {
        flat(t.subrange(0, char_cut(t, max))) + "…".spec_bytes()
    }
}

/// An excerpt of `s`: the trimmed text, line feeds and tabs as spaces, cut
/// to `max` characters with `…` after a cut.
pub fn summarize(s: &[u8], max: usize) -> (r: Vec<u8>)
    ensures
        r@ == spec_summary(s@, max as nat),
        char_count(trimmed(s@)) <= max ==> r@ == flat(trimmed(s@)),
        char_count(trimmed(s@)) > max ==> exists|k: int| 0 <= k <= trimmed(s@).len() && chars_in(trimmed(s@), k) == max
            && crate::bytes_util::at_boundary(trimmed(s@), k) && r@ == flat(trimmed(s@).subrange(0, k)) + "…".spec_bytes(),
{
    let t = trim(s);
    let cut = prefix_chars_len(t.as_slice(), max);
    proof {
        let k = char_cut(t@, max as nat);
        assert(0 <= cut <= t@.len() && at_boundary(t@, cut as int));
        lemma_boundary_unique(t@, k, cut as int);
    }
    let mut out: Vec<u8> = Vec::new();
    let mut i: usize = 0;
    while i < cut
        invariant
            i <= cut <= t@.len(),
            out@ == flat(t@.subrange(0, i as int)),
        decreases cut - i,
    {
        let b = t[i];
        if b == 10 || b == 9 {
            out.push(32u8);
        } else {
            out.push(b);
        }
        assert(out@ =~= flat(t@.subrange(0, i + 1)));
        i = i + 1;
    }
    if cut < t.len() {
        push_str(&mut out, "…");
        proof {
            if char_count(t@) <= max {
                assert(cut == t@.len());
            }
        }
    } else {
        assert(t@.subrange(0, cut as int) =~= t@);
    }
    out
}

/// `h` half points written in points: `16pt`, `10.5pt`.
pub open spec fn spec_fmt_pt(h: u32) -> Seq<u8> {
    dec((h / 2) as nat) + (if h % 2 == 1 { ".5".spec_bytes() } else { seq![] }) + "pt".spec_bytes()
}

/// Half points in points; see [`spec_fmt_pt`].
pub fn fmt_pt(half_pt: u32) -> (r: Vec<u8>)
    ensures
        r@ == spec_fmt_pt(half_pt),
{
    let mut out: Vec<u8> = Vec::new();
    push_u64(&mut out, (half_pt / 2) as u64);
    if half_pt % 2 == 1 {
        push_str(&mut out, ".5");
    }
    push_str(&mut out, "pt");
    out
}

/// Twips in centimetres with one decimal, rounded to the nearest tenth
/// (567 twips per centimetre; no value falls on a tie).
pub open spec fn spec_fmt_cm(twips: u32) -> Seq<u8> {
    let tenths = (20 * twips + 567) / 1134;
    dec((tenths / 10) as nat) + ".".spec_bytes() + dec((tenths % 10) as nat)
}

/// Twips in centimetres; see [`spec_fmt_cm`].
pub fn fmt_cm(twips: u32) -> (r: Vec<u8>)
    ensures
        r@ == spec_fmt_cm(twips),
{
    let tenths: u64 = (20 * (twips as u64) + 567) / 1134;
    let mut out: Vec<u8> = Vec::new();
    push_u64(&mut out, tenths / 10);
    push_str(&mut out, ".");
    push_u64(&mut out, tenths % 10);
    out
}

/// `s` with every line feed followed by four spaces.
pub open spec fn spec_indent(s: Seq<u8>) -> Seq<u8>
    decreases s.len(),
{
    if s.len() == 0 {
        seq![]
    } else {
        spec_indent(s.subrange(0, s.len() - 1)) + if s[s.len() - 1] == 10 {
            seq![10u8, 32u8, 32u8, 32u8, 32u8]
        } else {
            seq![s[s.len() - 1]]
        }
    }
}

/// Indents the continuation lines of a multi-line text; see [`spec_indent`].
pub fn indent_continuation(s: &[u8]) -> (r: Vec<u8>)
    ensures
        r@ == spec_indent(s@),
{
    let mut out: Vec<u8> = Vec::new();
    let mut i: usize = 0;
    while i < s.len()
        invariant
            i <= s@.len(),
            out@ == spec_indent(s@.subrange(0, i as int)),
        decreases s@.len() - i,
    {
        assert(s@.subrange(0, i + 1).subrange(0, i as int) =~= s@.subrange(0, i as int));
        if s[i] == 10 {
            out.push(10u8);
            out.push(32u8);
            out.push(32u8);
            out.push(32u8);
            out.push(32u8);
        } else {
            out.push(s[i]);
        }
        assert(out@ =~= spec_indent(s@.subrange(0, i + 1)));
        i = i + 1;
    }
    assert(s@.subrange(0, i as int) =~= s@);
    out
}

fn join_parts(parts: &Vec<Vec<u8>>, out: &mut Vec<u8>)
    ensures
        final(out)@ == old(out)@ + crate::bytes_util::joined(crate::bytes_util::views(parts@), " ".spec_bytes()),
{
    crate::bytes_util::push_joined(out, parts, " ");
}

/// A byte in ASCII lower case.
pub open spec fn ascii_lower_of(x: u8) -> u8 {
    if 65 <= x <= 90 {
        (x + 32) as u8
    } else {
        x
    }
}

/// `a` equals `b` up to ASCII case.
pub open spec fn eq_ascii_ci(a: Seq<u8>, b: Seq<u8>) -> bool {
    a.len() == b.len() && forall|i: int| 0 <= i < a.len() ==> ascii_lower_of(#[trigger] a[i]) == ascii_lower_of(b[i])
}

/// `a` equals `b` up to ASCII case.
fn eq_ignore_ascii_case(a: &[u8], b: &str) -> (r: bool)
    ensures
        r == eq_ascii_ci(a@, b.spec_bytes()),
{
    let bb = b.as_bytes();
    if a.len() != bb.len() {
        return false;
    }
    let mut i: usize = 0;
    while i < a.len()
        invariant
            a@.len() == bb@.len(),
            bb@ == b.spec_bytes(),
            i <= a@.len(),
            forall|k: int| 0 <= k < i ==> ascii_lower_of(#[trigger] a@[k]) == ascii_lower_of(bb@[k]),
        decreases a@.len() - i,
    {
        let x = a[i];
        let y = bb[i];
        let lx = if 65 <= x && x <= 90 { x + 32 } else { x };
        let ly = if 65 <= y && y <= 90 { y + 32 } else { y };
        if lx != ly {
            return false;
        }
        i = i + 1;
    }
    true
}

/// `s` when the switch is on.
pub open spec fn on_part(v: Option<bool>, s: Seq<u8>) -> Seq<Seq<u8>> {
    if v == Some(true) {
        seq![s]
    } else {
        seq![]
    }
}

/// A colour: `自动色` for `auto`, else `#` and the value.
pub open spec fn color_parts(c: Option<Vec<u8>>) -> Seq<Seq<u8>> {
    match c {
        Some(v) => if eq_ascii_ci(v@, "auto".spec_bytes()) {
            seq!["自动色".spec_bytes()]
        } else {
            seq!["#".spec_bytes() + v@]
        },
        None => seq![],
    }
}

/// The fonts: East Asian and ASCII joined by `/`, or the one that is set.
pub open spec fn font_parts(ea: Option<Vec<u8>>, a: Option<Vec<u8>>) -> Seq<Seq<u8>> {
    match (ea, a) {
        (Some(e), Some(x)) => seq![e@ + seq![47u8] + x@],
        (Some(e), None) => seq![e@],
        (None, Some(x)) => seq![x@],
        (None, None) => seq![],
    }
}

/// The pieces of [`fmt_effective_run`].
pub open spec fn effective_run_parts(p: RunProps) -> Seq<Seq<u8>> {
    run_switch_parts(p) + run_value_parts(p)
}

/// The switches of [`effective_run_parts`]: size, bold, italic, underline, strike.
pub open spec fn run_switch_parts(p: RunProps) -> Seq<Seq<u8>> {
    (match p.size_half_pt {
        Some(v) => seq![spec_fmt_pt(v)],
        None => seq![],
    }) + on_part(p.bold, "粗".spec_bytes()) + on_part(p.italic, "斜".spec_bytes()) + on_part(p.underline, "下划线".spec_bytes())
        + on_part(p.strike, "删除线".spec_bytes())
}

/// The values of [`effective_run_parts`]: colour, highlight, fonts.
pub open spec fn run_value_parts(p: RunProps) -> Seq<Seq<u8>> {
    color_parts(p.color) + kv_parts("高亮=".spec_bytes(), p.highlight) + font_parts(p.font_east_asia, p.font_ascii)
}

fn push_on(parts: &mut Vec<Vec<u8>>, v: Option<bool>, s: &str)
    ensures
        crate::bytes_util::views(final(parts)@) == crate::bytes_util::views(old(parts)@) + on_part(v, s.spec_bytes()),
{
    let ghost c0 = crate::bytes_util::views(parts@);
    match v {
        Some(true) => {
            parts.push(str_bytes(s));
            assert(crate::bytes_util::views(parts@) =~= c0 + seq![s.spec_bytes()]);
        },
        _ => {
            assert(crate::bytes_util::views(parts@) =~= c0 + seq![]);
        },
    }
}

fn push_run_switches(parts: &mut Vec<Vec<u8>>, p: &RunProps)
    ensures
        crate::bytes_util::views(final(parts)@) == crate::bytes_util::views(old(parts)@) + run_switch_parts(*p),
{
    let ghost c0 = crate::bytes_util::views(parts@);
    if let Some(v) = p.size_half_pt {
        parts.push(fmt_pt(v));
        assert(crate::bytes_util::views(parts@) =~= c0 + seq![spec_fmt_pt(v)]);
    } else {
        assert(crate::bytes_util::views(parts@) =~= c0 + seq![]);
    }
    push_on(parts, p.bold, "粗");
    push_on(parts, p.italic, "斜");
    push_on(parts, p.underline, "下划线");
    push_on(parts, p.strike, "删除线");
    assert(crate::bytes_util::views(parts@) =~= c0 + run_switch_parts(*p));
}

fn push_run_values(parts: &mut Vec<Vec<u8>>, p: &RunProps)
    ensures
        crate::bytes_util::views(final(parts)@) == crate::bytes_util::views(old(parts)@) + run_value_parts(*p),
{
    let ghost c0 = crate::bytes_util::views(parts@);
    if let Some(v) = &p.color {
        if eq_ignore_ascii_case(v.as_slice(), "auto") {
            parts.push(str_bytes("自动色"));
            assert(crate::bytes_util::views(parts@) =~= c0 + seq!["自动色".spec_bytes()]);
        } else {
            let mut c = str_bytes("#");
            push_bytes(&mut c, v.as_slice());
            parts.push(c);
            assert(crate::bytes_util::views(parts@) =~= c0 + seq!["#".spec_bytes() + v@]);
        }
    } else {
        assert(crate::bytes_util::views(parts@) =~= c0 + seq![]);
    }
    kv(parts, "高亮=", &p.highlight);
    let ghost q0 = crate::bytes_util::views(parts@);
    match (&p.font_east_asia, &p.font_ascii) {
        (Some(ea), Some(ascii)) => {
            let mut c = slice_vec(ea.as_slice(), 0, ea.len());
            c.push(47u8);
            push_bytes(&mut c, ascii.as_slice());
            assert(c@ =~= ea@ + seq![47u8] + ascii@);
            parts.push(c);
            assert(crate::bytes_util::views(parts@) =~= q0 + seq![ea@ + seq![47u8] + ascii@]);
        },
        (Some(ea), None) => {
            let c = slice_vec(ea.as_slice(), 0, ea.len());
            assert(c@ =~= ea@);
            parts.push(c);
            assert(crate::bytes_util::views(parts@) =~= q0 + seq![ea@]);
        },
        (None, Some(ascii)) => {
            let c = slice_vec(ascii.as_slice(), 0, ascii.len());
            assert(c@ =~= ascii@);
            parts.push(c);
            assert(crate::bytes_util::views(parts@) =~= q0 + seq![ascii@]);
        },
        (None, None) => {
            assert(crate::bytes_util::views(parts@) =~= q0 + seq![]);
        },
    }
    assert(crate::bytes_util::views(parts@) =~= c0 + run_value_parts(*p));
}

/// The effective run formatting on one line: `16pt 粗 斜 #FF0000 黑体/Times`.
fn fmt_effective_run(p: &RunProps) -> (r: Vec<u8>)
    ensures
        r@ == if effective_run_parts(*p).len() == 0 {
            "(默认)".spec_bytes()
        } else {
            crate::bytes_util::joined(effective_run_parts(*p), " ".spec_bytes())
        },
{
    let mut parts: Vec<Vec<u8>> = Vec::new();
    assert(crate::bytes_util::views(parts@) =~= seq![]);
    push_run_switches(&mut parts, p);
    push_run_values(&mut parts, p);
    assert(crate::bytes_util::views(parts@) =~= effective_run_parts(*p));
    if parts.len() == 0 {
        return str_bytes("(默认)");
    }
    let mut out: Vec<u8> = Vec::new();
    join_parts(&parts, &mut out);
    out
}

fn flag(parts: &mut Vec<Vec<u8>>, v: Option<bool>, on: &str, off: &str)
    ensures
        crate::bytes_util::views(final(parts)@) == crate::bytes_util::views(old(parts)@) + match v {
            Some(true) => seq![on.spec_bytes()],
            Some(false) => seq![off.spec_bytes()],
            None => seq![],
        },
{
    match v {
        Some(true) => parts.push(str_bytes(on)),
        Some(false) => parts.push(str_bytes(off)),
        None => {},
    }
    assert(crate::bytes_util::views(parts@) =~= crate::bytes_util::views(old(parts)@) + match v {
        Some(true) => seq![on.spec_bytes()],
        Some(false) => seq![off.spec_bytes()],
        None => seq![],
    });
}

fn kv(parts: &mut Vec<Vec<u8>>, k: &str, v: &Option<Vec<u8>>)
    ensures
        crate::bytes_util::views(final(parts)@) == crate::bytes_util::views(old(parts)@) + match v {
            Some(x) => seq![k.spec_bytes() + x@],
            None => seq![],
        },
{
    if let Some(x) = v {
        let mut c = str_bytes(k);
        push_bytes(&mut c, x.as_slice());
        parts.push(c);
    }
    assert(crate::bytes_util::views(parts@) =~= crate::bytes_util::views(old(parts)@) + match v {
        Some(x) => seq![k.spec_bytes() + x@],
        None => seq![],
    });
}

/// A switch written as `on` or `off`; nothing when unset.
pub open spec fn flag_parts(v: Option<bool>, on: Seq<u8>, off: Seq<u8>) -> Seq<Seq<u8>> {
    match v {
        Some(true) => seq![on],
        Some(false) => seq![off],
        None => seq![],
    }
}

/// A value written after `k`; nothing when unset.
pub open spec fn kv_parts(k: Seq<u8>, v: Option<Vec<u8>>) -> Seq<Seq<u8>> {
    match v {
        Some(x) => seq![k + x@],
        None => seq![],
    }
}

/// The pieces of [`fmt_direct_run`].
pub open spec fn direct_run_parts(p: RunProps) -> Seq<Seq<u8>> {
    flag_parts(p.bold, "b".spec_bytes(), "b=off".spec_bytes()) + flag_parts(p.italic, "i".spec_bytes(), "i=off".spec_bytes())
        + flag_parts(p.underline, "u".spec_bytes(), "u=off".spec_bytes()) + flag_parts(
        p.strike,
        "strike".spec_bytes(),
        "strike=off".spec_bytes(),
    ) + match p.size_half_pt {
        Some(v) => seq!["sz=".spec_bytes() + dec(v as nat)],
        None => seq![],
    } + kv_parts("color=".spec_bytes(), p.color) + kv_parts("hl=".spec_bytes(), p.highlight) + kv_parts(
        "eastAsia=".spec_bytes(),
        p.font_east_asia,
    ) + kv_parts("ascii=".spec_bytes(), p.font_ascii)
}

/// The direct run formatting in short names; `None` when all is inherited.
fn fmt_direct_run(p: &RunProps) -> (r: Option<Vec<u8>>)
    ensures
        match r {
            Some(v) => direct_run_parts(*p).len() > 0 && v@ == crate::bytes_util::joined(direct_run_parts(*p), " ".spec_bytes()),
            None => direct_run_parts(*p).len() == 0,
        },
{
    let mut parts: Vec<Vec<u8>> = Vec::new();
    assert(crate::bytes_util::views(parts@) =~= seq![]);
    flag(&mut parts, p.bold, "b", "b=off");
    flag(&mut parts, p.italic, "i", "i=off");
    flag(&mut parts, p.underline, "u", "u=off");
    flag(&mut parts, p.strike, "strike", "strike=off");
    let ghost p0 = crate::bytes_util::views(parts@);
    if let Some(v) = p.size_half_pt {
        let mut c = str_bytes("sz=");
        push_u64(&mut c, v as u64);
        parts.push(c);
        assert(crate::bytes_util::views(parts@) =~= p0 + seq!["sz=".spec_bytes() + dec(v as nat)]);
    } else {
        assert(crate::bytes_util::views(parts@) =~= p0 + seq![]);
    }
    kv(&mut parts, "color=", &p.color);
    kv(&mut parts, "hl=", &p.highlight);
    kv(&mut parts, "eastAsia=", &p.font_east_asia);
    kv(&mut parts, "ascii=", &p.font_ascii);
    assert(crate::bytes_util::views(parts@) =~= direct_run_parts(*p));
    if parts.len() == 0 {
        return None;
    }
    let mut out: Vec<u8> = Vec::new();
    join_parts(&parts, &mut out);
    assert(out@ =~= crate::bytes_util::joined(direct_run_parts(*p), " ".spec_bytes()));
    Some(out)
}

/// The effective paragraph formatting on one line.
/// Line spacing in short: a multiple, an auto value, or points with the rule.
pub open spec fn line_parts(line: Option<u32>, rule: Option<Vec<u8>>) -> Seq<Seq<u8>> {
    match line {
        None => seq![],
        Some(l) => {
            let auto = match rule {
                Some(r) => r@ == "auto".spec_bytes() || r@.len() == 0,
                None => true,
            };
            if auto {
                if l % 240 == 0 {
                    seq![dec((l / 240) as nat) + "倍行距".spec_bytes()]
                } else {
                    seq!["line=".spec_bytes() + dec(l as nat) + "(auto)".spec_bytes()]
                }
            } else {
                seq![spec_fmt_pt(l) + "行距(".spec_bytes() + match rule {
                    Some(r) => r@,
                    None => seq![],
                } + ")".spec_bytes()]
            }
        },
    }
}

/// Spacing before and after a paragraph in short.
pub open spec fn spacing_parts(before: Option<u32>, after: Option<u32>) -> Seq<Seq<u8>> {
    match (before, after) {
        (Some(b), Some(a)) => seq!["段前/后=".spec_bytes() + spec_fmt_pt(b) + "/".spec_bytes() + spec_fmt_pt(a)],
        (Some(b), None) => seq!["段前=".spec_bytes() + spec_fmt_pt(b)],
        (None, Some(a)) => seq!["段后=".spec_bytes() + spec_fmt_pt(a)],
        (None, None) => seq![],
    }
}

/// A length in twips after `k`; nothing when unset.
pub open spec fn tw_parts(k: Seq<u8>, v: Option<u32>) -> Seq<Seq<u8>> {
    match v {
        Some(x) => seq![k + dec(x as nat) + "tw".spec_bytes()],
        None => seq![],
    }
}

/// The pieces of [`fmt_para_props`].
pub open spec fn para_props_parts(p: ParaProps) -> Seq<Seq<u8>> {
    kv_parts("对齐=".spec_bytes(), p.alignment) + line_parts(p.spacing_line, p.line_rule) + spacing_parts(
        p.spacing_before,
        p.spacing_after,
    ) + tw_parts("首行缩进=".spec_bytes(), p.indent_first_line) + tw_parts("悬挂缩进=".spec_bytes(), p.indent_hanging)
        + tw_parts("左缩进=".spec_bytes(), p.indent_left)
}

fn push_line_part(parts: &mut Vec<Vec<u8>>, p: &ParaProps)
    ensures
        crate::bytes_util::views(final(parts)@) == crate::bytes_util::views(old(parts)@) + line_parts(p.spacing_line, p.line_rule),
{
    let ghost c0 = crate::bytes_util::views(parts@);
    if let Some(line) = p.spacing_line {
        let auto = match &p.line_rule {
            Some(r) => eq_str(r.as_slice(), "auto") || r.len() == 0,
            None => true,
        };
        if auto {
            if line % 240 == 0 {
                let mut c: Vec<u8> = Vec::new();
                push_u64(&mut c, (line / 240) as u64);
                push_str(&mut c, "倍行距");
                assert(c@ =~= dec((line / 240) as nat) + "倍行距".spec_bytes());
                parts.push(c);
            } else {
                let mut c = str_bytes("line=");
                push_u64(&mut c, line as u64);
                push_str(&mut c, "(auto)");
                parts.push(c);
            }
        } else {
            let mut c = fmt_pt(line);
            push_str(&mut c, "行距(");
            if let Some(r) = &p.line_rule {
                push_bytes(&mut c, r.as_slice());
            } else {
                assert(c@ =~= c@ + Seq::<u8>::empty());
            }
            push_str(&mut c, ")");
            parts.push(c);
        }
    }
    assert(crate::bytes_util::views(parts@) =~= c0 + line_parts(p.spacing_line, p.line_rule));
}

fn push_spacing_part(parts: &mut Vec<Vec<u8>>, p: &ParaProps)
    ensures
        crate::bytes_util::views(final(parts)@) == crate::bytes_util::views(old(parts)@) + spacing_parts(p.spacing_before, p.spacing_after),
{
    let ghost c0 = crate::bytes_util::views(parts@);
    match (p.spacing_before, p.spacing_after) {
        (Some(b), Some(a)) => {
            let mut c = str_bytes("段前/后=");
            push_bytes(&mut c, fmt_pt(b).as_slice());
            push_str(&mut c, "/");
            push_bytes(&mut c, fmt_pt(a).as_slice());
            parts.push(c);
        },
        (Some(b), None) => {
            let mut c = str_bytes("段前=");
            push_bytes(&mut c, fmt_pt(b).as_slice());
            parts.push(c);
        },
        (None, Some(a)) => {
            let mut c = str_bytes("段后=");
            push_bytes(&mut c, fmt_pt(a).as_slice());
            parts.push(c);
        },
        (None, None) => {},
    }
    assert(crate::bytes_util::views(parts@) =~= c0 + spacing_parts(p.spacing_before, p.spacing_after));
}

fn push_tw(parts: &mut Vec<Vec<u8>>, k: &str, v: Option<u32>)
    ensures
        crate::bytes_util::views(final(parts)@) == crate::bytes_util::views(old(parts)@) + tw_parts(k.spec_bytes(), v),
{
    let ghost c0 = crate::bytes_util::views(parts@);
    if let Some(x) = v {
        let mut c = str_bytes(k);
        push_u64(&mut c, x as u64);
        push_str(&mut c, "tw");
        parts.push(c);
    }
    assert(crate::bytes_util::views(parts@) =~= c0 + tw_parts(k.spec_bytes(), v));
}

fn fmt_para_props(p: &ParaProps) -> (r: Vec<u8>)
    ensures
        r@ == if para_props_parts(*p).len() == 0 {
            "(默认)".spec_bytes()
        } else {
            crate::bytes_util::joined(para_props_parts(*p), " ".spec_bytes())
        },
{
    let mut parts: Vec<Vec<u8>> = Vec::new();
    assert(crate::bytes_util::views(parts@) =~= seq![]);
    kv(&mut parts, "对齐=", &p.alignment);
    push_line_part(&mut parts, p);
    push_spacing_part(&mut parts, p);
    push_tw(&mut parts, "首行缩进=", p.indent_first_line);
    push_tw(&mut parts, "悬挂缩进=", p.indent_hanging);
    push_tw(&mut parts, "左缩进=", p.indent_left);
    assert(crate::bytes_util::views(parts@) =~= para_props_parts(*p));
    if parts.len() == 0 {
        return str_bytes("(默认)");
    }
    let mut out: Vec<u8> = Vec::new();
    join_parts(&parts, &mut out);
    out
}


// ---------------------------------------------------------------------------
// Rendering
// ---------------------------------------------------------------------------

/// The runs of `rs[0..n]` marked `kind`.
pub open spec fn rev_runs(rs: Seq<Run>, n: int, kind: Revision) -> nat
    decreases n,
{
    if n <= 0 || n > rs.len() {
        0
    } else {
        rev_runs(rs, n - 1, kind) + if rs[n - 1].revision == Some(kind) { 1nat } else { 0nat }
    }
}

/// The runs marked `kind` in the blocks `bs[0..n]`, nested tables included.
pub open spec fn rev_blocks(bs: Seq<Block>, n: int, kind: Revision) -> nat
    decreases bs, n,
{
    if n <= 0 || n > bs.len() {
        0
    } else {
        rev_blocks(bs, n - 1, kind) + rev_block(bs[n - 1], kind)
    }
}

/// The runs marked `kind` in one block.
pub open spec fn rev_block(b: Block, kind: Revision) -> nat
    decreases b, 0int,
{
    match b {
        Block::Paragraph(p) => rev_runs(p.runs@, p.runs@.len() as int, kind),
        Block::Table(t) => rev_rows(t.rows@, t.rows@.len() as int, kind),
    }
}

/// The runs marked `kind` in the rows `rs[0..n]`.
pub open spec fn rev_rows(rs: Seq<TableRow>, n: int, kind: Revision) -> nat
    decreases rs, n,
{
    if n <= 0 || n > rs.len() {
        0
    } else {
        rev_rows(rs, n - 1, kind) + rev_cells(rs[n - 1].cells@, rs[n - 1].cells@.len() as int, kind)
    }
}

/// The runs marked `kind` in the cells `cs[0..n]`.
pub open spec fn rev_cells(cs: Seq<TableCell>, n: int, kind: Revision) -> nat
    decreases cs, n,
{
    if n <= 0 || n > cs.len() {
        0
    } else {
        rev_cells(cs, n - 1, kind) + rev_blocks(cs[n - 1].blocks@, cs[n - 1].blocks@.len() as int, kind)
    }
}

/// `a + n`, at most the largest `usize`.
pub open spec fn sat_add(a: nat, n: nat) -> nat {
    if a + n > usize::MAX {
        usize::MAX as nat
    } else {
        a + n
    }
}

/// Counts the inserted and deleted runs of blocks, nested tables included
/// (counts stop at the largest `usize`).
fn count_revisions(blocks: &[Block], counts: &mut (usize, usize))
    ensures
        final(counts).0 == sat_add(old(counts).0 as nat, rev_blocks(blocks@, blocks@.len() as int, Revision::Inserted)),
        final(counts).1 == sat_add(old(counts).1 as nat, rev_blocks(blocks@, blocks@.len() as int, Revision::Deleted)),
    decreases blocks@,
{
    let ghost a0 = counts.0 as nat;
    let ghost b0 = counts.1 as nat;
    let mut i: usize = 0;
    while i < blocks.len()
        invariant
            i <= blocks@.len(),
            counts.0 == sat_add(a0, rev_blocks(blocks@, i as int, Revision::Inserted)),
            counts.1 == sat_add(b0, rev_blocks(blocks@, i as int, Revision::Deleted)),
        decreases blocks@.len() - i,
    {
        let ghost ca = counts.0 as nat;
        let ghost cb = counts.1 as nat;
        match &blocks[i] {
            Block::Paragraph(p) => {
                let mut k: usize = 0;
                while k < p.runs.len()
                    invariant
                        k <= p.runs@.len(),
                        counts.0 == sat_add(ca, rev_runs(p.runs@, k as int, Revision::Inserted)),
                        counts.1 == sat_add(cb, rev_runs(p.runs@, k as int, Revision::Deleted)),
                    decreases p.runs@.len() - k,
                {
                    match p.runs[k].revision {
                        Some(Revision::Inserted) => {
                            counts.0 = counts.0.saturating_add(1);
                        },
                        Some(Revision::Deleted) => {
                            counts.1 = counts.1.saturating_add(1);
                        },
                        None => {},
                    }
                    k = k + 1;
                }
                assert(rev_block(blocks@[i as int], Revision::Inserted) == rev_runs(p.runs@, p.runs@.len() as int, Revision::Inserted));
                assert(rev_block(blocks@[i as int], Revision::Deleted) == rev_runs(p.runs@, p.runs@.len() as int, Revision::Deleted));
            },
            Block::Table(t) => {
                assert(decreases_to!(blocks@ => *t)) by {
                    assert(decreases_to!(blocks@ => blocks@[i as int]));
                }
                let mut r: usize = 0;
                while r < t.rows.len()
                    invariant
                        decreases_to!(blocks@ => *t),
                        r <= t.rows@.len(),
                        counts.0 == sat_add(ca, rev_rows(t.rows@, r as int, Revision::Inserted)),
                        counts.1 == sat_add(cb, rev_rows(t.rows@, r as int, Revision::Deleted)),
                    decreases t.rows@.len() - r,
                {
                    let ghost ra = counts.0 as nat;
                    let ghost rb = counts.1 as nat;
                    let row = &t.rows[r];
                    let mut c: usize = 0;
                    while c < row.cells.len()
                        invariant
                            r < t.rows@.len(),
                            row == &t.rows@[r as int],
                            decreases_to!(blocks@ => *t),
                            c <= row.cells@.len(),
                            counts.0 == sat_add(ra, rev_cells(row.cells@, c as int, Revision::Inserted)),
                            counts.1 == sat_add(rb, rev_cells(row.cells@, c as int, Revision::Deleted)),
                        decreases row.cells@.len() - c,
                    {
                        let cell = &row.cells[c];
                        assert(decreases_to!(blocks@ => cell.blocks@)) by {
                            assert(decreases_to!(*t => t.rows));
                            assert(decreases_to!(t.rows => t.rows@));
                            assert(decreases_to!(t.rows@ => t.rows@[r as int]));
                            assert(decreases_to!(t.rows@[r as int] => t.rows@[r as int].cells));
                            assert(decreases_to!(t.rows@[r as int].cells => t.rows@[r as int].cells@));
                            assert(decreases_to!(t.rows@[r as int].cells@ => t.rows@[r as int].cells@[c as int]));
                            assert(decreases_to!(t.rows@[r as int].cells@[c as int] => t.rows@[r as int].cells@[c as int].blocks));
                            assert(decreases_to!(t.rows@[r as int].cells@[c as int].blocks => t.rows@[r as int].cells@[c as int].blocks@));
                        }
                        count_revisions(cell.blocks.as_slice(), counts);
                        c = c + 1;
                    }
                    r = r + 1;
                }
                assert(rev_block(blocks@[i as int], Revision::Inserted) == rev_rows(t.rows@, t.rows@.len() as int, Revision::Inserted));
                assert(rev_block(blocks@[i as int], Revision::Deleted) == rev_rows(t.rows@, t.rows@.len() as int, Revision::Deleted));
            },
        }
        assert(rev_blocks(blocks@, i + 1, Revision::Inserted) == rev_blocks(blocks@, i as int, Revision::Inserted) + rev_block(blocks@[i as int], Revision::Inserted));
        assert(rev_blocks(blocks@, i + 1, Revision::Deleted) == rev_blocks(blocks@, i as int, Revision::Deleted) + rev_block(blocks@[i as int], Revision::Deleted));
        i = i + 1;
    }
}

/// The page line of the header: section count, page size, orientation.
pub open spec fn page_text(model: DocxDocument) -> Seq<u8> {
    if model.sections@.len() > 0 {
        let s = model.sections@[0];
        " | ".spec_bytes() + dec(model.sections@.len()) + " 节 | 页面 ".spec_bytes() + match (s.page_w, s.page_h) {
            (Some(w), Some(h)) => spec_fmt_cm(w) + "×".spec_bytes() + spec_fmt_cm(h) + "cm".spec_bytes(),
            _ => "尺寸未声明".spec_bytes(),
        } + seq![32u8] + match s.orientation {
            Some(o) => o@,
            None => "portrait".spec_bytes(),
        }
    } else {
        seq![]
    }
}

/// The revision warning of the header, when the body holds revisions.
pub open spec fn revision_text(model: DocxDocument) -> Seq<u8> {
    let ins = sat_add(0, rev_blocks(model.body@, model.body@.len() as int, Revision::Inserted));
    let del = sat_add(0, rev_blocks(model.body@, model.body@.len() as int, Revision::Deleted));
    if ins > 0 || del > 0 {
        "\n⚠ 含修订标记：".spec_bytes() + dec(ins) + " 处插入 / ".spec_bytes() + dec(del)
            + " 处删除（投影已按接受修订后的视图呈现；编辑操作默认不触碰修订 run）".spec_bytes()
    } else {
        seq![]
    }
}

/// The runs of the blocks `bs[0..n]` in document order, those of nested
/// tables included (row by row, cell by cell).
pub open spec fn runs_in_blocks(bs: Seq<Block>, n: int) -> Seq<Run>
    decreases bs, n,
{
    if n <= 0 || n > bs.len() {
        seq![]
    } else {
        runs_in_blocks(bs, n - 1) + runs_in_block(bs[n - 1])
    }
}

/// The runs of one block in document order.
pub open spec fn runs_in_block(b: Block) -> Seq<Run>
    decreases b, 0int,
{
    match b {
        Block::Paragraph(p) => p.runs@,
        Block::Table(t) => runs_in_rows(t.rows@, t.rows@.len() as int),
    }
}

/// The runs of the rows `rs[0..n]` in document order.
pub open spec fn runs_in_rows(rs: Seq<TableRow>, n: int) -> Seq<Run>
    decreases rs, n,
{
    if n <= 0 || n > rs.len() {
        seq![]
    } else {
        runs_in_rows(rs, n - 1) + runs_in_cells(rs[n - 1].cells@, rs[n - 1].cells@.len() as int)
    }
}

/// The runs of the cells `cs[0..n]` in document order.
pub open spec fn runs_in_cells(cs: Seq<TableCell>, n: int) -> Seq<Run>
    decreases cs, n,
{
    if n <= 0 || n > cs.len() {
        seq![]
    } else {
        runs_in_cells(cs, n - 1) + runs_in_blocks(cs[n - 1].blocks@, cs[n - 1].blocks@.len() as int)
    }
}

/// How many of the runs `rs` are marked `kind`.
pub open spec fn marked(rs: Seq<Run>, kind: Revision) -> nat {
    rs.filter(|r: Run| r.revision == Some(kind)).len()
}

proof fn lemma_marked_add(a: Seq<Run>, b: Seq<Run>, kind: Revision)
    ensures
        marked(a + b, kind) == marked(a, kind) + marked(b, kind),
{
    let pred = |r: Run| r.revision == Some(kind);
    Seq::filter_distributes_over_add(a, b, pred);
}

proof fn lemma_rev_runs_marked(rs: Seq<Run>, n: int, kind: Revision)
    requires
        0 <= n <= rs.len(),
    ensures
        rev_runs(rs, n, kind) == marked(rs.subrange(0, n), kind),
    decreases n,
{
    if n > 0 {
        lemma_rev_runs_marked(rs, n - 1, kind);
        assert(rs.subrange(0, n) =~= rs.subrange(0, n - 1) + seq![rs[n - 1]]);
        lemma_marked_add(rs.subrange(0, n - 1), seq![rs[n - 1]], kind);
        let pred = |r: Run| r.revision == Some(kind);
        seq![rs[n - 1]].filter_lemma(pred);
        reveal_with_fuel(vstd::seq::Seq::filter, 2);
    } else {
        assert(rs.subrange(0, 0) =~= Seq::<Run>::empty());
    }
}

proof fn lemma_rev_blocks_marked(bs: Seq<Block>, n: int, kind: Revision)
    ensures
        rev_blocks(bs, n, kind) == marked(runs_in_blocks(bs, n), kind),
    decreases bs, n,
{
    if n <= 0 || n > bs.len() {
        assert(runs_in_blocks(bs, n) =~= Seq::<Run>::empty());
    } else {
        lemma_rev_blocks_marked(bs, n - 1, kind);
        lemma_rev_block_marked(bs[n - 1], kind);
        lemma_marked_add(runs_in_blocks(bs, n - 1), runs_in_block(bs[n - 1]), kind);
    }
}

proof fn lemma_rev_block_marked(b: Block, kind: Revision)
    ensures
        rev_block(b, kind) == marked(runs_in_block(b), kind),
    decreases b, 0int,
{
    match b {
        Block::Paragraph(p) => {
            lemma_rev_runs_marked(p.runs@, p.runs@.len() as int, kind);
            assert(p.runs@.subrange(0, p.runs@.len() as int) =~= p.runs@);
        },
        Block::Table(t) => {
            lemma_rev_rows_marked(t.rows@, t.rows@.len() as int, kind);
        },
    }
}

proof fn lemma_rev_rows_marked(rs: Seq<TableRow>, n: int, kind: Revision)
    ensures
        rev_rows(rs, n, kind) == marked(runs_in_rows(rs, n), kind),
    decreases rs, n,
{
    if n <= 0 || n > rs.len() {
        assert(runs_in_rows(rs, n) =~= Seq::<Run>::empty());
    } else {
        lemma_rev_rows_marked(rs, n - 1, kind);
        lemma_rev_cells_marked(rs[n - 1].cells@, rs[n - 1].cells@.len() as int, kind);
        lemma_marked_add(runs_in_rows(rs, n - 1), runs_in_cells(rs[n - 1].cells@, rs[n - 1].cells@.len() as int), kind);
    }
}

proof fn lemma_rev_cells_marked(cs: Seq<TableCell>, n: int, kind: Revision)
    ensures
        rev_cells(cs, n, kind) == marked(runs_in_cells(cs, n), kind),
    decreases cs, n,
{
    if n <= 0 || n > cs.len() {
        assert(runs_in_cells(cs, n) =~= Seq::<Run>::empty());
    } else {
        lemma_rev_cells_marked(cs, n - 1, kind);
        lemma_rev_blocks_marked(cs[n - 1].blocks@, cs[n - 1].blocks@.len() as int, kind);
        lemma_marked_add(runs_in_cells(cs, n - 1), runs_in_blocks(cs[n - 1].blocks@, cs[n - 1].blocks@.len() as int), kind);
    }
}

proof fn lemma_encode_concat(a: Seq<char>, b: Seq<char>)
    ensures
        vstd::utf8::encode_utf8(a + b) == vstd::utf8::encode_utf8(a) + vstd::utf8::encode_utf8(b),
    decreases a.len(),
{
    if a.len() > 0 {
        assert((a + b).drop_first() =~= a.drop_first() + b);
        lemma_encode_concat(a.drop_first(), b);
        assert((a + b)[0] == a[0]);
        assert(vstd::utf8::encode_utf8(a + b) =~= vstd::utf8::encode_utf8(a) + vstd::utf8::encode_utf8(b));
    } else {
        assert(a + b =~= b);
        assert(vstd::utf8::encode_utf8(a) =~= Seq::<u8>::empty());
        assert(vstd::utf8::encode_utf8(a + b) =~= vstd::utf8::encode_utf8(a) + vstd::utf8::encode_utf8(b));
    }
}

/// A count as the header prints it: at most the largest `usize`.
pub open spec fn shown_count(n: nat) -> nat {
    if n > usize::MAX { usize::MAX as nat } else { n }
}

/// Law: the revision warning of the header prints, before `处插入`, the
/// number of runs of the body marked as inserted and, before `处删除`, the
/// number marked as deleted, nested tables included; it is there exactly
/// when one of them is not zero.
pub proof fn law_header_revision_counts(model: DocxDocument)
    ensures
        ({
            let runs = runs_in_blocks(model.body@, model.body@.len() as int);
            let ins = shown_count(marked(runs, Revision::Inserted));
            let del = shown_count(marked(runs, Revision::Deleted));
            let head = "\n⚠ 含修订标记：".spec_bytes() + dec(ins) + " 处插入 / ".spec_bytes() + dec(del) + " 处删除".spec_bytes();
            &&& (ins == 0 && del == 0) ==> revision_text(model) == Seq::<u8>::empty()
            &&& (ins > 0 || del > 0) ==> head.len() <= revision_text(model).len() && revision_text(model).subrange(
                0,
                head.len() as int,
            ) == head
        }),
{
    let runs = runs_in_blocks(model.body@, model.body@.len() as int);
    lemma_rev_blocks_marked(model.body@, model.body@.len() as int, Revision::Inserted);
    lemma_rev_blocks_marked(model.body@, model.body@.len() as int, Revision::Deleted);
    let ins = shown_count(marked(runs, Revision::Inserted));
    let del = shown_count(marked(runs, Revision::Deleted));
    if ins > 0 || del > 0 {
        reveal_strlit(" 处删除");
        reveal_strlit(" 处删除（投影已按接受修订后的视图呈现；编辑操作默认不触碰修订 run）");
        let rest = "（投影已按接受修订后的视图呈现；编辑操作默认不触碰修订 run）".spec_bytes();
        reveal_strlit("（投影已按接受修订后的视图呈现；编辑操作默认不触碰修订 run）");
        assert(" 处删除（投影已按接受修订后的视图呈现；编辑操作默认不触碰修订 run）"@ =~= " 处删除"@
            + "（投影已按接受修订后的视图呈现；编辑操作默认不触碰修订 run）"@);
        lemma_encode_concat(" 处删除"@, "（投影已按接受修订后的视图呈现；编辑操作默认不触碰修订 run）"@);
        assert(" 处删除（投影已按接受修订后的视图呈现；编辑操作默认不触碰修订 run）".spec_bytes() =~= " 处删除".spec_bytes() + rest);
        let head = "\n⚠ 含修订标记：".spec_bytes() + dec(ins) + " 处插入 / ".spec_bytes() + dec(del) + " 处删除".spec_bytes();
        assert(revision_text(model) =~= head + rest);
        assert(revision_text(model).subrange(0, head.len() as int) =~= head);
    }
}

/// The summary header of every projection: size, sections and page, revisions.
#[verifier::rlimit(60)]
#[verifier::spinoff_prover]
fn render_header(model: &DocxDocument, total: usize, out: &mut Vec<u8>)
    ensures
        final(out)@ == old(out)@ + "共 ".spec_bytes() + dec(total as nat) + " 块（1-based，段落 ¶ 与表格 ▦ 混排统一编号）".spec_bytes()
            + page_text(*model) + revision_text(*model) + seq![10u8],
{
    let ghost o0 = out@;
    push_str(out, "共 ");
    push_usize(out, total);
    push_str(out, " 块（1-based，段落 ¶ 与表格 ▦ 混排统一编号）");
    let ghost o1 = out@;
    if model.sections.len() > 0 {
        let s = &model.sections[0];
        push_str(out, " | ");
        push_usize(out, model.sections.len());
        push_str(out, " 节 | 页面 ");
        match (s.page_w, s.page_h) {
            (Some(w), Some(h)) => {
                push_bytes(out, fmt_cm(w).as_slice());
                push_str(out, "×");
                push_bytes(out, fmt_cm(h).as_slice());
                push_str(out, "cm");
            },
            _ => push_str(out, "尺寸未声明"),
        }
        out.push(32u8);
        match &s.orientation {
            Some(o) => push_bytes(out, o.as_slice()),
            None => push_str(out, "portrait"),
        }
    }
    assert(out@ =~= o1 + page_text(*model));
    let ghost o2 = out@;
    let mut counts: (usize, usize) = (0, 0);
    count_revisions(model.body.as_slice(), &mut counts);
    if counts.0 > 0 || counts.1 > 0 {
        push_str(out, "\n⚠ 含修订标记：");
        push_usize(out, counts.0);
        push_str(out, " 处插入 / ");
        push_usize(out, counts.1);
        push_str(out, " 处删除（投影已按接受修订后的视图呈现；编辑操作默认不触碰修订 run）");
    }
    assert(out@ =~= o2 + revision_text(*model));
    out.push(10u8);
    assert(out@ =~= o0 + "共 ".spec_bytes() + dec(total as nat) + " 块（1-based，段落 ¶ 与表格 ▦ 混排统一编号）".spec_bytes()
        + page_text(*model) + revision_text(*model) + seq![10u8]);
}

/// The name a style ID is displayed under: its style's name, else the ID.
pub open spec fn display_name(ss: Seq<styles::StyleV>, id: Seq<u8>) -> Seq<u8> {
    match styles::index_of_id(ss, id, 0) {
        Some(j) => match ss[j].name {
            Some(n) => n,
            None => id,
        },
        None => id,
    }
}

/// The pieces of [`para_meta`].
pub open spec fn para_meta_parts(ss: Seq<styles::StyleV>, props: ParaProps) -> Seq<Seq<u8>> {
    (match props.style {
        Some(id) => match styles::chain_outline(ss, styles::spec_chain(ss, id@)) {
            Some(lvl) => seq!["H".spec_bytes() + dec((lvl + 1) as nat) + seq![32u8] + display_name(ss, id@)],
            None => seq!["样式=".spec_bytes() + display_name(ss, id@)],
        },
        None => seq!["(无样式)".spec_bytes()],
    }) + match props.numbering {
        Some(num) => seq![
            "列表(num".spec_bytes() + dec(num.num_id as nat) + ",lvl".spec_bytes() + dec(num.ilvl as nat) + ")".spec_bytes(),
        ],
        None => seq![],
    }
}

/// Paragraph metadata: style (display name and outline level), list reference.
fn para_meta(styles: &Stylesheet, props: &ParaProps) -> (r: Vec<u8>)
    ensures
        r@ == crate::bytes_util::joined(para_meta_parts(styles.view_styles(), *props), " ".spec_bytes()),
{
    let ghost ss = styles.view_styles();
    let mut parts: Vec<Vec<u8>> = Vec::new();
    match &props.style {
        Some(id) => {
            let name = match styles.name_of(id.as_slice()) {
                Some(n) => slice_vec(n.as_slice(), 0, n.len()),
                None => slice_vec(id.as_slice(), 0, id.len()),
            };
            assert(name@ =~= display_name(ss, id@));
            match styles.outline_lvl_of(id.as_slice()) {
                Some(lvl) => {
                    let mut c = str_bytes("H");
                    push_u64(&mut c, lvl as u64 + 1);
                    c.push(32u8);
                    push_bytes(&mut c, name.as_slice());
                    assert(c@ =~= "H".spec_bytes() + dec((lvl + 1) as nat) + seq![32u8] + display_name(ss, id@));
                    parts.push(c);
                },
                None => {
                    let mut c = str_bytes("样式=");
                    push_bytes(&mut c, name.as_slice());
                    parts.push(c);
                },
            }
        },
        None => parts.push(str_bytes("(无样式)")),
    }
    let ghost c0 = crate::bytes_util::views(parts@);
    if let Some(num) = &props.numbering {
        let mut c = str_bytes("列表(num");
        push_u64(&mut c, num.num_id as u64);
        push_str(&mut c, ",lvl");
        push_u64(&mut c, num.ilvl as u64);
        push_str(&mut c, ")");
        parts.push(c);
        assert(crate::bytes_util::views(parts@) =~= c0.push(c@));
    }
    assert(crate::bytes_util::views(parts@) =~= para_meta_parts(ss, *props));
    let mut out: Vec<u8> = Vec::new();
    join_parts(&parts, &mut out);
    out
}

/// The text of the paragraphs among `bs[0..n]` (nested tables left out).
pub open spec fn paras_text(bs: Seq<Block>, n: int) -> Seq<u8>
    decreases n,
{
    if n <= 0 || n > bs.len() {
        seq![]
    } else {
        paras_text(bs, n - 1) + match bs[n - 1] {
            Block::Paragraph(p) => runs_text(runs_view(p.runs@)),
            _ => seq![],
        }
    }
}

/// One cell in short; see [`row_cells_summary`].
pub open spec fn cell_summary(c: crate::docx_model::TableCell) -> Seq<u8> {
    if c.v_merge matches Some(v) && v@ == "continue".spec_bytes() {
        "⋯".spec_bytes()
    } else {
        spec_summary(paras_text(c.blocks@, c.blocks@.len() as int), 20) + if c.grid_span matches Some(sp) && sp > 1 {
            "↔".spec_bytes() + dec(c.grid_span->0 as nat)
        } else {
            seq![]
        }
    }
}

/// The cells of a row in short.
pub open spec fn row_summary(cs: Seq<crate::docx_model::TableCell>) -> Seq<u8> {
    crate::bytes_util::joined(cs.map_values(|c: crate::docx_model::TableCell| cell_summary(c)), " | ".spec_bytes())
}

/// The cells of a row in short: a merged continuation shows `⋯`, a cell
/// spanning several grid columns is marked `↔N`.
fn row_cells_summary(row: &TableRow) -> (r: Vec<u8>)
    ensures
        r@ == row_summary(row.cells@),
{
    let ghost ps = row.cells@.map_values(|c: crate::docx_model::TableCell| cell_summary(c));
    let mut out: Vec<u8> = Vec::new();
    let mut i: usize = 0;
    while i < row.cells.len()
        invariant
            i <= row.cells@.len(),
            ps == row.cells@.map_values(|c: crate::docx_model::TableCell| cell_summary(c)),
            out@ == crate::bytes_util::joined(ps.subrange(0, i as int), " | ".spec_bytes()),
        decreases row.cells@.len() - i,
    {
        proof {
            crate::bytes_util::lemma_joined_step(ps, " | ".spec_bytes(), i as int);
        }
        let ghost o0 = out@;
        if i > 0 {
            push_str(&mut out, " | ");
        }
        let ghost o1 = out@;
        let c = &row.cells[i];
        let cont = match &c.v_merge {
            Some(v) => eq_str(v.as_slice(), "continue"),
            None => false,
        };
        if cont {
            push_str(&mut out, "⋯");
        } else {
            let mut text: Vec<u8> = Vec::new();
            let mut k: usize = 0;
            while k < c.blocks.len()
                invariant
                    k <= c.blocks@.len(),
                    text@ == paras_text(c.blocks@, k as int),
                decreases c.blocks@.len() - k,
            {
                if let Block::Paragraph(p) = &c.blocks[k] {
                    push_bytes(&mut text, para_text(p).as_slice());
                } else {
                    assert(text@ =~= text@ + Seq::<u8>::empty());
                }
                k = k + 1;
            }
            push_bytes(&mut out, summarize(text.as_slice(), 20).as_slice());
            if let Some(span) = c.grid_span {
                if span > 1 {
                    push_str(&mut out, "↔");
                    push_u64(&mut out, span as u64);
                }
            }
        }
        assert(out@ =~= o1 + cell_summary(row.cells@[i as int]));
        i = i + 1;
    }
    assert(ps.subrange(0, i as int) =~= ps);
    out
}

fn cols_of(t: &Table) -> (r: usize)
    ensures
        r == if t.rows@.len() > 0 { t.rows@[0].cells@.len() } else { 0 },
{
    if t.rows.len() > 0 {
        t.rows[0].cells.len()
    } else {
        0
    }
}

fn push_block_no(out: &mut Vec<u8>, n: usize)
    ensures
        final(out)@ == old(out)@ + "[".spec_bytes() + crate::bytes_util::dec(n as nat) + "] ".spec_bytes(),
{
    push_str(out, "[");
    push_usize(out, n);
    push_str(out, "] ");
    assert(final(out)@ =~= old(out)@ + "[".spec_bytes() + crate::bytes_util::dec(n as nat) + "] ".spec_bytes());
}

/// The outline line of block `n`; see [`render_outline_line`].
pub open spec fn outline_line(ss: Seq<styles::StyleV>, n: nat, b: Block) -> Seq<u8> {
    "[".spec_bytes() + dec(n) + "] ".spec_bytes() + match b {
        Block::Paragraph(p) => {
            let text = runs_text(runs_view(p.runs@));
            "¶ ".spec_bytes() + crate::bytes_util::joined(para_meta_parts(ss, p.props), " ".spec_bytes()) + if trimmed(text).len() == 0 {
                " (空)\n".spec_bytes()
            } else {
                seq![32u8] + spec_summary(text, 60) + seq![10u8]
            }
        },
        Block::Table(t) => "▦ 表 ".spec_bytes() + dec(t.rows@.len()) + "行×".spec_bytes() + dec(
            if t.rows@.len() > 0 { t.rows@[0].cells@.len() } else { 0 },
        ) + "列 | ".spec_bytes() + (if t.rows@.len() > 0 {
            spec_summary(row_summary(t.rows@[0].cells@), 50)
        } else {
            "(空表)".spec_bytes()
        }) + seq![10u8],
    }
}

/// Law: the outline line of a table block starts with its number, then
/// `▦ 表 `, the number of rows of the table before `行×`, and the number of
/// cells of its first row (none without rows) before `列 | `.
pub proof fn law_outline_table_shape(ss: Seq<styles::StyleV>, n: nat, t: Table)
    ensures
        ({
            let rows = t.rows@.len();
            let cols: nat = if t.rows@.len() > 0 { t.rows@[0].cells@.len() } else { 0 };
            let head = "[".spec_bytes() + dec(n) + "] ".spec_bytes() + "▦ 表 ".spec_bytes() + dec(rows) + "行×".spec_bytes()
                + dec(cols) + "列 | ".spec_bytes();
            &&& head.len() <= outline_line(ss, n, Block::Table(t)).len()
            &&& outline_line(ss, n, Block::Table(t)).subrange(0, head.len() as int) == head
        }),
{
    let rows = t.rows@.len();
    let cols: nat = if t.rows@.len() > 0 { t.rows@[0].cells@.len() } else { 0 };
    let head = "[".spec_bytes() + dec(n) + "] ".spec_bytes() + "▦ 表 ".spec_bytes() + dec(rows) + "行×".spec_bytes() + dec(cols)
        + "列 | ".spec_bytes();
    let line = outline_line(ss, n, Block::Table(t));
    let tail = (if t.rows@.len() > 0 {
        spec_summary(row_summary(t.rows@[0].cells@), 50)
    } else {
        "(空表)".spec_bytes()
    }) + seq![10u8];
    assert(line =~= head + tail);
    assert(line.subrange(0, head.len() as int) =~= head);
}

/// The outline projection of one block.
#[verifier::rlimit(40)]
fn render_outline_line(styles: &Stylesheet, n: usize, block: &Block, out: &mut Vec<u8>)
    ensures
        final(out)@ == old(out)@ + outline_line(styles.view_styles(), n as nat, *block),
{
    let ghost o0 = out@;
    push_block_no(out, n);
    let ghost o1 = out@;
    match block {
        Block::Paragraph(p) => {
            let text = para_text(p);
            push_str(out, "¶ ");
            push_bytes(out, para_meta(styles, &p.props).as_slice());
            if is_blank(text.as_slice()) {
                push_str(out, " (空)\n");
            } else {
                out.push(32u8);
                push_bytes(out, summarize(text.as_slice(), 60).as_slice());
                out.push(10u8);
            }
        },
        Block::Table(t) => {
            push_str(out, "▦ 表 ");
            push_usize(out, t.rows.len());
            push_str(out, "行×");
            push_usize(out, cols_of(t));
            push_str(out, "列 | ");
            if t.rows.len() > 0 {
                let s = row_cells_summary(&t.rows[0]);
                push_bytes(out, summarize(s.as_slice(), 50).as_slice());
            } else {
                push_str(out, "(空表)");
            }
            out.push(10u8);
        },
    }
    assert(out@ =~= o0 + outline_line(styles.view_styles(), n as nat, *block));
}

/// The format projection of one block: effective paragraph and run formatting.
fn render_format_block(styles: &Stylesheet, n: usize, block: &Block, out: &mut Vec<u8>) {
    push_block_no(out, n);
    match block {
        Block::Paragraph(p) => {
            push_str(out, "¶ ");
            push_bytes(out, para_meta(styles, &p.props).as_slice());
            out.push(10u8);
            let chain = match &p.props.style {
                Some(id) => styles.resolve_chain(id.as_slice()),
                None => Vec::new(),
            };
            let eff = styles.effective_para(&p.props, &chain);
            push_str(out, "     段落格式: ");
            push_bytes(out, fmt_para_props(&eff).as_slice());
            out.push(10u8);
            let text = para_text(p);
            if is_blank(text.as_slice()) {
                push_str(out, "     文本: (空)\n");
            } else {
                push_str(out, "     文本: ");
                push_bytes(out, summarize(text.as_slice(), 80).as_slice());
                out.push(10u8);
            }
            let mut i: usize = 0;
            while i < p.runs.len()
                invariant
                    forall|k: int| 0 <= k < chain@.len() ==> (#[trigger] chain@[k]) < styles.styles@.len(),
                decreases p.runs@.len() - i,
            {
                let run = &p.runs[i];
                if run.text.len() > 0 {
                    let eff_run = styles.effective_run(&run.props, &chain);
                    push_str(out, "     run ");
                    push_usize(out, i + 1);
                    push_str(out, " \"");
                    push_bytes(out, summarize(run.text.as_slice(), 40).as_slice());
                    push_str(out, "\" → ");
                    push_bytes(out, fmt_effective_run(&eff_run).as_slice());
                    if let Some(direct) = fmt_direct_run(&run.props) {
                        push_str(out, " [直接: ");
                        push_bytes(out, direct.as_slice());
                        push_str(out, "]");
                    }
                    match run.revision {
                        Some(Revision::Inserted) => push_str(out, " 〔插入修订〕"),
                        Some(Revision::Deleted) => push_str(out, " 〔删除修订〕"),
                        None => {},
                    }
                    out.push(10u8);
                }
                i = i + 1;
            }
        },
        Block::Table(t) => {
            push_str(out, "▦ 表格 ");
            push_usize(out, t.rows.len());
            push_str(out, "行×");
            push_usize(out, cols_of(t));
            push_str(out, "列\n");
            let mut r: usize = 0;
            while r < t.rows.len() && r < 15
                decreases t.rows@.len() - r,
            {
                push_str(out, "     r");
                push_usize(out, r + 1);
                push_str(out, ": ");
                push_bytes(out, row_cells_summary(&t.rows[r]).as_slice());
                out.push(10u8);
                r = r + 1;
            }
            if t.rows.len() > 15 {
                push_str(out, "     … 还有 ");
                push_usize(out, t.rows.len() - 15);
                push_str(out, " 行（表格行编辑见 edit_docx）\n");
            }
        },
    }
}

/// The text-projection lines of the rows `rs[0..n]`, each line after `prefix`.
pub open spec fn rows_tt(rs: Seq<TableRow>, n: int, prefix: Seq<u8>) -> Seq<u8>
    decreases rs, n,
{
    if n <= 0 || n > rs.len() {
        seq![]
    } else {
        rows_tt(rs, n - 1, prefix) + cells_tt(rs[n - 1].cells@, rs[n - 1].cells@.len() as int, prefix)
    }
}

/// The text-projection lines of the cells `cs[0..n]`.
pub open spec fn cells_tt(cs: Seq<crate::docx_model::TableCell>, n: int, prefix: Seq<u8>) -> Seq<u8>
    decreases cs, n,
{
    if n <= 0 || n > cs.len() {
        seq![]
    } else {
        cells_tt(cs, n - 1, prefix) + blocks_tt(cs[n - 1].blocks@, cs[n - 1].blocks@.len() as int, prefix)
    }
}

/// The text-projection lines of the blocks `bs[0..n]` of a cell.
pub open spec fn blocks_tt(bs: Seq<Block>, n: int, prefix: Seq<u8>) -> Seq<u8>
    decreases bs, n,
{
    if n <= 0 || n > bs.len() {
        seq![]
    } else {
        blocks_tt(bs, n - 1, prefix) + block_tt(bs[n - 1], prefix)
    }
}

/// The text-projection lines of one block of a cell: a non-blank paragraph
/// in short, a nested table under its own line, indented further.
pub open spec fn block_tt(b: Block, prefix: Seq<u8>) -> Seq<u8>
    decreases b, 0int,
{
    match b {
        Block::Paragraph(p) => {
            let text = runs_text(runs_view(p.runs@));
            if trimmed(text).len() == 0 {
                seq![]
            } else {
                prefix + spec_summary(text, 80) + seq![10u8]
            }
        },
        Block::Table(nt) => prefix + "▦ 嵌套表:\n".spec_bytes() + rows_tt(nt.rows@, nt.rows@.len() as int, prefix + "  ".spec_bytes()),
    }
}

/// The text of a table for the text projection, nested tables included.
fn render_table_text(t: &Table, prefix: &[u8], out: &mut Vec<u8>)
    ensures
        final(out)@ == old(out)@ + rows_tt(t.rows@, t.rows@.len() as int, prefix@),
    decreases t,
{
    let ghost o0 = out@;
    let mut r: usize = 0;
    while r < t.rows.len()
        invariant
            r <= t.rows@.len(),
            out@ == o0 + rows_tt(t.rows@, r as int, prefix@),
        decreases t.rows@.len() - r,
    {
        let ghost orow = out@;
        let row = &t.rows[r];
        let mut c: usize = 0;
        while c < row.cells.len()
            invariant
                r < t.rows@.len(),
                row == &t.rows@[r as int],
                c <= row.cells@.len(),
                out@ == orow + cells_tt(row.cells@, c as int, prefix@),
            decreases row.cells@.len() - c,
        {
            let ghost ocell = out@;
            let cell = &row.cells[c];
            let mut k: usize = 0;
            while k < cell.blocks.len()
                invariant
                    r < t.rows@.len(),
                    row == &t.rows@[r as int],
                    c < row.cells@.len(),
                    cell == &row.cells@[c as int],
                    k <= cell.blocks@.len(),
                    out@ == ocell + blocks_tt(cell.blocks@, k as int, prefix@),
                decreases cell.blocks@.len() - k,
            {
                let ghost ob = out@;
                match &cell.blocks[k] {
                    Block::Paragraph(p) => {
                        let text = para_text(p);
                        if !is_blank(text.as_slice()) {
                            push_bytes(out, prefix);
                            push_bytes(out, summarize(text.as_slice(), 80).as_slice());
                            out.push(10u8);
                        }
                    },
                    Block::Table(nt) => {
                        push_bytes(out, prefix);
                        push_str(out, "▦ 嵌套表:\n");
                        let mut np = slice_vec(prefix, 0, prefix.len());
                        push_str(&mut np, "  ");
                        assert(decreases_to!(*t => *nt)) by {
                            assert(decreases_to!(*t => t.rows));
                            assert(decreases_to!(t.rows => t.rows@));
                            assert(decreases_to!(t.rows@ => t.rows@[r as int]));
                            assert(decreases_to!(t.rows@[r as int] => t.rows@[r as int].cells));
                            assert(decreases_to!(t.rows@[r as int].cells => t.rows@[r as int].cells@));
                            assert(decreases_to!(t.rows@[r as int].cells@ => t.rows@[r as int].cells@[c as int]));
                            assert(decreases_to!(t.rows@[r as int].cells@[c as int] => t.rows@[r as int].cells@[c as int].blocks));
                            assert(decreases_to!(t.rows@[r as int].cells@[c as int].blocks => t.rows@[r as int].cells@[c as int].blocks@));
                            assert(decreases_to!(t.rows@[r as int].cells@[c as int].blocks@ => t.rows@[r as int].cells@[c as int].blocks@[k as int]));
                        }
                        assert(np@ =~= prefix@ + "  ".spec_bytes());
                        render_table_text(nt, np.as_slice(), out);
                    },
                }
                assert(out@ =~= ob + block_tt(cell.blocks@[k as int], prefix@));
                assert(blocks_tt(cell.blocks@, k + 1, prefix@) == blocks_tt(cell.blocks@, k as int, prefix@) + block_tt(
                    cell.blocks@[k as int],
                    prefix@,
                ));
                k = k + 1;
            }
            assert(cells_tt(row.cells@, c + 1, prefix@) == cells_tt(row.cells@, c as int, prefix@) + blocks_tt(
                cell.blocks@,
                cell.blocks@.len() as int,
                prefix@,
            ));
            c = c + 1;
        }
        assert(rows_tt(t.rows@, r + 1, prefix@) == rows_tt(t.rows@, r as int, prefix@) + cells_tt(
            row.cells@,
            row.cells@.len() as int,
            prefix@,
        ));
        r = r + 1;
    }
}

/// The lines of `t` from the one that starts at `start`, `i` the position
/// reached in it, each line after `nb` and ended by a line feed.
pub open spec fn lines_from(t: Seq<u8>, nb: Seq<u8>, start: int, i: int) -> Seq<u8>
    decreases t.len() + 1 - i,
{
    if i < 0 || i > t.len() || start < 0 || start > i {
        seq![]
    } else if i == t.len() {
        nb + t.subrange(start, i) + seq![10u8]
    } else if t[i] == 10u8 {
        nb + t.subrange(start, i) + seq![10u8] + lines_from(t, nb, i + 1, i + 1)
    } else {
        lines_from(t, nb, start, i + 1)
    }
}

/// The text projection of block `n`; see [`render_text_block`].
pub open spec fn text_block(n: nat, b: Block) -> Seq<u8> {
    let nb = "[".spec_bytes() + dec(n) + "] ".spec_bytes();
    match b {
        Block::Paragraph(p) => {
            let text = runs_text(runs_view(p.runs@));
            if trimmed(text).len() == 0 {
                nb + "(空)\n".spec_bytes()
            } else {
                lines_from(text, nb, 0, 0)
            }
        },
        Block::Table(t) => nb + "▦ 表格 ".spec_bytes() + dec(t.rows@.len()) + "行×".spec_bytes() + dec(
            if t.rows@.len() > 0 { t.rows@[0].cells@.len() } else { 0 },
        ) + "列:\n".spec_bytes() + rows_tt(t.rows@, t.rows@.len() as int, "     ".spec_bytes()),
    }
}

/// Law: the text projection of a table block starts with its number, then
/// `▦ 表格 `, the number of rows of the table before `行×`, and the number of
/// cells of its first row (none without rows) before `列:`.
pub proof fn law_text_table_shape(n: nat, t: Table)
    ensures
        ({
            let rows = t.rows@.len();
            let cols: nat = if t.rows@.len() > 0 { t.rows@[0].cells@.len() } else { 0 };
            let head = "[".spec_bytes() + dec(n) + "] ".spec_bytes() + "▦ 表格 ".spec_bytes() + dec(rows) + "行×".spec_bytes()
                + dec(cols) + "列:\n".spec_bytes();
            &&& head.len() <= text_block(n, Block::Table(t)).len()
            &&& text_block(n, Block::Table(t)).subrange(0, head.len() as int) == head
        }),
{
    let rows = t.rows@.len();
    let cols: nat = if t.rows@.len() > 0 { t.rows@[0].cells@.len() } else { 0 };
    let head = "[".spec_bytes() + dec(n) + "] ".spec_bytes() + "▦ 表格 ".spec_bytes() + dec(rows) + "行×".spec_bytes() + dec(cols)
        + "列:\n".spec_bytes();
    let line = text_block(n, Block::Table(t));
    let tail = rows_tt(t.rows@, t.rows@.len() as int, "     ".spec_bytes());
    assert(line =~= head + tail);
    assert(line.subrange(0, head.len() as int) =~= head);
}

/// The text projection of one block: its lines with the block number; a
/// table lists the text of its cells.
fn render_text_block(n: usize, block: &Block, out: &mut Vec<u8>)
    ensures
        final(out)@ == old(out)@ + text_block(n as nat, *block),
{
    let ghost nb = "[".spec_bytes() + dec(n as nat) + "] ".spec_bytes();
    let ghost o0 = out@;
    match block {
        Block::Paragraph(p) => {
            let text = para_text(p);
            if is_blank(text.as_slice()) {
                push_block_no(out, n);
                push_str(out, "(空)\n");
                assert(out@ =~= o0 + nb + "(空)\n".spec_bytes());
            } else {
                let ghost target = o0 + lines_from(text@, nb, 0, 0);
                let mut i: usize = 0;
                let mut line_start: usize = 0;
                assert(out@ + lines_from(text@, nb, 0, 0) =~= target);
                while i <= text.len()
                    invariant_except_break
                        out@ + lines_from(text@, nb, line_start as int, i as int) == target,
                    invariant
                        line_start <= i <= text@.len(),
                        nb == "[".spec_bytes() + dec(n as nat) + "] ".spec_bytes(),
                    ensures
                        out@ == target,
                    decreases text@.len() + 1 - i,
                {
                    let ghost ob = out@;
                    if i == text.len() || text[i] == 10 {
                        push_block_no(out, n);
                        let line = slice_vec(text.as_slice(), line_start, i);
                        push_bytes(out, line.as_slice());
                        out.push(10u8);
                        assert(out@ =~= ob + (nb + text@.subrange(line_start as int, i as int) + seq![10u8]));
                        if i < text.len() {
                            line_start = i + 1;
                        }
                    }
                    if i == text.len() {
                        break;
                    }
                    i = i + 1;
                }
            }
        },
        Block::Table(t) => {
            push_block_no(out, n);
            push_str(out, "▦ 表格 ");
            push_usize(out, t.rows.len());
            push_str(out, "行×");
            push_usize(out, cols_of(t));
            push_str(out, "列:\n");
            let prefix = str_bytes("     ");
            render_table_text(t, prefix.as_slice(), out);
            assert(out@ =~= o0 + text_block(n as nat, *block));
        },
    }
}


/// The header and footer relationships of the main document part:
/// (relationship ID, part path) for each relationship whose type ends in
/// `/header` or `/footer`. A target is taken relative to `word/`, or from
/// the package root when it starts with `/`. A package without
/// relationships has none.
pub fn header_footer_rels(bytes: &[u8]) -> (r: DocResult<Vec<(Vec<u8>, Vec<u8>)>>)
    ensures
        crate::zip_io::zip_entry_of(bytes@, "word/_rels/document.xml.rels"@) == Some(None::<Seq<u8>>) ==> (r matches Ok(
            v) && v@.len() == 0),
        crate::zip_io::zip_entry_of(bytes@, "word/_rels/document.xml.rels"@) is None ==> r is Err,
        r matches Err(e) ==> e.kind == ErrorKind::Internal,
{
    let mut out: Vec<(Vec<u8>, Vec<u8>)> = Vec::new();
    let xml = match docx::read_entry(bytes, "word/_rels/document.xml.rels")? {
        Some(x) => x,
        None => {
            return Ok(out);
        },
    };
    let root = xml_dom::parse(xml.as_slice())?;
    let mut i: usize = 0;
    while i < root.children.len()
        decreases root.children@.len() - i,
    {
        if let xml_dom::Node::Element(e) = &root.children[i] {
            if e.is("Relationship") {
                match (e.attr_str("Type"), e.attr_str("Id"), e.attr_str("Target")) {
                    (Some(t), Some(id), Some(target)) => {
                        if ends_with(t.as_slice(), "/header".as_bytes()) || ends_with(t.as_slice(), "/footer".as_bytes()) {
                            let part = if target.len() > 0 && target[0] == 47 {
                                slice_vec(target.as_slice(), 1, target.len())
                            } else {
                                let mut p = str_bytes("word/");
                                push_bytes(&mut p, target.as_slice());
                                p
                            };
                            out.push((slice_vec(id.as_slice(), 0, id.len()), part));
                        }
                    },
                    _ => {},
                }
            }
        }
        i = i + 1;
    }
    Ok(out)
}

/// The text of a header or footer part, trimmed; a part is read once and
/// kept in `cache`.
fn part_text(bytes: &[u8], part: &[u8], cache: &mut Vec<(Vec<u8>, Vec<u8>)>) -> (r: DocResult<Vec<u8>>)
    ensures
        r matches Err(e) ==> e.kind == ErrorKind::Internal,
{
    let mut i: usize = 0;
    while i < cache.len()
        decreases cache@.len() - i,
    {
        if bytes_eq(cache[i].0.as_slice(), part) {
            return Ok(slice_vec(cache[i].1.as_slice(), 0, cache[i].1.len()));
        }
        i = i + 1;
    }
    let name = bytes_to_string(part);
    let text = match docx::read_entry(bytes, name.as_str())? {
        Some(xml) => match xml_dom::parse(xml.as_slice()) {
            Ok(dom) => {
                let m = build_document(&dom);
                let mut t: Vec<u8> = Vec::new();
                blocks_text(m.body.as_slice(), &mut t);
                trim(t.as_slice())
            },
            Err(_) => str_bytes("（部件 XML 损坏）"),
        },
        None => {
            let mut t = str_bytes("（部件 ");
            push_bytes(&mut t, part);
            push_str(&mut t, " 在包中缺失）");
            t
        },
    };
    cache.push((slice_vec(part, 0, part.len()), slice_vec(text.as_slice(), 0, text.len())));
    Ok(text)
}

/// The target of the first relation of `rels[k..]` with ID `rid`.
pub open spec fn rel_from(rels: Seq<(Vec<u8>, Vec<u8>)>, rid: Seq<u8>, k: int) -> Option<Seq<u8>>
    decreases rels.len() - k,
{
    if k < 0 || k >= rels.len() {
        None
    } else if rels[k].0@ == rid {
        Some(rels[k].1@)
    } else {
        rel_from(rels, rid, k + 1)
    }
}

fn lookup_rel<'a>(rels: &'a Vec<(Vec<u8>, Vec<u8>)>, rid: &[u8]) -> (r: Option<&'a Vec<u8>>)
    ensures
        match rel_from(rels@, rid@, 0) {
            Some(t) => r matches Some(v) && v@ == t,
            None => r is None,
        },
{
    let mut i: usize = 0;
    while i < rels.len()
        invariant
            i <= rels@.len(),
            rel_from(rels@, rid@, i as int) == rel_from(rels@, rid@, 0),
        decreases rels@.len() - i,
    {
        if bytes_eq(rels[i].0.as_slice(), rid) {
            return Some(&rels[i].1);
        }
        i = i + 1;
    }
    None
}

fn render_refs(bytes: &[u8], label: &str, refs: &Vec<(Vec<u8>, Vec<u8>)>, rels: &Vec<(Vec<u8>, Vec<u8>)>,
    cache: &mut Vec<(Vec<u8>, Vec<u8>)>, out: &mut Vec<u8>) -> (r: DocResult<usize>)
    ensures
        r matches Err(e) ==> e.kind == ErrorKind::Internal,
{
    let mut i: usize = 0;
    while i < refs.len()
        invariant
            i <= refs@.len(),
        decreases refs@.len() - i,
    {
        let (typ, rid) = &refs[i];
        let desc = match lookup_rel(rels, rid.as_slice()) {
            Some(part) => {
                let text = part_text(bytes, part.as_slice(), cache)?;
                if text.len() == 0 {
                    str_bytes("（空）")
                } else {
                    indent_continuation(text.as_slice())
                }
            },
            None => {
                let mut d = str_bytes("（引用 ");
                push_bytes(&mut d, rid.as_slice());
                push_str(&mut d, " 在 rels 中悬空——部件缺失）");
                d
            },
        };
        push_str(out, "  ");
        push_str(out, label);
        out.push(32u8);
        push_bytes(out, typ.as_slice());
        push_str(out, ": ");
        push_bytes(out, desc.as_slice());
        out.push(10u8);
        i = i + 1;
    }
    Ok(i)
}

/// The headers and footers projection: for each section, its header and
/// footer references with the text of the parts they name.
fn render_headers_footers(bytes: &[u8], model: &DocxDocument, out: &mut Vec<u8>) -> (r: DocResult<()>)
    ensures
        r matches Err(e) ==> e.kind == ErrorKind::Internal,
{
    let rels = header_footer_rels(bytes)?;
    push_str(out, "页眉页脚（");
    push_usize(out, model.sections.len());
    push_str(out, " 节；类型 default=默认页 first=首页 even=偶数页；未显式引用的节沿用上一节）\n");
    if model.sections.len() == 0 {
        push_str(out, "（文档无分节信息——无页眉页脚）\n");
        return Ok(());
    }
    let mut cache: Vec<(Vec<u8>, Vec<u8>)> = Vec::new();
    let mut i: usize = 0;
    while i < model.sections.len()
        decreases model.sections@.len() - i,
    {
        let sec = &model.sections[i];
        push_str(out, "\n[节 ");
        push_usize(out, i + 1);
        push_str(out, "]\n");
        let h = render_refs(bytes, "页眉", &sec.header_refs, &rels, &mut cache, out)?;
        let f = render_refs(bytes, "页脚", &sec.footer_refs, &rels, &mut cache, out)?;
        if h == 0 && f == 0 {
            push_str(out, "  （本节未显式引用——Word 沿用上一节；首节则为空）\n");
        }
        i = i + 1;
    }
    Ok(())
}

/// Projects the structure of a docx package. `word/document.xml` is read
/// and modelled; `word/styles.xml` is optional (missing or broken: no
/// styles). The three block projections show the range of [`spec_range`];
/// the headers and footers projection goes by sections and refuses a block
/// range. A package without a readable `word/document.xml` is an internal error.
pub fn inspect_document(bytes: &[u8], req: &InspectRequest) -> (r: DocResult<InspectReport>)
    ensures
        !(crate::zip_io::zip_entry_of(bytes@, "word/document.xml"@) matches Some(Some(_))) ==> (r matches Err(e)
            && e.kind == ErrorKind::Internal),
        r matches Ok(rep) ==> if req.projection == InspectProjection::HeadersFooters {
            req.start is None && req.end is None && rep.range.0 == 1 && rep.range.1 >= 1 && !rep.has_more
        } else {
            spec_range(rep.total_blocks, req.projection, req.start, req.end) == Some((rep.range.0, rep.range.1, rep.has_more))
        },
        r matches Err(e) ==> e.kind == ErrorKind::Internal || (e.kind == ErrorKind::Validation && (
            req.projection == InspectProjection::HeadersFooters ==> (req.start is Some || req.end is Some))),
        crate::zip_io::zip_entry_of(bytes@, "word/document.xml"@) matches Some(Some(c)) && vstd::utf8::valid_utf8(c)
            && xml_dom::spec_parses(c) && crate::zip_io::zip_entry_of(bytes@, "word/styles.xml"@) is Some
            && req.projection != InspectProjection::HeadersFooters && req.start is None && (req.end matches Some(e)
            ==> e >= 1) ==> r is Ok,
{
    let doc_xml = docx::read_document_xml(bytes)?;
    let dom = xml_dom::parse(doc_xml.as_slice())?;
    let model = build_document(&dom);
    let styles_xml = docx::read_entry(bytes, "word/styles.xml")?;
    let styles = match &styles_xml {
        Some(x) => match xml_dom::parse(x.as_slice()) {
            Ok(d) => styles::parse_styles(&d),
            Err(_) => Stylesheet::empty(),
        },
        None => Stylesheet::empty(),
    };
    let total = model.body.len();
    let (start, end, has_more) = if req.projection == InspectProjection::HeadersFooters {
        if req.start.is_some() || req.end.is_some() {
            return Err(DocError::validation(str_bytes(
                "参数不适用：projection=headers_footers 按节组织，不接受 start/end。三档块区间投影（outline/format/text）才支持分页。",
            )));
        }
        let n = if model.sections.len() > 1 {
            model.sections.len()
        } else {
            1
        };
        (1, n, false)
    } else {
        resolve_range(total, req)?
    };
    let mut content: Vec<u8> = Vec::new();
    render_header(&model, total, &mut content);
    if req.projection == InspectProjection::HeadersFooters {
        render_headers_footers(bytes, &model, &mut content)?;
    } else {
        let mut i: usize = if start >= 1 { start - 1 } else { 0 };
        let stop = if end < total { end } else { total };
        while i < stop
            invariant
                stop <= model.body@.len(),
            decreases stop - i,
        {
            let block = &model.body[i];
            match req.projection {
                InspectProjection::Outline => render_outline_line(&styles, i + 1, block, &mut content),
                InspectProjection::Format => render_format_block(&styles, i + 1, block, &mut content),
                _ => render_text_block(i + 1, block, &mut content),
            }
            i = i + 1;
        }
    }
    Ok(InspectReport { total_blocks: total, range: (start, end), has_more, content: bytes_to_string(content.as_slice()) })
}

} // verus!
